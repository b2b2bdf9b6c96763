//! The flag parser shared by the command-line tools. Arguments are scanned
//! left to right: an argument that starts with a dash names one or more
//! single-character flags, and any other argument attaches to the most
//! recently matched flag, or counts as a free argument when no flag has
//! matched yet.

use vstd::prelude::*;
use crate::bytes::clone_bytes;
use crate::bytes::clone_values;
use crate::bytes::lemma_deep_view_push;
use crate::bytes::lemma_bytes_deep_view;

verus! {

pub const DASH: u8 = 45;

/// One command-line flag: its single-character id, a short description for
/// the usage text, and the values attached to it so far.
pub struct Flag {
    pub id: u8,
    pub description: &'static str,
    pub values: Vec<Vec<u8>>,
}

/// The mathematical content of a flag: its id and its attached values. The
/// description plays no role in parsing.
#[verifier::ext_equal]
pub struct FlagModel {
    pub id: u8,
    pub values: Seq<Seq<u8>>,
}

impl Flag {
    pub open spec fn model(&self) -> FlagModel {
        FlagModel { id: self.id, values: self.values.deep_view() }
    }
}

/// The models of a list of flags.
pub open spec fn models(flags: Seq<Flag>) -> Seq<FlagModel> {
    flags.map_values(|f: Flag| f.model())
}

/// Index of the first flag with the given id, if any.
pub open spec fn spec_find_flag(flags: Seq<FlagModel>, id: u8) -> Option<int>
    decreases flags.len(),
{
    if flags.len() == 0 {
        None
    } else if flags[0].id == id {
        Some(0)
    } else {
        match spec_find_flag(flags.drop_first(), id) {
            Some(i) => Some(i + 1),
            None => None,
        }
    }
}

/// What `spec_find_flag` returns: the least index carrying the id, or
/// nothing when no flag carries it.
pub proof fn lemma_find_flag(flags: Seq<FlagModel>, id: u8)
    ensures
        match spec_find_flag(flags, id) {
            Some(i) => 0 <= i < flags.len() && flags[i].id == id && forall|j: int|
                0 <= j < i ==> flags[j].id != id,
            None => forall|j: int| 0 <= j < flags.len() ==> flags[j].id != id,
        },
    decreases flags.len(),
{
    if flags.len() > 0 && flags[0].id != id {
        lemma_find_flag(flags.drop_first(), id);
        match spec_find_flag(flags.drop_first(), id) {
            Some(i) => {
                assert(flags[i + 1] == flags.drop_first()[i]);
                assert forall|j: int| 0 <= j < i + 1 implies flags[j].id != id by {
                    if j > 0 {
                        assert(flags[j] == flags.drop_first()[j - 1]);
                    }
                }
            },
            None => {
                assert forall|j: int| 0 <= j < flags.len() implies flags[j].id != id by {
                    if j > 0 {
                        assert(flags[j] == flags.drop_first()[j - 1]);
                    }
                }
            },
        }
    }
}

/// The parser's mutable state: the flags matched so far and the free
/// arguments seen so far.
#[verifier::ext_equal]
pub struct CliState {
    pub matched: Seq<FlagModel>,
    pub free: Seq<Seq<u8>>,
}

/// One non-flag argument: it attaches to the most recently matched flag,
/// or becomes a free argument when no flag has matched yet.
pub open spec fn spec_handle_non_flag(st: CliState, arg: Seq<u8>) -> CliState {
    if st.matched.len() > 0 {
        let n = st.matched.len() - 1;
        let f = st.matched[n as int];
        CliState {
            matched: st.matched.update(
                n as int,
                FlagModel { id: f.id, values: f.values.push(arg) },
            ),
            free: st.free,
        }
    } else {
        CliState { matched: st.matched, free: st.free.push(arg) }
    }
}

/// The flag characters of one dash argument, in order: each known one adds
/// a copy of its program flag to the matched flags; the first unknown one
/// stops the parse and is reported.
pub open spec fn spec_parse_flags(
    pf: Seq<FlagModel>,
    matched: Seq<FlagModel>,
    chars: Seq<u8>,
) -> (Seq<FlagModel>, Option<u8>)
    decreases chars.len(),
{
    if chars.len() == 0 {
        (matched, None)
    } else {
        match spec_find_flag(pf, chars[0]) {
            None => (matched, Some(chars[0])),
            Some(i) => spec_parse_flags(pf, matched.push(pf[i]), chars.drop_first()),
        }
    }
}

/// One argument: a dash argument names flags, anything else attaches as a
/// value or free argument.
pub open spec fn spec_step(pf: Seq<FlagModel>, st: CliState, arg: Seq<u8>) -> (CliState, Option<
    u8,
>) {
    if arg.len() > 0 && arg[0] == DASH {
        let (m, e) = spec_parse_flags(pf, st.matched, arg.drop_first());
        (CliState { matched: m, free: st.free }, e)
    } else {
        (spec_handle_non_flag(st, arg), None)
    }
}

/// A whole argument list, stopping at the first unknown flag character.
pub open spec fn spec_parse_args(pf: Seq<FlagModel>, st: CliState, args: Seq<Seq<u8>>) -> (
    CliState,
    Option<u8>,
)
    decreases args.len(),
{
    if args.len() == 0 {
        (st, None)
    } else {
        let (st2, e) = spec_step(pf, st, args[0]);
        if e is Some {
            (st2, e)
        } else {
            spec_parse_args(pf, st2, args.drop_first())
        }
    }
}

/// The command-line parser: the program's flag table, the flags the user
/// set, and the free arguments, filled in by `parse_args`.
pub struct Rscli {
    pub program_name: Vec<u8>,
    pub program_flags: Vec<Flag>,
    pub matched_flags: Vec<Flag>,
    pub free_args: Vec<Vec<u8>>,
    pub examples: Vec<Vec<u8>>,
}

impl Rscli {
    /// The parser state: the models of the matched flags and the free
    /// arguments.
    pub open spec fn state(&self) -> CliState {
        CliState { matched: models(self.matched_flags@), free: self.free_args.deep_view() }
    }

    /// A fresh parser over a flag table, with nothing matched yet.
    pub fn new(program_name: Vec<u8>, program_flags: Vec<Flag>, examples: Vec<Vec<u8>>) -> (r:
        Rscli)
        ensures
            r.program_name == program_name,
            r.program_flags == program_flags,
            r.examples == examples,
            r.matched_flags@.len() == 0,
            r.free_args@.len() == 0,
    {
        Rscli { program_name, program_flags, matched_flags: Vec::new(), free_args: Vec::new(), examples }
    }

    /// The first program flag with the given id, if any.
    pub fn find_program_flag_by_id(&self, id: u8) -> (r: Option<&Flag>)
        ensures
            match r {
                Some(f) => {
                    &&& spec_find_flag(models(self.program_flags@), id) is Some
                    &&& f.model() == models(self.program_flags@)[spec_find_flag(
                        models(self.program_flags@),
                        id,
                    )->0]
                    &&& f.id == id
                },
                None => spec_find_flag(models(self.program_flags@), id) is None,
            },
    {
        find_flag_in(&self.program_flags, id)
    }

    /// The first matched flag with the given id, if any.
    pub fn find_user_flag_by_id(&self, id: u8) -> (r: Option<&Flag>)
        ensures
            match r {
                Some(f) => {
                    &&& spec_find_flag(models(self.matched_flags@), id) is Some
                    &&& f.model() == models(self.matched_flags@)[spec_find_flag(
                        models(self.matched_flags@),
                        id,
                    )->0]
                    &&& f.id == id
                },
                None => spec_find_flag(models(self.matched_flags@), id) is None,
            },
    {
        find_flag_in(&self.matched_flags, id)
    }

    /// Attach one non-flag argument: to the most recently matched flag, or
    /// to the free arguments when no flag has matched yet.
    pub fn handle_non_flag(&mut self, arg: &Vec<u8>)
        ensures
            final(self).program_name == old(self).program_name,
            final(self).program_flags == old(self).program_flags,
            final(self).examples == old(self).examples,
            final(self).state() == spec_handle_non_flag(old(self).state(), arg@),
    {
        let ghost st0 = self.state();
        let a = clone_bytes(arg);
        let ghost asnap = a;
        let n = self.matched_flags.len();
        if n > 0 {
            let mut f = self.matched_flags.pop().unwrap();
            let ghost fm0 = f.model();
            let ghost vals0 = f.values;
            f.values.push(a);
            proof {
                lemma_deep_view_push(vals0, f.values, asnap);
                lemma_bytes_deep_view(asnap);
                assert(f.model() =~~= (FlagModel { id: fm0.id, values: fm0.values.push(arg@) }));
            }
            let ghost fsnap = f;
            let ghost mf1 = self.matched_flags;
            self.matched_flags.push(f);
            proof {
                let goal = spec_handle_non_flag(st0, arg@);
                assert forall|k: int|
                    0 <= k < n implies models(self.matched_flags@)[k] == goal.matched[k] by {
                    assert(models(self.matched_flags@)[k] == self.matched_flags@[k].model());
                    if k < n - 1 {
                        assert(self.matched_flags@[k] == mf1@[k]);
                        assert(mf1@[k] == old(self).matched_flags@[k]);
                        assert(st0.matched[k] == old(self).matched_flags@[k].model());
                    } else {
                        assert(self.matched_flags@[k] == fsnap);
                        assert(st0.matched[k] == old(self).matched_flags@[k].model());
                        assert(old(self).matched_flags@[k] == old(self).matched_flags@[n - 1]);
                        assert(fm0 == st0.matched[n - 1]);
                    }
                }
                assert(models(self.matched_flags@) =~= goal.matched);
                assert(self.state() =~~= goal);
            }
        } else {
            let ghost fa0 = self.free_args;
            self.free_args.push(a);
            proof {
                lemma_deep_view_push(fa0, self.free_args, asnap);
                lemma_bytes_deep_view(asnap);
                assert(self.state() =~~= spec_handle_non_flag(st0, arg@));
            }
        }
    }

    /// Scan the flag characters of one dash argument, adding a copy of each
    /// known program flag to the matched flags; the first unknown character
    /// stops the scan and is returned as the error.
    pub fn parse_flags(&mut self, arg: &Vec<u8>) -> (r: Result<(), u8>)
        requires
            arg@.len() >= 1,
        ensures
            final(self).program_name == old(self).program_name,
            final(self).program_flags == old(self).program_flags,
            final(self).examples == old(self).examples,
            final(self).free_args == old(self).free_args,
            ({
                let me = spec_parse_flags(
                    models(old(self).program_flags@),
                    models(old(self).matched_flags@),
                    arg@.skip(1),
                );
                &&& models(final(self).matched_flags@) == me.0
                &&& (me.1 is None ==> r == Ok::<(), u8>(()))
                &&& (me.1 is Some ==> r == Err::<(), u8>(me.1->0))
            }),
    {
        let ghost pf = models(self.program_flags@);
        let ghost m0 = models(self.matched_flags@);
        let ghost chars = arg@.skip(1);
        let n = arg.len();
        let mut i: usize = 1;
        proof {
            assert(chars.skip(0) =~= chars);
        }
        while i < n
            invariant
                1 <= i <= n,
                n == arg@.len(),
                pf == models(self.program_flags@),
                m0 == models(old(self).matched_flags@),
                chars == arg@.skip(1),
                self.program_name == old(self).program_name,
                self.program_flags == old(self).program_flags,
                self.examples == old(self).examples,
                self.free_args == old(self).free_args,
                spec_parse_flags(pf, m0, chars) == spec_parse_flags(
                    pf,
                    models(self.matched_flags@),
                    chars.skip(i - 1),
                ),
            decreases n - i,
        {
            let c = arg[i];
            proof {
                assert(chars.skip(i - 1)[0] == arg@[i as int]);
            }
            let found = find_flag_index(&self.program_flags, c);
            match found {
                None => {
                    proof {
                        assert(chars.skip(i - 1).len() > 0);
                        assert(chars.skip(i - 1)[0] == c);
                        assert(spec_find_flag(pf, c) is None);
                        assert(spec_parse_flags(pf, models(self.matched_flags@), chars.skip(i - 1))
                            == (models(self.matched_flags@), Some(c)));

                    }
                    return Err(c);
                },
                Some(k) => {
                    let ghost mcur = models(self.matched_flags@);
                    let ghost mfsnap = self.matched_flags;
                    let nf = duplicate_flag(&self.program_flags[k]);
                    let ghost nfsnap = nf;
                    self.matched_flags.push(nf);
                    proof {
                        assert(pf[k as int] == self.program_flags@[k as int].model());
                        assert forall|j: int|
                            0 <= j < self.matched_flags@.len() implies models(
                            self.matched_flags@,
                        )[j] == mcur.push(pf[k as int])[j] by {
                            assert(models(self.matched_flags@)[j] == self.matched_flags@[
                                j
                            ].model());
                            if j < mfsnap@.len() {
                                assert(self.matched_flags@[j] == mfsnap@[j]);
                                assert(mcur[j] == mfsnap@[j].model());
                            } else {
                                assert(self.matched_flags@[j] == nfsnap);
                            }
                        }
                        assert(models(self.matched_flags@) =~= mcur.push(pf[k as int]));
                        assert(chars.skip(i - 1).drop_first() =~= chars.skip(i as int));
                        assert(spec_parse_flags(pf, mcur, chars.skip(i - 1))
                            == spec_parse_flags(
                            pf,
                            models(self.matched_flags@),
                            chars.skip(i as int),
                        ));
                    }
                },
            }
            i += 1;
        }
        proof {
            assert(chars.skip(n - 1) =~= Seq::<u8>::empty());
        }
        Ok(())
    }

    /// Parse a whole argument list (the first element is the program name
    /// and is not parsed). Stops at the first unknown flag character, which
    /// is returned as the error; a caller then reports usage and stops.
    pub fn parse_args(&mut self, args: &Vec<Vec<u8>>) -> (r: Result<(), u8>)
        requires
            args@.len() >= 1,
        ensures
            final(self).program_name == old(self).program_name,
            final(self).program_flags == old(self).program_flags,
            final(self).examples == old(self).examples,
            ({
                let se = spec_parse_args(
                    models(old(self).program_flags@),
                    old(self).state(),
                    args.deep_view().skip(1),
                );
                &&& final(self).state() == se.0
                &&& (se.1 is None ==> r == Ok::<(), u8>(()))
                &&& (se.1 is Some ==> r == Err::<(), u8>(se.1->0))
            }),
    {
        let ghost pf = models(self.program_flags@);
        let ghost st0 = self.state();
        let ghost rest = args.deep_view().skip(1);
        let n = args.len();
        let mut i: usize = 1;
        proof {
            assert(rest.skip(0) =~= rest);
        }
        while i < n
            invariant
                1 <= i <= n,
                n == args@.len(),
                pf == models(self.program_flags@),
                st0 == old(self).state(),
                rest == args.deep_view().skip(1),
                self.program_name == old(self).program_name,
                self.program_flags == old(self).program_flags,
                self.examples == old(self).examples,
                spec_parse_args(pf, st0, rest) == spec_parse_args(
                    pf,
                    self.state(),
                    rest.skip(i - 1),
                ),
            decreases n - i,
        {
            let arg = &args[i];
            let ghost stcur = self.state();
            proof {
                assert(rest.skip(i - 1)[0] == args.deep_view()[i as int]);
                assert(args.deep_view()[i as int] == arg@);
                assert(rest.skip(i - 1).drop_first() =~= rest.skip(i as int));
            }
            if arg.len() > 0 && arg[0] == DASH {
                let res = self.parse_flags(arg);
                proof {
                    let (m, e) = spec_parse_flags(pf, stcur.matched, arg@.skip(1));
                    assert(self.state() =~~= (CliState { matched: m, free: stcur.free }));
                    assert(spec_step(pf, stcur, arg@) == (self.state(), e));
                }
                match res {
                    Err(c) => {
                        proof {
                            assert(spec_parse_args(pf, stcur, rest.skip(i - 1)) == (
                                self.state(),
                                Some(c),
                            ));
                        }
                        return Err(c);
                    },
                    Ok(()) => {},
                }
            } else {
                self.handle_non_flag(arg);
                proof {
                    assert(spec_step(pf, stcur, arg@) == (self.state(), None::<u8>));
                }
            }
            i += 1;
        }
        proof {
            assert(rest.skip(n - 1) =~= Seq::<Seq<u8>>::empty());
        }
        Ok(())
    }
}

/// The first flag with the given id in a list, if any.
fn find_flag_in(flags: &Vec<Flag>, id: u8) -> (r: Option<&Flag>)
    ensures
        match r {
            Some(f) => {
                &&& spec_find_flag(models(flags@), id) is Some
                &&& f.model() == models(flags@)[spec_find_flag(models(flags@), id)->0]
                &&& f.id == id
            },
            None => spec_find_flag(models(flags@), id) is None,
        },
{
    match find_flag_index(flags, id) {
        Some(i) => {
            let f = &flags[i];
            proof {
                lemma_find_flag(models(flags@), id);
                assert(models(flags@)[i as int] == flags@[i as int].model());
            }
            Some(f)
        },
        None => None,
    }
}

/// Index of the first flag with the given id in a list, if any.
fn find_flag_index(flags: &Vec<Flag>, id: u8) -> (r: Option<usize>)
    ensures
        match r {
            Some(i) => i < flags@.len() && spec_find_flag(models(flags@), id) == Some(i as int),
            None => spec_find_flag(models(flags@), id) is None,
        },
{
    let ghost fs = models(flags@);
    let n = flags.len();
    let mut i: usize = 0;
    while i < n
        invariant
            n == flags@.len(),
            fs == models(flags@),
            i <= n,
            forall|j: int| 0 <= j < i ==> fs[j].id != id,
        decreases n - i,
    {
        if flags[i].id == id {
            proof {
                lemma_find_flag(fs, id);
                if spec_find_flag(fs, id) is None {
                    assert(fs[i as int].id != id);
                }
                let w = spec_find_flag(fs, id)->0;
                if w < i {
                    assert(fs[w].id != id);
                }
                if w > i {
                    assert(fs[i as int].id != id);
                }
            }
            return Some(i);
        }
        i += 1;
    }
    proof {
        lemma_find_flag(fs, id);
        if spec_find_flag(fs, id) is Some {
            let w = spec_find_flag(fs, id)->0;
            assert(fs[w].id != id);
        }
    }
    None
}

/// Copy one flag, values included, as matching a program flag does.
fn duplicate_flag(f: &Flag) -> (r: Flag)
    ensures
        r.model() == f.model(),
        r.description == f.description,
{
    let r = Flag { id: f.id, description: f.description, values: clone_values(&f.values) };
    proof {
        assert(r.model() =~~= f.model());
    }
    r
}

} // verus!
