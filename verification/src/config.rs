//! The search configuration: flag characters of the search tools, the
//! output mode, and the configuration built once per invocation from the
//! parsed command line.

use vstd::prelude::*;
use crate::cli::Rscli;
use crate::cli::FlagModel;
use crate::cli::models;
use crate::cli::spec_find_flag;
use crate::bytes::clone_values;

verus! {

/// Match with regular expressions instead of literal patterns.
pub const REGEX_FLAG: u8 = 82;

/// Search recursively.
pub const RECURSIVE_FLAG: u8 = 114;

/// Print line numbers.
pub const LINE_NUMBER_FLAG: u8 = 110;

/// Print only file names without a match.
pub const NO_MATCH_ONLY_FLAG: u8 = 76;

/// Print only file names with a match.
pub const MATCH_ONLY_FLAG: u8 = 108;

/// Follow symbolic links.
pub const FOLLOW_SYMLINK_FLAG: u8 = 115;

/// Exclude entries whose canonical path contains a given substring.
pub const EXCLUDE_FLAG: u8 = 101;

/// Roots to search.
pub const PATH_FLAG: u8 = 112;

/// How results are rendered; exactly one mode is active per invocation.
#[derive(Clone, Copy, PartialEq, Eq, Structural, Debug)]
pub enum OutputMode {
    /// Matching lines, with path and separator only.
    Default,
    /// Matching lines, with 1-based line numbers.
    LineNumbers,
    /// Only the paths of files with at least one match.
    PathsWithMatch,
    /// Only the paths of files without any match.
    PathsWithoutMatch,
}

/// A configuration with more than one output-mode flag set is rejected
/// when it is built.
#[derive(Clone, Copy, PartialEq, Eq, Structural, Debug)]
pub enum ConfigError {
    ModeConflict,
}

/// Everything one search invocation depends on, built once from the
/// command line. Literal patterns and regex patterns are mutually
/// exclusive: `use_regex` selects which list matters.
#[derive(Debug)]
pub struct SearchConfig {
    pub recursive: bool,
    pub follow_symlinks: bool,
    pub exclude: Vec<Vec<u8>>,
    pub patterns: Vec<Vec<u8>>,
    pub regexes: Vec<Vec<u8>>,
    pub use_regex: bool,
    pub output_mode: OutputMode,
}

/// The mathematical content of a configuration.
#[verifier::ext_equal]
pub struct ConfigModel {
    pub recursive: bool,
    pub follow_symlinks: bool,
    pub exclude: Seq<Seq<u8>>,
    pub patterns: Seq<Seq<u8>>,
    pub regexes: Seq<Seq<u8>>,
    pub use_regex: bool,
    pub output_mode: OutputMode,
}

impl SearchConfig {
    pub open spec fn model(&self) -> ConfigModel {
        ConfigModel {
            recursive: self.recursive,
            follow_symlinks: self.follow_symlinks,
            exclude: self.exclude.deep_view(),
            patterns: self.patterns.deep_view(),
            regexes: self.regexes.deep_view(),
            use_regex: self.use_regex,
            output_mode: self.output_mode,
        }
    }
}

/// Whether a flag with the given id was matched on the command line.
pub open spec fn spec_has_flag(matched: Seq<FlagModel>, id: u8) -> bool {
    spec_find_flag(matched, id) is Some
}

/// The values attached to the first matched flag with the given id, or the
/// empty list when the flag was not matched.
pub open spec fn spec_flag_values(matched: Seq<FlagModel>, id: u8) -> Seq<Seq<u8>> {
    match spec_find_flag(matched, id) {
        Some(i) => matched[i].values,
        None => Seq::empty(),
    }
}

/// The output mode that a set of matched flags selects, or a conflict when
/// more than one mode flag is set.
pub open spec fn spec_output_mode(matched: Seq<FlagModel>) -> Result<OutputMode, ConfigError> {
    let n = spec_has_flag(matched, LINE_NUMBER_FLAG);
    let l = spec_has_flag(matched, MATCH_ONLY_FLAG);
    let ll = spec_has_flag(matched, NO_MATCH_ONLY_FLAG);
    if (n && l) || (n && ll) || (l && ll) {
        Err(ConfigError::ModeConflict)
    } else if n {
        Ok(OutputMode::LineNumbers)
    } else if l {
        Ok(OutputMode::PathsWithMatch)
    } else if ll {
        Ok(OutputMode::PathsWithoutMatch)
    } else {
        Ok(OutputMode::Default)
    }
}

/// What a configuration built from a parsed command line holds.
pub open spec fn spec_config_from_cli(cli: Rscli) -> Result<ConfigModel, ConfigError> {
    match spec_output_mode(models(cli.matched_flags@)) {
        Err(e) => Err(e),
        Ok(mode) => Ok(
            ConfigModel {
                recursive: spec_has_flag(models(cli.matched_flags@), RECURSIVE_FLAG),
                follow_symlinks: spec_has_flag(models(cli.matched_flags@), FOLLOW_SYMLINK_FLAG),
                exclude: spec_flag_values(models(cli.matched_flags@), EXCLUDE_FLAG),
                patterns: cli.free_args.deep_view(),
                regexes: spec_flag_values(models(cli.matched_flags@), REGEX_FLAG),
                use_regex: spec_has_flag(models(cli.matched_flags@), REGEX_FLAG),
                output_mode: mode,
            },
        ),
    }
}

impl SearchConfig {
    /// Build the configuration a parsed command line selects; a command
    /// line with more than one output-mode flag set is rejected.
    pub fn from_cli(cli: &Rscli) -> (r: Result<SearchConfig, ConfigError>)
        ensures
            match r {
                Ok(c) => spec_config_from_cli(*cli) == Ok::<ConfigModel, ConfigError>(c.model()),
                Err(e) => spec_config_from_cli(*cli) == Err::<ConfigModel, ConfigError>(e),
            },
    {
        let n = cli.find_user_flag_by_id(LINE_NUMBER_FLAG).is_some();
        let l = cli.find_user_flag_by_id(MATCH_ONLY_FLAG).is_some();
        let ll = cli.find_user_flag_by_id(NO_MATCH_ONLY_FLAG).is_some();
        if (n && l) || (n && ll) || (l && ll) {
            return Err(ConfigError::ModeConflict);
        }
        let output_mode = if n {
            OutputMode::LineNumbers
        } else if l {
            OutputMode::PathsWithMatch
        } else if ll {
            OutputMode::PathsWithoutMatch
        } else {
            OutputMode::Default
        };
        let c = SearchConfig {
            recursive: cli.find_user_flag_by_id(RECURSIVE_FLAG).is_some(),
            follow_symlinks: cli.find_user_flag_by_id(FOLLOW_SYMLINK_FLAG).is_some(),
            exclude: flag_values_of(cli, EXCLUDE_FLAG),
            patterns: clone_values(&cli.free_args),
            regexes: flag_values_of(cli, REGEX_FLAG),
            use_regex: cli.find_user_flag_by_id(REGEX_FLAG).is_some(),
            output_mode,
        };
        proof {
            assert(c.model() =~~= spec_config_from_cli(*cli)->Ok_0);
        }
        Ok(c)
    }
}

/// Copy the values of the first matched flag with the given id, or the
/// empty list when the flag was not matched.
fn flag_values_of(cli: &Rscli, id: u8) -> (r: Vec<Vec<u8>>)
    ensures
        r.deep_view() == spec_flag_values(models(cli.matched_flags@), id),
{
    match cli.find_user_flag_by_id(id) {
        Some(f) => {
            let vs = clone_values(&f.values);
            proof {
                assert(f.model().values == spec_flag_values(models(cli.matched_flags@), id));
            }
            vs
        },
        None => {
            let vs: Vec<Vec<u8>> = Vec::new();
            proof {
                assert(vs.deep_view() =~= Seq::<Seq<u8>>::empty());
            }
            vs
        },
    }
}

/// The content-search tool's validity check: at least one flag must be
/// set, and there must be search terms, either free arguments or a regex
/// flag.
pub fn validate(cli: &Rscli) -> (r: bool)
    ensures
        r == (models(cli.matched_flags@).len() > 0 && (cli.free_args.deep_view().len() > 0
            || spec_has_flag(models(cli.matched_flags@), REGEX_FLAG))),
{
    if cli.matched_flags.len() == 0 {
        return false;
    }
    if cli.free_args.len() == 0 && cli.find_user_flag_by_id(REGEX_FLAG).is_none() {
        return false;
    }
    true
}

/// The roots to search: the values of the path flag, or the current
/// directory when the flag was not given.
pub fn get_search_paths(cli: &Rscli) -> (r: Vec<Vec<u8>>)
    ensures
        spec_has_flag(models(cli.matched_flags@), PATH_FLAG) ==> r.deep_view()
            == spec_flag_values(models(cli.matched_flags@), PATH_FLAG),
        !spec_has_flag(models(cli.matched_flags@), PATH_FLAG) ==> r.deep_view() == seq![
            seq![46u8],
        ],
{
    match cli.find_user_flag_by_id(PATH_FLAG) {
        Some(f) => {
            let vs = clone_values(&f.values);
            proof {
                assert(f.model().values == spec_flag_values(models(cli.matched_flags@), PATH_FLAG));
            }
            vs
        },
        None => {
            let mut dot: Vec<u8> = Vec::new();
            dot.push(46);
            let mut vs: Vec<Vec<u8>> = Vec::new();
            let ghost d = dot@;
            vs.push(dot);
            proof {
                assert(d =~= seq![46u8]);
                assert(vs.deep_view() =~~= seq![seq![46u8]]);
            }
            vs
        },
    }
}

} // verus!
