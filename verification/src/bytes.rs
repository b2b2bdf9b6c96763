//! Copying helpers for byte strings and lists of byte strings.

use vstd::prelude::*;

verus! {

/// Copy a byte string.
pub fn clone_bytes(v: &Vec<u8>) -> (r: Vec<u8>)
    ensures
        r@ == v@,
{
    let mut r: Vec<u8> = Vec::new();
    let mut i: usize = 0;
    while i < v.len()
        invariant
            i <= v@.len(),
            r@ == v@.subrange(0, i as int),
        decreases v@.len() - i,
    {
        r.push(v[i]);
        i += 1;
        proof {
            assert(r@ =~= v@.subrange(0, i as int));
        }
    }
    proof {
        assert(v@.subrange(0, v@.len() as int) =~= v@);
    }
    r
}

/// Copy a list of byte strings.
pub fn clone_values(v: &Vec<Vec<u8>>) -> (r: Vec<Vec<u8>>)
    ensures
        r.deep_view() == v.deep_view(),
{
    let mut r: Vec<Vec<u8>> = Vec::new();
    let mut i: usize = 0;
    while i < v.len()
        invariant
            i <= v@.len(),
            r@.len() == i,
            forall|k: int| 0 <= k < i ==> #[trigger] r@[k]@ == v@[k]@,
        decreases v@.len() - i,
    {
        let b = clone_bytes(&v[i]);
        r.push(b);
        i += 1;
    }
    proof {
        assert forall|k: int| 0 <= k < v@.len() implies r.deep_view()[k] == v.deep_view()[k] by {
            assert(r.deep_view()[k] == r@[k].deep_view());
            assert(r@[k].deep_view() =~= r@[k]@);
            assert(v.deep_view()[k] == v@[k].deep_view());
            assert(v@[k].deep_view() =~= v@[k]@);
            assert(r@[k]@ == v@[k]@);
        }
        assert(r.deep_view() =~~= v.deep_view());
    }
    r
}

/// Appending one element appends its deep view.
pub proof fn lemma_deep_view_push<T: DeepView>(v0: Vec<T>, v1: Vec<T>, b: T)
    requires
        v1@ == v0@.push(b),
    ensures
        v1.deep_view() =~= v0.deep_view().push(b.deep_view()),
{
    assert forall|k: int| 0 <= k < v1@.len() implies v1.deep_view()[k] == v0.deep_view().push(
        b.deep_view(),
    )[k] by {
        assert(v1.deep_view()[k] == v1@[k].deep_view());
        if k < v0@.len() {
            assert(v1@[k] == v0@[k]);
            assert(v0.deep_view()[k] == v0@[k].deep_view());
        } else {
            assert(v1@[k] == b);
        }
    }
}

/// Concatenating two vectors concatenates their deep views.
pub proof fn lemma_deep_view_concat<T: DeepView>(v0: Vec<T>, v1: Vec<T>, v2: Vec<T>)
    requires
        v2@ == v0@ + v1@,
    ensures
        v2.deep_view() =~= v0.deep_view() + v1.deep_view(),
{
    assert forall|k: int| 0 <= k < v2@.len() implies v2.deep_view()[k] == (v0.deep_view()
        + v1.deep_view())[k] by {
        assert(v2.deep_view()[k] == v2@[k].deep_view());
        if k < v0@.len() {
            assert(v2@[k] == v0@[k]);
            assert(v0.deep_view()[k] == v0@[k].deep_view());
        } else {
            assert(v2@[k] == v1@[k - v0@.len()]);
            assert(v1.deep_view()[k - v0@.len()] == v1@[k - v0@.len()].deep_view());
        }
    }
}

/// The deep view of a byte vector is its view.
pub proof fn lemma_bytes_deep_view(v: Vec<u8>)
    ensures
        v.deep_view() =~= v@,
{
}

/// Copy the byte range `[a, b)` of `v`.
pub fn copy_range(v: &Vec<u8>, a: usize, b: usize) -> (r: Vec<u8>)
    requires
        a <= b <= v@.len(),
    ensures
        r@ == v@.subrange(a as int, b as int),
{
    let mut r: Vec<u8> = Vec::new();
    let mut i: usize = a;
    while i < b
        invariant
            a <= i <= b <= v@.len(),
            r@ == v@.subrange(a as int, i as int),
        decreases b - i,
    {
        r.push(v[i]);
        i += 1;
        proof {
            assert(r@ =~= v@.subrange(a as int, i as int));
        }
    }
    r
}

} // verus!
