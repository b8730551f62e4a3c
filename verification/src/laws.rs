//! General laws of the list operations, stated over the view.

use crate::list::appended;
use crate::list::deleted;
use crate::list::drop_leading_matches;
use crate::list::find_index;
use crate::list::inserted;
use crate::list::prepended;
use crate::list::remove_first_match;
use vstd::prelude::*;
use vstd::std_specs::cmp::PartialEqSpec;

verus! {

/// A search for `v` lands on the first position of `s` whose value
/// compares equal to `v`: every earlier value compares unequal, and the
/// position itself, when it lies inside `s`, compares equal. When no
/// value of `s` compares equal, the search lands one past the end.
pub proof fn lemma_find_index_first<T: PartialEq>(s: Seq<T>, v: T)
    ensures
        0 <= find_index(s, v) <= s.len(),
        forall|j: int| 0 <= j < find_index(s, v) ==> !(#[trigger] s[j]).eq_spec(&v),
        find_index(s, v) < s.len() ==> s[find_index(s, v)].eq_spec(&v),
    decreases s.len(),
{
    if s.len() == 0 || s[0].eq_spec(&v) {
    } else {
        lemma_find_index_first(s.skip(1), v);
        assert forall|j: int| 0 <= j < find_index(s, v) implies !(#[trigger] s[j]).eq_spec(&v) by {
            if j >= 1 {
                assert(s.skip(1)[j - 1] == s[j]);
                assert(!s.skip(1)[j - 1].eq_spec(&v));
            }
        }
        if find_index(s, v) < s.len() {
            assert(s.skip(1)[find_index(s, v) - 1] == s[find_index(s, v)]);
        }
    }
}

/// When the first `k` values of `s` all compare equal to `v` and the
/// value after them, if any, does not, discarding the leading run of
/// matches discards exactly those `k` values.
pub proof fn lemma_drop_leading_is_skip<T: PartialEq>(s: Seq<T>, v: T, k: int)
    requires
        0 <= k <= s.len(),
        forall|j: int| 0 <= j < k ==> (#[trigger] s[j]).eq_spec(&v),
        k < s.len() ==> !s[k].eq_spec(&v),
    ensures
        drop_leading_matches(s, v) == s.skip(k),
    decreases k,
{
    if k == 0 {
        assert(s.skip(0) =~= s);
    } else {
        assert forall|j: int| 0 <= j < k - 1 implies (#[trigger] s.skip(1)[j]).eq_spec(&v) by {
            assert(s.skip(1)[j] == s[j + 1]);
        }
        if k - 1 < s.skip(1).len() {
            assert(s.skip(1)[k - 1] == s[k]);
        }
        lemma_drop_leading_is_skip(s.skip(1), v, k - 1);
        assert(s.skip(1).skip(k - 1) =~= s.skip(k));
    }
}

/// Successive prepends put their values in reverse call order at the
/// front of the view, while successive appends keep call order at the
/// back.
pub proof fn lemma_prepend_append_order<T>(s: Seq<T>, a: T, b: T)
    ensures
        prepended(prepended(s, a), b) == seq![b, a] + s,
        appended(appended(s, a), b) == s + seq![a, b],
{
    assert(prepended(prepended(s, a), b) =~= seq![b, a] + s);
    assert(appended(appended(s, a), b) =~= s + seq![a, b]);
}

/// Inserting at position 0 is exactly a prepend.
pub proof fn lemma_insert_at_zero<T>(s: Seq<T>, v: T)
    ensures
        inserted(s, v, 0) == prepended(s, v),
{
    assert(inserted(s, v, 0) =~= prepended(s, v));
}

/// Inserting at or past the current length is exactly an append.
pub proof fn lemma_insert_at_or_past_end<T>(s: Seq<T>, v: T, i: int)
    requires
        i >= s.len(),
    ensures
        inserted(s, v, i) == appended(s, v),
{
    assert(inserted(s, v, i) =~= appended(s, v));
}

/// Deleting `v` from a list whose head starts a maximal run of `k >= 1`
/// values comparing equal to `v` removes that entire run, and then at
/// most one more value: the structurally first match of the remainder,
/// if one exists; every other later match is left untouched.
pub proof fn lemma_delete_leading_run<T: PartialEq>(s: Seq<T>, v: T, k: int)
    requires
        1 <= k <= s.len(),
        forall|j: int| 0 <= j < k ==> (#[trigger] s[j]).eq_spec(&v),
        k < s.len() ==> !s[k].eq_spec(&v),
    ensures
        deleted(s, v) == remove_first_match(s.skip(k), v),
{
    lemma_drop_leading_is_skip(s, v, k);
}

/// Deleting from an empty list leaves it empty.
pub proof fn lemma_delete_on_empty<T: PartialEq>(v: T)
    ensures
        deleted(Seq::<T>::empty(), v) == Seq::<T>::empty(),
{
}

} // verus!
