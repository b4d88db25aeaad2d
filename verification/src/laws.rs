//! What holds of the queue's contents under a total order.
//!
//! Each statement is about sequences and the spec functions that the
//! queue's contracts use, so it applies to any queue before and after a call.

use crate::order::{
    after_push, after_push_overwrite, after_pushes, eqv, finds_duplicate, holds_equal,
    insertion_index, le, lemma_insertion_index_is_scan_stop, lt, scan_stops_at,
    strictly_ascending, total_order,
};
use vstd::prelude::*;

verus! {

/// In a total order, `a <= b` fails only where `b < a`.
pub proof fn lemma_not_le_is_gt<T: PartialOrd>(a: T, b: T)
    requires
        total_order::<T>(),
        !le(a, b),
    ensures
        lt(b, a),
{
    assert(le(a, b) || le(b, a));
    assert(lt(b, a) <==> le(b, a) && !le(a, b));
}

/// In a total order, `a <= b` and `b < c` give `a < c`.
pub proof fn lemma_le_lt_is_lt<T: PartialOrd>(a: T, b: T, c: T)
    requires
        total_order::<T>(),
        le(a, b),
        lt(b, c),
    ensures
        lt(a, c),
{
    assert(lt(b, c) <==> le(b, c) && !le(c, b));
    assert(le(a, b) && le(b, c) ==> le(a, c));
    assert(le(c, a) && le(a, b) ==> le(c, b));
    assert(lt(a, c) <==> le(a, c) && !le(c, a));
}

/// In a total order, `a < b` and `b <= c` give `a < c`.
pub proof fn lemma_lt_le_is_lt<T: PartialOrd>(a: T, b: T, c: T)
    requires
        total_order::<T>(),
        lt(a, b),
        le(b, c),
    ensures
        lt(a, c),
{
    assert(lt(a, b) <==> le(a, b) && !le(b, a));
    assert(le(a, b) && le(b, c) ==> le(a, c));
    assert(le(b, c) && le(c, a) ==> le(b, a));
    assert(lt(a, c) <==> le(a, c) && !le(c, a));
}

/// Where the scan for `v` stops in an ascending sequence, everything before
/// is below `v`, and everything after the stop is above `v`.
pub proof fn lemma_scan_splits<T: PartialOrd>(s: Seq<T>, v: T)
    requires
        total_order::<T>(),
        strictly_ascending(s),
    ensures
        0 <= insertion_index(s, v) <= s.len(),
        forall|k: int| 0 <= k < insertion_index(s, v) ==> lt(#[trigger] s[k], v),
        forall|k: int| insertion_index(s, v) < k < s.len() ==> lt(v, #[trigger] s[k]),
        insertion_index(s, v) < s.len() ==> le(v, s[insertion_index(s, v)]),
        insertion_index(s, v) < s.len() && !eqv(s[insertion_index(s, v)], v) ==> lt(
            v,
            s[insertion_index(s, v)],
        ),
{
    let i = insertion_index(s, v);
    lemma_insertion_index_is_scan_stop(s, v);
    assert forall|k: int| 0 <= k < i implies lt(#[trigger] s[k], v) by {
        lemma_not_le_is_gt(v, s[k]);
    }
    assert forall|k: int| i < k < s.len() implies lt(v, #[trigger] s[k]) by {
        lemma_le_lt_is_lt(v, s[i], s[k]);
    }
    if i < s.len() && !eqv(s[i], v) {
        assert(eqv(s[i], v) <==> le(s[i], v) && le(v, s[i]));
        assert(lt(v, s[i]) <==> le(v, s[i]) && !le(s[i], v));
    }
}

/// Sort invariant: a strict push into an ascending sequence leaves it
/// ascending, whether it inserts or refuses.
pub proof fn law_push_keeps_order<T: PartialOrd>(s: Seq<T>, v: T)
    requires
        total_order::<T>(),
        strictly_ascending(s),
    ensures
        strictly_ascending(after_push(s, v)),
{
    if !finds_duplicate(s, v) {
        let i = insertion_index(s, v);
        let t = s.insert(i, v);
        lemma_scan_splits(s, v);
        assert forall|a: int, b: int| 0 <= a < b < t.len() implies lt(
            #[trigger] t[a],
            #[trigger] t[b],
        ) by {
            if b < i {
                assert(t[a] == s[a] && t[b] == s[b]);
            } else if b == i {
                assert(t[a] == s[a] && t[b] == v);
            } else if a < i {
                assert(t[a] == s[a] && t[b] == s[b - 1]);
                if b - 1 == i {
                    lemma_lt_le_is_lt(s[a], v, s[i]);
                }
            } else if a == i {
                assert(t[a] == v && t[b] == s[b - 1]);
            } else {
                assert(t[a] == s[a - 1] && t[b] == s[b - 1]);
            }
        }
    }
}

/// Sort invariant over any run of pushes: strict pushes of any values, one
/// after another, onto an ascending sequence (the empty one, for a new
/// queue) leave it ascending after each of them, and so without two elements
/// that compare equal.
pub proof fn law_pushes_keep_order<T: PartialOrd>(s: Seq<T>, vs: Seq<T>)
    requires
        total_order::<T>(),
        strictly_ascending(s),
    ensures
        strictly_ascending(after_pushes(s, vs)),
    decreases vs.len(),
{
    if vs.len() > 0 {
        law_pushes_keep_order(s, vs.drop_last());
        law_push_keeps_order(after_pushes(s, vs.drop_last()), vs.last());
    }
}

/// Overwrite keeps the order: an overwriting push into an ascending sequence
/// leaves it ascending, whether it inserts or replaces.
pub proof fn law_push_overwrite_keeps_order<T: PartialOrd>(s: Seq<T>, v: T)
    requires
        total_order::<T>(),
        strictly_ascending(s),
    ensures
        strictly_ascending(after_push_overwrite(s, v)),
{
    if finds_duplicate(s, v) {
        let i = insertion_index(s, v);
        let t = s.update(i, v);
        lemma_scan_splits(s, v);
        assert forall|a: int, b: int| 0 <= a < b < t.len() implies lt(
            #[trigger] t[a],
            #[trigger] t[b],
        ) by {
            if a != i && b != i {
                assert(t[a] == s[a] && t[b] == s[b]);
            }
        }
    } else {
        law_push_keeps_order(s, v);
    }
}

/// No duplicates: in an ascending sequence no two elements compare equal.
pub proof fn law_ascending_has_no_duplicates<T: PartialOrd>(s: Seq<T>)
    requires
        total_order::<T>(),
        strictly_ascending(s),
    ensures
        forall|i: int, j: int|
            0 <= i < s.len() && 0 <= j < s.len() && i != j ==> !eqv(#[trigger] s[i], #[trigger] s[j]),
{
    assert forall|i: int, j: int| 0 <= i < s.len() && 0 <= j < s.len() && i != j implies !eqv(
        #[trigger] s[i],
        #[trigger] s[j],
    ) by {
        assert(eqv(s[i], s[j]) <==> le(s[i], s[j]) && le(s[j], s[i]));
        if i < j {
            assert(lt(s[i], s[j]) <==> le(s[i], s[j]) && !le(s[j], s[i]));
        } else {
            assert(lt(s[j], s[i]) <==> le(s[j], s[i]) && !le(s[i], s[j]));
        }
    }
}

/// An element equal to `v` is the one the scan finds: where an ascending
/// sequence holds an element equal to `v` at `j`, the scan for `v` stops at
/// `j`, so a strict push fails there and an overwriting push replaces it.
pub proof fn law_equal_element_is_found<T: PartialOrd>(s: Seq<T>, v: T, j: int)
    requires
        total_order::<T>(),
        strictly_ascending(s),
        0 <= j < s.len(),
        eqv(s[j], v),
    ensures
        insertion_index(s, v) == j,
        finds_duplicate(s, v),
{
    assert(eqv(s[j], v) <==> le(s[j], v) && le(v, s[j]));
    assert forall|k: int| 0 <= k < j implies !le(v, #[trigger] s[k]) by {
        lemma_lt_le_is_lt(s[k], s[j], v);
        assert(lt(s[k], v) <==> le(s[k], v) && !le(v, s[k]));
    }
    assert(scan_stops_at(s, v, j));
    lemma_insertion_index_is_scan_stop(s, v);
}

/// A push meets a duplicate exactly where one is held: in an ascending
/// sequence the scan for `v` finds an equal element if and only if some
/// element is equal to `v`.
pub proof fn law_duplicate_found_iff_held<T: PartialOrd>(s: Seq<T>, v: T)
    requires
        total_order::<T>(),
        strictly_ascending(s),
    ensures
        finds_duplicate(s, v) <==> holds_equal(s, v),
{
    lemma_insertion_index_is_scan_stop(s, v);
    if holds_equal(s, v) {
        let j = choose|k: int| 0 <= k < s.len() && eqv(#[trigger] s[k], v);
        law_equal_element_is_found(s, v, j);
    }
}

/// Lengths across a push: a strict push that inserts makes the sequence one
/// longer and puts `v` where the scan stopped, a refused one leaves the same
/// sequence; an overwriting push adds one element unless it replaces one.
pub proof fn law_push_changes_length_by_outcome<T: PartialOrd>(s: Seq<T>, v: T)
    ensures
        finds_duplicate(s, v) ==> after_push(s, v) == s,
        !finds_duplicate(s, v) ==> after_push(s, v).len() == s.len() + 1,
        !finds_duplicate(s, v) ==> after_push(s, v)[insertion_index(s, v)] == v,
        after_push_overwrite(s, v).len() == s.len() + (if finds_duplicate(s, v) {
            0int
        } else {
            1int
        }),
{
    lemma_insertion_index_is_scan_stop(s, v);
}

/// Removal keeps the order: taking any one element out of an ascending
/// sequence leaves it ascending.
pub proof fn law_remove_keeps_order<T: PartialOrd>(s: Seq<T>, i: int)
    requires
        strictly_ascending(s),
        0 <= i < s.len(),
    ensures
        strictly_ascending(s.remove(i)),
{
    let t = s.remove(i);
    assert forall|a: int, b: int| 0 <= a < b < t.len() implies lt(
        #[trigger] t[a],
        #[trigger] t[b],
    ) by {
        let a0 = if a < i { a } else { a + 1 };
        let b0 = if b < i { b } else { b + 1 };
        assert(t[a] == s[a0] && t[b] == s[b0]);
    }
}

/// Pop ordering: the front of an ascending sequence is below every other
/// element, and what is left after taking it is ascending, so taking fronts
/// one after another yields the elements in ascending order.
pub proof fn law_front_is_least<T: PartialOrd>(s: Seq<T>)
    requires
        strictly_ascending(s),
        s.len() > 0,
    ensures
        forall|k: int| 0 <= k < s.drop_first().len() ==> lt(s[0], #[trigger] s.drop_first()[k]),
        strictly_ascending(s.drop_first()),
{
    let t = s.drop_first();
    assert forall|k: int| 0 <= k < t.len() implies lt(s[0], #[trigger] t[k]) by {
        assert(t[k] == s[k + 1]);
    }
    assert forall|a: int, b: int| 0 <= a < b < t.len() implies lt(
        #[trigger] t[a],
        #[trigger] t[b],
    ) by {
        assert(t[a] == s[a + 1] && t[b] == s[b + 1]);
    }
}

} // verus!
