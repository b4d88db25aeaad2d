//! The order relation of an element type, as contracts see it.
//!
//! Executable code compares elements with `<=` and `==`. Contracts speak of
//! the same comparisons through `le`, `lt` and `eqv`, which read the
//! element type's `partial_cmp_spec` and `eq_spec`.

use core::cmp::Ordering;
use vstd::prelude::*;
use vstd::std_specs::cmp::{PartialEqSpec, PartialOrdSpec};

verus! {

/// The operators `==` and `<=` of `T` compute what `eq_spec` and
/// `partial_cmp_spec` describe. Contracts can only pin down what a scan finds
/// for such types.
pub open spec fn operators_follow_model<T: PartialOrd>() -> bool {
    T::obeys_eq_spec() && T::obeys_partial_cmp_spec()
}

/// `a == b` under the element type's own equality.
pub open spec fn eqv<T: PartialOrd>(a: T, b: T) -> bool {
    a.eq_spec(&b)
}

/// `a <= b`: the comparison says "less" or "equal". False for unordered pairs.
pub open spec fn le<T: PartialOrd>(a: T, b: T) -> bool {
    a.partial_cmp_spec(&b) matches Some(Ordering::Less | Ordering::Equal)
}

/// `a < b`: the comparison says "less".
pub open spec fn lt<T: PartialOrd>(a: T, b: T) -> bool {
    a.partial_cmp_spec(&b) == Some(Ordering::Less)
}

/// `T` is totally ordered: any two values are comparable, `<=` is
/// transitive, `==` holds exactly where `<=` holds both ways, and `<` is the
/// strict part of `<=`.
pub open spec fn total_order<T: PartialOrd>() -> bool {
    &&& forall|a: T, b: T| #[trigger] le(a, b) || le(b, a)
    &&& forall|a: T, b: T| #[trigger] eqv(a, b) <==> le(a, b) && le(b, a)
    &&& forall|a: T, b: T| #[trigger] lt(a, b) <==> le(a, b) && !le(b, a)
    &&& forall|a: T, b: T, c: T| #[trigger] le(a, b) && #[trigger] le(b, c) ==> le(a, c)
}

/// Both of the above: the operators follow their model, and the model is a
/// total order. The queue's ordering guarantees are stated for such types.
pub open spec fn lawful_total_order<T: PartialOrd>() -> bool {
    operators_follow_model::<T>() && total_order::<T>()
}

/// Every element stands strictly before all later ones.
pub open spec fn strictly_ascending<T: PartialOrd>(s: Seq<T>) -> bool {
    forall|i: int, j: int| 0 <= i < j < s.len() ==> lt(#[trigger] s[i], #[trigger] s[j])
}

/// Where a front-to-back scan for `v` stops: the index of the first element
/// `e` with `v <= e`, or the length of `s` where there is none.
pub open spec fn insertion_index<T: PartialOrd>(s: Seq<T>, v: T) -> int
    decreases s.len(),
{
    if s.len() > 0 && !le(v, s[0]) {
        1 + insertion_index(s.drop_first(), v)
    } else {
        0
    }
}

/// `i` is where the scan for `v` stops: `v <= e` fails for every element
/// before `i`, and holds at `i` unless `i` is the end.
pub open spec fn scan_stops_at<T: PartialOrd>(s: Seq<T>, v: T, i: int) -> bool {
    &&& 0 <= i <= s.len()
    &&& forall|k: int| 0 <= k < i ==> !le(v, #[trigger] s[k])
    &&& i < s.len() ==> le(v, s[i])
}

/// The scan for `v` finds an element equal to `v` where it stops.
pub open spec fn finds_duplicate<T: PartialOrd>(s: Seq<T>, v: T) -> bool {
    let i = insertion_index(s, v);
    i < s.len() && eqv(s[i], v)
}

/// The queue's contents after a strict push of `v`: unchanged where the scan
/// finds an element equal to `v`, else with `v` inserted where the scan stops.
pub open spec fn after_push<T: PartialOrd>(s: Seq<T>, v: T) -> Seq<T> {
    if finds_duplicate(s, v) {
        s
    } else {
        s.insert(insertion_index(s, v), v)
    }
}

/// The queue's contents after an overwriting push of `v`: `v` takes the
/// place of the equal element that the scan finds, or is inserted where the
/// scan stops.
pub open spec fn after_push_overwrite<T: PartialOrd>(s: Seq<T>, v: T) -> Seq<T> {
    if finds_duplicate(s, v) {
        s.update(insertion_index(s, v), v)
    } else {
        s.insert(insertion_index(s, v), v)
    }
}

/// The queue's contents after strict pushes of the values of `vs`, one after
/// another, onto `s`.
pub open spec fn after_pushes<T: PartialOrd>(s: Seq<T>, vs: Seq<T>) -> Seq<T>
    decreases vs.len(),
{
    if vs.len() == 0 {
        s
    } else {
        after_push(after_pushes(s, vs.drop_last()), vs.last())
    }
}

/// Some element of `s` compares equal to `x`.
pub open spec fn holds_equal<T: PartialOrd>(s: Seq<T>, x: T) -> bool {
    exists|k: int| 0 <= k < s.len() && eqv(#[trigger] s[k], x)
}

/// The scan stops at exactly one index, and `insertion_index` names it.
pub proof fn lemma_insertion_index_is_scan_stop<T: PartialOrd>(s: Seq<T>, v: T)
    ensures
        scan_stops_at(s, v, insertion_index(s, v)),
        forall|i: int| scan_stops_at(s, v, i) ==> i == insertion_index(s, v),
    decreases s.len(),
{
    if s.len() > 0 && !le(v, s[0]) {
        let t = s.drop_first();
        lemma_insertion_index_is_scan_stop(t, v);
        let n = insertion_index(t, v);
        assert forall|k: int| 0 <= k < n + 1 implies !le(v, #[trigger] s[k]) by {
            if k > 0 {
                assert(s[k] == t[k - 1]);
            }
        }
        if n < t.len() {
            assert(s[n + 1] == t[n]);
        }
        assert forall|i: int| scan_stops_at(s, v, i) implies i == n + 1 by {
            assert(i > 0);
            assert forall|k: int| 0 <= k < i - 1 implies !le(v, #[trigger] t[k]) by {
                assert(t[k] == s[k + 1]);
            }
            if i - 1 < t.len() {
                assert(t[i - 1] == s[i]);
            }
            assert(scan_stops_at(t, v, i - 1));
        }
    } else {
        assert forall|i: int| scan_stops_at(s, v, i) implies i == 0 by {
            if i > 0 {
                assert(!le(v, s[0]));
            }
        }
    }
}

/// The integer types `u32`, `u64`, `usize`, `i32` and `i64` are lawfully and
/// totally ordered, so every guarantee that asks for such an order holds of
/// queues of them.
pub proof fn lemma_integers_are_lawful()
    ensures
        lawful_total_order::<u32>(),
        lawful_total_order::<u64>(),
        lawful_total_order::<usize>(),
        lawful_total_order::<i32>(),
        lawful_total_order::<i64>(),
{
    assert(lawful_total_order::<u32>()) by {}
    assert(lawful_total_order::<u64>()) by {}
    assert(lawful_total_order::<usize>()) by {}
    assert(lawful_total_order::<i32>()) by {}
    assert(lawful_total_order::<i64>()) by {}
}

} // verus!
