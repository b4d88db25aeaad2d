//! The sorted queue itself.

use crate::laws::{
    law_duplicate_found_iff_held, law_front_is_least, law_push_keeps_order,
    law_push_overwrite_keeps_order, law_remove_keeps_order,
};
use crate::order::{
    after_push, after_push_overwrite, eqv, finds_duplicate, holds_equal, insertion_index,
    lawful_total_order, le, lemma_insertion_index_is_scan_stop, lt, operators_follow_model,
    scan_stops_at, strictly_ascending,
};
use std::collections::vec_deque::Iter;
use std::collections::VecDeque;
use vstd::std_specs::iter::IteratorSpec;
use vstd::std_specs::vecdeque::into_iter_elts;
use vstd::pervasive::unreached;
use vstd::prelude::*;

verus! {

/// Why a strict `push` did not insert.
#[derive(Debug, PartialEq, Eq, Structural)]
pub enum Error {
    /// The element at this index compares equal to the pushed value.
    DuplicateAt(usize),
}

/// How a scan that met an equal element ended: refused, or replaced.
enum ErrorInner<T> {
    DuplicateAt(usize),
    Replace(T),
}

/// A queue whose elements stand in ascending order, front to back.
///
/// The elements live in a ring buffer: taking the front is O(1); a push
/// scans from the front and then shifts elements, both O(n).
#[derive(Debug)]
pub struct SortedQueue<T: PartialOrd>(VecDeque<T>);

impl<T: PartialOrd> View for SortedQueue<T> {
    type V = Seq<T>;

    closed spec fn view(&self) -> Seq<T> {
        self.0@
    }
}

/// `t` is `s` with `v` inserted at some position.
pub open spec fn is_insertion_into<T>(t: Seq<T>, s: Seq<T>, v: T) -> bool {
    exists|i: int| 0 <= i <= s.len() && t == #[trigger] s.insert(i, v)
}

/// `t` is `s` with the element `x` at some position replaced by `v`.
pub open spec fn is_replacement_in<T>(t: Seq<T>, s: Seq<T>, x: T, v: T) -> bool {
    exists|i: int| 0 <= i < s.len() && s[i] == x && t == #[trigger] s.update(i, v)
}

impl<T: PartialOrd> SortedQueue<T> {
    /// The queue's invariant: where the element type has a lawful total
    /// order, the elements are strictly ascending, so no two of them compare
    /// equal. `new` establishes it and every method keeps it.
    pub open spec fn wf(&self) -> bool {
        lawful_total_order::<T>() ==> strictly_ascending(self@)
    }

    /// An empty queue.
    pub fn new() -> (q: Self)
        ensures
            q@ == Seq::<T>::empty(),
            q.wf(),
    {
        SortedQueue(VecDeque::new())
    }

    fn insert(&mut self, index: usize, value: T)
        requires
            index <= old(self)@.len(),
        ensures
            final(self)@ == old(self)@.insert(index as int, value),
    {
        self.0.insert(index, value);
    }

    fn push_help(&mut self, value: T, overwrite: bool) -> (r: Result<(), ErrorInner<T>>)
        ensures
            old(self).wf() ==> final(self).wf(),
            old(self).wf() && lawful_total_order::<T>() ==> (r is Err <==> holds_equal(
                old(self)@,
                value,
            )),
            match r {
                Ok(()) => is_insertion_into(final(self)@, old(self)@, value),
                Err(ErrorInner::DuplicateAt(i)) => {
                    &&& !overwrite
                    &&& i < old(self)@.len()
                    &&& final(self)@ == old(self)@
                },
                Err(ErrorInner::Replace(x)) => {
                    &&& overwrite
                    &&& is_replacement_in(final(self)@, old(self)@, x, value)
                },
            },
            operators_follow_model::<T>() ==> (r is Err <==> finds_duplicate(old(self)@, value)),
            operators_follow_model::<T>() ==> match r {
                Ok(()) => final(self)@ == old(self)@.insert(
                    insertion_index(old(self)@, value),
                    value,
                ),
                Err(ErrorInner::DuplicateAt(i)) => i == insertion_index(old(self)@, value),
                Err(ErrorInner::Replace(x)) => {
                    &&& x == old(self)@[insertion_index(old(self)@, value)]
                    &&& final(self)@ == old(self)@.update(
                        insertion_index(old(self)@, value),
                        value,
                    )
                },
            },
    {
        let ghost s = self.0@;
        let n = self.0.len();
        let mut index: usize = 0;
        let mut stop = false;
        while index < n && !stop
            invariant
                n == s.len(),
                self.0@ == s,
                index <= n,
                stop ==> index < n,
                operators_follow_model::<T>() ==> forall|k: int|
                    0 <= k < index ==> !le(value, #[trigger] s[k]),
                operators_follow_model::<T>() && stop ==> le(value, s[index as int]),
            decreases n - index + (if stop { 0int } else { 1int }),
        {
            if value <= self.0[index] {
                stop = true;
            } else {
                index += 1;
            }
        }
        proof {
            if operators_follow_model::<T>() {
                assert(scan_stops_at(s, value, index as int));
                lemma_insertion_index_is_scan_stop(s, value);
            }
            if lawful_total_order::<T>() && old(self).wf() {
                law_push_keeps_order(s, value);
                law_push_overwrite_keeps_order(s, value);
                law_duplicate_found_iff_held(s, value);
            }
        }
        if index < n && self.0[index] == value {
            if overwrite {
                let displaced = self.0.remove(index);
                assert(s.remove(index as int).insert(index as int, value) =~= s.update(
                    index as int,
                    value,
                ));
                self.0.insert(index, value);
                match displaced {
                    Some(old) => {
                        return Err(ErrorInner::Replace(old));
                    },
                    None => {
                        return unreached();
                    },
                }
            } else {
                return Err(ErrorInner::DuplicateAt(index));
            }
        } else {
            if index == n {
                assert(s.insert(index as int, value) =~= s.push(value));
                self.0.push_back(value);
            } else {
                self.insert(index, value)
            }
        }
        Ok(())
    }

    /// Strict push: inserts `value` before the first element that it is not
    /// greater than, unless that element is equal to it.
    ///
    /// An equal element refuses the push: the result names its index and the
    /// queue stays as it was.
    pub fn push(&mut self, value: T) -> (r: Result<(), Error>)
        ensures
            match r {
                Ok(()) => is_insertion_into(final(self)@, old(self)@, value),
                Err(Error::DuplicateAt(i)) => i < old(self)@.len() && final(self)@ == old(self)@,
            },
            operators_follow_model::<T>() ==> final(self)@ == after_push(old(self)@, value),
            operators_follow_model::<T>() ==> (r is Err <==> finds_duplicate(old(self)@, value)),
            operators_follow_model::<T>() ==> (r matches Err(Error::DuplicateAt(i)) ==> i
                == insertion_index(old(self)@, value)),
            final(self)@.len() == old(self)@.len() + (if r is Ok {
                1int
            } else {
                0int
            }),
            old(self).wf() ==> final(self).wf(),
            old(self).wf() && lawful_total_order::<T>() ==> (r is Err <==> holds_equal(
                old(self)@,
                value,
            )),
    {
        let r = match self.push_help(value, false) {
            Ok(()) => Ok(()),
            Err(ErrorInner::DuplicateAt(index)) => Err(Error::DuplicateAt(index)),
            Err(ErrorInner::Replace(_)) => unreached(),
        };
        r
    }

    /// Overwriting push: like `push`, but an equal element is replaced by
    /// `value` where it stands and handed back.
    pub fn push_overwrite(&mut self, value: T) -> (r: Option<T>)
        ensures
            match r {
                None => is_insertion_into(final(self)@, old(self)@, value),
                Some(x) => is_replacement_in(final(self)@, old(self)@, x, value),
            },
            operators_follow_model::<T>() ==> final(self)@ == after_push_overwrite(
                old(self)@,
                value,
            ),
            operators_follow_model::<T>() ==> r == (if finds_duplicate(old(self)@, value) {
                Some(old(self)@[insertion_index(old(self)@, value)])
            } else {
                None
            }),
            final(self)@.len() == old(self)@.len() + (if r is None {
                1int
            } else {
                0int
            }),
            old(self).wf() ==> final(self).wf(),
            old(self).wf() && lawful_total_order::<T>() ==> (r is Some <==> holds_equal(
                old(self)@,
                value,
            )),
    {
        let r = match self.push_help(value, true) {
            Ok(()) => None,
            Err(ErrorInner::Replace(v)) => Some(v),
            Err(ErrorInner::DuplicateAt(_)) => unreached(),
        };
        r
    }

    /// Takes the front element, the smallest, out of the queue.
    pub fn pop(&mut self) -> (r: Option<T>)
        ensures
            r == (if old(self)@.len() > 0 {
                Some(old(self)@[0])
            } else {
                None
            }),
            final(self)@ == (if old(self)@.len() > 0 {
                old(self)@.drop_first()
            } else {
                old(self)@
            }),
            final(self)@.len() == old(self)@.len() - (if r is Some {
                1int
            } else {
                0int
            }),
            old(self).wf() ==> final(self).wf(),
            old(self).wf() && lawful_total_order::<T>() && r is Some ==> forall|k: int|
                0 <= k < final(self)@.len() ==> lt(r->Some_0, #[trigger] final(self)@[k]),
    {
        proof {
            if self@.len() > 0 {
                assert(self@.subrange(1, self@.len() as int) =~= self@.drop_first());
                if lawful_total_order::<T>() && self.wf() {
                    law_front_is_least(self@);
                }
            }
        }
        self.0.pop_front()
    }

    /// Takes the element at `index` out of the queue; the others keep their
    /// order. An index past the end takes nothing.
    pub fn remove(&mut self, index: usize) -> (r: Option<T>)
        ensures
            r == (if index < old(self)@.len() {
                Some(old(self)@[index as int])
            } else {
                None
            }),
            final(self)@ == (if index < old(self)@.len() {
                old(self)@.remove(index as int)
            } else {
                old(self)@
            }),
            final(self)@.len() == old(self)@.len() - (if r is Some {
                1int
            } else {
                0int
            }),
            old(self).wf() ==> final(self).wf(),
    {
        proof {
            if index < self@.len() && lawful_total_order::<T>() && self.wf() {
                law_remove_keeps_order(self@, index as int);
            }
        }
        self.0.remove(index)
    }

    /// The smallest element, if there is one.
    pub fn front(&self) -> (r: Option<&T>)
        ensures
            r == (if self@.len() > 0 {
                Some(&self@[0])
            } else {
                None
            }),
    {
        if self.0.len() > 0 {
            Some(&self.0[0])
        } else {
            None
        }
    }

    /// The largest element, if there is one.
    pub fn back(&self) -> (r: Option<&T>)
        ensures
            r == (if self@.len() > 0 {
                Some(&self@[self@.len() - 1])
            } else {
                None
            }),
    {
        let n = self.0.len();
        if n > 0 {
            Some(&self.0[n - 1])
        } else {
            None
        }
    }

    /// The number of elements.
    pub fn len(&self) -> (n: usize)
        ensures
            n == self@.len(),
    {
        self.0.len()
    }

    /// Whether the queue holds no element.
    pub fn is_empty(&self) -> (r: bool)
        ensures
            r == (self@.len() == 0),
    {
        self.0.len() == 0
    }

    /// Whether some element compares equal to `x`. Every element is
    /// compared, so the answer does not lean on the order being total.
    pub fn contains(&self, x: &T) -> (r: bool)
        ensures
            operators_follow_model::<T>() ==> r == holds_equal(self@, *x),
    {
        let n = self.0.len();
        let mut index: usize = 0;
        while index < n
            invariant
                n == self.0@.len(),
                index <= n,
                operators_follow_model::<T>() ==> forall|k: int|
                    0 <= k < index ==> !eqv(#[trigger] self.0@[k], *x),
            decreases n - index,
        {
            if self.0[index] == *x {
                return true;
            }
            index += 1;
        }
        false
    }

    /// Empties the queue.
    pub fn clear(&mut self)
        ensures
            final(self)@ == Seq::<T>::empty(),
            final(self).wf(),
    {
        self.0.clear();
    }

    /// A borrowing iterator over the elements, front to back: in ascending
    /// order. Each call starts a fresh one.
    pub fn iter(&self) -> (it: Iter<'_, T>)
        ensures
            it.remaining() == self@.as_ref(),
            into_iter_elts(it) == self@.as_ref(),
            it.decrease() is Some,
    {
        broadcast use vstd::std_specs::vecdeque::group_vec_dequeue_axioms;

        self.0.iter()
    }

    /// The elements in ascending order, consuming the queue.
    pub fn into_vec(self) -> (v: Vec<T>)
        ensures
            v@ == self@,
    {
        let mut inner = self.0;
        let ghost s = inner@;
        let mut v: Vec<T> = Vec::new();
        loop
            invariant
                s == v@ + inner@,
            ensures
                inner@.len() == 0,
            decreases inner@.len(),
        {
            match inner.pop_front() {
                Some(x) => {
                    v.push(x);
                    assert(s =~= v@ + inner@);
                },
                None => {
                    break ;
                },
            }
        }
        assert(s =~= v@);
        v
    }
}

impl<T: PartialOrd> IntoIterator for SortedQueue<T> {
    type Item = T;

    type IntoIter = std::vec::IntoIter<T>;

    /// The elements in ascending order, consuming the queue.
    fn into_iter(self) -> (it: std::vec::IntoIter<T>)
        ensures
            it.remaining() == self@,
    {
        broadcast use vstd::std_specs::vec::group_vec_axioms;

        self.into_vec().into_iter()
    }
}

} // verus!
