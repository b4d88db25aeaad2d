use sorted_queue::{Error, SortedQueue};
use std::cmp::Ordering;

#[derive(Debug)]
struct Packet(i32, Vec<u8>);

impl PartialEq for Packet {
    fn eq(&self, other: &Self) -> bool {
        self.0 == other.0 && self.1.len() == other.1.len()
    }
}

impl PartialOrd for Packet {
    fn partial_cmp(&self, other: &Self) -> Option<Ordering> {
        match self.0.partial_cmp(&other.0) {
            Some(Ordering::Equal) => self.1.len().partial_cmp(&other.1.len()),
            ord => ord,
        }
    }
}

fn contents<T: PartialOrd + Clone>(queue: &SortedQueue<T>) -> Vec<T> {
    queue.iter().cloned().collect()
}

fn is_strictly_ascending<T: PartialOrd>(items: &[T]) -> bool {
    items.windows(2).all(|w| w[0] < w[1])
}

#[test]
fn sorted() {
    let mut queue = SortedQueue::new();
    queue.push(2).unwrap();
    queue.push(1).unwrap();
    queue.push(3).unwrap();
    assert_eq!(queue.pop(), Some(1));
    assert_eq!(queue.pop(), Some(2));
    assert_eq!(queue.pop(), Some(3));
}

#[test]
fn packets_pop_by_key_then_length() {
    let mut queue = SortedQueue::new();
    queue.push(Packet(1, vec![1, 2, 3, 4])).unwrap();
    queue.push(Packet(0, vec![1, 2, 3])).unwrap();
    queue.push(Packet(1, vec![1, 2, 3])).unwrap();
    assert_eq!(queue.pop(), Some(Packet(0, vec![1, 2, 3])));
    assert_eq!(queue.pop(), Some(Packet(1, vec![1, 2, 3])));
    assert_eq!(queue.pop(), Some(Packet(1, vec![1, 2, 3, 4])));
    assert_eq!(queue.pop(), None);
}

#[test]
fn strict_push_refuses_equal_value() {
    let mut queue = SortedQueue::new();
    assert_eq!(queue.push(5), Ok(()));
    assert_eq!(queue.push(5), Err(Error::DuplicateAt(0)));
    assert_eq!(queue.len(), 1);
    assert_eq!(contents(&queue), vec![5]);
}

#[test]
fn duplicate_index_is_position_of_equal_element() {
    let mut queue = SortedQueue::new();
    for v in [10, 30, 20, 40] {
        queue.push(v).unwrap();
    }
    assert_eq!(queue.push(10), Err(Error::DuplicateAt(0)));
    assert_eq!(queue.push(30), Err(Error::DuplicateAt(2)));
    assert_eq!(queue.push(40), Err(Error::DuplicateAt(3)));
    assert_eq!(contents(&queue), vec![10, 20, 30, 40]);
}

#[test]
fn overwrite_returns_displaced_value() {
    let mut queue = SortedQueue::new();
    queue.push(5).unwrap();
    assert_eq!(queue.push_overwrite(5), Some(5));
    assert_eq!(queue.len(), 1);
}

#[test]
fn overwrite_replaces_in_place() {
    let mut queue = SortedQueue::new();
    queue.push(Packet(0, vec![9])).unwrap();
    queue.push(Packet(1, vec![1, 2, 3])).unwrap();
    queue.push(Packet(2, vec![9])).unwrap();
    let old = queue.push_overwrite(Packet(1, vec![7, 8, 9]));
    assert_eq!(old.map(|p| p.1), Some(vec![1, 2, 3]));
    assert_eq!(queue.len(), 3);
    let held: Vec<Vec<u8>> = queue.iter().map(|p| p.1.clone()).collect();
    assert_eq!(held, vec![vec![9], vec![7, 8, 9], vec![9]]);
    let keys: Vec<i32> = queue.iter().map(|p| p.0).collect();
    assert_eq!(keys, vec![0, 1, 2]);
}

#[test]
fn overwrite_without_duplicate_inserts() {
    let mut queue = SortedQueue::new();
    assert_eq!(queue.push_overwrite(4), None);
    assert_eq!(queue.push_overwrite(2), None);
    assert_eq!(queue.push_overwrite(6), None);
    assert_eq!(queue.push_overwrite(3), None);
    assert_eq!(contents(&queue), vec![2, 3, 4, 6]);
}

#[test]
fn remove_out_of_range_leaves_queue() {
    let mut queue = SortedQueue::new();
    queue.push(1).unwrap();
    queue.push(2).unwrap();
    assert_eq!(queue.remove(2), None);
    assert_eq!(queue.remove(usize::MAX), None);
    assert_eq!(contents(&queue), vec![1, 2]);
    let mut empty: SortedQueue<i32> = SortedQueue::new();
    assert_eq!(empty.remove(0), None);
    assert!(empty.is_empty());
}

#[test]
fn remove_takes_element_at_index() {
    let mut queue = SortedQueue::new();
    for v in [4, 1, 3, 2] {
        queue.push(v).unwrap();
    }
    assert_eq!(queue.remove(1), Some(2));
    assert_eq!(contents(&queue), vec![1, 3, 4]);
    assert_eq!(queue.remove(2), Some(4));
    assert_eq!(queue.remove(0), Some(1));
    assert_eq!(contents(&queue), vec![3]);
    assert_eq!(queue.len(), 1);
}

#[test]
fn push_keeps_ascending_order_after_each_call() {
    let mut queue = SortedQueue::new();
    let mut pushed = 0;
    for v in [7, 3, 9, 1, 8, 2, 6, 4, 5, 0] {
        assert_eq!(queue.push(v), Ok(()));
        pushed += 1;
        assert_eq!(queue.len(), pushed);
        assert!(is_strictly_ascending(&contents(&queue)));
    }
    assert_eq!(contents(&queue), vec![0, 1, 2, 3, 4, 5, 6, 7, 8, 9]);
}

#[test]
fn failed_push_changes_nothing() {
    let mut queue = SortedQueue::new();
    for v in [3, 1, 2] {
        queue.push(v).unwrap();
    }
    for v in [1, 2, 3] {
        assert!(queue.push(v).is_err());
        assert_eq!(queue.len(), 3);
        assert_eq!(contents(&queue), vec![1, 2, 3]);
    }
}

#[test]
fn pops_come_in_ascending_order_then_none() {
    let mut queue = SortedQueue::new();
    for v in [50, -3, 17, 0, 42] {
        queue.push(v).unwrap();
    }
    let mut popped = Vec::new();
    let mut left = queue.len();
    while let Some(v) = queue.pop() {
        left -= 1;
        assert_eq!(queue.len(), left);
        popped.push(v);
    }
    assert_eq!(popped, vec![-3, 0, 17, 42, 50]);
    assert_eq!(queue.pop(), None);
    assert_eq!(queue.len(), 0);
}

#[test]
fn front_and_back_peek_smallest_and_largest() {
    let mut queue = SortedQueue::new();
    assert_eq!(queue.front(), None);
    assert_eq!(queue.back(), None);
    queue.push(5).unwrap();
    assert_eq!(queue.front(), Some(&5));
    assert_eq!(queue.back(), Some(&5));
    queue.push(9).unwrap();
    queue.push(2).unwrap();
    assert_eq!(queue.front(), Some(&2));
    assert_eq!(queue.back(), Some(&9));
    assert_eq!(queue.len(), 3);
}

#[test]
fn new_queue_is_empty() {
    let queue: SortedQueue<u8> = SortedQueue::new();
    assert!(queue.is_empty());
    assert_eq!(queue.len(), 0);
    assert_eq!(queue.iter().count(), 0);
}

#[test]
fn contains_finds_equal_elements_only() {
    let mut queue = SortedQueue::new();
    for v in [2, 4, 6] {
        queue.push(v).unwrap();
    }
    assert!(queue.contains(&2));
    assert!(queue.contains(&4));
    assert!(queue.contains(&6));
    assert!(!queue.contains(&1));
    assert!(!queue.contains(&5));
    assert!(!queue.contains(&7));
}

#[test]
fn contains_uses_the_elements_own_equality() {
    let mut queue = SortedQueue::new();
    queue.push(Packet(3, vec![1, 2])).unwrap();
    assert!(queue.contains(&Packet(3, vec![8, 9])));
    assert!(!queue.contains(&Packet(3, vec![8])));
    assert_eq!(
        queue.push(Packet(3, vec![5, 5])),
        Err(Error::DuplicateAt(0))
    );
}

#[test]
fn clear_empties_the_queue() {
    let mut queue = SortedQueue::new();
    queue.push(1).unwrap();
    queue.push(2).unwrap();
    queue.clear();
    assert!(queue.is_empty());
    assert_eq!(queue.pop(), None);
    assert_eq!(queue.push(1), Ok(()));
    assert_eq!(queue.len(), 1);
}

#[test]
fn iter_can_be_called_again() {
    let mut queue = SortedQueue::new();
    for v in [3, 1, 2] {
        queue.push(v).unwrap();
    }
    let first: Vec<&i32> = queue.iter().collect();
    let second: Vec<&i32> = queue.iter().collect();
    assert_eq!(first, vec![&1, &2, &3]);
    assert_eq!(first, second);
    assert_eq!(queue.len(), 3);
}

#[test]
fn into_iter_yields_owned_elements_ascending() {
    let mut queue = SortedQueue::new();
    for v in ["pear", "apple", "quince"] {
        queue.push(v.to_string()).unwrap();
    }
    let all: Vec<String> = queue.into_iter().collect();
    assert_eq!(all, vec!["apple", "pear", "quince"]);
}

#[test]
fn into_vec_yields_owned_elements_ascending() {
    let mut queue = SortedQueue::new();
    for v in [9, 8, 7] {
        queue.push(v).unwrap();
    }
    assert_eq!(queue.into_vec(), vec![7, 8, 9]);
    let empty: SortedQueue<i32> = SortedQueue::new();
    assert_eq!(empty.into_vec(), Vec::<i32>::new());
}

#[test]
fn unordered_value_goes_to_the_back() {
    let mut queue = SortedQueue::new();
    queue.push(2.0).unwrap();
    queue.push(1.0).unwrap();
    assert_eq!(queue.push(f64::NAN), Ok(()));
    assert_eq!(queue.len(), 3);
    assert!(queue.back().unwrap().is_nan());
    assert!(!queue.contains(&f64::NAN));
    assert_eq!(queue.push(f64::NAN), Ok(()));
    assert_eq!(queue.len(), 4);
    assert_eq!(queue.push(0.5), Ok(()));
    assert_eq!(queue.front(), Some(&0.5));
    assert_eq!(queue.push(1.0), Err(Error::DuplicateAt(1)));
}

#[test]
fn debug_output_lists_elements_in_order() {
    let mut queue = SortedQueue::new();
    queue.push(2).unwrap();
    queue.push(1).unwrap();
    assert_eq!(format!("{:?}", queue), "SortedQueue([1, 2])");
    assert_eq!(format!("{:?}", Error::DuplicateAt(4)), "DuplicateAt(4)");
}
