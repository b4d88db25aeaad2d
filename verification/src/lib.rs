//! A queue that keeps its elements in ascending order under the element
//! type's own `PartialOrd`, refusing or overwriting elements that compare
//! equal to one already held.

pub mod laws;
pub mod order;
pub mod queue;

pub use queue::Error;
pub use queue::SortedQueue;
