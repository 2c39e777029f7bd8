pub mod laws;
pub mod list;
pub mod message;

pub use list::{LinkedList, LinkedListIterator};
