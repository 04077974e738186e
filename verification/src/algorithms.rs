//! The sequence engine and the strategies that drive it to sorted order.

pub mod bubble;
pub mod engine;
pub mod quick;

pub use bubble::BubbleSort;
pub use engine::Sorting;
pub use quick::QuickSort;
