//! Flow control: the sender's sliding window.

pub mod window;

pub use window::SlidingWindow;
