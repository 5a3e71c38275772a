//! A moving median filter over a ring of fixed size.
//!
//! [`MovingMedian`] holds the last `N` samples of a stream and reports their
//! median. It allocates nothing: its memory is `N` samples, a write index and
//! a count. It is generic in the sample type, which brings its own order,
//! its own arithmetic and its own zero.
//!
//! Every operation is verified against a contract.
//!
//! * [`filter`] holds the filter and the contracts of its operations.
//! * [`window`] says what the window of a ring is and how an addition moves
//!   it.
//! * [`median`] says what the median of a window is.
//! * [`sort`] holds the sort that the filter uses, and says what it makes of
//!   samples of any kind.
//! * [`sample`] says what is asked of a sample type, and when its samples
//!   can be sorted.
//! * [`laws`] states what a filter reports after any run of additions.
//! * [`unsigned`] shows what all of this comes to for unsigned integers.

pub mod filter;
pub mod laws;
pub mod median;
pub mod sample;
pub mod sort;
pub mod unsigned;
pub mod window;

pub use filter::MovingMedian;
