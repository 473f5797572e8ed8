//! A fixed-capacity ring buffer with zero-copy views.
//!
//! A [`RingBuffer`] stores its elements in a fixed array of slots that it
//! addresses through a wrapping origin. A [`Slice`] and a [`SliceMut`] borrow
//! a contiguous logical range of a buffer, shared or exclusive; they can be
//! narrowed, split, iterated and searched without copying an element.
//!
//! Every function states what it returns over the sequence of elements that
//! its value stands for, written `@`.

pub mod layout;
pub mod storage;
pub mod buffer;
pub mod window;
pub mod search;
pub mod order;
pub mod range;
pub mod slice;
pub mod iter;
pub mod slice_mut;

pub use crate::buffer::RingBuffer;
pub use crate::iter::{Iter, IterMut};
pub use crate::range::Bound;
pub use crate::slice::Slice;
pub use crate::slice_mut::SliceMut;
