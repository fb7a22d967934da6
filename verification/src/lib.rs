//! Difference hashes of images, their hexadecimal digests, and the grouping of
//! images whose hashes are bit-for-bit equal.

pub mod bits;
pub mod decode;
pub mod digest;
pub mod grid;
pub mod group;
pub mod hash;
pub mod path;
pub mod pipeline;
