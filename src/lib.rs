//! Decoding of labelled grayscale image records into contiguous pixel and
//! label buffers, with the shape and fault rules of a classification dataset.

pub mod luma;
pub mod record;
pub mod split;
pub mod splits;
