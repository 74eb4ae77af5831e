//! Stream-copy remuxing decisions: which input tracks go where, which packets
//! a keyframe-aligned cut keeps, and how timestamps move between time bases.
//! The container I/O itself is done by the caller.

pub mod media;
pub mod rescale;
pub mod routing;
pub mod trim;
pub mod cut;
pub mod cut_laws;
pub mod split;
pub mod finalize;
