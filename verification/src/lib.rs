//! Wire codec and topic matcher for a publish/subscribe messaging protocol.
//!
//! The crate has two independent, side-effect-free components:
//! a codec that packs a [`codec::Package`] into a byte frame and back,
//! and a matcher that decides whether two dot-delimited topic strings
//! agree, with `*` and `#` as wildcard segments.

pub mod codec;
pub mod comparators;
