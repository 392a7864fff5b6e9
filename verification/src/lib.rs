//! A lightweight file-integrity fingerprint.
//!
//! A file's bytes are split into fixed-size blocks (the last one padded),
//! the blocks are folded together with byte-wise XOR starting from a fixed
//! seed block, and the folded block is rendered as an uppercase hex string.
//! The fingerprint can later be compared against a freshly generated one to
//! detect changes to the file's content.

pub mod blocks;
pub mod hex;
pub mod service;
