//! The memory structure: its two starting blocks and the multi-pass fill.
pub mod fill;
pub mod init;
