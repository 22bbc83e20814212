//! Snowball stemming programs.
pub mod pali;
