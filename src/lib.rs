//! Finding files with identical content and deciding which copies to discard.

pub mod digest;
pub mod index;
pub mod laws;
pub mod listing;
pub mod input;
pub mod resolve;
