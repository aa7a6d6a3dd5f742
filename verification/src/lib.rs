//! A small library for locating files and folders by name.
//!
//! The pieces: a stateless name matcher with three modes (substring, mask,
//! regex), a single-shot cancellation token, a cancellable recursive
//! directory walker, and a volume snapshot/diff monitor.

pub mod cancel;
pub mod matcher;
pub mod request;
pub mod text;
pub mod volume;
pub mod walker;
