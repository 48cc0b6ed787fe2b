//! Filters a word list against partial knowledge gathered while playing a
//! Wordle-style guessing game, and samples random words to start a game with.
//!
//! The heart of the crate is [`predicate::WordlePredicate`]: it compiles up to
//! three optional pieces of evidence (letters confirmed at exact positions,
//! letters known to be present with a minimum multiplicity, and letters known
//! to be absent) and decides for each candidate word whether it is still
//! consistent with all of them.

pub mod app;
pub mod predicate;
