//! Core of an interactive word-suggestion tool: a 26-slot letter account
//! between two text buffers, a cursor-accurate editing state machine, and
//! a suggestion engine that filters and ranks dictionary words that can
//! legally be formed from the account's remaining letters.
pub mod letters;
pub mod session;
pub mod suggest;
