//! Conflict detection over dated facts.
pub mod detect;
pub mod minimize;
pub mod report;
