//! Session-scoped question selection and progress tracking for a practice quiz.
//!
//! A session is an opaque token. Its progress is the set of distinct question ids
//! recorded against it; the questions still to be asked are the catalog minus that
//! set. Each request either draws one remaining question at random or, once nothing
//! remains, reports completion with an accuracy figure.

pub mod report;
pub mod progress;
pub mod catalog;
pub mod selection;
pub mod session;
