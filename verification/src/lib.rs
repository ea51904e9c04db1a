//! Core of a personal spaced-repetition review engine.
//!
//! The crate tracks study items, computes when each one is next due, and
//! drives a review session that grades recall and reschedules the item.
//! It is organised as:
//!
//! - [`types`]: the data model (inbox entries, items, schedule entries);
//! - [`errors`]: the error taxonomy of the engine;
//! - [`scheduling`]: the pure scheduling algorithm;
//! - [`store`]: the item repository with its integrity invariants;
//! - [`session`]: the review-session state machine.
//!
//! Durable storage and the terminal front end are external collaborators:
//! they call the mutating entry points of [`store`] and [`session`] and read
//! the summary counters, but hold no logic of their own.

pub mod errors;
pub mod scheduling;
pub mod session;
pub mod store;
pub mod types;
