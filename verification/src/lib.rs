//! Room booking for a single hotel.
//!
//! - `config`: the hotel's configuration, and how its rooms are numbered.
//! - `calendar`: the nightly calendar of an empty hotel, and its (room, night) slots.
//! - `workflow`: which rooms are free for a whole stay, and which one is taken.
//! - `allocation`: the protocol that books one room night after night against
//!   a calendar store, as a state machine driven by the store's answers.
//! - `input`: the operator's lines: the word that ends a session, and a request.
pub mod allocation;
pub mod calendar;
pub mod config;
pub mod input;
pub mod workflow;
