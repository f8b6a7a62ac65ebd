//! A verified braid-group engine that derives a topological fingerprint from
//! a stream of turn-taking actions among numbered seats, together with the
//! textual-record parsing that feeds it.

pub mod mapping;
pub mod normalization;
pub mod invariants;
pub mod matrix;
pub mod parser;
pub mod pokernow;
pub mod poly;
pub mod session;
pub mod text;
pub mod types;

pub use mapping::expand_action;
pub use mapping::safe_seat;
pub use invariants::{FingerprintState, IncrementalUpdate};
pub use normalization::normalize;
pub use parser::{ParseError, SeatResolver};
pub use session::{format_action_type, parse_action_string, process_action, ActionRequest,
    FingerprintSummary, ServerState};
pub use types::{Action, ActionType, BraidWord, Generator, Seat};
