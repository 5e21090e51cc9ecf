//! Control core of a fleet of cooperating elevator controllers.
//!
//! - [`types`]: directions, behaviours, the cabin state and the replicated
//!   cluster snapshot, with their mathematical models.
//! - [`fsm`]: the per-cabin state machine (direction choice, order
//!   completion, door timing, obstruction and motor-loss handling).
//! - [`coordinator`]: reconciliation of snapshots, button and completion
//!   handling, lamp commands and hall-request assignment rounds.
//! - [`network`]: node identity, acknowledgements and the retry policy of a
//!   reliable send.
//! - [`hardware`]: edge detection of the polled hardware inputs.
//! - [`config`]: configuration records and their rules.

pub mod config;
pub mod coordinator;
pub mod fsm;
pub mod hardware;
pub mod network;
pub mod types;
