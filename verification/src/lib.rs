//! `keel` — brain tier-ladder health probe and shared types, with the
//! decisions of every subcommand stated and proved as contracts.

pub mod beacon;
pub mod cordon;
pub mod ladder;
pub mod ledger;
pub mod mark;
pub mod names;
pub mod probe;
pub mod pulse;
pub mod spend;
pub mod status;
pub mod text;
pub mod types;
pub mod calendar;
