pub mod beacon;
pub mod ceremony;
pub mod custody;
pub mod error;
pub mod guard_mitigation;
pub mod guards;
pub mod layers;
pub mod path;
pub mod pilot;
pub mod roster;
pub mod shamir;
pub mod shamir_law;
pub mod types;
