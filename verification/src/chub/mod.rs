//! Characters of the Chub catalogue: searching for them and importing them.
pub mod card;
pub mod detail;
pub mod fields;
pub mod import;
pub mod lorebook;
pub mod search;
pub mod tags;
