//! Listing and safe unpacking of tar archives.
//!
//! `listing` renders an archive's entries as aligned lines sorted by path.
//! `stem` derives a directory name from an archive's file name. `placement`
//! decides where the content of a staging directory goes after extraction,
//! and `prefix` checks entry paths before anything is written.

pub mod listing;
pub mod stem;
pub mod placement;
pub mod prefix;
