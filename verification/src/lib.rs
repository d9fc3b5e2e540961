//! A directory-listing library: entries are modelled with a normalized
//! name/extension split, ordered by a configurable chain of stable sort
//! passes on top of a directory-first default ordering, and rendered as
//! fixed-width, color-coded text rows.

pub mod config;
pub mod entry;
pub mod layout;
pub mod listing;
pub mod order;
