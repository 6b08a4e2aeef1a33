//! Abbreviation expansion for interactive shells.

pub mod text;
pub mod placeholder;
pub mod output;
pub mod matcher;
pub mod context;
pub mod expand;
pub mod import;
pub mod serve;
