//! Batch archiving of the top-level entries of a directory: the naming rules
//! that classify entries, the selection filter, the directory listing written
//! beside an archived directory, and the per-entry plan of filesystem actions.
pub mod listing;
pub mod naming;
pub mod plan;
pub mod run;
pub mod select;
pub mod text;
pub mod timestamp;
