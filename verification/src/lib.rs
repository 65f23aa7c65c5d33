//! Review queue panel: parsing of the review log, the grouped row model, and the panel's
//! cursor/scroll/marking state machine.

pub mod text;
pub mod log;
pub mod marks;
pub mod actions;
pub mod app;
pub mod input;
pub mod render;
pub mod laws;
