//! Core of an interactive byte-buffer editor: the selection and mode state
//! machine with reversible commands, highlight overlays kept consistent under
//! mutation, the capability view handed to highlight scripts, and a
//! two-buffer comparator producing aligned, padded views.
pub mod app;
pub mod color;
pub mod command;
pub mod comparator;
pub mod config;
pub mod diff;
pub mod input;
pub mod laws;
pub mod layout;
pub mod script;
pub mod viewer;
