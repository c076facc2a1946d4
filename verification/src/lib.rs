//! A tabular-grid engine: stable row ordering across updates, page windows
//! over that ordering, and the button layout of a bounded pagination bar.

pub mod data_grid;
pub mod grid_pagination_bar;
pub mod hooks;
pub mod reconciliation;
