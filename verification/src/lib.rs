//! The verified core of wtop, an htop-inspired process monitor for Windows
//! terminals: the snapshot model, the process-table state machine, text
//! scrolling, themes and the pure parts of metric collection and rendering.

pub mod model;
pub mod strings;
pub mod text;
pub mod theme;
pub mod app;
pub mod collector;
pub mod process_control;
pub mod ui;
pub mod worker;
