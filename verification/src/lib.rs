//! Verified core of a terminal system monitor: sliding-window histories,
//! process ordering and filtering, network traffic accounting, the
//! application's key-driven state machine, and the text it shows.

pub mod app;
pub mod event;
pub mod export;
pub mod history;
pub mod network;
pub mod process;
pub mod text;
pub mod ui;
