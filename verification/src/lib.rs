//! Verified core of a terminal power-draw monitor.

pub mod power;
pub mod text;
pub mod order;
pub mod history;
pub mod cli;
pub mod app;
pub mod chart;
pub mod ui;
pub mod battery;
pub mod rapl;
pub mod stats;
pub mod theme;
