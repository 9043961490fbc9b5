//! Decision core of a Logitech mouse and keyboard manager.
#![allow(unused_imports)]

pub mod text;
pub mod value;
pub mod table;
pub mod buttons;
pub mod device;
pub mod dpi;
pub mod single;
pub mod sort;
pub mod config;
pub mod seqs;
pub mod orchestrator;
pub mod capture_plan;
pub mod wheel;
pub mod sessions;
pub mod watch;
pub mod probe;
pub mod cache;
pub mod enumerate;
pub mod thumbwheel;
pub mod smartshift_panel;
pub mod geometry;
pub mod load;
pub mod records;
pub mod app_state;
pub mod gesture;
