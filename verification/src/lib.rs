pub mod autostart;
pub mod config;
pub mod gpu_engine;
pub mod menu;
pub mod metrics;
pub mod number;
pub mod percent;
pub mod render;
pub mod text;
