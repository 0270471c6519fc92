pub mod config;
pub mod laws;
pub mod layers;
pub mod log_path;
pub mod logging;
pub mod ordered_map;
pub mod resolve;
pub mod signals;
pub mod supervisor;
pub mod systemd;
pub mod text;
pub mod windows;
