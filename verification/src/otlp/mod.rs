pub mod config;
pub mod propagation;
pub mod record;
pub mod export;
pub mod trace;
