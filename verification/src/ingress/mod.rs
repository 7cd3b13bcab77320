//! Ingress resources: what their annotations and rules ask for.
pub mod policy;
pub mod spec;
pub mod backends;
pub mod checkpoint;
pub mod history;
pub mod routes;
pub mod preflight;
pub mod release;
pub mod resources;
pub mod status;
pub mod controller;
pub mod dependencies;
pub mod serving;
pub mod round;
pub mod reaching;
pub mod turn;
