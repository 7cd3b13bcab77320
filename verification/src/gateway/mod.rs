//! Gateway API resources: what they ask for and how it is carried out.
pub mod spec;
pub mod timeouts;
pub mod routes;
pub mod references;
pub mod tls_policy;
pub mod status;
pub mod listeners;
pub mod prepare;
pub mod attachment;
pub mod scripts;
pub mod checkpoint;
pub mod controller;
pub mod preflight;
pub mod entries;
pub mod reach;
pub mod placing;
pub mod report;
pub mod serving;
pub mod preparing;
pub mod walk;
