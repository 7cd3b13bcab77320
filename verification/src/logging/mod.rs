//! Access and error logs.
pub mod access;
pub mod output;
pub mod rotation;
