//! The configuration file: its syntax and what its directives mean.
pub mod apply;
pub mod bundle;
pub mod group;
pub mod limits;
pub mod load;
pub mod security;
pub mod settings;
pub mod syntax;
pub mod upstream;
pub mod value;
