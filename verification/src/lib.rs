use vstd::prelude::*;

pub mod admission;
pub mod backend;
pub mod body;
pub mod certificates;
pub mod compression;
pub mod config;
pub mod controls;
pub mod diagnostics;
pub mod digest;
pub mod fleet;
pub mod gateway;
pub mod header;
pub mod history;
pub mod identity;
pub mod ingress;
pub mod json;
pub mod logging;
pub mod maintenance;
pub mod migration;
pub mod model;
pub mod net;
pub mod otlp;
pub mod path;
pub mod proxy;
pub mod script;
pub mod snapshot;
pub mod table;
pub mod tenancy;
pub mod text;
pub mod uri;

verus! {

} // verus!
