//! The life of a request: paths, the request's plan, the files and the responses.
pub mod paths;
pub mod planning;
pub mod request;
pub mod flow;
pub mod files;
pub mod responses;
pub mod upstream;
pub mod inspect;
pub mod mirror;
pub mod outcome;
