pub mod compare;
pub mod ingress;
pub mod nginx;
pub mod candidate;
pub mod manifest;
