pub mod outbound;
pub mod simulation;
pub mod trial;
pub mod visit;
pub mod auth;
pub mod admin;
pub mod preflight;
pub mod shown;
pub mod report;
pub mod run;
pub mod answer;
