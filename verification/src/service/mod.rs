//! The service proper: its configuration, the images of the languages it
//! runs, and the run of one submission.
pub mod config;
pub mod image;
pub mod runner;
