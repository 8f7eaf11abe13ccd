//! A service that runs submitted code in docker containers: the commands it
//! runs, the order it runs them in, what it reads from their output, and the
//! answers it gives, each with its contract.
//!
//! `service` and `api` hold the service as its web interface uses it. The
//! standalone modules `config`, `image`, `runner` and `util` do the same
//! work with their own messages and checks, and `tape` replays a recorded
//! sequence of steps in a container.
use vstd::prelude::*;

pub mod api;
pub mod common;
pub mod config;
pub mod image;
pub mod path;
pub mod runner;
pub mod service;
pub mod string_map;
pub mod tape;
pub mod text;
pub mod util;

verus! {

} // verus!
