//! A small guard for newly created audio sessions: a session that starts at the
//! platform's initial full level is lowered to a configured target, and a
//! session is never raised.
//!
//! `policy` holds the volume decision, `cli` the settings and the command
//! that the program carries out, `startup` what the installer writes and
//! reports, `endpoints` the audio outputs being watched, `service` the
//! decisions of the running guard.

pub mod policy;
pub mod cli;
pub mod startup;
pub mod endpoints;
pub mod service;
