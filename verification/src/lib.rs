//! TempShare: temporary file sharing from the sender's own computer.
//!
//! The sender works with a dashboard on this machine: shares are made of uploads
//! ([`shares`]), kept in a registry ([`db`]) and served to recipients by their
//! links ([`download`]). Two listeners are kept apart ([`routes`], [`guard`]), and
//! only the public one is connected to a tunnel ([`tunnel`]).
//!
//! Everything here computes on plain values. Requests, files, the database and the
//! clock of the machine come in and go out through the program around it. What
//! holds of the whole is stated in [`laws`], and next to what it is about.

pub mod auth;
pub mod clock;
pub mod db;
pub mod download;
pub mod error;
pub mod guard;
pub mod headers;
pub mod ids;
pub mod laws;
pub mod names;
pub mod net;
pub mod page;
pub mod routes;
pub mod shares;
pub mod state;
pub mod table;
pub mod text;
pub mod tunnel;

pub use routes::{management_router, public_router};
