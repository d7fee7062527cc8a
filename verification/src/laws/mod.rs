//! What holds of the service: of what each operation is for, on every input; of
//! several operations together, of any number of them one after the other, and of
//! every state they lead to.

pub mod access;
mod filters;
pub mod limits;
pub mod naming;
pub mod registry;
pub mod service;
pub mod serving;
pub mod settings;
pub mod transfers;
pub mod views;
pub mod wire;
