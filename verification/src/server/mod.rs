//! What the server decides.

pub mod capture_slot;
pub mod discovery;
pub mod feed;
pub mod registry;
pub mod session;
pub mod web;
