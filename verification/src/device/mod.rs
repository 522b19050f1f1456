//! The device layer's rules: what device paths mean, what a platform's
//! answers say about a medium, the mount table, snapshots, and the
//! accounting of an acquisition.

pub mod naming;
pub mod class;
pub mod inventory;
pub mod shadow;
pub mod mount;
pub mod acquire;
pub mod reader;
pub mod error;
