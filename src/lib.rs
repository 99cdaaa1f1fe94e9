//! Shared Access Signature tokens for a cloud messaging service, and the
//! taxonomy of errors that requests made with them can end in.

pub mod connection;
pub mod encode;
pub mod error;
pub mod sas;
