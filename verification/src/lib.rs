//! Destinations of the form `[user@]host:path`, as SSH-based tools address
//! a remote location: parsing them, and deriving destinations below them.

pub mod path;
pub mod text;
pub mod sshuri;
pub mod laws;
