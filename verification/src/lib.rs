//! Line-oriented editing of an SSH client configuration file.
//!
//! The library locates one `Host <alias>` block among the lines of a config
//! file, extracts its `HostName`, `User` and `IdentityFile` directives, lets
//! the caller replace the hostname, and re-emits the file with the rewritten
//! block in place and every surrounding line untouched.

pub mod laws;
pub mod render;
pub mod split;
pub mod tokens;
pub mod update;
