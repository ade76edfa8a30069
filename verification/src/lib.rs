//! A small library for scripting remote machine setup over SSH.
//!
//! The heart of the library is [`ssh::SshCommand`], an immutable description
//! of one remote invocation, and [`ssh::SshShell`], one authenticated SSH
//! connection that can run such commands.  Around them stand free functions
//! that build common administration commands (package installation, disk
//! partitioning, swap, CPU governor) and helpers that drive a sequence of
//! commands against a shell.

pub mod centos;
pub mod errors;
pub mod ssh;
pub mod ubuntu;
pub mod util;
