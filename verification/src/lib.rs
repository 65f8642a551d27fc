//! The execution core of a small csh-style command shell.
//!
//! This library holds everything the shell decides: how a line is cut into
//! tokens, how tokens become an invocation with its environment and its
//! redirections, where a command name is looked for, and how strings are made
//! ready for the operating system. It performs no system call itself; the
//! program around it reads, writes, forks and waits, and hands plain values in.

pub mod native;
pub mod shell;
pub mod text;
