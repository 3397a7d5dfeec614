//! The handshake between a tunnel companion and a shell client.
//!
//! Two processes are started one after the other. The companion prints what it
//! does, line by line; from those lines the path of a shell configuration is
//! taken and two signs of readiness are awaited. The shell client is then
//! started with that path and judged by the first thing it says. This library
//! holds the command lines, the reading of single lines, and the two state
//! machines that decide, read by read, how a handshake goes on and how it ends.

use command_group::AsyncGroupChild;
use vstd::prelude::*;

pub mod args;
pub mod companion;
pub mod handshake;
pub mod lines;
pub mod shell;
pub mod text;

verus! {

/// The host that the companion is asked to connect to.
#[derive(Debug, PartialEq, Eq)]
pub enum HostName {
    /// The companion's built-in default host.
    Default,
    /// A host named by the caller, handed on as it is.
    Is(String),
}

/// A process of `command_group`, started in a group of its own so that
/// whatever it starts ends with it. The library hands such a process on and
/// never looks into it.
#[verifier::external_type_specification]
#[verifier::external_body]
pub struct ExAsyncGroupChild(AsyncGroupChild);

/// The running companion, and the path of the shell configuration that it
/// named. There is one only for a handshake that went through.
pub struct CompanionHandle {
    pub companion_process: AsyncGroupChild,
    pub ssh_config_path: String,
}

/// A host as contracts see it: a choice, and the characters of the name.
pub enum HostTarget {
    Default,
    Explicit(Seq<char>),
}

impl View for HostName {
    type V = HostTarget;

    open spec fn view(&self) -> HostTarget {
        match self {
            HostName::Default => HostTarget::Default,
            HostName::Is(name) => HostTarget::Explicit(name@),
        }
    }
}

} // verus!
