//! A secure-shell daisy chain: a process that walks an ordered list of
//! hosts, placing a copy of its own executable on the next host and
//! handing the shared chain configuration over to it, until the end of the
//! list is reached and the terminal delivery role takes over.
//!
//! This crate holds the verified core: the chain configuration and its
//! `user@host` tokens, the framed handoff protocol, the shell-encoded
//! transfer codec, and the per-hop propagation engine. The process around
//! it performs the outside work — files, sockets, the secure-shell
//! session — and feeds the outcomes back in as plain events.

pub mod codec;
pub mod config;
pub mod handoff;
pub mod numeric;
pub mod osuser;
pub mod strutil;
pub mod tomldoc;
pub mod worm;

pub use config::HostSpec;

use vstd::prelude::*;

verus! {

/// The role a process plays at its position in the chain.
#[derive(Clone, Copy, Debug, PartialEq, Eq, Structural)]
pub enum Role {
    /// Still inside the host list: propagate to the next host.
    Forwarder,
    /// Past the end of the host list: run the destination command.
    Deliverer,
}

/// A process is the deliverer exactly when its position index has
/// passed the end of the host list.
pub open spec fn spec_role(position_index: nat, host_count: nat) -> Role {
    if position_index >= host_count {
        Role::Deliverer
    } else {
        Role::Forwarder
    }
}

pub fn role_of(position_index: usize, host_count: usize) -> (r: Role)
    ensures
        r == spec_role(position_index as nat, host_count as nat),
{
    if position_index >= host_count {
        Role::Deliverer
    } else {
        Role::Forwarder
    }
}

} // verus!
