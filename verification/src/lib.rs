//! A dynamically reconfigurable TCP reverse-proxy controller: a signed
//! control-plane API that creates, modifies and deletes tunnels, each
//! forwarding a local port to a destination address.
//!
//! The library holds everything that can be stated and proved: the canonical
//! command wire form and its parser (`command`, with `digits`, `hexstr`,
//! `ident` and `net` underneath), signature verification and its freshness
//! window (`auth`), the tunnel registry and its invariants (`registry`), the
//! response bodies (`response`), the dispatcher (`dispatch`), and the
//! decision logic of the listener and transfer loops (`runtime`). The
//! process around it — the HTTP server, sockets, and the loops themselves —
//! performs what these functions decide.

use vstd::prelude::*;

pub mod auth;
pub mod command;
pub mod digits;
pub mod dispatch;
pub mod hexstr;
pub mod ident;
pub mod net;
pub mod registry;
pub mod response;
pub mod runtime;
mod strutil;

verus! {

/// Liveness greeting served at the HTTP root.
pub fn root() -> (r: &'static str)
    ensures
        r@ == "Hello, World!"@,
{
    "Hello, World!"
}

} // verus!
