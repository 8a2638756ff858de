//! The rules of the accept loop of the connection dispatcher.
//!
//! The loop itself, with its sockets and threads, is not part of this
//! library. What is decided here is what the loop does with the outcome of
//! one `accept` call, and whether it goes on afterwards.

use vstd::prelude::*;

verus! {

/// What one `accept` call gave.
#[derive(Debug, Clone, Copy, PartialEq, Eq, Structural)]
pub enum Accepted {
    /// A socket.
    Connection,
    /// An error.
    Failure,
}

/// What the loop does with what `accept` gave.
#[derive(Debug, Clone, Copy, PartialEq, Eq, Structural)]
pub enum Action {
    /// Hands the socket to a unit of work of its own.
    Serve,
    /// Reports the error and drops it.
    Report,
}

/// Where the listener stands after an accept iteration.
#[derive(Debug, Clone, Copy, PartialEq, Eq, Structural)]
pub enum Listener {
    Listening,
    Closed,
}

/// The outcome of one accept iteration.
#[derive(Debug, Clone, Copy, PartialEq, Eq, Structural)]
pub struct Turn {
    pub action: Action,
    pub listener: Listener,
}

/// Decides one accept iteration, given what `accept` returned and whether
/// closing was asked for by the time the iteration is complete.
///
/// An accepted socket is always served, also when closing was asked for. A
/// failed accept never closes the listener. The listener closes only here:
/// after an iteration, when closing was asked for.
pub fn after_accept(accepted: Accepted, close_requested: bool) -> (r: Turn)
    ensures
        r.action == Action::Serve <==> accepted == Accepted::Connection,
        r.action == Action::Report <==> accepted == Accepted::Failure,
        r.listener == Listener::Closed <==> close_requested,
        r.listener == Listener::Listening <==> !close_requested,
{
    let action = match accepted {
        Accepted::Connection => Action::Serve,
        Accepted::Failure => Action::Report,
    };
    let listener = if close_requested {
        Listener::Closed
    } else {
        Listener::Listening
    };
    Turn { action, listener }
}

} // verus!
