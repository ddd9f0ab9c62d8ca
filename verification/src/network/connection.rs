//! The protocol states of a connection.
use vstd::prelude::*;

verus! {

/// The protocol state a connection is in.
pub enum State {
    Handshake,
    Status,
    Login,
    Config,
    Play,
}

} // verus!
