use vstd::prelude::*;

verus! {

/// The error taxonomy of the store.
///
/// `Io` is a fatal transport failure, `Disconnect` is the peer closing the
/// stream (expected, ends a session quietly), `Parse` is a malformed textual
/// command on the client side, and `Protocol` is an unrecognized wire tag,
/// which closes the connection.
#[derive(Clone, Copy, Debug, PartialEq, Eq, Structural)]
pub enum Error {
    Io,
    Disconnect,
    Parse,
    Protocol,
}

} // verus!
