//! Error vocabulary of the library.
//!
//! Transport-level failures (socket reads and writes) belong to the network
//! layer around this crate; here live only the faults the protocol logic
//! itself can detect.

use vstd::prelude::*;

verus! {

/// A protocol-level fault raised by the dispatcher.
#[derive(Debug, Clone, PartialEq, Eq)]
pub enum ServerError {
    /// A `Connect` asked for a nickname some live session already holds.
    UsernameTaken(String),
    /// A request other than `Connect` arrived on a connection that has not
    /// authenticated.
    UserNotFound,
    /// The shared state could not be locked; fatal to the whole server.
    /// Never raised by this library: the lock lives in the network layer.
    LockError,
}

/// Mathematical model of a [`ServerError`].
pub ghost enum ServerErrorView {
    UsernameTaken(Seq<char>),
    UserNotFound,
    LockError,
}

impl View for ServerError {
    type V = ServerErrorView;

    open spec fn view(&self) -> ServerErrorView {
        match self {
            ServerError::UsernameTaken(name) => ServerErrorView::UsernameTaken(name@),
            ServerError::UserNotFound => ServerErrorView::UserNotFound,
            ServerError::LockError => ServerErrorView::LockError,
        }
    }
}

impl DeepView for ServerError {
    type V = ServerErrorView;

    open spec fn deep_view(&self) -> ServerErrorView {
        self.view()
    }
}

/// A frame whose payload is not the encoding of any message.
#[derive(Debug, Clone, PartialEq, Eq)]
pub enum DecodeError {
    Malformed,
}

/// A message whose payload would not fit behind the 32-bit length prefix.
#[derive(Debug, Clone, PartialEq, Eq)]
pub enum EncodeError {
    PayloadTooLong,
}

} // verus!
