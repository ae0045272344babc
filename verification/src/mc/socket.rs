//! What comes in over a web socket.

use vstd::prelude::*;

verus! {

/// What receiving from a web socket gave.
pub enum Incoming {
    /// The socket has ended.
    Ended,
    /// Receiving failed.
    Failed,
    Text(String),
    Close,
    /// A frame of another kind.
    Other,
}

impl Incoming {
    /// Nothing more will come from the client.
    pub open spec fn is_goodbye(self) -> bool {
        self is Ended || self is Failed || self is Close
    }

    pub fn goodbye(&self) -> (r: bool)
        ensures
            r == self.is_goodbye(),
    {
        match self {
            Incoming::Ended | Incoming::Failed | Incoming::Close => true,
            Incoming::Text(_) | Incoming::Other => false,
        }
    }
}

}
