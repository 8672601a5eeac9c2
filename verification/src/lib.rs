//! Wire protocol, connection registry and per-connection session logic for a
//! small chat service: clients join a room and exchange single-shot text
//! messages over a byte stream of tagged, length-prefixed frames.

pub mod codec;
pub mod registry;
pub mod session;
pub mod wire;

pub use codec::{DecodeError, Deserialize, EncodeError, Request, Response, Serialize};
pub use registry::ConnectionRegistry;
pub use session::{Session, SessionState};

use vstd::prelude::*;

verus! {

} // verus!
