//! The engine: what it knows, and what it decides.
//!
//! Nothing here opens a socket, a file or a thread. A call that needs one
//! says what has to be done, and the value that comes back is handed in.

pub mod addr;
pub mod live;
pub mod discovery;
pub mod pairing;
pub mod shown;
pub mod inbound;
pub mod state;
pub mod network;
pub mod remote;
pub mod devices;
pub mod queue;
pub mod pair;
pub mod lifecycle;
pub mod copying;
