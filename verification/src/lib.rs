//! A miniature in-memory data store speaking the RESP wire protocol.
//!
//! The crate has three parts: the frame types and their byte-exact codec
//! (`frame`, `encode`, `decode`), the key-value backend (`backend`), and the
//! command layer that parses a decoded array frame into a typed command and
//! executes it against the backend (`cmd`). The `laws` module states and
//! proves the library-wide properties: codec round-trips, incremental
//! delivery, and the algebra of the set operations.

pub mod backend;
pub mod cmd;
pub mod buffer;
pub mod decode;
pub mod encode;
pub mod frame;
pub mod laws;

pub use backend::Backend;
pub use cmd::{Command, CommandError, Get, HGet, HGetAll, HSet, SAdd, SetCmd, SIsMember};
pub use frame::{
    BulkString, FrameView, NullBulkString, RespArray, RespBulkString, RespError, RespFrame,
    RespNullArray,
};
