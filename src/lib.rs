//! Object-to-record mapping for a remote key-value store.
//!
//! Objects are flattened into ordered attribute lists by [`encoder::Encoder`],
//! rebuilt from field maps by [`decoder::Decoder`], persisted through atomic
//! store-side operations whose arguments are prepared in [`persist`], and
//! queried through set expressions compiled in [`query`]. [`store`] models those
//! store-side operations for one class in memory; its guarantees are of that model,
//! not of scripts run on a remote server.
use vstd::prelude::*;

pub mod text;
pub mod keys;
pub mod encoder;
pub mod decoder;
pub mod record;
pub mod msgpack;
pub mod persist;
pub mod query;
pub mod properties;
pub mod slots;
pub mod store;

pub use decoder::{Decoder, DecoderError};
pub use encoder::{Encoder, EncoderError};
pub use persist::OhmerError;
pub use properties::{Collection, Counter, List, Reference, SetProperty};
pub use query::{all_query, Iter, Query};
pub use store::Store;

verus! {

/// The store's error type, carried through the library's own errors untouched.
#[verifier::external_type_specification]
#[verifier::external_body]
pub struct ExRedisError(redis::RedisError);

} // verus!
