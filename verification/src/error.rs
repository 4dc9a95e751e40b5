//! What can go wrong between a request and its decoded reply.

use vstd::prelude::*;
use crate::decode::DecodeError;

verus! {

/// `redis::RedisError`: why the client could not complete a request. What is
/// inside it is not visible from here; it is only handed on.
#[verifier::external_type_specification]
#[verifier::external_body]
pub struct ExRedisError(redis::RedisError);

/// Why an operation on streams failed.
#[derive(Debug)]
pub enum Error {
    /// The request did not reach the server, or no reply came back. Nothing
    /// is tried again.
    Transport(redis::RedisError),
    /// The reply does not have the shape of a stream reply.
    Decode(DecodeError),
    /// The named stream is not registered.
    UnregisteredStream(String),
}

} // verus!
