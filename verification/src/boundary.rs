//! The rules of the host boundary, on the plain values that cross it.

use crate::engine::Direction;
use crate::error::CipherError;
use crate::table::NO_HANDLE;
use vstd::prelude::*;

verus! {

/// The direction that a host flag asks for: encryption when it is set.
pub fn direction_of(flag: u8) -> (direction: Direction)
    ensures
        direction == (if flag != 0 {
            Direction::Encrypt
        } else {
            Direction::Decrypt
        }),
{
    if flag != 0 {
        Direction::Encrypt
    } else {
        Direction::Decrypt
    }
}

/// Whether a processing request is to be served: handle and both addresses
/// are set, and the length is positive.
pub open spec fn request_served(handle: i64, source: i64, length: i32, dest: i64) -> bool {
    handle != NO_HANDLE && source != 0 && dest != 0 && length > 0
}

/// Tells whether a processing request is to be served. One that is not is
/// dropped in silence, before any memory is touched.
pub fn serves(handle: i64, source: i64, length: i32, dest: i64) -> (served: bool)
    ensures
        served == request_served(handle, source, length, dest),
{
    !(handle == NO_HANDLE || source == 0 || dest == 0 || length <= 0)
}

/// The number of bytes in a span of a served request.
pub fn span_length(length: i32) -> (bytes: usize)
    requires
        length > 0,
    ensures
        bytes == length,
{
    length as usize
}

/// The handle that the host is given for the outcome of a creation: the
/// context's own where one was created, `NO_HANDLE` where none was.
pub fn handle_given(made: &Result<i64, CipherError>) -> (handle: i64)
    ensures
        handle == (match *made {
            Ok(issued) => issued,
            Err(_) => NO_HANDLE,
        }),
{
    match made {
        Ok(issued) => *issued,
        Err(_) => NO_HANDLE,
    }
}

} // verus!
