//! Decoding and encoding of the Adobe Flex messaging classes.
use vstd::prelude::*;

pub mod read;
pub mod write;

verus! {

/// Set on every flag byte that is followed by another
pub const NEXT_FLAG: u8 = 128;
/// Message body present
pub const BODY_FLAG: u8 = 1;
/// Client id present
pub const CLIENT_ID_FLAG: u8 = 2;
/// Destination present
pub const DESTINATION_ID_FLAG: u8 = 4;
/// Headers present
pub const HEADERS_FLAG: u8 = 8;
/// Message id present
pub const MESSAGE_ID_FLAG: u8 = 16;
/// Timestamp present
pub const TIMESTAMP_FLAG: u8 = 32;
/// Time to live present
pub const TTL_FLAG: u8 = 64;
/// Client id bytes present
pub const CLIENT_ID_BYTES_FLAG: u8 = 1;
/// Message id bytes present
pub const MESSAGE_ID_BYTES_FLAG: u8 = 2;
/// Correlation id present
pub const CORRELATION_ID_FLAG: u8 = 1;
/// Correlation id bytes present
pub const CORRELATION_ID_BYTES_FLAG: u8 = 2;
/// Operation present
pub const OPERATION_FLAG: u8 = 1;

} // verus!
