//! The failure categories of the library.

use vstd::prelude::*;

verus! {

/// Why an operation of the library failed.
///
/// Device resolution reports `DeviceNotFound` when a scan ends without a
/// name match and `DeviceIoError` for open, read or scan failures; the
/// codec reports `EncodingError` when bytes do not match the expected
/// serialization format; the compression layer reports `CompressionError`
/// when a transform fails; and persistence reports `PersistenceError`
/// when an output file cannot be created — the create-only collision
/// included — or cannot be fully written.
#[derive(Copy, Clone, Debug, PartialEq, Eq, Structural)]
pub enum KeyLogError {
    DeviceNotFound,
    DeviceIoError,
    EncodingError,
    CompressionError,
    PersistenceError,
}

} // verus!
