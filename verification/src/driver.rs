//! Checks that a merge driver makes on its inputs before it merges.

use vstd::prelude::*;
use vstd::string::StringSliceAdditionalSpecFns;

verus! {

/// The number of leading bytes that are searched for a null byte.
pub const BINARY_SCAN_BYTES: usize = 8192;

/// Whether a null byte stands among the first 8192 bytes.
pub open spec fn has_early_null(bytes: Seq<u8>) -> bool {
    exists|i: int| 0 <= i < bytes.len() && i < BINARY_SCAN_BYTES && #[trigger] bytes[i] == 0u8
}

/// Whether `content` looks like binary data: a null byte stands among its
/// first 8192 bytes.
pub fn is_binary(content: &str) -> (r: bool)
    ensures
        r == has_early_null(content.spec_bytes()),
{
    let bytes = content.as_bytes();
    let n = if bytes.len() < BINARY_SCAN_BYTES {
        bytes.len()
    } else {
        BINARY_SCAN_BYTES
    };
    let mut i: usize = 0;
    while i < n
        invariant
            i <= n,
            n <= bytes.len(),
            n <= BINARY_SCAN_BYTES,
            n == bytes.len() || n == BINARY_SCAN_BYTES,
            bytes@ == content.spec_bytes(),
            forall|k: int| 0 <= k < i ==> #[trigger] bytes@[k] != 0u8,
        decreases n - i,
    {
        if bytes[i] == 0 {
            return true;
        }
        i += 1;
    }
    false
}

} // verus!
