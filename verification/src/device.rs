//! The device resolver's decision rule.
//!
//! Resolving a device is I/O through and through — open a path, list
//! a directory, open each candidate — and stays with the caller. The
//! one decision in it is which scanned candidate counts as the wanted
//! device, and that rule lives here.

use vstd::prelude::*;
use vstd::string::StringSliceAdditionalSpecFns;

verus! {

fn bytes_equal(a: &[u8], b: &[u8]) -> (r: bool)
    ensures
        r <==> a@ == b@,
{
    if a.len() != b.len() {
        proof {
            assert(a@.len() != b@.len());
        }
        return false;
    }
    let n = a.len();
    let mut i: usize = 0;
    while i < n
        invariant
            i <= n,
            n == a@.len(),
            n == b@.len(),
            forall|k: int| 0 <= k < i ==> a@[k] == b@[k],
        decreases n - i,
    {
        if a[i] != b[i] {
            return false;
        }
        i = i + 1;
    }
    proof {
        assert(a@ =~= b@);
    }
    true
}

/// The resolver's matching rule: a scanned candidate is the wanted
/// device exactly when it reports a name and that name equals the
/// requested one byte for byte — case-sensitive, with no trimming or
/// normalization.
pub fn device_name_matches(reported: Option<&str>, requested: &str) -> (r: bool)
    ensures
        r <==> (reported matches Some(name) && name.spec_bytes() == requested.spec_bytes()),
{
    match reported {
        Some(name) => bytes_equal(name.as_bytes(), requested.as_bytes()),
        None => false,
    }
}

} // verus!
