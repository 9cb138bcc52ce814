//! The rule of the DNS cache: how long a resolved address is reused.
use vstd::prelude::*;

verus! {

/// The seconds for which a resolved address is reused.
pub const DEFAULT_TTL_SECS: u64 = 300;

/// A cached address that was resolved `age_secs` seconds ago is still used.
pub fn keeps_cached(age_secs: u64) -> (r: bool)
    ensures
        r == (age_secs < DEFAULT_TTL_SECS),
{
    age_secs < DEFAULT_TTL_SECS
}

} // verus!
