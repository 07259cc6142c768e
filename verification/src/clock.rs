//! Readings of the system clock.

use vstd::prelude::*;

verus! {

/// The number that the low 64 bits of `n` are in two's complement.
pub open spec fn low_bits(n: int) -> int {
    let low = n % 0x1_0000_0000_0000_0000;
    if low < 0x8000_0000_0000_0000 {
        low
    } else {
        low - 0x1_0000_0000_0000_0000
    }
}

/// A reading of the clock as a signed number: zero for a clock before the epoch,
/// else the milliseconds since the epoch, wrapped where they do not fit.
pub open spec fn clock_value(since_epoch: Option<u128>) -> int {
    match since_epoch {
        Some(n) => low_bits(n as int),
        None => 0,
    }
}

/// The present time in milliseconds since the Unix epoch, given how many of them
/// the clock has counted; nothing stands for a clock before the epoch.
pub fn now_ms(since_epoch: Option<u128>) -> (r: i64)
    ensures
        r == clock_value(since_epoch),
        since_epoch matches Some(n) && n <= i64::MAX ==> r == since_epoch->0,
{
    match since_epoch {
        Some(n) => {
            let r: i64 = #[verifier::truncate] (n as i64);
            assert(r as u64 == n % 0x1_0000_0000_0000_0000) by (bit_vector)
                requires
                    r == n as i64,
            ;
            assert(r >= 0 ==> r as u64 == r) by (bit_vector);
            assert(r < 0 ==> r as u64 == r + 0x1_0000_0000_0000_0000) by (bit_vector);
            r
        },
        None => 0,
    }
}

// ---------------------------------------------------------------------------
// Laws
// ---------------------------------------------------------------------------

/// A reading of the clock that fits is kept, any other differs from its number by
/// a multiple of 2 to the 64th, and a clock before the epoch counts as the epoch.
pub proof fn law_clock_readings(n: u128)
    ensures
        clock_value(None) == 0,
        n <= i64::MAX ==> clock_value(Some(n)) == n,
        i64::MIN <= clock_value(Some(n)) <= i64::MAX,
        (n - clock_value(Some(n))) % 0x1_0000_0000_0000_0000 == 0,
{
}

} // verus!
