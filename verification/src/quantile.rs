//! Order-statistic percentiles with linear interpolation.

use vstd::prelude::*;
use vstd::relations::sorted_by;
use crate::sorting::u64_le;

verus! {

/// The `p`-th percentile of a non-empty ascending sequence of samples,
/// scaled by 100 (so a nanosecond sample set yields hundredths of a
/// nanosecond, exactly).
///
/// The rank is `p * (len - 1) / 100`; the value is interpolated linearly
/// between the order statistics at the floor and the ceiling of the rank.
pub open spec fn percentile_scaled_spec(sorted: Seq<u64>, p: int) -> int
    recommends
        sorted.len() > 0,
        0 <= p <= 100,
{
    let pos = p * (sorted.len() - 1);
    let i = pos / 100;
    let f = pos % 100;
    if f == 0 {
        sorted[i] * 100
    } else {
        sorted[i] * 100 + (sorted[i + 1] - sorted[i]) * f
    }
}

/// Compute the `p`-th percentile of the ascending sample vector, scaled by
/// 100, exactly as `percentile_scaled_spec` states it.
pub fn percentile_scaled(sorted: &Vec<u64>, p: u64) -> (r: u128)
    requires
        sorted@.len() > 0,
        p <= 100,
        sorted_by(sorted@, u64_le()),
    ensures
        r == percentile_scaled_spec(sorted@, p as int),
{
    let n = sorted.len();
    proof {
        assert(p as int * (n - 1) <= 100 * (n - 1)) by (nonlinear_arith)
            requires
                p <= 100,
                n >= 1,
        ;
    }
    let pos: u128 = (p as u128) * ((n - 1) as u128);
    let idx128 = pos / 100;
    let f = pos % 100;
    assert(idx128 <= (n - 1) as u128);
    let i = idx128 as usize;
    let lo = sorted[i];
    if f == 0 {
        (lo as u128) * 100
    } else {
        assert(pos == 100 * idx128 + f);
        assert(i + 1 < n);
        let hi = sorted[i + 1];
        assert(u64_le()(sorted@[i as int], sorted@[i as int + 1]));
        let diff = hi - lo;
        proof {
            assert((diff as int) * (f as int) <= 0xffff_ffff_ffff_ffff * 99) by (nonlinear_arith)
                requires
                    diff <= 0xffff_ffff_ffff_ffffu64,
                    f <= 99,
            ;
        }
        (lo as u128) * 100 + (diff as u128) * f
    }
}

} // verus!
