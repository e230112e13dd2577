//! Which bands get the low-latency parallel estimate.
//!
//! A band served by a long window also gets a bandpass and an envelope
//! follower. A short window is already responsive enough that the extra filter
//! earns nothing.

use vstd::prelude::*;

use super::bands::{ascending, Band, BandPlan};

verus! {

/// The window length, in micro-seconds, past which a band gets a fast path.
pub const DEFAULT_MIN_SPAN: u64 = 40_000;

/// Whether a transform's window is longer than a span in micro-seconds.
pub open spec fn is_slow(size: int, rate: int, span: int) -> bool {
    size * 1_000_000 > span * rate
}

/// The bands whose window is longer than a span, in order.
pub fn slow_bands(plan: &BandPlan, span: u64) -> (list: Vec<usize>)
    ensures
        ascending(list@),
        forall|i: usize|
            list@.contains(i) <==> i < plan.bands@.len() && is_slow(
                plan.bands@[i as int].fft_size as int,
                plan.sample_rate as int,
                span as int,
            ),
{
    let rate: u32 = plan.sample_rate;
    let mut list: Vec<usize> = Vec::new();
    let mut i: usize = 0;
    while i < plan.bands.len()
        invariant
            i <= plan.bands@.len(),
            rate == plan.sample_rate,
            ascending(list@),
            forall|k: int| 0 <= k < list@.len() ==> (#[trigger] list@[k]) < i,
            forall|k: usize|
                list@.contains(k) <==> k < i && is_slow(
                    plan.bands@[k as int].fft_size as int,
                    rate as int,
                    span as int,
                ),
        decreases plan.bands@.len() - i,
    {
        let ghost before = list@;
        let size: usize = plan.bands[i].fft_size;
        let length: u128 = (size as u128) * 1_000_000;
        proof {
            let s: int = span as int;
            let r: int = rate as int;
            assert(0 <= s * r <= 0xffff_ffff_ffff_ffff * 0xffff_ffff) by (nonlinear_arith)
                requires
                    0 <= s <= 0xffff_ffff_ffff_ffff,
                    0 <= r <= 0xffff_ffff,
            ;
        }
        let limit: u128 = (span as u128) * (rate as u128);
        if length > limit {
            list.push(i);
        }
        proof {
            assert forall|k: usize| list@.contains(k) <==> k < i + 1 && is_slow(
                plan.bands@[k as int].fft_size as int,
                rate as int,
                span as int,
            ) by {
                if before.contains(k) {
                    assert(list@[before.index_of(k)] == k);
                }
                if k == i && length > limit {
                    assert(list@[before.len() as int] == i);
                }
                if list@.contains(k) && k != i {
                    assert(before[list@.index_of(k)] == k);
                }
            }
        }
        i += 1;
    }
    list
}

/// Down the ladder the windows only get shorter: a band on a larger transform
/// than one with a fast path has one too.
pub proof fn law_slow_stays_slow_on_a_larger_transform(a: Band, b: Band, rate: int, span: int)
    requires
        b.fft_size <= a.fft_size,
        is_slow(b.fft_size as int, rate, span),
    ensures
        is_slow(a.fft_size as int, rate, span),
{
}

/// The span is where a window becomes slow: the longest window that fits into it
/// is not, and one sample more is.
pub proof fn law_a_window_is_slow_past_the_span(samples: int, rate: int, span: int)
    requires
        rate > 0,
        samples * 1_000_000 <= span * rate < (samples + 1) * 1_000_000,
    ensures
        !is_slow(samples, rate, span),
        is_slow(samples + 1, rate, span),
{
}

} // verus!
