use djled::dsp::bands::{default_fft_sizes, BandPlan, Run};
use djled::dsp::eq::EqType;
use djled::dsp::fastpath::{slow_bands, DEFAULT_MIN_SPAN};
use djled::dsp::mrstft::{MultiResStft, SampleRing, DEFAULT_HOP};
use djled::dsp::window::WindowKind;

const HZ: u64 = 1_000_000;

/// Forty hertz to sixteen kilohertz, in bands that only get wider.
fn edges() -> Vec<u64> {
    let mut edges = Vec::new();
    let mut f = 40.0f64;
    for _ in 0..48 {
        edges.push((f * HZ as f64).round() as u64);
        f += f64::max(27.0, 0.105 * f);
    }
    edges
}

fn plan(rate: u32) -> BandPlan {
    BandPlan::new(&edges(), rate, WindowKind::BlackmanHarris)
}

fn qualifies(lo: u64, hi: u64, rate: u32, size: usize) -> bool {
    let bin = rate as u128 * HZ as u128;
    (hi - lo) as u128 * size as u128 >= 2 * bin && lo as u128 * size as u128 >= 4 * bin
}

#[test]
fn every_band_satisfies_the_tier_rule() {
    let p = plan(48_000);
    assert_eq!(p.len(), 47);
    for (i, b) in p.bands.iter().enumerate() {
        assert!(!b.unresolved, "band {i} unresolved");
        assert!(qualifies(b.lo, b.hi, 48_000, b.fft_size), "band {i} at N={}", b.fft_size);
    }
}

#[test]
fn assignment_is_minimal() {
    let p = plan(48_000);
    for b in &p.bands {
        for smaller in default_fft_sizes().into_iter().filter(|&n| n < b.fft_size) {
            assert!(!qualifies(b.lo, b.hi, 48_000, smaller), "N={smaller} also qualified");
        }
    }
}

#[test]
fn tier_sizes_decrease_with_frequency() {
    let p = plan(48_000);
    assert!(p.bands.windows(2).all(|w| w[0].fft_size >= w[1].fft_size));
}

#[test]
fn rule_holds_at_other_sample_rates() {
    for rate in [44_100, 96_000, 192_000] {
        assert!(plan(rate).unresolved().is_empty(), "unresolved bands at {rate} Hz");
    }
}

#[test]
fn only_referenced_fft_sizes_are_planned() {
    let p = plan(48_000);
    assert!(p.fft_sizes.windows(2).all(|w| w[0] < w[1]));
    for &n in &p.fft_sizes {
        assert!(p.bands.iter().any(|b| b.fft_size == n), "N={n} planned but unused");
    }
    for b in &p.bands {
        assert!(p.fft_sizes.contains(&b.fft_size));
    }
}

#[test]
fn a_band_nothing_resolves_gets_the_largest_size_and_says_so() {
    let p = BandPlan::with_sizes(
        &[HZ, 2 * HZ, 1000 * HZ],
        48_000,
        WindowKind::Hann,
        &[4096, 128, 512],
    );
    assert_eq!(p.bands[0].fft_size, 4096);
    assert!(p.bands[0].unresolved);
    assert_eq!(p.unresolved(), [0, 1]);
    assert!(BandPlan::new(&[], 48_000, WindowKind::Hann).is_empty());
}

#[test]
fn tiers_are_described_in_stretches() {
    let p = plan(48_000);
    let runs = p.describe_tiers();
    assert_eq!(runs.iter().map(|r| r.count).sum::<usize>(), p.len());
    assert!(runs.windows(2).all(|w| w[0].size != w[1].size));
    for Run { size, first, count } in runs {
        assert!(p.bands[first..first + count].iter().all(|b| b.fft_size == size));
    }
}

fn analyser() -> MultiResStft<i32> {
    let p = plan(48_000);
    let nearest: Vec<usize> = p.bands.iter().map(|_| 10).collect();
    MultiResStft::new(p, WindowKind::BlackmanHarris, &nearest, 0)
}

#[test]
fn no_output_before_the_longest_window_is_full() {
    let mut a = analyser();
    let longest = *a.plan().fft_sizes.iter().max().unwrap();
    assert_eq!(longest, 8192);
    for i in 0..longest as i32 / 2 {
        assert!(!a.push(i), "emitted a frame before warm-up completed");
    }
    let frames = (0..longest as i32).filter(|&i| a.push(i)).count();
    assert_eq!(frames, (longest + longest / 2) / DEFAULT_HOP - (longest / DEFAULT_HOP - 1));
    a.reset(0);
    assert!(!a.push(1));
}

#[test]
fn frames_come_at_every_hop_once_the_window_is_full() {
    let mut ring = SampleRing::new(0u8, 64, 7, 30);
    let due: Vec<i32> = (1..=60).filter(|_| ring.push(1)).collect();
    assert_eq!(due, [35, 42, 49, 56]);
    let mut every = SampleRing::new(0u8, 4, 0, 3);
    let due: Vec<i32> = (1..=5).filter(|_| every.push(1)).collect();
    assert_eq!(due, [3, 4, 5], "a hop of nothing is a hop of one");
}

#[test]
fn a_tier_looks_at_the_newest_samples() {
    let mut a = analyser();
    for i in 0..20_000 {
        a.push(i);
    }
    for tier in 0..a.plan().fft_sizes.len() {
        let size = a.plan().fft_sizes[tier];
        let window = a.window_of(tier);
        assert_eq!(window.len(), size);
        assert_eq!(window[0], 20_000 - size as i32);
        assert_eq!(window[size - 1], 19_999);
    }
    assert_eq!(a.hop(), DEFAULT_HOP);
    assert_eq!(a.band_count(), 47);
}

#[test]
fn a_ring_keeps_what_fits() {
    let mut ring = SampleRing::new(0u8, 4, 2, 3);
    let due: Vec<bool> = (1..=6).map(|s| ring.push(s)).collect();
    assert_eq!(due, [false, false, false, true, false, true]);
    assert_eq!(ring.newest(4), [3, 4, 5, 6]);
    assert_eq!(ring.newest(1), [6]);
    assert_eq!(ring.newest(0), []);
}

#[test]
fn a_band_reads_the_bins_it_covers() {
    // Bins are a hundred hertz wide at this rate and size.
    let p = BandPlan::with_sizes(
        &[1_000 * HZ, 1_230 * HZ, 1_400 * HZ],
        51_200,
        WindowKind::Hann,
        &[512],
    );
    let a = MultiResStft::with_hop(p, WindowKind::Hann, &[0, 0], 0u8, 64);
    let whole = 2.0 * 51_200.0 * HZ as f64;
    let weights: Vec<f64> =
        a.bins_of(0).overlaps.iter().map(|&o| o as f64 / whole).collect();
    let start = a.bins_of(0).start;
    assert_eq!(start, 9);
    assert_eq!(weights, [0.0, 0.5, 1.0, 0.8, 0.0]);
    let next = a.bins_of(1);
    let share = next.overlaps[12 - next.start] as f64 / whole;
    assert!((weights[12 - start] + share - 1.0).abs() < 1e-9);
}

#[test]
fn a_band_below_the_discarded_bins_reads_the_nearest_usable_one() {
    let p = BandPlan::with_sizes(&[HZ, 2 * HZ], 48_000, WindowKind::BlackmanHarris, &[128]);
    let a = MultiResStft::with_hop(p, WindowKind::BlackmanHarris, &[0], 0u8, 64);
    assert_eq!(a.bins_of(0).start, 4);
    assert_eq!(a.bins_of(0).overlaps, [2 * 48_000 * HZ as u128]);
}

#[test]
fn a_transform_no_longer_than_the_discarded_bins_still_serves_a_band_it_covers() {
    // Bins are one hertz wide; the fourth is the first that is not discarded.
    let p = BandPlan::with_sizes(&[3 * HZ, 6 * HZ], 4, WindowKind::BlackmanHarris, &[4]);
    let a = MultiResStft::with_hop(p, WindowKind::BlackmanHarris, &[0], 0u8, 64);
    assert_eq!(a.bins_of(0).start, 4);
    assert_eq!(a.bins_of(0).overlaps, [2 * 4 * HZ as u128]);
}

#[test]
fn covers_slow_tiers_only() {
    let p = plan(48_000);
    let slow = slow_bands(&p, DEFAULT_MIN_SPAN);
    assert!(!slow.is_empty(), "no band got a fast path");
    assert!(slow.len() < p.len(), "every band got one; treble does not need it");
    for (i, b) in p.bands.iter().enumerate() {
        let span_ms = b.fft_size as f64 / 48_000.0 * 1000.0;
        assert_eq!(slow.contains(&i), span_ms > 40.0);
    }
}

#[test]
fn windows_and_filters_have_their_constants() {
    assert_eq!(WindowKind::default(), WindowKind::BlackmanHarris);
    assert_eq!(WindowKind::Hann.discard_bins(), 2);
    assert_eq!(WindowKind::BlackmanHarris.discard_bins(), 4);
    assert_eq!(EqType::default(), EqType::Peak);
    assert!(EqType::LowShelf.has_gain() && EqType::HighShelf.has_gain());
    assert!(!EqType::LowPass.has_gain() && !EqType::HighPass.has_gain());
}
