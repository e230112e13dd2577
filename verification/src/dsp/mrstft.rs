//! The multi-resolution transform: which bins every band reads and how much of
//! each, when a frame is due, and which samples it looks at.
//!
//! One shared ring feeds several transform sizes. Every hop each tier looks at
//! the newest samples it needs, and each band reads from the tier that serves
//! it. A bin stands for half a bin width to either side of its frequency, and a
//! bin that a band only partly covers counts for the part covered, so that a
//! band's level does not step as its edges move between bins.

use vstd::prelude::*;

use super::bands::{micro, serves, Band, BandPlan};
use super::window::WindowKind;

verus! {

/// Analysis hop in samples.
pub const DEFAULT_HOP: usize = 256;

/// How much of a bin a band covers, where a whole bin is twice the sample rate.
pub open spec fn overlap(lo: int, hi: int, rate: int, size: int, k: int) -> int {
    let top = if size * hi * 2 < (2 * k + 1) * rate {
        size * hi * 2
    } else {
        (2 * k + 1) * rate
    };
    let bottom = if size * lo * 2 > (2 * k - 1) * rate {
        size * lo * 2
    } else {
        (2 * k - 1) * rate
    };
    if top > bottom {
        top - bottom
    } else {
        0
    }
}

/// The first bin a band can touch, clear of the discarded ones.
pub open spec fn first_bin(lo: int, rate: int, size: int, discard: int) -> int {
    if size * lo * 2 < rate {
        discard
    } else {
        let k = (size * lo * 2 - rate) / (2 * rate);
        if k > discard {
            k
        } else {
            discard
        }
    }
}

/// The last bin a band can touch, within the spectrum.
pub open spec fn last_bin(hi: int, rate: int, size: int) -> int {
    let k = (size * hi * 2 + 3 * rate - 1) / (2 * rate);
    if k < size / 2 {
        k
    } else {
        size / 2
    }
}

/// How much of every bin it can touch a band covers.
pub open spec fn overlaps(band: Band, rate: int, discard: int) -> Seq<int> {
    let size = band.fft_size as int;
    let first = first_bin(band.lo as int, rate, size, discard);
    let last = last_bin(band.hi as int, rate, size);
    let count = if last > first {
        last - first + 1
    } else {
        1
    };
    Seq::new(
        count as nat,
        |i: int| overlap(band.lo as int, band.hi as int, rate, size, first + i),
    )
}

/// Whether a list of amounts holds nothing.
pub open spec fn all_zero(list: Seq<int>) -> bool {
    forall|i: int| 0 <= i < list.len() ==> (#[trigger] list[i]) == 0
}

/// The bins one band reads.
pub struct BandBins {
    /// The place of the transform in the plan's list of sizes.
    pub tier: usize,
    /// The first bin.
    pub start: usize,
    /// How much of each bin counts, from the first on, where a whole bin is
    /// twice the sample rate in micro-hertz.
    pub overlaps: Vec<u128>,
}

/// Amounts as numbers.
pub open spec fn amounts(list: Seq<u128>) -> Seq<int> {
    Seq::new(list.len(), |i: int| list[i] as int)
}

/// A number within bounds.
pub open spec fn clamped(n: int, lo: int, hi: int) -> int {
    if n < lo {
        lo
    } else if n > hi {
        hi
    } else {
        n
    }
}

impl BandBins {
    /// Whether these are the bins a band is to read: those it covers, or the
    /// nearest usable one where it covers none.
    pub open spec fn reads(
        self,
        band: Band,
        sizes: Seq<usize>,
        rate: int,
        discard: int,
        nearest: int,
    ) -> bool {
        let size = band.fft_size as int;
        let covered = overlaps(band, rate, discard);
        &&& self.tier < sizes.len()
        &&& sizes[self.tier as int] == band.fft_size
        &&& if all_zero(covered) {
            &&& self.start == clamped(nearest, discard, size / 2)
            &&& amounts(self.overlaps@) == seq![2 * rate]
        } else {
            &&& self.start == first_bin(band.lo as int, rate, size, discard)
            &&& amounts(self.overlaps@) == covered
        }
    }
}

/// Whether a band can be looked up at all: its transform is short enough for its
/// buffer, its bin has a number, and where it covers no bin there is a usable
/// one to fall back on.
pub open spec fn addressable(band: Band, rate: int, discard: int) -> bool {
    &&& band.fft_size <= 0x8000_0000
    &&& all_zero(overlaps(band, rate, discard)) ==> band.fft_size / 2 >= discard
    &&& band.lo * band.fft_size < rate * usize::MAX
}

/// The place of a size in a list.
fn position(sizes: &[usize], size: usize) -> (at: usize)
    requires
        sizes@.contains(size),
    ensures
        at < sizes@.len(),
        sizes@[at as int] == size,
{
    let mut i: usize = 0;
    let ghost there = sizes@.index_of(size);
    while sizes[i] != size
        invariant
            i <= there < sizes@.len(),
            sizes@[there] == size,
        decreases there - i,
    {
        i += 1;
    }
    i
}

/// The bins a band reads.
fn bins_for(
    band: Band,
    sizes: &[usize],
    sample_rate: u32,
    discard: usize,
    nearest: usize,
) -> (bins: BandBins)
    requires
        sample_rate > 0,
        2 <= discard <= 4,
        sizes@.contains(band.fft_size),
        addressable(band, micro(sample_rate), discard as int),
    ensures
        bins.reads(band, sizes@, micro(sample_rate), discard as int, nearest as int),
{
    let tier: usize = position(sizes, band.fft_size);
    let rate: u128 = (sample_rate as u128) * 1_000_000;
    let size: u128 = band.fft_size as u128;
    let ghost r: int = rate as int;
    let ghost n: int = size as int;
    proof {
        lemma_scaled_fits(n, band.lo as int);
        lemma_scaled_fits(n, band.hi as int);
    }
    let lo: u128 = size * (band.lo as u128) * 2;
    let hi: u128 = size * (band.hi as u128) * 2;

    let touched: u128 = if lo < rate {
        0
    } else {
        (lo - rate) / (2 * rate)
    };
    assert(touched < usize::MAX) by {
        if lo >= rate {
            let l: int = band.lo as int;
            let most: int = usize::MAX as int;
            assert(n * l * 2 < 2 * r * most) by (nonlinear_arith)
                requires
                    l * n < r * most,
            ;
            assert((n * l * 2 - r) / (2 * r) < most) by (nonlinear_arith)
                requires
                    n * l * 2 < 2 * r * most,
                    r > 0,
                    n * l * 2 >= r,
            ;
        }
    }
    let first: usize = if touched > discard as u128 {
        touched as usize
    } else {
        discard
    };
    assert(first == first_bin(band.lo as int, r, n, discard as int));

    let half: usize = band.fft_size / 2;
    let top: u128 = (hi + 3 * rate - 1) / (2 * rate);
    let last: usize = if top < half as u128 {
        top as usize
    } else {
        half
    };
    assert(last == last_bin(band.hi as int, r, n));
    let end: usize = if last > first {
        last
    } else {
        first
    };

    let ghost wanted = overlaps(band, r, discard as int);
    let mut list: Vec<u128> = Vec::new();
    let mut any: bool = false;
    let mut k: usize = first;
    loop
        invariant
            2 <= first <= k <= end,
            end < usize::MAX,
            r == rate,
            n == size,
            0 < rate <= 0xffff_ffff * 1_000_000,
            lo == n * band.lo * 2,
            hi == n * band.hi * 2,
            n == band.fft_size,
            r == micro(sample_rate),
            wanted == overlaps(band, r, discard as int),
            wanted.len() == end - first + 1,
            first == first_bin(band.lo as int, r, n, discard as int),
            list@.len() == k - first,
            forall|i: int| 0 <= i < list@.len() ==> (#[trigger] list@[i]) == wanted[i],
            any == exists|i: int| 0 <= i < list@.len() && (#[trigger] list@[i]) != 0,
            tier < sizes@.len(),
            sizes@[tier as int] == band.fft_size,
            half == band.fft_size / 2,
        decreases end - k,
    {
        proof {
            lemma_edge_fits(k as int, r);
        }
        let above: u128 = (2 * (k as u128) + 1) * rate;
        let below: u128 = (2 * (k as u128) - 1) * rate;
        let ceiling: u128 = if hi < above {
            hi
        } else {
            above
        };
        let floor: u128 = if lo > below {
            lo
        } else {
            below
        };
        let part: u128 = if ceiling > floor {
            ceiling - floor
        } else {
            0
        };
        let ghost before = list@;
        list.push(part);
        proof {
            assert(wanted[k - first] == overlap(band.lo as int, band.hi as int, r, n, k as int));
            assert(part == wanted[k - first]);
            assert forall|i: int| 0 <= i < list@.len() implies (#[trigger] list@[i])
                == wanted[i] by {
                if i < before.len() {
                    assert(list@[i] == before[i]);
                }
            }
            if any {
                let i = choose|i: int| 0 <= i < before.len() && (#[trigger] before[i]) != 0;
                assert(list@[i] != 0);
            }
            if part != 0 {
                assert(list@[before.len() as int] != 0);
            }
        }
        if part != 0 {
            any = true;
        }
        if k == end {
            assert(amounts(list@) =~= wanted);
            if any {
                assert(!all_zero(wanted)) by {
                    let i = choose|i: int| 0 <= i < list@.len() && (#[trigger] list@[i]) != 0;
                    assert(wanted[i] != 0);
                }
                return BandBins { tier, start: first, overlaps: list };
            }
            assert(all_zero(wanted)) by {
                assert forall|i: int| 0 <= i < wanted.len() implies (#[trigger] wanted[i])
                    == 0 by {
                    assert(list@[i] == wanted[i]);
                }
            }
            let start: usize = if nearest < discard {
                discard
            } else if nearest > half {
                half
            } else {
                nearest
            };
            let mut whole: Vec<u128> = Vec::new();
            whole.push(2 * rate);
            assert(amounts(whole@) =~= seq![2 * r]);
            return BandBins { tier, start, overlaps: whole };
        }
        k += 1;
    }
}

proof fn lemma_scaled_fits(size: int, freq: int)
    by (nonlinear_arith)
    requires
        0 <= size <= 0x8000_0000,
        0 <= freq <= 0xffff_ffff_ffff_ffff,
    ensures
        0 <= size * freq <= 0x8000_0000 * 0xffff_ffff_ffff_ffff,
{
}

proof fn lemma_edge_fits(k: int, rate: int)
    by (nonlinear_arith)
    requires
        2 <= k <= 0xffff_ffff_ffff_ffff,
        0 < rate <= 0xffff_ffff * 1_000_000,
    ensures
        0 < (2 * k + 1) * rate <= 0x1_ffff_ffff_ffff_ffff * (0xffff_ffff * 1_000_000),
        0 < (2 * k - 1) * rate <= 0x1_ffff_ffff_ffff_ffff * (0xffff_ffff * 1_000_000),
{
}

/// The newest samples, and when the next frame is due.
pub struct SampleRing<T> {
    ring: Vec<T>,
    write: usize,
    hop: usize,
    /// Samples accumulated toward the next hop.
    pending: usize,
    /// Samples ever written, as far as they can be counted.
    written: usize,
    warmup: usize,
}

/// What a ring holds.
pub ghost struct Heard<T> {
    /// The newest samples, oldest first, as many as the ring has room for.
    pub history: Seq<T>,
    pub hop: nat,
    pub pending: nat,
    pub written: nat,
    /// Samples to be heard before the first frame.
    pub warmup: nat,
}

impl<T> Heard<T> {
    /// Whether the next sample completes a hop.
    pub open spec fn hop_ends(self) -> bool {
        self.pending + 1 >= self.hop
    }

    /// After one more sample.
    pub open spec fn heard(self, sample: T) -> Heard<T> {
        Heard {
            history: self.history.skip(1).push(sample),
            pending: if self.hop_ends() {
                0
            } else {
                self.pending + 1
            },
            written: if self.written < usize::MAX {
                self.written + 1
            } else {
                self.written
            },
            ..self
        }
    }

    /// Whether one more sample makes a frame due: it ends a hop, and the longest
    /// window is full of real audio.
    pub open spec fn due(self) -> bool {
        self.hop_ends() && self.heard(self.history[0]).written >= self.warmup
    }

    /// How many samples there are from one frame to the next. A hop of nothing is
    /// a hop of one.
    pub open spec fn stride(self) -> int {
        if self.hop == 0 {
            1
        } else {
            self.hop as int
        }
    }

    /// After a run of samples.
    pub open spec fn heard_all(self, samples: Seq<T>) -> Heard<T>
        decreases samples.len(),
    {
        if samples.len() == 0 {
            self
        } else {
            self.heard_all(samples.drop_last()).heard(samples.last())
        }
    }
}

impl<T> SampleRing<T> {
    /// The positions are inside the ring and the counter inside the hop.
    pub closed spec fn wf(self) -> bool {
        &&& self.write < self.ring@.len()
        &&& self.pending == 0 || self.pending < self.hop
    }

    /// What the ring holds.
    pub closed spec fn view(&self) -> Heard<T> {
        let cap = self.ring@.len() as int;
        Heard {
            history: Seq::new(
                cap as nat,
                |i: int|
                    if self.write + i < cap {
                        self.ring@[self.write + i]
                    } else {
                        self.ring@[self.write + i - cap]
                    },
            ),
            hop: self.hop as nat,
            pending: self.pending as nat,
            written: self.written as nat,
            warmup: self.warmup as nat,
        }
    }
}

/// The newest of some samples, oldest first.
pub open spec fn latest<T>(history: Seq<T>, size: int) -> Seq<T> {
    history.skip(history.len() - size)
}

/// Nothing but one value.
pub open spec fn silence<T>(zero: T, cap: nat) -> Seq<T> {
    Seq::new(cap, |i: int| zero)
}

impl<T: Copy> SampleRing<T> {
    /// A silent ring with room for some samples.
    pub fn new(zero: T, capacity: usize, hop: usize, warmup: usize) -> (ring: Self)
        requires
            capacity > 0,
        ensures
            ring.wf(),
            ring@ == (Heard {
                history: silence(zero, capacity as nat),
                hop: hop as nat,
                pending: 0,
                written: 0,
                warmup: warmup as nat,
            }),
    {
        let mut ring: Vec<T> = Vec::new();
        let mut i: usize = 0;
        while i < capacity
            invariant
                i <= capacity,
                ring@.len() == i,
                forall|k: int| 0 <= k < i ==> (#[trigger] ring@[k]) == zero,
            decreases capacity - i,
        {
            ring.push(zero);
            i += 1;
        }
        let out = SampleRing { ring, write: 0, hop, pending: 0, written: 0, warmup };
        assert(out@.history =~= silence(zero, capacity as nat));
        out
    }

    /// Take one sample. Tells whether a frame is due now.
    pub fn push(&mut self, sample: T) -> (due: bool)
        requires
            old(self).wf(),
        ensures
            final(self).wf(),
            final(self)@ == old(self)@.heard(sample),
            due == old(self)@.due(),
    {
        let cap: usize = self.ring.len();
        self.ring[self.write] = sample;
        self.write = if self.write + 1 == cap {
            0
        } else {
            self.write + 1
        };
        self.written = if self.written < usize::MAX {
            self.written + 1
        } else {
            self.written
        };
        assert(self@.history =~= old(self)@.history.skip(1).push(sample));
        if self.pending + 1 >= self.hop {
            self.pending = 0;
            self.written >= self.warmup
        } else {
            self.pending += 1;
            false
        }
    }

    /// The newest samples, oldest first.
    pub fn newest(&self, size: usize) -> (out: Vec<T>)
        requires
            self.wf(),
            size <= self@.history.len(),
        ensures
            out@ == latest(self@.history, size as int),
    {
        let cap: usize = self.ring.len();
        let mut out: Vec<T> = Vec::new();
        let mut at: usize = if size <= self.write {
            self.write - size
        } else {
            self.write + (cap - size)
        };
        let mut i: usize = 0;
        while i < size
            invariant
                self.wf(),
                cap == self.ring@.len(),
                i <= size <= cap,
                at < cap || i == size,
                at == if self.write + (cap - size) + i < cap {
                    self.write + (cap - size) + i
                } else {
                    self.write + (cap - size) + i - cap
                } || i == size,
                out@.len() == i,
                forall|k: int|
                    0 <= k < i ==> (#[trigger] out@[k]) == self@.history[cap - size + k],
            decreases size - i,
        {
            out.push(self.ring[at]);
            at = if at + 1 == cap {
                0
            } else {
                at + 1
            };
            i += 1;
        }
        assert(out@ =~= self@.history.skip(self@.history.len() - size));
        out
    }

    /// Forget everything heard.
    pub fn reset(&mut self, zero: T)
        requires
            old(self).wf(),
        ensures
            final(self).wf(),
            final(self)@ == (Heard {
                history: silence(zero, old(self)@.history.len()),
                pending: 0,
                written: 0,
                ..old(self)@
            }),
    {
        let mut i: usize = 0;
        while i < self.ring.len()
            invariant
                i <= self.ring@.len(),
                self.ring@.len() == old(self).ring@.len(),
                self.hop == old(self).hop,
                self.warmup == old(self).warmup,
                self.write == old(self).write,
                self.ring@.len() > 0,
                forall|k: int| 0 <= k < i ==> (#[trigger] self.ring@[k]) == zero,
            decreases self.ring@.len() - i,
        {
            self.ring[i] = zero;
            i += 1;
        }
        self.write = 0;
        self.pending = 0;
        self.written = 0;
        assert(self@.history =~= silence(zero, old(self)@.history.len()));
    }
}

/// Powers of two.
pub open spec fn power_of_two(k: nat) -> nat
    decreases k,
{
    if k == 0 {
        1
    } else {
        2 * power_of_two((k - 1) as nat)
    }
}

/// Whether a number is the smallest power of two that is not below another.
pub open spec fn covers(cap: int, n: int) -> bool {
    &&& exists|k: nat| #[trigger] power_of_two(k) == cap
    &&& cap >= n
    &&& cap / 2 < n || cap == 1
}

/// The smallest power of two that is not below a number.
fn next_power_of_two(n: usize) -> (cap: usize)
    requires
        n <= 0x8000_0000,
    ensures
        covers(cap as int, n as int),
{
    let mut cap: usize = 1;
    let ghost mut k: nat = 0;
    assert(power_of_two(0) == 1);
    while cap < n
        invariant
            1 <= cap <= 0x8000_0000,
            n <= 0x8000_0000,
            power_of_two(k) == cap,
            cap / 2 < n || cap == 1,
            k <= 31,
        decreases 0x8000_0000 - cap,
    {
        proof {
            lemma_powers_are_bounded(k);
            k = k + 1;
            assert(power_of_two(k) == 2 * cap);
        }
        cap = cap * 2;
    }
    cap
}

proof fn lemma_powers_are_bounded(k: nat)
    requires
        k <= 31,
        power_of_two(k) < 0x8000_0000,
    ensures
        k <= 30,
        power_of_two(k) <= 0x4000_0000,
{
    reveal_with_fuel(power_of_two, 33);
}

/// The analyser: its plan, the bins of every band, and the samples.
pub struct MultiResStft<T> {
    plan: BandPlan,
    band_bins: Vec<BandBins>,
    ring: SampleRing<T>,
}

/// The largest size of a plan, or one for a plan without bands.
pub open spec fn longest(sizes: Seq<usize>) -> usize {
    if sizes.len() == 0 {
        1
    } else {
        sizes.last()
    }
}

impl<T> MultiResStft<T> {
    /// The plan.
    pub closed spec fn planned(&self) -> BandPlan {
        self.plan
    }

    /// The bins of every band.
    pub closed spec fn bins(&self) -> Seq<BandBins> {
        self.band_bins@
    }

    /// What was heard.
    pub closed spec fn heard(&self) -> Heard<T> {
        self.ring@
    }

    /// The ring holds the longest window.
    pub closed spec fn wf(self) -> bool {
        &&& self.ring.wf()
        &&& self.plan.wf()
        &&& self.band_bins@.len() == self.plan.bands@.len()
        &&& forall|i: int|
            0 <= i < self.plan.fft_sizes@.len() ==> (#[trigger] self.plan.fft_sizes@[i])
                <= self.ring@.history.len()
    }
}

impl<T: Copy> MultiResStft<T> {
    /// An analyser with the usual hop.
    pub fn new(plan: BandPlan, kind: WindowKind, nearest: &[usize], zero: T) -> (stft: Self)
        requires
            plan.wf(),
            plan.sample_rate > 0,
            nearest@.len() == plan.bands@.len(),
            forall|i: int|
                0 <= i < plan.bands@.len() ==> addressable(
                    #[trigger] plan.bands@[i],
                    micro(plan.sample_rate),
                    kind.discarded() as int,
                ),
        ensures
            stft.wf(),
            stft.planned() == plan,
            stft.bins().len() == plan.bands@.len(),
            forall|i: int|
                0 <= i < plan.bands@.len() ==> (#[trigger] stft.bins()[i]).reads(
                    plan.bands@[i],
                    plan.fft_sizes@,
                    micro(plan.sample_rate),
                    kind.discarded() as int,
                    nearest@[i] as int,
                ),
            covers(stft.heard().history.len() as int, longest(plan.fft_sizes@) as int),
            stft.heard() == (Heard {
                history: silence(zero, stft.heard().history.len()),
                hop: DEFAULT_HOP as nat,
                pending: 0,
                written: 0,
                warmup: longest(plan.fft_sizes@) as nat,
            }),
    {
        Self::with_hop(plan, kind, nearest, zero, DEFAULT_HOP)
    }

    /// An analyser with a hop of its own. `nearest` is the bin nearest the
    /// centre of every band, for a band too narrow to cover any.
    pub fn with_hop(
        plan: BandPlan,
        kind: WindowKind,
        nearest: &[usize],
        zero: T,
        hop: usize,
    ) -> (stft: Self)
        requires
            plan.wf(),
            plan.sample_rate > 0,
            nearest@.len() == plan.bands@.len(),
            forall|i: int|
                0 <= i < plan.bands@.len() ==> addressable(
                    #[trigger] plan.bands@[i],
                    micro(plan.sample_rate),
                    kind.discarded() as int,
                ),
        ensures
            stft.wf(),
            stft.planned() == plan,
            stft.bins().len() == plan.bands@.len(),
            forall|i: int|
                0 <= i < plan.bands@.len() ==> (#[trigger] stft.bins()[i]).reads(
                    plan.bands@[i],
                    plan.fft_sizes@,
                    micro(plan.sample_rate),
                    kind.discarded() as int,
                    nearest@[i] as int,
                ),
            covers(stft.heard().history.len() as int, longest(plan.fft_sizes@) as int),
            stft.heard() == (Heard {
                history: silence(zero, stft.heard().history.len()),
                hop: hop as nat,
                pending: 0,
                written: 0,
                warmup: longest(plan.fft_sizes@) as nat,
            }),
    {
        let discard: usize = kind.discard_bins();
        let mut band_bins: Vec<BandBins> = Vec::new();
        let mut i: usize = 0;
        while i < plan.bands.len()
            invariant
                i <= plan.bands@.len(),
                plan.wf(),
                plan.sample_rate > 0,
                discard == kind.discarded(),
                nearest@.len() == plan.bands@.len(),
                forall|k: int|
                    0 <= k < plan.bands@.len() ==> addressable(
                        #[trigger] plan.bands@[k],
                        micro(plan.sample_rate),
                        kind.discarded() as int,
                    ),
                band_bins@.len() == i,
                forall|k: int|
                    0 <= k < i ==> (#[trigger] band_bins@[k]).reads(
                        plan.bands@[k],
                        plan.fft_sizes@,
                        micro(plan.sample_rate),
                        discard as int,
                        nearest@[k] as int,
                    ),
            decreases plan.bands@.len() - i,
        {
            let band = plan.bands[i];
            assert(serves(plan.bands@, band.fft_size));
            assert(plan.fft_sizes@.contains(band.fft_size));
            let bins = bins_for(
                band,
                plan.fft_sizes.as_slice(),
                plan.sample_rate,
                discard,
                nearest[i],
            );
            band_bins.push(bins);
            i += 1;
        }
        let count: usize = plan.fft_sizes.len();
        let max_size: usize = if count == 0 {
            1
        } else {
            plan.fft_sizes[count - 1]
        };
        proof {
            if count > 0 {
                let last = plan.fft_sizes@.last();
                assert(plan.fft_sizes@.contains(last));
                assert(serves(plan.bands@, last));
            }
        }
        let cap: usize = next_power_of_two(max_size);
        let ring = SampleRing::new(zero, cap, hop, max_size);
        let stft = MultiResStft { plan, band_bins, ring };
        proof {
            let sizes = stft.plan.fft_sizes@;
            assert forall|k: int| 0 <= k < sizes.len() implies (#[trigger] sizes[k])
                <= stft.ring@.history.len() by {
                if k < sizes.len() - 1 {
                    assert(sizes[k] < sizes[sizes.len() - 1]);
                }
            }
        }
        stft
    }

    /// The plan.
    pub fn plan(&self) -> (plan: &BandPlan)
        ensures
            *plan == self.planned(),
    {
        &self.plan
    }

    /// The bins of a band.
    pub fn bins_of(&self, band: usize) -> (bins: &BandBins)
        requires
            band < self.bins().len(),
        ensures
            *bins == self.bins()[band as int],
    {
        &self.band_bins[band]
    }

    /// How many bands there are.
    pub fn band_count(&self) -> (n: usize)
        ensures
            n == self.bins().len(),
    {
        self.band_bins.len()
    }

    /// The hop, in samples.
    pub fn hop(&self) -> (n: usize)
        ensures
            n == self.heard().hop,
    {
        self.ring.hop
    }

    /// Take one sample. Tells whether a frame is to be analysed now.
    pub fn push(&mut self, sample: T) -> (due: bool)
        requires
            old(self).wf(),
        ensures
            final(self).wf(),
            final(self).planned() == old(self).planned(),
            final(self).bins() == old(self).bins(),
            final(self).heard() == old(self).heard().heard(sample),
            due == old(self).heard().due(),
    {
        self.ring.push(sample)
    }

    /// The samples a tier looks at: the newest, oldest first, as many as its
    /// transform is long.
    pub fn window_of(&self, tier: usize) -> (out: Vec<T>)
        requires
            self.wf(),
            tier < self.planned().fft_sizes@.len(),
        ensures
            ({
                let size = self.planned().fft_sizes@[tier as int];
                let history = self.heard().history;
                &&& size <= history.len()
                &&& out@ == latest(history, size as int)
            }),
    {
        let size: usize = self.plan.fft_sizes[tier];
        self.ring.newest(size)
    }

    /// Forget everything heard.
    pub fn reset(&mut self, zero: T)
        requires
            old(self).wf(),
        ensures
            final(self).wf(),
            final(self).planned() == old(self).planned(),
            final(self).bins() == old(self).bins(),
            final(self).heard() == (Heard {
                history: silence(zero, old(self).heard().history.len()),
                pending: 0,
                written: 0,
                ..old(self).heard()
            }),
    {
        self.ring.reset(zero);
    }
}

/// Two bands that meet share a bin exactly: what they cover of it together is
/// what one band over both would cover.
pub proof fn law_neighbouring_bands_share_a_bin(
    lo: int,
    mid: int,
    hi: int,
    rate: int,
    size: int,
    k: int,
)
    requires
        lo <= mid <= hi,
        size >= 0,
        rate >= 0,
    ensures
        overlap(lo, mid, rate, size, k) + overlap(mid, hi, rate, size, k) == overlap(
            lo,
            hi,
            rate,
            size,
            k,
        ),
{
    assert(size * lo * 2 <= size * mid * 2 <= size * hi * 2) by (nonlinear_arith)
        requires
            lo <= mid <= hi,
            size >= 0,
    ;
    assert((2 * k - 1) * rate <= (2 * k + 1) * rate) by (nonlinear_arith)
        requires
            rate >= 0,
    ;
}

/// No bin counts for more than itself.
pub proof fn law_no_bin_counts_twice(lo: int, hi: int, rate: int, size: int, k: int)
    requires
        rate >= 0,
    ensures
        0 <= overlap(lo, hi, rate, size, k) <= 2 * rate,
{
    assert((2 * k + 1) * rate - (2 * k - 1) * rate == 2 * rate) by (nonlinear_arith);
}

/// The ring holds the newest samples: after any run of them, what it held
/// followed by the run, without as many from the front.
pub proof fn law_the_ring_holds_the_newest_samples<T>(before: Heard<T>, samples: Seq<T>)
    requires
        before.history.len() > 0,
    ensures
        before.heard_all(samples).history == (before.history + samples).skip(
            samples.len() as int,
        ),
    decreases samples.len(),
{
    if samples.len() == 0 {
        assert((before.history + samples).skip(0) =~= before.history);
    } else {
        let front = samples.drop_last();
        law_the_ring_holds_the_newest_samples(before, front);
        assert((before.history + front).skip(front.len() as int).skip(1).push(samples.last())
            =~= (before.history + samples).skip(samples.len() as int));
    }
}

/// Nothing is analysed before the longest window is full of real audio, because
/// its first frames would straddle the silence the ring starts with.
pub proof fn law_no_frame_before_the_longest_window_is_full<T>(
    start: Heard<T>,
    samples: Seq<T>,
)
    requires
        start.written == 0,
        samples.len() + 1 < start.warmup <= usize::MAX,
    ensures
        !start.heard_all(samples).due(),
    decreases samples.len(),
{
    lemma_counts(start, samples);
}

/// However a run of samples is cut, the same is heard.
pub proof fn law_samples_may_be_cut_anywhere<T>(start: Heard<T>, first: Seq<T>, second: Seq<T>)
    ensures
        start.heard_all(first + second) == start.heard_all(first).heard_all(second),
    decreases second.len(),
{
    if second.len() == 0 {
        assert(first + second =~= first);
    } else {
        law_samples_may_be_cut_anywhere(start, first, second.drop_last());
        assert((first + second).drop_last() =~= first + second.drop_last());
    }
}

/// Frames come at every hop once the longest window is full: over a run of
/// samples, the sample that makes a frame due is every one whose number, counted
/// from one, is a multiple of the hop and not below the longest window.
pub proof fn law_frames_come_at_every_hop<T>(start: Heard<T>, samples: Seq<T>, number: int)
    requires
        start.written == 0,
        start.pending == 0,
        start.warmup <= usize::MAX,
        1 <= number <= samples.len(),
    ensures
        start.heard_all(samples.take(number - 1)).due() <==> number % start.stride() == 0
            && start.warmup <= number,
{
    let before = samples.take(number - 1);
    lemma_hops(start, before);
    lemma_next_remainder(number - 1, start.stride());
}

proof fn lemma_hops<T>(start: Heard<T>, samples: Seq<T>)
    requires
        start.written == 0,
        start.pending == 0,
    ensures
        start.heard_all(samples).pending == samples.len() as int % start.stride(),
        start.heard_all(samples).written == if samples.len() < usize::MAX {
            samples.len() as int
        } else {
            usize::MAX as int
        },
        start.heard_all(samples).hop == start.hop,
        start.heard_all(samples).warmup == start.warmup,
    decreases samples.len(),
{
    if samples.len() == 0 {
        vstd::arithmetic::div_mod::lemma_small_mod(0, start.stride() as nat);
    } else {
        lemma_hops(start, samples.drop_last());
        lemma_next_remainder(samples.len() - 1, start.stride());
    }
}

proof fn lemma_next_remainder(n: int, d: int)
    requires
        0 <= n,
        0 < d,
    ensures
        0 <= n % d < d,
        (n + 1) % d == if n % d + 1 == d {
            0
        } else {
            n % d + 1
        },
{
    vstd::arithmetic::div_mod::lemma_fundamental_div_mod(n, d);
    vstd::arithmetic::div_mod::lemma_mod_bound(n, d);
    let q = n / d;
    assert(d * q == q * d && q * d + d == (q + 1) * d) by (nonlinear_arith);
    if n % d + 1 == d {
        vstd::arithmetic::div_mod::lemma_fundamental_div_mod_converse(n + 1, d, n / d + 1, 0);
    } else {
        vstd::arithmetic::div_mod::lemma_fundamental_div_mod_converse(
            n + 1,
            d,
            n / d,
            n % d + 1,
        );
    }
}

proof fn lemma_counts<T>(start: Heard<T>, samples: Seq<T>)
    requires
        start.written == 0,
        samples.len() <= usize::MAX,
    ensures
        start.heard_all(samples).written == samples.len(),
        start.heard_all(samples).warmup == start.warmup,
    decreases samples.len(),
{
    if samples.len() > 0 {
        lemma_counts(start, samples.drop_last());
    }
}

/// The length in which a bin's span and a band meet, at the scale at which a bin
/// is twice the sample rate wide. Not above zero where they do not.
pub open spec fn meeting(band: Band, rate: int, k: int) -> int {
    let from = if 2 * band.fft_size * band.lo >= (2 * k - 1) * rate {
        2 * band.fft_size * band.lo
    } else {
        (2 * k - 1) * rate
    };
    let to = if 2 * band.fft_size * band.hi <= (2 * k + 1) * rate {
        2 * band.fft_size * band.hi
    } else {
        (2 * k + 1) * rate
    };
    to - from
}

/// A band reads every bin it meets, from the first that is not discarded to the
/// end of the spectrum, for exactly the length in which they meet.
pub proof fn law_a_band_reads_every_bin_it_meets(
    bins: BandBins,
    band: Band,
    sizes: Seq<usize>,
    rate: int,
    discard: int,
    nearest: int,
    k: int,
)
    requires
        bins.reads(band, sizes, rate, discard, nearest),
        rate > 0,
        0 <= discard <= k <= band.fft_size / 2,
        2 * band.fft_size * band.lo < (2 * k + 1) * rate,
        2 * band.fft_size * band.hi > (2 * k - 1) * rate,
        band.lo < band.hi,
        band.fft_size > 0,
    ensures
        bins.start <= k < bins.start + bins.overlaps@.len(),
        bins.overlaps@[k - bins.start] > 0,
        bins.overlaps@[k - bins.start] == (if 2 * band.fft_size * band.hi <= (2 * k + 1) * rate {
            2 * band.fft_size * band.hi
        } else {
            (2 * k + 1) * rate
        }) - (if 2 * band.fft_size * band.lo >= (2 * k - 1) * rate {
            2 * band.fft_size * band.lo
        } else {
            (2 * k - 1) * rate
        }),
        bins.tier < sizes.len() && sizes[bins.tier as int] == band.fft_size,
{
    lemma_meets_in(band, rate, discard, k);
    let list = overlaps(band, rate, discard);
    let first = first_bin(band.lo as int, rate, band.fft_size as int, discard);
    assert(list[k - first] == meeting(band, rate, k));
    assert(!all_zero(list));
    assert(amounts(bins.overlaps@)[k - first] == bins.overlaps@[k - first]);
}

/// A band that meets any bin at all reads nothing it does not meet: every bin it
/// reads counts for the length in which they meet, or for nothing.
pub proof fn law_a_band_reads_no_bin_it_does_not_meet(
    bins: BandBins,
    band: Band,
    sizes: Seq<usize>,
    rate: int,
    discard: int,
    nearest: int,
    met: int,
    i: int,
)
    requires
        bins.reads(band, sizes, rate, discard, nearest),
        rate > 0,
        0 <= discard <= met <= band.fft_size / 2,
        meeting(band, rate, met) > 0,
        0 <= i < bins.overlaps@.len(),
    ensures
        bins.overlaps@[i] > 0 <==> meeting(band, rate, bins.start + i) > 0,
        bins.overlaps@[i] > 0 ==> bins.overlaps@[i] == meeting(band, rate, bins.start + i),
        bins.start >= discard,
{
    lemma_meets_in(band, rate, discard, met);
    let list = overlaps(band, rate, discard);
    let first = first_bin(band.lo as int, rate, band.fft_size as int, discard);
    assert(list[met - first] == meeting(band, rate, met));
    assert(!all_zero(list));
    assert(amounts(bins.overlaps@)[i] == bins.overlaps@[i]);
    lemma_overlap_is_meeting(band, rate, bins.start + i);
}

/// A band that meets no bin reads a single one in full: the one it was told is
/// nearest, or the end of the usable ones that is nearer to that.
pub proof fn law_a_band_that_meets_no_bin_reads_the_nearest(
    bins: BandBins,
    band: Band,
    sizes: Seq<usize>,
    rate: int,
    discard: int,
    nearest: int,
)
    requires
        bins.reads(band, sizes, rate, discard, nearest),
        rate > 0,
        0 <= discard <= band.fft_size / 2,
        forall|k: int|
            discard <= k <= band.fft_size / 2 ==> #[trigger] meeting(band, rate, k) <= 0,
    ensures
        bins.overlaps@.len() == 1,
        bins.overlaps@[0] == 2 * rate,
        discard <= bins.start <= band.fft_size / 2,
        discard <= nearest <= band.fft_size / 2 ==> bins.start == nearest,
        nearest < discard ==> bins.start == discard,
        nearest > band.fft_size / 2 ==> bins.start == band.fft_size / 2,
{
    let list = overlaps(band, rate, discard);
    let size = band.fft_size as int;
    let first = first_bin(band.lo as int, rate, size, discard);
    assert forall|i: int| 0 <= i < list.len() implies (#[trigger] list[i]) == 0 by {
        let k = first + i;
        lemma_overlap_is_meeting(band, rate, k);
        if k > size / 2 {
            lemma_first_is_clear(band, rate, discard);
        } else {
            assert(meeting(band, rate, k) <= 0);
        }
    }
    assert(amounts(bins.overlaps@).len() == 1);
    assert(amounts(bins.overlaps@)[0] == bins.overlaps@[0]);
}

proof fn lemma_overlap_is_meeting(band: Band, rate: int, k: int)
    ensures
        overlap(band.lo as int, band.hi as int, rate, band.fft_size as int, k) == if meeting(
            band,
            rate,
            k,
        ) > 0 {
            meeting(band, rate, k)
        } else {
            0
        },
{
    let n = band.fft_size as int;
    let lo = band.lo as int;
    let hi = band.hi as int;
    assert(n * lo * 2 == 2 * n * lo && n * hi * 2 == 2 * n * hi) by (nonlinear_arith);
}

/// The first bin that can be touched is met only where it is the first that is
/// not discarded.
proof fn lemma_first_is_clear(band: Band, rate: int, discard: int)
    requires
        rate > 0,
        first_bin(band.lo as int, rate, band.fft_size as int, discard) > discard,
    ensures
        meeting(
            band,
            rate,
            first_bin(band.lo as int, rate, band.fft_size as int, discard),
        ) <= 0,
{
    let n = band.fft_size as int;
    let a = n * band.lo * 2;
    let k = first_bin(band.lo as int, rate, n, discard);
    assert(n * band.lo * 2 == 2 * n * band.lo) by (nonlinear_arith);
    assert((2 * k + 1) * rate <= a) by (nonlinear_arith)
        requires
            k == (a - rate) / (2 * rate),
            rate > 0,
    ;
}

/// A bin that a band meets is among those it can touch.
proof fn lemma_meets_in(band: Band, rate: int, discard: int, k: int)
    requires
        rate > 0,
        0 <= discard <= k <= band.fft_size / 2,
        meeting(band, rate, k) > 0 || band.lo < band.hi && band.fft_size > 0 && 2 * band.fft_size
            * band.lo < (2 * k + 1) * rate && 2 * band.fft_size * band.hi > (2 * k - 1) * rate,
    ensures
        meeting(band, rate, k) > 0,
        ({
            let first = first_bin(band.lo as int, rate, band.fft_size as int, discard);
            let list = overlaps(band, rate, discard);
            &&& first <= k < first + list.len()
            &&& list[k - first] == meeting(band, rate, k)
        }),
{
    let n = band.fft_size as int;
    let lo = band.lo as int;
    let hi = band.hi as int;
    let a = n * lo * 2;
    let b = n * hi * 2;
    assert(n * lo * 2 == 2 * n * lo && n * hi * 2 == 2 * n * hi) by (nonlinear_arith);
    assert((2 * k - 1) * rate < (2 * k + 1) * rate) by (nonlinear_arith)
        requires
            rate > 0,
    ;
    if lo < hi {
        assert(n * lo * 2 < n * hi * 2) by (nonlinear_arith)
            requires
                lo < hi,
                n > 0,
        ;
    }
    lemma_overlap_is_meeting(band, rate, k);
    assert(a < (2 * k + 1) * rate);
    assert((2 * k - 1) * rate < b);
    if a >= rate {
        assert((a - rate) / (2 * rate) <= k) by (nonlinear_arith)
            requires
                rate > 0,
                a < (2 * k + 1) * rate,
        ;
    }
    assert((b + 3 * rate - 1) / (2 * rate) >= k + 1) by (nonlinear_arith)
        requires
            rate > 0,
            (2 * k - 1) * rate < b,
    ;
}

/// A tier looks at the newest samples there are, as many as its transform is
/// long: after a run of at least that many, the end of the run.
pub proof fn law_a_tier_looks_at_the_newest_samples<T>(
    start: Heard<T>,
    samples: Seq<T>,
    size: int,
)
    requires
        0 <= size <= samples.len(),
        0 < start.history.len(),
        size <= start.history.len(),
    ensures
        latest(start.heard_all(samples).history, size).len() == size,
        latest(start.heard_all(samples).history, size) == samples.skip(samples.len() - size),
{
    law_the_ring_holds_the_newest_samples(start, samples);
    let history = start.heard_all(samples).history;
    assert(latest(history, size) =~= samples.skip(samples.len() - size));
}

} // verus!
