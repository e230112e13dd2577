//! Which transform serves which band.
//!
//! One transform size cannot serve the whole spectrum: a window long enough to
//! resolve the lowest band is far longer than treble needs. Each band therefore
//! draws from the smallest size that can still resolve it, which takes two
//! things: the band is at least two bins wide, and its lower edge is clear of
//! the bins the window's main lobe smears into at the bottom.
//!
//! Frequencies are in micro-hertz.

use vstd::prelude::*;

use super::window::WindowKind;

verus! {

/// A sample rate in micro-hertz.
pub open spec fn micro(rate: u32) -> int {
    rate * 1_000_000
}

/// Transform sizes the analyser may choose from, ascending. The top of the
/// ladder is there for high sample rates.
pub fn default_fft_sizes() -> (sizes: Vec<usize>)
    ensures
        sizes@ == seq![128usize, 512, 2048, 4096, 8192, 16_384, 32_768],
{
    let mut sizes: Vec<usize> = Vec::new();
    sizes.push(128);
    sizes.push(512);
    sizes.push(2048);
    sizes.push(4096);
    sizes.push(8192);
    sizes.push(16_384);
    sizes.push(32_768);
    sizes
}

/// One band and the transform that serves it.
#[derive(Clone, Copy, Debug, PartialEq, Eq, Structural)]
pub struct Band {
    pub lo: u64,
    pub hi: u64,
    /// The transform size serving this band.
    pub fft_size: usize,
    /// No available size resolves the band. It still renders, with the largest
    /// size, but its level is not trustworthy.
    pub unresolved: bool,
}

/// Whether a transform size resolves a band: it is at least two bins wide, and
/// starts clear of the discarded bins.
pub open spec fn resolves(lo: int, hi: int, rate: int, size: int, discard: int) -> bool {
    &&& (hi - lo) * size >= 2 * rate
    &&& lo * size >= discard * rate
}

/// Whether a transform size resolves a band at a sample rate in hertz.
fn can_resolve(lo: u64, hi: u64, rate: u32, size: usize, discard: usize) -> (yes: bool)
    requires
        discard <= 4,
        rate > 0,
    ensures
        yes == resolves(lo as int, hi as int, micro(rate), size as int, discard as int),
{
    let hertz: u128 = (rate as u128) * 1_000_000;
    if hi < lo {
        proof {
            let width: int = hi - lo;
            let n: int = size as int;
            assert(width * n <= 0) by (nonlinear_arith)
                requires
                    width < 0,
                    n >= 0,
            ;
        }
        return false;
    }
    proof {
        let width: int = hi - lo;
        let n: int = size as int;
        let l: int = lo as int;
        assert(width * n <= 0xffff_ffff_ffff_ffff * 0xffff_ffff_ffff_ffff) by (nonlinear_arith)
            requires
                0 <= width <= 0xffff_ffff_ffff_ffff,
                0 <= n <= 0xffff_ffff_ffff_ffff,
        ;
        assert(l * n <= 0xffff_ffff_ffff_ffff * 0xffff_ffff_ffff_ffff) by (nonlinear_arith)
            requires
                0 <= l <= 0xffff_ffff_ffff_ffff,
                0 <= n <= 0xffff_ffff_ffff_ffff,
        ;
        let d: int = discard as int;
        let m: int = hertz as int;
        assert(d * m <= 4 * m) by (nonlinear_arith)
            requires
                0 <= d <= 4,
                m >= 0,
        ;
    }
    let width: u128 = (hi - lo) as u128;
    width * (size as u128) >= 2 * hertz && (lo as u128) * (size as u128) >= (discard as u128)
        * hertz
}

/// Whether a band is served as it should be: by the smallest size that resolves
/// it, or by the largest there is when none does.
pub open spec fn well_served(band: Band, sizes: Seq<usize>, rate: int, discard: int) -> bool {
    &&& sizes.contains(band.fft_size)
    &&& if band.unresolved {
        forall|i: int|
            0 <= i < sizes.len() ==> (#[trigger] sizes[i]) <= band.fft_size && !resolves(
                band.lo as int,
                band.hi as int,
                rate,
                sizes[i] as int,
                discard,
            )
    } else {
        &&& resolves(band.lo as int, band.hi as int, rate, band.fft_size as int, discard)
        &&& forall|i: int|
            0 <= i < sizes.len() && (#[trigger] sizes[i]) < band.fft_size ==> !resolves(
                band.lo as int,
                band.hi as int,
                rate,
                sizes[i] as int,
                discard,
            )
    }
}

/// Serve one band.
fn serve(lo: u64, hi: u64, rate: u32, sizes: &[usize], discard: usize) -> (band: Band)
    requires
        sizes@.len() > 0,
        rate > 0,
        discard <= 4,
    ensures
        band.lo == lo,
        band.hi == hi,
        well_served(band, sizes@, micro(rate), discard as int),
{
    let mut largest: usize = sizes[0];
    let mut chosen: Option<usize> = None;
    let ghost r: int = micro(rate);
    let ghost d: int = discard as int;
    let mut i: usize = 0;
    while i < sizes.len()
        invariant
            i <= sizes@.len(),
            sizes@.len() > 0,
            rate > 0,
            r == micro(rate),
            d == discard,
            discard <= 4,
            sizes@.contains(largest),
            forall|k: int| 0 <= k < i ==> (#[trigger] sizes@[k]) <= largest,
            match chosen {
                Some(n) => {
                    &&& sizes@.contains(n)
                    &&& resolves(lo as int, hi as int, r, n as int, d)
                    &&& forall|k: int|
                        0 <= k < i && (#[trigger] sizes@[k]) < n ==> !resolves(
                            lo as int,
                            hi as int,
                            r,
                            sizes@[k] as int,
                            d,
                        )
                },
                None => forall|k: int|
                    0 <= k < i ==> !resolves(
                        lo as int,
                        hi as int,
                        r,
                        (#[trigger] sizes@[k]) as int,
                        d,
                    ),
            },
        decreases sizes@.len() - i,
    {
        let n: usize = sizes[i];
        assert(sizes@.contains(n));
        if n > largest {
            largest = n;
        }
        if can_resolve(lo, hi, rate, n, discard) {
            match chosen {
                Some(best) => {
                    if n < best {
                        chosen = Some(n);
                    }
                },
                None => {
                    chosen = Some(n);
                },
            }
        }
        i += 1;
    }
    match chosen {
        Some(n) => Band { lo, hi, fft_size: n, unresolved: false },
        None => Band { lo, hi, fft_size: largest, unresolved: true },
    }
}

/// Which transform serves every band, and which transforms there are.
pub struct BandPlan {
    /// In hertz.
    pub sample_rate: u32,
    pub bands: Vec<Band>,
    /// The distinct sizes actually used, ascending. An unused tier costs
    /// nothing.
    pub fft_sizes: Vec<usize>,
}

/// Whether numbers go up from each to the next.
pub open spec fn ascending(list: Seq<usize>) -> bool {
    forall|i: int, j: int| 0 <= i < j < list.len() ==> (#[trigger] list[i]) < (#[trigger] list[j])
}

/// Whether some band is served by a size.
pub open spec fn serves(bands: Seq<Band>, size: usize) -> bool {
    exists|i: int| 0 <= i < bands.len() && (#[trigger] bands[i]).fft_size == size
}

/// Put a number into its place in an ascending list.
fn insert_size(list: &mut Vec<usize>, n: usize)
    requires
        ascending(old(list)@),
    ensures
        ascending(final(list)@),
        forall|k: usize| final(list)@.contains(k) <==> old(list)@.contains(k) || k == n,
{
    let ghost before = list@;
    let mut at: usize = 0;
    while at < list.len() && list[at] < n
        invariant
            at <= list@.len(),
            list@ == before,
            forall|k: int| 0 <= k < at ==> (#[trigger] list@[k]) < n,
        decreases list@.len() - at,
    {
        at += 1;
    }
    if at < list.len() && list[at] == n {
        assert(list@.contains(n));
        return ;
    }
    list.insert(at, n);
    proof {
        let after = list@;
        assert forall|k: usize| after.contains(k) <==> before.contains(k) || k == n by {
            if before.contains(k) {
                let i = before.index_of(k);
                if i < at {
                    assert(after[i] == k);
                } else {
                    assert(after[i + 1] == k);
                }
            }
            if k == n {
                assert(after[at as int] == n);
            }
            if after.contains(k) && k != n {
                let i = after.index_of(k);
                if i < at {
                    assert(before[i] == k);
                } else {
                    assert(before[i - 1] == k);
                }
            }
        }
    }
}

/// A stretch of neighbouring bands on one transform.
#[derive(Clone, Copy, Debug, PartialEq, Eq, Structural)]
pub struct Run {
    pub size: usize,
    /// The first band of the stretch.
    pub first: usize,
    /// How many bands it has, at least one.
    pub count: usize,
}

/// Whether the stretches are those of the first `n` bands: one after the other
/// without a gap, each on one size, and no two neighbours on the same.
pub open spec fn runs_of(runs: Seq<Run>, bands: Seq<Band>, n: int) -> bool {
    &&& runs.len() == 0 <==> n == 0
    &&& runs.len() > 0 ==> runs[0].first == 0 && runs.last().first + runs.last().count == n
    &&& forall|k: int| 0 <= k < runs.len() ==> (#[trigger] runs[k]).count >= 1
    &&& forall|k: int, m: int|
        #![trigger runs[k], runs[m]]
        0 <= k && m == k + 1 && m < runs.len() ==> {
            &&& runs[k].first + runs[k].count == runs[m].first
            &&& runs[k].size != runs[m].size
        }
    &&& forall|k: int, b: int|
        #![trigger runs[k], bands[b]]
        0 <= k < runs.len() && runs[k].first <= b < runs[k].first + runs[k].count
            ==> bands[b].fft_size == runs[k].size
}

impl BandPlan {
    /// A plan is consistent when the sizes it lists are the ones its bands use.
    pub open spec fn wf(self) -> bool {
        &&& ascending(self.fft_sizes@)
        &&& forall|n: usize| self.fft_sizes@.contains(n) <==> serves(self.bands@, n)
    }

    /// Plan the bands between consecutive edges, choosing from the usual sizes.
    pub fn new(edges: &[u64], sample_rate: u32, window: WindowKind) -> (plan: Self)
        requires
            sample_rate > 0,
        ensures
            plan.wf(),
            plan.sample_rate == sample_rate,
            plan.bands@.len() == if edges@.len() == 0 {
                0
            } else {
                edges@.len() - 1
            },
            forall|i: int|
                0 <= i < plan.bands@.len() ==> {
                    &&& (#[trigger] plan.bands@[i]).lo == edges@[i]
                    &&& plan.bands@[i].hi == edges@[i + 1]
                    &&& well_served(
                        plan.bands@[i],
                        seq![128usize, 512, 2048, 4096, 8192, 16_384, 32_768],
                        micro(sample_rate),
                        window.discarded() as int,
                    )
                },
    {
        let sizes = default_fft_sizes();
        Self::with_sizes(edges, sample_rate, window, sizes.as_slice())
    }

    /// Plan the bands between consecutive edges, choosing from given sizes.
    pub fn with_sizes(
        edges: &[u64],
        sample_rate: u32,
        window: WindowKind,
        sizes: &[usize],
    ) -> (plan: Self)
        requires
            sample_rate > 0,
            sizes@.len() > 0,
        ensures
            plan.wf(),
            plan.sample_rate == sample_rate,
            plan.bands@.len() == if edges@.len() == 0 {
                0
            } else {
                edges@.len() - 1
            },
            forall|i: int|
                0 <= i < plan.bands@.len() ==> {
                    &&& (#[trigger] plan.bands@[i]).lo == edges@[i]
                    &&& plan.bands@[i].hi == edges@[i + 1]
                    &&& well_served(
                        plan.bands@[i],
                        sizes@,
                        micro(sample_rate),
                        window.discarded() as int,
                    )
                },
    {
        let discard: usize = window.discard_bins();
        let mut bands: Vec<Band> = Vec::new();
        let mut fft_sizes: Vec<usize> = Vec::new();
        let count: usize = edges.len();
        let mut i: usize = 1;
        while i < count
            invariant
                count == edges@.len(),
                1 <= i,
                count > 0 ==> i <= count,
                count == 0 ==> i == 1,
                bands@.len() == i - 1,
                sample_rate > 0,
                sizes@.len() > 0,
                discard == window.discarded(),
                ascending(fft_sizes@),
                forall|n: usize| fft_sizes@.contains(n) <==> serves(bands@, n),
                forall|k: int|
                    0 <= k < bands@.len() ==> {
                        &&& (#[trigger] bands@[k]).lo == edges@[k]
                        &&& bands@[k].hi == edges@[k + 1]
                        &&& well_served(
                            bands@[k],
                            sizes@,
                            micro(sample_rate),
                            discard as int,
                        )
                    },
            decreases count - i,
        {
            let band = serve(edges[i - 1], edges[i], sample_rate, sizes, discard);
            let ghost before = bands@;
            insert_size(&mut fft_sizes, band.fft_size);
            bands.push(band);
            proof {
                assert forall|n: usize| serves(bands@, n) <==> serves(before, n) || n
                    == band.fft_size by {
                    if serves(before, n) {
                        let k = choose|k: int|
                            0 <= k < before.len() && (#[trigger] before[k]).fft_size == n;
                        assert(bands@[k].fft_size == n);
                    }
                    if n == band.fft_size {
                        assert(bands@[before.len() as int].fft_size == n);
                    }
                    if serves(bands@, n) && n != band.fft_size {
                        let k = choose|k: int|
                            0 <= k < bands@.len() && (#[trigger] bands@[k]).fft_size == n;
                        assert(before[k].fft_size == n);
                    }
                }
            }
            i += 1;
        }
        BandPlan { sample_rate, bands, fft_sizes }
    }

    /// How many bands there are.
    pub fn len(&self) -> (n: usize)
        ensures
            n == self.bands@.len(),
    {
        self.bands.len()
    }

    /// Whether there are no bands.
    pub fn is_empty(&self) -> (yes: bool)
        ensures
            yes == (self.bands@.len() == 0),
    {
        self.bands.len() == 0
    }

    /// The bands no size resolves, in order. Empty for sane configurations.
    pub fn unresolved(&self) -> (list: Vec<usize>)
        ensures
            ascending(list@),
            forall|i: usize|
                list@.contains(i) <==> i < self.bands@.len()
                    && self.bands@[i as int].unresolved,
    {
        let mut list: Vec<usize> = Vec::new();
        let mut i: usize = 0;
        while i < self.bands.len()
            invariant
                i <= self.bands@.len(),
                ascending(list@),
                forall|k: int| 0 <= k < list@.len() ==> (#[trigger] list@[k]) < i,
                forall|k: usize|
                    list@.contains(k) <==> k < i && self.bands@[k as int].unresolved,
            decreases self.bands@.len() - i,
        {
            let ghost before = list@;
            if self.bands[i].unresolved {
                list.push(i);
            }
            proof {
                assert forall|k: usize| list@.contains(k) <==> k < i + 1
                    && self.bands@[k as int].unresolved by {
                    if before.contains(k) {
                        assert(list@[before.index_of(k)] == k);
                    }
                    if k == i && self.bands@[i as int].unresolved {
                        assert(list@[before.len() as int] == i);
                    }
                    if list@.contains(k) && k != i {
                        assert(before[list@.index_of(k)] == k);
                    }
                }
            }
            i += 1;
        }
        list
    }

    /// The tier ladder: the stretches of bands each transform serves.
    pub fn describe_tiers(&self) -> (runs: Vec<Run>)
        ensures
            runs_of(runs@, self.bands@, self.bands@.len() as int),
    {
        let mut runs: Vec<Run> = Vec::new();
        let mut i: usize = 0;
        while i < self.bands.len()
            invariant
                i <= self.bands@.len(),
                runs_of(runs@, self.bands@, i as int),
            decreases self.bands@.len() - i,
        {
            let size: usize = self.bands[i].fft_size;
            let ghost before = runs@;
            let last: usize = runs.len();
            if last > 0 && runs[last - 1].size == size {
                let run = runs[last - 1];
                runs[last - 1] = Run { size, first: run.first, count: run.count + 1 };
                proof {
                    assert forall|k: int, b: int|
                        #![trigger runs@[k], self.bands@[b]]
                        0 <= k < runs@.len() && runs@[k].first <= b < runs@[k].first
                            + runs@[k].count implies self.bands@[b].fft_size
                        == runs@[k].size by {
                        assert(before[k].size == runs@[k].size);
                    }
                    assert forall|k: int, m: int|
                        #![trigger runs@[k], runs@[m]]
                        0 <= k && m == k + 1 && m < runs@.len() implies {
                        &&& runs@[k].first + runs@[k].count == runs@[m].first
                        &&& runs@[k].size != runs@[m].size
                    } by {
                        assert(before[k].first + before[k].count == before[m].first);
                    }
                }
            } else {
                runs.push(Run { size, first: i, count: 1 });
                proof {
                    assert forall|k: int, m: int|
                        #![trigger runs@[k], runs@[m]]
                        0 <= k && m == k + 1 && m < runs@.len() implies {
                        &&& runs@[k].first + runs@[k].count == runs@[m].first
                        &&& runs@[k].size != runs@[m].size
                    } by {
                        assert(runs@[k] == before[k]);
                        if m < before.len() {
                            assert(before[k].first + before[k].count == before[m].first);
                        } else {
                            assert(before[k] == before.last());
                        }
                    }
                    assert forall|k: int, b: int|
                        #![trigger runs@[k], self.bands@[b]]
                        0 <= k < runs@.len() && runs@[k].first <= b < runs@[k].first
                            + runs@[k].count implies self.bands@[b].fft_size
                        == runs@[k].size by {
                        if k < before.len() {
                            assert(before[k] == runs@[k]);
                        }
                    }
                }
            }
            i += 1;
        }
        runs
    }
}

/// Low bands get long windows and high bands short ones: where neither a band's
/// width nor its lower edge goes down, the size that serves it does not go up.
pub proof fn law_tier_sizes_decrease_with_frequency(
    a: Band,
    b: Band,
    sizes: Seq<usize>,
    rate: int,
    discard: int,
)
    requires
        well_served(a, sizes, rate, discard),
        well_served(b, sizes, rate, discard),
        a.lo <= b.lo,
        a.hi - a.lo <= b.hi - b.lo,
    ensures
        b.fft_size <= a.fft_size,
        b.unresolved ==> a.unresolved,
{
    assert forall|n: int|
        n >= 0 && resolves(a.lo as int, a.hi as int, rate, n, discard) implies resolves(
        b.lo as int,
        b.hi as int,
        rate,
        n,
        discard,
    ) by {
        lemma_wider_is_easier(a.hi - a.lo, b.hi - b.lo, n);
        lemma_wider_is_easier(a.lo as int, b.lo as int, n);
    }
    let i = sizes.index_of(a.fft_size);
    let j = sizes.index_of(b.fft_size);
    assert(sizes[i] == a.fft_size);
    assert(sizes[j] == b.fft_size);
}

proof fn lemma_wider_is_easier(x: int, y: int, n: int)
    by (nonlinear_arith)
    requires
        x <= y,
        n >= 0,
    ensures
        x * n <= y * n,
{
}

/// Every band that is resolved satisfies both halves of the rule, and no smaller
/// size would have done.
pub proof fn law_every_resolved_band_satisfies_the_tier_rule(
    band: Band,
    sizes: Seq<usize>,
    rate: int,
    discard: int,
    smaller: int,
)
    requires
        well_served(band, sizes, rate, discard),
        !band.unresolved,
        0 <= smaller < sizes.len(),
        sizes[smaller] < band.fft_size,
    ensures
        (band.hi - band.lo) * band.fft_size >= 2 * rate,
        band.lo * band.fft_size >= discard * rate,
        !resolves(band.lo as int, band.hi as int, rate, sizes[smaller] as int, discard),
{
}

/// A band is served by the smallest size that makes it at least two bins wide and
/// puts its lower edge clear of the discarded bins. Where some size does, the
/// band is resolved and no smaller one would have done; where none does, it is
/// marked and gets the largest.
pub proof fn law_the_smallest_size_that_resolves_a_band_serves_it(
    band: Band,
    sizes: Seq<usize>,
    sample_rate: u32,
    discard: int,
    size: usize,
)
    requires
        well_served(band, sizes, micro(sample_rate), discard),
        sizes.contains(size),
    ensures
        sizes.contains(band.fft_size),
        (band.hi - band.lo) * size >= 2 * (1_000_000 * sample_rate) && band.lo * size >= discard
            * (1_000_000 * sample_rate) ==> !band.unresolved && band.fft_size <= size,
        !band.unresolved ==> (band.hi - band.lo) * band.fft_size >= 2 * (1_000_000 * sample_rate)
            && band.lo * band.fft_size >= discard * (1_000_000 * sample_rate),
        band.unresolved ==> size <= band.fft_size && ((band.hi - band.lo) * size < 2 * (1_000_000
            * sample_rate) || band.lo * size < discard * (1_000_000 * sample_rate)),
{
    let i = sizes.index_of(size);
    assert(sizes[i] == size);
    let r = micro(sample_rate);
    assert(r == 1_000_000 * sample_rate);
}

/// The stretches of a plan hold every band once: each band is in exactly one, and
/// it is the one of its transform.
pub proof fn law_every_band_is_in_one_stretch(runs: Seq<Run>, bands: Seq<Band>, b: int, upto: int)
    requires
        runs_of(runs, bands, bands.len() as int),
        0 <= b < bands.len(),
        0 <= upto < runs.len(),
        b < runs[upto].first + runs[upto].count,
    ensures
        exists|k: int|
            0 <= k <= upto && (#[trigger] runs[k]).first <= b < runs[k].first + runs[k].count
                && runs[k].size == bands[b].fft_size,
    decreases upto,
{
    if runs[upto].first <= b {
        assert(bands[b].fft_size == runs[upto].size);
    } else {
        assert(upto > 0);
        assert(runs[upto - 1].first + runs[upto - 1].count == runs[upto].first);
        law_every_band_is_in_one_stretch(runs, bands, b, upto - 1);
    }
}

} // verus!
