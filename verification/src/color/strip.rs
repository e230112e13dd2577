//! Where on the strip each frequency lands.
//!
//! A position along the strip is a fraction: so many parts of so many. Mirror
//! and reverse rearrange positions; sectors, defined by frequencies pinned to
//! LEDs, say which two pinned frequencies a position is between and how far
//! along.

use vstd::prelude::*;

use crate::order::{in_order, stable_order};

verus! {

/// No channel owns this point. Channels are 0 to 15, so anything outside says
/// "nobody", which is what every audio level is, and a MIDI point with nothing
/// sounding on it too.
pub const NO_CHANNEL: u8 = 0xFF;

/// A position within the strip.
pub open spec fn within(parts: int, whole: int) -> int {
    if parts < 0 {
        0
    } else if parts > whole {
        whole
    } else {
        parts
    }
}

/// Which logical position an output position shows. Mirror folds the whole range
/// into each half; reverse then flips what that gives.
pub open spec fn shown(parts: int, whole: int, mirror: bool, reverse: bool) -> int {
    let u = within(parts, whole);
    let folded = if !mirror {
        u
    } else if 2 * u < whole {
        2 * u
    } else {
        2 * (whole - u)
    };
    if reverse {
        whole - folded
    } else {
        folded
    }
}

/// Which logical position an output position shows, in parts of the same whole.
/// Positions off either end are the end.
pub fn source_position(parts: i64, whole: u32, mirror: bool, reverse: bool) -> (at: u32)
    ensures
        at == shown(parts as int, whole as int, mirror, reverse),
        at <= whole,
{
    let mut u: u32 = if parts < 0 {
        0
    } else if parts > whole as i64 {
        whole
    } else {
        parts as u32
    };
    if mirror {
        u = if u < whole - u {
            u + u
        } else {
            (whole - u) + (whole - u)
        };
    }
    if reverse {
        u = whole - u;
    }
    u
}

/// The LEDs of the keyframes in the order that defines the sectors, or `None`
/// where there are too few to define any and the whole axis is spread across the
/// whole strip instead.
pub fn sector_order(leds: &[u64]) -> (order: Option<Vec<usize>>)
    ensures
        match order {
            Some(o) => leds@.len() >= 2 && in_order(leds@, o@),
            None => leds@.len() < 2,
        },
{
    if leds.len() < 2 {
        None
    } else {
        Some(stable_order(leds))
    }
}

/// The two LEDs the whole axis is spread between.
pub fn spanning(led_count: usize) -> (ends: (usize, usize))
    ensures
        ends.0 == 0,
        ends.1 == if led_count == 0 {
            0
        } else {
            led_count - 1
        },
{
    (
        0,
        if led_count == 0 {
            0
        } else {
            led_count - 1
        },
    )
}

/// Where a position is among the keyframes.
#[derive(Clone, Copy, Debug, PartialEq, Eq, Structural)]
pub enum Spot {
    /// Outside every sector: the layer does not address this position.
    Outside,
    /// On the only keyframe there is.
    On,
    /// Between a keyframe and the next, so many parts of the way of so many. A
    /// sector of no width counts as not yet started, which zero of one says.
    Between { from: usize, parts: u128, whole: u128 },
}

/// The first sector from `from` on that a position has not passed the end of.
/// The position is `led` parts of `whole` of one LED.
pub open spec fn sector_from(leds: Seq<u64>, led: int, whole: int, from: int) -> int
    decreases leds.len() - from,
{
    if from + 2 >= leds.len() || led <= leds[from + 1] * whole {
        from
    } else {
        sector_from(leds, led, whole, from + 1)
    }
}

/// Where a position is among keyframes in order.
pub open spec fn spot(leds: Seq<u64>, led: int, whole: int) -> Spot {
    if leds.len() == 0 || led < leds[0] * whole || led > leds.last() * whole {
        Spot::Outside
    } else if leds.len() == 1 {
        Spot::On
    } else {
        let from = sector_from(leds, led, whole, 0);
        let a = leds[from];
        let b = leds[from + 1];
        if b <= a {
            Spot::Between { from: from as usize, parts: 0, whole: 1 }
        } else {
            Spot::Between {
                from: from as usize,
                parts: (led - a * whole) as u128,
                whole: ((b - a) * whole) as u128,
            }
        }
    }
}

proof fn lemma_product_fits(a: int, b: int)
    by (nonlinear_arith)
    requires
        0 <= a <= 0xffff_ffff_ffff_ffff,
        0 <= b <= 0xffff_ffff,
    ensures
        0 <= a * b <= 0xffff_ffff_ffff_ffff * 0xffff_ffff,
{
}

proof fn lemma_span(a: int, b: int, whole: int)
    by (nonlinear_arith)
    requires
        whole >= 0,
        a <= b,
    ensures
        (b - a) * whole == b * whole - a * whole,
        a * whole <= b * whole,
{
}

/// Where a position is among keyframes in order: `at` parts of `whole` along a
/// strip whose last LED has a number.
pub fn led_frequency(leds: &[u64], at: u32, whole: u32, last_led: u64) -> (place: Spot)
    requires
        at <= whole,
        whole > 0,
        forall|i: int, j: int|
            0 <= i <= j < leds@.len() ==> (#[trigger] leds@[i]) <= (#[trigger] leds@[j]),
    ensures
        place == spot(leds@, at * last_led, whole as int),
        place matches Spot::Between { from, parts, whole: w } ==> {
            &&& from + 1 < leds@.len()
            &&& parts <= w
            &&& w > 0
        },
{
    if leds.len() == 0 {
        return Spot::Outside;
    }
    let n: usize = leds.len();
    let ghost w: int = whole as int;
    proof {
        lemma_product_fits(last_led as int, at as int);
        lemma_product_fits(leds@[0] as int, w);
        lemma_product_fits(leds@[n - 1] as int, w);
        assert(at * last_led == last_led * at) by (nonlinear_arith);
    }
    let led: u128 = (last_led as u128) * (at as u128);
    if led < (leds[0] as u128) * (whole as u128) || led > (leds[n - 1] as u128) * (whole as u128) {
        return Spot::Outside;
    }
    if n == 1 {
        return Spot::On;
    }
    let mut from: usize = 0;
    loop
        invariant
            n == leds@.len(),
            n >= 2,
            w == whole,
            whole > 0,
            led == at * last_led,
            from + 1 < n,
            leds@[from as int] * w <= led,
            led <= leds@[n - 1] * w,
            led >= leds@[0] * w,
            sector_from(leds@, led as int, w, 0) == sector_from(
                leds@,
                led as int,
                w,
                from as int,
            ),
            forall|i: int, j: int|
                0 <= i <= j < leds@.len() ==> (#[trigger] leds@[i]) <= (#[trigger] leds@[j]),
        decreases n - from,
    {
        proof {
            lemma_product_fits(leds@[from as int] as int, w);
            lemma_product_fits(leds@[from + 1] as int, w);
        }
        let end: u128 = (leds[from + 1] as u128) * (whole as u128);
        if from + 2 == n || led <= end {
            let a: u64 = leds[from];
            let b: u64 = leds[from + 1];
            assert(a <= b);
            if b <= a {
                return Spot::Between { from, parts: 0, whole: 1 };
            }
            proof {
                lemma_span(a as int, b as int, w);
                assert((b - a) * w > 0) by (nonlinear_arith)
                    requires
                        b > a,
                        w > 0,
                ;
            }
            let begin: u128 = (a as u128) * (whole as u128);
            return Spot::Between { from, parts: led - begin, whole: end - begin };
        }
        from += 1;
    }
}

/// Where a frequency is on a grid of band centres.
#[derive(Clone, Copy, Debug, PartialEq, Eq, Structural)]
pub enum Level {
    /// There is no grid.
    Nothing,
    /// At or past an end of the grid: the level of that end.
    At(usize),
    /// Between a centre and the one before it.
    Between(usize),
}

/// Whether a place on a grid of band centres is where a frequency is. The grid is
/// as long as both the levels and the centres reach.
pub open spec fn stands_at(centers: Seq<u64>, levels: int, hz: u64, place: Level) -> bool {
    let n = if levels < centers.len() {
        levels
    } else {
        centers.len() as int
    };
    match place {
        Level::Nothing => n == 0,
        Level::At(i) => n > 0 && (i == 0 && hz <= centers[0] || i == n - 1 && hz > centers[0] && hz
            >= centers[n - 1]),
        Level::Between(i) => {
            &&& 1 <= i < n
            &&& hz > centers[0]
            &&& hz < centers[n - 1]
            &&& hz <= centers[i as int]
            &&& forall|k: int| 1 <= k < i ==> hz > #[trigger] centers[k]
        },
    }
}

/// Where a frequency is on a grid of band centres, given by rank. The grid is as
/// long as both the levels and the centres reach.
pub fn level_at(centers: &[u64], levels: usize, hz: u64) -> (place: Level)
    ensures
        stands_at(centers@, levels as int, hz, place),
{
    let n: usize = if levels < centers.len() {
        levels
    } else {
        centers.len()
    };
    if n == 0 {
        return Level::Nothing;
    }
    if hz <= centers[0] {
        return Level::At(0);
    }
    if hz >= centers[n - 1] {
        return Level::At(n - 1);
    }
    let mut i: usize = 1;
    while hz > centers[i]
        invariant
            1 <= i < n <= centers@.len(),
            hz < centers@[n - 1],
            forall|k: int| 1 <= k < i ==> hz > #[trigger] centers@[k],
        decreases n - i,
    {
        i += 1;
    }
    Level::Between(i)
}

/// Whether a grid point is between two frequencies, given by rank.
pub open spec fn inside(centers: Seq<u64>, n: int, a: u64, b: u64, i: int) -> bool {
    let lo = if a <= b {
        a
    } else {
        b
    };
    let hi = if a <= b {
        b
    } else {
        a
    };
    0 <= i < n && lo <= centers[i] <= hi
}

/// Whether a grid point is the loudest between two frequencies, and of several as
/// loud the last. Levels and centres are given by rank.
pub open spec fn is_peak(
    levels: Seq<u64>,
    centers: Seq<u64>,
    n: int,
    a: u64,
    b: u64,
    i: int,
) -> bool {
    &&& inside(centers, n, a, b, i)
    &&& forall|j: int| #[trigger]
        inside(centers, n, a, b, j) ==> {
            &&& levels[j] <= levels[i]
            &&& j > i ==> levels[j] < levels[i]
        }
}

/// The loudest grid point between two frequencies, and of several as loud the
/// last, or `None` when no centre falls between them. Levels and centres are
/// given by rank.
///
/// A frame coarser than the grid has to aggregate rather than sample, or it
/// slides off whatever peak is in the span. Taking the loudest rather than an
/// average keeps two notes a semitone apart two notes.
pub fn peak_between(levels: &[u64], centers: &[u64], a: u64, b: u64) -> (peak: Option<usize>)
    ensures
        ({
            let n = if levels@.len() < centers@.len() {
                levels@.len() as int
            } else {
                centers@.len() as int
            };
            match peak {
                Some(i) => is_peak(levels@, centers@, n, a, b, i as int),
                None => forall|j: int| !(#[trigger] inside(centers@, n, a, b, j)),
            }
        }),
{
    let n: usize = if levels.len() < centers.len() {
        levels.len()
    } else {
        centers.len()
    };
    let lo: u64 = if a <= b {
        a
    } else {
        b
    };
    let hi: u64 = if a <= b {
        b
    } else {
        a
    };
    let mut best: Option<usize> = None;
    let mut i: usize = 0;
    while i < n
        invariant
            i <= n <= centers@.len(),
            n <= levels@.len(),
            lo == if a <= b {
                a
            } else {
                b
            },
            hi == if a <= b {
                b
            } else {
                a
            },
            match best {
                Some(p) => {
                    &&& p < i
                    &&& inside(centers@, n as int, a, b, p as int)
                    &&& forall|j: int|
                        #![trigger inside(centers@, n as int, a, b, j)]
                        j < i && inside(centers@, n as int, a, b, j) ==> {
                            &&& levels@[j] <= levels@[p as int]
                            &&& j > p ==> levels@[j] < levels@[p as int]
                        }
                },
                None => forall|j: int|
                    #![trigger inside(centers@, n as int, a, b, j)]
                    j < i ==> !inside(centers@, n as int, a, b, j),
            },
        decreases n - i,
    {
        let c: u64 = centers[i];
        if lo <= c && c <= hi {
            assert(inside(centers@, n as int, a, b, i as int));
            match best {
                Some(p) => {
                    if levels[p] <= levels[i] {
                        best = Some(i);
                    }
                },
                None => {
                    best = Some(i);
                },
            }
        }
        i += 1;
    }
    best
}

/// The nearest grid point, given how far away each one is by rank: the first of
/// those nearest.
pub fn nearest_index(distances: &[u64]) -> (at: Option<usize>)
    ensures
        match at {
            Some(i) => {
                &&& i < distances@.len()
                &&& forall|j: int|
                    0 <= j < distances@.len() ==> {
                        &&& distances@[i as int] <= #[trigger] distances@[j]
                        &&& j < i ==> distances@[i as int] < distances@[j]
                    }
            },
            None => distances@.len() == 0,
        },
{
    if distances.len() == 0 {
        return None;
    }
    let mut best: usize = 0;
    let mut i: usize = 1;
    while i < distances.len()
        invariant
            1 <= i <= distances@.len(),
            best < i,
            forall|j: int|
                0 <= j < i ==> {
                    &&& distances@[best as int] <= #[trigger] distances@[j]
                    &&& j < best ==> distances@[best as int] < distances@[j]
                },
        decreases distances@.len() - i,
    {
        if distances[i] < distances[best] {
            best = i;
        }
        i += 1;
    }
    Some(best)
}

/// Whether a grid of levels is finer than the frame, which decides how a level
/// is read off it.
pub fn dense(centers: usize, points: usize) -> (yes: bool)
    ensures
        yes == (centers > points),
{
    centers > points
}

/// The channel whose note a point shows.
///
/// The channel is read off the very grid point the level came from, or the
/// nearest one where the level was interpolated: a colour cannot be halfway
/// between two channels, because channels are identities rather than quantities.
pub fn owner(channels: &[u8], peak: Option<usize>, nearest: Option<usize>) -> (channel: u8)
    ensures
        channel == {
            let at = if peak is Some {
                peak
            } else {
                nearest
            };
            match at {
                Some(i) => if i < channels@.len() {
                    channels@[i as int]
                } else {
                    NO_CHANNEL
                },
                None => NO_CHANNEL,
            }
        },
{
    let at = match peak {
        Some(i) => Some(i),
        None => nearest,
    };
    match at {
        Some(i) => if i < channels.len() {
            channels[i]
        } else {
            NO_CHANNEL
        },
        None => NO_CHANNEL,
    }
}

/// A mirrored strip shows the same at both ends: a position and the one as far
/// from the other end show the same.
pub proof fn law_a_mirror_is_symmetric(parts: int, whole: int, reverse: bool)
    requires
        0 <= parts <= whole,
    ensures
        shown(parts, whole, true, reverse) == shown(whole - parts, whole, true, reverse),
{
}

/// Reversing shows the strip back to front, whatever else is done to it.
pub proof fn law_reverse_flips(parts: int, whole: int, mirror: bool)
    ensures
        shown(parts, whole, mirror, true) == whole - shown(parts, whole, mirror, false),
{
}

/// A strip that is neither mirrored nor reversed shows what is there.
pub proof fn law_a_plain_strip_is_left_alone(parts: int, whole: int)
    requires
        0 <= parts <= whole,
    ensures
        shown(parts, whole, false, false) == parts,
{
}

/// A position is outside exactly when it comes before the first keyframe or
/// after the last: between those, sectors leave no gap.
pub proof fn law_sectors_leave_no_gap(leds: Seq<u64>, led: int, whole: int)
    requires
        leds.len() > 0,
    ensures
        spot(leds, led, whole) is Outside <==> led < leds[0] * whole || led > leds.last() * whole,
{
}

/// A keyframe's LED is where its sector ends: there the whole way has been
/// covered, where the sector before it has any width.
pub proof fn law_a_sector_ends_on_its_keyframe(leds: Seq<u64>, whole: int, k: int)
    requires
        whole > 0,
        0 < k < leds.len(),
        leds.len() <= usize::MAX,
        forall|i: int, j: int|
            0 <= i < j < leds.len() ==> (#[trigger] leds[i]) < (#[trigger] leds[j]),
        leds.last() * whole <= u128::MAX,
    ensures
        ({
            let place = spot(leds, leds[k] * whole, whole);
            &&& place matches Spot::Between { from, parts, whole: w } && from == k - 1 && parts
                == w && w > 0
        }),
{
    let led = leds[k] * whole;
    lemma_passed(leds, k, whole, 0);
    lemma_span(leds[0] as int, leds[k] as int, whole);
    lemma_span(leds[k - 1] as int, leds[k] as int, whole);
    if k < leds.len() - 1 {
        lemma_span(leds[k] as int, leds.last() as int, whole);
    }
    let a: int = leds[k - 1] as int;
    let b: int = leds[k] as int;
    assert((b - a) * whole > 0) by (nonlinear_arith)
        requires
            b > a,
            whole > 0,
    ;
    assert(a * whole >= 0) by (nonlinear_arith)
        requires
            a >= 0,
            whole > 0,
    ;
}

proof fn lemma_passed(leds: Seq<u64>, k: int, whole: int, from: int)
    requires
        whole > 0,
        0 <= from < k < leds.len(),
        forall|i: int, j: int|
            0 <= i < j < leds.len() ==> (#[trigger] leds[i]) < (#[trigger] leds[j]),
    ensures
        sector_from(leds, leds[k] * whole, whole, from) == k - 1,
    decreases k - from,
{
    if from + 1 < k {
        let a: int = leds[from + 1] as int;
        let b: int = leds[k] as int;
        assert(b * whole > a * whole) by (nonlinear_arith)
            requires
                b > a,
                whole > 0,
        ;
        lemma_passed(leds, k, whole, from + 1);
    }
}

/// Whether a grid point falls into one of the spans between neighbouring edges.
pub open spec fn spanned(edges: Seq<u64>, centers: Seq<u64>, n: int, i: int, j: int) -> bool {
    0 <= i < edges.len() - 1 && inside(centers, n, edges[i], edges[i + 1], j)
}

/// A grid finer than the frame keeps every peak: however a layout orders the
/// spans of a frame, a grid point between any two of their edges falls into one
/// of the spans, and what that span shows is at least as loud.
pub proof fn law_a_coarse_frame_keeps_every_peak(
    edges: Seq<u64>,
    levels: Seq<u64>,
    centers: Seq<u64>,
    n: int,
    j: int,
    below: int,
    above: int,
)
    requires
        edges.len() >= 2,
        0 <= j < n <= centers.len(),
        n <= levels.len(),
        0 <= below < edges.len(),
        0 <= above < edges.len(),
        edges[below] <= centers[j] <= edges[above],
    ensures
        exists|i: int|
            #[trigger] spanned(edges, centers, n, i, j) && forall|p: int| #[trigger]
                is_peak(levels, centers, n, edges[i], edges[i + 1], p) ==> levels[j]
                    <= levels[p],
{
    let i = lemma_some_span(edges, centers[j], below, above);
    assert(spanned(edges, centers, n, i, j));
}

/// A span that crosses a place, between an edge that is not above it and one
/// that is not below it.
proof fn lemma_some_span(edges: Seq<u64>, at: u64, below: int, above: int) -> (i: int)
    requires
        edges.len() >= 2,
        0 <= below < edges.len(),
        0 <= above < edges.len(),
        edges[below] <= at <= edges[above],
    ensures
        0 <= i < edges.len() - 1,
        edges[i] <= at <= edges[i + 1] || edges[i + 1] <= at <= edges[i],
    decreases
        if below < above {
            above - below
        } else {
            below - above
        },
{
    if below == above {
        if below < edges.len() - 1 {
            below
        } else {
            below - 1
        }
    } else if below < above {
        if edges[above - 1] <= at {
            above - 1
        } else {
            lemma_some_span(edges, at, below, above - 1)
        }
    } else {
        if edges[above + 1] <= at {
            above
        } else {
            lemma_some_span(edges, at, below, above + 1)
        }
    }
}

/// A mirror folds the whole range into each half: a position in the first half
/// shows the position twice as far along, the middle shows the far end, and the
/// second half comes back the same way.
pub proof fn law_a_mirror_folds_the_whole_range_into_each_half(parts: int, whole: int)
    requires
        0 <= parts <= whole,
    ensures
        2 * parts <= whole ==> shown(parts, whole, true, false) == 2 * parts,
        2 * parts >= whole ==> shown(parts, whole, true, false) == 2 * whole - 2 * parts,
        2 * parts <= whole ==> shown(parts, whole, true, true) == whole - 2 * parts,
        2 * parts >= whole ==> shown(parts, whole, true, true) == 2 * parts - whole,
{
}

/// A position off either end of the strip shows what that end shows.
pub proof fn law_past_an_end_is_that_end(parts: int, whole: int, mirror: bool, reverse: bool)
    requires
        0 <= whole,
    ensures
        parts < 0 ==> shown(parts, whole, mirror, reverse) == shown(0, whole, mirror, reverse),
        parts > whole ==> shown(parts, whole, mirror, reverse) == shown(
            whole,
            whole,
            mirror,
            reverse,
        ),
        0 <= shown(parts, whole, mirror, reverse) <= whole,
{
}

/// A position inside the keyframes lies in the sector it is given: not before
/// the keyframe the sector starts from, not past the one it ends on, and as far
/// along as it is past the start, out of the whole way between the two.
pub proof fn law_a_position_lies_in_its_sector(leds: Seq<u64>, led: int, whole: int)
    requires
        whole > 0,
        2 <= leds.len() <= usize::MAX,
        forall|i: int, j: int|
            0 <= i <= j < leds.len() ==> (#[trigger] leds[i]) <= (#[trigger] leds[j]),
        leds[0] * whole <= led <= leds.last() * whole,
        leds.last() * whole <= u128::MAX,
    ensures
        ({
            let place = spot(leds, led, whole);
            &&& place matches Spot::Between { from, parts, whole: w } && {
                &&& from + 1 < leds.len()
                &&& leds[from as int] * whole <= led <= leds[from + 1] * whole
                &&& leds[from as int] < leds[from + 1] ==> {
                    &&& leds[from as int] * whole + parts == led
                    &&& leds[from as int] * whole + w == leds[from + 1] * whole
                }
                &&& leds[from as int] == leds[from + 1] ==> parts == 0 && w == 1
                &&& forall|i: int| 0 < i <= from ==> (#[trigger] leds[i]) * whole < led
            }
        }),
{
    lemma_sector_holds(leds, led, whole, 0);
    let from = sector_from(leds, led, whole, 0);
    let a: int = leds[from] as int;
    let b: int = leds[from + 1] as int;
    let z: int = leds.last() as int;
    lemma_span(a, b, whole);
    lemma_span(b, z, whole);
    assert(a * whole >= 0) by (nonlinear_arith)
        requires
            a >= 0,
            whole > 0,
    ;
}

proof fn lemma_sector_holds(leds: Seq<u64>, led: int, whole: int, from: int)
    requires
        0 <= from < leds.len() - 1,
        leds[from] * whole <= led <= leds.last() * whole,
        forall|i: int| 0 < i <= from ==> (#[trigger] leds[i]) * whole < led,
    ensures
        ({
            let at = sector_from(leds, led, whole, from);
            &&& from <= at < leds.len() - 1
            &&& leds[at] * whole <= led <= leds[at + 1] * whole
            &&& forall|i: int| 0 < i <= at ==> (#[trigger] leds[i]) * whole < led
        }),
    decreases leds.len() - from,
{
    if from + 2 < leds.len() && led > leds[from + 1] * whole {
        lemma_sector_holds(leds, led, whole, from + 1);
    }
}

/// The peak of a span lies in the span, whichever way round its ends are given,
/// and nothing else in the span is louder.
pub proof fn law_a_peak_is_the_loudest_of_its_span(
    levels: Seq<u64>,
    centers: Seq<u64>,
    n: int,
    a: u64,
    b: u64,
    peak: int,
    other: int,
)
    requires
        is_peak(levels, centers, n, a, b, peak),
        0 <= other < n,
    ensures
        0 <= peak < n,
        a <= centers[peak] <= b || b <= centers[peak] <= a,
        a <= centers[other] <= b || b <= centers[other] <= a ==> levels[other] <= levels[peak] && (
        levels[other] == levels[peak] ==> other <= peak),
{
    if a <= centers[other] <= b || b <= centers[other] <= a {
        assert(inside(centers, n, a, b, other));
    }
}

/// A span has no peak only where no centre lies in it.
pub proof fn law_only_an_empty_span_has_no_peak(centers: Seq<u64>, n: int, a: u64, b: u64, j: int)
    requires
        forall|k: int| !(#[trigger] inside(centers, n, a, b, k)),
        0 <= j < n,
    ensures
        !(a <= centers[j] <= b),
        !(b <= centers[j] <= a),
{
    assert(!inside(centers, n, a, b, j));
}

/// A frequency stands between the two centres on either side of it, past an end
/// of the grid at that end, and nowhere only where there is no grid.
pub proof fn law_a_frequency_stands_between_its_neighbours(
    centers: Seq<u64>,
    levels: int,
    hz: u64,
    place: Level,
)
    requires
        stands_at(centers, levels, hz, place),
        0 < levels <= centers.len(),
        forall|i: int, j: int|
            0 <= i < j < centers.len() ==> (#[trigger] centers[i]) < (#[trigger] centers[j]),
    ensures
        !(place is Nothing),
        place matches Level::Between(i) ==> 1 <= i < levels && centers[i - 1] < hz <= centers[i as int],
        place matches Level::At(i) ==> i == 0 && hz <= centers[0] || i == levels - 1 && hz
            >= centers[levels - 1],
        centers[0] < hz < centers[levels - 1] ==> place is Between,
{
}

/// However a strip is arranged it has no break: neighbouring positions never show
/// positions further apart than two.
pub proof fn law_neighbours_stay_neighbours(parts: int, whole: int, mirror: bool, reverse: bool)
    requires
        0 <= parts < whole,
    ensures
        ({
            let here = shown(parts, whole, mirror, reverse);
            let next = shown(parts + 1, whole, mirror, reverse);
            -2 <= next - here <= 2
        }),
{
}

} // verus!
