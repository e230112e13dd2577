//! Getting frames to the strip.
//!
//! [`protocol`] defines the wire format, [`serial`] decides what to say to a
//! real board and when, and [`mock`] keeps the expanded strip so the entire
//! pipeline can be developed and demonstrated before any hardware exists.

pub mod mock;
pub mod protocol;
pub mod serial;

use vstd::prelude::*;

pub use mock::MockLink;
pub use protocol::{Hello, TestPattern};
pub use serial::SerialLink;

verus! {

/// A destination for rendered frames.
pub trait Link {
    /// Human-readable description, for startup logging.
    fn describe(&self) -> String;

    /// Most colours one frame may carry.
    fn max_points(&self) -> (n: usize)
        default_ensures
            n == 85,
    {
        protocol::max_bands()
    }

    /// Send one frame of per-band colours.
    ///
    /// Returns `false` if the device was not ready within its timeout, which is
    /// a dropped frame rather than an error: the next one will catch up, and
    /// the display is better off skipping than queueing stale data.
    fn send(&mut self, bands: &[[u8; 3]]) -> Result<bool, String>;

    /// Display a diagnostic pattern. Not all links support every pattern.
    fn send_test(&mut self, _pattern: TestPattern) -> (res: Result<(), String>)
        default_ensures
            res is Ok,
    {
        Ok(())
    }

    /// Blank the strip.
    fn blackout(&mut self) -> (res: Result<(), String>)
        default_ensures
            res is Ok,
    {
        Ok(())
    }
}

/// `lo + (hi - lo) * num / den`, rounded to the nearest integer with halves
/// going up.
pub open spec fn mix(lo: int, hi: int, num: int, den: int) -> int {
    (2 * (lo * (den - num) + hi * num) + den) / (2 * den)
}

/// The band an LED starts from, out of at least two bands over at least two
/// LEDs. The last LED is the end of the last pair rather than the start of one
/// that does not exist.
pub open spec fn band_below(bands: int, leds: int, i: int) -> int {
    let j = i * (bands - 1) / (leds - 1);
    if j < bands - 2 {
        j
    } else {
        bands - 2
    }
}

/// How far past that band an LED is, in units of one over the number of LEDs
/// less one.
pub open spec fn past_band(bands: int, leds: int, i: int) -> int {
    i * (bands - 1) - band_below(bands, leds, i) * (leds - 1)
}

/// One channel of one LED.
pub open spec fn led_channel(bands: Seq<[u8; 3]>, leds: int, i: int, c: int) -> int {
    if bands.len() == 1 || leds == 1 {
        bands[0]@[c] as int
    } else {
        let j = band_below(bands.len() as int, leds, i);
        mix(
            bands[j]@[c] as int,
            bands[j + 1]@[c] as int,
            past_band(bands.len() as int, leds, i),
            leds - 1,
        )
    }
}

/// Expand per-band colours across the physical strip.
///
/// This mirrors what the firmware does, and exists here so the mock link
/// previews the real thing and so the logic is testable without hardware.
///
/// Interpolation is linear in 8-bit RGB: adjacent bands are sampled from a
/// continuous colour surface, so consecutive colours are always close together
/// and the perceptual error is far below what an 8-bit LED can show.
pub fn expand_bands_to_leds(bands: &[[u8; 3]], leds: &mut [[u8; 3]])
    ensures
        final(leds)@.len() == old(leds)@.len(),
        bands@.len() == 0 ==> final(leds)@ == old(leds)@,
        bands@.len() > 0 ==> forall|i: int, c: int|
            0 <= i < final(leds)@.len() && 0 <= c < 3 ==> (#[trigger] final(leds)@[i]@[c]) as int
                == led_channel(bands@, final(leds)@.len() as int, i, c),
{
    let b: usize = bands.len();
    let n: usize = leds.len();
    if b == 0 {
        return;
    }
    let mut i: usize = 0;
    while i < n
        invariant
            i <= n,
            n == leds@.len(),
            n == old(leds)@.len(),
            b == bands@.len(),
            b > 0,
            forall|k: int, c: int|
                0 <= k < i && 0 <= c < 3 ==> (#[trigger] leds@[k]@[c]) as int == led_channel(
                    bands@,
                    n as int,
                    k,
                    c,
                ),
        decreases n - i,
    {
        let px: [u8; 3] = expanded(bands, n, i);
        leds[i] = px;
        i += 1;
    }
}

/// One LED of the expanded strip.
fn expanded(bands: &[[u8; 3]], n: usize, i: usize) -> (px: [u8; 3])
    requires
        bands@.len() > 0,
        i < n,
    ensures
        forall|c: int|
            0 <= c < 3 ==> (#[trigger] px@[c]) as int == led_channel(
                bands@,
                n as int,
                i as int,
                c,
            ),
{
    let b: usize = bands.len();
    if b == 1 || n == 1 {
        return bands[0];
    }
    let den: u128 = (n - 1) as u128;
    proof {
        lemma_pair(b as int, n as int, i as int);
        assert(i * (b - 1) <= usize::MAX * usize::MAX) by (nonlinear_arith)
            requires
                0 <= i <= usize::MAX,
                1 <= b <= usize::MAX,
        ;
        assert(usize::MAX * usize::MAX <= u128::MAX) by (nonlinear_arith)
            requires
                usize::MAX <= u64::MAX,
        ;
    }
    let along: u128 = (i as u128) * ((b - 1) as u128);
    let whole: u128 = along / den;
    let j: usize = if whole < (b - 2) as u128 {
        whole as usize
    } else {
        b - 2
    };
    let num: u128 = along - (j as u128) * den;
    assert(num == past_band(b as int, n as int, i as int));
    let lo: [u8; 3] = bands[j];
    let hi: [u8; 3] = bands[j + 1];
    [mixed(lo[0], hi[0], num, den), mixed(lo[1], hi[1], num, den), mixed(lo[2], hi[2], num, den)]
}

/// One channel between two.
fn mixed(lo: u8, hi: u8, num: u128, den: u128) -> (v: u8)
    requires
        0 < den <= u64::MAX,
        num <= den,
    ensures
        v == mix(lo as int, hi as int, num as int, den as int),
{
    proof {
        lemma_mix_is_between(lo as int, hi as int, num as int, den as int);
        assert(lo * (den - num) <= 255 * den && hi * num <= 255 * den && lo * (den - num) >= 0 && hi
            * num >= 0) by (nonlinear_arith)
            requires
                0 <= lo <= 255,
                0 <= hi <= 255,
                0 <= num <= den,
        ;
    }
    let sum: u128 = 2 * ((lo as u128) * (den - num) + (hi as u128) * num) + den;
    (sum / (2 * den)) as u8
}

/// The pair of bands around an LED exists, and the LED lies between them.
proof fn lemma_pair(bands: int, leds: int, i: int)
    requires
        2 <= bands,
        2 <= leds,
        0 <= i < leds,
    ensures
        0 <= band_below(bands, leds, i) <= bands - 2,
        0 <= past_band(bands, leds, i) <= leds - 1,
        0 <= i * (bands - 1),
        band_below(bands, leds, i) * (leds - 1) <= i * (bands - 1),
{
    let along = i * (bands - 1);
    let den = leds - 1;
    let whole = along / den;
    assert(0 <= along <= den * (bands - 1)) by (nonlinear_arith)
        requires
            0 <= i <= den,
            2 <= bands,
            along == i * (bands - 1),
    ;
    vstd::arithmetic::div_mod::lemma_fundamental_div_mod(along, den);
    vstd::arithmetic::div_mod::lemma_mod_bound(along, den);
    vstd::arithmetic::div_mod::lemma_div_pos_is_pos(along, den);
    assert(whole * den <= along < whole * den + den) by (nonlinear_arith)
        requires
            along == den * whole + along % den,
            0 <= along % den < den,
    ;
    if whole >= bands - 2 {
        assert((bands - 2) * den <= along) by (nonlinear_arith)
            requires
                whole * den <= along,
                whole >= bands - 2,
                den >= 1,
        ;
        assert(along <= (bands - 2) * den + den) by (nonlinear_arith)
            requires
                along <= den * (bands - 1),
        ;
    }
}

/// A mix never leaves the range of the two values it mixes.
pub proof fn lemma_mix_is_between(lo: int, hi: int, num: int, den: int)
    requires
        0 < den,
        0 <= num <= den,
    ensures
        lo <= hi ==> lo <= mix(lo, hi, num, den) <= hi,
        hi <= lo ==> hi <= mix(lo, hi, num, den) <= lo,
        num == 0 ==> mix(lo, hi, num, den) == lo,
        num == den ==> mix(lo, hi, num, den) == hi,
{
    let low = if lo <= hi {
        lo
    } else {
        hi
    };
    let high = if lo <= hi {
        hi
    } else {
        lo
    };
    let sum = 2 * (lo * (den - num) + hi * num) + den;
    assert(2 * den * low <= sum - den <= 2 * den * high) by (nonlinear_arith)
        requires
            0 <= num <= den,
            low <= lo <= high,
            low <= hi <= high,
            sum == 2 * (lo * (den - num) + hi * num) + den,
    ;
    lemma_rounds_within(sum, den, low, high);
    if num == 0 {
        assert(lo * (den - num) + hi * num == lo * den) by (nonlinear_arith)
            requires
                num == 0,
        ;
        assert(2 * den * lo == sum - den) by (nonlinear_arith)
            requires
                sum == 2 * (lo * den) + den,
        ;
        lemma_rounds_within(sum, den, lo, lo);
    }
    if num == den {
        assert(lo * (den - num) + hi * num == hi * den) by (nonlinear_arith)
            requires
                num == den,
        ;
        assert(2 * den * hi == sum - den) by (nonlinear_arith)
            requires
                sum == 2 * (hi * den) + den,
        ;
        lemma_rounds_within(sum, den, hi, hi);
    }
}

proof fn lemma_rounds_within(sum: int, den: int, low: int, high: int)
    by (nonlinear_arith)
    requires
        0 < den,
        2 * den * low <= sum - den <= 2 * den * high,
    ensures
        low <= sum / (2 * den) <= high,
{
}

/// The first LED shows the first band and the last LED the last one.
pub proof fn law_endpoints_map_to_the_first_and_last_band(bands: Seq<[u8; 3]>, leds: int, c: int)
    requires
        bands.len() >= 1,
        leds >= 2,
        0 <= c < 3,
    ensures
        led_channel(bands, leds, 0, c) == bands[0]@[c],
        led_channel(bands, leds, leds - 1, c) == bands.last()@[c],
{
    if bands.len() >= 2 {
        let b = bands.len() as int;
        lemma_pair(b, leds, 0);
        lemma_pair(b, leds, leds - 1);
        assert(band_below(b, leds, 0) == 0) by {
            assert(0 * (b - 1) == 0);
            vstd::arithmetic::div_mod::lemma_div_basics(leds - 1);
        }
        assert(past_band(b, leds, 0) == 0) by (nonlinear_arith)
            requires
                band_below(b, leds, 0) == 0,
        ;
        lemma_mix_is_between(bands[0]@[c] as int, bands[1]@[c] as int, 0, leds - 1);
        vstd::arithmetic::div_mod::lemma_div_multiples_vanish(b - 1, leds - 1);
        assert((leds - 1) * (b - 1) / (leds - 1) == b - 1);
        assert(past_band(b, leds, leds - 1) == leds - 1) by (nonlinear_arith)
            requires
                band_below(b, leds, leds - 1) == b - 2,
        ;
        lemma_mix_is_between(
            bands[b - 2]@[c] as int,
            bands[b - 1]@[c] as int,
            leds - 1,
            leds - 1,
        );
    }
}

/// Between two bands the ramp never turns back: further along is never further
/// from where it is going.
pub proof fn law_interpolation_is_monotonic_between_bands(
    lo: int,
    hi: int,
    num: int,
    next: int,
    den: int,
)
    requires
        0 < den,
        0 <= num <= next <= den,
    ensures
        lo <= hi ==> mix(lo, hi, num, den) <= mix(lo, hi, next, den),
        hi <= lo ==> mix(lo, hi, num, den) >= mix(lo, hi, next, den),
{
    let a = 2 * (lo * (den - num) + hi * num) + den;
    let b = 2 * (lo * (den - next) + hi * next) + den;
    if lo <= hi {
        assert(a <= b) by (nonlinear_arith)
            requires
                lo <= hi,
                num <= next,
                a == 2 * (lo * (den - num) + hi * num) + den,
                b == 2 * (lo * (den - next) + hi * next) + den,
        ;
        vstd::arithmetic::div_mod::lemma_div_is_ordered(a, b, 2 * den);
    }
    if hi <= lo {
        assert(b <= a) by (nonlinear_arith)
            requires
                hi <= lo,
                num <= next,
                a == 2 * (lo * (den - num) + hi * num) + den,
                b == 2 * (lo * (den - next) + hi * next) + den,
        ;
        vstd::arithmetic::div_mod::lemma_div_is_ordered(b, a, 2 * den);
    }
}

/// A strip of one colour expands to a strip of that colour.
pub proof fn law_one_colour_fills_the_strip(
    bands: Seq<[u8; 3]>,
    colour: [u8; 3],
    leds: int,
    i: int,
    c: int,
)
    requires
        bands.len() >= 1,
        forall|k: int| 0 <= k < bands.len() ==> bands[k] == colour,
        0 <= i < leds,
        0 <= c < 3,
    ensures
        led_channel(bands, leds, i, c) == colour@[c],
{
    if bands.len() >= 2 && leds >= 2 {
        let b = bands.len() as int;
        lemma_pair(b, leds, i);
        lemma_mix_is_between(
            colour@[c] as int,
            colour@[c] as int,
            past_band(b, leds, i),
            leds - 1,
        );
    }
}

/// As many LEDs as bands show the bands.
pub proof fn law_equal_lengths_give_the_bands_back(bands: Seq<[u8; 3]>, i: int, c: int)
    requires
        0 <= i < bands.len(),
        0 <= c < 3,
    ensures
        led_channel(bands, bands.len() as int, i, c) == bands[i]@[c],
{
    let b = bands.len() as int;
    if b >= 2 {
        let den = b - 1;
        vstd::arithmetic::div_mod::lemma_div_multiples_vanish(i, den);
        assert(i * den == den * i) by (nonlinear_arith);
        let j = band_below(b, b, i);
        assert(past_band(b, b, i) == (i - j) * den) by (nonlinear_arith)
            requires
                past_band(b, b, i) == i * den - j * den,
        ;
        assert((i - j) * den == if i == j {
            0
        } else {
            den
        }) by (nonlinear_arith)
            requires
                i == j || i == j + 1,
        ;
        lemma_mix_is_between(
            bands[j]@[c] as int,
            bands[j + 1]@[c] as int,
            past_band(b, b, i),
            den,
        );
    }
}

/// A channel that never falls along the bands never falls along the LEDs, and
/// one that never rises never rises.
pub proof fn law_the_strip_follows_the_bands(
    bands: Seq<[u8; 3]>,
    leds: int,
    i: int,
    k: int,
    c: int,
)
    requires
        bands.len() >= 1,
        0 <= i <= k < leds,
        0 <= c < 3,
    ensures
        (forall|a: int, b: int|
            0 <= a <= b < bands.len() ==> (#[trigger] bands[a])@[c] <= (#[trigger] bands[b])@[c])
            ==> led_channel(bands, leds, i, c) <= led_channel(bands, leds, k, c),
        (forall|a: int, b: int|
            0 <= a <= b < bands.len() ==> (#[trigger] bands[a])@[c] >= (#[trigger] bands[b])@[c])
            ==> led_channel(bands, leds, i, c) >= led_channel(bands, leds, k, c),
{
    if bands.len() >= 2 && leds >= 2 {
        let n = bands.len() as int;
        let den = leds - 1;
        lemma_pair(n, leds, i);
        lemma_pair(n, leds, k);
        assert(i * (n - 1) <= k * (n - 1)) by (nonlinear_arith)
            requires
                i <= k,
                n >= 2,
        ;
        vstd::arithmetic::div_mod::lemma_div_is_ordered(i * (n - 1), k * (n - 1), den);
        let a = band_below(n, leds, i);
        let b = band_below(n, leds, k);
        let p = past_band(n, leds, i);
        let q = past_band(n, leds, k);
        let low = bands[a]@[c] as int;
        let next = bands[a + 1]@[c] as int;
        let high = bands[b]@[c] as int;
        let last = bands[b + 1]@[c] as int;
        lemma_mix_is_between(low, next, p, den);
        lemma_mix_is_between(high, last, q, den);
        if a == b {
            law_interpolation_is_monotonic_between_bands(low, next, p, q, den);
        } else {
            assert(a + 1 <= b);
        }
    }
}

/// A mix is the exact blend of its two ends rounded to the nearest step: it is
/// never more than half a step off, and a half goes up.
pub proof fn law_a_mix_is_the_blend_to_the_nearest_step(lo: int, hi: int, num: int, den: int)
    requires
        0 < den,
    ensures
        2 * (den * mix(lo, hi, num, den)) <= 2 * (den * lo + num * (hi - lo)) + den,
        2 * (den * mix(lo, hi, num, den)) > 2 * (den * lo + num * (hi - lo)) - den,
{
    let sum = 2 * (lo * (den - num) + hi * num) + den;
    let m = mix(lo, hi, num, den);
    assert(lo * (den - num) + hi * num == den * lo + num * (hi - lo)) by (nonlinear_arith);
    vstd::arithmetic::div_mod::lemma_fundamental_div_mod(sum, 2 * den);
    vstd::arithmetic::div_mod::lemma_mod_bound(sum, 2 * den);
    assert(2 * den * m == 2 * (den * m)) by (nonlinear_arith);
}

/// An LED shows the two bands it lies between, blended by how far along it lies:
/// the strip and the bands are laid end to end, and of the way from one band to
/// the next the LED has come as far as it has come along the strip.
pub proof fn law_an_led_blends_the_bands_it_lies_between(
    bands: Seq<[u8; 3]>,
    leds: int,
    i: int,
    j: int,
    c: int,
)
    requires
        2 <= bands.len(),
        2 <= leds,
        0 <= i < leds,
        0 <= j < bands.len() - 1,
        j * (leds - 1) <= i * (bands.len() - 1) <= (j + 1) * (leds - 1),
        0 <= c < 3,
    ensures
        ({
            let lo = bands[j]@[c] as int;
            let hi = bands[j + 1]@[c] as int;
            let along = i * (bands.len() - 1) - j * (leds - 1);
            let shown = led_channel(bands, leds, i, c);
            &&& 2 * ((leds - 1) * shown) <= 2 * ((leds - 1) * lo + along * (hi - lo)) + (leds - 1)
            &&& 2 * ((leds - 1) * shown) > 2 * ((leds - 1) * lo + along * (hi - lo)) - (leds - 1)
        }),
{
    let b = bands.len() as int;
    let den = leds - 1;
    let at = i * (b - 1);
    let below = band_below(b, leds, i);
    lemma_pair(b, leds, i);
    vstd::arithmetic::div_mod::lemma_fundamental_div_mod(at, den);
    vstd::arithmetic::div_mod::lemma_mod_bound(at, den);
    let whole = at / den;
    assert(den * whole == whole * den) by (nonlinear_arith);
    assert(whole == j || whole == j + 1) by (nonlinear_arith)
        requires
            j * den <= at <= (j + 1) * den,
            whole * den <= at < whole * den + den,
            den > 0,
    ;
    let lo = bands[j]@[c] as int;
    let hi = bands[j + 1]@[c] as int;
    if below == j {
        law_a_mix_is_the_blend_to_the_nearest_step(lo, hi, at - j * den, den);
    } else {
        assert(whole == j + 1 && below == j + 1);
        assert(at == (j + 1) * den) by (nonlinear_arith)
            requires
                whole == j + 1,
                whole * den <= at <= (j + 1) * den,
        ;
        assert((j + 1) * den - j * den == den) by (nonlinear_arith);
        lemma_mix_is_between(hi, bands[j + 2]@[c] as int, 0, den);
        assert(den * lo + den * (hi - lo) == den * hi) by (nonlinear_arith);
    }
}

/// One band, or one LED, shows the first band.
pub proof fn law_with_nothing_to_blend_the_first_band_shows(
    bands: Seq<[u8; 3]>,
    leds: int,
    i: int,
    c: int,
)
    requires
        bands.len() == 1 || bands.len() > 1 && leds == 1,
    ensures
        led_channel(bands, leds, i, c) == bands[0]@[c],
{
}

} // verus!
