//! A link that goes nowhere, for developing without hardware.
//!
//! Expands frames exactly as the firmware does and keeps the resulting pixels
//! for inspection, so the whole pipeline can be exercised and watched before a
//! board is wired up. The caller renders [`MockLink::leds`] however it likes;
//! [`MockLink::render_ansi`] produces a truecolour strip for a terminal.

use vstd::prelude::*;

use super::expand_bands_to_leds;
use super::led_channel;
use super::protocol;
use super::protocol::TestPattern;
use super::Link;
use crate::text::{decimal, push_decimal};

verus! {

/// A strip that exists only in memory.
pub struct MockLink {
    leds: Vec<[u8; 3]>,
    /// Encoded bytes of the last frame, so wire size is visible even with no
    /// device attached.
    last_frame_bytes: usize,
    frames: u64,
    scratch: Vec<u8>,
}

/// The first LED a column of a preview stands for.
pub open spec fn column_start(leds: int, width: int, col: int) -> int {
    col * leds / width
}

/// One past the last LED a column of a preview stands for. A column always
/// stands for at least one.
pub open spec fn column_end(leds: int, width: int, col: int) -> int {
    let start = column_start(leds, width, col);
    let next = column_start(leds, width, col + 1);
    let end = if next > start + 1 {
        next
    } else {
        start + 1
    };
    if end < leds {
        end
    } else {
        leds
    }
}

/// The sum of one channel over a run of LEDs.
pub open spec fn channel_sum(leds: Seq<[u8; 3]>, start: int, end: int, c: int) -> int
    decreases end - start,
{
    if start >= end {
        0
    } else {
        channel_sum(leds, start, end - 1, c) + leds[end - 1]@[c]
    }
}

/// One channel of a column: the average over the LEDs it stands for.
pub open spec fn column_channel(leds: Seq<[u8; 3]>, width: int, col: int, c: int) -> int {
    let start = column_start(leds.len() as int, width, col);
    let end = column_end(leds.len() as int, width, col);
    channel_sum(leds, start, end, c) / (end - start)
}

/// One column as the terminal is told to paint it.
pub open spec fn column_text(leds: Seq<[u8; 3]>, width: int, col: int) -> Seq<char> {
    "\x1b[48;2;"@ + decimal(column_channel(leds, width, col, 0) as nat) + ";"@ + decimal(
        column_channel(leds, width, col, 1) as nat,
    ) + ";"@ + decimal(column_channel(leds, width, col, 2) as nat) + "m "@
}

/// The first columns of a preview.
pub open spec fn columns_text(leds: Seq<[u8; 3]>, width: int, cols: int) -> Seq<char>
    decreases cols,
{
    if cols <= 0 {
        Seq::empty()
    } else {
        columns_text(leds, width, cols - 1) + column_text(leds, width, cols - 1)
    }
}

/// A whole preview, with the colour switched off after it.
pub open spec fn preview_text(leds: Seq<[u8; 3]>, width: int) -> Seq<char> {
    if leds.len() == 0 || width == 0 {
        Seq::empty()
    } else {
        columns_text(leds, width, width) + "\x1b[0m"@
    }
}

proof fn lemma_column(leds: int, width: int, col: int)
    requires
        0 < leds,
        0 <= col < width,
    ensures
        0 <= column_start(leds, width, col) < column_end(leds, width, col) <= leds,
        0 <= column_start(leds, width, col + 1) <= leds,
{
    assert(0 <= col * leds <= (width - 1) * leds) by (nonlinear_arith)
        requires
            0 < leds,
            0 <= col < width,
    ;
    assert((width - 1) * leds < width * leds) by (nonlinear_arith)
        requires
            0 < leds,
    ;
    assert(0 <= (col + 1) * leds <= width * leds) by (nonlinear_arith)
        requires
            0 < leds,
            0 <= col < width,
    ;
    vstd::arithmetic::div_mod::lemma_div_pos_is_pos(col * leds, width);
    vstd::arithmetic::div_mod::lemma_div_pos_is_pos((col + 1) * leds, width);
    vstd::arithmetic::div_mod::lemma_multiply_divide_lt(col * leds, width, leds);
    assert(width * leds == leds * width) by (nonlinear_arith);
    vstd::arithmetic::div_mod::lemma_multiply_divide_le((col + 1) * leds, width, leds);
}

proof fn lemma_channel_sum(leds: Seq<[u8; 3]>, start: int, end: int, c: int)
    requires
        0 <= start <= end <= leds.len(),
        0 <= c < 3,
    ensures
        0 <= channel_sum(leds, start, end, c) <= 255 * (end - start),
    decreases end - start,
{
    if start < end {
        lemma_channel_sum(leds, start, end - 1, c);
    }
}

/// The average of one channel over a run of LEDs.
fn average(leds: &[[u8; 3]], start: usize, end: usize, c: usize) -> (v: u8)
    requires
        start < end <= leds@.len(),
        c < 3,
    ensures
        v == channel_sum(leds@, start as int, end as int, c as int) / (end - start),
{
    let mut sum: u128 = 0;
    let mut i: usize = start;
    while i < end
        invariant
            start <= i <= end <= leds@.len(),
            c < 3,
            sum == channel_sum(leds@, start as int, i as int, c as int),
            sum <= 255 * (i - start),
        decreases end - i,
    {
        sum += leds[i][c] as u128;
        i += 1;
    }
    let n: u128 = (end - start) as u128;
    proof {
        vstd::arithmetic::div_mod::lemma_multiply_divide_le(sum as int, n as int, 255);
        vstd::arithmetic::div_mod::lemma_div_pos_is_pos(sum as int, n as int);
    }
    (sum / n) as u8
}

/// Append one column of a preview.
fn push_column(out: &mut String, leds: &[[u8; 3]], width: usize, col: usize)
    requires
        leds@.len() > 0,
        col < width,
    ensures
        final(out)@ == old(out)@ + column_text(leds@, width as int, col as int),
{
    let n: usize = leds.len();
    proof {
        lemma_column(n as int, width as int, col as int);
        assert(col * n <= usize::MAX * usize::MAX && (col + 1) * n <= usize::MAX * usize::MAX)
            by (nonlinear_arith)
            requires
                0 <= col < usize::MAX,
                0 <= n <= usize::MAX,
        ;
        assert(usize::MAX * usize::MAX <= u128::MAX) by (nonlinear_arith)
            requires
                usize::MAX <= u64::MAX,
        ;
    }
    let start: usize = ((col as u128) * (n as u128) / (width as u128)) as usize;
    let next: usize = ((col as u128 + 1) * (n as u128) / (width as u128)) as usize;
    let end: usize = if next > start + 1 {
        next
    } else {
        start + 1
    };
    let end: usize = if end < n {
        end
    } else {
        n
    };
    out.append("\x1b[48;2;");
    push_decimal(out, average(leds, start, end, 0) as u128);
    out.append(";");
    push_decimal(out, average(leds, start, end, 1) as u128);
    out.append(";");
    push_decimal(out, average(leds, start, end, 2) as u128);
    out.append("m ");
    assert(out@ =~= old(out)@ + column_text(leds@, width as int, col as int));
}

/// Append a preview of a strip: a line of truecolour blocks, downsampled to
/// `width` characters by averaging so it is faithful at any terminal size.
pub fn push_preview(out: &mut String, leds: &[[u8; 3]], width: usize)
    ensures
        final(out)@ == old(out)@ + preview_text(leds@, width as int),
{
    if leds.len() == 0 || width == 0 {
        assert(out@ =~= old(out)@ + preview_text(leds@, width as int));
        return;
    }
    let mut col: usize = 0;
    assert(out@ =~= old(out)@ + columns_text(leds@, width as int, 0));
    while col < width
        invariant
            col <= width,
            leds@.len() > 0,
            out@ == old(out)@ + columns_text(leds@, width as int, col as int),
        decreases width - col,
    {
        push_column(out, leds, width, col);
        col += 1;
        assert(out@ =~= old(out)@ + columns_text(leds@, width as int, col as int));
    }
    out.append("\x1b[0m");
    assert(out@ =~= old(out)@ + preview_text(leds@, width as int));
}

impl MockLink {
    /// The strip as the firmware would drive it.
    pub closed spec fn strip(&self) -> Seq<[u8; 3]> {
        self.leds@
    }

    /// Frames accepted so far.
    pub closed spec fn frame_count(&self) -> u64 {
        self.frames
    }

    /// Bytes the last accepted frame took on the wire.
    pub closed spec fn wire_size(&self) -> usize {
        self.last_frame_bytes
    }

    /// A dark strip of the given length.
    pub fn new(led_count: usize) -> (link: Self)
        ensures
            link.strip() == Seq::new(led_count as nat, |i: int| [0u8, 0, 0]),
            link.frame_count() == 0,
            link.wire_size() == 0,
    {
        let mut leds: Vec<[u8; 3]> = Vec::new();
        let mut i: usize = 0;
        while i < led_count
            invariant
                i <= led_count,
                leds@ == Seq::new(i as nat, |i: int| [0u8, 0, 0]),
            decreases led_count - i,
        {
            leds.push([0, 0, 0]);
            i += 1;
            assert(leds@ =~= Seq::new(i as nat, |i: int| [0u8, 0, 0]));
        }
        MockLink { leds, last_frame_bytes: 0, frames: 0, scratch: Vec::new() }
    }

    /// The strip as the firmware would drive it.
    pub fn leds(&self) -> (leds: &[[u8; 3]])
        ensures
            leds@ == self.strip(),
    {
        self.leds.as_slice()
    }

    /// Frames accepted so far.
    pub fn frames(&self) -> (n: u64)
        ensures
            n == self.frame_count(),
    {
        self.frames
    }

    /// Bytes the last frame occupied on the wire.
    pub fn last_frame_bytes(&self) -> (n: usize)
        ensures
            n == self.wire_size(),
    {
        self.last_frame_bytes
    }

    /// Render the strip as a line of truecolour blocks, downsampled to `width`
    /// characters by averaging so the preview is faithful at any terminal size.
    pub fn render_ansi(&self, width: usize) -> (out: String)
        ensures
            out@ == preview_text(self.strip(), width as int),
    {
        let mut out = String::new();
        push_preview(&mut out, self.leds.as_slice(), width);
        assert(out@ =~= preview_text(self.strip(), width as int));
        out
    }

    fn fill(&mut self, colour: [u8; 3])
        ensures
            final(self).strip() == Seq::new(old(self).strip().len(), |i: int| colour),
            final(self).frame_count() == old(self).frame_count(),
            final(self).wire_size() == old(self).wire_size(),
    {
        let n: usize = self.leds.len();
        let mut i: usize = 0;
        while i < n
            invariant
                i <= n,
                n == self.leds@.len(),
                n == old(self).leds@.len(),
                forall|k: int| 0 <= k < i ==> self.leds@[k] == colour,
                self.frames == old(self).frames,
                self.last_frame_bytes == old(self).last_frame_bytes,
            decreases n - i,
        {
            self.leds[i] = colour;
            i += 1;
        }
        assert(self.leds@ =~= Seq::new(n as nat, |i: int| colour));
    }
}

/// What the mock link says it is.
pub open spec fn mock_description(leds: nat) -> Seq<char> {
    "mock link — "@ + decimal(leds) + " LEDs, nothing is driven"@
}

/// The colour a mock strip shows for a diagnostic pattern.
pub open spec fn pattern_colour(pattern: TestPattern) -> [u8; 3] {
    match pattern {
        TestPattern::Rgb => [255, 0, 0],
        TestPattern::Chase => [0, 0, 0],
        TestPattern::White => [255, 255, 255],
    }
}

impl Link for MockLink {
    fn describe(&self) -> (out: String)
        ensures
            out@ == mock_description(self.strip().len()),
    {
        let mut out = String::from_str("mock link — ");
        push_decimal(&mut out, self.leds.len() as u128);
        out.append(" LEDs, nothing is driven");
        out
    }

    fn max_points(&self) -> (n: usize)
        ensures
            n == 85,
    {
        protocol::max_bands()
    }

    fn send(&mut self, bands: &[[u8; 3]]) -> (res: Result<bool, String>)
        ensures
            match res {
                Ok(sent) => {
                    &&& sent
                    &&& bands@.len() <= 85
                    &&& final(self).wire_size() == 3 * bands@.len() + protocol::OVERHEAD
                    &&& final(self).frame_count() as int == (old(self).frame_count() + 1) % 0x1_0000_0000_0000_0000
                    &&& final(self).strip().len() == old(self).strip().len()
                    &&& bands@.len() == 0 ==> final(self).strip() == old(self).strip()
                    &&& bands@.len() > 0 ==> forall|i: int, c: int|
                        0 <= i < final(self).strip().len() && 0 <= c < 3
                            ==> (#[trigger] final(self).strip()[i]@[c]) as int == led_channel(
                            bands@,
                            final(self).strip().len() as int,
                            i,
                            c,
                        )
                },
                Err(e) => {
                    &&& bands@.len() > 85
                    &&& e@ == protocol::too_many_bands(bands@.len())
                    &&& final(self).strip() == old(self).strip()
                    &&& final(self).frame_count() == old(self).frame_count()
                    &&& final(self).wire_size() == old(self).wire_size()
                },
            },
    {
        // Encoded for real so framing limits are enforced here too: a band count
        // the protocol cannot carry must fail with or without hardware.
        match protocol::encode_band_rgb(bands, &mut self.scratch) {
            Ok(_) => {},
            Err(e) => {
                return Err(e);
            },
        }
        proof {
            protocol::law_frame_size(
                protocol::Kind::BandRgb.byte(),
                protocol::band_payload(bands@),
            );
        }
        self.last_frame_bytes = self.scratch.len();
        expand_bands_to_leds(bands, self.leds.as_mut_slice());
        self.frames = self.frames.wrapping_add(1);
        Ok(true)
    }

    fn send_test(&mut self, pattern: TestPattern) -> (res: Result<(), String>)
        ensures
            res is Ok,
            final(self).strip() == Seq::new(
                old(self).strip().len(),
                |i: int| pattern_colour(pattern),
            ),
            final(self).frame_count() == old(self).frame_count(),
            final(self).wire_size() == old(self).wire_size(),
    {
        let colour: [u8; 3] = match pattern {
            TestPattern::Rgb => [255, 0, 0],
            TestPattern::Chase => [0, 0, 0],
            TestPattern::White => [255, 255, 255],
        };
        assert(colour@ =~= pattern_colour(pattern)@);
        self.fill(colour);
        Ok(())
    }

    fn blackout(&mut self) -> (res: Result<(), String>)
        ensures
            res is Ok,
            final(self).strip() == Seq::new(old(self).strip().len(), |i: int| [0u8, 0, 0]),
            final(self).frame_count() == old(self).frame_count(),
            final(self).wire_size() == old(self).wire_size(),
    {
        self.fill([0, 0, 0]);
        Ok(())
    }
}

/// The columns of a preview that is no wider than the strip divide it between
/// them: the first starts at the first LED, every one starts where the one before
/// it ends, and the last ends at the last LED.
pub proof fn law_columns_divide_the_strip(leds: int, width: int, col: int)
    requires
        0 < width <= leds,
        0 <= col < width,
    ensures
        column_start(leds, width, 0) == 0,
        column_start(leds, width, col) < column_end(leds, width, col),
        column_end(leds, width, col) == column_start(leds, width, col + 1),
        column_end(leds, width, width - 1) == leds,
{
    lemma_column(leds, width, col);
    lemma_column(leds, width, width - 1);
    vstd::arithmetic::div_mod::lemma_div_basics(width);
    assert((col + 1) * leds == col * leds + leds) by (nonlinear_arith);
    assert(0 * leds == 0) by (nonlinear_arith);
    vstd::arithmetic::div_mod::lemma_fundamental_div_mod(col * leds, width);
    vstd::arithmetic::div_mod::lemma_mod_bound(col * leds, width);
    lemma_one_more(col * leds, leds, width);
    assert(width * leds == leds * width) by (nonlinear_arith);
    vstd::arithmetic::div_mod::lemma_div_multiples_vanish(leds, width);
    lemma_one_more((width - 1) * leds, leds, width);
    assert((width - 1) * leds + leds == width * leds) by (nonlinear_arith);
}

proof fn lemma_one_more(at: int, leds: int, width: int)
    by (nonlinear_arith)
    requires
        0 < width <= leds,
        at >= 0,
    ensures
        (at + leds) / width >= at / width + 1,
{
}

/// A column shows something between the darkest and the brightest LED it stands
/// for, channel by channel.
pub proof fn law_a_column_shows_its_leds(
    leds: Seq<[u8; 3]>,
    width: int,
    col: int,
    c: int,
    least: int,
    most: int,
)
    requires
        0 < leds.len(),
        0 <= col < width,
        0 <= c < 3,
        forall|k: int|
            column_start(leds.len() as int, width, col) <= k < column_end(
                leds.len() as int,
                width,
                col,
            ) ==> least <= (#[trigger] leds[k])@[c] <= most,
    ensures
        least <= column_channel(leds, width, col, c) <= most,
{
    let n = leds.len() as int;
    lemma_column(n, width, col);
    let start = column_start(n, width, col);
    let end = column_end(n, width, col);
    lemma_sum_bounds(leds, start, end, c, least, most);
    let count = end - start;
    let sum = channel_sum(leds, start, end, c);
    assert(least <= sum / count <= most) by (nonlinear_arith)
        requires
            count > 0,
            least * count <= sum <= most * count,
    ;
}

proof fn lemma_sum_bounds(leds: Seq<[u8; 3]>, start: int, end: int, c: int, least: int, most: int)
    requires
        start <= end,
        forall|k: int| start <= k < end ==> least <= (#[trigger] leds[k])@[c] <= most,
    ensures
        least * (end - start) <= channel_sum(leds, start, end, c) <= most * (end - start),
    decreases end - start,
{
    if start < end {
        lemma_sum_bounds(leds, start, end - 1, c, least, most);
        assert(least <= leds[end - 1]@[c] <= most);
        assert(least * (end - start) == least * (end - 1 - start) + least) by (nonlinear_arith);
        assert(most * (end - start) == most * (end - 1 - start) + most) by (nonlinear_arith);
    } else {
        assert(least * (end - start) == 0 && most * (end - start) == 0) by (nonlinear_arith)
            requires
                end == start,
        ;
    }
}

/// A sum over a run of LEDs is the sum over any two parts of it, and over one LED
/// it is that LED: every LED counts, and counts once.
pub proof fn law_every_led_of_a_run_counts_once(
    leds: Seq<[u8; 3]>,
    start: int,
    mid: int,
    end: int,
    c: int,
)
    requires
        start <= mid <= end,
    ensures
        channel_sum(leds, start, end, c) == channel_sum(leds, start, mid, c) + channel_sum(
            leds,
            mid,
            end,
            c,
        ),
        channel_sum(leds, start, start + 1, c) == leds[start]@[c],
    decreases end - mid,
{
    assert(channel_sum(leds, start, start, c) == 0);
    if mid < end {
        law_every_led_of_a_run_counts_once(leds, start, mid, end - 1, c);
    }
}

/// A column shows the average of its LEDs, rounded down.
pub proof fn law_a_column_is_an_average(leds: Seq<[u8; 3]>, width: int, col: int, c: int)
    requires
        0 < leds.len(),
        0 <= col < width,
    ensures
        ({
            let start = column_start(leds.len() as int, width, col);
            let end = column_end(leds.len() as int, width, col);
            let shown = column_channel(leds, width, col, c);
            (end - start) * shown <= channel_sum(leds, start, end, c) < (end - start) * (shown + 1)
        }),
{
    let n = leds.len() as int;
    lemma_column(n, width, col);
    let start = column_start(n, width, col);
    let end = column_end(n, width, col);
    let count = end - start;
    let sum = channel_sum(leds, start, end, c);
    vstd::arithmetic::div_mod::lemma_fundamental_div_mod(sum, count);
    vstd::arithmetic::div_mod::lemma_mod_bound(sum, count);
    assert(count * (sum / count + 1) == count * (sum / count) + count) by (nonlinear_arith);
}

} // verus!
