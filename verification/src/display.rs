//! The terminal display: the bottom layer's bars over the composited strip.

use vstd::prelude::*;
use vstd::string::*;

use crate::link::mock::{preview_text, push_preview};
use crate::text::{decimal, push_decimal};

verus! {

/// How many rows the bars have.
pub const BAR_HEIGHT: usize = 20;

/// How high a bar stands, in quarters of a row.
#[derive(Clone, Copy, Debug, PartialEq, Eq, Structural)]
pub struct Bar {
    /// Rounded down.
    pub full: u32,
    /// Rounded up.
    pub touched: u32,
}

/// How much of a row a bar fills.
pub open spec fn shade(bar: Bar, row: int) -> char {
    if bar.full >= 4 * row + 3 {
        '█'
    } else if bar.full >= 4 * row + 2 {
        '▓'
    } else if bar.full >= 4 * row + 1 {
        '▒'
    } else if bar.touched > 4 * row {
        '░'
    } else {
        ' '
    }
}

/// The first bars of a row.
pub open spec fn cells(bars: Seq<Bar>, row: int, n: int) -> Seq<char>
    decreases n,
{
    if n <= 0 {
        Seq::empty()
    } else {
        cells(bars, row, n - 1).push(shade(bars[n - 1], row)).push(' ')
    }
}

/// The rows above one, the top one first.
pub open spec fn rows_above(bars: Seq<Bar>, row: int) -> Seq<char>
    decreases BAR_HEIGHT - row,
{
    if row >= BAR_HEIGHT {
        Seq::empty()
    } else {
        rows_above(bars, row + 1) + cells(bars, row, bars.len() as int) + "\n"@
    }
}

/// The first marks of the axis under the bars.
pub open spec fn axis(n: int) -> Seq<char>
    decreases n,
{
    if n <= 0 {
        Seq::empty()
    } else {
        axis(n - 1) + if (n - 1) % 8 == 0 {
            "┬ "@
        } else {
            "─ "@
        }
    }
}

/// The strip, at the width of the bars so that the two line up.
pub open spec fn strip_line(leds: Seq<[u8; 3]>, bars: int) -> Seq<char> {
    if bars == 0 {
        "\x1b[0m\n"@
    } else {
        preview_text(leds, 2 * bars) + "\n"@
    }
}

/// A count with its noun.
pub open spec fn counted(n: nat, one: Seq<char>, many: Seq<char>) -> Seq<char> {
    decimal(n) + " "@ + if n == 1 {
        one
    } else {
        many
    }
}

/// The line under the strip.
pub open spec fn status_line(
    leds: nat,
    layers: nat,
    devices: nat,
    dropped: nat,
    status: Seq<char>,
) -> Seq<char> {
    "  "@ + decimal(leds) + " LEDs   "@ + counted(layers, "layer"@, "layers"@) + " on "@ + counted(
        devices,
        "device"@,
        "devices"@,
    ) + "   dropped frames: "@ + decimal(dropped) + "   "@ + status + "\x1b[K\n"@
}

/// The whole display. Every one but the first is drawn over the one before it.
pub open spec fn picture(
    bars: Seq<Bar>,
    leds: Seq<[u8; 3]>,
    layers: nat,
    devices: nat,
    dropped: nat,
    status: Seq<char>,
    first: bool,
) -> Seq<char> {
    let rewind = if first {
        Seq::empty()
    } else {
        "\x1b[23A"@
    };
    rewind + rows_above(bars, 0) + axis(bars.len() as int) + "\n"@ + strip_line(
        leds,
        bars.len() as int,
    ) + status_line(leds.len(), layers, devices, dropped, status)
}

fn shade_of(bar: Bar, row: usize) -> (c: char)
    requires
        row < BAR_HEIGHT,
    ensures
        c == shade(bar, row as int),
{
    let base: u32 = 4 * row as u32;
    if bar.full >= base + 3 {
        '█'
    } else if bar.full >= base + 2 {
        '▓'
    } else if bar.full >= base + 1 {
        '▒'
    } else if bar.touched > base {
        '░'
    } else {
        ' '
    }
}

fn push_counted(out: &mut String, n: usize, one: &str, many: &str)
    ensures
        final(out)@ == old(out)@ + counted(n as nat, one@, many@),
{
    push_decimal(out, n as u128);
    out.append(" ");
    if n == 1 {
        out.append(one);
    } else {
        out.append(many);
    }
    assert(out@ =~= old(out)@ + counted(n as nat, one@, many@));
}

fn push_row(out: &mut String, bars: &[Bar], row: usize)
    requires
        row < BAR_HEIGHT,
    ensures
        final(out)@ == old(out)@ + cells(bars@, row as int, bars@.len() as int) + "\n"@,
{
    let mut i: usize = 0;
    assert(out@ =~= old(out)@ + cells(bars@, row as int, 0));
    while i < bars.len()
        invariant
            i <= bars@.len(),
            row < BAR_HEIGHT,
            out@ == old(out)@ + cells(bars@, row as int, i as int),
        decreases bars@.len() - i,
    {
        out.push(shade_of(bars[i], row));
        out.push(' ');
        i += 1;
        assert(out@ =~= old(out)@ + cells(bars@, row as int, i as int));
    }
    out.append("\n");
}

/// Draw the display: the bars of the bottom layer, the strip as the firmware
/// drives it, and one line about the whole.
pub fn draw(
    bars: &[Bar],
    leds: &[[u8; 3]],
    layers: usize,
    devices: usize,
    dropped: u64,
    status: &str,
    first: bool,
) -> (out: String)
    requires
        bars@.len() > 0 ==> leds@.len() > 0,
        2 * bars@.len() <= usize::MAX,
    ensures
        out@ == picture(
            bars@,
            leds@,
            layers as nat,
            devices as nat,
            dropped as nat,
            status@,
            first,
        ),
{
    let mut out = String::new();
    if !first {
        out.append("\x1b[23A");
    }
    let ghost rewind = out@;
    let mut row: usize = BAR_HEIGHT;
    assert(out@ =~= rewind + rows_above(bars@, BAR_HEIGHT as int));
    while row > 0
        invariant
            row <= BAR_HEIGHT,
            out@ == rewind + rows_above(bars@, row as int),
        decreases row,
    {
        row -= 1;
        push_row(&mut out, bars, row);
        assert(out@ =~= rewind + rows_above(bars@, row as int));
    }
    let ghost body = out@;
    let mut i: usize = 0;
    assert(out@ =~= body + axis(0));
    while i < bars.len()
        invariant
            i <= bars@.len(),
            out@ == body + axis(i as int),
        decreases bars@.len() - i,
    {
        if i % 8 == 0 {
            out.append("┬ ");
        } else {
            out.append("─ ");
        }
        i += 1;
        assert(out@ =~= body + axis(i as int));
    }
    out.append("\n");
    let ghost above = out@;
    if bars.len() == 0 {
        out.append("\x1b[0m\n");
    } else {
        push_preview(&mut out, leds, 2 * bars.len());
        out.append("\n");
    }
    assert(out@ =~= above + strip_line(leds@, bars@.len() as int));
    let ghost top = out@;
    out.append("  ");
    push_decimal(&mut out, leds.len() as u128);
    out.append(" LEDs   ");
    push_counted(&mut out, layers, "layer", "layers");
    out.append(" on ");
    push_counted(&mut out, devices, "device", "devices");
    out.append("   dropped frames: ");
    push_decimal(&mut out, dropped as u128);
    out.append("   ");
    out.append(status);
    out.append("\x1b[K\n");
    assert(out@ =~= top + status_line(
        leds@.len(),
        layers as nat,
        devices as nat,
        dropped as nat,
        status@,
    ));
    assert(out@ =~= picture(
        bars@,
        leds@,
        layers as nat,
        devices as nat,
        dropped as nat,
        status@,
        first,
    ));
    out
}

/// A bar fills rows from the bottom: where it fills a row at all, it fills every
/// row below it completely.
pub proof fn law_a_bar_fills_from_the_bottom(bar: Bar, row: int, below: int)
    requires
        bar.full <= bar.touched <= bar.full + 1,
        0 <= below < row,
        shade(bar, row) != ' ',
    ensures
        shade(bar, below) == '█',
{
}

/// A bar stands as high as it is: a row it covers is full, a row it does not
/// reach is empty, and in between every quarter of a row shows.
pub proof fn law_a_bar_stands_as_high_as_it_is(bar: Bar, row: int)
    requires
        0 <= row,
        bar.full <= bar.touched <= bar.full + 1,
    ensures
        bar.full >= 4 * (row + 1) ==> shade(bar, row) == '█',
        bar.touched <= 4 * row ==> shade(bar, row) == ' ',
        bar.full == 4 * row + 3 ==> shade(bar, row) == '█',
        bar.full == 4 * row + 2 ==> shade(bar, row) == '▓',
        bar.full == 4 * row + 1 ==> shade(bar, row) == '▒',
        bar.full == 4 * row && bar.touched > bar.full ==> shade(bar, row) == '░',
{
}

} // verus!
