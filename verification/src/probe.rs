//! What a probe of a source found: whether it failed, opened and stayed silent,
//! or delivered something.
//!
//! Loopback legitimately delivers nothing while the endpoint is idle, and so
//! does a MIDI port with nobody playing, so silence is not by itself a fault.

use vstd::prelude::*;

use crate::order::{in_order, stable_order, Descending};
use crate::source::SourceKind;

verus! {

/// What arrived from an audio source.
#[derive(Clone, Copy, Debug, PartialEq, Eq, Structural)]
pub struct AudioProbe {
    pub samples: u64,
    pub frames: u64,
}

/// A sum that stays where it is at the end of the range.
pub open spec fn capped(n: int) -> int {
    if n <= u64::MAX {
        n
    } else {
        u64::MAX as int
    }
}

impl AudioProbe {
    /// Nothing has arrived yet.
    pub fn new() -> (probe: Self)
        ensures
            probe == (AudioProbe { samples: 0, frames: 0 }),
    {
        AudioProbe { samples: 0, frames: 0 }
    }

    /// Take note of a block of samples, and of whether it completed an analysis
    /// frame. Both are asked about every time, and separately: the device
    /// delivering samples and the analyser completing a frame are different
    /// failures with different causes. Tells whether anything arrived.
    pub fn record(&mut self, block: usize, framed: bool) -> (arrived: bool)
        ensures
            arrived == (block > 0),
            block == 0 ==> *final(self) == *old(self),
            block > 0 ==> {
                &&& final(self).samples == capped(old(self).samples + block)
                &&& final(self).frames == if framed {
                    capped(old(self).frames + 1)
                } else {
                    old(self).frames as int
                }
            },
    {
        if block == 0 {
            return false;
        }
        self.samples = if (block as u64) > u64::MAX - self.samples {
            u64::MAX
        } else {
            self.samples + block as u64
        };
        if framed && self.frames < u64::MAX {
            self.frames += 1;
        }
        true
    }
}

/// What there is to say about an audio source after a probe.
#[derive(Clone, Copy, Debug, PartialEq, Eq, Structural)]
pub enum Heard {
    /// The stream failed while it was listened to.
    Failed,
    /// It opened and delivered nothing, as an idle output does.
    IdleLoopback,
    /// It opened and delivered nothing, which a capture endpoint never should.
    SilentCapture,
    /// Samples arrived and all of them were silent.
    DigitalSilence,
    /// Something is coming through.
    Sound,
}

/// What there is to say about an audio source after a probe.
pub fn audio_verdict(failed: bool, samples: u64, silent: bool, kind: SourceKind) -> (verdict: Heard)
    ensures
        verdict == if failed {
            Heard::Failed
        } else if samples == 0 {
            if kind == SourceKind::Loopback {
                Heard::IdleLoopback
            } else {
                Heard::SilentCapture
            }
        } else if silent {
            Heard::DigitalSilence
        } else {
            Heard::Sound
        },
{
    if failed {
        Heard::Failed
    } else if samples == 0 {
        if kind == SourceKind::Loopback {
            Heard::IdleLoopback
        } else {
            Heard::SilentCapture
        }
    } else if silent {
        Heard::DigitalSilence
    } else {
        Heard::Sound
    }
}

impl Heard {
    /// What is said about it, after an empty line.
    pub open spec fn text(self) -> Seq<char> {
        match self {
            Heard::Failed => "  The stream failed while probing: "@,
            Heard::IdleLoopback =>
                "  Stream opened but delivered nothing. WASAPI loopback is idle when the\n  output endpoint is idle — play some audio and probe again. If a DAW\n  is driving this device over ASIO, nothing will ever arrive here;\n  probe the interface's input instead, or send MIDI with --midi."@,
            Heard::SilentCapture =>
                "  Stream opened but delivered nothing, which a capture endpoint should\n  never do — it sends silence when idle. Check Windows microphone\n  privacy settings, and that nothing else holds the device."@,
            Heard::DigitalSilence =>
                "  Samples arrived but all were silent (digital silence is still delivered)."@,
            Heard::Sound => "  loudest bands"@,
        }
    }

    /// What is said about it, after an empty line.
    pub fn say(self) -> (out: &'static str)
        ensures
            out@ == self.text(),
    {
        match self {
            Heard::Failed => "  The stream failed while probing: ",
            Heard::IdleLoopback =>
                "  Stream opened but delivered nothing. WASAPI loopback is idle when the\n  output endpoint is idle — play some audio and probe again. If a DAW\n  is driving this device over ASIO, nothing will ever arrive here;\n  probe the interface's input instead, or send MIDI with --midi.",
            Heard::SilentCapture =>
                "  Stream opened but delivered nothing, which a capture endpoint should\n  never do — it sends silence when idle. Check Windows microphone\n  privacy settings, and that nothing else holds the device.",
            Heard::DigitalSilence =>
                "  Samples arrived but all were silent (digital silence is still delivered).",
            Heard::Sound => "  loudest bands",
        }
    }
}

/// How many of the loudest bands are listed.
pub const LOUDEST: usize = 5;

/// Whether a list is the front of the order of some levels, the loudest first
/// and equal ones from the bottom up.
pub open spec fn leads(list: Seq<usize>, order: Seq<usize>) -> bool {
    list == order.take(if order.len() < LOUDEST {
        order.len() as int
    } else {
        LOUDEST as int
    })
}

/// The loudest bands, given by rank, the loudest first.
pub fn loudest(levels: &[Descending]) -> (list: Vec<usize>)
    ensures
        exists|order: Seq<usize>| #[trigger] in_order(levels@, order) && leads(list@, order),
{
    let order = stable_order(levels);
    let ghost whole = order@;
    let mut list: Vec<usize> = Vec::new();
    let mut i: usize = 0;
    while i < order.len() && i < LOUDEST
        invariant
            i <= order@.len(),
            i <= LOUDEST,
            order@ == whole,
            list@ == order@.take(i as int),
        decreases LOUDEST - i,
    {
        list.push(order[i]);
        i += 1;
        assert(list@ =~= order@.take(i as int));
    }
    assert(in_order(levels@, whole) && leads(list@, whole));
    list
}

/// What there is to say about a MIDI port after a probe.
#[derive(Clone, Copy, Debug, PartialEq, Eq, Structural)]
pub enum Played {
    /// The port opened and no notes arrived.
    Nothing,
    /// Notes arrive, all of them outside the range being shown.
    OutOfRange,
    /// Notes arrive and show.
    Notes,
}

/// What there is to say about a MIDI port after a probe: whether nothing arrives
/// at all, or what arrives is filtered out.
pub fn midi_verdict(lit: usize, out_of_range: u32) -> (verdict: Played)
    ensures
        verdict == if lit > 0 {
            Played::Notes
        } else if out_of_range > 0 {
            Played::OutOfRange
        } else {
            Played::Nothing
        },
{
    if lit == 0 && out_of_range == 0 {
        Played::Nothing
    } else if lit == 0 {
        Played::OutOfRange
    } else {
        Played::Notes
    }
}

impl Played {
    /// What is said about it, after an empty line.
    pub open spec fn text(self) -> Seq<char> {
        match self {
            Played::Nothing =>
                "  The port opened but no notes arrived.\n  · From a keyboard: check it is this port and not another one it also\n    presents, and that nothing else has the port open.\n  · From FL Studio: the MIDI Out plugin sends to a MIDI *output*, and this\n    listens on a MIDI *input* — the two only meet through a virtual cable.\n    Install loopMIDI, create a port, enable it under Options -> MIDI\n    settings -> Output, note the port number it is given, and set the MIDI\n    Out plugin's Port to that number.\n  · If a channel filter is set, everything on the other fifteen is dropped\n    before it is ever counted. Probe again without --channel."@,
            Played::OutOfRange =>
                "  Notes are arriving, but all of them are outside the range being shown.\n  Widen the note range in the editor, or transpose what is being played."@,
            Played::Notes => ""@,
        }
    }

    /// What is said about it, after an empty line.
    pub fn say(self) -> (out: &'static str)
        ensures
            out@ == self.text(),
    {
        match self {
            Played::Nothing =>
                "  The port opened but no notes arrived.\n  · From a keyboard: check it is this port and not another one it also\n    presents, and that nothing else has the port open.\n  · From FL Studio: the MIDI Out plugin sends to a MIDI *output*, and this\n    listens on a MIDI *input* — the two only meet through a virtual cable.\n    Install loopMIDI, create a port, enable it under Options -> MIDI\n    settings -> Output, note the port number it is given, and set the MIDI\n    Out plugin's Port to that number.\n  · If a channel filter is set, everything on the other fifteen is dropped\n    before it is ever counted. Probe again without --channel.",
            Played::OutOfRange =>
                "  Notes are arriving, but all of them are outside the range being shown.\n  Widen the note range in the editor, or transpose what is being played.",
            Played::Notes => "",
        }
    }
}

/// The bands that are listed are the loudest, the loudest first: five of them, or
/// all where there are fewer, none louder than the one before it, and none left
/// out that is louder than one that is listed.
pub proof fn law_the_loudest_bands_lead(
    levels: Seq<Descending>,
    order: Seq<usize>,
    list: Seq<usize>,
    i: int,
    band: usize,
)
    requires
        in_order(levels, order),
        leads(list, order),
        levels.len() <= usize::MAX,
        0 <= i < list.len(),
        band < levels.len(),
        !list.contains(band),
    ensures
        list.len() == 5,
        list[i] < levels.len(),
        levels[band as int].0 <= levels[list[i] as int].0,
        i > 0 ==> levels[list[i] as int].0 <= levels[list[i - 1] as int].0,
{
    assert(order.contains(band as int as usize));
    let p = choose|p: int| 0 <= p < order.len() && order[p] == band;
    if p < list.len() {
        assert(list[p] == band);
    }
    assert(list[i] == order[i]);
    crate::order::law_descending_numbers_go_down(levels, order, i, p);
    if i > 0 {
        assert(list[i - 1] == order[i - 1]);
        crate::order::law_descending_numbers_go_down(levels, order, i - 1, i);
    }
}

} // verus!
