//! Which notes are sounding: the MIDI half of what the analyser does for audio.
//!
//! Notes map onto the strip's axis, velocity onto level. The configured note
//! range is stretched across the whole axis, one grid point per semitone, so in
//! MIDI mode the axis is positions rather than pitches.
//!
//! A note holds at its velocity while the key is down and releases when it
//! comes up, with the sustain pedal latching notes exactly as a piano does.
//! This module keeps the gates; the envelopes that follow them are the
//! application's.

use vstd::prelude::*;

use super::Message;
use crate::text::{decimal, push_decimal};

verus! {

/// MIDI has 128 notes, and that is not a number that will ever change.
pub const NOTE_COUNT: usize = 128;

/// A0, the bottom of an 88-key piano.
pub const DEFAULT_LOW: u8 = 21;

/// C8, the top of an 88-key piano.
pub const DEFAULT_HIGH: u8 = 108;

/// The narrowest range worth stretching across a wall. Below an octave the
/// strip becomes a handful of enormous bars and stops reading as pitch at all.
pub const MIN_SPAN: u8 = 12;

/// What the editor can change about which notes sound.
#[derive(Clone, Copy, Debug, PartialEq, Eq, Structural)]
pub struct MidiConfig {
    /// Note at the left end of the axis.
    pub low_note: u8,
    /// Note at the right end.
    pub high_note: u8,
    /// Honour the sustain pedal. Off makes a held pedal do nothing, which is
    /// what you want when a controller sends one by accident.
    pub sustain: bool,
}

impl Default for MidiConfig {
    fn default() -> (cfg: Self)
        ensures
            cfg == (MidiConfig { low_note: DEFAULT_LOW, high_note: DEFAULT_HIGH, sustain: true }),
    {
        MidiConfig { low_note: DEFAULT_LOW, high_note: DEFAULT_HIGH, sustain: true }
    }
}

impl MidiConfig {
    /// The bottom of the usable range: the lower of the two notes, with room
    /// for an octave above it.
    pub open spec fn low(self) -> int {
        let lo = if self.low_note <= self.high_note {
            self.low_note as int
        } else {
            self.high_note as int
        };
        if lo <= 127 - MIN_SPAN {
            lo
        } else {
            127 - MIN_SPAN
        }
    }

    /// The top of the usable range: the higher of the two notes, at least an
    /// octave above the bottom and inside MIDI's 128.
    pub open spec fn high(self) -> int {
        let hi = if self.low_note <= self.high_note {
            self.high_note as int
        } else {
            self.low_note as int
        };
        if hi < self.low() + MIN_SPAN {
            self.low() + MIN_SPAN
        } else if hi > 127 {
            127
        } else {
            hi
        }
    }

    /// The range as it can actually be used: ordered, inside MIDI's 0..127, and
    /// at least an octave wide. Hostile numbers are clamped rather than trusted.
    pub fn range(&self) -> (range: (u8, u8))
        ensures
            range.0 == self.low(),
            range.1 == self.high(),
            range.0 + MIN_SPAN <= range.1 <= 127,
    {
        let (lo, hi) = if self.low_note <= self.high_note {
            (self.low_note, self.high_note)
        } else {
            (self.high_note, self.low_note)
        };
        let lo: u8 = if lo <= 127 - MIN_SPAN {
            lo
        } else {
            127 - MIN_SPAN
        };
        let hi: u8 = if hi < lo + MIN_SPAN {
            lo + MIN_SPAN
        } else if hi > 127 {
            127
        } else {
            hi
        };
        (lo, hi)
    }

    /// Grid points: one per semitone in the range.
    pub fn points(&self) -> (n: usize)
        ensures
            n == self.high() - self.low() + 1,
            MIN_SPAN < n <= NOTE_COUNT,
    {
        let (lo, hi) = self.range();
        (hi - lo) as usize + 1
    }
}

/// The twelve pitch classes.
pub open spec fn pitch_class(note: u8) -> Seq<char> {
    let n = note % 12;
    if n == 0 {
        "C"@
    } else if n == 1 {
        "C#"@
    } else if n == 2 {
        "D"@
    } else if n == 3 {
        "D#"@
    } else if n == 4 {
        "E"@
    } else if n == 5 {
        "F"@
    } else if n == 6 {
        "F#"@
    } else if n == 7 {
        "G"@
    } else if n == 8 {
        "G#"@
    } else if n == 9 {
        "A"@
    } else if n == 10 {
        "A#"@
    } else {
        "B"@
    }
}

/// The octave a note is in, where middle C starts the fourth.
pub open spec fn octave(note: u8) -> Seq<char> {
    if note < 12 {
        "-1"@
    } else {
        decimal((note / 12 - 1) as nat)
    }
}

/// Note name with octave, in the convention where middle C (note 60) is C4.
pub fn note_name(note: u8) -> (name: String)
    ensures
        name@ == pitch_class(note) + octave(note),
{
    let mut name = String::new();
    match note % 12 {
        0 => name.append("C"),
        1 => name.append("C#"),
        2 => name.append("D"),
        3 => name.append("D#"),
        4 => name.append("E"),
        5 => name.append("F"),
        6 => name.append("F#"),
        7 => name.append("G"),
        8 => name.append("G#"),
        9 => name.append("A"),
        10 => name.append("A#"),
        _ => name.append("B"),
    }
    assert(name@ =~= pitch_class(note));
    if note < 12 {
        name.append("-1");
    } else {
        push_decimal(&mut name, (note / 12 - 1) as u128);
    }
    name
}

/// The keys and the pedal, as far as they decide what sounds.
pub ghost struct Keys {
    pub low: int,
    pub high: int,
    /// The one channel listened to, or all of them.
    pub channel: Option<u8>,
    pub sustain: bool,
    /// Velocity each note is holding at, zero when released.
    pub gate: Seq<u8>,
    /// Keys physically down.
    pub held: Seq<bool>,
    /// Keys that are up while the pedal holds their note.
    pub latched: Seq<bool>,
    pub pedal: bool,
    /// Notes struck outside the range.
    pub missed: u32,
}

impl Keys {
    /// What every sequence of messages keeps: 128 notes, a range inside them at
    /// least an octave wide, and nothing sounding without a reason. A key that
    /// is down sounds; a note that sounds is held by its key or by the pedal,
    /// and the pedal holds only while it is down, only keys that are up, and
    /// only where it is honoured.
    pub open spec fn wf(self) -> bool {
        &&& 0 <= self.low
        &&& self.low + MIN_SPAN <= self.high <= 127
        &&& self.gate.len() == NOTE_COUNT
        &&& self.held.len() == NOTE_COUNT
        &&& self.latched.len() == NOTE_COUNT
        &&& self.pedal ==> self.sustain
        &&& match self.channel {
            Some(c) => c < 16,
            None => true,
        }
        &&& forall|n: int|
            #![trigger self.gate[n]]
            #![trigger self.held[n]]
            #![trigger self.latched[n]]
            0 <= n < NOTE_COUNT ==> {
                &&& self.held[n] ==> self.gate[n] > 0 && !self.latched[n]
                &&& self.gate[n] > 0 ==> self.held[n] || self.latched[n]
                &&& self.latched[n] ==> self.pedal
                &&& self.held[n] || self.latched[n] ==> self.low <= n <= self.high
            }
    }

    /// Every key up, nothing held, the pedal up.
    pub open spec fn silenced(self) -> Keys {
        Keys {
            gate: Seq::new(NOTE_COUNT as nat, |n: int| 0u8),
            held: Seq::new(NOTE_COUNT as nat, |n: int| false),
            latched: Seq::new(NOTE_COUNT as nat, |n: int| false),
            pedal: false,
            ..self
        }
    }

    /// A key struck. Outside the range it is dropped rather than piled onto the
    /// end bar, and counted.
    pub open spec fn struck(self, note: u8, velocity: u8) -> Keys {
        if note < self.low || note > self.high {
            Keys {
                missed: if self.missed < u32::MAX {
                    (self.missed + 1) as u32
                } else {
                    self.missed
                },
                ..self
            }
        } else {
            Keys {
                gate: self.gate.update(note as int, velocity),
                held: self.held.update(note as int, true),
                latched: self.latched.update(note as int, false),
                ..self
            }
        }
    }

    /// A key released. The pedal keeps its note.
    pub open spec fn released(self, note: u8) -> Keys {
        if note < self.low || note > self.high {
            self
        } else if self.pedal {
            Keys {
                held: self.held.update(note as int, false),
                latched: self.latched.update(note as int, true),
                ..self
            }
        } else {
            Keys {
                held: self.held.update(note as int, false),
                gate: self.gate.update(note as int, 0),
                ..self
            }
        }
    }

    /// The pedal moved. Pressing it does nothing where it is not honoured;
    /// lifting it releases what it held.
    pub open spec fn pedalled(self, down: bool) -> Keys {
        if down {
            if self.sustain {
                Keys { pedal: true, ..self }
            } else {
                self
            }
        } else {
            Keys {
                pedal: false,
                gate: Seq::new(
                    NOTE_COUNT as nat,
                    |n: int|
                        if self.latched[n] {
                            0
                        } else {
                            self.gate[n]
                        },
                ),
                latched: Seq::new(NOTE_COUNT as nat, |n: int| false),
                ..self
            }
        }
    }

    /// What one message does.
    pub open spec fn after(self, msg: Message) -> Keys {
        if self.channel is Some && self.channel->0 != msg.channel_of() {
            self
        } else if msg.kind_of() == Message::NOTE_ON && msg.data2 > 0 {
            self.struck(msg.data1, msg.data2)
        } else if msg.kind_of() == Message::NOTE_ON || msg.kind_of() == Message::NOTE_OFF {
            self.released(msg.data1)
        } else if msg.kind_of() == Message::CONTROL_CHANGE {
            if msg.data1 == Message::CC_SUSTAIN {
                self.pedalled(msg.data2 >= 64)
            } else if msg.data1 == Message::CC_ALL_SOUND_OFF || msg.data1
                == Message::CC_ALL_NOTES_OFF {
                self.silenced()
            } else {
                self
            }
        } else {
            self
        }
    }

    /// What a run of messages does.
    pub open spec fn after_all(self, msgs: Seq<Message>) -> Keys
        decreases msgs.len(),
    {
        if msgs.len() == 0 {
            self
        } else {
            self.after_all(msgs.drop_last()).after(msgs.last())
        }
    }

    /// What listening to another channel does: what was held on the old one is
    /// released. The same channel changes nothing.
    pub open spec fn listening(self, channel: Option<u8>) -> Keys {
        if channel == self.channel {
            self
        } else {
            Keys { channel, ..self.silenced() }
        }
    }

    /// What a new configuration does. A moved range cuts everything: a note
    /// left outside it would otherwise reappear when the range widened back. A
    /// pedal that is no longer honoured lets go of what it held.
    pub open spec fn configured(self, cfg: MidiConfig) -> Keys {
        let moved = cfg.low() != self.low || cfg.high() != self.high;
        let ranged = if moved {
            Keys { low: cfg.low(), high: cfg.high(), missed: 0, ..self.silenced() }
        } else {
            self
        };
        let held = Keys { sustain: cfg.sustain, ..ranged };
        if !cfg.sustain && held.pedal {
            held.pedalled(false)
        } else {
            held
        }
    }
}

/// The channel a request stands for: one of the sixteen, or all of them where
/// it names none of those.
pub open spec fn channel_request(channel: Option<usize>) -> Option<u8> {
    match channel {
        Some(c) => if c < 16 {
            Some(c as u8)
        } else {
            None
        },
        None => None,
    }
}

/// The channel a request stands for.
pub fn sanitise_channel(channel: Option<usize>) -> (c: Option<u8>)
    ensures
        c == channel_request(channel),
{
    match channel {
        Some(c) => if c < 16 {
            Some(c as u8)
        } else {
            None
        },
        None => None,
    }
}

/// Live note state.
pub struct NoteEngine {
    low: u8,
    high: u8,
    channel: Option<u8>,
    sustain: bool,
    gate: Vec<u8>,
    held: Vec<bool>,
    latched: Vec<bool>,
    pedal: bool,
    out_of_range: u32,
}

impl View for NoteEngine {
    type V = Keys;

    closed spec fn view(&self) -> Keys {
        Keys {
            low: self.low as int,
            high: self.high as int,
            channel: self.channel,
            sustain: self.sustain,
            gate: self.gate@,
            held: self.held@,
            latched: self.latched@,
            pedal: self.pedal,
            missed: self.out_of_range,
        }
    }
}

fn zeros() -> (v: Vec<u8>)
    ensures
        v@ == Seq::new(NOTE_COUNT as nat, |n: int| 0u8),
{
    let mut v: Vec<u8> = Vec::new();
    while v.len() < NOTE_COUNT
        invariant
            v@.len() <= NOTE_COUNT,
            v@ == Seq::new(v@.len(), |n: int| 0u8),
        decreases NOTE_COUNT - v@.len(),
    {
        v.push(0);
        assert(v@ =~= Seq::new(v@.len(), |n: int| 0u8));
    }
    v
}

fn falses() -> (v: Vec<bool>)
    ensures
        v@ == Seq::new(NOTE_COUNT as nat, |n: int| false),
{
    let mut v: Vec<bool> = Vec::new();
    while v.len() < NOTE_COUNT
        invariant
            v@.len() <= NOTE_COUNT,
            v@ == Seq::new(v@.len(), |n: int| false),
        decreases NOTE_COUNT - v@.len(),
    {
        v.push(false);
        assert(v@ =~= Seq::new(v@.len(), |n: int| false));
    }
    v
}

impl NoteEngine {
    /// A silent keyboard over the configured range.
    pub fn new(cfg: &MidiConfig, channel: Option<usize>) -> (engine: Self)
        ensures
            engine@.wf(),
            engine@.low == cfg.low(),
            engine@.high == cfg.high(),
            engine@.channel == channel_request(channel),
            engine@.sustain == cfg.sustain,
            engine@ == engine@.silenced(),
            engine@.missed == 0,
    {
        let (low, high) = cfg.range();
        let engine = NoteEngine {
            low,
            high,
            channel: sanitise_channel(channel),
            sustain: cfg.sustain,
            gate: zeros(),
            held: falses(),
            latched: falses(),
            pedal: false,
            out_of_range: 0,
        };
        engine
    }

    /// The notes at the two ends of the axis.
    pub fn range(&self) -> (range: (u8, u8))
        ensures
            range.0 == self@.low,
            range.1 == self@.high,
    {
        (self.low, self.high)
    }

    /// The velocity a note is holding at, zero when released.
    pub fn gate(&self, note: u8) -> (velocity: u8)
        requires
            self@.wf(),
            note < NOTE_COUNT,
        ensures
            velocity == self@.gate[note as int],
    {
        self.gate[note as usize]
    }

    /// Notes seen outside the configured range, counted so the editor can say
    /// so instead of leaving the user staring at a dark strip.
    pub fn out_of_range(&self) -> (n: u32)
        ensures
            n == self@.missed,
    {
        self.out_of_range
    }

    /// Apply a channel voice message. Anything else is ignored.
    pub fn handle(&mut self, msg: Message)
        requires
            old(self)@.wf(),
        ensures
            final(self)@ == old(self)@.after(msg),
            final(self)@.wf(),
    {
        proof {
            lemma_after_keeps_wf(self@, msg);
        }
        match self.channel {
            Some(c) => {
                if c != msg.channel() {
                    return;
                }
            },
            None => {},
        }
        let kind: u8 = msg.kind();
        if kind == Message::NOTE_ON && msg.data2 > 0 {
            self.note_on(msg.data1, msg.data2);
        } else if kind == Message::NOTE_ON || kind == Message::NOTE_OFF {
            // A note-on at velocity 0 is a note-off. Every sequencer uses this,
            // so treating it as a silent note-on would leave notes stuck on.
            self.note_off(msg.data1);
        } else if kind == Message::CONTROL_CHANGE {
            if msg.data1 == Message::CC_SUSTAIN {
                self.set_pedal(msg.data2 >= 64);
            } else if msg.data1 == Message::CC_ALL_SOUND_OFF || msg.data1
                == Message::CC_ALL_NOTES_OFF {
                self.silence();
            }
        }
    }

    /// Apply messages in the order they arrived.
    pub fn handle_all(&mut self, msgs: &[Message])
        requires
            old(self)@.wf(),
        ensures
            final(self)@ == old(self)@.after_all(msgs@),
            final(self)@.wf(),
    {
        let mut i: usize = 0;
        while i < msgs.len()
            invariant
                i <= msgs@.len(),
                self@.wf(),
                self@ == old(self)@.after_all(msgs@.take(i as int)),
            decreases msgs@.len() - i,
        {
            proof {
                assert(msgs@.take(i + 1).drop_last() =~= msgs@.take(i as int));
            }
            self.handle(msgs[i]);
            i += 1;
        }
        assert(msgs@.take(i as int) =~= msgs@);
    }

    /// Install a new configuration. Returns true when the grid changed shape,
    /// which is what tells the caller its renderer has to be rebuilt and its
    /// envelopes cut.
    pub fn set_config(&mut self, cfg: &MidiConfig) -> (moved: bool)
        requires
            old(self)@.wf(),
        ensures
            moved == (cfg.low() != old(self)@.low || cfg.high() != old(self)@.high),
            final(self)@ == old(self)@.configured(*cfg),
            final(self)@.wf(),
    {
        let (low, high) = cfg.range();
        let moved = low != self.low || high != self.high;
        if moved {
            self.low = low;
            self.high = high;
            self.out_of_range = 0;
            self.silence();
        }
        self.sustain = cfg.sustain;
        if !cfg.sustain && self.pedal {
            self.set_pedal(false);
        }
        moved
    }

    /// Listen to another channel. What was held on the old one is released.
    pub fn set_channel(&mut self, channel: Option<usize>)
        requires
            old(self)@.wf(),
        ensures
            final(self)@.wf(),
            final(self)@ == old(self)@.listening(channel_request(channel)),
    {
        let next = sanitise_channel(channel);
        let same = match next {
            Some(c) => match self.channel {
                Some(d) => c == d,
                None => false,
            },
            None => self.channel.is_none(),
        };
        if !same {
            self.channel = next;
            self.silence();
        }
    }

    /// Drop every note. For a source switch, where carrying state over would
    /// strand whatever was held when the port changed.
    pub fn reset(&mut self)
        requires
            old(self)@.wf(),
        ensures
            final(self)@.wf(),
            final(self)@ == (Keys { missed: 0, ..old(self)@.silenced() }),
    {
        self.silence();
        self.out_of_range = 0;
    }

    fn note_on(&mut self, note: u8, velocity: u8)
        requires
            old(self)@.wf(),
        ensures
            final(self)@ == old(self)@.struck(note, velocity),
    {
        if note < self.low || note > self.high {
            self.out_of_range = self.out_of_range.saturating_add(1);
            return;
        }
        let n: usize = note as usize;
        self.gate[n] = velocity;
        self.held[n] = true;
        self.latched[n] = false;
    }

    fn note_off(&mut self, note: u8)
        requires
            old(self)@.wf(),
        ensures
            final(self)@ == old(self)@.released(note),
    {
        if note < self.low || note > self.high {
            return;
        }
        let n: usize = note as usize;
        self.held[n] = false;
        if self.pedal {
            self.latched[n] = true;
        } else {
            self.gate[n] = 0;
        }
    }

    fn set_pedal(&mut self, down: bool)
        requires
            old(self).gate@.len() == NOTE_COUNT,
            old(self).latched@.len() == NOTE_COUNT,
        ensures
            final(self)@ == old(self)@.pedalled(down),
    {
        if down {
            if self.sustain {
                self.pedal = true;
            }
            return;
        }
        self.pedal = false;
        let mut n: usize = 0;
        while n < NOTE_COUNT
            invariant
                n <= NOTE_COUNT,
                self.gate@.len() == NOTE_COUNT,
                self.latched@.len() == NOTE_COUNT,
                forall|k: int|
                    0 <= k < NOTE_COUNT ==> self.gate@[k] == if k < n && old(self).latched@[k] {
                        0
                    } else {
                        old(self).gate@[k]
                    },
                forall|k: int|
                    0 <= k < NOTE_COUNT ==> self.latched@[k] == (k >= n && old(self).latched@[k]),
                !self.pedal,
                self.low == old(self).low,
                self.high == old(self).high,
                self.channel == old(self).channel,
                self.sustain == old(self).sustain,
                self.held == old(self).held,
                self.out_of_range == old(self).out_of_range,
            decreases NOTE_COUNT - n,
        {
            if self.latched[n] {
                self.latched[n] = false;
                self.gate[n] = 0;
            }
            n += 1;
        }
        proof {
            let want = old(self)@.pedalled(false);
            assert(self.gate@ =~= want.gate);
            assert(self.latched@ =~= want.latched);
        }
    }

    /// Release everything.
    fn silence(&mut self)
        ensures
            final(self)@ == old(self)@.silenced(),
    {
        self.gate = zeros();
        self.held = falses();
        self.latched = falses();
        self.pedal = false;
    }
}

proof fn lemma_after_keeps_wf(keys: Keys, msg: Message)
    requires
        keys.wf(),
    ensures
        keys.after(msg).wf(),
{
    broadcast use vstd::seq_lib::group_seq_properties;

}

/// No message leaves a note without a reason to sound: the invariant holds
/// after every message there is.
pub proof fn law_every_message_keeps_the_keyboard_consistent(keys: Keys, msg: Message)
    requires
        keys.wf(),
    ensures
        keys.after(msg).wf(),
{
    lemma_after_keeps_wf(keys, msg);
}

/// No note is stuck: with the pedal up, a note that sounds is a key that is
/// down.
pub proof fn law_no_note_is_stuck(keys: Keys, note: int)
    requires
        keys.wf(),
        !keys.pedal,
        0 <= note < NOTE_COUNT,
    ensures
        keys.gate[note] > 0 <==> keys.held[note],
{
    assert(keys.latched[note] ==> keys.pedal);
}

/// A note-on at velocity zero is a note-off.
pub proof fn law_a_zero_velocity_note_on_is_a_note_off(keys: Keys, on: Message, off: Message)
    requires
        on.kind_of() == Message::NOTE_ON,
        on.data2 == 0,
        off.kind_of() == Message::NOTE_OFF,
        off.channel_of() == on.channel_of(),
        off.data1 == on.data1,
    ensures
        keys.after(on) == keys.after(off),
{
}

/// A channel filter ignores the others.
pub proof fn law_other_channels_change_nothing(keys: Keys, msg: Message, channel: u8)
    requires
        keys.channel == Some(channel),
        msg.channel_of() != channel,
    ensures
        keys.after(msg) == keys,
{
}

/// The pedal holds a released note at its velocity, and lifting the pedal
/// releases it.
pub proof fn law_the_pedal_holds_a_released_note(keys: Keys, note: u8)
    requires
        keys.wf(),
        keys.pedal,
        keys.low <= note <= keys.high,
    ensures
        keys.released(note).gate[note as int] == keys.gate[note as int],
        keys.released(note).pedalled(false).gate[note as int] == 0,
        !keys.released(note).pedalled(false).held[note as int],
{
}

/// Without the pedal, a released note stops.
pub proof fn law_a_released_note_stops(keys: Keys, note: u8)
    requires
        keys.wf(),
        !keys.pedal,
        keys.low <= note <= keys.high,
    ensures
        keys.released(note).gate[note as int] == 0,
{
}

/// A struck note sounds at its velocity, and no other note changes.
pub proof fn law_a_struck_note_sounds(keys: Keys, note: u8, velocity: u8, other: int)
    requires
        keys.wf(),
        keys.low <= note <= keys.high,
        0 <= other < NOTE_COUNT,
        other != note,
    ensures
        keys.struck(note, velocity).gate[note as int] == velocity,
        keys.struck(note, velocity).gate[other] == keys.gate[other],
        keys.struck(note, velocity).missed == keys.missed,
{
}

/// A note outside the range lights nothing and is counted.
pub proof fn law_a_note_outside_the_range_is_only_counted(keys: Keys, note: u8, velocity: u8)
    requires
        note < keys.low || note > keys.high,
        keys.missed < u32::MAX,
    ensures
        keys.struck(note, velocity).gate == keys.gate,
        keys.struck(note, velocity).held == keys.held,
        keys.struck(note, velocity).missed == keys.missed + 1,
{
}

/// Where the pedal is not honoured it never goes down.
pub proof fn law_an_ignored_pedal_never_goes_down(keys: Keys, msg: Message)
    requires
        keys.wf(),
        !keys.sustain,
    ensures
        !keys.after(msg).pedal,
{
    lemma_after_keeps_wf(keys, msg);
    assert(keys.after(msg).sustain == keys.sustain);
}

/// Narrowing the range does not strand a sounding note: after any move, nothing
/// sounds, and nothing comes back when the range widens again.
pub proof fn law_moving_the_range_strands_nothing(
    keys: Keys,
    first: MidiConfig,
    second: MidiConfig,
    note: int,
)
    requires
        keys.wf(),
        first.low() != keys.low || first.high() != keys.high,
        0 <= note < NOTE_COUNT,
    ensures
        keys.configured(first).gate[note] == 0,
        keys.configured(first).configured(second).gate[note] == 0,
{
}

/// Whether a keyboard listens to the channel of a message.
pub open spec fn listens(keys: Keys, msg: Message) -> bool {
    keys.channel is None || keys.channel == Some((msg.status % 16) as u8)
}

/// A key struck at any velocity sounds at that velocity and is held, and nothing
/// else about the keyboard changes but that the pedal lets go of that one note.
pub proof fn law_a_note_on_sounds_at_its_velocity(keys: Keys, msg: Message, other: int)
    requires
        keys.wf(),
        listens(keys, msg),
        msg.status / 16 == 9,
        msg.data2 > 0,
        keys.low <= msg.data1 <= keys.high,
        0 <= other < NOTE_COUNT,
        other != msg.data1,
    ensures
        keys.after(msg).gate[msg.data1 as int] == msg.data2,
        keys.after(msg).held[msg.data1 as int],
        !keys.after(msg).latched[msg.data1 as int],
        keys.after(msg).gate[other] == keys.gate[other],
        keys.after(msg).held[other] == keys.held[other],
        keys.after(msg).latched[other] == keys.latched[other],
        keys.after(msg).pedal == keys.pedal,
        keys.after(msg).missed == keys.missed,
{
    lemma_kind_and_channel(msg);
}

/// A note-off, or a note-on at velocity zero, lets its key up: the note stops,
/// or goes on as it was for as long as the pedal is down. No other note changes.
pub proof fn law_a_note_off_lets_the_key_up(keys: Keys, msg: Message, other: int)
    requires
        keys.wf(),
        listens(keys, msg),
        msg.status / 16 == 8 || msg.status / 16 == 9 && msg.data2 == 0,
        keys.low <= msg.data1 <= keys.high,
        0 <= other < NOTE_COUNT,
        other != msg.data1,
    ensures
        !keys.after(msg).held[msg.data1 as int],
        keys.after(msg).gate[msg.data1 as int] == if keys.pedal {
            keys.gate[msg.data1 as int]
        } else {
            0
        },
        keys.after(msg).latched[msg.data1 as int] == keys.pedal,
        keys.after(msg).gate[other] == keys.gate[other],
        keys.after(msg).held[other] == keys.held[other],
        keys.after(msg).latched[other] == keys.latched[other],
        keys.after(msg).pedal == keys.pedal,
        keys.after(msg).missed == keys.missed,
{
    lemma_kind_and_channel(msg);
}

/// The pedal goes down at sixty-four and up below it. Going down, it changes no
/// note, and where it is not honoured it does nothing; going up, it leaves
/// sounding exactly the keys that are down.
pub proof fn law_the_pedal_turns_at_half_way(keys: Keys, msg: Message, note: int)
    requires
        keys.wf(),
        listens(keys, msg),
        msg.status / 16 == 11,
        msg.data1 == 64,
        0 <= note < NOTE_COUNT,
    ensures
        msg.data2 >= 64 ==> keys.after(msg) == (Keys { pedal: keys.sustain, ..keys }),
        msg.data2 < 64 ==> {
            &&& !keys.after(msg).pedal
            &&& keys.after(msg).held == keys.held
            &&& keys.after(msg).missed == keys.missed
            &&& !keys.after(msg).latched[note]
            &&& keys.after(msg).gate[note] == if keys.held[note] {
                keys.gate[note]
            } else {
                0
            }
        },
{
    lemma_kind_and_channel(msg);
}

/// All sound off and all notes off leave nothing sounding, nothing held and the
/// pedal up.
pub proof fn law_all_off_is_all_off(keys: Keys, msg: Message, note: int)
    requires
        keys.wf(),
        listens(keys, msg),
        msg.status / 16 == 11,
        msg.data1 == 120 || msg.data1 == 123,
        0 <= note < NOTE_COUNT,
    ensures
        keys.after(msg).gate[note] == 0,
        !keys.after(msg).held[note],
        !keys.after(msg).latched[note],
        !keys.after(msg).pedal,
{
    lemma_kind_and_channel(msg);
}

/// A note-on outside the range is counted, as far as there is anything to count
/// with, and lights nothing; a note-off there does nothing at all.
pub proof fn law_a_key_outside_the_range_lights_nothing(keys: Keys, msg: Message)
    requires
        keys.wf(),
        listens(keys, msg),
        msg.status / 16 == 8 || msg.status / 16 == 9,
        msg.data1 < keys.low || msg.data1 > keys.high,
    ensures
        keys.after(msg) == (Keys {
            missed: if msg.status / 16 == 9 && msg.data2 > 0 && keys.missed < u32::MAX {
                (keys.missed + 1) as u32
            } else {
                keys.missed
            },
            ..keys
        }),
{
    lemma_kind_and_channel(msg);
}

/// Nothing but notes and the three controllers that concern them changes
/// anything, and nothing on a channel that is not listened to does.
pub proof fn law_everything_else_is_ignored(keys: Keys, msg: Message)
    requires
        keys.wf(),
        !listens(keys, msg) || msg.status / 16 != 8 && msg.status / 16 != 9 && msg.status / 16
            != 11 || msg.status / 16 == 11 && msg.data1 != 64 && msg.data1 != 120 && msg.data1
            != 123,
    ensures
        keys.after(msg) == keys,
{
    lemma_kind_and_channel(msg);
}

proof fn lemma_kind_and_channel(msg: Message)
    ensures
        msg.kind_of() == 16 * (msg.status / 16),
        msg.channel_of() == msg.status % 16,
{
}

/// Two notes at least an octave apart and inside MIDI's 128 are the range as they
/// are, whichever way round they come.
pub proof fn law_a_usable_range_is_used_as_it_is(cfg: MidiConfig, low: u8, high: u8)
    requires
        low + 12 <= high <= 127,
        cfg.low_note == low && cfg.high_note == high || cfg.low_note == high && cfg.high_note
            == low,
    ensures
        cfg.low() == low,
        cfg.high() == high,
{
}

/// Any two notes give a range inside MIDI's 128 at least an octave wide, which
/// holds every note between the two that MIDI has, and is no wider than it has to
/// be: an octave, or the two notes.
pub proof fn law_any_range_is_usable(cfg: MidiConfig, note: u8)
    ensures
        0 <= cfg.low(),
        cfg.low() + 12 <= cfg.high() <= 127,
        note <= 127 && (cfg.low_note <= note <= cfg.high_note || cfg.high_note <= note
            <= cfg.low_note) ==> cfg.low() <= note <= cfg.high(),
        cfg.low() == cfg.low_note || cfg.low() == cfg.high_note || cfg.low() == 115,
        cfg.high() == cfg.low_note || cfg.high() == cfg.high_note || cfg.high() == 127
            || cfg.high() == cfg.low() + 12,
{
}

/// A configuration that leaves the range where it is leaves every key where it
/// is: what is held goes on, and only a pedal that is no longer honoured lets go.
pub proof fn law_a_range_left_alone_cuts_nothing(keys: Keys, cfg: MidiConfig, note: int)
    requires
        keys.wf(),
        cfg.low() == keys.low,
        cfg.high() == keys.high,
        0 <= note < NOTE_COUNT,
    ensures
        keys.configured(cfg).held == keys.held,
        keys.configured(cfg).missed == keys.missed,
        keys.configured(cfg).sustain == cfg.sustain,
        keys.configured(cfg).pedal == (keys.pedal && cfg.sustain),
        keys.held[note] || cfg.sustain ==> keys.configured(cfg).gate[note] == keys.gate[note],
        !keys.held[note] && !cfg.sustain ==> keys.configured(cfg).gate[note] == 0,
{
}

/// A range that moves is the new one, with nothing held and nothing counted.
pub proof fn law_a_moved_range_starts_over(keys: Keys, cfg: MidiConfig, note: int)
    requires
        keys.wf(),
        cfg.low() != keys.low || cfg.high() != keys.high,
        0 <= note < NOTE_COUNT,
    ensures
        keys.configured(cfg).low == cfg.low(),
        keys.configured(cfg).high == cfg.high(),
        keys.configured(cfg).missed == 0,
        !keys.configured(cfg).held[note],
        keys.configured(cfg).gate[note] == 0,
        !keys.configured(cfg).pedal,
        keys.configured(cfg).sustain == cfg.sustain,
        keys.configured(cfg).channel == keys.channel,
{
}

/// Messages are played one after the other, in the order they came: playing two
/// runs is playing the one and then the other, and a run of one is that one.
pub proof fn law_messages_are_played_in_order(keys: Keys, first: Seq<Message>, second: Seq<Message>)
    ensures
        keys.after_all(first + second) == keys.after_all(first).after_all(second),
        first.len() == 1 ==> keys.after_all(first) == keys.after(first[0]),
        first.len() == 0 ==> keys.after_all(first) == keys,
    decreases second.len(),
{
    reveal_with_fuel(Keys::after_all, 2);
    if second.len() == 0 {
        assert(first + second =~= first);
    } else {
        law_messages_are_played_in_order(keys, first, second.drop_last());
        assert((first + second).drop_last() =~= first + second.drop_last());
        assert((first + second).last() == second.last());
    }
}

/// Another channel is listened to from then on, with nothing of the old one left
/// sounding; the same channel goes on as it was.
pub proof fn law_another_channel_starts_silent(keys: Keys, channel: Option<u8>, note: int)
    requires
        keys.wf(),
        0 <= note < NOTE_COUNT,
    ensures
        keys.listening(channel).channel == channel,
        keys.listening(keys.channel) == keys,
        channel != keys.channel ==> keys.listening(channel).gate[note] == 0
            && !keys.listening(channel).held[note] && !keys.listening(channel).pedal,
        keys.listening(channel).low == keys.low && keys.listening(channel).high == keys.high,
        keys.listening(channel).missed == keys.missed,
{
}

/// One of the sixteen channels is that channel, and anything else is all of them.
pub proof fn law_only_sixteen_channels_can_be_asked_for(channel: usize)
    ensures
        channel < 16 ==> channel_request(Some(channel)) is Some && channel_request(
            Some(channel),
        )->0 == channel,
        channel >= 16 ==> channel_request(Some(channel)) is None,
        channel_request(None) is None,
{
}

/// An octave up is the same name an octave higher, and no two notes of an octave
/// share a name.
pub proof fn law_names_repeat_every_octave(note: u8, other: u8)
    requires
        note <= 115,
    ensures
        pitch_class((note + 12) as u8) == pitch_class(note),
        note >= 12 ==> octave(note) == decimal((note / 12 - 1) as nat),
        note >= 12 ==> octave((note + 12) as u8) == decimal((note / 12) as nat),
        pitch_class(note) == pitch_class(other) ==> note % 12 == other % 12,
{
    reveal_strlit("C");
    reveal_strlit("C#");
    reveal_strlit("D");
    reveal_strlit("D#");
    reveal_strlit("E");
    reveal_strlit("F");
    reveal_strlit("F#");
    reveal_strlit("G");
    reveal_strlit("G#");
    reveal_strlit("A");
    reveal_strlit("A#");
    reveal_strlit("B");
    assert((note + 12) % 12 == note % 12 && (note + 12) / 12 == note / 12 + 1);
    let a = pitch_class(note);
    let b = pitch_class(other);
    if a == b {
        assert(a[0] == b[0] && a.len() == b.len());
    }
}

} // verus!
