//! MIDI input: a keyboard, or a sequencer sending notes down a virtual cable.

pub mod notes;
pub mod queue;

use vstd::prelude::*;

use crate::source::{copy_text, devices, endpoints, text_of, DeviceInfo, Endpoint, Selection, Source,
    SourceKind};
use crate::source;
use crate::text::{begins, chars_of, decimal, push_decimal, same, string_of, starts_with};
use queue::{taken, Inbox};

pub use notes::{note_name, MidiConfig, NoteEngine};

verus! {

/// MIDI channels, which is a fixed property of the protocol rather than of any
/// device: a port always carries all sixteen.
pub const CHANNELS: usize = 16;

/// One channel voice message, flattened.
#[derive(Clone, Copy, Debug, PartialEq, Eq, Structural)]
pub struct Message {
    pub status: u8,
    pub data1: u8,
    pub data2: u8,
}

impl Default for Message {
    fn default() -> (m: Self)
        ensures
            m == (Message { status: 0, data1: 0, data2: 0 }),
    {
        Message { status: 0, data1: 0, data2: 0 }
    }
}

impl Message {
    pub const NOTE_OFF: u8 = 0x80;

    pub const NOTE_ON: u8 = 0x90;

    pub const CONTROL_CHANGE: u8 = 0xB0;

    pub const CC_SUSTAIN: u8 = 64;

    pub const CC_ALL_SOUND_OFF: u8 = 120;

    pub const CC_ALL_NOTES_OFF: u8 = 123;

    /// The low half of the status byte.
    pub open spec fn channel_of(self) -> u8 {
        self.status % 16
    }

    /// The high half of the status byte, in place.
    pub open spec fn kind_of(self) -> u8 {
        (self.status - self.status % 16) as u8
    }

    /// 0-based, as everything downstream counts channels.
    pub fn channel(self) -> (c: u8)
        ensures
            c == self.channel_of(),
            c < CHANNELS,
    {
        let status: u8 = self.status;
        assert(status & 0x0F == status % 16) by (bit_vector);
        status & 0x0F
    }

    /// The message type, with the channel masked off.
    pub fn kind(self) -> (k: u8)
        ensures
            k == self.kind_of(),
    {
        let status: u8 = self.status;
        assert(status & 0xF0 == status - status % 16) by (bit_vector);
        status & 0xF0
    }

    /// Whether a key went down. A note-on at velocity zero is a key coming up.
    pub fn is_note_on(self) -> (on: bool)
        ensures
            on == (self.kind_of() == Message::NOTE_ON && self.data2 > 0),
    {
        self.kind() == Message::NOTE_ON && self.data2 > 0
    }
}

/// A data byte of a short message: seven bits, and zero where the message is
/// too short to hold it.
pub open spec fn data_byte(bytes: Seq<u8>, i: int) -> u8 {
    if i < bytes.len() {
        bytes[i] % 128
    } else {
        0
    }
}

/// The channel voice message some bytes hold.
pub open spec fn voice_message(bytes: Seq<u8>) -> Option<Message> {
    if bytes.len() > 0 && 0x80 <= bytes[0] < 0xF0 {
        Some(
            Message {
                status: bytes[0],
                data1: data_byte(bytes, 1),
                data2: data_byte(bytes, 2),
            },
        )
    } else {
        None
    }
}

fn data_at(bytes: &[u8], i: usize) -> (d: u8)
    ensures
        d == data_byte(bytes@, i as int),
{
    if i < bytes.len() {
        let b: u8 = bytes[i];
        assert(b & 0x7F == b % 128) by (bit_vector);
        b & 0x7F
    } else {
        0
    }
}

/// Keep channel voice messages, drop everything else. System messages carry no
/// channel and nothing here reacts to them.
pub fn parse(bytes: &[u8]) -> (msg: Option<Message>)
    ensures
        msg == voice_message(bytes@),
{
    if bytes.len() == 0 {
        return None;
    }
    let status: u8 = bytes[0];
    if status < 0x80 || status >= 0xF0 {
        return None;
    }
    Some(Message { status, data1: data_at(bytes, 1), data2: data_at(bytes, 2) })
}

/// Port ids are prefixed so they can never be confused with an audio device id,
/// which is what makes one [`Source`] able to name both.
pub open spec fn tagged(id: Seq<char>) -> Seq<char> {
    "midi:"@ + id
}

/// A MIDI input as the driver names it. A port that will not say its name has
/// none.
#[derive(Clone, Debug, PartialEq, Eq)]
pub struct Port {
    pub id: String,
    pub name: Option<String>,
}

/// A port that can be listed, as an endpoint: tagged, with all sixteen channels
/// and no sample rate.
pub open spec fn port_endpoint(id: Seq<char>, name: Seq<char>) -> Endpoint {
    Endpoint {
        id: tagged(id),
        name,
        kind: SourceKind::Midi,
        is_default: false,
        sample_rate: None,
        channels: Some(CHANNELS),
    }
}

/// The endpoints of the ports that say their name.
pub open spec fn listable(found: Seq<Port>) -> Seq<Endpoint>
    decreases found.len(),
{
    if found.len() == 0 {
        Seq::empty()
    } else {
        match found.last().name {
            Some(name) => listable(found.drop_last()).push(
                port_endpoint(found.last().id@, name@),
            ),
            None => listable(found.drop_last()),
        }
    }
}

/// Every MIDI input that can be listened to, by name whatever its case. A port
/// that will not say its name is left out.
pub fn ports(found: &[Port]) -> (list: Vec<DeviceInfo>)
    ensures
        exists|from: Seq<usize>| source::arranged(endpoints(list@), listable(found@), from),
{
    let mut tags: Vec<DeviceInfo> = Vec::new();
    let mut i: usize = 0;
    assert(endpoints(tags@) =~= listable(found@.take(0)));
    while i < found.len()
        invariant
            i <= found@.len(),
            endpoints(tags@) == listable(found@.take(i as int)),
        decreases found@.len() - i,
    {
        let ghost was = endpoints(tags@);
        proof {
            assert(found@.take(i + 1).drop_last() =~= found@.take(i as int));
        }
        match &found[i].name {
            Some(name) => {
                let mut id = String::from_str("midi:");
                id.append(found[i].id.as_str());
                tags.push(
                    DeviceInfo {
                        id,
                        name: name.clone(),
                        kind: SourceKind::Midi,
                        is_default: false,
                        sample_rate: None,
                        channels: Some(CHANNELS),
                    },
                );
                assert(endpoints(tags@) =~= was.push(
                    port_endpoint(found@[i as int].id@, name@),
                ));
            },
            None => {},
        }
        i += 1;
    }
    assert(found@.take(i as int) =~= found@);
    devices(&tags)
}

/// A selection's id without the tag, where it has one.
pub open spec fn untagged(id: Seq<char>) -> Seq<char> {
    if begins(id, "midi:"@) {
        id.skip("midi:"@.len() as int)
    } else {
        id
    }
}

/// Whether a port has an id.
pub open spec fn is_port(p: Port, raw: Seq<char>) -> bool {
    p.id@ == raw
}

/// Whether a port has a name.
pub open spec fn is_called(p: Port, raw: Seq<char>) -> bool {
    text_of(p.name) == Some(raw)
}

/// The first port from a place on that has an id.
pub open spec fn first_port(available: Seq<Port>, raw: Seq<char>, from: int) -> Option<int>
    decreases available.len() - from,
{
    if from < 0 || from >= available.len() {
        None
    } else if is_port(available[from], raw) {
        Some(from)
    } else {
        first_port(available, raw, from + 1)
    }
}

/// The first port from a place on that has a name.
pub open spec fn first_called(available: Seq<Port>, raw: Seq<char>, from: int) -> Option<int>
    decreases available.len() - from,
{
    if from < 0 || from >= available.len() {
        None
    } else if is_called(available[from], raw) {
        Some(from)
    } else {
        first_called(available, raw, from + 1)
    }
}

/// The port a selection opens among those available, in the driver's order: the
/// first there is for one without an id, and for one with an id the port that
/// has it, or else the one called so.
pub open spec fn picked(available: Seq<Port>, id: Option<Seq<char>>) -> Option<int> {
    match id {
        Some(id) => match first_port(available, untagged(id), 0) {
            Some(p) => Some(p),
            None => first_called(available, untagged(id), 0),
        },
        None => if available.len() > 0 {
            Some(0)
        } else {
            None
        },
    }
}

/// The name of the port a selection opens.
pub open spec fn resolved_name(available: Seq<Port>, id: Option<Seq<char>>) -> Option<Seq<char>> {
    match picked(available, id) {
        Some(p) => text_of(available[p].name),
        None => None,
    }
}

/// Why nothing can be opened.
pub open spec fn no_port_error(available: Seq<Port>, id: Option<Seq<char>>) -> Seq<char> {
    if available.len() == 0 {
        no_ports_text()
    } else {
        not_available(untagged(id->0))
    }
}

/// Why a port cannot be opened.
pub open spec fn not_available(raw: Seq<char>) -> Seq<char> {
    "MIDI port '"@ + raw + "' is not available — unplugged, or closed?"@
}

fn without_tag(id: &str) -> (raw: String)
    ensures
        raw@ == untagged(id@),
{
    if starts_with(id, "midi:") {
        let chars = chars_of(id);
        proof {
            reveal_strlit("midi:");
        }
        let rest = vstd::slice::slice_subrange(chars.as_slice(), 5, chars.len());
        assert(rest@ =~= id@.skip(5));
        string_of(rest)
    } else {
        id.to_owned()
    }
}

/// The place of the port a selection opens.
fn pick(available: &[Port], source: &Source) -> (place: Option<usize>)
    ensures
        match place {
            Some(p) => picked(available@, source@.id) == Some(p as int) && p < available@.len(),
            None => picked(available@, source@.id) is None,
        },
{
    let raw = match &source.id {
        Some(id) => without_tag(id.as_str()),
        None => {
            return if available.len() > 0 {
                Some(0)
            } else {
                None
            };
        },
    };
    let mut i: usize = 0;
    while i < available.len()
        invariant
            i <= available@.len(),
            source@.id is Some,
            raw@ == untagged(source@.id->0),
            first_port(available@, raw@, 0) == first_port(available@, raw@, i as int),
        decreases available@.len() - i,
    {
        if same(available[i].id.as_str(), raw.as_str()) {
            return Some(i);
        }
        i += 1;
    }
    let mut j: usize = 0;
    while j < available.len()
        invariant
            j <= available@.len(),
            source@.id is Some,
            raw@ == untagged(source@.id->0),
            first_port(available@, raw@, 0) is None,
            first_called(available@, raw@, 0) == first_called(available@, raw@, j as int),
        decreases available@.len() - j,
    {
        match &available[j].name {
            Some(name) => {
                if same(name.as_str(), raw.as_str()) {
                    return Some(j);
                }
            },
            None => {},
        }
        j += 1;
    }
    None
}

/// Choose the port to open among those available.
///
/// A selection without an id takes the first, which is the only sensible
/// default given MIDI has no notion of a system default device. One with an id
/// takes the port that has it. Ids are stable but not eternal: a port recreated
/// under the same name is a different id, and matching the name is what the
/// user meant.
pub fn choose_port(available: &[Port], source: &Source) -> (res: Result<usize, String>)
    ensures
        match res {
            Ok(p) => picked(available@, source@.id) == Some(p as int) && p < available@.len(),
            Err(e) => picked(available@, source@.id) is None && e@ == no_port_error(
                available@,
                source@.id,
            ),
        },
{
    if available.len() == 0 {
        proof {
            lemma_picked(available@, source@.id);
        }
        return Err(no_ports_hint());
    }
    match pick(available, source) {
        Some(p) => Ok(p),
        None => {
            let raw = match &source.id {
                Some(id) => without_tag(id.as_str()),
                None => String::new(),
            };
            let mut out = String::from_str("MIDI port '");
            out.append(raw.as_str());
            out.append("' is not available — unplugged, or closed?");
            Err(out)
        },
    }
}

/// The name of the port a selection would open among those available, or `None`
/// if it names nothing that exists, or a port that will not say its name.
///
/// A MIDI port admits one listener at a time, so a selection that resolves to
/// the port already open must be recognised *before* anything tries to open it
/// again and is refused by its own process. Names rather than ids, because "the
/// first MIDI input" and that port's id are two selections that mean the same
/// port.
pub fn resolve_name(source: &Source, available: &[Port]) -> (name: Option<String>)
    ensures
        text_of(name) == resolved_name(available@, source@.id),
{
    match pick(available, source) {
        Some(p) => copy_text(&available[p].name),
        None => None,
    }
}

proof fn lemma_picked(available: Seq<Port>, id: Option<Seq<char>>)
    ensures
        match picked(available, id) {
            Some(p) => {
                &&& 0 <= p < available.len()
                &&& id matches Some(i) ==> is_port(available[p], untagged(i)) || is_called(
                    available[p],
                    untagged(i),
                )
            },
            None => available.len() == 0 || id is Some,
        },
{
    if let Some(i) = id {
        lemma_first_port(available, untagged(i), 0);
        lemma_first_called(available, untagged(i), 0);
    }
}

proof fn lemma_first_port(available: Seq<Port>, raw: Seq<char>, from: int)
    requires
        0 <= from,
    ensures
        match first_port(available, raw, from) {
            Some(p) => {
                &&& from <= p < available.len()
                &&& is_port(available[p], raw)
                &&& forall|q: int| from <= q < p ==> !is_port(#[trigger] available[q], raw)
            },
            None => forall|q: int|
                from <= q < available.len() ==> !is_port(#[trigger] available[q], raw),
        },
    decreases available.len() - from,
{
    if from < available.len() && !is_port(available[from], raw) {
        lemma_first_port(available, raw, from + 1);
    }
}

proof fn lemma_first_called(available: Seq<Port>, raw: Seq<char>, from: int)
    requires
        0 <= from,
    ensures
        match first_called(available, raw, from) {
            Some(p) => {
                &&& from <= p < available.len()
                &&& is_called(available[p], raw)
                &&& forall|q: int| from <= q < p ==> !is_called(#[trigger] available[q], raw)
            },
            None => forall|q: int|
                from <= q < available.len() ==> !is_called(#[trigger] available[q], raw),
        },
    decreases available.len() - from,
{
    if from < available.len() && !is_called(available[from], raw) {
        lemma_first_called(available, raw, from + 1);
    }
}

/// The port that is named is the port that is opened: where a selection opens a
/// port that says its name, it resolves to that name, and where it resolves to a
/// name, it opens a port called so.
pub proof fn law_the_named_port_is_the_opened_one(
    available: Seq<Port>,
    id: Option<Seq<char>>,
    name: Seq<char>,
)
    ensures
        resolved_name(available, id) == Some(name) <==> exists|p: int|
            picked(available, id) == Some(p) && is_called(#[trigger] available[p], name),
{
    if resolved_name(available, id) == Some(name) {
        let p = picked(available, id)->0;
        assert(picked(available, id) == Some(p) && is_called(available[p], name));
    }
}

/// A listed port is opened by its own entry: the id it is listed under picks the
/// first port the driver gives that id.
pub proof fn law_a_listed_port_is_the_one_opened(available: Seq<Port>, p: int)
    requires
        0 <= p < available.len(),
        forall|q: int| 0 <= q < p ==> (#[trigger] available[q]).id@ != available[p].id@,
    ensures
        picked(available, Some(tagged(available[p].id@))) == Some(p),
{
    law_a_tag_comes_off_again(available[p].id@);
    lemma_first_port(available, available[p].id@, 0);
    assert(is_port(available[p], available[p].id@));
}

/// What to say when nothing is plugged in and nothing has been set up.
pub open spec fn no_ports_text() -> Seq<char> {
    "no MIDI inputs found. A keyboard appears here as soon as it is plugged in. To capture FL Studio's MIDI Out plugin instead, install loopMIDI, create a port in it, then enable that port under FL's Options -> MIDI settings -> Output and set the MIDI Out plugin to its port number — Windows has no built-in way to join a MIDI output to a MIDI input"@
}

/// The message for the case that is not a failure at all: nothing is plugged in
/// and nothing has been set up.
pub fn no_ports_hint() -> (out: String)
    ensures
        out@ == no_ports_text(),
{
    String::from_str(
        "no MIDI inputs found. A keyboard appears here as soon as it is plugged in. To capture FL Studio's MIDI Out plugin instead, install loopMIDI, create a port in it, then enable that port under FL's Options -> MIDI settings -> Output and set the MIDI Out plugin to its port number — Windows has no built-in way to join a MIDI output to a MIDI input",
    )
}

/// Why a port that is there would not open.
pub open spec fn held_elsewhere(name: Seq<char>) -> Seq<char> {
    "could not open MIDI port '"@ + name
        + "'. Windows gives a MIDI input to one application at a time — another one, or a second copy of this engine, may already hold it"@
}

/// The failure worth explaining, because it is the one that actually happens: a
/// MIDI input port admits one listener at a time.
pub fn open_hint(name: &str) -> (out: String)
    ensures
        out@ == held_elsewhere(name@),
{
    let mut out = String::from_str("could not open MIDI port '");
    out.append(name);
    out.append(
        "'. Windows gives a MIDI input to one application at a time — another one, or a second copy of this engine, may already hold it",
    );
    out
}

/// How an open port is described.
pub open spec fn listener_text(name: Seq<char>, channel: Option<usize>) -> Seq<char> {
    name + " [midi] ("@ + match channel {
        Some(c) => "channel "@ + decimal((c + 1) as nat),
        None => "all channels"@,
    } + ")"@
}

/// An open port, described.
pub fn describe_port(name: &str, channel: Option<usize>) -> (out: String)
    ensures
        out@ == listener_text(name@, channel),
{
    let mut out = name.to_owned();
    out.append(" [midi] (");
    match channel {
        Some(c) => {
            out.append("channel ");
            push_decimal(&mut out, c as u128 + 1);
        },
        None => out.append("all channels"),
    }
    out.append(")");
    assert(out@ =~= listener_text(name@, channel));
    out
}

/// An open MIDI input, draining into a queue.
pub struct MidiListener {
    inbox: Inbox,
    /// The selection as it was actually resolved. A request for "the first
    /// port" keeps no id rather than being pinned to whichever port it happened
    /// to find, so the selection survives the port list changing.
    source: Source,
    port_name: String,
}

impl MidiListener {
    /// The selection as resolved.
    pub closed spec fn selection(&self) -> Selection {
        self.source@
    }

    /// The port's name.
    pub closed spec fn name(&self) -> Seq<char> {
        self.port_name@
    }

    /// The messages taken from the port so far, oldest first.
    pub closed spec fn heard(&self) -> Seq<Message> {
        taken(self.inbox)
    }

    /// Listen to a port that has been opened, whose messages arrive in `inbox`.
    pub fn new(source: &Source, port_name: &str, inbox: Inbox) -> (listener: Self)
        ensures
            listener.selection() == (Selection { kind: SourceKind::Midi, ..source@ }),
            listener.name() == port_name@,
            listener.heard() == taken(inbox),
    {
        MidiListener {
            inbox,
            source: Source {
                id: copy_text(&source.id),
                kind: SourceKind::Midi,
                channel: source.channel,
            },
            port_name: port_name.to_owned(),
        }
    }

    /// The port's name.
    pub fn port_name(&self) -> (name: &str)
        ensures
            name@ == self.name(),
    {
        self.port_name.as_str()
    }

    /// The selection as resolved, not as requested.
    pub fn source(&self) -> (source: &Source)
        ensures
            source@ == self.selection(),
    {
        &self.source
    }

    /// Adopt a selection that resolves to this same port: a channel change, or
    /// naming by id what was opened as "the first MIDI input". The connection
    /// is untouched; only what is reported about it moves.
    pub fn reselect(&mut self, source: &Source)
        ensures
            final(self).selection() == (Selection { kind: SourceKind::Midi, ..source@ }),
            final(self).name() == old(self).name(),
            final(self).heard() == old(self).heard(),
    {
        self.source = Source {
            id: copy_text(&source.id),
            kind: SourceKind::Midi,
            channel: source.channel,
        };
    }

    /// Drain queued messages into `out`, returning how many were written. Never
    /// blocks; returns 0 when nothing has arrived, which only the other end
    /// decides.
    pub fn read(&mut self, out: &mut [Message]) -> (n: usize)
        ensures
            n <= old(out)@.len(),
            final(out)@.len() == old(out)@.len(),
            final(out)@.skip(n as int) == old(out)@.skip(n as int),
            final(self).heard() == old(self).heard() + final(out)@.take(n as int),
            final(self).selection() == old(self).selection(),
            final(self).name() == old(self).name(),
    {
        self.inbox.pop_slice(out)
    }

    /// Take one bufferful of messages and play it, saying whether the buffer
    /// was full and more may be waiting. Messages are drained on every pass
    /// rather than on frame boundaries, so a note-on is never held back behind
    /// the envelope clock.
    pub fn play(&mut self, notes: &mut NoteEngine, buf: &mut [Message]) -> (more: bool)
        requires
            old(notes)@.wf(),
        ensures
            final(notes)@.wf(),
            exists|n: int|
                {
                    &&& 0 <= n <= final(buf)@.len()
                    &&& final(notes)@ == #[trigger] old(notes)@.after_all(final(buf)@.take(n))
                    &&& final(self).heard() == old(self).heard() + final(buf)@.take(n)
                    &&& more == (n == final(buf)@.len())
                },
            final(buf)@.len() == old(buf)@.len(),
            final(self).selection() == old(self).selection(),
            final(self).name() == old(self).name(),
    {
        let n: usize = self.inbox.pop_slice(buf);
        let taken = vstd::slice::slice_subrange(&*buf, 0, n);
        assert(taken@ =~= buf@.take(n as int));
        notes.handle_all(taken);
        n == buf.len()
    }

    /// How the open port is described.
    pub fn describe(&self) -> (out: String)
        ensures
            out@ == listener_text(self.name(), self.selection().channel),
    {
        describe_port(self.port_name.as_str(), self.source.channel)
    }

    /// Whether a selection resolves to this same port, so that it is to be
    /// adopted rather than opened.
    pub fn answers_to(&self, source: &Source, available: &[Port]) -> (yes: bool)
        ensures
            yes == (source@.kind == SourceKind::Midi && resolved_name(available@, source@.id)
                == Some(self.name())),
    {
        if source.kind != SourceKind::Midi {
            return false;
        }
        match resolve_name(source, available) {
            Some(name) => same(name.as_str(), self.port_name.as_str()),
            None => false,
        }
    }
}

/// An id that was tagged is untagged to what it was.
pub proof fn law_a_tag_comes_off_again(id: Seq<char>)
    ensures
        untagged(tagged(id)) == id,
{
    reveal_strlit("midi:");
    assert(tagged(id).subrange(0, 5) =~= "midi:"@);
    assert(tagged(id).skip(5) =~= id);
}

/// Every port's id is told apart from an audio one.
pub proof fn law_midi_ids_are_distinguishable(id: Seq<char>, name: Seq<char>)
    ensures
        begins(port_endpoint(id, name).id, "midi:"@),
{
    reveal_strlit("midi:");
    assert(tagged(id).subrange(0, 5) =~= "midi:"@);
}

/// A channel voice message is taken as it came, and what is no such message is
/// not taken. Data are seven bits, and a byte that did not come is zero.
pub proof fn law_a_voice_message_is_taken_as_it_came(bytes: Seq<u8>)
    ensures
        bytes.len() == 0 ==> voice_message(bytes) is None,
        bytes.len() > 0 && (bytes[0] < 0x80 || bytes[0] >= 0xF0) ==> voice_message(bytes) is None,
        bytes.len() > 0 && 0x80 <= bytes[0] < 0xF0 ==> ({
            let msg = voice_message(bytes);
            &&& msg is Some
            &&& (msg->0).status == bytes[0]
            &&& (msg->0).data1 < 128 && (msg->0).data2 < 128
            &&& bytes.len() > 1 && bytes[1] < 128 ==> (msg->0).data1 == bytes[1]
            &&& bytes.len() > 2 && bytes[2] < 128 ==> (msg->0).data2 == bytes[2]
            &&& bytes.len() > 1 && bytes[1] >= 128 ==> (msg->0).data1 + 128 == bytes[1]
            &&& bytes.len() > 2 && bytes[2] >= 128 ==> (msg->0).data2 + 128 == bytes[2]
            &&& bytes.len() <= 1 ==> (msg->0).data1 == 0
            &&& bytes.len() <= 2 ==> (msg->0).data2 == 0
        }),
{
}

/// The channel is the low half of a status byte and the kind the high half: put
/// together they are the byte.
pub proof fn law_a_status_is_its_kind_and_its_channel(msg: Message)
    ensures
        msg.kind_of() + msg.channel_of() == msg.status,
        msg.channel_of() < 16,
        msg.kind_of() % 16 == 0,
{
}

/// A selection without an id opens the first port there is. One with an id opens
/// a port that has it, tagged or not, wherever there is one; failing that, one
/// that is called so; and failing that, none.
pub proof fn law_a_selection_opens_the_port_it_names(available: Seq<Port>, raw: Seq<char>, p: int)
    requires
        0 <= p < available.len(),
        !begins(raw, "midi:"@),
    ensures
        picked(available, None) == Some(0int),
        picked(available, Some(raw)) == picked(available, Some("midi:"@ + raw)),
        picked(available, Some(raw)) is Some ==> ({
            let q = picked(available, Some(raw))->0;
            &&& 0 <= q < available.len()
            &&& available[q].id@ == raw || available[q].name is Some && (available[q].name->0)@
                == raw
        }),
        available[p].id@ == raw ==> ({
            let q = picked(available, Some(raw));
            q is Some && available[q->0].id@ == raw && q->0 <= p
        }),
        available[p].name is Some && (available[p].name->0)@ == raw ==> picked(
            available,
            Some(raw),
        ) is Some,
{
    law_a_tag_comes_off_again(raw);
    lemma_first_port(available, raw, 0);
    lemma_first_called(available, raw, 0);
    assert(is_port(available[p], raw) == (available[p].id@ == raw));
    assert(is_called(available[p], raw) == (available[p].name is Some && (available[p].name->0)@
        == raw));
}

/// Every port that says its name is listed under it, as a MIDI endpoint whose id
/// is the port's behind the tag, and the list is never longer than the ports are.
pub proof fn law_every_port_that_says_its_name_is_listed(found: Seq<Port>, p: int)
    requires
        0 <= p < found.len(),
    ensures
        found[p].name is Some ==> exists|k: int|
            {
                &&& 0 <= k < listable(found).len()
                &&& (#[trigger] listable(found)[k]).id == "midi:"@ + found[p].id@
                &&& listable(found)[k].name == (found[p].name->0)@
                &&& listable(found)[k].kind == SourceKind::Midi
                &&& !listable(found)[k].is_default
                &&& listable(found)[k].sample_rate is None
                &&& listable(found)[k].channels == Some(16usize)
            },
        listable(found).len() <= found.len(),
    decreases found.len(),
{
    let rest = found.drop_last();
    if p == found.len() - 1 {
        if found[p].name is Some {
            assert(listable(found)[listable(rest).len() as int] == port_endpoint(
                found[p].id@,
                (found[p].name->0)@,
            ));
        }
    } else {
        law_every_port_that_says_its_name_is_listed(rest, p);
        assert(rest[p] == found[p]);
        if found[p].name is Some {
            let k = choose|k: int|
                {
                    &&& 0 <= k < listable(rest).len()
                    &&& (#[trigger] listable(rest)[k]).id == "midi:"@ + rest[p].id@
                    &&& listable(rest)[k].name == (rest[p].name->0)@
                    &&& listable(rest)[k].kind == SourceKind::Midi
                    &&& !listable(rest)[k].is_default
                    &&& listable(rest)[k].sample_rate is None
                    &&& listable(rest)[k].channels == Some(16usize)
                };
            assert(listable(found)[k] == listable(rest)[k]);
        }
    }
    lemma_not_more_listed(rest);
}

proof fn lemma_not_more_listed(found: Seq<Port>)
    ensures
        listable(found).len() <= found.len(),
    decreases found.len(),
{
    if found.len() > 0 {
        lemma_not_more_listed(found.drop_last());
    }
}

} // verus!
