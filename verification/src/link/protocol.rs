//! Wire protocol between the PC and the board that drives the strip.
//!
//! ```text
//! board -> PC   0x7E                       READY, a bare byte
//!
//! PC -> board   0xA5 0x5A                  magic
//!               u8   kind                  frame type
//!               u8   len                   payload bytes
//!               ..   payload
//!               u8   crc8                  over kind, len and payload
//!
//! board -> PC   same framing               for HELLO replies
//! ```
//!
//! The board is deaf while it writes the strip, so it asks: it emits READY when
//! it can receive, the PC sends exactly one frame, and the board asks again once
//! the strip is written. Colour travels per band rather than per LED, which
//! decouples the bandwidth from the length of the strip.

use vstd::prelude::*;

use crate::text::push_decimal;

verus! {

/// Sent by the board when it is ready to receive exactly one frame.
pub const READY: u8 = 0x7E;

/// The two bytes every frame starts with.
pub const MAGIC: [u8; 2] = [0xA5, 0x5A];

/// Largest payload the length byte can describe.
pub const MAX_PAYLOAD: usize = 255;

/// Bytes of framing around every payload.
pub const OVERHEAD: usize = 5;

/// The version of this protocol a board has to speak.
pub const PROTOCOL_VERSION: u8 = 1;

/// Payload bytes of a HELLO reply.
pub const HELLO_LEN: usize = 5;

/// The first byte of the magic.
pub const MAGIC_0: u8 = 0xA5;

/// The second byte of the magic.
pub const MAGIC_1: u8 = 0x5A;

/// What a frame is for.
#[derive(Clone, Copy, Debug, PartialEq, Eq, Structural)]
pub enum Kind {
    /// The PC asks who is there; the board replies with the same kind and a
    /// [`Hello`] payload.
    Hello,
    /// One RGB triplet per band.
    BandRgb,
    /// Built-in diagnostic patterns; the payload is a single [`TestPattern`].
    Test,
    /// Blank the strip immediately.
    Blackout,
}

impl Kind {
    /// The kind byte on the wire.
    pub open spec fn byte(self) -> u8 {
        match self {
            Kind::Hello => 0x00,
            Kind::BandRgb => 0x01,
            Kind::Test => 0x02,
            Kind::Blackout => 0x03,
        }
    }

    /// The kind byte on the wire.
    pub fn to_u8(self) -> (v: u8)
        ensures
            v == self.byte(),
    {
        match self {
            Kind::Hello => 0x00,
            Kind::BandRgb => 0x01,
            Kind::Test => 0x02,
            Kind::Blackout => 0x03,
        }
    }

    /// The kind a byte stands for, or `None` for a byte that stands for none.
    pub fn from_u8(v: u8) -> (kind: Option<Self>)
        ensures
            match kind {
                Some(k) => k.byte() == v,
                None => v > 0x03,
            },
    {
        match v {
            0x00 => Some(Kind::Hello),
            0x01 => Some(Kind::BandRgb),
            0x02 => Some(Kind::Test),
            0x03 => Some(Kind::Blackout),
            _ => None,
        }
    }
}

/// Diagnostics for bringing up wiring, before trusting anything about the audio
/// path.
#[derive(Clone, Copy, Debug, PartialEq, Eq, Structural)]
pub enum TestPattern {
    /// Solid red, then green, then blue. Confirms channel order.
    Rgb,
    /// A single lit pixel walking the strip. Confirms LED count and direction.
    Chase,
    /// Full white. Reveals voltage droop and where power injection is needed.
    White,
}

impl TestPattern {
    /// The pattern byte on the wire.
    pub open spec fn byte(self) -> u8 {
        match self {
            TestPattern::Rgb => 0x00,
            TestPattern::Chase => 0x01,
            TestPattern::White => 0x02,
        }
    }

    /// The pattern byte on the wire.
    pub fn to_u8(self) -> (v: u8)
        ensures
            v == self.byte(),
    {
        match self {
            TestPattern::Rgb => 0x00,
            TestPattern::Chase => 0x01,
            TestPattern::White => 0x02,
        }
    }
}

/// What the board reports about itself, so the PC can validate its
/// configuration instead of silently sending frames the firmware cannot use.
#[derive(Clone, Copy, Debug, PartialEq, Eq, Structural)]
pub struct Hello {
    pub protocol_version: u8,
    pub firmware_version: u8,
    pub led_count: u16,
    pub max_bands: u8,
}

impl Hello {
    /// The payload of a HELLO reply. The LED count is little-endian, matching
    /// the board's byte order.
    pub open spec fn payload(self) -> Seq<u8> {
        seq![
            self.protocol_version,
            self.firmware_version,
            (self.led_count % 256) as u8,
            (self.led_count / 256) as u8,
            self.max_bands,
        ]
    }

    /// The reply a payload holds. Bytes past the ones known here are a newer
    /// firmware's business and are ignored.
    pub open spec fn from_payload(payload: Seq<u8>) -> Option<Hello> {
        if payload.len() < HELLO_LEN {
            None
        } else {
            Some(
                Hello {
                    protocol_version: payload[0],
                    firmware_version: payload[1],
                    led_count: (payload[2] + 256 * payload[3]) as u16,
                    max_bands: payload[4],
                },
            )
        }
    }

    fn encode(&self, out: &mut Vec<u8>)
        ensures
            final(out)@ == old(out)@ + self.payload(),
    {
        out.push(self.protocol_version);
        out.push(self.firmware_version);
        out.push((self.led_count % 256) as u8);
        out.push((self.led_count / 256) as u8);
        out.push(self.max_bands);
        assert(out@ =~= old(out)@ + self.payload());
    }

    fn decode(payload: &[u8]) -> (hello: Option<Self>)
        ensures
            hello == Hello::from_payload(payload@),
    {
        if payload.len() < HELLO_LEN {
            return None;
        }
        Some(
            Hello {
                protocol_version: payload[0],
                firmware_version: payload[1],
                led_count: payload[2] as u16 + 256 * payload[3] as u16,
                max_bands: payload[4],
            },
        )
    }
}

/// One step of the CRC register: shift, and fold the bit that fell out back in.
pub open spec fn crc_shift(crc: u8) -> u8 {
    if crc & 0x80 != 0 {
        (crc << 1) ^ 0x07
    } else {
        crc << 1
    }
}

/// A number of steps of the CRC register.
pub open spec fn crc_shifts(crc: u8, n: nat) -> u8
    decreases n,
{
    if n == 0 {
        crc
    } else {
        crc_shift(crc_shifts(crc, (n - 1) as nat))
    }
}

/// CRC-8 with polynomial 0x07 and initial value 0.
pub open spec fn crc_of(bytes: Seq<u8>) -> u8
    decreases bytes.len(),
{
    if bytes.len() == 0 {
        0
    } else {
        crc_shifts(crc_of(bytes.drop_last()) ^ bytes.last(), 8)
    }
}

/// CRC-8, polynomial 0x07, initial value 0.
///
/// Bitwise rather than table-driven: the firmware runs the identical routine on
/// a processor where a table costs more flash than it is worth.
pub fn crc8(bytes: &[u8]) -> (crc: u8)
    ensures
        crc == crc_of(bytes@),
{
    let mut crc: u8 = 0;
    let mut i: usize = 0;
    while i < bytes.len()
        invariant
            i <= bytes.len(),
            crc == crc_of(bytes@.take(i as int)),
        decreases bytes.len() - i,
    {
        let start: u8 = crc ^ bytes[i];
        crc = start;
        let mut bit: u8 = 0;
        while bit < 8
            invariant
                bit <= 8,
                crc == crc_shifts(start, bit as nat),
            decreases 8 - bit,
        {
            crc = if crc & 0x80 != 0 { (crc << 1) ^ 0x07 } else { crc << 1 };
            bit += 1;
        }
        proof {
            let seen = bytes@.take(i + 1);
            assert(seen.drop_last() =~= bytes@.take(i as int));
            assert(seen.last() == bytes@[i as int]);
        }
        i += 1;
    }
    assert(bytes@.take(i as int) =~= bytes@);
    crc
}

/// What the CRC of a frame covers: kind, length and payload. The magic is only
/// there to resynchronise on.
pub open spec fn frame_body(kind: u8, payload: Seq<u8>) -> Seq<u8> {
    seq![kind, payload.len() as u8] + payload
}

/// A whole frame as it stands on the wire.
pub open spec fn frame_bytes(kind: u8, payload: Seq<u8>) -> Seq<u8> {
    seq![MAGIC_0, MAGIC_1] + frame_body(kind, payload) + seq![crc_of(frame_body(kind, payload))]
}

/// Write one frame, replacing whatever `out` held.
pub fn frame(kind: Kind, payload: &[u8], out: &mut Vec<u8>)
    requires
        payload@.len() <= MAX_PAYLOAD,
    ensures
        final(out)@ == frame_bytes(kind.byte(), payload@),
{
    let mut body: Vec<u8> = Vec::new();
    body.push(kind.to_u8());
    body.push(payload.len() as u8);
    push_all(&mut body, payload);
    assert(body@ =~= frame_body(kind.byte(), payload@));
    out.clear();
    out.push(MAGIC_0);
    out.push(MAGIC_1);
    push_all(out, &body);
    out.push(crc8(&body));
    assert(out@ =~= frame_bytes(kind.byte(), payload@));
}

/// Append bytes to bytes.
fn push_all(out: &mut Vec<u8>, bytes: &[u8])
    ensures
        final(out)@ == old(out)@ + bytes@,
{
    out.extend_from_slice(bytes);
    assert(out@ =~= old(out)@ + bytes@);
}

/// The payload of a colour frame: the triplets one after the other.
pub open spec fn band_payload(pixels: Seq<[u8; 3]>) -> Seq<u8> {
    Seq::new(pixels.len() * 3, |i: int| pixels[i / 3]@[i % 3])
}

/// Why a colour frame cannot be written: more bands than the length byte can
/// describe.
pub open spec fn too_many_bands(n: nat) -> Seq<char> {
    crate::text::decimal(n) + " bands need "@ + crate::text::decimal(n * 3)
        + " payload bytes, over the 255-byte limit"@
}

/// Encode one RGB triplet per band.
///
/// Errors if `pixels` exceeds what the length byte can carry (85 bands), and
/// then leaves `out` alone.
pub fn encode_band_rgb(pixels: &[[u8; 3]], out: &mut Vec<u8>) -> (res: Result<(), String>)
    ensures
        match res {
            Ok(_) => pixels@.len() <= 85 && final(out)@ == frame_bytes(
                Kind::BandRgb.byte(),
                band_payload(pixels@),
            ),
            Err(e) => pixels@.len() > 85 && final(out)@ == old(out)@ && e@ == too_many_bands(
                pixels@.len(),
            ),
        },
{
    if pixels.len() > MAX_PAYLOAD / 3 {
        let mut message = String::new();
        push_decimal(&mut message, pixels.len() as u128);
        message.append(" bands need ");
        push_decimal(&mut message, pixels.len() as u128 * 3);
        message.append(" payload bytes, over the 255-byte limit");
        assert(message@ =~= too_many_bands(pixels@.len()));
        return Err(message);
    }
    let mut payload: Vec<u8> = Vec::with_capacity(pixels.len() * 3);
    let mut i: usize = 0;
    while i < pixels.len()
        invariant
            i <= pixels.len(),
            payload@ == band_payload(pixels@.take(i as int)),
        decreases pixels.len() - i,
    {
        let px: [u8; 3] = pixels[i];
        payload.push(px[0]);
        payload.push(px[1]);
        payload.push(px[2]);
        i += 1;
        assert(payload@ =~= band_payload(pixels@.take(i as int)));
    }
    assert(pixels@.take(i as int) =~= pixels@);
    frame(Kind::BandRgb, &payload, out);
    Ok(())
}

/// Ask the board who it is.
pub fn encode_hello(out: &mut Vec<u8>)
    ensures
        final(out)@ == frame_bytes(Kind::Hello.byte(), Seq::<u8>::empty()),
{
    let payload: Vec<u8> = Vec::new();
    frame(Kind::Hello, &payload, out);
}

/// What a board answers.
pub fn encode_hello_reply(hello: &Hello, out: &mut Vec<u8>)
    ensures
        final(out)@ == frame_bytes(Kind::Hello.byte(), hello.payload()),
{
    let mut payload: Vec<u8> = Vec::with_capacity(HELLO_LEN);
    hello.encode(&mut payload);
    assert(payload@ =~= hello.payload());
    frame(Kind::Hello, &payload, out);
}

/// Show a diagnostic pattern.
pub fn encode_test(pattern: TestPattern, out: &mut Vec<u8>)
    ensures
        final(out)@ == frame_bytes(Kind::Test.byte(), seq![pattern.byte()]),
{
    let mut payload: Vec<u8> = Vec::new();
    payload.push(pattern.to_u8());
    assert(payload@ =~= seq![pattern.byte()]);
    frame(Kind::Test, &payload, out);
}

/// Blank the strip.
pub fn encode_blackout(out: &mut Vec<u8>)
    ensures
        final(out)@ == frame_bytes(Kind::Blackout.byte(), Seq::<u8>::empty()),
{
    let payload: Vec<u8> = Vec::new();
    frame(Kind::Blackout, &payload, out);
}

/// Maximum bands the length byte allows.
pub fn max_bands() -> (n: usize)
    ensures
        n == 85,
        n * 3 <= MAX_PAYLOAD < (n + 1) * 3,
{
    MAX_PAYLOAD / 3
}

/// What the board said.
#[derive(Clone, Copy, Debug, PartialEq, Eq, Structural)]
pub enum Event {
    /// It can take one frame.
    Ready,
    /// It introduced itself.
    Hello(Hello),
    /// A frame arrived intact but was not understood: a newer firmware, most
    /// likely. Surfaced rather than swallowed so version drift is visible.
    Unknown(u8),
    /// Framing was intact but the CRC did not match.
    BadCrc,
}

/// What an intact frame means.
pub open spec fn frame_event(kind: u8, payload: Seq<u8>) -> Event {
    if kind == Kind::Hello.byte() {
        match Hello::from_payload(payload) {
            Some(h) => Event::Hello(h),
            None => Event::Unknown(kind),
        }
    } else {
        Event::Unknown(kind)
    }
}

/// The length of the frame that starts a buffer of at least [`OVERHEAD`] bytes.
pub open spec fn frame_len(buf: Seq<u8>) -> int {
    OVERHEAD + buf[3]
}

/// The next event in a buffer, and the bytes left after it.
///
/// A READY is an event by itself. Bytes that start neither a READY nor a frame
/// are dropped. A frame is taken whole, and where it is not all there yet the
/// buffer waits as it is.
pub open spec fn decode(buf: Seq<u8>) -> (Option<Event>, Seq<u8>)
    decreases buf.len(),
{
    if buf.len() == 0 {
        (None, buf)
    } else if buf[0] == READY {
        (Some(Event::Ready), buf.skip(1))
    } else if buf[0] != MAGIC_0 {
        decode(buf.skip(1))
    } else if buf.len() < OVERHEAD {
        (None, buf)
    } else if buf[1] != MAGIC_1 {
        decode(buf.skip(1))
    } else if buf.len() < frame_len(buf) {
        (None, buf)
    } else {
        let total = frame_len(buf);
        let event = if crc_of(buf.subrange(2, total - 1)) != buf[total - 1] {
            Event::BadCrc
        } else {
            frame_event(buf[2], buf.subrange(4, total - 1))
        };
        (Some(event), buf.skip(total))
    }
}

/// Incremental decoder for what the board sends.
///
/// Resynchronises on its own: bytes that are not a valid frame are discarded
/// while scanning for the magic, so a partially-read buffer or a mid-stream
/// connection recovers without intervention.
pub struct Decoder {
    buf: Vec<u8>,
}

impl View for Decoder {
    type V = Seq<u8>;

    closed spec fn view(&self) -> Seq<u8> {
        self.buf@
    }
}

impl Default for Decoder {
    fn default() -> (d: Self)
        ensures
            d@ == Seq::<u8>::empty(),
    {
        Decoder { buf: Vec::new() }
    }
}

impl Decoder {
    /// Take bytes as they came off the port.
    pub fn push(&mut self, bytes: &[u8])
        ensures
            final(self)@ == old(self)@ + bytes@,
    {
        push_all(&mut self.buf, bytes);
    }

    /// Pull the next complete event, or `None` when more bytes are needed.
    pub fn next_event(&mut self) -> (event: Option<Event>)
        ensures
            (event, final(self)@) == decode(old(self)@),
    {
        let mut at: usize = 0;
        assert(self.buf@.skip(0) =~= self.buf@);
        loop
            invariant
                at <= self.buf@.len(),
                self.buf@ == old(self).buf@,
                decode(self.buf@.skip(at as int)) == decode(old(self)@),
            decreases self.buf@.len() - at,
        {
            let ghost here = self.buf@.skip(at as int);
            let left: usize = self.buf.len() - at;
            if left == 0 {
                self.buf.clear();
                assert(self.buf@ =~= here);
                return None;
            }
            let first: u8 = self.buf[at];
            if first == READY {
                self.drop_front(at + 1);
                assert(self.buf@ =~= here.skip(1));
                return Some(Event::Ready);
            }
            if first != MAGIC_0 {
                assert(here.skip(1) =~= self.buf@.skip(at + 1));
                at += 1;
                continue;
            }
            if left < OVERHEAD {
                self.drop_front(at);
                assert(self.buf@ =~= here);
                return None;
            }
            if self.buf[at + 1] != MAGIC_1 {
                // A false start: drop the byte and rescan rather than assuming
                // the rest of the buffer is garbage.
                assert(here.skip(1) =~= self.buf@.skip(at + 1));
                at += 1;
                continue;
            }
            let kind: u8 = self.buf[at + 2];
            let total: usize = OVERHEAD + self.buf[at + 3] as usize;
            if left < total {
                self.drop_front(at);
                assert(self.buf@ =~= here);
                return None;
            }
            let expected: u8 = self.buf[at + total - 1];
            let body = vstd::slice::slice_subrange(self.buf.as_slice(), at + 2, at + total - 1);
            assert(body@ =~= here.subrange(2, total - 1));
            let actual: u8 = crc8(body);
            let payload = vstd::slice::slice_subrange(self.buf.as_slice(), at + 4, at + total - 1);
            assert(payload@ =~= here.subrange(4, total - 1));
            let event = if actual != expected {
                Event::BadCrc
            } else {
                match Kind::from_u8(kind) {
                    Some(Kind::Hello) => match Hello::decode(payload) {
                        Some(h) => Event::Hello(h),
                        None => Event::Unknown(kind),
                    },
                    _ => Event::Unknown(kind),
                }
            };
            self.drop_front(at + total);
            assert(self.buf@ =~= here.skip(total as int));
            return Some(event);
        }
    }

    /// Forget everything received so far.
    pub fn clear(&mut self)
        ensures
            final(self)@ == Seq::<u8>::empty(),
    {
        self.buf.clear();
    }

    fn drop_front(&mut self, n: usize)
        requires
            n <= old(self).buf@.len(),
        ensures
            final(self).buf@ == old(self).buf@.skip(n as int),
    {
        let rest = self.buf.split_off(n);
        self.buf = rest;
        assert(self.buf@ =~= old(self).buf@.skip(n as int));
    }
}

/// A READY is never swallowed: it is the next event whatever follows it.
pub proof fn law_ready_is_an_event_by_itself(rest: Seq<u8>)
    ensures
        decode(seq![READY] + rest) == (Some(Event::Ready), rest),
{
    assert((seq![READY] + rest).skip(1) =~= rest);
}

/// A frame at the front of the buffer is decoded as what it carries, and
/// exactly its bytes are consumed.
pub proof fn law_a_frame_decodes_to_its_meaning(kind: u8, payload: Seq<u8>, rest: Seq<u8>)
    requires
        payload.len() <= MAX_PAYLOAD,
    ensures
        decode(frame_bytes(kind, payload) + rest) == (Some(frame_event(kind, payload)), rest),
{
    let buf = frame_bytes(kind, payload) + rest;
    let total = OVERHEAD + payload.len();
    assert(frame_len(buf) == total);
    assert(buf.subrange(2, total - 1) =~= frame_body(kind, payload));
    assert(buf.subrange(4, total - 1) =~= payload);
    assert(buf[total - 1] == crc_of(frame_body(kind, payload)));
    assert(buf.skip(total) =~= rest);
}

/// What a board encodes about itself is what the PC decodes.
pub proof fn law_hello_round_trips(hello: Hello, rest: Seq<u8>)
    ensures
        decode(frame_bytes(Kind::Hello.byte(), hello.payload()) + rest) == (
            Some(Event::Hello(hello)),
            rest,
        ),
{
    law_a_frame_decodes_to_its_meaning(Kind::Hello.byte(), hello.payload(), rest);
    assert(hello.led_count % 256 + 256 * (hello.led_count / 256) == hello.led_count);
}

/// Decoding only ever drops bytes from the front: what is left is the tail of
/// what was there.
pub proof fn law_what_is_left_is_a_tail(buf: Seq<u8>)
    ensures
        decode(buf).1.len() <= buf.len(),
        decode(buf).1 == buf.skip(buf.len() - decode(buf).1.len()),
        decode(buf).0 is Some ==> decode(buf).1.len() < buf.len(),
    decreases buf.len(),
{
    if buf.len() == 0 {
        assert(buf.skip(0) =~= buf);
    } else if buf[0] == READY {
    } else if buf[0] != MAGIC_0 || (buf.len() >= OVERHEAD && buf[1] != MAGIC_1) {
        law_what_is_left_is_a_tail(buf.skip(1));
        let n = buf.len() - 1 - decode(buf.skip(1)).1.len();
        assert(buf.skip(1).skip(n) =~= buf.skip(n + 1));
    } else {
        assert(buf.skip(0) =~= buf);
    }
}

/// More bytes never change what was already decided: an event stays the event
/// it was, and where none was ready the remaining bytes decide together with
/// the new ones.
pub proof fn law_more_bytes_change_no_event(buf: Seq<u8>, more: Seq<u8>)
    ensures
        match decode(buf).0 {
            Some(event) => decode(buf + more) == (Some(event), decode(buf).1 + more),
            None => decode(buf + more) == decode(decode(buf).1 + more),
        },
    decreases buf.len(),
{
    if buf.len() == 0 {
    } else if buf[0] == READY {
        assert((buf + more).skip(1) =~= buf.skip(1) + more);
    } else if buf[0] != MAGIC_0 || (buf.len() >= OVERHEAD && buf[1] != MAGIC_1) {
        law_more_bytes_change_no_event(buf.skip(1), more);
        assert((buf + more).skip(1) =~= buf.skip(1) + more);
    } else if buf.len() < OVERHEAD || buf.len() < frame_len(buf) {
    } else {
        let total = frame_len(buf);
        let all = buf + more;
        assert(all.subrange(2, total - 1) =~= buf.subrange(2, total - 1));
        assert(all.subrange(4, total - 1) =~= buf.subrange(4, total - 1));
        assert(all.skip(total) =~= buf.skip(total) + more);
    }
}

/// All the events a buffer holds, and the bytes left once it is drained.
pub open spec fn drain(buf: Seq<u8>) -> (Seq<Event>, Seq<u8>)
    decreases buf.len(),
{
    match decode(buf).0 {
        Some(event) => {
            proof {
                law_what_is_left_is_a_tail(buf);
            }
            (seq![event] + drain(decode(buf).1).0, drain(decode(buf).1).1)
        },
        None => (Seq::empty(), decode(buf).1),
    }
}

/// However a stream is cut into reads, the same events come out of it: draining
/// after the first part and then after the second gives what draining the whole
/// gives.
pub proof fn law_reads_may_be_split_anywhere(first: Seq<u8>, second: Seq<u8>)
    ensures
        drain(first + second).0 == drain(first).0 + drain(drain(first).1 + second).0,
        drain(first + second).1 == drain(drain(first).1 + second).1,
    decreases first.len(),
{
    law_more_bytes_change_no_event(first, second);
    law_what_is_left_is_a_tail(first);
    match decode(first).0 {
        Some(event) => {
            let rest = decode(first).1;
            law_reads_may_be_split_anywhere(rest, second);
            assert(drain(first + second).0 =~= seq![event] + drain(rest + second).0);
            assert(drain(first + second).0 =~= drain(first).0 + drain(drain(first).1 + second).0);
        },
        None => {
            let left = decode(first).1;
            assert(drain(first).1 == left);
            lemma_drain_follows_decode(first + second, left + second);
            assert(drain(first + second).0 =~= drain(first).0 + drain(left + second).0);
        },
    }
}

proof fn lemma_drain_follows_decode(a: Seq<u8>, b: Seq<u8>)
    requires
        decode(a) == decode(b),
    ensures
        drain(a) == drain(b),
{
    law_what_is_left_is_a_tail(a);
    law_what_is_left_is_a_tail(b);
}

/// Whether bytes hold nothing a decoder would take for an event: no READY, and
/// no magic.
pub open spec fn is_garbage(bytes: Seq<u8>) -> bool {
    &&& forall|i: int| 0 <= i < bytes.len() ==> bytes[i] != READY
    &&& forall|i: int|
        0 <= i && i + 1 < bytes.len() && #[trigger] bytes[i] == MAGIC_0 ==> bytes[i + 1] != MAGIC_1
}

/// Connecting in the middle of a stream costs the fragment and nothing after
/// it: the first whole frame that follows garbage is decoded.
pub proof fn law_resynchronises_after_garbage(
    garbage: Seq<u8>,
    kind: u8,
    payload: Seq<u8>,
    rest: Seq<u8>,
)
    requires
        is_garbage(garbage),
        payload.len() <= MAX_PAYLOAD,
    ensures
        decode(garbage + frame_bytes(kind, payload) + rest) == (
            Some(frame_event(kind, payload)),
            rest,
        ),
    decreases garbage.len(),
{
    let whole = garbage + frame_bytes(kind, payload) + rest;
    if garbage.len() == 0 {
        assert(whole =~= frame_bytes(kind, payload) + rest);
        law_a_frame_decodes_to_its_meaning(kind, payload, rest);
    } else {
        let fewer = garbage.skip(1);
        assert forall|i: int|
            0 <= i && i + 1 < fewer.len() && #[trigger] fewer[i] == MAGIC_0 implies fewer[i + 1]
            != MAGIC_1 by {
            assert(garbage[i + 1] == MAGIC_0);
        }
        law_resynchronises_after_garbage(fewer, kind, payload, rest);
        assert(whole.skip(1) =~= fewer + frame_bytes(kind, payload) + rest);
        assert(whole[0] == garbage[0]);
        assert(whole[1] != MAGIC_1 || whole[0] != MAGIC_0) by {
            if garbage.len() == 1 {
                assert(whole[1] == MAGIC_0);
            } else {
                assert(whole[1] == garbage[1]);
            }
        }
    }
}

proof fn lemma_shift_is_injective(a: u8, b: u8)
    by (bit_vector)
    requires
        (if a & 0x80 != 0 {
            (a << 1) ^ 0x07
        } else {
            a << 1
        }) == (if b & 0x80 != 0 {
            (b << 1) ^ 0x07
        } else {
            b << 1
        }),
    ensures
        a == b,
{
}

proof fn lemma_shifts_are_injective(a: u8, b: u8, n: nat)
    requires
        crc_shifts(a, n) == crc_shifts(b, n),
    ensures
        a == b,
    decreases n,
{
    if n > 0 {
        let m = (n - 1) as nat;
        lemma_shift_is_injective(crc_shifts(a, m), crc_shifts(b, m));
        lemma_shifts_are_injective(a, b, m);
    }
}

proof fn lemma_xor_cancels(a: u8, b: u8, c: u8, d: u8)
    by (bit_vector)
    requires
        a ^ b == c ^ d,
    ensures
        b == d ==> a == c,
        a == c ==> b == d,
{
}

/// The CRC notices any one damaged byte: two bodies of one length that differ
/// in exactly one place have different checksums.
pub proof fn law_crc_notices_one_damaged_byte(bytes: Seq<u8>, at: int, value: u8)
    requires
        0 <= at < bytes.len(),
        bytes[at] != value,
    ensures
        crc_of(bytes.update(at, value)) != crc_of(bytes),
    decreases bytes.len(),
{
    let other = bytes.update(at, value);
    let a = crc_of(bytes.drop_last());
    let b = crc_of(other.drop_last());
    if crc_of(other) == crc_of(bytes) {
        lemma_shifts_are_injective(a ^ bytes.last(), b ^ other.last(), 8);
        lemma_xor_cancels(a, bytes.last(), b, other.last());
        if at == bytes.len() - 1 {
            assert(other.drop_last() =~= bytes.drop_last());
        } else {
            assert(other.drop_last() =~= bytes.drop_last().update(at, value));
            law_crc_notices_one_damaged_byte(bytes.drop_last(), at, value);
        }
    }
}

/// A frame with one damaged payload byte is reported as such, not accepted.
pub proof fn law_a_damaged_payload_is_reported(
    kind: u8,
    payload: Seq<u8>,
    at: int,
    value: u8,
    rest: Seq<u8>,
)
    requires
        payload.len() <= MAX_PAYLOAD,
        0 <= at < payload.len(),
        payload[at] != value,
    ensures
        decode(frame_bytes(kind, payload).update(4 + at, value) + rest) == (
            Some(Event::BadCrc),
            rest,
        ),
{
    let body = frame_body(kind, payload);
    law_crc_notices_one_damaged_byte(body, 2 + at, value);
    let buf = frame_bytes(kind, payload).update(4 + at, value) + rest;
    let total = OVERHEAD + payload.len();
    assert(frame_len(buf) == total);
    assert(buf.subrange(2, total - 1) =~= body.update(2 + at, value));
    assert(buf[total - 1] == crc_of(body));
    assert(buf.skip(total) =~= rest);
}

/// Every frame is its payload and five bytes around it.
pub proof fn law_frame_size(kind: u8, payload: Seq<u8>)
    ensures
        frame_bytes(kind, payload).len() == payload.len() + OVERHEAD,
{
}

/// The wire format, byte for byte: the two bytes of the magic, the kind, how many
/// bytes of payload there are, the payload, and the check over everything but the
/// magic.
pub proof fn law_a_frame_is_laid_out_as_documented(kind: u8, payload: Seq<u8>, i: int)
    requires
        payload.len() <= 255,
        0 <= i < payload.len(),
    ensures
        ({
            let bytes = frame_bytes(kind, payload);
            &&& bytes.len() == payload.len() + 5
            &&& bytes[0] == 0xA5
            &&& bytes[1] == 0x5A
            &&& bytes[2] == kind
            &&& bytes[3] == payload.len()
            &&& bytes[4 + i] == payload[i]
            &&& bytes.last() == crc_of(bytes.subrange(2, bytes.len() - 1))
        }),
{
    let bytes = frame_bytes(kind, payload);
    assert(bytes.subrange(2, bytes.len() - 1) =~= frame_body(kind, payload));
}

/// Colours travel one after the other, red, green and blue of each.
pub proof fn law_colours_travel_in_order(pixels: Seq<[u8; 3]>, k: int)
    requires
        0 <= k < pixels.len(),
    ensures
        band_payload(pixels).len() == 3 * pixels.len(),
        band_payload(pixels)[3 * k] == pixels[k]@[0],
        band_payload(pixels)[3 * k + 1] == pixels[k]@[1],
        band_payload(pixels)[3 * k + 2] == pixels[k]@[2],
{
}

/// A reply is read byte for byte: the two versions, the LED count with its low
/// byte first, and the most bands a frame may have. What follows is not looked
/// at, and a shorter payload is no reply.
pub proof fn law_a_reply_is_read_byte_for_byte(payload: Seq<u8>)
    ensures
        payload.len() < 5 ==> Hello::from_payload(payload) is None,
        payload.len() >= 5 ==> ({
            let reply = Hello::from_payload(payload);
            &&& reply is Some
            &&& (reply->0).protocol_version == payload[0]
            &&& (reply->0).firmware_version == payload[1]
            &&& (reply->0).led_count == payload[2] + 256 * payload[3]
            &&& (reply->0).max_bands == payload[4]
        }),
{
}

/// An intact frame is a reply where its kind is zero and its payload holds one,
/// and otherwise it is reported with its kind.
pub proof fn law_an_intact_frame_is_reported(kind: u8, payload: Seq<u8>)
    ensures
        kind != 0 ==> frame_event(kind, payload) == Event::Unknown(kind),
        kind == 0 && payload.len() < 5 ==> frame_event(kind, payload) == Event::Unknown(0),
        kind == 0 && payload.len() >= 5 ==> frame_event(kind, payload) == Event::Hello(
            Hello::from_payload(payload)->0,
        ),
{
}

/// The bytes that stand for kinds and patterns are all different within each, in
/// the order in which they are listed.
pub proof fn law_kinds_and_patterns_are_numbered_in_order()
    ensures
        Kind::Hello.byte() == 0 && Kind::BandRgb.byte() == 1 && Kind::Test.byte() == 2
            && Kind::Blackout.byte() == 3,
        TestPattern::Rgb.byte() == 0 && TestPattern::Chase.byte() == 1 && TestPattern::White.byte()
            == 2,
{
}

/// Everything in a buffer is reported, one event after the other: a READY first
/// where one comes first, a frame first where one comes first, and then what
/// follows as if it stood alone.
pub proof fn law_a_buffer_is_drained_in_order(kind: u8, payload: Seq<u8>, rest: Seq<u8>)
    requires
        payload.len() <= MAX_PAYLOAD,
    ensures
        drain(seq![READY] + rest).0 == seq![Event::Ready] + drain(rest).0,
        drain(seq![READY] + rest).1 == drain(rest).1,
        drain(frame_bytes(kind, payload) + rest).0 == seq![frame_event(kind, payload)] + drain(
            rest,
        ).0,
        drain(frame_bytes(kind, payload) + rest).1 == drain(rest).1,
{
    law_ready_is_an_event_by_itself(rest);
    law_a_frame_decodes_to_its_meaning(kind, payload, rest);
    law_what_is_left_is_a_tail(seq![READY] + rest);
    law_what_is_left_is_a_tail(frame_bytes(kind, payload) + rest);
}

} // verus!
