//! What to say to a board over a serial port, and when.
//!
//! The port itself belongs to the application: it reads, writes, sleeps and
//! tells the time. What it read and what time it is comes in here, and what it
//! is to do next goes back. Times are microseconds on a clock of the caller's
//! that never runs backwards.

use vstd::prelude::*;

use super::protocol;
use super::protocol::{Decoder, Event, Hello, PROTOCOL_VERSION};
use crate::text::{decimal, push_decimal};

verus! {

/// 500 kbaud has no error on a 16 MHz board, unlike 115200. 1 Mbaud often works
/// and halves transfer time, but some clones are unreliable there, so this is
/// the safe default.
pub const DEFAULT_BAUD: u32 = 500_000;

/// Opening the port resets the board into its bootloader. That costs roughly
/// two seconds before the sketch runs, so the handshake has to outwait it.
pub const RESET_GRACE: u64 = 4_000_000;

/// How often the handshake asks again.
pub const PROBE_INTERVAL: u64 = 250_000;

/// How long to wait for READY before giving up on a frame. Comfortably longer
/// than the worst strip write plus transfer.
pub const READY_TIMEOUT: u64 = 120_000;

/// How long a READY is worth acting on. Past that window the board is deaf, so
/// a frame sent on the strength of an older token is a frame torn in half.
pub const READY_LIFETIME: u64 = 25_000;

/// A backlog this big is not a conversation. READY is one byte and the only
/// other thing the board ever sends is a ten-byte HELLO, so hundreds of queued
/// bytes mean nothing has read this port for a long while.
pub const STALE_INPUT: usize = 256;

/// Cap on reads per drain, so a board that talks faster than it is read cannot
/// hold the loop.
pub const MAX_DRAIN_READS: usize = 16;

/// The board's readiness: one invitation with a shelf life, not a quantity.
///
/// READY means *send one frame now*. There is never more than one invitation
/// outstanding, and an old one is worth nothing. Holds when the invitation
/// arrived.
#[derive(Clone, Copy, Debug, PartialEq, Eq, Structural)]
pub struct Readiness(pub Option<u64>);

impl Default for Readiness {
    fn default() -> (r: Self)
        ensures
            r == Readiness(None),
    {
        Readiness(None)
    }
}

impl Readiness {
    /// Whether there is an invitation young enough to act on.
    pub open spec fn live(self, now: u64) -> bool {
        match self.0 {
            Some(at) => now - at < READY_LIFETIME,
            None => false,
        }
    }

    /// What is left once the invitation was acted on, or found too old.
    pub open spec fn spent(self) -> Readiness {
        Readiness(None)
    }

    /// Record a READY. It *supersedes* any outstanding one rather than adding
    /// to it, which is what bounds the link to a single frame in flight.
    pub fn offered(&mut self, now: u64)
        ensures
            *final(self) == Readiness(Some(now)),
    {
        self.0 = Some(now);
    }

    /// Spend the invitation if it is still live. An expired one is discarded:
    /// the board has moved on and the next announcement is a board loop away.
    pub fn take(&mut self, now: u64) -> (live: bool)
        ensures
            live == old(self).live(now),
            *final(self) == old(self).spent(),
    {
        let live = match self.0 {
            Some(at) => now.saturating_sub(at) < READY_LIFETIME,
            None => false,
        };
        self.0 = None;
        live
    }

    /// Forget any invitation.
    pub fn clear(&mut self)
        ensures
            *final(self) == Readiness(None),
    {
        self.0 = None;
    }
}

/// The readiness a stretch of events leaves behind.
pub open spec fn readiness_after(ready: Readiness, events: Seq<Event>, now: u64) -> Readiness
    decreases events.len(),
{
    if events.len() == 0 {
        ready
    } else if events.last() == Event::Ready {
        Readiness(Some(now))
    } else {
        readiness_after(ready, events.drop_last(), now)
    }
}

/// The introduction a stretch of events leaves standing: the last one in it, or
/// the one known before.
pub open spec fn hello_after(hello: Hello, events: Seq<Event>) -> Hello
    decreases events.len(),
{
    if events.len() == 0 {
        hello
    } else {
        match events.last() {
            Event::Hello(h) => h,
            _ => hello_after(hello, events.drop_last()),
        }
    }
}

/// Whether a stretch of events holds an introduction.
pub open spec fn introduces(events: Seq<Event>) -> bool {
    exists|i: int| 0 <= i < events.len() && #[trigger] events[i] is Hello
}

/// What to do while waiting for the board to answer.
#[derive(Clone, Copy, Debug, PartialEq, Eq, Structural)]
pub enum HandshakeStep {
    /// Ask, then listen.
    Probe,
    /// Listen.
    Listen,
    /// Nobody answered in time.
    GiveUp,
}

/// A handshake in progress.
#[derive(Clone, Copy, Debug, PartialEq, Eq, Structural)]
pub struct Handshake {
    pub deadline: u64,
    /// When the board was last asked, if it was.
    pub probed: Option<u64>,
}

impl Handshake {
    /// Start one. The board gets [`RESET_GRACE`] to come back from its reset.
    pub fn begin(now: u64) -> (h: Self)
        requires
            now + RESET_GRACE <= u64::MAX,
        ensures
            h.deadline == now + RESET_GRACE,
            h.probed is None,
    {
        Handshake { deadline: now + RESET_GRACE, probed: None }
    }

    /// What there is to do at a time: ask, unless the board was asked within the
    /// interval, until the time is up.
    pub open spec fn due(self, now: u64) -> HandshakeStep {
        if now >= self.deadline {
            HandshakeStep::GiveUp
        } else if self.probed is Some && now - self.probed->0 < PROBE_INTERVAL {
            HandshakeStep::Listen
        } else {
            HandshakeStep::Probe
        }
    }

    /// What to do now. The first thing is to ask; after that, every
    /// [`PROBE_INTERVAL`].
    pub fn step(&mut self, now: u64) -> (step: HandshakeStep)
        ensures
            step == old(self).due(now),
            final(self).deadline == old(self).deadline,
            step == HandshakeStep::GiveUp <==> now >= old(self).deadline,
            step == HandshakeStep::Probe <==> now < old(self).deadline && match old(self).probed {
                Some(at) => now - at >= PROBE_INTERVAL,
                None => true,
            },
            final(self).probed == if step == HandshakeStep::Probe {
                Some(now)
            } else {
                old(self).probed
            },
    {
        if now >= self.deadline {
            return HandshakeStep::GiveUp;
        }
        let due = match self.probed {
            Some(at) => now.saturating_sub(at) >= PROBE_INTERVAL,
            None => true,
        };
        if due {
            self.probed = Some(now);
            HandshakeStep::Probe
        } else {
            HandshakeStep::Listen
        }
    }
}

/// What to do about a frame that is waiting to go out.
#[derive(Clone, Copy, Debug, PartialEq, Eq, Structural)]
pub enum ReadyStep {
    /// The board is listening: write the frame.
    Send,
    /// The board never asked: drop the frame.
    Drop,
    /// Read the port again in a moment.
    Wait,
}

/// What becomes of a frame that is waiting to go out.
pub open spec fn answer(ready: Readiness, now: u64, deadline: u64) -> ReadyStep {
    if ready.live(now) {
        ReadyStep::Send
    } else if now >= deadline {
        ReadyStep::Drop
    } else {
        ReadyStep::Wait
    }
}

/// The PC's half of the conversation with one board.
pub struct SerialLink {
    decoder: Decoder,
    hello: Hello,
    path: String,
    baud: u32,
    ready: Readiness,
}

/// Why a board that answered cannot be used.
pub open spec fn version_error(version: u8) -> Seq<char> {
    "firmware speaks protocol v"@ + decimal(version as nat)
        + " but this build speaks v1 — reflash the sketch in firmware/"@
}

/// Why a board that did not answer cannot be used.
pub open spec fn no_reply_error(path: Seq<char>, baud: u32) -> Seq<char> {
    "no reply from "@ + path
        + " after 4s. Check the board is running the sketch from firmware/, that no other program holds the port, and that the baud rate matches ("@
        + decimal(baud as nat) + " here)."@
}

/// What a link to a board says it is.
pub open spec fn serial_description(path: Seq<char>, baud: u32, hello: Hello) -> Seq<char> {
    path + " @ "@ + decimal(baud as nat) + " baud — firmware v"@ + decimal(
        hello.firmware_version as nat,
    ) + ", "@ + decimal(hello.led_count as nat) + " LEDs, up to "@ + decimal(
        hello.max_bands as nat,
    ) + " bands"@
}

/// Most colours a board takes. A zero is read as "did not say" rather than as
/// "none": taking a broken value for a limit of nothing would blank the strip on
/// the strength of one bad byte.
pub open spec fn points_of(hello: Hello) -> int {
    if hello.max_bands == 0 || hello.max_bands > 85 {
        85
    } else {
        hello.max_bands as int
    }
}

impl SerialLink {
    /// Bytes received and not decoded yet.
    pub closed spec fn pending(&self) -> Seq<u8> {
        self.decoder@
    }

    /// What the board last said about itself.
    pub closed spec fn board(&self) -> Hello {
        self.hello
    }

    /// The outstanding invitation.
    pub closed spec fn readiness(&self) -> Readiness {
        self.ready
    }

    /// The port's name.
    pub closed spec fn port_name(&self) -> Seq<char> {
        self.path@
    }

    /// The port's speed.
    pub closed spec fn speed(&self) -> u32 {
        self.baud
    }

    /// A conversation that has not started.
    pub fn new(path: &str, baud: u32) -> (link: Self)
        ensures
            link.pending() == Seq::<u8>::empty(),
            link.board() == (Hello {
                protocol_version: 0,
                firmware_version: 0,
                led_count: 0,
                max_bands: 0,
            }),
            link.readiness() == Readiness(None),
            link.port_name() == path@,
            link.speed() == baud,
    {
        SerialLink {
            decoder: Decoder::default(),
            hello: Hello { protocol_version: 0, firmware_version: 0, led_count: 0, max_bands: 0 },
            path: path.to_owned(),
            baud,
            ready: Readiness(None),
        }
    }

    /// What the board last said about itself.
    pub fn hello(&self) -> (hello: &Hello)
        ensures
            *hello == self.board(),
    {
        &self.hello
    }

    /// Forget what was received so far: it predates a reset and is meaningless.
    pub fn forget(&mut self)
        ensures
            final(self).pending() == Seq::<u8>::empty(),
            final(self).board() == old(self).board(),
            final(self).readiness() == old(self).readiness(),
            final(self).port_name() == old(self).port_name(),
            final(self).speed() == old(self).speed(),
    {
        self.decoder.clear();
    }

    /// Take what the port delivered and fold every event in it into state.
    /// Reports whether an introduction arrived, which is the one event a caller
    /// has to react to.
    pub fn received(&mut self, bytes: &[u8], now: u64) -> (introduced: bool)
        ensures
            ({
                let (events, rest) = protocol::drain(old(self).pending() + bytes@);
                &&& introduced == introduces(events)
                &&& final(self).pending() == rest
                &&& final(self).board() == hello_after(old(self).board(), events)
                &&& final(self).readiness() == readiness_after(
                    old(self).readiness(),
                    events,
                    now,
                )
            }),
            final(self).port_name() == old(self).port_name(),
            final(self).speed() == old(self).speed(),
    {
        self.decoder.push(bytes);
        let ghost all = protocol::drain(self.decoder@);
        let ghost mut seen: Seq<Event> = Seq::empty();
        let mut introduced = false;
        assert(seen + all.0 =~= all.0);
        loop
            invariant
                all == protocol::drain(old(self).pending() + bytes@),
                seen + protocol::drain(self.decoder@).0 == all.0,
                protocol::drain(self.decoder@).1 == all.1,
                introduced == introduces(seen),
                self.hello == hello_after(old(self).hello, seen),
                self.ready == readiness_after(old(self).ready, seen, now),
                self.path == old(self).path,
                self.baud == old(self).baud,
            decreases self.decoder@.len(),
        {
            let ghost before = self.decoder@;
            proof {
                protocol::law_what_is_left_is_a_tail(before);
            }
            match self.decoder.next_event() {
                None => {
                    assert(seen + Seq::<Event>::empty() =~= seen);
                    proof {
                        lemma_nothing_left(before);
                    }
                    return introduced;
                },
                Some(event) => {
                    let ghost was = seen;
                    proof {
                        assert(protocol::drain(before).0 =~= seq![event] + protocol::drain(
                            self.decoder@,
                        ).0);
                        seen = seen.push(event);
                        assert(seen + protocol::drain(self.decoder@).0 =~= was + protocol::drain(
                            before,
                        ).0);
                        assert(seen.drop_last() =~= was);
                        assert forall|i: int| 0 <= i < was.len() implies seen[i] == was[i] by {}
                        if introduces(was) {
                            let i = choose|i: int| 0 <= i < was.len() && was[i] is Hello;
                            assert(seen[i] is Hello);
                        }
                        assert(seen[was.len() as int] == event);
                    }
                    match event {
                        Event::Ready => self.ready.offered(now),
                        Event::Hello(h) => {
                            self.hello = h;
                            introduced = true;
                        },
                        Event::BadCrc => {},
                        Event::Unknown(_) => {},
                    }
                },
            }
        }
    }

    /// Decide whether what waits on the port is worth reading, given how many
    /// bytes do.
    ///
    /// Nothing reads the port while the source is silent, so the driver's queue
    /// can hold minutes of readiness by the time audio comes back. Decoding
    /// that pile is pointless and treating the end of it as fresh is wrong: it
    /// is to be discarded, along with everything derived from it, and the next
    /// announcement is a board loop away.
    pub fn discards(&mut self, waiting: usize) -> (discard: bool)
        ensures
            discard == (waiting > STALE_INPUT),
            final(self).pending() == if discard {
                Seq::empty()
            } else {
                old(self).pending()
            },
            final(self).readiness() == if discard {
                Readiness(None)
            } else {
                old(self).readiness()
            },
            final(self).board() == old(self).board(),
            final(self).port_name() == old(self).port_name(),
            final(self).speed() == old(self).speed(),
    {
        if waiting > STALE_INPUT {
            self.decoder.clear();
            self.ready.clear();
            true
        } else {
            false
        }
    }

    /// Whether a drain goes on after some number of reads, given how many bytes
    /// still wait. Draining to the end is what keeps READY meaningful: only the
    /// newest one describes the board *now*.
    pub fn reads_on(reads: usize, waiting: usize) -> (more: bool)
        ensures
            more == (reads == 0 || (reads < MAX_DRAIN_READS && waiting > 0)),
    {
        reads == 0 || (reads < MAX_DRAIN_READS && waiting > 0)
    }

    /// What to do about a waiting frame once the port has been drained: spend
    /// the invitation, give the frame up, or wait.
    ///
    /// Dropping is the right answer to a timeout: the alternative is writing
    /// into a deaf board, which costs the next frame as well as this one.
    pub fn await_ready(&mut self, now: u64, deadline: u64) -> (step: ReadyStep)
        ensures
            step == answer(old(self).readiness(), now, deadline),
            final(self).readiness() == Readiness(None),
            final(self).pending() == old(self).pending(),
            final(self).board() == old(self).board(),
            final(self).port_name() == old(self).port_name(),
            final(self).speed() == old(self).speed(),
    {
        if self.ready.take(now) {
            ReadyStep::Send
        } else if now >= deadline {
            ReadyStep::Drop
        } else {
            ReadyStep::Wait
        }
    }

    /// Whether the board that answered speaks this protocol.
    pub fn check_version(&self) -> (res: Result<(), String>)
        ensures
            match res {
                Ok(_) => self.board().protocol_version == PROTOCOL_VERSION,
                Err(e) => self.board().protocol_version != PROTOCOL_VERSION && e@ == version_error(
                    self.board().protocol_version,
                ),
            },
    {
        if self.hello.protocol_version == PROTOCOL_VERSION {
            return Ok(());
        }
        let mut out = String::from_str("firmware speaks protocol v");
        push_decimal(&mut out, self.hello.protocol_version as u128);
        out.append(" but this build speaks v1 — reflash the sketch in firmware/");
        Err(out)
    }

    /// What to report when the handshake gave up.
    pub fn no_reply(&self) -> (out: String)
        ensures
            out@ == no_reply_error(self.port_name(), self.speed()),
    {
        let mut out = String::from_str("no reply from ");
        out.append(self.path.as_str());
        out.append(
            " after 4s. Check the board is running the sketch from firmware/, that no other program holds the port, and that the baud rate matches (",
        );
        push_decimal(&mut out, self.baud as u128);
        out.append(" here).");
        out
    }

    /// Human-readable description, for startup logging.
    pub fn describe(&self) -> (out: String)
        ensures
            out@ == serial_description(self.port_name(), self.speed(), self.board()),
    {
        let mut out = self.path.clone();
        out.append(" @ ");
        push_decimal(&mut out, self.baud as u128);
        out.append(" baud — firmware v");
        push_decimal(&mut out, self.hello.firmware_version as u128);
        out.append(", ");
        push_decimal(&mut out, self.hello.led_count as u128);
        out.append(" LEDs, up to ");
        push_decimal(&mut out, self.hello.max_bands as u128);
        out.append(" bands");
        out
    }

    /// Most colours one frame may carry: what the board said it can take, within
    /// what the protocol can describe.
    pub fn max_points(&self) -> (n: usize)
        ensures
            n == points_of(self.board()),
    {
        let said: usize = self.hello.max_bands as usize;
        let most: usize = protocol::max_bands();
        if said == 0 || said > most {
            most
        } else {
            said
        }
    }
}

proof fn lemma_nothing_left(buf: Seq<u8>)
    requires
        protocol::decode(buf).0 is None,
    ensures
        protocol::drain(buf) == (Seq::<Event>::empty(), protocol::decode(buf).1),
{
}

/// One invitation is spent once: whatever the first attempt found, a second one
/// finds nothing at any time until the board asks again.
pub proof fn law_one_invitation_is_spent_once(
    ready: Readiness,
    events: Seq<Event>,
    now: u64,
    later: u64,
)
    requires
        !events.contains(Event::Ready),
    ensures
        !readiness_after(ready.spent(), events, now).live(later),
{
    law_nothing_is_spendable_before_the_board_asks(events, now, later);
}

/// Invitations do not bank up: after any stretch of events that holds a READY,
/// exactly one stands, and it is as old as the reading.
pub proof fn law_readiness_does_not_bank_up(ready: Readiness, events: Seq<Event>, now: u64)
    requires
        events.contains(Event::Ready),
    ensures
        readiness_after(ready, events, now) == Readiness(Some(now)),
        readiness_after(ready, events, now).live(now),
    decreases events.len(),
{
    if events.last() != Event::Ready {
        let i = choose|i: int| 0 <= i < events.len() && events[i] == Event::Ready;
        assert(events.drop_last()[i] == Event::Ready);
        law_readiness_does_not_bank_up(ready, events.drop_last(), now);
    }
}

/// Without a READY nothing becomes spendable.
pub proof fn law_nothing_is_spendable_before_the_board_asks(
    events: Seq<Event>,
    now: u64,
    later: u64,
)
    requires
        !events.contains(Event::Ready),
    ensures
        !readiness_after(Readiness(None), events, now).live(later),
    decreases events.len(),
{
    if events.len() > 0 {
        assert(events[events.len() - 1] == events.last());
        assert forall|i: int| 0 <= i < events.drop_last().len() implies events.drop_last()[i]
            != Event::Ready by {
            assert(events[i] == events.drop_last()[i]);
        }
        law_nothing_is_spendable_before_the_board_asks(events.drop_last(), now, later);
    }
}

/// An invitation older than the board's listening window is not spent.
pub proof fn law_an_old_invitation_is_not_spent(at: u64, now: u64)
    requires
        now - at >= READY_LIFETIME,
    ensures
        !Readiness(Some(at)).live(now),
{
}

/// An invitation is good for twenty-five milliseconds from when it came, and not
/// a microsecond longer.
pub proof fn law_a_young_invitation_is_good(at: u64, now: u64)
    ensures
        Readiness(Some(at)).live(now) <==> now < at + 25_000,
{
}

/// What the board says beside READY leaves an invitation as it stands.
pub proof fn law_other_news_leave_the_invitation(ready: Readiness, events: Seq<Event>, now: u64)
    requires
        !events.contains(Event::Ready),
    ensures
        readiness_after(ready, events, now) == ready,
    decreases events.len(),
{
    if events.len() > 0 {
        assert(events[events.len() - 1] == events.last());
        assert forall|i: int| 0 <= i < events.drop_last().len() implies events.drop_last()[i]
            != Event::Ready by {
            assert(events[i] == events.drop_last()[i]);
        }
        law_other_news_leave_the_invitation(ready, events.drop_last(), now);
    }
}

/// The board is what it last said it is, and without a word from it what it was
/// known to be. It is introduced exactly where it said so at all.
pub proof fn law_the_last_introduction_stands(known: Hello, events: Seq<Event>, i: int, said: Hello)
    requires
        0 <= i < events.len(),
        events[i] == Event::Hello(said),
        forall|k: int| i < k < events.len() ==> !(#[trigger] events[k] is Hello),
    ensures
        hello_after(known, events) == said,
        introduces(events),
    decreases events.len(),
{
    assert(events[i] is Hello);
    if i < events.len() - 1 {
        assert(!(events[events.len() - 1] is Hello));
        assert(events.drop_last()[i] == events[i]);
        assert forall|k: int| i < k < events.drop_last().len() implies !(
        #[trigger] events.drop_last()[k] is Hello) by {
            assert(events[k] == events.drop_last()[k]);
        }
        law_the_last_introduction_stands(known, events.drop_last(), i, said);
    }
}

/// Without an introduction the board stays what it was known to be.
pub proof fn law_without_an_introduction_nothing_is_learnt(known: Hello, events: Seq<Event>)
    requires
        forall|k: int| 0 <= k < events.len() ==> !(#[trigger] events[k] is Hello),
    ensures
        hello_after(known, events) == known,
        !introduces(events),
    decreases events.len(),
{
    if events.len() > 0 {
        assert(!(events[events.len() - 1] is Hello));
        assert forall|k: int| 0 <= k < events.drop_last().len() implies !(
        #[trigger] events.drop_last()[k] is Hello) by {
            assert(events[k] == events.drop_last()[k]);
        }
        law_without_an_introduction_nothing_is_learnt(known, events.drop_last());
    }
}

/// A frame may carry as many colours as the board takes, never more than the
/// protocol can describe, and never none.
pub proof fn law_a_board_is_sent_what_it_takes(hello: Hello)
    ensures
        1 <= hello.max_bands <= 85 ==> points_of(hello) == hello.max_bands,
        hello.max_bands == 0 || hello.max_bands > 85 ==> points_of(hello) == 85,
{
}

/// A frame goes out on an invitation that is no older than twenty-five
/// milliseconds, and on nothing else. Without one it waits for its deadline and
/// is then dropped.
pub proof fn law_a_frame_goes_out_on_an_invitation_alone(at: u64, now: u64, deadline: u64)
    ensures
        now < at + 25_000 ==> answer(Readiness(Some(at)), now, deadline) == ReadyStep::Send,
        now >= at + 25_000 ==> answer(Readiness(Some(at)), now, deadline) != ReadyStep::Send,
        now < deadline ==> answer(Readiness(None), now, deadline) == ReadyStep::Wait,
        now >= deadline ==> answer(Readiness(None), now, deadline) == ReadyStep::Drop,
        now >= at + 25_000 ==> answer(Readiness(Some(at)), now, deadline) == answer(
            Readiness(None),
            now,
            deadline,
        ),
{
}

/// A board that has not answered is asked at once, then every quarter of a second
/// and no sooner, until the time it has is up.
pub proof fn law_a_board_is_asked_every_quarter_second(h: Handshake, now: u64, asked: u64)
    ensures
        now >= h.deadline ==> h.due(now) == HandshakeStep::GiveUp,
        now < h.deadline && h.probed is None ==> h.due(now) == HandshakeStep::Probe,
        now < h.deadline && h.probed == Some(asked) && now >= asked + 250_000 ==> h.due(now)
            == HandshakeStep::Probe,
        now < h.deadline && h.probed == Some(asked) && now < asked + 250_000 ==> h.due(now)
            == HandshakeStep::Listen,
{
}

} // verus!
