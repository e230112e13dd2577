//! The bridge to the editor: what each client is sent, and when.
//!
//! The engine is a headless service and the editor a client. A client is sent
//! the state once on connecting, on request, and whenever the engine announces
//! a change; between those it is sent frames at a steady rate. Commands travel
//! the other way and are drained by the engine between frames.

use vstd::prelude::*;
use vstd::string::*;

use crate::text::{hex_byte, lemma_hex_tells_bytes_apart, push_hex_byte};

verus! {

/// The port the editor looks for.
pub const DEFAULT_PORT: u16 = 9001;

/// How often each client is served, in milliseconds.
pub const SEND_INTERVAL: u64 = 33;

/// One pixel as six hexadecimal digits.
pub open spec fn pixel_text(px: [u8; 3]) -> Seq<char> {
    hex_byte(px@[0]) + hex_byte(px@[1]) + hex_byte(px@[2])
}

/// The first pixels of a strip as hexadecimal digits.
pub open spec fn strip_text(leds: Seq<[u8; 3]>, n: int) -> Seq<char>
    decreases n,
{
    if n <= 0 {
        Seq::empty()
    } else {
        strip_text(leds, n - 1) + pixel_text(leds[n - 1])
    }
}

/// The colours of the strip as hexadecimal digits, six to a pixel.
pub fn encode_strip(leds: &[[u8; 3]]) -> (out: String)
    ensures
        out@ == strip_text(leds@, leds@.len() as int),
        out@.len() == 6 * leds@.len(),
{
    let mut out = String::new();
    let mut i: usize = 0;
    while i < leds.len()
        invariant
            i <= leds@.len(),
            out@ == strip_text(leds@, i as int),
            out@.len() == 6 * i,
        decreases leds@.len() - i,
    {
        let ghost before = out@;
        let px = leds[i];
        push_hex_byte(&mut out, px[0]);
        push_hex_byte(&mut out, px[1]);
        push_hex_byte(&mut out, px[2]);
        assert(out@ =~= before + pixel_text(leds@[i as int]));
        i += 1;
    }
    out
}

/// A strip can be read back from its digits: six digits to a pixel, and no two
/// strips of one length have the same ones.
pub proof fn law_a_strip_reads_back(a: Seq<[u8; 3]>, b: Seq<[u8; 3]>)
    requires
        a.len() == b.len(),
        strip_text(a, a.len() as int) == strip_text(b, b.len() as int),
    ensures
        a == b,
    decreases a.len(),
{
    if a.len() == 0 {
        assert(a =~= b);
    } else {
        let n = a.len() as int;
        lemma_strip_len(a, n - 1);
        lemma_strip_len(b, n - 1);
        let x = strip_text(a, n);
        let y = strip_text(b, n);
        let m = 6 * (n - 1);
        assert(x.take(m) =~= strip_text(a, n - 1));
        assert(y.take(m) =~= strip_text(b, n - 1));
        lemma_strip_of_prefix(a, n - 1);
        lemma_strip_of_prefix(b, n - 1);
        law_a_strip_reads_back(a.drop_last(), b.drop_last());
        let p = a.last();
        let q = b.last();
        assert forall|c: int| 0 <= c < 3 implies p@[c] == q@[c] by {
            assert(hex_byte(p@[c]) =~= x.subrange(m + 2 * c, m + 2 * c + 2));
            assert(hex_byte(q@[c]) =~= y.subrange(m + 2 * c, m + 2 * c + 2));
            lemma_hex_tells_bytes_apart(p@[c], q@[c]);
        }
        assert(p@ =~= q@);
        assert(p == q) by {
            vstd::array::array_len_matches_n(&p);
            vstd::array::array_len_matches_n(&q);
            assert(p =~= q);
        }
        assert(a =~= a.drop_last().push(p));
        assert(b =~= b.drop_last().push(q));
    }
}

proof fn lemma_strip_len(leds: Seq<[u8; 3]>, n: int)
    requires
        n >= 0,
    ensures
        strip_text(leds, n).len() == 6 * n,
    decreases n,
{
    if n > 0 {
        lemma_strip_len(leds, n - 1);
    }
}

proof fn lemma_strip_of_prefix(leds: Seq<[u8; 3]>, n: int)
    requires
        0 <= n < leds.len(),
    ensures
        strip_text(leds.drop_last(), n) == strip_text(leds, n),
    decreases n,
{
    if n > 0 {
        lemma_strip_of_prefix(leds, n - 1);
    }
}

/// The version of the state the engine advertises. It moves when the engine
/// announces a change the editor could not have known of, so that a client can
/// tell that what it holds is stale without the server tracking who has seen
/// what.
pub struct Announced {
    version: u64,
}

impl View for Announced {
    type V = u64;

    closed spec fn view(&self) -> u64 {
        self.version
    }
}

impl Announced {
    /// The state a server starts with.
    pub fn new() -> (announced: Self)
        ensures
            announced@ == 0,
    {
        Announced { version: 0 }
    }

    /// The version being advertised.
    pub fn version(&self) -> (version: u64)
        ensures
            version == self@,
    {
        self.version
    }

    /// The state changed and everyone connected is to be told.
    pub fn announce_state(&mut self)
        ensures
            final(self)@ == if old(self)@ == u64::MAX {
                0
            } else {
                (old(self)@ + 1) as u64
            },
            final(self)@ != old(self)@,
    {
        self.version = self.version.wrapping_add(1);
    }
}

/// What the text of a message turned out to be.
pub enum Parsed {
    /// A request for the current state, which is answered here.
    RequestState,
    /// A command for the engine.
    Command,
    /// Not a command, and why not.
    Malformed(String),
}

/// What happened on a client's connection.
pub enum Event {
    /// The state went out, as of a version.
    StateSent(u64),
    /// A text message arrived.
    Text(Parsed),
    /// The client closed the connection.
    Closed,
    /// A message arrived that means nothing here.
    Ignored,
    /// There was nothing to read.
    Quiet,
    /// The engine took a command, or is gone.
    Forwarded(bool),
    /// A reply went out.
    Replied,
    /// The version being advertised now.
    Version(u64),
    /// A frame went out.
    FrameSent,
    /// The interval passed.
    Waited,
    /// Reading or sending failed.
    Failed,
}

/// What is to be done next on a client's connection.
pub enum Action {
    /// Send the current state.
    SendState,
    /// Read a message, without waiting.
    Read,
    /// Hand the command that was just read to the engine.
    Forward,
    /// Tell the client what was wrong with what it sent.
    Reply(String),
    /// Look up the version being advertised.
    Check,
    /// Send the latest frame.
    SendFrame,
    /// Wait for the interval.
    Wait,
    /// End the connection, in good order or because it failed.
    End(bool),
}

/// Where a client's connection stands.
enum Doing {
    SendingState,
    Refreshing,
    Reading,
    Forwarding,
    Replying(String),
    Checking,
    Framing,
    Waiting,
    Ended(bool),
}

/// Where a client's connection stands, by what is to be done.
pub ghost enum Turn {
    /// Sending the state to a client that connected or asked for it.
    SendingState,
    /// Sending the state to a client whose own is stale.
    Refreshing,
    Reading,
    Forwarding,
    Replying(Seq<char>),
    Checking,
    Framing,
    Waiting,
    Ended(bool),
}

/// One client's connection.
pub struct Client {
    doing: Doing,
    sent: u64,
}

/// What there is to know of a client's connection.
pub ghost struct Session {
    pub turn: Turn,
    /// The version of the state that went out last.
    pub sent: u64,
}

impl View for Client {
    type V = Session;

    closed spec fn view(&self) -> Session {
        Session {
            turn: match self.doing {
                Doing::SendingState => Turn::SendingState,
                Doing::Refreshing => Turn::Refreshing,
                Doing::Reading => Turn::Reading,
                Doing::Forwarding => Turn::Forwarding,
                Doing::Replying(message) => Turn::Replying(message@),
                Doing::Checking => Turn::Checking,
                Doing::Framing => Turn::Framing,
                Doing::Waiting => Turn::Waiting,
                Doing::Ended(ok) => Turn::Ended(ok),
            },
            sent: self.sent,
        }
    }
}

/// What a client is told about a message that is no command.
pub open spec fn complaint(why: Seq<char>) -> Seq<char> {
    "could not parse command: "@ + why
}

impl Session {
    /// The session after an event. A failure ends it, and an event that answers
    /// nothing that was asked changes nothing.
    pub open spec fn after(self, event: Event) -> Session {
        let to = |turn: Turn| Session { turn, ..self };
        match (self.turn, event) {
            (Turn::Ended(_), _) => self,
            (_, Event::Failed) => to(Turn::Ended(false)),
            (Turn::SendingState, Event::StateSent(version)) => Session {
                turn: Turn::Reading,
                sent: version,
            },
            (Turn::Refreshing, Event::StateSent(version)) => Session {
                turn: Turn::Framing,
                sent: version,
            },
            (Turn::Reading, Event::Text(parsed)) => match parsed {
                Parsed::RequestState => to(Turn::SendingState),
                Parsed::Command => to(Turn::Forwarding),
                Parsed::Malformed(why) => to(Turn::Replying(complaint(why@))),
            },
            (Turn::Reading, Event::Closed) => to(Turn::Ended(true)),
            (Turn::Reading, Event::Quiet) => to(Turn::Checking),
            (Turn::Forwarding, Event::Forwarded(taken)) => if taken {
                to(Turn::Reading)
            } else {
                to(Turn::Ended(true))
            },
            (Turn::Replying(_), Event::Replied) => to(Turn::Reading),
            (Turn::Checking, Event::Version(version)) => if version != self.sent {
                to(Turn::Refreshing)
            } else {
                to(Turn::Framing)
            },
            (Turn::Framing, Event::FrameSent) => to(Turn::Waiting),
            (Turn::Waiting, Event::Waited) => to(Turn::Reading),
            _ => self,
        }
    }

    /// Whether an action is what the session calls for.
    pub open spec fn asks(self, action: Action) -> bool {
        match self.turn {
            Turn::SendingState | Turn::Refreshing => action is SendState,
            Turn::Reading => action is Read,
            Turn::Forwarding => action is Forward,
            Turn::Replying(message) => action matches Action::Reply(m) && m@ == message,
            Turn::Checking => action is Check,
            Turn::Framing => action is SendFrame,
            Turn::Waiting => action is Wait,
            Turn::Ended(ok) => action matches Action::End(o) && o == ok,
        }
    }
}

impl Client {
    /// A client that has just connected, which is first of all sent the state.
    pub fn connect() -> (client: Self)
        ensures
            client@.turn == Turn::SendingState,
    {
        Client { doing: Doing::SendingState, sent: 0 }
    }

    /// What is to be done next.
    pub fn action(&self) -> (action: Action)
        ensures
            self@.asks(action),
    {
        match &self.doing {
            Doing::SendingState => Action::SendState,
            Doing::Refreshing => Action::SendState,
            Doing::Reading => Action::Read,
            Doing::Forwarding => Action::Forward,
            Doing::Replying(message) => Action::Reply(message.clone()),
            Doing::Checking => Action::Check,
            Doing::Framing => Action::SendFrame,
            Doing::Waiting => Action::Wait,
            Doing::Ended(ok) => Action::End(*ok),
        }
    }

    /// Something happened on the connection.
    pub fn handle(&mut self, event: Event)
        ensures
            final(self)@ == old(self)@.after(event),
    {
        let doing = match (&self.doing, event) {
            (Doing::Ended(_), _) => {
                return ;
            },
            (_, Event::Failed) => Doing::Ended(false),
            (Doing::SendingState, Event::StateSent(version)) => {
                self.sent = version;
                Doing::Reading
            },
            (Doing::Refreshing, Event::StateSent(version)) => {
                self.sent = version;
                Doing::Framing
            },
            (Doing::Reading, Event::Text(parsed)) => match parsed {
                Parsed::RequestState => Doing::SendingState,
                Parsed::Command => Doing::Forwarding,
                Parsed::Malformed(why) => {
                    let mut message = String::new();
                    message.append("could not parse command: ");
                    message.append(why.as_str());
                    assert(message@ =~= complaint(why@));
                    Doing::Replying(message)
                },
            },
            (Doing::Reading, Event::Closed) => Doing::Ended(true),
            (Doing::Reading, Event::Quiet) => Doing::Checking,
            (Doing::Forwarding, Event::Forwarded(taken)) => if taken {
                Doing::Reading
            } else {
                Doing::Ended(true)
            },
            (Doing::Replying(_), Event::Replied) => Doing::Reading,
            (Doing::Checking, Event::Version(version)) => if version != self.sent {
                Doing::Refreshing
            } else {
                Doing::Framing
            },
            (Doing::Framing, Event::FrameSent) => Doing::Waiting,
            (Doing::Waiting, Event::Waited) => Doing::Reading,
            _ => {
                return ;
            },
        };
        self.doing = doing;
    }
}

/// No client is sent a frame on top of stale state: a frame follows a check of
/// the version, and where that found another version, the state goes out first.
pub proof fn law_stale_state_is_refreshed_before_a_frame(
    session: Session,
    version: u64,
    sent: u64,
)
    requires
        session.turn == Turn::Checking,
    ensures
        session.sent == version ==> session.after(Event::Version(version)).turn == Turn::Framing,
        session.sent != version ==> {
            let next = session.after(Event::Version(version));
            &&& next.turn == Turn::Refreshing
            &&& next.after(Event::StateSent(sent)) == (Session { turn: Turn::Framing, sent })
        },
{
}

/// A malformed command is answered and the connection goes on.
pub proof fn law_malformed_commands_are_answered(session: Session, why: String)
    requires
        session.turn == Turn::Reading,
    ensures
        ({
            let next = session.after(Event::Text(Parsed::Malformed(why)));
            &&& next.turn == Turn::Replying(complaint(why@))
            &&& next.after(Event::Replied) == session
        }),
{
}

/// A client only ever gets a frame after everything it had sent was read: the
/// check that precedes a frame follows a read that found nothing.
pub proof fn law_commands_are_read_before_a_frame(session: Session, event: Event)
    requires
        session.turn != Turn::Checking,
    ensures
        session.after(event).turn == Turn::Checking ==> session.turn == Turn::Reading
            && event is Quiet,
{
}

/// The digits of a strip stand in its order: those of the first pixel first, and
/// of each pixel red, green and blue.
pub proof fn law_a_strip_is_written_in_order(leds: Seq<[u8; 3]>, n: int, i: int, c: int)
    requires
        0 <= i < n <= leds.len(),
        0 <= c < 3,
    ensures
        strip_text(leds, n).len() == 6 * n,
        strip_text(leds, n).subrange(6 * i + 2 * c, 6 * i + 2 * c + 2) == hex_byte(leds[i]@[c]),
    decreases n,
{
    lemma_strip_len(leds, n);
    lemma_strip_len(leds, n - 1);
    let at = 6 * i + 2 * c;
    if i == n - 1 {
        assert(strip_text(leds, n).subrange(at, at + 2) =~= hex_byte(leds[i]@[c]));
    } else {
        law_a_strip_is_written_in_order(leds, n - 1, i, c);
        assert(strip_text(leds, n).subrange(at, at + 2) =~= strip_text(leds, n - 1).subrange(
            at,
            at + 2,
        ));
    }
}

/// What a client asks for it gets: the state is sent on request, a command is
/// handed to the engine, and either way the next message is read. A client whose
/// engine is gone, or that closes, is let go in good order, and one whose
/// connection fails is not.
pub proof fn law_what_a_client_asks_for_it_gets(session: Session, version: u64, action: Action)
    requires
        session.turn == Turn::Reading,
    ensures
        ({
            let asked = session.after(Event::Text(Parsed::RequestState));
            &&& asked.asks(action) ==> action is SendState
            &&& asked.after(Event::StateSent(version)) == (Session {
                turn: Turn::Reading,
                sent: version,
            })
        }),
        ({
            let given = session.after(Event::Text(Parsed::Command));
            &&& given.asks(action) ==> action is Forward
            &&& given.after(Event::Forwarded(true)) == session
            &&& given.after(Event::Forwarded(false)).asks(action) ==> action == Action::End(true)
        }),
        session.after(Event::Closed).asks(action) ==> action == Action::End(true),
        session.after(Event::Failed).asks(action) ==> action == Action::End(false),
        session.after(Event::Ignored) == session,
{
}

/// A client with nothing to say is sent a frame, and then the interval passes
/// before it is asked again.
pub proof fn law_a_quiet_client_is_sent_frames(session: Session, action: Action)
    requires
        session.turn == Turn::Reading,
    ensures
        ({
            let checked = session.after(Event::Quiet);
            let framing = checked.after(Event::Version(session.sent));
            let waiting = framing.after(Event::FrameSent);
            &&& checked.asks(action) ==> action is Check
            &&& framing.asks(action) ==> action is SendFrame
            &&& waiting.asks(action) ==> action is Wait
            &&& waiting.after(Event::Waited) == session
        }),
{
}

/// A connection that has ended stays ended, and one that fails ends whatever it
/// was doing.
pub proof fn law_an_end_is_an_end(session: Session, event: Event)
    ensures
        session.turn is Ended ==> session.after(event) == session,
        !(session.turn is Ended) ==> session.after(Event::Failed).turn == Turn::Ended(false),
{
}

} // verus!
