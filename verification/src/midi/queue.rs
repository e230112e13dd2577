//! The queue between the driver's callback and the engine.
//!
//! The callback does nothing but parse three bytes and push them into a
//! lock-free ring, and everything else happens on the thread draining it. The
//! two ends live on two threads, so what one end finds depends on how far the
//! other has got.

use ringbuf::traits::{Consumer, Producer, Split};
use ringbuf::{HeapCons, HeapProd, HeapRb};
use vstd::prelude::*;

use super::{parse, voice_message, Message};

verus! {

/// Messages buffered between the driver callback and the engine. Three bytes
/// each, so this is generous: a fast trill is tens of messages a second, and
/// the ring is drained every couple of milliseconds.
pub const RING: usize = 2048;

/// The callback's end: the producing half of a `ringbuf` heap ring.
#[verifier::external_body]
pub struct Outbox {
    producer: HeapProd<Message>,
}

/// The engine's end: the consuming half of a `ringbuf` heap ring.
#[verifier::external_body]
pub struct Inbox {
    consumer: HeapCons<Message>,
}

/// The messages an end has put on its ring so far, oldest first.
pub uninterp spec fn sent(outbox: Outbox) -> Seq<Message>;

/// The messages an end has taken off its ring so far, oldest first.
pub uninterp spec fn taken(inbox: Inbox) -> Seq<Message>;

/// How many messages the ring of an end can hold, which is what it was made with.
pub uninterp spec fn room(outbox: Outbox) -> nat;

/// `HeapRb::new` and `split`: an empty ring with room for `capacity` messages,
/// taken apart into its two ends, through which nothing has gone yet. A ring
/// without room is not made. That what is taken is what was sent, in that order,
/// is not stated: each end knows only of its own half.
#[verifier::external_body]
fn ring(capacity: usize) -> (ends: (Outbox, Inbox))
    requires
        capacity > 0,
    ensures
        sent(ends.0) == Seq::<Message>::empty(),
        taken(ends.1) == Seq::<Message>::empty(),
        room(ends.0) == capacity,
{
    let (producer, consumer) = HeapRb::<Message>::new(capacity).split();
    (Outbox { producer }, Inbox { consumer })
}

/// A fresh queue between a callback and the engine.
pub fn queue() -> (ends: (Outbox, Inbox))
    ensures
        sent(ends.0) == Seq::<Message>::empty(),
        taken(ends.1) == Seq::<Message>::empty(),
        room(ends.0) == RING,
{
    ring(RING)
}

/// How many messages have been lost once one more was offered. The count wraps
/// rather than stopping the callback.
pub fn lost(dropped: u64, accepted: bool) -> (n: u64)
    ensures
        accepted ==> n == dropped,
        !accepted ==> n as int == (dropped + 1) % 0x1_0000_0000_0000_0000,
{
    if accepted {
        dropped
    } else {
        dropped.wrapping_add(1)
    }
}

impl Outbox {
    /// `Producer::try_push`: put a message on the end of the ring, unless the
    /// ring is full, and say whether it went on. A ring holds no more than was
    /// put on it, so one that fewer were put on than it has room for is not
    /// full. Past that, whether it is depends on how far the other end has got.
    #[verifier::external_body]
    fn try_push(&mut self, msg: Message) -> (accepted: bool)
        ensures
            sent(*final(self)) == if accepted {
                sent(*old(self)).push(msg)
            } else {
                sent(*old(self))
            },
            room(*final(self)) == room(*old(self)),
            sent(*old(self)).len() < room(*old(self)) ==> accepted,
    {
        self.producer.try_push(msg).is_ok()
    }

    /// Take what the driver delivered: a channel voice message goes on the
    /// queue, anything else is dropped. Returns how many messages have been
    /// lost to a full queue so far. A full one means the engine has stalled for
    /// seconds, and counting is all that can be done here: blocking the
    /// driver's callback would be worse than losing a note.
    pub fn deliver(&mut self, bytes: &[u8], dropped: u64) -> (n: u64)
        ensures
            match voice_message(bytes@) {
                Some(msg) => {
                    ||| n == dropped && sent(*final(self)) == sent(*old(self)).push(msg)
                    ||| n as int == (dropped + 1) % 0x1_0000_0000_0000_0000 && sent(*final(self))
                        == sent(*old(self))
                },
                None => n == dropped && sent(*final(self)) == sent(*old(self)),
            },
            voice_message(bytes@) is Some && sent(*old(self)).len() < room(*old(self)) ==> n
                == dropped && sent(*final(self)) == sent(*old(self)).push(
                voice_message(bytes@)->0,
            ),
            room(*final(self)) == room(*old(self)),
    {
        match parse(bytes) {
            Some(msg) => {
                let accepted = self.try_push(msg);
                lost(dropped, accepted)
            },
            None => dropped,
        }
    }
}

impl Inbox {
    /// `Consumer::pop_slice`: move the oldest messages out of the ring into the
    /// front of `out`, as many as there are and as fit, and say how many. The
    /// rest of `out` stays as it was. How many come, and which, depends on how
    /// far the other end has got, so no clause says that any do.
    #[verifier::external_body]
    pub(crate) fn pop_slice(&mut self, out: &mut [Message]) -> (n: usize)
        ensures
            n <= old(out)@.len(),
            final(out)@.len() == old(out)@.len(),
            final(out)@.skip(n as int) == old(out)@.skip(n as int),
            taken(*final(self)) == taken(*old(self)) + final(out)@.take(n as int),
    {
        self.consumer.pop_slice(out)
    }
}

} // verus!
