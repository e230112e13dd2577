//! Whether a layer's field moves, and which key it starts from.
//!
//! A key's place in the loop is given by its rank: a number that is larger for a
//! later key and equal for an equal place.

use vstd::prelude::*;

verus! {

/// Which field a layer paints with.
#[derive(Clone, Copy, Debug, PartialEq, Eq, Structural)]
pub enum Field {
    /// The layer's own still field: there is no key to go by.
    Still,
    /// The field of one key, held.
    Held(usize),
    /// All the keys, one after the other.
    Animated,
}

/// Whether a timeline actually moves. One key is a still field, and so is a
/// timeline switched off.
pub open spec fn moves(enabled: bool, keys: nat) -> bool {
    enabled && keys >= 2
}

/// Whether a timeline actually moves.
pub fn animates(enabled: bool, keys: usize) -> (yes: bool)
    ensures
        yes == moves(enabled, keys as nat),
{
    enabled && keys >= 2
}

/// Whether a key is the one a loop starts from: the earliest, and of several as
/// early the first in the list. A key without a place in the loop is none.
pub open spec fn starts(places: Seq<Option<u64>>, at: int) -> bool {
    &&& 0 <= at < places.len()
    &&& places[at] is Some
    &&& forall|j: int|
        0 <= j < places.len() && (#[trigger] places[j]) is Some ==> {
            &&& places[at]->0 <= places[j]->0
            &&& j < at ==> places[at]->0 < places[j]->0
        }
}

/// The key the loop starts from, if any key has a place in it.
pub fn start(places: &[Option<u64>]) -> (key: Option<usize>)
    ensures
        match key {
            Some(at) => starts(places@, at as int),
            None => forall|j: int| 0 <= j < places@.len() ==> (#[trigger] places@[j]) is None,
        },
{
    let mut best: Option<usize> = None;
    let mut i: usize = 0;
    while i < places.len()
        invariant
            i <= places@.len(),
            match best {
                Some(at) => {
                    &&& at < i
                    &&& places@[at as int] is Some
                    &&& forall|j: int|
                        0 <= j < i && (#[trigger] places@[j]) is Some ==> {
                            &&& places@[at as int]->0 <= places@[j]->0
                            &&& j < at ==> places@[at as int]->0 < places@[j]->0
                        }
                },
                None => forall|j: int| 0 <= j < i ==> (#[trigger] places@[j]) is None,
            },
        decreases places@.len() - i,
    {
        match places[i] {
            Some(place) => {
                match best {
                    Some(at) => {
                        match places[at] {
                            Some(earliest) => {
                                if place < earliest {
                                    best = Some(i);
                                }
                            },
                            None => {},
                        }
                    },
                    None => {
                        best = Some(i);
                    },
                }
            },
            None => {},
        }
        i += 1;
    }
    best
}

/// Whether a field is the one a layer paints with: its keys wherever there are
/// any, and its still field where there are none.
pub open spec fn painted_with(enabled: bool, places: Seq<Option<u64>>, field: Field) -> bool {
    match field {
        Field::Still => forall|j: int| 0 <= j < places.len() ==> (#[trigger] places[j]) is None,
        Field::Held(at) => starts(places, at as int) && !moves(enabled, places.len()),
        Field::Animated => moves(enabled, places.len()) && exists|j: int|
            0 <= j < places.len() && (#[trigger] places[j]) is Some,
    }
}

/// The field a layer paints with: its keys wherever there are any, and its still
/// field where there are none.
pub fn for_layer(enabled: bool, places: &[Option<u64>]) -> (field: Field)
    ensures
        painted_with(enabled, places@, field),
{
    match start(places) {
        Some(at) => {
            assert(places@[at as int] is Some);
            if animates(enabled, places.len()) {
                Field::Animated
            } else {
                Field::Held(at)
            }
        },
        None => Field::Still,
    }
}

/// There is only one key a loop can start from.
pub proof fn law_a_loop_starts_from_one_key(places: Seq<Option<u64>>, a: int, b: int)
    requires
        starts(places, a),
        starts(places, b),
    ensures
        a == b,
{
    assert(places[a] is Some);
    assert(places[b] is Some);
}

/// A loop starts from its earliest key, and of several as early from the first
/// that was authored.
pub proof fn law_a_loop_starts_from_its_earliest_key(places: Seq<Option<u64>>, at: int, other: int)
    requires
        starts(places, at),
        0 <= other < places.len(),
        places[other] is Some,
    ensures
        0 <= at < places.len(),
        places[at] is Some,
        places[at]->0 <= places[other]->0,
        places[at]->0 == places[other]->0 ==> at <= other,
{
}

/// Two keys or more move where the timeline is on, and nothing else does.
pub proof fn law_it_takes_two_keys_to_move(keys: nat)
    ensures
        !moves(false, keys),
        moves(true, keys + 2),
        !moves(true, 1),
        !moves(true, 0),
{
}

/// A layer without keys in the loop paints its own field. One with keys paints
/// from them: all of them, one after the other, where the timeline is on and
/// there are at least two, and otherwise the earliest.
pub proof fn law_keys_are_painted_where_there_are_any(
    enabled: bool,
    places: Seq<Option<u64>>,
    field: Field,
    key: int,
)
    requires
        painted_with(enabled, places, field),
        0 <= key < places.len(),
    ensures
        places[key] is Some ==> field != Field::Still,
        places[key] is Some && enabled && places.len() >= 2 ==> field == Field::Animated,
        places[key] is Some && (!enabled || places.len() < 2) ==> (field matches Field::Held(at)
            && at < places.len() && places[at as int] is Some && places[at as int]->0
            <= places[key]->0),
        (forall|j: int| 0 <= j < places.len() ==> (#[trigger] places[j]) is None) ==> field
            == Field::Still,
{
}

} // verus!
