//! Putting things in order without disturbing what is equal.

use vstd::prelude::*;

verus! {

/// Something that can come before something else.
pub trait Ranked: Sized {
    /// Whether this one comes strictly first.
    spec fn before(self, other: Self) -> bool;

    /// Coming first is a strict weak order.
    proof fn lemma_order(a: Self, b: Self, c: Self)
        ensures
            !a.before(a),
            a.before(b) ==> !b.before(a),
            a.before(b) && b.before(c) ==> a.before(c),
            !a.before(b) && !b.before(c) ==> !a.before(c),
    ;

    /// Whether this one comes strictly first.
    fn is_before(&self, other: &Self) -> (yes: bool)
        ensures
            yes == self.before(*other),
    ;
}

/// Whether the item at one place goes before the item at another: by rank, and
/// among equals by place.
pub open spec fn goes_before<K: Ranked>(keys: Seq<K>, a: int, b: int) -> bool {
    keys[a].before(keys[b]) || (!keys[b].before(keys[a]) && a < b)
}

/// Whether an order lists every place exactly once, each before those it goes
/// before.
pub open spec fn in_order<K: Ranked>(keys: Seq<K>, order: Seq<usize>) -> bool {
    &&& order.len() == keys.len()
    &&& forall|i: int| 0 <= i < order.len() ==> (#[trigger] order[i]) < keys.len()
    &&& forall|k: int| 0 <= k < keys.len() ==> #[trigger] order.contains(k as usize)
    &&& forall|i: int, j: int|
        0 <= i < j < order.len() ==> #[trigger] goes_before(
            keys,
            order[i] as int,
            order[j] as int,
        )
}

/// The order of some items by rank, equal ones staying in the order they came.
pub fn stable_order<K: Ranked>(keys: &[K]) -> (order: Vec<usize>)
    ensures
        in_order(keys@, order@),
{
    let mut order: Vec<usize> = Vec::new();
    let mut i: usize = 0;
    while i < keys.len()
        invariant
            i <= keys@.len(),
            order@.len() == i,
            forall|p: int| 0 <= p < i ==> (#[trigger] order@[p]) < i,
            forall|k: int| 0 <= k < i ==> #[trigger] order@.contains(k as usize),
            forall|p: int, q: int|
                0 <= p < q < i ==> #[trigger] goes_before(
                    keys@,
                    order@[p] as int,
                    order@[q] as int,
                ),
        decreases keys@.len() - i,
    {
        let mut at: usize = i;
        while at > 0 && keys[i].is_before(&keys[order[at - 1]])
            invariant
                at <= i,
                i < keys@.len(),
                order@.len() == i,
                forall|p: int| 0 <= p < i ==> (#[trigger] order@[p]) < i,
                forall|p: int|
                    at <= p < i ==> keys@[i as int].before(keys@[(#[trigger] order@[p]) as int]),
            decreases at,
        {
            at -= 1;
        }
        let ghost was = order@;
        proof {
            assert forall|p: int| 0 <= p < at implies !keys@[i as int].before(
                keys@[(#[trigger] was[p]) as int],
            ) by {
                let last = was[at - 1] as int;
                if p < at - 1 {
                    assert(goes_before(keys@, was[p] as int, was[at - 1] as int));
                    K::lemma_order(keys@[was[p] as int], keys@[last], keys@[i as int]);
                    K::lemma_order(keys@[i as int], keys@[last], keys@[was[p] as int]);
                }
            }
        }
        order.insert(at, i);
        proof {
            assert forall|k: int| 0 <= k < i + 1 implies #[trigger] order@.contains(
                k as usize,
            ) by {
                if k == i {
                    assert(order@[at as int] == k as usize);
                } else {
                    assert(was.contains(k as usize));
                    let p = choose|p: int| 0 <= p < was.len() && was[p] == k as usize;
                    if p < at {
                        assert(order@[p] == k as usize);
                    } else {
                        assert(order@[p + 1] == k as usize);
                    }
                }
            }
            assert forall|p: int, q: int| 0 <= p < q < i + 1 implies #[trigger] goes_before(
                keys@,
                order@[p] as int,
                order@[q] as int,
            ) by {
                let old_p = if p < at {
                    p
                } else {
                    p - 1
                };
                let old_q = if q < at {
                    q
                } else {
                    q - 1
                };
                if p == at {
                    assert(order@[q] == was[old_q]);
                    K::lemma_order(
                        keys@[i as int],
                        keys@[was[old_q] as int],
                        keys@[i as int],
                    );
                } else if q == at {
                    assert(order@[p] == was[p]);
                } else {
                    assert(order@[p] == was[old_p]);
                    assert(order@[q] == was[old_q]);
                    assert(goes_before(keys@, was[old_p] as int, was[old_q] as int));
                }
            }
        }
        i += 1;
    }
    order
}

impl Ranked for u64 {
    open spec fn before(self, other: Self) -> bool {
        self < other
    }

    proof fn lemma_order(a: Self, b: Self, c: Self) {
    }

    fn is_before(&self, other: &Self) -> (yes: bool) {
        *self < *other
    }
}

/// A number that ranks by size, the largest first.
#[derive(Clone, Copy, Debug, PartialEq, Eq, Structural)]
pub struct Descending(pub u64);

impl Ranked for Descending {
    open spec fn before(self, other: Self) -> bool {
        self.0 > other.0
    }

    proof fn lemma_order(a: Self, b: Self, c: Self) {
    }

    fn is_before(&self, other: &Self) -> (yes: bool) {
        self.0 > other.0
    }
}

/// There is only one such order: rank and place decide every position.
pub proof fn law_the_order_is_unique<K: Ranked>(
    keys: Seq<K>,
    first: Seq<usize>,
    second: Seq<usize>,
    at: int,
)
    requires
        in_order(keys, first),
        in_order(keys, second),
        0 <= at < keys.len(),
    ensures
        first[at] == second[at],
    decreases at,
{
    assert forall|i: int| 0 <= i < at implies first[i] == second[i] by {
        law_the_order_is_unique(keys, first, second, i);
    }
    let a = first[at] as int;
    let b = second[at] as int;
    if a != b {
        assert(second.contains(a as usize));
        let p = choose|p: int| 0 <= p < second.len() && second[p] == first[at];
        assert(first.contains(b as usize));
        let q = choose|q: int| 0 <= q < first.len() && first[q] == second[at];
        if p < at {
            assert(first[p] == second[p]);
            assert(goes_before(keys, first[p] as int, first[at] as int));
            K::lemma_order(keys[a], keys[a], keys[a]);
        } else if q < at {
            assert(first[q] == second[q]);
            assert(goes_before(keys, second[q] as int, second[at] as int));
            K::lemma_order(keys[b], keys[b], keys[b]);
        } else {
            assert(goes_before(keys, second[at] as int, second[p] as int));
            assert(goes_before(keys, first[at] as int, first[q] as int));
            K::lemma_order(keys[a], keys[b], keys[a]);
        }
    }
}

/// Numbers in order go up, equal ones stay in the order they came, and every one
/// of them is there once.
pub proof fn law_numbers_go_up(keys: Seq<u64>, order: Seq<usize>, i: int, j: int)
    requires
        in_order(keys, order),
        0 <= i < j < order.len(),
    ensures
        order.len() == keys.len(),
        order[i] < keys.len() && order[j] < keys.len(),
        keys[order[i] as int] <= keys[order[j] as int],
        keys[order[i] as int] == keys[order[j] as int] ==> order[i] < order[j],
        order[i] != order[j],
        forall|k: usize| k < keys.len() ==> #[trigger] order.contains(k),
{
    assert(goes_before(keys, order[i] as int, order[j] as int));
    assert forall|k: usize| k < keys.len() implies #[trigger] order.contains(k) by {
        assert(order.contains(k as int as usize));
    }
}

/// Numbers that rank the largest first go down, equal ones staying in the order
/// they came.
pub proof fn law_descending_numbers_go_down(
    keys: Seq<Descending>,
    order: Seq<usize>,
    i: int,
    j: int,
)
    requires
        in_order(keys, order),
        0 <= i < j < order.len(),
    ensures
        keys[order[i] as int].0 >= keys[order[j] as int].0,
        keys[order[i] as int].0 == keys[order[j] as int].0 ==> order[i] < order[j],
        order[i] != order[j],
{
    assert(goes_before(keys, order[i] as int, order[j] as int));
}

} // verus!
