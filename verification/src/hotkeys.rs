//! System-wide key combinations, one per preset slot.
//!
//! A combination another application already holds is refused, and there is
//! nothing to be done about it from here. So a refusal is reported rather than
//! treated as an error: eleven working keys and one that belongs to something
//! else is a usable state, and being told which one is missing is the
//! difference between that and a key that seems broken.

use vstd::prelude::*;
use vstd::string::*;

use crate::presets::SLOTS;
use crate::text::{decimal, push_decimal};

verus! {

/// Registered combinations and the slots they have fired.
pub struct Hotkeys {
    fired: Vec<usize>,
    /// Slots whose combination was refused, in order. Held so the startup
    /// banner can name them.
    refused: Vec<usize>,
}

/// What there is to know of the registered combinations.
pub ghost struct Keyboard {
    /// Slots struck and not yet taken, oldest first.
    pub fired: Seq<usize>,
    pub refused: Seq<usize>,
}

impl View for Hotkeys {
    type V = Keyboard;

    closed spec fn view(&self) -> Keyboard {
        Keyboard { fired: self.fired@, refused: self.refused@ }
    }
}

/// The slots among the first `n` whose combination was refused, in order.
pub open spec fn refusals(claims: Seq<bool>, n: int) -> Seq<usize>
    decreases n,
{
    if n <= 0 {
        Seq::empty()
    } else if claims[n - 1] {
        refusals(claims, n - 1)
    } else {
        refusals(claims, n - 1).push((n - 1) as usize)
    }
}

/// How the combination for a slot reads.
pub open spec fn label_text(slot: nat) -> Seq<char> {
    "ctrl+alt+F"@ + decimal(slot + 1)
}

/// Which slots were refused, given what became of every registration, or an
/// error on a system that has no such registration.
pub fn spawn(claims: &Option<Vec<bool>>) -> (outcome: Result<Vec<usize>, String>)
    requires
        claims matches Some(c) ==> c@.len() == SLOTS,
    ensures
        match *claims {
            Some(c) => outcome matches Ok(refused) && refused@ == refusals(c@, SLOTS as int),
            None => outcome matches Err(e) && e@
                == "global hotkeys need Windows; select presets in the editor instead"@,
        },
{
    match claims {
        Some(c) => {
            let mut refused: Vec<usize> = Vec::new();
            let mut slot: usize = 0;
            while slot < SLOTS
                invariant
                    slot <= SLOTS,
                    c@.len() == SLOTS,
                    refused@ == refusals(c@, slot as int),
                decreases SLOTS - slot,
            {
                if !c[slot] {
                    refused.push(slot);
                }
                slot += 1;
            }
            Ok(refused)
        },
        None => Err("global hotkeys need Windows; select presets in the editor instead".to_owned()),
    }
}

impl Hotkeys {
    /// Take over what became of the registrations.
    pub fn start(claims: &Option<Vec<bool>>) -> (outcome: Result<Self, String>)
        requires
            claims matches Some(c) ==> c@.len() == SLOTS,
        ensures
            match *claims {
                Some(c) => outcome matches Ok(keys) && keys@ == (Keyboard {
                    fired: Seq::empty(),
                    refused: refusals(c@, SLOTS as int),
                }),
                None => outcome matches Err(e) && e@
                    == "global hotkeys need Windows; select presets in the editor instead"@,
            },
    {
        match spawn(claims) {
            Ok(refused) => Ok(Hotkeys { fired: Vec::new(), refused }),
            Err(e) => Err(e),
        }
    }

    /// A combination was struck. Anything but a slot is not ours.
    pub fn struck(&mut self, slot: usize)
        ensures
            final(self)@ == (Keyboard {
                fired: if slot < SLOTS {
                    old(self)@.fired.push(slot)
                } else {
                    old(self)@.fired
                },
                ..old(self)@
            }),
    {
        if slot < SLOTS {
            self.fired.push(slot);
        }
    }

    /// Slots struck since the last drain, oldest first.
    pub fn drain(&mut self) -> (slots: Vec<usize>)
        ensures
            slots@ == old(self)@.fired,
            final(self)@ == (Keyboard { fired: Seq::empty(), ..old(self)@ }),
    {
        let mut slots: Vec<usize> = Vec::new();
        slots.extend_from_slice(self.fired.as_slice());
        self.fired.clear();
        assert(slots@ =~= old(self)@.fired);
        slots
    }

    /// Slots whose combination was refused, in order.
    pub fn refused(&self) -> (slots: &[usize])
        ensures
            slots@ == self@.refused,
    {
        self.refused.as_slice()
    }

    /// How the combination for a slot reads: slots count from zero and function
    /// keys from one, which is the only place those two meet.
    pub fn label(slot: usize) -> (out: String)
        ensures
            out@ == label_text(slot as nat),
    {
        let mut out = String::new();
        out.append("ctrl+alt+F");
        push_decimal(&mut out, slot as u128 + 1);
        assert(out@ =~= label_text(slot as nat));
        out
    }
}

/// A slot is named as refused exactly when its registration was refused.
pub proof fn law_refusals_name_the_refused(claims: Seq<bool>, n: int, slot: usize)
    requires
        0 <= n <= claims.len() <= usize::MAX,
    ensures
        refusals(claims, n).contains(slot) <==> slot < n && !claims[slot as int],
    decreases n,
{
    if n > 0 {
        law_refusals_name_the_refused(claims, n - 1, slot);
        let rest = refusals(claims, n - 1);
        if !claims[n - 1] {
            let all = rest.push((n - 1) as usize);
            assert(all.last() == (n - 1) as usize);
            if rest.contains(slot) {
                let i = rest.index_of(slot);
                assert(all[i] == slot);
            }
        }
    }
}

} // verus!
