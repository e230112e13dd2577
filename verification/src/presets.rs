//! Twelve saved shows, one of them live.
//!
//! There is no save button: every config the editor sends is stored into
//! whichever slot is active. Writes therefore happen at pointer-drag rate, so
//! they are coalesced: an edit marks the store dirty and [`Presets::tick`]
//! hands out something to write at most once every [`WRITE_DELAY`]. A switch
//! hands out the slot being left first, so it is always on disk before the slot
//! being entered replaces it in memory.
//!
//! A slot nothing has been authored into is *not* the same as a slot holding
//! the default show. Chosen in the preset bar, it opens a blank canvas; struck
//! as a hotkey, it does nothing.
//!
//! The file itself is the application's: it reads one at startup, writes what
//! it is handed, and says how that went. A show is held as the text it is
//! stored as. Times are milliseconds on a clock of the caller's that never runs
//! backwards.

use vstd::prelude::*;

use crate::source::{copy_text, text_of};
use crate::text;
use crate::text::{blank, decimal, is_blank, push_decimal, same, trim, trimmed};

verus! {

/// Slots, and therefore hotkeys. The keyboard is what fixes this number: there
/// is no thirteenth function key.
pub const SLOTS: usize = 12;

/// How long an edit sits in memory before it reaches the disk. Long enough that
/// dragging a keyframe is one write rather than sixty, short enough that
/// pulling the power after an edit loses nothing anyone would notice.
pub const WRITE_DELAY: u64 = 750;

/// Bumped only if the stored shape changes incompatibly.
pub const VERSION: u32 = 1;

/// One slot.
#[derive(Debug, PartialEq, Eq)]
pub struct Slot {
    pub name: String,
    /// The stored show. `None` for a slot nothing has been authored into.
    pub show: Option<String>,
}

/// A slot, by what it holds.
pub ghost struct SlotView {
    pub name: Seq<char>,
    pub show: Option<Seq<char>>,
}

impl View for Slot {
    type V = SlotView;

    open spec fn view(&self) -> SlotView {
        SlotView { name: self.name@, show: text_of(self.show) }
    }
}

impl Clone for Slot {
    fn clone(&self) -> (slot: Self)
        ensures
            slot@ == self@,
    {
        Slot { name: self.name.clone(), show: copy_text(&self.show) }
    }
}

/// What the editor is told about a slot: enough to label one chip of the preset
/// bar, and nothing else.
#[derive(Clone, Debug, PartialEq, Eq)]
pub struct PresetInfo {
    pub name: String,
    /// Whether anything has been authored here.
    pub stored: bool,
}

/// The slots of a list.
pub open spec fn slot_views(slots: Seq<Slot>) -> Seq<SlotView> {
    Seq::new(slots.len(), |i: int| slots[i]@)
}

/// What is stored: which slot was live, so a restart comes back to the show
/// that was on the wall, and the slots.
#[derive(Debug, PartialEq, Eq)]
pub struct Stored {
    pub version: u32,
    pub active: usize,
    pub slots: Vec<Slot>,
}

/// What came of reading the file at startup.
pub enum Loaded {
    /// There is none: the normal first run.
    Missing,
    /// It was read and understood.
    Understood(Stored),
    /// It was read and makes no sense.
    Garbled(String),
    /// It could not be read.
    Unread(String),
}

/// The name of a slot nobody named.
pub open spec fn default_slot_name(slot: int) -> Seq<char> {
    "Preset "@ + decimal((slot + 1) as nat)
}

/// The name of a slot nobody named.
pub fn default_name(slot: usize) -> (name: String)
    ensures
        name@ == default_slot_name(slot as int),
{
    let mut name = String::from_str("Preset ");
    push_decimal(&mut name, slot as u128 + 1);
    name
}

/// The whole store, by what it holds.
pub ghost struct Store {
    pub slots: Seq<SlotView>,
    pub active: int,
    /// Whether something has not been handed out for writing yet.
    pub dirty: bool,
    /// When something was last handed out.
    pub wrote: Option<u64>,
    pub error: Option<Seq<char>>,
}

impl Store {
    /// Twelve slots, one of them live, none of them without a name.
    pub open spec fn wf(self) -> bool {
        &&& self.slots.len() == SLOTS
        &&& 0 <= self.active < SLOTS
        &&& forall|i: int| 0 <= i < SLOTS ==> !is_blank((#[trigger] self.slots[i]).name)
    }

    /// What the disk is to hold.
    pub open spec fn contents(self) -> (int, Seq<SlotView>) {
        (self.active, self.slots)
    }

    /// Whether there is something to write and the coalescing delay has passed.
    pub open spec fn due(self, now: u64) -> bool {
        self.dirty && match self.wrote {
            Some(at) => now - at >= WRITE_DELAY,
            None => true,
        }
    }

    /// With everything there is to write handed out.
    pub open spec fn flushed(self, now: u64) -> Store {
        if self.dirty {
            Store { dirty: false, wrote: Some(now), ..self }
        } else {
            self
        }
    }

    /// With another slot live, the one being left handed out first. A slot that
    /// does not exist, or the one already live, changes nothing.
    pub open spec fn selecting(self, slot: usize, now: u64) -> Store {
        if slot >= SLOTS || slot == self.active {
            self
        } else {
            Store { active: slot as int, dirty: true, ..self.flushed(now) }
        }
    }

    /// With a show in the live slot. One that is there already changes nothing.
    pub open spec fn storing(self, show: Seq<char>) -> Store {
        let held = self.slots[self.active];
        if held.show == Some(show) {
            self
        } else {
            Store {
                slots: self.slots.update(self.active, SlotView { show: Some(show), ..held }),
                dirty: true,
                ..self
            }
        }
    }

    /// With a slot renamed. A blank name is the positional one, and a name that
    /// is there already changes nothing.
    pub open spec fn renaming(self, slot: usize, name: Seq<char>) -> Store {
        let wanted = if is_blank(name) {
            default_slot_name(slot as int)
        } else {
            trimmed(name)
        };
        if slot >= SLOTS || self.slots[slot as int].name == wanted {
            self
        } else {
            Store {
                slots: self.slots.update(
                    slot as int,
                    SlotView { name: wanted, ..self.slots[slot as int] },
                ),
                dirty: true,
                ..self
            }
        }
    }

    /// With one edit made.
    pub open spec fn with_edit(self, edit: Edit) -> Store {
        match edit {
            Edit::Store(show) => self.storing(show),
            Edit::Rename(slot, name) => self.renaming(slot, name),
        }
    }

    /// With some edits made, the first one first.
    pub open spec fn edited(self, edits: Seq<Edit>) -> Store
        decreases edits.len(),
    {
        if edits.len() == 0 {
            self
        } else {
            self.edited(edits.drop_last()).with_edit(edits.last())
        }
    }
}

/// An edit to what is stored.
pub ghost enum Edit {
    /// A show for the live slot.
    Store(Seq<char>),
    /// A name for a slot.
    Rename(usize, Seq<char>),
}

/// A slot as it comes up from what was stored for it. A blank name keeps the
/// positional one.
pub open spec fn loaded_slot(stored: Seq<SlotView>, i: int) -> SlotView {
    if i < stored.len() {
        SlotView {
            name: if is_blank(stored[i].name) {
                default_slot_name(i)
            } else {
                stored[i].name
            },
            show: stored[i].show,
        }
    } else {
        SlotView { name: default_slot_name(i), show: None }
    }
}

/// A store as it comes up from what was stored. A short file fills the rest in,
/// and a slot that does not exist is not live.
pub open spec fn restored(active: int, stored: Seq<SlotView>) -> Store {
    Store {
        slots: Seq::new(SLOTS as nat, |i: int| loaded_slot(stored, i)),
        active: if active < SLOTS {
            active
        } else {
            SLOTS - 1
        },
        dirty: false,
        wrote: None,
        error: None,
    }
}

/// The presets.
pub struct Presets {
    path: String,
    slots: Vec<Slot>,
    active: usize,
    dirty: bool,
    wrote: Option<u64>,
    error: Option<String>,
}

impl View for Presets {
    type V = Store;

    closed spec fn view(&self) -> Store {
        Store {
            slots: slot_views(self.slots@),
            active: self.active as int,
            dirty: self.dirty,
            wrote: self.wrote,
            error: text_of(self.error),
        }
    }
}

/// Whether something handed out for writing is what a store holds.
pub open spec fn writes(stored: Stored, store: Store) -> bool {
    &&& stored.version == VERSION
    &&& stored.active == store.active
    &&& slot_views(stored.slots@) == store.slots
}

fn restore_slots(stored: &[Slot]) -> (slots: Vec<Slot>)
    ensures
        slot_views(slots@) == Seq::new(
            SLOTS as nat,
            |i: int| loaded_slot(slot_views(stored@), i),
        ),
{
    let mut slots: Vec<Slot> = Vec::new();
    let mut i: usize = 0;
    while i < SLOTS
        invariant
            i <= SLOTS,
            slots@.len() == i,
            forall|k: int|
                0 <= k < i ==> (#[trigger] slots@[k])@ == loaded_slot(slot_views(stored@), k),
        decreases SLOTS - i,
    {
        if i < stored.len() {
            let mut slot = stored[i].clone();
            assert(slot_views(stored@)[i as int] == stored@[i as int]@);
            if blank(slot.name.as_str()) {
                slot.name = default_name(i);
            }
            slots.push(slot);
        } else {
            slots.push(Slot { name: default_name(i), show: None });
        }
        i += 1;
    }
    assert(slot_views(slots@) =~= Seq::new(
        SLOTS as nat,
        |i: int| loaded_slot(slot_views(stored@), i),
    ));
    slots
}

impl Presets {
    /// Where the file is.
    pub closed spec fn file(&self) -> Seq<char> {
        self.path@
    }

    /// Come up from what reading the file came to, or start empty.
    ///
    /// Infallible on purpose. A missing file is the normal first run, and a
    /// corrupt one is not worth refusing to start over: the reason is kept and
    /// the slots come up blank.
    pub fn load(path: String, loaded: Loaded) -> (presets: Self)
        ensures
            presets@.wf(),
            presets.file() == path@,
            match loaded {
                Loaded::Understood(stored) => presets@ == restored(
                    stored.active as int,
                    slot_views(stored.slots@),
                ),
                Loaded::Missing => presets@ == restored(0, Seq::empty()),
                Loaded::Garbled(e) => presets@ == (Store {
                    error: Some(path@ + " is not readable: "@ + e@),
                    ..restored(0, Seq::empty())
                }),
                Loaded::Unread(e) => presets@ == (Store {
                    error: Some("could not read "@ + path@ + ": "@ + e@),
                    ..restored(0, Seq::empty())
                }),
            },
    {
        let none: Vec<Slot> = Vec::new();
        assert(slot_views(none@) =~= Seq::empty());
        let (slots, active, error) = match loaded {
            Loaded::Understood(stored) => {
                let active: usize = if stored.active < SLOTS {
                    stored.active
                } else {
                    SLOTS - 1
                };
                (restore_slots(&stored.slots), active, None)
            },
            Loaded::Missing => (restore_slots(&none), 0, None),
            Loaded::Garbled(e) => {
                let mut why = path.clone();
                why.append(" is not readable: ");
                why.append(e.as_str());
                (restore_slots(&none), 0, Some(why))
            },
            Loaded::Unread(e) => {
                let mut why = String::from_str("could not read ");
                why.append(path.as_str());
                why.append(": ");
                why.append(e.as_str());
                (restore_slots(&none), 0, Some(why))
            },
        };
        proof {
            assert forall|i: int| 0 <= i < SLOTS implies !is_blank(
                (#[trigger] slot_views(slots@)[i]).name,
            ) by {
                lemma_default_name_is_not_blank(i);
            }
        }
        Presets { path, slots, active, dirty: false, wrote: None, error }
    }

    /// Where the file is.
    pub fn path(&self) -> (path: &str)
        ensures
            path@ == self.file(),
    {
        self.path.as_str()
    }

    /// Which slot is live.
    pub fn active(&self) -> (slot: usize)
        ensures
            slot == self@.active,
    {
        self.active
    }

    /// Whether something has not been handed out for writing yet.
    pub fn dirty(&self) -> (dirty: bool)
        ensures
            dirty == self@.dirty,
    {
        self.dirty
    }

    /// Why the presets could not be read or written, if they could not.
    pub fn error(&self) -> (why: Option<&str>)
        ensures
            match why {
                Some(e) => self@.error == Some(e@),
                None => self@.error is None,
            },
    {
        match &self.error {
            Some(e) => Some(e.as_str()),
            None => None,
        }
    }

    /// What the editor needs to draw its preset bar.
    pub fn info(&self) -> (info: Vec<PresetInfo>)
        ensures
            info@.len() == self@.slots.len(),
            forall|i: int|
                0 <= i < info@.len() ==> (#[trigger] info@[i]).name@ == self@.slots[i].name
                    && info@[i].stored == (self@.slots[i].show is Some),
    {
        let mut info: Vec<PresetInfo> = Vec::new();
        let mut i: usize = 0;
        while i < self.slots.len()
            invariant
                i <= self.slots@.len(),
                info@.len() == i,
                forall|k: int|
                    0 <= k < i ==> (#[trigger] info@[k]).name@ == self@.slots[k].name
                        && info@[k].stored == (self@.slots[k].show is Some),
            decreases self.slots@.len() - i,
        {
            assert(self@.slots[i as int] == self.slots@[i as int]@);
            info.push(
                PresetInfo {
                    name: self.slots[i].name.clone(),
                    stored: self.slots[i].show.is_some(),
                },
            );
            i += 1;
        }
        info
    }

    /// The show in a slot, or `None` if nothing was ever authored there.
    pub fn show(&self, slot: usize) -> (show: Option<&str>)
        requires
            self@.wf(),
        ensures
            match show {
                Some(s) => slot < SLOTS && self@.slots[slot as int].show == Some(s@),
                None => slot >= SLOTS || self@.slots[slot as int].show is None,
            },
    {
        if slot >= self.slots.len() {
            return None;
        }
        assert(self@.slots[slot as int] == self.slots@[slot as int]@);
        match &self.slots[slot].show {
            Some(s) => Some(s.as_str()),
            None => None,
        }
    }

    /// The live slot's show. `None` on a first run, where the engine falls back
    /// to the show the command line describes.
    pub fn active_show(&self) -> (show: Option<&str>)
        requires
            self@.wf(),
        ensures
            match show {
                Some(s) => self@.slots[self@.active].show == Some(s@),
                None => self@.slots[self@.active].show is None,
            },
    {
        self.show(self.active)
    }

    fn snapshot(&self) -> (stored: Stored)
        ensures
            writes(stored, self@),
    {
        let mut slots: Vec<Slot> = Vec::new();
        let mut i: usize = 0;
        while i < self.slots.len()
            invariant
                i <= self.slots@.len(),
                slots@.len() == i,
                forall|k: int| 0 <= k < i ==> (#[trigger] slots@[k])@ == self.slots@[k]@,
            decreases self.slots@.len() - i,
        {
            slots.push(self.slots[i].clone());
            i += 1;
        }
        assert(slot_views(slots@) =~= self@.slots);
        Stored { version: VERSION, active: self.active, slots }
    }

    /// Make `slot` live. Hands out what has to be written first, so the switch
    /// cannot lose the slot being left. A slot that does not exist, or the one
    /// already live, changes nothing.
    pub fn select(&mut self, slot: usize, now: u64) -> (write: Option<Stored>)
        requires
            old(self)@.wf(),
        ensures
            final(self)@.wf(),
            final(self).file() == old(self).file(),
            final(self)@ == old(self)@.selecting(slot, now),
            write is Some == (slot < SLOTS && slot != old(self)@.active && old(self)@.dirty),
            write is Some ==> writes(write->0, old(self)@),
    {
        if slot >= SLOTS || slot == self.active {
            return None;
        }
        let write = self.flush(now);
        self.active = slot;
        self.dirty = true;
        write
    }

    /// Store a show into the live slot. Called for every config the editor
    /// sends, which is why it compares before it dirties: a redundant push
    /// should not cost a file write.
    ///
    /// Returns whether the slot's *listing* changed, which happens exactly once
    /// per slot, when the first show lands in it and it stops reading as empty.
    pub fn store(&mut self, show: &str) -> (filled: bool)
        requires
            old(self)@.wf(),
        ensures
            final(self)@.wf(),
            final(self).file() == old(self).file(),
            filled == (old(self)@.slots[old(self)@.active].show is None),
            final(self)@ == old(self)@.storing(show@),
    {
        let at: usize = self.active;
        assert(self@.slots[at as int] == self.slots@[at as int]@);
        let filled = match &self.slots[at].show {
            Some(held) => {
                if same(held.as_str(), show) {
                    return false;
                }
                false
            },
            None => true,
        };
        let slot = Slot { name: self.slots[at].name.clone(), show: Some(show.to_owned()) };
        self.slots[at] = slot;
        self.dirty = true;
        assert(self@.slots =~= old(self)@.slots.update(
            at as int,
            SlotView { show: Some(show@), ..old(self)@.slots[at as int] },
        ));
        filled
    }

    /// Rename a slot. Blank falls back to the positional name rather than
    /// leaving an unlabelled chip in the preset bar.
    pub fn rename(&mut self, slot: usize, name: &str)
        requires
            old(self)@.wf(),
        ensures
            final(self)@.wf(),
            final(self).file() == old(self).file(),
            final(self)@ == old(self)@.renaming(slot, name@),
    {
        if slot >= self.slots.len() {
            return;
        }
        let cut = trim(name);
        let wanted = if cut.as_str().is_empty() {
            default_name(slot)
        } else {
            cut
        };
        proof {
            lemma_default_name_is_not_blank(slot as int);
            text::lemma_trim_again(name@);
        }
        assert(self@.slots[slot as int] == self.slots@[slot as int]@);
        if same(self.slots[slot].name.as_str(), wanted.as_str()) {
            return;
        }
        let ghost w = wanted@;
        let next = Slot { name: wanted, show: copy_text(&self.slots[slot].show) };
        self.slots[slot] = next;
        self.dirty = true;
        assert(self@.slots =~= old(self)@.slots.update(
            slot as int,
            SlotView { name: w, ..old(self)@.slots[slot as int] },
        ));
    }

    /// Hand out something to write if there is something to write and the
    /// coalescing delay has passed.
    pub fn tick(&mut self, now: u64) -> (write: Option<Stored>)
        ensures
            final(self).file() == old(self).file(),
            write is Some == old(self)@.due(now),
            write is Some ==> writes(write->0, old(self)@),
            final(self)@ == if old(self)@.due(now) {
                old(self)@.flushed(now)
            } else {
                old(self)@
            },
    {
        let due = match self.wrote {
            Some(at) => now.saturating_sub(at) >= WRITE_DELAY,
            None => true,
        };
        if self.dirty && due {
            self.flush(now)
        } else {
            None
        }
    }

    /// Hand out what has to be written now, if anything has.
    pub fn flush(&mut self, now: u64) -> (write: Option<Stored>)
        ensures
            final(self).file() == old(self).file(),
            write is Some == old(self)@.dirty,
            write is Some ==> writes(write->0, old(self)@),
            final(self)@ == old(self)@.flushed(now),
    {
        if !self.dirty {
            return None;
        }
        let stored = self.snapshot();
        self.dirty = false;
        self.wrote = Some(now);
        Some(stored)
    }

    /// Take note of how a write went. A preset silently not being saved is
    /// exactly the kind of thing nobody discovers until the set they needed it
    /// for.
    pub fn written(&mut self, outcome: Result<(), String>)
        ensures
            final(self).file() == old(self).file(),
            final(self)@ == (Store {
                error: match outcome {
                    Ok(_) => None,
                    Err(e) => Some(
                        "could not save presets to "@ + old(self).file() + ": "@ + e@,
                    ),
                },
                ..old(self)@
            }),
    {
        self.error = match outcome {
            Ok(_) => None,
            Err(e) => {
                let mut why = String::from_str("could not save presets to ");
                why.append(self.path.as_str());
                why.append(": ");
                why.append(e.as_str());
                Some(why)
            },
        };
    }
}

/// What choosing a preset comes to.
pub enum Choice {
    /// Leave the wall alone.
    Nothing,
    /// Put this show on the wall.
    Show(String),
    /// Put a blank canvas on the wall.
    Blank,
}

/// Whether a choice is what choosing a slot comes to.
pub open spec fn chooses(store: Store, slot: usize, blank_if_empty: bool, choice: Choice) -> bool {
    if slot >= SLOTS {
        choice is Nothing
    } else {
        match store.slots[slot as int].show {
            Some(show) => choice matches Choice::Show(s) && s@ == show,
            None => if blank_if_empty {
                choice is Blank
            } else {
                choice is Nothing
            },
        }
    }
}

/// Make a slot live and say what should now be on the wall, handing out what
/// has to be written first.
///
/// `blank_if_empty` is the one difference between the two ways in. Chosen from
/// the preset bar it is true: picking an empty slot from a row of them is a
/// deliberate request for a blank canvas. Struck as a hotkey it is false, so a
/// mis-hit during a set cannot blank the wall.
pub fn load_preset(slot: usize, blank_if_empty: bool, presets: &mut Presets, now: u64) -> (res: (
    Choice,
    Option<Stored>,
))
    requires
        old(presets)@.wf(),
    ensures
        final(presets)@.wf(),
        final(presets).file() == old(presets).file(),
        chooses(old(presets)@, slot, blank_if_empty, res.0),
        slot >= SLOTS || (!blank_if_empty && old(presets)@.slots[slot as int].show is None) ==> {
            &&& res.0 is Nothing
            &&& res.1 is None
            &&& final(presets)@ == old(presets)@
        },
        slot < SLOTS && (blank_if_empty || old(presets)@.slots[slot as int].show is Some) ==> {
            &&& final(presets)@ == old(presets)@.selecting(slot, now)
            &&& match old(presets)@.slots[slot as int].show {
                Some(s) => res.0 is Show && res.0->Show_0@ == s,
                None => res.0 is Blank,
            }
            &&& res.1 is Some == (old(presets)@.dirty && slot != old(presets)@.active)
            &&& res.1 is Some ==> writes(res.1->0, old(presets)@)
        },
{
    if slot >= SLOTS || (!blank_if_empty && presets.show(slot).is_none()) {
        return (Choice::Nothing, None);
    }
    let write = presets.select(slot, now);
    let choice = match presets.active_show() {
        Some(s) => Choice::Show(s.to_owned()),
        None => Choice::Blank,
    };
    (choice, write)
}

proof fn lemma_default_name_is_not_blank(slot: int)
    requires
        0 <= slot,
    ensures
        !is_blank(default_slot_name(slot)),
{
    reveal_strlit("Preset ");
    text::lemma_not_blank(default_slot_name(slot));
}

/// What was on the wall comes back after a restart, in the slot it was in:
/// coming up from what a store wrote gives that store's slots and live one.
pub proof fn law_a_restart_brings_everything_back(store: Store)
    requires
        store.wf(),
    ensures
        restored(store.contents().0, store.contents().1).slots == store.slots,
        restored(store.contents().0, store.contents().1).active == store.active,
        !restored(store.contents().0, store.contents().1).dirty,
{
    assert(restored(store.active, store.slots).slots =~= store.slots);
}

/// Writes are coalesced: after one was handed out, none comes due within the
/// delay, however much is edited meanwhile.
pub proof fn law_writes_are_coalesced(store: Store, at: u64, edits: Seq<Edit>, now: u64)
    requires
        store.due(at),
        now - at < WRITE_DELAY,
    ensures
        !store.flushed(at).edited(edits).due(now),
{
    lemma_edits_keep_the_clock(store.flushed(at), edits);
}

proof fn lemma_edits_keep_the_clock(store: Store, edits: Seq<Edit>)
    ensures
        store.edited(edits).wrote == store.wrote,
        store.edited(edits).active == store.active,
    decreases edits.len(),
{
    if edits.len() > 0 {
        lemma_edits_keep_the_clock(store, edits.drop_last());
    }
}

/// No edit goes unwritten: whatever differs from what was handed out last is
/// still to be written.
pub proof fn law_no_edit_goes_unwritten(store: Store, edits: Seq<Edit>)
    ensures
        store.edited(edits).contents() == store.contents() || store.edited(edits).dirty,
    decreases edits.len(),
{
    if edits.len() > 0 {
        law_no_edit_goes_unwritten(store, edits.drop_last());
    }
}

/// A stored show is what the slot shows, and no other slot is touched.
pub proof fn law_a_stored_show_is_shown(store: Store, show: Seq<char>)
    requires
        store.wf(),
    ensures
        store.storing(show).slots[store.active].show == Some(show),
        forall|i: int|
            0 <= i < SLOTS && i != store.active ==> (#[trigger] store.storing(show).slots[i])
                == store.slots[i],
{
}

/// Switching loses nothing: every slot holds what it held, and the one that was
/// left comes back as it was.
pub proof fn law_a_switch_loses_nothing(store: Store, slot: usize, now: u64, later: u64)
    requires
        store.wf(),
    ensures
        store.selecting(slot, now).slots == store.slots,
        store.selecting(slot, now).selecting(store.active as usize, later).contents()
            == store.contents(),
{
}

/// Whatever was stored, the store that comes up from it is in order.
pub proof fn law_any_file_comes_up_in_order(active: int, stored: Seq<SlotView>)
    requires
        0 <= active,
    ensures
        restored(active, stored).wf(),
{
    assert forall|i: int| 0 <= i < SLOTS implies !is_blank(
        (#[trigger] restored(active, stored).slots[i]).name,
    ) by {
        lemma_default_name_is_not_blank(i);
    }
}

/// An edit is due as soon as three quarters of a second have passed since the
/// last write, and at once where there was none. What was written is not due
/// again.
pub proof fn law_an_edit_comes_due(store: Store, now: u64)
    ensures
        store.dirty && store.wrote is None ==> store.due(now),
        store.dirty && store.wrote is Some && now - store.wrote->0 >= 750 ==> store.due(now),
        !store.dirty ==> !store.due(now),
        !store.flushed(now).dirty,
        store.flushed(now).slots == store.slots,
        store.flushed(now).active == store.active,
        store.dirty ==> store.flushed(now).wrote == Some(now),
        store.flushed(now).error == store.error,
{
}

/// Choosing one of the twelve slots makes it live, and it is remembered that it
/// is. Choosing one that does not exist, or the live one, changes nothing.
pub proof fn law_a_chosen_slot_is_live(store: Store, slot: usize, now: u64)
    requires
        store.wf(),
    ensures
        slot < 12 ==> store.selecting(slot, now).active == slot,
        slot < 12 && slot != store.active ==> store.selecting(slot, now).dirty,
        slot >= 12 || slot == store.active ==> store.selecting(slot, now) == store,
        store.dirty && slot < 12 && slot != store.active ==> store.selecting(slot, now).wrote
            == Some(now),
{
}

/// Storing keeps the slot's name and the live slot; a show the slot already has
/// changes nothing, and any other is to be written.
pub proof fn law_storing_changes_the_show_alone(store: Store, show: Seq<char>)
    requires
        store.wf(),
    ensures
        store.storing(show).active == store.active,
        store.storing(show).slots.len() == store.slots.len(),
        store.storing(show).slots[store.active].name == store.slots[store.active].name,
        store.slots[store.active].show == Some(show) ==> store.storing(show) == store,
        store.slots[store.active].show != Some(show) ==> store.storing(show).dirty,
        store.storing(show).wrote == store.wrote,
{
}

/// A slot is called what it was named, without the white space around it, or by
/// its place, counted from one, where the name is nothing but white space. Its
/// show stays, and so does every other slot.
pub proof fn law_a_renamed_slot_has_its_name(store: Store, slot: usize, name: Seq<char>, other: int)
    requires
        store.wf(),
        slot < 12,
        0 <= other < 12,
        other != slot,
    ensures
        ({
            let named = store.renaming(slot, name);
            &&& !is_blank(name) ==> named.slots[slot as int].name == trimmed(name)
            &&& is_blank(name) ==> named.slots[slot as int].name == "Preset "@ + decimal(
                (slot + 1) as nat,
            )
            &&& named.slots[slot as int].show == store.slots[slot as int].show
            &&& named.slots[other] == store.slots[other]
            &&& named.active == store.active
            &&& named.slots[slot as int].name != store.slots[slot as int].name ==> named.dirty
        }),
{
}

/// A slot comes up with the show that was stored for it and the name it had; one
/// whose name is blank is called by its place, and one the file does not reach is
/// empty. A live slot that does not exist is the last.
pub proof fn law_a_slot_comes_up_as_it_was_stored(active: int, stored: Seq<SlotView>, i: int)
    requires
        0 <= active,
        0 <= i < 12,
    ensures
        ({
            let up = restored(active, stored);
            &&& up.slots.len() == 12
            &&& i < stored.len() ==> up.slots[i].show == stored[i].show
            &&& i < stored.len() && !is_blank(stored[i].name) ==> up.slots[i].name
                == stored[i].name
            &&& i >= stored.len() || is_blank(stored[i].name) ==> up.slots[i].name == "Preset "@
                + decimal((i + 1) as nat)
            &&& i >= stored.len() ==> up.slots[i].show is None
            &&& active < 12 ==> up.active == active
            &&& active >= 12 ==> up.active == 11
            &&& !up.dirty && up.wrote is None && up.error is None
        }),
{
}

/// What is stored in a slot is what choosing it puts on the wall, from the bar or
/// by a key. An empty slot is a blank canvas from the bar and nothing by a key,
/// and a slot there is not is nothing either way.
pub proof fn law_a_chosen_slot_shows_what_is_in_it(
    store: Store,
    show: Seq<char>,
    slot: usize,
    blank_if_empty: bool,
    choice: Choice,
)
    requires
        store.wf(),
    ensures
        chooses(store.storing(show), store.active as usize, blank_if_empty, choice)
            ==> (choice matches Choice::Show(s) && s@ == show),
        slot >= 12 && chooses(store, slot, blank_if_empty, choice) ==> choice is Nothing,
        slot < 12 && store.slots[slot as int].show is None && chooses(store, slot, true, choice)
            ==> choice is Blank,
        slot < 12 && store.slots[slot as int].show is None && chooses(store, slot, false, choice)
            ==> choice is Nothing,
{
}

} // verus!
