//! The running stack: one analyser per layer, one open device per *selection*.
//!
//! A layer owns everything about how it hears, so it needs an analyser of its
//! own, and analysers are cheap. It does not own the *device*: an endpoint
//! opened twice is two captures of the same audio for twice the cost, and a
//! MIDI input opened twice is an error. So devices are keyed by
//! [`key_of`](crate::show::key_of) and shared, and analysers are not.
//!
//! Opening a device can fail, and a stack is exactly the situation where that
//! must not be fatal. A layer whose device will not open keeps its place in the
//! stack, sits at silence and carries the reason. Every other layer runs.
//!
//! The devices and analysers themselves are the application's. It holds them in
//! lists that run parallel to the ones here; a change to the stack asks it for
//! the devices it has to open, one after the other, and when it is done says of
//! every entry where it came from.

use vstd::prelude::*;

use crate::capture;
use crate::midi;
use crate::midi::{resolved_name, Port};
use crate::show::{key_of, views, Layer, LayerView, ShowConfig};
use crate::source::{copy_text, text_of, Selection, Source, SourceKind};
use crate::text::same;

verus! {

/// What a device said about itself when it opened.
pub struct Device {
    pub kind: SourceKind,
    pub name: String,
    /// Channels it offers.
    pub channels: usize,
    /// The one channel being listened to, or all of them.
    pub channel: Option<usize>,
    /// In hertz; zero for MIDI, which has no sample rate.
    pub sample_rate: u32,
}

/// An open device in the pool.
pub struct FeedSlot {
    /// The selection this feed answers, as authored.
    key: Source,
    device: Device,
    /// Where it stood before the last change; `None` if that change opened it.
    origin: Option<usize>,
}

/// An open device, by what it says.
pub ghost struct Feed {
    pub key: Selection,
    pub kind: SourceKind,
    pub name: Seq<char>,
    pub channels: usize,
    pub channel: Option<usize>,
    pub sample_rate: u32,
    pub origin: Option<usize>,
}

impl View for FeedSlot {
    type V = Feed;

    closed spec fn view(&self) -> Feed {
        Feed {
            key: self.key@,
            kind: self.device.kind,
            name: self.device.name@,
            channels: self.device.channels,
            channel: self.device.channel,
            sample_rate: self.device.sample_rate,
            origin: self.origin,
        }
    }
}

/// A device that has just been opened for a key.
pub open spec fn fresh_feed(key: Selection, device: Device) -> Feed {
    Feed {
        key,
        kind: device.kind,
        name: device.name@,
        channels: device.channels,
        channel: device.channel,
        sample_rate: device.sample_rate,
        origin: None,
    }
}

/// The devices of a list.
pub open spec fn feeds_of(slots: Seq<FeedSlot>) -> Seq<Feed> {
    Seq::new(slots.len(), |i: int| slots[i]@)
}

/// One layer, live.
pub struct LiveLayer {
    config: Layer,
    /// Which device of the pool it listens to, or `None` when the device would
    /// not open.
    feed: Option<usize>,
    error: Option<String>,
    /// Where the analyser stood before the last change; `None` for a new one.
    origin: Option<usize>,
}

/// One layer, by what it says.
pub ghost struct Live {
    pub config: LayerView,
    pub feed: Option<usize>,
    pub error: Option<Seq<char>>,
    pub origin: Option<usize>,
}

impl View for LiveLayer {
    type V = Live;

    closed spec fn view(&self) -> Live {
        Live {
            config: self.config@,
            feed: self.feed,
            error: text_of(self.error),
            origin: self.origin,
        }
    }
}

/// The layers of a list.
pub open spec fn lives_of(layers: Seq<LiveLayer>) -> Seq<Live> {
    Seq::new(layers.len(), |i: int| layers[i]@)
}

/// The first device from a place on that answers a key.
pub open spec fn first_with_key(feeds: Seq<Feed>, key: Selection, from: int) -> Option<int>
    decreases feeds.len() - from,
{
    if from < 0 || from >= feeds.len() {
        None
    } else if feeds[from].key == key {
        Some(from)
    } else {
        first_with_key(feeds, key, from + 1)
    }
}

/// Whether a selection resolves to a port that is already open: the same MIDI
/// input under a different name for it. Such a port is adopted rather than
/// opened, which the handle this process is holding would refuse.
pub open spec fn adopts(feed: Feed, requested: Selection, ports: Seq<Port>) -> bool {
    &&& feed.kind == SourceKind::Midi
    &&& requested.kind == SourceKind::Midi
    &&& resolved_name(ports, requested.id) == Some(feed.name)
}

/// The first device from a place on that adopts a selection.
pub open spec fn first_adopting(
    feeds: Seq<Feed>,
    requested: Selection,
    ports: Seq<Port>,
    from: int,
) -> Option<int>
    decreases feeds.len() - from,
{
    if from < 0 || from >= feeds.len() {
        None
    } else if adopts(feeds[from], requested, ports) {
        Some(from)
    } else {
        first_adopting(feeds, requested, ports, from + 1)
    }
}

/// The device of a list that a selection is bound to: the one that answers its
/// key, else the first that holds the same port under another name for it.
pub open spec fn home(feeds: Seq<Feed>, requested: Selection, ports: Seq<Port>) -> Option<int> {
    match first_with_key(feeds, key_of(requested), 0) {
        Some(i) => Some(i),
        None => first_adopting(feeds, requested, ports, 0),
    }
}

/// A device that has adopted a selection.
pub open spec fn adopted(feed: Feed, requested: Selection) -> Feed {
    Feed { key: key_of(requested), channel: requested.channel, ..feed }
}

/// The first layer from a place on with an id.
pub open spec fn first_with_id(layers: Seq<Live>, id: Seq<char>, from: int) -> Option<int>
    decreases layers.len() - from,
{
    if from < 0 || from >= layers.len() {
        None
    } else if layers[from].config.id == id {
        Some(from)
    } else {
        first_with_id(layers, id, from + 1)
    }
}

/// A stack: the pool and the layers bound to it.
pub ghost struct Stack {
    pub feeds: Seq<Feed>,
    pub layers: Seq<Live>,
}

/// Whether some layer listens to a device.
pub open spec fn is_used(layers: Seq<Live>, feed: int) -> bool {
    exists|l: int| 0 <= l < layers.len() && (#[trigger] layers[l]).feed == Some(feed as usize)
}

/// Whether every layer that is bound is bound to a device there is, and every
/// layer that is not says why.
pub open spec fn bound_right(feeds: Seq<Feed>, layers: Seq<Live>) -> bool {
    forall|l: int|
        0 <= l < layers.len() ==> match (#[trigger] layers[l]).feed {
            Some(f) => f < feeds.len(),
            None => layers[l].error is Some,
        }
}

/// Whether no two devices answer the same key.
pub open spec fn keys_differ(feeds: Seq<Feed>) -> bool {
    forall|a: int, b: int|
        0 <= a < b < feeds.len() ==> (#[trigger] feeds[a]).key != (#[trigger] feeds[b]).key
}

/// Whether every device is listened to.
pub open spec fn all_used(feeds: Seq<Feed>, layers: Seq<Live>) -> bool {
    forall|f: int| 0 <= f < feeds.len() ==> #[trigger] is_used(layers, f)
}

impl Stack {
    /// What every change keeps: no selection is open twice, nothing is open
    /// that nobody listens to, and every layer either has its device or says
    /// why not.
    pub open spec fn wf(self) -> bool {
        &&& bound_right(self.feeds, self.layers)
        &&& keys_differ(self.feeds)
        &&& all_used(self.feeds, self.layers)
    }

    /// The stack as a change finds it: every entry where it stands.
    pub open spec fn settled(self) -> Stack {
        Stack {
            feeds: Seq::new(
                self.feeds.len(),
                |i: int| Feed { origin: Some(i as usize), ..self.feeds[i] },
            ),
            layers: Seq::new(
                self.layers.len(),
                |i: int| Live { origin: Some(i as usize), ..self.layers[i] },
            ),
        }
    }
}

/// How a layer gets its device.
pub ghost enum Binding {
    /// It shares one that is already kept.
    Kept(int),
    /// It takes over one from before the change.
    Moved(int),
    /// One from before the change adopts its selection.
    Adopted(int),
    /// It has to be opened.
    Open,
}

/// A stack being built again from a show.
pub ghost struct Building {
    pub ports: Seq<Port>,
    pub show: Seq<LayerView>,
    /// Devices from before, not taken over yet.
    pub spare: Seq<Feed>,
    /// Layers from before, not recognised yet.
    pub old: Seq<Live>,
    pub feeds: Seq<Feed>,
    pub layers: Seq<Live>,
}

impl Building {
    /// The layer whose turn it is.
    pub open spec fn current(self) -> LayerView {
        self.show[self.layers.len() as int]
    }

    /// How the layer whose turn it is gets its device.
    pub open spec fn binding(self) -> Binding {
        let requested = self.current().source;
        let key = key_of(requested);
        match first_with_key(self.feeds, key, 0) {
            Some(i) => Binding::Kept(i),
            None => match first_with_key(self.spare, key, 0) {
                Some(j) => Binding::Moved(j),
                None => match first_adopting(self.spare, requested, self.ports, 0) {
                    Some(j) => Binding::Adopted(j),
                    None => match first_adopting(self.feeds, requested, self.ports, 0) {
                        Some(i) => Binding::Kept(i),
                        None => Binding::Open,
                    },
                },
            },
        }
    }

    /// With the layer whose turn it is bound to a device, or left dark for a
    /// reason. The analyser its id was already running goes on if it is still
    /// pointed at the same device: the selection is the same, and the device is
    /// the one it was listening to.
    pub open spec fn with_layer(self, bound: Option<int>, error: Option<Seq<char>>) -> Building {
        let cfg = self.current();
        let seen = first_with_id(self.old, cfg.id, 0);
        let origin = match seen {
            Some(p) => if bound is Some && self.old[p].feed is Some && key_of(
                self.old[p].config.source,
            ) == key_of(cfg.source) && self.feeds[bound->0].origin == self.old[p].feed {
                self.old[p].origin
            } else {
                None
            },
            None => None,
        };
        Building {
            old: match seen {
                Some(p) => self.old.remove(p),
                None => self.old,
            },
            layers: self.layers.push(
                Live {
                    config: cfg,
                    feed: match bound {
                        Some(f) => Some(f as usize),
                        None => None,
                    },
                    error,
                    origin,
                },
            ),
            ..self
        }
    }

    /// With the layer whose turn it is bound without opening anything.
    pub open spec fn bind_one(self) -> Building {
        match self.binding() {
            Binding::Kept(i) => self.with_layer(Some(i), None),
            Binding::Moved(j) => Building {
                feeds: self.feeds.push(self.spare[j]),
                spare: self.spare.remove(j),
                ..self
            }.with_layer(Some(self.feeds.len() as int), None),
            Binding::Adopted(j) => Building {
                feeds: self.feeds.push(adopted(self.spare[j], self.current().source)),
                spare: self.spare.remove(j),
                ..self
            }.with_layer(Some(self.feeds.len() as int), None),
            Binding::Open => self,
        }
    }

    /// As far as it goes without opening anything.
    pub open spec fn advanced(self) -> Building
        decreases self.show.len() - self.layers.len(),
    {
        if self.layers.len() >= self.show.len() || self.binding() is Open {
            self
        } else {
            self.bind_one().advanced()
        }
    }

    /// With what came of opening the device that was asked for.
    pub open spec fn opened(self, outcome: Result<Device, String>) -> Building {
        match outcome {
            Ok(device) => Building {
                feeds: self.feeds.push(fresh_feed(key_of(self.current().source), device)),
                ..self
            }.with_layer(Some(self.feeds.len() as int), None),
            Err(e) => self.with_layer(None, Some(e@)),
        }
    }

    /// Whether nothing left over from before the change would serve a selection.
    pub open spec fn nothing_spare(self, requested: Selection) -> bool {
        &&& first_with_key(self.spare, key_of(requested), 0) is None
        &&& first_adopting(self.spare, requested, self.ports, 0) is None
    }

    /// What building keeps: the layers done so far are the show's, each bound to
    /// the device its selection belongs on or dark for a reason, no key is open
    /// twice, and everything open is listened to. A layer that shares a port
    /// held under another name has no device of its own to go back to.
    pub open spec fn wf(self) -> bool {
        &&& self.layers.len() <= self.show.len()
        &&& self.feeds.len() <= self.layers.len()
        &&& forall|l: int|
            0 <= l < self.layers.len() ==> (#[trigger] self.layers[l]).config == self.show[l]
        &&& bound_right(self.feeds, self.layers)
        &&& forall|l: int|
            0 <= l < self.layers.len() && (#[trigger] self.layers[l]).feed is Some
                ==> home(self.feeds, self.layers[l].config.source, self.ports) == Some(
                self.layers[l].feed->0 as int,
            ) && self.layers[l].error is None
        &&& forall|l: int|
            0 <= l < self.layers.len() && (#[trigger] self.layers[l]).feed is Some
                && first_with_key(self.feeds, key_of(self.layers[l].config.source), 0) is None
                ==> self.nothing_spare(self.layers[l].config.source)
        &&& keys_differ(self.feeds)
        &&& all_used(self.feeds, self.layers)
    }
}

/// The pool and the layers bound to it.
pub struct LiveStack {
    feeds: Vec<FeedSlot>,
    layers: Vec<LiveLayer>,
}

impl View for LiveStack {
    type V = Stack;

    closed spec fn view(&self) -> Stack {
        Stack { feeds: feeds_of(self.feeds@), layers: lives_of(self.layers@) }
    }
}

/// A stack being built again from a show.
pub struct Rebuild {
    ports: Vec<Port>,
    show: ShowConfig,
    spare: Vec<FeedSlot>,
    old: Vec<LiveLayer>,
    feeds: Vec<FeedSlot>,
    layers: Vec<LiveLayer>,
}

impl View for Rebuild {
    type V = Building;

    closed spec fn view(&self) -> Building {
        Building {
            ports: self.ports@,
            show: self.show@,
            spare: feeds_of(self.spare@),
            old: lives_of(self.old@),
            feeds: feeds_of(self.feeds@),
            layers: lives_of(self.layers@),
        }
    }
}

proof fn lemma_first_with_key(feeds: Seq<Feed>, key: Selection, from: int)
    requires
        0 <= from,
    ensures
        match first_with_key(feeds, key, from) {
            Some(i) => from <= i < feeds.len() && feeds[i].key == key && forall|j: int|
                from <= j < i ==> (#[trigger] feeds[j]).key != key,
            None => forall|j: int| from <= j < feeds.len() ==> (#[trigger] feeds[j]).key != key,
        },
    decreases feeds.len() - from,
{
    if from < feeds.len() && feeds[from].key != key {
        lemma_first_with_key(feeds, key, from + 1);
    }
}

proof fn lemma_first_adopting(
    feeds: Seq<Feed>,
    requested: Selection,
    ports: Seq<Port>,
    from: int,
)
    requires
        0 <= from,
    ensures
        match first_adopting(feeds, requested, ports, from) {
            Some(i) => from <= i < feeds.len() && adopts(feeds[i], requested, ports),
            None => forall|j: int|
                from <= j < feeds.len() ==> !adopts(#[trigger] feeds[j], requested, ports),
        },
    decreases feeds.len() - from,
{
    if from < feeds.len() && !adopts(feeds[from], requested, ports) {
        lemma_first_adopting(feeds, requested, ports, from + 1);
    }
}

/// Two selections of one key are adopted by the same devices.
proof fn lemma_one_key_one_home(
    feeds: Seq<Feed>,
    a: Selection,
    b: Selection,
    ports: Seq<Port>,
    from: int,
)
    requires
        0 <= from,
        key_of(a) == key_of(b),
    ensures
        first_adopting(feeds, a, ports, from) == first_adopting(feeds, b, ports, from),
    decreases feeds.len() - from,
{
    assert(a.kind == key_of(a).kind && b.kind == key_of(b).kind);
    assert(a.id == key_of(a).id && b.id == key_of(b).id);
    if from < feeds.len() {
        assert(adopts(feeds[from], a, ports) == adopts(feeds[from], b, ports));
        lemma_one_key_one_home(feeds, a, b, ports, from + 1);
    }
}

/// A device added for another key takes no selection from the one it is bound to.
proof fn lemma_home_stays(
    feeds: Seq<Feed>,
    added: Feed,
    requested: Selection,
    ports: Seq<Port>,
    from: int,
)
    requires
        0 <= from,
    ensures
        first_with_key(feeds, key_of(requested), from) is Some ==> first_with_key(
            feeds.push(added),
            key_of(requested),
            from,
        ) == first_with_key(feeds, key_of(requested), from),
        first_with_key(feeds, key_of(requested), from) is None && added.key != key_of(requested)
            ==> first_with_key(feeds.push(added), key_of(requested), from) is None,
        first_adopting(feeds, requested, ports, from) is Some ==> first_adopting(
            feeds.push(added),
            requested,
            ports,
            from,
        ) == first_adopting(feeds, requested, ports, from),
    decreases feeds.len() - from,
{
    reveal_with_fuel(first_with_key, 2);
    if from < feeds.len() {
        assert(feeds.push(added)[from] == feeds[from]);
        lemma_home_stays(feeds, added, requested, ports, from + 1);
    }
}

proof fn lemma_first_with_id(layers: Seq<Live>, id: Seq<char>, from: int)
    requires
        0 <= from,
    ensures
        match first_with_id(layers, id, from) {
            Some(i) => from <= i < layers.len() && layers[i].config.id == id,
            None => true,
        },
    decreases layers.len() - from,
{
    if from < layers.len() && layers[from].config.id != id {
        lemma_first_with_id(layers, id, from + 1);
    }
}

/// The first device that answers a key.
fn find_key(feeds: &[FeedSlot], key: &Source) -> (found: Option<usize>)
    ensures
        match found {
            Some(i) => first_with_key(feeds_of(feeds@), key@, 0) == Some(i as int) && i
                < feeds@.len(),
            None => first_with_key(feeds_of(feeds@), key@, 0) is None,
        },
{
    let ghost all = feeds_of(feeds@);
    let mut i: usize = 0;
    while i < feeds.len()
        invariant
            i <= feeds@.len(),
            all == feeds_of(feeds@),
            first_with_key(all, key@, 0) == first_with_key(all, key@, i as int),
        decreases feeds@.len() - i,
    {
        assert(all[i as int] == feeds@[i as int]@);
        if feeds[i].key.same_as(key) {
            return Some(i);
        }
        i += 1;
    }
    None
}

fn adopts_selection(feed: &FeedSlot, requested: &Source, ports: &[Port]) -> (yes: bool)
    ensures
        yes == adopts(feed@, requested@, ports@),
{
    if feed.device.kind != SourceKind::Midi || requested.kind != SourceKind::Midi {
        return false;
    }
    match midi::resolve_name(requested, ports) {
        Some(name) => same(name.as_str(), feed.device.name.as_str()),
        None => false,
    }
}

/// The first device that adopts a selection.
fn find_adopting(feeds: &[FeedSlot], requested: &Source, ports: &[Port]) -> (found: Option<
    usize,
>)
    ensures
        match found {
            Some(i) => first_adopting(feeds_of(feeds@), requested@, ports@, 0) == Some(
                i as int,
            ) && i < feeds@.len(),
            None => first_adopting(
                feeds_of(feeds@),
                requested@,
                ports@,
                0,
            ) is None,
        },
{
    let ghost all = feeds_of(feeds@);
    let mut i: usize = 0;
    while i < feeds.len()
        invariant
            i <= feeds@.len(),
            all == feeds_of(feeds@),
            first_adopting(all, requested@, ports@, 0) == first_adopting(
                all,
                requested@,
                ports@,
                i as int,
            ),
        decreases feeds@.len() - i,
    {
        assert(all[i as int] == feeds@[i as int]@);
        if adopts_selection(&feeds[i], requested, ports) {
            return Some(i);
        }
        i += 1;
    }
    None
}

/// The first layer with an id.
fn find_id(layers: &[LiveLayer], id: &str) -> (found: Option<usize>)
    ensures
        match found {
            Some(i) => first_with_id(lives_of(layers@), id@, 0) == Some(i as int) && i
                < layers@.len(),
            None => first_with_id(lives_of(layers@), id@, 0) is None,
        },
{
    let ghost all = lives_of(layers@);
    let mut i: usize = 0;
    while i < layers.len()
        invariant
            i <= layers@.len(),
            all == lives_of(layers@),
            first_with_id(all, id@, 0) == first_with_id(all, id@, i as int),
        decreases layers@.len() - i,
    {
        assert(all[i as int] == layers@[i as int]@);
        if same(layers[i].config.id.as_str(), id) {
            return Some(i);
        }
        i += 1;
    }
    None
}

/// Taking a device away leaves nothing to serve a selection that nothing served.
proof fn lemma_nothing_spare_stays(b: Building, taken: int, requested: Selection)
    requires
        b.nothing_spare(requested),
        0 <= taken < b.spare.len(),
    ensures
        (Building { spare: b.spare.remove(taken), ..b }).nothing_spare(requested),
{
    let spare = b.spare.remove(taken);
    let key = key_of(requested);
    lemma_first_with_key(b.spare, key, 0);
    lemma_first_adopting(b.spare, requested, b.ports, 0);
    lemma_first_with_key(spare, key, 0);
    lemma_first_adopting(spare, requested, b.ports, 0);
    assert forall|j: int| 0 <= j < spare.len() implies (#[trigger] spare[j]).key != key && !adopts(
        spare[j],
        requested,
        b.ports,
    ) by {
        let i = if j < taken {
            j
        } else {
            j + 1
        };
        assert(spare[j] == b.spare[i]);
    }
}

/// A building with the layer whose turn it is bound: to a device that is kept,
/// to one added for it, which may have been taken from before the change, or to
/// none for a reason.
spec fn with_binding(
    b: Building,
    taken: Option<int>,
    added: Option<Feed>,
    bound: Option<int>,
    error: Option<Seq<char>>,
) -> Building {
    Building {
        feeds: match added {
            Some(f) => b.feeds.push(f),
            None => b.feeds,
        },
        spare: match taken {
            Some(j) => b.spare.remove(j),
            None => b.spare,
        },
        ..b
    }.with_layer(bound, error)
}

proof fn lemma_bind_keeps_wf(
    b: Building,
    taken: Option<int>,
    added: Option<Feed>,
    bound: Option<int>,
    error: Option<Seq<char>>,
)
    requires
        b.wf(),
        b.layers.len() < b.show.len(),
        b.show.len() <= usize::MAX,
        taken is Some ==> 0 <= taken->0 < b.spare.len() && added is Some,
        bound is Some == error is None,
        match added {
            Some(f) => {
                &&& bound == Some(b.feeds.len() as int)
                &&& f.key == key_of(b.current().source)
                &&& first_with_key(b.feeds, f.key, 0) is None
                &&& home(b.feeds, b.current().source, b.ports) is None || !b.nothing_spare(
                    b.current().source,
                )
            },
            None => bound is Some ==> {
                &&& home(b.feeds, b.current().source, b.ports) == bound
                &&& first_with_key(b.feeds, key_of(b.current().source), 0) is None
                    ==> b.nothing_spare(b.current().source)
            },
        },
    ensures
        with_binding(b, taken, added, bound, error).wf(),
{
    let next = with_binding(b, taken, added, bound, error);
    let requested = b.current().source;
    let last = b.layers.len() as int;
    lemma_first_with_key(b.feeds, key_of(requested), 0);
    lemma_first_adopting(b.feeds, requested, b.ports, 0);
    lemma_first_with_key(next.feeds, key_of(requested), 0);
    assert forall|l: int| 0 <= l < next.layers.len() implies (#[trigger] next.layers[l]).config
        == next.show[l] by {
        if l < last {
            assert(next.layers[l] == b.layers[l]);
        }
    }
    assert forall|l: int| 0 <= l < next.layers.len() implies match (#[trigger] next.layers[l]).feed {
        Some(f) => f < next.feeds.len(),
        None => next.layers[l].error is Some,
    } by {
        if l < last {
            assert(next.layers[l] == b.layers[l]);
        }
    }
    assert forall|l: int| 0 <= l < next.layers.len() && (#[trigger] next.layers[l]).feed is Some implies home(
        next.feeds,
        next.layers[l].config.source,
        next.ports,
    ) == Some(next.layers[l].feed->0 as int) && next.layers[l].error is None && (first_with_key(
        next.feeds,
        key_of(next.layers[l].config.source),
        0,
    ) is None ==> next.nothing_spare(next.layers[l].config.source)) by {
        let source = next.layers[l].config.source;
        if l < last {
            assert(next.layers[l] == b.layers[l]);
            if key_of(source) == key_of(requested) {
                lemma_one_key_one_home(b.feeds, source, requested, b.ports, 0);
                lemma_one_key_one_home(b.spare, source, requested, b.ports, 0);
            }
            if added is Some {
                lemma_home_stays(b.feeds, added->0, source, b.ports, 0);
            }
            if first_with_key(next.feeds, key_of(source), 0) is None && taken is Some {
                lemma_nothing_spare_stays(b, taken->0, source);
            }
        } else if added is Some {
            assert(next.feeds[b.feeds.len() as int].key == key_of(requested));
            assert(forall|i: int| 0 <= i < b.feeds.len() ==> #[trigger] next.feeds[i] == b.feeds[i]);
        }
    }
    assert forall|f: int| 0 <= f < next.feeds.len() implies #[trigger] is_used(
        next.layers,
        f,
    ) by {
        if f < b.feeds.len() {
            assert(is_used(b.layers, f));
            let l = choose|l: int|
                0 <= l < b.layers.len() && (#[trigger] b.layers[l]).feed == Some(f as usize);
            assert(next.layers[l].feed == Some(f as usize));
        } else {
            assert(next.layers[last].feed == Some(f as usize));
        }
    }
}

impl Rebuild {
    proof fn lemma_sizes(&self)
        ensures
            self@.show.len() == self.show@.len(),
            self@.layers.len() == self.layers@.len(),
            self@.feeds.len() == self.feeds@.len(),
            self@.spare.len() == self.spare@.len(),
            self@.old.len() == self.old@.len(),
    {
    }

    /// Add the layer whose turn it is.
    fn push_layer(&mut self, cfg: Layer, key: &Source, bound: Option<usize>, error: Option<String>)
        requires
            old(self)@.layers.len() < old(self)@.show.len(),
            bound is Some ==> bound->0 < old(self)@.feeds.len(),
            cfg@ == old(self)@.current(),
            key@ == key_of(cfg@.source),
        ensures
            final(self)@ == old(self)@.with_layer(
                match bound {
                    Some(f) => Some(f as int),
                    None => None,
                },
                text_of(error),
            ),
    {
        let ghost before = self@;
        let seen = find_id(&self.old, cfg.id.as_str());
        let origin = match seen {
            Some(p) => {
                proof {
                    assert(before.old[p as int] == self.old@[p as int]@);
                }
                let prior = self.old.remove(p);
                assert(lives_of(self.old@) =~= before.old.remove(p as int));
                let same_key = prior.config.feed_key().same_as(key);
                match (bound, prior.feed) {
                    (Some(f), Some(was)) => {
                        assert(before.feeds[f as int] == self.feeds@[f as int]@);
                        if same_key && self.feeds[f].origin == Some(was) {
                            prior.origin
                        } else {
                            None
                        }
                    },
                    _ => None,
                }
            },
            None => None,
        };
        self.layers.push(LiveLayer { config: cfg, feed: bound, error, origin });
        assert(lives_of(self.layers@) =~= before.with_layer(
            match bound {
                Some(f) => Some(f as int),
                None => None,
            },
            text_of(error),
        ).layers);
    }

    /// Go on as far as possible, and name the source that has to be opened to
    /// go further. `None` when the stack is complete.
    pub fn next(&mut self) -> (wanted: Option<Source>)
        requires
            old(self)@.wf(),
        ensures
            final(self)@ == old(self)@.advanced(),
            final(self)@.wf(),
            match wanted {
                Some(source) => final(self)@.layers.len() < final(self)@.show.len()
                    && final(self)@.binding() is Open && source@ == final(self)@.current().source,
                None => final(self)@.layers.len() == final(self)@.show.len(),
            },
    {
        loop
            invariant
                self@.wf(),
                self@.advanced() == old(self)@.advanced(),
            decreases self@.show.len() - self@.layers.len(),
        {
            proof {
                self.lemma_sizes();
            }
            let at: usize = self.layers.len();
            let layers = self.show.layers();
            if at >= layers.len() {
                return None;
            }
            let cfg = layers[at].clone();
            assert(views(layers@)[at as int] == layers@[at as int]@);
            let key = cfg.feed_key();
            let ghost before = self@;
            proof {
                lemma_first_with_key(before.feeds, key@, 0);
                lemma_first_with_key(before.spare, key@, 0);
                lemma_first_adopting(before.spare, cfg@.source, before.ports, 0);
                lemma_first_adopting(before.feeds, cfg@.source, before.ports, 0);
            }
            match find_key(&self.feeds, &key) {
                Some(i) => {
                    proof {
                        lemma_bind_keeps_wf(before, None, None, Some(i as int), None);
                    }
                    self.push_layer(cfg, &key, Some(i), None);
                    continue;
                },
                None => {},
            }
            match find_key(&self.spare, &key) {
                Some(j) => {
                    proof {
                        assert(before.spare[j as int] == self.spare@[j as int]@);
                        lemma_bind_keeps_wf(
                            before,
                            Some(j as int),
                            Some(before.spare[j as int]),
                            Some(before.feeds.len() as int),
                            None,
                        );
                    }
                    let slot = self.spare.remove(j);
                    let i: usize = self.feeds.len();
                    self.feeds.push(slot);
                    assert(feeds_of(self.spare@) =~= before.spare.remove(j as int));
                    assert(feeds_of(self.feeds@) =~= before.feeds.push(before.spare[j as int]));
                    self.push_layer(cfg, &key, Some(i), None);
                    continue;
                },
                None => {},
            }
            match find_adopting(&self.spare, &cfg.source, &self.ports) {
                Some(j) => {
                    proof {
                        assert(before.spare[j as int] == self.spare@[j as int]@);
                        lemma_bind_keeps_wf(
                            before,
                            Some(j as int),
                            Some(adopted(before.spare[j as int], cfg@.source)),
                            Some(before.feeds.len() as int),
                            None,
                        );
                    }
                    let mut slot = self.spare.remove(j);
                    slot.key = key.clone();
                    slot.device.channel = cfg.source.channel;
                    let i: usize = self.feeds.len();
                    let ghost moved = slot@;
                    self.feeds.push(slot);
                    assert(feeds_of(self.spare@) =~= before.spare.remove(j as int));
                    assert(feeds_of(self.feeds@) =~= before.feeds.push(
                        adopted(before.spare[j as int], cfg@.source),
                    ));
                    self.push_layer(cfg, &key, Some(i), None);
                    continue;
                },
                None => {},
            }
            match find_adopting(&self.feeds, &cfg.source, &self.ports) {
                Some(i) => {
                    proof {
                        lemma_bind_keeps_wf(before, None, None, Some(i as int), None);
                    }
                    self.push_layer(cfg, &key, Some(i), None);
                    continue;
                },
                None => {},
            }
            return Some(cfg.source);
        }
    }

    /// Take what came of opening the source that was asked for.
    pub fn opened(&mut self, outcome: Result<Device, String>)
        requires
            old(self)@.wf(),
            old(self)@.layers.len() < old(self)@.show.len(),
            old(self)@.binding() is Open,
        ensures
            final(self)@ == old(self)@.opened(outcome),
            final(self)@.wf(),
    {
        proof {
            self.lemma_sizes();
        }
        let at: usize = self.layers.len();
        let layers = self.show.layers();
        let cfg = layers[at].clone();
        assert(views(layers@)[at as int] == layers@[at as int]@);
        let key = cfg.feed_key();
        let ghost before = self@;
        match outcome {
            Ok(device) => {
                let ghost fresh = fresh_feed(key@, device);
                proof {
                    lemma_bind_keeps_wf(
                        before,
                        None,
                        Some(fresh),
                        Some(before.feeds.len() as int),
                        None,
                    );
                }
                let i: usize = self.feeds.len();
                self.feeds.push(FeedSlot { key: key.clone(), device, origin: None });
                assert(feeds_of(self.feeds@) =~= before.feeds.push(fresh));
                self.push_layer(cfg, &key, Some(i), None);
            },
            Err(e) => {
                proof {
                    lemma_bind_keeps_wf(before, None, None, None, Some(e@));
                }
                self.push_layer(cfg, &key, None, Some(e));
            },
        }
    }

    /// The finished stack.
    pub fn finish(self) -> (stack: LiveStack)
        requires
            self@.wf(),
            self@.layers.len() == self@.show.len(),
        ensures
            stack@ == (Stack { feeds: self@.feeds, layers: self@.layers }),
            stack@.wf(),
    {
        LiveStack { feeds: self.feeds, layers: self.layers }
    }
}

/// How many of the first devices are listened to.
pub open spec fn used_before(layers: Seq<Live>, n: int) -> nat
    decreases n,
{
    if n <= 0 {
        0
    } else if is_used(layers, n - 1) {
        used_before(layers, n - 1) + 1
    } else {
        used_before(layers, n - 1)
    }
}

/// The ones of the first devices that are listened to.
pub open spec fn used_feeds(feeds: Seq<Feed>, layers: Seq<Live>, n: int) -> Seq<Feed>
    decreases n,
{
    if n <= 0 {
        Seq::empty()
    } else if is_used(layers, n - 1) {
        used_feeds(feeds, layers, n - 1).push(feeds[n - 1])
    } else {
        used_feeds(feeds, layers, n - 1)
    }
}

/// A layer once the devices nobody listens to are gone. Devices are addressed
/// by position, so what stood behind a gap moves up.
pub open spec fn moved_up(layers: Seq<Live>, l: int) -> Live {
    Live {
        feed: match layers[l].feed {
            Some(f) => Some(used_before(layers, f as int) as usize),
            None => None,
        },
        ..layers[l]
    }
}

impl Stack {
    /// The stack without the devices nobody listens to.
    pub open spec fn retired(self) -> Stack {
        Stack {
            feeds: used_feeds(self.feeds, self.layers, self.feeds.len() as int),
            layers: Seq::new(self.layers.len(), |l: int| moved_up(self.layers, l)),
        }
    }
}

/// Whether one of the first devices is the one that comes to stand at a place.
spec fn stood_somewhere(layers: Seq<Live>, n: int, g: int) -> bool {
    exists|f: int| 0 <= f < n && #[trigger] is_used(layers, f) && used_before(layers, f) == g
}

proof fn lemma_used_feeds(feeds: Seq<Feed>, layers: Seq<Live>, n: int)
    requires
        0 <= n <= feeds.len(),
    ensures
        used_feeds(feeds, layers, n).len() == used_before(layers, n) <= n,
        forall|f: int|
            0 <= f < n && #[trigger] is_used(layers, f) ==> used_before(layers, f) < used_before(
                layers,
                n,
            ) && used_feeds(feeds, layers, n)[used_before(layers, f) as int] == feeds[f],
        forall|g: int|
            0 <= g < used_before(layers, n) ==> #[trigger] stood_somewhere(layers, n, g),
    decreases n,
{
    if n > 0 {
        lemma_used_feeds(feeds, layers, n - 1);
        assert forall|g: int| 0 <= g < used_before(layers, n) implies #[trigger] stood_somewhere(
            layers,
            n,
            g,
        ) by {
            if g < used_before(layers, n - 1) {
                assert(stood_somewhere(layers, n - 1, g));
                let f = choose|f: int|
                    0 <= f < n - 1 && #[trigger] is_used(layers, f) && used_before(layers, f) == g;
                assert(is_used(layers, f));
            } else {
                assert(is_used(layers, n - 1));
            }
        }
    }
}

proof fn lemma_used_order(layers: Seq<Live>, a: int, b: int)
    requires
        0 <= a < b,
        is_used(layers, a),
    ensures
        used_before(layers, a) < used_before(layers, b),
    decreases b - a,
{
    if a + 1 < b {
        lemma_used_order(layers, a, b - 1);
    }
}

/// Closing what nobody listens to leaves a stack in order: nothing open goes
/// unheard, and every layer still has the device it had.
pub proof fn law_retiring_keeps_every_layer_on_its_device(stack: Stack, l: int)
    requires
        bound_right(stack.feeds, stack.layers),
        keys_differ(stack.feeds),
        stack.feeds.len() <= usize::MAX,
    ensures
        stack.retired().wf(),
        0 <= l < stack.layers.len() && stack.layers[l].feed is Some
            ==> stack.retired().feeds[stack.retired().layers[l].feed->0 as int]
            == stack.feeds[stack.layers[l].feed->0 as int],
{
    let n = stack.feeds.len() as int;
    let r = stack.retired();
    lemma_used_feeds(stack.feeds, stack.layers, n);
    assert forall|k: int| 0 <= k < r.layers.len() implies match (#[trigger] r.layers[k]).feed {
        Some(f) => f < r.feeds.len(),
        None => r.layers[k].error is Some,
    } by {
        assert(stack.layers[k].feed is Some ==> is_used(
            stack.layers,
            stack.layers[k].feed->0 as int,
        ));
        if stack.layers[k].feed is Some {
            assert(stack.layers[k].feed->0 < n);
        }
    }
    assert forall|a: int, b: int| 0 <= a < b < r.feeds.len() implies (#[trigger] r.feeds[a]).key
        != (#[trigger] r.feeds[b]).key by {
        assert(stood_somewhere(stack.layers, n, a) && stood_somewhere(stack.layers, n, b));
        let fa = choose|f: int|
            0 <= f < n && #[trigger] is_used(stack.layers, f) && used_before(stack.layers, f) == a;
        let fb = choose|f: int|
            0 <= f < n && #[trigger] is_used(stack.layers, f) && used_before(stack.layers, f) == b;
        assert(r.feeds[a] == stack.feeds[fa]);
        assert(r.feeds[b] == stack.feeds[fb]);
        if fa > fb {
            lemma_used_order(stack.layers, fb, fa);
        }
        assert(fa < fb);
    }
    assert forall|g: int| 0 <= g < r.feeds.len() implies #[trigger] is_used(r.layers, g) by {
        assert(stood_somewhere(stack.layers, n, g));
        let f = choose|f: int|
            0 <= f < n && #[trigger] is_used(stack.layers, f) && used_before(stack.layers, f) == g;
        let k = choose|k: int|
            0 <= k < stack.layers.len() && (#[trigger] stack.layers[k]).feed == Some(f as usize);
        assert(r.layers[k].feed == Some(g as usize));
    }
    if 0 <= l < stack.layers.len() && stack.layers[l].feed is Some {
        assert(stack.layers[l].feed->0 < n);
        assert(is_used(stack.layers, stack.layers[l].feed->0 as int));
    }
}

/// A show being applied to a stack of the same layers.
pub ghost struct Editing {
    pub ports: Seq<Port>,
    pub next: Seq<LayerView>,
    pub feeds: Seq<Feed>,
    pub layers: Seq<Live>,
    /// The layer whose turn it is.
    pub at: int,
    /// Whether a layer was moved to a different device.
    pub moved: bool,
}

impl Editing {
    /// With the layer whose turn it is moved to a device. A different device is
    /// a different grid and a different floor, so the analyser starts again.
    pub open spec fn rebound(self, feed: int) -> Editing {
        Editing {
            layers: self.layers.update(
                self.at,
                Live {
                    config: self.next[self.at],
                    feed: Some(feed as usize),
                    error: None,
                    origin: None,
                },
            ),
            at: self.at + 1,
            moved: true,
            ..self
        }
    }

    /// With the layer whose turn it is dealt with, if that takes no opening.
    ///
    /// A device change is the one edit that cannot be applied in place. A layer
    /// whose device would not open is deliberately not retried: this runs once
    /// per pointer move.
    pub open spec fn edit_one(self) -> Option<Editing> {
        let cfg = self.next[self.at];
        let key = key_of(cfg.source);
        if key_of(self.layers[self.at].config.source) == key {
            Some(
                Editing {
                    layers: self.layers.update(
                        self.at,
                        Live { config: cfg, ..self.layers[self.at] },
                    ),
                    at: self.at + 1,
                    ..self
                },
            )
        } else {
            match first_with_key(self.feeds, key, 0) {
                Some(i) => Some(self.rebound(i)),
                None => match first_adopting(self.feeds, cfg.source, self.ports, 0) {
                    Some(i) => Some(
                        Editing {
                            feeds: self.feeds.update(i, adopted(self.feeds[i], cfg.source)),
                            ..self
                        }.rebound(i),
                    ),
                    None => None,
                },
            }
        }
    }

    /// As far as it goes without opening anything.
    pub open spec fn advanced(self) -> Editing
        decreases self.next.len() - self.at,
    {
        if self.at >= self.next.len() {
            self
        } else {
            match self.edit_one() {
                Some(further) => further.advanced(),
                None => self,
            }
        }
    }

    /// With what came of opening the device that was asked for. One that cannot
    /// be opened leaves the layer where it was rather than trading a working
    /// layer for an error message.
    pub open spec fn opened(self, outcome: Result<Device, String>) -> Editing {
        let cfg = self.next[self.at];
        match outcome {
            Ok(device) => Editing {
                feeds: self.feeds.push(fresh_feed(key_of(cfg.source), device)),
                ..self
            }.rebound(self.feeds.len() as int),
            Err(e) => Editing {
                layers: self.layers.update(
                    self.at,
                    Live { config: cfg, error: Some(e@), ..self.layers[self.at] },
                ),
                at: self.at + 1,
                moved: true,
                ..self
            },
        }
    }

    /// What editing keeps.
    pub open spec fn wf(self) -> bool {
        &&& 0 <= self.at <= self.next.len()
        &&& self.next.len() == self.layers.len()
        &&& self.feeds.len() <= usize::MAX
        &&& bound_right(self.feeds, self.layers)
        &&& keys_differ(self.feeds)
    }
}

/// A show being applied to a stack of the same layers.
pub struct Edit {
    ports: Vec<Port>,
    next: ShowConfig,
    feeds: Vec<FeedSlot>,
    layers: Vec<LiveLayer>,
    at: usize,
    moved: bool,
}

impl View for Edit {
    type V = Editing;

    closed spec fn view(&self) -> Editing {
        Editing {
            ports: self.ports@,
            next: self.next@,
            feeds: feeds_of(self.feeds@),
            layers: lives_of(self.layers@),
            at: self.at as int,
            moved: self.moved,
        }
    }
}

impl Edit {
    fn rebind(&mut self, cfg: Layer, feed: usize)
        requires
            old(self)@.at < old(self)@.next.len(),
            old(self)@.layers.len() == old(self)@.next.len(),
            cfg@ == old(self)@.next[old(self)@.at],
        ensures
            final(self)@ == old(self)@.rebound(feed as int),
    {
        let ghost before = self@;
        let at: usize = self.at;
        let count: usize = self.layers.len();
        assert(at < count);
        self.layers[at] = LiveLayer { config: cfg, feed: Some(feed), error: None, origin: None };
        assert(lives_of(self.layers@) =~= before.rebound(feed as int).layers);
        self.at = at + 1;
        self.moved = true;
    }

    /// Go on as far as possible, and name the source that has to be opened to
    /// go further. `None` when every layer has been dealt with.
    pub fn next(&mut self) -> (wanted: Option<Source>)
        requires
            old(self)@.wf(),
        ensures
            final(self)@ == old(self)@.advanced(),
            final(self)@.wf(),
            match wanted {
                Some(source) => final(self)@.at < final(self)@.next.len()
                    && final(self)@.edit_one() is None && source@
                    == final(self)@.next[final(self)@.at].source,
                None => final(self)@.at == final(self)@.next.len(),
            },
    {
        loop
            invariant
                self@.wf(),
                self@.advanced() == old(self)@.advanced(),
            decreases self@.next.len() - self@.at,
        {
            let layers = self.next.layers();
            if self.at >= layers.len() {
                return None;
            }
            let at: usize = self.at;
            let cfg = layers[at].clone();
            assert(views(layers@)[at as int] == layers@[at as int]@);
            let key = cfg.feed_key();
            let ghost before = self@;
            assert(before.layers[at as int] == self.layers@[at as int]@);
            if self.layers[at].config.feed_key().same_as(&key) {
                let live = LiveLayer {
                    config: cfg,
                    feed: self.layers[at].feed,
                    error: copy_text(&self.layers[at].error),
                    origin: self.layers[at].origin,
                };
                self.layers[at] = live;
                self.at = at + 1;
                assert(self@.layers =~= before.edit_one()->0.layers);
                proof {
                    lemma_edit_keeps_wf(before);
                }
                continue;
            }
            proof {
                lemma_first_with_key(before.feeds, key@, 0);
                lemma_first_adopting(before.feeds, cfg@.source, before.ports, 0);
                lemma_edit_keeps_wf(before);
            }
            match find_key(&self.feeds, &key) {
                Some(i) => {
                    self.rebind(cfg, i);
                    continue;
                },
                None => {},
            }
            match find_adopting(&self.feeds, &cfg.source, &self.ports) {
                Some(i) => {
                    assert(before.feeds[i as int] == self.feeds@[i as int]@);
                    let slot = FeedSlot {
                        key: key.clone(),
                        device: Device {
                            kind: self.feeds[i].device.kind,
                            name: self.feeds[i].device.name.clone(),
                            channels: self.feeds[i].device.channels,
                            channel: cfg.source.channel,
                            sample_rate: self.feeds[i].device.sample_rate,
                        },
                        origin: self.feeds[i].origin,
                    };
                    self.feeds[i] = slot;
                    assert(feeds_of(self.feeds@) =~= before.feeds.update(
                        i as int,
                        adopted(before.feeds[i as int], cfg@.source),
                    ));
                    self.rebind(cfg, i);
                    continue;
                },
                None => {},
            }
            return Some(cfg.source);
        }
    }

    /// Take what came of opening the source that was asked for.
    pub fn opened(&mut self, outcome: Result<Device, String>)
        requires
            old(self)@.wf(),
            old(self)@.at < old(self)@.next.len(),
            old(self)@.edit_one() is None,
            old(self)@.feeds.len() < usize::MAX,
        ensures
            final(self)@ == old(self)@.opened(outcome),
            final(self)@.wf(),
    {
        let at: usize = self.at;
        let layers = self.next.layers();
        let cfg = layers[at].clone();
        assert(views(layers@)[at as int] == layers@[at as int]@);
        let key = cfg.feed_key();
        let ghost before = self@;
        assert(before.layers[at as int] == self.layers@[at as int]@);
        proof {
            lemma_opened_keeps_wf(before, outcome);
        }
        match outcome {
            Ok(device) => {
                let ghost fresh = fresh_feed(key@, device);
                let i: usize = self.feeds.len();
                self.feeds.push(FeedSlot { key: key.clone(), device, origin: None });
                assert(feeds_of(self.feeds@) =~= before.feeds.push(fresh));
                self.rebind(cfg, i);
            },
            Err(e) => {
                let ghost why = e@;
                let live = LiveLayer {
                    config: cfg,
                    feed: self.layers[at].feed,
                    error: Some(e),
                    origin: self.layers[at].origin,
                };
                self.layers[at] = live;
                self.at = at + 1;
                self.moved = true;
                assert(self@.layers =~= before.layers.update(
                    at as int,
                    Live { config: cfg@, error: Some(why), ..before.layers[at as int] },
                ));
            },
        }
    }

    /// The stack with the show applied, what nobody listens to any more closed,
    /// and whether a layer was moved to a different device.
    pub fn finish(self) -> (res: (LiveStack, bool))
        requires
            self@.wf(),
            self@.at == self@.next.len(),
        ensures
            res.0@ == (Stack { feeds: self@.feeds, layers: self@.layers }).retired(),
            res.0@.wf(),
            res.1 == self@.moved,
    {
        let mut stack = LiveStack { feeds: self.feeds, layers: self.layers };
        proof {
            law_retiring_keeps_every_layer_on_its_device(stack@, 0);
        }
        stack.retire_unused_feeds();
        (stack, self.moved)
    }
}

proof fn lemma_edit_keeps_wf(e: Editing)
    requires
        e.wf(),
        e.at < e.next.len(),
    ensures
        match e.edit_one() {
            Some(further) => further.wf() && further.at == e.at + 1 && further.next == e.next,
            None => true,
        },
{
    let cfg = e.next[e.at];
    let key = key_of(cfg.source);
    lemma_first_with_key(e.feeds, key, 0);
    lemma_first_adopting(e.feeds, cfg.source, e.ports, 0);
    match e.edit_one() {
        Some(further) => {
            assert forall|l: int| 0 <= l < further.layers.len() implies match (
            #[trigger] further.layers[l]).feed {
                Some(f) => f < further.feeds.len(),
                None => further.layers[l].error is Some,
            } by {
                if l != e.at {
                    assert(further.layers[l] == e.layers[l]);
                } else {
                    assert(e.layers[l].feed is Some || e.layers[l].feed is None);
                }
            }
            assert forall|a: int, b: int| 0 <= a < b < further.feeds.len() implies (
            #[trigger] further.feeds[a]).key != (#[trigger] further.feeds[b]).key by {
                assert(e.feeds[a].key != e.feeds[b].key);
            }
        },
        None => {},
    }
}

proof fn lemma_opened_keeps_wf(e: Editing, outcome: Result<Device, String>)
    requires
        e.wf(),
        e.at < e.next.len(),
        e.edit_one() is None,
        e.feeds.len() < usize::MAX,
    ensures
        e.opened(outcome).wf(),
{
    let cfg = e.next[e.at];
    let key = key_of(cfg.source);
    lemma_first_with_key(e.feeds, key, 0);
    let further = e.opened(outcome);
    assert forall|l: int| 0 <= l < further.layers.len() implies match (
    #[trigger] further.layers[l]).feed {
        Some(f) => f < further.feeds.len(),
        None => further.layers[l].error is Some,
    } by {
        if l != e.at {
            assert(further.layers[l] == e.layers[l]);
        } else {
            assert(e.layers[l].feed is Some || e.layers[l].feed is None);
        }
    }
    assert forall|a: int, b: int| 0 <= a < b < further.feeds.len() implies (
    #[trigger] further.feeds[a]).key != (#[trigger] further.feeds[b]).key by {
        if b < e.feeds.len() {
            assert(e.feeds[a].key != e.feeds[b].key);
        }
    }
}

impl Stack {
    /// Whether a show has the same layers in the same order, by id.
    pub open spec fn same_layers(self, show: Seq<LayerView>) -> bool {
        &&& self.layers.len() == show.len()
        &&& forall|i: int|
            0 <= i < show.len() ==> (#[trigger] self.layers[i]).config.id == show[i].id
    }

    /// The stack about to be built again from a show.
    pub open spec fn rebuilding(self, show: Seq<LayerView>, ports: Seq<Port>) -> Building {
        Building {
            ports,
            show,
            spare: self.settled().feeds,
            old: self.settled().layers,
            feeds: Seq::empty(),
            layers: Seq::empty(),
        }
    }

    /// The stack about to have a show of the same layers applied.
    pub open spec fn editing(self, show: Seq<LayerView>, ports: Seq<Port>) -> Editing {
        Editing {
            ports,
            next: show,
            feeds: self.settled().feeds,
            layers: self.settled().layers,
            at: 0,
            moved: false,
        }
    }

    /// Whether some layer has no device.
    pub open spec fn failed(self) -> bool {
        exists|l: int| 0 <= l < self.layers.len() && (#[trigger] self.layers[l]).feed is None
    }
}

/// How a show is adopted.
pub enum Change {
    /// The layers are others, or in another order: the stack is built again.
    Rebuild(Rebuild),
    /// The layers are the same: each is edited where it stands.
    Edit(Edit),
}

impl LiveStack {
    /// Start opening every layer of a show.
    ///
    /// This never fails as a whole: a layer whose device will not open says why
    /// and the rest of the stack still runs.
    pub fn open(show: ShowConfig, ports: Vec<Port>) -> (rebuild: Rebuild)
        ensures
            rebuild@ == (Stack { feeds: Seq::empty(), layers: Seq::empty() }).rebuilding(
                show@,
                ports@,
            ),
            rebuild@.wf(),
    {
        LiveStack::empty().rebuild(show, ports)
    }

    /// Start adopting a new show. This is the hot path: dragging a keyframe sends
    /// one whole show per pointer move, so a show of the same layers is compared
    /// against what is running rather than opened again.
    pub fn apply(self, next: ShowConfig, ports: Vec<Port>) -> (change: Change)
        requires
            self@.wf(),
        ensures
            match change {
                Change::Edit(edit) => {
                    &&& self@.same_layers(next@)
                    &&& edit@ == self@.editing(next@, ports@)
                    &&& edit@.wf()
                },
                Change::Rebuild(rebuild) => {
                    &&& !self@.same_layers(next@)
                    &&& rebuild@ == self@.rebuilding(next@, ports@)
                    &&& rebuild@.wf()
                },
            },
    {
        if self.same_stack(&next) {
            Change::Edit(self.edit(next, ports))
        } else {
            Change::Rebuild(self.rebuild(next, ports))
        }
    }

    /// Start trying the layers whose devices would not open again, for after a
    /// rescan. A stack with nothing to retry is handed back.
    pub fn retry_failed(self, show: ShowConfig, ports: Vec<Port>) -> (retry: Result<
        Rebuild,
        LiveStack,
    >)
        ensures
            match retry {
                Ok(rebuild) => {
                    &&& self@.failed()
                    &&& rebuild@ == self@.rebuilding(show@, ports@)
                    &&& rebuild@.wf()
                },
                Err(stack) => !self@.failed() && stack == self,
            },
    {
        if self.has_failed() {
            Ok(self.rebuild(show, ports))
        } else {
            Err(self)
        }
    }

    /// A stack with nothing in it.
    pub fn empty() -> (stack: Self)
        ensures
            stack@ == (Stack { feeds: Seq::empty(), layers: Seq::empty() }),
            stack@.wf(),
    {
        let stack = LiveStack { feeds: Vec::new(), layers: Vec::new() };
        assert(stack@.feeds =~= Seq::empty());
        assert(stack@.layers =~= Seq::empty());
        stack
    }

    /// Layers in the stack.
    pub fn len(&self) -> (n: usize)
        ensures
            n == self@.layers.len(),
    {
        self.layers.len()
    }

    /// Whether there is no layer at all.
    pub fn is_empty(&self) -> (yes: bool)
        ensures
            yes == (self@.layers.len() == 0),
    {
        self.layers.len() == 0
    }

    /// Distinct devices actually open. Two layers on one endpoint count once,
    /// which is the whole point of the pool.
    pub fn feed_count(&self) -> (n: usize)
        ensures
            n == self@.feeds.len(),
    {
        self.feeds.len()
    }

    /// Whether a show has the same layers in the same order, by id.
    pub fn same_stack(&self, show: &ShowConfig) -> (yes: bool)
        ensures
            yes == self@.same_layers(show@),
    {
        let layers = show.layers();
        if self.layers.len() != layers.len() {
            return false;
        }
        let mut i: usize = 0;
        while i < layers.len()
            invariant
                i <= layers@.len(),
                layers@.len() == self.layers@.len(),
                views(layers@) == show@,
                forall|k: int| 0 <= k < i ==> (#[trigger] self@.layers[k]).config.id == show@[k].id,
            decreases layers@.len() - i,
        {
            assert(show@[i as int] == layers@[i as int]@);
            assert(self@.layers[i as int] == self.layers@[i as int]@);
            if !same(self.layers[i].config.id.as_str(), layers[i].id.as_str()) {
                return false;
            }
            i += 1;
        }
        true
    }

    /// Mark every entry with where it stands.
    fn settle(&mut self)
        ensures
            final(self)@ == old(self)@.settled(),
    {
        let mut i: usize = 0;
        while i < self.feeds.len()
            invariant
                i <= self.feeds@.len(),
                self.feeds@.len() == old(self).feeds@.len(),
                self.layers == old(self).layers,
                forall|k: int|
                    #![trigger self.feeds@[k]]
                    0 <= k < self.feeds@.len() ==> self.feeds@[k]@ == if k < i {
                        Feed { origin: Some(k as usize), ..old(self).feeds@[k]@ }
                    } else {
                        old(self).feeds@[k]@
                    },
            decreases self.feeds@.len() - i,
        {
            self.feeds[i].origin = Some(i);
            i += 1;
        }
        assert(feeds_of(self.feeds@) =~= old(self)@.settled().feeds);
        let ghost feeds = self.feeds;
        let mut j: usize = 0;
        while j < self.layers.len()
            invariant
                j <= self.layers@.len(),
                self.feeds == feeds,
                self.layers@.len() == old(self).layers@.len(),
                forall|k: int|
                    #![trigger self.layers@[k]]
                    0 <= k < self.layers@.len() ==> self.layers@[k]@ == if k < j {
                        Live { origin: Some(k as usize), ..old(self).layers@[k]@ }
                    } else {
                        old(self).layers@[k]@
                    },
            decreases self.layers@.len() - j,
        {
            self.layers[j].origin = Some(j);
            j += 1;
        }
        assert(lives_of(self.layers@) =~= old(self)@.settled().layers);
    }

    /// Start building the whole stack again, reusing every device and analyser
    /// that is still answering the same question.
    ///
    /// Reuse is what keeps a reorder from restarting capture: moving a layer up
    /// the stack changes nothing about what it listens to. Whatever is left
    /// over at the end is dropped, which is what closes a device the last layer
    /// using it just moved off.
    pub fn rebuild(self, show: ShowConfig, ports: Vec<Port>) -> (rebuild: Rebuild)
        ensures
            rebuild@ == self@.rebuilding(show@, ports@),
            rebuild@.wf(),
    {
        let mut from = self;
        from.settle();
        let rebuild = Rebuild {
            ports,
            show,
            spare: from.feeds,
            old: from.layers,
            feeds: Vec::new(),
            layers: Vec::new(),
        };
        assert(rebuild@.feeds =~= Seq::empty());
        assert(rebuild@.layers =~= Seq::empty());
        rebuild
    }

    /// Start applying a show to a stack of the same layers.
    pub fn edit(self, show: ShowConfig, ports: Vec<Port>) -> (edit: Edit)
        requires
            self@.wf(),
            self@.layers.len() == show@.len(),
        ensures
            edit@ == self@.editing(show@, ports@),
            edit@.wf(),
    {
        let mut from = self;
        let ghost before = self@;
        from.settle();
        proof {
            let after = from@;
            assert forall|l: int| 0 <= l < after.layers.len() implies match (
            #[trigger] after.layers[l]).feed {
                Some(f) => f < after.feeds.len(),
                None => after.layers[l].error is Some,
            } by {
                assert(before.layers[l].feed is Some || before.layers[l].feed is None);
            }
            assert forall|a: int, b: int| 0 <= a < b < after.feeds.len() implies (
            #[trigger] after.feeds[a]).key != (#[trigger] after.feeds[b]).key by {
                assert(before.feeds[a].key != before.feeds[b].key);
            }
        }
        assert(from.feeds.len() <= usize::MAX);
        Edit { ports, next: show, feeds: from.feeds, layers: from.layers, at: 0, moved: false }
    }

    /// Whether some layer has no device, and so is worth trying again after a
    /// rescan.
    pub fn has_failed(&self) -> (yes: bool)
        ensures
            yes == self@.failed(),
    {
        let mut i: usize = 0;
        while i < self.layers.len()
            invariant
                i <= self.layers@.len(),
                forall|l: int| 0 <= l < i ==> (#[trigger] self@.layers[l]).feed is Some,
            decreases self.layers@.len() - i,
        {
            assert(self@.layers[i as int] == self.layers@[i as int]@);
            if self.layers[i].feed.is_none() {
                return true;
            }
            i += 1;
        }
        false
    }

    fn uses(&self, feed: usize) -> (yes: bool)
        ensures
            yes == is_used(self@.layers, feed as int),
    {
        let mut i: usize = 0;
        while i < self.layers.len()
            invariant
                i <= self.layers@.len(),
                forall|l: int| 0 <= l < i ==> (#[trigger] self@.layers[l]).feed != Some(feed),
            decreases self.layers@.len() - i,
        {
            assert(self@.layers[i as int] == self.layers@[i as int]@);
            match self.layers[i].feed {
                Some(f) => {
                    if f == feed {
                        return true;
                    }
                },
                None => {},
            }
            i += 1;
        }
        false
    }

    /// Close whatever nothing points at any more. An open capture nobody reads
    /// is a device held away from every other application on the machine for no
    /// reason.
    fn retire_unused_feeds(&mut self)
        requires
            bound_right(old(self)@.feeds, old(self)@.layers),
        ensures
            final(self)@ == old(self)@.retired(),
    {
        let ghost before = self@;
        let n: usize = self.feeds.len();
        let mut mapping: Vec<usize> = Vec::new();
        let mut kept: Vec<FeedSlot> = Vec::new();
        let mut i: usize = 0;
        assert(feeds_of(kept@) =~= used_feeds(before.feeds, before.layers, 0));
        while i < n
            invariant
                i <= n,
                self@.layers == before.layers,
                n == before.feeds.len(),
                self.feeds@.len() == n - i,
                forall|k: int| 0 <= k < n - i ==> (#[trigger] self.feeds@[k])@ == before.feeds[i + k],
                feeds_of(kept@) == used_feeds(before.feeds, before.layers, i as int),
                kept@.len() == used_before(before.layers, i as int),
                mapping@.len() == i,
                forall|k: int|
                    0 <= k < i ==> (#[trigger] mapping@[k]) == used_before(before.layers, k),
            decreases n - i,
        {
            proof {
                lemma_used_feeds(before.feeds, before.layers, i as int);
            }
            mapping.push(kept.len());
            let used = self.uses(i);
            let ghost rest = self.feeds@;
            let slot = self.feeds.remove(0);
            assert(slot@ == rest[0]@);
            assert forall|k: int| 0 <= k < n - i - 1 implies (#[trigger] self.feeds@[k])@
                == before.feeds[i + 1 + k] by {
                assert(self.feeds@[k] == rest[k + 1]);
            }
            if used {
                let ghost had = kept@;
                kept.push(slot);
                assert(feeds_of(kept@) =~= feeds_of(had).push(before.feeds[i as int]));
            }
            i += 1;
        }
        self.feeds = kept;
        let ghost feeds = self.feeds;
        let mut j: usize = 0;
        while j < self.layers.len()
            invariant
                j <= self.layers@.len(),
                self.layers@.len() == before.layers.len(),
                self.feeds == feeds,
                before == old(self)@,
                bound_right(before.feeds, before.layers),
                n == before.feeds.len(),
                mapping@.len() == n,
                forall|k: int|
                    0 <= k < n ==> (#[trigger] mapping@[k]) == used_before(before.layers, k),
                forall|k: int|
                    #![trigger self.layers@[k]]
                    0 <= k < self.layers@.len() ==> self.layers@[k]@ == if k < j {
                        moved_up(before.layers, k)
                    } else {
                        before.layers[k]
                    },
            decreases self.layers@.len() - j,
        {
            assert(self.layers@[j as int]@ == before.layers[j as int]);
            match self.layers[j].feed {
                Some(f) => {
                    assert(before.layers[j as int].feed == Some(f));
                    let to: usize = mapping[f];
                    self.layers[j].feed = Some(to);
                },
                None => {},
            }
            j += 1;
        }
        assert(lives_of(self.layers@) =~= before.retired().layers);
    }
}

/// What the editor is told about one running layer.
pub struct LayerStatus {
    /// Matches the layer's id, which is how a row finds its telemetry again
    /// after a reorder.
    pub id: String,
    /// The endpoint the selection resolved to.
    pub device_name: String,
    pub kind: SourceKind,
    /// Channels the device offers.
    pub channels: usize,
    /// In hertz; zero for MIDI, which has no sample rate.
    pub sample_rate: u32,
    /// Points this layer would put on the wire.
    pub points: usize,
    /// Notes dropped for falling outside the note range. `None` for an audio
    /// layer, which has no notes to drop.
    pub notes_out_of_range: Option<u32>,
    /// Why this layer has no device, or how its stream died.
    pub error: Option<String>,
}

/// What an analyser has to show for itself.
#[derive(Clone, Copy, Debug, PartialEq, Eq, Structural)]
pub struct Grid {
    pub points: usize,
    pub notes_out_of_range: Option<u32>,
}

/// Whether a row says what there is to say about a layer.
pub open spec fn reports(row: LayerStatus, stack: Stack, l: int, grid: Grid) -> bool {
    let live = stack.layers[l];
    &&& row.id@ == live.config.id
    &&& row.points == grid.points
    &&& row.notes_out_of_range == grid.notes_out_of_range
    &&& text_of(row.error) == live.error
    &&& match live.feed {
        Some(f) => {
            let feed = stack.feeds[f as int];
            &&& row.device_name@ == feed.name
            &&& row.kind == feed.kind
            &&& row.channels == feed.channels
            &&& row.sample_rate == feed.sample_rate
        },
        None => {
            &&& row.device_name@ == Seq::<char>::empty()
            &&& row.kind == live.config.source.kind
            &&& row.channels == 0
            &&& row.sample_rate == 0
        },
    }
}

/// How a layer describes the device it opened, or why it has none.
pub open spec fn description(stack: Stack, l: int) -> Seq<char> {
    let live = stack.layers[l];
    match live.feed {
        Some(f) => {
            let feed = stack.feeds[f as int];
            if feed.kind == SourceKind::Midi {
                midi::listener_text(feed.name, feed.channel)
            } else {
                capture::capture_text(
                    feed.name,
                    feed.kind,
                    feed.channels as nat,
                    feed.channel,
                    feed.sample_rate,
                )
            }
        },
        None => live.error->0,
    }
}

/// Whether a layer is the one a device's failure is reported on: the first one
/// listening to it.
pub open spec fn hears_first(layers: Seq<Live>, l: int) -> bool {
    &&& layers[l].feed is Some
    &&& forall|k: int| 0 <= k < l ==> (#[trigger] layers[k]).feed != layers[l].feed
}

/// The failure reported on a layer, given what every device has to report.
pub open spec fn fault_on(
    layers: Seq<Live>,
    faults: Seq<Option<Seq<char>>>,
    l: int,
) -> Option<Seq<char>> {
    if hears_first(layers, l) {
        faults[layers[l].feed->0 as int]
    } else {
        None
    }
}

/// The reports of a list.
pub open spec fn reasons(faults: Seq<Option<String>>) -> Seq<Option<Seq<char>>> {
    Seq::new(faults.len(), |i: int| text_of(faults[i]))
}

/// The layers with the failures written on them.
pub open spec fn marked(layers: Seq<Live>, faults: Seq<Option<Seq<char>>>) -> Seq<Live> {
    Seq::new(
        layers.len(),
        |l: int|
            match fault_on(layers, faults, l) {
                Some(why) => Live { error: Some(why), ..layers[l] },
                None => layers[l],
            },
    )
}

/// The failures of the first layers, as pairs of the layer's id and the reason.
pub open spec fn fault_list(
    layers: Seq<Live>,
    faults: Seq<Option<Seq<char>>>,
    n: int,
) -> Seq<(Seq<char>, Seq<char>)>
    decreases n,
{
    if n <= 0 {
        Seq::empty()
    } else {
        match fault_on(layers, faults, n - 1) {
            Some(why) => fault_list(layers, faults, n - 1).push((layers[n - 1].config.id, why)),
            None => fault_list(layers, faults, n - 1),
        }
    }
}

/// The pairs of a list, by what they say.
pub open spec fn pairs(list: Seq<(String, String)>) -> Seq<(Seq<char>, Seq<char>)> {
    Seq::new(list.len(), |i: int| (list[i].0@, list[i].1@))
}

impl LiveStack {
    /// Whether the layer at a place is the first one listening to its device.
    fn is_first_listener(&self, at: usize) -> (first: bool)
        requires
            at < self@.layers.len(),
        ensures
            first == hears_first(self@.layers, at as int),
    {
        assert(self@.layers[at as int] == self.layers@[at as int]@);
        let feed: usize = match self.layers[at].feed {
            Some(f) => f,
            None => {
                return false;
            },
        };
        let mut i: usize = 0;
        while i < at
            invariant
                i <= at < self.layers@.len(),
                self@.layers[at as int].feed == Some(feed),
                forall|k: int| 0 <= k < i ==> (#[trigger] self@.layers[k]).feed != Some(feed),
            decreases at - i,
        {
            assert(self@.layers[i as int] == self.layers@[i as int]@);
            match self.layers[i].feed {
                Some(f) => {
                    if f == feed {
                        return false;
                    }
                },
                None => {},
            }
            i += 1;
        }
        true
    }

    /// Take what every device has to report and write it on the layers, naming
    /// each layer it lands on. A device's failure is reported once, on the first
    /// layer that listens to it.
    ///
    /// Asked before anything gated on samples arriving, because a stream that
    /// has died delivers nothing at all.
    pub fn take_faults(&mut self, faults: &[Option<String>]) -> (list: Vec<(String, String)>)
        requires
            old(self)@.wf(),
            faults@.len() == old(self)@.feeds.len(),
        ensures
            final(self)@ == (Stack {
                layers: marked(old(self)@.layers, reasons(faults@)),
                ..old(self)@
            }),
            final(self)@.wf(),
            pairs(list@) == fault_list(
                old(self)@.layers,
                reasons(faults@),
                old(self)@.layers.len() as int,
            ),
    {
        let ghost before = self@;
        let ghost why = reasons(faults@);
        let mut list: Vec<(String, String)> = Vec::new();
        let mut i: usize = 0;
        assert(pairs(list@) =~= fault_list(before.layers, why, 0));
        while i < self.layers.len()
            invariant
                i <= self.layers@.len(),
                before == old(self)@,
                before.wf(),
                self.layers@.len() == before.layers.len(),
                faults@.len() == before.feeds.len(),
                why == reasons(faults@),
                self.feeds == old(self).feeds,
                forall|k: int|
                    #![trigger self.layers@[k]]
                    0 <= k < self.layers@.len() ==> self.layers@[k]@ == if k < i {
                        marked(before.layers, why)[k]
                    } else {
                        before.layers[k]
                    },
                pairs(list@) == fault_list(before.layers, why, i as int),
            decreases self.layers@.len() - i,
        {
            assert(self.layers@[i as int]@ == before.layers[i as int]);
            let first = self.is_first_listener(i);
            proof {
                let now = self@.layers;
                assert(now[i as int] == before.layers[i as int]);
                assert forall|k: int| 0 <= k < i implies (#[trigger] now[k]).feed
                    == before.layers[k].feed by {
                    assert(now[k] == self.layers@[k]@);
                }
                assert(hears_first(now, i as int) == hears_first(before.layers, i as int)) by {
                    if hears_first(now, i as int) {
                        assert forall|k: int| 0 <= k < i implies (
                        #[trigger] before.layers[k]).feed != before.layers[i as int].feed by {
                            assert(now[k].feed == before.layers[k].feed);
                        }
                    }
                }
            }
            if first {
                match self.layers[i].feed {
                    Some(f) => {
                        assert(before.layers[i as int].feed == Some(f));
                        match &faults[f] {
                            Some(fault) => {
                                assert(why[f as int] == Some(fault@));
                                let ghost was = pairs(list@);
                                self.layers[i].error = Some(fault.clone());
                                list.push((self.layers[i].config.id.clone(), fault.clone()));
                                assert(pairs(list@) =~= was.push(
                                    (before.layers[i as int].config.id, fault@),
                                ));
                            },
                            None => {
                                assert(why[f as int] is None);
                            },
                        }
                    },
                    None => {},
                }
            }
            i += 1;
        }
        proof {
            assert(lives_of(self.layers@) =~= marked(before.layers, why));
            let now = self@;
            assert forall|l: int| 0 <= l < now.layers.len() implies match (
            #[trigger] now.layers[l]).feed {
                Some(f) => f < now.feeds.len(),
                None => now.layers[l].error is Some,
            } by {
                assert(before.layers[l].feed is Some || before.layers[l].feed is None);
            }
            assert forall|f: int| 0 <= f < now.feeds.len() implies #[trigger] is_used(
                now.layers,
                f,
            ) by {
                assert(is_used(before.layers, f));
                let l = choose|l: int|
                    0 <= l < before.layers.len() && (#[trigger] before.layers[l]).feed == Some(
                        f as usize,
                    );
                assert(now.layers[l].feed == Some(f as usize));
            }
        }
        list
    }

    /// Which device a layer's analyser is to be advanced from, if it is to be
    /// advanced at all. A layer nobody can see is not analysed, so muting one is
    /// a real saving rather than a cosmetic one.
    pub fn advances(&self, at: usize) -> (feed: Option<usize>)
        requires
            at < self@.layers.len(),
        ensures
            feed == if self@.layers[at as int].config.shows() {
                self@.layers[at as int].feed
            } else {
                None
            },
    {
        assert(self@.layers[at as int] == self.layers@[at as int]@);
        if self.layers[at].config.contributes() {
            self.layers[at].feed
        } else {
            None
        }
    }

    /// Where the analyser of a layer stood before the last change, or `None` if
    /// it is a new one.
    pub fn analyser_origin(&self, at: usize) -> (origin: Option<usize>)
        requires
            at < self@.layers.len(),
        ensures
            origin == self@.layers[at as int].origin,
    {
        assert(self@.layers[at as int] == self.layers@[at as int]@);
        self.layers[at].origin
    }

    /// The device a layer listens to.
    pub fn feed_of(&self, at: usize) -> (feed: Option<usize>)
        requires
            at < self@.layers.len(),
        ensures
            feed == self@.layers[at as int].feed,
    {
        assert(self@.layers[at as int] == self.layers@[at as int]@);
        self.layers[at].feed
    }

    /// Where a device stood before the last change, or `None` if that change
    /// opened it. Devices that were opened come in the order they were asked
    /// for.
    pub fn feed_origin(&self, feed: usize) -> (origin: Option<usize>)
        requires
            feed < self@.feeds.len(),
        ensures
            origin == self@.feeds[feed as int].origin,
    {
        assert(self@.feeds[feed as int] == self.feeds@[feed as int]@);
        self.feeds[feed].origin
    }

    /// What kind of device a layer is analysed as, and at what rate. A layer
    /// without a device never sees a sample, so the rate only sizes a band plan
    /// nobody reads: the commonest one means that if the device does come back,
    /// the plan it gets is usually the one it was already going to have.
    pub fn analysed_as(&self, at: usize) -> (how: (SourceKind, u32))
        requires
            self@.wf(),
            at < self@.layers.len(),
        ensures
            how == match self@.layers[at as int].feed {
                Some(f) => (
                    self@.feeds[f as int].kind,
                    self@.feeds[f as int].sample_rate,
                ),
                None => (self@.layers[at as int].config.source.kind, 48_000),
            },
    {
        assert(self@.layers[at as int] == self.layers@[at as int]@);
        match self.layers[at].feed {
            Some(f) => {
                assert(self@.feeds[f as int] == self.feeds@[f as int]@);
                (self.feeds[f].device.kind, self.feeds[f].device.sample_rate)
            },
            None => (self.layers[at].config.source.kind, 48_000),
        }
    }

    /// How one layer describes the device it opened, or why it has none. Empty
    /// for a layer that does not exist.
    pub fn describe(&self, at: usize) -> (out: String)
        requires
            self@.wf(),
        ensures
            out@ == if at < self@.layers.len() {
                description(self@, at as int)
            } else {
                Seq::empty()
            },
    {
        if at >= self.layers.len() {
            return String::new();
        }
        assert(self@.layers[at as int] == self.layers@[at as int]@);
        match self.layers[at].feed {
            Some(f) => {
                assert(self@.feeds[f as int] == self.feeds@[f as int]@);
                let device = &self.feeds[f].device;
                if device.kind == SourceKind::Midi {
                    midi::describe_port(device.name.as_str(), device.channel)
                } else {
                    capture::describe(
                        device.name.as_str(),
                        device.kind,
                        device.channels,
                        device.channel,
                        device.sample_rate,
                    )
                }
            },
            None => match &self.layers[at].error {
                Some(e) => e.clone(),
                None => String::new(),
            },
        }
    }

    /// What to tell the editor about each layer.
    pub fn status(&self, grids: &[Grid]) -> (rows: Vec<LayerStatus>)
        requires
            self@.wf(),
            grids@.len() == self@.layers.len(),
        ensures
            rows@.len() == self@.layers.len(),
            forall|l: int|
                0 <= l < rows@.len() ==> reports(#[trigger] rows@[l], self@, l, grids@[l]),
    {
        let mut rows: Vec<LayerStatus> = Vec::new();
        let mut i: usize = 0;
        while i < self.layers.len()
            invariant
                i <= self.layers@.len(),
                self@.wf(),
                grids@.len() == self.layers@.len(),
                rows@.len() == i,
                forall|l: int|
                    0 <= l < i ==> reports(#[trigger] rows@[l], self@, l, grids@[l]),
            decreases self.layers@.len() - i,
        {
            assert(self@.layers[i as int] == self.layers@[i as int]@);
            let live = &self.layers[i];
            let row = match live.feed {
                Some(f) => {
                    assert(self@.feeds[f as int] == self.feeds@[f as int]@);
                    let device = &self.feeds[f].device;
                    LayerStatus {
                        id: live.config.id.clone(),
                        device_name: device.name.clone(),
                        kind: device.kind,
                        channels: device.channels,
                        sample_rate: device.sample_rate,
                        points: grids[i].points,
                        notes_out_of_range: grids[i].notes_out_of_range,
                        error: copy_text(&live.error),
                    }
                },
                None => LayerStatus {
                    id: live.config.id.clone(),
                    device_name: String::new(),
                    kind: live.config.source.kind,
                    channels: 0,
                    sample_rate: 0,
                    points: grids[i].points,
                    notes_out_of_range: grids[i].notes_out_of_range,
                    error: copy_text(&live.error),
                },
            };
            rows.push(row);
            i += 1;
        }
        rows
    }
}

/// The widest grid any layer produces. The stack is rendered at this resolution
/// so no layer is resampled down to something coarser than what it has.
pub fn points(grids: &[Grid]) -> (n: usize)
    ensures
        grids@.len() == 0 ==> n == 0,
        forall|i: int| 0 <= i < grids@.len() ==> (#[trigger] grids@[i]).points <= n,
        grids@.len() > 0 ==> exists|i: int|
            0 <= i < grids@.len() && (#[trigger] grids@[i]).points == n,
{
    let mut n: usize = 0;
    let mut i: usize = 0;
    while i < grids.len()
        invariant
            i <= grids@.len(),
            i == 0 ==> n == 0,
            forall|k: int| 0 <= k < i ==> (#[trigger] grids@[k]).points <= n,
            i > 0 ==> exists|k: int| 0 <= k < i && (#[trigger] grids@[k]).points == n,
        decreases grids@.len() - i,
    {
        if i == 0 || grids[i].points > n {
            n = grids[i].points;
            assert(grids@[i as int].points == n);
        }
        i += 1;
    }
    n
}

/// The colours a frame carries: as many as the stack has points, within what
/// the link takes, and never none.
pub fn frame_points(stack_points: usize, point_cap: usize) -> (n: usize)
    ensures
        n >= 1,
        n == stack_points || n == point_cap || n == 1,
        point_cap >= 1 ==> n <= point_cap,
        1 <= stack_points <= point_cap ==> n == stack_points,
        1 <= point_cap < stack_points ==> n == point_cap,
        stack_points == 0 || point_cap == 0 ==> n == 1,
{
    let n: usize = if stack_points < point_cap {
        stack_points
    } else {
        point_cap
    };
    if n < 1 {
        1
    } else {
        n
    }
}

/// Layers on one device share one handle: in a stack built from a show, two
/// layers that ask for the same device and have one have the same one.
pub proof fn law_layers_on_one_device_share_one_feed(b: Building, a: int, c: int)
    requires
        b.wf(),
        0 <= a < b.layers.len(),
        0 <= c < b.layers.len(),
        key_of(b.layers[a].config.source) == key_of(b.layers[c].config.source),
        b.layers[a].feed is Some,
        b.layers[c].feed is Some,
    ensures
        b.layers[a].feed == b.layers[c].feed,
{
    lemma_one_key_one_home(
        b.feeds,
        b.layers[a].config.source,
        b.layers[c].config.source,
        b.ports,
        0,
    );
}

/// Whether some device of a list answers a key.
pub open spec fn answered(feeds: Seq<Feed>, key: Selection) -> bool {
    exists|i: int| 0 <= i < feeds.len() && (#[trigger] feeds[i]).key == key
}

/// A change that asks for no new device opens none: if everything the show
/// listens to is open already, the whole stack is built without opening
/// anything. A reorder is such a change where every layer has the device it asks
/// for.
pub proof fn law_a_reorder_keeps_the_devices_open(b: Building)
    requires
        b.layers.len() <= b.show.len(),
        forall|l: int|
            b.layers.len() <= l < b.show.len() ==> answered(
                b.feeds,
                key_of((#[trigger] b.show[l]).source),
            ) || answered(b.spare, key_of(b.show[l].source)),
    ensures
        b.advanced().layers.len() == b.show.len(),
    decreases b.show.len() - b.layers.len(),
{
    if b.layers.len() < b.show.len() {
        let cfg = b.current();
        let key = key_of(cfg.source);
        lemma_first_with_key(b.feeds, key, 0);
        lemma_first_with_key(b.spare, key, 0);
        assert(b.show[b.layers.len() as int] == cfg);
        assert(!(b.binding() is Open));
        let next = b.bind_one();
        assert forall|l: int| next.layers.len() <= l < next.show.len() implies answered(
            next.feeds,
            key_of((#[trigger] next.show[l]).source),
        ) || answered(next.spare, key_of(next.show[l].source)) by {
            let k = key_of(b.show[l].source);
            match b.binding() {
                Binding::Kept(i) => {},
                Binding::Moved(j) => {
                    if answered(b.feeds, k) {
                        let i = choose|i: int| 0 <= i < b.feeds.len() && (#[trigger] b.feeds[i]).key == k;
                        assert(next.feeds[i].key == k);
                    } else {
                        let i = choose|i: int| 0 <= i < b.spare.len() && (#[trigger] b.spare[i]).key == k;
                        if i == j {
                            assert(next.feeds[b.feeds.len() as int].key == k);
                        } else if i < j {
                            assert(next.spare[i].key == k);
                        } else {
                            assert(next.spare[i - 1].key == k);
                        }
                    }
                },
                Binding::Adopted(j) => {},
                Binding::Open => {},
            }
        }
        law_a_reorder_keeps_the_devices_open(next);
    }
}

/// Whether a layer of a list is the one a show asks for: the same id, on the
/// same device.
pub open spec fn carries_on(old: Seq<Live>, cfg: LayerView, p: int) -> bool {
    &&& 0 <= p < old.len()
    &&& old[p].config.id == cfg.id
    &&& key_of(old[p].config.source) == key_of(cfg.source)
}

/// Whether some layer of a list is the one a show asks for.
pub open spec fn carried(old: Seq<Live>, cfg: LayerView) -> bool {
    exists|p: int| carries_on(old, cfg, p)
}

/// Whether no two layers of a list have the same id.
pub open spec fn ids_differ(layers: Seq<Live>) -> bool {
    forall|a: int, b: int|
        0 <= a < b < layers.len() ==> (#[trigger] layers[a]).config.id != (
        #[trigger] layers[b]).config.id
}

/// Whether no two layers of a show have the same id.
pub open spec fn names_differ(show: Seq<LayerView>) -> bool {
    forall|a: int, b: int|
        0 <= a < b < show.len() ==> (#[trigger] show[a]).id != (#[trigger] show[b]).id
}

/// Whether the device a layer was listening to is at hand and answers its key.
spec fn at_hand(b: Building, live: Live) -> bool {
    &&& live.feed is Some
    &&& exists|i: int|
        0 <= i < (b.feeds + b.spare).len() && #[trigger] (b.feeds + b.spare)[i].key == key_of(
            live.config.source,
        ) && (b.feeds + b.spare)[i].origin == live.feed
}

/// Going on leaves the layers that are done as they are.
proof fn lemma_done_stays_done(b: Building, l: int)
    requires
        0 <= l < b.layers.len() <= b.show.len(),
    ensures
        b.advanced().layers[l] == b.layers[l],
    decreases b.show.len() - b.layers.len(),
{
    if b.layers.len() < b.show.len() && !(b.binding() is Open) {
        assert(b.bind_one().layers[l] == b.layers[l]);
        lemma_done_stays_done(b.bind_one(), l);
    }
}

/// One step of a reorder: the layer whose turn it is keeps its analyser, and the
/// devices of the others stay at hand.
proof fn lemma_reorder_step(b: Building, q: int)
    requires
        b.layers.len() < b.show.len(),
        keys_differ(b.feeds + b.spare),
        ids_differ(b.old),
        forall|p: int| 0 <= p < b.old.len() ==> at_hand(b, #[trigger] b.old[p]),
        carries_on(b.old, b.current(), q),
    ensures
        !(b.binding() is Open),
        b.bind_one().layers.len() == b.layers.len() + 1,
        b.bind_one().layers.last().origin == b.old[q].origin,
        b.bind_one().show == b.show,
        b.bind_one().old == b.old.remove(q),
        keys_differ(b.bind_one().feeds + b.bind_one().spare),
        forall|p: int|
            0 <= p < b.old.len() && p != q ==> at_hand(b.bind_one(), #[trigger] b.old[p]),
{
    let key = key_of(b.current().source);
    let all = b.feeds + b.spare;
    let n = b.feeds.len() as int;
    lemma_first_with_id(b.old, b.current().id, 0);
    let seen = first_with_id(b.old, b.current().id, 0);
    lemma_id_is_found(b.old, b.current().id, 0, q);
    assert(seen == Some(q)) by {
        let s = seen->0;
        if s < q {
            assert(b.old[s].config.id != b.old[q].config.id);
        } else if q < s {
            assert(b.old[q].config.id != b.old[s].config.id);
        }
    }
    assert(at_hand(b, b.old[q]));
    let i = choose|i: int|
        0 <= i < all.len() && #[trigger] all[i].key == key && all[i].origin == b.old[q].feed;
    lemma_first_with_key(b.feeds, key, 0);
    lemma_first_with_key(b.spare, key, 0);
    let next = b.bind_one();
    let rest = next.feeds + next.spare;
    if i < n {
        assert(b.feeds[i] == all[i]);
        let k = first_with_key(b.feeds, key, 0)->0;
        assert(all[k] == b.feeds[k]);
        assert(k == i) by {
            if k < i {
                assert(all[k].key != all[i].key);
            }
        }
        assert(rest == all);
        assert forall|p: int| 0 <= p < b.old.len() && p != q implies at_hand(
            next,
            #[trigger] b.old[p],
        ) by {
            assert(at_hand(b, b.old[p]));
        }
    } else {
        assert(b.spare[i - n] == all[i]);
        if first_with_key(b.feeds, key, 0) is Some {
            let k = first_with_key(b.feeds, key, 0)->0;
            assert(all[k] == b.feeds[k]);
            assert(all[k].key != all[i].key);
        }
        let j = first_with_key(b.spare, key, 0)->0;
        assert(all[n + j] == b.spare[j]);
        assert(j == i - n) by {
            if j < i - n {
                assert(all[n + j].key != all[i].key);
            }
        }
        assert forall|c: int| 0 <= c < all.len() implies exists|d: int|
            0 <= d < rest.len() && rest[d] == #[trigger] all[c] by {
            let d = if c < n {
                c
            } else if c == i {
                n
            } else if c < i {
                c + 1
            } else {
                c
            };
            assert(rest[d] == all[c]);
        }
        assert forall|x: int, y: int| 0 <= x < y < rest.len() implies (#[trigger] rest[x]).key != (
        #[trigger] rest[y]).key by {
            let c = if x < n {
                x
            } else if x == n {
                i
            } else if x <= i {
                x - 1
            } else {
                x
            };
            let d = if y < n {
                y
            } else if y == n {
                i
            } else if y <= i {
                y - 1
            } else {
                y
            };
            assert(rest[x] == all[c]);
            assert(rest[y] == all[d]);
            if c < d {
                assert(all[c].key != all[d].key);
            } else {
                assert(all[d].key != all[c].key);
            }
        }
        assert forall|p: int| 0 <= p < b.old.len() && p != q implies at_hand(
            next,
            #[trigger] b.old[p],
        ) by {
            assert(at_hand(b, b.old[p]));
            let c = choose|c: int|
                0 <= c < all.len() && #[trigger] all[c].key == key_of(b.old[p].config.source)
                    && all[c].origin == b.old[p].feed;
            let d = choose|d: int| 0 <= d < rest.len() && rest[d] == all[c];
            assert(rest[d].key == key_of(b.old[p].config.source));
        }
    }
}

proof fn lemma_id_is_found(layers: Seq<Live>, id: Seq<char>, from: int, at: int)
    requires
        0 <= from <= at < layers.len(),
        layers[at].config.id == id,
    ensures
        first_with_id(layers, id, from) is Some,
    decreases at - from,
{
    if layers[from].config.id != id {
        lemma_id_is_found(layers, id, from + 1, at);
    }
}

proof fn lemma_reorder(b: Building, l: int, p: int)
    requires
        b.layers.len() <= b.show.len(),
        keys_differ(b.feeds + b.spare),
        ids_differ(b.old),
        names_differ(b.show),
        forall|q: int| 0 <= q < b.old.len() ==> at_hand(b, #[trigger] b.old[q]),
        forall|m: int|
            b.layers.len() <= m < b.show.len() ==> carried(b.old, #[trigger] b.show[m]),
        b.layers.len() <= l < b.show.len(),
        carries_on(b.old, b.show[l], p),
    ensures
        b.advanced().layers.len() == b.show.len(),
        b.advanced().layers[l].origin == b.old[p].origin,
    decreases b.show.len() - b.layers.len(),
{
    let at = b.layers.len() as int;
    assert(b.current() == b.show[at]);
    assert(carried(b.old, b.show[at]));
    let q = if l == at {
        p
    } else {
        choose|q: int| carries_on(b.old, b.show[at], q)
    };
    lemma_reorder_step(b, q);
    let next = b.bind_one();
    assert forall|a: int, c: int| 0 <= a < c < next.old.len() implies (
    #[trigger] next.old[a]).config.id != (#[trigger] next.old[c]).config.id by {
        let x = if a < q { a } else { a + 1 };
        let y = if c < q { c } else { c + 1 };
        assert(next.old[a] == b.old[x] && next.old[c] == b.old[y]);
    }
    assert forall|a: int| 0 <= a < next.old.len() implies at_hand(next, #[trigger] next.old[a]) by {
        let x = if a < q { a } else { a + 1 };
        assert(next.old[a] == b.old[x]);
    }
    assert forall|m: int| next.layers.len() <= m < next.show.len() implies carried(
        next.old,
        #[trigger] next.show[m],
    ) by {
        assert(carried(b.old, b.show[m]));
        let r = choose|r: int| carries_on(b.old, b.show[m], r);
        assert(b.show[at].id != b.show[m].id);
        assert(r != q);
        assert(carries_on(next.old, next.show[m], if r < q { r } else { r - 1 }));
    }
    if l == at {
        lemma_done_stays_done(next, at);
        if next.layers.len() < next.show.len() {
            let m = at + 1;
            assert(carried(next.old, next.show[m]));
            let r = choose|r: int| carries_on(next.old, next.show[m], r);
            lemma_reorder(next, m, r);
        }
    } else {
        assert(b.show[at].id != b.show[l].id);
        assert(p != q);
        let r = if p < q { p } else { p - 1 };
        assert(next.old[r] == b.old[p]);
        assert(carries_on(next.old, next.show[l], r));
        lemma_reorder(next, l, r);
    }
}

/// Moving layers about or dropping some restarts nothing: where every layer has
/// the device it asks for, each layer that stays keeps the analyser it was
/// running, and no device is opened for it.
pub proof fn law_a_reorder_keeps_every_analyser(
    stack: Stack,
    show: Seq<LayerView>,
    ports: Seq<Port>,
    l: int,
    p: int,
)
    requires
        stack.wf(),
        ids_differ(stack.layers),
        names_differ(show),
        forall|q: int|
            0 <= q < stack.layers.len() ==> (#[trigger] stack.layers[q]).feed is Some
                && stack.feeds[stack.layers[q].feed->0 as int].key == key_of(
                stack.layers[q].config.source,
            ),
        forall|m: int|
            0 <= m < show.len() ==> carried(stack.layers, #[trigger] show[m]),
        0 <= l < show.len(),
        carries_on(stack.layers, show[l], p),
    ensures
        stack.rebuilding(show, ports).advanced().layers.len() == show.len(),
        stack.rebuilding(show, ports).advanced().layers[l].origin == Some(p as usize),
{
    let b = stack.rebuilding(show, ports);
    let all = b.feeds + b.spare;
    assert(all =~= stack.settled().feeds);
    assert forall|q: int| 0 <= q < b.old.len() implies at_hand(b, #[trigger] b.old[q]) by {
        let f = stack.layers[q].feed->0 as int;
        assert(b.old[q].config == stack.layers[q].config);
        assert(all[f].key == key_of(b.old[q].config.source) && all[f].origin == b.old[q].feed);
    }
    assert forall|m: int| 0 <= m < show.len() implies carried(
        b.old,
        #[trigger] b.show[m],
    ) by {
        assert(carried(stack.layers, show[m]));
        let q = choose|q: int| carries_on(stack.layers, show[m], q);
        assert(carries_on(b.old, b.show[m], q));
    }
    lemma_reorder(b, l, p);
}

/// A device that has just been opened is a different grid and a different
/// floor: the layer it was opened for starts a new analyser, whether the stack is
/// being built or edited.
pub proof fn law_a_newly_opened_device_starts_a_new_analyser(
    b: Building,
    e: Editing,
    device: Device,
)
    requires
        b.layers.len() < b.show.len(),
        e.wf(),
        e.at < e.next.len(),
    ensures
        b.opened(Ok(device)).layers.last().origin is None,
        e.opened(Ok(device)).layers[e.at].origin is None,
{
}

/// A device that will not open costs exactly one dark layer: it says why, and
/// nothing about the devices or the layers before it changes.
pub proof fn law_one_dead_device_costs_one_dark_layer(b: Building, why: String)
    requires
        b.layers.len() < b.show.len(),
    ensures
        ({
            let after = b.opened(Err(why));
            &&& after.feeds == b.feeds
            &&& after.layers.len() == b.layers.len() + 1
            &&& after.layers.drop_last() == b.layers
            &&& after.layers.last().feed is None
            &&& after.layers.last().error == Some(why@)
            &&& after.layers.last().config == b.current()
        }),
{
    assert(b.opened(Err(why)).layers.drop_last() =~= b.layers);
}

/// An edit that moves no layer to another device is applied in place: nothing
/// is opened or closed, and every analyser goes on.
pub proof fn law_a_cosmetic_edit_is_applied_in_place(e: Editing, l: int)
    requires
        e.wf(),
        forall|k: int|
            e.at <= k < e.next.len() ==> key_of((#[trigger] e.next[k]).source) == key_of(
                e.layers[k].config.source,
            ),
        0 <= l < e.layers.len(),
    ensures
        e.advanced().at == e.next.len(),
        e.advanced().feeds == e.feeds,
        e.advanced().moved == e.moved,
        e.advanced().layers.len() == e.layers.len(),
        e.advanced().layers[l].feed == e.layers[l].feed,
        e.advanced().layers[l].error == e.layers[l].error,
        e.advanced().layers[l].origin == e.layers[l].origin,
        e.advanced().layers[l].config == if l < e.at {
            e.layers[l].config
        } else {
            e.next[l]
        },
    decreases e.next.len() - e.at,
{
    if e.at < e.next.len() {
        assert(key_of(e.next[e.at].source) == key_of(e.layers[e.at].config.source));
        let further = e.edit_one()->0;
        lemma_edit_keeps_wf(e);
        assert forall|k: int| further.at <= k < further.next.len() implies key_of(
            (#[trigger] further.next[k]).source,
        ) == key_of(further.layers[k].config.source) by {
            assert(further.layers[k] == e.layers[k]);
        }
        law_a_cosmetic_edit_is_applied_in_place(further, l);
    }
}

/// Moving one layer to another device touches that layer and nothing else, and
/// a device that cannot be opened leaves the layer where it was.
pub proof fn law_a_failed_move_keeps_the_layer_where_it_was(e: Editing, why: String, l: int)
    requires
        e.wf(),
        e.at < e.next.len(),
        0 <= l < e.layers.len(),
    ensures
        e.opened(Err(why)).feeds == e.feeds,
        e.opened(Err(why)).layers[l].feed == e.layers[l].feed,
        e.opened(Err(why)).layers[l].origin == e.layers[l].origin,
        l != e.at ==> e.opened(Err(why)).layers[l] == e.layers[l],
        l == e.at ==> e.opened(Err(why)).layers[l].error == Some(why@),
{
}

/// A port that is open is not opened a second time while a stack is built: if
/// some device, kept or left over, already holds the port that the layer whose
/// turn it is would open, the layer is bound without opening anything.
pub proof fn law_a_rebuild_opens_no_open_port(b: Building, held: Feed)
    requires
        b.layers.len() < b.show.len(),
        (b.feeds + b.spare).contains(held),
        adopts(held, b.current().source, b.ports),
    ensures
        !(b.binding() is Open),
        b.advanced() == b.bind_one().advanced(),
{
    let requested = b.current().source;
    lemma_first_adopting(b.feeds, requested, b.ports, 0);
    lemma_first_adopting(b.spare, requested, b.ports, 0);
    let all = b.feeds + b.spare;
    let i = choose|i: int| 0 <= i < all.len() && all[i] == held;
    if i < b.feeds.len() {
        assert(b.feeds[i] == held);
    } else {
        assert(b.spare[i - b.feeds.len()] == held);
    }
}

/// A port that is open is not opened a second time while a stack is edited: if
/// some device already holds the port that the layer whose turn it is would
/// open, the layer is dealt with without opening anything.
pub proof fn law_an_edit_opens_no_open_port(e: Editing, held: Feed)
    requires
        0 <= e.at < e.next.len(),
        e.feeds.contains(held),
        adopts(held, e.next[e.at].source, e.ports),
    ensures
        e.edit_one() is Some,
{
    lemma_first_adopting(e.feeds, e.next[e.at].source, e.ports, 0);
    let i = choose|i: int| 0 <= i < e.feeds.len() && e.feeds[i] == held;
    assert(adopts(e.feeds[i], e.next[e.at].source, e.ports));
}

/// A device adopts every selection that would open the port it holds, whatever
/// name the selection has for it.
pub proof fn law_a_device_adopts_every_name_of_its_port(
    ports: Seq<Port>,
    feed: Feed,
    first: Selection,
    second: Selection,
)
    requires
        feed.kind == SourceKind::Midi,
        second.kind == SourceKind::Midi,
        resolved_name(ports, first.id) == Some(feed.name),
        midi::picked(ports, first.id) == midi::picked(ports, second.id),
    ensures
        adopts(feed, second, ports),
{
}

/// Whether two entries are the same device: what was opened, and where it stood.
pub open spec fn same_device(a: Feed, b: Feed) -> bool {
    &&& a.kind == b.kind
    &&& a.name == b.name
    &&& a.channels == b.channels
    &&& a.sample_rate == b.sample_rate
    &&& a.origin == b.origin
}

/// Moving a layer without opening anything binds it to a device that was open and
/// answers it: one of the key it asks for, or the MIDI input its selection
/// resolves to. The device answers that key from then on, and no other device and
/// no other layer changes.
pub proof fn law_a_moved_layer_lands_on_the_device_it_asks_for(e: Editing, l: int)
    requires
        e.wf(),
        e.at < e.next.len(),
        key_of(e.layers[e.at].config.source) != key_of(e.next[e.at].source),
        e.edit_one() is Some,
        0 <= l < e.layers.len(),
        l != e.at,
    ensures
        ({
            let next = e.edit_one()->0;
            let asked = e.next[e.at].source;
            let f = next.layers[e.at].feed->0 as int;
            &&& next.layers[e.at].feed is Some
            &&& next.layers[e.at].error is None
            &&& next.layers[e.at].config == e.next[e.at]
            &&& next.layers[e.at].origin is None
            &&& 0 <= f < e.feeds.len() == next.feeds.len()
            &&& e.feeds[f].key == key_of(asked) || e.feeds[f].kind == SourceKind::Midi
                && asked.kind == SourceKind::Midi && resolved_name(e.ports, asked.id) == Some(
                e.feeds[f].name,
            )
            &&& next.feeds[f].key == key_of(asked)
            &&& same_device(next.feeds[f], e.feeds[f])
            &&& forall|i: int|
                0 <= i < e.feeds.len() && i != f ==> #[trigger] next.feeds[i] == e.feeds[i]
            &&& next.layers[l] == e.layers[l]
            &&& next.moved
        }),
{
    let key = key_of(e.next[e.at].source);
    lemma_first_with_key(e.feeds, key, 0);
    lemma_first_adopting(e.feeds, e.next[e.at].source, e.ports, 0);
}

/// A device opened for a layer that moves is the one the layer is bound to, it is
/// what was opened, and it answers the key it was opened for. No other device and
/// no other layer changes.
pub proof fn law_an_opened_device_is_the_one_that_was_asked_for(
    e: Editing,
    b: Building,
    device: Device,
    l: int,
)
    requires
        e.wf(),
        e.at < e.next.len(),
        e.feeds.len() < usize::MAX,
        0 <= l < e.layers.len(),
        l != e.at,
        b.layers.len() < b.show.len(),
        b.feeds.len() < usize::MAX,
    ensures
        ({
            let next = e.opened(Ok(device));
            let fed = next.feeds.last();
            &&& next.feeds.drop_last() == e.feeds
            &&& next.layers[e.at].feed == Some(e.feeds.len() as usize)
            &&& next.layers[e.at].error is None
            &&& next.layers[e.at].config == e.next[e.at]
            &&& fed.key == key_of(e.next[e.at].source)
            &&& fed.kind == device.kind && fed.name == device.name@
            &&& fed.channels == device.channels && fed.channel == device.channel
            &&& fed.sample_rate == device.sample_rate
            &&& next.layers[l] == e.layers[l]
            &&& next.at == e.at + 1
            &&& next.moved
        }),
        ({
            let next = b.opened(Ok(device));
            let fed = next.feeds.last();
            &&& next.feeds.drop_last() == b.feeds
            &&& next.layers.drop_last() == b.layers
            &&& next.layers.last().feed == Some(b.feeds.len() as usize)
            &&& next.layers.last().error is None
            &&& next.layers.last().config == b.current()
            &&& fed.key == key_of(b.current().source)
            &&& fed.kind == device.kind && fed.name == device.name@
            &&& fed.channels == device.channels && fed.channel == device.channel
            &&& fed.sample_rate == device.sample_rate
        }),
{
    assert(e.opened(Ok(device)).feeds.drop_last() =~= e.feeds);
    assert(b.opened(Ok(device)).feeds.drop_last() =~= b.feeds);
    assert(b.opened(Ok(device)).layers.drop_last() =~= b.layers);
}

/// Building a layer without opening anything binds it to a device that was open
/// and answers it: one of the key it asks for, or the MIDI input its selection
/// resolves to.
pub proof fn law_a_built_layer_lands_on_the_device_it_asks_for(b: Building)
    requires
        b.wf(),
        b.layers.len() < b.show.len() <= usize::MAX,
        !(b.binding() is Open),
    ensures
        ({
            let next = b.bind_one();
            let asked = b.current().source;
            let f = next.layers.last().feed->0 as int;
            &&& next.layers.len() == b.layers.len() + 1
            &&& next.layers.drop_last() == b.layers
            &&& next.layers.last().config == b.current()
            &&& next.layers.last().feed is Some
            &&& next.layers.last().error is None
            &&& 0 <= f < next.feeds.len()
            &&& exists|i: int|
                0 <= i < (b.feeds + b.spare).len() && same_device(
                    next.feeds[f],
                    #[trigger] (b.feeds + b.spare)[i],
                ) && ((b.feeds + b.spare)[i].key == key_of(asked) || (b.feeds + b.spare)[i].kind
                    == SourceKind::Midi && asked.kind == SourceKind::Midi && resolved_name(
                    b.ports,
                    asked.id,
                ) == Some((b.feeds + b.spare)[i].name))
            &&& forall|i: int|
                0 <= i < b.feeds.len() ==> #[trigger] next.feeds[i] == b.feeds[i]
        }),
{
    let requested = b.current().source;
    let key = key_of(requested);
    let all = b.feeds + b.spare;
    lemma_first_with_key(b.feeds, key, 0);
    lemma_first_with_key(b.spare, key, 0);
    lemma_first_adopting(b.spare, requested, b.ports, 0);
    lemma_first_adopting(b.feeds, requested, b.ports, 0);
    assert(b.bind_one().layers.drop_last() =~= b.layers);
    match b.binding() {
        Binding::Kept(i) => {
            assert(all[i] == b.feeds[i]);
        },
        Binding::Moved(j) => {
            assert(all[b.feeds.len() + j] == b.spare[j]);
        },
        Binding::Adopted(j) => {
            assert(all[b.feeds.len() + j] == b.spare[j]);
        },
        Binding::Open => {},
    }
}

/// In a stack that is being built, every layer that is bound is on a device that
/// answers it: one of the key it asks for, or the MIDI input its selection
/// resolves to. Every layer that is not says why.
pub proof fn law_every_built_layer_has_what_it_asks_for(b: Building, l: int)
    requires
        b.wf(),
        0 <= l < b.layers.len(),
    ensures
        b.layers[l].config == b.show[l],
        match b.layers[l].feed {
            Some(f) => {
                let asked = b.show[l].source;
                &&& f < b.feeds.len()
                &&& b.layers[l].error is None
                &&& b.feeds[f as int].key == key_of(asked) || b.feeds[f as int].kind
                    == SourceKind::Midi && asked.kind == SourceKind::Midi && resolved_name(
                    b.ports,
                    asked.id,
                ) == Some(b.feeds[f as int].name)
            },
            None => b.layers[l].error is Some,
        },
{
    let asked = b.layers[l].config.source;
    lemma_first_with_key(b.feeds, key_of(asked), 0);
    lemma_first_adopting(b.feeds, asked, b.ports, 0);
}

impl Editing {
    /// Run to the end, given what came of opening each device that was asked for.
    pub open spec fn finished(self, outcomes: Seq<Result<Device, String>>) -> Editing
        decreases outcomes.len(),
    {
        let e = self.advanced();
        if e.at >= e.next.len() || outcomes.len() == 0 {
            e
        } else {
            e.opened(outcomes[0]).finished(outcomes.skip(1))
        }
    }
}

/// Whether a layer's device answers the layer's key, or was adopted since by a
/// later layer that would open the same port and answers that one's.
pub open spec fn answers_layer(e: Editing, l: int) -> bool {
    let f = e.layers[l].feed->0 as int;
    ||| e.feeds[f].key == key_of(e.layers[l].config.source)
    ||| exists|m: int| l < m && #[trigger] taken_over(e, f, m)
}

/// Whether a layer that was dealt with has adopted a device.
pub open spec fn taken_over(e: Editing, f: int, m: int) -> bool {
    &&& 0 <= m < e.at
    &&& e.layers[m].feed == Some(f as usize)
    &&& e.feeds[f].kind == SourceKind::Midi
    &&& resolved_name(e.ports, e.layers[m].config.source.id) == Some(e.feeds[f].name)
    &&& e.feeds[f].key == key_of(e.layers[m].config.source)
}

/// Whether a layer that was dealt with is where it should be: where it was, if it
/// asks for the same device; on one that answers it, if it moved; and where it
/// was, saying why, if it could not.
pub open spec fn well_dealt_with(start: Editing, e: Editing, l: int) -> bool {
    let was = start.layers[l];
    let is = e.layers[l];
    &&& is.config == start.next[l]
    &&& if key_of(was.config.source) == key_of(start.next[l].source) {
        is.feed == was.feed && is.error == was.error && is.origin == was.origin
    } else {
        ||| is.error is None && is.feed is Some && is.origin is None && answers_layer(e, l)
        ||| is.error is Some && is.feed == was.feed && is.origin == was.origin
    }
}

spec fn on_the_way(start: Editing, e: Editing) -> bool {
    &&& e.wf()
    &&& e.next == start.next
    &&& e.ports == start.ports
    &&& e.layers.len() == start.layers.len()
    &&& start.feeds.len() <= e.feeds.len()
    &&& forall|i: int|
        0 <= i < start.feeds.len() ==> same_device(#[trigger] e.feeds[i], start.feeds[i])
    &&& forall|l: int| 0 <= l < e.at ==> #[trigger] well_dealt_with(start, e, l)
    &&& forall|l: int| e.at <= l < e.layers.len() ==> #[trigger] e.layers[l] == start.layers[l]
}

proof fn lemma_edit_on_the_way(start: Editing, e: Editing)
    requires
        start.at == 0,
        on_the_way(start, e),
        e.at < e.next.len(),
        e.edit_one() is Some,
    ensures
        on_the_way(start, e.edit_one()->0),
        (e.edit_one()->0).feeds.len() == e.feeds.len(),
{
    let next = e.edit_one()->0;
    let asked = e.next[e.at].source;
    let key = key_of(asked);
    lemma_edit_keeps_wf(e);
    lemma_first_with_key(e.feeds, key, 0);
    lemma_first_adopting(e.feeds, asked, e.ports, 0);
    assert(e.layers[e.at] == start.layers[e.at]);
    assert forall|i: int| 0 <= i < start.feeds.len() implies same_device(
        #[trigger] next.feeds[i],
        start.feeds[i],
    ) by {
        assert(same_device(e.feeds[i], start.feeds[i]));
    }
    assert forall|l: int| 0 <= l < next.at implies #[trigger] well_dealt_with(start, next, l) by {
        if l < e.at {
            assert(well_dealt_with(start, e, l));
            assert(next.layers[l] == e.layers[l]);
            let was = start.layers[l];
            if key_of(was.config.source) != key_of(start.next[l].source) && e.layers[l].error is None {
                let f = e.layers[l].feed->0 as int;
                if next.feeds[f] == e.feeds[f] {
                    if e.feeds[f].key != key_of(e.layers[l].config.source) {
                        let m = choose|m: int| l < m && #[trigger] taken_over(e, f, m);
                        assert(taken_over(next, f, m));
                    }
                } else {
                    assert(taken_over(next, f, e.at));
                }
            }
        }
    }
}

proof fn lemma_open_on_the_way(start: Editing, e: Editing, outcome: Result<Device, String>)
    requires
        start.at == 0,
        on_the_way(start, e),
        e.at < e.next.len(),
        e.edit_one() is None,
        e.feeds.len() < usize::MAX,
    ensures
        on_the_way(start, e.opened(outcome)),
{
    let next = e.opened(outcome);
    lemma_opened_keeps_wf(e, outcome);
    assert(e.layers[e.at] == start.layers[e.at]);
    assert forall|i: int| 0 <= i < start.feeds.len() implies same_device(
        #[trigger] next.feeds[i],
        start.feeds[i],
    ) by {
        assert(same_device(e.feeds[i], start.feeds[i]));
    }
    assert forall|l: int| 0 <= l < next.at implies #[trigger] well_dealt_with(start, next, l) by {
        if l < e.at {
            assert(well_dealt_with(start, e, l));
            assert(next.layers[l] == e.layers[l]);
            let was = start.layers[l];
            if key_of(was.config.source) != key_of(start.next[l].source) && e.layers[l].error is None {
                let f = e.layers[l].feed->0 as int;
                assert(next.feeds[f] == e.feeds[f]);
                if e.feeds[f].key != key_of(e.layers[l].config.source) {
                    let m = choose|m: int| l < m && #[trigger] taken_over(e, f, m);
                    assert(taken_over(next, f, m));
                }
            }
        }
    }
}

proof fn lemma_advance_on_the_way(start: Editing, e: Editing)
    requires
        start.at == 0,
        on_the_way(start, e),
    ensures
        on_the_way(start, e.advanced()),
        e.advanced().at < e.advanced().next.len() ==> e.advanced().edit_one() is None,
        e.advanced().feeds.len() == e.feeds.len(),
    decreases e.next.len() - e.at,
{
    if e.at < e.next.len() && e.edit_one() is Some {
        lemma_edit_on_the_way(start, e);
        lemma_advance_on_the_way(start, e.edit_one()->0);
    }
}

proof fn lemma_finish_on_the_way(
    start: Editing,
    e: Editing,
    outcomes: Seq<Result<Device, String>>,
)
    requires
        start.at == 0,
        on_the_way(start, e),
        e.feeds.len() + outcomes.len() <= usize::MAX,
    ensures
        on_the_way(start, e.finished(outcomes)),
    decreases outcomes.len(),
{
    lemma_advance_on_the_way(start, e);
    let further = e.advanced();
    if further.at < further.next.len() && outcomes.len() > 0 {
        lemma_open_on_the_way(start, further, outcomes[0]);
        lemma_finish_on_the_way(start, further.opened(outcomes[0]), outcomes.skip(1));
    }
}

/// When an edit has run to its end, whatever came of opening devices, every layer
/// has the configuration it was sent. A layer that asks for the device it had is
/// on the very device it was on. A layer that moved without an error is on a
/// device that answers its new selection. A layer whose device would not open
/// says so and is on the very device it was on. And nothing is left open that no
/// layer is on.
pub proof fn law_an_edit_leaves_every_layer_where_it_asks_to_be(
    start: Editing,
    outcomes: Seq<Result<Device, String>>,
    l: int,
)
    requires
        start.wf(),
        start.at == 0,
        start.feeds.len() + outcomes.len() <= usize::MAX,
        start.finished(outcomes).at == start.next.len(),
        0 <= l < start.layers.len(),
    ensures
        ({
            let end = start.finished(outcomes);
            let done = (Stack { feeds: end.feeds, layers: end.layers }).retired();
            let was = start.layers[l];
            let is = done.layers[l];
            let f = is.feed->0 as int;
            &&& done.layers.len() == start.layers.len()
            &&& done.wf()
            &&& is.config == start.next[l]
            &&& is.feed is Some ==> 0 <= f < done.feeds.len()
            &&& if key_of(was.config.source) == key_of(start.next[l].source) || is.error is Some {
                &&& is.feed is Some <==> was.feed is Some
                &&& is.feed is Some ==> same_device(done.feeds[f], start.feeds[was.feed->0 as int])
                &&& is.origin == was.origin
            } else {
                &&& is.feed is Some
                &&& is.origin is None
                &&& done.feeds[f] == end.feeds[end.layers[l].feed->0 as int]
                &&& done.feeds[f].key == key_of(start.next[l].source) || exists|m: int|
                    l < m && #[trigger] taken_over(end, end.layers[l].feed->0 as int, m)
            }
        }),
{
    let end = start.finished(outcomes);
    let stack = Stack { feeds: end.feeds, layers: end.layers };
    assert forall|i: int| 0 <= i < start.feeds.len() implies same_device(
        #[trigger] start.feeds[i],
        start.feeds[i],
    ) by {}
    lemma_finish_on_the_way(start, start, outcomes);
    law_retiring_keeps_every_layer_on_its_device(stack, l);
    assert(well_dealt_with(start, end, l));
    assert(stack.retired().layers[l].error == end.layers[l].error);
}

/// A device's failure is written on the first layer that listens to the device,
/// and on no other; nothing else about any layer changes.
pub proof fn law_a_failure_is_written_where_it_is_first_heard(
    layers: Seq<Live>,
    faults: Seq<Option<Seq<char>>>,
    l: int,
    f: usize,
    why: Seq<char>,
)
    requires
        0 <= l < layers.len(),
        layers[l].feed == Some(f),
        f < faults.len(),
    ensures
        marked(layers, faults).len() == layers.len(),
        faults[f as int] == Some(why) && (forall|k: int|
            0 <= k < l ==> (#[trigger] layers[k]).feed != Some(f)) ==> {
            &&& marked(layers, faults)[l] == (Live { error: Some(why), ..layers[l] })
            &&& fault_list(layers, faults, layers.len() as int).contains((layers[l].config.id, why))
        },
        faults[f as int] is None ==> marked(layers, faults)[l] == layers[l],
        (exists|k: int| 0 <= k < l && (#[trigger] layers[k]).feed == Some(f)) ==> marked(
            layers,
            faults,
        )[l] == layers[l],
{
    if faults[f as int] == Some(why) && (forall|k: int|
        0 <= k < l ==> (#[trigger] layers[k]).feed != Some(f)) {
        assert(hears_first(layers, l));
        lemma_listed(layers, faults, l, layers.len() as int, why);
    }
}

proof fn lemma_listed(
    layers: Seq<Live>,
    faults: Seq<Option<Seq<char>>>,
    l: int,
    n: int,
    why: Seq<char>,
)
    requires
        0 <= l < n <= layers.len(),
        fault_on(layers, faults, l) == Some(why),
    ensures
        fault_list(layers, faults, n).contains((layers[l].config.id, why)),
    decreases n,
{
    let rest = fault_list(layers, faults, n - 1);
    let all = fault_list(layers, faults, n);
    if l == n - 1 {
        assert(all[rest.len() as int] == (layers[l].config.id, why));
    } else {
        lemma_listed(layers, faults, l, n - 1, why);
        let i = rest.index_of((layers[l].config.id, why));
        assert(all[i] == rest[i]);
    }
}

/// A layer without a device has no failure of a device written on it.
pub proof fn law_a_dark_layer_hears_no_failure(
    layers: Seq<Live>,
    faults: Seq<Option<Seq<char>>>,
    l: int,
)
    requires
        0 <= l < layers.len(),
        layers[l].feed is None,
    ensures
        marked(layers, faults)[l] == layers[l],
{
}

/// No more failures are named than there are layers, and each is one that a
/// device reported, named by a layer that listens to it.
pub proof fn law_only_what_was_reported_is_named(
    layers: Seq<Live>,
    faults: Seq<Option<Seq<char>>>,
    n: int,
    i: int,
)
    requires
        0 <= n <= layers.len(),
        0 <= i < fault_list(layers, faults, n).len(),
    ensures
        fault_list(layers, faults, n).len() <= n,
        exists|l: int|
            {
                &&& 0 <= l < n
                &&& (#[trigger] layers[l]).feed is Some
                &&& faults[layers[l].feed->0 as int] == Some(fault_list(layers, faults, n)[i].1)
                &&& layers[l].config.id == fault_list(layers, faults, n)[i].0
            },
    decreases n,
{
    let rest = fault_list(layers, faults, n - 1);
    lemma_not_more_faults(layers, faults, n);
    if i < rest.len() {
        law_only_what_was_reported_is_named(layers, faults, n - 1, i);
    } else {
        assert(layers[n - 1].feed is Some);
    }
}

proof fn lemma_not_more_faults(layers: Seq<Live>, faults: Seq<Option<Seq<char>>>, n: int)
    requires
        0 <= n,
    ensures
        fault_list(layers, faults, n).len() <= n,
    decreases n,
{
    if n > 0 {
        lemma_not_more_faults(layers, faults, n - 1);
    }
}

/// A show of the same layers in the same order, by their ids, is edited; one with
/// another layer, or with the same in another order, is not.
pub proof fn law_only_the_same_layers_are_edited(stack: Stack, show: Seq<LayerView>, i: int)
    ensures
        stack.layers.len() != show.len() ==> !stack.same_layers(show),
        stack.layers.len() == show.len() && 0 <= i < show.len() && stack.layers[i].config.id
            != show[i].id ==> !stack.same_layers(show),
        stack.layers.len() == show.len() && (forall|k: int|
            0 <= k < show.len() ==> (#[trigger] show[k]).id == stack.layers[k].config.id)
            ==> stack.same_layers(show),
{
    if stack.layers.len() == show.len() && (forall|k: int|
        0 <= k < show.len() ==> (#[trigger] show[k]).id == stack.layers[k].config.id) {
        assert forall|k: int| 0 <= k < show.len() implies (#[trigger] stack.layers[k]).config.id
            == show[k].id by {
            assert(show[k].id == stack.layers[k].config.id);
        }
    }
}

/// A change starts from what is running: every device and every layer is where it
/// stands, and says where that is.
pub proof fn law_a_change_starts_from_what_is_running(
    stack: Stack,
    show: Seq<LayerView>,
    ports: Seq<Port>,
    f: int,
    l: int,
)
    requires
        0 <= f < stack.feeds.len(),
        0 <= l < stack.layers.len(),
    ensures
        ({
            let e = stack.editing(show, ports);
            &&& e.next == show && e.ports == ports && e.at == 0 && !e.moved
            &&& e.feeds.len() == stack.feeds.len()
            &&& e.feeds[f] == (Feed { origin: Some(f as usize), ..stack.feeds[f] })
            &&& e.layers.len() == stack.layers.len()
            &&& e.layers[l] == (Live { origin: Some(l as usize), ..stack.layers[l] })
        }),
        ({
            let b = stack.rebuilding(show, ports);
            &&& b.show == show && b.ports == ports
            &&& b.feeds.len() == 0 && b.layers.len() == 0
            &&& b.spare.len() == stack.feeds.len()
            &&& b.spare[f] == (Feed { origin: Some(f as usize), ..stack.feeds[f] })
            &&& b.old.len() == stack.layers.len()
            &&& b.old[l] == (Live { origin: Some(l as usize), ..stack.layers[l] })
        }),
{
}

/// Closing what nobody listens to changes nothing about a layer but where its
/// device stands, keeps no device that no layer is on, and loses none that one
/// is.
pub proof fn law_retiring_closes_exactly_what_nobody_hears(stack: Stack, l: int, g: int)
    requires
        bound_right(stack.feeds, stack.layers),
        keys_differ(stack.feeds),
        stack.feeds.len() <= usize::MAX,
        0 <= l < stack.layers.len(),
    ensures
        ({
            let after = stack.retired();
            &&& after.layers.len() == stack.layers.len()
            &&& after.layers[l].config == stack.layers[l].config
            &&& after.layers[l].error == stack.layers[l].error
            &&& after.layers[l].origin == stack.layers[l].origin
            &&& after.layers[l].feed is Some <==> stack.layers[l].feed is Some
            &&& stack.layers[l].feed is Some ==> after.feeds.contains(
                stack.feeds[stack.layers[l].feed->0 as int],
            )
            &&& 0 <= g < after.feeds.len() ==> exists|k: int|
                0 <= k < after.layers.len() && (#[trigger] after.layers[k]).feed == Some(g as usize)
        }),
{
    law_retiring_keeps_every_layer_on_its_device(stack, l);
    let after = stack.retired();
    if stack.layers[l].feed is Some {
        assert(after.layers[l].feed is Some);
        let at = after.layers[l].feed->0 as int;
        assert(0 <= at < after.feeds.len());
        assert(after.feeds[at] == stack.feeds[stack.layers[l].feed->0 as int]);
    }
    if 0 <= g < after.feeds.len() {
        assert(is_used(after.layers, g));
    }
}

/// A row tells what there is to tell: of a layer with a device what that device
/// is, and of one without why it has none.
pub proof fn law_a_row_tells_what_its_layer_has(row: LayerStatus, stack: Stack, l: int, grid: Grid)
    requires
        reports(row, stack, l, grid),
    ensures
        row.id@ == stack.layers[l].config.id,
        row.points == grid.points,
        row.notes_out_of_range == grid.notes_out_of_range,
        row.error is Some <==> stack.layers[l].error is Some,
        row.error is Some ==> (row.error->0)@ == stack.layers[l].error->0,
        stack.layers[l].feed is Some ==> ({
            let feed = stack.feeds[stack.layers[l].feed->0 as int];
            row.device_name@ == feed.name && row.kind == feed.kind && row.channels == feed.channels
                && row.sample_rate == feed.sample_rate
        }),
        stack.layers[l].feed is None ==> row.device_name@.len() == 0 && row.channels == 0
            && row.sample_rate == 0 && row.kind == stack.layers[l].config.source.kind,
{
}

/// A stack has failed exactly where some layer has no device.
pub proof fn law_a_dark_layer_is_a_failure(stack: Stack, l: int)
    requires
        0 <= l < stack.layers.len(),
    ensures
        stack.layers[l].feed is None ==> stack.failed(),
        (forall|k: int| 0 <= k < stack.layers.len() ==> (#[trigger] stack.layers[k]).feed is Some)
            ==> !stack.failed(),
{
}

} // verus!
