//! What can be listened to.
//!
//! Loopback, an input and a MIDI port are all *a source*: something that
//! produces levels over the editor's frequency axis. Keeping them in one
//! [`Source`] type is what lets the dropdown, the command-line lookup and the
//! wire format stay single.

use vstd::prelude::*;

use crate::order::{goes_before, stable_order, Ranked};
use crate::text;
use crate::text::{comes_before, contains, decimal, joined, lowercase, occurs, precedes, push_decimal,
    push_joined, same, starts_with, texts, to_lowercase};

verus! {

/// How often the note envelopes advance, in microseconds. There is no sample
/// clock in MIDI, so this is a wall-clock choice comfortably above the rate the
/// strip is driven at.
pub const MIDI_FRAME: u64 = 8_000;

/// Longest step the note envelopes take in one go, in microseconds. Without a
/// cap, a scheduling stall or a laptop resuming from sleep would collapse every
/// release into a single frame and snap the strip to black.
pub const MAX_MIDI_STEP: u64 = 100_000;

/// Which kind of endpoint is being listened to.
#[derive(Clone, Copy, Debug, PartialEq, Eq, Structural)]
pub enum SourceKind {
    /// A render endpoint captured in loopback: the mix already being sent to
    /// the speakers.
    Loopback,
    /// A capture endpoint: microphone, line input, interface inputs.
    Input,
    /// A MIDI input port: a controller, or a virtual cable carrying a
    /// sequencer's note output.
    Midi,
}

impl Default for SourceKind {
    fn default() -> (kind: Self)
        ensures
            kind == SourceKind::Loopback,
    {
        SourceKind::Loopback
    }
}

impl SourceKind {
    /// What a kind is called.
    pub open spec fn name(self) -> Seq<char> {
        match self {
            SourceKind::Loopback => "loopback"@,
            SourceKind::Input => "input"@,
            SourceKind::Midi => "midi"@,
        }
    }

    /// Where a kind stands in the list: loopback, then inputs, then MIDI.
    pub open spec fn rank(self) -> u8 {
        match self {
            SourceKind::Loopback => 0,
            SourceKind::Input => 1,
            SourceKind::Midi => 2,
        }
    }

    /// What a kind is called.
    pub fn label(self) -> (label: &'static str)
        ensures
            label@ == self.name(),
    {
        match self {
            SourceKind::Loopback => "loopback",
            SourceKind::Input => "input",
            SourceKind::Midi => "midi",
        }
    }

    /// Whether this kind delivers samples.
    pub fn is_audio(self) -> (audio: bool)
        ensures
            audio == (self != SourceKind::Midi),
    {
        !matches!(self, SourceKind::Midi)
    }

    fn place(self) -> (rank: u8)
        ensures
            rank == self.rank(),
    {
        match self {
            SourceKind::Loopback => 0,
            SourceKind::Input => 1,
            SourceKind::Midi => 2,
        }
    }
}

/// What the analyser should listen to.
#[derive(Debug, PartialEq, Eq)]
pub struct Source {
    /// Device or port id, stable across runs and reboots. `None` follows
    /// whatever counts as the default for `kind`: for audio, the system
    /// default; for MIDI, the first port there is.
    pub id: Option<String>,
    /// Which default to follow when `id` is `None`.
    pub kind: SourceKind,
    /// Channel to listen to, 0-based. `None` takes them all.
    pub channel: Option<usize>,
}

/// A selection, by what it names.
pub ghost struct Selection {
    pub id: Option<Seq<char>>,
    pub kind: SourceKind,
    pub channel: Option<usize>,
}

/// The characters of an optional string.
pub open spec fn text_of(s: Option<String>) -> Option<Seq<char>> {
    match s {
        Some(s) => Some(s@),
        None => None,
    }
}

impl View for Source {
    type V = Selection;

    open spec fn view(&self) -> Selection {
        Selection { id: text_of(self.id), kind: self.kind, channel: self.channel }
    }
}

impl Default for Source {
    fn default() -> (source: Self)
        ensures
            source@ == (Selection { id: None, kind: SourceKind::Loopback, channel: None }),
    {
        Source { id: None, kind: SourceKind::Loopback, channel: None }
    }
}

/// Another string with the same characters, where there is one.
pub fn copy_text(s: &Option<String>) -> (out: Option<String>)
    ensures
        text_of(out) == text_of(*s),
{
    match s {
        Some(s) => Some(s.clone()),
        None => None,
    }
}

impl Clone for Source {
    fn clone(&self) -> (source: Self)
        ensures
            source@ == self@,
    {
        Source { id: copy_text(&self.id), kind: self.kind, channel: self.channel }
    }
}

impl Source {
    /// The system default output, captured in loopback: the default at startup.
    pub fn default_output() -> (source: Self)
        ensures
            source@ == (Selection { id: None, kind: SourceKind::Loopback, channel: None }),
    {
        Source { id: None, kind: SourceKind::Loopback, channel: None }
    }

    /// The system default recording device.
    pub fn default_input() -> (source: Self)
        ensures
            source@ == (Selection { id: None, kind: SourceKind::Input, channel: None }),
    {
        Source { id: None, kind: SourceKind::Input, channel: None }
    }

    /// The first MIDI input port there is.
    pub fn default_midi() -> (source: Self)
        ensures
            source@ == (Selection { id: None, kind: SourceKind::Midi, channel: None }),
    {
        Source { id: None, kind: SourceKind::Midi, channel: None }
    }

    /// Whether two selections name the same thing.
    pub fn same_as(&self, other: &Source) -> (yes: bool)
        ensures
            yes == (self@ == other@),
    {
        let ids = match &self.id {
            Some(a) => match &other.id {
                Some(b) => same(a.as_str(), b.as_str()),
                None => false,
            },
            None => other.id.is_none(),
        };
        let channels = match self.channel {
            Some(a) => match other.channel {
                Some(b) => a == b,
                None => false,
            },
            None => other.channel.is_none(),
        };
        ids && self.kind == other.kind && channels
    }

    /// Look a source up the way a human would name it on the command line,
    /// among everything that can be listened to: a full id, or any
    /// case-insensitive fragment of a device name, optionally narrowed to one
    /// kind.
    ///
    /// Ambiguity is an error listing the candidates rather than a guess. An
    /// interface presents its playback and capture halves under one name, so
    /// one name genuinely means two different things, which is exactly the
    /// distinction the caller is here to make.
    pub fn find(devices: &[DeviceInfo], spec: &str, kind: Option<SourceKind>) -> (res: Result<
        Self,
        String,
    >)
        ensures
            answers(res, lookup(endpoints(devices@), spec@, kind, " device"@)),
    {
        search(devices, spec, kind, " device")
    }
}

/// One selectable endpoint, as the editor's dropdown sees it.
#[derive(Debug, PartialEq, Eq)]
pub struct DeviceInfo {
    pub id: String,
    pub name: String,
    pub kind: SourceKind,
    /// True for the endpoint the system currently defaults to for this kind.
    /// Never true for MIDI, which has no such notion.
    pub is_default: bool,
    /// In hertz. `None` for MIDI, and for an audio endpoint that refused to be
    /// opened for a look.
    pub sample_rate: Option<u32>,
    pub channels: Option<usize>,
}

/// An endpoint, by what it says.
pub ghost struct Endpoint {
    pub id: Seq<char>,
    pub name: Seq<char>,
    pub kind: SourceKind,
    pub is_default: bool,
    pub sample_rate: Option<u32>,
    pub channels: Option<usize>,
}

impl View for DeviceInfo {
    type V = Endpoint;

    open spec fn view(&self) -> Endpoint {
        Endpoint {
            id: self.id@,
            name: self.name@,
            kind: self.kind,
            is_default: self.is_default,
            sample_rate: self.sample_rate,
            channels: self.channels,
        }
    }
}

/// The endpoints of a list.
pub open spec fn endpoints(devices: Seq<DeviceInfo>) -> Seq<Endpoint> {
    Seq::new(devices.len(), |i: int| devices[i]@)
}

impl Clone for DeviceInfo {
    fn clone(&self) -> (device: Self)
        ensures
            device@ == self@,
    {
        DeviceInfo {
            id: self.id.clone(),
            name: self.name.clone(),
            kind: self.kind,
            is_default: self.is_default,
            sample_rate: self.sample_rate,
            channels: self.channels,
        }
    }
}

/// Whether an endpoint is of a kind that is asked for.
pub open spec fn of_kind(kind: Option<SourceKind>) -> spec_fn(Endpoint) -> bool {
    |d: Endpoint| kind is None || kind->0 == d.kind
}

/// Whether an endpoint's name holds a fragment, whatever the case of either.
pub open spec fn named_like(spec: Seq<char>) -> spec_fn(Endpoint) -> bool {
    |d: Endpoint| occurs(lowercase(d.name), lowercase(spec))
}

/// Whether an endpoint has an id.
pub open spec fn has_id(spec: Seq<char>) -> spec_fn(Endpoint) -> bool {
    |d: Endpoint| d.id == spec
}

/// The selection that stands for an endpoint.
pub open spec fn selecting(d: Endpoint) -> Selection {
    Selection { id: Some(d.id), kind: d.kind, channel: None }
}

/// What a lookup comes to: a selection, or why there is none.
pub ghost enum Lookup {
    Found(Selection),
    Refused(Seq<char>),
}

/// An endpoint as an error names it.
pub open spec fn candidate(d: Endpoint) -> Seq<char> {
    d.name + " ("@ + d.kind.name() + ")"@
}

/// The endpoints of a list as an error names them.
pub open spec fn candidates(list: Seq<Endpoint>) -> Seq<Seq<char>> {
    Seq::new(list.len(), |i: int| candidate(list[i]))
}

/// Why nothing was found.
pub open spec fn no_match(
    spec: Seq<char>,
    kind: Option<SourceKind>,
    anything: Seq<char>,
) -> Seq<char> {
    let scope = match kind {
        Some(k) => " "@ + k.name() + " device"@,
        None => anything,
    };
    "no"@ + scope + " matches '"@ + spec + "'. Run with --list-devices to see them all"@
}

/// Why too much was found.
pub open spec fn many_matches(spec: Seq<char>, list: Seq<Endpoint>) -> Seq<char> {
    let hint = if exists|i: int| 0 <= i < list.len() && (#[trigger] list[i]).kind == SourceKind::Input {
        ". Add --input to mean the capture side, or pass the id from --list-devices"@
    } else {
        ". Pass the id from --list-devices to be exact"@
    };
    "'"@ + spec + "' matches "@ + decimal(list.len()) + ": "@ + joined(candidates(list), ", "@)
        + hint
}

/// What a lookup comes to. An id in full wins outright; otherwise exactly one
/// name has to hold the fragment.
pub open spec fn lookup(
    devices: Seq<Endpoint>,
    spec: Seq<char>,
    kind: Option<SourceKind>,
    anything: Seq<char>,
) -> Lookup {
    let available = devices.filter(of_kind(kind));
    let exact = available.filter(has_id(spec));
    let like = available.filter(named_like(spec));
    if exact.len() > 0 {
        Lookup::Found(selecting(exact[0]))
    } else if like.len() == 1 {
        Lookup::Found(selecting(like[0]))
    } else if like.len() == 0 {
        Lookup::Refused(no_match(spec, kind, anything))
    } else {
        Lookup::Refused(many_matches(spec, like))
    }
}

/// Whether a result says what a lookup comes to.
pub open spec fn answers(res: Result<Source, String>, lookup: Lookup) -> bool {
    match lookup {
        Lookup::Found(s) => res is Ok && res->Ok_0@ == s,
        Lookup::Refused(why) => res is Err && res->Err_0@ == why,
    }
}

/// The endpoints at some places of a list.
pub open spec fn at_places(devices: Seq<DeviceInfo>, places: Seq<usize>) -> Seq<Endpoint> {
    Seq::new(places.len(), |i: int| devices[places[i] as int]@)
}

fn kind_is(kind: Option<SourceKind>, d: &DeviceInfo) -> (yes: bool)
    ensures
        yes == of_kind(kind)(d@),
{
    match kind {
        Some(k) => k == d.kind,
        None => true,
    }
}

/// The places of the endpoints of one kind.
fn places_of_kind(devices: &[DeviceInfo], kind: Option<SourceKind>) -> (places: Vec<usize>)
    ensures
        forall|i: int| 0 <= i < places@.len() ==> (#[trigger] places@[i]) < devices@.len(),
        at_places(devices@, places@) == endpoints(devices@).filter(of_kind(kind)),
{
    let mut places: Vec<usize> = Vec::new();
    let mut i: usize = 0;
    proof {
        reveal(Seq::filter);
        assert(endpoints(devices@).take(0) =~= Seq::empty());
        assert(at_places(devices@, places@) =~= Seq::empty());
    }
    while i < devices.len()
        invariant
            i <= devices@.len(),
            forall|k: int| 0 <= k < places@.len() ==> (#[trigger] places@[k]) < devices@.len(),
            at_places(devices@, places@) == endpoints(devices@).take(i as int).filter(
                of_kind(kind),
            ),
        decreases devices@.len() - i,
    {
        let ghost was = places@;
        proof {
            reveal(Seq::filter);
            assert(endpoints(devices@).take(i + 1).drop_last() =~= endpoints(devices@).take(
                i as int,
            ));
        }
        if kind_is(kind, &devices[i]) {
            places.push(i);
            assert(at_places(devices@, places@) =~= at_places(devices@, was).push(
                devices@[i as int]@,
            ));
        }
        i += 1;
    }
    assert(endpoints(devices@).take(i as int) =~= endpoints(devices@));
    places
}

/// The first of some places whose endpoint has an id.
fn first_with_id(devices: &[DeviceInfo], places: &[usize], spec: &str) -> (found: Option<usize>)
    requires
        forall|i: int| 0 <= i < places@.len() ==> (#[trigger] places@[i]) < devices@.len(),
    ensures
        ({
            let exact = at_places(devices@, places@).filter(has_id(spec@));
            match found {
                Some(p) => p < devices@.len() && exact.len() > 0 && exact[0] == devices@[p as int]@,
                None => exact.len() == 0,
            }
        }),
{
    let mut i: usize = 0;
    let ghost all = at_places(devices@, places@);
    proof {
        reveal(Seq::filter);
        assert(all.take(0) =~= Seq::empty());
    }
    while i < places.len()
        invariant
            i <= places@.len(),
            all == at_places(devices@, places@),
            forall|k: int| 0 <= k < places@.len() ==> (#[trigger] places@[k]) < devices@.len(),
            all.take(i as int).filter(has_id(spec@)).len() == 0,
        decreases places@.len() - i,
    {
        proof {
            reveal(Seq::filter);
            assert(all.take(i + 1).drop_last() =~= all.take(i as int));
        }
        let p: usize = places[i];
        if same(devices[p].id.as_str(), spec) {
            proof {
                let head = all.take(i + 1);
                assert(head.filter(has_id(spec@)) =~= seq![devices@[p as int]@]);
                lemma_filter_starts_with(all, i + 1, has_id(spec@));
            }
            return Some(p);
        }
        i += 1;
    }
    assert(all.take(i as int) =~= all);
    None
}

/// What a filter keeps of the start of a list is the start of what it keeps of
/// the list.
pub proof fn lemma_filter_starts_with(s: Seq<Endpoint>, n: int, pred: spec_fn(Endpoint) -> bool)
    requires
        0 <= n <= s.len(),
    ensures
        s.take(n).filter(pred).len() <= s.filter(pred).len(),
        forall|i: int|
            0 <= i < s.take(n).filter(pred).len() ==> s.take(n).filter(pred)[i] == s.filter(
                pred,
            )[i],
    decreases s.len() - n,
{
    if n == s.len() {
        assert(s.take(n) =~= s);
    } else {
        lemma_filter_starts_with(s, n + 1, pred);
        reveal(Seq::filter);
        assert(s.take(n + 1).drop_last() =~= s.take(n));
    }
}

/// The ones of some places whose endpoint's name holds a fragment.
fn places_like(devices: &[DeviceInfo], places: &[usize], spec: &str) -> (like: Vec<usize>)
    requires
        forall|i: int| 0 <= i < places@.len() ==> (#[trigger] places@[i]) < devices@.len(),
    ensures
        forall|i: int| 0 <= i < like@.len() ==> (#[trigger] like@[i]) < devices@.len(),
        at_places(devices@, like@) == at_places(devices@, places@).filter(named_like(spec@)),
{
    let needle = to_lowercase(spec);
    let mut like: Vec<usize> = Vec::new();
    let mut i: usize = 0;
    let ghost all = at_places(devices@, places@);
    proof {
        reveal(Seq::filter);
        assert(all.take(0) =~= Seq::empty());
        assert(at_places(devices@, like@) =~= Seq::empty());
    }
    while i < places.len()
        invariant
            i <= places@.len(),
            needle@ == lowercase(spec@),
            all == at_places(devices@, places@),
            forall|k: int| 0 <= k < places@.len() ==> (#[trigger] places@[k]) < devices@.len(),
            forall|k: int| 0 <= k < like@.len() ==> (#[trigger] like@[k]) < devices@.len(),
            at_places(devices@, like@) == all.take(i as int).filter(named_like(spec@)),
        decreases places@.len() - i,
    {
        let ghost was = like@;
        proof {
            reveal(Seq::filter);
            assert(all.take(i + 1).drop_last() =~= all.take(i as int));
        }
        let p: usize = places[i];
        let name = to_lowercase(devices[p].name.as_str());
        if contains(name.as_str(), needle.as_str()) {
            like.push(p);
            assert(at_places(devices@, like@) =~= at_places(devices@, was).push(
                devices@[p as int]@,
            ));
        }
        i += 1;
    }
    assert(all.take(i as int) =~= all);
    like
}

/// Look a source up among a list; `anything` is what an unnarrowed search is
/// said to be for.
pub(crate) fn search(
    devices: &[DeviceInfo],
    spec: &str,
    kind: Option<SourceKind>,
    anything: &str,
) -> (res: Result<Source, String>)
    ensures
        answers(res, lookup(endpoints(devices@), spec@, kind, anything@)),
{
    let available = places_of_kind(devices, kind);
    match first_with_id(devices, &available, spec) {
        Some(p) => {
            return Ok(
                Source { id: Some(devices[p].id.clone()), kind: devices[p].kind, channel: None },
            );
        },
        None => {},
    }
    let like = places_like(devices, &available, spec);
    let ghost list = at_places(devices@, like@);
    if like.len() == 1 {
        let p: usize = like[0];
        assert(list[0] == devices@[p as int]@);
        return Ok(Source { id: Some(devices[p].id.clone()), kind: devices[p].kind, channel: None });
    }
    let mut out = String::new();
    if like.len() == 0 {
        out.append("no");
        match kind {
            Some(k) => {
                out.append(" ");
                out.append(k.label());
                out.append(" device");
            },
            None => out.append(anything),
        }
        out.append(" matches '");
        out.append(spec);
        out.append("'. Run with --list-devices to see them all");
        assert(out@ =~= no_match(spec@, kind, anything@));
        return Err(out);
    }
    let mut names: Vec<String> = Vec::new();
    let mut any_input = false;
    let mut i: usize = 0;
    while i < like.len()
        invariant
            i <= like@.len(),
            list == at_places(devices@, like@),
            forall|k: int| 0 <= k < like@.len() ==> (#[trigger] like@[k]) < devices@.len(),
            texts(names@) == candidates(list.take(i as int)),
            any_input == exists|k: int|
                0 <= k < i && (#[trigger] list[k]).kind == SourceKind::Input,
        decreases like@.len() - i,
    {
        let d = &devices[like[i]];
        assert(list[i as int] == d@);
        let mut one = d.name.clone();
        one.append(" (");
        one.append(d.kind.label());
        one.append(")");
        assert(one@ =~= candidate(d@));
        let ghost was = texts(names@);
        names.push(one);
        proof {
            assert(texts(names@) =~= was.push(candidate(d@)));
            assert(candidates(list.take(i + 1)) =~= candidates(list.take(i as int)).push(
                candidate(list[i as int]),
            ));
        }
        if d.kind == SourceKind::Input {
            any_input = true;
        }
        i += 1;
    }
    assert(list.take(i as int) =~= list);
    out.append("'");
    out.append(spec);
    out.append("' matches ");
    push_decimal(&mut out, like.len() as u128);
    out.append(": ");
    push_joined(&mut out, &names, ", ");
    if any_input {
        out.append(". Add --input to mean the capture side, or pass the id from --list-devices");
    } else {
        out.append(". Pass the id from --list-devices to be exact");
    }
    assert(out@ =~= many_matches(spec@, list));
    Err(out)
}

/// Where an endpoint stands among the others: by kind, the system default first
/// within its kind, the rest by name whatever its case.
pub struct Place {
    pub rank: u8,
    pub is_default: bool,
    pub name: String,
}

impl Ranked for Place {
    open spec fn before(self, other: Self) -> bool {
        ||| self.rank < other.rank
        ||| self.rank == other.rank && self.is_default && !other.is_default
        ||| self.rank == other.rank && self.is_default == other.is_default && precedes(
            self.name@,
            other.name@,
        )
    }

    proof fn lemma_order(a: Self, b: Self, c: Self) {
        text::lemma_precedes_is_one_way(a.name@, b.name@);
        text::lemma_precedes_is_one_way(a.name@, a.name@);
        text::lemma_precedes_is_one_way(b.name@, c.name@);
        text::lemma_precedes_is_one_way(c.name@, b.name@);
        text::lemma_precedes_is_an_order(a.name@, b.name@, c.name@);
        text::lemma_precedes_is_an_order(b.name@, c.name@, a.name@);
        text::lemma_precedes_is_an_order(a.name@, c.name@, b.name@);
        text::lemma_precedes_is_an_order(c.name@, b.name@, a.name@);
    }

    fn is_before(&self, other: &Self) -> (yes: bool) {
        if self.rank != other.rank {
            self.rank < other.rank
        } else if self.is_default != other.is_default {
            self.is_default
        } else {
            comes_before(self.name.as_str(), other.name.as_str())
        }
    }
}

/// Whether one endpoint is listed before another.
pub open spec fn listed_before(a: Endpoint, b: Endpoint) -> bool {
    ||| a.kind.rank() < b.kind.rank()
    ||| a.kind == b.kind && a.is_default && !b.is_default
    ||| a.kind == b.kind && a.is_default == b.is_default && precedes(
        lowercase(a.name),
        lowercase(b.name),
    )
}

/// Whether a list is another one arranged: every endpoint once, in the order
/// they are listed, those that rank the same in the order they came. `from`
/// says where each came from.
pub open spec fn arranged(list: Seq<Endpoint>, given: Seq<Endpoint>, from: Seq<usize>) -> bool {
    &&& list.len() == given.len()
    &&& from.len() == given.len()
    &&& forall|i: int|
        0 <= i < from.len() ==> (#[trigger] from[i]) < given.len() && list[i]
            == given[from[i] as int]
    &&& forall|k: int| 0 <= k < given.len() ==> #[trigger] from.contains(k as usize)
    &&& forall|i: int, j: int|
        #![trigger from[i], from[j]]
        0 <= i < j < list.len() ==> listed_before(list[i], list[j]) || (!listed_before(
            list[j],
            list[i],
        ) && from[i] < from[j])
}

/// Everything that can be listened to, the way the editor lists it: loopback,
/// then inputs, then MIDI, with the system default first within each group and
/// the rest by name.
pub fn devices(found: &[DeviceInfo]) -> (list: Vec<DeviceInfo>)
    ensures
        exists|from: Seq<usize>| arranged(endpoints(list@), endpoints(found@), from),
{
    let mut keys: Vec<Place> = Vec::new();
    let mut i: usize = 0;
    while i < found.len()
        invariant
            i <= found@.len(),
            keys@.len() == i,
            forall|k: int|
                0 <= k < i ==> {
                    &&& (#[trigger] keys@[k]).rank == found@[k].kind.rank()
                    &&& keys@[k].is_default == found@[k].is_default
                    &&& keys@[k].name@ == lowercase(found@[k].name@)
                },
        decreases found@.len() - i,
    {
        keys.push(
            Place {
                rank: found[i].kind.place(),
                is_default: found[i].is_default,
                name: to_lowercase(found[i].name.as_str()),
            },
        );
        i += 1;
    }
    let order = stable_order(&keys);
    let mut list: Vec<DeviceInfo> = Vec::new();
    let mut j: usize = 0;
    while j < order.len()
        invariant
            j <= order@.len(),
            order@.len() == found@.len(),
            forall|k: int| 0 <= k < order@.len() ==> (#[trigger] order@[k]) < found@.len(),
            list@.len() == j,
            forall|k: int| 0 <= k < j ==> (#[trigger] list@[k])@ == found@[order@[k] as int]@,
        decreases order@.len() - j,
    {
        list.push(found[order[j]].clone());
        j += 1;
    }
    proof {
        let l = endpoints(list@);
        let g = endpoints(found@);
        assert forall|a: int, b: int|
            #![trigger order@[a], order@[b]]
            0 <= a < b < l.len() implies listed_before(l[a], l[b]) || (!listed_before(l[b], l[a])
            && order@[a] < order@[b]) by {
            assert(goes_before(keys@, order@[a] as int, order@[b] as int));
            assert(l[a] == found@[order@[a] as int]@);
            assert(l[b] == found@[order@[b] as int]@);
        }
        assert(arranged(l, g, order@));
    }
    list
}

/// Whether an id names a MIDI port rather than an audio endpoint.
pub fn is_midi_id(id: &str) -> (midi: bool)
    ensures
        midi == text::begins(id@, "midi:"@),
{
    starts_with(id, "midi:")
}

/// How far the note envelopes are to advance, given how long it has been.
pub open spec fn step_after(elapsed: u64) -> Option<u64> {
    if elapsed < MIDI_FRAME {
        None
    } else if elapsed < MAX_MIDI_STEP {
        Some(elapsed)
    } else {
        Some(MAX_MIDI_STEP)
    }
}

/// How far the note envelopes are to advance, given how long it has been: not
/// before a frame is due, and never further than the longest step.
pub fn midi_step(elapsed: u64) -> (step: Option<u64>)
    ensures
        step == step_after(elapsed),
{
    if elapsed < MIDI_FRAME {
        None
    } else if elapsed < MAX_MIDI_STEP {
        Some(elapsed)
    } else {
        Some(MAX_MIDI_STEP)
    }
}

/// What an edit does to a running analyser.
#[derive(Clone, Copy, Debug, PartialEq, Eq, Structural)]
pub struct Retuning {
    /// Build the analyser again from nothing.
    pub rebuild: bool,
    /// Install the equaliser.
    pub eq: bool,
    /// Install the release.
    pub decay: bool,
}

/// What an edit does to an audio analyser. A new hop builds it again, and a
/// rebuilt analyser has no equaliser or ballistics, so both are installed
/// whether or not they were what changed; otherwise only what changed is.
pub fn audio_edit(force: bool, hop_changed: bool, eq_changed: bool, decay_changed: bool) -> (edit:
    Retuning)
    ensures
        edit.rebuild == (force || hop_changed),
        edit.eq == (force || hop_changed || eq_changed),
        edit.decay == (force || hop_changed || decay_changed),
{
    let rebuild = force || hop_changed;
    Retuning { rebuild, eq: rebuild || eq_changed, decay: rebuild || decay_changed }
}

/// What an edit does to the notes once their configuration is in: a moved grid
/// is sampled again, otherwise only what changed is installed.
pub fn midi_edit(force: bool, moved: bool, eq_changed: bool, decay_changed: bool) -> (edit: Retuning)
    ensures
        !edit.rebuild,
        edit.eq == (force || moved || eq_changed),
        edit.decay == (force || decay_changed),
{
    Retuning { rebuild: false, eq: force || moved || eq_changed, decay: force || decay_changed }
}

/// An id in full always finds its endpoint, whatever else its text matches.
pub proof fn law_an_exact_id_always_resolves(
    devices: Seq<Endpoint>,
    i: int,
    kind: Option<SourceKind>,
    anything: Seq<char>,
)
    requires
        0 <= i < devices.len(),
        of_kind(kind)(devices[i]),
    ensures
        lookup(devices, devices[i].id, kind, anything) is Found,
        lookup(devices, devices[i].id, kind, anything)->Found_0.id == Some(devices[i].id),
{
    let spec = devices[i].id;
    let available = devices.filter(of_kind(kind));
    lemma_filter_keeps(devices, of_kind(kind), i);
    let j = choose|j: int| 0 <= j < available.len() && available[j] == devices[i];
    lemma_filter_keeps(available, has_id(spec), j);
    let exact = available.filter(has_id(spec));
    lemma_filter_satisfies(available, has_id(spec), 0);
}

proof fn lemma_filter_keeps(s: Seq<Endpoint>, pred: spec_fn(Endpoint) -> bool, i: int)
    requires
        0 <= i < s.len(),
        pred(s[i]),
    ensures
        s.filter(pred).len() > 0,
        exists|j: int| 0 <= j < s.filter(pred).len() && s.filter(pred)[j] == s[i],
    decreases s.len(),
{
    reveal(Seq::filter);
    let sub = s.drop_last().filter(pred);
    if i == s.len() - 1 {
        assert(s.filter(pred)[sub.len() as int] == s[i]);
    } else {
        lemma_filter_keeps(s.drop_last(), pred, i);
        let j = choose|j: int| 0 <= j < sub.len() && sub[j] == s.drop_last()[i];
        assert(s.filter(pred)[j] == s[i]);
    }
}

proof fn lemma_filter_satisfies(s: Seq<Endpoint>, pred: spec_fn(Endpoint) -> bool, j: int)
    requires
        0 <= j < s.filter(pred).len(),
    ensures
        pred(s.filter(pred)[j]),
    decreases s.len(),
{
    reveal(Seq::filter);
    if s.len() > 0 {
        let sub = s.drop_last().filter(pred);
        if j < sub.len() {
            lemma_filter_satisfies(s.drop_last(), pred, j);
        }
    }
}

/// A name shared by two endpoints of different kinds does not resolve on its
/// own: it is refused rather than guessed at.
pub proof fn law_a_shared_name_is_not_guessed_at(
    devices: Seq<Endpoint>,
    i: int,
    j: int,
    anything: Seq<char>,
)
    requires
        0 <= i < j < devices.len(),
        devices[i].name == devices[j].name,
        devices[i].kind != devices[j].kind,
        forall|k: int| 0 <= k < devices.len() ==> devices[k].id != devices[i].name,
    ensures
        lookup(devices, devices[i].name, None, anything) is Refused,
{
    let spec = devices[i].name;
    let available = devices.filter(of_kind(None));
    let exact = available.filter(has_id(spec));
    if exact.len() > 0 {
        lemma_filter_satisfies(available, has_id(spec), 0);
        lemma_filter_is_part(available, has_id(spec), 0);
        let m = choose|m: int| 0 <= m < available.len() && available[m] == exact[0];
        lemma_filter_is_part(devices, of_kind(None), m);
    }
    let like = available.filter(named_like(spec));
    let l = lowercase(spec);
    assert(occurs(l, l)) by {
        assert(l.subrange(0, l.len() as int) =~= l);
        assert(text::occurs_at(l, l, 0));
    }
    lemma_filter_keeps(devices, of_kind(None), i);
    lemma_filter_keeps(devices, of_kind(None), j);
    let a = choose|a: int| 0 <= a < available.len() && available[a] == devices[i];
    let b = choose|b: int| 0 <= b < available.len() && available[b] == devices[j];
    lemma_filter_keeps(available, named_like(spec), a);
    lemma_filter_keeps(available, named_like(spec), b);
}

pub proof fn lemma_filter_is_part(s: Seq<Endpoint>, pred: spec_fn(Endpoint) -> bool, j: int)
    requires
        0 <= j < s.filter(pred).len(),
    ensures
        exists|m: int| 0 <= m < s.len() && s[m] == s.filter(pred)[j],
    decreases s.len(),
{
    reveal(Seq::filter);
    if s.len() > 0 {
        let sub = s.drop_last().filter(pred);
        if j < sub.len() {
            lemma_filter_is_part(s.drop_last(), pred, j);
            let m = choose|m: int| 0 <= m < s.drop_last().len() && s.drop_last()[m] == sub[j];
            assert(s[m] == s.filter(pred)[j]);
        } else {
            assert(s[s.len() - 1] == s.filter(pred)[j]);
        }
    }
}

/// What is found is one of the endpoints there are, of the kind asked for.
pub proof fn law_what_is_found_exists(
    devices: Seq<Endpoint>,
    spec: Seq<char>,
    kind: Option<SourceKind>,
    anything: Seq<char>,
)
    requires
        lookup(devices, spec, kind, anything) is Found,
    ensures
        exists|k: int|
            0 <= k < devices.len() && lookup(devices, spec, kind, anything)->Found_0 == selecting(
                #[trigger] devices[k],
            ) && of_kind(kind)(devices[k]),
{
    let available = devices.filter(of_kind(kind));
    let exact = available.filter(has_id(spec));
    let like = available.filter(named_like(spec));
    let hit = if exact.len() > 0 {
        lemma_filter_is_part(available, has_id(spec), 0);
        exact[0]
    } else {
        lemma_filter_is_part(available, named_like(spec), 0);
        like[0]
    };
    let m = choose|m: int| 0 <= m < available.len() && available[m] == hit;
    lemma_filter_satisfies(devices, of_kind(kind), m);
    lemma_filter_is_part(devices, of_kind(kind), m);
}

proof fn lemma_filter_only_one(s: Seq<Endpoint>, pred: spec_fn(Endpoint) -> bool, i: int)
    requires
        0 <= i < s.len(),
        forall|k: int| 0 <= k < s.len() ==> (pred(#[trigger] s[k]) <==> k == i),
    ensures
        s.filter(pred) == seq![s[i]],
    decreases s.len(),
{
    reveal(Seq::filter);
    let rest = s.drop_last();
    if i == s.len() - 1 {
        lemma_filter_none(rest, pred);
        assert(s.filter(pred) =~= seq![s[i]]);
    } else {
        assert forall|k: int| 0 <= k < rest.len() implies (pred(#[trigger] rest[k]) <==> k == i) by {
            assert(rest[k] == s[k]);
        }
        lemma_filter_only_one(rest, pred, i);
        assert(!pred(s[s.len() - 1]));
    }
}

proof fn lemma_filter_none(s: Seq<Endpoint>, pred: spec_fn(Endpoint) -> bool)
    requires
        forall|k: int| 0 <= k < s.len() ==> !pred(#[trigger] s[k]),
    ensures
        s.filter(pred).len() == 0,
    decreases s.len(),
{
    reveal(Seq::filter);
    if s.len() > 0 {
        assert(!pred(s[s.len() - 1]));
        assert forall|k: int| 0 <= k < s.drop_last().len() implies !pred(
            #[trigger] s.drop_last()[k],
        ) by {
            assert(s.drop_last()[k] == s[k]);
        }
        lemma_filter_none(s.drop_last(), pred);
    }
}

/// Giving the direction resolves a name that both halves of an interface share:
/// where one endpoint of a kind has a name like it, that one is found.
pub proof fn law_a_direction_resolves_a_shared_name(
    devices: Seq<Endpoint>,
    i: int,
    spec: Seq<char>,
    kind: SourceKind,
    anything: Seq<char>,
)
    requires
        0 <= i < devices.len(),
        devices[i].kind == kind,
        named_like(spec)(devices[i]),
        forall|k: int|
            0 <= k < devices.len() && devices[k].kind == kind && named_like(spec)(
                #[trigger] devices[k],
            ) ==> k == i,
        forall|k: int| 0 <= k < devices.len() ==> (#[trigger] devices[k]).id != spec,
    ensures
        lookup(devices, spec, Some(kind), anything) == Lookup::Found(selecting(devices[i])),
{
    let available = devices.filter(of_kind(Some(kind)));
    let exact = available.filter(has_id(spec));
    if exact.len() > 0 {
        lemma_filter_satisfies(available, has_id(spec), 0);
        lemma_filter_is_part(available, has_id(spec), 0);
        let m = choose|m: int| 0 <= m < available.len() && available[m] == exact[0];
        lemma_filter_is_part(devices, of_kind(Some(kind)), m);
    }
    lemma_filter_twice(devices, of_kind(Some(kind)), named_like(spec));
    let both = |d: Endpoint| of_kind(Some(kind))(d) && named_like(spec)(d);
    lemma_filter_only_one(devices, both, i);
}

proof fn lemma_filter_twice(
    s: Seq<Endpoint>,
    p: spec_fn(Endpoint) -> bool,
    q: spec_fn(Endpoint) -> bool,
)
    ensures
        s.filter(p).filter(q) == s.filter(|d: Endpoint| p(d) && q(d)),
    decreases s.len(),
{
    reveal(Seq::filter);
    if s.len() > 0 {
        lemma_filter_twice(s.drop_last(), p, q);
        let sub = s.drop_last().filter(p);
        if p(s.last()) {
            assert(sub.push(s.last()).drop_last() =~= sub);
        }
    }
}

/// What is found answers to what was asked for: it is an endpoint there is, of
/// the kind asked for, whose id is the text in full or whose name holds it,
/// whatever the case of either. It follows no channel.
pub proof fn law_what_is_found_answers(
    devices: Seq<Endpoint>,
    spec: Seq<char>,
    kind: Option<SourceKind>,
    anything: Seq<char>,
)
    requires
        lookup(devices, spec, kind, anything) is Found,
    ensures
        ({
            let found = lookup(devices, spec, kind, anything)->Found_0;
            &&& found.channel is None
            &&& exists|k: int|
                {
                    &&& 0 <= k < devices.len()
                    &&& found.id == Some((#[trigger] devices[k]).id)
                    &&& found.kind == devices[k].kind
                    &&& kind is None || kind == Some(devices[k].kind)
                    &&& devices[k].id == spec || occurs(
                        lowercase(devices[k].name),
                        lowercase(spec),
                    )
                }
        }),
{
    let available = devices.filter(of_kind(kind));
    let exact = available.filter(has_id(spec));
    let like = available.filter(named_like(spec));
    let hit = if exact.len() > 0 {
        lemma_filter_is_part(available, has_id(spec), 0);
        lemma_filter_satisfies(available, has_id(spec), 0);
        exact[0]
    } else {
        lemma_filter_is_part(available, named_like(spec), 0);
        lemma_filter_satisfies(available, named_like(spec), 0);
        like[0]
    };
    let m = choose|m: int| 0 <= m < available.len() && available[m] == hit;
    lemma_filter_satisfies(devices, of_kind(kind), m);
    lemma_filter_is_part(devices, of_kind(kind), m);
    let k = choose|k: int| 0 <= k < devices.len() && devices[k] == available[m];
    assert(devices[k] == hit);
}

/// An endpoint that is the only one of the kind asked for whose name holds the
/// text is found, where no id is that text.
pub proof fn law_the_only_match_is_found(
    devices: Seq<Endpoint>,
    i: int,
    spec: Seq<char>,
    kind: Option<SourceKind>,
    anything: Seq<char>,
)
    requires
        0 <= i < devices.len(),
        kind is None || kind == Some(devices[i].kind),
        occurs(lowercase(devices[i].name), lowercase(spec)),
        forall|k: int|
            0 <= k < devices.len() && k != i && (kind is None || kind == Some(
                (#[trigger] devices[k]).kind,
            )) ==> !occurs(lowercase(devices[k].name), lowercase(spec)),
        forall|k: int| 0 <= k < devices.len() ==> (#[trigger] devices[k]).id != spec,
    ensures
        ({
            let outcome = lookup(devices, spec, kind, anything);
            &&& outcome is Found
            &&& outcome->Found_0.id == Some(devices[i].id)
            &&& outcome->Found_0.kind == devices[i].kind
            &&& outcome->Found_0.channel is None
        }),
{
    let available = devices.filter(of_kind(kind));
    let exact = available.filter(has_id(spec));
    if exact.len() > 0 {
        lemma_filter_satisfies(available, has_id(spec), 0);
        lemma_filter_is_part(available, has_id(spec), 0);
        let m = choose|m: int| 0 <= m < available.len() && available[m] == exact[0];
        lemma_filter_is_part(devices, of_kind(kind), m);
    }
    lemma_filter_twice(devices, of_kind(kind), named_like(spec));
    let both = |d: Endpoint| of_kind(kind)(d) && named_like(spec)(d);
    assert forall|k: int| 0 <= k < devices.len() implies (both(#[trigger] devices[k]) <==> k == i) by {
        assert(of_kind(kind)(devices[k]) == (kind is None || kind == Some(devices[k].kind)));
    }
    lemma_filter_only_one(devices, both, i);
}

/// Where no endpoint of the kind asked for has the text as its id or in its name,
/// nothing is found; and where two have it in their names and none as its id,
/// neither is.
pub proof fn law_nothing_is_guessed(
    devices: Seq<Endpoint>,
    i: int,
    j: int,
    spec: Seq<char>,
    kind: Option<SourceKind>,
    anything: Seq<char>,
)
    requires
        forall|k: int|
            0 <= k < devices.len() && (kind is None || kind == Some((#[trigger] devices[k]).kind))
                ==> devices[k].id != spec,
    ensures
        (forall|k: int|
            0 <= k < devices.len() && (kind is None || kind == Some((#[trigger] devices[k]).kind))
                ==> !occurs(lowercase(devices[k].name), lowercase(spec))) ==> lookup(
            devices,
            spec,
            kind,
            anything,
        ) is Refused,
        0 <= i < j < devices.len() && (kind is None || kind == Some(devices[i].kind) && kind
            == Some(devices[j].kind)) && occurs(lowercase(devices[i].name), lowercase(spec))
            && occurs(lowercase(devices[j].name), lowercase(spec)) ==> lookup(
            devices,
            spec,
            kind,
            anything,
        ) is Refused,
{
    let available = devices.filter(of_kind(kind));
    let exact = available.filter(has_id(spec));
    let like = available.filter(named_like(spec));
    if exact.len() > 0 {
        lemma_filter_satisfies(available, has_id(spec), 0);
        lemma_filter_is_part(available, has_id(spec), 0);
        let m = choose|m: int| 0 <= m < available.len() && available[m] == exact[0];
        lemma_filter_satisfies(devices, of_kind(kind), m);
        lemma_filter_is_part(devices, of_kind(kind), m);
        let k = choose|k: int| 0 <= k < devices.len() && devices[k] == available[m];
        assert(devices[k].id == spec);
    }
    if like.len() > 0 {
        lemma_filter_satisfies(available, named_like(spec), 0);
        lemma_filter_is_part(available, named_like(spec), 0);
        let m = choose|m: int| 0 <= m < available.len() && available[m] == like[0];
        lemma_filter_satisfies(devices, of_kind(kind), m);
        lemma_filter_is_part(devices, of_kind(kind), m);
        let k = choose|k: int| 0 <= k < devices.len() && devices[k] == available[m];
        assert(occurs(lowercase(devices[k].name), lowercase(spec)));
    }
    if 0 <= i < j < devices.len() && (kind is None || kind == Some(devices[i].kind) && kind == Some(
        devices[j].kind,
    )) && occurs(lowercase(devices[i].name), lowercase(spec)) && occurs(
        lowercase(devices[j].name),
        lowercase(spec),
    ) {
        lemma_filter_twice(devices, of_kind(kind), named_like(spec));
        let both = |d: Endpoint| of_kind(kind)(d) && named_like(spec)(d);
        assert(both(devices[i]) && both(devices[j]));
        lemma_filter_has_two(devices, both, i, j);
    }
}

proof fn lemma_filter_has_two(s: Seq<Endpoint>, pred: spec_fn(Endpoint) -> bool, i: int, j: int)
    requires
        0 <= i < j < s.len(),
        pred(s[i]),
        pred(s[j]),
    ensures
        s.filter(pred).len() >= 2,
    decreases s.len(),
{
    reveal(Seq::filter);
    let rest = s.drop_last();
    if j == s.len() - 1 {
        lemma_filter_keeps(rest, pred, i);
    } else {
        lemma_filter_has_two(rest, pred, i, j);
    }
}

/// The list has loopback first, then inputs, then MIDI; within each the system
/// default comes first, and then the rest by name. Nothing is lost.
pub proof fn law_the_list_is_grouped(
    list: Seq<Endpoint>,
    given: Seq<Endpoint>,
    from: Seq<usize>,
    i: int,
    j: int,
)
    requires
        arranged(list, given, from),
        given.len() <= usize::MAX,
        0 <= i < j < list.len(),
    ensures
        list[j].kind == SourceKind::Loopback ==> list[i].kind == SourceKind::Loopback,
        list[i].kind == SourceKind::Midi ==> list[j].kind == SourceKind::Midi,
        list[i].kind == list[j].kind && list[j].is_default ==> list[i].is_default,
        list[i].kind == list[j].kind && list[i].is_default == list[j].is_default ==> !precedes(
            lowercase(list[j].name),
            lowercase(list[i].name),
        ),
        list.len() == given.len(),
        forall|k: int| 0 <= k < given.len() ==> list.contains(#[trigger] given[k]),
{
    assert(from[i] < given.len() && from[j] < given.len());
    text::lemma_precedes_is_one_way(lowercase(list[i].name), lowercase(list[j].name));
    assert forall|k: int| 0 <= k < given.len() implies list.contains(#[trigger] given[k]) by {
        assert(from.contains(k as usize));
        let p = choose|p: int| 0 <= p < from.len() && from[p] == k as usize;
        assert(from[p] < given.len());
        assert(list[p] == given[k]);
    }
}

/// The envelopes advance by the time that has passed once a frame is due, and by
/// no more than the longest step however long it was.
pub proof fn law_the_envelopes_advance_by_the_time_that_passed(elapsed: u64)
    ensures
        step_after(elapsed) is None <==> elapsed < MIDI_FRAME,
        MIDI_FRAME <= elapsed <= MAX_MIDI_STEP ==> step_after(elapsed) == Some(elapsed),
        elapsed > MAX_MIDI_STEP && elapsed >= MIDI_FRAME ==> step_after(elapsed) == Some(
            MAX_MIDI_STEP,
        ),
{
}

} // verus!
