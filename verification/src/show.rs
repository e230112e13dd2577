//! The show: a stack of layers, bottom first.
//!
//! The order of the layers *is* the stacking order, so a reorder in the editor
//! is a reorder of this list and nothing more. What a layer looks like (its
//! colours, its curve, its equaliser) is the renderer's business; kept here is
//! what decides which devices are open and which layers run.

use vstd::prelude::*;

use crate::source::{Selection, Source, SourceKind};
use crate::text;
use crate::text::{blank, decimal, is_blank, push_decimal, same};

verus! {

/// The smallest hop the analyser runs. Below it the machine is buried in
/// transforms.
pub const MIN_HOP: usize = 64;

/// The largest hop the analyser runs. Above it a hop is slower than the longest
/// analysis window, which makes it pointless.
pub const MAX_HOP: usize = 8192;

/// The hop a layer starts with.
pub const DEFAULT_HOP: usize = 256;

/// One layer of the stack.
#[derive(Debug, PartialEq, Eq)]
pub struct Layer {
    /// The editor's handle on this layer, carried so per-layer telemetry can be
    /// matched back to the right row after a reorder.
    pub id: String,
    /// What the editor calls it. Never interpreted.
    pub name: String,
    /// Off means the layer is skipped entirely.
    pub enabled: bool,
    /// Whether the layer's own opacity, made safe, is above zero.
    pub opaque: bool,
    /// What this layer listens to.
    pub source: Source,
    /// New samples between analysis frames, as authored.
    pub sample_length: usize,
}

/// A layer, by what it says.
pub ghost struct LayerView {
    pub id: Seq<char>,
    pub name: Seq<char>,
    pub enabled: bool,
    pub opaque: bool,
    pub source: Selection,
    pub sample_length: usize,
}

impl View for Layer {
    type V = LayerView;

    open spec fn view(&self) -> LayerView {
        LayerView {
            id: self.id@,
            name: self.name@,
            enabled: self.enabled,
            opaque: self.opaque,
            source: self.source@,
            sample_length: self.sample_length,
        }
    }
}

/// Which open device answers a selection.
///
/// MIDI drops the channel, because the channel is a *filter* applied per layer
/// rather than a property of the open port: two layers watching two channels of
/// one keyboard have to share the one handle. Audio keeps it: which channel of
/// an interface is analysed is chosen when the stream is built, so two channels
/// genuinely are two streams.
pub open spec fn key_of(source: Selection) -> Selection {
    if source.kind == SourceKind::Midi {
        Selection { channel: None, ..source }
    } else {
        source
    }
}

/// Every layer of a list.
pub open spec fn views(layers: Seq<Layer>) -> Seq<LayerView> {
    Seq::new(layers.len(), |i: int| layers[i]@)
}

impl Default for Layer {
    fn default() -> (layer: Self)
        ensures
            layer@ == default_layer(),
    {
        Layer {
            id: String::from_str(""),
            name: String::from_str(""),
            enabled: true,
            opaque: true,
            source: Source::default_output(),
            sample_length: DEFAULT_HOP,
        }
    }
}

/// A layer nobody has said anything about: on, and listening to what the PC
/// plays.
pub open spec fn default_layer() -> LayerView {
    LayerView {
        id: ""@,
        name: ""@,
        enabled: true,
        opaque: true,
        source: Selection { id: None, kind: SourceKind::Loopback, channel: None },
        sample_length: DEFAULT_HOP,
    }
}

impl LayerView {
    /// Whether this layer contributes at all. An invisible one is skipped by the
    /// compositor and never advanced by the analyser.
    pub open spec fn shows(self) -> bool {
        self.enabled && self.opaque
    }
}

impl Clone for Layer {
    fn clone(&self) -> (layer: Self)
        ensures
            layer@ == self@,
    {
        Layer {
            id: self.id.clone(),
            name: self.name.clone(),
            enabled: self.enabled,
            opaque: self.opaque,
            source: self.source.clone(),
            sample_length: self.sample_length,
        }
    }
}

impl Layer {
    /// Hop in samples, clamped to something the analyser can actually run.
    pub fn hop(&self) -> (n: usize)
        ensures
            MIN_HOP <= n <= MAX_HOP,
            MIN_HOP <= self@.sample_length <= MAX_HOP ==> n == self@.sample_length,
            self@.sample_length < MIN_HOP ==> n == MIN_HOP,
            self@.sample_length > MAX_HOP ==> n == MAX_HOP,
    {
        if self.sample_length < MIN_HOP {
            MIN_HOP
        } else if self.sample_length > MAX_HOP {
            MAX_HOP
        } else {
            self.sample_length
        }
    }

    /// Whether this layer contributes at all.
    pub fn contributes(&self) -> (yes: bool)
        ensures
            yes == self@.shows(),
    {
        self.enabled && self.opaque
    }

    /// Which open device this layer's analysis has to be fed from.
    pub fn feed_key(&self) -> (key: Source)
        ensures
            key@ == key_of(self@.source),
    {
        let mut key = self.source.clone();
        if key.kind == SourceKind::Midi {
            key.channel = None;
        }
        key
    }
}

/// A layer with what the editor left out filled in: a blank id or name gets a
/// positional one.
pub open spec fn labelled(layer: LayerView, i: int) -> LayerView {
    LayerView {
        id: if is_blank(layer.id) {
            "layer-"@ + decimal(i as nat)
        } else {
            layer.id
        },
        name: if is_blank(layer.name) {
            "Layer "@ + decimal((i + 1) as nat)
        } else {
            layer.name
        },
        ..layer
    }
}

/// A stack with what the editor left out filled in. A stack with nothing in it
/// is not a show: one default layer stands in.
pub open spec fn normalised(layers: Seq<LayerView>) -> Seq<LayerView> {
    let full = if layers.len() == 0 {
        seq![default_layer()]
    } else {
        layers
    };
    Seq::new(full.len(), |i: int| labelled(full[i], i))
}

/// The whole show: a stack of layers, bottom first, and never an empty one.
#[derive(Debug, PartialEq, Eq)]
pub struct ShowConfig {
    layers: Vec<Layer>,
}

impl View for ShowConfig {
    type V = Seq<LayerView>;

    closed spec fn view(&self) -> Seq<LayerView> {
        views(self.layers@)
    }
}

impl ShowConfig {
    #[verifier::type_invariant]
    spec fn has_a_layer(&self) -> bool {
        self.layers@.len() > 0
    }

    /// A show of these layers, with what was left out filled in.
    ///
    /// Ids are the one field the engine both needs and cannot invent
    /// meaningfully, so a blank one gets a positional stand-in rather than
    /// being left to collide with the next blank.
    pub fn normalise(layers: Vec<Layer>) -> (show: Self)
        ensures
            show@ == normalised(views(layers@)),
    {
        let mut given = layers;
        if given.len() == 0 {
            given.push(Layer::default());
            assert(views(given@) =~= seq![default_layer()]);
        }
        let ghost full = views(given@);
        let mut out: Vec<Layer> = Vec::new();
        let mut i: usize = 0;
        while i < given.len()
            invariant
                i <= given@.len(),
                full == views(given@),
                out@.len() == i,
                forall|k: int| 0 <= k < i ==> (#[trigger] out@[k])@ == labelled(full[k], k),
            decreases given@.len() - i,
        {
            let mut layer = given[i].clone();
            if blank(layer.id.as_str()) {
                let mut id = String::from_str("layer-");
                push_decimal(&mut id, i as u128);
                layer.id = id;
            }
            if blank(layer.name.as_str()) {
                let mut name = String::from_str("Layer ");
                push_decimal(&mut name, i as u128 + 1);
                layer.name = name;
            }
            assert(full[i as int] == given@[i as int]@);
            out.push(layer);
            i += 1;
        }
        assert(views(out@) =~= normalised(views(layers@)));
        ShowConfig { layers: out }
    }

    /// The layers, bottom first.
    pub fn layers(&self) -> (layers: &[Layer])
        ensures
            views(layers@) == self@,
    {
        self.layers.as_slice()
    }

    /// The bottom layer. Always present, and the whole show for a one-layer
    /// config.
    pub fn base(&self) -> (layer: &Layer)
        ensures
            self@.len() > 0,
            layer@ == self@[0],
    {
        proof {
            use_type_invariant(&*self);
        }
        &self.layers[0]
    }

    /// The first layer with an id.
    pub fn layer(&self, id: &str) -> (layer: Option<&Layer>)
        ensures
            match layer {
                Some(l) => exists|i: int|
                    {
                        &&& 0 <= i < self@.len()
                        &&& l@ == #[trigger] self@[i]
                        &&& l@.id == id@
                        &&& forall|j: int| 0 <= j < i ==> (#[trigger] self@[j]).id != id@
                    },
                None => forall|j: int| 0 <= j < self@.len() ==> (#[trigger] self@[j]).id != id@,
            },
    {
        let mut i: usize = 0;
        while i < self.layers.len()
            invariant
                i <= self.layers@.len(),
                forall|j: int| 0 <= j < i ==> (#[trigger] self@[j]).id != id@,
            decreases self.layers@.len() - i,
        {
            assert(self@[i as int] == self.layers@[i as int]@);
            if same(self.layers[i].id.as_str(), id) {
                return Some(&self.layers[i]);
            }
            i += 1;
        }
        None
    }

    /// The places of the layers that will actually be composited, bottom first.
    pub fn visible(&self) -> (places: Vec<usize>)
        ensures
            forall|k: int|
                0 <= k < places@.len() ==> (#[trigger] places@[k]) < self@.len()
                    && self@[places@[k] as int].shows(),
            forall|a: int, b: int| 0 <= a < b < places@.len() ==> places@[a] < places@[b],
            forall|i: int|
                0 <= i < self@.len() && (#[trigger] self@[i]).shows() ==> places@.contains(
                    i as usize,
                ),
    {
        let mut places: Vec<usize> = Vec::new();
        let mut i: usize = 0;
        while i < self.layers.len()
            invariant
                i <= self.layers@.len(),
                forall|k: int|
                    0 <= k < places@.len() ==> (#[trigger] places@[k]) < i
                        && self@[places@[k] as int].shows(),
                forall|a: int, b: int| 0 <= a < b < places@.len() ==> places@[a] < places@[b],
                forall|j: int|
                    0 <= j < i && (#[trigger] self@[j]).shows() ==> places@.contains(j as usize),
            decreases self.layers@.len() - i,
        {
            assert(self@[i as int] == self.layers@[i as int]@);
            let ghost was = places@;
            if self.layers[i].contributes() {
                places.push(i);
                proof {
                    assert(places@[was.len() as int] == i);
                    assert forall|j: int|
                        0 <= j < i && (#[trigger] self@[j]).shows() implies places@.contains(
                        j as usize,
                    ) by {
                        assert(was.contains(j as usize));
                        let p = choose|p: int| 0 <= p < was.len() && was[p] == j as usize;
                        assert(places@[p] == j as usize);
                    }
                }
            }
            i += 1;
        }
        places
    }
}

/// Blank ids are filled in so that they never collide with each other.
pub proof fn law_blank_ids_do_not_collide(layers: Seq<LayerView>, i: int, j: int)
    requires
        0 <= i < j < layers.len(),
        is_blank(layers[i].id),
        is_blank(layers[j].id),
    ensures
        normalised(layers)[i].id != normalised(layers)[j].id,
{
    let a = "layer-"@ + decimal(i as nat);
    let b = "layer-"@ + decimal(j as nat);
    if a == b {
        let n = "layer-"@.len() as int;
        assert(a.skip(n) =~= decimal(i as nat));
        assert(b.skip(n) =~= decimal(j as nat));
        text::lemma_decimal_tells_numbers_apart(i as nat, j as nat);
    }
}

/// No layer of a show goes unlabelled.
pub proof fn law_no_label_is_blank(layers: Seq<LayerView>, i: int)
    requires
        0 <= i < normalised(layers).len(),
    ensures
        !is_blank(normalised(layers)[i].id),
        !is_blank(normalised(layers)[i].name),
{
    reveal_strlit("layer-");
    reveal_strlit("Layer ");
    text::lemma_not_blank("layer-"@ + decimal(i as nat));
    text::lemma_not_blank("Layer "@ + decimal((i + 1) as nat));
}

/// Filling in keeps the order and everything that was said.
pub proof fn law_a_stack_keeps_its_order(layers: Seq<LayerView>, i: int)
    requires
        0 <= i < layers.len(),
    ensures
        normalised(layers).len() == layers.len(),
        !is_blank(layers[i].id) ==> normalised(layers)[i].id == layers[i].id,
        !is_blank(layers[i].name) ==> normalised(layers)[i].name == layers[i].name,
        normalised(layers)[i].source == layers[i].source,
        normalised(layers)[i].enabled == layers[i].enabled,
        normalised(layers)[i].opaque == layers[i].opaque,
        normalised(layers)[i].sample_length == layers[i].sample_length,
        normalised(layers)[i].shows() == layers[i].shows(),
{
}

/// Filling in what has nothing left out changes nothing.
pub proof fn law_filling_in_twice_changes_nothing(layers: Seq<LayerView>)
    ensures
        normalised(normalised(layers)) == normalised(layers),
{
    let once = normalised(layers);
    assert forall|i: int| 0 <= i < once.len() implies labelled(once[i], i) == once[i] by {
        law_no_label_is_blank(layers, i);
    }
    assert(normalised(once) =~= once);
}

/// Two layers on two MIDI channels of one port resolve to one open port.
pub proof fn law_midi_layers_share_a_port_across_channels(source: Selection, other: Option<usize>)
    requires
        source.kind == SourceKind::Midi,
    ensures
        key_of(source) == key_of(Selection { channel: other, ..source }),
{
}

/// Two channels of one audio endpoint are two streams.
pub proof fn law_audio_channels_are_separate_streams(source: Selection, other: Option<usize>)
    requires
        source.kind != SourceKind::Midi,
        source.channel != other,
    ensures
        key_of(source) != key_of(Selection { channel: other, ..source }),
{
}

/// A layer shows where it is switched on and can be seen at all.
pub proof fn law_a_layer_shows_where_it_is_on_and_opaque(layer: LayerView)
    ensures
        layer.enabled && layer.opaque ==> layer.shows(),
        !layer.enabled ==> !layer.shows(),
        !layer.opaque ==> !layer.shows(),
{
}

/// A stack with nothing in it is one layer that shows what the PC plays.
pub proof fn law_an_empty_stack_is_one_layer()
    ensures
        normalised(Seq::empty()).len() == 1,
        normalised(Seq::empty())[0].source.id is None,
        normalised(Seq::empty())[0].source.kind == SourceKind::Loopback,
        normalised(Seq::empty())[0].source.channel is None,
        normalised(Seq::empty())[0].shows(),
{
}

/// Two selections share a device exactly where they name the same thing in the
/// same direction and, for audio, the same channel.
pub proof fn law_a_device_is_shared_by_what_it_is(a: Selection, b: Selection)
    ensures
        key_of(a) == key_of(b) <==> a.kind == b.kind && a.id == b.id && (a.kind == SourceKind::Midi
            || a.channel == b.channel),
{
    let x = key_of(a);
    let y = key_of(b);
    if x == y {
        assert(x.kind == a.kind && y.kind == b.kind && x.id == a.id && y.id == b.id);
    }
}

} // verus!
