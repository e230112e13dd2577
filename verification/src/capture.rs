//! Audio capture: either what the PC is playing, or what an interface hears.
//!
//! An endpoint is one or the other, never both: an interface shows up as a
//! separate render endpoint and capture endpoint. So naming a device is enough
//! to determine how it has to be opened; [`SourceKind`] only picks *which*
//! default to follow when no device is named.

use vstd::prelude::*;

use crate::source;
use crate::source::{copy_text, lookup, text_of, Endpoint, Lookup};
use crate::text::{decimal, push_decimal};

verus! {

/// Which side of an endpoint is being listened to.
#[derive(Clone, Copy, Debug, PartialEq, Eq, Structural)]
pub enum SourceKind {
    /// A render endpoint captured in loopback: the mix already being sent to
    /// the speakers.
    Loopback,
    /// A capture endpoint: microphone, line input, interface inputs.
    Input,
}

impl Default for SourceKind {
    fn default() -> (kind: Self)
        ensures
            kind == SourceKind::Loopback,
    {
        SourceKind::Loopback
    }
}

impl SourceKind {
    /// The same kind among all the kinds of source there are.
    pub open spec fn widened(self) -> source::SourceKind {
        match self {
            SourceKind::Loopback => source::SourceKind::Loopback,
            SourceKind::Input => source::SourceKind::Input,
        }
    }

    /// The same kind among all the kinds of source there are.
    pub fn widen(self) -> (kind: source::SourceKind)
        ensures
            kind == self.widened(),
    {
        match self {
            SourceKind::Loopback => source::SourceKind::Loopback,
            SourceKind::Input => source::SourceKind::Input,
        }
    }

    /// What a kind is called.
    pub fn label(self) -> (label: &'static str)
        ensures
            label@ == self.widened().name(),
    {
        match self {
            SourceKind::Loopback => "loopback",
            SourceKind::Input => "input",
        }
    }
}

/// What the analyser should listen to.
#[derive(Clone, Debug, PartialEq, Eq)]
pub struct Source {
    /// Device id, stable across runs and reboots. `None` follows whatever the
    /// system currently calls the default for `kind`.
    pub id: Option<String>,
    /// Which default to follow when `id` is `None`. Ignored otherwise, because a
    /// named endpoint already determines how it has to be opened.
    pub kind: SourceKind,
    /// Channel to analyse, 0-based. `None` averages them all.
    pub channel: Option<usize>,
}

impl View for Source {
    type V = source::Selection;

    open spec fn view(&self) -> source::Selection {
        source::Selection {
            id: text_of(self.id),
            kind: self.kind.widened(),
            channel: self.channel,
        }
    }
}

/// One selectable endpoint, as the editor's dropdown sees it.
#[derive(Clone, Debug, PartialEq, Eq)]
pub struct DeviceInfo {
    pub id: String,
    pub name: String,
    pub kind: SourceKind,
    /// True for the endpoint the system currently defaults to for this kind.
    pub is_default: bool,
    /// In hertz. `None` when the endpoint refused to be opened for a look,
    /// typically because something else holds it.
    pub sample_rate: Option<u32>,
    pub channels: Option<usize>,
}

impl View for DeviceInfo {
    type V = Endpoint;

    open spec fn view(&self) -> Endpoint {
        Endpoint {
            id: self.id@,
            name: self.name@,
            kind: self.kind.widened(),
            is_default: self.is_default,
            sample_rate: self.sample_rate,
            channels: self.channels,
        }
    }
}

/// The endpoints of a list.
pub open spec fn endpoints(devices: Seq<DeviceInfo>) -> Seq<Endpoint> {
    Seq::new(devices.len(), |i: int| devices[i]@)
}

/// The same list among all the sources there are.
pub fn as_sources(devices: &[DeviceInfo]) -> (out: Vec<source::DeviceInfo>)
    ensures
        source::endpoints(out@) == endpoints(devices@),
{
    let mut out: Vec<source::DeviceInfo> = Vec::new();
    let mut i: usize = 0;
    while i < devices.len()
        invariant
            i <= devices@.len(),
            out@.len() == i,
            forall|k: int| 0 <= k < i ==> (#[trigger] out@[k])@ == devices@[k]@,
        decreases devices@.len() - i,
    {
        let d = &devices[i];
        out.push(
            source::DeviceInfo {
                id: d.id.clone(),
                name: d.name.clone(),
                kind: d.kind.widen(),
                is_default: d.is_default,
                sample_rate: d.sample_rate,
                channels: d.channels,
            },
        );
        i += 1;
    }
    assert(source::endpoints(out@) =~= endpoints(devices@));
    out
}

impl Source {
    /// The system default output, captured in loopback: the default at startup.
    pub fn default_output() -> (source: Self)
        ensures
            source@ == (source::Selection {
                id: None,
                kind: source::SourceKind::Loopback,
                channel: None,
            }),
    {
        Source { id: None, kind: SourceKind::Loopback, channel: None }
    }

    /// The system default recording device.
    pub fn default_input() -> (source: Self)
        ensures
            source@ == (source::Selection {
                id: None,
                kind: source::SourceKind::Input,
                channel: None,
            }),
    {
        Source { id: None, kind: SourceKind::Input, channel: None }
    }

    /// Look a source up the way a human would name it on the command line,
    /// among every endpoint that can be captured: a full device id, or any
    /// case-insensitive fragment of a device name, optionally narrowed to one
    /// direction.
    ///
    /// Ambiguity is an error listing the candidates rather than a guess.
    pub fn find(devices: &[DeviceInfo], spec: &str, kind: Option<SourceKind>) -> (res: Result<
        Self,
        String,
    >)
        ensures
            ({
                let wide = match kind {
                    Some(k) => Some(k.widened()),
                    None => None,
                };
                match lookup(endpoints(devices@), spec@, wide, " audio device"@) {
                    Lookup::Found(s) => res is Ok && res->Ok_0@ == s,
                    Lookup::Refused(why) => res is Err && res->Err_0@ == why,
                }
            }),
    {
        let wide = match kind {
            Some(k) => Some(k.widen()),
            None => None,
        };
        let all = as_sources(devices);
        match source::search(&all, spec, wide, " audio device") {
            Ok(found) => {
                proof {
                    let list = endpoints(devices@);
                    source::law_what_is_found_exists(list, spec@, wide, " audio device"@);
                    let k = choose|k: int|
                        0 <= k < list.len() && found@ == source::selecting(#[trigger] list[k]);
                    assert(list[k] == devices@[k]@);
                }
                let side = if found.kind == source::SourceKind::Loopback {
                    SourceKind::Loopback
                } else {
                    SourceKind::Input
                };
                Ok(Source { id: copy_text(&found.id), kind: side, channel: found.channel })
            },
            Err(e) => Err(e),
        }
    }
}

/// Which way an endpoint faces, or `None` for one that does neither and
/// therefore cannot be captured at all. One that plays is tapped in loopback.
pub fn direction(plays: bool, records: bool) -> (kind: Option<SourceKind>)
    ensures
        kind == if plays {
            Some(SourceKind::Loopback)
        } else if records {
            Some(SourceKind::Input)
        } else {
            None
        },
{
    if plays {
        Some(SourceKind::Loopback)
    } else if records {
        Some(SourceKind::Input)
    } else {
        None
    }
}

/// The channel to analyse of a device that was opened. One that no longer
/// exists falls back to the mix rather than refusing to open: silence is a
/// worse answer than a slightly wrong one.
pub fn usable_channel(channel: Option<usize>, channels: usize) -> (usable: Option<usize>)
    ensures
        usable == match channel {
            Some(c) => if c < channels {
                Some(c)
            } else {
                None
            },
            None => None,
        },
{
    match channel {
        Some(c) => if c < channels {
            Some(c)
        } else {
            None
        },
        None => None,
    }
}

/// How an open device is described.
pub open spec fn capture_text(
    name: Seq<char>,
    kind: source::SourceKind,
    channels: nat,
    channel: Option<usize>,
    sample_rate: u32,
) -> Seq<char> {
    name + " ["@ + kind.name() + "] ("@ + decimal(channels) + " ch"@ + match channel {
        Some(c) => ", ch "@ + decimal((c + 1) as nat),
        None => ""@,
    } + " @ "@ + decimal(sample_rate as nat) + " Hz)"@
}

/// An open device, described.
pub fn describe(
    name: &str,
    kind: source::SourceKind,
    channels: usize,
    channel: Option<usize>,
    sample_rate: u32,
) -> (out: String)
    ensures
        out@ == capture_text(name@, kind, channels as nat, channel, sample_rate),
{
    let mut out = name.to_owned();
    out.append(" [");
    out.append(kind.label());
    out.append("] (");
    push_decimal(&mut out, channels as u128);
    out.append(" ch");
    match channel {
        Some(c) => {
            out.append(", ch ");
            push_decimal(&mut out, c as u128 + 1);
        },
        None => out.append(""),
    }
    out.append(" @ ");
    push_decimal(&mut out, sample_rate as u128);
    out.append(" Hz)");
    assert(out@ =~= capture_text(name@, kind, channels as nat, channel, sample_rate));
    out
}

/// Why an endpoint that is there would not open.
pub open spec fn hint_text(name: Seq<char>, kind: SourceKind) -> Seq<char> {
    match kind {
        SourceKind::Loopback => "failed to open '"@ + name
            + "' for loopback. If a DAW is driving this interface over ASIO it owns the device outright and there is no render mix to tap — pick the interface's *input* instead"@,
        SourceKind::Input => "failed to open '"@ + name
            + "' for input. Another application may hold it exclusively, or microphone access may be blocked in Windows privacy settings"@,
    }
}

/// The failure worth explaining, because it is the one that actually happens:
/// an endpoint the process cannot open is nearly always one something else has
/// taken.
pub fn open_hint(name: &str, kind: SourceKind) -> (out: String)
    ensures
        out@ == hint_text(name@, kind),
{
    let mut out = String::from_str("failed to open '");
    out.append(name);
    match kind {
        SourceKind::Loopback => out.append(
            "' for loopback. If a DAW is driving this interface over ASIO it owns the device outright and there is no render mix to tap — pick the interface's *input* instead",
        ),
        SourceKind::Input => out.append(
            "' for input. Another application may hold it exclusively, or microphone access may be blocked in Windows privacy settings",
        ),
    }
    out
}

} // verus!
