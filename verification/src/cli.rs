//! The command line: which source the flags ask for, and what is printed.

use vstd::prelude::*;
use vstd::string::*;

use crate::hotkeys::{label_text, Hotkeys};
use crate::presets::{PresetInfo, SLOTS};
use crate::source::{
    answers, endpoints, lookup, DeviceInfo, Endpoint, Lookup, Selection, Source, SourceKind,
};
use crate::text::{decimal, joined, push_decimal, push_joined, texts};

verus! {

/// The flags that choose a source.
pub struct Flags {
    /// An id, or any unique part of a device name.
    pub source: Option<String>,
    /// An input rather than what is being played.
    pub input: bool,
    pub midi: bool,
    /// A single channel, counting from one.
    pub channel: Option<usize>,
}

/// The kind of source the flags ask for. MIDI wins over an input.
pub open spec fn asked_kind(flags: Flags) -> Option<SourceKind> {
    if flags.midi {
        Some(SourceKind::Midi)
    } else if flags.input {
        Some(SourceKind::Input)
    } else {
        None
    }
}

/// A channel as it is counted everywhere but on the command line: from zero.
pub open spec fn asked_channel(flags: Flags) -> Option<usize> {
    match flags.channel {
        Some(n) => Some(if n == 0 {
            0
        } else {
            (n - 1) as usize
        }),
        None => None,
    }
}

/// What the flags come to.
pub open spec fn selected(flags: Flags, devices: Seq<Endpoint>) -> Lookup {
    let kind = asked_kind(flags);
    let found = match flags.source {
        Some(spec) => lookup(devices, spec@, kind, " device"@),
        None => Lookup::Found(
            Selection {
                id: None,
                kind: match kind {
                    Some(k) => k,
                    None => SourceKind::Loopback,
                },
                channel: None,
            },
        ),
    };
    match found {
        Lookup::Found(s) => Lookup::Found(Selection { channel: asked_channel(flags), ..s }),
        Lookup::Refused(why) => Lookup::Refused(why),
    }
}

/// The source the flags ask for. Named devices are looked up now rather than
/// when they are opened, so that a typo fails with the list of what was meant.
pub fn select_source(flags: &Flags, devices: &[DeviceInfo]) -> (res: Result<Source, String>)
    ensures
        answers(res, selected(*flags, endpoints(devices@))),
{
    let kind = if flags.midi {
        Some(SourceKind::Midi)
    } else if flags.input {
        Some(SourceKind::Input)
    } else {
        None
    };
    let found = match &flags.source {
        Some(spec) => Source::find(devices, spec.as_str(), kind),
        None => if flags.midi {
            Ok(Source::default_midi())
        } else if flags.input {
            Ok(Source::default_input())
        } else {
            Ok(Source::default_output())
        },
    };
    match found {
        Ok(source) => {
            let channel = match flags.channel {
                Some(n) => Some(
                    if n == 0 {
                        0
                    } else {
                        n - 1
                    },
                ),
                None => None,
            };
            Ok(Source { id: source.id, kind: source.kind, channel })
        },
        Err(e) => Err(e),
    }
}

/// Whether any of the flags that choose a source was given.
pub open spec fn chosen(flags: Flags) -> bool {
    flags.source is Some || flags.input || flags.midi || flags.channel is Some
}

/// The source the flags name, but only if any of them was actually given: a
/// saved show already says what each of its layers listens to, and that stands
/// unless somebody explicitly asked for something else.
pub fn explicit_source(flags: &Flags, devices: &[DeviceInfo]) -> (res: Result<
    Option<Source>,
    String,
>)
    ensures
        if chosen(*flags) {
            match selected(*flags, endpoints(devices@)) {
                Lookup::Found(s) => res matches Ok(Some(source)) && source@ == s,
                Lookup::Refused(why) => res matches Err(e) && e@ == why,
            }
        } else {
            res matches Ok(None)
        },
{
    if flags.source.is_none() && !flags.input && !flags.midi && flags.channel.is_none() {
        return Ok(None);
    }
    match select_source(flags, devices) {
        Ok(source) => Ok(Some(source)),
        Err(e) => Err(e),
    }
}

/// A text with spaces behind it up to a width.
pub open spec fn padded(s: Seq<char>, width: int) -> Seq<char>
    decreases width - s.len(),
{
    if s.len() >= width {
        s
    } else {
        padded(s.push(' '), width)
    }
}

fn push_padded(out: &mut String, s: &str, width: usize)
    ensures
        final(out)@ == old(out)@ + padded(s@, width as int),
{
    let mut text = s.to_owned();
    let chars = crate::text::chars_of(s);
    let mut n: usize = chars.len();
    while n < width
        invariant
            n == text@.len(),
            padded(text@, width as int) == padded(s@, width as int),
        decreases width - n,
    {
        text.push(' ');
        n += 1;
    }
    out.append(text.as_str());
}

/// The heading of a kind of source.
pub open spec fn heading(kind: SourceKind) -> Seq<char> {
    match kind {
        SourceKind::Loopback => "loopback — what the PC is playing"@,
        SourceKind::Input => "input — microphones, line in, interface inputs"@,
        SourceKind::Midi => "midi — keyboards, and virtual cables from a DAW"@,
    }
}

/// What a source delivers, as far as it is known. An endpoint that says nothing
/// is nearly always one something else already holds.
pub open spec fn format_text(d: Endpoint) -> Seq<char> {
    if d.kind == SourceKind::Midi {
        "16 channels"@
    } else {
        match (d.channels, d.sample_rate) {
            (Some(c), Some(r)) => decimal(c as nat) + " ch @ "@ + decimal(r as nat) + " Hz"@,
            _ => "unavailable — in use by another application?"@,
        }
    }
}

/// The two lines of one source.
pub open spec fn device_lines(d: Endpoint) -> Seq<char> {
    "    "@ + (if d.is_default {
        "*"@
    } else {
        " "@
    }) + " "@ + padded(d.name, 44) + " "@ + format_text(d) + "\n      --source \""@ + d.id
        + "\"\n"@
}

/// The heading line of a kind, where one is due.
pub open spec fn heading_line(due: bool, kind: SourceKind) -> Seq<char> {
    if due {
        "  "@ + heading(kind) + "\n"@
    } else {
        Seq::empty()
    }
}

/// The lines of the first sources, each kind under its heading.
pub open spec fn device_rows(list: Seq<Endpoint>, n: int) -> Seq<char>
    decreases n,
{
    if n <= 0 {
        Seq::empty()
    } else {
        device_rows(list, n - 1) + heading_line(
            n == 1 || list[n - 2].kind != list[n - 1].kind,
            list[n - 1].kind,
        ) + device_lines(list[n - 1])
    }
}

/// Whether a list has a MIDI port in it.
pub open spec fn has_midi(list: Seq<Endpoint>) -> bool {
    exists|i: int| 0 <= i < list.len() && (#[trigger] list[i]).kind == SourceKind::Midi
}

/// What is said about interfaces a DAW holds.
pub open spec fn asio_note() -> Seq<char> {
    "\n  A DAW driving an interface over ASIO owns it outright, so its loopback goes\n  silent. Select that interface's input to hear what is plugged into it, or\n  send it notes instead — see --midi.\n"@
}

/// What is said where there is no MIDI port.
pub open spec fn midi_note() -> Seq<char> {
    "\n  No MIDI inputs. A keyboard appears here as soon as it is plugged in.\n  To capture FL Studio's MIDI Out plugin there is one setup step, because\n  Windows cannot join a MIDI output to a MIDI input on its own:\n    1. install loopMIDI and create a port in it\n    2. in FL: Options -> MIDI settings -> Output, enable that port and note\n       the port number it is given\n    3. set the MIDI Out plugin's Port to that number\n  The loopMIDI port then appears above like any other input.\n"@
}

/// The list of everything that can be listened to.
pub open spec fn device_list(list: Seq<Endpoint>) -> Seq<char> {
    if list.len() == 0 {
        "no audio devices or MIDI ports found\n"@
    } else {
        "sources  (* = system default)\n\n"@ + device_rows(list, list.len() as int) + asio_note()
            + if has_midi(list) {
            Seq::empty()
        } else {
            midi_note()
        }
    }
}

fn push_heading(out: &mut String, due: bool, kind: SourceKind)
    ensures
        final(out)@ == old(out)@ + heading_line(due, kind),
{
    if due {
        out.append("  ");
        match kind {
            SourceKind::Loopback => out.append("loopback — what the PC is playing"),
            SourceKind::Input => out.append("input — microphones, line in, interface inputs"),
            SourceKind::Midi => out.append("midi — keyboards, and virtual cables from a DAW"),
        }
        out.append("\n");
    }
    assert(out@ =~= old(out)@ + heading_line(due, kind));
}

fn push_device(out: &mut String, d: &DeviceInfo)
    ensures
        final(out)@ == old(out)@ + device_lines(d@),
{
    out.append("    ");
    if d.is_default {
        out.append("*");
    } else {
        out.append(" ");
    }
    out.append(" ");
    push_padded(out, d.name.as_str(), 44);
    out.append(" ");
    let ghost before = out@;
    if d.kind == SourceKind::Midi {
        out.append("16 channels");
    } else {
        match (d.channels, d.sample_rate) {
            (Some(c), Some(r)) => {
                push_decimal(out, c as u128);
                out.append(" ch @ ");
                push_decimal(out, r as u128);
                out.append(" Hz");
            },
            _ => {
                out.append("unavailable — in use by another application?");
            },
        }
    }
    assert(out@ =~= before + format_text(d@));
    out.append("\n      --source \"");
    out.append(d.id.as_str());
    out.append("\"\n");
    assert(out@ =~= old(out)@ + device_lines(d@));
}

/// The list of everything that can be listened to.
pub fn list_devices(devices: &[DeviceInfo]) -> (out: String)
    ensures
        out@ == device_list(endpoints(devices@)),
{
    let mut out = String::new();
    if devices.len() == 0 {
        out.append("no audio devices or MIDI ports found\n");
        assert(out@ =~= device_list(endpoints(devices@)));
        return out;
    }
    let ghost list = endpoints(devices@);
    out.append("sources  (* = system default)\n\n");
    let ghost top = out@;
    let mut midi: bool = false;
    let mut i: usize = 0;
    assert(out@ =~= top + device_rows(list, 0));
    while i < devices.len()
        invariant
            i <= devices@.len(),
            list == endpoints(devices@),
            out@ == top + device_rows(list, i as int),
            midi == exists|k: int|
                0 <= k < i && (#[trigger] list[k]).kind == SourceKind::Midi,
        decreases devices@.len() - i,
    {
        let d = &devices[i];
        assert(list[i as int] == devices@[i as int]@);
        assert(i > 0 ==> list[i - 1] == devices@[i - 1]@);
        push_heading(&mut out, i == 0 || devices[i - 1].kind != d.kind, d.kind);
        push_device(&mut out, d);
        if d.kind == SourceKind::Midi {
            midi = true;
        }
        i += 1;
        assert(out@ =~= top + device_rows(list, i as int));
    }
    out.append(
        "\n  A DAW driving an interface over ASIO owns it outright, so its loopback goes\n  silent. Select that interface's input to hear what is plugged into it, or\n  send it notes instead — see --midi.\n",
    );
    if !midi {
        out.append(
            "\n  No MIDI inputs. A keyboard appears here as soon as it is plugged in.\n  To capture FL Studio's MIDI Out plugin there is one setup step, because\n  Windows cannot join a MIDI output to a MIDI input on its own:\n    1. install loopMIDI and create a port in it\n    2. in FL: Options -> MIDI settings -> Output, enable that port and note\n       the port number it is given\n    3. set the MIDI Out plugin's Port to that number\n  The loopMIDI port then appears above like any other input.\n",
        );
    }
    assert(out@ =~= device_list(list));
    out
}

/// The list of serial ports.
pub open spec fn port_list(ports: Seq<Seq<char>>) -> Seq<char> {
    if ports.len() == 0 {
        "no serial ports found\n"@
    } else {
        "serial ports:\n"@ + port_rows(ports, ports.len() as int)
    }
}

/// The lines of the first serial ports.
pub open spec fn port_rows(ports: Seq<Seq<char>>, n: int) -> Seq<char>
    decreases n,
{
    if n <= 0 {
        Seq::empty()
    } else {
        port_rows(ports, n - 1) + "  "@ + ports[n - 1] + "\n"@
    }
}

/// The list of serial ports.
pub fn list_ports(ports: &[String]) -> (out: String)
    ensures
        out@ == port_list(texts(ports@)),
{
    let mut out = String::new();
    if ports.len() == 0 {
        out.append("no serial ports found\n");
        assert(out@ =~= port_list(texts(ports@)));
        return out;
    }
    out.append("serial ports:\n");
    let ghost top = out@;
    let mut i: usize = 0;
    assert(out@ =~= top + port_rows(texts(ports@), 0));
    while i < ports.len()
        invariant
            i <= ports@.len(),
            out@ == top + port_rows(texts(ports@), i as int),
        decreases ports@.len() - i,
    {
        out.append("  ");
        out.append(ports[i].as_str());
        out.append("\n");
        i += 1;
        assert(out@ =~= top + port_rows(texts(ports@), i as int));
    }
    out
}

/// Why a serial port could not be opened.
pub open spec fn ports_hint(requested: Seq<char>, ports: Seq<Seq<char>>) -> Seq<char> {
    if ports.len() == 0 {
        "could not open "@ + requested + ", and no serial ports are visible at all"@
    } else {
        "could not open "@ + requested + ". Available: "@ + joined(ports, ", "@)
    }
}

/// Why a serial port could not be opened, with what there is instead.
pub fn available_ports_hint(requested: &str, ports: &[String]) -> (out: String)
    ensures
        out@ == ports_hint(requested@, texts(ports@)),
{
    let mut out = String::new();
    out.append("could not open ");
    out.append(requested);
    if ports.len() == 0 {
        out.append(", and no serial ports are visible at all");
    } else {
        out.append(". Available: ");
        push_joined(&mut out, ports, ", ");
    }
    assert(out@ =~= ports_hint(requested@, texts(ports@)));
    out
}

/// How many of the first slots hold a show.
pub open spec fn filled(info: Seq<PresetInfo>, n: int) -> nat
    decreases n,
{
    if n <= 0 {
        0
    } else {
        filled(info, n - 1) + if info[n - 1].stored {
            1nat
        } else {
            0
        }
    }
}

/// The labels of some slots.
pub open spec fn labels(slots: Seq<usize>) -> Seq<Seq<char>> {
    Seq::new(slots.len(), |i: int| label_text(slots[i] as nat))
}

/// What is said about the keys that switch presets.
pub open spec fn keys_text(refused: Option<Seq<usize>>) -> Seq<char> {
    match refused {
        None => "           hotkeys off; switch presets in the editor\n"@,
        Some(slots) => if slots.len() == 0 {
            "           ctrl+alt+F1..F12 switch presets, from any window\n"@
        } else {
            "           ctrl+alt+F1..F12 switch presets, except "@ + joined(labels(slots), ", "@)
                + "\n           — those are held by another application, which will not give\n             them up while it is running.\n"@
        },
    }
}

/// What the slots hold and which keys reach them.
pub open spec fn presets_text(
    info: Seq<PresetInfo>,
    active: int,
    path: Seq<char>,
    refused: Option<Seq<usize>>,
    error: Option<Seq<char>>,
) -> Seq<char> {
    "  presets  "@ + decimal(filled(info, info.len() as int)) + " of 12 saved · live: "@
        + info[active].name@ + " ("@ + label_text(active as nat) + ")\n           "@ + path + "\n"@
        + keys_text(refused) + (match error {
        Some(e) => "  WARNING  "@ + e + "\n"@,
        None => Seq::empty(),
    }) + "\n"@
}

fn push_keys(out: &mut String, refused: Option<&[usize]>)
    ensures
        final(out)@ == old(out)@ + keys_text(
            match refused {
                Some(r) => Some(r@),
                None => None,
            },
        ),
{
    match refused {
        None => {
            out.append("           hotkeys off; switch presets in the editor\n");
        },
        Some(slots) => {
            if slots.len() == 0 {
                out.append("           ctrl+alt+F1..F12 switch presets, from any window\n");
            } else {
                let mut taken: Vec<String> = Vec::new();
                let mut i: usize = 0;
                while i < slots.len()
                    invariant
                        i <= slots@.len(),
                        taken@.len() == i,
                        forall|k: int|
                            0 <= k < i ==> (#[trigger] taken@[k])@ == label_text(
                                slots@[k] as nat,
                            ),
                    decreases slots@.len() - i,
                {
                    taken.push(Hotkeys::label(slots[i]));
                    i += 1;
                }
                assert(texts(taken@) =~= labels(slots@));
                out.append("           ctrl+alt+F1..F12 switch presets, except ");
                push_joined(out, taken.as_slice(), ", ");
                out.append(
                    "\n           — those are held by another application, which will not give\n             them up while it is running.\n",
                );
            }
        },
    }
    assert(out@ =~= old(out)@ + keys_text(
        match refused {
            Some(r) => Some(r@),
            None => None,
        },
    ));
}

/// What the slots hold and which keys reach them. Refused combinations are named
/// one by one, because "some keys failed" is not actionable.
pub fn print_presets(
    info: &[PresetInfo],
    active: usize,
    path: &str,
    refused: Option<&[usize]>,
    error: Option<&str>,
) -> (out: String)
    requires
        info@.len() == SLOTS,
        active < SLOTS,
    ensures
        out@ == presets_text(
            info@,
            active as int,
            path@,
            match refused {
                Some(r) => Some(r@),
                None => None,
            },
            match error {
                Some(e) => Some(e@),
                None => None,
            },
        ),
{
    let mut count: u64 = 0;
    let mut i: usize = 0;
    while i < info.len()
        invariant
            i <= info@.len(),
            info@.len() == SLOTS,
            count <= i,
            count == filled(info@, i as int),
        decreases info@.len() - i,
    {
        if info[i].stored {
            count += 1;
        }
        i += 1;
    }
    let mut out = String::new();
    out.append("  presets  ");
    push_decimal(&mut out, count as u128);
    out.append(" of 12 saved · live: ");
    out.append(info[active].name.as_str());
    out.append(" (");
    let label = Hotkeys::label(active);
    out.append(label.as_str());
    out.append(")\n           ");
    out.append(path);
    out.append("\n");
    push_keys(&mut out, refused);
    match error {
        Some(e) => {
            out.append("  WARNING  ");
            out.append(e);
            out.append("\n");
        },
        None => {},
    }
    out.append("\n");
    assert(out@ =~= presets_text(
        info@,
        active as int,
        path@,
        match refused {
            Some(r) => Some(r@),
            None => None,
        },
        match error {
            Some(e) => Some(e@),
            None => None,
        },
    ));
    out
}

/// The shape of the bottom layer.
pub enum Shape {
    /// Bands, with the lines of the tier ladder and the bands no transform
    /// resolves.
    Bands { count: usize, tiers: Vec<String>, unresolved: Vec<usize> },
    /// Semitones.
    Notes(usize),
}

/// The first lines of the tier ladder.
pub open spec fn tier_rows(tiers: Seq<Seq<char>>, n: int) -> Seq<char>
    decreases n,
{
    if n <= 0 {
        Seq::empty()
    } else {
        tier_rows(tiers, n - 1) + "           "@ + tiers[n - 1] + "\n"@
    }
}

/// Numbers one after the other.
pub open spec fn numbers(list: Seq<usize>) -> Seq<Seq<char>> {
    Seq::new(list.len(), |i: int| decimal(list[i] as nat))
}

/// What is said about the shape of the bottom layer.
pub open spec fn shape_text(shape: Shape, leds: nat) -> Seq<char> {
    match shape {
        Shape::Bands { count, tiers, unresolved } => "  bands    "@ + decimal(count as nat)
            + " across "@ + decimal(leds) + " LEDs\n  tiers\n"@ + tier_rows(
            texts(tiers@),
            tiers@.len() as int,
        ) + if unresolved@.len() == 0 {
            Seq::empty()
        } else {
            "  WARNING  bands ["@ + joined(numbers(unresolved@), ", "@)
                + "] cannot be resolved by any available FFT size.\n           Lower --bands, or raise the bottom of the range.\n"@
        },
        Shape::Notes(count) => "  notes    "@ + decimal(count as nat) + " semitones across "@
            + decimal(leds) + " LEDs\n"@,
    }
}

/// The banner.
pub open spec fn header_text(
    source: Seq<char>,
    output: Seq<char>,
    shape: Shape,
    leds: nat,
    points: nat,
    cap: nat,
    tray: bool,
) -> Seq<char> {
    "DJLED\n  source   "@ + source + "\n  output   "@ + output + "\n"@ + shape_text(shape, leds) + (
    if points > cap {
        "  NOTE     "@ + decimal(points) + " points narrowed to "@ + decimal(cap)
            + " for the wire, the firmware own\n           MAX_BANDS. Raise it in firmware/djled/djled.ino and reflash for\n           the full resolution.\n"@
    } else {
        Seq::empty()
    }) + (if tray {
        "\n  play something. right-click the tray icon to open the editor or stop.\n\n"@
    } else {
        "\n  play something. ctrl-c to quit.\n\n"@
    })
}

fn push_shape(out: &mut String, shape: &Shape, leds: usize)
    ensures
        final(out)@ == old(out)@ + shape_text(*shape, leds as nat),
{
    match shape {
        Shape::Bands { count, tiers, unresolved } => {
            out.append("  bands    ");
            push_decimal(out, *count as u128);
            out.append(" across ");
            push_decimal(out, leds as u128);
            out.append(" LEDs\n  tiers\n");
            let ghost top = out@;
            let mut i: usize = 0;
            assert(out@ =~= top + tier_rows(texts(tiers@), 0));
            while i < tiers.len()
                invariant
                    i <= tiers@.len(),
                    out@ == top + tier_rows(texts(tiers@), i as int),
                decreases tiers@.len() - i,
            {
                out.append("           ");
                out.append(tiers[i].as_str());
                out.append("\n");
                i += 1;
                assert(out@ =~= top + tier_rows(texts(tiers@), i as int));
            }
            if unresolved.len() > 0 {
                let mut list: Vec<String> = Vec::new();
                let mut k: usize = 0;
                while k < unresolved.len()
                    invariant
                        k <= unresolved@.len(),
                        list@.len() == k,
                        forall|m: int|
                            0 <= m < k ==> (#[trigger] list@[m])@ == decimal(
                                unresolved@[m] as nat,
                            ),
                    decreases unresolved@.len() - k,
                {
                    let mut text = String::new();
                    push_decimal(&mut text, unresolved[k] as u128);
                    assert(text@ =~= decimal(unresolved@[k as int] as nat));
                    list.push(text);
                    k += 1;
                }
                assert(texts(list@) =~= numbers(unresolved@));
                out.append("  WARNING  bands [");
                push_joined(out, list.as_slice(), ", ");
                out.append(
                    "] cannot be resolved by any available FFT size.\n           Lower --bands, or raise the bottom of the range.\n",
                );
            }
        },
        Shape::Notes(count) => {
            out.append("  notes    ");
            push_decimal(out, *count as u128);
            out.append(" semitones across ");
            push_decimal(out, leds as u128);
            out.append(" LEDs\n");
        },
    }
    assert(out@ =~= old(out)@ + shape_text(*shape, leds as nat));
}

/// The banner: what is listened to, what is driven, and how to stop it. Points
/// that are narrowed to fit the wire are worth saying out loud, because a frame
/// over the firmware's own limit would be dropped without a word.
pub fn print_header(
    source: &str,
    output: &str,
    shape: &Shape,
    leds: usize,
    points: usize,
    cap: usize,
    tray: bool,
) -> (out: String)
    ensures
        out@ == header_text(
            source@,
            output@,
            *shape,
            leds as nat,
            points as nat,
            cap as nat,
            tray,
        ),
{
    let mut out = String::new();
    out.append("DJLED\n  source   ");
    out.append(source);
    out.append("\n  output   ");
    out.append(output);
    out.append("\n");
    push_shape(&mut out, shape, leds);
    if points > cap {
        out.append("  NOTE     ");
        push_decimal(&mut out, points as u128);
        out.append(" points narrowed to ");
        push_decimal(&mut out, cap as u128);
        out.append(
            " for the wire, the firmware own\n           MAX_BANDS. Raise it in firmware/djled/djled.ino and reflash for\n           the full resolution.\n",
        );
    }
    if tray {
        out.append("\n  play something. right-click the tray icon to open the editor or stop.\n\n");
    } else {
        out.append("\n  play something. ctrl-c to quit.\n\n");
    }
    assert(out@ =~= header_text(
        source@,
        output@,
        *shape,
        leds as nat,
        points as nat,
        cap as nat,
        tray,
    ));
    out
}

/// The flags choose a source as they say: a named device is the one a lookup
/// among the kind asked for finds, and without a name it is the default of that
/// kind, which is what the PC plays where no kind was asked for. A channel counts
/// from one.
pub proof fn law_the_flags_choose_the_source(flags: Flags, devices: Seq<Endpoint>)
    ensures
        ({
            let kind = if flags.midi {
                Some(SourceKind::Midi)
            } else if flags.input {
                Some(SourceKind::Input)
            } else {
                None
            };
            let outcome = selected(flags, devices);
            &&& flags.source is None ==> {
                &&& outcome is Found
                &&& outcome->Found_0.id is None
                &&& flags.midi ==> outcome->Found_0.kind == SourceKind::Midi
                &&& !flags.midi && flags.input ==> outcome->Found_0.kind == SourceKind::Input
                &&& !flags.midi && !flags.input ==> outcome->Found_0.kind == SourceKind::Loopback
            }
            &&& flags.source is Some ==> match lookup(
                devices,
                (flags.source->0)@,
                kind,
                " device"@,
            ) {
                Lookup::Found(s) => outcome is Found && outcome->Found_0.id == s.id
                    && outcome->Found_0.kind == s.kind,
                Lookup::Refused(why) => outcome == Lookup::Refused(why),
            }
            &&& outcome is Found ==> {
                &&& flags.channel is None ==> outcome->Found_0.channel is None
                &&& flags.channel is Some && flags.channel->0 >= 1
                    ==> outcome->Found_0.channel is Some && outcome->Found_0.channel->0 + 1
                    == flags.channel->0
                &&& flags.channel == Some(0usize) ==> outcome->Found_0.channel == Some(0usize)
            }
        }),
{
}

/// A saved show stands unless one of the flags that choose a source was given.
pub proof fn law_only_a_flag_overrides_a_saved_show(flags: Flags)
    ensures
        flags.source is None && !flags.input && !flags.midi && flags.channel is None ==> !chosen(
            flags,
        ),
        flags.source is Some ==> chosen(flags),
        flags.input ==> chosen(flags),
        flags.midi ==> chosen(flags),
        flags.channel is Some ==> chosen(flags),
{
}

/// A padded text is the text with nothing but spaces behind it, at least as wide
/// as asked and no wider than it has to be.
pub proof fn law_padding_adds_only_spaces(s: Seq<char>, width: int)
    ensures
        padded(s, width).len() == if s.len() < width {
            width
        } else {
            s.len() as int
        },
        padded(s, width).take(s.len() as int) == s,
        forall|i: int| s.len() <= i < padded(s, width).len() ==> #[trigger] padded(s, width)[i] == ' ',
    decreases width - s.len(),
{
    if s.len() < width {
        law_padding_adds_only_spaces(s.push(' '), width);
        let longer = padded(s.push(' '), width);
        assert(longer.take(s.len() + 1int)[s.len() as int] == longer[s.len() as int]);
        assert(longer.take(s.len() as int) =~= s) by {
            assert forall|i: int| 0 <= i < s.len() implies longer[i] == s[i] by {
                assert(longer.take(s.len() + 1int)[i] == s.push(' ')[i]);
            }
        }
    } else {
        assert(s.take(s.len() as int) =~= s);
    }
}

} // verus!
