use djled::capture;
use djled::midi::notes::{note_name, MidiConfig, NoteEngine, DEFAULT_HIGH, DEFAULT_LOW, MIN_SPAN};
use djled::midi::queue::{lost, queue, RING};
use djled::midi::{
    choose_port, describe_port, parse, ports, resolve_name, Message, MidiListener, Port,
};
use djled::source::{
    audio_edit, devices, is_midi_id, midi_edit, midi_step, DeviceInfo, Source, SourceKind,
};

fn device(id: &str, name: &str, kind: SourceKind, is_default: bool) -> DeviceInfo {
    DeviceInfo {
        id: id.to_string(),
        name: name.to_string(),
        kind,
        is_default,
        sample_rate: Some(48_000),
        channels: Some(2),
    }
}

fn desk() -> Vec<DeviceInfo> {
    vec![
        device("midi:loop", "loopMIDI Port", SourceKind::Midi, false),
        device("in:scarlett", "Scarlett 2i2", SourceKind::Input, false),
        device("out:scarlett", "Scarlett 2i2", SourceKind::Loopback, false),
        device("out:speakers", "Speakers", SourceKind::Loopback, true),
    ]
}

#[test]
fn source_an_unknown_name_is_an_error_not_a_guess() {
    for list in [Vec::new(), desk()] {
        let err = Source::find(&list, "no such device anywhere", None).unwrap_err();
        assert!(err.contains("--list-devices"), "unhelpful error: {err}");
    }
}

#[test]
fn source_a_direction_resolves_a_name_shared_by_both_halves() {
    let all = desk();
    assert!(
        Source::find(&all, "Scarlett 2i2", None).is_err(),
        "a name with two endpoints should not resolve without a direction"
    );
    let found = Source::find(&all, "scarlett", Some(SourceKind::Input)).unwrap();
    assert_eq!(found.kind, SourceKind::Input);
    assert!(all.iter().any(|d| Some(&d.id) == found.id.as_ref() && d.kind == SourceKind::Input));
}

#[test]
fn midi_ids_are_distinguishable_from_audio_ids() {
    for device in devices(&desk()) {
        assert_eq!(is_midi_id(&device.id), device.kind == SourceKind::Midi);
    }
}

#[test]
fn an_exact_id_always_resolves() {
    let all = desk();
    for d in &all {
        let found = Source::find(&all, &d.id, None).unwrap();
        assert_eq!(found.id.as_deref(), Some(d.id.as_str()));
        assert_eq!(found.kind, d.kind);
        assert_eq!(found.channel, None);
    }
}

#[test]
fn a_fragment_is_found_whatever_its_case() {
    let all = desk();
    assert_eq!(Source::find(&all, "SPEAK", None).unwrap().id.as_deref(), Some("out:speakers"));
    assert_eq!(Source::find(&all, "midi PORT", None).unwrap().kind, SourceKind::Midi);
    let mut accented = desk();
    accented.push(device("in:cafe", "CAFÉ Mic", SourceKind::Input, false));
    assert_eq!(Source::find(&accented, "café", None).unwrap().id.as_deref(), Some("in:cafe"));
}

#[test]
fn an_ambiguous_name_lists_the_candidates() {
    let err = Source::find(&desk(), "scarlett", None).unwrap_err();
    assert!(err.contains("matches 2"), "{err}");
    assert!(err.contains("--input"), "{err}");
}

#[test]
fn devices_are_listed_by_kind_then_default_then_name() {
    let mut found = desk();
    found.push(device("out:a", "A speaker", SourceKind::Loopback, false));
    let names: Vec<String> = devices(&found).iter().map(|d| d.name.clone()).collect();
    assert_eq!(
        names,
        ["Speakers", "A speaker", "Scarlett 2i2", "Scarlett 2i2", "loopMIDI Port"]
    );
}

#[test]
fn default_sources_differ_by_kind_only() {
    assert_eq!(Source::default(), Source::default_output());
    assert!(!Source::default_output().same_as(&Source::default_input()));
    assert!(Source::default_midi().same_as(&Source::default_midi().clone()));
    assert_eq!(SourceKind::Midi.label(), "midi");
    assert!(!SourceKind::Midi.is_audio() && SourceKind::Input.is_audio());
}

#[test]
fn note_envelopes_step_no_further_than_the_cap() {
    assert_eq!(midi_step(7_999), None);
    assert_eq!(midi_step(8_000), Some(8_000));
    assert_eq!(midi_step(5_000_000), Some(100_000));
}

#[test]
fn an_edit_rebuilds_only_what_it_touches() {
    let same = audio_edit(false, false, false, false);
    assert!(!same.rebuild && !same.eq && !same.decay);
    let hop = audio_edit(false, true, false, false);
    assert!(hop.rebuild && hop.eq && hop.decay);
    let moved = midi_edit(false, true, false, false);
    assert!(!moved.rebuild && moved.eq && !moved.decay);
}

fn endpoint(id: &str, name: &str, kind: capture::SourceKind) -> capture::DeviceInfo {
    capture::DeviceInfo {
        id: id.to_string(),
        name: name.to_string(),
        kind,
        is_default: false,
        sample_rate: None,
        channels: None,
    }
}

fn endpoints() -> Vec<capture::DeviceInfo> {
    vec![
        endpoint("out:x", "Interface", capture::SourceKind::Loopback),
        endpoint("in:x", "Interface", capture::SourceKind::Input),
    ]
}

#[test]
fn capture_an_unknown_name_is_an_error_not_a_guess() {
    let err =
        capture::Source::find(&endpoints(), "no such device anywhere", None).unwrap_err();
    assert!(err.contains("--list-devices"), "unhelpful error: {err}");
}

#[test]
fn capture_a_direction_resolves_a_name_shared_by_both_halves() {
    let all = endpoints();
    assert!(capture::Source::find(&all, "Interface", None).is_err());
    let found =
        capture::Source::find(&all, "Interface", Some(capture::SourceKind::Input)).unwrap();
    assert_eq!(found.kind, capture::SourceKind::Input);
    assert_eq!(found.id.as_deref(), Some("in:x"));
}

#[test]
fn capture_describes_what_it_opened() {
    assert_eq!(capture::direction(true, true), Some(capture::SourceKind::Loopback));
    assert_eq!(capture::direction(false, true), Some(capture::SourceKind::Input));
    assert_eq!(capture::direction(false, false), None);
    assert_eq!(capture::usable_channel(Some(1), 2), Some(1));
    assert_eq!(capture::usable_channel(Some(2), 2), None);
    let text = capture::describe("Desk", SourceKind::Input, 2, Some(1), 48_000);
    assert!(text.contains("Desk") && text.contains("48000"), "{text}");
    assert!(capture::open_hint("Desk", capture::SourceKind::Input).contains("Desk"));
}

#[test]
fn channel_voice_messages_are_split_into_kind_and_channel() {
    let m = Message { status: 0x93, data1: 60, data2: 100 };
    assert_eq!(m.kind(), Message::NOTE_ON);
    assert_eq!(m.channel(), 3);
    assert!(m.is_note_on());

    let m = Message { status: 0x90, data1: 60, data2: 0 };
    assert!(!m.is_note_on(), "velocity 0 is a note-off");
}

#[test]
fn parsing_keeps_voice_messages_and_drops_the_rest() {
    assert_eq!(
        parse(&[0x90, 60, 100]),
        Some(Message { status: 0x90, data1: 60, data2: 100 })
    );
    // Two-byte messages (program change, channel pressure) still parse.
    assert_eq!(parse(&[0xC0, 5]), Some(Message { status: 0xC0, data1: 5, data2: 0 }));

    assert_eq!(parse(&[]), None);
    assert_eq!(parse(&[0xF8]), None, "timing clock is not a voice message");
    assert_eq!(parse(&[0xF0, 0x7E, 0xF7]), None, "sysex is not a voice message");
    assert_eq!(parse(&[60, 100]), None, "a data byte cannot start a message");
}

#[test]
fn data_bytes_are_masked_to_seven_bits() {
    let m = parse(&[0x90, 0xFF, 0xFF]).unwrap();
    assert_eq!(m.data1, 127);
    assert_eq!(m.data2, 127);
}

fn port(id: &str, name: Option<&str>) -> Port {
    Port { id: id.to_string(), name: name.map(|n| n.to_string()) }
}

#[test]
fn enumerated_ports_are_well_formed() {
    let list = ports(&[port("1", Some("Keys")), port("2", None), port("0", Some("Drums"))]);
    assert_eq!(list.len(), 2, "a port without a name cannot be listed");
    assert_eq!(list[0].name, "Drums");
    for port in list {
        assert!(port.id.starts_with("midi:"), "'{}' is not tagged as MIDI", port.id);
        assert_eq!(port.kind, SourceKind::Midi);
        assert!(port.sample_rate.is_none());
    }
}

#[test]
fn a_port_is_chosen_by_id_and_the_first_by_default() {
    let available = [port("a", Some("Keys")), port("b", Some("Drums"))];
    assert_eq!(choose_port(&available, &Source::default_midi()), Ok(0));
    let mut wanted = Source::default_midi();
    wanted.id = Some("midi:b".to_string());
    assert_eq!(choose_port(&available, &wanted), Ok(1));
    wanted.id = Some("midi:gone".to_string());
    assert!(choose_port(&available, &wanted).is_err());
    assert!(choose_port(&[], &Source::default_midi()).is_err());
    assert!(describe_port("Keys", Some(0)).contains("Keys"));
}

#[test]
fn messages_come_out_of_the_queue_in_the_order_they_went_in() {
    let (mut outbox, inbox) = queue();
    let mut dropped = 0;
    dropped = outbox.deliver(&[0x90, 60, 100], dropped);
    dropped = outbox.deliver(&[0xF8], dropped);
    dropped = outbox.deliver(&[0x80, 60, 0], dropped);
    assert_eq!(dropped, 0);

    let mut listener = MidiListener::new(&Source::default_midi(), "Keys", inbox);
    let mut buf = [Message::default(); 4];
    assert_eq!(listener.read(&mut buf), 2);
    assert_eq!(buf[0], Message { status: 0x90, data1: 60, data2: 100 });
    assert_eq!(buf[1], Message { status: 0x80, data1: 60, data2: 0 });
    assert_eq!(buf[2], Message::default());
    assert_eq!(listener.read(&mut buf), 0);
}

#[test]
fn a_full_queue_counts_what_it_loses() {
    let (mut outbox, inbox) = queue();
    let mut dropped = 0;
    for _ in 0..RING + 3 {
        dropped = outbox.deliver(&[0x90, 60, 100], dropped);
    }
    assert_eq!(dropped, 3);
    assert_eq!(lost(u64::MAX, false), 0);

    let mut listener = MidiListener::new(&Source::default_midi(), "Keys", inbox);
    let mut buf = vec![Message::default(); RING];
    assert_eq!(listener.read(&mut buf), RING);
    assert_eq!(outbox.deliver(&[0x90, 60, 100], 0), 0, "room was not given back");
}

#[test]
fn a_listener_plays_what_arrives() {
    let (mut outbox, inbox) = queue();
    let mut listener = MidiListener::new(&Source::default_midi(), "Keys", inbox);
    let mut notes = NoteEngine::new(&MidiConfig::default(), None);
    outbox.deliver(&[0x90, 60, 100], 0);
    outbox.deliver(&[0x90, 64, 90], 0);
    let mut buf = [Message::default(); 1];
    assert!(listener.play(&mut notes, &mut buf));
    assert_eq!(notes.gate(60), 100);
    assert!(listener.play(&mut notes, &mut buf));
    assert!(!listener.play(&mut notes, &mut buf));
    assert_eq!(notes.gate(64), 90);
    assert_eq!(listener.port_name(), "Keys");
    assert!(listener.describe().contains("Keys"));
}

#[test]
fn the_named_port_is_the_opened_one() {
    let found = [port("9", Some("Zed")), port("4", Some("Alpha")), port("5", None)];
    assert_eq!(ports(&found)[0].name, "Alpha", "the list is by name");
    let first = Source::default_midi();
    assert_eq!(resolve_name(&first, &found).as_deref(), Some("Zed"), "opening is not");
    let by = |id: &str| {
        let mut source = Source::default_midi();
        source.id = Some(id.to_string());
        source
    };
    for source in [first, by("midi:9"), by("4"), by("Alpha"), by("midi:5"), by("midi:gone")] {
        let named = resolve_name(&source, &found);
        let opened = choose_port(&found, &source).ok().and_then(|p| found[p].name.clone());
        assert_eq!(named, opened, "{source:?}");
    }
    assert_eq!(resolve_name(&by("midi:4"), &found).as_deref(), Some("Alpha"));
    assert_eq!(resolve_name(&by("midi:gone"), &found), None);
    assert_eq!(resolve_name(&Source::default_midi(), &[]), None);
}

#[test]
fn an_open_port_answers_to_every_name_for_it() {
    let list = [port("0", Some("Drums")), port("1", Some("Keys"))];
    let (_outbox, inbox) = queue();
    let mut listener = MidiListener::new(&Source::default_midi(), "Drums", inbox);
    assert!(listener.answers_to(&Source::default_midi(), &list), "the driver's first port");
    let drums = Source { id: Some("midi:0".into()), kind: SourceKind::Midi, channel: Some(3) };
    let keys = Source { id: Some("midi:1".into()), kind: SourceKind::Midi, channel: None };
    assert!(listener.answers_to(&drums, &list));
    assert!(!listener.answers_to(&keys, &list));
    assert!(!listener.answers_to(&Source::default_input(), &list));
    listener.reselect(&drums);
    assert_eq!(listener.source().id.as_deref(), Some("midi:0"));
    assert_eq!(listener.source().channel, Some(3));
    assert_eq!(listener.describe(), "Drums [midi] (channel 4)");
}

fn on(note: u8, velocity: u8) -> Message {
    Message { status: 0x90, data1: note, data2: velocity }
}

fn off(note: u8) -> Message {
    Message { status: 0x80, data1: note, data2: 0 }
}

fn cc(controller: u8, value: u8) -> Message {
    Message { status: 0xB0, data1: controller, data2: value }
}

fn engine() -> NoteEngine {
    NoteEngine::new(&MidiConfig::default(), None)
}

fn sounding(e: &NoteEngine) -> usize {
    (0..128u8).filter(|&n| e.gate(n) > 0).count()
}

#[test]
fn the_default_range_is_a_piano() {
    assert_eq!(MidiConfig::default().points(), 88, "an 88-key piano is 88 grid points");
    assert_eq!(engine().range(), (DEFAULT_LOW, DEFAULT_HIGH));
}

#[test]
fn a_zero_velocity_note_on_is_a_note_off() {
    let mut e = engine();
    e.handle(on(60, 100));
    assert_eq!(e.gate(60), 100);
    e.handle(on(60, 0));
    assert_eq!(e.gate(60), 0);
}

#[test]
fn a_held_note_holds_until_it_is_released() {
    let mut e = engine();
    e.handle(on(60, 127));
    assert_eq!(e.gate(60), 127);
    e.handle(off(60));
    assert_eq!(e.gate(60), 0);
}

#[test]
fn the_sustain_pedal_holds_a_released_note() {
    let mut e = engine();
    e.handle(cc(64, 127));
    e.handle(on(60, 127));
    e.handle(off(60));
    assert_eq!(e.gate(60), 127, "the pedal should be holding this note");
    e.handle(cc(64, 0));
    assert_eq!(e.gate(60), 0, "lifting the pedal releases it");
}

#[test]
fn sustain_can_be_switched_off() {
    let cfg = MidiConfig { sustain: false, ..MidiConfig::default() };
    let mut e = NoteEngine::new(&cfg, None);
    e.handle(cc(64, 127));
    e.handle(on(60, 127));
    e.handle(off(60));
    assert_eq!(e.gate(60), 0);
}

#[test]
fn all_notes_off_releases_everything() {
    let mut e = engine();
    e.handle_all(&[on(60, 120), on(64, 120), on(67, 120)]);
    assert_eq!(sounding(&e), 3);
    e.handle(cc(123, 0));
    assert_eq!(sounding(&e), 0);
}

#[test]
fn notes_outside_the_range_are_counted_not_piled_on_the_end() {
    let mut e = engine();
    e.handle(on(0, 127));
    e.handle(on(127, 127));
    assert_eq!(e.out_of_range(), 2);
    assert_eq!(sounding(&e), 0);
}

#[test]
fn a_channel_filter_ignores_the_others() {
    let mut e = NoteEngine::new(&MidiConfig::default(), Some(3));
    e.handle(Message { status: 0x93, data1: 60, data2: 127 });
    e.handle(Message { status: 0x95, data1: 64, data2: 127 });
    assert_eq!(e.gate(60), 127);
    assert_eq!(e.gate(64), 0);
}

#[test]
fn hostile_ranges_are_clamped_not_trusted() {
    let inverted = MidiConfig { low_note: 100, high_note: 20, ..MidiConfig::default() };
    assert_eq!(inverted.range(), (20, 100));

    let tiny = MidiConfig { low_note: 60, high_note: 61, ..MidiConfig::default() };
    let (lo, hi) = tiny.range();
    assert_eq!(hi - lo, MIN_SPAN);

    let top = MidiConfig { low_note: 127, high_note: 127, ..MidiConfig::default() };
    let (lo, hi) = top.range();
    assert!(hi <= 127 && hi - lo >= MIN_SPAN);
    assert!(top.points() > 0);
}

#[test]
fn changing_the_range_rebuilds_the_grid_and_reports_it() {
    let mut e = engine();
    let narrow = MidiConfig { low_note: 48, high_note: 72, ..MidiConfig::default() };
    assert!(e.set_config(&narrow), "a moved range must report a rebuild");
    assert_eq!(narrow.points(), 25);
    assert_eq!(e.range(), (48, 72));
    assert!(!e.set_config(&narrow), "an unchanged range must not");
}

#[test]
fn narrowing_the_range_does_not_strand_a_sounding_note() {
    let mut e = engine();
    e.handle(on(30, 127));
    assert_eq!(sounding(&e), 1);

    e.set_config(&MidiConfig { low_note: 48, high_note: 72, ..MidiConfig::default() });
    assert_eq!(sounding(&e), 0, "the note is outside the range and must be gone");

    e.set_config(&MidiConfig::default());
    assert_eq!(sounding(&e), 0, "and must not come back when the range widens");
}

#[test]
fn note_names_follow_the_middle_c_is_c4_convention() {
    assert_eq!(note_name(60), "C4");
    assert_eq!(note_name(21), "A0");
    assert_eq!(note_name(108), "C8");
    assert_eq!(note_name(69), "A4");
}
