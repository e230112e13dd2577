use djled::cli::{
    available_ports_hint, explicit_source, list_devices, list_ports, print_header, print_presets,
    select_source, Flags, Shape,
};
use djled::display::{draw, Bar};
use djled::order::{stable_order, Descending};
use djled::presets::{Loaded, Presets};
use djled::probe::{audio_verdict, loudest, midi_verdict, AudioProbe, Heard, Played};
use djled::run::{Action, Command, Event, Exit, Retry, RunLoop, Shown, FRAME};
use djled::source::{DeviceInfo, Source, SourceKind};
use djled::text;
use djled::tray::TrayEvent;

fn flags() -> Flags {
    Flags { source: None, input: false, midi: false, channel: None }
}

fn device(id: &str, name: &str, kind: SourceKind) -> DeviceInfo {
    DeviceInfo {
        id: id.to_string(),
        name: name.to_string(),
        kind,
        is_default: false,
        sample_rate: None,
        channels: None,
    }
}

#[test]
fn flags_choose_a_source() {
    assert_eq!(select_source(&flags(), &[]), Ok(Source::default_output()));
    let mut f = flags();
    f.input = true;
    assert_eq!(select_source(&f, &[]), Ok(Source::default_input()));
    f.midi = true;
    f.channel = Some(10);
    let midi = select_source(&f, &[]).unwrap();
    assert_eq!(midi.kind, SourceKind::Midi);
    assert_eq!(midi.channel, Some(9));
    f.channel = Some(0);
    assert_eq!(select_source(&f, &[]).unwrap().channel, Some(0));
    f.source = Some("keys".to_string());
    let all = [device("midi:k", "My Keys", SourceKind::Midi)];
    assert_eq!(select_source(&f, &all).unwrap().id.as_deref(), Some("midi:k"));
    assert!(select_source(&f, &[]).is_err());
}

#[test]
fn a_saved_show_stands_unless_a_flag_was_given() {
    assert_eq!(explicit_source(&flags(), &[]), Ok(None));
    let mut f = flags();
    f.channel = Some(2);
    assert_eq!(explicit_source(&f, &[]).unwrap().unwrap().channel, Some(1));
    f.source = Some("nothing".to_string());
    assert!(explicit_source(&f, &[]).is_err());
}

#[test]
fn devices_are_printed_under_their_kind() {
    let mut speakers = device("out:s", "Speakers", SourceKind::Loopback);
    speakers.is_default = true;
    speakers.sample_rate = Some(48_000);
    speakers.channels = Some(2);
    let text = list_devices(&[speakers, device("in:m", "Mic", SourceKind::Input)]);
    assert!(text.starts_with("sources  (* = system default)\n\n  loopback — what the PC is playing\n"));
    assert!(text.contains(&format!("    * {:<44} 2 ch @ 48000 Hz\n", "Speakers")));
    assert!(text.contains("      --source \"in:m\"\n"));
    assert!(text.contains("unavailable — in use by another application?"));
    assert!(text.contains("No MIDI inputs."));
    let keys = list_devices(&[device("midi:k", "Keys", SourceKind::Midi)]);
    assert!(keys.contains("16 channels") && !keys.contains("No MIDI inputs."));
    assert_eq!(list_devices(&[]), "no audio devices or MIDI ports found\n");
}

#[test]
fn ports_are_printed_and_hinted_at() {
    let ports = ["COM3".to_string(), "COM4".to_string()];
    assert_eq!(list_ports(&ports), "serial ports:\n  COM3\n  COM4\n");
    assert_eq!(list_ports(&[]), "no serial ports found\n");
    assert_eq!(
        available_ports_hint("COM9", &ports),
        "could not open COM9. Available: COM3, COM4"
    );
    assert_eq!(
        available_ports_hint("COM9", &[]),
        "could not open COM9, and no serial ports are visible at all"
    );
}

#[test]
fn presets_are_printed_with_their_keys() {
    let mut presets = Presets::load("p.json".to_string(), Loaded::Missing);
    presets.store("x");
    let info = presets.info();
    assert_eq!(
        print_presets(&info, 0, "p.json", Some(&[]), None),
        "  presets  1 of 12 saved · live: Preset 1 (ctrl+alt+F1)\n           p.json\n           ctrl+alt+F1..F12 switch presets, from any window\n\n"
    );
    let text = print_presets(&info, 3, "p.json", Some(&[3, 4]), Some("broken"));
    assert!(text.contains("except ctrl+alt+F4, ctrl+alt+F5\n"));
    assert!(text.contains("  WARNING  broken\n"));
    assert!(print_presets(&info, 0, "p.json", None, None).contains("hotkeys off"));
}

#[test]
fn the_banner_says_what_is_narrowed_and_how_to_stop() {
    let bands = Shape::Bands { count: 48, tiers: vec!["N=128".to_string()], unresolved: vec![1, 2] };
    let text = print_header("Speakers", "COM3", &bands, 150, 48, 85, false);
    assert!(text.starts_with("DJLED\n  source   Speakers\n  output   COM3\n  bands    48 across 150 LEDs\n  tiers\n           N=128\n"));
    assert!(text.contains("bands [1, 2] cannot be resolved"));
    assert!(text.ends_with("ctrl-c to quit.\n\n"));
    let notes = print_header("Keys", "COM3", &Shape::Notes(88), 150, 88, 64, true);
    assert!(notes.contains("  notes    88 semitones across 150 LEDs\n"));
    assert!(notes.contains("88 points narrowed to 64 for the wire"));
    assert!(notes.contains("tray icon"));
}

#[test]
fn a_probe_tells_its_three_states_apart() {
    let mut probe = AudioProbe::new();
    assert!(!probe.record(0, true));
    assert_eq!(probe, AudioProbe::new());
    assert!(probe.record(256, false));
    assert!(probe.record(256, true));
    assert_eq!(probe, AudioProbe { samples: 512, frames: 1 });

    assert_eq!(audio_verdict(true, 1, false, SourceKind::Input), Heard::Failed);
    assert_eq!(audio_verdict(false, 0, true, SourceKind::Loopback), Heard::IdleLoopback);
    assert_eq!(audio_verdict(false, 0, true, SourceKind::Input), Heard::SilentCapture);
    assert_eq!(audio_verdict(false, 9, true, SourceKind::Input), Heard::DigitalSilence);
    assert_eq!(audio_verdict(false, 9, false, SourceKind::Input), Heard::Sound);
    assert!(Heard::IdleLoopback.say().contains("WASAPI loopback is idle"));

    assert_eq!(midi_verdict(0, 0), Played::Nothing);
    assert_eq!(midi_verdict(0, 3), Played::OutOfRange);
    assert_eq!(midi_verdict(1, 3), Played::Notes);
    assert_eq!(Played::Notes.say(), "");
}

#[test]
fn the_loudest_bands_come_first() {
    let levels: Vec<Descending> = [3, 9, 1, 9, 5, 7, 2].iter().map(|&l| Descending(l)).collect();
    assert_eq!(loudest(&levels), [1, 3, 5, 4, 0]);
    assert_eq!(stable_order(&[2u64, 1, 2, 0]), [3, 1, 0, 2]);
}

#[test]
fn a_picture_is_drawn_over_the_one_before() {
    let bars = [Bar { full: 7, touched: 8 }, Bar { full: 0, touched: 1 }];
    let leds = [[1, 2, 3]; 4];
    let first = draw(&bars, &leds, 1, 2, 7, "ok", true);
    let lines: Vec<&str> = first.lines().collect();
    assert_eq!(lines.len(), 23);
    assert_eq!(lines[18], "█   ");
    assert_eq!(lines[19], "█ ░ ");
    assert_eq!(lines[17], "    ");
    assert_eq!(lines[20], "┬ ─ ");
    assert_eq!(lines[21], format!("{}\x1b[0m", "\x1b[48;2;1;2;3m ".repeat(4)));
    assert_eq!(lines[22], "  4 LEDs   1 layer on 2 devices   dropped frames: 7   ok\x1b[K");
    assert_eq!(draw(&bars, &leds, 1, 2, 7, "ok", false), format!("\x1b[23A{first}"));
}

#[test]
fn an_idle_pass_takes_commands_and_rests() {
    let mut run = RunLoop::new(true, true);
    assert!(matches!(run.action(), Action::TakeFaults));
    run.handle(Event::Faults(Vec::new()));
    assert!(matches!(run.action(), Action::NextCommand));
    run.handle(Event::Command(None));
    assert!(matches!(run.action(), Action::NextKey));
    run.handle(Event::Key(None));
    assert!(matches!(run.action(), Action::DrainMenu));
    run.handle(Event::Menu(Vec::new()));
    assert!(matches!(run.action(), Action::SavePresets));
    run.handle(Event::Saved { wrote: false, error: Some("old".to_string()) });
    assert_eq!(run.status(), "");
    assert!(matches!(run.action(), Action::Poll));
    run.handle(Event::Polled { fresh: false, animating: true, elapsed: FRAME - 1 });
    assert!(matches!(run.action(), Action::Rest));
    run.handle(Event::Done);
    assert!(matches!(run.action(), Action::TakeFaults));
}

fn to_poll(run: &mut RunLoop) {
    run.handle(Event::Faults(Vec::new()));
    run.handle(Event::Command(None));
    run.handle(Event::Key(None));
    run.handle(Event::Menu(Vec::new()));
    run.handle(Event::Saved { wrote: false, error: None });
}

#[test]
fn frames_are_sent_counted_and_drawn() {
    let mut run = RunLoop::new(true, false);
    to_poll(&mut run);
    run.handle(Event::Polled { fresh: true, animating: false, elapsed: 0 });
    assert!(matches!(run.action(), Action::Render { seek: false }));
    run.handle(Event::Sent(Ok(false)));
    assert_eq!(run.dropped(), 1);
    run.handle(Event::Elapsed(FRAME));
    assert!(matches!(run.action(), Action::Draw { publish: false, shown: Shown::Picture(true) }));
    run.handle(Event::Done);
    to_poll(&mut run);
    run.handle(Event::Polled { fresh: false, animating: true, elapsed: FRAME });
    assert!(matches!(run.action(), Action::Render { seek: true }));
    run.handle(Event::Sent(Ok(true)));
    assert_eq!(run.dropped(), 1);
    run.handle(Event::Elapsed(FRAME));
    assert!(matches!(run.action(), Action::Draw { publish: false, shown: Shown::Picture(false) }));
    run.handle(Event::Done);
    to_poll(&mut run);
    run.handle(Event::Polled { fresh: true, animating: false, elapsed: 0 });
    run.handle(Event::Sent(Err("unplugged".to_string())));
    assert!(matches!(run.action(), Action::Fail(e) if e == "unplugged"));
}

#[test]
fn an_edit_is_stored_and_announced_when_it_reshapes() {
    let mut run = RunLoop::new(true, true);
    run.handle(Event::Faults(Vec::new()));
    run.handle(Event::Command(Some(Command::Config)));
    assert!(matches!(run.action(), Action::ApplyEdit));
    run.handle(Event::Applied(Err("colour".to_string())));
    assert_eq!(run.status(), "config rejected: colour");
    assert!(matches!(run.action(), Action::NextCommand));

    run.handle(Event::Command(Some(Command::Config)));
    run.handle(Event::Applied(Ok(false)));
    assert!(matches!(run.action(), Action::StoreEdit));
    run.handle(Event::Stored(false));
    assert_eq!(run.status(), "");
    assert!(matches!(run.action(), Action::PublishEdit { listing: false, announce: false }));
    run.handle(Event::Done);

    run.handle(Event::Command(Some(Command::Config)));
    run.handle(Event::Applied(Ok(true)));
    run.handle(Event::Stored(true));
    assert!(matches!(run.action(), Action::PublishEdit { listing: true, announce: true }));
}

#[test]
fn the_editor_reaches_everything_else() {
    let mut run = RunLoop::new(true, true);
    run.handle(Event::Faults(vec![
        ("a".to_string(), "gone".to_string()),
        ("b".to_string(), "lost".to_string()),
    ]));
    assert_eq!(run.status(), "a: gone  b: lost");
    assert!(matches!(run.action(), Action::AnnounceLayers));
    run.handle(Event::Done);

    run.handle(Event::Command(Some(Command::Brightness)));
    assert!(matches!(run.action(), Action::SetBrightness));
    run.handle(Event::Done);
    run.handle(Event::Command(Some(Command::RequestState)));
    assert!(matches!(run.action(), Action::NextCommand));

    run.handle(Event::Command(Some(Command::ListSources)));
    assert!(matches!(run.action(), Action::Rescan));
    run.handle(Event::Rescanned(Retry::Unchanged));
    assert_eq!(run.status(), "a: gone  b: lost");
    assert!(matches!(run.action(), Action::AnnounceSources));
    run.handle(Event::Done);
    run.handle(Event::Command(Some(Command::ListSources)));
    run.handle(Event::Rescanned(Retry::Rejected("x".to_string())));
    assert_eq!(run.status(), "config rejected: x");
    run.handle(Event::Done);
    run.handle(Event::Command(Some(Command::ListSources)));
    run.handle(Event::Rescanned(Retry::Rebuilt));
    assert_eq!(run.status(), "");
    run.handle(Event::Done);

    run.handle(Event::Command(Some(Command::RenamePreset(2, "Bass".to_string()))));
    assert!(matches!(run.action(), Action::Rename(2, name) if name == "Bass"));
    run.handle(Event::Done);

    run.handle(Event::Command(Some(Command::SelectPreset(4))));
    assert!(matches!(run.action(), Action::LoadPreset { slot: 4, blank_if_empty: true }));
    run.handle(Event::Chosen(true));
    assert!(matches!(run.action(), Action::ApplyPreset));
    run.handle(Event::Applied(Err("bad".to_string())));
    assert_eq!(run.status(), "preset 5 rejected: bad");
    run.handle(Event::Command(Some(Command::SelectPreset(4))));
    run.handle(Event::Chosen(true));
    run.handle(Event::Applied(Ok(true)));
    assert!(matches!(run.action(), Action::AnnounceShow));
    run.handle(Event::Done);
    run.handle(Event::Command(Some(Command::SelectPreset(99))));
    run.handle(Event::Chosen(false));
    assert!(matches!(run.action(), Action::NextCommand));
}

#[test]
fn an_empty_slot_is_said_out_loud() {
    let mut run = RunLoop::new(false, false);
    run.handle(Event::Faults(Vec::new()));
    run.handle(Event::Key(Some(3)));
    assert!(matches!(run.action(), Action::LoadPreset { slot: 3, blank_if_empty: false }));
    run.handle(Event::Chosen(false));
    assert_eq!(run.status(), "ctrl+alt+F4 is empty");
    run.handle(Event::Key(Some(3)));
    run.handle(Event::Chosen(true));
    run.handle(Event::Applied(Ok(false)));
    assert_eq!(run.status(), "");
    assert!(matches!(run.action(), Action::NextKey));
}

#[test]
fn the_last_thing_the_menu_asked_for_ends_the_loop() {
    let mut run = RunLoop::new(false, false);
    run.handle(Event::Faults(Vec::new()));
    run.handle(Event::Key(None));
    run.handle(Event::Menu(vec![TrayEvent::Stop, TrayEvent::Restart]));
    assert!(matches!(run.action(), Action::Exit(Exit::Restarting)));
    run.handle(Event::Done);
    assert!(matches!(run.action(), Action::Exit(Exit::Restarting)));
}

#[test]
fn a_log_gets_one_line_per_change() {
    let mut run = RunLoop::new(false, false);
    let pass = |run: &mut RunLoop, wrote: bool| {
        run.handle(Event::Faults(Vec::new()));
        run.handle(Event::Key(None));
        run.handle(Event::Menu(Vec::new()));
        run.handle(Event::Saved { wrote, error: Some("disk full".to_string()) });
        run.handle(Event::Polled { fresh: true, animating: false, elapsed: 0 });
        run.handle(Event::Sent(Ok(true)));
        run.handle(Event::Elapsed(FRAME));
        let shown = match run.action() {
            Action::Draw { shown, .. } => shown,
            _ => panic!("nothing is drawn"),
        };
        run.handle(Event::Done);
        shown
    };
    assert!(matches!(pass(&mut run, false), Shown::Nothing));
    assert!(matches!(pass(&mut run, true), Shown::Line(line) if line == "disk full"));
    assert!(matches!(pass(&mut run, true), Shown::Nothing));
    run.handle(Event::Faults(Vec::new()));
    run.handle(Event::Key(Some(0)));
    run.handle(Event::Chosen(true));
    run.handle(Event::Applied(Ok(false)));
    run.handle(Event::Key(None));
    run.handle(Event::Menu(Vec::new()));
    run.handle(Event::Saved { wrote: false, error: None });
    run.handle(Event::Polled { fresh: true, animating: false, elapsed: 0 });
    run.handle(Event::Sent(Ok(true)));
    run.handle(Event::Elapsed(FRAME));
    assert!(matches!(
        run.action(),
        Action::Draw { shown: Shown::Line(line), .. } if line == "recovered"
    ));
}

#[test]
fn white_space_is_what_the_standard_library_says() {
    for n in 0..=0x10FFFFu32 {
        if let Some(c) = char::from_u32(n) {
            assert_eq!(text::is_whitespace(c), c.is_whitespace(), "{n:x}");
        }
    }
}

#[test]
fn text_helpers_agree_with_the_standard_library() {
    for s in ["", " a ", "\u{2003}x y\u{a0}", "abcabc", "   "] {
        assert_eq!(text::trim(s), s.trim());
        assert_eq!(text::blank(s), s.trim().is_empty());
        assert_eq!(text::contains(s, "bc"), s.contains("bc"));
        assert_eq!(text::starts_with(s, "ab"), s.starts_with("ab"));
    }
    for (a, b) in [("", "a"), ("a", "b"), ("a", "aa"), ("Z", "a"), ("\u{e9}", "z"), ("x", "x")] {
        assert_eq!(text::comes_before(a, b), a < b);
        assert_eq!(text::comes_before(b, a), b < a);
    }
    let mut out = String::new();
    text::push_decimal(&mut out, 0);
    text::push_decimal(&mut out, u128::MAX);
    assert_eq!(out, format!("0{}", u128::MAX));
    let mut hex = String::new();
    for b in 0..=255u8 {
        text::push_hex_byte(&mut hex, b);
    }
    assert!(hex.starts_with("000102") && hex.ends_with("fdfeff"));
}
