use djled::link::expand_bands_to_leds;
use djled::link::mock::MockLink;
use djled::link::protocol::{
    crc8, encode_band_rgb, encode_blackout, encode_hello, encode_hello_reply, encode_test, frame,
    max_bands, Decoder, Event, Hello, Kind, TestPattern, MAGIC, OVERHEAD, PROTOCOL_VERSION, READY,
};
use djled::link::serial::{
    Handshake, HandshakeStep, Readiness, ReadyStep, SerialLink, PROBE_INTERVAL, READY_LIFETIME,
    RESET_GRACE,
};
use djled::link::Link;

fn hello() -> Hello {
    Hello { protocol_version: PROTOCOL_VERSION, firmware_version: 3, led_count: 150, max_bands: 64 }
}

#[test]
fn band_rgb_frame_has_the_documented_layout() {
    let mut out = Vec::new();
    encode_band_rgb(&[[1, 2, 3], [4, 5, 6]], &mut out).unwrap();

    assert_eq!(&out[..2], &MAGIC);
    assert_eq!(out[2], Kind::BandRgb.to_u8());
    assert_eq!(out[3], 6, "length byte counts payload bytes, not bands");
    assert_eq!(&out[4..10], &[1, 2, 3, 4, 5, 6]);
    assert_eq!(out[10], crc8(&out[2..10]));
    assert_eq!(out.len(), OVERHEAD + 6);
}

#[test]
fn a_48_band_frame_fits_the_latency_budget() {
    let mut out = Vec::new();
    encode_band_rgb(&[[0; 3]; 48], &mut out).unwrap();
    assert_eq!(out.len(), 149);

    let ms = out.len() as f64 * 10.0 / 500_000.0 * 1000.0;
    assert!(ms < 3.5, "48 bands take {ms:.2} ms at 500 kbaud");
}

#[test]
fn rejects_more_bands_than_the_length_byte_allows() {
    let mut out = Vec::new();
    assert!(encode_band_rgb(&[[0; 3]; 85], &mut out).is_ok());
    assert!(encode_band_rgb(&[[0; 3]; 86], &mut out).is_err());
    assert_eq!(max_bands(), 85);
}

#[test]
fn hello_round_trips() {
    let mut out = Vec::new();
    encode_hello_reply(&hello(), &mut out);

    let mut d = Decoder::default();
    d.push(&out);
    assert_eq!(d.next_event(), Some(Event::Hello(hello())));
    assert_eq!(d.next_event(), None);
}

#[test]
fn ready_is_decoded_as_a_bare_byte() {
    let mut d = Decoder::default();
    d.push(&[READY, READY]);
    assert_eq!(d.next_event(), Some(Event::Ready));
    assert_eq!(d.next_event(), Some(Event::Ready));
    assert_eq!(d.next_event(), None);
}

#[test]
fn frames_split_across_reads_reassemble() {
    let mut out = Vec::new();
    encode_hello_reply(&hello(), &mut out);

    let mut d = Decoder::default();
    for byte in &out {
        assert_eq!(d.next_event(), None, "emitted an event before the frame completed");
        d.push(&[*byte]);
    }
    assert_eq!(d.next_event(), Some(Event::Hello(hello())));
}

#[test]
fn corrupted_payload_is_reported_not_accepted() {
    let mut out = Vec::new();
    encode_hello_reply(&hello(), &mut out);
    out[5] ^= 0xFF;

    let mut d = Decoder::default();
    d.push(&out);
    assert_eq!(d.next_event(), Some(Event::BadCrc));
}

#[test]
fn resynchronises_after_leading_garbage() {
    let mut good = Vec::new();
    encode_hello_reply(&hello(), &mut good);

    let mut stream = vec![0x11, 0x22, 0xA5, 0x33, 0x00, 0xFF];
    stream.extend_from_slice(&good);

    let mut d = Decoder::default();
    d.push(&stream);

    let mut events = Vec::new();
    while let Some(e) = d.next_event() {
        events.push(e);
    }
    assert!(
        events.contains(&Event::Hello(hello())),
        "did not recover the good frame, saw {events:?}"
    );
}

#[test]
fn ready_interleaved_with_frames_survives() {
    let mut stream = vec![READY];
    let mut good = Vec::new();
    encode_hello_reply(&hello(), &mut good);
    stream.extend_from_slice(&good);
    stream.push(READY);

    let mut d = Decoder::default();
    d.push(&stream);
    assert_eq!(d.next_event(), Some(Event::Ready));
    assert_eq!(d.next_event(), Some(Event::Hello(hello())));
    assert_eq!(d.next_event(), Some(Event::Ready));
}

#[test]
fn unknown_frame_kinds_are_surfaced() {
    let mut out = Vec::new();
    frame(Kind::Blackout, &[], &mut out);

    let mut d = Decoder::default();
    d.push(&out);
    assert_eq!(d.next_event(), Some(Event::Unknown(Kind::Blackout.to_u8())));
}

#[test]
fn crc8_matches_known_vectors() {
    assert_eq!(crc8(&[]), 0x00);
    assert_eq!(crc8(b"123456789"), 0xF4);
    assert_eq!(crc8(&[0x00]), 0x00);
    assert_eq!(crc8(&[0xFF]), 0xF3);
}

#[test]
fn the_crc_notices_any_single_damaged_byte() {
    let bytes = *b"123456789";
    for i in 0..bytes.len() {
        for flip in 1..=255u8 {
            let mut damaged = bytes;
            damaged[i] ^= flip;
            assert_ne!(crc8(&damaged), crc8(&bytes));
        }
    }
}

#[test]
fn splitting_a_stream_anywhere_gives_the_same_events() {
    let mut stream = vec![0x01, READY, 0xA5];
    let mut good = Vec::new();
    encode_hello_reply(&hello(), &mut good);
    stream.extend_from_slice(&good);
    stream.push(READY);

    let mut whole = Decoder::default();
    whole.push(&stream);
    let mut expected = Vec::new();
    while let Some(e) = whole.next_event() {
        expected.push(e);
    }
    for cut in 0..=stream.len() {
        let mut d = Decoder::default();
        let mut events = Vec::new();
        d.push(&stream[..cut]);
        while let Some(e) = d.next_event() {
            events.push(e);
        }
        d.push(&stream[cut..]);
        while let Some(e) = d.next_event() {
            events.push(e);
        }
        assert_eq!(events, expected, "cut at {cut}");
    }
}

#[test]
fn small_frames_have_exact_bytes() {
    let mut out = vec![9, 9];
    encode_hello(&mut out);
    assert_eq!(out, [0xA5, 0x5A, Kind::Hello.to_u8(), 0, crc8(&[Kind::Hello.to_u8(), 0])]);
    encode_blackout(&mut out);
    assert_eq!(out, [0xA5, 0x5A, Kind::Blackout.to_u8(), 0, crc8(&[Kind::Blackout.to_u8(), 0])]);
    encode_test(TestPattern::Chase, &mut out);
    let body = [Kind::Test.to_u8(), 1, TestPattern::Chase.to_u8()];
    assert_eq!(out, [0xA5, 0x5A, body[0], body[1], body[2], crc8(&body)]);
    for v in 0..=255u8 {
        if let Some(kind) = Kind::from_u8(v) {
            assert_eq!(kind.to_u8(), v);
        }
    }
}

#[test]
fn a_cleared_decoder_forgets_half_a_frame() {
    let mut good = Vec::new();
    encode_hello_reply(&hello(), &mut good);
    let mut d = Decoder::default();
    d.push(&good[..4]);
    d.clear();
    d.push(&[READY]);
    assert_eq!(d.next_event(), Some(Event::Ready));
}

#[test]
fn expands_bands_across_the_configured_strip() {
    let mut link = MockLink::new(150);
    let bands: Vec<[u8; 3]> = (0..48).map(|i| [i * 5, 0, 255 - i * 5]).collect();

    assert!(link.send(&bands).unwrap());
    assert_eq!(link.leds().len(), 150);
    assert_eq!(link.leds()[0], bands[0]);
    assert_eq!(link.leds()[149], bands[47]);
    assert_eq!(link.frames(), 1);
}

#[test]
fn rejects_frames_the_protocol_cannot_carry() {
    let mut link = MockLink::new(150);
    assert!(link.send(&[[0; 3]; 86]).is_err());
}

#[test]
fn reports_wire_size() {
    let mut link = MockLink::new(150);
    link.send(&[[0; 3]; 48]).unwrap();
    assert_eq!(link.last_frame_bytes(), 149);
}

#[test]
fn ansi_preview_covers_the_requested_width() {
    let mut link = MockLink::new(150);
    link.send(&[[255, 0, 0]; 48]).unwrap();

    let line = link.render_ansi(60);
    assert_eq!(line.matches("\x1b[48;2;").count(), 60);
    assert!(line.ends_with("\x1b[0m"));
}

#[test]
fn ansi_preview_survives_width_above_led_count() {
    let mut link = MockLink::new(8);
    link.send(&[[10, 20, 30]; 48]).unwrap();
    assert_eq!(link.render_ansi(100).matches("\x1b[48;2;").count(), 100);
}

#[test]
fn blackout_clears_the_strip() {
    let mut link = MockLink::new(16);
    link.send(&[[255; 3]; 48]).unwrap();
    link.blackout().unwrap();
    assert!(link.leds().iter().all(|&p| p == [0, 0, 0]));
}

#[test]
fn a_preview_averages_the_leds_of_a_column() {
    let mut link = MockLink::new(2);
    link.send(&[[0, 10, 20], [100, 30, 20]]).unwrap();
    assert_eq!(link.render_ansi(1), "\x1b[48;2;50;20;20m \x1b[0m");
    assert_eq!(link.render_ansi(0), "");
    assert_eq!(MockLink::new(0).render_ansi(4), "");
}

#[test]
fn endpoints_map_to_the_first_and_last_band() {
    let bands = [[10, 20, 30], [40, 50, 60], [70, 80, 90]];
    let mut leds = [[0u8; 3]; 150];
    expand_bands_to_leds(&bands, &mut leds);
    assert_eq!(leds[0], bands[0]);
    assert_eq!(leds[149], bands[2]);
}

#[test]
fn interpolation_is_monotonic_between_bands() {
    let bands = [[0, 0, 0], [255, 255, 255]];
    let mut leds = [[0u8; 3]; 150];
    expand_bands_to_leds(&bands, &mut leds);
    assert!(
        leds.windows(2).all(|w| w[1][0] >= w[0][0]),
        "ramp was not monotonic"
    );
}

#[test]
fn the_strip_follows_the_bands() {
    let bands: Vec<[u8; 3]> = (0..48).map(|i| [i * 5, 255 - i * 5, 128]).collect();
    for count in [7usize, 47, 83, 150] {
        let mut leds = vec![[0u8; 3]; count];
        expand_bands_to_leds(&bands, &mut leds);
        assert!(leds.windows(2).all(|w| w[1][0] >= w[0][0] && w[1][1] <= w[0][1]));
        assert!(leds.iter().all(|p| p[2] == 128));
    }
    let mut same = vec![[0u8; 3]; 48];
    expand_bands_to_leds(&bands, &mut same);
    assert_eq!(same, bands);
}

#[test]
fn handles_both_planned_strip_lengths() {
    let bands: Vec<[u8; 3]> = (0..48).map(|i| [i * 5, 255 - i * 5, 128]).collect();
    for count in [150usize, 600] {
        let mut leds = vec![[0u8; 3]; count];
        expand_bands_to_leds(&bands, &mut leds);
        assert_eq!(leds[0], bands[0]);
        assert_eq!(leds[count - 1], bands[47]);
        assert!(leds.iter().all(|p| p.iter().any(|&c| c > 0)));
    }
}

#[test]
fn survives_more_bands_than_leds() {
    let bands: Vec<[u8; 3]> = (0..48).map(|i| [i, i, i]).collect();
    let mut leds = [[0u8; 3]; 8];
    expand_bands_to_leds(&bands, &mut leds);
    assert_eq!(leds[0], [0, 0, 0]);
    assert_eq!(leds[7], [47, 47, 47]);
}

#[test]
fn degenerate_inputs_are_safe() {
    let mut leds = [[9u8; 3]; 4];
    expand_bands_to_leds(&[], &mut leds);
    assert_eq!(leds, [[9; 3]; 4], "empty band list should leave output alone");

    expand_bands_to_leds(&[[1, 2, 3]], &mut leds);
    assert_eq!(leds, [[1, 2, 3]; 4], "single band should fill uniformly");

    let mut one = [[0u8; 3]; 1];
    expand_bands_to_leds(&[[1, 2, 3], [4, 5, 6]], &mut one);
    assert_eq!(one[0], [1, 2, 3]);
}

#[test]
fn interpolation_rounds_to_the_nearest_step() {
    let mut leds = [[0u8; 3]; 4];
    expand_bands_to_leds(&[[0, 0, 255], [255, 10, 0]], &mut leds);
    assert_eq!(leds, [[0, 0, 255], [85, 3, 170], [170, 7, 85], [255, 10, 0]]);
}

#[test]
fn one_invitation_is_spent_once() {
    let mut ready = Readiness::default();
    ready.offered(1_000);
    assert!(ready.take(1_000));
    assert!(!ready.take(1_000), "the same READY was spent twice");
}

#[test]
fn readiness_does_not_bank_up_while_nobody_is_sending() {
    let mut ready = Readiness::default();
    for _ in 0..500 {
        ready.offered(1_000);
    }
    assert!(ready.take(1_000), "the most recent invitation still stands");
    assert!(!ready.take(1_000), "the other 499 were banked");
}

#[test]
fn an_invitation_older_than_the_boards_listening_window_is_not_spent() {
    let now = 10_000_000u64;
    let mut ready = Readiness(Some(now - READY_LIFETIME - 1_000));
    assert!(!ready.take(now), "the board stopped listening 25 ms after it asked");
    assert!(!ready.take(now), "and the expired token was not left behind");
}

#[test]
fn nothing_is_spendable_before_the_board_speaks() {
    assert!(!Readiness::default().take(0));
}

#[test]
fn the_handshake_probes_at_intervals_and_gives_up() {
    let mut h = Handshake::begin(100);
    assert_eq!(h.deadline, 100 + RESET_GRACE);
    assert_eq!(h.step(100), HandshakeStep::Probe);
    assert_ne!(h.step(101), HandshakeStep::Probe);
    assert_eq!(h.step(100 + PROBE_INTERVAL), HandshakeStep::Probe);
    assert_eq!(h.step(100 + RESET_GRACE), HandshakeStep::GiveUp);
}

#[test]
fn a_board_introduces_itself_and_is_waited_for() {
    let mut link = SerialLink::new("COM3", 500_000);
    assert!(!link.received(&[READY], 5));
    let mut reply = Vec::new();
    encode_hello_reply(&hello(), &mut reply);
    assert!(link.received(&reply, 10));
    assert_eq!(*link.hello(), hello());
    assert!(link.check_version().is_ok());
    assert_eq!(link.max_points(), 64);
    assert!(link.describe().contains("COM3"));

    link.forget();
    assert_eq!(link.await_ready(20, 1_000), ReadyStep::Send);
    assert_eq!(link.await_ready(20, 1_000), ReadyStep::Wait);
    link.received(&[READY], 30);
    assert_eq!(link.await_ready(31, 1_000), ReadyStep::Send);
    assert_eq!(link.await_ready(32, 1_000), ReadyStep::Wait);
    assert_eq!(link.await_ready(1_000, 1_000), ReadyStep::Drop);
}

#[test]
fn a_stale_backlog_is_thrown_away() {
    let mut link = SerialLink::new("COM3", 500_000);
    assert!(!link.discards(256));
    assert!(link.discards(257));
    assert!(SerialLink::reads_on(0, 0));
    assert!(SerialLink::reads_on(1, 1));
    assert!(!SerialLink::reads_on(1, 0));
    assert!(!SerialLink::reads_on(16, 1));
}

#[test]
fn another_protocol_version_is_refused() {
    let mut link = SerialLink::new("COM3", 500_000);
    let mut reply = Vec::new();
    let mut other = hello();
    other.protocol_version = 9;
    encode_hello_reply(&other, &mut reply);
    assert!(link.received(&reply, 0));
    assert!(link.check_version().is_err());
    assert!(link.no_reply().contains("COM3"));
}
