use djled::color::intensity::CurveKind;
use djled::color::strip::{
    dense, led_frequency, level_at, nearest_index, owner, peak_between, sector_order,
    source_position, spanning, Level, Spot, NO_CHANNEL,
};
use djled::color::surface::{
    authored, bracket, crossing, parse_color, playing_order, width, Crossing, Pigment,
};
use djled::color::timeline::{animates, for_layer, start, Field};

#[test]
fn parses_hex_with_and_without_hash() {
    let expected = Pigment { r: 0xff, g: 0x20, b: 0, alpha: 255 };
    for s in ["#ff2000", "ff2000"] {
        assert_eq!(parse_color(s).unwrap(), expected, "{s}");
    }
    assert!(parse_color("#ff20").is_err());
    assert!(parse_color("#gggggg").is_err());
}

#[test]
fn parses_the_opacity_byte() {
    let opaque = parse_color("#ff2000").unwrap();
    assert_eq!(parse_color("#ff2000ff").unwrap(), opaque);

    assert_eq!(parse_color("#ff200000").unwrap().alpha, 0);
    assert_eq!(parse_color("ff200080").unwrap().alpha, 128);

    // The colour half must not depend on the opacity half.
    let faded = parse_color("#ff200040").unwrap();
    assert_eq!((faded.r, faded.g, faded.b), (opaque.r, opaque.g, opaque.b));

    assert!(parse_color("#ff2000f").is_err());
    assert!(parse_color("#ff2000gg").is_err());
}

#[test]
fn only_digits_behind_one_hash_are_a_colour() {
    assert_eq!(parse_color("  #FF2000 ").unwrap(), parse_color("ff2000").unwrap());
    for s in ["+12345", "#+12345", "-12345", "#+1234567", "##f2000"] {
        assert_eq!(parse_color(s).unwrap_err(), format!("colour '{s}' is not valid hex"));
    }
    assert!(parse_color("##ff2000").is_err());
    assert!(parse_color("\u{e9}\u{e9}\u{e9}").is_err());
    assert_eq!(parse_color("nope12").unwrap_err(), "colour 'nope12' is not valid hex");
    assert_eq!(
        parse_color("nope").unwrap_err(),
        "colour 'nope' must be 6 hex digits, or 8 with an opacity byte, optionally prefixed with '#'"
    );
}

#[test]
fn rejects_malformed_colours() {
    assert!(authored(&["nope".to_string()]).is_err());
}

#[test]
fn one_bad_colour_rejects_them_all() {
    let good = ["#000000".to_string(), "#ffffff80".to_string()];
    assert_eq!(authored(&good).unwrap().len(), 2);
    let bad = ["#000000".to_string(), "#zzzzzz".to_string(), "#1".to_string()];
    assert_eq!(authored(&bad).unwrap_err(), "colour '#zzzzzz' is not valid hex");
    assert!(authored(&[]).unwrap().is_empty());
}

#[test]
fn keys_are_played_in_order_and_wrap() {
    assert_eq!(playing_order(&[50, 0, 50, 10]), [1, 3, 0, 2]);
    assert_eq!(bracket(&[10, 50], 5), (1, 0));
    assert_eq!(bracket(&[10, 50], 10), (0, 1));
    assert_eq!(bracket(&[10, 50], 49), (0, 1));
    assert_eq!(bracket(&[10, 50], 50), (1, 0));
    assert_eq!(bracket(&[0], 7), (0, 0));
    assert_eq!(width(&[2, 5, 3]), 5);
    assert_eq!(width(&[]), 0);
}

#[test]
fn a_point_missing_from_one_key_fades() {
    assert_eq!(crossing(true, true), Crossing::Mixed);
    assert_eq!(crossing(true, false), Crossing::FadingOut);
    assert_eq!(crossing(false, true), Crossing::FadingIn);
    assert_eq!(crossing(false, false), Crossing::Absent);
}

#[test]
fn a_timeline_with_fewer_than_two_keys_does_not_animate() {
    assert!(!animates(true, 0));
    assert!(!animates(true, 1));
    assert!(animates(true, 2));
}

#[test]
fn switching_it_off_leaves_the_keys_alone() {
    assert!(!animates(false, 2));
    assert_eq!(start(&[Some(0), Some(50)]), Some(0));
    assert_eq!(for_layer(false, &[Some(0), Some(50)]), Field::Held(0));
}

#[test]
fn the_loop_starts_at_the_earliest_key() {
    assert_eq!(start(&[Some(75), Some(10)]), Some(1));
    assert_eq!(start(&[None, Some(10), Some(10)]), Some(1));
    assert_eq!(start(&[None]), None);
}

#[test]
fn the_keys_win_over_the_layers_own_field() {
    assert_eq!(for_layer(true, &[Some(0), Some(50)]), Field::Animated);
    assert_eq!(for_layer(true, &[Some(9)]), Field::Held(0));
    assert_eq!(for_layer(true, &[]), Field::Still);
    assert_eq!(for_layer(true, &[None, None]), Field::Still);
}

fn at(place: Spot) -> (usize, f64) {
    match place {
        Spot::Between { from, parts, whole } => (from, parts as f64 / whole as f64),
        other => panic!("{other:?}"),
    }
}

/// A strip with a hundred and fifty LEDs, asked about one of them.
fn led(leds: &[u64], n: u32) -> Spot {
    led_frequency(leds, n, 149, 149)
}

#[test]
fn sectors_spread_evenly() {
    let k = [0, 50, 149];
    assert_eq!(at(led(&k, 0)), (0, 0.0));
    assert_eq!(at(led(&k, 25)), (0, 0.5));
    assert_eq!(at(led(&k, 50)), (0, 1.0));
    assert_eq!(at(led(&k, 149)), (1, 1.0));
}

#[test]
fn leds_outside_every_sector_are_dark() {
    let k = [20, 80];
    assert_eq!(led(&k, 0), Spot::Outside);
    assert_eq!(led(&k, 19), Spot::Outside);
    assert_ne!(led(&k, 20), Spot::Outside);
    assert_ne!(led(&k, 80), Spot::Outside);
    assert_eq!(led(&k, 81), Spot::Outside);
    assert_eq!(led(&[], 0), Spot::Outside);
    assert_eq!(led(&[5], 5), Spot::On);
    assert_eq!(at(led(&[5, 5, 9], 5)), (0, 0.0));
}

#[test]
fn mirror_puts_the_low_end_at_both_tips() {
    assert_eq!(source_position(0, 2, true, false), 0);
    assert_eq!(source_position(2, 2, true, false), 0);
    assert_eq!(source_position(1, 2, true, false), 2);
}

#[test]
fn mirror_with_reverse_puts_the_low_end_in_the_middle() {
    assert_eq!(source_position(0, 2, true, true), 2);
    assert_eq!(source_position(2, 2, true, true), 2);
    assert_eq!(source_position(1, 2, true, true), 0);
}

#[test]
fn mirror_is_symmetric_about_the_centre() {
    for i in 0..=100 {
        let a = source_position(i, 100, true, false);
        let b = source_position(100 - i, 100, true, false);
        assert_eq!(a, b, "asymmetric at {i}");
    }
}

#[test]
fn reverse_alone_flips_end_to_end() {
    assert_eq!(source_position(0, 1, false, true), 1);
    assert_eq!(source_position(1, 1, false, true), 0);
    assert_eq!(source_position(-3, 10, false, false), 0);
    assert_eq!(source_position(13, 10, false, false), 10);
}

#[test]
fn a_degenerate_keyframe_list_spans_the_strip() {
    assert_eq!(sector_order(&[]), None);
    assert_eq!(sector_order(&[7]), None);
    assert_eq!(sector_order(&[9, 3, 9, 1]), Some(vec![3, 1, 0, 2]));
    assert_eq!(spanning(150), (0, 149));
    assert_eq!(spanning(0), (0, 0));
}

#[test]
fn level_lookup_finds_the_two_centres_around() {
    let centers = [100, 1000, 10_000];
    assert_eq!(level_at(&centers, 3, 100), Level::At(0));
    assert_eq!(level_at(&centers, 3, 1000), Level::Between(1));
    assert_eq!(level_at(&centers, 3, 316), Level::Between(1));
    assert_eq!(level_at(&centers, 3, 1001), Level::Between(2));

    // Outside the measured range the ends hold rather than extrapolate.
    assert_eq!(level_at(&centers, 3, 20), Level::At(0));
    assert_eq!(level_at(&centers, 3, 20_000), Level::At(2));
    assert_eq!(level_at(&centers, 0, 20), Level::Nothing);
}

#[test]
fn the_peak_lookup_takes_the_loudest_in_the_span_and_nothing_outside_it() {
    let centers = [100, 200, 400, 800];
    let levels = [2, 9, 3, 10];
    assert_eq!(peak_between(&levels, &centers, 150, 500), Some(1));
    assert_eq!(peak_between(&levels, &centers, 90, 810), Some(3));

    // The bounds are inclusive, so a centre sitting exactly on an edge is in.
    assert_eq!(peak_between(&levels, &centers, 200, 200), Some(1));

    assert_eq!(peak_between(&levels, &centers, 210, 390), None);
    assert_eq!(peak_between(&[], &[], 0, 1), None);
    assert_eq!(peak_between(&levels, &centers, 500, 150), Some(1));
    assert_eq!(peak_between(&[5, 5], &[1, 2], 1, 2), Some(1));
}

#[test]
fn a_point_belongs_to_the_note_it_shows() {
    assert_eq!(nearest_index(&[5, 2, 2, 9]), Some(1));
    assert_eq!(nearest_index(&[]), None);
    assert_eq!(owner(&[7, 8], Some(1), Some(0)), 8);
    assert_eq!(owner(&[7, 8], None, Some(0)), 7);
    assert_eq!(owner(&[7, 8], Some(2), Some(0)), NO_CHANNEL);
    assert_eq!(owner(&[], None, None), NO_CHANNEL);
    assert!(dense(88, 64) && !dense(64, 64));
}

#[test]
fn curves_are_linear_by_default() {
    assert_eq!(CurveKind::default(), CurveKind::Linear);
}

#[test]
fn a_coarse_frame_keeps_every_peak() {
    let centers: Vec<u64> = (0..88).map(|i| 1000 * i).collect();
    let edges: Vec<u64> = (0..=64).map(|i| 87_000 * i / 64).collect();
    for struck in 0..88usize {
        let mut levels = vec![0u64; 88];
        levels[struck] = 127;
        let kept = edges
            .windows(2)
            .filter_map(|e| peak_between(&levels, &centers, e[0], e[1]))
            .any(|p| levels[p] == 127);
        assert!(kept, "note {struck} fell between two points");
        let reversed = edges
            .windows(2)
            .rev()
            .filter_map(|e| peak_between(&levels, &centers, e[1], e[0]))
            .any(|p| levels[p] == 127);
        assert!(reversed, "note {struck} fell between two points of a reversed strip");
    }
}
