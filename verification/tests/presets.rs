use djled::presets::{default_name, load_preset, Choice, Loaded, Presets, Slot, Stored, SLOTS};

const PATH: &str = "presets.json";

fn fresh() -> Presets {
    Presets::load(PATH.to_string(), Loaded::Missing)
}

fn reloaded(stored: Stored) -> Presets {
    Presets::load(PATH.to_string(), Loaded::Understood(stored))
}

#[test]
fn a_fresh_store_is_twelve_empty_slots() {
    let presets = fresh();
    assert_eq!(presets.info().len(), SLOTS);
    assert!(presets.info().iter().all(|p| !p.stored));
    assert_eq!(presets.info()[0].name, "Preset 1");
    assert_eq!(presets.info()[11].name, "Preset 12");
    assert_eq!(presets.active(), 0);
    assert!(presets.active_show().is_none());
    assert!(presets.error().is_none());
}

#[test]
fn slots_and_the_live_one_survive_a_restart() {
    let mut presets = fresh();
    presets.store("threshold -40");
    presets.rename(0, "Warm");
    presets.select(4, 0);
    presets.store("threshold -20");
    let stored = presets.flush(0).expect("there is something to write");

    let reloaded = reloaded(stored);
    assert_eq!(reloaded.active(), 4);
    assert_eq!(reloaded.info()[0].name, "Warm");
    assert!(reloaded.info()[0].stored);
    assert!(reloaded.info()[4].stored);
    assert!(!reloaded.info()[1].stored);
    assert_eq!(reloaded.show(0), Some("threshold -40"));
    assert_eq!(reloaded.active_show(), Some("threshold -20"));
}

#[test]
fn switching_flushes_the_slot_being_left() {
    let mut presets = fresh();
    presets.store("threshold -33");
    let stored = presets.select(7, 0).expect("the slot being left is written");
    assert_eq!(reloaded(stored).show(0), Some("threshold -33"));
}

#[test]
fn an_empty_slot_yields_nothing_to_show() {
    let mut presets = fresh();
    presets.store("threshold -40");
    presets.select(3, 0);
    assert!(presets.active_show().is_none());
    assert_eq!(presets.active(), 3);
    assert_eq!(presets.show(0), Some("threshold -40"));
}

#[test]
fn storing_an_unchanged_show_does_not_dirty_the_store() {
    let mut presets = fresh();
    assert!(presets.store("threshold -40"), "the first show into a slot fills it");
    presets.flush(0);

    assert!(!presets.store("threshold -40"));
    assert!(!presets.dirty(), "an identical show marked the store dirty");

    assert!(!presets.store("threshold -41"));
    assert!(presets.dirty());
}

#[test]
fn a_blank_name_falls_back_to_the_positional_one() {
    let mut presets = fresh();
    presets.rename(2, "  Bass  ");
    assert_eq!(presets.info()[2].name, "Bass");
    presets.rename(2, "   ");
    assert_eq!(presets.info()[2].name, "Preset 3");
}

#[test]
fn out_of_range_slots_are_ignored() {
    let mut presets = fresh();
    presets.rename(99, "nowhere");
    presets.select(99, 0);
    assert_eq!(presets.active(), 0);
    assert!(presets.show(99).is_none());
    assert_eq!(presets.info().len(), SLOTS);
}

#[test]
fn a_corrupt_file_loads_as_empty_slots_with_a_reason() {
    let presets = Presets::load(PATH.to_string(), Loaded::Garbled("expected value".to_string()));
    assert_eq!(presets.info().len(), SLOTS);
    assert!(presets.info().iter().all(|p| !p.stored));
    assert_eq!(presets.error(), Some("presets.json is not readable: expected value"));
}

#[test]
fn a_short_or_partial_file_fills_the_rest_in() {
    let presets = reloaded(Stored {
        version: 1,
        active: 1,
        slots: vec![Slot { name: "Only".to_string(), show: Some("threshold -12".to_string()) }],
    });
    assert_eq!(presets.info().len(), SLOTS);
    assert_eq!(presets.info()[0].name, "Only");
    assert!(presets.info()[0].stored);
    assert!(!presets.info()[1].stored);
    assert_eq!(presets.active(), 1);
    assert_eq!(presets.show(0), Some("threshold -12"));
}

#[test]
fn a_hostile_file_still_comes_up_in_order() {
    let mut slots = Vec::new();
    for i in 0..20 {
        slots.push(Slot { name: if i == 3 { " ".to_string() } else { format!("n{i}") }, show: None });
    }
    let presets = reloaded(Stored { version: 1, active: 77, slots });
    assert_eq!(presets.info().len(), SLOTS);
    assert!(presets.active() < SLOTS);
    assert_eq!(presets.info()[3].name, "Preset 4");
}

#[test]
fn edits_are_written_together_after_a_delay() {
    let mut presets = fresh();
    assert!(presets.tick(0).is_none());
    presets.store("a");
    assert!(presets.tick(1_000).is_some());
    presets.store("b");
    assert!(presets.tick(1_749).is_none());
    assert!(presets.tick(1_750).is_some());
    assert!(presets.tick(9_999).is_none());
}

#[test]
fn a_failed_write_is_reported_until_one_works() {
    let mut presets = fresh();
    presets.written(Err("disk full".to_string()));
    assert!(presets.error().unwrap().contains("disk full"));
    presets.written(Ok(()));
    assert!(presets.error().is_none());
}

#[test]
fn a_key_does_not_blank_the_wall_and_the_editor_may() {
    let mut presets = fresh();
    presets.store("live");
    let (choice, write) = load_preset(5, false, &mut presets, 0);
    assert!(matches!(choice, Choice::Nothing));
    assert!(write.is_none());
    assert_eq!(presets.active(), 0);

    let (choice, write) = load_preset(5, true, &mut presets, 0);
    assert!(matches!(choice, Choice::Blank));
    assert!(write.is_some());
    assert_eq!(presets.active(), 5);

    let (choice, _) = load_preset(0, false, &mut presets, 0);
    assert!(matches!(choice, Choice::Show(s) if s == "live"));
    assert!(matches!(load_preset(12, true, &mut presets, 0).0, Choice::Nothing));
}

#[test]
fn slots_are_named_from_one() {
    assert_eq!(default_name(0), "Preset 1");
    assert_eq!(default_name(11), "Preset 12");
    assert_eq!(fresh().path(), PATH);
}
