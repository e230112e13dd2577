use djled::midi::Port;
use djled::show::{Layer, ShowConfig, DEFAULT_HOP, MAX_HOP, MIN_HOP};
use djled::source::{Source, SourceKind};
use djled::stack::{frame_points, points, Change, Device, Grid, LiveStack, Rebuild};

fn layer(id: &str, source: Source) -> Layer {
    let mut layer = Layer::default();
    layer.id = id.to_string();
    layer.name = id.to_string();
    layer.source = source;
    layer
}

fn named(id: &str) -> Source {
    let mut source = Source::default_output();
    source.id = Some(id.to_string());
    source
}

fn missing() -> Source {
    named("wasapi:no-such-device")
}

fn midi(id: &str, channel: usize) -> Source {
    let mut source = Source::default_midi();
    source.id = Some(id.to_string());
    source.channel = Some(channel);
    source
}

fn ports() -> Vec<Port> {
    vec![Port { id: "x".to_string(), name: Some("Keys".to_string()) }]
}

fn open(source: &Source, opened: &mut usize) -> Result<Device, String> {
    *opened += 1;
    if source.id.as_deref() == Some("wasapi:no-such-device") {
        return Err("no such device".to_string());
    }
    let midi = source.kind == SourceKind::Midi;
    Ok(Device {
        kind: source.kind,
        name: if midi { "Keys".to_string() } else { "Speakers".to_string() },
        channels: if midi { 16 } else { 2 },
        channel: source.channel,
        sample_rate: if midi { 0 } else { 48_000 },
    })
}

fn show(layers: Vec<Layer>) -> ShowConfig {
    ShowConfig::normalise(layers)
}

fn rebuild(stack: LiveStack, show: ShowConfig, opened: &mut usize) -> LiveStack {
    build(stack.rebuild(show, ports()), opened)
}

fn build(mut work: Rebuild, opened: &mut usize) -> LiveStack {
    while let Some(source) = work.next() {
        let outcome = open(&source, opened);
        work.opened(outcome);
    }
    work.finish()
}

fn edit(stack: LiveStack, show: ShowConfig, opened: &mut usize) -> (LiveStack, bool) {
    let mut work = stack.edit(show, ports());
    while let Some(source) = work.next() {
        let outcome = open(&source, opened);
        work.opened(outcome);
    }
    work.finish()
}

fn start(layers: Vec<Layer>, opened: &mut usize) -> LiveStack {
    build(LiveStack::open(show(layers), ports()), opened)
}

fn grids(stack: &LiveStack, n: usize) -> Vec<Grid> {
    (0..stack.len()).map(|_| Grid { points: n, notes_out_of_range: None }).collect()
}

fn errors(stack: &LiveStack) -> Vec<bool> {
    stack.status(&grids(stack, 48)).iter().map(|s| s.error.is_some()).collect()
}

#[test]
fn layers_on_one_device_share_one_feed() {
    let mut opened = 0;
    let layers = (0..4).map(|i| layer(&format!("l{i}"), Source::default_output())).collect();
    let stack = start(layers, &mut opened);

    assert_eq!(stack.len(), 4);
    assert_eq!(stack.feed_count(), 1, "one endpoint was opened more than once");
    assert_eq!(opened, 1);
    assert!(errors(&stack).iter().all(|e| !e));
}

#[test]
fn midi_channels_share_one_port() {
    let mut opened = 0;
    let stack =
        start(vec![layer("a", midi("midi:x", 0)), layer("b", midi("midi:x", 9))], &mut opened);
    assert_eq!(stack.feed_count(), 1, "one MIDI port was opened twice");
    assert!(errors(&stack).iter().all(|e| !e), "a channel filter was treated as a second port");
}

#[test]
fn a_layer_that_cannot_open_leaves_the_rest_running() {
    let mut opened = 0;
    let stack = start(
        vec![
            layer("good", Source::default_output()),
            layer("bad", missing()),
            layer("also-good", Source::default_output()),
        ],
        &mut opened,
    );

    assert_eq!(stack.len(), 3, "the failing layer lost its place in the stack");
    assert_eq!(stack.feed_count(), 1);

    let status = stack.status(&grids(&stack, 48));
    assert!(status[0].error.is_none());
    assert!(status[1].error.is_some(), "a device that does not exist opened anyway");
    assert!(status[2].error.is_none(), "one dead layer took a working one with it");
    assert!(stack.has_failed());
    assert_eq!(stack.describe(1), "no such device");
    assert_eq!(stack.describe(7), "");
    assert_eq!(stack.analysed_as(1), (SourceKind::Loopback, 48_000));
}

#[test]
fn a_reorder_keeps_the_devices_open() {
    let mut opened = 0;
    let a = layer("a", Source::default_output());
    let b = layer("b", Source::default_output());
    let stack = start(vec![a.clone(), b.clone()], &mut opened);
    assert_eq!(stack.feed_count(), 1);

    let next = show(vec![b, a]);
    assert!(!stack.same_stack(&next), "a reorder must rebuild the renderer, which is built on the order");
    let stack = rebuild(stack, next, &mut opened);
    assert_eq!(stack.feed_count(), 1, "a reorder reopened a device");
    assert_eq!(opened, 1);
    assert_eq!(stack.feed_origin(0), Some(0));
    assert_eq!(stack.analyser_origin(0), Some(1), "the analyser moved with its layer");
    assert_eq!(stack.status(&grids(&stack, 48))[0].id, "b");
    assert!(errors(&stack).iter().all(|e| !e));
}

#[test]
fn a_failed_layer_is_not_retried_on_every_edit() {
    let mut opened = 0;
    let layers = vec![layer("a", Source::default_output()), layer("bad", missing())];
    let stack = start(layers.clone(), &mut opened);
    assert_eq!(opened, 2);

    let mut edited = layers.clone();
    edited[1].sample_length = 512;
    let next = show(edited);
    assert!(stack.same_stack(&next));
    let (stack, moved) = edit(stack, next, &mut opened);
    assert!(!moved, "a cosmetic edit on a dead layer reopened its device");
    assert_eq!(opened, 2);
    assert!(errors(&stack)[1]);

    // A rescan is where the retry belongs, and it does happen there.
    assert!(stack.has_failed());
    let stack = rebuild(stack, show(layers), &mut opened);
    assert_eq!(opened, 3);
    assert_eq!(stack.feed_count(), 1);
}

#[test]
fn dropping_the_last_layer_on_a_device_closes_it() {
    let mut opened = 0;
    let stack =
        start(vec![layer("a", Source::default_output()), layer("b", missing())], &mut opened);
    assert_eq!(stack.feed_count(), 1);

    let stack = rebuild(stack, show(vec![layer("b", missing())]), &mut opened);
    assert_eq!(stack.len(), 1);
    assert_eq!(stack.feed_count(), 0, "the device outlived the last layer using it");
}

#[test]
fn a_cosmetic_edit_is_applied_in_place() {
    let mut opened = 0;
    let base = layer("a", Source::default_output());
    let stack = start(vec![base.clone()], &mut opened);

    let mut edited = base;
    edited.enabled = false;
    let (stack, moved) = edit(stack, show(vec![edited]), &mut opened);
    assert!(!moved, "a colour edit reshaped the stack");
    assert_eq!(stack.feed_count(), 1);
    assert_eq!(opened, 1);
    assert_eq!(stack.advances(0), None, "the edit did not reach the layer");
}

#[test]
fn moving_a_layer_to_another_device_rebinds_only_that_layer() {
    let mut opened = 0;
    let stack = start(
        vec![layer("keep", Source::default_output()), layer("move", Source::default_output())],
        &mut opened,
    );
    assert_eq!(stack.feed_count(), 1);

    let next = show(vec![layer("keep", Source::default_output()), layer("move", missing())]);
    let (stack, _) = edit(stack, next, &mut opened);
    let status = stack.status(&grids(&stack, 48));
    assert!(status[0].error.is_none(), "rebinding one layer disturbed another");
    assert!(status[1].error.is_some());
    assert_eq!(stack.feed_of(1), Some(0), "the layer keeps what it had");
}

#[test]
fn moving_the_last_layer_off_a_device_closes_it() {
    let mut opened = 0;
    let stack = start(vec![layer("a", Source::default_output())], &mut opened);
    let next = show(vec![layer("a", midi("midi:x", 2))]);
    let (stack, moved) = edit(stack, next, &mut opened);
    assert!(moved);
    assert_eq!(opened, 2);
    assert_eq!(stack.feed_count(), 1);
    assert_eq!(stack.feed_origin(0), None);
    assert!(stack.describe(0).contains("Keys"));
}

#[test]
fn a_muted_layer_is_not_analysed() {
    let mut opened = 0;
    let mut off = layer("off", Source::default_output());
    off.enabled = false;
    let stack = start(vec![layer("on", Source::default_output()), off], &mut opened);
    assert_eq!(stack.len(), 2, "a muted layer was dropped rather than silenced");
    assert_eq!(stack.advances(0), Some(0));
    assert_eq!(stack.advances(1), None);
}

#[test]
fn points_are_the_widest_grid_in_the_stack() {
    let wide = [
        Grid { points: 48, notes_out_of_range: None },
        Grid { points: 88, notes_out_of_range: Some(1) },
    ];
    assert_eq!(points(&wide), 88);
    assert_eq!(points(&[]), 0);
    assert_eq!(frame_points(88, 64), 64);
    assert_eq!(frame_points(48, 64), 48);
    assert_eq!(frame_points(0, 64), 1);
}

#[test]
fn a_fault_is_reported_once_on_the_first_layer_that_hears_it() {
    let mut opened = 0;
    let mut stack = start(
        vec![
            layer("a", midi("midi:x", 1)),
            layer("b", Source::default_output()),
            layer("c", Source::default_output()),
        ],
        &mut opened,
    );
    assert_eq!(stack.feed_count(), 2);
    let list = stack.take_faults(&[None, Some("unplugged".to_string())]);
    assert_eq!(list, [("b".to_string(), "unplugged".to_string())]);
    assert_eq!(errors(&stack), [false, true, false]);
    assert!(stack.take_faults(&[None, None]).is_empty());
    assert_eq!(errors(&stack), [false, true, false]);
}

#[test]
fn a_stack_keeps_its_order() {
    let cfg = show(vec![
        layer("a", Source::default_output()),
        layer("b", Source::default_output()),
        layer("c", Source::default_output()),
    ]);
    let ids: Vec<&str> = cfg.layers().iter().map(|l| l.id.as_str()).collect();
    assert_eq!(ids, ["a", "b", "c"]);
    assert_eq!(cfg.base().id, "a");
    assert!(cfg.layer("c").is_some());
    assert!(cfg.layer("nope").is_none());
}

#[test]
fn an_empty_stack_becomes_one_default_layer() {
    let cfg = show(Vec::new());
    assert_eq!(cfg.layers().len(), 1);
    assert_eq!(cfg.base().sample_length, DEFAULT_HOP);
}

#[test]
fn blank_ids_and_names_are_filled_in() {
    let mut kept = Layer::default();
    kept.id = "kept".to_string();
    let cfg = show(vec![Layer::default(), Layer::default(), kept]);
    let ids: Vec<&str> = cfg.layers().iter().map(|l| l.id.as_str()).collect();
    assert_eq!(ids, ["layer-0", "layer-1", "kept"]);
    assert_eq!(cfg.layers()[0].name, "Layer 1");
    assert_eq!(cfg.layers()[2].name, "Layer 3");
}

#[test]
fn hostile_hops_are_clamped_not_trusted() {
    let mut hostile = Layer::default();
    hostile.sample_length = 1;
    assert_eq!(hostile.hop(), MIN_HOP);
    hostile.sample_length = 999_999_999;
    assert_eq!(hostile.hop(), MAX_HOP);
    hostile.sample_length = 512;
    assert_eq!(hostile.hop(), 512);
}

#[test]
fn invisible_layers_do_not_contribute() {
    let mut muted = layer("muted", Source::default_output());
    muted.enabled = false;
    let mut clear = layer("clear", Source::default_output());
    clear.opaque = false;
    let cfg = show(vec![layer("on", Source::default_output()), muted, clear]);
    let visible: Vec<&str> =
        cfg.visible().iter().map(|&i| cfg.layers()[i].id.as_str()).collect();
    assert_eq!(visible, ["on"]);
}

#[test]
fn midi_layers_share_a_port_across_channels() {
    let a = layer("a", midi("midi:x", 0));
    let b = layer("b", midi("midi:x", 9));
    assert_eq!(a.feed_key(), b.feed_key());

    let mut left = named("wasapi:x");
    left.kind = SourceKind::Input;
    let mut right = left.clone();
    left.channel = Some(0);
    right.channel = Some(1);
    assert_ne!(layer("a", left).feed_key(), layer("b", right).feed_key());
}

#[test]
fn a_show_of_the_same_layers_is_edited_and_any_other_rebuilt() {
    let mut opened = 0;
    let a = || layer("a", Source::default_output());
    let b = || layer("b", Source::default_input());
    let stack = start(vec![a(), b()], &mut opened);
    let Change::Edit(edit) = stack.apply(show(vec![a(), b()]), ports()) else {
        panic!("the same layers were rebuilt");
    };
    let mut edit = edit;
    assert!(edit.next().is_none());
    let (stack, moved) = edit.finish();
    assert!(!moved);
    let Change::Rebuild(work) = stack.apply(show(vec![b(), a()]), ports()) else {
        panic!("a reorder was edited in place");
    };
    let stack = build(work, &mut opened);
    assert_eq!(opened, 2, "a reorder opened something");
    let Change::Rebuild(_) = stack.apply(show(vec![b()]), ports()) else {
        panic!("a removal was edited in place");
    };
}

#[test]
fn only_a_stack_with_a_dark_layer_is_tried_again() {
    let mut opened = 0;
    let lit = || show(vec![layer("a", Source::default_output())]);
    let stack = start(vec![layer("a", Source::default_output())], &mut opened);
    let Err(stack) = stack.retry_failed(lit(), ports()) else {
        panic!("there was nothing to retry");
    };
    assert_eq!(stack.feed_count(), 1);
    let stack = start(vec![layer("a", missing())], &mut opened);
    let Ok(work) = stack.retry_failed(lit(), ports()) else {
        panic!("a dark layer was not retried");
    };
    assert!(!build(work, &mut opened).has_failed());
}

#[test]
fn an_open_port_is_not_opened_again_under_another_name() {
    let mut opened = 0;
    let first = || layer("a", Source::default_midi());
    let stack = start(vec![first()], &mut opened);
    let (stack, moved) = edit(stack, show(vec![layer("a", midi("midi:x", 3))]), &mut opened);
    assert_eq!(opened, 1, "the port was opened twice");
    assert!(moved);
    assert_eq!(stack.feed_count(), 1);
    assert!(errors(&stack).iter().all(|e| !e));
}

#[test]
fn a_port_named_in_two_ways_is_opened_once() {
    let mut opened = 0;
    let stack = start(
        vec![layer("a", Source::default_midi()), layer("b", midi("midi:x", 3))],
        &mut opened,
    );
    assert_eq!(opened, 1, "the port was opened twice");
    assert_eq!(stack.feed_count(), 1);
    assert_eq!(stack.feed_of(0), Some(0));
    assert_eq!(stack.feed_of(1), Some(0));
    assert!(errors(&stack).iter().all(|e| !e));

    // A third name for it does not take it from the first two either.
    let mut listed = vec![layer("c", midi("midi:Keys", 1))];
    listed.extend([layer("b", midi("midi:x", 3)), layer("a", Source::default_midi())]);
    let stack = rebuild(stack, show(listed), &mut opened);
    assert_eq!(opened, 1, "a third name opened the port again");
    assert_eq!(stack.feed_count(), 1);
    assert_eq!(stack.analyser_origin(0), None);
    assert_eq!(stack.analyser_origin(1), Some(1));
    assert_eq!(stack.analyser_origin(2), Some(0));
}

#[test]
fn a_reorder_after_an_adoption_opens_nothing() {
    let mut opened = 0;
    let by_default = |id: &str| layer(id, Source::default_midi());
    let by_id = || layer("a", midi("midi:x", 3));
    let stack = start(vec![by_default("a"), by_default("b")], &mut opened);
    let (stack, moved) = edit(stack, show(vec![by_id(), by_default("b")]), &mut opened);
    assert!(moved);
    assert_eq!(stack.feed_count(), 1);

    let stack = rebuild(stack, show(vec![by_default("b"), by_id()]), &mut opened);
    assert_eq!(opened, 1, "a reorder opened a port that was open");
    assert_eq!(stack.feed_count(), 1);
    assert_eq!(stack.feed_origin(0), Some(0));
    assert_eq!(stack.analyser_origin(0), Some(1));
    assert_eq!(stack.analyser_origin(1), Some(0));
    assert!(errors(&stack).iter().all(|e| !e));
}

#[test]
fn an_analyser_does_not_follow_its_layer_to_another_device() {
    let mut opened = 0;
    let a = || layer("a", Source::default_output());
    let stack = start(vec![a(), layer("b", Source::default_output())], &mut opened);
    let (stack, _) = edit(stack, show(vec![a(), layer("b", missing())]), &mut opened);
    assert_eq!(stack.feed_of(1), Some(0));
    assert_eq!(stack.analyser_origin(1), Some(1), "a failed move restarted the analyser");

    // The device has been plugged in by the time the stack is built again.
    let mut work = stack.rebuild(show(vec![layer("b", missing()), a()]), ports());
    while let Some(source) = work.next() {
        assert_eq!(source, missing());
        work.opened(open(&Source::default_output(), &mut opened));
    }
    let stack = work.finish();
    assert_eq!(stack.feed_count(), 2);
    assert_eq!(stack.feed_origin(0), None);
    assert_eq!(stack.analyser_origin(0), None, "the analyser went on with another device");
    assert_eq!(stack.analyser_origin(1), Some(0));
}

#[test]
fn a_reorder_keeps_every_analyser() {
    let mut opened = 0;
    let a = || layer("a", Source::default_output());
    let b = || layer("b", Source::default_input());
    let c = || layer("c", midi("midi:x", 0));
    let stack = start(vec![a(), b(), c()], &mut opened);
    assert_eq!(opened, 3);
    let stack = rebuild(stack, show(vec![c(), a()]), &mut opened);
    assert_eq!(opened, 3);
    assert_eq!(stack.feed_count(), 2);
    assert_eq!(stack.analyser_origin(0), Some(2));
    assert_eq!(stack.analyser_origin(1), Some(0));
}
