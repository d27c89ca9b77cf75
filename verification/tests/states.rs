use restreamer::addresses::{InputSrcUrl, MixinSrcUrl, OutputDstUrl};
use restreamer::ids::{InputId, MixinId, OutputId, RestreamId};
use restreamer::measures::{Delay, Status, Volume};
use restreamer::names::{InputKey, Label, RestreamKey};
use restreamer::spec::v1;
use restreamer::spec::Spec;
use restreamer::srs::ClientId;
use restreamer::state::{Input, InputSrc, Mixin, Output, RemoteInputSrc, Restream, State};

fn volume(percents: u16) -> Volume {
    Volume::new(percents).unwrap()
}

fn input(key: &str, srcs: Vec<v1::InputSrc>, enabled: bool) -> v1::Input {
    v1::Input { key: InputKey::new(key).unwrap(), srcs, enabled }
}

fn remote(url: &str) -> v1::InputSrc {
    v1::InputSrc::RemoteUrl(InputSrcUrl::from_input_value(url).unwrap())
}

fn local(key: &str, srcs: Vec<v1::InputSrc>) -> v1::InputSrc {
    v1::InputSrc::LocalInput(input(key, srcs, true))
}

fn src(text: &str) -> MixinSrcUrl {
    MixinSrcUrl::from_input_value(text).unwrap()
}

fn dst(text: &str) -> OutputDstUrl {
    OutputDstUrl::from_input_value(text).unwrap()
}

fn mixin(text: &str, percents: u16) -> v1::Mixin {
    v1::Mixin {
        src: src(text),
        volume: volume(percents),
        delay: Delay::from_millis(500).unwrap(),
    }
}

fn output(text: &str, mixins: Vec<v1::Mixin>) -> v1::Output {
    v1::Output {
        dst: dst(text),
        label: Label::new("Out"),
        volume: volume(70),
        mixins,
        enabled: true,
    }
}

fn restream(key: &str, outputs: Vec<v1::Output>) -> v1::Restream {
    v1::Restream {
        key: RestreamKey::new(key).unwrap(),
        label: Label::new("Re"),
        input: input("in", vec![remote("rtmp://host/in"), local("backup", vec![])], true),
        outputs,
    }
}

fn spec(restreams: Vec<v1::Restream>) -> Spec {
    Spec::from(v1::Spec { restreams })
}

fn sample() -> Spec {
    spec(vec![
        restream("a", vec![]),
        restream(
            "b",
            vec![
                output("rtmp://host/x", vec![mixin("ts://host/1", 10), mixin("ts://host/2", 20)]),
                output("rtmp://host/y", vec![]),
            ],
        ),
        restream("c", vec![output("rtmp://host/x", vec![])]),
    ])
}

fn state(spec: &Spec) -> State {
    let mut state = State::default();
    state.apply(spec.clone(), true);
    state
}

fn keys(state: &State) -> Vec<&str> {
    state.restreams.iter().map(|r| r.key.as_str()).collect()
}

const NOWHERE: RestreamId = RestreamId(0);

#[test]
fn state_is_empty_by_default() {
    let state = State::default();
    assert_eq!(state.password_hash, None);
    assert!(state.restreams.is_empty());
    assert_eq!(state.export(), spec(vec![]));
}

#[test]
fn replaced_state_exports_its_spec() {
    let mut state = state(&spec(vec![restream("b", vec![output("rtmp://host/z", vec![])])]));
    state.password_hash = Some("hash".to_owned());
    state.apply(sample(), true);
    assert_eq!(state.export(), sample());
    assert_eq!(state.password_hash.as_deref(), Some("hash"));
}

#[test]
fn newly_made_items_are_offline() {
    let state = state(&sample());
    let restream = &state.restreams[1];
    assert_eq!(restream.id.0 >> 76 & 0xf, 4);
    assert_eq!(restream.input.status, Status::Offline);
    assert_eq!(restream.input.srs_publisher_id, None);
    assert!(restream.input.srs_player_ids.is_empty());
    assert_eq!(restream.outputs[0].status, Status::Offline);
    assert_eq!(restream.outputs[0].mixins[0].status, Status::Offline);
}

#[test]
fn state_is_kept_by_its_own_export() {
    let mut state = state(&sample());
    state.restreams[1].input.status = Status::Online;
    state.restreams[1].input.srs_publisher_id = Some(ClientId(7));
    state.restreams[1].input.srs_player_ids = vec![ClientId(8)];
    state.restreams[1].outputs[0].status = Status::Initializing;
    state.restreams[1].outputs[0].mixins[1].status = Status::Online;
    for replace in [true, false] {
        let before = state.clone();
        state.apply(before.export(), replace);
        assert_eq!(state, before);
    }
}

#[test]
fn replacing_reuses_what_there_is() {
    let mut state = state(&sample());
    let before = state.clone();
    let next = spec(vec![
        restream("c", vec![output("rtmp://host/new", vec![]), output("rtmp://host/x", vec![])]),
        restream("d", vec![]),
        restream("a", vec![]),
    ]);
    state.apply(next.clone(), true);
    assert_eq!(keys(&state), ["c", "d", "a"]);
    assert_eq!(state.restreams[0].id, before.restreams[2].id);
    assert_eq!(state.restreams[0].outputs[1].id, before.restreams[2].outputs[0].id);
    assert_eq!(state.restreams[2], before.restreams[0]);
    assert_eq!(state.export(), next);

    let once = state.clone();
    state.apply(next, true);
    assert_eq!(state, once);
}

#[test]
fn merging_keeps_what_is_not_specified() {
    let mut state = state(&sample());
    let before = state.clone();
    let more = spec(vec![
        restream("d", vec![]),
        restream(
            "b",
            vec![
                output("rtmp://host/z", vec![]),
                output("rtmp://host/x", vec![mixin("ts://host/3", 30), mixin("ts://host/2", 90)]),
            ],
        ),
    ]);
    state.apply(more.clone(), false);
    assert_eq!(keys(&state), ["a", "b", "c", "d"]);
    assert_eq!(state.restreams[0], before.restreams[0]);
    assert_eq!(state.restreams[2], before.restreams[2]);

    let (now, was) = (&state.restreams[1], &before.restreams[1]);
    assert_eq!(now.id, was.id);
    let dsts: Vec<&str> = now.outputs.iter().map(|o| o.dst.url().as_str()).collect();
    assert_eq!(dsts, ["rtmp://host/x", "rtmp://host/y", "rtmp://host/z"]);
    assert_eq!(now.outputs[0].id, was.outputs[0].id);
    assert_eq!(now.outputs[1], was.outputs[1]);
    let mixins = &now.outputs[0].mixins;
    let volumes: Vec<u16> = mixins.iter().map(|m| m.volume.percents()).collect();
    assert_eq!(volumes, [10, 90, 30]);
    assert_eq!(mixins[1].id, was.outputs[0].mixins[1].id);

    let once = state.clone();
    state.apply(more, false);
    assert_eq!(state, once);
}

#[test]
fn restreams_are_added_once() {
    let mut state = state(&spec(vec![restream("a", vec![])]));
    let added = restream("b", vec![output("rtmp://host/x", vec![])]);
    assert_eq!(state.add_restream(added.clone()), Ok(()));
    assert_eq!(state.export(), spec(vec![restream("a", vec![]), added.clone()]));

    let before = state.clone();
    let error = state.add_restream(added).unwrap_err();
    assert_eq!(error.key.as_str(), "b");
    assert_eq!(error.message(), "Restream.key 'b' is used already");
    assert_eq!(state, before);
}

#[test]
fn restreams_are_edited() {
    let mut state = state(&sample());
    let id = state.restreams[1].id;
    let edited = restream("e", vec![output("rtmp://host/z", vec![])]);
    assert_eq!(state.edit_restream(id, edited.clone()), Ok(Some(())));
    assert_eq!(keys(&state), ["a", "e", "c"]);
    assert_eq!(state.restreams[1].id, id);
    assert_eq!(state.restreams[1].outputs.len(), 3);

    assert_eq!(state.edit_restream(id, edited), Ok(Some(())));
    let before = state.clone();
    let error = state.edit_restream(id, restream("c", vec![])).unwrap_err();
    assert_eq!(error.message(), "Restream.key 'c' is used already");
    assert_eq!(state.edit_restream(NOWHERE, restream("f", vec![])), Ok(None));
    assert!(state.edit_restream(NOWHERE, restream("a", vec![])).is_err());
    assert_eq!(state, before);
}

#[test]
fn restreams_are_removed() {
    let mut state = state(&sample());
    let id = state.restreams[1].id;
    assert_eq!(state.remove_restream(id), Some(()));
    assert_eq!(keys(&state), ["a", "c"]);
    assert_eq!(state.remove_restream(id), None);
    assert_eq!(keys(&state), ["a", "c"]);
}

#[test]
fn restreams_are_enabled_and_disabled() {
    let mut state = state(&sample());
    let id = state.restreams[1].id;
    state.restreams[1].input.srs_publisher_id = Some(ClientId(7));
    state.restreams[1].input.srs_player_ids = vec![ClientId(8)];
    assert_eq!(state.enable_restream(id), Some(false));
    assert_eq!(state.restreams[1].input.srs_publisher_id, Some(ClientId(7)));

    assert_eq!(state.disable_restream(id), Some(true));
    let input = &state.restreams[1].input;
    assert!(!input.enabled);
    assert_eq!(input.srs_publisher_id, None);
    assert!(input.srs_player_ids.is_empty());
    assert!(matches!(&input.srcs[1], InputSrc::Local(i) if !i.enabled));
    assert_eq!(state.disable_restream(id), Some(false));

    assert_eq!(state.enable_restream(id), Some(true));
    let input = &state.restreams[1].input;
    assert!(input.enabled);
    assert!(matches!(&input.srcs[1], InputSrc::Local(i) if i.enabled));
    assert!(state.restreams[0].input.enabled);

    assert_eq!(state.enable_restream(NOWHERE), None);
    assert_eq!(state.disable_restream(NOWHERE), None);
}

#[test]
fn nested_inputs_count_as_changes() {
    let mut made = Input::new(input("in", vec![local("nested", vec![])], true));
    if let InputSrc::Local(nested) = &mut made.srcs[0] {
        nested.enabled = false;
    }
    assert!(made.enable());
    assert!(!made.enable());
    made.enabled = false;
    assert!(made.disable());
    assert!(!made.disable());
}

#[test]
fn outputs_are_added_once() {
    let mut state = state(&spec(vec![restream("a", vec![]), restream("b", vec![])]));
    let id = state.restreams[1].id;
    let x = "rtmp://host/x";
    assert_eq!(state.add_new_output(id, dst(x), Label::new("X"), None), Some(true));
    let made = state.restreams[1].outputs[0].clone();
    assert_eq!(made.dst, dst(x));
    assert_eq!(made.label.as_ref().unwrap().as_str(), "X");
    assert_eq!(made.volume, Volume::origin());
    assert!(made.mixins.is_empty());
    assert!(!made.enabled);
    assert_eq!(made.status, Status::Offline);

    let before = state.clone();
    assert_eq!(state.add_new_output(id, dst(x), None, None), Some(false));
    assert_eq!(state.add_new_output(NOWHERE, dst("rtmp://host/y"), None, None), None);
    assert_eq!(state, before);
}

#[test]
fn added_output_mixes_with_delay() {
    let mut state = state(&spec(vec![restream("a", vec![])]));
    let id = state.restreams[0].id;
    let added = state.add_new_output(id, dst("rtmp://host/x"), None, Some(src("ts://host/1")));
    assert_eq!(added, Some(true));
    let mixins = &state.restreams[0].outputs[0].mixins;
    assert_eq!(mixins.len(), 1);
    assert_eq!(mixins[0].src, src("ts://host/1"));
    assert_eq!(mixins[0].volume, Volume::origin());
    assert_eq!(mixins[0].delay.as_millis(), 3500);
    assert_eq!(mixins[0].status, Status::Offline);
    assert_eq!(mixins[0].id.0 >> 76 & 0xf, 4);
}

#[test]
fn outputs_are_removed() {
    let mut state = state(&sample());
    let id = state.restreams[1].id;
    let output_id = state.restreams[1].outputs[0].id;
    assert_eq!(state.remove_output(id, output_id), Some(true));
    let left: Vec<&str> =
        state.restreams[1].outputs.iter().map(|o| o.dst.url().as_str()).collect();
    assert_eq!(left, ["rtmp://host/y"]);
    assert_eq!(state.remove_output(id, output_id), Some(false));
    assert_eq!(state.remove_output(NOWHERE, output_id), None);
}

#[test]
fn outputs_are_enabled_and_disabled() {
    let mut state = state(&sample());
    let before = state.clone();
    let id = state.restreams[1].id;
    let output_id = state.restreams[1].outputs[0].id;
    assert_eq!(state.enable_output(id, output_id), Some(false));
    assert_eq!(state.disable_output(id, output_id), Some(true));
    assert!(!state.restreams[1].outputs[0].enabled);
    assert!(state.restreams[1].outputs[1].enabled);
    assert_eq!(state.disable_output(id, output_id), Some(false));
    assert_eq!(state.enable_output(id, output_id), Some(true));
    assert_eq!(state, before);

    assert_eq!(state.enable_output(NOWHERE, output_id), None);
    assert_eq!(state.disable_output(NOWHERE, output_id), None);
    assert_eq!(state.enable_output(id, OutputId(0)), None);
    assert_eq!(state.disable_output(id, OutputId(0)), None);
    assert_eq!(state, before);
}

#[test]
fn all_outputs_are_enabled_and_disabled() {
    let mut state = state(&sample());
    let (empty, full) = (state.restreams[0].id, state.restreams[1].id);
    let output_id = state.restreams[1].outputs[0].id;
    assert_eq!(state.enable_all_outputs(full), Some(false));
    assert_eq!(state.disable_output(full, output_id), Some(true));
    assert_eq!(state.disable_all_outputs(full), Some(true));
    assert!(state.restreams[1].outputs.iter().all(|o| !o.enabled));
    assert!(state.restreams[2].outputs.iter().all(|o| o.enabled));
    assert_eq!(state.disable_all_outputs(full), Some(false));
    assert_eq!(state.enable_all_outputs(full), Some(true));
    assert!(state.restreams[1].outputs.iter().all(|o| o.enabled));
    assert_eq!(state.enable_all_outputs(empty), Some(false));
    assert_eq!(state.disable_all_outputs(empty), Some(false));
    assert_eq!(state.enable_all_outputs(NOWHERE), None);
    assert_eq!(state.disable_all_outputs(NOWHERE), None);
}

#[test]
fn volumes_are_tuned() {
    let mut state = state(&sample());
    let id = state.restreams[1].id;
    let output_id = state.restreams[1].outputs[0].id;
    let mixin_id = state.restreams[1].outputs[0].mixins[1].id;
    assert_eq!(state.tune_volume(id, output_id, None, volume(70)), Some(false));
    assert_eq!(state.tune_volume(id, output_id, None, volume(71)), Some(true));
    assert_eq!(state.tune_volume(id, output_id, None, volume(71)), Some(false));
    assert_eq!(state.tune_volume(id, output_id, Some(mixin_id), volume(20)), Some(false));
    assert_eq!(state.tune_volume(id, output_id, Some(mixin_id), volume(0)), Some(true));
    let output = &state.restreams[1].outputs[0];
    assert_eq!(output.volume, volume(71));
    assert_eq!(output.mixins[0].volume, volume(10));
    assert_eq!(output.mixins[1].volume, volume(0));

    let before = state.clone();
    assert_eq!(state.tune_volume(NOWHERE, output_id, None, volume(1)), None);
    assert_eq!(state.tune_volume(id, OutputId(0), None, volume(1)), None);
    assert_eq!(state.tune_volume(id, output_id, Some(MixinId(0)), volume(1)), None);
    assert_eq!(state, before);
}

#[test]
fn delays_are_tuned() {
    let mut state = state(&sample());
    let id = state.restreams[1].id;
    let output_id = state.restreams[1].outputs[0].id;
    let mixin_id = state.restreams[1].outputs[0].mixins[0].id;
    let (same, other) = (Delay::from_millis(500).unwrap(), Delay::from_millis(501).unwrap());
    assert_eq!(state.tune_delay(id, output_id, mixin_id, same), Some(false));
    assert_eq!(state.tune_delay(id, output_id, mixin_id, other), Some(true));
    assert_eq!(state.tune_delay(id, output_id, mixin_id, other), Some(false));
    let mixins = &state.restreams[1].outputs[0].mixins;
    assert_eq!(mixins[0].delay, other);
    assert_eq!(mixins[1].delay, same);

    let before = state.clone();
    assert_eq!(state.tune_delay(NOWHERE, output_id, mixin_id, same), None);
    assert_eq!(state.tune_delay(id, OutputId(0), mixin_id, same), None);
    assert_eq!(state.tune_delay(id, output_id, MixinId(0), same), None);
    assert_eq!(state, before);
}

#[test]
fn input_kicks_clients_when_moved() {
    let clients = || {
        let mut made = Input::new(input("in", vec![remote("rtmp://host/in")], true));
        made.status = Status::Online;
        made.srs_publisher_id = Some(ClientId(7));
        made.srs_player_ids = vec![ClientId(8)];
        made
    };

    let mut kept = clients();
    let id = kept.id;
    kept.apply(input("in", vec![remote("rtmp://host/other")], false));
    assert_eq!(kept.srs_publisher_id, Some(ClientId(7)));
    assert_eq!(kept.srs_player_ids, [ClientId(8)]);
    assert_eq!(kept.id, id);
    assert_eq!(kept.status, Status::Online);
    assert!(!kept.enabled);

    let mut switched = clients();
    switched.apply(input("in", vec![], true));
    assert_eq!(switched.srs_publisher_id, None);
    assert_eq!(switched.srs_player_ids, [ClientId(8)]);

    let mut moved = clients();
    moved.apply(input("out", vec![remote("rtmp://host/in")], true));
    assert_eq!(moved.srs_publisher_id, None);
    assert!(moved.srs_player_ids.is_empty());
}

#[test]
fn input_reuses_its_sources() {
    let mut made = Input::new(input(
        "in",
        vec![remote("rtmp://host/a"), local("x", vec![remote("rtmp://host/x")]), local("y", vec![])],
        true,
    ));
    let before = made.clone();
    let next = input(
        "in",
        vec![local("z", vec![]), local("y", vec![]), local("x", vec![]), remote("rtmp://host/b")],
        true,
    );
    made.apply(next.clone());
    assert_eq!(made.export(), next);
    assert_eq!(made.srcs[1], before.srcs[2]);
    let (now, was) = (&made.srcs[2], &before.srcs[1]);
    assert!(matches!((now, was), (InputSrc::Local(a), InputSrc::Local(b)) if a.id == b.id));
}

#[test]
fn sources_are_identified() {
    let remote_src = InputSrc::new(remote("rtmp://host/a"));
    let mut local_src = InputSrc::new(local("a", vec![]));
    assert!(remote_src.identified_by(&remote("RTMP://host/a")));
    assert!(!remote_src.identified_by(&remote("rtmp://host/b")));
    assert!(!remote_src.identified_by(&local("a", vec![])));
    assert!(local_src.identified_by(&local("a", vec![remote("rtmp://host/a")])));
    assert!(!local_src.identified_by(&local("b", vec![])));
    assert!(!local_src.identified_by(&remote("rtmp://host/a")));

    local_src.apply(local("b", vec![]));
    assert_eq!(local_src.export(), local("b", vec![]));
    local_src.apply(remote("rtmp://host/a"));
    assert_eq!(local_src, remote_src);
    local_src.apply(local("c", vec![]));
    assert_eq!(local_src.export(), local("c", vec![]));
}

#[test]
fn parts_export_what_they_are_made_of() {
    let spec = restream("a", vec![output("rtmp://host/x", vec![mixin("ts://host/1", 10)])]);
    assert_eq!(Restream::new(spec.clone()).export(), spec);
    assert_eq!(Output::new(spec.outputs[0].clone()).export(), spec.outputs[0]);
    assert_eq!(Mixin::new(mixin("ts://host/1", 10)).export(), mixin("ts://host/1", 10));
    assert_eq!(Input::new(spec.input.clone()).export(), spec.input);

    let mut made = Mixin::new(mixin("ts://host/1", 10));
    let id = made.id;
    made.apply(mixin("ts://host/2", 20));
    assert_eq!(made.export(), mixin("ts://host/2", 20));
    assert_eq!(made.id, id);

    let mut made = Restream::new(spec.clone());
    made.apply(restream("b", vec![output("rtmp://host/y", vec![])]), false);
    assert_eq!(made.key.as_str(), "b");
    assert_eq!(made.outputs.len(), 2);
    made.apply(spec.clone(), true);
    assert_eq!(made.export(), spec);
}

#[test]
fn parts_are_made_with_given_ids() {
    let spec = restream("a", vec![output("rtmp://host/x", vec![mixin("ts://host/1", 10)])]);
    let made = Restream::with_id(RestreamId(1), spec.clone());
    assert_eq!(made.id, RestreamId(1));
    assert_eq!(made.export(), spec);
    let made = Input::with_id(InputId(2), spec.input.clone());
    assert_eq!(made.id, InputId(2));
    assert_eq!(made.export(), spec.input);
    let made = Output::with_id(OutputId(3), spec.outputs[0].clone());
    assert_eq!(made.id, OutputId(3));
    assert_eq!(made.export(), spec.outputs[0]);
    let made = Mixin::with_id(MixinId(4), mixin("ts://host/1", 10));
    assert_eq!(made.id, MixinId(4));
    assert_eq!(made.export(), mixin("ts://host/1", 10));

    let added = Mixin::with_src(MixinId(5), src("ts://host/1"));
    assert_eq!(added.id, MixinId(5));
    assert_eq!(added.delay.parts(), (3, 500_000_000));
    let made = Output::with_dst(OutputId(6), dst("rtmp://host/x"), None, Some(added.clone()));
    assert_eq!(made.id, OutputId(6));
    assert_eq!(made.mixins, [added]);
    assert!(!made.enabled);
}

#[test]
fn merging_adds_in_the_specified_order() {
    let mut state = state(&spec(vec![restream("b", vec![])]));
    let order = ["d", "b", "c", "a"];
    state.apply(spec(order.iter().map(|key| restream(key, vec![])).collect()), false);
    assert_eq!(keys(&state), ["b", "d", "c", "a"]);
}

#[test]
fn merging_repeated_keys_applies_the_last() {
    let mut state = state(&sample());
    let before = state.clone();
    let mut last = restream("b", vec![]);
    last.label = None;
    state.apply(spec(vec![restream("b", vec![]), last]), false);
    assert_eq!(keys(&state), ["a", "b", "c"]);
    assert_eq!(state.restreams[1].id, before.restreams[1].id);
    assert_eq!(state.restreams[1].label, None);
    assert_eq!(state.restreams[0], before.restreams[0]);
    assert_eq!(state.restreams[2], before.restreams[2]);
}

#[test]
fn sources_are_converted() {
    let url = InputSrcUrl::from_input_value("rtmp://host/a").unwrap();
    let src = InputSrc::from(RemoteInputSrc { url });
    assert_eq!(src, InputSrc::new(remote("rtmp://host/a")));
    let made = Input::new(input("a", vec![], true));
    let id = made.id;
    let src = InputSrc::from(made);
    assert!(matches!(src, InputSrc::Local(i) if i.id == id && i.key == *"a"));
}
