use restreamer::addresses::{InputSrcUrl, MixinSrcUrl, OutputDstUrl, Url};
use restreamer::measures::{Delay, Volume};
use restreamer::names::{InputKey, InputName, Label, RestreamKey};
use restreamer::spec;
use restreamer::spec::v1::{Duplicate, Input, InputSrc, Mixin, Output, Restream, Spec};

fn input(key: &str, srcs: Vec<InputSrc>) -> Input {
    Input { key: InputKey::new(key).unwrap(), srcs, enabled: true }
}

fn remote(url: &str) -> InputSrc {
    InputSrc::RemoteUrl(InputSrcUrl::from_input_value(url).unwrap())
}

fn local(key: &str, srcs: Vec<InputSrc>) -> InputSrc {
    InputSrc::LocalInput(input(key, srcs))
}

fn mixin(src: &str) -> Mixin {
    Mixin {
        src: MixinSrcUrl::from_input_value(src).unwrap(),
        volume: Volume::origin(),
        delay: Delay::default(),
    }
}

fn output(dst: &str) -> Output {
    Output {
        dst: OutputDstUrl::from_input_value(dst).unwrap(),
        label: None,
        volume: Volume::origin(),
        mixins: vec![],
        enabled: false,
    }
}

fn restream(key: &str) -> Restream {
    Restream {
        key: RestreamKey::new(key).unwrap(),
        label: None,
        input: input("in", vec![]),
        outputs: vec![],
    }
}

fn checked(key: &str, srcs: Vec<InputSrc>) -> Result<Input, String> {
    Input::deserialize(InputKey::new(key).unwrap(), srcs, true)
        .map_err(|duplicate| duplicate.message())
}

#[test]
fn restreams_with_different_keys_pass() {
    let restreams = vec![restream("a"), restream("b"), restream("c")];
    assert_eq!(Spec::deserialize_restreams(restreams.clone()), Ok(restreams));
    assert_eq!(Spec::deserialize_restreams(vec![]), Ok(vec![]));
}

#[test]
fn restreams_with_the_same_key_are_refused() {
    let restreams = vec![restream("a"), restream("b"), restream("c"), restream("b"), restream("a")];
    let error = Spec::deserialize_restreams(restreams).unwrap_err();
    assert_eq!(error, Duplicate::RestreamKey(RestreamKey::new("b").unwrap()));
    assert_eq!(error.message(), "Duplicate Restream.key in Spec.restreams: b");
}

#[test]
fn outputs_with_different_destinations_pass() {
    let outputs = vec![output("rtmp://host/a"), output("rtmp://host/b")];
    assert_eq!(Restream::deserialize_outputs(outputs.clone()), Ok(outputs));
    assert_eq!(Restream::deserialize_outputs(vec![]), Ok(vec![]));
}

#[test]
fn outputs_with_the_same_destination_are_refused() {
    let outputs = vec![output("rtmp://host/a"), output("rtmp://host/b"), output("RTMP://host/a")];
    let error = Restream::deserialize_outputs(outputs).unwrap_err();
    assert!(matches!(error, Duplicate::OutputDst(_)));
    assert_eq!(error.message(), "Duplicate Output.dst in Restream.outputs: rtmp://host/a");
}

#[test]
fn mixins_with_different_sources_pass() {
    let mixins = vec![mixin("ts://host/a"), mixin("ts://host/b")];
    assert_eq!(Output::deserialize_mixins(mixins.clone()), Ok(mixins));
    assert_eq!(Output::deserialize_mixins(vec![]), Ok(vec![]));
}

#[test]
fn mixins_with_the_same_source_are_refused() {
    let mixins = vec![mixin("ts://host/a"), mixin("ts://host/a")];
    let error = Output::deserialize_mixins(mixins).unwrap_err();
    assert!(matches!(error, Duplicate::MixinSrc(_)));
    assert_eq!(error.message(), "Duplicate Mixin.src in Output.mixins: ts://host/a");
}

#[test]
fn inputs_with_different_sources_pass() {
    let srcs = vec![
        remote("rtmp://host/a"),
        local("b", vec![remote("rtmp://host/b"), local("c", vec![])]),
        remote("rtmp://host/c"),
    ];
    assert_eq!(checked("a", srcs.clone()), Ok(input("a", srcs)));
    assert_eq!(checked("a", vec![]), Ok(input("a", vec![])));
}

#[test]
fn inputs_with_the_same_source_are_refused() {
    let url = "Duplicate RemoteInputSrc.url in Input.srcs: rtmp://host/a".to_owned();
    let key = "Duplicate Input.key in Input.srcs: a".to_owned();
    assert_eq!(checked("b", vec![remote("rtmp://host/a"), remote("rtmp://host/a")]), Err(url.clone()));
    assert_eq!(
        checked(
            "b",
            vec![remote("rtmp://host/a"), local("c", vec![remote("rtmp://host/a")])],
        ),
        Err(url),
    );
    assert_eq!(checked("a", vec![local("a", vec![])]), Err(key.clone()));
    assert_eq!(checked("a", vec![local("b", vec![local("a", vec![])])]), Err(key.clone()));
    assert_eq!(checked("b", vec![local("a", vec![]), local("a", vec![])]), Err(key.clone()));
    assert_eq!(
        checked(
            "b",
            vec![local("a", vec![remote("rtmp://host/a"), local("a", vec![])]), remote("rtmp://host/a")],
        ),
        Err(key),
    );
}

#[test]
fn specs_convert_into_their_version() {
    let v1 = Spec { restreams: vec![restream("a")] };
    assert_eq!(spec::Spec::from(v1.clone()).into_v1(), v1);
}

#[test]
fn inputs_of_endpoints_convert() {
    let name = InputName::new("test").unwrap();
    let push = spec::PushInput { name: name.clone() };
    assert_eq!(spec::Input::from(push.clone()), spec::Input::Push(push));
    let failover = spec::FailoverPushInput { name };
    assert_eq!(spec::Input::from(failover.clone()), spec::Input::FailoverPush(failover));
    let src = InputSrcUrl::from_input_value("rtmp://host/in").unwrap();
    let pull = spec::PullInput { src };
    assert_eq!(spec::Input::from(pull.clone()), spec::Input::Pull(pull));
}

#[test]
fn endpoint_specs_are_composed() {
    let dst = |text: &str| OutputDstUrl::new(Url::parse(text).unwrap()).unwrap();
    let composed = spec::Restream {
        label: Label::new("My input"),
        enabled: false,
        input: spec::PushInput { name: InputName::new("test").unwrap() }.into(),
        outputs: vec![
            spec::Output {
                dst: dst("icecast://127.0.0.1/hi"),
                label: None,
                enabled: true,
                volume: Volume::origin(),
                mixins: vec![],
            },
            spec::Output {
                dst: dst("rtmp://127.0.0.1/test2/in"),
                label: Label::new("Second out"),
                enabled: false,
                volume: Volume::origin(),
                mixins: vec![],
            },
            spec::Output {
                dst: dst("rtmps://127.0.0.1/test5/in"),
                label: Label::new("Mixed TeamSpeak"),
                enabled: false,
                volume: Volume::new(Volume::OFF).unwrap(),
                mixins: vec![spec::Mixin {
                    src: MixinSrcUrl::new(Url::parse("ts://127.0.0.1/chan?name=some").unwrap())
                        .unwrap(),
                    volume: Volume::new(Volume::MAX).unwrap(),
                    delay: Delay::default(),
                }],
            },
        ],
    };
    assert_eq!(composed.label.as_ref().unwrap().as_str(), "My input");
    assert_eq!(composed.outputs[0].dst.url().as_str(), "icecast://127.0.0.1/hi");
    assert_eq!(composed.outputs[1].dst.url().as_str(), "rtmp://127.0.0.1/test2/in");
    assert_eq!(composed.outputs[2].dst.url().as_str(), "rtmps://127.0.0.1/test5/in");
    assert_eq!(composed.outputs[2].volume.percents(), 0);
    let mixin = &composed.outputs[2].mixins[0];
    assert_eq!(mixin.src.url().as_str(), "ts://127.0.0.1/chan?name=some");
    assert_eq!(mixin.volume.percents(), 1000);
    assert!(mixin.delay.is_zero());
    assert!(matches!(&composed.input, spec::Input::Push(push) if push.name == *"test"));
    let labels: Vec<Option<&str>> =
        composed.outputs.iter().map(|o| o.label.as_ref().map(Label::as_str)).collect();
    assert_eq!(labels, [None, Some("Second out"), Some("Mixed TeamSpeak")]);
    let enabled: Vec<bool> = composed.outputs.iter().map(|o| o.enabled).collect();
    assert_eq!(enabled, [true, false, false]);
}
