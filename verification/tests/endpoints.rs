use restreamer::addresses::InputSrcUrl;
use restreamer::ids::RestreamId;
use restreamer::measures::Status;
use restreamer::names::InputName;
use restreamer::state::endpoint::{FailoverPushInput, Input, PullInput, PushInput, Restream};

fn push(name: &str) -> Input {
    Input::Push(PushInput { name: InputName::new(name).unwrap(), status: Status::Offline })
}

fn failover(name: &str, main: Status, backup: Status) -> FailoverPushInput {
    FailoverPushInput {
        name: InputName::new(name).unwrap(),
        main_status: main,
        main_srs_publisher_id: None,
        backup_status: backup,
        backup_srs_publisher_id: None,
        status: Status::Offline,
    }
}

fn pull(src: &str) -> Input {
    Input::Pull(PullInput {
        src: InputSrcUrl::from_input_value(src).unwrap(),
        status: Status::Offline,
    })
}

const ID: RestreamId = RestreamId(0x0123_4567_89ab_4def_8123_4567_89ab_cdef);

fn restream(input: Input) -> Restream {
    Restream { id: ID, input }
}

#[test]
fn failover_switches_to_backup_only() {
    let (offline, initializing, online) = (Status::Offline, Status::Initializing, Status::Online);
    for (main, backup, endpoint, traffic) in [
        (offline, offline, "main", false),
        (offline, initializing, "main", false),
        (offline, online, "backup", true),
        (initializing, online, "backup", true),
        (online, online, "main", true),
        (online, offline, "main", true),
    ] {
        let input = failover("test", main, backup);
        let expected = format!("rtmp://127.0.0.1:1935/test/{}", endpoint);
        assert_eq!(input.from_url().as_str(), expected);
        assert_eq!(input.has_traffic(), traffic);
        assert_eq!(Input::FailoverPush(input).is_online(), traffic);
    }
}

#[test]
fn inputs_are_online_once_set_so() {
    let inputs = [
        push("test"),
        Input::FailoverPush(failover("test", Status::Offline, Status::Offline)),
        pull("rtmp://host/in"),
    ];
    for mut input in inputs {
        let before = input.clone();
        assert!(!input.is_online());
        input.set_status(Status::Initializing);
        assert!(!input.is_online());
        input.set_status(Status::Online);
        assert!(input.is_online());
        assert!(input.is(&before));
        input.set_status(Status::Offline);
        assert_eq!(input, before);
    }
}

#[test]
fn inputs_are_the_same_by_name_or_source() {
    let failing = Input::FailoverPush(failover("a", Status::Offline, Status::Offline));
    let online = Input::FailoverPush(failover("a", Status::Online, Status::Online));
    assert!(push("a").is(&push("a")));
    assert!(!push("a").is(&push("b")));
    assert!(!push("a").is(&failing));
    assert!(failing.is(&online));
    assert!(online.is(&failing));
    assert!(pull("rtmp://host/in").is(&pull("RTMP://host/in")));
    assert!(!pull("rtmp://host/in").is(&pull("rtmp://host/out")));
    assert!(!pull("rtmp://host/in").is(&push("a")));
}

#[test]
fn upstream_is_what_is_pulled() {
    let pulling = restream(pull("rtmp://host/in"));
    assert_eq!(pulling.upstream_url().unwrap().url().as_str(), "rtmp://host/in");
    assert!(restream(push("a")).upstream_url().is_none());
}

#[test]
fn restreams_are_served_locally() {
    for (input, app) in [
        (push("my-input"), "my-input"),
        (
            Input::FailoverPush(failover("my_other", Status::Offline, Status::Offline)),
            "my_other",
        ),
        (pull("rtmp://host/in"), "pull_01234567-89ab-4def-8123-456789abcdef"),
    ] {
        let restream = restream(input);
        let expected = format!("rtmp://127.0.0.1:1935/{}/in", app);
        assert_eq!(restream.srs_url().as_str(), expected);
        assert!(restream.uses_srs_app(app));
        assert!(!restream.uses_srs_app("unrelated"));
        assert!(!restream.uses_srs_app(""));
    }
}

#[test]
fn pulled_restreams_are_found_by_ids() {
    let restream = restream(pull("rtmp://host/in"));
    assert!(restream.uses_srs_app("pull_0123456789ab4def8123456789abcdef"));
    assert!(!restream.uses_srs_app("pull_"));
    assert!(!restream.uses_srs_app("pull_\u{e4}"));
    assert!(!restream.uses_srs_app("p\u{e4}ll_"));
    assert!(!restream.uses_srs_app("push_01234567-89ab-4def-8123-456789abcdef"));
    assert!(!restream.uses_srs_app("pull_11234567-89ab-4def-8123-456789abcdef"));
}
