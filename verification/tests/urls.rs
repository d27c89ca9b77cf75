use restreamer::addresses::{InputSrcUrl, MixinSrcUrl, OutputDstUrl, Url};

fn url(text: &str) -> Url {
    Url::parse(text).unwrap()
}

#[test]
fn urls_are_parsed() {
    let parsed = url("RTMP://127.0.0.1/app/../in");
    assert_eq!(parsed.as_str(), "rtmp://127.0.0.1/in");
    assert_eq!(parsed.scheme(), "rtmp");
    assert!(parsed.has_host());

    let parsed = url("rtmp:in");
    assert_eq!(parsed.as_str(), "rtmp:in");
    assert!(!parsed.has_host());

    assert!(Url::parse("/in").is_none());
    assert!(Url::parse("").is_none());
}

#[test]
fn local_addresses_are_kept_as_they_are() {
    for text in ["rtmp://127.0.0.1:1935/", "rtmp://127.0.0.1:1935/my-input_0//in"] {
        let parsed = url(text);
        assert_eq!(parsed.as_str(), text);
        assert_eq!(parsed.scheme(), "rtmp");
        assert!(parsed.has_host());
    }
}

#[test]
fn urls_are_compared_by_serializations() {
    assert_eq!(url("rtmp://host/in"), url("RTMP://host/in"));
    assert_ne!(url("rtmp://host/in"), url("rtmp://host/out"));
    assert_eq!(url("rtmp://host/in").clone().as_str(), "rtmp://host/in");
}

#[test]
fn only_suitable_urls_are_accepted() {
    for (text, src, dst, mix) in [
        ("rtmp://127.0.0.1/in", true, true, false),
        ("rtmps://127.0.0.1/in", true, true, false),
        ("icecast://127.0.0.1/in", false, true, false),
        ("ts://127.0.0.1/chan?name=some", false, false, true),
        ("http://127.0.0.1/in", false, false, false),
        ("rtmp:in", false, false, false),
        ("icecast:in", false, false, false),
        ("ts:chan", false, false, false),
    ] {
        assert_eq!(InputSrcUrl::new(url(text)).is_some(), src, "{}", text);
        assert_eq!(OutputDstUrl::new(url(text)).is_some(), dst, "{}", text);
        assert_eq!(MixinSrcUrl::new(url(text)).is_some(), mix, "{}", text);
        assert_eq!(InputSrcUrl::from_input_value(text).is_some(), src, "{}", text);
        assert_eq!(OutputDstUrl::from_input_value(text).is_some(), dst, "{}", text);
        assert_eq!(MixinSrcUrl::from_input_value(text).is_some(), mix, "{}", text);
    }
    assert!(InputSrcUrl::from_input_value("in").is_none());
    assert!(OutputDstUrl::from_input_value("in").is_none());
    assert!(MixinSrcUrl::from_input_value("in").is_none());
}

#[test]
fn suitable_urls_hold_what_is_parsed() {
    let src = InputSrcUrl::from_input_value("RTMP://host/in").unwrap();
    assert_eq!(src.url().as_str(), "rtmp://host/in");
    assert_eq!(src, src.clone());
    let dst = OutputDstUrl::from_input_value("ICECAST://host/in").unwrap();
    assert_eq!(dst.url().as_str(), "icecast://host/in");
    assert_ne!(dst, OutputDstUrl::from_input_value("icecast://host/out").unwrap());
    let mix = MixinSrcUrl::from_input_value("TS://host/in").unwrap();
    assert_eq!(mix.url().as_str(), "ts://host/in");
    assert_eq!(mix, mix.clone());
}
