use restreamer::ids::{InputId, MixinId, OutputId, RestreamId};

const UUID: u128 = 0x0123_4567_89ab_4def_8123_4567_89ab_cdef;

#[test]
fn ids_are_displayed_hyphenated() {
    let expected = "01234567-89ab-4def-8123-456789abcdef";
    assert_eq!(RestreamId(UUID).display(), expected);
    assert_eq!(InputId(UUID).display(), expected);
    assert_eq!(OutputId(UUID).display(), expected);
    assert_eq!(MixinId(UUID).display(), expected);
    assert_eq!(RestreamId(0).display(), "00000000-0000-0000-0000-000000000000");
}

#[test]
fn ids_are_parsed_back() {
    for id in [RestreamId(0), RestreamId(UUID), RestreamId(u128::MAX)] {
        assert_eq!(RestreamId::parse(&id.display()), Some(id));
    }
    assert_eq!(
        RestreamId::parse("0123456789AB4DEF81234567 89abcdef"),
        None,
    );
    assert_eq!(RestreamId::parse("0123456789AB4DEF8123456789ABCDEF"), Some(RestreamId(UUID)));
    assert_eq!(RestreamId::parse(""), None);
    assert_eq!(
        RestreamId::parse("urn:uuid:01234567-89AB-4def-8123-456789abcdef"),
        Some(RestreamId(UUID)),
    );
    for refused in [
        "urn:uuid:0123456789ab4def8123456789abcdef",
        "URN:UUID:01234567-89ab-4def-8123-456789abcdef",
        "{01234567-89ab-4def-8123-456789abcdef}",
        "0123456-789ab-4def-8123-456789abcdef",
        "01234567-89ab-4def-8123456789abcdef",
        "01234567-89ab-4def-8123-456789abcdeg",
        "0123456789ab4def8123456789abcdef0000",
        "0123-456789ab4def8123456789abcde",
        "01234567-89ab-4def-8123-456789abcd\u{e4}",
        "0123456789ab4def8123456789abcd\u{e4}",
    ] {
        assert_eq!(RestreamId::parse(refused), None, "{}", refused);
    }
    let text = RestreamId(UUID).display();
    assert_eq!(InputId::parse(&text), Some(InputId(UUID)));
    assert_eq!(OutputId::parse(&text), Some(OutputId(UUID)));
    assert_eq!(MixinId::parse(&text), Some(MixinId(UUID)));
    assert_eq!(InputId::parse("id"), None);
    assert_eq!(OutputId::parse("id"), None);
    assert_eq!(MixinId::parse("id"), None);
}

#[test]
fn ids_are_random() {
    for id in [
        RestreamId::random().0,
        InputId::random().0,
        OutputId::random().0,
        MixinId::random().0,
    ] {
        assert_eq!(id >> 76 & 0xf, 4);
        assert_eq!(id >> 62 & 0x3, 2);
    }
    assert_ne!(RestreamId::random(), RestreamId::random());
}
