use regex::Regex;
use restreamer::names::{InputKey, InputName, Label, RestreamKey};

/// Texts around the edges of both formats.
fn samples() -> Vec<String> {
    let mut texts: Vec<String> = [
        "",
        "a",
        "z",
        "0",
        "9",
        "_",
        "-",
        "A",
        "Z",
        "`",
        "{",
        "/",
        ":",
        " ",
        "\n",
        "a\n",
        "\na",
        "a,b",
        "a\tb",
        "a\rb",
        "a\u{c}b",
        "a\u{b}b",
        "a b",
        "\u{e4}",
        "\u{1f600}",
        "my-input_01",
    ]
    .iter()
    .map(|text| (*text).to_owned())
    .collect();
    for len in [19, 20, 21, 69, 70, 71] {
        texts.push("x".repeat(len));
        texts.push("\u{e4}".repeat(len));
    }
    texts
}

#[test]
fn keys_meet_their_format() {
    let format = Regex::new("^[a-z0-9_-]{1,20}$").unwrap();
    for text in samples() {
        let expected = format.is_match(&text);
        assert_eq!(RestreamKey::new(&text).is_some(), expected, "{:?}", text);
        assert_eq!(InputKey::new(&text).is_some(), expected, "{:?}", text);
    }
}

#[test]
fn labels_meet_their_format() {
    let format = Regex::new(r"^[^,\n\t\r\f\v]{1,70}$").unwrap();
    for text in samples() {
        let expected = format.is_match(&text);
        assert_eq!(Label::new(&text).is_some(), expected, "{:?}", text);
    }
}

#[test]
fn names_hold_their_texts() {
    assert_eq!(RestreamKey::new("one_1").unwrap().as_str(), "one_1");
    assert_eq!(InputKey::new("two-2").unwrap().as_str(), "two-2");
    assert_eq!(InputName::new("three").unwrap().as_str(), "three");
    assert_eq!(Label::new("My input").unwrap().as_str(), "My input");
}

#[test]
fn names_are_compared_by_texts() {
    let key = RestreamKey::new("one").unwrap();
    assert_eq!(key, key.clone());
    assert_ne!(key, RestreamKey::new("two").unwrap());
    assert!(key == *"one");
    assert!(key != *"two");

    let key = InputKey::new("one").unwrap();
    assert_eq!(key, key.clone());
    assert_ne!(key, InputKey::new("two").unwrap());
    assert!(key == *"one");
    assert!(key != *"two");

    let label = Label::new("One").unwrap();
    assert_eq!(label, label.clone());
    assert_ne!(label, Label::new("one").unwrap());
}
