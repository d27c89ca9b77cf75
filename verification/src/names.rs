//! Keys and labels: short texts of a fixed format.

use vstd::prelude::*;
use vstd::std_specs::cmp::PartialEqSpec;

verus! {

/// Character of a key: a lower-case latin letter, a digit, `_` or `-`.
pub open spec fn is_key_char(c: char) -> bool {
    ||| 'a' <= c <= 'z'
    ||| '0' <= c <= '9'
    ||| c == '_'
    ||| c == '-'
}

/// Format of a key: `[a-z0-9_-]{1,20}`.
pub open spec fn is_key(text: Seq<char>) -> bool {
    &&& 1 <= text.len() <= 20
    &&& forall|i: int| 0 <= i < text.len() ==> is_key_char(#[trigger] text[i])
}

/// Character of a label: anything but a comma, a line feed, a tab, a carriage
/// return, a form feed and a vertical tab.
pub open spec fn is_label_char(c: char) -> bool {
    &&& c != ','
    &&& c != '\n'
    &&& c != '\t'
    &&& c != '\r'
    &&& c != '\u{c}'
    &&& c != '\u{b}'
}

/// Format of a label: `[^,\n\t\r\f\v]{1,70}`.
pub open spec fn is_label(text: Seq<char>) -> bool {
    &&& 1 <= text.len() <= 70
    &&& forall|i: int| 0 <= i < text.len() ==> is_label_char(#[trigger] text[i])
}

/// Tells whether the `text` has the format of a key.
fn meets_key_format(text: &str) -> (ok: bool)
    ensures
        ok == is_key(text@),
{
    let mut len: usize = 0;
    for c in chars: text.chars()
        invariant
            len == chars.index(),
            len <= 20,
            chars.seq() == text@,
            forall|i: int| 0 <= i < len ==> is_key_char(#[trigger] text@[i]),
    {
        if len == 20 {
            return false;
        }
        let matches = ('a' <= c && c <= 'z') || ('0' <= c && c <= '9') || c == '_' || c == '-';
        if !matches {
            assert(!is_key_char(text@[len as int]));
            return false;
        }
        len = len + 1;
    }
    len > 0
}

/// Tells whether the `text` has the format of a label.
fn meets_label_format(text: &str) -> (ok: bool)
    ensures
        ok == is_label(text@),
{
    let mut len: usize = 0;
    for c in chars: text.chars()
        invariant
            len == chars.index(),
            len <= 70,
            chars.seq() == text@,
            forall|i: int| 0 <= i < len ==> is_label_char(#[trigger] text@[i]),
    {
        if len == 70 {
            return false;
        }
        let matches = c != ',' && c != '\n' && c != '\t' && c != '\r' && c != '\u{c}' && c
            != '\u{b}';
        if !matches {
            assert(!is_label_char(text@[len as int]));
            return false;
        }
        len = len + 1;
    }
    len > 0
}

/// Key of a [`Restream`] identifying it, and used to form its endpoints URLs.
///
/// It always meets the [`is_key`] format.
///
/// [`Restream`]: crate::state::Restream
#[derive(Debug, Eq)]
pub struct RestreamKey(String);

impl RestreamKey {
    /// Text of this value.
    pub closed spec fn view(&self) -> Seq<char> {
        self.0@
    }

    #[verifier::type_invariant]
    spec fn inv(self) -> bool {
        is_key(self.0@)
    }

    /// Creates a new [`RestreamKey`] if the given value meets its format.
    #[must_use]
    pub fn new(val: &str) -> (made: Option<Self>)
        ensures
            made is Some <==> is_key(val@),
            made matches Some(m) ==> m@ == val@,
    {
        if meets_key_format(val) {
            Some(Self(val.to_owned()))
        } else {
            None
        }
    }

    /// Returns the text of this [`RestreamKey`].
    #[must_use]
    pub fn as_str(&self) -> (text: &str)
        ensures
            text@ == self@,
            is_key(text@),
    {
        proof { use_type_invariant(self); }
        self.0.as_str()
    }
}

impl Clone for RestreamKey {
    fn clone(&self) -> (copy: Self)
        ensures
            copy == *self,
    {
        proof { use_type_invariant(self); }
        Self(self.0.clone())
    }
}

impl PartialEq for RestreamKey {
    fn eq(&self, other: &Self) -> (same: bool) {
        self.0 == other.0
    }
}

impl vstd::std_specs::cmp::PartialEqSpecImpl for RestreamKey {
    open spec fn obeys_eq_spec() -> bool {
        true
    }

    open spec fn eq_spec(&self, other: &Self) -> bool {
        self@ == other@
    }
}

impl PartialEq<str> for RestreamKey {
    fn eq(&self, other: &str) -> (same: bool) {
        self.0 == other.to_owned()
    }
}

impl vstd::std_specs::cmp::PartialEqSpecImpl<str> for RestreamKey {
    open spec fn obeys_eq_spec() -> bool {
        true
    }

    open spec fn eq_spec(&self, other: &str) -> bool {
        self@ == other@
    }
}

/// Key of an [`Input`] used to form its endpoint URL.
///
/// It always meets the [`is_key`] format.
///
/// [`Input`]: crate::state::Input
#[derive(Debug, Eq)]
pub struct InputKey(String);

impl InputKey {
    /// Text of this value.
    pub closed spec fn view(&self) -> Seq<char> {
        self.0@
    }

    #[verifier::type_invariant]
    spec fn inv(self) -> bool {
        is_key(self.0@)
    }

    /// Creates a new [`InputKey`] if the given value meets its format.
    #[must_use]
    pub fn new(val: &str) -> (made: Option<Self>)
        ensures
            made is Some <==> is_key(val@),
            made matches Some(m) ==> m@ == val@,
    {
        if meets_key_format(val) {
            Some(Self(val.to_owned()))
        } else {
            None
        }
    }

    /// Returns the text of this [`InputKey`].
    #[must_use]
    pub fn as_str(&self) -> (text: &str)
        ensures
            text@ == self@,
            is_key(text@),
    {
        proof { use_type_invariant(self); }
        self.0.as_str()
    }
}

impl Clone for InputKey {
    fn clone(&self) -> (copy: Self)
        ensures
            copy == *self,
    {
        proof { use_type_invariant(self); }
        Self(self.0.clone())
    }
}

impl PartialEq for InputKey {
    fn eq(&self, other: &Self) -> (same: bool) {
        self.0 == other.0
    }
}

impl vstd::std_specs::cmp::PartialEqSpecImpl for InputKey {
    open spec fn obeys_eq_spec() -> bool {
        true
    }

    open spec fn eq_spec(&self, other: &Self) -> bool {
        self@ == other@
    }
}

impl PartialEq<str> for InputKey {
    fn eq(&self, other: &str) -> (same: bool) {
        self.0 == other.to_owned()
    }
}

impl vstd::std_specs::cmp::PartialEqSpecImpl<str> for InputKey {
    open spec fn obeys_eq_spec() -> bool {
        true
    }

    open spec fn eq_spec(&self, other: &str) -> bool {
        self@ == other@
    }
}

/// Name of a live stream to expose its endpoints with.
pub type InputName = InputKey;

/// Label of a [`Restream`] or an [`Output`].
///
/// It always meets the [`is_label`] format.
///
/// [`Output`]: crate::state::Output
/// [`Restream`]: crate::state::Restream
#[derive(Debug, Eq)]
pub struct Label(String);

impl Label {
    /// Text of this value.
    pub closed spec fn view(&self) -> Seq<char> {
        self.0@
    }

    #[verifier::type_invariant]
    spec fn inv(self) -> bool {
        is_label(self.0@)
    }

    /// Creates a new [`Label`] if the given value meets its format.
    #[must_use]
    pub fn new(val: &str) -> (made: Option<Self>)
        ensures
            made is Some <==> is_label(val@),
            made matches Some(m) ==> m@ == val@,
    {
        if meets_label_format(val) {
            Some(Self(val.to_owned()))
        } else {
            None
        }
    }

    /// Returns the text of this [`Label`].
    #[must_use]
    pub fn as_str(&self) -> (text: &str)
        ensures
            text@ == self@,
            is_label(text@),
    {
        proof { use_type_invariant(self); }
        self.0.as_str()
    }
}

impl Clone for Label {
    fn clone(&self) -> (copy: Self)
        ensures
            copy == *self,
    {
        proof { use_type_invariant(self); }
        Self(self.0.clone())
    }
}

impl PartialEq for Label {
    fn eq(&self, other: &Self) -> (same: bool) {
        self.0 == other.0
    }
}

impl vstd::std_specs::cmp::PartialEqSpecImpl for Label {
    open spec fn obeys_eq_spec() -> bool {
        true
    }

    open spec fn eq_spec(&self, other: &Self) -> bool {
        self@ == other@
    }
}

/// A text is a key exactly when it has from 1 to 20 characters, all of them being
/// lower-case latin letters, digits, underscores and hyphens.
pub proof fn law_key_format(text: Seq<char>)
    ensures
        is_key(text) <==> 1 <= text.len() <= 20 && forall|i: int|
            0 <= i < text.len() ==> {
                let c = #[trigger] text[i];
                97 <= c as int <= 122 || 48 <= c as int <= 57 || c as int == 95 || c as int == 45
            },
{
    if is_key(text) {
        assert forall|i: int| 0 <= i < text.len() implies {
            let c = #[trigger] text[i];
            97 <= c as int <= 122 || 48 <= c as int <= 57 || c as int == 95 || c as int == 45
        } by {
            assert(is_key_char(text[i]));
        }
    }
}

/// A text is a label exactly when it has from 1 to 70 characters, none of them
/// being a comma or one of the control characters from a tab to a carriage
/// return.
pub proof fn law_label_format(text: Seq<char>)
    ensures
        is_label(text) <==> 1 <= text.len() <= 70 && forall|i: int|
            0 <= i < text.len() ==> {
                let c = #[trigger] text[i];
                c as int != 44 && !(9 <= c as int <= 13)
            },
{
    if is_label(text) {
        assert forall|i: int| 0 <= i < text.len() implies {
            let c = #[trigger] text[i];
            c as int != 44 && !(9 <= c as int <= 13)
        } by {
            assert(is_label_char(text[i]));
        }
    }
}

/// Keys and labels are equal exactly when their texts are.
pub proof fn law_names_are_equal_by_texts(
    a: RestreamKey,
    b: RestreamKey,
    c: InputKey,
    d: InputKey,
    e: Label,
    f: Label,
    text: &str,
)
    ensures
        a.eq_spec(&b) <==> a@ == b@,
        c.eq_spec(&d) <==> c@ == d@,
        e.eq_spec(&f) <==> e@ == f@,
        a.eq_spec(text) <==> a@ == text@,
        c.eq_spec(text) <==> c@ == text@,
{
}

} // verus!
