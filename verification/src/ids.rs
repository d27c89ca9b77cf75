//! Identifiers of restreams, inputs, outputs and mixins.

use vstd::prelude::*;

verus! {

/// Identifier drawn at random: a UUID of the fourth version, with the variant
/// that goes with it.
pub open spec fn is_random_uuid(uuid: u128) -> bool {
    &&& (uuid >> 76u128) & 0xf == 4
    &&& (uuid >> 62u128) & 0x3 == 2
}

/// Lower-case hexadecimal digit.
pub open spec fn hex_digit(n: u128) -> char {
    if n < 10 {
        ('0' as int + n) as char
    } else {
        ('a' as int + n - 10) as char
    }
}

/// Number of a hexadecimal digit (counted from the left) standing at the given
/// place of a hyphenated text, where hyphens stand at places 8, 13, 18 and 23.
pub open spec fn digit_at(place: int) -> int {
    if place < 8 {
        place
    } else if place < 13 {
        place - 1
    } else if place < 18 {
        place - 2
    } else if place < 23 {
        place - 3
    } else {
        place - 4
    }
}

/// Place of a hyphenated text that its `n`th hexadecimal digit stands at.
pub open spec fn place_of(n: int) -> int {
    if n < 8 {
        n
    } else if n < 12 {
        n + 1
    } else if n < 16 {
        n + 2
    } else if n < 20 {
        n + 3
    } else {
        n + 4
    }
}

/// Tells whether a hyphen stands at the given place of a hyphenated text.
pub open spec fn is_hyphen_at(place: int) -> bool {
    place == 8 || place == 13 || place == 18 || place == 23
}

/// Value of the `n`th of 32 hexadecimal digits of a UUID, counted from the left.
pub open spec fn nibble(uuid: u128, n: int) -> u128 {
    (uuid >> ((4 * (31 - n)) as u128)) & 0xf
}

/// Hyphenated text of a UUID: 32 lower-case hexadecimal digits in groups of
/// 8, 4, 4, 4 and 12.
pub open spec fn hyphenated(uuid: u128) -> Seq<char> {
    Seq::new(
        36,
        |place: int|
            if is_hyphen_at(place) {
                '-'
            } else {
                hex_digit(nibble(uuid, digit_at(place)))
            },
    )
}

/// Tells whether a character is a hexadecimal digit of either case.
pub open spec fn is_hex(c: char) -> bool {
    '0' <= c <= '9' || 'a' <= c <= 'f' || 'A' <= c <= 'F'
}

/// Value of a hexadecimal digit of either case.
pub open spec fn hex_value(c: char) -> int {
    if '0' <= c <= '9' {
        c as int - '0' as int
    } else if 'a' <= c <= 'f' {
        c as int - 'a' as int + 10
    } else {
        c as int - 'A' as int + 10
    }
}

/// Text of a UUID without the prefix of a URN, if it's one.
pub open spec fn without_urn(text: Seq<char>) -> Seq<char> {
    if text.len() == 45 && "urn:uuid:"@.is_prefix_of(text) {
        text.skip(9)
    } else {
        text
    }
}

/// Characters that stand for hexadecimal digits in a text of a UUID.
pub open spec fn uuid_digits(text: Seq<char>) -> Seq<char> {
    let body = without_urn(text);
    if body.len() == 32 {
        body
    } else {
        Seq::new(32, |n: int| body[place_of(n)])
    }
}

/// Tells whether a text is one of a UUID: 32 hexadecimal digits of either case,
/// either without hyphens, or with them in between groups of 8, 4, 4, 4 and 12
/// digits, the latter possibly being a URN.
pub open spec fn is_uuid_text(text: Seq<char>) -> bool {
    let body = without_urn(text);
    &&& body.len() == 32 || {
        &&& body.len() == 36
        &&& forall|place: int| is_hyphen_at(place) ==> #[trigger] body[place] == '-'
    }
    &&& forall|n: int| 0 <= n < 32 ==> is_hex(#[trigger] uuid_digits(text)[n])
}

/// Tells whether a text is the one of the given UUID.
pub open spec fn spells(text: Seq<char>, uuid: u128) -> bool {
    &&& is_uuid_text(text)
    &&& forall|n: int|
        0 <= n < 32 ==> hex_value(#[trigger] uuid_digits(text)[n]) == nibble(uuid, n)
}

/// Leading digits of UUIDs are the same if each of them is.
proof fn lemma_leading_digits(a: u128, b: u128, n: int)
    requires
        0 <= n < 32,
        forall|i: int| 0 <= i < 32 ==> #[trigger] nibble(a, i) == nibble(b, i),
    ensures
        a >> ((4 * (31 - n)) as u128) == b >> ((4 * (31 - n)) as u128),
    decreases n,
{
    let s: u128 = (4 * (31 - n)) as u128;
    assert(nibble(a, n) == nibble(b, n));
    if n == 0 {
        assert(a >> 124u128 == (a >> 124u128) & 0xf) by (bit_vector);
        assert(b >> 124u128 == (b >> 124u128) & 0xf) by (bit_vector);
    } else {
        lemma_leading_digits(a, b, n - 1);
        let t: u128 = (4 * (31 - (n - 1))) as u128;
        assert(a >> s == ((a >> t) << 4u128) | ((a >> s) & 0xf)) by (bit_vector)
            requires
                s <= 120,
                t == s + 4,
        ;
        assert(b >> s == ((b >> t) << 4u128) | ((b >> s) & 0xf)) by (bit_vector)
            requires
                s <= 120,
                t == s + 4,
        ;
    }
}

/// A text is the one of a single UUID at most.
pub proof fn law_text_is_of_one_uuid(text: Seq<char>, a: u128, b: u128)
    requires
        spells(text, a),
        spells(text, b),
    ensures
        a == b,
{
    assert forall|n: int| 0 <= n < 32 implies #[trigger] nibble(a, n) == nibble(b, n) by {
        assert(hex_value(uuid_digits(text)[n]) == nibble(a, n));
    }
    lemma_leading_digits(a, b, 31);
    assert(a >> 0u128 == a) by (bit_vector);
    assert(b >> 0u128 == b) by (bit_vector);
}

/// Hyphenated text of a UUID, which it's displayed by, is its text.
pub proof fn law_displayed_uuid_is_read_back(uuid: u128)
    ensures
        spells(hyphenated(uuid), uuid),
{
    let text = hyphenated(uuid);
    assert forall|n: int| 0 <= n < 32 implies is_hex(#[trigger] uuid_digits(text)[n]) && hex_value(
        uuid_digits(text)[n],
    ) == nibble(uuid, n) by {
        assert(digit_at(place_of(n)) == n && !is_hyphen_at(place_of(n)));
        lemma_nibble(uuid, n);
        assert(uuid_digits(text)[n] == hex_digit(nibble(uuid, n)));
    }
}

/// A hexadecimal digit has one of 16 values.
pub(crate) proof fn lemma_nibble(uuid: u128, n: int)
    ensures
        nibble(uuid, n) < 16,
{
    let shift: u128 = (4 * (31 - n)) as u128;
    assert((uuid >> shift) & 0xf < 16) by (bit_vector);
}

/// Identifier of an item as an operation leaves it.
pub enum Id {
    /// The very one given.
    Known(u128),
    /// Newly drawn at random by the operation.
    Fresh,
}

impl Id {
    /// Tells whether this identifier is such as the `expected` one says.
    pub open spec fn realizes(self, expected: Id) -> bool {
        match expected {
            Id::Known(_) => self == expected,
            Id::Fresh => self matches Id::Known(uuid) && is_random_uuid(uuid),
        }
    }
}

/// Draws a new UUID.
///
/// Calls [`Uuid::new_v4`], which fills a UUID with random bits, but for those
/// of its version and its variant. Nothing else is known of what it returns.
/// It panics if the operating system has no random bits to give.
///
/// [`Uuid::new_v4`]: ::uuid::Uuid::new_v4
#[verifier::external_body]
fn random_uuid() -> (uuid: u128)
    ensures
        is_random_uuid(uuid),
{
    ::uuid::Uuid::new_v4().as_u128()
}

/// Displays a UUID.
///
/// Calls the `Display` implementation of [`Uuid`], which writes its hyphenated
/// text.
///
/// [`Uuid`]: ::uuid::Uuid
#[verifier::external_body]
fn uuid_text(uuid: u128) -> (text: String)
    ensures
        text@ == hyphenated(uuid),
{
    ::uuid::Uuid::from_u128(uuid).to_string()
}

/// Parses a UUID.
///
/// Calls [`Uuid::parse_str`], which accepts a text in the simple, hyphenated and
/// URN formats, with digits of either case, and nothing else. What it returns
/// has the digits of the text.
///
/// [`Uuid::parse_str`]: ::uuid::Uuid::parse_str
#[verifier::external_body]
fn parse_uuid(text: &str) -> (uuid: Option<u128>)
    ensures
        uuid is Some <==> is_uuid_text(text@),
        uuid matches Some(u) ==> spells(text@, u),
{
    match ::uuid::Uuid::parse_str(text) {
        Ok(uuid) => Some(uuid.as_u128()),
        Err(_) => None,
    }
}

/// ID of a `Restream`.
#[derive(Clone, Copy, Debug, PartialEq, Eq, Structural)]
pub struct RestreamId(pub u128);

impl RestreamId {
    /// Generates a new random [`RestreamId`].
    #[must_use]
    pub fn random() -> (id: Self)
        ensures
            is_random_uuid(id.0),
    {
        Self(random_uuid())
    }

    /// Displays this [`RestreamId`] as a hyphenated UUID.
    #[must_use]
    pub fn display(&self) -> (text: String)
        ensures
            text@ == hyphenated(self.0),
    {
        uuid_text(self.0)
    }

    /// Parses the given text as a UUID of a [`RestreamId`].
    #[must_use]
    pub fn parse(text: &str) -> (id: Option<Self>)
        ensures
            match id {
                Some(id) => spells(text@, id.0),
                None => !is_uuid_text(text@),
            },
    {
        match parse_uuid(text) {
            Some(uuid) => Some(Self(uuid)),
            None => None,
        }
    }
}

/// ID of an `Input`.
#[derive(Clone, Copy, Debug, PartialEq, Eq, Structural)]
pub struct InputId(pub u128);

impl InputId {
    /// Generates a new random [`InputId`].
    #[must_use]
    pub fn random() -> (id: Self)
        ensures
            is_random_uuid(id.0),
    {
        Self(random_uuid())
    }

    /// Displays this [`InputId`] as a hyphenated UUID.
    #[must_use]
    pub fn display(&self) -> (text: String)
        ensures
            text@ == hyphenated(self.0),
    {
        uuid_text(self.0)
    }

    /// Parses the given text as a UUID of an [`InputId`].
    #[must_use]
    pub fn parse(text: &str) -> (id: Option<Self>)
        ensures
            match id {
                Some(id) => spells(text@, id.0),
                None => !is_uuid_text(text@),
            },
    {
        match parse_uuid(text) {
            Some(uuid) => Some(Self(uuid)),
            None => None,
        }
    }
}

/// ID of an `Output`.
#[derive(Clone, Copy, Debug, PartialEq, Eq, Structural)]
pub struct OutputId(pub u128);

impl OutputId {
    /// Generates a new random [`OutputId`].
    #[must_use]
    pub fn random() -> (id: Self)
        ensures
            is_random_uuid(id.0),
    {
        Self(random_uuid())
    }

    /// Displays this [`OutputId`] as a hyphenated UUID.
    #[must_use]
    pub fn display(&self) -> (text: String)
        ensures
            text@ == hyphenated(self.0),
    {
        uuid_text(self.0)
    }

    /// Parses the given text as a UUID of an [`OutputId`].
    #[must_use]
    pub fn parse(text: &str) -> (id: Option<Self>)
        ensures
            match id {
                Some(id) => spells(text@, id.0),
                None => !is_uuid_text(text@),
            },
    {
        match parse_uuid(text) {
            Some(uuid) => Some(Self(uuid)),
            None => None,
        }
    }
}

/// ID of a `Mixin`.
#[derive(Clone, Copy, Debug, PartialEq, Eq, Structural)]
pub struct MixinId(pub u128);

impl MixinId {
    /// Generates a new random [`MixinId`].
    #[must_use]
    pub fn random() -> (id: Self)
        ensures
            is_random_uuid(id.0),
    {
        Self(random_uuid())
    }

    /// Displays this [`MixinId`] as a hyphenated UUID.
    #[must_use]
    pub fn display(&self) -> (text: String)
        ensures
            text@ == hyphenated(self.0),
    {
        uuid_text(self.0)
    }

    /// Parses the given text as a UUID of a [`MixinId`].
    #[must_use]
    pub fn parse(text: &str) -> (id: Option<Self>)
        ensures
            match id {
                Some(id) => spells(text@, id.0),
                None => !is_uuid_text(text@),
            },
    {
        match parse_uuid(text) {
            Some(uuid) => Some(Self(uuid)),
            None => None,
        }
    }
}

/// Bits of an identifier which are not drawn at random are the ones of its version
/// and its variant.
pub proof fn law_drawn_uuid(uuid: u128)
    ensures
        is_random_uuid(uuid) <==> (uuid >> 76u128) & 0xf == 4 && (uuid >> 62u128) & 0x3 == 2,
{
}

/// An identifier is the expected one exactly when it's that very one, or, where a
/// newly drawn one is expected, has the bits of such.
pub proof fn law_expected_id(id: Id, expected: Id)
    ensures
        id.realizes(expected) <==> match expected {
            Id::Known(uuid) => id == Id::Known(uuid),
            Id::Fresh => id matches Id::Known(uuid) && (uuid >> 76u128) & 0xf == 4 && (uuid
                >> 62u128) & 0x3 == 2,
        },
{
}

/// Text that a UUID is displayed by has 32 digits of it in lower case, which
/// hyphens separate into groups of 8, 4, 4, 4 and 12.
pub proof fn law_displayed_uuid(uuid: u128, n: int)
    requires
        0 <= n < 32,
    ensures
        hyphenated(uuid).len() == 36,
        hyphenated(uuid)[8] == '-',
        hyphenated(uuid)[13] == '-',
        hyphenated(uuid)[18] == '-',
        hyphenated(uuid)[23] == '-',
        ({
            let hyphens: int = if n < 8 {
                0
            } else if n < 12 {
                1
            } else if n < 16 {
                2
            } else if n < 20 {
                3
            } else {
                4
            };
            let value = (uuid >> ((4 * (31 - n)) as u128)) & 0xf;
            hyphenated(uuid)[n + hyphens] as int == if value < 10 {
                48 + value
            } else {
                87 + value
            }
        }),
{
    lemma_nibble(uuid, n);
    assert(digit_at(place_of(n)) == n && !is_hyphen_at(place_of(n)));
}

/// Tells whether a character stands for the given hexadecimal digit, in either
/// case.
pub open spec fn stands_for(c: char, value: int) -> bool {
    ||| 0 <= value < 10 && c as int == 48 + value
    ||| 10 <= value < 16 && (c as int == 87 + value || c as int == 55 + value)
}

/// A text without hyphens is the one of a UUID exactly when its 32 characters
/// stand for digits of the latter.
pub proof fn law_simple_uuid_text(text: Seq<char>, uuid: u128)
    requires
        text.len() == 32,
    ensures
        spells(text, uuid) <==> forall|n: int|
            0 <= n < 32 ==> stands_for(
                #[trigger] text[n],
                ((uuid >> ((4 * (31 - n)) as u128)) & 0xf) as int,
            ),
{
    assert(without_urn(text) == text);
    if spells(text, uuid) {
        assert forall|n: int| 0 <= n < 32 implies stands_for(
            #[trigger] text[n],
            ((uuid >> ((4 * (31 - n)) as u128)) & 0xf) as int,
        ) by {
            assert(is_hex(uuid_digits(text)[n]));
            assert(hex_value(uuid_digits(text)[n]) == nibble(uuid, n));
        }
    }
    if forall|n: int|
        0 <= n < 32 ==> stands_for(
            #[trigger] text[n],
            ((uuid >> ((4 * (31 - n)) as u128)) & 0xf) as int,
        ) {
        assert forall|n: int| 0 <= n < 32 implies is_hex(#[trigger] uuid_digits(text)[n])
            && hex_value(uuid_digits(text)[n]) == nibble(uuid, n) by {
            assert(stands_for(text[n], nibble(uuid, n) as int));
        }
    }
}

/// A text with hyphens is the one of a UUID exactly when hyphens stand in between
/// groups of 8, 4, 4, 4 and 12 characters, and the text without them is the one
/// of the UUID.
pub proof fn law_hyphenated_uuid_text(text: Seq<char>, uuid: u128)
    requires
        text.len() == 36,
    ensures
        spells(text, uuid) <==> {
            &&& text[8] == '-'
            &&& text[13] == '-'
            &&& text[18] == '-'
            &&& text[23] == '-'
            &&& spells(
                text.subrange(0, 8) + text.subrange(9, 13) + text.subrange(14, 18) + text.subrange(
                    19,
                    23,
                ) + text.subrange(24, 36),
                uuid,
            )
        },
{
    let simple = text.subrange(0, 8) + text.subrange(9, 13) + text.subrange(14, 18)
        + text.subrange(19, 23) + text.subrange(24, 36);
    assert(without_urn(text) == text);
    assert(without_urn(simple) == simple);
    assert(uuid_digits(text) =~= simple);
    assert(uuid_digits(simple) =~= simple);
    if is_uuid_text(text) {
        assert(is_hyphen_at(8) && is_hyphen_at(13) && is_hyphen_at(18) && is_hyphen_at(23));
    }
}

/// A URN is a text of a UUID exactly when what follows its prefix is a hyphenated
/// one. Nothing of another length is a text of a UUID.
pub proof fn law_uuid_urn(text: Seq<char>, uuid: u128)
    requires
        text.len() != 32,
        text.len() != 36,
    ensures
        spells(text, uuid) <==> text.len() == 45 && text.take(9) == "urn:uuid:"@ && spells(
            text.skip(9),
            uuid,
        ),
{
    reveal_strlit("urn:uuid:");
    if text.len() == 45 {
        assert("urn:uuid:"@.is_prefix_of(text) <==> text.take(9) == "urn:uuid:"@);
        assert(without_urn(text.skip(9)) == text.skip(9));
        if text.take(9) == "urn:uuid:"@ {
            assert(uuid_digits(text) =~= uuid_digits(text.skip(9)));
        }
    }
}

/// Every text of a UUID is the one of some UUID.
pub proof fn law_uuid_text_spells(text: Seq<char>, uuid: u128)
    ensures
        spells(text, uuid) ==> is_uuid_text(text),
{
}

} // verus!
