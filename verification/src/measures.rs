//! Volume rates, delays and availability statuses.

use std::convert::TryInto;

use vstd::prelude::*;
use vstd::std_specs::cmp::PartialEqSpec;

verus! {

/// Character of a decimal digit.
pub open spec fn digit(n: int) -> char {
    ('0' as int + n) as char
}

/// Decimal notation of a number, without leading zeros.
pub open spec fn decimal(n: nat) -> Seq<char>
    decreases n,
{
    if n < 10 {
        seq![digit(n as int)]
    } else {
        decimal(n / 10).push(digit((n % 10) as int))
    }
}

/// [`String::push`] of the standard library appends the given character to the
/// end of the text.
pub assume_specification[ String::push ](text: &mut String, c: char)
    ensures
        final(text)@ == old(text)@.push(c),
;

/// [`From::from`] of the standard library, which converts a value to its own
/// type, returns the value unchanged.
pub assume_specification<T>[ <T as From<T>>::from ](value: T) -> (same: T)
    ensures
        same == value,
;

/// Appends the digit `n` to the `text`.
fn push_digit(text: &mut String, n: u16)
    requires
        n < 10,
    ensures
        final(text)@ == old(text)@.push(digit(n as int)),
{
    text.push((48u8 + n as u8) as char);
}

/// Appends the decimal notation of `n` to the `text`.
fn push_decimal(text: &mut String, n: u16)
    ensures
        final(text)@ == old(text)@ + decimal(n as nat),
    decreases n,
{
    if n < 10 {
        push_digit(text, n);
        assert(text@ == old(text)@ + decimal(n as nat));
    } else {
        push_decimal(text, n / 10);
        push_digit(text, n % 10);
        assert(text@ == old(text)@ + decimal(n as nat));
    }
}

/// Status indicating availability of an `Input`, `Output`, or a `Mixin`.
#[derive(Clone, Copy, Debug, PartialEq, Eq, Structural)]
pub enum Status {
    /// Inactive, no operations are performed and no media traffic is flowed.
    Offline,
    /// Initializing, media traffic doesn't yet flow as expected.
    Initializing,
    /// Active, all operations are performing successfully and media traffic
    /// flows as expected.
    Online,
}

impl Default for Status {
    fn default() -> (status: Self)
        ensures
            status == Status::Offline,
    {
        Status::Offline
    }
}

/// Volume rate of an audio track in percents.
///
/// Its value is always within [`Volume::OFF`] and [`Volume::MAX`].
#[derive(Clone, Copy, Debug, Eq, PartialOrd, Ord)]
pub struct Volume(u16);

impl Volume {
    /// Percents of the maximum possible [`Volume`] rate.
    pub const MAX: u16 = 1000;

    /// Percents of the [`Volume`] rate corresponding to the original one of an
    /// audio track.
    pub const ORIGIN: u16 = 100;

    /// Percents of the minimum possible [`Volume`] rate. Actually, disables
    /// audio.
    pub const OFF: u16 = 0;

    /// Percents of this rate.
    pub closed spec fn view(&self) -> u16 {
        self.0
    }

    #[verifier::type_invariant]
    spec fn inv(self) -> bool {
        self.0 <= Self::MAX
    }

    /// Creates a new [`Volume`] rate value if it satisfies the required
    /// invariants:
    /// - within [`Volume::OFF`] and [`Volume::MAX`] values.
    ///
    /// A `num` which doesn't convert to `u16` satisfies none.
    #[must_use]
    pub fn new<N: TryInto<u16>>(num: N) -> (volume: Option<Self>)
        ensures
            exists|n: Result<u16, N::Error>| #[trigger]
                call_ensures(N::try_into, (num,), n) && match n {
                    Ok(n) if Self::OFF <= n <= Self::MAX => volume matches Some(v) && v@ == n,
                    _ => volume is None,
                },
    {
        let num = num.try_into();
        match num {
            Ok(n) => {
                let n: u16 = n;
                if Self::OFF <= n && n <= Self::MAX {
                    Some(Self(n))
                } else {
                    None
                }
            },
            Err(_) => None,
        }
    }

    /// Original rate of an audio track.
    #[must_use]
    pub fn origin() -> (volume: Self)
        ensures
            volume@ == Self::ORIGIN,
    {
        Self(Self::ORIGIN)
    }

    /// Percents of this [`Volume`] rate.
    #[must_use]
    pub fn percents(self) -> (percents: u16)
        ensures
            percents == self@,
            percents <= Self::MAX,
    {
        proof { use_type_invariant(&self); }
        self.0
    }

    /// Displays this [`Volume`] as a fraction of `1`, i.e. `100%` as `1`, `50%`
    /// as `0.50`, and so on.
    #[must_use]
    pub fn display_as_fraction(self) -> (text: String)
        ensures
            text@ == if self@ == Self::ORIGIN {
                "1"@
            } else {
                decimal((self@ / 100) as nat) + seq![
                    '.',
                    digit((self@ % 100 / 10) as int),
                    digit((self@ % 10) as int),
                ]
            },
            self@ < 1000 && self@ != 100 ==> {
                &&& text@.len() == 4
                &&& text@[0] as int == 48 + self@ / 100
                &&& text@[1] == '.'
                &&& text@[2] as int == 48 + self@ / 10 % 10
                &&& text@[3] as int == 48 + self@ % 10
            },
            self@ == 1000 ==> text@ == seq!['1', '0', '.', '0', '0'],
    {
        if self.0 == Self::ORIGIN {
            return "1".to_owned();
        }
        let mut text = String::new();
        push_decimal(&mut text, self.0 / 100);
        text.push('.');
        push_digit(&mut text, self.0 % 100 / 10);
        push_digit(&mut text, self.0 % 10);
        proof {
            use_type_invariant(&self);
            reveal_with_fuel(decimal, 3);
        }
        assert(text@ == decimal((self@ / 100) as nat) + seq![
            '.',
            digit((self@ % 100 / 10) as int),
            digit((self@ % 10) as int),
        ]);
        text
    }

    /// Indicates whether this [`Volume`] rate value is the
    /// [`Volume::ORIGIN`]al one.
    #[must_use]
    pub fn is_origin(&self) -> (yes: bool)
        ensures
            yes == (self@ == Self::ORIGIN),
    {
        self.0 == Self::ORIGIN
    }
}

impl Default for Volume {
    fn default() -> (volume: Self)
        ensures
            volume@ == Volume::ORIGIN,
    {
        Volume::origin()
    }
}

impl PartialEq for Volume {
    fn eq(&self, other: &Self) -> (same: bool) {
        self.0 == other.0
    }
}

impl vstd::std_specs::cmp::PartialEqSpecImpl for Volume {
    open spec fn obeys_eq_spec() -> bool {
        true
    }

    open spec fn eq_spec(&self, other: &Self) -> bool {
        self@ == other@
    }
}

/// Nanoseconds in a second.
pub const NANOS_IN_SEC: u32 = 1_000_000_000;

/// Nanoseconds in a millisecond.
pub const NANOS_IN_MILLI: u32 = 1_000_000;

/// Milliseconds in a second.
pub const MILLIS_IN_SEC: u64 = 1_000;

/// Delay of a [`Mixin`] being mixed with an [`Output`].
///
/// [`Mixin`]: crate::state::Mixin
/// [`Output`]: crate::state::Output
#[derive(Clone, Copy, Debug, Eq, PartialOrd, Ord)]
pub struct Delay {
    /// Whole seconds.
    secs: u64,
    /// Nanoseconds beyond them.
    nanos: u32,
}

impl Delay {
    /// Nanoseconds of this delay.
    pub closed spec fn view(&self) -> nat {
        self.secs as nat * NANOS_IN_SEC as nat + self.nanos as nat
    }

    #[verifier::type_invariant]
    spec fn inv(self) -> bool {
        self.nanos < NANOS_IN_SEC
    }

    /// Whole milliseconds of this delay.
    pub open spec fn millis(self) -> nat {
        self@ / NANOS_IN_MILLI as nat
    }

    /// Creates a new [`Delay`] out of the given milliseconds, if they convert
    /// to `u64`.
    #[must_use]
    pub fn from_millis<N: TryInto<u64>>(millis: N) -> (delay: Option<Self>)
        ensures
            exists|m: Result<u64, N::Error>| #[trigger]
                call_ensures(N::try_into, (millis,), m) && match m {
                    Ok(m) => delay matches Some(d) && d@ == m * NANOS_IN_MILLI,
                    Err(_) => delay is None,
                },
    {
        let millis = millis.try_into();
        match millis {
            Ok(m) => {
                let m: u64 = m;
                Some(
                    Self {
                        secs: m / MILLIS_IN_SEC,
                        nanos: (m % MILLIS_IN_SEC) as u32 * NANOS_IN_MILLI,
                    },
                )
            },
            Err(_) => None,
        }
    }

    /// Creates a new [`Delay`] of whole `secs` and `nanos` beyond them, if the
    /// latter make no second.
    #[must_use]
    pub fn from_parts(secs: u64, nanos: u32) -> (delay: Option<Self>)
        ensures
            delay is Some <==> nanos < NANOS_IN_SEC,
            delay matches Some(d) ==> d@ == secs * NANOS_IN_SEC + nanos,
    {
        if nanos < NANOS_IN_SEC {
            Some(Self { secs, nanos })
        } else {
            None
        }
    }

    /// Returns whole seconds of this [`Delay`], and nanoseconds beyond them.
    #[must_use]
    pub fn parts(&self) -> (parts: (u64, u32))
        ensures
            parts.0 * NANOS_IN_SEC + parts.1 == self@,
            parts.1 < NANOS_IN_SEC,
    {
        proof { use_type_invariant(self); }
        (self.secs, self.nanos)
    }

    /// Returns milliseconds of this [`Delay`].
    #[must_use]
    pub fn as_millis(&self) -> (millis: i32)
        requires
            self.millis() <= i32::MAX,
        ensures
            millis == self.millis(),
    {
        proof {
            use_type_invariant(self);
            assert(self.millis() == self.secs * MILLIS_IN_SEC + self.nanos / NANOS_IN_MILLI);
        }
        (self.secs * MILLIS_IN_SEC + (self.nanos / NANOS_IN_MILLI) as u64) as i32
    }

    /// Indicates whether this [`Delay`] introduces no actual delay.
    #[must_use]
    pub fn is_zero(&self) -> (yes: bool)
        ensures
            yes == (self@ == 0),
    {
        self.secs == 0 && self.nanos == 0
    }
}

impl Default for Delay {
    fn default() -> (delay: Self)
        ensures
            delay@ == 0,
    {
        Delay { secs: 0, nanos: 0 }
    }
}

impl PartialEq for Delay {
    fn eq(&self, other: &Self) -> (same: bool) {
        proof {
            use_type_invariant(self);
            use_type_invariant(other);
        }
        self.secs == other.secs && self.nanos == other.nanos
    }
}

impl vstd::std_specs::cmp::PartialEqSpecImpl for Delay {
    open spec fn obeys_eq_spec() -> bool {
        true
    }

    open spec fn eq_spec(&self, other: &Self) -> bool {
        self@ == other@
    }
}

/// Delay made of milliseconds has exactly as many of them.
pub proof fn law_delay_of_millis(delay: Delay, millis: u64)
    requires
        delay@ == millis * NANOS_IN_MILLI,
    ensures
        delay.millis() == millis,
{
}

/// However many milliseconds there are, a delay is made of them. It has exactly
/// as many of them, and is none exactly when there are none.
pub proof fn law_delay_is_made_of_millis(millis: u64, made: Option<Delay>)
    requires
        call_ensures(Delay::from_millis::<u64>, (millis,), made),
    ensures
        made matches Some(delay) && {
            &&& delay@ == millis * NANOS_IN_MILLI
            &&& delay.millis() == millis
            &&& delay@ == 0 <==> millis == 0
        },
{
}

/// Delay of whole milliseconds is made again of the milliseconds it has.
pub proof fn law_delay_is_made_again(delay: Delay, millis: i32, made: Option<Delay>)
    requires
        delay@ == delay.millis() * NANOS_IN_MILLI as nat,
        millis == delay.millis(),
        call_ensures(Delay::from_millis::<i32>, (millis,), made),
    ensures
        made matches Some(again) && again@ == delay@,
{
}

/// A rate is made of percents exactly when they are within bounds, and has as
/// many of them.
pub proof fn law_volume_is_made_of_percents(percents: u16, made: Option<Volume>)
    requires
        call_ensures(Volume::new::<u16>, (percents,), made),
    ensures
        made is Some <==> percents <= Volume::MAX,
        made matches Some(volume) ==> volume@ == percents,
{
}

/// Bounds and the original value of a rate, and units that delays are measured
/// in.
pub proof fn law_units()
    ensures
        Volume::OFF == 0,
        Volume::ORIGIN == 100,
        Volume::MAX == 1000,
        NANOS_IN_MILLI == 1_000_000,
        NANOS_IN_SEC == 1_000_000_000,
{
}

/// Decimal notation has the digits of a number: its last one stands for the rest
/// of the division by ten, and those before it for the quotient, if any.
pub proof fn law_decimal_digits(n: nat)
    ensures
        decimal(n).len() >= 1,
        decimal(n).last() as int == 48 + n % 10,
        n < 10 ==> decimal(n).len() == 1,
        n >= 10 ==> decimal(n).drop_last() == decimal(n / 10),
{
    if n >= 10 {
        assert(decimal(n).drop_last() =~= decimal(n / 10));
    }
}

/// A rate of any number is made exactly when the number is within bounds.
pub proof fn law_volume_is_made_of_number(number: i32, made: Option<Volume>)
    requires
        call_ensures(Volume::new::<i32>, (number,), made),
    ensures
        made is Some <==> 0 <= number <= 1000,
        made matches Some(volume) ==> volume@ == number,
{
}

/// A delay of any number of milliseconds is made exactly when it's not negative.
pub proof fn law_delay_is_made_of_number(number: i32, made: Option<Delay>)
    requires
        call_ensures(Delay::from_millis::<i32>, (number,), made),
    ensures
        made is Some <==> number >= 0,
        made matches Some(delay) ==> delay@ == number * 1_000_000 && delay.millis() == number,
{
}

/// Delay has as many whole milliseconds as millions of nanoseconds.
pub proof fn law_millis_of_delay(delay: Delay)
    ensures
        delay.millis() * 1_000_000 <= delay@ < (delay.millis() + 1) * 1_000_000,
{
}

/// Rates are equal exactly when their percents are, and delays are equal exactly
/// when they last as long.
pub proof fn law_measures_are_equal(a: Volume, b: Volume, c: Delay, d: Delay)
    ensures
        a.eq_spec(&b) <==> a@ == b@,
        c.eq_spec(&d) <==> c@ == d@,
{
}

} // verus!
