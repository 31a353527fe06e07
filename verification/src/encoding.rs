//! The two encodings in which a document writes a colour.
//!
//! The standard encoding counts hue in degrees and the other channels in
//! percent; the normalized encoding is the colour itself.

use vstd::prelude::*;
use crate::color::{hsla, Channels, Hsla, CHANNEL_MAX};
use crate::error::{BoundsError, Channel, ParseError, ThemeError};

verus! {

/// The channel that stands at place `i` of a colour written `[h, s, l, a]`.
pub open spec fn channel_at(i: int) -> Channel {
    if i == 0 {
        Channel::Hue
    } else if i == 1 {
        Channel::Saturation
    } else if i == 2 {
        Channel::Lightness
    } else {
        Channel::Alpha
    }
}

/// The largest standard value of a channel: 360 degrees or 100 percent.
pub open spec fn standard_limit(channel: Channel) -> int {
    match channel {
        Channel::Hue => 360,
        _ => 100,
    }
}

/// Place `i` of `values` lies within the domain of its channel.
pub open spec fn in_domain(values: Seq<i64>, i: int) -> bool {
    0 <= values[i] <= standard_limit(channel_at(i))
}

/// The first place of `values`, from `from` on, that lies outside its
/// domain, as the error that reports it.
pub open spec fn first_violation(values: Seq<i64>, from: int) -> Option<BoundsError>
    decreases 4 - from,
{
    if from < 0 || from >= 4 {
        None
    } else if !in_domain(values, from) {
        Some(BoundsError { channel: channel_at(from), value: values[from] })
    } else {
        first_violation(values, from + 1)
    }
}

/// The numbers of a list as mathematical integers.
pub open spec fn integers(values: Seq<i64>) -> Seq<int> {
    values.map_values(|v: i64| v as int)
}

/// The colour that four standard values denote: the hue as a fraction of 360
/// degrees, the other channels as fractions of 100 percent.
pub open spec fn normalized(standard: Seq<int>) -> Channels {
    Channels {
        h: standard[0] * CHANNEL_MAX / 360,
        s: standard[1] * CHANNEL_MAX / 100,
        l: standard[2] * CHANNEL_MAX / 100,
        a: standard[3] * CHANNEL_MAX / 100,
    }
}

/// A colour in standard units: `[h, s, l, a]` with `h` in `0..=360` and
/// `s`, `l`, `a` in `0..=100`.
#[derive(Clone, Copy, Debug, PartialEq, Eq)]
pub struct StandardHsla([u16; 4]);

impl View for StandardHsla {
    type V = Seq<int>;

    closed spec fn view(&self) -> Seq<int> {
        Seq::new(4, |i: int| self.0@[i] as int)
    }
}

impl StandardHsla {
    #[verifier::type_invariant]
    pub closed spec fn well_formed(self) -> bool {
        &&& self.0@[0] <= 360
        &&& self.0@[1] <= 100
        &&& self.0@[2] <= 100
        &&& self.0@[3] <= 100
    }

    /// The four values of a well-formed colour lie within their domains.
    pub proof fn well_formed_in_domain(self)
        requires
            self.well_formed(),
        ensures
            self@.len() == 4,
            forall|i: int| 0 <= i < 4 ==> 0 <= #[trigger] self@[i] <= standard_limit(channel_at(i)),
    {
    }

    /// Accepts `[h, s, l, a]` if every value lies within its domain, and
    /// otherwise reports the first value that does not.
    pub fn new(values: [i64; 4]) -> (made: Result<StandardHsla, BoundsError>)
        ensures
            match made {
                Ok(standard) => first_violation(values@, 0) is None && standard@ == integers(values@),
                Err(error) => first_violation(values@, 0) == Some(error),
            },
    {
        proof {
            reveal_with_fuel(first_violation, 5);
        }
        let h = values[0];
        let s = values[1];
        let l = values[2];
        let a = values[3];
        if h < 0 || h > 360 {
            return Err(BoundsError { channel: Channel::Hue, value: h });
        }
        if s < 0 || s > 100 {
            return Err(BoundsError { channel: Channel::Saturation, value: s });
        }
        if l < 0 || l > 100 {
            return Err(BoundsError { channel: Channel::Lightness, value: l });
        }
        if a < 0 || a > 100 {
            return Err(BoundsError { channel: Channel::Alpha, value: a });
        }
        let standard = StandardHsla([h as u16, s as u16, l as u16, a as u16]);
        assert(standard@ =~= integers(values@));
        Ok(standard)
    }

    /// The four values, `[h, s, l, a]`, each within its domain.
    pub fn values(&self) -> (values: [u16; 4])
        ensures
            values@.len() == 4,
            self@.len() == 4,
            forall|i: int| 0 <= i < 4 ==> #[trigger] values@[i] == self@[i],
            forall|i: int| 0 <= i < 4 ==> #[trigger] values@[i] <= standard_limit(channel_at(i)),
    {
        proof {
            use_type_invariant(self);
        }
        self.0
    }

    /// The colour that the standard colour denotes: the hue divided by
    /// 360, the other channels divided by 100.
    pub fn to_hsla(&self) -> (color: Hsla)
        ensures
            color@ == normalized(self@),
            color@.in_range(),
    {
        proof {
            use_type_invariant(self);
        }
        let values = self.0;
        let full: i64 = CHANNEL_MAX as i64;
        let h: i64 = values[0] as i64 * full / 360;
        let s: i64 = values[1] as i64 * full / 100;
        let l: i64 = values[2] as i64 * full / 100;
        let a: i64 = values[3] as i64 * full / 100;
        hsla(h, s, l, a)
    }
}

/// The fields that the commas of a text part it into. A text without a
/// comma is one field; so is the empty text.
pub open spec fn split_fields(text: Seq<char>) -> Seq<Seq<char>>
    decreases text.len(),
{
    if text.len() == 0 {
        seq![Seq::<char>::empty()]
    } else {
        let before = split_fields(text.drop_last());
        if text.last() == ',' {
            before.push(Seq::<char>::empty())
        } else {
            before.update(before.len() - 1, before.last().push(text.last()))
        }
    }
}

/// The character is one of the digits `0` to `9`.
pub open spec fn is_digit(c: char) -> bool {
    '0' as int <= c as int <= '9' as int
}

/// The text holds digits only.
pub open spec fn all_digits(text: Seq<char>) -> bool {
    forall|i: int| 0 <= i < text.len() ==> is_digit(#[trigger] text[i])
}

/// The text is a whole number: one digit or more, and nothing else.
pub open spec fn is_numeral(text: Seq<char>) -> bool {
    text.len() > 0 && all_digits(text)
}

/// The number that the digits write in base ten.
pub open spec fn numeral_value(digits: Seq<char>) -> nat
    decreases digits.len(),
{
    if digits.len() == 0 {
        0
    } else {
        10 * numeral_value(digits.drop_last()) + (digits.last() as int - '0' as int) as nat
    }
}

/// The number as an `i64`; one too large for that becomes `i64::MAX`.
pub open spec fn capped(value: nat) -> i64 {
    if value >= i64::MAX {
        i64::MAX
    } else {
        value as i64
    }
}

/// The four standard values that a text `h,s,l,a` writes. The text needs
/// four fields, each a whole number; what follows a fourth comma is not read.
pub open spec fn standard_text(text: Seq<char>) -> Result<Seq<i64>, ParseError> {
    let fields = split_fields(text);
    if fields.len() < 4 {
        Err(ParseError::Fields)
    } else if exists|i: int| 0 <= i < 4 && !is_numeral(#[trigger] fields[i]) {
        Err(ParseError::Number)
    } else {
        Ok(Seq::new(4, |i: int| capped(numeral_value(fields[i]))))
    }
}

/// What the reader of a text knows after the characters of `prefix`:
/// how many of the first four fields are complete, whether all of those
/// are whole numbers and which, and how the field that it is in stands.
spec fn scanned(
    prefix: Seq<char>,
    values: Seq<i64>,
    done: int,
    valid: bool,
    digits: bool,
    empty: bool,
    value: i64,
) -> bool {
    let fields = split_fields(prefix);
    &&& fields.len() >= 1
    &&& values.len() == 4
    &&& done == if fields.len() - 1 < 4 {
        fields.len() - 1
    } else {
        4
    }
    &&& valid == forall|j: int| 0 <= j < done ==> is_numeral(#[trigger] fields[j])
    &&& forall|j: int|
        0 <= j < done && is_numeral(#[trigger] fields[j]) ==> values[j] == capped(numeral_value(fields[j]))
    &&& done < 4 ==> {
        &&& empty == (fields.last().len() == 0)
        &&& digits == all_digits(fields.last())
        &&& digits ==> value == capped(numeral_value(fields.last()))
    }
}

proof fn split_step(prefix: Seq<char>, c: char)
    ensures
        split_fields(prefix).len() >= 1,
        split_fields(prefix.push(c)) == if c == ',' {
            split_fields(prefix).push(Seq::<char>::empty())
        } else {
            split_fields(prefix).update(
                split_fields(prefix).len() - 1,
                split_fields(prefix).last().push(c),
            )
        },
    decreases prefix.len(),
{
    if prefix.len() > 0 {
        split_step(prefix.drop_last(), prefix.last());
        assert(prefix.drop_last().push(prefix.last()) =~= prefix);
    }
    assert(prefix.push(c).drop_last() =~= prefix);
}

fn digit_value(c: char) -> (value: Option<u8>)
    ensures
        match value {
            Some(digit) => is_digit(c) && digit == c as int - '0' as int,
            None => !is_digit(c),
        },
{
    let code: u32 = c as u32;
    if 48 <= code && code <= 57 {
        Some((code - 48) as u8)
    } else {
        None
    }
}

fn next_value(value: i64, digit: u8) -> (next: i64)
    requires
        0 <= value,
        digit <= 9,
    ensures
        forall|v: nat| value == capped(v) ==> next == #[trigger] capped(10 * v + digit as nat),
        0 <= next,
{
    if value > (i64::MAX - digit as i64) / 10 {
        i64::MAX
    } else {
        value * 10 + digit as i64
    }
}

impl StandardHsla {
    /// Reads a colour from a text `h,s,l,a` of four whole numbers.
    ///
    /// Fails with a parse error where the text has fewer than four fields
    /// or one of the four is no whole number, and with a bounds error where
    /// a number lies outside the domain of its channel.
    pub fn from_text(text: &str) -> (made: Result<StandardHsla, ThemeError>)
        ensures
            match standard_text(text@) {
                Err(error) => made == Err::<StandardHsla, ThemeError>(ThemeError::Parse(error)),
                Ok(values) => match first_violation(values, 0) {
                    Some(error) => made == Err::<StandardHsla, ThemeError>(ThemeError::Bounds(error)),
                    None => made is Ok && made->Ok_0@ == integers(values),
                },
            },
    {
        let mut values: [i64; 4] = [0, 0, 0, 0];
        let mut done: usize = 0;
        let mut valid = true;
        let mut digits = true;
        let mut empty = true;
        let mut value: i64 = 0;
        proof {
            assert(text@.take(0) =~= Seq::<char>::empty());
        }
        for c in it: text.chars()
            invariant
                it.seq() == text@,
                0 <= value,
                done <= 4,
                scanned(text@.take(it.index() as int), values@, done as int, valid, digits, empty, value),
        {
            let ghost prefix = text@.take(it.index() as int);
            let ghost before = split_fields(prefix);
            let ghost after = split_fields(prefix.push(c));
            let ghost completed = values@;
            proof {
                split_step(prefix, c);
                assert(text@.take(it.index() + 1) =~= prefix.push(c));
                assert forall|j: int| 0 <= j < before.len() - 1 implies #[trigger] after[j] == before[j] by {}
                assert forall|j: int| 0 <= j < before.len() - 1 implies after[j] == #[trigger] before[j] by {}
            }
            if done < 4 {
                if c == ',' {
                    if empty || !digits {
                        valid = false;
                    }
                    values[done] = value;
                    done += 1;
                    digits = true;
                    empty = true;
                    value = 0;
                    proof {
                        assert(after[done - 1] == before.last());
                        assert(after.last() =~= Seq::<char>::empty());
                        assert forall|j: int| 0 <= j < done - 1 implies values@[j] == completed[j] by {}
                    }
                } else {
                    let ghost field = before.last().push(c);
                    let ghost number = numeral_value(before.last());
                    match digit_value(c) {
                        Some(digit) => {
                            if digits {
                                value = next_value(value, digit);
                                assert(value == capped(10 * number + digit as nat));
                            }
                        },
                        None => {
                            digits = false;
                        },
                    }
                    empty = false;
                    proof {
                        assert(after.last() == field);
                        assert(field.drop_last() =~= before.last());
                        assert(numeral_value(field) == 10 * number + (c as int - '0' as int) as nat);
                        if all_digits(before.last()) && is_digit(c) {
                            assert forall|i: int| 0 <= i < field.len() implies is_digit(
                                #[trigger] field[i],
                            ) by {
                                if i < field.len() - 1 {
                                    assert(field[i] == before.last()[i]);
                                }
                            }
                        } else if all_digits(field) {
                            assert(is_digit(field[field.len() - 1]));
                            assert forall|i: int| 0 <= i < before.last().len() implies is_digit(
                                #[trigger] before.last()[i],
                            ) by {
                                assert(field[i] == before.last()[i]);
                            }
                        }
                        assert(all_digits(field) == (all_digits(before.last()) && is_digit(c)));
                    }
                }
            }
        }
        proof {
            assert(text@.take(text@.len() as int) =~= text@);
        }
        let ghost fields = split_fields(text@);
        if done < 3 {
            return Err(ThemeError::Parse(ParseError::Fields));
        }
        if done == 3 {
            if empty || !digits {
                valid = false;
            }
            values[3] = value;
        }
        if !valid {
            return Err(ThemeError::Parse(ParseError::Number));
        }
        proof {
            assert(values@ =~= Seq::new(4, |i: int| capped(numeral_value(fields[i]))));
        }
        match StandardHsla::new(values) {
            Ok(standard) => Ok(standard),
            Err(error) => Err(ThemeError::Bounds(error)),
        }
    }
}

/// The colour that a text `h,s,l,a` in standard units denotes: the hue
/// divided by 360, the other channels divided by 100.
///
/// Fails as `StandardHsla::from_text` does.
pub fn hsla_to_zed_hsla(input_hsla: &str) -> (made: Result<Hsla, ThemeError>)
    ensures
        match standard_text(input_hsla@) {
            Err(error) => made == Err::<Hsla, ThemeError>(ThemeError::Parse(error)),
            Ok(values) => match first_violation(values, 0) {
                Some(error) => made == Err::<Hsla, ThemeError>(ThemeError::Bounds(error)),
                None => made is Ok && made->Ok_0@ == normalized(integers(values)),
            },
        },
{
    match StandardHsla::from_text(input_hsla) {
        Ok(standard) => Ok(standard.to_hsla()),
        Err(error) => Err(error),
    }
}

/// A colour as a document writes it.
#[derive(Clone, Copy, Debug, PartialEq, Eq)]
pub enum ZedHsla {
    /// Standard units, already checked against their domains.
    StandardHsla(StandardHsla),
    /// The colour itself.
    Hsla(Hsla),
}

/// What an encoded colour holds: four standard values, or four channels.
pub enum Encoded {
    Standard(Seq<int>),
    Normalized(Channels),
}

impl Encoded {
    /// The colour that either encoding denotes.
    pub open spec fn color(self) -> Channels {
        match self {
            Encoded::Standard(standard) => normalized(standard),
            Encoded::Normalized(color) => color,
        }
    }
}

impl View for ZedHsla {
    type V = Encoded;

    open spec fn view(&self) -> Encoded {
        match self {
            ZedHsla::StandardHsla(standard) => Encoded::Standard(standard@),
            ZedHsla::Hsla(color) => Encoded::Normalized(color@),
        }
    }
}

impl ZedHsla {
    /// The colour that the encoding denotes.
    pub fn to_hsla(&self) -> (color: Hsla)
        ensures
            color@ == self@.color(),
            color@.in_range(),
    {
        match self {
            ZedHsla::StandardHsla(standard) => standard.to_hsla(),
            ZedHsla::Hsla(color) => {
                proof {
                    use_type_invariant(color);
                    color.well_formed_in_range();
                }
                *color
            },
        }
    }
}

/// A number as it stands in a document: a whole number, or a fraction in
/// units of `1 / CHANNEL_MAX`.
#[derive(Debug, Clone, Copy, PartialEq, Eq, Structural)]
pub enum NumberDocument {
    Whole(i64),
    Fraction(i64),
}

/// The four whole numbers of a list that holds just those.
pub open spec fn whole_numbers(numbers: Seq<NumberDocument>) -> Option<Seq<i64>> {
    if numbers.len() == 4 && forall|i: int| 0 <= i < 4 ==> #[trigger] numbers[i] is Whole {
        Some(Seq::new(4, |i: int| numbers[i]->Whole_0))
    } else {
        None
    }
}

/// The four fractions of a list that holds just those.
pub open spec fn fractions(numbers: Seq<NumberDocument>) -> Option<Seq<i64>> {
    if numbers.len() == 4 && forall|i: int| 0 <= i < 4 ==> #[trigger] numbers[i] is Fraction {
        Some(Seq::new(4, |i: int| numbers[i]->Fraction_0))
    } else {
        None
    }
}

/// What the numbers of a colour encode.
///
/// Four whole numbers are standard values, and each must lie within its
/// domain. Four fractions are channels, and are brought into range. Any
/// other list writes no colour.
pub open spec fn decoded(numbers: Seq<NumberDocument>) -> Result<Encoded, ThemeError> {
    match whole_numbers(numbers) {
        Some(values) => match first_violation(values, 0) {
            Some(error) => Err(ThemeError::Bounds(error)),
            None => Ok(Encoded::Standard(integers(values))),
        },
        None => match fractions(numbers) {
            Some(units) => Ok(
                Encoded::Normalized(
                    Channels::clamped(units[0] as int, units[1] as int, units[2] as int, units[3] as int),
                ),
            ),
            None => Err(ThemeError::Parse(ParseError::Color)),
        },
    }
}

/// The numbers that write an encoded colour down: standard values as whole
/// numbers, channels as fractions.
pub open spec fn written(encoded: Encoded) -> Seq<NumberDocument> {
    match encoded {
        Encoded::Standard(standard) => Seq::new(4, |i: int| NumberDocument::Whole(standard[i] as i64)),
        Encoded::Normalized(color) => seq![
            NumberDocument::Fraction(color.h as i64),
            NumberDocument::Fraction(color.s as i64),
            NumberDocument::Fraction(color.l as i64),
            NumberDocument::Fraction(color.a as i64),
        ],
    }
}

impl ZedHsla {
    /// Reads a colour from the numbers of a document.
    ///
    /// Four whole numbers are tried as standard values first; four
    /// fractions are channels. Fails with a bounds error on a standard
    /// value outside its domain, and with a parse error on any other list.
    pub fn from_document(numbers: &Vec<NumberDocument>) -> (made: Result<ZedHsla, ThemeError>)
        ensures
            match made {
                Ok(color) => decoded(numbers@) == Ok::<Encoded, ThemeError>(color@),
                Err(error) => decoded(numbers@) == Err::<Encoded, ThemeError>(error),
            },
    {
        if numbers.len() != 4 {
            return Err(ThemeError::Parse(ParseError::Color));
        }
        match (numbers[0], numbers[1], numbers[2], numbers[3]) {
            (
                NumberDocument::Whole(h),
                NumberDocument::Whole(s),
                NumberDocument::Whole(l),
                NumberDocument::Whole(a),
            ) => {
                let values: [i64; 4] = [h, s, l, a];
                proof {
                    assert(whole_numbers(numbers@) == Some(values@)) by {
                        assert(values@ =~= Seq::new(4, |i: int| numbers@[i]->Whole_0));
                    }
                }
                match StandardHsla::new(values) {
                    Ok(standard) => Ok(ZedHsla::StandardHsla(standard)),
                    Err(error) => Err(ThemeError::Bounds(error)),
                }
            },
            (
                NumberDocument::Fraction(h),
                NumberDocument::Fraction(s),
                NumberDocument::Fraction(l),
                NumberDocument::Fraction(a),
            ) => {
                proof {
                    assert(numbers@[0] !is Whole);
                }
                Ok(ZedHsla::Hsla(hsla(h, s, l, a)))
            },
            _ => {
                proof {
                    if numbers@[0] is Whole {
                        assert(numbers@[1] is Fraction || numbers@[2] is Fraction || numbers@[3] is Fraction);
                    } else {
                        assert(numbers@[1] is Whole || numbers@[2] is Whole || numbers@[3] is Whole);
                    }
                }
                Err(ThemeError::Parse(ParseError::Color))
            },
        }
    }

    /// The numbers that write the colour down in a document, in the
    /// encoding in which the colour is held. Reading them gives the colour
    /// again.
    pub fn to_document(&self) -> (numbers: Vec<NumberDocument>)
        ensures
            numbers@ == written(self@),
            decoded(numbers@) == Ok::<Encoded, ThemeError>(self@),
    {
        let mut numbers: Vec<NumberDocument> = Vec::new();
        match self {
            ZedHsla::StandardHsla(standard) => {
                let values = standard.values();
                numbers.push(NumberDocument::Whole(values[0] as i64));
                numbers.push(NumberDocument::Whole(values[1] as i64));
                numbers.push(NumberDocument::Whole(values[2] as i64));
                numbers.push(NumberDocument::Whole(values[3] as i64));
                proof {
                    assert(numbers@ =~= written(self@));
                    let whole = whole_numbers(numbers@)->Some_0;
                    assert(integers(whole) =~= standard@);
                    reveal_with_fuel(first_violation, 5);
                }
            },
            ZedHsla::Hsla(color) => {
                numbers.push(NumberDocument::Fraction(color.h() as i64));
                numbers.push(NumberDocument::Fraction(color.s() as i64));
                numbers.push(NumberDocument::Fraction(color.l() as i64));
                numbers.push(NumberDocument::Fraction(color.a() as i64));
                proof {
                    assert(numbers@ =~= written(self@));
                    assert(numbers@[0] !is Whole);
                }
            },
        }
        numbers
    }
}

} // verus!
