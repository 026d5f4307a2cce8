//! Durations as they are written on a command line: a whole number and a
//! unit, `ms`, `s` or `m`.
//!
//! White space around the text is ignored. The unit is looked for at the
//! end: `ms` first, then `s`, then `m`. A unit that is written more than
//! once in a row counts once (`5ss` is five seconds). What stands before it
//! has to be a number that fits in 64 bits: digits, with at most a `+` in
//! front.

use vstd::prelude::*;
use vstd::string::StringExecFns;
use vstd::string::StrSliceExecFns;
use crate::text::chars_of;

verus! {

/// Nanoseconds in a millisecond.
pub const NANOS_PER_MILLI: u128 = 1_000_000;

/// Nanoseconds in a second.
pub const NANOS_PER_SEC: u128 = 1_000_000_000;

/// Seconds in a minute.
pub const SECS_PER_MINUTE: u64 = 60;

/// Why a text is no duration.
#[derive(Clone, Debug, PartialEq, Eq)]
pub enum DurationError {
    /// Nothing stands before the unit.
    Empty,
    /// What stands before the unit is not a number.
    InvalidDigit,
    /// The number, or the number of seconds it stands for, does not fit in
    /// 64 bits.
    Overflow,
    /// The text, given here without the white space around it, does not
    /// end in a unit.
    UnknownUnit(String),
}

/// A [`DurationError`], as mathematical values.
pub enum Fault {
    Empty,
    InvalidDigit,
    Overflow,
    UnknownUnit(Seq<char>),
}

impl View for DurationError {
    type V = Fault;

    open spec fn view(&self) -> Fault {
        match *self {
            DurationError::Empty => Fault::Empty,
            DurationError::InvalidDigit => Fault::InvalidDigit,
            DurationError::Overflow => Fault::Overflow,
            DurationError::UnknownUnit(text) => Fault::UnknownUnit(text@),
        }
    }
}

/// White space, as Unicode defines it.
pub open spec fn is_space(c: char) -> bool {
    let code = c as u32;
    ||| 0x09 <= code <= 0x0D
    ||| code == 0x20
    ||| code == 0x85
    ||| code == 0xA0
    ||| code == 0x1680
    ||| 0x2000 <= code <= 0x200A
    ||| code == 0x2028
    ||| code == 0x2029
    ||| code == 0x202F
    ||| code == 0x205F
    ||| code == 0x3000
}

/// One of the digits `0` to `9`.
pub open spec fn is_digit(c: char) -> bool {
    '0' <= c <= '9'
}

/// The number that a digit stands for.
pub open spec fn digit_value(c: char) -> nat
    recommends
        is_digit(c),
{
    (c as u32 - '0' as u32) as nat
}

/// `text` without the white space at its start.
pub open spec fn trim_start(text: Seq<char>) -> Seq<char>
    decreases text.len(),
{
    if text.len() > 0 && is_space(text.first()) {
        trim_start(text.drop_first())
    } else {
        text
    }
}

/// `text` without the white space at its end.
pub open spec fn trim_end(text: Seq<char>) -> Seq<char>
    decreases text.len(),
{
    if text.len() > 0 && is_space(text.last()) {
        trim_end(text.drop_last())
    } else {
        text
    }
}

/// `text` without the white space around it.
pub open spec fn trim(text: Seq<char>) -> Seq<char> {
    trim_end(trim_start(text))
}

/// Whether `text` ends in `suffix`.
pub open spec fn ends_with(text: Seq<char>, suffix: Seq<char>) -> bool {
    &&& suffix.len() <= text.len()
    &&& text.subrange(text.len() - suffix.len(), text.len() as int) == suffix
}

/// `text` without `suffix` at its end, however often it stands there.
pub open spec fn strip_repeated(text: Seq<char>, suffix: Seq<char>) -> Seq<char>
    decreases text.len(),
{
    if suffix.len() > 0 && ends_with(text, suffix) {
        strip_repeated(text.take(text.len() - suffix.len()), suffix)
    } else {
        text
    }
}

/// How many digits `text` begins with.
pub open spec fn digit_run(text: Seq<char>) -> nat
    decreases text.len(),
{
    if text.len() > 0 && is_digit(text.first()) {
        1 + digit_run(text.drop_first())
    } else {
        0
    }
}

/// The number that `digits` spell in base ten.
pub open spec fn decimal_value(digits: Seq<char>) -> nat
    decreases digits.len(),
{
    if digits.len() == 0 {
        0
    } else {
        decimal_value(digits.drop_last()) * 10 + digit_value(digits.last())
    }
}

/// What the digits at the start of `body` come to: their value where it
/// fits in 64 bits and nothing follows them, else what is wrong first.
pub open spec fn digits_of(body: Seq<char>) -> Result<u64, Fault> {
    let run = digit_run(body);
    let value = decimal_value(body.take(run as int));
    if value > u64::MAX {
        Err(Fault::Overflow)
    } else if run < body.len() {
        Err(Fault::InvalidDigit)
    } else {
        Ok(value as u64)
    }
}

/// The number that `text` spells: digits, with at most a `+` in front.
///
/// Read from the left, the first thing that is wrong decides: a number
/// that has outgrown 64 bits before anything but a digit is met is an
/// overflow.
pub open spec fn number_of(text: Seq<char>) -> Result<u64, Fault> {
    if text.len() == 0 {
        Err(Fault::Empty)
    } else {
        let body = if text.len() > 1 && text.first() == '+' {
            text.drop_first()
        } else {
            text
        };
        digits_of(body)
    }
}

/// `ms`, the unit of milliseconds.
pub open spec fn unit_millis() -> Seq<char> {
    seq!['m', 's']
}

/// `s`, the unit of seconds.
pub open spec fn unit_secs() -> Seq<char> {
    seq!['s']
}

/// `m`, the unit of minutes.
pub open spec fn unit_minutes() -> Seq<char> {
    seq!['m']
}

/// The nanoseconds of `count` units of `nanos` nanoseconds each.
pub open spec fn scaled(count: Result<u64, Fault>, nanos: nat) -> Result<u128, Fault> {
    match count {
        Ok(value) => Ok((value * nanos) as u128),
        Err(fault) => Err(fault),
    }
}

/// The seconds of a number of minutes.
pub open spec fn minutes_to_secs(count: Result<u64, Fault>) -> Result<u64, Fault> {
    match count {
        Ok(value) => if value * SECS_PER_MINUTE <= u64::MAX {
            Ok((value * SECS_PER_MINUTE) as u64)
        } else {
            Err(Fault::Overflow)
        },
        Err(fault) => Err(fault),
    }
}

/// The duration that `text` stands for, in nanoseconds.
pub open spec fn duration_of(text: Seq<char>) -> Result<u128, Fault> {
    let t = trim(text);
    if ends_with(t, unit_millis()) {
        scaled(number_of(strip_repeated(t, unit_millis())), NANOS_PER_MILLI as nat)
    } else if ends_with(t, unit_secs()) {
        scaled(number_of(strip_repeated(t, unit_secs())), NANOS_PER_SEC as nat)
    } else if ends_with(t, unit_minutes()) {
        scaled(
            minutes_to_secs(number_of(strip_repeated(t, unit_minutes()))),
            NANOS_PER_SEC as nat,
        )
    } else {
        Err(Fault::UnknownUnit(t))
    }
}

/// What a result of [`parse_duration`] says, as mathematical values.
pub open spec fn outcome(result: Result<u128, DurationError>) -> Result<u128, Fault> {
    match result {
        Ok(nanos) => Ok(nanos),
        Err(error) => Err(error@),
    }
}

/// What a result of reading a number says, as mathematical values.
pub open spec fn number_outcome(result: Result<u64, DurationError>) -> Result<u64, Fault> {
    match result {
        Ok(value) => Ok(value),
        Err(error) => Err(error@),
    }
}

/// The text of an error.
pub open spec fn message_of(fault: Fault) -> Seq<char> {
    match fault {
        Fault::Empty => "cannot parse integer from empty string"@,
        Fault::InvalidDigit => "invalid digit found in string"@,
        Fault::Overflow => "number too large to fit in target type"@,
        Fault::UnknownUnit(text) => "Invalid duration format: "@ + text,
    }
}

impl DurationError {
    /// The text of the error, for the one who wrote the duration.
    pub fn message(&self) -> (text: String)
        ensures
            text@ == message_of(self@),
    {
        match self {
            DurationError::Empty => String::from_str("cannot parse integer from empty string"),
            DurationError::InvalidDigit => String::from_str("invalid digit found in string"),
            DurationError::Overflow => String::from_str(
                "number too large to fit in target type",
            ),
            DurationError::UnknownUnit(given) => {
                let mut text = String::from_str("Invalid duration format: ");
                text.append(given.as_str());
                text
            },
        }
    }
}

/// A prefix of digits spells no more than a longer one.
proof fn lemma_decimal_value_grows(digits: Seq<char>, shorter: int, longer: int)
    requires
        0 <= shorter <= longer <= digits.len(),
    ensures
        decimal_value(digits.take(shorter)) <= decimal_value(digits.take(longer)),
    decreases longer - shorter,
{
    if shorter < longer {
        lemma_decimal_value_grows(digits, shorter, longer - 1);
        assert(digits.take(longer).drop_last() == digits.take(longer - 1));
    }
}

/// A text that begins with `count` digits, and goes on with something else
/// or ends there, has a run of `count` digits.
proof fn lemma_digit_run_found(text: Seq<char>, count: int)
    requires
        0 <= count <= text.len(),
        forall|i: int| 0 <= i < count ==> is_digit(#[trigger] text[i]),
        count == text.len() || !is_digit(text[count]),
    ensures
        digit_run(text) == count,
    decreases count,
{
    if count > 0 {
        let rest = text.drop_first();
        assert forall|i: int| 0 <= i < count - 1 implies is_digit(#[trigger] rest[i]) by {
            assert(rest[i] == text[i + 1]);
        }
        if count < text.len() {
            assert(rest[count - 1] == text[count]);
        }
        lemma_digit_run_found(rest, count - 1);
        assert(is_digit(text[0]));
    }
}

/// A text that begins with `count` digits has a run of at least as many.
proof fn lemma_digit_run_at_least(text: Seq<char>, count: int)
    requires
        0 <= count <= text.len(),
        forall|i: int| 0 <= i < count ==> is_digit(#[trigger] text[i]),
    ensures
        count <= digit_run(text) <= text.len(),
    decreases text.len(),
{
    if text.len() > 0 && is_digit(text.first()) {
        let rest = text.drop_first();
        if count > 0 {
            assert forall|i: int| 0 <= i < count - 1 implies is_digit(#[trigger] rest[i]) by {
                assert(rest[i] == text[i + 1]);
            }
            lemma_digit_run_at_least(rest, count - 1);
        } else {
            lemma_digit_run_at_least(rest, 0);
        }
    } else {
        if count > 0 {
            assert(is_digit(text[0]));
        }
    }
}

fn is_space_char(c: char) -> (space: bool)
    ensures
        space == is_space(c),
{
    let code: u32 = c as u32;
    (0x09 <= code && code <= 0x0D) || code == 0x20 || code == 0x85 || code == 0xA0 || code
        == 0x1680 || (0x2000 <= code && code <= 0x200A) || code == 0x2028 || code == 0x2029
        || code == 0x202F || code == 0x205F || code == 0x3000
}

/// Where `chars[start..end]` stops once every `m` followed by `s` at its
/// end is taken off.
fn strip_millis(chars: &Vec<char>, start: usize, end: usize) -> (stop: usize)
    requires
        start <= end <= chars@.len(),
    ensures
        start <= stop <= end,
        chars@.subrange(start as int, stop as int) == strip_repeated(
            chars@.subrange(start as int, end as int),
            unit_millis(),
        ),
{
    let mut stop: usize = end;
    while stop - start >= 2 && chars[stop - 2] == 'm' && chars[stop - 1] == 's'
        invariant
            start <= stop <= end <= chars@.len(),
            strip_repeated(chars@.subrange(start as int, stop as int), unit_millis())
                == strip_repeated(chars@.subrange(start as int, end as int), unit_millis()),
        decreases stop,
    {
        proof {
            let t = chars@.subrange(start as int, stop as int);
            assert(t.subrange(t.len() - 2, t.len() as int) == unit_millis());
            assert(t.take(t.len() - 2) == chars@.subrange(start as int, stop - 2));
        }
        stop = stop - 2;
    }
    proof {
        let t = chars@.subrange(start as int, stop as int);
        if t.len() >= 2 {
            let tail = t.subrange(t.len() - 2, t.len() as int);
            assert(tail[0] == chars@[stop - 2]);
            assert(tail[1] == chars@[stop - 1]);
            assert(unit_millis()[0] == 'm' && unit_millis()[1] == 's');
        }
    }
    stop
}

/// Where `chars[start..end]` stops once every `unit` at its end is taken
/// off.
fn strip_unit(chars: &Vec<char>, start: usize, end: usize, unit: char) -> (stop: usize)
    requires
        start <= end <= chars@.len(),
    ensures
        start <= stop <= end,
        chars@.subrange(start as int, stop as int) == strip_repeated(
            chars@.subrange(start as int, end as int),
            seq![unit],
        ),
{
    let mut stop: usize = end;
    while stop > start && chars[stop - 1] == unit
        invariant
            start <= stop <= end <= chars@.len(),
            strip_repeated(chars@.subrange(start as int, stop as int), seq![unit])
                == strip_repeated(chars@.subrange(start as int, end as int), seq![unit]),
        decreases stop,
    {
        proof {
            let t = chars@.subrange(start as int, stop as int);
            assert(t.subrange(t.len() - 1, t.len() as int) == seq![unit]);
            assert(t.take(t.len() - 1) == chars@.subrange(start as int, stop - 1));
        }
        stop = stop - 1;
    }
    proof {
        let t = chars@.subrange(start as int, stop as int);
        if t.len() >= 1 {
            let tail = t.subrange(t.len() - 1, t.len() as int);
            assert(tail[0] == chars@[stop - 1]);
            assert(seq![unit][0] == unit);
        }
    }
    stop
}

/// The number that the digits `chars[first..end]` spell.
fn parse_digits(chars: &Vec<char>, first: usize, end: usize) -> (result: Result<
    u64,
    DurationError,
>)
    requires
        first <= end <= chars@.len(),
    ensures
        number_outcome(result) == digits_of(chars@.subrange(first as int, end as int)),
{
    let ghost body = chars@.subrange(first as int, end as int);
    let mut value: u64 = 0;
    let mut i: usize = first;
    while i < end
        invariant
            first <= i <= end <= chars@.len(),
            body == chars@.subrange(first as int, end as int),
            forall|k: int| 0 <= k < i - first ==> is_digit(#[trigger] body[k]),
            value == decimal_value(body.take(i - first)),
        decreases end - i,
    {
        let c: char = chars[i];
        assert(body[i - first] == c);
        if !('0' <= c && c <= '9') {
            proof {
                lemma_digit_run_found(body, i - first);
            }
            return Err(DurationError::InvalidDigit);
        }
        let digit: u64 = (c as u32 - '0' as u32) as u64;
        let ghost longer = body.take(i - first + 1);
        proof {
            assert(longer.drop_last() == body.take(i - first));
            assert(longer.last() == c);
            assert(decimal_value(longer) == value * 10 + digit);
        }
        if value > (u64::MAX - digit) / 10 {
            proof {
                lemma_digit_run_at_least(body, i - first + 1);
                let run = digit_run(body) as int;
                lemma_decimal_value_grows(body.take(run), i - first + 1, run);
                assert(body.take(run).take(i - first + 1) == longer);
                assert(body.take(run).take(run) == body.take(run));
            }
            return Err(DurationError::Overflow);
        }
        value = value * 10 + digit;
        i = i + 1;
    }
    proof {
        lemma_digit_run_found(body, end - first);
        assert(body.take(end - first) == body);
    }
    Ok(value)
}

/// The number that `chars[start..end]` spells.
fn parse_number(chars: &Vec<char>, start: usize, end: usize) -> (result: Result<
    u64,
    DurationError,
>)
    requires
        start <= end <= chars@.len(),
    ensures
        number_outcome(result) == number_of(chars@.subrange(start as int, end as int)),
{
    let ghost text = chars@.subrange(start as int, end as int);
    if start == end {
        return Err(DurationError::Empty);
    }
    let first: usize = if end - start > 1 && chars[start] == '+' {
        start + 1
    } else {
        start
    };
    proof {
        let body = chars@.subrange(first as int, end as int);
        assert(text.first() == chars@[start as int]);
        if first > start {
            assert(text.drop_first() == body);
        } else {
            assert(text == body);
        }
    }
    parse_digits(chars, first, end)
}

/// The duration that `text` stands for, in nanoseconds.
///
/// The text is a whole number and a unit: `ms` for milliseconds, `s` for
/// seconds, `m` for minutes. See [`duration_of`] for the grammar in full, and
/// for which error comes when.
pub fn parse_duration(text: &str) -> (result: Result<u128, DurationError>)
    ensures
        outcome(result) == duration_of(text@),
{
    let chars = chars_of(text);
    let len: usize = chars.len();

    let mut start: usize = 0;
    assert(chars@.skip(0) == chars@);
    while start < len && is_space_char(chars[start])
        invariant
            start <= len == chars@.len(),
            trim_start(chars@) == trim_start(chars@.skip(start as int)),
        decreases len - start,
    {
        assert(chars@.skip(start as int).drop_first() == chars@.skip(start + 1));
        start = start + 1;
    }
    let ghost leading = chars@.skip(start as int);
    assert(leading == trim_start(chars@)) by {
        if start < len {
            assert(leading.first() == chars@[start as int]);
        }
    }

    let mut end: usize = len;
    while end > start && is_space_char(chars[end - 1])
        invariant
            start <= end <= len == chars@.len(),
            leading == chars@.skip(start as int),
            trim_end(leading) == trim_end(chars@.subrange(start as int, end as int)),
        decreases end,
    {
        proof {
            let t = chars@.subrange(start as int, end as int);
            assert(t.last() == chars@[end - 1]);
            assert(t.drop_last() == chars@.subrange(start as int, end - 1));
        }
        end = end - 1;
    }
    let ghost t = chars@.subrange(start as int, end as int);
    assert(t == trim(text@)) by {
        assert(chars@.subrange(start as int, len as int) == leading);
        if end > start {
            assert(t.last() == chars@[end - 1]);
        }
    }
    proof {
        if t.len() >= 2 {
            let tail = t.subrange(t.len() - 2, t.len() as int);
            assert(tail[0] == chars@[end - 2]);
            assert(tail[1] == chars@[end - 1]);
            assert(unit_millis()[0] == 'm' && unit_millis()[1] == 's');
            assert(ends_with(t, unit_millis()) <==> chars@[end - 2] == 'm' && chars@[end - 1]
                == 's') by {
                if chars@[end - 2] == 'm' && chars@[end - 1] == 's' {
                    assert(tail == unit_millis());
                }
            }
        }
        if t.len() >= 1 {
            let tail = t.subrange(t.len() - 1, t.len() as int);
            assert(tail[0] == chars@[end - 1]);
            assert(unit_secs()[0] == 's');
            assert(unit_minutes()[0] == 'm');
            assert(ends_with(t, unit_secs()) <==> chars@[end - 1] == 's') by {
                if chars@[end - 1] == 's' {
                    assert(tail == unit_secs());
                }
            }
            assert(ends_with(t, unit_minutes()) <==> chars@[end - 1] == 'm') by {
                if chars@[end - 1] == 'm' {
                    assert(tail == unit_minutes());
                }
            }
        }
    }

    if end - start >= 2 && chars[end - 2] == 'm' && chars[end - 1] == 's' {
        let stop = strip_millis(&chars, start, end);
        match parse_number(&chars, start, stop) {
            Ok(count) => {
                assert(count * NANOS_PER_MILLI <= u128::MAX) by (nonlinear_arith)
                    requires
                        count <= u64::MAX,
                ;
                Ok(count as u128 * NANOS_PER_MILLI)
            },
            Err(error) => Err(error),
        }
    } else if end > start && chars[end - 1] == 's' {
        let stop = strip_unit(&chars, start, end, 's');
        match parse_number(&chars, start, stop) {
            Ok(count) => {
                assert(count * NANOS_PER_SEC <= u128::MAX) by (nonlinear_arith)
                    requires
                        count <= u64::MAX,
                ;
                Ok(count as u128 * NANOS_PER_SEC)
            },
            Err(error) => Err(error),
        }
    } else if end > start && chars[end - 1] == 'm' {
        let stop = strip_unit(&chars, start, end, 'm');
        match parse_number(&chars, start, stop) {
            Ok(count) => match count.checked_mul(SECS_PER_MINUTE) {
                Some(secs) => {
                    assert(secs * NANOS_PER_SEC <= u128::MAX) by (nonlinear_arith)
                        requires
                            secs <= u64::MAX,
                    ;
                    Ok(secs as u128 * NANOS_PER_SEC)
                },
                None => Err(DurationError::Overflow),
            },
            Err(error) => Err(error),
        }
    } else {
        let given = text.substring_char(start, end);
        Err(DurationError::UnknownUnit(given.to_owned()))
    }
}

} // verus!
