//! The values that arguments are coerced to, and the rules by which a text
//! is read as a value of a named type.

use vstd::prelude::*;
use crate::text::{encode, push_char, same};
use vstd::utf8::encode_utf8;

verus! {

/// One coerced occurrence of a flag or a positional.
#[derive(Debug, Clone, PartialEq, Eq)]
pub enum Value {
    /// An occurrence of a flag that takes no value.
    Unit,
    /// The raw bytes of a filesystem path.
    Path(Vec<u8>),
    /// The raw bytes of a platform string.
    OsStr(Vec<u8>),
    /// A number, read from text.
    Int(i128),
    /// A truth value, read from text.
    Bool(bool),
    /// A text, kept as it stands.
    Text(String),
}

/// A [`Value`] as the specifications see it.
pub enum ValueView {
    Unit,
    Path(Seq<u8>),
    OsStr(Seq<u8>),
    Int(int),
    Bool(bool),
    Text(Seq<char>),
}

impl View for Value {
    type V = ValueView;

    open spec fn view(&self) -> ValueView {
        match self {
            Value::Unit => ValueView::Unit,
            Value::Path(b) => ValueView::Path(b@),
            Value::OsStr(b) => ValueView::OsStr(b@),
            Value::Int(n) => ValueView::Int(*n as int),
            Value::Bool(b) => ValueView::Bool(*b),
            Value::Text(s) => ValueView::Text(s@),
        }
    }
}

impl Value {
    /// A value with the same content.
    pub fn copy(&self) -> (r: Value)
        ensures
            r@ == self@,
    {
        match self {
            Value::Unit => Value::Unit,
            Value::Path(b) => Value::Path(b.clone()),
            Value::OsStr(b) => Value::OsStr(b.clone()),
            Value::Int(n) => Value::Int(*n),
            Value::Bool(b) => Value::Bool(*b),
            Value::Text(s) => Value::Text(s.clone()),
        }
    }
}

/// How the text of a named type is read.
pub enum Scalar {
    /// A whole number between `min` and `max`; `signed` types accept a
    /// leading minus.
    Int { signed: bool, min: int, max: int },
    /// `true` or `false`.
    Bool,
    /// Any text.
    Text,
}

/// The reading rule of a type name. Names that the library does not know
/// are read as text.
pub open spec fn scalar_of(ty: Seq<char>) -> Scalar {
    if ty == "u8"@ {
        Scalar::Int { signed: false, min: 0, max: 0xff }
    } else if ty == "u16"@ {
        Scalar::Int { signed: false, min: 0, max: 0xffff }
    } else if ty == "u32"@ {
        Scalar::Int { signed: false, min: 0, max: 0xffff_ffff }
    } else if ty == "u64"@ || ty == "usize"@ {
        Scalar::Int { signed: false, min: 0, max: 0xffff_ffff_ffff_ffff }
    } else if ty == "i8"@ {
        Scalar::Int { signed: true, min: -0x80, max: 0x7f }
    } else if ty == "i16"@ {
        Scalar::Int { signed: true, min: -0x8000, max: 0x7fff }
    } else if ty == "i32"@ {
        Scalar::Int { signed: true, min: -0x8000_0000, max: 0x7fff_ffff }
    } else if ty == "i64"@ || ty == "isize"@ {
        Scalar::Int { signed: true, min: -0x8000_0000_0000_0000, max: 0x7fff_ffff_ffff_ffff }
    } else if ty == "bool"@ {
        Scalar::Bool
    } else {
        Scalar::Text
    }
}

/// Why a text is no number of the wanted type.
#[derive(Debug, Clone, Copy, PartialEq, Eq, Structural)]
pub enum IntError {
    Empty,
    InvalidDigit,
    TooLarge,
    TooSmall,
}

/// Whether a character is a decimal digit.
pub open spec fn is_digit(c: char) -> bool {
    '0' <= c && c <= '9'
}

/// The number that a decimal digit stands for.
pub open spec fn digit_value(c: char) -> int {
    c as int - '0' as int
}

/// Reads `digits` from the left, starting from `acc`: each digit extends the
/// number by one decimal place, away from zero. The first character that is
/// no digit, or the first place at which the number leaves the range, ends
/// the reading with its error.
pub open spec fn read_digits(digits: Seq<char>, acc: int, neg: bool, min: int, max: int) -> Result<
    int,
    IntError,
>
    decreases digits.len(),
{
    if digits.len() == 0 {
        Ok(acc)
    } else if !is_digit(digits[0]) {
        Err(IntError::InvalidDigit)
    } else {
        let next = if neg {
            acc * 10 - digit_value(digits[0])
        } else {
            acc * 10 + digit_value(digits[0])
        };
        if next > max {
            Err(IntError::TooLarge)
        } else if next < min {
            Err(IntError::TooSmall)
        } else {
            read_digits(digits.drop_first(), next, neg, min, max)
        }
    }
}

/// Reads a whole number: an optional sign (a minus only for signed types)
/// and at least one decimal digit.
pub open spec fn read_int(s: Seq<char>, signed: bool, min: int, max: int) -> Result<int, IntError> {
    if s.len() == 0 {
        Err(IntError::Empty)
    } else if s.len() == 1 && (s[0] == '+' || s[0] == '-') {
        Err(IntError::InvalidDigit)
    } else if s[0] == '+' {
        read_digits(s.drop_first(), 0, false, min, max)
    } else if s[0] == '-' && signed {
        read_digits(s.drop_first(), 0, true, min, max)
    } else {
        read_digits(s, 0, false, min, max)
    }
}

/// The message of an [`IntError`].
pub open spec fn int_error_text(e: IntError) -> Seq<char> {
    match e {
        IntError::Empty => "cannot parse integer from empty string"@,
        IntError::InvalidDigit => "invalid digit found in string"@,
        IntError::TooLarge => "number too large to fit in target type"@,
        IntError::TooSmall => "number too small to fit in target type"@,
    }
}

/// The message for a text that is no truth value.
pub open spec fn bool_error_text() -> Seq<char> {
    "provided string was not `true` or `false`"@
}

/// What a text of a named type is read as: the value, or the reason why it
/// is none.
pub open spec fn read_scalar(ty: Seq<char>, s: Seq<char>) -> Result<ValueView, Seq<char>> {
    match scalar_of(ty) {
        Scalar::Int { signed, min, max } => match read_int(s, signed, min, max) {
            Ok(n) => Ok(ValueView::Int(n)),
            Err(e) => Err(int_error_text(e)),
        },
        Scalar::Bool => if s == "true"@ {
            Ok(ValueView::Bool(true))
        } else if s == "false"@ {
            Ok(ValueView::Bool(false))
        } else {
            Err(bool_error_text())
        },
        Scalar::Text => Ok(ValueView::Text(s)),
    }
}

/// Reads a whole number between `min` and `max` from `s`.
pub fn parse_int(s: &str, signed: bool, min: i128, max: i128) -> (r: Result<i128, IntError>)
    requires
        -0x8000_0000_0000_0000 <= min <= 0 <= max <= 0xffff_ffff_ffff_ffff,
    ensures
        match r {
            Ok(n) => read_int(s@, signed, min as int, max as int) == Ok::<int, IntError>(n as int),
            Err(e) => read_int(s@, signed, min as int, max as int) == Err::<int, IntError>(e),
        },
{
    let len = s.unicode_len();
    if len == 0 {
        return Err(IntError::Empty);
    }
    let first = s.get_char(0);
    if len == 1 && (first == '+' || first == '-') {
        return Err(IntError::InvalidDigit);
    }
    let neg = first == '-' && signed;
    let start: usize = if first == '+' || neg { 1 } else { 0 };
    let mut acc: i128 = 0;
    let mut i: usize = start;
    assert(s@.skip(0) =~= s@);
    assert(s@.skip(1) =~= s@.drop_first());
    while i < len
        invariant
            start <= i <= len,
            len == s@.len(),
            min <= acc <= max,
            -0x8000_0000_0000_0000 <= min <= 0 <= max <= 0xffff_ffff_ffff_ffff,
            read_int(s@, signed, min as int, max as int) == read_digits(
                s@.skip(i as int),
                acc as int,
                neg,
                min as int,
                max as int,
            ),
        decreases len - i,
    {
        let c = s.get_char(i);
        assert(s@.skip(i as int)[0] == c);
        assert(s@.skip(i as int).drop_first() =~= s@.skip(i + 1));
        if !('0' <= c && c <= '9') {
            return Err(IntError::InvalidDigit);
        }
        let d: i128 = (c as u32 - '0' as u32) as i128;
        let next: i128 = if neg { acc * 10 - d } else { acc * 10 + d };
        if next > max {
            return Err(IntError::TooLarge);
        }
        if next < min {
            return Err(IntError::TooSmall);
        }
        acc = next;
        i = i + 1;
    }
    Ok(acc)
}

/// The message of an [`IntError`].
pub fn int_error_message(e: IntError) -> (r: String)
    ensures
        r@ == int_error_text(e),
{
    match e {
        IntError::Empty => String::from_str("cannot parse integer from empty string"),
        IntError::InvalidDigit => String::from_str("invalid digit found in string"),
        IntError::TooLarge => String::from_str("number too large to fit in target type"),
        IntError::TooSmall => String::from_str("number too small to fit in target type"),
    }
}

/// Whether the outcome of a reading is the one that the rules give.
pub open spec fn agrees(r: Result<Value, String>, want: Result<ValueView, Seq<char>>) -> bool {
    match r {
        Ok(v) => want == Ok::<ValueView, Seq<char>>(v@),
        Err(e) => want == Err::<ValueView, Seq<char>>(e@),
    }
}

fn parse_ranged(s: &str, signed: bool, min: i128, max: i128) -> (r: Result<Value, String>)
    requires
        -0x8000_0000_0000_0000 <= min <= 0 <= max <= 0xffff_ffff_ffff_ffff,
    ensures
        match r {
            Ok(v) => exists|n: i128|
                v == Value::Int(n) && read_int(s@, signed, min as int, max as int) == Ok::<
                    int,
                    IntError,
                >(n as int),
            Err(e) => exists|k: IntError|
                e@ == int_error_text(k) && read_int(s@, signed, min as int, max as int) == Err::<
                    int,
                    IntError,
                >(k),
        },
{
    match parse_int(s, signed, min, max) {
        Ok(n) => Ok(Value::Int(n)),
        Err(k) => Err(int_error_message(k)),
    }
}

/// Reads `s` as a value of the type named `ty`: the value, or the reason
/// why the text is none.
pub fn parse_scalar(ty: &str, s: &str) -> (r: Result<Value, String>)
    ensures
        agrees(r, read_scalar(ty@, s@)),
{
    if same(ty, "u8") {
        parse_ranged(s, false, 0, 0xff)
    } else if same(ty, "u16") {
        parse_ranged(s, false, 0, 0xffff)
    } else if same(ty, "u32") {
        parse_ranged(s, false, 0, 0xffff_ffff)
    } else if same(ty, "u64") || same(ty, "usize") {
        parse_ranged(s, false, 0, 0xffff_ffff_ffff_ffff)
    } else if same(ty, "i8") {
        parse_ranged(s, true, -0x80, 0x7f)
    } else if same(ty, "i16") {
        parse_ranged(s, true, -0x8000, 0x7fff)
    } else if same(ty, "i32") {
        parse_ranged(s, true, -0x8000_0000, 0x7fff_ffff)
    } else if same(ty, "i64") || same(ty, "isize") {
        parse_ranged(s, true, -0x8000_0000_0000_0000, 0x7fff_ffff_ffff_ffff)
    } else if same(ty, "bool") {
        if same(s, "true") {
            Ok(Value::Bool(true))
        } else if same(s, "false") {
            Ok(Value::Bool(false))
        } else {
            Err(String::from_str("provided string was not `true` or `false`"))
        }
    } else {
        Ok(Value::Text(String::from_str(s)))
    }
}

/// The character of a decimal digit.
pub open spec fn digit_char(d: int) -> char {
    (('0' as u8 + d) as u8) as char
}

/// The decimal digits of a number that is not negative, without leading
/// zeros.
pub open spec fn digits(n: int) -> Seq<char>
    decreases n,
{
    if n < 10 {
        seq![digit_char(n)]
    } else {
        digits(n / 10).push(digit_char(n % 10))
    }
}

/// A whole number in decimal, with a minus in front where it is negative.
pub open spec fn decimal(n: int) -> Seq<char> {
    if n < 0 {
        seq!['-'] + digits(-n)
    } else {
        digits(n)
    }
}

/// The raw token that a value is written as.
pub open spec fn render_spec(v: ValueView) -> Seq<u8> {
    match v {
        ValueView::Unit => Seq::empty(),
        ValueView::Path(b) => b,
        ValueView::OsStr(b) => b,
        ValueView::Int(n) => encode_utf8(decimal(n)),
        ValueView::Bool(b) => encode_utf8(if b { "true"@ } else { "false"@ }),
        ValueView::Text(s) => encode_utf8(s),
    }
}

/// Appends the decimal digits of `n` to `out`.
pub fn push_digits(n: u128, out: &mut String)
    ensures
        final(out)@ == old(out)@ + digits(n as int),
    decreases n,
{
    if n >= 10 {
        push_digits(n / 10, out);
    }
    let d: u8 = (n % 10) as u8;
    let c: char = (48u8 + d) as char;
    assert(c == digit_char((n % 10) as int));
    push_char(out, c);
    assert(out@ =~= old(out)@ + digits(n as int));
}

/// Writes a whole number in decimal.
pub fn int_text(n: i128) -> (r: String)
    ensures
        r@ == decimal(n as int),
{
    let mut out = String::new();
    if n < 0 {
        push_char(&mut out, '-');
        let m: u128 = if n == i128::MIN {
            0x8000_0000_0000_0000_0000_0000_0000_0000u128
        } else {
            (-n) as u128
        };
        push_digits(m, &mut out);
        assert(out@ =~= decimal(n as int));
    } else {
        push_digits(n as u128, &mut out);
        assert(out@ =~= decimal(n as int));
    }
    out
}

impl Value {
    /// Writes the value as the raw token that it is read back from.
    pub fn render(&self) -> (r: Vec<u8>)
        ensures
            r@ == render_spec(self@),
    {
        match self {
            Value::Unit => Vec::new(),
            Value::Path(b) => b.clone(),
            Value::OsStr(b) => b.clone(),
            Value::Int(n) => {
                let text = int_text(*n);
                encode(text.as_str())
            },
            Value::Bool(b) => if *b {
                encode("true")
            } else {
                encode("false")
            },
            Value::Text(s) => encode(s.as_str()),
        }
    }
}

} // verus!
