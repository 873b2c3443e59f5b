//! Text and raw-token primitives shared by the other modules.

use vstd::prelude::*;
use vstd::utf8::{decode_utf8, valid_utf8};

verus! {

/// What `String::from_utf8_lossy` makes of a byte sequence.
pub uninterp spec fn lossy_text(bytes: Seq<u8>) -> Seq<char>;

/// Appends one character, by `String::push`: the text afterwards is the text
/// before with `c` at its end.
#[verifier::external_body]
pub(crate) fn push_char(s: &mut String, c: char)
    ensures
        final(s)@ == old(s)@.push(c),
{
    s.push(c);
}

/// Decodes a raw token, by `String::from_utf8`: the text when the bytes are
/// well-formed UTF-8, nothing otherwise.
#[verifier::external_body]
pub(crate) fn decode(bytes: &Vec<u8>) -> (r: Option<String>)
    ensures
        r.is_some() == valid_utf8(bytes@),
        r.is_some() ==> r.unwrap()@ == decode_utf8(bytes@),
{
    String::from_utf8(bytes.clone()).ok()
}

/// Decodes a raw token for display, by `String::from_utf8_lossy`: well-formed
/// bytes give their text; malformed parts are replaced.
#[verifier::external_body]
pub(crate) fn decode_lossy(bytes: &Vec<u8>) -> (r: String)
    ensures
        r@ == lossy_text(bytes@),
        valid_utf8(bytes@) ==> r@ == decode_utf8(bytes@),
{
    String::from_utf8_lossy(bytes).into_owned()
}

/// How a raw token is shown in a message: its text where it is
/// well-formed, else its text with what is malformed replaced.
pub open spec fn shown_text(bytes: Seq<u8>) -> Seq<char> {
    if valid_utf8(bytes) {
        decode_utf8(bytes)
    } else {
        lossy_text(bytes)
    }
}

/// The text of a raw token for a message.
pub fn show(bytes: &Vec<u8>) -> (r: String)
    ensures
        r@ == shown_text(bytes@),
{
    decode_lossy(bytes)
}

/// The bytes of a text.
pub fn encode(s: &str) -> (r: Vec<u8>)
    ensures
        r@ == vstd::utf8::encode_utf8(s@),
{
    s.as_bytes_vec()
}

/// Whether two texts are the same.
pub fn same(a: &str, b: &str) -> (r: bool)
    ensures
        r == (a@ == b@),
{
    let x = String::from_str(a);
    let y = String::from_str(b);
    x == y
}

/// Whether a text begins with a dash.
pub open spec fn dashed(s: Seq<char>) -> bool {
    s.len() > 0 && s[0] == '-'
}

/// Whether a text begins with a dash.
pub fn starts_with_dash(s: &str) -> (r: bool)
    ensures
        r == dashed(s@),
{
    s.unicode_len() > 0 && s.get_char(0) == '-'
}

/// `a` followed by `b`.
pub fn join(a: &str, b: &str) -> (r: String)
    ensures
        r@ == a@ + b@,
{
    let mut r = String::from_str(a);
    r.append(b);
    r
}

/// Whether a text begins with two dashes.
pub open spec fn double_dashed(s: Seq<char>) -> bool {
    s.len() >= 2 && s[0] == '-' && s[1] == '-'
}

/// Whether a text begins with two dashes.
pub fn starts_with_two_dashes(s: &str) -> (r: bool)
    ensures
        r == double_dashed(s@),
{
    s.unicode_len() >= 2 && s.get_char(0) == '-' && s.get_char(1) == '-'
}

/// The text from its `n`-th character on.
pub fn skip_chars(s: &str, n: usize) -> (r: String)
    requires
        n <= s@.len(),
    ensures
        r@ == s@.skip(n as int),
{
    let len = s.unicode_len();
    String::from_str(s.substring_char(n, len))
}

/// `s` without the characters `c` at its front.
pub open spec fn trim_front(s: Seq<char>, c: char) -> Seq<char>
    decreases s.len(),
{
    if s.len() > 0 && s[0] == c {
        trim_front(s.drop_first(), c)
    } else {
        s
    }
}

/// `s` without the characters `c` at its end.
pub open spec fn trim_back(s: Seq<char>, c: char) -> Seq<char>
    decreases s.len(),
{
    if s.len() > 0 && s.last() == c {
        trim_back(s.drop_last(), c)
    } else {
        s
    }
}

/// `s` with every backslash that stands before an apostrophe left out,
/// read from the left.
pub open spec fn unescape(s: Seq<char>) -> Seq<char>
    decreases s.len(),
{
    if s.len() >= 2 && s[0] == '\\' && s[1] == '\'' {
        seq!['\''] + unescape(s.skip(2))
    } else if s.len() > 0 {
        seq![s[0]] + unescape(s.drop_first())
    } else {
        Seq::empty()
    }
}

/// The value of a string literal: the literal without the quotes around it
/// and with its escaped apostrophes plain.
pub open spec fn str_lit_value_spec(lit: Seq<char>) -> Seq<char> {
    unescape(trim_back(trim_front(lit, '"'), '"'))
}

/// The value of a string literal.
pub fn str_lit_value(lit: &str) -> (r: String)
    ensures
        r@ == str_lit_value_spec(lit@),
{
    let len = lit.unicode_len();
    let mut a: usize = 0;
    assert(lit@.skip(0) =~= lit@);
    while a < len && lit.get_char(a) == '"'
        invariant
            a <= len,
            len == lit@.len(),
            trim_front(lit@, '"') == trim_front(lit@.skip(a as int), '"'),
        decreases len - a,
    {
        assert(lit@.skip(a as int).drop_first() =~= lit@.skip(a + 1));
        a = a + 1;
    }
    let mut b: usize = len;
    assert(lit@.skip(a as int) =~= lit@.subrange(a as int, b as int));
    while b > a && lit.get_char(b - 1) == '"'
        invariant
            a <= b <= len,
            len == lit@.len(),
            trim_back(trim_front(lit@, '"'), '"') == trim_back(
                lit@.subrange(a as int, b as int),
                '"',
            ),
        decreases b,
    {
        assert(lit@.subrange(a as int, b as int).drop_last() =~= lit@.subrange(
            a as int,
            b - 1,
        ));
        b = b - 1;
    }
    let ghost body = lit@.subrange(a as int, b as int);
    let mut out = String::new();
    let mut i: usize = a;
    assert(body.skip(0) =~= body);
    assert(out@ + unescape(body) =~= unescape(body));
    while i < b
        invariant
            a <= i <= b <= len,
            len == lit@.len(),
            body == lit@.subrange(a as int, b as int),
            unescape(body) == out@ + unescape(body.skip(i - a)),
        decreases b - i,
    {
        let ghost before = out@;
        let ghost rest = body.skip(i - a);
        let c = lit.get_char(i);
        assert(rest[0] == c);
        if c == '\\' && i + 1 < b && lit.get_char(i + 1) == '\'' {
            assert(rest[1] == '\'');
            push_char(&mut out, '\'');
            assert(rest.skip(2) =~= body.skip(i + 2 - a));
            assert(before + (seq!['\''] + unescape(rest.skip(2))) =~= out@ + unescape(
                body.skip(i + 2 - a),
            ));
            i = i + 2;
        } else {
            push_char(&mut out, c);
            assert(rest.drop_first() =~= body.skip(i + 1 - a));
            assert(before + (seq![c] + unescape(rest.drop_first())) =~= out@ + unescape(
                body.skip(i + 1 - a),
            ));
            i = i + 1;
        }
    }
    assert(body.skip(b - a) =~= Seq::<char>::empty());
    assert(out@ + Seq::<char>::empty() =~= out@);
    out
}

/// `s` without one space at its front.
pub open spec fn strip_space_spec(s: Seq<char>) -> Seq<char> {
    if s.len() > 0 && s[0] == ' ' {
        s.drop_first()
    } else {
        s
    }
}

/// `s` without one space at its front.
pub fn strip_space(s: String) -> (r: String)
    ensures
        r@ == strip_space_spec(s@),
{
    if s.as_str().unicode_len() > 0 && s.as_str().get_char(0) == ' ' {
        skip_chars(s.as_str(), 1)
    } else {
        s
    }
}

/// The texts joined, with `sep` between each two.
pub open spec fn joined(parts: Seq<Seq<char>>, sep: Seq<char>) -> Seq<char>
    decreases parts.len(),
{
    if parts.len() == 0 {
        Seq::empty()
    } else if parts.len() == 1 {
        parts[0]
    } else {
        joined(parts.drop_last(), sep) + sep + parts.last()
    }
}

/// The views of a list of texts.
pub open spec fn texts_view(s: Seq<String>) -> Seq<Seq<char>> {
    s.map_values(|t: String| t@)
}

/// Joins the texts, with `sep` between each two.
pub fn join_all(parts: &Vec<String>, sep: &str) -> (r: String)
    ensures
        r@ == joined(texts_view(parts@), sep@),
{
    let ghost all = texts_view(parts@);
    let mut out = String::new();
    let mut i: usize = 0;
    while i < parts.len()
        invariant
            i <= parts@.len(),
            all == texts_view(parts@),
            out@ == joined(all.take(i as int), sep@),
        decreases parts@.len() - i,
    {
        proof {
            assert(all.take(i + 1).drop_last() =~= all.take(i as int));
            assert(all.take(i + 1).last() == parts@[i as int]@);
            if i == 0 {
                assert(out@ + parts@[0]@ =~= parts@[0]@);
            }
        }
        if i > 0 {
            out.append(sep);
        }
        out.append(parts[i].as_str());
        i = i + 1;
    }
    assert(all.take(parts@.len() as int) =~= all);
    out
}

} // verus!
