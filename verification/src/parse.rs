//! The grammar builder: from the tokens of a grammar's source to the tree
//! of commands.
//!
//! The source is a command block `cmd name { .. }` that holds flags
//! (`optional -s, --long value: Type`), positionals (`required name: Type`)
//! and nested commands, each of which may carry documentation in front.

use vstd::prelude::*;
use crate::ast::{
    cmds_view, lemma_cmds_view, opt_text, opt_val_view, Arg, ArgView, Arity, Cmd, CmdView, Flag,
    FlagView, Ty, TyView, Val, ValView, XFlags, XFlagsView,
};
use crate::text::{
    dashed, double_dashed, join, join_all, joined, push_char, same, skip_chars, starts_with_dash,
    starts_with_two_dashes, str_lit_value, str_lit_value_spec, strip_space, strip_space_spec,
    texts_view,
};

verus! {

/// How a group of tokens is bracketed.
#[derive(Debug, Clone, Copy, PartialEq, Eq, Structural)]
pub enum Delim {
    Parenthesis,
    Brace,
    Bracket,
    Invisible,
}

/// One token of a grammar's source.
#[derive(Debug, PartialEq, Eq)]
pub enum Token {
    /// A word.
    Ident(String),
    /// A single punctuation character.
    Punct(char),
    /// A literal, as it is written in the source.
    Literal(String),
    /// A bracketed run of tokens.
    Group(Delim, Vec<Token>),
}

/// A [`Token`] as the specifications see it.
pub enum TokenView {
    Ident(Seq<char>),
    Punct(char),
    Literal(Seq<char>),
    Group(Delim, Seq<TokenView>),
}

/// The views of a run of tokens.
pub open spec fn tokens_view(s: Seq<Token>) -> Seq<TokenView>
    decreases s,
{
    if s.len() == 0 {
        Seq::empty()
    } else {
        tokens_view(s.drop_last()).push(s.last().view())
    }
}

impl View for Token {
    type V = TokenView;

    open spec fn view(&self) -> TokenView
        decreases self,
    {
        match self {
            Token::Ident(s) => TokenView::Ident(s@),
            Token::Punct(c) => TokenView::Punct(*c),
            Token::Literal(s) => TokenView::Literal(s@),
            Token::Group(d, inner) => TokenView::Group(*d, tokens_view(inner@)),
        }
    }
}

/// The view of a run of tokens has the views of the tokens, place by
/// place.
pub proof fn lemma_tokens_view(s: Seq<Token>)
    ensures
        tokens_view(s).len() == s.len(),
        forall|i: int| 0 <= i < s.len() ==> #[trigger] tokens_view(s)[i] == s[i]@,
    decreases s.len(),
{
    if s.len() > 0 {
        lemma_tokens_view(s.drop_last());
        assert(tokens_view(s) == tokens_view(s.drop_last()).push(s.last().view()));
    }
}

/// A malformed grammar.
#[derive(Debug, PartialEq, Eq)]
pub struct SyntaxError {
    pub msg: String,
}

impl SyntaxError {
    /// The text to show to the user.
    pub fn to_string(&self) -> (s: String)
        ensures
            s@ == self.msg@,
    {
        self.msg.clone()
    }
}

/// Whether `r` is the wanted result at the wanted place, or the wanted
/// error.
pub open spec fn parsed<T: View>(
    r: Result<(T, usize), SyntaxError>,
    want: Result<(T::V, int), Seq<char>>,
) -> bool {
    match r {
        Ok((v, pos)) => want == Ok::<(T::V, int), Seq<char>>((v@, pos as int)),
        Err(e) => want == Err::<(T::V, int), Seq<char>>(e.msg@),
    }
}

/// Whether the token at `pos` is the word `kw`.
pub open spec fn at_keyword_spec(ts: Seq<TokenView>, pos: int, kw: Seq<char>) -> bool {
    0 <= pos < ts.len() && ts[pos] == TokenView::Ident(kw)
}

/// Whether the token `n` places after `pos` is the punctuation `c`.
pub open spec fn lookahead_punct_spec(ts: Seq<TokenView>, pos: int, c: char, n: int) -> bool {
    0 <= pos + n < ts.len() && ts[pos + n] == TokenView::Punct(c)
}

/// How a token is shown in a message; a group by its opening bracket.
pub open spec fn shown(t: TokenView) -> Seq<char> {
    match t {
        TokenView::Ident(s) => s,
        TokenView::Punct(c) => seq![c],
        TokenView::Literal(s) => s,
        TokenView::Group(d, _) => match d {
            Delim::Parenthesis => "("@,
            Delim::Brace => "{"@,
            Delim::Bracket => "["@,
            Delim::Invisible => ""@,
        },
    }
}

/// How the token at `pos` is shown; nothing at the end of the input.
pub open spec fn shown_at(ts: Seq<TokenView>, pos: int) -> Seq<char> {
    if 0 <= pos < ts.len() {
        shown(ts[pos])
    } else {
        Seq::empty()
    }
}

/// A name is a run of words and dashes in which no two words follow each
/// other: its text from `pos` on, and the place after it. `prev_ident`
/// tells whether the token before `pos` was a word of the name.
pub open spec fn scan_name(ts: Seq<TokenView>, pos: int, prev_ident: bool) -> (Seq<char>, int)
    decreases ts.len() - pos,
{
    if pos < 0 || pos >= ts.len() {
        (Seq::empty(), pos)
    } else {
        match ts[pos] {
            TokenView::Punct(c) => if c == '-' {
                let (rest, end) = scan_name(ts, pos + 1, false);
                (seq!['-'] + rest, end)
            } else {
                (Seq::empty(), pos)
            },
            TokenView::Ident(s) => if !prev_ident {
                let (rest, end) = scan_name(ts, pos + 1, true);
                (s + rest, end)
            } else {
                (Seq::empty(), pos)
            },
            _ => (Seq::empty(), pos),
        }
    }
}

/// The name that begins at `pos`, where there is one.
pub open spec fn eat_name_spec(ts: Seq<TokenView>, pos: int) -> Option<(Seq<char>, int)> {
    let (text, end) = scan_name(ts, pos, false);
    if text.len() == 0 {
        None
    } else {
        Some((text, end))
    }
}

/// The name that begins at `pos`; an error where there is none.
pub open spec fn expect_name_spec(ts: Seq<TokenView>, pos: int) -> Result<
    (Seq<char>, int),
    Seq<char>,
> {
    match eat_name_spec(ts, pos) {
        Some(found) => Ok(found),
        None => Err("expected a name, got: `"@ + shown_at(ts, pos) + "`"@),
    }
}

/// A scan never goes back, and ends within the input.
pub proof fn lemma_scan_name_bounds(ts: Seq<TokenView>, pos: int, prev_ident: bool)
    requires
        0 <= pos <= ts.len(),
    ensures
        pos <= scan_name(ts, pos, prev_ident).1 <= ts.len(),
        scan_name(ts, pos, prev_ident).0.len() > 0 ==> scan_name(ts, pos, prev_ident).1 > pos,
    decreases ts.len() - pos,
{
    if pos < ts.len() {
        match ts[pos] {
            TokenView::Punct(c) => if c == '-' {
                lemma_scan_name_bounds(ts, pos + 1, false);
            },
            TokenView::Ident(s) => if !prev_ident {
                lemma_scan_name_bounds(ts, pos + 1, true);
            },
            _ => {},
        }
    }
}

/// Whether the token at `pos` is the word `kw`.
pub fn at_keyword(ts: &Vec<Token>, pos: usize, kw: &str) -> (b: bool)
    ensures
        b == at_keyword_spec(tokens_view(ts@), pos as int, kw@),
        b ==> pos < ts@.len() <= usize::MAX,
{
    proof {
        lemma_tokens_view(ts@);
    }
    if pos >= ts.len() {
        return false;
    }
    match &ts[pos] {
        Token::Ident(s) => same(s.as_str(), kw),
        _ => false,
    }
}

/// Whether the token at `pos` is the punctuation `c`.
pub fn at_punct(ts: &Vec<Token>, pos: usize, c: char) -> (b: bool)
    ensures
        b == lookahead_punct_spec(tokens_view(ts@), pos as int, c, 0),
        b ==> pos < ts@.len() <= usize::MAX,
{
    proof {
        lemma_tokens_view(ts@);
    }
    if pos >= ts.len() {
        return false;
    }
    match &ts[pos] {
        Token::Punct(p) => *p == c,
        _ => false,
    }
}

/// Whether the token `n` places after `pos` is the punctuation `c`.
pub fn lookahead_punct(ts: &Vec<Token>, pos: usize, c: char, n: usize) -> (b: bool)
    ensures
        b == lookahead_punct_spec(tokens_view(ts@), pos as int, c, n as int),
{
    proof {
        lemma_tokens_view(ts@);
    }
    if n >= ts.len() || pos >= ts.len() - n {
        return false;
    }
    at_punct(ts, pos + n, c)
}

/// How the token at `pos` is shown in a message.
pub fn show_at(ts: &Vec<Token>, pos: usize) -> (r: String)
    ensures
        r@ == shown_at(tokens_view(ts@), pos as int),
{
    proof {
        lemma_tokens_view(ts@);
    }
    if pos >= ts.len() {
        return String::new();
    }
    match &ts[pos] {
        Token::Ident(s) => s.clone(),
        Token::Punct(c) => {
            let mut r = String::new();
            push_char(&mut r, *c);
            assert(r@ =~= seq![*c]);
            r
        },
        Token::Literal(s) => s.clone(),
        Token::Group(d, _) => match d {
            Delim::Parenthesis => String::from_str("("),
            Delim::Brace => String::from_str("{"),
            Delim::Bracket => String::from_str("["),
            Delim::Invisible => String::from_str(""),
        },
    }
}

/// Takes the name that begins at `pos`, where there is one.
pub fn eat_name(ts: &Vec<Token>, pos: usize) -> (r: Option<(String, usize)>)
    requires
        pos <= ts@.len(),
    ensures
        match r {
            Some((name, end)) => eat_name_spec(tokens_view(ts@), pos as int) == Some(
                (name@, end as int),
            ) && pos < end <= ts@.len() && name@.len() > 0,
            None => eat_name_spec(tokens_view(ts@), pos as int).is_none(),
        },
{
    let ghost tv = tokens_view(ts@);
    proof {
        lemma_tokens_view(ts@);
    }
    let mut buf = String::new();
    let mut prev_ident = false;
    let mut i: usize = pos;
    assert(buf@ + scan_name(tv, i as int, prev_ident).0 =~= scan_name(tv, pos as int, false).0);
    loop
        invariant
            pos <= i <= ts@.len(),
            tv == tokens_view(ts@),
            tv.len() == ts@.len(),
            forall|j: int| 0 <= j < ts@.len() ==> #[trigger] tv[j] == ts@[j]@,
            scan_name(tv, pos as int, false).0 == buf@ + scan_name(tv, i as int, prev_ident).0,
            scan_name(tv, pos as int, false).1 == scan_name(tv, i as int, prev_ident).1,
        ensures
            scan_name(tv, i as int, prev_ident) == (Seq::<char>::empty(), i as int),
        decreases ts@.len() - i,
    {
        if i >= ts.len() {
            break ;
        }
        let ghost before = buf@;
        match &ts[i] {
            Token::Punct(c) => {
                if *c == '-' {
                    prev_ident = false;
                    push_char(&mut buf, '-');
                    assert(before + (seq!['-'] + scan_name(tv, i + 1, false).0) =~= buf@
                        + scan_name(tv, i + 1, false).0);
                } else {
                    break ;
                }
            },
            Token::Ident(s) => {
                if !prev_ident {
                    prev_ident = true;
                    buf.append(s.as_str());
                    assert(before + (s@ + scan_name(tv, i + 1, true).0) =~= buf@ + scan_name(
                        tv,
                        i + 1,
                        true,
                    ).0);
                } else {
                    break ;
                }
            },
            _ => {
                break ;
            },
        }
        i = i + 1;
    }
    proof {
        assert(buf@ + Seq::<char>::empty() =~= buf@);
        lemma_scan_name_bounds(tv, pos as int, false);
    }
    if buf.as_str().unicode_len() == 0 {
        None
    } else {
        Some((buf, i))
    }
}

/// An error with the given message.
pub fn fail(msg: &str) -> (e: SyntaxError)
    ensures
        e.msg@ == msg@,
{
    SyntaxError { msg: String::from_str(msg) }
}

/// An error whose message is `a`, `b` and `c` in a row.
pub fn fail3(a: &str, b: &str, c: &str) -> (e: SyntaxError)
    ensures
        e.msg@ == a@ + b@ + c@,
{
    let mut msg = join(a, b);
    msg.append(c);
    SyntaxError { msg }
}

/// The value of the string literal at `pos`.
pub open spec fn expect_string_spec(ts: Seq<TokenView>, pos: int) -> Result<
    (Seq<char>, int),
    Seq<char>,
> {
    if 0 <= pos < ts.len() {
        match ts[pos] {
            TokenView::Literal(l) => if l.len() > 0 && l[0] == '"' {
                Ok((str_lit_value_spec(l), pos + 1))
            } else {
                Err("expected a string"@)
            },
            _ => Err("expected a string"@),
        }
    } else {
        Err("expected a string"@)
    }
}

/// Takes the string literal at `pos`.
pub fn expect_string(ts: &Vec<Token>, pos: usize) -> (r: Result<(String, usize), SyntaxError>)
    ensures
        parsed(r, expect_string_spec(tokens_view(ts@), pos as int)),
        r.is_ok() ==> pos < ts@.len(),
{
    proof {
        lemma_tokens_view(ts@);
    }
    if pos >= ts.len() {
        return Err(fail("expected a string"));
    }
    match &ts[pos] {
        Token::Literal(l) => {
            if l.as_str().unicode_len() > 0 && l.as_str().get_char(0) == '"' {
                Ok((str_lit_value(l.as_str()), pos + 1))
            } else {
                Err(fail("expected a string"))
            }
        },
        _ => Err(fail("expected a string")),
    }
}

/// One piece of documentation at `pos`, where there is one: a `#` and a
/// bracketed `doc = "text"`. The text loses one space at its front.
pub open spec fn single_doc_spec(ts: Seq<TokenView>, pos: int) -> Result<
    Option<(Seq<char>, int)>,
    Seq<char>,
> {
    if !lookahead_punct_spec(ts, pos, '#', 0) {
        Ok(None)
    } else if pos + 1 >= ts.len() {
        Err("expected `{`"@)
    } else {
        match ts[pos + 1] {
            TokenView::Group(d, inner) => if d != Delim::Bracket {
                Err("expected `{`"@)
            } else if !at_keyword_spec(inner, 0, "doc"@) {
                Err("expected `doc`"@)
            } else if !lookahead_punct_spec(inner, 1, '=', 0) {
                Err("expected `=`"@)
            } else {
                match expect_string_spec(inner, 2) {
                    Err(e) => Err(e),
                    Ok((text, _)) => if inner.len() != 3 {
                        Err("expected `}`"@)
                    } else {
                        Ok(Some((strip_space_spec(text), pos + 2)))
                    },
                }
            },
            _ => Err("expected `{`"@),
        }
    }
}

/// Takes one piece of documentation at `pos`, where there is one.
pub fn opt_single_doc(ts: &Vec<Token>, pos: usize) -> (r: Result<
    Option<(String, usize)>,
    SyntaxError,
>)
    ensures
        match r {
            Ok(Some((line, next))) => single_doc_spec(tokens_view(ts@), pos as int) == Ok::<
                Option<(Seq<char>, int)>,
                Seq<char>,
            >(Some((line@, next as int))) && next == pos + 2 && next <= ts@.len(),
            Ok(None) => single_doc_spec(tokens_view(ts@), pos as int) == Ok::<
                Option<(Seq<char>, int)>,
                Seq<char>,
            >(None),
            Err(e) => single_doc_spec(tokens_view(ts@), pos as int) == Err::<
                Option<(Seq<char>, int)>,
                Seq<char>,
            >(e.msg@),
        },
{
    proof {
        lemma_tokens_view(ts@);
    }
    if !at_punct(ts, pos, '#') {
        return Ok(None);
    }
    let n = ts.len();
    if pos + 1 >= n {
        return Err(fail("expected `{`"));
    }
    match &ts[pos + 1] {
        Token::Group(d, inner) => {
            match d {
                Delim::Bracket => {},
                _ => { return Err(fail("expected `{`")); },
            }
            proof {
                lemma_tokens_view(inner@);
            }
            if !at_keyword(inner, 0, "doc") {
                return Err(fail("expected `doc`"));
            }
            if !at_punct(inner, 1, '=') {
                return Err(fail("expected `=`"));
            }
            match expect_string(inner, 2) {
                Err(e) => Err(e),
                Ok((text, _)) => {
                    if inner.len() != 3 {
                        Err(fail("expected `}`"))
                    } else {
                        Ok(Some((strip_space(text), pos + 2)))
                    }
                },
            }
        },
        _ => Err(fail("expected `{`")),
    }
}

/// The pieces of documentation that stand in a row from `pos` on, and the
/// place after them.
pub open spec fn doc_lines(ts: Seq<TokenView>, pos: int) -> Result<(Seq<Seq<char>>, int), Seq<char>>
    decreases ts.len() - pos,
{
    match single_doc_spec(ts, pos) {
        Err(e) => Err(e),
        Ok(None) => Ok((Seq::empty(), pos)),
        Ok(Some((line, next))) => match doc_lines(ts, next) {
            Err(e) => Err(e),
            Ok((rest, end)) => Ok((seq![line] + rest, end)),
        },
    }
}

/// The documentation in front of a declaration: its pieces joined by line
/// breaks, or nothing where the joined text is empty.
pub open spec fn opt_doc_spec(ts: Seq<TokenView>, pos: int) -> Result<
    (Option<Seq<char>>, int),
    Seq<char>,
> {
    match doc_lines(ts, pos) {
        Err(e) => Err(e),
        Ok((lines, end)) => {
            let text = joined(lines, "\n"@);
            Ok((if text.len() == 0 { None } else { Some(text) }, end))
        },
    }
}

/// Takes the documentation in front of a declaration.
pub fn opt_doc(ts: &Vec<Token>, pos: usize) -> (r: Result<(Option<String>, usize), SyntaxError>)
    requires
        pos <= ts@.len(),
    ensures
        match r {
            Ok((doc, end)) => opt_doc_spec(tokens_view(ts@), pos as int) == Ok::<
                (Option<Seq<char>>, int),
                Seq<char>,
            >((opt_text(doc), end as int)) && pos <= end <= ts@.len(),
            Err(e) => opt_doc_spec(tokens_view(ts@), pos as int) == Err::<
                (Option<Seq<char>>, int),
                Seq<char>,
            >(e.msg@),
        },
{
    let ghost tv = tokens_view(ts@);
    let mut lines: Vec<String> = Vec::new();
    let mut i: usize = pos;
    assert(texts_view(lines@) =~= Seq::empty());
    loop
        invariant
            pos <= i <= ts@.len(),
            tv == tokens_view(ts@),
            doc_lines(tv, pos as int) == match doc_lines(tv, i as int) {
                Err(e) => Err::<(Seq<Seq<char>>, int), Seq<char>>(e),
                Ok((rest, end)) => Ok((texts_view(lines@) + rest, end)),
            },
        ensures
            pos <= i <= ts@.len(),
            doc_lines(tv, pos as int) == Ok::<(Seq<Seq<char>>, int), Seq<char>>(
                (texts_view(lines@), i as int),
            ),
        decreases ts@.len() - i,
    {
        match opt_single_doc(ts, i) {
            Err(e) => { return Err(e); },
            Ok(None) => {
                assert(texts_view(lines@) + Seq::<Seq<char>>::empty() =~= texts_view(lines@));
                break ;
            },
            Ok(Some((line, next))) => {
                let ghost before = texts_view(lines@);
                let ghost l = line@;
                lines.push(line);
                proof {
                    assert(texts_view(lines@) =~= before.push(l));
                    if let Ok((rest, end)) = doc_lines(tv, next as int) {
                        assert(before + (seq![l] + rest) =~= texts_view(lines@) + rest);
                    }
                }
                i = next;
            },
        }
    }
    let text = join_all(&lines, "\n");
    if text.as_str().unicode_len() == 0 {
        Ok((None, i))
    } else {
        Ok((Some(text), i))
    }
}

/// Takes the name that begins at `pos`; an error where there is none.
pub fn expect_name(ts: &Vec<Token>, pos: usize) -> (r: Result<(String, usize), SyntaxError>)
    requires
        pos <= ts@.len(),
    ensures
        parsed(r, expect_name_spec(tokens_view(ts@), pos as int)),
        r matches Ok((name, end)) ==> pos < end <= ts@.len() && name@.len() > 0,
{
    match eat_name(ts, pos) {
        Some(found) => Ok(found),
        None => {
            let got = show_at(ts, pos);
            Err(fail3("expected a name, got: `", got.as_str(), "`"))
        },
    }
}

/// The arity that a declaration begins with.
pub open spec fn arity_spec(ts: Seq<TokenView>, pos: int) -> Result<(Arity, int), Seq<char>> {
    if at_keyword_spec(ts, pos, "optional"@) {
        Ok((Arity::Optional, pos + 1))
    } else if at_keyword_spec(ts, pos, "required"@) {
        Ok((Arity::Required, pos + 1))
    } else if at_keyword_spec(ts, pos, "repeated"@) {
        Ok((Arity::Repeated, pos + 1))
    } else {
        let got = match eat_name_spec(ts, pos) {
            Some((name, _)) => name,
            None => shown_at(ts, pos),
        };
        Err("expected one of `optional`, `required`, `repeated`, got `"@ + got + "`"@)
    }
}

/// Takes the arity that a declaration begins with.
pub fn arity(ts: &Vec<Token>, pos: usize) -> (r: Result<(Arity, usize), SyntaxError>)
    requires
        pos <= ts@.len(),
    ensures
        parsed(r, arity_spec(tokens_view(ts@), pos as int)),
        r matches Ok((_, end)) ==> end == pos + 1 && end <= ts@.len(),
{
    proof {
        lemma_tokens_view(ts@);
    }
    if at_keyword(ts, pos, "optional") {
        return Ok((Arity::Optional, pos + 1));
    }
    if at_keyword(ts, pos, "required") {
        return Ok((Arity::Required, pos + 1));
    }
    if at_keyword(ts, pos, "repeated") {
        return Ok((Arity::Repeated, pos + 1));
    }
    let got = match eat_name(ts, pos) {
        Some((name, _)) => name,
        None => show_at(ts, pos),
    };
    Err(fail3("expected one of `optional`, `required`, `repeated`, got `", got.as_str(), "`"))
}

/// The type of a name: the two types whose raw bytes are kept, or a type
/// that is read from text.
pub open spec fn ty_of(name: Seq<char>) -> TyView {
    if name == "PathBuf"@ {
        TyView::PathBuf
    } else if name == "OsString"@ {
        TyView::OsString
    } else {
        TyView::FromStr(name)
    }
}

/// The type that is named at `pos`.
pub open spec fn ty_spec(ts: Seq<TokenView>, pos: int) -> Result<(TyView, int), Seq<char>> {
    match expect_name_spec(ts, pos) {
        Err(e) => Err(e),
        Ok((name, end)) => Ok((ty_of(name), end)),
    }
}

/// Takes the type that is named at `pos`.
pub fn ty(ts: &Vec<Token>, pos: usize) -> (r: Result<(Ty, usize), SyntaxError>)
    requires
        pos <= ts@.len(),
    ensures
        parsed(r, ty_spec(tokens_view(ts@), pos as int)),
        r matches Ok((_, end)) ==> pos < end <= ts@.len(),
{
    let (name, end) = match expect_name(ts, pos) {
        Ok(found) => found,
        Err(e) => { return Err(e); },
    };
    let res = if same(name.as_str(), "PathBuf") {
        Ty::PathBuf
    } else if same(name.as_str(), "OsString") {
        Ty::OsString
    } else {
        Ty::FromStr(name)
    };
    Ok((res, end))
}

/// The value declaration at `pos`, where a colon after the next token
/// announces one: a name, the colon, and a type.
pub open spec fn opt_val_spec(ts: Seq<TokenView>, pos: int) -> Result<
    (Option<ValView>, int),
    Seq<char>,
> {
    if !lookahead_punct_spec(ts, pos, ':', 1) {
        Ok((None, pos))
    } else {
        match expect_name_spec(ts, pos) {
            Err(e) => Err(e),
            Ok((name, pos1)) => if !lookahead_punct_spec(ts, pos1, ':', 0) {
                Err("expected `:`"@)
            } else {
                match ty_spec(ts, pos1 + 1) {
                    Err(e) => Err(e),
                    Ok((ty, pos2)) => Ok((Some(ValView { name, ty }), pos2)),
                }
            },
        }
    }
}

/// Takes the value declaration at `pos`, where there is one.
pub fn opt_val(ts: &Vec<Token>, pos: usize) -> (r: Result<(Option<Val>, usize), SyntaxError>)
    requires
        pos <= ts@.len(),
    ensures
        match r {
            Ok((val, end)) => opt_val_spec(tokens_view(ts@), pos as int) == Ok::<
                (Option<ValView>, int),
                Seq<char>,
            >((opt_val_view(val), end as int)) && pos <= end <= ts@.len(),
            Err(e) => opt_val_spec(tokens_view(ts@), pos as int) == Err::<
                (Option<ValView>, int),
                Seq<char>,
            >(e.msg@),
        },
{
    proof {
        lemma_tokens_view(ts@);
    }
    if !lookahead_punct(ts, pos, ':', 1) {
        return Ok((None, pos));
    }
    let (name, pos1) = match expect_name(ts, pos) {
        Ok(found) => found,
        Err(e) => { return Err(e); },
    };
    if !at_punct(ts, pos1, ':') {
        return Err(fail("expected `:`"));
    }
    let (ty, pos2) = match ty(ts, pos1 + 1) {
        Ok(found) => found,
        Err(e) => { return Err(e); },
    };
    Ok((Some(Val { name, ty }), pos2))
}

/// The name of a command at `pos`: a name that does not begin with a dash.
pub open spec fn cmd_name_spec(ts: Seq<TokenView>, pos: int) -> Result<(Seq<char>, int), Seq<char>> {
    match expect_name_spec(ts, pos) {
        Err(e) => Err(e),
        Ok((name, end)) => if dashed(name) {
            Err("command name can't begin with `-`: `"@ + name + "`"@)
        } else {
            Ok((name, end))
        },
    }
}

/// Takes the name of a command at `pos`.
pub fn cmd_name(ts: &Vec<Token>, pos: usize) -> (r: Result<(String, usize), SyntaxError>)
    requires
        pos <= ts@.len(),
    ensures
        parsed(r, cmd_name_spec(tokens_view(ts@), pos as int)),
        r matches Ok((name, end)) ==> pos < end <= ts@.len(),
{
    let (name, end) = match expect_name(ts, pos) {
        Ok(found) => found,
        Err(e) => { return Err(e); },
    };
    if starts_with_dash(name.as_str()) {
        return Err(fail3("command name can't begin with `-`: `", name.as_str(), "`"));
    }
    Ok((name, end))
}

/// The name of a flag at `pos`: a name that begins with a dash.
pub open spec fn flag_name_spec(ts: Seq<TokenView>, pos: int) -> Result<
    (Seq<char>, int),
    Seq<char>,
> {
    match expect_name_spec(ts, pos) {
        Err(e) => Err(e),
        Ok((name, end)) => if !dashed(name) {
            Err("flag name should begin with `-`: `"@ + name + "`"@)
        } else {
            Ok((name, end))
        },
    }
}

/// Takes the name of a flag at `pos`.
pub fn flag_name(ts: &Vec<Token>, pos: usize) -> (r: Result<(String, usize), SyntaxError>)
    requires
        pos <= ts@.len(),
    ensures
        parsed(r, flag_name_spec(tokens_view(ts@), pos as int)),
        r matches Ok((name, end)) ==> pos < end <= ts@.len(),
{
    let (name, end) = match expect_name(ts, pos) {
        Ok(found) => found,
        Err(e) => { return Err(e); },
    };
    if !starts_with_dash(name.as_str()) {
        return Err(fail3("flag name should begin with `-`: `", name.as_str(), "`"));
    }
    Ok((name, end))
}

/// The long name of a flag whose first name, `name`, ends before `pos`:
/// `name` itself where it begins with two dashes; else the name after a
/// comma, which must begin with two dashes.
pub open spec fn long_name_spec(ts: Seq<TokenView>, pos: int, name: Seq<char>) -> Result<
    (Seq<char>, int),
    Seq<char>,
> {
    if double_dashed(name) {
        Ok((name, pos))
    } else if !lookahead_punct_spec(ts, pos, ',', 0) {
        Err("long option is required for `"@ + name + "`"@)
    } else {
        match flag_name_spec(ts, pos + 1) {
            Err(e) => Err(e),
            Ok((long, end)) => if !double_dashed(long) {
                Err("long name must begin with `--`: `"@ + long + "`"@)
            } else {
                Ok((long, end))
            },
        }
    }
}

/// The flag whose first name, `name`, ends before `pos`: a short name and a
/// long one, or a long one alone, and the value it takes, if any. The
/// names are kept without their dashes. The flag that asks for help
/// cannot be declared.
pub open spec fn flag_spec(ts: Seq<TokenView>, pos: int, name: Seq<char>) -> Result<
    (FlagView, int),
    Seq<char>,
> {
    match long_name_spec(ts, pos, name) {
        Err(e) => Err(e),
        Ok((long, pos1)) => if long == "--help"@ {
            Err("`--help` flag is generated automatically"@)
        } else {
            match opt_val_spec(ts, pos1) {
                Err(e) => Err(e),
                Ok((val, pos2)) => Ok(
                    (
                        FlagView {
                            arity: Arity::Required,
                            name: long.skip(2),
                            short: if double_dashed(name) {
                                None
                            } else {
                                Some(name.skip(1))
                            },
                            doc: None,
                            val,
                        },
                        pos2,
                    ),
                ),
            }
        },
    }
}

/// Takes the flag whose first name, `name`, ends before `pos`.
pub fn flag(ts: &Vec<Token>, pos: usize, name: String) -> (r: Result<(Flag, usize), SyntaxError>)
    requires
        pos <= ts@.len(),
        dashed(name@),
    ensures
        parsed(r, flag_spec(tokens_view(ts@), pos as int, name@)),
        r matches Ok((_, end)) ==> pos <= end <= ts@.len(),
{
    proof {
        lemma_tokens_view(ts@);
    }
    let short: Option<String>;
    let long: String;
    let pos1: usize;
    if starts_with_two_dashes(name.as_str()) {
        short = None;
        long = name;
        pos1 = pos;
    } else {
        if !at_punct(ts, pos, ',') {
            return Err(fail3("long option is required for `", name.as_str(), "`"));
        }
        let (found, end) = match flag_name(ts, pos + 1) {
            Ok(found) => found,
            Err(e) => { return Err(e); },
        };
        if !starts_with_two_dashes(found.as_str()) {
            return Err(fail3("long name must begin with `--`: `", found.as_str(), "`"));
        }
        short = Some(skip_chars(name.as_str(), 1));
        long = found;
        pos1 = end;
    }
    if same(long.as_str(), "--help") {
        return Err(fail("`--help` flag is generated automatically"));
    }
    let (val, pos2) = match opt_val(ts, pos1) {
        Ok(found) => found,
        Err(e) => { return Err(e); },
    };
    let res = Flag {
        arity: Arity::Required,
        name: skip_chars(long.as_str(), 2),
        short,
        doc: None,
        val,
    };
    Ok((res, pos2))
}

/// The names that stand in a row from `pos` on, and the place after them.
pub open spec fn aliases_spec(ts: Seq<TokenView>, pos: int) -> (Seq<Seq<char>>, int)
    decreases ts.len() - pos,
{
    if pos < 0 || pos > ts.len() {
        (Seq::empty(), pos)
    } else {
        match eat_name_spec(ts, pos) {
            None => (Seq::empty(), pos),
            Some((name, next)) => {
                proof {
                    lemma_scan_name_bounds(ts, pos, false);
                }
                let (rest, end) = aliases_spec(ts, next);
                (seq![name] + rest, end)
            },
        }
    }
}

/// Takes the names that stand in a row from `pos` on.
pub fn alias_names(ts: &Vec<Token>, pos: usize) -> (r: (Vec<String>, usize))
    requires
        pos <= ts@.len(),
    ensures
        aliases_spec(tokens_view(ts@), pos as int) == (texts_view(r.0@), r.1 as int),
        pos <= r.1 <= ts@.len(),
{
    let ghost tv = tokens_view(ts@);
    proof {
        lemma_tokens_view(ts@);
    }
    let mut names: Vec<String> = Vec::new();
    let mut i: usize = pos;
    assert(texts_view(names@) + aliases_spec(tv, pos as int).0 =~= aliases_spec(tv, pos as int).0);
    loop
        invariant
            pos <= i <= ts@.len(),
            tv == tokens_view(ts@),
            tv.len() == ts@.len(),
            aliases_spec(tv, pos as int).0 == texts_view(names@) + aliases_spec(tv, i as int).0,
            aliases_spec(tv, pos as int).1 == aliases_spec(tv, i as int).1,
        ensures
            pos <= i <= ts@.len(),
            aliases_spec(tv, pos as int) == (texts_view(names@), i as int),
        decreases ts@.len() - i,
    {
        match eat_name(ts, i) {
            None => {
                assert(texts_view(names@) + Seq::<Seq<char>>::empty() =~= texts_view(names@));
                break ;
            },
            Some((name, next)) => {
                let ghost before = texts_view(names@);
                let ghost n = name@;
                names.push(name);
                proof {
                    assert(texts_view(names@) =~= before.push(n));
                    assert(before + (seq![n] + aliases_spec(tv, next as int).0) =~= texts_view(
                        names@,
                    ) + aliases_spec(tv, next as int).0);
                }
                i = next;
            },
        }
    }
    (names, i)
}

/// The head of a command block at `pos`: the word `cmd`, the name, the
/// aliases, and the place of the braces that hold the body.
pub open spec fn header_spec(ts: Seq<TokenView>, pos: int) -> Result<
    (Seq<char>, Seq<Seq<char>>, int),
    Seq<char>,
> {
    if !at_keyword_spec(ts, pos, "cmd"@) {
        Err("expected `cmd`"@)
    } else {
        match cmd_name_spec(ts, pos + 1) {
            Err(e) => Err(e),
            Ok((name, pos1)) => {
                let (aliases, pos2) = aliases_spec(ts, pos1);
                if 0 <= pos2 < ts.len() && ts[pos2] is Group && ts[pos2]->Group_0 == Delim::Brace {
                    Ok((name, aliases, pos2))
                } else {
                    Err("expected `{`"@)
                }
            },
        }
    }
}

/// The head of a command block, as the builder holds it.
pub struct Header {
    pub name: String,
    pub aliases: Vec<String>,
    /// The place of the braces that hold the body.
    pub group: usize,
}

/// Takes the head of a command block at `pos`.
pub fn header(ts: &Vec<Token>, pos: usize) -> (r: Result<Header, SyntaxError>)
    requires
        pos <= ts@.len(),
    ensures
        match r {
            Ok(h) => header_spec(tokens_view(ts@), pos as int) == Ok::<
                (Seq<char>, Seq<Seq<char>>, int),
                Seq<char>,
            >((h.name@, texts_view(h.aliases@), h.group as int)) && pos < h.group < ts@.len()
                && ts@[h.group as int] is Group,
            Err(e) => header_spec(tokens_view(ts@), pos as int) == Err::<
                (Seq<char>, Seq<Seq<char>>, int),
                Seq<char>,
            >(e.msg@),
        },
{
    proof {
        lemma_tokens_view(ts@);
    }
    if !at_keyword(ts, pos, "cmd") {
        return Err(fail("expected `cmd`"));
    }
    let (name, pos1) = match cmd_name(ts, pos + 1) {
        Ok(found) => found,
        Err(e) => { return Err(e); },
    };
    let (aliases, pos2) = alias_names(ts, pos1);
    if pos2 >= ts.len() {
        return Err(fail("expected `{`"));
    }
    match &ts[pos2] {
        Token::Group(d, _) => match d {
            Delim::Brace => Ok(Header { name, aliases, group: pos2 }),
            _ => Err(fail("expected `{`")),
        },
        _ => Err(fail("expected `{`")),
    }
}

/// A declaration inside a command: a flag or a positional.
pub enum ItemView {
    Flag(FlagView),
    Arg(ArgView),
}

/// A declaration inside a command, as the builder holds it.
pub enum Item {
    Flag(Flag),
    Arg(Arg),
}

impl View for Item {
    type V = ItemView;

    open spec fn view(&self) -> ItemView {
        match self {
            Item::Flag(f) => ItemView::Flag(f@),
            Item::Arg(a) => ItemView::Arg(a@),
        }
    }
}

/// The declaration at `pos`, documented by `doc`: an arity, then a flag
/// (a name that begins with a dash) or a positional (a name, a colon and
/// a type).
pub open spec fn item_spec(ts: Seq<TokenView>, pos: int, doc: Option<Seq<char>>) -> Result<
    (ItemView, int),
    Seq<char>,
> {
    match arity_spec(ts, pos) {
        Err(e) => Err(e),
        Ok((arity, pos1)) => match expect_name_spec(ts, pos1) {
            Err(e) => Err(e),
            Ok((name, pos2)) => if dashed(name) {
                match flag_spec(ts, pos2, name) {
                    Err(e) => Err(e),
                    Ok((flag, pos3)) => Ok((ItemView::Flag(FlagView { arity, doc, ..flag }), pos3)),
                }
            } else if lookahead_punct_spec(ts, pos1, ':', 1) {
                if !lookahead_punct_spec(ts, pos2, ':', 0) {
                    Err("expected `:`"@)
                } else {
                    match ty_spec(ts, pos2 + 1) {
                        Err(e) => Err(e),
                        Ok((ty, pos3)) => Ok(
                            (ItemView::Arg(ArgView { arity, doc, val: ValView { name, ty } }), pos3),
                        ),
                    }
                }
            } else {
                Err("expected `--flag` or `arg: Type`"@)
            },
        },
    }
}

/// Takes the declaration at `pos`, documented by `doc`.
pub fn item(ts: &Vec<Token>, pos: usize, doc: Option<String>) -> (r: Result<
    (Item, usize),
    SyntaxError,
>)
    requires
        pos <= ts@.len(),
    ensures
        parsed(r, item_spec(tokens_view(ts@), pos as int, opt_text(doc))),
        r matches Ok((_, end)) ==> pos < end <= ts@.len(),
{
    proof {
        lemma_tokens_view(ts@);
    }
    let (arity, pos1) = match arity(ts, pos) {
        Ok(found) => found,
        Err(e) => { return Err(e); },
    };
    let is_val = lookahead_punct(ts, pos1, ':', 1);
    let (name, pos2) = match expect_name(ts, pos1) {
        Ok(found) => found,
        Err(e) => { return Err(e); },
    };
    if starts_with_dash(name.as_str()) {
        let (mut flag, pos3) = match flag(ts, pos2, name) {
            Ok(found) => found,
            Err(e) => { return Err(e); },
        };
        flag.doc = doc;
        flag.arity = arity;
        Ok((Item::Flag(flag), pos3))
    } else if is_val {
        if !at_punct(ts, pos2, ':') {
            return Err(fail("expected `:`"));
        }
        let (ty, pos3) = match ty(ts, pos2 + 1) {
            Ok(found) => found,
            Err(e) => { return Err(e); },
        };
        Ok((Item::Arg(Arg { arity, doc, val: Val { name, ty } }), pos3))
    } else {
        Err(fail("expected `--flag` or `arg: Type`"))
    }
}

/// A declaration ends after the place where it begins.
pub proof fn lemma_item_advances(ts: Seq<TokenView>, pos: int, doc: Option<Seq<char>>)
    requires
        0 <= pos <= ts.len(),
    ensures
        item_spec(ts, pos, doc) matches Ok((_, end)) ==> pos < end <= ts.len(),
{
    if let Ok((_, pos1)) = arity_spec(ts, pos) {
        lemma_scan_name_bounds(ts, pos1, false);
        if let Ok((name, pos2)) = expect_name_spec(ts, pos1) {
            if dashed(name) {
                lemma_flag_advances(ts, pos2, name);
            } else if pos2 + 1 <= ts.len() {
                lemma_scan_name_bounds(ts, pos2 + 1, false);
            }
        }
    }
}

/// A flag ends at or after the place where its first name ends.
pub proof fn lemma_flag_advances(ts: Seq<TokenView>, pos: int, name: Seq<char>)
    requires
        0 <= pos <= ts.len(),
    ensures
        flag_spec(ts, pos, name) matches Ok((_, end)) ==> pos <= end <= ts.len(),
{
    if pos + 1 <= ts.len() {
        lemma_scan_name_bounds(ts, pos + 1, false);
    }
    if let Ok((_, pos1)) = long_name_spec(ts, pos, name) {
        lemma_opt_val_advances(ts, pos1);
    }
}

/// A value declaration ends at or after the place where it begins.
pub proof fn lemma_opt_val_advances(ts: Seq<TokenView>, pos: int)
    requires
        0 <= pos <= ts.len(),
    ensures
        opt_val_spec(ts, pos) matches Ok((_, end)) ==> pos <= end <= ts.len(),
{
    lemma_scan_name_bounds(ts, pos, false);
    if let Ok((_, pos1)) = expect_name_spec(ts, pos) {
        if pos1 + 1 <= ts.len() {
            lemma_scan_name_bounds(ts, pos1 + 1, false);
        }
    }
}

/// The documentation in front of a declaration ends at or after the place
/// where it begins.
pub proof fn lemma_doc_bounds(ts: Seq<TokenView>, pos: int)
    requires
        0 <= pos <= ts.len(),
    ensures
        doc_lines(ts, pos) matches Ok((_, end)) ==> pos <= end <= ts.len(),
        opt_doc_spec(ts, pos) matches Ok((_, end)) ==> pos <= end <= ts.len(),
    decreases ts.len() - pos,
{
    if let Ok(Some((_, next))) = single_doc_spec(ts, pos) {
        lemma_doc_bounds(ts, next);
    }
}

/// The braces of a command block stand after the place where its head
/// begins.
pub proof fn lemma_header_advances(ts: Seq<TokenView>, pos: int)
    requires
        0 <= pos <= ts.len(),
    ensures
        header_spec(ts, pos) matches Ok((_, _, g)) ==> pos < g < ts.len(),
{
    if pos + 1 <= ts.len() {
        lemma_scan_name_bounds(ts, pos + 1, false);
        if let Ok((_, pos1)) = cmd_name_spec(ts, pos + 1) {
            lemma_aliases_bounds(ts, pos1);
        }
    }
}

/// A row of names ends at or after the place where it begins.
pub proof fn lemma_aliases_bounds(ts: Seq<TokenView>, pos: int)
    requires
        0 <= pos <= ts.len(),
    ensures
        pos <= aliases_spec(ts, pos).1 <= ts.len(),
    decreases ts.len() - pos,
{
    lemma_scan_name_bounds(ts, pos, false);
    if let Some((_, next)) = eat_name_spec(ts, pos) {
        lemma_aliases_bounds(ts, next);
    }
}

/// A command with nothing declared in it.
pub open spec fn empty_cmd(name: Seq<char>, aliases: Seq<Seq<char>>, idx: int) -> CmdView {
    CmdView {
        name,
        aliases,
        doc: None,
        args: Seq::empty(),
        flags: Seq::empty(),
        subcommands: Seq::empty(),
        default: false,
        idx,
    }
}

/// The flag that asks for help.
pub open spec fn help_flag() -> FlagView {
    FlagView {
        arity: Arity::Optional,
        name: "help"@,
        short: Some("h"@),
        doc: Some("Prints help information."@),
        val: None,
    }
}

/// The command with the flag that asks for help after its own flags.
pub open spec fn with_help(c: CmdView) -> CmdView {
    CmdView { flags: c.flags.push(help_flag()), ..c }
}

/// The tokens inside a group.
pub open spec fn inner_of(t: TokenView) -> Seq<TokenView> {
    match t {
        TokenView::Group(_, inner) => inner,
        _ => Seq::empty(),
    }
}

/// The most commands that a grammar can hold.
pub open spec fn max_commands() -> int {
    256
}

/// The command `acc` with the declarations that stand from `pos` to the
/// end of `ts` added to it, and the number for the next command.
///
/// Each declaration may carry documentation. A nested command gets the
/// next number, then its body is read, then it gets its help flag; it goes
/// to the end of the subcommands, or to their front when it is marked as
/// the default, which only one may be. Everything else is a flag or a
/// positional. A grammar without a name (`anon`) holds no commands.
pub open spec fn body_spec(
    ts: Seq<TokenView>,
    pos: int,
    anon: bool,
    acc: CmdView,
    next_idx: int,
) -> Result<(CmdView, int), Seq<char>>
    decreases ts, ts.len() - pos,
{
    if pos < 0 || pos >= ts.len() {
        Ok((acc, next_idx))
    } else {
        proof {
            lemma_doc_bounds(ts, pos);
        }
        match opt_doc_spec(ts, pos) {
            Err(e) => Err(e),
            Ok((doc, pos1)) => {
                let default = !anon && at_keyword_spec(ts, pos1, "default"@);
                let pos2 = if default {
                    pos1 + 1
                } else {
                    pos1
                };
                proof {
                    lemma_header_advances(ts, pos2);
                    lemma_item_advances(ts, pos2, doc);
                }
                if !anon && (default || at_keyword_spec(ts, pos2, "cmd"@)) {
                    match header_spec(ts, pos2) {
                        Err(e) => Err(e),
                        Ok((name, aliases, g)) => if next_idx >= max_commands() {
                            Err("too many commands"@)
                        } else {
                            match body_spec(
                                inner_of(ts[g]),
                                0,
                                false,
                                empty_cmd(name, aliases, next_idx),
                                next_idx + 1,
                            ) {
                                Err(e) => Err(e),
                                Ok((sub, idx2)) => if default && acc.default {
                                    Err("only one subcommand can be default"@)
                                } else {
                                    let sub = CmdView { doc, ..with_help(sub) };
                                    body_spec(
                                        ts,
                                        g + 1,
                                        anon,
                                        CmdView {
                                            subcommands: if default {
                                                seq![sub] + acc.subcommands
                                            } else {
                                                acc.subcommands.push(sub)
                                            },
                                            default: acc.default || default,
                                            ..acc
                                        },
                                        idx2,
                                    )
                                },
                            }
                        },
                    }
                } else {
                    match item_spec(ts, pos2, doc) {
                        Err(e) => Err(e),
                        Ok((ItemView::Flag(f), pos3)) => body_spec(
                            ts,
                            pos3,
                            anon,
                            CmdView { flags: acc.flags.push(f), ..acc },
                            next_idx,
                        ),
                        Ok((ItemView::Arg(a), pos3)) => body_spec(
                            ts,
                            pos3,
                            anon,
                            CmdView { args: acc.args.push(a), ..acc },
                            next_idx,
                        ),
                    }
                }
            },
        }
    }
}

/// Adds the flag that asks for help after the flags of a command.
pub fn add_help(cmd: &mut Cmd)
    ensures
        final(cmd)@ == with_help(old(cmd)@),
{
    let help = Flag {
        arity: Arity::Optional,
        name: String::from_str("help"),
        short: Some(String::from_str("h")),
        doc: Some(String::from_str("Prints help information.")),
        val: None,
    };
    let ghost before = cmd.flags@;
    cmd.flags.push(help);
    assert(cmd.flags@.map_values(|f: Flag| f@) =~= before.map_values(|f: Flag| f@).push(
        help_flag(),
    ));
}

/// A command with nothing declared in it.
pub fn fresh_cmd(name: String, aliases: Vec<String>, idx: u8) -> (c: Cmd)
    ensures
        c@ == empty_cmd(name@, texts_view(aliases@), idx as int),
{
    let c = Cmd {
        name,
        aliases,
        doc: None,
        args: Vec::new(),
        flags: Vec::new(),
        subcommands: Vec::new(),
        default: false,
        idx,
    };
    assert(c.args@.map_values(|a: Arg| a@) =~= Seq::empty());
    assert(c.flags@.map_values(|f: Flag| f@) =~= Seq::empty());
    assert(c.aliases@.map_values(|a: String| a@) =~= texts_view(aliases@));
    c
}

/// Reads the declarations in `ts` into the command `acc`. `next_idx` is
/// the number for the next command.
pub fn body(ts: &Vec<Token>, anon: bool, acc: Cmd, next_idx: u16) -> (r: Result<
    (Cmd, u16),
    SyntaxError,
>)
    requires
        0 < next_idx <= 256,
    ensures
        match r {
            Ok((cmd, idx)) => body_spec(tokens_view(ts@), 0, anon, acc@, next_idx as int) == Ok::<
                (CmdView, int),
                Seq<char>,
            >((cmd@, idx as int)) && next_idx <= idx <= 256,
            Err(e) => body_spec(tokens_view(ts@), 0, anon, acc@, next_idx as int) == Err::<
                (CmdView, int),
                Seq<char>,
            >(e.msg@),
        },
    decreases tokens_view(ts@),
{
    let ghost tv = tokens_view(ts@);
    let ghost want = body_spec(tv, 0, anon, acc@, next_idx as int);
    proof {
        lemma_tokens_view(ts@);
    }
    let mut res = acc;
    let mut idx = next_idx;
    let mut pos: usize = 0;
    while pos < ts.len()
        invariant
            pos <= ts@.len(),
            next_idx <= idx <= 256,
            tv == tokens_view(ts@),
            tv.len() == ts@.len(),
            forall|j: int| 0 <= j < ts@.len() ==> #[trigger] tv[j] == ts@[j]@,
            want == body_spec(tv, 0, anon, acc@, next_idx as int),
            want == body_spec(tv, pos as int, anon, res@, idx as int),
        decreases ts@.len() - pos,
    {
        let (doc, pos1) = match opt_doc(ts, pos) {
            Ok(found) => found,
            Err(e) => { return Err(e); },
        };
        let default = !anon && at_keyword(ts, pos1, "default");
        let pos2: usize = if default { pos1 + 1 } else { pos1 };
        if !anon && (default || at_keyword(ts, pos2, "cmd")) {
            let h = match header(ts, pos2) {
                Ok(h) => h,
                Err(e) => { return Err(e); },
            };
            if idx >= 256 {
                return Err(fail("too many commands"));
            }
            let g = h.group;
            let inner = match &ts[g] {
                Token::Group(_, inner) => inner,
                _ => { return Err(fail("expected `{`")); },
            };
            assert(inner_of(tv[g as int]) == tokens_view(inner@));
            let fresh = fresh_cmd(h.name, h.aliases, idx as u8);
            let (mut sub, idx2) = match body(inner, false, fresh, idx + 1) {
                Ok(found) => found,
                Err(e) => { return Err(e); },
            };
            if default && res.default {
                return Err(fail("only one subcommand can be default"));
            }
            add_help(&mut sub);
            sub.doc = doc;
            let ghost subs = res.subcommands@;
            proof {
                lemma_cmds_view(subs);
            }
            if default {
                res.default = true;
                res.subcommands.insert(0, sub);
                proof {
                    lemma_cmds_view(res.subcommands@);
                    assert(cmds_view(res.subcommands@) =~= seq![sub@] + cmds_view(subs));
                }
            } else {
                res.subcommands.push(sub);
                proof {
                    lemma_cmds_view(res.subcommands@);
                    assert(cmds_view(res.subcommands@) =~= cmds_view(subs).push(sub@));
                }
            }
            idx = idx2;
            pos = g + 1;
        } else {
            match item(ts, pos2, doc) {
                Err(e) => { return Err(e); },
                Ok((Item::Flag(f), pos3)) => {
                    let ghost flags = res.flags@;
                    res.flags.push(f);
                    assert(res.flags@.map_values(|x: Flag| x@) =~= flags.map_values(
                        |x: Flag| x@,
                    ).push(f@));
                    pos = pos3;
                },
                Ok((Item::Arg(a), pos3)) => {
                    let ghost args = res.args@;
                    res.args.push(a);
                    assert(res.args@.map_values(|x: Arg| x@) =~= args.map_values(|x: Arg| x@).push(
                        a@,
                    ));
                    pos = pos3;
                },
            }
        }
    }
    Ok((res, idx))
}

/// The file that the grammar names as its source, where it begins with
/// the word `src` and a string.
pub open spec fn src_spec(ts: Seq<TokenView>) -> Result<(Option<Seq<char>>, int), Seq<char>> {
    if at_keyword_spec(ts, 0, "src"@) {
        match expect_string_spec(ts, 1) {
            Err(e) => Err(e),
            Ok((path, end)) => Ok((Some(path), end)),
        }
    } else {
        Ok((None, 0))
    }
}

/// The grammar that the tokens `ts` spell: an optional source file, the
/// documentation of the root command, and one command block, after which
/// nothing may follow. Every command gets the flag that asks for help;
/// the commands are numbered from 0 in the order in which they begin.
pub open spec fn xflags_spec(ts: Seq<TokenView>) -> Result<XFlagsView, Seq<char>> {
    match src_spec(ts) {
        Err(e) => Err(e),
        Ok((src, pos0)) => match opt_doc_spec(ts, pos0) {
            Err(e) => Err(e),
            Ok((doc, pos1)) => match header_spec(ts, pos1) {
                Err(e) => Err(e),
                Ok((name, aliases, g)) => match body_spec(
                    inner_of(ts[g]),
                    0,
                    false,
                    empty_cmd(name, aliases, 0),
                    1,
                ) {
                    Err(e) => Err(e),
                    Ok((cmd, _)) => if g + 1 != ts.len() {
                        Err("unexpected token after the command: `"@ + shown_at(ts, g + 1) + "`"@)
                    } else {
                        Ok(XFlagsView { src, cmd: CmdView { doc, ..with_help(cmd) } })
                    },
                },
            },
        },
    }
}

/// The grammar without a name that the tokens `ts` spell: flags and
/// positionals alone.
pub open spec fn parse_or_exit_spec(ts: Seq<TokenView>) -> Result<XFlagsView, Seq<char>> {
    match body_spec(ts, 0, true, empty_cmd(Seq::empty(), Seq::empty(), 0), 1) {
        Err(e) => Err(e),
        Ok((cmd, _)) => Ok(XFlagsView { src: None, cmd: with_help(cmd) }),
    }
}

/// Whether `r` is the wanted grammar, or the wanted error.
pub open spec fn built(r: Result<XFlags, SyntaxError>, want: Result<XFlagsView, Seq<char>>) -> bool {
    match r {
        Ok(x) => want == Ok::<XFlagsView, Seq<char>>(x@),
        Err(e) => want == Err::<XFlagsView, Seq<char>>(e.msg@),
    }
}

/// Builds the grammar that the tokens spell.
pub fn xflags(ts: &Vec<Token>) -> (r: Result<XFlags, SyntaxError>)
    ensures
        built(r, xflags_spec(tokens_view(ts@))),
{
    proof {
        lemma_tokens_view(ts@);
    }
    let src: Option<String>;
    let pos0: usize;
    if at_keyword(ts, 0, "src") {
        let (path, end) = match expect_string(ts, 1) {
            Ok(found) => found,
            Err(e) => { return Err(e); },
        };
        src = Some(path);
        pos0 = end;
    } else {
        src = None;
        pos0 = 0;
    }
    let (doc, pos1) = match opt_doc(ts, pos0) {
        Ok(found) => found,
        Err(e) => { return Err(e); },
    };
    let h = match header(ts, pos1) {
        Ok(h) => h,
        Err(e) => { return Err(e); },
    };
    let g = h.group;
    let inner = match &ts[g] {
        Token::Group(_, inner) => inner,
        _ => { return Err(fail("expected `{`")); },
    };
    assert(inner_of(tokens_view(ts@)[g as int]) == tokens_view(inner@));
    let fresh = fresh_cmd(h.name, h.aliases, 0);
    let (mut cmd, _) = match body(inner, false, fresh, 1) {
        Ok(found) => found,
        Err(e) => { return Err(e); },
    };
    let n = ts.len();
    if g + 1 != n {
        let got = show_at(ts, g + 1);
        return Err(fail3("unexpected token after the command: `", got.as_str(), "`"));
    }
    add_help(&mut cmd);
    cmd.doc = doc;
    Ok(XFlags { src, cmd })
}

/// Builds the grammar without a name that the tokens spell.
pub fn parse_or_exit(ts: &Vec<Token>) -> (r: Result<XFlags, SyntaxError>)
    ensures
        built(r, parse_or_exit_spec(tokens_view(ts@))),
{
    let fresh = fresh_cmd(String::new(), Vec::new(), 0);
    assert(texts_view(Seq::<String>::empty()) =~= Seq::empty());
    let (mut cmd, _) = match body(ts, true, fresh, 1) {
        Ok(found) => found,
        Err(e) => { return Err(e); },
    };
    add_help(&mut cmd);
    Ok(XFlags { src: None, cmd })
}

} // verus!
