//! The stream of raw argument tokens: classification into flags and
//! positionals, push-back, and the folding of collected occurrences.

use vstd::prelude::*;
use vstd::utf8::{decode_utf8, encode_utf8, valid_utf8};
use crate::Error;
use crate::text::{dashed, decode, encode, join, same, show, shown_text, starts_with_dash};
use crate::value::{parse_scalar, read_scalar, Value, ValueView};

verus! {

/// A classified token as the specifications see it: the text of a flag, or
/// the raw bytes of a positional.
pub type Classified = Result<Seq<char>, Seq<u8>>;

/// The raw tokens of an argument list.
pub open spec fn raw_tokens(args: Seq<Vec<u8>>) -> Seq<Seq<u8>> {
    args.map_values(|a: Vec<u8>| a@)
}

/// The two dashes that end flag recognition.
pub open spec fn double_dash() -> Seq<char> {
    seq!['-', '-']
}

/// Whether a raw token reads as a flag: well-formed text that begins with a
/// dash.
pub open spec fn looks_like_flag(token: Seq<u8>) -> bool {
    valid_utf8(token) && dashed(decode_utf8(token))
}

/// The text by which a positional token is matched against names: its
/// decoded text, or the empty text when it is not well-formed.
pub open spec fn text_of(token: Seq<u8>) -> Seq<char> {
    if valid_utf8(token) {
        decode_utf8(token)
    } else {
        Seq::empty()
    }
}

/// The state of a stream: what is left of the input and whether the double
/// dash has been passed.
pub struct Stream {
    pub tokens: Seq<Seq<u8>>,
    pub after_double_dash: bool,
}

/// What one call of `pop_flag` hands out and leaves behind.
pub open spec fn pop_flag_spec(s: Stream) -> (Option<Classified>, Stream) {
    if s.tokens.len() == 0 {
        (None, s)
    } else if s.after_double_dash {
        (Some(Err(s.tokens[0])), Stream { tokens: s.tokens.drop_first(), ..s })
    } else if !looks_like_flag(s.tokens[0]) {
        (Some(Err(s.tokens[0])), Stream { tokens: s.tokens.drop_first(), ..s })
    } else if decode_utf8(s.tokens[0]) != double_dash() {
        (Some(Ok(decode_utf8(s.tokens[0]))), Stream { tokens: s.tokens.drop_first(), ..s })
    } else if s.tokens.len() == 1 {
        (None, Stream { tokens: Seq::empty(), after_double_dash: true })
    } else {
        (Some(Err(s.tokens[1])), Stream { tokens: s.tokens.skip(2), after_double_dash: true })
    }
}

/// The raw bytes that a classified token goes back to the stream as.
pub open spec fn raw_of(arg: Classified) -> Seq<u8> {
    match arg {
        Ok(text) => encode_utf8(text),
        Err(bytes) => bytes,
    }
}

/// A classified token as the specifications see it.
pub open spec fn classified_view(arg: Result<String, Vec<u8>>) -> Classified {
    match arg {
        Ok(text) => Ok(text@),
        Err(bytes) => Err(bytes@),
    }
}

/// What a call of `pop_flag` hands out, as the specifications see it.
pub open spec fn popped_view(arg: Option<Result<String, Vec<u8>>>) -> Option<Classified> {
    match arg {
        Some(a) => Some(classified_view(a)),
        None => None,
    }
}

/// The message for a flag whose value is missing at the end of the input.
pub open spec fn msg_expected_value(flag: Seq<char>) -> Seq<char> {
    "expected a value for `"@ + flag + "`"@
}

/// The message for a flag that no state recognizes.
pub open spec fn msg_unexpected_flag(flag: Seq<char>) -> Seq<char> {
    "Unknown flag: `"@ + flag + "`. Use `help` for more information"@
}

/// The message for a positional that nothing takes. The token is shown
/// as text, with what is malformed in it replaced.
pub open spec fn msg_unexpected_arg(arg: Seq<u8>) -> Seq<char> {
    "Unknown command: `"@ + shown_text(arg) + "`. Use `help` for more information"@
}

/// The message for input that ends before a subcommand was chosen.
pub open spec fn msg_subcommand_required() -> Seq<char> {
    "A subcommand is required. Use `help` for more information"@
}

/// The message for an optional or required item that was given more than
/// once.
pub open spec fn msg_more_than_once(flag: Seq<char>) -> Seq<char> {
    "flag specified more than once: `"@ + flag + "`"@
}

/// The message for a required item that was not given.
pub open spec fn msg_required(flag: Seq<char>) -> Seq<char> {
    "Flag is required: `"@ + flag + "`. Use `help` for more information"@
}

/// The message for a value that is no well-formed text.
pub open spec fn msg_invalid_utf8(flag: Seq<char>, value: Seq<u8>) -> Seq<char> {
    "can't parse `"@ + flag + "`, invalid utf8: \""@ + shown_text(value) + "\""@
}

/// The message for a text that is no value of the wanted type; `reason`
/// is what the type has to say about it.
pub open spec fn msg_cant_parse(flag: Seq<char>, reason: Seq<char>) -> Seq<char> {
    "can't parse `"@ + flag + "`, "@ + reason
}

/// Whether `e` is a usage error with exactly this message.
pub open spec fn is_failure(e: Error, msg: Seq<char>) -> bool {
    e.msg@ == msg && !e.help
}

/// Whether `r` is a usage error with exactly this message.
pub open spec fn fails_with<T>(r: Result<T, Error>, msg: Seq<char>) -> bool {
    match r {
        Ok(_) => false,
        Err(e) => is_failure(e, msg),
    }
}

/// What the coercion of a raw token to the type named `ty` gives: the
/// value, or the message of the failure.
pub open spec fn coerce_spec(flag: Seq<char>, ty: Seq<char>, value: Seq<u8>) -> Result<
    ValueView,
    Seq<char>,
> {
    if !valid_utf8(value) {
        Err(msg_invalid_utf8(flag, value))
    } else {
        match read_scalar(ty, decode_utf8(value)) {
            Ok(v) => Ok(v),
            Err(reason) => Err(msg_cant_parse(flag, reason)),
        }
    }
}

/// Whether `r` is the wanted value, or a usage error with the wanted
/// message.
pub open spec fn yields(r: Result<Value, Error>, want: Result<ValueView, Seq<char>>) -> bool {
    match r {
        Ok(v) => want == Ok::<ValueView, Seq<char>>(v@),
        Err(e) => !e.help && want == Err::<ValueView, Seq<char>>(e.msg@),
    }
}

/// The remaining input, held in reverse so that the next token is the last
/// element, and the sticky mark of a passed double dash.
pub struct Parser {
    pub after_double_dash: bool,
    pub rargs: Vec<Vec<u8>>,
}

impl Parser {
    /// The tokens still to come, in input order.
    pub open spec fn tokens(&self) -> Seq<Seq<u8>> {
        Seq::new(self.rargs@.len(), |i: int| self.rargs@[self.rargs@.len() - 1 - i]@)
    }

    /// The state of the stream.
    pub open spec fn stream(&self) -> Stream {
        Stream { tokens: self.tokens(), after_double_dash: self.after_double_dash }
    }

    /// A stream over `args`, none of them consumed.
    pub fn new(args: Vec<Vec<u8>>) -> (p: Parser)
        ensures
            p.tokens() == raw_tokens(args@),
            !p.after_double_dash,
    {
        let mut args = args;
        let ghost all = args@;
        let mut rargs: Vec<Vec<u8>> = Vec::new();
        while args.len() > 0
            invariant
                args@.len() + rargs@.len() == all.len(),
                args@ == all.subrange(0, args@.len() as int),
                forall|j: int| 0 <= j < rargs@.len() ==> rargs@[j] == all[all.len() - 1 - j],
            decreases args@.len(),
        {
            let last = args.pop().unwrap();
            rargs.push(last);
        }
        let p = Parser { after_double_dash: false, rargs };
        assert(p.tokens() =~= raw_tokens(all));
        p
    }

    /// Whether the input is used up.
    pub fn is_empty(&self) -> (b: bool)
        ensures
            b == (self.tokens().len() == 0),
    {
        self.rargs.len() == 0
    }

    /// The text of the next token, where the stream would hand it out as a
    /// flag; the stream stays as it is.
    pub fn peek_flag(&self) -> (r: Option<String>)
        ensures
            match r {
                Some(text) => pop_flag_spec(self.stream()).0 == Some(
                    Ok::<Seq<char>, Seq<u8>>(text@),
                ),
                None => !(pop_flag_spec(self.stream()).0 matches Some(Ok(_))),
            },
    {
        let n = self.rargs.len();
        if self.after_double_dash || n == 0 {
            return None;
        }
        assert(self.tokens()[0] == self.rargs@[n - 1]@);
        match decode(&self.rargs[n - 1]) {
            Some(text) => {
                proof {
                    reveal_strlit("--");
                    assert("--"@ =~= double_dash());
                }
                if starts_with_dash(text.as_str()) && !same(text.as_str(), "--") {
                    Some(text)
                } else {
                    None
                }
            },
            None => None,
        }
    }

    /// Takes the next raw token, whatever it looks like.
    pub fn next(&mut self) -> (r: Option<Vec<u8>>)
        ensures
            final(self).after_double_dash == old(self).after_double_dash,
            old(self).tokens().len() == 0 ==> r.is_none() && final(self).tokens() == old(
                self,
            ).tokens(),
            old(self).tokens().len() > 0 ==> r.is_some() && r.unwrap()@ == old(self).tokens()[0]
                && final(self).tokens() == old(self).tokens().drop_first(),
    {
        let r = self.rargs.pop();
        proof {
            if old(self).tokens().len() > 0 {
                assert(self.tokens() =~= old(self).tokens().drop_first());
            } else {
                assert(self.tokens() =~= old(self).tokens());
            }
        }
        r
    }

    /// Takes the next token and classifies it: the text of a flag, or the
    /// raw bytes of a positional. A double dash is passed over, and from
    /// then on every token is a positional.
    pub fn pop_flag(&mut self) -> (r: Option<Result<String, Vec<u8>>>)
        ensures
            popped_view(r) == pop_flag_spec(old(self).stream()).0,
            final(self).stream() == pop_flag_spec(old(self).stream()).1,
    {
        if self.after_double_dash {
            match self.next() {
                Some(arg) => Some(Err(arg)),
                None => None,
            }
        } else {
            let arg = match self.next() {
                Some(arg) => arg,
                None => { return None; },
            };
            match decode(&arg) {
                Some(text) => {
                    if starts_with_dash(text.as_str()) {
                        proof {
                            reveal_strlit("--");
                            assert("--"@ =~= double_dash());
                        }
                        if same(text.as_str(), "--") {
                            self.after_double_dash = true;
                            let ghost before = self.tokens();
                            let r = match self.next() {
                                Some(arg) => Some(Err(arg)),
                                None => None,
                            };
                            proof {
                                if before.len() > 0 {
                                    assert(self.tokens() =~= old(self).tokens().skip(2));
                                } else {
                                    assert(self.tokens() =~= Seq::empty());
                                }
                            }
                            r
                        } else {
                            Some(Ok(text))
                        }
                    } else {
                        Some(Err(arg))
                    }
                },
                None => Some(Err(arg)),
            }
        }
    }

    /// Puts a token that was taken back at the front of the input.
    pub fn push_back(&mut self, arg: Result<String, Vec<u8>>)
        ensures
            final(self).after_double_dash == old(self).after_double_dash,
            final(self).tokens() == seq![raw_of(classified_view(arg))] + old(self).tokens(),
    {
        let raw = match arg {
            Ok(text) => encode(text.as_str()),
            Err(bytes) => bytes,
        };
        self.rargs.push(raw);
        assert(self.tokens() =~= seq![raw_of(classified_view(arg))] + old(self).tokens());
    }

    /// Takes the next raw token as the value of `flag`, whatever it looks
    /// like; fails when the input is used up.
    pub fn next_value(&mut self, flag: &str) -> (r: Result<Vec<u8>, Error>)
        ensures
            final(self).after_double_dash == old(self).after_double_dash,
            old(self).tokens().len() > 0 ==> r.is_ok() && r.unwrap()@ == old(self).tokens()[0]
                && final(self).tokens() == old(self).tokens().drop_first(),
            old(self).tokens().len() == 0 ==> fails_with(r, msg_expected_value(flag@)) && final(self).tokens() == old(self).tokens(),
    {
        match self.next() {
            Some(value) => Ok(value),
            None => {
                let mut msg = join("expected a value for `", flag);
                msg.append("`");
                Err(Error { msg, help: false })
            },
        }
    }

    /// The text of a raw value; fails when it is not well-formed.
    pub fn value_text(&self, flag: &str, value: &Vec<u8>) -> (r: Result<String, Error>)
        ensures
            valid_utf8(value@) ==> r.is_ok() && r.unwrap()@ == decode_utf8(value@),
            !valid_utf8(value@) ==> fails_with(r, msg_invalid_utf8(flag@, value@)),
    {
        match decode(value) {
            Some(text) => Ok(text),
            None => {
                let mut msg = join("can't parse `", flag);
                msg.append("`, invalid utf8: \"");
                let shown = show(value);
                msg.append(shown.as_str());
                msg.append("\"");
                Err(Error { msg, help: false })
            },
        }
    }

    /// Coerces a raw token to the type named `ty`: decodes it, then reads
    /// the text by the rule of that type. `flag` names the item in the
    /// message of a failure.
    pub fn value_from_str(&self, flag: &str, ty: &str, value: Vec<u8>) -> (r: Result<Value, Error>)
        ensures
            yields(r, coerce_spec(flag@, ty@, value@)),
    {
        let text = match self.value_text(flag, &value) {
            Ok(text) => text,
            Err(e) => { return Err(e); },
        };
        match parse_scalar(ty, text.as_str()) {
            Ok(v) => Ok(v),
            Err(reason) => {
                let mut msg = join("can't parse `", flag);
                msg.append("`, ");
                msg.append(reason.as_str());
                Err(Error { msg, help: false })
            },
        }
    }

    /// Takes the next raw token as the value of `flag` and coerces it to
    /// the type named `ty`.
    pub fn next_value_from_str(&mut self, flag: &str, ty: &str) -> (r: Result<Value, Error>)
        ensures
            final(self).after_double_dash == old(self).after_double_dash,
            old(self).tokens().len() == 0 ==> fails_with(r, msg_expected_value(flag@))
                && final(self).tokens() == old(self).tokens(),
            old(self).tokens().len() > 0 ==> yields(
                r,
                coerce_spec(flag@, ty@, old(self).tokens()[0]),
            ) && final(self).tokens() == old(self).tokens().drop_first(),
    {
        let value = match self.next_value(flag) {
            Ok(value) => value,
            Err(e) => { return Err(e); },
        };
        self.value_from_str(flag, ty, value)
    }

    /// The error for a flag that no state recognizes.
    pub fn unexpected_flag(&self, flag: &str) -> (e: Error)
        ensures
            is_failure(e, msg_unexpected_flag(flag@)),
    {
        let mut msg = join("Unknown flag: `", flag);
        msg.append("`. Use `help` for more information");
        Error { msg, help: false }
    }

    /// The error for a positional that nothing takes.
    pub fn unexpected_arg(&self, arg: Vec<u8>) -> (e: Error)
        ensures
            is_failure(e, msg_unexpected_arg(arg@)),
    {
        let shown = show(&arg);
        let mut msg = join("Unknown command: `", shown.as_str());
        msg.append("`. Use `help` for more information");
        Error { msg, help: false }
    }

    /// The error for input that ends before a subcommand was chosen.
    pub fn subcommand_required(&self) -> (e: Error)
        ensures
            is_failure(e, msg_subcommand_required()),
    {
        Error::new("A subcommand is required. Use `help` for more information")
    }

    /// The chosen subcommand; an error where none was chosen.
    pub fn subcommand<T>(&self, cmd: Option<T>) -> (r: Result<T, Error>)
        ensures
            match cmd {
                Some(v) => r == Ok::<T, Error>(v),
                None => fails_with(r, msg_subcommand_required()),
            },
    {
        match cmd {
            Some(v) => Ok(v),
            None => Err(self.subcommand_required()),
        }
    }

    /// The help text of a command, as an error marked as help.
    pub fn help(&self, help: &str) -> (e: Error)
        ensures
            e.msg@ == help@,
            e.help,
    {
        Error::help_text(help)
    }

    /// Folds the occurrences of an optional item: none or the only one;
    /// more than one is an error.
    pub fn optional<T>(&self, flag: &str, vals: Vec<T>) -> (r: Result<Option<T>, Error>)
        ensures
            vals@.len() == 0 ==> r == Ok::<Option<T>, Error>(None),
            vals@.len() == 1 ==> r == Ok::<Option<T>, Error>(Some(vals@[0])),
            vals@.len() > 1 ==> fails_with(r, msg_more_than_once(flag@)),
    {
        let mut vals = vals;
        if vals.len() > 1 {
            let mut msg = join("flag specified more than once: `", flag);
            msg.append("`");
            return Err(Error { msg, help: false });
        }
        Ok(vals.pop())
    }

    /// Folds the occurrences of a required item: the only one; none or
    /// more than one is an error.
    pub fn required<T>(&self, flag: &str, vals: Vec<T>) -> (r: Result<T, Error>)
        ensures
            vals@.len() == 1 ==> r == Ok::<T, Error>(vals@[0]),
            vals@.len() > 1 ==> fails_with(r, msg_more_than_once(flag@)),
            vals@.len() == 0 ==> fails_with(r, msg_required(flag@)),
    {
        let mut vals = vals;
        if vals.len() > 1 {
            let mut msg = join("flag specified more than once: `", flag);
            msg.append("`");
            return Err(Error { msg, help: false });
        }
        match vals.pop() {
            Some(v) => Ok(v),
            None => {
                let mut msg = join("Flag is required: `", flag);
                msg.append("`. Use `help` for more information");
                Err(Error { msg, help: false })
            },
        }
    }
}

} // verus!
