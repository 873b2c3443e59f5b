//! What holds of the stream and of the machine for every grammar and every
//! input.

use vstd::prelude::*;
use vstd::utf8::{decode_utf8, encode_utf8};
use crate::ast::{Arity, Cmd, Ty};
use crate::help::help_spec;
use crate::rt::{
    double_dash, looks_like_flag, msg_more_than_once, pop_flag_spec, raw_of, text_of, Classified,
    Stream,
};
use crate::semantics::{
    advance, arg_hit, asks_help, assemble, coerce_by, collected, enter, find_above, find_flag,
    find_sub, finish, flag_hit, flag_matches, flag_value, fold_args, fold_field, fold_flags,
    fold_from, fold_level, lemma_find_flag_in_range, lemma_find_sub_in_range, long_form, promote,
    put_back, run, usage, ArgHit, Config, EntryView, Failure, FieldView, FlagHit, LevelView,
};
use crate::value::{
    decimal, digit_char, digit_value, digits, is_digit, read_digits, read_int, render_spec,
    scalar_of, IntError, Scalar, ValueView,
};

verus! {

/// Everything that the stream hands out until it is used up, in order.
pub open spec fn drain(s: Stream) -> Seq<Classified>
    decreases s.tokens.len(),
{
    match pop_flag_spec(s) {
        (None, _) => Seq::empty(),
        (Some(item), rest) => seq![item] + drain(rest),
    }
}

/// A token as a positional.
pub open spec fn as_positionals(tokens: Seq<Seq<u8>>) -> Seq<Classified> {
    tokens.map_values(|t: Seq<u8>| Err::<Seq<char>, Seq<u8>>(t))
}

/// Whether a raw token is the double dash.
pub open spec fn is_double_dash(token: Seq<u8>) -> bool {
    looks_like_flag(token) && decode_utf8(token) == double_dash()
}

/// A token as it is classified before the double dash.
pub open spec fn classify(token: Seq<u8>) -> Classified {
    if looks_like_flag(token) {
        Ok(decode_utf8(token))
    } else {
        Err(token)
    }
}

/// Once the double dash is passed, it stays passed, and every token that
/// is left comes out as a positional, whatever it looks like.
pub proof fn lemma_after_double_dash_all_positional(s: Stream)
    requires
        s.after_double_dash,
    ensures
        pop_flag_spec(s).1.after_double_dash,
        drain(s) == as_positionals(s.tokens),
    decreases s.tokens.len(),
{
    if s.tokens.len() > 0 {
        let rest = pop_flag_spec(s).1;
        lemma_after_double_dash_all_positional(rest);
        assert(drain(s) =~= as_positionals(s.tokens));
    } else {
        assert(drain(s) =~= as_positionals(s.tokens));
    }
}

/// The first double dash splits the input: the tokens before it are
/// classified by their looks, the double dash itself is handed out to
/// nobody, and every token after it is a positional, whatever it looks
/// like.
pub proof fn lemma_double_dash_splits(pre: Seq<Seq<u8>>, dd: Seq<u8>, post: Seq<Seq<u8>>)
    requires
        is_double_dash(dd),
        forall|i: int| 0 <= i < pre.len() ==> !is_double_dash(#[trigger] pre[i]),
    ensures
        drain(Stream { tokens: pre + seq![dd] + post, after_double_dash: false })
            == pre.map_values(|t: Seq<u8>| classify(t)) + as_positionals(post),
    decreases pre.len(),
{
    let s = Stream { tokens: pre + seq![dd] + post, after_double_dash: false };
    if pre.len() == 0 {
        assert(s.tokens[0] == dd);
        if post.len() == 0 {
            assert(drain(s) =~= Seq::empty());
        } else {
            let rest = Stream { tokens: s.tokens.skip(2), after_double_dash: true };
            assert(s.tokens.skip(2) =~= post.drop_first());
            assert(s.tokens[1] == post[0]);
            lemma_after_double_dash_all_positional(rest);
            assert(drain(s) =~= seq![Err::<Seq<char>, Seq<u8>>(post[0])] + drain(rest));
            assert(seq![Err::<Seq<char>, Seq<u8>>(post[0])] + as_positionals(post.drop_first())
                =~= as_positionals(post));
        }
        assert(pre.map_values(|t: Seq<u8>| classify(t)) + as_positionals(post) =~= as_positionals(
            post,
        ));
    } else {
        assert(s.tokens[0] == pre[0]);
        assert(!is_double_dash(pre[0]));
        let rest = Stream { tokens: s.tokens.drop_first(), after_double_dash: false };
        assert(s.tokens.drop_first() =~= pre.drop_first() + seq![dd] + post);
        assert(pop_flag_spec(s) == (Some(classify(pre[0])), rest));
        assert forall|i: int| 0 <= i < pre.drop_first().len() implies !is_double_dash(
            #[trigger] pre.drop_first()[i],
        ) by {
            assert(pre.drop_first()[i] == pre[i + 1]);
        }
        lemma_double_dash_splits(pre.drop_first(), dd, post);
        assert(pre.map_values(|t: Seq<u8>| classify(t)) =~= seq![classify(pre[0])]
            + pre.drop_first().map_values(|t: Seq<u8>| classify(t)));
        assert(drain(s) =~= pre.map_values(|t: Seq<u8>| classify(t)) + as_positionals(post));
    }
}

/// A flag that takes a value takes the next raw token as that value,
/// whatever the token looks like: a token shaped like a flag, or the
/// double dash itself, is the value and is not dispatched.
pub proof fn lemma_flag_takes_next_token(c: Config, depth: int, slot: int)
    requires
        c.path.len() > 0,
        !c.stream.after_double_dash,
        c.stream.tokens.len() >= 2,
        looks_like_flag(c.stream.tokens[0]),
        !is_double_dash(c.stream.tokens[0]),
        flag_hit(c.path, decode_utf8(c.stream.tokens[0])) == (FlagHit::Slot { depth, slot }),
        c.path[depth].flags@[slot].val.is_some(),
    ensures
        match coerce_by(
            c.path[depth].flags@[slot].val.unwrap().ty,
            decode_utf8(c.stream.tokens[0]),
            c.stream.tokens[1],
        ) {
            Ok(value) => run(c) == run(
                Config {
                    log: c.log.push(EntryView { depth, is_flag: true, slot, value }),
                    stream: Stream { tokens: c.stream.tokens.skip(2), after_double_dash: false },
                    ..c
                },
            ),
            Err(msg) => run(c) == Err::<Seq<LevelView>, Failure>(usage(msg)),
        },
{
    let s = pop_flag_spec(c.stream).1;
    assert(s.tokens == c.stream.tokens.drop_first());
    assert(s.tokens[0] == c.stream.tokens[1]);
    assert(s.tokens.drop_first() =~= c.stream.tokens.skip(2));
}

/// An optional or required item that was given more than once folds to
/// the error that says so, and to no value.
pub proof fn lemma_twice_is_an_error(
    arity: Arity,
    valued: bool,
    shown: Seq<char>,
    vals: Seq<ValueView>,
)
    requires
        arity != Arity::Repeated,
        vals.len() > 1,
    ensures
        fold_field(arity, valued, shown, vals) == Err::<FieldView, Failure>(
            usage(msg_more_than_once(shown)),
        ),
{
}

/// Folding the flags of a command fails where one of them, at or after
/// the place where the folding begins, fails.
pub proof fn lemma_fold_flags_fails(cmd: Cmd, depth: int, log: Seq<EntryView>, from: int, k: int)
    requires
        0 <= from <= k < cmd.flags@.len(),
        !cmd.flags@[k].is_help_spec(),
        fold_field(
            cmd.flags@[k].arity,
            cmd.flags@[k].val.is_some(),
            long_form(cmd.flags@[k].name@),
            collected(log, depth, true, k),
        ).is_err(),
    ensures
        fold_flags(cmd, depth, log, from).is_err(),
    decreases k - from,
{
    if from < k {
        lemma_fold_flags_fails(cmd, depth, log, from + 1, k);
    }
}

/// Folding the chain fails where the folding of one of its levels, at or
/// after the place where the folding begins, fails.
pub proof fn lemma_fold_from_fails(path: Seq<Cmd>, log: Seq<EntryView>, from: int, d: int)
    requires
        0 <= from <= d < path.len(),
        fold_level(path[d], d, log).is_err(),
    ensures
        fold_from(path, log, from).is_err(),
    decreases d - from,
{
    if from < d {
        lemma_fold_from_fails(path, log, from + 1, d);
    }
}

/// No input is accepted in which an optional or required flag of a command
/// on the final chain was given more than once: the last occurrence does
/// not win.
pub proof fn lemma_duplicate_never_accepted(path: Seq<Cmd>, log: Seq<EntryView>, d: int, k: int)
    requires
        0 <= d < path.len(),
        0 <= k < path[d].flags@.len(),
        !path[d].flags@[k].is_help_spec(),
        path[d].flags@[k].arity != Arity::Repeated,
        collected(log, d, true, k).len() > 1,
    ensures
        assemble(path, log).is_err(),
{
    let flag = path[d].flags@[k];
    lemma_twice_is_an_error(
        flag.arity,
        flag.val.is_some(),
        long_form(flag.name@),
        collected(log, d, true, k),
    );
    lemma_fold_flags_fails(path[d], d, log, 0, k);
    lemma_fold_from_fails(path, log, 0, d);
}

/// When the input ends in a command that has a default subcommand, that
/// subcommand is entered as if it had been named. Where it has no
/// subcommands of its own, the result is the folding of the whole chain
/// with it at the end, so its own fields are folded and checked like all
/// others.
pub proof fn lemma_default_promotion(c: Config)
    requires
        c.path.len() > 0,
        c.stream.tokens.len() == 0,
        c.path.last().has_default(),
    ensures
        run(c) == finish(enter(c.path, 0), c.log),
        !c.path.last().subcommands@[0].has_subcommands_spec() ==> run(c) == fold_from(
            enter(c.path, 0),
            c.log,
            0,
        ),
        !c.path.last().subcommands@[0].has_subcommands_spec() && fold_level(
            c.path.last().subcommands@[0],
            c.path.len() as int,
            c.log,
        ).is_err() ==> run(c).is_err(),
{
    let longer = enter(c.path, 0);
    assert(promote(c.path) == promote(longer));
    if !c.path.last().subcommands@[0].has_subcommands_spec() {
        assert(longer.last() == c.path.last().subcommands@[0]);
        assert(promote(longer) == longer);
        if fold_level(c.path.last().subcommands@[0], c.path.len() as int, c.log).is_err() {
            assert(longer[c.path.len() as int] == c.path.last().subcommands@[0]);
            lemma_fold_from_fails(longer, c.log, 0, c.path.len() as int);
        }
    }
}

/// The search among the commands above the current one finds the first of
/// them, from the outermost, that declares a flag with this spelling.
pub proof fn lemma_find_above(path: Seq<Cmd>, text: Seq<char>, from: int)
    requires
        0 <= from,
    ensures
        match find_above(path, text, from) {
            Some((d, k)) => from <= d < path.len() - 1 && find_flag(path[d].flags@, text, 0)
                == Some(k) && forall|j: int|
                from <= j < d ==> find_flag(#[trigger] path[j].flags@, text, 0).is_none(),
            None => forall|j: int|
                from <= j < path.len() - 1 ==> find_flag(
                    #[trigger] path[j].flags@,
                    text,
                    0,
                ).is_none(),
        },
    decreases path.len() - from,
{
    if from < path.len() - 1 {
        if find_flag(path[from].flags@, text, 0).is_none() {
            lemma_find_above(path, text, from + 1);
        }
    }
}

/// A flag that a command above the current one declares is recognized
/// however deep the chain goes below that command: the token leads to a
/// declared flag with this spelling, of that command or of one further
/// out.
pub proof fn lemma_ancestor_flag_recognized(path: Seq<Cmd>, text: Seq<char>, d: int)
    requires
        0 <= d < path.len() - 1,
        find_flag(path[d].flags@, text, 0).is_some(),
    ensures
        flag_hit(path, text) matches FlagHit::Slot { depth, slot } && 0 <= depth <= d && 0 <= slot
            < path[depth].flags@.len() && flag_matches(path[depth].flags@[slot], text),
{
    lemma_find_above(path, text, 0);
    match find_above(path, text, 0) {
        Some((a, k)) => {
            lemma_find_flag_in_range(path[a].flags@, text, 0);
        },
        None => {
            assert(find_flag(path[d].flags@, text, 0).is_none());
        },
    }
}

/// Only the flags of the commands on the chain are recognized: a token
/// leads to a declared flag only where a command on the chain declares a
/// flag with this spelling. A flag of a command beside the chain is
/// unknown.
pub proof fn lemma_only_chain_flags_recognized(path: Seq<Cmd>, text: Seq<char>)
    requires
        path.len() > 0,
    ensures
        flag_hit(path, text) matches FlagHit::Slot { depth, slot } ==> 0 <= depth < path.len() && 0
            <= slot < path[depth].flags@.len() && flag_matches(path[depth].flags@[slot], text),
        (forall|j: int|
            0 <= j < path.len() ==> find_flag(#[trigger] path[j].flags@, text, 0).is_none())
            && !asks_help(text) && !path.last().has_default() ==> flag_hit(path, text)
            == FlagHit::Unknown,
{
    lemma_find_above(path, text, 0);
    match find_above(path, text, 0) {
        Some((a, k)) => {
            lemma_find_flag_in_range(path[a].flags@, text, 0);
        },
        None => {
            lemma_find_flag_in_range(path.last().flags@, text, 0);
        },
    }
}

/// A request for help ends the parse at once, in every state and whatever
/// was collected before: where no command above the current one declares a
/// flag with the spelling of the token, `--help` and `-h` give the help
/// text of the current command, marked as help.
pub proof fn lemma_help_short_circuits(c: Config)
    requires
        c.path.len() > 0,
        !c.stream.after_double_dash,
        c.stream.tokens.len() > 0,
        looks_like_flag(c.stream.tokens[0]),
        asks_help(decode_utf8(c.stream.tokens[0])),
        find_above(c.path, decode_utf8(c.stream.tokens[0]), 0).is_none(),
    ensures
        flag_hit(c.path, decode_utf8(c.stream.tokens[0])) == FlagHit::Help,
        run(c) == Err::<Seq<LevelView>, Failure>(
            Failure { msg: help_spec(c.path.last()), help: true },
        ),
{
    let text = decode_utf8(c.stream.tokens[0]);
    reveal_strlit("--help");
    reveal_strlit("-h");
    assert(text != double_dash()) by {
        if text == double_dash() {
            assert(text.len() == 2);
            assert(text[1] == '-');
        }
    }
}

/// Nothing is lost between a raw token and its classified form: a token
/// that was handed out and is put back comes out again as the same flag
/// or the same positional, and leaves the stream as it was after the
/// first time. A flag that is put back has the bytes that it came from.
pub proof fn lemma_put_back_redelivers(s: Stream)
    requires
        pop_flag_spec(s).0.is_some(),
    ensures
        pop_flag_spec(put_back(pop_flag_spec(s).1, raw_of(pop_flag_spec(s).0.unwrap())))
            == pop_flag_spec(s),
        !s.after_double_dash && !is_double_dash(s.tokens[0]) ==> put_back(
            pop_flag_spec(s).1,
            raw_of(pop_flag_spec(s).0.unwrap()),
        ) == s,
{
    let item = pop_flag_spec(s).0.unwrap();
    let rest = pop_flag_spec(s).1;
    let again = put_back(rest, raw_of(item));
    assert(again.tokens[0] == raw_of(item));
    assert(again.tokens.drop_first() =~= rest.tokens);
    match item {
        Ok(text) => {
            vstd::utf8::encode_utf8_valid_utf8(text);
            vstd::utf8::encode_utf8_decode_utf8(text);
            vstd::utf8::decode_utf8_encode_utf8(s.tokens[0]);
            assert(again.tokens =~= s.tokens);
        },
        Err(raw) => {
            if !s.after_double_dash && !is_double_dash(s.tokens[0]) {
                assert(again.tokens =~= s.tokens);
            }
        },
    }
}

/// Reading a run of digits with one more at its end is reading the run
/// and then the one.
pub proof fn lemma_read_digits_push(
    s: Seq<char>,
    c: char,
    acc: int,
    neg: bool,
    min: int,
    max: int,
)
    ensures
        read_digits(s.push(c), acc, neg, min, max) == match read_digits(s, acc, neg, min, max) {
            Ok(a) => read_digits(seq![c], a, neg, min, max),
            Err(e) => Err(e),
        },
    decreases s.len(),
{
    if s.len() == 0 {
        assert(s.push(c) =~= seq![c]);
    } else {
        assert(s.push(c)[0] == s[0]);
        assert(s.push(c).drop_first() =~= s.drop_first().push(c));
        if is_digit(s[0]) {
            let next = if neg {
                acc * 10 - digit_value(s[0])
            } else {
                acc * 10 + digit_value(s[0])
            };
            if min <= next <= max {
                lemma_read_digits_push(s.drop_first(), c, next, neg, min, max);
            }
        }
    }
}

/// The decimal digits of a number read back as that number, or as its
/// negative where a minus went before.
pub proof fn lemma_read_digits_of_digits(m: int, neg: bool, min: int, max: int)
    requires
        m >= 0,
        min <= 0 <= max,
        if neg { -m >= min } else { m <= max },
    ensures
        read_digits(digits(m), 0, neg, min, max) == Ok::<int, IntError>(if neg { -m } else { m }),
        digits(m).len() > 0,
        is_digit(digits(m)[0]),
    decreases m,
{
    let c = digit_char(m % 10);
    assert(is_digit(c) && digit_value(c) == m % 10);
    assert(seq![c].drop_first() =~= Seq::<char>::empty());
    let one = seq![c];
    assert(one[0] == c);
    if m < 10 {
        assert(digits(m) =~= one);
        let next = if neg { 0 * 10 - digit_value(c) } else { 0 * 10 + digit_value(c) };
        assert(next == if neg { -m } else { m });
        assert(read_digits(one.drop_first(), next, neg, min, max) == Ok::<int, IntError>(next));
        assert(read_digits(one, 0, neg, min, max) == Ok::<int, IntError>(next));
    } else {
        lemma_read_digits_of_digits(m / 10, neg, min, max);
        lemma_read_digits_push(digits(m / 10), c, 0, neg, min, max);
        let a = if neg { -(m / 10) } else { m / 10 };
        let next = if neg { a * 10 - digit_value(c) } else { a * 10 + digit_value(c) };
        assert((m / 10) * 10 + m % 10 == m);
        assert(next == if neg { -m } else { m });
        assert(read_digits(one.drop_first(), next, neg, min, max) == Ok::<int, IntError>(next));
        assert(read_digits(one, a, neg, min, max) == Ok::<int, IntError>(next));
        assert(digits(m) == digits(m / 10).push(c));
        assert(digits(m)[0] == digits(m / 10)[0]);
    }
}

/// A whole number within the range of a type, written in decimal, reads
/// back as itself.
pub proof fn lemma_read_int_decimal(n: int, signed: bool, min: int, max: int)
    requires
        min <= n <= max,
        min <= 0 <= max,
        n < 0 ==> signed,
    ensures
        read_int(decimal(n), signed, min, max) == Ok::<int, IntError>(n),
{
    if n < 0 {
        lemma_read_digits_of_digits(-n, true, min, max);
        let s = decimal(n);
        assert(s[0] == '-');
        assert(s.drop_first() =~= digits(-n));
    } else {
        lemma_read_digits_of_digits(n, false, min, max);
    }
}

/// What a run of digits reads as lies within the range, on the side of
/// zero on which the reading began.
pub proof fn lemma_read_digits_in_range(s: Seq<char>, acc: int, neg: bool, min: int, max: int)
    requires
        min <= acc <= max,
        if neg { acc <= 0 } else { acc >= 0 },
    ensures
        read_digits(s, acc, neg, min, max) matches Ok(r) ==> min <= r <= max && if neg {
            r <= 0
        } else {
            r >= 0
        },
    decreases s.len(),
{
    if s.len() > 0 && is_digit(s[0]) {
        let next = if neg {
            acc * 10 - digit_value(s[0])
        } else {
            acc * 10 + digit_value(s[0])
        };
        if min <= next <= max {
            lemma_read_digits_in_range(s.drop_first(), next, neg, min, max);
        }
    }
}

/// Nothing is lost between a value and the raw token that it is written
/// as: a token that was coerced to a value of a declared type, written
/// out again, is coerced to the same value.
pub proof fn lemma_value_round_trip(ty: Ty, name: Seq<char>, token: Seq<u8>)
    ensures
        coerce_by(ty, name, token) matches Ok(v) ==> coerce_by(ty, name, render_spec(v)) == Ok::<
            ValueView,
            Seq<char>,
        >(v),
{
    if let Ok(v) = coerce_by(ty, name, token) {
        match ty {
            Ty::FromStr(t) => {
                let text = decode_utf8(token);
                let again = match v {
                    ValueView::Int(n) => decimal(n),
                    ValueView::Bool(b) => if b { "true"@ } else { "false"@ },
                    ValueView::Text(s) => s,
                    _ => Seq::empty(),
                };
                vstd::utf8::encode_utf8_valid_utf8(again);
                vstd::utf8::encode_utf8_decode_utf8(again);
                match scalar_of(t@) {
                    Scalar::Int { signed, min, max } => {
                        let n = read_int(text, signed, min, max)->Ok_0;
                        if text.len() > 0 && !(text.len() == 1 && (text[0] == '+' || text[0]
                            == '-')) {
                            if text[0] == '+' {
                                lemma_read_digits_in_range(
                                    text.drop_first(),
                                    0,
                                    false,
                                    min,
                                    max,
                                );
                            } else if text[0] == '-' && signed {
                                lemma_read_digits_in_range(text.drop_first(), 0, true, min, max);
                            } else {
                                lemma_read_digits_in_range(text, 0, false, min, max);
                            }
                        }
                        lemma_read_int_decimal(n, signed, min, max);
                    },
                    Scalar::Bool => {
                        reveal_strlit("true");
                        reveal_strlit("false");
                        assert("true"@.len() != "false"@.len());
                    },
                    Scalar::Text => {},
                }
            },
            _ => {},
        }
    }
}

/// Whether two logs hold the same occurrences of every item, in the same
/// order for each item.
pub open spec fn same_occurrences(a: Seq<EntryView>, b: Seq<EntryView>) -> bool {
    forall|depth: int, is_flag: bool, slot: int|
        #[trigger] collected(a, depth, is_flag, slot) == collected(b, depth, is_flag, slot)
}

/// The flags of a command fold alike from logs with the same occurrences.
pub proof fn lemma_fold_flags_alike(
    cmd: Cmd,
    depth: int,
    a: Seq<EntryView>,
    b: Seq<EntryView>,
    k: int,
)
    requires
        same_occurrences(a, b),
    ensures
        fold_flags(cmd, depth, a, k) == fold_flags(cmd, depth, b, k),
    decreases cmd.flags@.len() - k,
{
    if 0 <= k < cmd.flags@.len() {
        assert(collected(a, depth, true, k) == collected(b, depth, true, k));
        lemma_fold_flags_alike(cmd, depth, a, b, k + 1);
    }
}

/// The positionals of a command fold alike from logs with the same
/// occurrences.
pub proof fn lemma_fold_args_alike(
    cmd: Cmd,
    depth: int,
    a: Seq<EntryView>,
    b: Seq<EntryView>,
    k: int,
)
    requires
        same_occurrences(a, b),
    ensures
        fold_args(cmd, depth, a, k) == fold_args(cmd, depth, b, k),
    decreases cmd.args@.len() - k,
{
    if 0 <= k < cmd.args@.len() {
        assert(collected(a, depth, false, k) == collected(b, depth, false, k));
        lemma_fold_args_alike(cmd, depth, a, b, k + 1);
    }
}

/// The levels of a chain fold alike from logs with the same occurrences.
pub proof fn lemma_fold_from_alike(path: Seq<Cmd>, a: Seq<EntryView>, b: Seq<EntryView>, d: int)
    requires
        same_occurrences(a, b),
    ensures
        fold_from(path, a, d) == fold_from(path, b, d),
    decreases path.len() - d,
{
    if 0 <= d < path.len() {
        lemma_fold_flags_alike(path[d], d, a, b, 0);
        lemma_fold_args_alike(path[d], d, a, b, 0);
        lemma_fold_from_alike(path, a, b, d + 1);
    }
}

/// The result of a parse is made of the final chain and of the occurrences
/// of each item alone: in which order occurrences of different items came,
/// and how the flags were spelled, leaves no trace in it.
pub proof fn lemma_record_is_made_of_occurrences(
    path: Seq<Cmd>,
    a: Seq<EntryView>,
    b: Seq<EntryView>,
)
    requires
        same_occurrences(a, b),
    ensures
        assemble(path, a) == assemble(path, b),
{
    lemma_fold_flags_alike(path[0], 0, a, b, 0);
    lemma_fold_args_alike(path[0], 0, a, b, 0);
    lemma_fold_from_alike(path, a, b, 0);
}

/// How many tokens the next call of `pop_flag` takes from a stream.
pub open spec fn taken(s: Stream) -> int {
    s.tokens.len() - pop_flag_spec(s).1.tokens.len()
}

/// The input of a configuration with its values written anew: each token
/// that a flag takes as its value, and, where `all` is set, each token
/// that a positional takes, is replaced by what the coerced value is
/// written as; every other token stays.
pub open spec fn rewritten(c: Config, all: bool) -> Seq<Seq<u8>>
    recommends
        c.path.len() > 0,
    decreases c.stream.tokens.len(), c.path.last(),
    when c.path.len() > 0
{
    let cur = c.path.last();
    let (popped, s) = pop_flag_spec(c.stream);
    let used = c.stream.tokens.take(taken(c.stream));
    match popped {
        None => c.stream.tokens,
        Some(Ok(text)) => match flag_hit(c.path, text) {
            FlagHit::Slot { depth, slot } => {
                let flag = c.path[depth].flags@[slot];
                let (v, after) = flag_value(flag, text, s);
                match v {
                    Err(_) => c.stream.tokens,
                    Ok(value) => {
                        let rest = rewritten(after_flag(c, depth, slot, value, after), all);
                        if flag.val.is_some() {
                            used + seq![render_spec(value)] + rest
                        } else {
                            used + rest
                        }
                    },
                }
            },
            FlagHit::Default => rewritten(after_default(c, encode_utf8(text)), all),
            _ => c.stream.tokens,
        },
        Some(Err(token)) => match arg_hit(cur, c.cursor, text_of(token)) {
            ArgHit::Enter(k) => used + rewritten(after_enter(c, k), all),
            ArgHit::Take(k) => match coerce_by(cur.args@[k].val.ty, cur.args@[k].val.name@, token) {
                Err(_) => c.stream.tokens,
                Ok(value) => used.drop_last() + seq![
                    if all {
                        render_spec(value)
                    } else {
                        token
                    },
                ] + rewritten(after_take(c, k, value), all),
            },
            ArgHit::Default => used.drop_last() + rewritten(after_default(c, token), all),
            ArgHit::Unknown => c.stream.tokens,
        },
    }
}

/// The configuration after a flag was taken with its value.
pub open spec fn after_flag(c: Config, depth: int, slot: int, value: ValueView, after: Stream) -> Config {
    Config { log: c.log.push(EntryView { depth, is_flag: true, slot, value }), stream: after, ..c }
}

/// The configuration after the default subcommand got to see a token.
pub open spec fn after_default(c: Config, raw: Seq<u8>) -> Config {
    Config {
        path: enter(c.path, 0),
        cursor: 0,
        stream: put_back(pop_flag_spec(c.stream).1, raw),
        ..c
    }
}

/// The configuration after a subcommand was entered by name.
pub open spec fn after_enter(c: Config, k: int) -> Config {
    Config { path: enter(c.path, k), cursor: 0, stream: pop_flag_spec(c.stream).1, ..c }
}

/// The configuration after a positional took a token.
pub open spec fn after_take(c: Config, k: int, value: ValueView) -> Config {
    Config {
        cursor: advance(c.path.last().args@[k].arity, c.cursor),
        log: c.log.push(EntryView { depth: c.path.len() - 1, is_flag: false, slot: k, value }),
        stream: pop_flag_spec(c.stream).1,
        ..c
    }
}

/// The configuration `c` with the tokens `tokens` as its input.
pub open spec fn with_input(c: Config, tokens: Seq<Seq<u8>>) -> Config {
    Config { stream: Stream { tokens, ..c.stream }, ..c }
}

/// Whether a name begins with neither a digit nor a dash, so that no
/// number written in decimal is that name.
pub open spec fn starts_plain(name: Seq<char>) -> bool {
    name.len() == 0 || !(is_digit(name[0]) || name[0] == '-')
}

/// Whether the names and aliases of all commands below a command begin
/// with neither a digit nor a dash.
pub open spec fn plain_names(cmd: Cmd) -> bool
    decreases cmd,
{
    forall|k: int|
        0 <= k < cmd.subcommands@.len() ==> {
            let sub = #[trigger] cmd.subcommands@[k];
            &&& starts_plain(sub.name@)
            &&& forall|i: int|
                0 <= i < sub.aliases@.len() ==> starts_plain(#[trigger] sub.aliases@[i]@)
            &&& plain_names(sub)
        }
}

/// Whether a raw token is a whole number written in decimal.
pub open spec fn is_number(t: Seq<u8>) -> bool {
    exists|m: int| t == encode_utf8(#[trigger] decimal(m))
}

/// Whether the token `t` can stand where `token` stood as a positional:
/// it is the same token, or it is a number written in decimal that looks
/// like a flag only where `token` did.
pub open spec fn akin(token: Seq<u8>, t: Seq<u8>) -> bool {
    t == token || (is_number(t) && (looks_like_flag(t) ==> looks_like_flag(token)))
}

/// Whether the tokens `n` begin like the input of `a` as far as the next
/// call of `pop_flag` goes: with the same tokens, but that, where `all` is
/// set, a positional may be replaced by a token akin to it.
pub open spec fn begins_alike(a: Stream, n: Seq<Seq<u8>>, all: bool) -> bool {
    let u = taken(a);
    &&& n.len() == a.tokens.len()
    &&& match pop_flag_spec(a).0 {
        Some(Err(token)) => n.take(u - 1) == a.tokens.take(u - 1) && if all {
            akin(token, n[u - 1])
        } else {
            n[u - 1] == token
        },
        _ => n.take(u) == a.tokens.take(u),
    }
}

/// The first call of `pop_flag` on tokens that begin like the input of a
/// stream hands out what it hands out on that input, with the positional
/// that stands in its place, and leaves the rest of the tokens.
pub proof fn lemma_pop_alike(a: Stream, n: Seq<Seq<u8>>, all: bool)
    requires
        begins_alike(a, n, all),
    ensures
        0 <= taken(a) <= a.tokens.len(),
        pop_flag_spec(a).1.tokens == a.tokens.skip(taken(a)),
        pop_flag_spec(a).0 matches Some(Err(_)) ==> taken(a) >= 1 && a.tokens[taken(a) - 1]
            == pop_flag_spec(a).0.unwrap()->Err_0,
        pop_flag_spec(Stream { tokens: n, ..a }).0 == match pop_flag_spec(a).0 {
            Some(Err(_)) => Some(Err::<Seq<char>, Seq<u8>>(n[taken(a) - 1])),
            other => other,
        },
        pop_flag_spec(Stream { tokens: n, ..a }).1 == (Stream {
            tokens: n.skip(taken(a)),
            ..pop_flag_spec(a).1
        }),
{
    let u = taken(a);
    if a.tokens.len() > 0 {
        assert(a.tokens.drop_first() =~= a.tokens.skip(1));
        assert(n.drop_first() =~= n.skip(1));
        if a.after_double_dash {
            assert(u == 1);
        } else if !is_double_dash(a.tokens[0]) {
            assert(u == 1);
            if looks_like_flag(a.tokens[0]) {
                assert(n.take(u)[0] == a.tokens.take(u)[0]);
            } else {
                assert(!looks_like_flag(n[0]));
            }
        } else if a.tokens.len() == 1 {
            assert(u == 1);
            assert(n.take(u)[0] == a.tokens.take(u)[0]);
            assert(n.skip(1) =~= Seq::<Seq<u8>>::empty());
            assert(a.tokens.skip(1) =~= Seq::<Seq<u8>>::empty());
        } else {
            assert(u == 2);
            assert(n.take(u - 1)[0] == a.tokens.take(u - 1)[0]);
        }
    } else {
        assert(n.skip(0) =~= n);
        assert(a.tokens.skip(0) =~= a.tokens);
    }
}

/// A number written in decimal begins with a digit, or with a minus where
/// it is negative, and reads as text.
pub proof fn lemma_decimal_head(m: int)
    ensures
        decimal(m).len() > 0,
        is_digit(decimal(m)[0]) || decimal(m)[0] == '-',
        (decimal(m)[0] == '-') == (m < 0),
        text_of(encode_utf8(decimal(m))) == decimal(m),
        looks_like_flag(encode_utf8(decimal(m))) == (m < 0),
{
    if m < 0 {
        lemma_read_digits_of_digits(-m, true, m, 0);
    } else {
        lemma_read_digits_of_digits(m, false, 0, m);
    }
    vstd::utf8::encode_utf8_valid_utf8(decimal(m));
    vstd::utf8::encode_utf8_decode_utf8(decimal(m));
}

/// No subcommand with a plain name answers to a number.
pub proof fn lemma_number_names_nobody(cur: Cmd, m: int, from: int)
    requires
        plain_names(cur),
        0 <= from,
    ensures
        find_sub(cur.subcommands@, decimal(m), from).is_none(),
    decreases cur.subcommands@.len() - from,
{
    if from < cur.subcommands@.len() {
        lemma_decimal_head(m);
        let sub = cur.subcommands@[from];
        assert(!sub.answers_to(decimal(m))) by {
            assert(starts_plain(sub.name@));
            assert forall|i: int| 0 <= i < sub.aliases@.len() implies sub.aliases@[i]@ != decimal(
                m,
            ) by {
                assert(starts_plain(sub.aliases@[i]@));
            }
        }
        lemma_number_names_nobody(cur, m, from + 1);
    }
}

/// A token akin to a positional that names no subcommand of a command
/// with plain names below it is dispatched like that positional.
pub proof fn lemma_akin_dispatch(cur: Cmd, cursor: int, token: Seq<u8>, t: Seq<u8>)
    requires
        akin(token, t),
        t == token || plain_names(cur),
        !(arg_hit(cur, cursor, text_of(token)) is Enter),
    ensures
        arg_hit(cur, cursor, text_of(t)) == arg_hit(cur, cursor, text_of(token)),
{
    if t != token {
        let m = choose|m: int| t == encode_utf8(#[trigger] decimal(m));
        lemma_decimal_head(m);
        lemma_number_names_nobody(cur, m, cur.first_named());
    }
}

/// What a value is written as is akin to the token that it was coerced
/// from.
pub proof fn lemma_rendered_is_akin(ty: Ty, name: Seq<char>, token: Seq<u8>)
    ensures
        coerce_by(ty, name, token) matches Ok(v) ==> akin(token, render_spec(v)),
{
    if let Ok(v) = coerce_by(ty, name, token) {
        match ty {
            Ty::FromStr(t) => {
                let text = decode_utf8(token);
                vstd::utf8::decode_utf8_encode_utf8(token);
                match scalar_of(t@) {
                    Scalar::Int { signed, min, max } => {
                        let m = read_int(text, signed, min, max)->Ok_0;
                        assert(render_spec(v) == encode_utf8(decimal(m)));
                        lemma_decimal_head(m);
                        if m < 0 {
                            if text.len() > 0 && !(text.len() == 1 && (text[0] == '+' || text[0]
                                == '-')) {
                                if text[0] == '+' {
                                    lemma_read_digits_in_range(
                                        text.drop_first(),
                                        0,
                                        false,
                                        min,
                                        max,
                                    );
                                } else if !(text[0] == '-' && signed) {
                                    lemma_read_digits_in_range(text, 0, false, min, max);
                                }
                            }
                            assert(text[0] == '-');
                        }
                    },
                    Scalar::Bool => {},
                    Scalar::Text => {},
                }
            },
            _ => {},
        }
    }
}

/// Whether writing the values of `c` anew keeps the result and the
/// beginning of the input.
pub open spec fn keeps(c: Config, all: bool) -> bool {
    &&& run(with_input(c, rewritten(c, all))) == run(c)
    &&& begins_alike(c.stream, rewritten(c, all), all)
}

/// The step of a flag that is taken, with or without a value.
proof fn lemma_keeps_flag(c: Config, all: bool, text: Seq<char>, depth: int, slot: int)
    requires
        c.path.len() > 0,
        pop_flag_spec(c.stream).0 == Some(Ok::<Seq<char>, Seq<u8>>(text)),
        flag_hit(c.path, text) == (FlagHit::Slot { depth, slot }),
        flag_value(c.path[depth].flags@[slot], text, pop_flag_spec(c.stream).1).0 matches Ok(value)
            && keeps(
            after_flag(
                c,
                depth,
                slot,
                value,
                flag_value(c.path[depth].flags@[slot], text, pop_flag_spec(c.stream).1).1,
            ),
            all,
        ),
    ensures
        keeps(c, all),
{
    let s = pop_flag_spec(c.stream).1;
    let u = taken(c.stream);
    let used = c.stream.tokens.take(u);
    let n = rewritten(c, all);
    let cn = with_input(c, n);
    let flag = c.path[depth].flags@[slot];
    let (v, after) = flag_value(flag, text, s);
    let value = v->Ok_0;
    let next = after_flag(c, depth, slot, value, after);
    let rest = rewritten(next, all);
    assert(begins_alike(c.stream, c.stream.tokens, all));
    lemma_pop_alike(c.stream, c.stream.tokens, all);
    assert(u == 1);
    if let Some(val) = flag.val {
        assert(n == used + seq![render_spec(value)] + rest);
        assert(n.take(u) =~= used);
        lemma_pop_alike(c.stream, n, all);
        let sn = pop_flag_spec(cn.stream).1;
        assert(sn.tokens =~= seq![render_spec(value)] + rest);
        assert(sn.tokens[0] == render_spec(value));
        assert(sn.tokens.drop_first() =~= rest);
        lemma_value_round_trip(val.ty, text, s.tokens[0]);
        assert(flag_value(flag, text, sn).0 == v);
        assert(flag_value(flag, text, sn).1 == with_input(next, rest).stream);
        assert(run(cn) == run(with_input(next, rest)));
    } else {
        assert(n == used + rest);
        assert(n.take(u) =~= used);
        lemma_pop_alike(c.stream, n, all);
        let sn = pop_flag_spec(cn.stream).1;
        assert(sn.tokens =~= rest);
        assert(flag_value(flag, text, sn).1 == with_input(next, rest).stream);
        assert(run(cn) == run(with_input(next, rest)));
    }
}

/// The step of a flag that goes on to the default subcommand.
proof fn lemma_keeps_flag_default(c: Config, all: bool, text: Seq<char>)
    requires
        c.path.len() > 0,
        pop_flag_spec(c.stream).0 == Some(Ok::<Seq<char>, Seq<u8>>(text)),
        flag_hit(c.path, text) == FlagHit::Default,
        keeps(after_default(c, encode_utf8(text)), all),
    ensures
        keeps(c, all),
{
    let n = rewritten(c, all);
    let cn = with_input(c, n);
    let next = after_default(c, encode_utf8(text));
    assert(begins_alike(c.stream, c.stream.tokens, all));
    lemma_pop_alike(c.stream, c.stream.tokens, all);
    vstd::utf8::decode_utf8_encode_utf8(c.stream.tokens[0]);
    assert(next.stream.tokens =~= c.stream.tokens);
    assert(next.stream == c.stream);
    assert(n == rewritten(next, all));
    lemma_pop_alike(c.stream, n, all);
    let sn = pop_flag_spec(cn.stream).1;
    assert(put_back(sn, encode_utf8(text)).tokens =~= n) by {
        assert(n.take(1)[0] == c.stream.tokens.take(1)[0]);
    }
    assert(put_back(sn, encode_utf8(text)) == with_input(next, n).stream);
    assert(run(cn) == run(with_input(next, n)));
}

/// The step of a positional that names a subcommand.
proof fn lemma_keeps_enter(c: Config, all: bool, token: Seq<u8>, k: int)
    requires
        c.path.len() > 0,
        pop_flag_spec(c.stream).0 == Some(Err::<Seq<char>, Seq<u8>>(token)),
        arg_hit(c.path.last(), c.cursor, text_of(token)) == ArgHit::Enter(k),
        keeps(after_enter(c, k), all),
    ensures
        keeps(c, all),
{
    let u = taken(c.stream);
    let used = c.stream.tokens.take(u);
    let n = rewritten(c, all);
    let cn = with_input(c, n);
    let next = after_enter(c, k);
    let rest = rewritten(next, all);
    assert(begins_alike(c.stream, c.stream.tokens, all));
    lemma_pop_alike(c.stream, c.stream.tokens, all);
    assert(n == used + rest);
    assert(n.take(u) =~= used);
    assert(n.take(u - 1) =~= c.stream.tokens.take(u - 1));
    assert(n[u - 1] == token);
    lemma_pop_alike(c.stream, n, all);
    let sn = pop_flag_spec(cn.stream).1;
    assert(sn.tokens =~= rest);
    assert(sn == with_input(next, rest).stream);
    assert(run(cn) == run(with_input(next, rest)));
}

/// The step of a positional that is taken.
proof fn lemma_keeps_take(c: Config, all: bool, token: Seq<u8>, k: int, value: ValueView)
    requires
        c.path.len() > 0,
        all ==> plain_names(c.path.last()),
        pop_flag_spec(c.stream).0 == Some(Err::<Seq<char>, Seq<u8>>(token)),
        arg_hit(c.path.last(), c.cursor, text_of(token)) == ArgHit::Take(k),
        coerce_by(c.path.last().args@[k].val.ty, c.path.last().args@[k].val.name@, token) == Ok::<
            ValueView,
            Seq<char>,
        >(value),
        keeps(after_take(c, k, value), all),
    ensures
        keeps(c, all),
{
    let cur = c.path.last();
    let u = taken(c.stream);
    let used = c.stream.tokens.take(u);
    let n = rewritten(c, all);
    let cn = with_input(c, n);
    let next = after_take(c, k, value);
    let rest = rewritten(next, all);
    let t = if all { render_spec(value) } else { token };
    assert(begins_alike(c.stream, c.stream.tokens, all));
    lemma_pop_alike(c.stream, c.stream.tokens, all);
    lemma_rendered_is_akin(cur.args@[k].val.ty, cur.args@[k].val.name@, token);
    lemma_value_round_trip(cur.args@[k].val.ty, cur.args@[k].val.name@, token);
    assert(akin(token, t));
    assert(n == used.drop_last() + seq![t] + rest);
    assert(used.drop_last() =~= c.stream.tokens.take(u - 1));
    assert(n.take(u - 1) =~= c.stream.tokens.take(u - 1));
    assert(n[u - 1] == t);
    lemma_pop_alike(c.stream, n, all);
    lemma_akin_dispatch(cur, c.cursor, token, t);
    let sn = pop_flag_spec(cn.stream).1;
    assert(sn.tokens =~= rest);
    assert(sn == with_input(next, rest).stream);
    assert(coerce_by(cur.args@[k].val.ty, cur.args@[k].val.name@, t) == Ok::<
        ValueView,
        Seq<char>,
    >(value));
    assert(run(cn) == run(with_input(next, rest)));
}

/// The step of a positional that goes on to the default subcommand.
proof fn lemma_keeps_arg_default(c: Config, all: bool, token: Seq<u8>)
    requires
        c.path.len() > 0,
        all ==> plain_names(c.path.last()),
        pop_flag_spec(c.stream).0 == Some(Err::<Seq<char>, Seq<u8>>(token)),
        arg_hit(c.path.last(), c.cursor, text_of(token)) == ArgHit::Default,
        keeps(after_default(c, token), all),
    ensures
        keeps(c, all),
{
    let cur = c.path.last();
    let u = taken(c.stream);
    let used = c.stream.tokens.take(u);
    let n = rewritten(c, all);
    let cn = with_input(c, n);
    let next = after_default(c, token);
    let rest = rewritten(next, all);
    assert(begins_alike(c.stream, c.stream.tokens, all));
    lemma_pop_alike(c.stream, c.stream.tokens, all);
    assert(n == used.drop_last() + rest);
    assert(next.stream.tokens[0] == token);
    assert(next.stream.tokens.drop_first() =~= pop_flag_spec(c.stream).1.tokens);
    assert(pop_flag_spec(next.stream).0 == Some(Err::<Seq<char>, Seq<u8>>(token)));
    assert(taken(next.stream) == 1);
    let t = rest[0];
    assert(akin(token, t));
    assert(!all ==> t == token);
    assert(used.drop_last() =~= c.stream.tokens.take(u - 1));
    assert(n.take(u - 1) =~= c.stream.tokens.take(u - 1));
    assert(n[u - 1] == t);
    lemma_pop_alike(c.stream, n, all);
    lemma_akin_dispatch(cur, c.cursor, token, t);
    let sn = pop_flag_spec(cn.stream).1;
    assert(sn.tokens =~= rest.drop_first());
    assert(put_back(sn, t).tokens =~= rest);
    assert(put_back(sn, t) == with_input(next, rest).stream);
    assert(run(cn) == run(with_input(next, rest)));
}

/// Writing the values of a configuration anew keeps the result and the
/// beginning of the input.
pub proof fn lemma_rewritten_keeps(c: Config, all: bool)
    requires
        c.path.len() > 0,
        all ==> plain_names(c.path.last()),
    ensures
        keeps(c, all),
    decreases c.stream.tokens.len(), c.path.last(),
{
    let cur = c.path.last();
    let (popped, s) = pop_flag_spec(c.stream);
    assert(begins_alike(c.stream, c.stream.tokens, all));
    lemma_pop_alike(c.stream, c.stream.tokens, all);
    assert(with_input(c, c.stream.tokens) == c);
    match popped {
        None => {},
        Some(Ok(text)) => match flag_hit(c.path, text) {
            FlagHit::Slot { depth, slot } => {
                let (v, after) = flag_value(c.path[depth].flags@[slot], text, s);
                if let Ok(value) = v {
                    lemma_rewritten_keeps(after_flag(c, depth, slot, value, after), all);
                    lemma_keeps_flag(c, all, text, depth, slot);
                }
            },
            FlagHit::Default => {
                lemma_rewritten_keeps(after_default(c, encode_utf8(text)), all);
                lemma_keeps_flag_default(c, all, text);
            },
            _ => {},
        },
        Some(Err(token)) => match arg_hit(cur, c.cursor, text_of(token)) {
            ArgHit::Enter(k) => {
                lemma_find_sub_in_range(cur.subcommands@, text_of(token), cur.first_named());
                lemma_rewritten_keeps(after_enter(c, k), all);
                lemma_keeps_enter(c, all, token, k);
            },
            ArgHit::Take(k) => {
                if let Ok(value) = coerce_by(cur.args@[k].val.ty, cur.args@[k].val.name@, token) {
                    lemma_rewritten_keeps(after_take(c, k, value), all);
                    lemma_keeps_take(c, all, token, k, value);
                }
            },
            ArgHit::Default => {
                lemma_rewritten_keeps(after_default(c, token), all);
                lemma_keeps_arg_default(c, all, token);
            },
            ArgHit::Unknown => {},
        },
    }
}

/// Nothing is lost between the value of a flag and the token that it is
/// written as: an input in which the value of every flag is written anew
/// from the coerced value gives the same result, for every grammar and in
/// every state.
pub proof fn lemma_flag_values_round_trip(c: Config)
    requires
        c.path.len() > 0,
    ensures
        run(with_input(c, rewritten(c, false))) == run(c),
        rewritten(c, false).len() == c.stream.tokens.len(),
{
    lemma_rewritten_keeps(c, false);
}

/// Nothing is lost between a value and the token that it is written as:
/// an input in which the value of every flag and of every positional is
/// written anew from the coerced value gives the same result, in every
/// state of every grammar in which no name or alias of a subcommand
/// begins with a digit or a dash.
pub proof fn lemma_values_round_trip(c: Config)
    requires
        c.path.len() > 0,
        plain_names(c.path.last()),
    ensures
        run(with_input(c, rewritten(c, true))) == run(c),
        rewritten(c, true).len() == c.stream.tokens.len(),
{
    lemma_rewritten_keeps(c, true);
}

} // verus!
