//! What parsing means: the state machine over the command tree, stated as
//! mathematical functions of the grammar and the input.
//!
//! A state is the chain of commands from the root to the command whose
//! flags, positionals and subcommands are within reach. Flags of every
//! command on the chain are recognized; positionals and subcommand names
//! are those of the last one.

use vstd::prelude::*;
use vstd::utf8::encode_utf8;
use crate::ast::{Arity, Cmd, Flag, Ty};
use crate::help::help_spec;
use crate::rt::{
    coerce_spec, msg_expected_value, msg_more_than_once, msg_required, msg_subcommand_required,
    msg_unexpected_arg, msg_unexpected_flag, pop_flag_spec, text_of, Stream,
};
use crate::value::ValueView;

verus! {

/// A failed parse, or a request for help, as the specifications see it.
pub struct Failure {
    pub msg: Seq<char>,
    pub help: bool,
}

/// A usage error with the given message.
pub open spec fn usage(msg: Seq<char>) -> Failure {
    Failure { msg, help: false }
}

/// One collected occurrence: the command that declared the item (by its
/// place on the chain), whether the item is a flag or a positional, its
/// place among the items of that kind, and the coerced value.
pub struct EntryView {
    pub depth: int,
    pub is_flag: bool,
    pub slot: int,
    pub value: ValueView,
}

/// The folded value of one declared item.
pub enum FieldView {
    /// An optional flag without value: whether it was given.
    Switch(bool),
    /// A required flag without value.
    Unit,
    /// A repeated flag without value: how often it was given.
    Count(int),
    /// A required value.
    One(ValueView),
    /// An optional value.
    Maybe(Option<ValueView>),
    /// A repeated value: the occurrences in the order of the input.
    Many(Seq<ValueView>),
}

/// A folded item under its name.
pub struct NamedView {
    pub name: Seq<char>,
    pub field: FieldView,
}

/// The fields of one command on the chain.
pub struct LevelView {
    pub state: int,
    pub name: Seq<char>,
    pub flags: Seq<NamedView>,
    pub args: Seq<NamedView>,
}

/// The outcome of a parse: the levels from the root to the chosen leaf, or
/// the failure.
pub type Outcome = Result<Seq<LevelView>, Failure>;

/// `r` with `pre` in front of what it holds, where it holds anything.
pub open spec fn prepend<T>(pre: Seq<T>, r: Result<Seq<T>, Failure>) -> Result<Seq<T>, Failure> {
    match r {
        Ok(rest) => Ok(pre + rest),
        Err(f) => Err(f),
    }
}

/// The spelling of a long flag.
pub open spec fn long_form(name: Seq<char>) -> Seq<char> {
    "--"@ + name
}

/// The spelling of a short flag.
pub open spec fn short_form(name: Seq<char>) -> Seq<char> {
    "-"@ + name
}

/// Whether `text` is one of the spellings of `flag`. The help flag is
/// handled apart and matches nothing here.
pub open spec fn flag_matches(flag: Flag, text: Seq<char>) -> bool {
    !flag.is_help_spec() && (text == long_form(flag.name@) || match flag.short {
        Some(s) => text == short_form(s@),
        None => false,
    })
}

/// Whether `text` asks for help.
pub open spec fn asks_help(text: Seq<char>) -> bool {
    text == "--help"@ || text == "-h"@
}

/// The first flag at or after `from` that `text` spells.
pub open spec fn find_flag(flags: Seq<Flag>, text: Seq<char>, from: int) -> Option<int>
    decreases flags.len() - from,
{
    if from < 0 || from >= flags.len() {
        None
    } else if flag_matches(flags[from], text) {
        Some(from)
    } else {
        find_flag(flags, text, from + 1)
    }
}

/// The first flag that `text` spells among the commands above the last one
/// on the chain, from depth `d` downwards: its depth and its slot.
pub open spec fn find_above(path: Seq<Cmd>, text: Seq<char>, d: int) -> Option<(int, int)>
    decreases path.len() - d,
{
    if d < 0 || d >= path.len() - 1 {
        None
    } else {
        match find_flag(path[d].flags@, text, 0) {
            Some(k) => Some((d, k)),
            None => find_above(path, text, d + 1),
        }
    }
}

/// What a flag token leads to in a state.
pub enum FlagHit {
    /// A declared flag: the depth of its command and its slot there.
    Slot { depth: int, slot: int },
    /// The help of the current command.
    Help,
    /// Nothing matches, and the current command has a default subcommand
    /// that gets to see the token.
    Default,
    /// Nothing matches.
    Unknown,
}

/// The dispatch of a flag token: flags of the commands above come first,
/// the outermost first; then the help flag; then the flags of the current
/// command; then its default subcommand.
pub open spec fn flag_hit(path: Seq<Cmd>, text: Seq<char>) -> FlagHit {
    let cur = path.last();
    match find_above(path, text, 0) {
        Some((d, k)) => FlagHit::Slot { depth: d, slot: k },
        None => if asks_help(text) {
            FlagHit::Help
        } else {
            match find_flag(cur.flags@, text, 0) {
                Some(k) => FlagHit::Slot { depth: path.len() - 1, slot: k },
                None => if cur.has_default() {
                    FlagHit::Default
                } else {
                    FlagHit::Unknown
                },
            }
        },
    }
}

/// The coercion of a raw token to a declared type. `name` is what a
/// failure's message calls the item.
pub open spec fn coerce_by(ty: Ty, name: Seq<char>, token: Seq<u8>) -> Result<
    ValueView,
    Seq<char>,
> {
    match ty {
        Ty::PathBuf => Ok(ValueView::Path(token)),
        Ty::OsString => Ok(ValueView::OsStr(token)),
        Ty::FromStr(t) => coerce_spec(name, t@, token),
    }
}

/// The value of one occurrence of `flag`, typed as `typed`, and the stream
/// after it. A flag with a value takes the next raw token, whatever that
/// looks like.
pub open spec fn flag_value(flag: Flag, typed: Seq<char>, s: Stream) -> (
    Result<ValueView, Seq<char>>,
    Stream,
) {
    match flag.val {
        None => (Ok(ValueView::Unit), s),
        Some(val) => if s.tokens.len() == 0 {
            (Err(msg_expected_value(typed)), s)
        } else {
            (
                coerce_by(val.ty, typed, s.tokens[0]),
                Stream { tokens: s.tokens.drop_first(), ..s },
            )
        },
    }
}

/// The first subcommand at or after `from` that answers to `text`.
pub open spec fn find_sub(subs: Seq<Cmd>, text: Seq<char>, from: int) -> Option<int>
    decreases subs.len() - from,
{
    if from < 0 || from >= subs.len() {
        None
    } else if subs[from].answers_to(text) {
        Some(from)
    } else {
        find_sub(subs, text, from + 1)
    }
}

/// What a positional token leads to in a state.
pub enum ArgHit {
    /// The subcommand at this index is entered.
    Enter(int),
    /// The positional at this slot takes the token.
    Take(int),
    /// Nothing takes it, and the default subcommand gets to see it.
    Default,
    /// Nothing takes it.
    Unknown,
}

/// The dispatch of a positional token: the names of the subcommands come
/// first; then the first positional that is still open; then the default
/// subcommand.
pub open spec fn arg_hit(cur: Cmd, cursor: int, text: Seq<char>) -> ArgHit {
    match find_sub(cur.subcommands@, text, cur.first_named()) {
        Some(k) => ArgHit::Enter(k),
        None => if 0 <= cursor < cur.args@.len() {
            ArgHit::Take(cursor)
        } else if cur.has_default() {
            ArgHit::Default
        } else {
            ArgHit::Unknown
        },
    }
}

/// The place of the first positional that is still open, after the one at
/// `cursor` took a token: an optional or required one is closed by its
/// first token, a repeated one stays open.
pub open spec fn advance(arity: Arity, cursor: int) -> int {
    if arity == Arity::Repeated {
        cursor
    } else {
        cursor + 1
    }
}

/// The machine between two tokens.
pub struct Config {
    /// The chain of commands from the root to the current one.
    pub path: Seq<Cmd>,
    /// The first positional of the current command that is still open.
    pub cursor: int,
    /// The occurrences collected so far, in the order of the input.
    pub log: Seq<EntryView>,
    /// What is left of the input.
    pub stream: Stream,
}

/// The values collected for one item, in the order of the input.
pub open spec fn collected(log: Seq<EntryView>, depth: int, is_flag: bool, slot: int) -> Seq<
    ValueView,
>
    decreases log.len(),
{
    if log.len() == 0 {
        Seq::empty()
    } else {
        let before = collected(log.drop_last(), depth, is_flag, slot);
        let e = log.last();
        if e.depth == depth && e.is_flag == is_flag && e.slot == slot {
            before.push(e.value)
        } else {
            before
        }
    }
}

/// The folding of the occurrences of one item by its arity.
pub open spec fn fold_field(arity: Arity, valued: bool, shown: Seq<char>, vals: Seq<ValueView>) -> Result<
    FieldView,
    Failure,
> {
    match arity {
        Arity::Repeated => if valued {
            Ok(FieldView::Many(vals))
        } else {
            Ok(FieldView::Count(vals.len() as int))
        },
        Arity::Optional => if vals.len() > 1 {
            Err(usage(msg_more_than_once(shown)))
        } else if valued {
            Ok(FieldView::Maybe(if vals.len() == 1 { Some(vals[0]) } else { None }))
        } else {
            Ok(FieldView::Switch(vals.len() == 1))
        },
        Arity::Required => if vals.len() > 1 {
            Err(usage(msg_more_than_once(shown)))
        } else if vals.len() == 0 {
            Err(usage(msg_required(shown)))
        } else if valued {
            Ok(FieldView::One(vals[0]))
        } else {
            Ok(FieldView::Unit)
        },
    }
}

/// The folded flags of a command from slot `k` on, the help flag left
/// out; the first failure ends the folding.
pub open spec fn fold_flags(cmd: Cmd, depth: int, log: Seq<EntryView>, k: int) -> Result<
    Seq<NamedView>,
    Failure,
>
    decreases cmd.flags@.len() - k,
{
    if k < 0 || k >= cmd.flags@.len() {
        Ok(Seq::empty())
    } else {
        let flag = cmd.flags@[k];
        if flag.is_help_spec() {
            fold_flags(cmd, depth, log, k + 1)
        } else {
            match fold_field(
                flag.arity,
                flag.val.is_some(),
                long_form(flag.name@),
                collected(log, depth, true, k),
            ) {
                Err(f) => Err(f),
                Ok(field) => match fold_flags(cmd, depth, log, k + 1) {
                    Err(f) => Err(f),
                    Ok(rest) => Ok(seq![NamedView { name: flag.name@, field }] + rest),
                },
            }
        }
    }
}

/// The folded positionals of a command from slot `k` on; the first failure
/// ends the folding.
pub open spec fn fold_args(cmd: Cmd, depth: int, log: Seq<EntryView>, k: int) -> Result<
    Seq<NamedView>,
    Failure,
>
    decreases cmd.args@.len() - k,
{
    if k < 0 || k >= cmd.args@.len() {
        Ok(Seq::empty())
    } else {
        let arg = cmd.args@[k];
        match fold_field(arg.arity, true, arg.val.name@, collected(log, depth, false, k)) {
            Err(f) => Err(f),
            Ok(field) => match fold_args(cmd, depth, log, k + 1) {
                Err(f) => Err(f),
                Ok(rest) => Ok(seq![NamedView { name: arg.val.name@, field }] + rest),
            },
        }
    }
}

/// The fields of one command: its flags first, then its positionals.
pub open spec fn fold_level(cmd: Cmd, depth: int, log: Seq<EntryView>) -> Result<
    LevelView,
    Failure,
> {
    match fold_flags(cmd, depth, log, 0) {
        Err(f) => Err(f),
        Ok(flags) => match fold_args(cmd, depth, log, 0) {
            Err(f) => Err(f),
            Ok(args) => Ok(LevelView { state: cmd.idx as int, name: cmd.name@, flags, args }),
        },
    }
}

/// The levels of the chain from depth `d` on.
pub open spec fn fold_from(path: Seq<Cmd>, log: Seq<EntryView>, d: int) -> Outcome
    decreases path.len() - d,
{
    if d < 0 || d >= path.len() {
        Ok(Seq::empty())
    } else {
        match fold_level(path[d], d, log) {
            Err(f) => Err(f),
            Ok(level) => match fold_from(path, log, d + 1) {
                Err(f) => Err(f),
                Ok(rest) => Ok(seq![level] + rest),
            },
        }
    }
}

/// The chain at the end of the input: as long as the current command has a
/// default subcommand, that one is entered.
pub open spec fn promote(path: Seq<Cmd>) -> Seq<Cmd>
    recommends
        path.len() > 0,
    decreases path.last(),
    when path.len() > 0
{
    if path.last().has_default() {
        promote(path.push(path.last().subcommands@[0]))
    } else {
        path
    }
}

/// The result for a final chain. When the chain does not end in a command
/// without subcommands, the fields of the root are folded and then a
/// subcommand is found missing.
pub open spec fn assemble(path: Seq<Cmd>, log: Seq<EntryView>) -> Outcome {
    if path.last().has_subcommands_spec() {
        match fold_level(path[0], 0, log) {
            Err(f) => Err(f),
            Ok(_) => Err(usage(msg_subcommand_required())),
        }
    } else {
        fold_from(path, log, 0)
    }
}

/// The result once the input is used up.
pub open spec fn finish(path: Seq<Cmd>, log: Seq<EntryView>) -> Outcome {
    assemble(promote(path), log)
}

/// The chain after the subcommand at index `k` of the current command is
/// entered.
pub open spec fn enter(path: Seq<Cmd>, k: int) -> Seq<Cmd> {
    path.push(path.last().subcommands@[k])
}

/// The stream with a token put back at its front.
pub open spec fn put_back(s: Stream, raw: Seq<u8>) -> Stream {
    Stream { tokens: seq![raw] + s.tokens, ..s }
}

/// The outcome of running the machine from a configuration to the end of
/// the input.
pub open spec fn run(c: Config) -> Outcome
    recommends
        c.path.len() > 0,
    decreases c.stream.tokens.len(), c.path.last(),
    when c.path.len() > 0
{
    let cur = c.path.last();
    let (popped, s) = pop_flag_spec(c.stream);
    match popped {
        None => finish(c.path, c.log),
        Some(Ok(text)) => match flag_hit(c.path, text) {
            FlagHit::Slot { depth, slot } => {
                let (v, after) = flag_value(c.path[depth].flags@[slot], text, s);
                match v {
                    Err(msg) => Err(usage(msg)),
                    Ok(value) => run(
                        Config {
                            log: c.log.push(EntryView { depth, is_flag: true, slot, value }),
                            stream: after,
                            ..c
                        },
                    ),
                }
            },
            FlagHit::Help => Err(Failure { msg: help_spec(cur), help: true }),
            FlagHit::Default => run(
                Config {
                    path: enter(c.path, 0),
                    cursor: 0,
                    stream: put_back(s, encode_utf8(text)),
                    ..c
                },
            ),
            FlagHit::Unknown => Err(usage(msg_unexpected_flag(text))),
        },
        Some(Err(token)) => match arg_hit(cur, c.cursor, text_of(token)) {
            ArgHit::Enter(k) => run(Config { path: enter(c.path, k), cursor: 0, stream: s, ..c }),
            ArgHit::Take(k) => match coerce_by(cur.args@[k].val.ty, cur.args@[k].val.name@, token) {
                Err(msg) => Err(usage(msg)),
                Ok(value) => run(
                    Config {
                        cursor: advance(cur.args@[k].arity, c.cursor),
                        log: c.log.push(
                            EntryView { depth: c.path.len() - 1, is_flag: false, slot: k, value },
                        ),
                        stream: s,
                        ..c
                    },
                ),
            },
            ArgHit::Default => run(
                Config { path: enter(c.path, 0), cursor: 0, stream: put_back(s, token), ..c },
            ),
            ArgHit::Unknown => Err(usage(msg_unexpected_arg(token))),
        },
    }
}

/// The configuration before the first token.
pub open spec fn initial(root: Cmd, tokens: Seq<Seq<u8>>) -> Config {
    Config {
        path: seq![root],
        cursor: 0,
        log: Seq::empty(),
        stream: Stream { tokens, after_double_dash: false },
    }
}

/// What parsing `tokens` by the grammar under `root` gives.
pub open spec fn parse_spec(root: Cmd, tokens: Seq<Seq<u8>>) -> Outcome {
    run(initial(root, tokens))
}

/// A flag that is found lies at or after the place where the search began,
/// is spelled by the text, and no flag between the two is.
pub proof fn lemma_find_flag_in_range(flags: Seq<Flag>, text: Seq<char>, from: int)
    requires
        0 <= from,
    ensures
        match find_flag(flags, text, from) {
            Some(k) => from <= k < flags.len() && flag_matches(flags[k], text) && forall|j: int|
                from <= j < k ==> !flag_matches(flags[j], text),
            None => forall|j: int| from <= j < flags.len() ==> !flag_matches(flags[j], text),
        },
    decreases flags.len() - from,
{
    if from < flags.len() && !flag_matches(flags[from], text) {
        lemma_find_flag_in_range(flags, text, from + 1);
    }
}

/// A subcommand that is found lies at or after the place where the search
/// began and answers to the text.
pub proof fn lemma_find_sub_in_range(subs: Seq<Cmd>, text: Seq<char>, from: int)
    requires
        0 <= from,
    ensures
        find_sub(subs, text, from) matches Some(k) ==> from <= k < subs.len() && subs[k].answers_to(
            text,
        ),
    decreases subs.len() - from,
{
    if from < subs.len() && !subs[from].answers_to(text) {
        lemma_find_sub_in_range(subs, text, from + 1);
    }
}

} // verus!
