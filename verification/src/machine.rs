//! The machine that runs a grammar against the input: dispatch of flags and
//! positionals by state, and the folding of what was collected into a
//! record.

use vstd::prelude::*;
use crate::ast::{Arity, Cmd, Flag, Ty};
use crate::help::help_text;
use crate::rt::{raw_tokens, yields, Parser};
use crate::semantics::{
    arg_hit, assemble, coerce_by, collected, enter, find_above, find_flag, find_sub, flag_hit,
    flag_matches, flag_value, fold_args, fold_field, fold_flags, fold_from, fold_level,
    lemma_find_flag_in_range, parse_spec, prepend, promote, run, ArgHit, Config, EntryView,
    Failure, FieldView, FlagHit, LevelView, NamedView,
};
use crate::text::{decode, join, same};
use crate::value::{Value, ValueView};
use crate::Error;

verus! {

/// The views of a sequence of values.
pub open spec fn values_view(s: Seq<Value>) -> Seq<ValueView> {
    s.map_values(|v: Value| v@)
}

/// One collected occurrence.
#[derive(Debug)]
pub struct Entry {
    pub depth: usize,
    pub is_flag: bool,
    pub slot: usize,
    pub value: Value,
}

impl View for Entry {
    type V = EntryView;

    open spec fn view(&self) -> EntryView {
        EntryView {
            depth: self.depth as int,
            is_flag: self.is_flag,
            slot: self.slot as int,
            value: self.value@,
        }
    }
}

/// The views of a log.
pub open spec fn log_view(s: Seq<Entry>) -> Seq<EntryView> {
    s.map_values(|e: Entry| e@)
}

/// The folded value of one declared item.
#[derive(Debug, PartialEq, Eq)]
pub enum Field {
    Switch(bool),
    Unit,
    Count(usize),
    One(Value),
    Maybe(Option<Value>),
    Many(Vec<Value>),
}

impl View for Field {
    type V = FieldView;

    open spec fn view(&self) -> FieldView {
        match self {
            Field::Switch(b) => FieldView::Switch(*b),
            Field::Unit => FieldView::Unit,
            Field::Count(n) => FieldView::Count(*n as int),
            Field::One(v) => FieldView::One(v@),
            Field::Maybe(o) => FieldView::Maybe(
                match o {
                    Some(v) => Some(v@),
                    None => None,
                },
            ),
            Field::Many(vs) => FieldView::Many(values_view(vs@)),
        }
    }
}

/// A folded item under its name.
#[derive(Debug, PartialEq, Eq)]
pub struct Named {
    pub name: String,
    pub field: Field,
}

impl View for Named {
    type V = NamedView;

    open spec fn view(&self) -> NamedView {
        NamedView { name: self.name@, field: self.field@ }
    }
}

/// The views of a list of named fields.
pub open spec fn fields_view(s: Seq<Named>) -> Seq<NamedView> {
    s.map_values(|n: Named| n@)
}

/// The fields of one command on the chain from the root to the chosen
/// leaf.
#[derive(Debug, PartialEq, Eq)]
pub struct Level {
    pub state: u8,
    pub name: String,
    pub flags: Vec<Named>,
    pub args: Vec<Named>,
}

impl View for Level {
    type V = LevelView;

    open spec fn view(&self) -> LevelView {
        LevelView {
            state: self.state as int,
            name: self.name@,
            flags: fields_view(self.flags@),
            args: fields_view(self.args@),
        }
    }
}

/// The views of a list of levels.
pub open spec fn levels_view(s: Seq<Level>) -> Seq<LevelView> {
    s.map_values(|l: Level| l@)
}

/// The structured result of a parse: one level for each command from the
/// root to the chosen leaf.
#[derive(Debug, PartialEq, Eq)]
pub struct Record {
    pub levels: Vec<Level>,
}

impl View for Record {
    type V = Seq<LevelView>;

    open spec fn view(&self) -> Seq<LevelView> {
        levels_view(self.levels@)
    }
}

/// The commands that a chain of references points to.
pub open spec fn chain(path: Seq<&Cmd>) -> Seq<Cmd> {
    path.map_values(|c: &Cmd| *c)
}

/// Whether `text` is one of the spellings of `flag`.
pub fn spells(flag: &Flag, text: &str) -> (b: bool)
    ensures
        b == flag_matches(*flag, text@),
{
    if flag.is_help() {
        return false;
    }
    let long = join("--", flag.name.as_str());
    if same(long.as_str(), text) {
        return true;
    }
    match &flag.short {
        Some(s) => {
            let short = join("-", s.as_str());
            same(short.as_str(), text)
        },
        None => false,
    }
}

/// The slot of the first flag that `text` spells.
pub fn lookup_flag(flags: &Vec<Flag>, text: &str) -> (r: Option<usize>)
    ensures
        match r {
            Some(k) => find_flag(flags@, text@, 0) == Some(k as int),
            None => find_flag(flags@, text@, 0).is_none(),
        },
{
    let mut i: usize = 0;
    while i < flags.len()
        invariant
            i <= flags@.len(),
            find_flag(flags@, text@, 0) == find_flag(flags@, text@, i as int),
        decreases flags@.len() - i,
    {
        if spells(&flags[i], text) {
            return Some(i);
        }
        i = i + 1;
    }
    None
}

/// What a flag token leads to.
#[derive(Debug, Clone, Copy, PartialEq, Eq)]
pub enum FlagTarget {
    Slot { depth: usize, slot: usize },
    Help,
    Default,
    Unknown,
}

impl View for FlagTarget {
    type V = FlagHit;

    open spec fn view(&self) -> FlagHit {
        match self {
            FlagTarget::Slot { depth, slot } => FlagHit::Slot {
                depth: *depth as int,
                slot: *slot as int,
            },
            FlagTarget::Help => FlagHit::Help,
            FlagTarget::Default => FlagHit::Default,
            FlagTarget::Unknown => FlagHit::Unknown,
        }
    }
}

/// Dispatches a flag token in the state given by `path`: the flags of the
/// commands above come first, the outermost first; then the help flag;
/// then the flags of the current command; then its default subcommand.
pub fn dispatch_flag(path: &Vec<&Cmd>, text: &str) -> (r: FlagTarget)
    requires
        path@.len() > 0,
    ensures
        r@ == flag_hit(chain(path@), text@),
        r matches FlagTarget::Slot { depth, slot } ==> depth < path@.len() && slot
            < path@[depth as int].flags@.len(),
{
    let last: usize = path.len() - 1;
    let mut d: usize = 0;
    while d < last
        invariant
            d <= last,
            last == path@.len() - 1,
            find_above(chain(path@), text@, 0) == find_above(chain(path@), text@, d as int),
        decreases last - d,
    {
        match lookup_flag(&path[d].flags, text) {
            Some(k) => {
                proof {
                    lemma_find_flag_in_range(path@[d as int].flags@, text@, 0);
                }
                return FlagTarget::Slot { depth: d, slot: k };
            },
            None => {},
        }
        d = d + 1;
    }
    if same(text, "--help") || same(text, "-h") {
        return FlagTarget::Help;
    }
    let cur = path[last];
    match lookup_flag(&cur.flags, text) {
        Some(k) => {
            proof {
                lemma_find_flag_in_range(cur.flags@, text@, 0);
            }
            FlagTarget::Slot { depth: last, slot: k }
        },
        None => if cur.default && cur.subcommands.len() > 0 {
            FlagTarget::Default
        } else {
            FlagTarget::Unknown
        },
    }
}

/// Coerces a raw token to a declared type. `name` is what the message of
/// a failure calls the item.
pub fn coerce(p: &Parser, ty: &Ty, name: &str, token: Vec<u8>) -> (r: Result<Value, Error>)
    ensures
        yields(r, coerce_by(*ty, name@, token@)),
{
    match ty {
        Ty::PathBuf => Ok(Value::Path(token)),
        Ty::OsString => Ok(Value::OsStr(token)),
        Ty::FromStr(t) => p.value_from_str(name, t.as_str(), token),
    }
}

/// Takes the value of one occurrence of `flag`, typed as `typed`: nothing
/// for a flag without value, else the next raw token, whatever it looks
/// like, coerced to the declared type.
pub fn take_flag_value(p: &mut Parser, flag: &Flag, typed: &str) -> (r: Result<Value, Error>)
    ensures
        yields(r, flag_value(*flag, typed@, old(p).stream()).0),
        final(p).stream() == flag_value(*flag, typed@, old(p).stream()).1,
{
    match &flag.val {
        None => Ok(Value::Unit),
        Some(val) => {
            let token = match p.next_value(typed) {
                Ok(token) => token,
                Err(e) => { return Err(e); },
            };
            coerce(p, &val.ty, typed, token)
        },
    }
}

/// The index of the first subcommand entered by name that answers to
/// `text`.
pub fn lookup_sub(cur: &Cmd, text: &str) -> (r: Option<usize>)
    ensures
        match r {
            Some(k) => find_sub(cur.subcommands@, text@, cur.first_named()) == Some(k as int) && k
                < cur.subcommands@.len(),
            None => find_sub(cur.subcommands@, text@, cur.first_named()).is_none(),
        },
{
    let mut i: usize = if cur.default && cur.subcommands.len() > 0 { 1 } else { 0 };
    while i < cur.subcommands.len()
        invariant
            0 <= i,
            find_sub(cur.subcommands@, text@, cur.first_named()) == find_sub(
                cur.subcommands@,
                text@,
                i as int,
            ),
        decreases cur.subcommands@.len() - i,
    {
        if cur.subcommands[i].is_called(text) {
            return Some(i);
        }
        i = i + 1;
    }
    None
}

/// What a positional token leads to.
#[derive(Debug, Clone, Copy, PartialEq, Eq)]
pub enum ArgTarget {
    Enter(usize),
    Take(usize),
    Default,
    Unknown,
}

impl View for ArgTarget {
    type V = ArgHit;

    open spec fn view(&self) -> ArgHit {
        match self {
            ArgTarget::Enter(k) => ArgHit::Enter(*k as int),
            ArgTarget::Take(k) => ArgHit::Take(*k as int),
            ArgTarget::Default => ArgHit::Default,
            ArgTarget::Unknown => ArgHit::Unknown,
        }
    }
}

/// Dispatches a positional token in the current command: the names of the
/// subcommands come first; then the first positional that is still open;
/// then the default subcommand.
pub fn dispatch_arg(cur: &Cmd, cursor: usize, text: &str) -> (r: ArgTarget)
    ensures
        r@ == arg_hit(*cur, cursor as int, text@),
        r matches ArgTarget::Enter(k) ==> k < cur.subcommands@.len(),
        r matches ArgTarget::Take(k) ==> k == cursor && k < cur.args@.len(),
        r == ArgTarget::Default ==> cur.has_default(),
{
    match lookup_sub(cur, text) {
        Some(k) => ArgTarget::Enter(k),
        None => if cursor < cur.args.len() {
            ArgTarget::Take(cursor)
        } else if cur.default && cur.subcommands.len() > 0 {
            ArgTarget::Default
        } else {
            ArgTarget::Unknown
        },
    }
}

/// Whether `r` is the wanted result, or the wanted failure.
pub open spec fn settles<T: View>(r: Result<T, Error>, want: Result<T::V, Failure>) -> bool {
    match r {
        Ok(v) => want == Ok::<T::V, Failure>(v@),
        Err(e) => want == Err::<T::V, Failure>(Failure { msg: e.msg@, help: e.help }),
    }
}

/// The values collected for one item, in the order of the input.
pub fn collect(log: &Vec<Entry>, depth: usize, is_flag: bool, slot: usize) -> (r: Vec<Value>)
    ensures
        values_view(r@) == collected(log_view(log@), depth as int, is_flag, slot as int),
{
    let ghost all = log_view(log@);
    let mut out: Vec<Value> = Vec::new();
    let mut i: usize = 0;
    assert(values_view(out@) =~= Seq::empty());
    while i < log.len()
        invariant
            i <= log@.len(),
            all == log_view(log@),
            values_view(out@) == collected(all.take(i as int), depth as int, is_flag, slot as int),
        decreases log@.len() - i,
    {
        let e = &log[i];
        proof {
            assert(all.take(i + 1).drop_last() =~= all.take(i as int));
            assert(all.take(i + 1).last() == e@);
        }
        if e.depth == depth && e.is_flag == is_flag && e.slot == slot {
            let ghost before = out@;
            let v = e.value.copy();
            out.push(v);
            assert(values_view(out@) =~= values_view(before).push(v@));
        }
        i = i + 1;
    }
    assert(all.take(log@.len() as int) =~= all);
    out
}

/// Folds the occurrences of one item by its arity. `shown` is what the
/// message of a failure calls the item.
pub fn fold_item(p: &Parser, arity: Arity, valued: bool, shown: &str, vals: Vec<Value>) -> (r:
    Result<Field, Error>)
    ensures
        settles(r, fold_field(arity, valued, shown@, values_view(vals@))),
{
    match arity {
        Arity::Repeated => if valued {
            Ok(Field::Many(vals))
        } else {
            Ok(Field::Count(vals.len()))
        },
        Arity::Optional => match p.optional(shown, vals) {
            Err(e) => Err(e),
            Ok(found) => if valued {
                Ok(Field::Maybe(found))
            } else {
                Ok(Field::Switch(found.is_some()))
            },
        },
        Arity::Required => match p.required(shown, vals) {
            Err(e) => Err(e),
            Ok(found) => if valued {
                Ok(Field::One(found))
            } else {
                Ok(Field::Unit)
            },
        },
    }
}

/// Folds the flags of the command at `depth` of the chain, the help flag
/// left out; the first failure ends the folding.
pub fn fold_command_flags(p: &Parser, cmd: &Cmd, depth: usize, log: &Vec<Entry>) -> (r: Result<
    Vec<Named>,
    Error,
>)
    ensures
        match r {
            Ok(v) => fold_flags(*cmd, depth as int, log_view(log@), 0) == Ok::<
                Seq<NamedView>,
                Failure,
            >(fields_view(v@)),
            Err(e) => fold_flags(*cmd, depth as int, log_view(log@), 0) == Err::<
                Seq<NamedView>,
                Failure,
            >(Failure { msg: e.msg@, help: e.help }),
        },
{
    let ghost want = fold_flags(*cmd, depth as int, log_view(log@), 0);
    let mut out: Vec<Named> = Vec::new();
    let mut k: usize = 0;
    assert(fields_view(out@) + Seq::<NamedView>::empty() =~= fields_view(out@));
    while k < cmd.flags.len()
        invariant
            k <= cmd.flags@.len(),
            want == fold_flags(*cmd, depth as int, log_view(log@), 0),
            want == prepend(fields_view(out@), fold_flags(*cmd, depth as int, log_view(log@), k as int)),
        decreases cmd.flags@.len() - k,
    {
        let flag = &cmd.flags[k];
        if !flag.is_help() {
            let shown = join("--", flag.name.as_str());
            let vals = collect(log, depth, true, k);
            match fold_item(p, flag.arity, flag.val.is_some(), shown.as_str(), vals) {
                Err(e) => { return Err(e); },
                Ok(field) => {
                    let ghost before = fields_view(out@);
                    let named = Named { name: flag.name.clone(), field };
                    out.push(named);
                    proof {
                        assert(fields_view(out@) =~= before.push(named@));
                        let rest = fold_flags(*cmd, depth as int, log_view(log@), k + 1);
                        if let Ok(tail) = rest {
                            assert(before + (seq![named@] + tail) =~= fields_view(out@) + tail);
                        }
                    }
                },
            }
        }
        k = k + 1;
    }
    assert(fields_view(out@) + Seq::<NamedView>::empty() =~= fields_view(out@));
    Ok(out)
}

/// Folds the positionals of the command at `depth` of the chain; the first
/// failure ends the folding.
pub fn fold_command_args(p: &Parser, cmd: &Cmd, depth: usize, log: &Vec<Entry>) -> (r: Result<
    Vec<Named>,
    Error,
>)
    ensures
        match r {
            Ok(v) => fold_args(*cmd, depth as int, log_view(log@), 0) == Ok::<
                Seq<NamedView>,
                Failure,
            >(fields_view(v@)),
            Err(e) => fold_args(*cmd, depth as int, log_view(log@), 0) == Err::<
                Seq<NamedView>,
                Failure,
            >(Failure { msg: e.msg@, help: e.help }),
        },
{
    let ghost want = fold_args(*cmd, depth as int, log_view(log@), 0);
    let mut out: Vec<Named> = Vec::new();
    let mut k: usize = 0;
    assert(fields_view(out@) + Seq::<NamedView>::empty() =~= fields_view(out@));
    while k < cmd.args.len()
        invariant
            k <= cmd.args@.len(),
            want == fold_args(*cmd, depth as int, log_view(log@), 0),
            want == prepend(fields_view(out@), fold_args(*cmd, depth as int, log_view(log@), k as int)),
        decreases cmd.args@.len() - k,
    {
        let arg = &cmd.args[k];
        let vals = collect(log, depth, false, k);
        match fold_item(p, arg.arity, true, arg.val.name.as_str(), vals) {
            Err(e) => { return Err(e); },
            Ok(field) => {
                let ghost before = fields_view(out@);
                let named = Named { name: arg.val.name.clone(), field };
                out.push(named);
                proof {
                    assert(fields_view(out@) =~= before.push(named@));
                    let rest = fold_args(*cmd, depth as int, log_view(log@), k + 1);
                    if let Ok(tail) = rest {
                        assert(before + (seq![named@] + tail) =~= fields_view(out@) + tail);
                    }
                }
            },
        }
        k = k + 1;
    }
    assert(fields_view(out@) + Seq::<NamedView>::empty() =~= fields_view(out@));
    Ok(out)
}

/// Folds the fields of the command at `depth` of the chain: its flags
/// first, then its positionals.
pub fn fold_command(p: &Parser, cmd: &Cmd, depth: usize, log: &Vec<Entry>) -> (r: Result<
    Level,
    Error,
>)
    ensures
        settles(r, fold_level(*cmd, depth as int, log_view(log@))),
{
    let flags = match fold_command_flags(p, cmd, depth, log) {
        Ok(flags) => flags,
        Err(e) => { return Err(e); },
    };
    let args = match fold_command_args(p, cmd, depth, log) {
        Ok(args) => args,
        Err(e) => { return Err(e); },
    };
    Ok(Level { state: cmd.idx, name: cmd.name.clone(), flags, args })
}

/// Folds the fields of every command on the chain, the root first; the
/// first failure ends the folding.
pub fn fold_chain(p: &Parser, path: &Vec<&Cmd>, log: &Vec<Entry>) -> (r: Result<Record, Error>)
    ensures
        settles(r, fold_from(chain(path@), log_view(log@), 0)),
{
    let ghost want = fold_from(chain(path@), log_view(log@), 0);
    let mut levels: Vec<Level> = Vec::new();
    let mut d: usize = 0;
    assert(levels_view(levels@) + Seq::<LevelView>::empty() =~= levels_view(levels@));
    while d < path.len()
        invariant
            d <= path@.len(),
            want == fold_from(chain(path@), log_view(log@), 0),
            want == prepend(levels_view(levels@), fold_from(chain(path@), log_view(log@), d as int)),
        decreases path@.len() - d,
    {
        match fold_command(p, path[d], d, log) {
            Err(e) => { return Err(e); },
            Ok(level) => {
                let ghost before = levels_view(levels@);
                levels.push(level);
                proof {
                    assert(levels_view(levels@) =~= before.push(level@));
                    let rest = fold_from(chain(path@), log_view(log@), d + 1);
                    if let Ok(tail) = rest {
                        assert(before + (seq![level@] + tail) =~= levels_view(levels@) + tail);
                    }
                }
            },
        }
        d = d + 1;
    }
    assert(levels_view(levels@) + Seq::<LevelView>::empty() =~= levels_view(levels@));
    Ok(Record { levels })
}

/// Extends the chain at the end of the input: as long as the current
/// command has a default subcommand, that one is entered.
pub fn promote_defaults<'a>(path: &mut Vec<&'a Cmd>)
    requires
        old(path)@.len() > 0,
    ensures
        final(path)@.len() > 0,
        chain(final(path)@) == promote(chain(old(path)@)),
{
    loop
        invariant
            path@.len() > 0,
            promote(chain(path@)) == promote(chain(old(path)@)),
        decreases chain(path@).last(),
    {
        let cur = path[path.len() - 1];
        if cur.default && cur.subcommands.len() > 0 {
            let ghost before = path@;
            path.push(&cur.subcommands[0]);
            assert(chain(path@) =~= chain(before).push(cur.subcommands@[0]));
        } else {
            return ;
        }
    }
}

/// Builds the record for a final chain. When the chain does not end in a
/// command without subcommands, the fields of the root are folded and
/// then a subcommand is found missing.
pub fn assemble_record(p: &Parser, path: &Vec<&Cmd>, log: &Vec<Entry>) -> (r: Result<Record, Error>)
    requires
        path@.len() > 0,
    ensures
        settles(r, assemble(chain(path@), log_view(log@))),
{
    let last = path[path.len() - 1];
    if last.has_subcommands() {
        match fold_command(p, path[0], 0, log) {
            Err(e) => Err(e),
            Ok(_) => Err(p.subcommand_required()),
        }
    } else {
        fold_chain(p, path, log)
    }
}

/// The configuration that the running machine is in.
pub open spec fn config_of(path: Seq<&Cmd>, cursor: usize, log: Seq<Entry>, p: Parser) -> Config {
    Config { path: chain(path), cursor: cursor as int, log: log_view(log), stream: p.stream() }
}

/// Runs the grammar under `root` against what is left in `p`: every token
/// is dispatched by the current state, and at the end of the input the
/// collected occurrences are folded into a record.
pub fn run_parser(root: &Cmd, p: &mut Parser) -> (r: Result<Record, Error>)
    ensures
        settles(
            r,
            run(Config { path: seq![*root], cursor: 0, log: Seq::empty(), stream: old(p).stream() }),
        ),
{
    let mut path: Vec<&Cmd> = Vec::new();
    path.push(root);
    let mut cursor: usize = 0;
    let mut log: Vec<Entry> = Vec::new();
    let ghost want = run(
        Config { path: seq![*root], cursor: 0, log: Seq::empty(), stream: old(p).stream() },
    );
    assert(chain(path@) =~= seq![*root]);
    assert(log_view(log@) =~= Seq::empty());
    loop
        invariant
            path@.len() > 0,
            cursor <= path@.last().args@.len(),
            want == run(
                Config { path: seq![*root], cursor: 0, log: Seq::empty(), stream: old(p).stream() },
            ),
            want == run(config_of(path@, cursor, log@, *p)),
        decreases p.tokens().len(), chain(path@).last(),
    {
        let ghost c = config_of(path@, cursor, log@, *p);
        let depth: usize = path.len() - 1;
        let cur = path[depth];
        assert(c.path.last() == *cur);
        match p.pop_flag() {
            None => {
                promote_defaults(&mut path);
                return assemble_record(p, &path, &log);
            },
            Some(Ok(text)) => match dispatch_flag(&path, text.as_str()) {
                FlagTarget::Slot { depth, slot } => {
                    let flag = &path[depth].flags[slot];
                    match take_flag_value(p, flag, text.as_str()) {
                        Err(e) => { return Err(e); },
                        Ok(value) => {
                            let ghost before = log@;
                            let e = Entry { depth, is_flag: true, slot, value };
                            log.push(e);
                            assert(log_view(log@) =~= log_view(before).push(e@));
                        },
                    }
                },
                FlagTarget::Help => {
                    let help = help_text(cur);
                    return Err(p.help(help.as_str()));
                },
                FlagTarget::Default => {
                    let ghost before = path@;
                    p.push_back(Ok(text));
                    path.push(&cur.subcommands[0]);
                    cursor = 0;
                    assert(chain(path@) =~= enter(chain(before), 0));
                },
                FlagTarget::Unknown => {
                    return Err(p.unexpected_flag(text.as_str()));
                },
            },
            Some(Err(token)) => {
                let text = match decode(&token) {
                    Some(text) => text,
                    None => String::new(),
                };
                match dispatch_arg(cur, cursor, text.as_str()) {
                    ArgTarget::Enter(k) => {
                        let ghost before = path@;
                        path.push(&cur.subcommands[k]);
                        cursor = 0;
                        assert(chain(path@) =~= enter(chain(before), k as int));
                    },
                    ArgTarget::Take(k) => {
                        assert(cursor < cur.args.len());
                        let arg = &cur.args[k];
                        match coerce(p, &arg.val.ty, arg.val.name.as_str(), token) {
                            Err(e) => { return Err(e); },
                            Ok(value) => {
                                let ghost before = log@;
                                let e = Entry { depth, is_flag: false, slot: k, value };
                                log.push(e);
                                assert(log_view(log@) =~= log_view(before).push(e@));
                                match arg.arity {
                                    Arity::Repeated => {},
                                    _ => { cursor = cursor + 1; },
                                }
                            },
                        }
                    },
                    ArgTarget::Default => {
                        let ghost before = path@;
                        p.push_back(Err(token));
                        path.push(&cur.subcommands[0]);
                        cursor = 0;
                        assert(chain(path@) =~= enter(chain(before), 0));
                    },
                    ArgTarget::Unknown => {
                        return Err(p.unexpected_arg(token));
                    },
                }
            },
        }
    }
}

/// Parses `args` by the grammar under `root`.
pub fn from_vec(root: &Cmd, args: Vec<Vec<u8>>) -> (r: Result<Record, Error>)
    ensures
        settles(r, parse_spec(*root, raw_tokens(args@))),
{
    let mut p = Parser::new(args);
    run_parser(root, &mut p)
}

} // verus!
