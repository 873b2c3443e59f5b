//! The table of states: for every command of a grammar, under its number,
//! the chain of commands from the root down to it. The table is made once
//! for a grammar; the machine then moves from state to state by number.

use vstd::multiset::Multiset;
use vstd::prelude::*;
use crate::ast::{cmds_view, Arity, Cmd, XFlags};
use crate::help::help_text;
use crate::machine::{
    assemble_record, chain, coerce, dispatch_arg, dispatch_flag, log_view, settles,
    take_flag_value, ArgTarget, Entry, FlagTarget, Record,
};
use crate::rt::{raw_tokens, Parser};
use crate::semantics::{enter, parse_spec, promote, run, Config};
use crate::text::decode;
use crate::parse::{parse_or_exit_spec, xflags_spec, TokenView};
use crate::shape::{ids, ids_of, lemma_built_grammar_is_numbered, lemma_span_count, span};
use crate::Error;

verus! {

/// The chains of the commands at and below the end of the chain `c`,
/// parents first.
pub open spec fn chains_under(c: Seq<Cmd>) -> Seq<Seq<Cmd>>
    recommends
        c.len() > 0,
    decreases c.last(), c.last().subcommands@.len() + 1,
    when c.len() > 0
{
    seq![c] + chains_of_subs(c, c.last().subcommands@.len() as int)
}

/// The chains of the commands at and below the first `upto` subcommands
/// of the end of the chain `c`.
pub open spec fn chains_of_subs(c: Seq<Cmd>, upto: int) -> Seq<Seq<Cmd>>
    recommends
        c.len() > 0,
    decreases c.last(), upto,
    when c.len() > 0
{
    if upto <= 0 || upto > c.last().subcommands@.len() {
        Seq::empty()
    } else {
        chains_of_subs(c, upto - 1) + chains_under(c.push(c.last().subcommands@[upto - 1]))
    }
}

/// The chains behind a list of lists of references.
pub open spec fn chains_view(s: Seq<Vec<&Cmd>>) -> Seq<Seq<Cmd>> {
    s.map_values(|v: Vec<&Cmd>| chain(v@))
}

/// A list with the same references.
pub fn copy_chain<'a>(path: &Vec<&'a Cmd>) -> (r: Vec<&'a Cmd>)
    ensures
        r@ == path@,
{
    let mut out: Vec<&'a Cmd> = Vec::new();
    let mut i: usize = 0;
    while i < path.len()
        invariant
            i <= path@.len(),
            out@ == path@.take(i as int),
        decreases path@.len() - i,
    {
        out.push(path[i]);
        assert(out@ =~= path@.take(i + 1));
        i = i + 1;
    }
    assert(path@.take(path@.len() as int) =~= path@);
    out
}

/// Adds to `out` the chains of the commands at and below the end of
/// `path`, parents first.
pub fn collect_chains<'a>(path: &mut Vec<&'a Cmd>, out: &mut Vec<Vec<&'a Cmd>>)
    requires
        old(path)@.len() > 0,
    ensures
        final(path)@ == old(path)@,
        chains_view(final(out)@) == chains_view(old(out)@) + chains_under(chain(old(path)@)),
    decreases chain(old(path)@).last(),
{
    let ghost c = chain(path@);
    let ghost before = chains_view(out@);
    let here = copy_chain(path);
    out.push(here);
    assert(chains_view(out@) =~= before + seq![c] + chains_of_subs(c, 0));
    let cur = path[path.len() - 1];
    let mut i: usize = 0;
    while i < cur.subcommands.len()
        invariant
            i <= cur.subcommands@.len(),
            path@ == old(path)@,
            c == chain(path@),
            c.len() > 0,
            *cur == c.last(),
            chains_view(out@) == before + seq![c] + chains_of_subs(c, i as int),
        decreases cur.subcommands@.len() - i,
    {
        let sub = &cur.subcommands[i];
        path.push(sub);
        assert(chain(path@) =~= c.push(*sub));
        collect_chains(path, out);
        path.pop();
        assert(path@ =~= old(path)@);
        assert(chains_view(out@) =~= before + seq![c] + chains_of_subs(c, i + 1));
        i = i + 1;
    }
}

/// A list that is two lists in a row holds what either of them holds.
pub proof fn lemma_contains_add<T>(a: Seq<T>, b: Seq<T>, x: T)
    ensures
        (a + b).contains(x) == (a.contains(x) || b.contains(x)),
{
    if a.contains(x) {
        let i = choose|i: int| 0 <= i < a.len() && a[i] == x;
        assert((a + b)[i] == x);
    }
    if b.contains(x) {
        let i = choose|i: int| 0 <= i < b.len() && b[i] == x;
        assert((a + b)[a.len() + i] == x);
    }
    if (a + b).contains(x) {
        let i = choose|i: int| 0 <= i < (a + b).len() && (a + b)[i] == x;
        if i < a.len() {
            assert(a[i] == x);
        } else {
            assert(b[i - a.len()] == x);
        }
    }
}

/// A chain among those of the first `upto` subcommands is among those of
/// one of these subcommands, and the other way round.
pub proof fn lemma_chains_of_subs(c: Seq<Cmd>, upto: int, x: Seq<Cmd>)
    requires
        c.len() > 0,
        0 <= upto <= c.last().subcommands@.len(),
    ensures
        chains_of_subs(c, upto).contains(x) == exists|i: int|
            0 <= i < upto && #[trigger] chains_under(c.push(c.last().subcommands@[i])).contains(x),
    decreases upto,
{
    if upto > 0 {
        lemma_chains_of_subs(c, upto - 1, x);
        lemma_contains_add(
            chains_of_subs(c, upto - 1),
            chains_under(c.push(c.last().subcommands@[upto - 1])),
            x,
        );
        if chains_of_subs(c, upto).contains(x) {
            if chains_of_subs(c, upto - 1).contains(x) {
                let i = choose|i: int|
                    0 <= i < upto - 1 && #[trigger] chains_under(
                        c.push(c.last().subcommands@[i]),
                    ).contains(x);
                assert(0 <= i < upto && chains_under(c.push(c.last().subcommands@[i])).contains(
                    x,
                ));
            } else {
                assert(chains_under(c.push(c.last().subcommands@[upto - 1])).contains(x));
            }
        }
    }
}

/// Every chain at or below a chain is at least as long, so none is
/// empty.
pub proof fn lemma_chains_are_long(c: Seq<Cmd>, x: Seq<Cmd>)
    requires
        c.len() > 0,
        chains_under(c).contains(x),
    ensures
        x.len() >= c.len(),
    decreases c.last(),
{
    let n = c.last().subcommands@.len() as int;
    lemma_contains_add(seq![c], chains_of_subs(c, n), x);
    if seq![c].contains(x) {
        let i = choose|i: int| 0 <= i < seq![c].len() && seq![c][i] == x;
        assert(x == c);
    } else {
        lemma_chains_of_subs(c, n, x);
        let i = choose|i: int|
            0 <= i < n && #[trigger] chains_under(c.push(c.last().subcommands@[i])).contains(x);
        lemma_chains_are_long(c.push(c.last().subcommands@[i]), x);
    }
}

/// The chains below a chain are closed under entering a subcommand: with
/// a chain they hold the chain that is longer by a subcommand of its last
/// command.
pub proof fn lemma_chains_closed(c: Seq<Cmd>, x: Seq<Cmd>, k: int)
    requires
        c.len() > 0,
        chains_under(c).contains(x),
        x.len() > 0,
        0 <= k < x.last().subcommands@.len(),
    ensures
        chains_under(c).contains(x.push(x.last().subcommands@[k])),
    decreases c.last(),
{
    let n = c.last().subcommands@.len() as int;
    let longer = x.push(x.last().subcommands@[k]);
    lemma_contains_add(seq![c], chains_of_subs(c, n), x);
    lemma_contains_add(seq![c], chains_of_subs(c, n), longer);
    lemma_chains_of_subs(c, n, longer);
    if seq![c].contains(x) {
        let i = choose|i: int| 0 <= i < seq![c].len() && seq![c][i] == x;
        assert(x == c);
        let under = chains_under(longer);
        assert(under[0] == longer);
        assert(under.contains(longer));
        assert(chains_under(c.push(c.last().subcommands@[k])).contains(longer));
    } else {
        lemma_chains_of_subs(c, n, x);
        let i = choose|i: int|
            0 <= i < n && #[trigger] chains_under(c.push(c.last().subcommands@[i])).contains(x);
        lemma_chains_closed(c.push(c.last().subcommands@[i]), x, k);
    }
}

/// The number of the last command of a chain: the state that the chain
/// stands for.
pub open spec fn state_of(c: Seq<Cmd>) -> int {
    c.last().idx as int
}

/// Whether the commands of a tree are numbered so that a table can hold
/// them: there are at most 256, each number is below their count, and no
/// two have the same number.
pub open spec fn numbered(root: Cmd) -> bool {
    let cs = chains_under(seq![root]);
    &&& cs.len() <= 256
    &&& forall|j: int| 0 <= j < cs.len() ==> state_of(#[trigger] cs[j]) < cs.len()
    &&& forall|j: int, k: int|
        0 <= j < k < cs.len() ==> state_of(#[trigger] cs[j]) != state_of(#[trigger] cs[k])
}

/// Whether a table holds, under the number of every command of the tree,
/// the chain from the root to that command.
pub open spec fn describes(table: Seq<Seq<Cmd>>, root: Cmd) -> bool {
    let cs = chains_under(seq![root]);
    &&& table.len() == cs.len()
    &&& table.len() <= 256
    &&& forall|j: int|
        0 <= j < cs.len() ==> 0 <= state_of(#[trigger] cs[j]) < table.len() && table[state_of(
            cs[j],
        )] == cs[j]
}

/// The table of states of a grammar.
pub struct Machine<'a> {
    root: &'a Cmd,
    table: Vec<Vec<&'a Cmd>>,
}

impl<'a> Machine<'a> {
    #[verifier::type_invariant]
    spec fn inv(self) -> bool {
        describes(chains_view(self.table@), *self.root)
    }

    /// The root of the grammar that the table was made for.
    pub closed spec fn grammar(&self) -> Cmd {
        *self.root
    }

    /// The root of the grammar that the table was made for.
    pub fn root(&self) -> (r: &'a Cmd)
        ensures
            *r == self.grammar(),
    {
        self.root
    }

    /// The number of states.
    pub fn states(&self) -> (n: usize)
        ensures
            n == chains_under(seq![self.grammar()]).len(),
    {
        proof {
            use_type_invariant(self);
        }
        self.table.len()
    }

    /// Makes the table of states of the grammar under `root`; nothing
    /// where the commands are not numbered for a table.
    pub fn new(root: &'a Cmd) -> (r: Option<Machine<'a>>)
        ensures
            r.is_some() == numbered(*root),
            r matches Some(m) ==> m.grammar() == *root,
    {
        let mut path: Vec<&'a Cmd> = Vec::new();
        path.push(root);
        let mut chains: Vec<Vec<&'a Cmd>> = Vec::new();
        assert(chain(path@) =~= seq![*root]);
        collect_chains(&mut path, &mut chains);
        let ghost cs = chains_under(seq![*root]);
        assert(chains_view(chains@) =~= cs);
        let n = chains.len();
        if n > 256 {
            return None;
        }
        let mut table: Vec<Vec<&'a Cmd>> = Vec::new();
        let mut i: usize = 0;
        while i < n
            invariant
                i <= n,
                table@.len() == i,
                forall|t: int| 0 <= t < i ==> (#[trigger] table@[t])@.len() == 0,
            decreases n - i,
        {
            table.push(Vec::new());
            i = i + 1;
        }
        let mut j: usize = 0;
        while j < n
            invariant
                j <= n,
                n == chains@.len(),
                n <= 256,
                table@.len() == n,
                cs == chains_under(seq![*root]),
                chains_view(chains@) == cs,
                forall|k: int|
                    0 <= k < j ==> 0 <= state_of(#[trigger] cs[k]) < n && chain(
                        table@[state_of(cs[k])]@,
                    ) == cs[k],
                forall|t: int|
                    0 <= t < n && (#[trigger] table@[t])@.len() > 0 ==> exists|k: int|
                        0 <= k < j && state_of(#[trigger] cs[k]) == t,
                forall|a: int, b: int|
                    0 <= a < b < j ==> state_of(#[trigger] cs[a]) != state_of(#[trigger] cs[b]),
            decreases n - j,
        {
            let c = &chains[j];
            proof {
                assert(cs.contains(cs[j as int]));
                lemma_chains_are_long(seq![*root], cs[j as int]);
                assert(chain(c@) == cs[j as int]);
            }
            let at = c[c.len() - 1].idx as usize;
            assert(at == state_of(cs[j as int]));
            if at >= n {
                return None;
            }
            if table[at].len() > 0 {
                proof {
                    let k = choose|k: int| 0 <= k < j && state_of(#[trigger] cs[k]) == at;
                    assert(state_of(cs[k]) == state_of(cs[j as int]));
                }
                return None;
            }
            let ghost before = table@;
            let copy = copy_chain(c);
            table.set(at, copy);
            proof {
                assert forall|k: int| 0 <= k < j + 1 implies 0 <= state_of(#[trigger] cs[k]) < n
                    && chain(table@[state_of(cs[k])]@) == cs[k] by {
                    if k < j {
                        assert(chain(before[state_of(cs[k])]@) == cs[k]);
                        assert(cs.contains(cs[k]));
                        lemma_chains_are_long(seq![*root], cs[k]);
                        assert(before[state_of(cs[k])]@.len() > 0);
                    }
                }
                assert forall|a: int, b: int| 0 <= a < b < j + 1 implies state_of(
                    #[trigger] cs[a],
                ) != state_of(#[trigger] cs[b]) by {
                    if b == j {
                        assert(chain(before[state_of(cs[a])]@) == cs[a]);
                        assert(cs.contains(cs[a]));
                        lemma_chains_are_long(seq![*root], cs[a]);
                    }
                }
                assert forall|t: int| 0 <= t < n && (#[trigger] table@[t])@.len() > 0 implies exists|
                    k: int,
                | 0 <= k < j + 1 && state_of(#[trigger] cs[k]) == t by {
                    if t == at {
                        assert(state_of(cs[j as int]) == t);
                    } else {
                        assert(before[t]@.len() > 0);
                        let k = choose|k: int| 0 <= k < j && state_of(#[trigger] cs[k]) == t;
                        assert(0 <= k < j + 1 && state_of(cs[k]) == t);
                    }
                }
            }
            j = j + 1;
        }
        proof {
            assert forall|k: int| 0 <= k < cs.len() implies 0 <= state_of(#[trigger] cs[k])
                < chains_view(table@).len() && chains_view(table@)[state_of(cs[k])] == cs[k] by {
                assert(chain(table@[state_of(cs[k])]@) == cs[k]);
            }
        }
        Some(Machine { root, table })
    }
}

impl<'a> Machine<'a> {
    /// The state that is entered from `state` at the end of the input:
    /// as long as the command of the state has a default subcommand, the
    /// state of that one.
    fn promoted(&self, state: usize, Ghost(path): Ghost<Seq<Cmd>>) -> (r: usize)
        requires
            path.len() > 0,
            chains_under(seq![self.grammar()]).contains(path),
            state == state_of(path),
        ensures
            r < self.table@.len(),
            chain(self.table@[r as int]@) == promote(path),
            promote(path).len() > 0,
    {
        proof {
            use_type_invariant(self);
        }
        let ghost cs = chains_under(seq![*self.root]);
        let ghost mut now = path;
        let mut state = state;
        loop
            invariant
                describes(chains_view(self.table@), *self.root),
                cs == chains_under(seq![*self.root]),
                now.len() > 0,
                cs.contains(now),
                state == state_of(now),
                promote(now) == promote(path),
            decreases now.last(),
        {
            let here = &self.table[state];
            let cur = here[here.len() - 1];
            if cur.default && cur.subcommands.len() > 0 {
                proof {
                    lemma_chains_closed(seq![*self.root], now, 0);
                    now = enter(now, 0);
                }
                state = cur.subcommands[0].idx as usize;
            } else {
                return state;
            }
        }
    }

    /// Runs the grammar against what is left in `p`, moving from state to
    /// state by the numbers of the commands.
    pub fn run(&self, p: &mut Parser) -> (r: Result<Record, Error>)
        ensures
            settles(
                r,
                run(
                    Config {
                        path: seq![self.grammar()],
                        cursor: 0,
                        log: Seq::empty(),
                        stream: old(p).stream(),
                    },
                ),
            ),
    {
        proof {
            use_type_invariant(self);
        }
        let ghost cs = chains_under(seq![*self.root]);
        let ghost mut path = seq![*self.root];
        let ghost want = run(
            Config { path: seq![*self.root], cursor: 0, log: Seq::empty(), stream: old(p).stream() },
        );
        let mut state: usize = self.root.idx as usize;
        let mut cursor: usize = 0;
        let mut log: Vec<Entry> = Vec::new();
        proof {
            assert(cs[0] == path);
            assert(log_view(log@) =~= Seq::empty());
        }
        loop
            invariant
                describes(chains_view(self.table@), *self.root),
                cs == chains_under(seq![*self.root]),
                path.len() > 0,
                cs.contains(path),
                state == state_of(path),
                cursor <= path.last().args@.len(),
                want == run(
                    Config {
                        path: seq![*self.root],
                        cursor: 0,
                        log: Seq::empty(),
                        stream: old(p).stream(),
                    },
                ),
                want == run(
                    Config {
                        path,
                        cursor: cursor as int,
                        log: log_view(log@),
                        stream: p.stream(),
                    },
                ),
            decreases p.tokens().len(), path.last(),
        {
            let here = &self.table[state];
            assert(chain(here@) == path);
            let depth: usize = here.len() - 1;
            let cur = here[depth];
            assert(path.last() == *cur);
            match p.pop_flag() {
                None => {
                    let last = self.promoted(state, Ghost(path));
                    return assemble_record(p, &self.table[last], &log);
                },
                Some(Ok(text)) => match dispatch_flag(here, text.as_str()) {
                    FlagTarget::Slot { depth, slot } => {
                        let flag = &here[depth].flags[slot];
                        match take_flag_value(p, flag, text.as_str()) {
                            Err(e) => { return Err(e); },
                            Ok(value) => {
                                let ghost before = log@;
                                let e = Entry { depth, is_flag: true, slot, value };
                                log.push(e);
                                assert(log_view(log@) =~= log_view(before).push(e@));
                            },
                        }
                    },
                    FlagTarget::Help => {
                        let help = help_text(cur);
                        return Err(p.help(help.as_str()));
                    },
                    FlagTarget::Default => {
                        p.push_back(Ok(text));
                        proof {
                            lemma_chains_closed(seq![*self.root], path, 0);
                            path = enter(path, 0);
                        }
                        state = cur.subcommands[0].idx as usize;
                        cursor = 0;
                    },
                    FlagTarget::Unknown => {
                        return Err(p.unexpected_flag(text.as_str()));
                    },
                },
                Some(Err(token)) => {
                    let text = match decode(&token) {
                        Some(text) => text,
                        None => String::new(),
                    };
                    match dispatch_arg(cur, cursor, text.as_str()) {
                        ArgTarget::Enter(k) => {
                            proof {
                                lemma_chains_closed(seq![*self.root], path, k as int);
                                path = enter(path, k as int);
                            }
                            state = cur.subcommands[k].idx as usize;
                            cursor = 0;
                        },
                        ArgTarget::Take(k) => {
                            assert(cursor < cur.args.len());
                            let arg = &cur.args[k];
                            match coerce(p, &arg.val.ty, arg.val.name.as_str(), token) {
                                Err(e) => { return Err(e); },
                                Ok(value) => {
                                    let ghost before = log@;
                                    let e = Entry { depth, is_flag: false, slot: k, value };
                                    log.push(e);
                                    assert(log_view(log@) =~= log_view(before).push(e@));
                                    match arg.arity {
                                        Arity::Repeated => {},
                                        _ => { cursor = cursor + 1; },
                                    }
                                },
                            }
                        },
                        ArgTarget::Default => {
                            p.push_back(Err(token));
                            proof {
                                lemma_chains_closed(seq![*self.root], path, 0);
                                path = enter(path, 0);
                            }
                            state = cur.subcommands[0].idx as usize;
                            cursor = 0;
                        },
                        ArgTarget::Unknown => {
                            return Err(p.unexpected_arg(token));
                        },
                    }
                },
            }
        }
    }

    /// Parses `args` by the grammar that the table was made for.
    pub fn parse(&self, args: Vec<Vec<u8>>) -> (r: Result<Record, Error>)
        ensures
            settles(r, parse_spec(self.grammar(), raw_tokens(args@))),
    {
        let mut p = Parser::new(args);
        self.run(&mut p)
    }
}

/// The states that a list of chains stands for, each as often as it
/// occurs.
pub open spec fn states_of(cs: Seq<Seq<Cmd>>) -> Multiset<int>
    decreases cs.len(),
{
    if cs.len() == 0 {
        Multiset::empty()
    } else {
        states_of(cs.drop_last()).insert(state_of(cs.last()))
    }
}

/// The states of two lists in a row.
pub proof fn lemma_states_of_add(a: Seq<Seq<Cmd>>, b: Seq<Seq<Cmd>>)
    ensures
        states_of(a + b) == states_of(a).add(states_of(b)),
    decreases b.len(),
{
    if b.len() == 0 {
        assert(a + b =~= a);
        assert(states_of(a).add(Multiset::empty()) =~= states_of(a));
    } else {
        assert((a + b).drop_last() =~= a + b.drop_last());
        assert((a + b).last() == b.last());
        lemma_states_of_add(a, b.drop_last());
        assert(states_of(a + b) =~= states_of(a).add(states_of(b)));
    }
}

/// A list of chains stands for as many states, counted as often as they
/// occur, as it has chains; the state of each chain occurs, and a state
/// that two chains share occurs twice.
pub proof fn lemma_states_count(cs: Seq<Seq<Cmd>>)
    ensures
        states_of(cs).len() == cs.len(),
        forall|j: int| 0 <= j < cs.len() ==> states_of(cs).count(state_of(#[trigger] cs[j])) >= 1,
        forall|j: int, k: int|
            0 <= j < k < cs.len() && state_of(#[trigger] cs[j]) == state_of(#[trigger] cs[k])
                ==> states_of(cs).count(state_of(cs[j])) >= 2,
    decreases cs.len(),
{
    if cs.len() > 0 {
        let init = cs.drop_last();
        lemma_states_count(init);
        assert forall|j: int| 0 <= j < cs.len() implies states_of(cs).count(
            state_of(#[trigger] cs[j]),
        ) >= 1 by {
            if j < init.len() {
                assert(init[j] == cs[j]);
            }
        }
        assert forall|j: int, k: int|
            0 <= j < k < cs.len() && state_of(#[trigger] cs[j]) == state_of(
                #[trigger] cs[k],
            ) implies states_of(cs).count(state_of(cs[j])) >= 2 by {
            assert(init[j] == cs[j]);
            if k < init.len() {
                assert(init[k] == cs[k]);
            }
        }
    }
}

/// A span holds as many numbers as lie between its ends.
pub proof fn lemma_span_len(lo: int, hi: int)
    requires
        lo <= hi,
    ensures
        span(lo, hi).len() == hi - lo,
    decreases hi - lo,
{
    if lo < hi {
        lemma_span_len(lo, hi - 1);
    }
}

/// The states of the chains below the first `upto` subcommands of a
/// chain are the numbers of the commands of these subcommands.
pub proof fn lemma_sub_states(c: Seq<Cmd>, upto: int)
    requires
        c.len() > 0,
        0 <= upto <= c.last().subcommands@.len(),
    ensures
        states_of(chains_of_subs(c, upto)) == ids_of(
            cmds_view(c.last().subcommands@.take(upto)),
        ),
    decreases c.last(), upto,
{
    let subs = c.last().subcommands@;
    if upto == 0 {
        assert(subs.take(0) =~= Seq::<Cmd>::empty());
    } else {
        let sub = subs[upto - 1];
        lemma_sub_states(c, upto - 1);
        lemma_chain_states(c.push(sub));
        lemma_states_of_add(chains_of_subs(c, upto - 1), chains_under(c.push(sub)));
        assert(subs.take(upto).drop_last() =~= subs.take(upto - 1));
        assert(subs.take(upto).last() == sub);
        let views = cmds_view(subs.take(upto));
        assert(views == cmds_view(subs.take(upto - 1)).push(sub.view()));
        assert(views.drop_last() =~= cmds_view(subs.take(upto - 1)));
        assert(views.last() == sub.view());
    }
}

/// The states of the chains at and below a chain are the numbers of the
/// commands of the tree under its last command.
pub proof fn lemma_chain_states(c: Seq<Cmd>)
    requires
        c.len() > 0,
    ensures
        states_of(chains_under(c)) == ids(c.last().view()),
    decreases c.last(), c.last().subcommands@.len() + 1,
{
    let subs = c.last().subcommands@;
    let n = subs.len() as int;
    lemma_sub_states(c, n);
    lemma_states_of_add(seq![c], chains_of_subs(c, n));
    assert(subs.take(n) =~= subs);
    let one = seq![c];
    assert(one.len() == 1);
    assert(one.last() == c);
    assert(one.drop_last() =~= Seq::<Seq<Cmd>>::empty());
    assert(states_of(one.drop_last()) == Multiset::<int>::empty());
    assert(states_of(one) == Multiset::<int>::empty().insert(state_of(c)));
    assert(states_of(chains_under(c)) =~= ids(c.last().view()));
}

/// A tree whose commands have the numbers from 0 up to their count, each
/// once, is numbered for a table.
pub proof fn lemma_numbered_from_span(root: Cmd, n: int)
    requires
        0 <= n <= 256,
        ids(root.view()) == span(0, n),
    ensures
        numbered(root),
{
    let cs = chains_under(seq![root]);
    lemma_chain_states(seq![root]);
    lemma_states_count(cs);
    lemma_span_len(0, n);
    assert forall|j: int| 0 <= j < cs.len() implies state_of(#[trigger] cs[j]) < cs.len() by {
        lemma_span_count(0, n, state_of(cs[j]));
    }
    assert forall|j: int, k: int| 0 <= j < k < cs.len() implies state_of(#[trigger] cs[j])
        != state_of(#[trigger] cs[k]) by {
        lemma_span_count(0, n, state_of(cs[j]));
    }
}

/// Every grammar that the builder gives has a table of states.
pub proof fn lemma_built_grammar_has_a_table(ts: Seq<TokenView>, x: XFlags)
    requires
        xflags_spec(ts) == Ok::<crate::ast::XFlagsView, Seq<char>>(x@) || parse_or_exit_spec(ts)
            == Ok::<crate::ast::XFlagsView, Seq<char>>(x@),
    ensures
        numbered(x.cmd),
{
    lemma_built_grammar_is_numbered(ts);
    if xflags_spec(ts) == Ok::<crate::ast::XFlagsView, Seq<char>>(x@) {
        let n = choose|n: int| 1 <= n <= 256 && ids(x@.cmd) == span(0, n);
        lemma_numbered_from_span(x.cmd, n);
    } else {
        lemma_numbered_from_span(x.cmd, 1);
    }
}

} // verus!
