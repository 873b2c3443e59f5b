//! The shape of every grammar that the builder gives.

use vstd::multiset::Multiset;
use vstd::prelude::*;
use crate::ast::{CmdView, FlagView};
use crate::parse::{
    body_spec, empty_cmd, flag_spec, header_spec, help_flag, inner_of, item_spec, lemma_doc_bounds,
    lemma_header_advances, lemma_item_advances, long_name_spec, opt_doc_spec, parse_or_exit_spec,
    with_help, xflags_spec, at_keyword_spec, ItemView, TokenView,
};

verus! {

/// Whether a command is shaped as the builder shapes it: the flag that
/// asks for help is its last flag, and no other flag of it has that name;
/// where it is marked as having a default subcommand it has subcommands,
/// the first of which is that default; and its subcommands are shaped so
/// too.
pub open spec fn well_formed(c: CmdView) -> bool
    decreases c,
{
    &&& c.flags.len() > 0
    &&& c.flags.last() == help_flag()
    &&& without_help(c.flags.drop_last())
    &&& (c.default ==> c.subcommands.len() > 0)
    &&& forall|i: int| 0 <= i < c.subcommands.len() ==> well_formed(#[trigger] c.subcommands[i])
}

/// Whether no flag of the list has the name of the flag that asks for
/// help.
pub open spec fn without_help(flags: Seq<FlagView>) -> bool {
    forall|i: int| 0 <= i < flags.len() ==> (#[trigger] flags[i]).name != "help"@
}

/// Whether a command under construction is on its way to being well
/// formed: it lacks only its help flag.
pub open spec fn growing(c: CmdView) -> bool {
    &&& without_help(c.flags)
    &&& (c.default ==> c.subcommands.len() > 0)
    &&& forall|i: int| 0 <= i < c.subcommands.len() ==> well_formed(#[trigger] c.subcommands[i])
}

/// A command under construction becomes well formed with its help flag.
pub proof fn lemma_with_help_is_well_formed(c: CmdView)
    requires
        growing(c),
    ensures
        well_formed(with_help(c)),
{
    let h = with_help(c);
    assert(h.flags.drop_last() =~= c.flags);
}

/// No declared flag has the name of the flag that asks for help.
pub proof fn lemma_flag_is_not_help(ts: Seq<TokenView>, pos: int, name: Seq<char>)
    ensures
        flag_spec(ts, pos, name) matches Ok((f, _)) ==> f.name != "help"@,
{
    if let Ok((f, _)) = flag_spec(ts, pos, name) {
        if let Ok((long, _)) = long_name_spec(ts, pos, name) {
            reveal_strlit("--help");
            reveal_strlit("help");
            if f.name == "help"@ {
                assert(f.name == long.skip(2));
                assert(crate::text::double_dashed(long));
                assert("help"@.len() == 4);
                assert("--help"@.len() == 6);
                assert(long.skip(2).len() == long.len() - 2);
                assert(long.len() == 6);
                assert forall|i: int| 0 <= i < 6 implies long[i] == "--help"@[i] by {
                    if i >= 2 {
                        assert(long[i] == long.skip(2)[i - 2]);
                    }
                }
                assert(long =~= "--help"@);
            }
        }
    }
}

/// Reading declarations into a command under construction keeps it on its
/// way to being well formed.
pub proof fn lemma_body_keeps_growing(
    ts: Seq<TokenView>,
    pos: int,
    anon: bool,
    acc: CmdView,
    next_idx: int,
)
    requires
        growing(acc),
    ensures
        body_spec(ts, pos, anon, acc, next_idx) matches Ok((c, _)) ==> growing(c),
    decreases ts, ts.len() - pos,
{
    if 0 <= pos < ts.len() {
        lemma_doc_bounds(ts, pos);
        if let Ok((doc, pos1)) = opt_doc_spec(ts, pos) {
            let default = !anon && at_keyword_spec(ts, pos1, "default"@);
            let pos2 = if default { pos1 + 1 } else { pos1 };
            lemma_header_advances(ts, pos2);
            lemma_item_advances(ts, pos2, doc);
            if !anon && (default || at_keyword_spec(ts, pos2, "cmd"@)) {
                if let Ok((name, aliases, g)) = header_spec(ts, pos2) {
                    if next_idx < 256 {
                        let fresh = empty_cmd(name, aliases, next_idx);
                        lemma_body_keeps_growing(inner_of(ts[g]), 0, false, fresh, next_idx + 1);
                        if let Ok((sub, idx2)) = body_spec(
                            inner_of(ts[g]),
                            0,
                            false,
                            fresh,
                            next_idx + 1,
                        ) {
                            if !(default && acc.default) {
                                lemma_with_help_is_well_formed(sub);
                                let done = CmdView { doc, ..with_help(sub) };
                                assert(well_formed(done)) by {
                                    assert(done.flags == with_help(sub).flags);
                                    assert(done.subcommands == with_help(sub).subcommands);
                                }
                                let next = CmdView {
                                    subcommands: if default {
                                        seq![done] + acc.subcommands
                                    } else {
                                        acc.subcommands.push(done)
                                    },
                                    default: acc.default || default,
                                    ..acc
                                };
                                assert(growing(next)) by {
                                    assert forall|i: int|
                                        0 <= i < next.subcommands.len() implies well_formed(
                                        #[trigger] next.subcommands[i],
                                    ) by {
                                        if default {
                                            if i > 0 {
                                                assert(next.subcommands[i] == acc.subcommands[i
                                                    - 1]);
                                            }
                                        } else {
                                            if i < acc.subcommands.len() {
                                                assert(next.subcommands[i] == acc.subcommands[i]);
                                            }
                                        }
                                    }
                                }
                                lemma_body_keeps_growing(ts, g + 1, anon, next, idx2);
                            }
                        }
                    }
                }
            } else {
                match item_spec(ts, pos2, doc) {
                    Ok((ItemView::Flag(f), pos3)) => {
                        let next = CmdView { flags: acc.flags.push(f), ..acc };
                        assert(f.name != "help"@) by {
                            lemma_item_flag_is_not_help(ts, pos2, doc);
                        }
                        assert(growing(next));
                        lemma_body_keeps_growing(ts, pos3, anon, next, next_idx);
                    },
                    Ok((ItemView::Arg(a), pos3)) => {
                        let next = CmdView { args: acc.args.push(a), ..acc };
                        assert(growing(next));
                        lemma_body_keeps_growing(ts, pos3, anon, next, next_idx);
                    },
                    Err(_) => {},
                }
            }
        }
    }
}

/// No declared flag has the name of the flag that asks for help.
pub proof fn lemma_item_flag_is_not_help(ts: Seq<TokenView>, pos: int, doc: Option<Seq<char>>)
    ensures
        item_spec(ts, pos, doc) matches Ok((ItemView::Flag(f), _)) ==> f.name != "help"@,
{
    if let Ok((_, pos1)) = crate::parse::arity_spec(ts, pos) {
        if let Ok((name, pos2)) = crate::parse::expect_name_spec(ts, pos1) {
            lemma_flag_is_not_help(ts, pos2, name);
        }
    }
}

/// Every grammar that the builder gives is well formed: each of its
/// commands ends its flags with the one flag that asks for help, and a
/// default subcommand, where there is one, is the first subcommand.
pub proof fn lemma_built_grammar_is_well_formed(ts: Seq<TokenView>)
    ensures
        xflags_spec(ts) matches Ok(x) ==> well_formed(x.cmd),
        parse_or_exit_spec(ts) matches Ok(x) ==> well_formed(x.cmd) && x.cmd.subcommands.len()
            == 0,
{
    if let Ok(x) = xflags_spec(ts) {
        let (src, pos0) = crate::parse::src_spec(ts)->Ok_0;
        let (doc, pos1) = opt_doc_spec(ts, pos0)->Ok_0;
        let (name, aliases, g) = header_spec(ts, pos1)->Ok_0;
        let fresh = empty_cmd(name, aliases, 0);
        lemma_body_keeps_growing(inner_of(ts[g]), 0, false, fresh, 1);
        let (cmd, _) = body_spec(inner_of(ts[g]), 0, false, fresh, 1)->Ok_0;
        lemma_with_help_is_well_formed(cmd);
        assert(x.cmd.flags == with_help(cmd).flags);
        assert(x.cmd.subcommands == with_help(cmd).subcommands);
    }
    if let Ok(x) = parse_or_exit_spec(ts) {
        let fresh = empty_cmd(Seq::empty(), Seq::empty(), 0);
        lemma_body_keeps_growing(ts, 0, true, fresh, 1);
        lemma_anon_has_no_subcommands(ts, 0, fresh, 1);
        let (cmd, _) = body_spec(ts, 0, true, fresh, 1)->Ok_0;
        lemma_with_help_is_well_formed(cmd);
    }
}

/// A grammar without a name holds no commands.
pub proof fn lemma_anon_has_no_subcommands(ts: Seq<TokenView>, pos: int, acc: CmdView, next_idx: int)
    requires
        acc.subcommands.len() == 0,
    ensures
        body_spec(ts, pos, true, acc, next_idx) matches Ok((c, _)) ==> c.subcommands.len() == 0,
    decreases ts.len() - pos,
{
    if 0 <= pos < ts.len() {
        lemma_doc_bounds(ts, pos);
        if let Ok((doc, pos1)) = opt_doc_spec(ts, pos) {
            lemma_item_advances(ts, pos1, doc);
            match item_spec(ts, pos1, doc) {
                Ok((ItemView::Flag(f), pos3)) => {
                    lemma_anon_has_no_subcommands(
                        ts,
                        pos3,
                        CmdView { flags: acc.flags.push(f), ..acc },
                        next_idx,
                    );
                },
                Ok((ItemView::Arg(a), pos3)) => {
                    lemma_anon_has_no_subcommands(
                        ts,
                        pos3,
                        CmdView { args: acc.args.push(a), ..acc },
                        next_idx,
                    );
                },
                Err(_) => {},
            }
        }
    }
}

/// The numbers of the commands of a tree, each as often as it occurs.
pub open spec fn ids(c: CmdView) -> Multiset<int>
    decreases c,
{
    ids_of(c.subcommands).insert(c.idx)
}

/// The numbers of the commands of a row of trees, each as often as it
/// occurs.
pub open spec fn ids_of(s: Seq<CmdView>) -> Multiset<int>
    decreases s,
{
    if s.len() == 0 {
        Multiset::empty()
    } else {
        ids_of(s.drop_last()).add(ids(s.last()))
    }
}

/// The numbers from `lo` up to, but without, `hi`, each once.
pub open spec fn span(lo: int, hi: int) -> Multiset<int>
    decreases hi - lo,
{
    if lo >= hi {
        Multiset::empty()
    } else {
        span(lo, hi - 1).insert(hi - 1)
    }
}

/// A span holds each of its numbers once and no other number.
pub proof fn lemma_span_count(lo: int, hi: int, v: int)
    ensures
        span(lo, hi).count(v) == if lo <= v < hi { 1nat } else { 0nat },
    decreases hi - lo,
{
    if lo < hi {
        lemma_span_count(lo, hi - 1, v);
    }
}

/// Two spans that meet make one span.
pub proof fn lemma_span_add(lo: int, mid: int, hi: int)
    requires
        lo <= mid <= hi,
    ensures
        span(lo, mid).add(span(mid, hi)) == span(lo, hi),
{
    assert forall|v: int| span(lo, mid).add(span(mid, hi)).count(v) == span(lo, hi).count(v) by {
        lemma_span_count(lo, mid, v);
        lemma_span_count(mid, hi, v);
        lemma_span_count(lo, hi, v);
    }
    assert(span(lo, mid).add(span(mid, hi)) =~= span(lo, hi));
}

/// The numbers of a row with a tree put in front.
pub proof fn lemma_ids_of_front(x: CmdView, s: Seq<CmdView>)
    ensures
        ids_of(seq![x] + s) == ids(x).add(ids_of(s)),
    decreases s.len(),
{
    let all = seq![x] + s;
    if s.len() == 0 {
        assert(all.drop_last() =~= Seq::<CmdView>::empty());
        assert(all.last() == x);
        assert(ids_of(all.drop_last()) == Multiset::<int>::empty());
        assert(ids_of(s) == Multiset::<int>::empty());
        assert(ids_of(all) == Multiset::<int>::empty().add(ids(x)));
        assert(Multiset::<int>::empty().add(ids(x)) =~= ids(x).add(Multiset::<int>::empty()));
    } else {
        assert(all.drop_last() =~= seq![x] + s.drop_last());
        assert(all.last() == s.last());
        lemma_ids_of_front(x, s.drop_last());
        assert(ids_of(all) =~= ids(x).add(ids_of(s)));
    }
}

/// A command with nothing declared in it holds its own number alone.
pub proof fn lemma_ids_fresh(name: Seq<char>, aliases: Seq<Seq<char>>, idx: int)
    ensures
        ids(empty_cmd(name, aliases, idx)) == span(idx, idx + 1),
{
    let fresh = empty_cmd(name, aliases, idx);
    assert(ids_of(fresh.subcommands) == Multiset::<int>::empty());
    assert(span(idx, idx) == Multiset::<int>::empty());
    assert(ids(fresh) =~= span(idx, idx + 1));
}

/// The command `acc` with the subcommand `done` added, at the front where
/// it is the default one.
pub open spec fn with_sub(acc: CmdView, done: CmdView, default: bool) -> CmdView {
    CmdView {
        subcommands: if default {
            seq![done] + acc.subcommands
        } else {
            acc.subcommands.push(done)
        },
        default: acc.default || default,
        ..acc
    }
}

/// A subcommand adds its numbers to those of the command.
pub proof fn lemma_ids_with_sub(acc: CmdView, done: CmdView, default: bool)
    ensures
        ids(with_sub(acc, done, default)) == ids(acc).add(ids(done)),
{
    let next = with_sub(acc, done, default);
    if default {
        lemma_ids_of_front(done, acc.subcommands);
    } else {
        assert(next.subcommands.drop_last() =~= acc.subcommands);
        assert(next.subcommands.last() == done);
    }
    assert(ids(next) =~= ids(acc).add(ids(done)));
}

/// Reading declarations numbers the new commands with the numbers from
/// the next free one on, each once, and leaves the number of the command
/// itself alone.
pub proof fn lemma_body_numbers(
    ts: Seq<TokenView>,
    pos: int,
    anon: bool,
    acc: CmdView,
    lo: int,
    next_idx: int,
)
    requires
        lo <= next_idx <= 256,
        ids(acc) == span(lo, next_idx),
    ensures
        body_spec(ts, pos, anon, acc, next_idx) matches Ok((c, after)) ==> next_idx <= after <= 256
            && ids(c) == span(lo, after) && c.idx == acc.idx,
    decreases ts, ts.len() - pos,
{
    if 0 <= pos < ts.len() {
        lemma_doc_bounds(ts, pos);
        if let Ok((doc, pos1)) = opt_doc_spec(ts, pos) {
            let default = !anon && at_keyword_spec(ts, pos1, "default"@);
            let pos2 = if default { pos1 + 1 } else { pos1 };
            lemma_header_advances(ts, pos2);
            lemma_item_advances(ts, pos2, doc);
            if !anon && (default || at_keyword_spec(ts, pos2, "cmd"@)) {
                if let Ok((name, aliases, g)) = header_spec(ts, pos2) {
                    if next_idx < 256 {
                        let fresh = empty_cmd(name, aliases, next_idx);
                        let inner = inner_of(ts[g]);
                        lemma_ids_fresh(name, aliases, next_idx);
                        lemma_body_numbers(inner, 0, false, fresh, next_idx, next_idx + 1);
                        if let Ok((sub, idx2)) = body_spec(inner, 0, false, fresh, next_idx + 1) {
                            if !(default && acc.default) {
                                let done = CmdView { doc, ..with_help(sub) };
                                assert(ids(done) == ids(sub));
                                let next = with_sub(acc, done, default);
                                lemma_ids_with_sub(acc, done, default);
                                lemma_span_add(lo, next_idx, idx2);
                                lemma_body_numbers(ts, g + 1, anon, next, lo, idx2);
                            }
                        }
                    }
                }
            } else {
                match item_spec(ts, pos2, doc) {
                    Ok((ItemView::Flag(f), pos3)) => {
                        let next = CmdView { flags: acc.flags.push(f), ..acc };
                        assert(ids(next) == ids(acc));
                        lemma_body_numbers(ts, pos3, anon, next, lo, next_idx);
                    },
                    Ok((ItemView::Arg(a), pos3)) => {
                        let next = CmdView { args: acc.args.push(a), ..acc };
                        assert(ids(next) == ids(acc));
                        lemma_body_numbers(ts, pos3, anon, next, lo, next_idx);
                    },
                    Err(_) => {},
                }
            }
        }
    }
}

/// The commands of every grammar that the builder gives are numbered
/// without gaps: the root has the number 0, there are at most 256
/// commands, and each number below the number of commands belongs to
/// exactly one of them.
pub proof fn lemma_built_grammar_is_numbered(ts: Seq<TokenView>)
    ensures
        xflags_spec(ts) matches Ok(x) ==> x.cmd.idx == 0 && exists|n: int|
            1 <= n <= 256 && ids(x.cmd) == span(0, n),
        parse_or_exit_spec(ts) matches Ok(x) ==> x.cmd.idx == 0 && ids(x.cmd) == span(0, 1),
{
    if let Ok(x) = xflags_spec(ts) {
        let (src, pos0) = crate::parse::src_spec(ts)->Ok_0;
        let (doc, pos1) = opt_doc_spec(ts, pos0)->Ok_0;
        let (name, aliases, g) = header_spec(ts, pos1)->Ok_0;
        let fresh = empty_cmd(name, aliases, 0);
        lemma_ids_fresh(name, aliases, 0);
        lemma_body_numbers(inner_of(ts[g]), 0, false, fresh, 0, 1);
        let (cmd, n) = body_spec(inner_of(ts[g]), 0, false, fresh, 1)->Ok_0;
        assert(ids(x.cmd) == ids(cmd));
        assert(1 <= n <= 256 && ids(x.cmd) == span(0, n));
    }
    if let Ok(x) = parse_or_exit_spec(ts) {
        let fresh = empty_cmd(Seq::empty(), Seq::empty(), 0);
        lemma_ids_fresh(Seq::empty(), Seq::empty(), 0);
        lemma_anon_has_no_subcommands(ts, 0, fresh, 1);
        lemma_body_numbers(ts, 0, true, fresh, 0, 1);
        let (cmd, n) = body_spec(ts, 0, true, fresh, 1)->Ok_0;
        assert(ids(x.cmd) == ids(cmd));
        assert(cmd.subcommands =~= Seq::<CmdView>::empty());
        lemma_ids_fresh(cmd.name, cmd.aliases, 0);
        assert(ids(cmd) == ids(empty_cmd(cmd.name, cmd.aliases, 0)));
    }
}

} // verus!
