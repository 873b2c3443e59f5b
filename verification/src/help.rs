//! The help text of a command.

use vstd::prelude::*;
use crate::ast::{Arg, Arity, Cmd, Flag};
use crate::text::{join, push_char};

verus! {

/// `n` spaces.
pub open spec fn spaces(n: nat) -> Seq<char> {
    Seq::new(n, |i: int| ' ')
}

/// The text filled up with spaces at its end to `width` characters; a
/// longer text stays as it is.
pub open spec fn padded(s: Seq<char>, width: nat) -> Seq<char> {
    if s.len() >= width {
        s
    } else {
        s + spaces((width - s.len()) as nat)
    }
}

/// Fills the text up with spaces at its end to `width` characters.
pub fn pad(s: String, width: usize) -> (r: String)
    ensures
        r@ == padded(s@, width as nat),
{
    let len = s.as_str().unicode_len();
    if len >= width {
        return s;
    }
    let mut out = s;
    let mut i: usize = len;
    assert(out@ =~= s@ + spaces(0));
    while i < width
        invariant
            len <= i <= width,
            len == s@.len(),
            out@ == s@ + spaces((i - len) as nat),
        decreases width - i,
    {
        push_char(&mut out, ' ');
        assert(out@ =~= s@ + spaces((i + 1 - len) as nat));
        i = i + 1;
    }
    out
}

/// The rendered elements of a list, in a row.
pub open spec fn pieces<T>(s: Seq<T>, f: spec_fn(T) -> Seq<char>) -> Seq<char>
    decreases s.len(),
{
    if s.len() == 0 {
        Seq::empty()
    } else {
        pieces(s.drop_last(), f) + f(s.last())
    }
}

/// The rendering of a list grows by the rendering of the next element.
pub proof fn lemma_pieces_step<T>(s: Seq<T>, f: spec_fn(T) -> Seq<char>, i: int)
    requires
        0 <= i < s.len(),
    ensures
        pieces(s.take(i + 1), f) == pieces(s.take(i), f) + f(s[i]),
{
    assert(s.take(i + 1).drop_last() =~= s.take(i));
}

/// A text that may be missing, as a text.
pub open spec fn text_or_empty(o: Option<String>) -> Seq<char> {
    match o {
        Some(s) => s@,
        None => Seq::empty(),
    }
}

/// The positionals behind a list of references.
pub open spec fn args_of(s: Seq<&Arg>) -> Seq<Arg> {
    s.map_values(|a: &Arg| *a)
}

/// The flags behind a list of references.
pub open spec fn flags_of(s: Seq<&Flag>) -> Seq<Flag> {
    s.map_values(|f: &Flag| *f)
}

impl Cmd {
    /// The positionals of this command, then those of its default
    /// subcommand, and so on.
    pub open spec fn args_with_default_spec(&self) -> Seq<Arg>
        decreases self,
    {
        self.args@ + if self.has_default() {
            self.subcommands@[0].args_with_default_spec()
        } else {
            Seq::empty()
        }
    }

    /// The positionals of this command, then those of its default
    /// subcommand, and so on.
    pub fn args_with_default(&self) -> (r: Vec<&Arg>)
        ensures
            args_of(r@) == self.args_with_default_spec(),
        decreases self,
    {
        let mut res: Vec<&Arg> = Vec::new();
        let mut i: usize = 0;
        while i < self.args.len()
            invariant
                i <= self.args@.len(),
                args_of(res@) == self.args@.take(i as int),
            decreases self.args@.len() - i,
        {
            let ghost before = res@;
            res.push(&self.args[i]);
            assert(args_of(res@) =~= args_of(before).push(self.args@[i as int]));
            assert(args_of(res@) =~= self.args@.take(i + 1));
            i = i + 1;
        }
        assert(self.args@.take(self.args@.len() as int) =~= self.args@);
        if self.default && self.subcommands.len() > 0 {
            let more = self.subcommands[0].args_with_default();
            let mut j: usize = 0;
            while j < more.len()
                invariant
                    j <= more@.len(),
                    args_of(res@) == self.args@ + args_of(more@).take(j as int),
                decreases more@.len() - j,
            {
                let ghost before = res@;
                res.push(more[j]);
                assert(args_of(res@) =~= args_of(before).push(*more@[j as int]));
                assert(args_of(res@) =~= self.args@ + args_of(more@).take(j + 1));
                j = j + 1;
            }
            assert(args_of(more@).take(more@.len() as int) =~= args_of(more@));
        } else {
            assert(self.args@ + Seq::<Arg>::empty() =~= self.args@);
        }
        res
    }

    /// The flags of this command, then those of its default subcommand,
    /// and so on.
    pub open spec fn flags_with_default_spec(&self) -> Seq<Flag>
        decreases self,
    {
        self.flags@ + if self.has_default() {
            self.subcommands@[0].flags_with_default_spec()
        } else {
            Seq::empty()
        }
    }

    /// The flags of this command, then those of its default subcommand,
    /// and so on.
    pub fn flags_with_default(&self) -> (r: Vec<&Flag>)
        ensures
            flags_of(r@) == self.flags_with_default_spec(),
        decreases self,
    {
        let mut res: Vec<&Flag> = Vec::new();
        let mut i: usize = 0;
        while i < self.flags.len()
            invariant
                i <= self.flags@.len(),
                flags_of(res@) == self.flags@.take(i as int),
            decreases self.flags@.len() - i,
        {
            let ghost before = res@;
            res.push(&self.flags[i]);
            assert(flags_of(res@) =~= flags_of(before).push(self.flags@[i as int]));
            assert(flags_of(res@) =~= self.flags@.take(i + 1));
            i = i + 1;
        }
        assert(self.flags@.take(self.flags@.len() as int) =~= self.flags@);
        if self.default && self.subcommands.len() > 0 {
            let more = self.subcommands[0].flags_with_default();
            let mut j: usize = 0;
            while j < more.len()
                invariant
                    j <= more@.len(),
                    flags_of(res@) == self.flags@ + flags_of(more@).take(j as int),
                decreases more@.len() - j,
            {
                let ghost before = res@;
                res.push(more[j]);
                assert(flags_of(res@) =~= flags_of(before).push(*more@[j as int]));
                assert(flags_of(res@) =~= self.flags@ + flags_of(more@).take(j + 1));
                j = j + 1;
            }
            assert(flags_of(more@).take(more@.len() as int) =~= flags_of(more@));
        } else {
            assert(self.flags@ + Seq::<Flag>::empty() =~= self.flags@);
        }
        res
    }
}

/// A positional between the brackets of its arity.
pub open spec fn arg_label(a: Arg) -> Seq<char> {
    a.arity.brackets_spec().0 + a.val.name@ + a.arity.brackets_spec().1
}

/// A positional between the brackets of its arity.
pub fn label_of_arg(a: &Arg) -> (r: String)
    ensures
        r@ == arg_label(*a),
{
    let (l, r) = a.arity.brackets();
    let mut out = join(l, a.val.name.as_str());
    out.append(r);
    out
}

/// A positional in the usage line.
pub open spec fn usage_arg(a: Arg) -> Seq<char> {
    " "@ + arg_label(a)
}

/// A positional in the list of arguments.
pub open spec fn arg_line(a: Arg) -> Seq<char> {
    "  "@ + padded(arg_label(a), 20) + " "@ + text_or_empty(a.doc) + "\n"@
}

/// The value of a flag in angle brackets, with a space in front; nothing
/// for a flag without a value.
pub open spec fn flag_value_label(f: Flag) -> Seq<char> {
    match f.val {
        Some(v) => " <"@ + v.name@ + ">"@,
        None => Seq::empty(),
    }
}

/// The value of a flag in angle brackets.
pub fn value_label_of(f: &Flag) -> (r: String)
    ensures
        r@ == flag_value_label(*f),
{
    match &f.val {
        Some(v) => {
            let mut out = join(" <", v.name.as_str());
            out.append(">");
            out
        },
        None => String::new(),
    }
}

/// A flag in the usage line: its short spelling, or its long one where it
/// has no short one, with its value, between square brackets unless it is
/// required. The flag that asks for help is left out.
pub open spec fn usage_flag(f: Flag) -> Seq<char> {
    if f.is_help_spec() {
        Seq::empty()
    } else {
        let spelled = match f.short {
            Some(s) => "-"@ + s@,
            None => "--"@ + f.name@,
        };
        let inner = spelled + flag_value_label(f);
        match f.arity {
            Arity::Required => " "@ + inner,
            Arity::Optional => " ["@ + inner + "]"@,
            Arity::Repeated => " ["@ + inner + "]..."@,
        }
    }
}

/// A flag in the usage line.
pub fn usage_of_flag(f: &Flag) -> (r: String)
    ensures
        r@ == usage_flag(*f),
{
    if f.is_help() {
        return String::new();
    }
    let mut inner = match &f.short {
        Some(s) => join("-", s.as_str()),
        None => join("--", f.name.as_str()),
    };
    let value = value_label_of(f);
    inner.append(value.as_str());
    match f.arity {
        Arity::Required => join(" ", inner.as_str()),
        Arity::Optional => {
            let mut out = join(" [", inner.as_str());
            out.append("]");
            out
        },
        Arity::Repeated => {
            let mut out = join(" [", inner.as_str());
            out.append("]...");
            out
        },
    }
}

/// The spellings of a flag and its value, as the list of options shows
/// them.
pub open spec fn flag_label(f: Flag) -> Seq<char> {
    (match f.short {
        Some(s) => "-"@ + s@ + ", "@,
        None => Seq::empty(),
    }) + "--"@ + f.name@ + flag_value_label(f)
}

/// A flag in the list of options. The flag that asks for help is left
/// out.
pub open spec fn flag_line(f: Flag) -> Seq<char> {
    if f.is_help_spec() {
        Seq::empty()
    } else {
        "  "@ + padded(flag_label(f), 20) + " "@ + text_or_empty(f.doc) + "\n"@
    }
}

/// A line of a list: two spaces, the label filled up to twenty
/// characters, a space, the documentation, and `end`.
pub fn list_line(label: String, doc: &Option<String>, end: &str) -> (r: String)
    ensures
        r@ == "  "@ + padded(label@, 20) + " "@ + text_or_empty(*doc) + end@,
{
    let shown = pad(label, 20);
    let mut out = join("  ", shown.as_str());
    out.append(" ");
    match doc {
        Some(d) => {
            out.append(d.as_str());
        },
        None => {
            assert(out@ + Seq::<char>::empty() =~= out@);
        },
    }
    out.append(end);
    out
}

/// A flag in the list of options.
pub fn line_of_flag(f: &Flag) -> (r: String)
    ensures
        r@ == flag_line(*f),
{
    if f.is_help() {
        return String::new();
    }
    let mut label = match &f.short {
        Some(s) => {
            let mut l = join("-", s.as_str());
            l.append(", ");
            l
        },
        None => String::new(),
    };
    label.append("--");
    label.append(f.name.as_str());
    let value = value_label_of(f);
    label.append(value.as_str());
    proof {
        if f.short.is_none() {
            assert(Seq::<char>::empty() + "--"@ =~= "--"@);
        }
    }
    list_line(label, &f.doc, "\n")
}

/// A subcommand in the list of commands.
pub open spec fn sub_line(c: Cmd) -> Seq<char> {
    "\n"@ + ("  "@ + padded(c.name@, 20) + " "@ + text_or_empty(c.doc) + ""@)
}

/// The line of the flag that asks for help.
pub open spec fn help_line() -> Seq<char> {
    "  -h, --help           Prints help information.\n"@
}

/// The help text of a command: the usage line with the positionals and
/// flags of the command and of its default subcommands; the
/// documentation; the list of the positionals; the list of the flags; the
/// list of the subcommands.
pub open spec fn help_spec(cmd: Cmd) -> Seq<char> {
    "Usage: "@ + cmd.name@ + pieces(cmd.args_with_default_spec(), |a: Arg| usage_arg(a)) + pieces(
        cmd.flags_with_default_spec(),
        |f: Flag| usage_flag(f),
    ) + " [-h]"@ + (if cmd.has_subcommands_spec() {
        " <COMMAND>"@
    } else {
        Seq::empty()
    }) + (match cmd.doc {
        Some(d) => "\n\n"@ + d@ + "\n"@,
        None => Seq::empty(),
    }) + (if cmd.args_with_default_spec().len() > 0 {
        "\nArguments:\n"@ + pieces(cmd.args_with_default_spec(), |a: Arg| arg_line(a))
    } else {
        Seq::empty()
    }) + "\nOptions:\n"@ + pieces(cmd.flags_with_default_spec(), |f: Flag| flag_line(f))
        + help_line() + (if cmd.has_subcommands_spec() {
        "\nCommands:"@ + pieces(cmd.subcommands@, |c: Cmd| sub_line(c))
    } else {
        Seq::empty()
    })
}

/// Writes the help text of a command.
pub fn help_text(cmd: &Cmd) -> (r: String)
    ensures
        r@ == help_spec(*cmd),
{
    let args = cmd.args_with_default();
    let flags = cmd.flags_with_default();
    let ghost all_args = cmd.args_with_default_spec();
    let ghost all_flags = cmd.flags_with_default_spec();
    let mut out = join("Usage: ", cmd.name.as_str());
    let ghost head = out@;

    let ghost f1 = |a: Arg| usage_arg(a);
    let mut i: usize = 0;
    assert(out@ =~= head + pieces(all_args.take(0), f1));
    while i < args.len()
        invariant
            i <= args@.len(),
            args_of(args@) == all_args,
            f1 == |a: Arg| usage_arg(a),
            out@ == head + pieces(all_args.take(i as int), f1),
        decreases args@.len() - i,
    {
        proof {
            lemma_pieces_step(all_args, f1, i as int);
        }
        let ghost before = out@;
        let label = label_of_arg(args[i]);
        out.append(" ");
        out.append(label.as_str());
        assert(out@ =~= before + usage_arg(all_args[i as int]));
        assert(out@ =~= head + pieces(all_args.take(i + 1), f1));
        i = i + 1;
    }
    assert(all_args.take(args@.len() as int) =~= all_args);
    let ghost head = out@;

    let ghost f2 = |f: Flag| usage_flag(f);
    let mut i: usize = 0;
    assert(out@ =~= head + pieces(all_flags.take(0), f2));
    while i < flags.len()
        invariant
            i <= flags@.len(),
            flags_of(flags@) == all_flags,
            f2 == |f: Flag| usage_flag(f),
            out@ == head + pieces(all_flags.take(i as int), f2),
        decreases flags@.len() - i,
    {
        proof {
            lemma_pieces_step(all_flags, f2, i as int);
        }
        let piece = usage_of_flag(flags[i]);
        out.append(piece.as_str());
        assert(out@ =~= head + pieces(all_flags.take(i + 1), f2));
        i = i + 1;
    }
    assert(all_flags.take(flags@.len() as int) =~= all_flags);

    out.append(" [-h]");
    if cmd.has_subcommands() {
        out.append(" <COMMAND>");
    } else {
        assert(out@ + Seq::<char>::empty() =~= out@);
    }
    match &cmd.doc {
        Some(d) => {
            let ghost before = out@;
            out.append("\n\n");
            out.append(d.as_str());
            out.append("\n");
            assert(out@ =~= before + ("\n\n"@ + d@ + "\n"@));
        },
        None => {
            assert(out@ + Seq::<char>::empty() =~= out@);
        },
    }
    let ghost head = out@;

    let ghost f3 = |a: Arg| arg_line(a);
    if args.len() > 0 {
        out.append("\nArguments:\n");
        let ghost head3 = out@;
        let mut i: usize = 0;
        assert(out@ =~= head3 + pieces(all_args.take(0), f3));
        while i < args.len()
            invariant
                i <= args@.len(),
                args_of(args@) == all_args,
                f3 == |a: Arg| arg_line(a),
                out@ == head3 + pieces(all_args.take(i as int), f3),
            decreases args@.len() - i,
        {
            proof {
                lemma_pieces_step(all_args, f3, i as int);
            }
            let label = label_of_arg(args[i]);
            let line = list_line(label, &args[i].doc, "\n");
            out.append(line.as_str());
            assert(out@ =~= head3 + pieces(all_args.take(i + 1), f3));
            i = i + 1;
        }
        assert(all_args.take(args@.len() as int) =~= all_args);
        assert(out@ =~= head + ("\nArguments:\n"@ + pieces(all_args, f3)));
    } else {
        assert(out@ + Seq::<char>::empty() =~= out@);
    }

    out.append("\nOptions:\n");
    let ghost head = out@;
    let ghost f4 = |f: Flag| flag_line(f);
    let mut i: usize = 0;
    assert(out@ =~= head + pieces(all_flags.take(0), f4));
    while i < flags.len()
        invariant
            i <= flags@.len(),
            flags_of(flags@) == all_flags,
            f4 == |f: Flag| flag_line(f),
            out@ == head + pieces(all_flags.take(i as int), f4),
        decreases flags@.len() - i,
    {
        proof {
            lemma_pieces_step(all_flags, f4, i as int);
        }
        let line = line_of_flag(flags[i]);
        out.append(line.as_str());
        assert(out@ =~= head + pieces(all_flags.take(i + 1), f4));
        i = i + 1;
    }
    assert(all_flags.take(flags@.len() as int) =~= all_flags);
    out.append("  -h, --help           Prints help information.\n");
    let ghost head = out@;

    let ghost f5 = |c: Cmd| sub_line(c);
    if cmd.has_subcommands() {
        out.append("\nCommands:");
        let ghost head5 = out@;
        let mut i: usize = 0;
        assert(out@ =~= head5 + pieces(cmd.subcommands@.take(0), f5));
        while i < cmd.subcommands.len()
            invariant
                i <= cmd.subcommands@.len(),
                f5 == |c: Cmd| sub_line(c),
                out@ == head5 + pieces(cmd.subcommands@.take(i as int), f5),
            decreases cmd.subcommands@.len() - i,
        {
            proof {
                lemma_pieces_step(cmd.subcommands@, f5, i as int);
            }
            let sub = &cmd.subcommands[i];
            let line = list_line(sub.name.clone(), &sub.doc, "");
            out.append("\n");
            out.append(line.as_str());
            assert(out@ =~= head5 + pieces(cmd.subcommands@.take(i + 1), f5));
            i = i + 1;
        }
        assert(cmd.subcommands@.take(cmd.subcommands@.len() as int) =~= cmd.subcommands@);
        assert(out@ =~= head + ("\nCommands:"@ + pieces(cmd.subcommands@, f5)));
    } else {
        assert(out@ + Seq::<char>::empty() =~= out@);
    }
    out
}

} // verus!
