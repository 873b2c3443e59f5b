//! Names, types and state numbers that follow from a grammar.

use vstd::prelude::*;
use crate::ast::{Arg, Arity, Cmd, Flag, Ty, Val};
use crate::help::{lemma_pieces_step, pieces};
use crate::text::{join, push_char};

verus! {

/// A character with a lower-case ASCII letter turned into its upper-case
/// one.
pub open spec fn upper(c: char) -> char {
    if 'a' <= c && c <= 'z' {
        ((c as u8 - 32) as u8) as char
    } else {
        c
    }
}

/// A character with a lower-case ASCII letter turned into its upper-case
/// one.
pub fn to_upper(c: char) -> (r: char)
    ensures
        r == upper(c),
{
    if 'a' <= c && c <= 'z' {
        let b: u8 = c as u8;
        (b - 32) as char
    } else {
        c
    }
}

/// The text with every dash turned into an underscore.
pub open spec fn snake_spec(s: Seq<char>) -> Seq<char> {
    s.map_values(|c: char| if c == '-' { '_' } else { c })
}

/// The text with every dash turned into an underscore.
pub fn snake(s: &str) -> (r: String)
    ensures
        r@ == snake_spec(s@),
{
    let len = s.unicode_len();
    let mut out = String::new();
    let mut i: usize = 0;
    while i < len
        invariant
            i <= len,
            len == s@.len(),
            out@ == snake_spec(s@.take(i as int)),
        decreases len - i,
    {
        let c = s.get_char(i);
        push_char(&mut out, if c == '-' { '_' } else { c });
        assert(out@ =~= snake_spec(s@.take(i + 1)));
        i = i + 1;
    }
    assert(s@.take(len as int) =~= s@);
    out
}

/// The text with its first character in upper case.
pub open spec fn first_upper_spec(s: Seq<char>) -> Seq<char> {
    if s.len() == 0 {
        s
    } else {
        seq![upper(s[0])] + s.drop_first()
    }
}

/// The text with its first character in upper case.
pub fn first_upper(s: &str) -> (r: String)
    ensures
        r@ == first_upper_spec(s@),
{
    let len = s.unicode_len();
    if len == 0 {
        return String::from_str(s);
    }
    let mut out = String::new();
    push_char(&mut out, to_upper(s.get_char(0)));
    out.append(s.substring_char(1, len));
    assert(out@ =~= first_upper_spec(s@));
    out
}

/// The text from a place on, without its dashes and with the first
/// character after each dash in upper case; `at_start` tells whether the
/// place is the start of the text or follows a dash.
pub open spec fn camel_from(s: Seq<char>, at_start: bool) -> Seq<char>
    decreases s.len(),
{
    if s.len() == 0 {
        Seq::empty()
    } else if s[0] == '-' {
        camel_from(s.drop_first(), true)
    } else {
        seq![if at_start { upper(s[0]) } else { s[0] }] + camel_from(s.drop_first(), false)
    }
}

/// The text split at its dashes, each piece with its first character in
/// upper case, the pieces in a row.
pub open spec fn camel_spec(s: Seq<char>) -> Seq<char> {
    camel_from(s, true)
}

/// The text split at its dashes, each piece with its first character in
/// upper case, the pieces in a row.
pub fn camel(s: &str) -> (r: String)
    ensures
        r@ == camel_spec(s@),
{
    let len = s.unicode_len();
    let mut out = String::new();
    let mut at_start = true;
    let mut i: usize = 0;
    assert(s@.skip(0) =~= s@);
    assert(out@ + camel_from(s@, true) =~= camel_from(s@, true));
    while i < len
        invariant
            i <= len,
            len == s@.len(),
            camel_spec(s@) == out@ + camel_from(s@.skip(i as int), at_start),
        decreases len - i,
    {
        let c = s.get_char(i);
        let ghost before = out@;
        let ghost rest = s@.skip(i as int);
        assert(rest[0] == c);
        assert(rest.drop_first() =~= s@.skip(i + 1));
        if c == '-' {
            at_start = true;
        } else {
            let shown = if at_start { to_upper(c) } else { c };
            push_char(&mut out, shown);
            at_start = false;
            assert(before + (seq![shown] + camel_from(rest.drop_first(), false)) =~= out@
                + camel_from(s@.skip(i + 1), false));
        }
        i = i + 1;
    }
    assert(s@.skip(len as int) =~= Seq::<char>::empty());
    assert(out@ + Seq::<char>::empty() =~= out@);
    out
}

impl Cmd {
    /// The name of the record of this command.
    pub open spec fn ident_spec(&self) -> Seq<char> {
        if self.name@.len() == 0 {
            "Flags"@
        } else {
            camel_spec(self.name@)
        }
    }

    /// The name of the record of this command: `Flags` for a command
    /// without a name, else the name in camel case.
    pub fn ident(&self) -> (r: String)
        ensures
            r@ == self.ident_spec(),
    {
        if self.name.as_str().unicode_len() == 0 {
            return String::from_str("Flags");
        }
        camel(self.name.as_str())
    }

    /// The name of the choice among the subcommands of this command.
    pub fn cmd_enum_ident(&self) -> (r: String)
        ensures
            r@ == self.ident_spec() + "Cmd"@,
    {
        let mut r = self.ident();
        r.append("Cmd");
        r
    }

    /// Extends `buf` by the name of this command in snake case and two
    /// underscores, and gives the length that `buf` had.
    pub fn push_prefix(&self, buf: &mut String) -> (l: usize)
        ensures
            l == old(buf)@.len(),
            final(buf)@ == old(buf)@ + snake_spec(self.name@) + "__"@,
    {
        let l = buf.as_str().unicode_len();
        let name = snake(self.name.as_str());
        buf.append(name.as_str());
        buf.append("__");
        l
    }
}

impl Flag {
    /// The name of the field of this flag.
    pub fn ident(&self) -> (r: String)
        ensures
            r@ == snake_spec(self.name@),
    {
        snake(self.name.as_str())
    }
}

impl Val {
    /// The name of the field of this value.
    pub fn ident(&self) -> (r: String)
        ensures
            r@ == snake_spec(self.name@),
    {
        snake(self.name.as_str())
    }
}

impl Arity {
    /// The brackets that show the arity of an item in a usage line.
    pub open spec fn brackets_spec(&self) -> (Seq<char>, Seq<char>) {
        match self {
            Arity::Optional => ("["@, "]"@),
            Arity::Required => ("<"@, ">"@),
            Arity::Repeated => ("["@, "]..."@),
        }
    }

    /// The brackets that show the arity of an item in a usage line.
    pub fn brackets(&self) -> (r: (&'static str, &'static str))
        ensures
            r.0@ == self.brackets_spec().0,
            r.1@ == self.brackets_spec().1,
    {
        match self {
            Arity::Optional => ("[", "]"),
            Arity::Required => ("<", ">"),
            Arity::Repeated => ("[", "]..."),
        }
    }
}

/// The name of a type.
pub open spec fn ty_text(ty: Ty) -> Seq<char> {
    match ty {
        Ty::PathBuf => "PathBuf"@,
        Ty::OsString => "OsString"@,
        Ty::FromStr(name) => name@,
    }
}

/// The type of the field of a positional, or of a flag with a value: the
/// type itself where the item is required, an option of it where it is
/// optional, a list of it where it is repeated.
pub open spec fn arg_ty_spec(arity: Arity, ty: Ty) -> Seq<char> {
    match arity {
        Arity::Optional => "Option<"@ + ty_text(ty) + ">"@,
        Arity::Required => ty_text(ty),
        Arity::Repeated => "Vec<"@ + ty_text(ty) + ">"@,
    }
}

/// The type of the field of a positional, or of a flag with a value.
pub fn gen_arg_ty(arity: Arity, ty: &Ty) -> (r: String)
    ensures
        r@ == arg_ty_spec(arity, *ty),
{
    let name = match ty {
        Ty::PathBuf => String::from_str("PathBuf"),
        Ty::OsString => String::from_str("OsString"),
        Ty::FromStr(it) => it.clone(),
    };
    match arity {
        Arity::Optional => {
            let mut r = join("Option<", name.as_str());
            r.append(">");
            r
        },
        Arity::Required => name,
        Arity::Repeated => {
            let mut r = join("Vec<", name.as_str());
            r.append(">");
            r
        },
    }
}

/// The type of the field of a flag: for a flag without a value a truth
/// value where it is optional, nothing where it is required, a count
/// where it is repeated.
pub open spec fn flag_ty_spec(arity: Arity, ty: Option<Ty>) -> Seq<char> {
    match ty {
        None => match arity {
            Arity::Optional => "bool"@,
            Arity::Required => "()"@,
            Arity::Repeated => "u32"@,
        },
        Some(ty) => arg_ty_spec(arity, ty),
    }
}

/// The type of the field of a flag.
pub fn gen_flag_ty(arity: Arity, ty: Option<&Ty>) -> (r: String)
    ensures
        r@ == flag_ty_spec(
            arity,
            match ty {
                Some(t) => Some(*t),
                None => None,
            },
        ),
{
    match ty {
        None => match arity {
            Arity::Optional => String::from_str("bool"),
            Arity::Required => String::from_str("()"),
            Arity::Repeated => String::from_str("u32"),
        },
        Some(ty) => gen_arg_ty(arity, ty),
    }
}

/// The numbers of the commands of a tree, parents first.
pub open spec fn all_ids_spec(cmd: Cmd) -> Seq<u8>
    decreases cmd,
{
    seq![cmd.idx] + all_ids_of(cmd.subcommands@)
}

/// The numbers of the commands of a row of trees.
pub open spec fn all_ids_of(subs: Seq<Cmd>) -> Seq<u8>
    decreases subs,
{
    if subs.len() == 0 {
        Seq::empty()
    } else {
        all_ids_of(subs.drop_last()) + all_ids_spec(subs.last())
    }
}

/// The numbers of the commands of a tree that have no subcommands.
pub open spec fn leaf_ids_spec(cmd: Cmd) -> Seq<u8>
    decreases cmd,
{
    if cmd.subcommands@.len() == 0 {
        seq![cmd.idx]
    } else {
        leaf_ids_of(cmd.subcommands@)
    }
}

/// The numbers of the commands without subcommands of a row of trees.
pub open spec fn leaf_ids_of(subs: Seq<Cmd>) -> Seq<u8>
    decreases subs,
{
    if subs.len() == 0 {
        Seq::empty()
    } else {
        leaf_ids_of(subs.drop_last()) + leaf_ids_spec(subs.last())
    }
}

/// Adds the numbers of the commands of a tree to `out`.
pub fn push_all_ids(cmd: &Cmd, out: &mut Vec<u8>)
    ensures
        final(out)@ == old(out)@ + all_ids_spec(*cmd),
    decreases cmd,
{
    out.push(cmd.idx);
    let mut i: usize = 0;
    assert(cmd.subcommands@.take(0) =~= Seq::<Cmd>::empty());
    assert(out@ =~= old(out)@ + seq![cmd.idx] + all_ids_of(cmd.subcommands@.take(0)));
    while i < cmd.subcommands.len()
        invariant
            i <= cmd.subcommands@.len(),
            out@ == old(out)@ + seq![cmd.idx] + all_ids_of(cmd.subcommands@.take(i as int)),
        decreases cmd.subcommands@.len() - i,
    {
        let ghost upto = cmd.subcommands@.take(i + 1);
        assert(upto.drop_last() =~= cmd.subcommands@.take(i as int));
        assert(upto.last() == cmd.subcommands@[i as int]);
        push_all_ids(&cmd.subcommands[i], out);
        assert(out@ =~= old(out)@ + seq![cmd.idx] + all_ids_of(upto));
        i = i + 1;
    }
    assert(cmd.subcommands@.take(cmd.subcommands@.len() as int) =~= cmd.subcommands@);
    assert(out@ =~= old(out)@ + all_ids_spec(*cmd));
}

/// The numbers of the commands of a tree, parents first.
pub fn all_ids(cmd: &Cmd) -> (r: Vec<u8>)
    ensures
        r@ == all_ids_spec(*cmd),
{
    let mut out: Vec<u8> = Vec::new();
    push_all_ids(cmd, &mut out);
    assert(Seq::<u8>::empty() + all_ids_spec(*cmd) =~= all_ids_spec(*cmd));
    out
}

/// Adds the numbers of the commands without subcommands of a tree to
/// `out`.
pub fn push_leaf_ids(cmd: &Cmd, out: &mut Vec<u8>)
    ensures
        final(out)@ == old(out)@ + leaf_ids_spec(*cmd),
    decreases cmd,
{
    if cmd.subcommands.len() == 0 {
        out.push(cmd.idx);
        assert(out@ =~= old(out)@ + seq![cmd.idx]);
        return ;
    }
    let mut i: usize = 0;
    assert(cmd.subcommands@.take(0) =~= Seq::<Cmd>::empty());
    assert(out@ =~= old(out)@ + leaf_ids_of(cmd.subcommands@.take(0)));
    while i < cmd.subcommands.len()
        invariant
            i <= cmd.subcommands@.len(),
            out@ == old(out)@ + leaf_ids_of(cmd.subcommands@.take(i as int)),
        decreases cmd.subcommands@.len() - i,
    {
        let ghost upto = cmd.subcommands@.take(i + 1);
        assert(upto.drop_last() =~= cmd.subcommands@.take(i as int));
        assert(upto.last() == cmd.subcommands@[i as int]);
        push_leaf_ids(&cmd.subcommands[i], out);
        assert(out@ =~= old(out)@ + leaf_ids_of(upto));
        i = i + 1;
    }
    assert(cmd.subcommands@.take(cmd.subcommands@.len() as int) =~= cmd.subcommands@);
}

/// The numbers of the commands of a tree that have no subcommands.
pub fn leaf_ids(cmd: &Cmd) -> (r: Vec<u8>)
    ensures
        r@ == leaf_ids_spec(*cmd),
{
    let mut out: Vec<u8> = Vec::new();
    push_leaf_ids(cmd, &mut out);
    assert(Seq::<u8>::empty() + leaf_ids_spec(*cmd) =~= leaf_ids_spec(*cmd));
    out
}

/// Whether a list of flags holds one that does not ask for help.
pub open spec fn plain_flags(flags: Seq<Flag>) -> bool {
    exists|i: int| 0 <= i < flags.len() && !(#[trigger] flags[i]).is_help_spec()
}

/// Whether a list of flags holds one that does not ask for help.
pub fn has_plain_flags(flags: &Vec<Flag>) -> (b: bool)
    ensures
        b == plain_flags(flags@),
{
    let mut i: usize = 0;
    while i < flags.len()
        invariant
            i <= flags@.len(),
            forall|j: int| 0 <= j < i ==> (#[trigger] flags@[j]).is_help_spec(),
        decreases flags@.len() - i,
    {
        if !flags[i].is_help() {
            return true;
        }
        i = i + 1;
    }
    false
}

/// The type of a value that may be missing.
pub open spec fn val_ty(v: Option<Val>) -> Option<Ty> {
    match v {
        Some(v) => Some(v.ty),
        None => None,
    }
}

/// The field of a positional in the declaration of a record.
pub open spec fn arg_field(a: Arg) -> Seq<char> {
    "    pub "@ + snake_spec(a.val.name@) + ": "@ + arg_ty_spec(a.arity, a.val.ty) + ",\n"@
}

/// The field of a flag in the declaration of a record; nothing for the
/// flag that asks for help.
pub open spec fn flag_field(f: Flag) -> Seq<char> {
    if f.is_help_spec() {
        Seq::empty()
    } else {
        "    pub "@ + snake_spec(f.name@) + ": "@ + flag_ty_spec(f.arity, val_ty(f.val)) + ",\n"@
    }
}

/// The variant of a subcommand in the declaration of a choice.
pub open spec fn variant(c: Cmd) -> Seq<char> {
    "    "@ + c.ident_spec() + "("@ + c.ident_spec() + "),\n"@
}

/// The fields of the record of a command: the positionals, an empty line
/// where flags follow them, the flags, and the chosen subcommand.
pub open spec fn record_fields(cmd: Cmd) -> Seq<char> {
    pieces(cmd.args@, |a: Arg| arg_field(a)) + (if cmd.args@.len() > 0 && plain_flags(
        cmd.flags@,
    ) {
        "\n"@
    } else {
        Seq::empty()
    }) + pieces(cmd.flags@, |f: Flag| flag_field(f)) + (if cmd.subcommands@.len() > 0 {
        "    pub subcommand: "@ + cmd.ident_spec() + "Cmd"@ + ",\n"@
    } else {
        Seq::empty()
    })
}

/// The declaration of the choice among the subcommands of a command;
/// nothing where it has none.
pub open spec fn choice(cmd: Cmd) -> Seq<char> {
    if cmd.subcommands@.len() > 0 {
        "\n#[derive(Debug)]\npub enum "@ + cmd.ident_spec() + "Cmd"@ + " {\n"@ + pieces(
            cmd.subcommands@,
            |c: Cmd| variant(c),
        ) + "}\n"@
    } else {
        Seq::empty()
    }
}

/// The declaration of the record of a command, followed, where it has
/// subcommands, by the declaration of the choice among them and the
/// declarations of their records: one field for each positional, one for
/// each flag but the one that asks for help, and one for the chosen
/// subcommand. A record without fields is declared without braces.
pub open spec fn emit_cmd_spec(cmd: Cmd) -> Seq<char>
    decreases cmd,
{
    let head = "#[derive(Debug)]\npub struct "@ + cmd.ident_spec();
    if cmd.args@.len() == 0 && !plain_flags(cmd.flags@) && cmd.subcommands@.len() == 0 {
        head + ";\n"@
    } else {
        head + " {\n"@ + record_fields(cmd) + "}\n"@ + choice(cmd) + emit_subs(
            cmd.subcommands@,
        )
    }
}

/// The declarations of the records of a row of commands, each after an
/// empty line.
pub open spec fn emit_subs(subs: Seq<Cmd>) -> Seq<char>
    decreases subs,
{
    if subs.len() == 0 {
        Seq::empty()
    } else {
        emit_subs(subs.drop_last()) + "\n"@ + emit_cmd_spec(subs.last())
    }
}

/// Appends the fields of the positionals of a command to `buf`.
fn emit_arg_fields(buf: &mut String, cmd: &Cmd)
    ensures
        final(buf)@ == old(buf)@ + pieces(cmd.args@, |a: Arg| arg_field(a)),
{
    let ghost base = buf@;
    let ghost f1 = |a: Arg| arg_field(a);
    let mut i: usize = 0;
    assert(buf@ =~= base + pieces(cmd.args@.take(0), f1));
    while i < cmd.args.len()
        invariant
            i <= cmd.args@.len(),
            f1 == |a: Arg| arg_field(a),
            buf@ == base + pieces(cmd.args@.take(i as int), f1),
        decreases cmd.args@.len() - i,
    {
        proof {
            lemma_pieces_step(cmd.args@, f1, i as int);
        }
        let arg = &cmd.args[i];
        let ghost before = buf@;
        let field = arg.val.ident();
        let ty = gen_arg_ty(arg.arity, &arg.val.ty);
        buf.append("    pub ");
        buf.append(field.as_str());
        buf.append(": ");
        buf.append(ty.as_str());
        buf.append(",\n");
        assert(buf@ =~= before + arg_field(*arg));
        assert(buf@ =~= base + pieces(cmd.args@.take(i + 1), f1));
        i = i + 1;
    }
    assert(cmd.args@.take(cmd.args@.len() as int) =~= cmd.args@);
}

/// Appends the fields of the flags of a command to `buf`.
fn emit_flag_fields(buf: &mut String, cmd: &Cmd)
    ensures
        final(buf)@ == old(buf)@ + pieces(cmd.flags@, |f: Flag| flag_field(f)),
{
    let ghost base = buf@;
    let ghost f2 = |f: Flag| flag_field(f);
    let mut i: usize = 0;
    assert(buf@ =~= base + pieces(cmd.flags@.take(0), f2));
    while i < cmd.flags.len()
        invariant
            i <= cmd.flags@.len(),
            f2 == |f: Flag| flag_field(f),
            buf@ == base + pieces(cmd.flags@.take(i as int), f2),
        decreases cmd.flags@.len() - i,
    {
        proof {
            lemma_pieces_step(cmd.flags@, f2, i as int);
        }
        let flag = &cmd.flags[i];
        let ghost before = buf@;
        if !flag.is_help() {
            let field = flag.ident();
            let ty = match &flag.val {
                Some(v) => gen_flag_ty(flag.arity, Some(&v.ty)),
                None => gen_flag_ty(flag.arity, None),
            };
            buf.append("    pub ");
            buf.append(field.as_str());
            buf.append(": ");
            buf.append(ty.as_str());
            buf.append(",\n");
        }
        assert(buf@ =~= before + flag_field(*flag));
        assert(buf@ =~= base + pieces(cmd.flags@.take(i + 1), f2));
        i = i + 1;
    }
    assert(cmd.flags@.take(cmd.flags@.len() as int) =~= cmd.flags@);
}

/// Appends the fields of the record of a command to `buf`.
fn emit_fields(buf: &mut String, cmd: &Cmd, plain: bool)
    requires
        plain == plain_flags(cmd.flags@),
    ensures
        final(buf)@ == old(buf)@ + record_fields(*cmd),
{
    let ghost start = buf@;
    emit_arg_fields(buf, cmd);
    if cmd.args.len() > 0 && plain {
        buf.append("\n");
    }
    emit_flag_fields(buf, cmd);
    let ghost flags_done = buf@;
    if cmd.subcommands.len() > 0 {
        let name = cmd.cmd_enum_ident();
        buf.append("    pub subcommand: ");
        buf.append(name.as_str());
        buf.append(",\n");
        assert(buf@ =~= flags_done + ("    pub subcommand: "@ + cmd.ident_spec() + "Cmd"@
            + ",\n"@));
    }
    assert(buf@ =~= start + record_fields(*cmd));
}

/// Appends the declaration of the choice among the subcommands of a
/// command to `buf`.
fn emit_choice(buf: &mut String, cmd: &Cmd)
    ensures
        final(buf)@ == old(buf)@ + choice(*cmd),
{
    let ghost start = buf@;
    if cmd.subcommands.len() == 0 {
        assert(buf@ + Seq::<char>::empty() =~= buf@);
        return ;
    }
    let name = cmd.cmd_enum_ident();
    buf.append("\n#[derive(Debug)]\npub enum ");
    buf.append(name.as_str());
    buf.append(" {\n");
    let ghost base = buf@;
    assert(base =~= start + ("\n#[derive(Debug)]\npub enum "@ + cmd.ident_spec() + "Cmd"@
        + " {\n"@));
    let ghost f3 = |c: Cmd| variant(c);
    let mut i: usize = 0;
    assert(buf@ =~= base + pieces(cmd.subcommands@.take(0), f3));
    while i < cmd.subcommands.len()
        invariant
            i <= cmd.subcommands@.len(),
            f3 == |c: Cmd| variant(c),
            buf@ == base + pieces(cmd.subcommands@.take(i as int), f3),
        decreases cmd.subcommands@.len() - i,
    {
        proof {
            lemma_pieces_step(cmd.subcommands@, f3, i as int);
        }
        let sub = &cmd.subcommands[i];
        let ghost before = buf@;
        let sub_name = sub.ident();
        buf.append("    ");
        buf.append(sub_name.as_str());
        buf.append("(");
        buf.append(sub_name.as_str());
        buf.append("),\n");
        assert(buf@ =~= before + variant(*sub));
        assert(buf@ =~= base + pieces(cmd.subcommands@.take(i + 1), f3));
        i = i + 1;
    }
    assert(cmd.subcommands@.take(cmd.subcommands@.len() as int) =~= cmd.subcommands@);
    buf.append("}\n");
    assert(buf@ =~= start + choice(*cmd));
}

/// Appends the declaration of the record of a command, and of what is
/// below it, to `buf`.
pub fn emit_cmd(buf: &mut String, cmd: &Cmd)
    ensures
        final(buf)@ == old(buf)@ + emit_cmd_spec(*cmd),
    decreases cmd,
{
    let ghost start = buf@;
    let name = cmd.ident();
    buf.append("#[derive(Debug)]\npub struct ");
    buf.append(name.as_str());
    let ghost head = "#[derive(Debug)]\npub struct "@ + cmd.ident_spec();
    assert(buf@ =~= start + head);
    let plain = has_plain_flags(&cmd.flags);
    if cmd.args.len() == 0 && !plain && cmd.subcommands.len() == 0 {
        buf.append(";\n");
        assert(buf@ =~= start + (head + ";\n"@));
        return ;
    }
    buf.append(" {\n");
    emit_fields(buf, cmd, plain);
    buf.append("}\n");
    emit_choice(buf, cmd);
    let ghost base = buf@;
    assert(base =~= start + (head + " {\n"@ + record_fields(*cmd) + "}\n"@ + choice(*cmd)));
    let mut i: usize = 0;
    assert(cmd.subcommands@.take(0) =~= Seq::<Cmd>::empty());
    assert(buf@ =~= base + emit_subs(cmd.subcommands@.take(0)));
    while i < cmd.subcommands.len()
        invariant
            i <= cmd.subcommands@.len(),
            buf@ == base + emit_subs(cmd.subcommands@.take(i as int)),
        decreases cmd.subcommands@.len() - i,
    {
        let ghost upto = cmd.subcommands@.take(i + 1);
        assert(upto.drop_last() =~= cmd.subcommands@.take(i as int));
        assert(upto.last() == cmd.subcommands@[i as int]);
        buf.append("\n");
        emit_cmd(buf, &cmd.subcommands[i]);
        assert(buf@ =~= base + emit_subs(upto));
        i = i + 1;
    }
    assert(cmd.subcommands@.take(cmd.subcommands@.len() as int) =~= cmd.subcommands@);
    assert(buf@ =~= start + emit_cmd_spec(*cmd));
}

} // verus!
