//! The grammar as a tree: commands with their flags, positional arguments
//! and subcommands.

use vstd::prelude::*;
use crate::text::same;

verus! {

/// How often an item may occur.
#[derive(Debug, Clone, Copy, PartialEq, Eq, Structural)]
pub enum Arity {
    /// Not at all, or once.
    Optional,
    /// Exactly once.
    Required,
    /// Any number of times.
    Repeated,
}

/// The type that a raw token is coerced to.
#[derive(Debug, PartialEq, Eq)]
pub enum Ty {
    /// A filesystem path: the raw bytes are kept.
    PathBuf,
    /// A platform string: the raw bytes are kept.
    OsString,
    /// A type read from text, given by its name.
    FromStr(String),
}

/// The name of a value and its type.
#[derive(Debug, PartialEq, Eq)]
pub struct Val {
    pub name: String,
    pub ty: Ty,
}

/// A positional argument.
#[derive(Debug, PartialEq, Eq)]
pub struct Arg {
    pub arity: Arity,
    pub doc: Option<String>,
    pub val: Val,
}

/// A flag: its long name without the dashes, an optional short name, and
/// the value it takes, if any.
#[derive(Debug, PartialEq, Eq)]
pub struct Flag {
    pub arity: Arity,
    pub name: String,
    pub short: Option<String>,
    pub doc: Option<String>,
    pub val: Option<Val>,
}

/// A command: one node of the tree.
#[derive(Debug, PartialEq, Eq)]
pub struct Cmd {
    pub name: String,
    pub aliases: Vec<String>,
    pub doc: Option<String>,
    pub args: Vec<Arg>,
    pub flags: Vec<Flag>,
    pub subcommands: Vec<Cmd>,
    /// Whether the first subcommand is the default one.
    pub default: bool,
    /// The number of this command when the tree is walked parents first.
    pub idx: u8,
}

/// A whole grammar: the root command, and the file that its source came
/// from, if that is known.
#[derive(Debug, PartialEq, Eq)]
pub struct XFlags {
    pub src: Option<String>,
    pub cmd: Cmd,
}

impl XFlags {
    /// Whether the root command has no name.
    pub fn is_anon(&self) -> (b: bool)
        ensures
            b == (self.cmd.name@.len() == 0),
    {
        self.cmd.name.as_str().unicode_len() == 0
    }
}

impl Flag {
    /// Whether this is the reserved flag that asks for help.
    pub open spec fn is_help_spec(&self) -> bool {
        self.name@ == "help"@
    }

    /// Whether this is the reserved flag that asks for help.
    #[verifier::when_used_as_spec(is_help_spec)]
    pub fn is_help(&self) -> (b: bool)
        ensures
            b == self.is_help_spec(),
    {
        same(self.name.as_str(), "help")
    }
}

impl Cmd {
    /// Whether this command has subcommands.
    pub open spec fn has_subcommands_spec(&self) -> bool {
        self.subcommands@.len() > 0
    }

    /// Whether this command has subcommands.
    #[verifier::when_used_as_spec(has_subcommands_spec)]
    pub fn has_subcommands(&self) -> (b: bool)
        ensures
            b == self.has_subcommands_spec(),
    {
        self.subcommands.len() > 0
    }

    /// Whether this command falls into its first subcommand when nothing
    /// else takes a token.
    pub open spec fn has_default(&self) -> bool {
        self.default && self.subcommands@.len() > 0
    }

    /// The index of the first subcommand that is entered by name.
    pub open spec fn first_named(&self) -> int {
        if self.has_default() {
            1
        } else {
            0
        }
    }

    /// The subcommands that are entered by name: all but the default one.
    pub fn named_subcommands(&self) -> (r: &[Cmd])
        ensures
            r@ == self.subcommands@.skip(self.first_named()),
    {
        let start: usize = if self.default && self.subcommands.len() > 0 { 1 } else { 0 };
        let all = self.subcommands.as_slice();
        vstd::slice::slice_subrange(all, start, all.len())
    }

    /// The default subcommand, if there is one.
    pub fn default_subcommand(&self) -> (r: Option<&Cmd>)
        ensures
            r.is_some() == self.has_default(),
            self.has_default() ==> *r.unwrap() == self.subcommands@[0],
    {
        if self.default && self.subcommands.len() > 0 {
            Some(&self.subcommands[0])
        } else {
            None
        }
    }

    /// Whether `text` is the name of this command or one of its aliases.
    pub open spec fn answers_to(&self, text: Seq<char>) -> bool {
        self.name@ == text || exists|i: int| 0 <= i < self.aliases@.len() && self.aliases@[i]@ == text
    }

    /// Whether `text` is the name of this command or one of its aliases.
    pub fn is_called(&self, text: &str) -> (b: bool)
        ensures
            b == self.answers_to(text@),
    {
        if same(self.name.as_str(), text) {
            return true;
        }
        let mut i: usize = 0;
        while i < self.aliases.len()
            invariant
                i <= self.aliases@.len(),
                forall|j: int| 0 <= j < i ==> self.aliases@[j]@ != text@,
            decreases self.aliases@.len() - i,
        {
            if same(self.aliases[i].as_str(), text) {
                return true;
            }
            i = i + 1;
        }
        false
    }
}

impl View for Arity {
    type V = Arity;

    open spec fn view(&self) -> Arity {
        *self
    }
}

/// The view of a value declaration that may be missing.
pub open spec fn opt_val_view(o: Option<Val>) -> Option<ValView> {
    match o {
        Some(v) => Some(v@),
        None => None,
    }
}

/// A [`Ty`] as the specifications see it.
pub enum TyView {
    PathBuf,
    OsString,
    FromStr(Seq<char>),
}

impl View for Ty {
    type V = TyView;

    open spec fn view(&self) -> TyView {
        match self {
            Ty::PathBuf => TyView::PathBuf,
            Ty::OsString => TyView::OsString,
            Ty::FromStr(name) => TyView::FromStr(name@),
        }
    }
}

/// A [`Val`] as the specifications see it.
pub struct ValView {
    pub name: Seq<char>,
    pub ty: TyView,
}

impl View for Val {
    type V = ValView;

    open spec fn view(&self) -> ValView {
        ValView { name: self.name@, ty: self.ty@ }
    }
}

/// The view of a text that may be missing.
pub open spec fn opt_text(o: Option<String>) -> Option<Seq<char>> {
    match o {
        Some(s) => Some(s@),
        None => None,
    }
}

/// An [`Arg`] as the specifications see it.
pub struct ArgView {
    pub arity: Arity,
    pub doc: Option<Seq<char>>,
    pub val: ValView,
}

impl View for Arg {
    type V = ArgView;

    open spec fn view(&self) -> ArgView {
        ArgView { arity: self.arity, doc: opt_text(self.doc), val: self.val@ }
    }
}

/// A [`Flag`] as the specifications see it.
pub struct FlagView {
    pub arity: Arity,
    pub name: Seq<char>,
    pub short: Option<Seq<char>>,
    pub doc: Option<Seq<char>>,
    pub val: Option<ValView>,
}

impl View for Flag {
    type V = FlagView;

    open spec fn view(&self) -> FlagView {
        FlagView {
            arity: self.arity,
            name: self.name@,
            short: opt_text(self.short),
            doc: opt_text(self.doc),
            val: opt_val_view(self.val),
        }
    }
}

/// A [`Cmd`] as the specifications see it.
pub struct CmdView {
    pub name: Seq<char>,
    pub aliases: Seq<Seq<char>>,
    pub doc: Option<Seq<char>>,
    pub args: Seq<ArgView>,
    pub flags: Seq<FlagView>,
    pub subcommands: Seq<CmdView>,
    pub default: bool,
    pub idx: int,
}

/// The views of a list of commands.
pub open spec fn cmds_view(s: Seq<Cmd>) -> Seq<CmdView>
    decreases s,
{
    if s.len() == 0 {
        Seq::empty()
    } else {
        cmds_view(s.drop_last()).push(s.last().view())
    }
}

impl View for Cmd {
    type V = CmdView;

    open spec fn view(&self) -> CmdView
        decreases self,
    {
        CmdView {
            name: self.name@,
            aliases: self.aliases@.map_values(|a: String| a@),
            doc: opt_text(self.doc),
            args: self.args@.map_values(|a: Arg| a@),
            flags: self.flags@.map_values(|f: Flag| f@),
            subcommands: cmds_view(self.subcommands@),
            default: self.default,
            idx: self.idx as int,
        }
    }
}

/// The view of a list of commands has the views of the commands, place
/// by place.
pub proof fn lemma_cmds_view(s: Seq<Cmd>)
    ensures
        cmds_view(s).len() == s.len(),
        forall|i: int| 0 <= i < s.len() ==> #[trigger] cmds_view(s)[i] == s[i]@,
    decreases s.len(),
{
    if s.len() > 0 {
        lemma_cmds_view(s.drop_last());
        assert(cmds_view(s) == cmds_view(s.drop_last()).push(s.last().view()));
    }
}

/// A [`XFlags`] as the specifications see it.
pub struct XFlagsView {
    pub src: Option<Seq<char>>,
    pub cmd: CmdView,
}

impl View for XFlags {
    type V = XFlagsView;

    open spec fn view(&self) -> XFlagsView {
        XFlagsView { src: opt_text(self.src), cmd: self.cmd@ }
    }
}

} // verus!
