//! A command-line argument parser driven by a declarative grammar.
//!
//! A grammar (commands, flags, positional arguments, subcommands) is built
//! from its text into a tree of commands. The tree is run as a state
//! machine, one state for each command, against a list of raw argument
//! tokens; a table of the states, made once for a grammar, lets the machine
//! move from state to state by number. The outcome is a structured record
//! or an [`Error`].
//!
//! - [`ast`]: the tree of commands.
//! - [`lex`], [`parse`]: from the text of a grammar to its tree;
//!   [`shape`]: what holds of every tree that is built.
//! - [`rt`]: the stream of raw tokens; [`value`]: the coerced values.
//! - [`semantics`]: what parsing means; [`machine`], [`table`]: the code
//!   that does it; [`laws`]: what holds of every parse.
//! - [`help`], [`emit`]: help texts, names and types that follow from a
//!   grammar.

use vstd::prelude::*;

pub mod ast;
pub mod emit;
pub mod help;
pub mod laws;
pub mod lex;
pub mod machine;
pub mod parse;
pub mod rt;
pub mod semantics;
pub mod shape;
pub mod table;
pub mod text;
pub mod value;

verus! {

/// What went wrong while reading the arguments, or the help text that was
/// asked for.
#[derive(Debug, PartialEq, Eq)]
pub struct Error {
    pub msg: String,
    pub help: bool,
}

impl Error {
    /// A usage error with the given message.
    pub fn new(message: &str) -> (e: Error)
        ensures
            e.msg@ == message@,
            !e.help,
    {
        Error { msg: String::from_str(message), help: false }
    }

    /// The help text of a command, carried through the error channel.
    pub fn help_text(text: &str) -> (e: Error)
        ensures
            e.msg@ == text@,
            e.help,
    {
        Error { msg: String::from_str(text), help: true }
    }

    /// Whether this is a request for help and no failure.
    pub fn is_help(&self) -> (b: bool)
        ensures
            b == self.help,
    {
        self.help
    }

    /// The text to show to the user.
    pub fn to_string(&self) -> (s: String)
        ensures
            s@ == self.msg@,
    {
        self.msg.clone()
    }
}

/// What building the grammar from its text gives: the grammar that its
/// tokens spell, or the error.
pub open spec fn compile_spec(src: Seq<char>) -> Result<ast::XFlagsView, Seq<char>> {
    match lex::lexed(src) {
        None => Err("invalid tokens"@),
        Some(ts) => parse::xflags_spec(ts),
    }
}

/// Builds the grammar from its text.
pub fn compile(src: &str) -> (r: Result<ast::XFlags, parse::SyntaxError>)
    ensures
        parse::built(r, compile_spec(src@)),
{
    match lex::lex(src) {
        None => Err(parse::fail("invalid tokens")),
        Some(ts) => parse::xflags(&ts),
    }
}

/// What building a grammar without a name from its text gives.
pub open spec fn compile_anon_spec(src: Seq<char>) -> Result<ast::XFlagsView, Seq<char>> {
    match lex::lexed(src) {
        None => Err("invalid tokens"@),
        Some(ts) => parse::parse_or_exit_spec(ts),
    }
}

/// Builds a grammar without a name, flags and positionals alone, from its
/// text.
pub fn compile_anon(src: &str) -> (r: Result<ast::XFlags, parse::SyntaxError>)
    ensures
        parse::built(r, compile_anon_spec(src@)),
{
    match lex::lex(src) {
        None => Err(parse::fail("invalid tokens")),
        Some(ts) => parse::parse_or_exit(&ts),
    }
}

} // verus!
