use xflags::ast::{Arg, Arity, Cmd, Flag, Ty, Val};
use xflags::parse::{parse_or_exit, xflags, Delim, Token};
use xflags::text::{str_lit_value, strip_space};
use xflags::{compile, compile_anon};

fn error_of(src: &str) -> String {
    match compile(src) {
        Ok(g) => panic!("accepted: {:?}", g),
        Err(e) => e.to_string(),
    }
}

fn help_flag() -> Flag {
    Flag {
        arity: Arity::Optional,
        name: "help".to_string(),
        short: Some("h".to_string()),
        doc: Some("Prints help information.".to_string()),
        val: None,
    }
}

fn ident(s: &str) -> Token {
    Token::Ident(s.to_string())
}

fn doc_attr(inner: Vec<Token>) -> Vec<Token> {
    vec![Token::Punct('#'), Token::Group(Delim::Bracket, inner)]
}

fn with_doc(attr: Vec<Token>) -> Vec<Token> {
    let mut ts = attr;
    ts.push(ident("cmd"));
    ts.push(ident("a"));
    ts.push(Token::Group(Delim::Brace, vec![]));
    ts
}

#[test]
fn smallest_grammar_gets_the_help_flag() {
    let g = compile("cmd empty {}").unwrap();
    assert_eq!(g.src, None);
    assert_eq!(
        g.cmd,
        Cmd {
            name: "empty".to_string(),
            aliases: vec![],
            doc: None,
            args: vec![],
            flags: vec![help_flag()],
            subcommands: vec![],
            default: false,
            idx: 0,
        }
    );
    assert!(!g.is_anon());
}

#[test]
fn flags_and_positionals_are_read_with_arity_type_and_doc() {
    let g = compile(
        "
        /// Top.
        ///
        /// More.
        cmd my-tool {
            /// Where.
            required dir: PathBuf
            optional count: u32
            repeated rest: OsString
            /// Loud.
            repeated -v, --verbose
            optional --log-file path: PathBuf
            required -n, --number n: usize
        }",
    )
    .unwrap();
    assert_eq!(g.cmd.name, "my-tool");
    assert_eq!(g.cmd.doc, Some("Top.\n\nMore.".to_string()));
    assert_eq!(
        g.cmd.args,
        vec![
            Arg {
                arity: Arity::Required,
                doc: Some("Where.".to_string()),
                val: Val { name: "dir".to_string(), ty: Ty::PathBuf },
            },
            Arg {
                arity: Arity::Optional,
                doc: None,
                val: Val { name: "count".to_string(), ty: Ty::FromStr("u32".to_string()) },
            },
            Arg {
                arity: Arity::Repeated,
                doc: None,
                val: Val { name: "rest".to_string(), ty: Ty::OsString },
            },
        ]
    );
    assert_eq!(
        g.cmd.flags,
        vec![
            Flag {
                arity: Arity::Repeated,
                name: "verbose".to_string(),
                short: Some("v".to_string()),
                doc: Some("Loud.".to_string()),
                val: None,
            },
            Flag {
                arity: Arity::Optional,
                name: "log-file".to_string(),
                short: None,
                doc: None,
                val: Some(Val { name: "path".to_string(), ty: Ty::PathBuf }),
            },
            Flag {
                arity: Arity::Required,
                name: "number".to_string(),
                short: Some("n".to_string()),
                doc: None,
                val: Some(Val { name: "n".to_string(), ty: Ty::FromStr("usize".to_string()) }),
            },
            help_flag(),
        ]
    );
}

#[test]
fn commands_are_numbered_in_the_order_in_which_they_begin() {
    let g = compile(
        "cmd root {
            cmd a { cmd a1 {} cmd a2 {} }
            cmd b {}
            default cmd c { cmd c1 {} }
        }",
    )
    .unwrap();
    let root = &g.cmd;
    assert_eq!(root.idx, 0);
    assert!(root.default);
    let names: Vec<(&str, u8)> =
        root.subcommands.iter().map(|c| (c.name.as_str(), c.idx)).collect();
    assert_eq!(names, vec![("c", 5), ("a", 1), ("b", 4)]);
    let a = &root.subcommands[1];
    assert_eq!(a.subcommands[0].idx, 2);
    assert_eq!(a.subcommands[1].idx, 3);
    assert_eq!(root.subcommands[0].subcommands[0].idx, 6);
    assert_eq!(xflags::emit::all_ids(root), vec![0, 5, 6, 1, 2, 3, 4]);
    assert_eq!(xflags::emit::leaf_ids(root), vec![6, 2, 3, 4]);
    for sub in &root.subcommands {
        assert_eq!(sub.flags.last(), Some(&help_flag()));
    }
}

#[test]
fn default_subcommand_goes_to_the_front() {
    let g = compile("cmd s { cmd watch {} /// Runs.\n default cmd launch {} cmd stop {} }").unwrap();
    let names: Vec<&str> = g.cmd.subcommands.iter().map(|c| c.name.as_str()).collect();
    assert_eq!(names, vec!["launch", "watch", "stop"]);
    assert_eq!(g.cmd.subcommands[0].doc, Some("Runs.".to_string()));
    assert_eq!(g.cmd.default_subcommand().map(|c| c.name.as_str()), Some("launch"));
    let named: Vec<&str> = g.cmd.named_subcommands().iter().map(|c| c.name.as_str()).collect();
    assert_eq!(named, vec!["watch", "stop"]);
    assert!(g.cmd.has_subcommands());
    assert!(!g.cmd.subcommands[0].has_subcommands());
    assert_eq!(g.cmd.subcommands[1].default_subcommand(), None);
}

#[test]
fn aliases_follow_the_name() {
    let g = compile("cmd alias-cmd { cmd sub s {} cmd this one has a lot {} }").unwrap();
    assert_eq!(g.cmd.subcommands[0].aliases, vec!["s".to_string()]);
    assert_eq!(
        g.cmd.subcommands[1].aliases,
        vec!["one".to_string(), "has".to_string(), "a".to_string(), "lot".to_string()]
    );
    assert!(g.cmd.subcommands[0].is_called("s"));
    assert!(g.cmd.subcommands[0].is_called("sub"));
    assert!(!g.cmd.subcommands[0].is_called("su"));
}

#[test]
fn source_file_is_kept() {
    let g = compile("src \"./src/flags.rs\" cmd a {}").unwrap();
    assert_eq!(g.src, Some("./src/flags.rs".to_string()));
    assert_eq!(error_of("src cmd a {}"), "expected a string");
}

#[test]
fn grammar_without_name_holds_items_alone() {
    let g = compile_anon("required file: PathBuf optional -v, --verbose").unwrap();
    assert!(g.is_anon());
    assert_eq!(g.cmd.name, "");
    assert_eq!(g.cmd.args.len(), 1);
    assert_eq!(g.cmd.flags.len(), 2);
    assert_eq!(g.cmd.flags[1], help_flag());
    assert_eq!(
        compile_anon("cmd a {}").map_err(|e| e.to_string()),
        Err("expected one of `optional`, `required`, `repeated`, got `cmd`".to_string())
    );
    assert_eq!(
        compile_anon("default cmd a {}").map_err(|e| e.to_string()),
        Err("expected one of `optional`, `required`, `repeated`, got `default`".to_string())
    );
}

#[test]
fn malformed_heads_are_rejected() {
    assert_eq!(error_of(""), "expected `cmd`");
    assert_eq!(error_of("command a {}"), "expected `cmd`");
    assert_eq!(error_of("cmd {}"), "expected a name, got: `{`");
    assert_eq!(error_of("cmd"), "expected a name, got: ``");
    assert_eq!(error_of("cmd -a {}"), "command name can't begin with `-`: `-a`");
    assert_eq!(error_of("cmd a"), "expected `{`");
    assert_eq!(error_of("cmd a ()"), "expected `{`");
    assert_eq!(error_of("cmd a {} cmd b {}"), "unexpected token after the command: `cmd`");
    assert_eq!(error_of("cmd a {"), "invalid tokens");
    assert_eq!(error_of("cmd a { default optional -v, --verbose }"), "expected `cmd`");
}

#[test]
fn malformed_items_are_rejected() {
    assert_eq!(
        error_of("cmd a { maybe x: u32 }"),
        "expected one of `optional`, `required`, `repeated`, got `maybe`"
    );
    assert_eq!(
        error_of("cmd a { : }"),
        "expected one of `optional`, `required`, `repeated`, got `:`"
    );
    assert_eq!(error_of("cmd a { optional }"), "expected a name, got: ``");
    assert_eq!(error_of("cmd a { optional x }"), "expected `--flag` or `arg: Type`");
    assert_eq!(error_of("cmd a { optional x: }"), "expected a name, got: ``");
    assert_eq!(error_of("cmd a { optional -v }"), "long option is required for `-v`");
    assert_eq!(error_of("cmd a { optional -v, verbose }"), "flag name should begin with `-`: `verbose`");
    assert_eq!(error_of("cmd a { optional -v, -verbose }"), "long name must begin with `--`: `-verbose`");
    assert_eq!(error_of("cmd a { optional --help }"), "`--help` flag is generated automatically");
    assert_eq!(error_of("cmd a { optional -h, --help }"), "`--help` flag is generated automatically");
    assert_eq!(error_of("cmd a { optional --dir path: }"), "expected a name, got: ``");
    assert_eq!(
        error_of("cmd a { default cmd b {} default cmd c {} }"),
        "only one subcommand can be default"
    );
}

#[test]
fn a_flag_may_be_spelled_with_h_alone() {
    let g = compile("cmd a { optional -h, --host name: String }").unwrap();
    assert_eq!(g.cmd.flags[0].short, Some("h".to_string()));
    assert!(!g.cmd.flags[0].is_help());
    assert!(g.cmd.flags[1].is_help());
}

#[test]
fn at_most_256_commands() {
    let mut src = String::from("cmd root {");
    for i in 0..255 {
        src.push_str(&format!(" cmd c{} {{}}", i));
    }
    src.push('}');
    let g = compile(&src).unwrap();
    assert_eq!(g.cmd.subcommands.len(), 255);
    assert_eq!(g.cmd.subcommands[254].idx, 255);
    let mut src = String::from("cmd root {");
    for i in 0..256 {
        src.push_str(&format!(" cmd c{} {{}}", i));
    }
    src.push('}');
    assert_eq!(error_of(&src), "too many commands");
}

#[test]
fn documentation_must_be_well_formed() {
    let good = with_doc(doc_attr(vec![ident("doc"), Token::Punct('='), Token::Literal("\" hi\"".to_string())]));
    assert_eq!(xflags(&good).unwrap().cmd.doc, Some("hi".to_string()));
    let cases: Vec<(Vec<Token>, &str)> = vec![
        (vec![Token::Punct('#'), ident("x")], "expected `{`"),
        (vec![Token::Punct('#'), Token::Group(Delim::Brace, vec![])], "expected `{`"),
        (doc_attr(vec![ident("foo")]), "expected `doc`"),
        (doc_attr(vec![ident("doc"), ident("x")]), "expected `=`"),
        (doc_attr(vec![ident("doc"), Token::Punct('='), Token::Literal("5".to_string())]), "expected a string"),
        (doc_attr(vec![ident("doc"), Token::Punct('=')]), "expected a string"),
        (
            doc_attr(vec![
                ident("doc"),
                Token::Punct('='),
                Token::Literal("\"a\"".to_string()),
                ident("x"),
            ]),
            "expected `}`",
        ),
    ];
    for (attr, msg) in cases {
        assert_eq!(xflags(&with_doc(attr)).map_err(|e| e.to_string()), Err(msg.to_string()));
    }
    let empty_doc = with_doc(doc_attr(vec![ident("doc"), Token::Punct('='), Token::Literal("\"\"".to_string())]));
    assert_eq!(xflags(&empty_doc).unwrap().cmd.doc, None);
}

#[test]
fn builder_works_on_tokens_written_by_hand() {
    let ts = vec![
        ident("required"),
        ident("out"),
        Token::Punct(':'),
        ident("PathBuf"),
        ident("optional"),
        Token::Punct('-'),
        Token::Punct('-'),
        ident("dry"),
        Token::Punct('-'),
        ident("run"),
    ];
    let g = parse_or_exit(&ts).unwrap();
    assert_eq!(g.cmd.args[0].val, Val { name: "out".to_string(), ty: Ty::PathBuf });
    assert_eq!(g.cmd.flags[0].name, "dry-run");
    assert_eq!(g.cmd.flags[0].arity, Arity::Optional);
    assert_eq!(g.cmd.idx, 0);
}

#[test]
fn string_literal_value() {
    assert_eq!(str_lit_value("\"abc\""), "abc");
    assert_eq!(str_lit_value("\"it\\'s\""), "it's");
    assert_eq!(str_lit_value("\"\"\"x\"\""), "x");
    assert_eq!(str_lit_value("\"a\\\\b\""), "a\\\\b");
    assert_eq!(str_lit_value("\"\""), "");
    assert_eq!(str_lit_value("x\"y"), "x\"y");
    assert_eq!(strip_space(" a".to_string()), "a");
    assert_eq!(strip_space("  a".to_string()), " a");
    assert_eq!(strip_space("a ".to_string()), "a ");
}
