use xflags::ast::{Arity, Ty, Val};
use xflags::compile;
use xflags::emit::{camel, first_upper, gen_arg_ty, gen_flag_ty, snake, to_upper};
use xflags::text::{encode, join, join_all, same, skip_chars, starts_with_dash, starts_with_two_dashes};

#[test]
fn snake_turns_dashes_into_underscores() {
    assert_eq!(snake("log-file"), "log_file");
    assert_eq!(snake("a-b-c-"), "a_b_c_");
    assert_eq!(snake("plain"), "plain");
    assert_eq!(snake(""), "");
}

#[test]
fn first_upper_raises_the_first_letter() {
    assert_eq!(first_upper("server"), "Server");
    assert_eq!(first_upper("Server"), "Server");
    assert_eq!(first_upper("9lives"), "9lives");
    assert_eq!(first_upper(""), "");
    assert_eq!(first_upper("\u{e9}t\u{e9}"), "\u{e9}t\u{e9}");
    assert_eq!(to_upper('z'), 'Z');
    assert_eq!(to_upper('a'), 'A');
    assert_eq!(to_upper('{'), '{');
    assert_eq!(to_upper('`'), '`');
}

#[test]
fn camel_joins_the_pieces_between_dashes() {
    assert_eq!(camel("rust-analyzer"), "RustAnalyzer");
    assert_eq!(camel("analysis-stats"), "AnalysisStats");
    assert_eq!(camel("a--b"), "AB");
    assert_eq!(camel("-x"), "X");
    assert_eq!(camel("x"), "X");
    assert_eq!(camel(""), "");
}

#[test]
fn idents_of_commands_flags_and_values() {
    let g = compile("cmd rust-analyzer { optional --log-file path: PathBuf }").unwrap();
    assert_eq!(g.cmd.ident(), "RustAnalyzer");
    assert_eq!(g.cmd.cmd_enum_ident(), "RustAnalyzerCmd");
    assert_eq!(g.cmd.flags[0].ident(), "log_file");
    assert_eq!(g.cmd.flags[0].val.as_ref().unwrap().ident(), "path");
    let val = Val { name: "some-path".to_string(), ty: Ty::OsString };
    assert_eq!(val.ident(), "some_path");
    let mut prefix = String::from("ab");
    assert_eq!(g.cmd.push_prefix(&mut prefix), 2);
    assert_eq!(prefix, "abrust_analyzer__");
    let anon = xflags::compile_anon("optional -v, --verbose").unwrap();
    assert_eq!(anon.cmd.ident(), "Flags");
    assert_eq!(anon.cmd.cmd_enum_ident(), "FlagsCmd");
}

#[test]
fn field_types_follow_arity() {
    let u = Ty::FromStr("u32".to_string());
    assert_eq!(gen_arg_ty(Arity::Optional, &u), "Option<u32>");
    assert_eq!(gen_arg_ty(Arity::Required, &u), "u32");
    assert_eq!(gen_arg_ty(Arity::Repeated, &u), "Vec<u32>");
    assert_eq!(gen_arg_ty(Arity::Optional, &Ty::PathBuf), "Option<PathBuf>");
    assert_eq!(gen_arg_ty(Arity::Repeated, &Ty::OsString), "Vec<OsString>");
    assert_eq!(gen_flag_ty(Arity::Optional, None), "bool");
    assert_eq!(gen_flag_ty(Arity::Required, None), "()");
    assert_eq!(gen_flag_ty(Arity::Repeated, None), "u32");
    assert_eq!(gen_flag_ty(Arity::Repeated, Some(&Ty::PathBuf)), "Vec<PathBuf>");
    assert_eq!(gen_flag_ty(Arity::Required, Some(&Ty::OsString)), "OsString");
}

#[test]
fn brackets_show_the_arity() {
    assert_eq!(Arity::Optional.brackets(), ("[", "]"));
    assert_eq!(Arity::Required.brackets(), ("<", ">"));
    assert_eq!(Arity::Repeated.brackets(), ("[", "]..."));
}

#[test]
fn text_primitives() {
    assert!(same("a", "a"));
    assert!(!same("a", "b"));
    assert!(starts_with_dash("-"));
    assert!(!starts_with_dash(""));
    assert!(!starts_with_dash("a-"));
    assert!(starts_with_two_dashes("--x"));
    assert!(!starts_with_two_dashes("-x"));
    assert!(!starts_with_two_dashes("-"));
    assert_eq!(join("ab", "cd"), "abcd");
    assert_eq!(skip_chars("h\u{e9}llo", 2), "llo");
    assert_eq!(skip_chars("ab", 2), "");
    assert_eq!(encode("h\u{e9}"), vec![b'h', 0xc3, 0xa9]);
    assert_eq!(join_all(&vec!["a".to_string(), "".to_string(), "b".to_string()], "\n"), "a\n\nb");
    assert_eq!(join_all(&vec!["a".to_string()], ", "), "a");
    assert_eq!(join_all(&Vec::new(), ", "), "");
}

#[test]
fn lists_with_default_follow_the_default_chain() {
    let g = compile(
        "cmd c {
            required a: u8
            optional --x
            cmd other { required z: u8 }
            default cmd d {
                optional b: u8
                optional --y
                default cmd e { repeated rest: u8 }
            }
        }",
    )
    .unwrap();
    let args: Vec<&str> = g.cmd.args_with_default().iter().map(|a| a.val.name.as_str()).collect();
    assert_eq!(args, vec!["a", "b", "rest"]);
    let flags: Vec<&str> = g.cmd.flags_with_default().iter().map(|f| f.name.as_str()).collect();
    assert_eq!(flags, vec!["x", "help", "y", "help", "help"]);
    let other = &g.cmd.subcommands[1];
    let args: Vec<&str> = other.args_with_default().iter().map(|a| a.val.name.as_str()).collect();
    assert_eq!(args, vec!["z"]);
}

#[test]
fn record_declarations_follow_the_tree() {
    let g = compile(
        "cmd rust-analyzer {
            repeated -v, --verbose
            cmd server {
                optional --dir path: PathBuf
                default cmd launch {
                    optional --log
                }
                cmd watch {
                }
            }
            cmd analysis-stats {
                required path: PathBuf
                optional --parallel
            }
        }",
    )
    .unwrap();
    let mut buf = String::from("// records\n");
    xflags::emit::emit_cmd(&mut buf, &g.cmd);
    let expected = "// records
#[derive(Debug)]
pub struct RustAnalyzer {
    pub verbose: u32,
    pub subcommand: RustAnalyzerCmd,
}

#[derive(Debug)]
pub enum RustAnalyzerCmd {
    Server(Server),
    AnalysisStats(AnalysisStats),
}

#[derive(Debug)]
pub struct Server {
    pub dir: Option<PathBuf>,
    pub subcommand: ServerCmd,
}

#[derive(Debug)]
pub enum ServerCmd {
    Launch(Launch),
    Watch(Watch),
}

#[derive(Debug)]
pub struct Launch {
    pub log: bool,
}

#[derive(Debug)]
pub struct Watch;

#[derive(Debug)]
pub struct AnalysisStats {
    pub path: PathBuf,

    pub parallel: bool,
}
";
    assert_eq!(buf, expected);
}

#[test]
fn record_without_fields_is_declared_without_braces() {
    let g = compile("cmd empty {}").unwrap();
    let mut buf = String::new();
    xflags::emit::emit_cmd(&mut buf, &g.cmd);
    assert_eq!(buf, "#[derive(Debug)]\npub struct Empty;\n");
    assert!(!xflags::emit::has_plain_flags(&g.cmd.flags));
    let g = compile("cmd c { required --unit repeated n: u8 repeated --data d: OsString }").unwrap();
    let mut buf = String::new();
    xflags::emit::emit_cmd(&mut buf, &g.cmd);
    assert_eq!(
        buf,
        "#[derive(Debug)]\npub struct C {\n    pub n: Vec<u8>,\n\n    pub unit: (),\n    pub data: Vec<OsString>,\n}\n"
    );
    assert!(xflags::emit::has_plain_flags(&g.cmd.flags));
}
