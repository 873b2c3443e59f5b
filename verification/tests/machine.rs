use xflags::compile;
use xflags::help::{help_text, pad};
use xflags::machine::{from_vec, run_parser, Field, Level, Named, Record};
use xflags::rt::Parser;
use xflags::table::{collect_chains, Machine};
use xflags::value::Value;
use xflags::Error;

const SERVER: &str = "
    /// A tool.
    cmd tool {
        repeated -v, --verbose
        /// Serves.
        cmd server {
            optional --dir path: PathBuf
            default cmd launch {
                required --port p: u16
            }
            cmd watch w {
                /// What to watch.
                repeated what: OsString
            }
        }
        cmd stats {
            required path: PathBuf
        }
    }
";

fn parse(grammar: &str, input: &[&str]) -> Result<Record, Error> {
    let grammar = compile(grammar).unwrap();
    let args: Vec<Vec<u8>> = input.iter().map(|a| a.as_bytes().to_vec()).collect();
    let by_chain = from_vec(&grammar.cmd, args.clone());
    let machine = Machine::new(&grammar.cmd).unwrap();
    let by_state = machine.parse(args);
    assert_eq!(by_state, by_chain);
    by_chain
}

fn failure(grammar: &str, input: &[&str]) -> String {
    let e = parse(grammar, input).unwrap_err();
    assert!(!e.is_help());
    e.to_string()
}

fn field<'a>(items: &'a [Named], name: &str) -> &'a Field {
    &items.iter().find(|n| n.name == name).unwrap().field
}

fn os(s: &str) -> Value {
    Value::OsStr(s.as_bytes().to_vec())
}

fn path(s: &str) -> Value {
    Value::Path(s.as_bytes().to_vec())
}

#[test]
fn double_dash_switches_to_positionals() {
    let rec = parse("cmd c { repeated rest: OsString }", &["a", "--", "-b"]).unwrap();
    assert_eq!(rec.levels.len(), 1);
    assert_eq!(field(&rec.levels[0].args, "rest"), &Field::Many(vec![os("a"), os("-b")]));
    assert_eq!(
        failure("cmd c { repeated rest: OsString }", &["a", "-b"]),
        "Unknown flag: `-b`. Use `help` for more information"
    );
}

#[test]
fn flag_value_is_taken_unconditionally() {
    let g = "cmd c { optional --dir d: OsString optional --log }";
    let rec = parse(g, &["--dir", "--log"]).unwrap();
    assert_eq!(field(&rec.levels[0].flags, "dir"), &Field::Maybe(Some(os("--log"))));
    assert_eq!(field(&rec.levels[0].flags, "log"), &Field::Switch(false));
    let rec = parse(g, &["--dir", "--", "--log"]).unwrap();
    assert_eq!(field(&rec.levels[0].flags, "dir"), &Field::Maybe(Some(os("--"))));
    assert_eq!(field(&rec.levels[0].flags, "log"), &Field::Switch(true));
}

#[test]
fn required_flag_given_twice_is_an_error() {
    let g = "cmd c { required --n n: u32 optional --o o: u32 required --unit optional --sw }";
    assert_eq!(
        failure(g, &["--n", "1", "--unit", "--n", "2"]),
        "flag specified more than once: `--n`"
    );
    assert_eq!(
        failure(g, &["--n", "1", "--unit", "--o", "1", "--o", "2"]),
        "flag specified more than once: `--o`"
    );
    assert_eq!(
        failure(g, &["--n", "1", "--unit", "--unit"]),
        "flag specified more than once: `--unit`"
    );
    assert_eq!(
        failure(g, &["--n", "1", "--unit", "--sw", "--sw"]),
        "flag specified more than once: `--sw`"
    );
    assert_eq!(failure(g, &["--n", "1"]), "Flag is required: `--unit`. Use `help` for more information");
    let rec = parse(g, &["--unit", "--n", "7"]).unwrap();
    assert_eq!(
        rec.levels[0].flags,
        vec![
            Named { name: "n".to_string(), field: Field::One(Value::Int(7)) },
            Named { name: "o".to_string(), field: Field::Maybe(None) },
            Named { name: "unit".to_string(), field: Field::Unit },
            Named { name: "sw".to_string(), field: Field::Switch(false) },
        ]
    );
}

#[test]
fn default_subcommand_is_entered_at_the_end_of_input() {
    assert_eq!(failure(SERVER, &["server"]), "Flag is required: `--port`. Use `help` for more information");
    let rec = parse(SERVER, &["server", "--port", "80"]).unwrap();
    let states: Vec<(u8, &str)> = rec.levels.iter().map(|l| (l.state, l.name.as_str())).collect();
    assert_eq!(states, vec![(0, "tool"), (1, "server"), (2, "launch")]);
    assert_eq!(field(&rec.levels[2].flags, "port"), &Field::One(Value::Int(80)));
    assert_eq!(failure(SERVER, &[]), "A subcommand is required. Use `help` for more information");
    assert_eq!(failure(SERVER, &["-v"]), "A subcommand is required. Use `help` for more information");
}

#[test]
fn default_subcommand_takes_what_the_parent_does_not() {
    let g = "cmd c { default cmd run { repeated args: OsString optional --fast } cmd test {} }";
    let rec = parse(g, &["x", "--fast", "y"]).unwrap();
    assert_eq!(rec.levels[1].name, "run");
    assert_eq!(field(&rec.levels[1].args, "args"), &Field::Many(vec![os("x"), os("y")]));
    assert_eq!(field(&rec.levels[1].flags, "fast"), &Field::Switch(true));
    let rec = parse(g, &["test"]).unwrap();
    assert_eq!(rec.levels[1].name, "test");
    let rec = parse(g, &["x", "test"]).unwrap();
    assert_eq!(field(&rec.levels[1].args, "args"), &Field::Many(vec![os("x"), os("test")]));
    assert_eq!(failure(g, &["test", "--fast"]), "Unknown flag: `--fast`. Use `help` for more information");
}

#[test]
fn default_subcommand_is_not_entered_by_name() {
    let g = "cmd c { default cmd run { } cmd test {} }";
    assert_eq!(failure(g, &["run"]), "Unknown command: `run`. Use `help` for more information");
}

#[test]
fn ancestor_flags_are_inherited_down_the_chain_only() {
    let rec = parse(SERVER, &["server", "watch", "-v", "--dir", "d", "--verbose"]).unwrap();
    assert_eq!(field(&rec.levels[0].flags, "verbose"), &Field::Count(2));
    assert_eq!(field(&rec.levels[1].flags, "dir"), &Field::Maybe(Some(path("d"))));
    assert_eq!(rec.levels[2].name, "watch");
    assert_eq!(failure(SERVER, &["stats", ".", "--dir", "d"]), "Unknown flag: `--dir`. Use `help` for more information");
    assert_eq!(failure(SERVER, &["--dir", "d", "server"]), "Unknown flag: `--dir`. Use `help` for more information");
    assert_eq!(failure(SERVER, &["server", "watch", "--port", "1"]), "Unknown flag: `--port`. Use `help` for more information");
    let rec = parse(SERVER, &["stats", "-v", "."]).unwrap();
    assert_eq!(field(&rec.levels[0].flags, "verbose"), &Field::Count(1));
}

#[test]
fn subcommand_names_come_before_positionals() {
    let g = "cmd c { optional file: OsString cmd build {} }";
    let rec = parse(g, &["build"]).unwrap();
    assert_eq!(rec.levels.len(), 2);
    assert_eq!(field(&rec.levels[0].args, "file"), &Field::Maybe(None));
    let rec = parse(g, &["x", "build"]).unwrap();
    assert_eq!(field(&rec.levels[0].args, "file"), &Field::Maybe(Some(os("x"))));
    assert_eq!(rec.levels[1].name, "build");
    assert_eq!(failure(g, &["x"]), "A subcommand is required. Use `help` for more information");
}

#[test]
fn aliases_enter_the_same_state() {
    let by_name = parse(SERVER, &["server", "watch", "a"]).unwrap();
    let by_alias = parse(SERVER, &["server", "w", "a"]).unwrap();
    assert_eq!(by_name, by_alias);
    assert_eq!(by_alias.levels[2].state, 3);
}

#[test]
fn scenario_number_and_workspace() {
    let g = "cmd app { required -n, --number n: u32 required workspace: PathBuf }";
    let rec = parse(g, &["-n", "92", "."]).unwrap();
    assert_eq!(
        rec,
        Record {
            levels: vec![Level {
                state: 0,
                name: "app".to_string(),
                flags: vec![Named { name: "number".to_string(), field: Field::One(Value::Int(92)) }],
                args: vec![Named { name: "workspace".to_string(), field: Field::One(path(".")) }],
            }],
        }
    );
    assert_eq!(failure(g, &["-n", "92"]), "Flag is required: `workspace`. Use `help` for more information");
    assert_eq!(failure(g, &[".", "-n", "lol"]), "can't parse `-n`, invalid digit found in string");
}

#[test]
fn scenario_repeated_rest() {
    let g = "cmd c { optional a: String optional b: u32 optional c: OsString repeated rest: OsString }";
    let rec = parse(g, &["a", "11", "c", "d", "e", "f"]).unwrap();
    assert_eq!(
        rec.levels[0].args,
        vec![
            Named { name: "a".to_string(), field: Field::Maybe(Some(Value::Text("a".to_string()))) },
            Named { name: "b".to_string(), field: Field::Maybe(Some(Value::Int(11))) },
            Named { name: "c".to_string(), field: Field::Maybe(Some(os("c"))) },
            Named {
                name: "rest".to_string(),
                field: Field::Many(vec![os("d"), os("e"), os("f")]),
            },
        ]
    );
    assert_eq!(failure(g, &["a", "x"]), "can't parse `b`, invalid digit found in string");
    assert_eq!(
        failure("cmd c { optional a: String }", &["a", "b"]),
        "Unknown command: `b`. Use `help` for more information"
    );
}

#[test]
fn help_short_circuits_with_the_text_of_the_current_command() {
    let grammar = compile(SERVER).unwrap();
    let server = &grammar.cmd.subcommands[0];
    let watch = &server.subcommands[1];
    for input in [
        &["server", "--help"][..],
        &["server", "-h", "--nonsense"][..],
        &["-v", "server", "--dir", "x", "--dir", "y", "-h"][..],
    ] {
        let e = parse(SERVER, input).unwrap_err();
        assert!(e.is_help());
        assert_eq!(e.to_string(), help_text(server));
    }
    let e = parse(SERVER, &["server", "w", "x", "--help"]).unwrap_err();
    assert!(e.is_help());
    assert_eq!(e.to_string(), help_text(watch));
    let e = parse(SERVER, &["--help", "server"]).unwrap_err();
    assert_eq!(e.to_string(), help_text(&grammar.cmd));
    assert_eq!(failure(SERVER, &["--nonsense", "--help"]), "Unknown flag: `--nonsense`. Use `help` for more information");
    let rec = parse(SERVER, &["server", "watch", "--", "--help"]).unwrap();
    assert_eq!(field(&rec.levels[2].args, "what"), &Field::Many(vec![os("--help")]));
}

#[test]
fn a_short_h_of_a_parent_wins_in_its_subcommands() {
    let g = "cmd c { optional -h, --host name: String cmd sub {} }";
    let e = parse(g, &["-h"]).unwrap_err();
    assert!(e.is_help());
    let rec = parse(g, &["sub", "-h", "example.org"]).unwrap();
    assert_eq!(
        field(&rec.levels[0].flags, "host"),
        &Field::Maybe(Some(Value::Text("example.org".to_string())))
    );
}

#[test]
fn help_text_lists_usage_arguments_options_and_commands() {
    let grammar = compile(SERVER).unwrap();
    let server = &grammar.cmd.subcommands[0];
    let expected = format!(
        "Usage: server [--dir <p>]{} [-h] <COMMAND>\n\nServes.\n\nOptions:\n  {:<20} \n  {:<20} \n  {:<20} Prints help information.\n\nCommands:\n  {:<20} \n  {:<20} ",
        " --port <p>", "--dir <path>", "--port <p>", "-h, --help", "launch", "watch"
    )
    .replace("[--dir <p>]", "[--dir <path>]");
    assert_eq!(help_text(server), expected);
    let watch = &server.subcommands[1];
    assert_eq!(
        help_text(watch),
        format!(
            "Usage: watch [what]... [-h]\nArguments:\n  {:<20} What to watch.\n\nOptions:\n  {:<20} Prints help information.\n",
            "[what]...", "-h, --help"
        )
    );
    assert_eq!(
        help_text(&grammar.cmd),
        format!(
            "Usage: tool [-v]... [-h] <COMMAND>\n\nA tool.\n\nOptions:\n  {:<20} \n  {:<20} Prints help information.\n\nCommands:\n  {:<20} Serves.\n  {:<20} ",
            "-v, --verbose", "-h, --help", "server", "stats"
        )
    );
}

#[test]
fn pad_fills_up_to_the_width() {
    assert_eq!(pad("ab".to_string(), 5), "ab   ");
    assert_eq!(pad("abcde".to_string(), 5), "abcde");
    assert_eq!(pad("abcdef".to_string(), 5), "abcdef");
    assert_eq!(pad(String::new(), 2), "  ");
}

#[test]
fn token_that_is_not_text_is_kept_raw_or_rejected_by_type() {
    let bad = vec![0xffu8, b'x'];
    let grammar = compile("cmd c { optional raw: OsString optional n: u32 }").unwrap();
    let rec = from_vec(&grammar.cmd, vec![bad.clone()]).unwrap();
    assert_eq!(field(&rec.levels[0].args, "raw"), &Field::Maybe(Some(Value::OsStr(bad.clone()))));
    let e = from_vec(&grammar.cmd, vec![b"a".to_vec(), bad]).unwrap_err();
    assert_eq!(e.to_string(), "can't parse `n`, invalid utf8: \"\u{fffd}x\"");
}

#[test]
fn run_parser_continues_a_stream() {
    let grammar = compile("cmd c { repeated rest: OsString repeated -v, --verbose }").unwrap();
    let mut p = Parser::new(vec![b"prog".to_vec(), b"-v".to_vec(), b"a".to_vec()]);
    assert_eq!(p.next(), Some(b"prog".to_vec()));
    let rec = run_parser(&grammar.cmd, &mut p).unwrap();
    assert_eq!(field(&rec.levels[0].flags, "verbose"), &Field::Count(1));
    assert_eq!(field(&rec.levels[0].args, "rest"), &Field::Many(vec![os("a")]));
    assert!(p.is_empty());
}

#[test]
fn grammar_without_name_parses_like_any_other() {
    let grammar = xflags::compile_anon("required file: PathBuf optional -q, --quiet").unwrap();
    let rec = from_vec(&grammar.cmd, vec![b"-q".to_vec(), b"f".to_vec()]).unwrap();
    assert_eq!(rec.levels[0].name, "");
    assert_eq!(field(&rec.levels[0].flags, "quiet"), &Field::Switch(true));
    assert_eq!(field(&rec.levels[0].args, "file"), &Field::One(path("f")));
}

#[test]
fn table_has_one_state_for_each_command() {
    let grammar = compile(SERVER).unwrap();
    let machine = Machine::new(&grammar.cmd).unwrap();
    assert_eq!(machine.states(), 5);
    assert_eq!(machine.root().name, "tool");
    let mut path = vec![&grammar.cmd];
    let mut chains = Vec::new();
    collect_chains(&mut path, &mut chains);
    let names: Vec<Vec<&str>> =
        chains.iter().map(|c| c.iter().map(|x| x.name.as_str()).collect()).collect();
    assert_eq!(
        names,
        vec![
            vec!["tool"],
            vec!["tool", "server"],
            vec!["tool", "server", "launch"],
            vec!["tool", "server", "watch"],
            vec!["tool", "stats"],
        ]
    );
    assert_eq!(path.len(), 1);
}

#[test]
fn table_needs_numbers_without_gaps_or_repeats() {
    let mut grammar = compile("cmd a { cmd b {} cmd c {} }").unwrap();
    assert!(Machine::new(&grammar.cmd).is_some());
    grammar.cmd.subcommands[1].idx = 1;
    assert!(Machine::new(&grammar.cmd).is_none());
    grammar.cmd.subcommands[1].idx = 3;
    assert!(Machine::new(&grammar.cmd).is_none());
    grammar.cmd.subcommands[1].idx = 0;
    grammar.cmd.idx = 2;
    let machine = Machine::new(&grammar.cmd).unwrap();
    let rec = machine.parse(vec![b"c".to_vec()]).unwrap();
    let states: Vec<u8> = rec.levels.iter().map(|l| l.state).collect();
    assert_eq!(states, vec![2, 0]);
}

#[test]
fn table_runs_a_stream_like_the_chain_does() {
    let grammar = compile(SERVER).unwrap();
    let machine = Machine::new(&grammar.cmd).unwrap();
    let mut p = Parser::new(vec![b"prog".to_vec(), b"stats".to_vec(), b"here".to_vec()]);
    assert_eq!(p.next(), Some(b"prog".to_vec()));
    let rec = machine.run(&mut p).unwrap();
    assert_eq!(rec.levels[1].state, 4);
    assert_eq!(field(&rec.levels[1].args, "path"), &Field::One(path("here")));
}

#[test]
fn flag_value_written_anew_gives_the_same_record() {
    let g = "cmd app { required -n, --number n: u32 optional --level l: i8 required workspace: PathBuf }";
    let first = parse(g, &["-n", "+0092", "--level", "-07", "."]).unwrap();
    let n = field(&first.levels[0].flags, "number");
    let l = field(&first.levels[0].flags, "level");
    let (n, l) = match (n, l) {
        (Field::One(n), Field::Maybe(Some(l))) => (n.render(), l.render()),
        other => panic!("unexpected fields: {:?}", other),
    };
    assert_eq!(n, b"92".to_vec());
    assert_eq!(l, b"-7".to_vec());
    let grammar = compile(g).unwrap();
    let again = from_vec(
        &grammar.cmd,
        vec![b"-n".to_vec(), n, b"--level".to_vec(), l, b".".to_vec()],
    )
    .unwrap();
    assert_eq!(again, first);
    let spelled_long = parse(g, &["--number", "92", ".", "--level", "-7"]).unwrap();
    assert_eq!(spelled_long, first);
}

#[test]
fn positional_value_written_anew_gives_the_same_record() {
    let g = "cmd c { optional n: i16 repeated rest: i8 cmd sub {} }";
    let first = parse(g, &["+012", "3", "--", "-0", "sub"]).unwrap();
    assert_eq!(field(&first.levels[0].args, "n"), &Field::Maybe(Some(Value::Int(12))));
    let again = parse(g, &["12", "3", "--", "0", "sub"]).unwrap();
    assert_eq!(again, first);
    let negative = parse(g, &["--", "-12", "3"]);
    assert_eq!(negative.unwrap_err().to_string(), "A subcommand is required. Use `help` for more information");
}

#[test]
fn a_number_written_anew_may_name_a_subcommand_that_is_called_like_it() {
    let mut grammar = compile("cmd c { optional n: u8 cmd seven {} }").unwrap();
    grammar.cmd.subcommands[0].name = "7".to_string();
    let taken = from_vec(&grammar.cmd, vec![b"+7".to_vec(), b"7".to_vec()]).unwrap();
    assert_eq!(field(&taken.levels[0].args, "n"), &Field::Maybe(Some(Value::Int(7))));
    assert_eq!(taken.levels.len(), 2);
    let entered = from_vec(&grammar.cmd, vec![b"7".to_vec()]).unwrap();
    assert_eq!(field(&entered.levels[0].args, "n"), &Field::Maybe(None));
}
