use xflags::compile;
use xflags::machine::{from_vec, Field, Level, Named, Record};
use xflags::value::Value;

const SMOKE: &str = "
    /// LSP server for rust.
    cmd rust-analyzer {
        required workspace: PathBuf
        /// Number of concurrent jobs.
        optional jobs: u32
        /// Path to log file. By default, logs go to stderr.
        optional --log-file path: PathBuf
        repeated -v, --verbose
        required -n, --number n: u32
        repeated --data value: OsString
        optional --emoji
    }
";

const REPEATED_POS: &str = "
    cmd RepeatedPos {
        required a: PathBuf
        optional b: u32
        optional c: OsString
        repeated rest: OsString
    }
";

const SUBCOMMANDS: &str = "
    cmd rust-analyzer {
        repeated -v, --verbose

        cmd server {
            optional --dir path:PathBuf
            default cmd launch {
                optional --log
            }
            cmd watch {
            }
        }

        cmd analysis-stats {
            required path: PathBuf
            optional --parallel
        }
    }
";

fn run(grammar: &str, input: &str) -> Result<Record, String> {
    let grammar = compile(grammar).unwrap();
    let args = input.split_ascii_whitespace().map(|a| a.as_bytes().to_vec()).collect::<Vec<_>>();
    from_vec(&grammar.cmd, args).map_err(|e| e.to_string())
}

fn named(name: &str, field: Field) -> Named {
    Named { name: name.to_string(), field }
}

fn level(state: u8, name: &str, flags: Vec<Named>, args: Vec<Named>) -> Level {
    Level { state, name: name.to_string(), flags, args }
}

fn path(s: &str) -> Value {
    Value::Path(s.as_bytes().to_vec())
}

fn os(s: &str) -> Value {
    Value::OsStr(s.as_bytes().to_vec())
}

fn failure(msg: &str) -> Result<Record, String> {
    Err(msg.to_string())
}

fn smoke_record(
    log_file: Option<Value>,
    verbose: usize,
    number: i128,
    data: Vec<Value>,
    emoji: bool,
) -> Result<Record, String> {
    Ok(Record {
        levels: vec![level(
            0,
            "rust-analyzer",
            vec![
                named("log-file", Field::Maybe(log_file)),
                named("verbose", Field::Count(verbose)),
                named("number", Field::One(Value::Int(number))),
                named("data", Field::Many(data)),
                named("emoji", Field::Switch(emoji)),
            ],
            vec![named("workspace", Field::One(path("."))), named("jobs", Field::Maybe(None))],
        )],
    })
}

#[test]
fn empty() {
    let res = run("cmd empty {}", "");
    assert_eq!(res, Ok(Record { levels: vec![level(0, "empty", vec![], vec![])] }));
}

#[test]
fn main_smoke() {
    assert_eq!(run(SMOKE, "-n 92 ."), smoke_record(None, 0, 92, vec![], false));
    assert_eq!(
        run(
            SMOKE,
            "-n 92 -v --verbose -v --data 0xDEAD --log-file /tmp/log.txt --data 0xBEEF ."
        ),
        smoke_record(Some(path("/tmp/log.txt")), 3, 92, vec![os("0xDEAD"), os("0xBEEF")], false)
    );
    assert_eq!(run(SMOKE, "-n 92 --werbose"), failure("Unknown flag: `--werbose`. Use `help` for more information"));
    assert_eq!(run(SMOKE, ""), failure("Flag is required: `--number`. Use `help` for more information"));
    assert_eq!(run(SMOKE, "."), failure("Flag is required: `--number`. Use `help` for more information"));
    assert_eq!(run(SMOKE, "-n"), failure("expected a value for `-n`"));
    assert_eq!(run(SMOKE, "-n 92"), failure("Flag is required: `workspace`. Use `help` for more information"));
    assert_eq!(
        run(SMOKE, "-n lol"),
        failure("can't parse `-n`, invalid digit found in string")
    );
    assert_eq!(run(SMOKE, "-n 1 -n 2 ."), failure("flag specified more than once: `--number`"));
    assert_eq!(run(SMOKE, "-n 1 . 92 lol"), failure("Unknown command: `lol`. Use `help` for more information"));
    assert_eq!(
        run(SMOKE, "-n 1 . --emoji --emoji"),
        failure("flag specified more than once: `--emoji`")
    );
}

#[test]
fn main_repeated_argument() {
    assert_eq!(
        run(REPEATED_POS, "a 11 c d e f"),
        Ok(Record {
            levels: vec![level(
                0,
                "RepeatedPos",
                vec![],
                vec![
                    named("a", Field::One(path("a"))),
                    named("b", Field::Maybe(Some(Value::Int(11)))),
                    named("c", Field::Maybe(Some(os("c")))),
                    named("rest", Field::Many(vec![os("d"), os("e"), os("f")])),
                ],
            )],
        })
    );
}

fn root_level(verbose: usize) -> Level {
    level(0, "rust-analyzer", vec![named("verbose", Field::Count(verbose))], vec![])
}

fn server_level(dir: Option<Value>) -> Level {
    level(1, "server", vec![named("dir", Field::Maybe(dir))], vec![])
}

fn launch_level(log: bool) -> Level {
    level(2, "launch", vec![named("log", Field::Switch(log))], vec![])
}

fn watch_level() -> Level {
    level(3, "watch", vec![], vec![])
}

#[test]
fn main_subcommands() {
    assert_eq!(
        run(SUBCOMMANDS, "server"),
        Ok(Record { levels: vec![root_level(0), server_level(None), launch_level(false)] })
    );
    assert_eq!(
        run(SUBCOMMANDS, "server --dir . --log"),
        Ok(Record {
            levels: vec![root_level(0), server_level(Some(path("."))), launch_level(true)]
        })
    );
    assert_eq!(
        run(SUBCOMMANDS, "server watch"),
        Ok(Record { levels: vec![root_level(0), server_level(None), watch_level()] })
    );
    assert_eq!(
        run(SUBCOMMANDS, "-v analysis-stats . --parallel"),
        Ok(Record {
            levels: vec![
                root_level(1),
                level(
                    4,
                    "analysis-stats",
                    vec![named("parallel", Field::Switch(true))],
                    vec![named("path", Field::One(path(".")))],
                ),
            ]
        })
    );
    assert_eq!(run(SUBCOMMANDS, ""), failure("A subcommand is required. Use `help` for more information"));
}

#[test]
fn subcommand_flag_inheritance() {
    assert_eq!(
        run(SUBCOMMANDS, "server watch --verbose --dir ."),
        Ok(Record { levels: vec![root_level(1), server_level(Some(path("."))), watch_level()] })
    );
    assert_eq!(
        run(SUBCOMMANDS, "analysis-stats --verbose --dir ."),
        failure("Unknown flag: `--dir`. Use `help` for more information")
    );
    assert_eq!(run(SUBCOMMANDS, "--dir . server"), failure("Unknown flag: `--dir`. Use `help` for more information"));
}

#[test]
fn edge_cases() {
    assert_eq!(
        run(SUBCOMMANDS, "server --dir --log"),
        Ok(Record {
            levels: vec![root_level(0), server_level(Some(path("--log"))), launch_level(false)]
        })
    );
    assert_eq!(
        run(SUBCOMMANDS, "server --dir -- --log"),
        Ok(Record {
            levels: vec![root_level(0), server_level(Some(path("--"))), launch_level(true)]
        })
    );
    assert_eq!(run(SUBCOMMANDS, "-- -v server"), failure("Unknown command: `-v`. Use `help` for more information"));
    assert_eq!(run(REPEATED_POS, "pos 1 prog -j"), failure("Unknown flag: `-j`. Use `help` for more information"));
    assert_eq!(
        run(REPEATED_POS, "pos 1 -- prog -j"),
        Ok(Record {
            levels: vec![level(
                0,
                "RepeatedPos",
                vec![],
                vec![
                    named("a", Field::One(path("pos"))),
                    named("b", Field::Maybe(Some(Value::Int(1)))),
                    named("c", Field::Maybe(Some(os("prog")))),
                    named("rest", Field::Many(vec![os("-j")])),
                ],
            )],
        })
    );
}
