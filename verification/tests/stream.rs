use xflags::rt::Parser;
use xflags::value::{int_text, parse_int, parse_scalar, IntError, Value};
use xflags::Error;

fn raw(items: &[&str]) -> Vec<Vec<u8>> {
    items.iter().map(|a| a.as_bytes().to_vec()).collect()
}

fn drain(p: &mut Parser) -> Vec<Result<String, Vec<u8>>> {
    let mut out = Vec::new();
    while let Some(item) = p.pop_flag() {
        out.push(item);
    }
    out
}

#[test]
fn error_new_carries_the_message() {
    let e = Error::new("boom");
    assert_eq!(e.to_string(), "boom");
    assert!(!e.is_help());
    let h = Error::help_text("usage");
    assert_eq!(h.msg, "usage");
    assert!(h.is_help());
}

#[test]
fn pop_flag_classifies_by_leading_dash() {
    let mut p = Parser::new(raw(&["-v", "file", "--long", "-"]));
    assert_eq!(
        drain(&mut p),
        vec![
            Ok("-v".to_string()),
            Err(b"file".to_vec()),
            Ok("--long".to_string()),
            Ok("-".to_string()),
        ]
    );
    assert!(p.is_empty());
}

#[test]
fn double_dash_makes_the_rest_positional() {
    let mut p = Parser::new(raw(&["-a", "--", "-b", "--", "c"]));
    assert_eq!(
        drain(&mut p),
        vec![Ok("-a".to_string()), Err(b"-b".to_vec()), Err(b"--".to_vec()), Err(b"c".to_vec())]
    );
    assert!(p.after_double_dash);
}

#[test]
fn double_dash_at_the_end_hands_out_nothing() {
    let mut p = Parser::new(raw(&["--"]));
    assert_eq!(p.pop_flag(), None);
    assert!(p.after_double_dash);
    assert!(p.is_empty());
}

#[test]
fn token_that_is_not_text_is_a_positional() {
    let bad = vec![b'-', 0xff, 0xfe];
    let mut p = Parser::new(vec![bad.clone()]);
    assert_eq!(p.pop_flag(), Some(Err(bad)));
}

#[test]
fn push_back_hands_the_token_out_again() {
    let mut p = Parser::new(raw(&["--flag", "pos"]));
    let first = p.pop_flag().unwrap();
    assert_eq!(first, Ok("--flag".to_string()));
    p.push_back(first);
    assert_eq!(p.pop_flag(), Some(Ok("--flag".to_string())));
    let second = p.pop_flag().unwrap();
    assert_eq!(second, Err(b"pos".to_vec()));
    p.push_back(second);
    assert_eq!(p.next(), Some(b"pos".to_vec()));
    assert_eq!(p.next(), None);
}

#[test]
fn peek_flag_leaves_the_stream_alone() {
    let mut p = Parser::new(raw(&["-x", "--", "-y"]));
    assert_eq!(p.peek_flag(), Some("-x".to_string()));
    assert_eq!(p.pop_flag(), Some(Ok("-x".to_string())));
    assert_eq!(p.peek_flag(), None);
    assert_eq!(p.pop_flag(), Some(Err(b"-y".to_vec())));
    assert_eq!(p.peek_flag(), None);
}

#[test]
fn next_value_takes_whatever_comes() {
    let mut p = Parser::new(raw(&["--looks-like-a-flag"]));
    assert_eq!(p.next_value("--dir").map_err(|e| e.to_string()), Ok(b"--looks-like-a-flag".to_vec()));
    assert_eq!(
        p.next_value("--dir").map_err(|e| e.to_string()),
        Err("expected a value for `--dir`".to_string())
    );
}

#[test]
fn value_from_str_reads_by_type_name() {
    let p = Parser::new(Vec::new());
    assert_eq!(p.value_from_str("-n", "u32", b"92".to_vec()).map_err(|e| e.to_string()), Ok(Value::Int(92)));
    assert_eq!(
        p.value_from_str("-n", "u32", b"lol".to_vec()).map_err(|e| e.to_string()),
        Err("can't parse `-n`, invalid digit found in string".to_string())
    );
    assert_eq!(
        p.value_from_str("-n", "u8", b"256".to_vec()).map_err(|e| e.to_string()),
        Err("can't parse `-n`, number too large to fit in target type".to_string())
    );
    assert_eq!(
        p.value_from_str("name", "String", "h\u{e9}".as_bytes().to_vec()).map_err(|e| e.to_string()),
        Ok(Value::Text("h\u{e9}".to_string()))
    );
    assert_eq!(
        p.value_from_str("-n", "u32", vec![0xff]).map_err(|e| e.to_string()),
        Err("can't parse `-n`, invalid utf8: \"\u{fffd}\"".to_string())
    );
}

#[test]
fn next_value_from_str_takes_and_reads() {
    let mut p = Parser::new(raw(&["-7", "x"]));
    assert_eq!(p.next_value_from_str("--level", "i8").map_err(|e| e.to_string()), Ok(Value::Int(-7)));
    assert_eq!(
        p.next_value_from_str("--level", "i8").map_err(|e| e.to_string()),
        Err("can't parse `--level`, invalid digit found in string".to_string())
    );
    assert_eq!(
        p.next_value_from_str("--level", "i8").map_err(|e| e.to_string()),
        Err("expected a value for `--level`".to_string())
    );
}

#[test]
fn value_text_decodes_or_fails() {
    let p = Parser::new(Vec::new());
    assert_eq!(p.value_text("x", &b"abc".to_vec()).map_err(|e| e.to_string()), Ok("abc".to_string()));
    assert_eq!(
        p.value_text("x", &vec![b'a', 0x80]).map_err(|e| e.to_string()),
        Err("can't parse `x`, invalid utf8: \"a\u{fffd}\"".to_string())
    );
}

#[test]
fn optional_folds_none_one_many() {
    let p = Parser::new(Vec::new());
    assert_eq!(p.optional::<u8>("--x", vec![]).map_err(|e| e.to_string()), Ok(None));
    assert_eq!(p.optional("--x", vec![7u8]).map_err(|e| e.to_string()), Ok(Some(7)));
    assert_eq!(
        p.optional("--x", vec![7u8, 8]).map_err(|e| e.to_string()),
        Err("flag specified more than once: `--x`".to_string())
    );
}

#[test]
fn required_folds_none_one_many() {
    let p = Parser::new(Vec::new());
    assert_eq!(
        p.required::<u8>("--x", vec![]).map_err(|e| e.to_string()),
        Err("Flag is required: `--x`. Use `help` for more information".to_string())
    );
    assert_eq!(p.required("--x", vec![7u8]).map_err(|e| e.to_string()), Ok(7));
    assert_eq!(
        p.required("--x", vec![1u8, 2]).map_err(|e| e.to_string()),
        Err("flag specified more than once: `--x`".to_string())
    );
}

#[test]
fn error_constructors_have_stable_messages() {
    let p = Parser::new(Vec::new());
    assert_eq!(p.unexpected_flag("--nope").to_string(), "Unknown flag: `--nope`. Use `help` for more information");
    assert_eq!(p.unexpected_arg(b"what".to_vec()).to_string(), "Unknown command: `what`. Use `help` for more information");
    assert_eq!(p.unexpected_arg(vec![b'a', 0xff]).to_string(), "Unknown command: `a\u{fffd}`. Use `help` for more information");
    assert_eq!(p.subcommand_required().to_string(), "A subcommand is required. Use `help` for more information");
    assert!(!p.subcommand_required().is_help());
    let h = p.help("Usage: x");
    assert_eq!(h.to_string(), "Usage: x");
    assert!(h.is_help());
    assert_eq!(p.subcommand(Some(3u8)).map_err(|e| e.to_string()), Ok(3));
    assert_eq!(
        p.subcommand::<u8>(None).map_err(|e| e.to_string()),
        Err("A subcommand is required. Use `help` for more information".to_string())
    );
}

#[test]
fn parse_int_follows_the_rules_of_whole_numbers() {
    assert_eq!(parse_int("0", false, 0, 255), Ok(0));
    assert_eq!(parse_int("+5", false, 0, 255), Ok(5));
    assert_eq!(parse_int("255", false, 0, 255), Ok(255));
    assert_eq!(parse_int("256", false, 0, 255), Err(IntError::TooLarge));
    assert_eq!(parse_int("", false, 0, 255), Err(IntError::Empty));
    assert_eq!(parse_int("+", false, 0, 255), Err(IntError::InvalidDigit));
    assert_eq!(parse_int("-", true, -128, 127), Err(IntError::InvalidDigit));
    assert_eq!(parse_int("-5", false, 0, 255), Err(IntError::InvalidDigit));
    assert_eq!(parse_int("-128", true, -128, 127), Ok(-128));
    assert_eq!(parse_int("-129", true, -128, 127), Err(IntError::TooSmall));
    assert_eq!(parse_int("12a", false, 0, 255), Err(IntError::InvalidDigit));
    assert_eq!(parse_int("999x", false, 0, 255), Err(IntError::TooLarge));
    assert_eq!(parse_int("007", false, 0, 255), Ok(7));
    assert_eq!(
        parse_int("18446744073709551615", false, 0, 0xffff_ffff_ffff_ffff),
        Ok(18446744073709551615)
    );
}

#[test]
fn parse_scalar_knows_numbers_truth_values_and_text() {
    assert_eq!(parse_scalar("u16", "65535"), Ok(Value::Int(65535)));
    assert_eq!(
        parse_scalar("u16", "65536"),
        Err("number too large to fit in target type".to_string())
    );
    assert_eq!(parse_scalar("i64", "-9223372036854775808"), Ok(Value::Int(-9223372036854775808)));
    assert_eq!(
        parse_scalar("i64", "-9223372036854775809"),
        Err("number too small to fit in target type".to_string())
    );
    assert_eq!(parse_scalar("usize", ""), Err("cannot parse integer from empty string".to_string()));
    assert_eq!(parse_scalar("bool", "true"), Ok(Value::Bool(true)));
    assert_eq!(parse_scalar("bool", "false"), Ok(Value::Bool(false)));
    assert_eq!(
        parse_scalar("bool", "yes"),
        Err("provided string was not `true` or `false`".to_string())
    );
    assert_eq!(parse_scalar("String", "12"), Ok(Value::Text("12".to_string())));
    assert_eq!(parse_scalar("Level", "high"), Ok(Value::Text("high".to_string())));
}

#[test]
fn value_copy_is_equal() {
    let v = Value::Path(b"x/y".to_vec());
    assert_eq!(v.copy(), v);
    assert_eq!(Value::Text("t".to_string()).copy(), Value::Text("t".to_string()));
    assert_eq!(Value::Int(-3).copy(), Value::Int(-3));
}

#[test]
fn int_text_writes_decimal() {
    assert_eq!(int_text(0), "0");
    assert_eq!(int_text(7), "7");
    assert_eq!(int_text(10), "10");
    assert_eq!(int_text(-1), "-1");
    assert_eq!(int_text(1234567890), "1234567890");
    assert_eq!(int_text(i128::MIN), "-170141183460469231731687303715884105728");
    assert_eq!(int_text(i128::MAX), "170141183460469231731687303715884105727");
}

#[test]
fn rendered_value_reads_back_as_itself() {
    let p = Parser::new(Vec::new());
    let cases: Vec<(&str, &[u8])> = vec![
        ("u8", b"+007"),
        ("i64", b"-9223372036854775808"),
        ("u64", b"18446744073709551615"),
        ("bool", b"false"),
        ("bool", b"true"),
        ("String", "h\u{e9}llo".as_bytes()),
        ("Custom", b"-x"),
    ];
    for (ty, token) in cases {
        let v = p.value_from_str("x", ty, token.to_vec()).unwrap();
        let again = p.value_from_str("x", ty, v.render()).unwrap();
        assert_eq!(again, v);
    }
    assert_eq!(Value::Int(7).render(), b"7".to_vec());
    assert_eq!(Value::Int(-40).render(), b"-40".to_vec());
    assert_eq!(Value::Bool(true).render(), b"true".to_vec());
    assert_eq!(Value::Path(vec![0xff, b'a']).render(), vec![0xff, b'a']);
    assert_eq!(Value::OsStr(b"o".to_vec()).render(), b"o".to_vec());
    assert_eq!(Value::Text("t".to_string()).render(), b"t".to_vec());
    assert_eq!(Value::Unit.render(), Vec::<u8>::new());
}
