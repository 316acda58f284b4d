use mybash::echo::Echo;
use mybash::grammar::{find_declaration, match_echo, match_value};
use mybash::number::{read_int, write_int};
use mybash::text::{scan, space, to_chars, Class};
use mybash::variables::{VarErr, VarValue, Variable};

fn chars(s: &str) -> Vec<char> {
    s.chars().collect()
}

fn piece(v: &Vec<char>, span: (usize, usize)) -> String {
    v[span.0..span.1].iter().collect()
}

#[test]
fn space_agrees_with_std_on_every_character() {
    for code in 0u32..=0x10ffff {
        if let Some(c) = char::from_u32(code) {
            assert_eq!(space(c), c.is_whitespace(), "U+{:04X}", code);
        }
    }
}

#[test]
fn classes_hold_what_the_grammar_says() {
    assert!(Class::Name.contains('='));
    assert!(Class::Name.contains('\''));
    assert!(!Class::Name.contains(':'));
    assert!(!Class::Name.contains(' '));
    assert!(Class::Value.contains(' '));
    assert!(Class::Value.contains(':'));
    assert!(!Class::Value.contains('\''));
    assert!(!Class::Value.contains('"'));
    assert!(!Class::Value.contains('\n'));
    assert!(Class::Value.contains('\r'));
}

#[test]
fn scan_stops_at_the_first_other_character() {
    let v = chars("   abc  ");
    assert_eq!(scan(&v, 0, Class::Space), 3);
    assert_eq!(scan(&v, 3, Class::Space), 3);
    assert_eq!(scan(&v, 3, Class::Name), 6);
    assert_eq!(scan(&v, 6, Class::Space), 8);
    assert_eq!(scan(&v, 8, Class::Space), 8);
}

#[test]
fn to_chars_keeps_every_character() {
    assert_eq!(to_chars("a\u{e9}\u{1f600}z"), vec!['a', '\u{e9}', '\u{1f600}', 'z']);
    assert_eq!(to_chars(""), Vec::<char>::new());
}

#[test]
fn integers_read_as_std_reads_them() {
    let inputs = [
        "0", "-0", "+0", "31", "-31", "+31", "0042", "", "-", "+", "--1", "+-1", "1 ", " 1",
        "1_000", "12a", "a12", "9223372036854775807", "9223372036854775808",
        "-9223372036854775808", "-9223372036854775809", "99999999999999999999999999999999999",
        "-99999999999999999999999999999999999", "\u{661}", "1.5", "0x10",
    ];
    for input in inputs {
        let v = chars(input);
        assert_eq!(read_int(&v, 0, v.len()), input.parse::<i64>().ok(), "input {:?}", input);
    }
}

#[test]
fn integers_read_from_a_part_of_the_text() {
    let v = chars("x = -17;");
    assert_eq!(read_int(&v, 4, 7), Some(-17));
    assert_eq!(read_int(&v, 5, 7), Some(17));
    assert_eq!(read_int(&v, 4, 8), None);
    assert_eq!(read_int(&v, 4, 4), None);
}

#[test]
fn integers_write_as_std_writes_them() {
    for n in [0, 1, -1, 9, 10, -10, 12345, -9876543210, i64::MAX, i64::MIN] {
        assert_eq!(write_int(n), n.to_string());
    }
}

#[test]
fn written_integers_read_back() {
    for n in [0, 7, -7, 100, i64::MAX, i64::MIN, i64::MIN + 1] {
        let v = chars(&write_int(n));
        assert_eq!(read_int(&v, 0, v.len()), Some(n));
    }
}

#[test]
fn value_follows_space_and_at_most_one_quote() {
    let v = chars("  'abc' ");
    assert_eq!(match_value(&v, 0), Some((3, 6)));
    let v = chars("abc def\"x");
    assert_eq!(match_value(&v, 0), Some((0, 7)));
    let v = chars("''");
    assert_eq!(match_value(&v, 0), None);
    let v = chars("");
    assert_eq!(match_value(&v, 0), None);
}

#[test]
fn white_space_is_the_value_where_nothing_else_can_be() {
    // quotes with nothing between them: the space before them is the value
    let v = chars("x: Str = ''");
    let d = find_declaration(&v).unwrap();
    assert_eq!(piece(&v, d.value), " ");
    // a line feed cannot be part of a value
    let v = chars(" \n'");
    assert_eq!(match_value(&v, 0), Some((0, 1)));
    let v = chars("\n\n");
    assert_eq!(match_value(&v, 0), None);
    let v = chars("  ");
    assert_eq!(match_value(&v, 0), Some((1, 2)));
}

#[test]
fn declaration_parts_are_found() {
    let v = chars("age: Int = 31");
    let d = find_declaration(&v).unwrap();
    assert_eq!((d.name, d.kind, d.value), ((0, 3), (5, 8), (11, 13)));
    let v = chars("age:Int=31");
    let d = find_declaration(&v).unwrap();
    assert_eq!((piece(&v, d.name), piece(&v, d.kind), piece(&v, d.value)),
        ("age".to_string(), "Int".to_string(), "31".to_string()));
    let v = chars("age \t:\t Int \t=\t 31");
    let d = find_declaration(&v).unwrap();
    assert_eq!((piece(&v, d.name), piece(&v, d.kind), piece(&v, d.value)),
        ("age".to_string(), "Int".to_string(), "31".to_string()));
}

#[test]
fn leftmost_name_and_longest_type_win() {
    // the first name that a colon follows
    let v = chars("let a b: Int = 5");
    let d = find_declaration(&v).unwrap();
    assert_eq!(piece(&v, d.name), "b");
    // a colon ends a type: the declaration begins at the second name
    let v = chars("a:b:Int=5");
    let d = find_declaration(&v).unwrap();
    assert_eq!((piece(&v, d.name), piece(&v, d.kind), piece(&v, d.value)),
        ("b".to_string(), "Int".to_string(), "5".to_string()));
    // the type takes every equals sign but the last that a value follows
    let v = chars("a:b=c=d");
    let d = find_declaration(&v).unwrap();
    assert_eq!((piece(&v, d.name), piece(&v, d.kind), piece(&v, d.value)),
        ("a".to_string(), "b=c".to_string(), "d".to_string()));
    let v = chars("a:Int==5");
    let d = find_declaration(&v).unwrap();
    assert_eq!(piece(&v, d.kind), "Int=");
    let v = chars("a:Int=5=");
    let d = find_declaration(&v).unwrap();
    assert_eq!((piece(&v, d.kind), piece(&v, d.value)), ("Int".to_string(), "5=".to_string()));
}

#[test]
fn lines_that_hold_no_declaration() {
    for line in ["", "echo name", "a: Int", "a = 5", ": Int = 5", "a: = 5", "a: Int =", "a:Int=''",
        "a : Int =\n", "if x == 5"] {
        assert!(!Variable::is_var(line), "line {:?}", line);
        match line.parse::<Variable>() {
            Err(VarErr::InvalidVarDeclaration(text)) => assert_eq!(text, line),
            other => panic!("unexpected: {:?}", other),
        }
    }
}

#[test]
fn declaration_values_are_taken_as_written() {
    let var = "greeting: Str = hello world".parse::<Variable>().unwrap();
    assert_eq!(var, Variable::new("greeting", VarValue::Str("hello world".into())));
    let var = "greeting: String = \"it's\"".parse::<Variable>().unwrap();
    assert_eq!(var, Variable::new("greeting", VarValue::Str("it".into())));
    let var = "n: Str = 12".parse::<Variable>().unwrap();
    assert_eq!(var, Variable::new("n", VarValue::Str("12".into())));
    let var = "  n: Int = -12".parse::<Variable>().unwrap();
    assert_eq!(var, Variable::new("n", VarValue::Int(-12)));
}

#[test]
fn declaration_errors_name_the_offending_part() {
    match "n: Int = 12 ".parse::<Variable>() {
        Err(VarErr::InvalidInt(value)) => assert_eq!(value, "12 "),
        other => panic!("unexpected: {:?}", other),
    }
    match "n: Int = 'abc'".parse::<Variable>() {
        Err(VarErr::InvalidInt(value)) => assert_eq!(value, "abc"),
        other => panic!("unexpected: {:?}", other),
    }
    match "n: int = 12".parse::<Variable>() {
        Err(VarErr::InvalidDataType(kind)) => assert_eq!(kind, "int"),
        other => panic!("unexpected: {:?}", other),
    }
    match "n: Strin = a".parse::<Variable>() {
        Err(VarErr::InvalidDataType(kind)) => assert_eq!(kind, "Strin"),
        other => panic!("unexpected: {:?}", other),
    }
    match "n: Strings = a".parse::<Variable>() {
        Err(VarErr::InvalidDataType(kind)) => assert_eq!(kind, "Strings"),
        other => panic!("unexpected: {:?}", other),
    }
}

#[test]
fn echo_statements_are_recognised() {
    for line in ["echo x", "echo\tx", "echo  'x'", "echo ''", "echo \"", "echo x:Int=1"] {
        assert!(Echo::is_echo(line), "line {:?}", line);
    }
    for line in ["", "echo", "echo ", "echo   ", "echox", "Echo x", " echo x", "ech o", "print x"] {
        assert!(!Echo::is_echo(line), "line {:?}", line);
    }
}

#[test]
fn echo_captures_up_to_a_quote_or_a_line_feed() {
    let v = chars("echo hello world");
    assert_eq!(match_echo(&v), Some((5, 16)));
    assert_eq!("echo it's".parse::<Echo>().unwrap(), Echo("it".into()));
    assert_eq!("echo 'a' b".parse::<Echo>().unwrap(), Echo("a".into()));
    assert_eq!("echo \u{3000}'\u{e9}t\u{e9}'".parse::<Echo>().unwrap(), Echo("\u{e9}t\u{e9}".into()));
    assert!("echo ''".parse::<Echo>().is_err());
    assert!("echo '".parse::<Echo>().is_err());
    assert!("echo".parse::<Echo>().is_err());
    assert!("echo   ".parse::<Echo>().is_err());
}

#[test]
fn values_have_a_canonical_text() {
    assert_eq!(VarValue::Int(-5).text(), "-5");
    assert_eq!(VarValue::Str("-5 ".into()).text(), "-5 ");
    assert_eq!(VarValue::Str("a".into()).copy(), VarValue::Str("a".into()));
    assert_eq!(VarValue::Int(3).copy(), VarValue::Int(3));
}
