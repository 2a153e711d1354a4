use scheme::native::values_equal;
use scheme::parser::parse;
use scheme::string_interner::StringInterner;
use scheme::value::Value;

fn parse_one(input: &str, interner: &mut StringInterner) -> Value {
    let mut items = parse(input, interner).unwrap();
    assert_eq!(items.len(), 1);
    items.pop().unwrap()
}

fn expect_same(input: &str, expected: Value) {
    let interner = &mut StringInterner::new();
    let got = parse_one(input, interner);
    assert!(
        values_equal(&got, &expected),
        "{} differs from {}",
        got.to_string(interner),
        expected.to_string(interner)
    );
}

fn expect_error(input: &str) {
    let interner = &mut StringInterner::new();
    assert!(parse(input, interner).is_err(), "expected an error for {:?}", input);
}

#[test]
fn list_() {
    expect_same("()", Value::empty_list());
}

#[test]
fn pair_() {
    let t = Value::new_bool(true);
    let f = Value::new_bool(false);
    let e = Value::empty_list();

    expect_same("(true . false)", Value::new_pair(t.clone(), f.clone()));
    expect_same("(true . (false . ()))", Value::new_pair(t, Value::new_pair(f.clone(), e.clone())));

    expect_error("(1 .)");
    expect_error("(. 2)");
    expect_error("(1 . 2 3)");
    expect_error("(1 . 2 . 3)");
    expect_error("(1 2 . 3)");
}

#[test]
fn string_() {
    fn check(s: &str, e: &str) {
        expect_same(&format!("\"{}\"", s), Value::new_string(e));
    }
    check("", "");
    check("abc", "abc");
    check("Hello, World!!", "Hello, World!!");
    check("\n", "\n");
    check("\\n", "\n");
    check("\t", "\t");
    check("\\t", "\t");
    check("\\\\", "\\");
    check("Hi there: \\\" \\\\ \\n \\t", "Hi there: \" \\ \n \t");
}

#[test]
fn parse_() {
    let interner = &mut StringInterner::new();
    let items = parse("1 1", interner).unwrap();
    assert_eq!(items.len(), 2);
}

/// The input does not read as the single integer `n`: whatever follows the
/// digits is not dropped.
fn expect_not_integer(input: &str, n: i64) {
    let interner = &mut StringInterner::new();
    match parse(input, interner) {
        Ok(items) => assert!(!(items.len() == 1 && items[0].get_integer() == Some(n)), "{:?} read as {}", input, n),
        Err(_) => {},
    }
}

fn expect_symbol(input: &str, name: &str) {
    let interner = &mut StringInterner::new();
    let got = parse_one(input, interner);
    assert_eq!(got.get_symbol(), Some(scheme::string_interner::symbol_id(name)));
    assert_eq!(got.to_string(interner), name);
}

#[test]
fn parser_bool() {
    expect_same("true", Value::new_bool(true));
    expect_same("false", Value::new_bool(false));
    expect_symbol("trude", "trude");
    expect_symbol("fale", "fale");
}

#[test]
fn parser_char() {
    for x in 33u8..127 {
        let input = format!("#\\{}", x as char);
        expect_same(&input, Value::new_char(x as char));
    }
    expect_error("#\\ab");
    expect_error("#\\");
}

#[test]
fn integer_() {
    expect_same("007", Value::new_integer(7));
    expect_same("-007", Value::new_integer(-7));
    expect_same("123456789", Value::new_integer(123456789));
    expect_same("-123456789", Value::new_integer(-123456789));
    expect_not_integer("123b456789", 123);
    expect_not_integer("123456789c", 123456789);
    expect_not_integer("00-7", 0);
    expect_not_integer("a123456789", 123456789);
    expect_not_integer("--7", -7);
}

#[test]
fn ident_() {
    expect_symbol("+", "+");
    expect_symbol("a1a", "a1a");
    expect_symbol("num->str", "num->str");
    expect_symbol("//", "//");
    expect_error("1a");
}
