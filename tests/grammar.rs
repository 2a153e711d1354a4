use scheme::lexer::Error;
use scheme::parser::parse;
use scheme::string_interner::StringInterner;
use scheme::value::Value;

const EOF: usize = usize::MAX;

fn error_position(err: &Error) -> usize {
    match err {
        Error::InvalidToken(_, end) => *end,
        Error::UnexpectedEofString(_) => EOF,
        Error::UnexpectedEofChar(_) => EOF,
        Error::NonAsciiChar(x) => *x,
        Error::UnrecognizedToken(pos, _) => *pos,
        Error::UnexpectedEof => EOF,
        x => panic!("got: {:?}", x),
    }
}

fn expect_error_at(input: &str, position: usize) {
    let interner = &mut StringInterner::new();
    match parse(input, interner) {
        Err(ref err) => {
            if error_position(err) != position {
                panic!("for input: {:?}, got Err({:?}), expected pos: {}", input, err, position);
            }
        }
        Ok(v) => panic!("expected error for string: '{}', got: {}", input, v[0].to_string(interner)),
    }
}

fn expect_error(input: &str) {
    let interner = &mut StringInterner::new();
    match parse(input, interner) {
        Err(_) => {}
        Ok(v) => panic!("expected error for string: '{}', got: {}", input, v[0].to_string(interner)),
    }
}

fn expect_ok(interner: &mut StringInterner, input: &str, expected: Value) {
    let expected = expected.to_string(interner);
    match parse(input, interner) {
        Ok(v) => {
            assert!(v.len() == 1);
            let res = v[0].to_string(interner);
            if res != expected {
                panic!("parser ok, but input: {:?} got: Ok({:?}), expected: {}", input, res, expected);
            }
        }
        Err(e) => panic!("input: {:?} got: Err({:?}), expected: {}", input, e, expected),
    }
}

fn sym(interner: &mut StringInterner, s: &str) -> Value {
    Value::new_symbol(interner.intern(s))
}

fn quoted(v: Value, interner: &mut StringInterner) -> Value {
    let quote_id = interner.intern("quote");
    Value::new_list(&[Value::new_symbol(quote_id), v])
}

#[test]
fn tests_bool() {
    let interner = &mut StringInterner::new();
    expect_ok(interner, "true", Value::new_bool(true));
    expect_ok(interner, "false", Value::new_bool(false));
    let trude = sym(interner, "trude");
    expect_ok(interner, "trude", trude);
    let fale = sym(interner, "fale");
    expect_ok(interner, "fale", fale);
}

#[test]
fn tests_char() {
    let interner = &mut StringInterner::new();
    let mut input: String = "#\\".into();
    let printable_ascii = ('!' as u32)..('~' as u32) + 1;
    for x in printable_ascii {
        let c = char::from_u32(x).expect(&format!("tried to create invalid char with: 0x{:X}", x));
        input.push(c);
        expect_ok(interner, &input, Value::new_char(c));
        input.pop();
    }

    let invalid_ascii = (0..('!' as u32)).chain(std::iter::once(127));
    for x in invalid_ascii {
        let c = char::from_u32(x).expect(&format!("tried to create invalid char with: 0x{:X}", x));
        input.push(c);
        if c != '\n' && c != '\t' && c != ' ' {
            expect_error(&input);
        }
        input.pop();
    }

    expect_ok(interner, r"#\\s", Value::new_char(' '));
    expect_ok(interner, r"#\\t", Value::new_char('\t'));
    expect_ok(interner, r"#\\n", Value::new_char('\n'));
    expect_ok(interner, r"#\\", Value::new_char('\\'));

    expect_error_at(r"#\", EOF);
    expect_error_at("#\\\0", 2);
}

#[test]
fn integer() {
    let interner = &mut StringInterner::new();
    expect_ok(interner, "007", Value::new_integer(7));
    expect_ok(interner, "-007", Value::new_integer(-7));
    expect_ok(interner, "123456789", Value::new_integer(123456789));
    expect_ok(interner, "-123456789", Value::new_integer(-123456789));

    expect_error_at("123b456789", 3);
    expect_error_at("123456789c", 9);
    expect_error_at("00-7", 2);
    let a = sym(interner, "a123456789");
    expect_ok(interner, "a123456789", a);
    let m = sym(interner, "--7");
    expect_ok(interner, "--7", m);
}

#[test]
fn symbol() {
    let interner = &mut StringInterner::new();
    for s in ["+", "-", "#", "a1a", "num->str", "//"] {
        let v = sym(interner, s);
        expect_ok(interner, s, v);
    }
    // the lexer reads an integer first, so the error is at 1
    expect_error_at("1a", 1);
}

#[test]
fn string() {
    fn check(s: &str, e: &str) {
        let s = format!("\"{}\"", s);
        let interner = &mut StringInterner::new();
        expect_ok(interner, &s, Value::new_string(e));
    }
    check("", "");
    check("abc", "abc");
    check("Hello, World!!", "Hello, World!!");
    check("\n", "\n");
    check(r"\n", "\n");
    check("\t", "\t");
    check(r"\t", "\t");
    check(r"\\\\", "\\\\");
    check(r#"Hi there: \" \\ \n \t"#, "Hi there: \" \\ \n \t");

    expect_error_at("\"", EOF);
    expect_error_at("\"❤\"", 1);
}

#[test]
fn list() {
    let interner = &mut StringInterner::new();
    expect_ok(interner, "()", Value::empty_list());
    expect_ok(
        interner,
        r#"(1 "2" 3 4)"#,
        Value::new_list(&vec![Value::new_integer(1), Value::new_string("2"), Value::new_integer(3), Value::new_integer(4)]),
    );
    expect_ok(interner, "(() ())", Value::new_list(&vec![Value::empty_list(), Value::empty_list()]));

    expect_error("(( ())");
}

#[test]
fn quote() {
    let interner = &mut StringInterner::new();
    let v = quoted(Value::empty_list(), interner);
    expect_ok(interner, "'()", v);
    let v = quoted(Value::new_integer(1), interner);
    expect_ok(interner, "'1", v);
    let v = quoted(Value::new_bool(true), interner);
    expect_ok(interner, "'true", v);
    let v = quoted(Value::new_string("2"), interner);
    expect_ok(interner, r#"'"2""#, v);
    let v = quoted(Value::new_char('a'), interner);
    expect_ok(interner, "'#\\a", v);
    let s = sym(interner, "sym");
    let v = quoted(s, interner);
    expect_ok(interner, "'sym", v);
    let v = quoted(Value::new_list(&[Value::new_integer(1), Value::new_integer(2)]), interner);
    expect_ok(interner, "'(1 2)", v);

    // quoted lists parse even where they hold malformed special forms
    let special_forms = &["define", "quote", "if", "lambda", "let", "loop", "recur", "begin"];
    for &special in special_forms {
        let special_symbol = sym(interner, special);
        let v = quoted(Value::new_list(&[special_symbol.clone()]), interner);
        expect_ok(interner, &format!("'({})", special), v.clone());
        expect_ok(interner, &format!("(quote ({}))", special), v);
        let v = quoted(Value::new_list(&[Value::new_list(&[special_symbol.clone()])]), interner);
        expect_ok(interner, &format!("'(({}))", special), v.clone());
        expect_ok(interner, &format!("(quote (({})))", special), v);
        let v = quoted(
            Value::new_list(&[Value::new_integer(1), Value::new_list(&[special_symbol.clone()])]),
            interner,
        );
        expect_ok(interner, &format!("'(1 ({}))", special), v.clone());
        expect_ok(interner, &format!("(quote (1 ({})))", special), v);
    }
}

#[test]
fn recur() {
    let interner = &mut StringInterner::new();
    let r = sym(interner, "recur");
    expect_ok(interner, "recur", r.clone());
    let q = sym(interner, "quote");
    expect_ok(interner, "'(recur)", Value::new_list(&[q.clone(), Value::new_list(&[r.clone()])]));
    expect_ok(interner, "'recur", Value::new_list(&[q, r]));
}

#[test]
fn tail_calls() {
    let interner = &mut StringInterner::new();

    // top level
    expect_error("(recur)");

    // begin
    expect_error("(begin (recur))");
    expect_error("(begin bla (recur))");

    // if
    expect_error("(if true (recur) bla)");
    expect_error("(if true bla (recur))");
    expect_error("(if true (recur) (recur))");

    // let
    expect_error("(let () (recur))");
    expect_error("(let () bla (recur))");

    let lp = sym(interner, "loop");
    let rc = sym(interner, "recur");
    let bla = sym(interner, "bla");
    let lm = sym(interner, "lambda");

    // loop
    expect_ok(interner, "(loop () (recur))", Value::new_list(&[lp.clone(), Value::empty_list(), Value::new_list(&[rc.clone()])]));
    expect_ok(
        interner,
        "(loop () bla (recur))",
        Value::new_list(&[lp.clone(), Value::empty_list(), bla.clone(), Value::new_list(&[rc.clone()])]),
    );
    expect_error("(loop () (recur) bla)");

    // lambda
    expect_ok(interner, "(lambda () (recur))", Value::new_list(&[lm.clone(), Value::empty_list(), Value::new_list(&[rc.clone()])]));
    expect_ok(
        interner,
        "(lambda () bla (recur))",
        Value::new_list(&[lm.clone(), Value::empty_list(), bla.clone(), Value::new_list(&[rc.clone()])]),
    );
    expect_error("(lambda () (recur) bla)");

    // forms that take no tail call even where they stand in one
    let no_tail_calls = &["(begin (recur) bla)", "(define a (recur))", "(let () (recur) bla)"];
    for x in no_tail_calls {
        let code = format!("(loop () {})", x);
        expect_error(&code);
    }
}

#[test]
fn everything_together() {
    let interner = &mut StringInterner::new();
    let string = r#"("hi" my "NaMe" #\i #\s recur -42 # #\\n)"#;
    let parsed = parse(string, interner).unwrap();
    assert!(parsed.len() == 1);
    assert_eq!(parsed[0].to_string(interner), r#"("hi" my "NaMe" #\i #\s recur -42 # #\\n)"#);
}
