use scheme::completion::complete;
use scheme::error_printing::{close_params, create_error_message, print_line_with_pos};
use scheme::interpreter::Interpreter;
use scheme::lexer::{parse_integer, unescape_string, Error, Token, Tokenizer};
use scheme::parser::parse;
use scheme::printer::escape_char;
use scheme::scope::Scope;
use scheme::string_interner::{symbol_id, StringInterner};
use scheme::value::Value;

#[test]
fn interner_round_trip() {
    let mut interner = StringInterner::new();
    let a = interner.intern("alpha");
    let b = interner.intern("beta");
    assert_ne!(a, b);
    assert_eq!(a, symbol_id("alpha"));
    assert_eq!(interner.intern("alpha"), a);
    assert_eq!(interner.lookup(a), Some("alpha"));
    assert_eq!(interner.lookup(b), Some("beta"));
    assert_eq!(interner.lookup(a ^ 1), None);
}

#[test]
fn unknown_symbol_prints_its_id() {
    let interner = StringInterner::new();
    assert_eq!(Value::new_symbol(42).to_string(&interner), "[SYMBOL: 42]");
}

#[test]
fn literals_print_back_as_read() {
    for text in ["42", "-7", "0", "true", "false", r"#\a", r"#\\n", r"#\\s", r#""a\nb\"c\\d""#, "(1 2 3)", "(1 . 2)", "()", "sym"] {
        let interner = &mut StringInterner::new();
        let items = parse(text, interner).unwrap();
        assert_eq!(items.len(), 1);
        assert_eq!(items[0].to_string(interner), text);
    }
}

#[test]
fn integer_limits() {
    assert_eq!(parse_integer("9223372036854775807"), Some(i64::MAX));
    assert_eq!(parse_integer("-9223372036854775808"), Some(i64::MIN));
    assert_eq!(parse_integer("9223372036854775808"), None);
    assert_eq!(parse_integer("-"), None);
    assert_eq!(parse_integer(""), None);
    assert_eq!(parse_integer("12a"), None);
    let interner = &mut StringInterner::new();
    assert!(matches!(parse("99999999999999999999", interner), Err(Error::InvalidToken(0, 20))));
}

#[test]
fn escapes() {
    assert_eq!(escape_char('\n'), Some('n'));
    assert_eq!(escape_char(' '), Some('s'));
    assert_eq!(escape_char('\t'), Some('t'));
    assert_eq!(escape_char('\\'), Some('\\'));
    assert_eq!(escape_char('x'), None);
    assert_eq!(unescape_string(r#"a\nb\tc\"d\se\\f\qg"#), "a\nb\tc\"d e\\f\\qg");
}

#[test]
fn tokenizer_spans() {
    let mut t = Tokenizer::new("(+ 12 \"x\")");
    let mut kinds = Vec::new();
    while let Some(tok) = t.next_token() {
        let (s, tok, e) = tok.unwrap();
        kinds.push((s, format!("{:?}", tok), e));
    }
    assert_eq!(
        kinds,
        vec![
            (0, "OpenParen".to_string(), 1),
            (1, "Symbol(\"+\")".to_string(), 2),
            (2, "WhiteSpace".to_string(), 3),
            (3, "Integer(12)".to_string(), 5),
            (5, "WhiteSpace".to_string(), 6),
            (6, "String(\"x\")".to_string(), 9),
            (9, "ClosingParen".to_string(), 10),
        ]
    );
    let mut t = Tokenizer::new("define");
    assert!(matches!(t.next_token(), Some(Ok((0, Token::Define, 6)))));
    assert!(t.next_token().is_none());
}

#[test]
fn error_variants() {
    let interner = &mut StringInterner::new();
    assert_eq!(parse(r#""a\qb""#, interner).err(), Some(Error::InvalidEscape(2, 4)));
    assert_eq!(parse(r"#\", interner).err(), Some(Error::UnexpectedEofChar(2)));
    assert_eq!(parse("\"abc", interner).err(), Some(Error::UnexpectedEofString(4)));
    assert_eq!(parse("\"é\"", interner).err(), Some(Error::NonAsciiChar(1)));
    assert_eq!(parse("#\\ab", interner).err(), Some(Error::InvalidToken(3, 3)));
    assert_eq!(parse(")", interner).err(), Some(Error::UnrecognizedToken(0, 1)));
    assert_eq!(parse("(1 2", interner).err(), Some(Error::UnexpectedEof));
    assert_eq!(parse("(recur)", interner).err(), Some(Error::RecurInNonTailPosition));
}

#[test]
fn error_rendering() {
    assert_eq!(print_line_with_pos("ab\ncd(e\nf", 5, 6), "1 | cd(e\n  |   ^ ");
    assert_eq!(print_line_with_pos("abc", 1, 1), "0 | abc\n  |  ^ ");
    let msg = create_error_message("(+ 1 (2", &Error::UnexpectedEof);
    assert_eq!(msg, "0 | (+ 1 (2\n  |        ^ error: unexpected EOF\nhint: unclosed parens, maybe you're missing '))'?");
    let msg = create_error_message("1a", &Error::InvalidToken(1, 1));
    assert_eq!(msg, "0 | 1a\n  |  ^ error: invalid token");
    assert_eq!(create_error_message("", &Error::RecurInNonTailPosition), "error: recur in non-tail position");
}

#[test]
fn closing_parens_and_completion() {
    assert_eq!(close_params("((a (b"), ")))");
    assert_eq!(close_params("(a))"), "");
    let idents = vec!["define".to_string(), "defun".to_string(), "car".to_string()];
    assert_eq!(complete(&idents, "def", "(def"), vec!["define".to_string(), "defun".to_string(), ")".to_string()]);
    assert_eq!(complete(&idents, "", "(("), vec!["))".to_string(), "define".to_string(), "defun".to_string(), "car".to_string()]);
}

#[test]
fn child_frames_do_not_touch_parents() {
    let mut scope = Scope::new();
    let child = scope.new_child(0);
    scope.add_symbol(child, 7, Value::new_integer(1));
    assert!(scope.lookup_symbol(0, 7).is_none());
    assert_eq!(scope.lookup_symbol(child, 7).and_then(|v| v.get_integer()), Some(1));
    scope.add_symbol(0, 8, Value::new_integer(2));
    assert_eq!(scope.lookup_symbol(child, 8).and_then(|v| v.get_integer()), Some(2));
    scope.add_symbol(child, 8, Value::new_integer(3));
    assert_eq!(scope.lookup_symbol(0, 8).and_then(|v| v.get_integer()), Some(2));
    assert_eq!(scope.lookup_symbol(child, 8).and_then(|v| v.get_integer()), Some(3));
    assert_eq!(scope.symbol_ids(child), vec![7, 8, 8]);
}

#[test]
fn symbol_space_lists_bindings() {
    let mut interpreter = Interpreter::new();
    let items = parse("(symbol-space)", &mut interpreter.interner).unwrap();
    let v = interpreter.evaluate(&items[0]);
    let names = v.get_list().unwrap();
    assert_eq!(names.len(), 43);
    let text = v.to_string(&interpreter.interner);
    assert!(text.contains("car") && text.contains("symbol-space"));
}

#[test]
fn closures_print_their_source() {
    let mut interpreter = Interpreter::new();
    let items = parse("(lambda add (a b) (+ a b))", &mut interpreter.interner).unwrap();
    let v = interpreter.evaluate(&items[0]);
    assert_eq!(v.to_string(&interpreter.interner), "[PROC: (add (a b) (+ a b))]");
    let items = parse("(recur 1 2)", &mut interpreter.interner);
    assert!(items.is_err());
    let plus = parse("+", &mut interpreter.interner).unwrap();
    assert_eq!(interpreter.evaluate(&plus[0]).to_string(&interpreter.interner), "[NATIVE_PROC: +]");
}
