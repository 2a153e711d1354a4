use scheme::interpreter::Interpreter;
use scheme::lexer::Error;
use scheme::parser::parse;
use scheme::value::Value;

/// Parses `source` and evaluates each of its items in turn; the last value.
fn run(interpreter: &mut Interpreter, source: &str) -> Value {
    let items = parse(source, &mut interpreter.interner).unwrap();
    let mut result = Value::empty_list();
    for item in &items {
        result = interpreter.evaluate(item);
    }
    result
}

fn eval_str(source: &str) -> Value {
    let mut interpreter = Interpreter::new();
    run(&mut interpreter, source)
}

fn condition_text(v: &Value) -> String {
    let payload = v.get_condition().expect("a condition");
    payload.get_string().expect("a string payload").to_string()
}

#[test]
fn sum_and_product() {
    assert_eq!(eval_str("(+ 1 2 3)").get_integer(), Some(6));
    assert_eq!(eval_str("(* 2 3 4)").get_integer(), Some(24));
}

#[test]
fn if_chooses_branch() {
    assert_eq!(eval_str("(if true 1 2)").get_integer(), Some(1));
    assert_eq!(eval_str("(if false 1 2)").get_integer(), Some(2));
}

#[test]
fn let_binds_pairs() {
    assert_eq!(eval_str("(let ((x 1) (y 2)) (+ x y))").get_integer(), Some(3));
}

#[test]
fn quote_keeps_list_unevaluated() {
    let mut interpreter = Interpreter::new();
    let v = run(&mut interpreter, "(quote (+ 1 2))");
    assert!(v.get_integer().is_none());
    assert_eq!(v.get_list().map(|l| l.len()), Some(3));
    assert_eq!(v.to_string(&interpreter.interner), "(+ 1 2)");
}

#[test]
fn recur_outside_tail_position_is_refused() {
    let mut interpreter = Interpreter::new();
    let r = parse("(let () (recur) 5)", &mut interpreter.interner);
    assert_eq!(r.err(), Some(Error::RecurInNonTailPosition));
}

#[test]
fn loop_runs_without_stack_growth() {
    let v = eval_str("(loop ((i 0)) (if (= i 100000) i (recur (+ i 1))))");
    assert_eq!(v.get_integer(), Some(100000));
}

#[test]
fn closure_recur_iterates() {
    let v = eval_str("(define count (lambda (n acc) (if (= n 0) acc (recur (- n 1) (+ acc 2))))) (count 50000 0)");
    assert_eq!(v.get_integer(), Some(100000));
}

#[test]
fn undefined_identifier_names_it() {
    let v = eval_str("undefined-name");
    assert!(condition_text(&v).contains("undefined-name"));
}

#[test]
fn closure_arity_is_enforced() {
    let mut interpreter = Interpreter::new();
    run(&mut interpreter, "(define f (lambda (a b) (+ a b)))");
    let one = run(&mut interpreter, "(f 1)");
    assert_eq!(condition_text(&one), "arity mismatch for lambda: expected: 2, got: 1");
    let three = run(&mut interpreter, "(f 1 2 3)");
    assert_eq!(condition_text(&three), "arity mismatch for lambda: expected: 2, got: 3");
    assert_eq!(run(&mut interpreter, "(f 1 2)").get_integer(), Some(3));
}

#[test]
fn eq_is_structural() {
    assert_eq!(eval_str("(eq? '(1 2) '(1 2))").get_bool(), Some(true));
    assert_eq!(eval_str("(eq? '(1 2) '(1 3))").get_bool(), Some(false));
}

#[test]
fn arithmetic_edges() {
    assert_eq!(eval_str("(+)").get_integer(), Some(0));
    assert_eq!(eval_str("(*)").get_integer(), Some(1));
    assert_eq!(eval_str("(- 5)").get_integer(), Some(5));
    assert_eq!(eval_str("(- 10 3 2)").get_integer(), Some(5));
    assert_eq!(eval_str("(quotient 7 2)").get_integer(), Some(3));
    assert_eq!(eval_str("(quotient -7 2)").get_integer(), Some(-3));
    assert_eq!(eval_str("(remainder -7 2)").get_integer(), Some(-1));
    assert_eq!(condition_text(&eval_str("(quotient 1 0)")), "division by zero");
    assert_eq!(condition_text(&eval_str("(+ 9223372036854775807 1)")), "integer overflow");
    assert_eq!(condition_text(&eval_str("(+ 1 #\\a)")), "+ expected integer, got: #\\a");
}

#[test]
fn comparisons() {
    assert_eq!(eval_str("(< 1 2 3)").get_bool(), Some(true));
    assert_eq!(eval_str("(= 1 1 2)").get_bool(), Some(false));
    assert_eq!(eval_str("(>= 3 3)").get_bool(), Some(true));
    assert_eq!(condition_text(&eval_str("(< 1)")), "arity mismatch for <: expected: 2.., got: 1");
}

#[test]
fn empty_list_is_not_evaluable() {
    assert_eq!(condition_text(&eval_str("()")), "tried to evaluate ()");
}

#[test]
fn define_set_and_scopes() {
    let mut interpreter = Interpreter::new();
    run(&mut interpreter, "(define x 5)");
    assert_eq!(run(&mut interpreter, "x").get_integer(), Some(5));
    run(&mut interpreter, "(set! x 7)");
    assert_eq!(run(&mut interpreter, "x").get_integer(), Some(7));
    assert!(condition_text(&run(&mut interpreter, "(set! nope 1)")).starts_with("set!: unknown identifier nope"));
    assert_eq!(run(&mut interpreter, "(let* ((a 1) (b (+ a 1))) b)").get_integer(), Some(2));
    // let frames do not leak into the caller's scope
    assert!(run(&mut interpreter, "a").get_condition().is_some());
}

#[test]
fn closures_capture_their_frame() {
    let v = eval_str("(define make (lambda (n) (lambda (m) (+ n m)))) (define add5 (make 5)) (add5 10)");
    assert_eq!(v.get_integer(), Some(15));
}

#[test]
fn recursive_definition_sees_itself() {
    let v = eval_str("(define fact (lambda (n) (if (= n 0) 1 (* n (fact (- n 1)))))) (fact 10)");
    assert_eq!(v.get_integer(), Some(3628800));
}

#[test]
fn list_operations() {
    let mut interpreter = Interpreter::new();
    let v = run(&mut interpreter, "(list 1 2 3)");
    assert_eq!(v.to_string(&interpreter.interner), "(1 2 3)");
    assert_eq!(run(&mut interpreter, "(car '(1 2))").get_integer(), Some(1));
    assert_eq!(run(&mut interpreter, "(cdr '(1 2))").to_string(&interpreter.interner), "(2)");
    assert_eq!(run(&mut interpreter, "(cons 1 2)").to_string(&interpreter.interner), "(1 . 2)");
    run(&mut interpreter, "(define p '(1 2))");
    run(&mut interpreter, "(set-car! p 9)");
    assert_eq!(run(&mut interpreter, "p").to_string(&interpreter.interner), "(9 2)");
}

#[test]
fn type_predicates_and_conversions() {
    assert_eq!(eval_str("(null? '())").get_bool(), Some(true));
    assert_eq!(eval_str("(integer? 1)").get_bool(), Some(true));
    assert_eq!(eval_str("(string? 1)").get_bool(), Some(false));
    assert_eq!(eval_str("(procedure? car)").get_bool(), Some(true));
    assert_eq!(eval_str("(list? '(1 2))").get_bool(), Some(true));
    assert_eq!(eval_str("(char->integer #\\a)").get_integer(), Some(97));
    assert_eq!(eval_str("(integer->char 98)").get_char(), Some('b'));
    assert_eq!(eval_str("(number->string -42)").get_string(), Some("-42"));
    assert_eq!(eval_str("(string->number \"-17\")").get_integer(), Some(-17));
    assert!(eval_str("(string->number \"1x\")").get_condition().is_some());
    let mut interpreter = Interpreter::new();
    let s = run(&mut interpreter, "(symbol->string (string->symbol \"abc\"))");
    assert_eq!(s.get_string(), Some("abc"));
}

#[test]
fn not_callable() {
    assert_eq!(condition_text(&eval_str("(1 2)")), "tried to call 1, which is not possible");
}

#[test]
fn recur_arity_against_loop() {
    let v = eval_str("(loop ((i 0)) (recur 1 2))");
    assert_eq!(condition_text(&v), "arity mismatch for recur: expected: 1, got: 2");
}

#[test]
fn printing_of_atoms() {
    let mut interpreter = Interpreter::new();
    let v = run(&mut interpreter, r#"'("a\"b" #\\s #\a true)"#);
    assert_eq!(v.to_string(&interpreter.interner), r#"("a\"b" #\\s #\a true)"#);
}

#[test]
fn let_star_body_is_in_tail_position() {
    let v = eval_str("(loop ((i 0)) (let* ((j i)) (if (= j 3) j (recur (+ i 1)))))");
    assert_eq!(v.get_integer(), Some(3));
    let mut interpreter = Interpreter::new();
    let r = parse("(let* () (recur))", &mut interpreter.interner);
    assert_eq!(r.err(), Some(Error::RecurInNonTailPosition));
}

#[test]
fn recur_before_the_last_expression_is_a_condition() {
    let mut interpreter = Interpreter::new();
    let lp = Value::new_symbol(interpreter.interner.intern("loop"));
    let rec = Value::new_symbol(interpreter.interner.intern("recur"));
    let i = Value::new_symbol(interpreter.interner.intern("i"));
    let binding = Value::new_list(&[i, Value::new_integer(0)]);
    let bindings = Value::new_list(&[binding]);
    let early = Value::new_list(&[rec, Value::new_integer(1)]);
    let expr = Value::new_list(&[lp, bindings, early, Value::new_integer(5)]);
    let v = interpreter.evaluate(&expr);
    assert_eq!(condition_text(&v), "recur in non-tail position");
}

#[test]
fn symbol_string_inverts_string_symbol() {
    let v = eval_str(r#"(symbol->string (string->symbol "fresh-name"))"#);
    assert_eq!(v.get_string(), Some("fresh-name"));
    let w = eval_str(r#"(eq? (string->symbol "car") 'car)"#);
    assert_eq!(w.get_bool(), Some(true));
}

#[test]
fn let_bindings_stay_inside() {
    let mut interpreter = Interpreter::new();
    let v = run(&mut interpreter, "(let ((x 1) (y 2)) (+ x y))");
    assert_eq!(v.get_integer(), Some(3));
    let after = run(&mut interpreter, "x");
    assert_eq!(condition_text(&after), "undefined ident: x");
}

#[test]
fn set_car_rebinds_without_touching_the_old_pair() {
    let v = eval_str("(define p (cons 1 2)) (define q p) (set-car! p 9) (list (car p) (car q) (cdr p))");
    assert_eq!(v.to_string(&Interpreter::new().interner), "(9 1 2)");
}

#[test]
fn set_car_keeps_the_element_as_written() {
    let mut interpreter = Interpreter::new();
    let v = run(&mut interpreter, "(define y 7) (define p (cons 1 2)) (set-car! p y) (car p)");
    assert_eq!(v.to_string(&interpreter.interner), "y");
    let w = run(&mut interpreter, "(set-cdr! p (+ 1 2)) (cdr p)");
    assert_eq!(w.to_string(&interpreter.interner), "(+ 1 2)");
}

#[test]
fn loop_bindings_see_earlier_ones() {
    let v = eval_str("(loop ((i 2) (j (+ i 1))) (if (= i 5) j (recur (+ i 1) j)))");
    assert_eq!(v.get_integer(), Some(3));
}

#[test]
fn recur_arity_in_a_later_round() {
    let v = eval_str("(loop ((i 0)) (if (= i 2) (recur 1 2) (recur (+ i 1))))");
    assert_eq!(condition_text(&v), "arity mismatch for recur: expected: 1, got: 2");
}

#[test]
fn closure_result_through_define() {
    let v = eval_str("(define sq (lambda (x) (* x x))) (define f (lambda (y) (+ (sq y) 1))) (f 4)");
    assert_eq!(v.get_integer(), Some(17));
}

#[test]
fn loop_rounds_leave_no_frames_behind() {
    let mut interpreter = Interpreter::new();
    let v = run(&mut interpreter, "(loop ((i 0)) (if (= i 100000) i (recur (+ i 1))))");
    assert_eq!(v.get_integer(), Some(100000));
    assert!(interpreter.scope.frames.len() < 10);
}
