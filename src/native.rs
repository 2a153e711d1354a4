//! The built-in procedures. Each receives its arguments unevaluated; the
//! special forms evaluate only what they need, the others evaluate all
//! arguments left to right and then compute on the values.
use crate::interpreter::{
    all_atoms, all_kept, arity_text, atom_result, atom_results, check_exact, check_min, join2, condition, condition_from,
    evolves, is_condition_with, type_text, Interpreter, LetLoop,
};
use crate::printer::print_spec;
use crate::scope::find_binding;
use crate::string_interner::StringInterner;
use crate::text::{char_from_code, decimal_of, decimal_string, is_scalar_value};
use crate::semantics::{
    binding_exprs, binding_ids, bound_in, ending_is, env_of, ev, ev_args, ev_native, ev_star, extend, grows, tramp,
    lemma_ev_args_prefix, lemma_ev_star_prefix, lemma_frame_env, lemma_grows_env, native_agrees,
    Outcome,
};
use crate::value::{datum, list_of, list_spec, native_name, Native, Value, ValueData};
use vstd::prelude::*;

verus! {

broadcast use vstd::std_specs::vec::group_vec_axioms;

/// A new vector holding the elements of `v`, each sharing its data.
pub fn share_all(v: &[Value]) -> (r: Vec<Value>)
    ensures
        r@ == v@,
{
    let mut out: Vec<Value> = Vec::new();
    let mut i: usize = 0;
    while i < v.len()
        invariant
            i <= v@.len(),
            out@ == v@.subrange(0, i as int),
        decreases v.len() - i,
    {
        out.push(v[i].clone());
        assert(out@ =~= v@.subrange(0, i as int + 1));
        i = i + 1;
    }
    assert(out@ =~= v@);
    out
}

/// The condition that a built-in raises for an operand of the wrong kind.
fn type_condition(name: &str, kind: &str, v: &Value, interner: &StringInterner) -> (r: Value)
    ensures
        is_condition_with(r, type_text(name@, kind@, print_spec(*v, interner.names()))),
{
    let mut m = String::from_str(name);
    m.append(" expected ");
    m.append(kind);
    m.append(", got: ");
    let s = v.to_string(interner);
    m.append(s.as_str());
    condition_from(m)
}

// ---------------------------------------------------------------------------
// Computations on evaluated operands
// ---------------------------------------------------------------------------

/// Whether `v` passes the type test of the predicate `n`.
pub open spec fn type_test_spec(n: Native, v: Value) -> bool {
    match n {
        Native::NullP => v@ is EmptyList,
        Native::BooleanP => v@ is Bool,
        Native::SymbolP => v@ is Symbol,
        Native::IntegerP => v@ is Integer,
        Native::CharP => v@ is Char,
        Native::StringP => v@ is String,
        Native::ProcedureP => v@ is NativeProc || v@ is Proc,
        Native::ListP => list_spec(v) is Some,
        Native::PairP => v@ is Pair,
        _ => false,
    }
}

pub fn type_test(n: Native, v: &Value) -> (r: bool)
    ensures
        r == type_test_spec(n, *v),
{
    match n {
        Native::NullP => v.get_empty_list().is_some(),
        Native::BooleanP => v.get_bool().is_some(),
        Native::SymbolP => v.get_symbol().is_some(),
        Native::IntegerP => v.get_integer().is_some(),
        Native::CharP => v.get_char().is_some(),
        Native::StringP => v.get_string().is_some(),
        Native::ProcedureP => v.get_native().is_some() || v.get_proc().is_some(),
        Native::ListP => v.get_list().is_some(),
        Native::PairP => v.get_pair().is_some(),
        _ => false,
    }
}

pub enum ArithOutcome {
    Number(i64),
    NotInteger(Value),
    Overflow,
    DivisionByZero,
}

/// One step of an arithmetic operator, on 64-bit integers.
pub open spec fn arith_step(op: Native, a: i64, b: i64) -> ArithOutcome {
    match op {
        Native::Plus => match a.checked_add(b) {
            Some(x) => ArithOutcome::Number(x),
            None => ArithOutcome::Overflow,
        },
        Native::Minus => match a.checked_sub(b) {
            Some(x) => ArithOutcome::Number(x),
            None => ArithOutcome::Overflow,
        },
        Native::Multiply => match a.checked_mul(b) {
            Some(x) => ArithOutcome::Number(x),
            None => ArithOutcome::Overflow,
        },
        Native::Quotient => if b == 0 {
            ArithOutcome::DivisionByZero
        } else {
            match a.checked_div(b) {
                Some(q) => ArithOutcome::Number(q),
                None => ArithOutcome::Overflow,
            }
        },
        _ => if b == 0 {
            ArithOutcome::DivisionByZero
        } else {
            match a.checked_div(b) {
                Some(q) => ArithOutcome::Number((a - q * b) as i64),
                None => ArithOutcome::Overflow,
            }
        },
    }
}

/// Folds the operator over `rest` from the left, starting at `acc`.
pub open spec fn arith_from(op: Native, acc: i64, rest: Seq<Value>) -> ArithOutcome
    decreases rest.len(),
{
    if rest.len() == 0 {
        ArithOutcome::Number(acc)
    } else {
        match rest[0]@ {
            ValueData::Integer(i) => match arith_step(op, acc, i) {
                ArithOutcome::Number(x) => arith_from(op, x, rest.drop_first()),
                other => other,
            },
            _ => ArithOutcome::NotInteger(rest[0]),
        }
    }
}

/// The operator's value for no operands: 0 for `+` and `-`, 1 otherwise.
pub open spec fn arith_identity(op: Native) -> i64 {
    if op == Native::Plus || op == Native::Minus {
        0
    } else {
        1
    }
}

/// An arithmetic operator on evaluated operands: the identity for none,
/// else the first operand folded with the others, left to right.
pub open spec fn arith_spec(op: Native, vals: Seq<Value>) -> ArithOutcome {
    if vals.len() == 0 {
        ArithOutcome::Number(arith_identity(op))
    } else {
        match vals[0]@ {
            ValueData::Integer(i) => arith_from(op, i, vals.drop_first()),
            _ => ArithOutcome::NotInteger(vals[0]),
        }
    }
}

/// `r` is the datum that an arithmetic outcome gives.
pub open spec fn arith_result(op: Native, o: ArithOutcome, names: Map<u64, Seq<char>>, r: Value) -> bool {
    match o {
        ArithOutcome::Number(n) => r@ == ValueData::Integer(n),
        ArithOutcome::NotInteger(x) => is_condition_with(r, type_text(native_name(op), "integer"@, print_spec(x, names))),
        ArithOutcome::Overflow => is_condition_with(r, "integer overflow"@),
        ArithOutcome::DivisionByZero => is_condition_with(r, "division by zero"@),
    }
}

/// What remains of `x` after truncating division by `d` is smaller than `d`
/// in size.
proof fn lemma_truncated_remainder(x: int, d: int, q: int)
    requires
        d != 0,
        q == (if x == 0 {
            0
        } else if x > 0 && d > 0 {
            x / d
        } else if x < 0 && d < 0 {
            (x * -1) / (d * -1)
        } else if x < 0 {
            ((x * -1) / d) * -1
        } else {
            (x / (d * -1)) * -1
        }),
    ensures
        d > 0 ==> -d < x - q * d < d,
        d < 0 ==> d < x - q * d < -d,
{
    if x > 0 && d > 0 {
        let k = x / d;
        let m = x % d;
        vstd::arithmetic::div_mod::lemma_fundamental_div_mod(x, d);
        vstd::arithmetic::div_mod::lemma_mod_pos_bound(x, d);
        assert(x - q * d == m) by (nonlinear_arith)
            requires
                x == d * k + m,
                q == k,
        ;
    } else if x < 0 && d < 0 {
        let y = -x;
        let e = -d;
        let k = y / e;
        let m = y % e;
        vstd::arithmetic::div_mod::lemma_fundamental_div_mod(y, e);
        vstd::arithmetic::div_mod::lemma_mod_pos_bound(y, e);
        assert(x - q * d == -m) by (nonlinear_arith)
            requires
                y == e * k + m,
                q == k,
                x == -y,
                d == -e,
        ;
    } else if x < 0 {
        let y = -x;
        let k = y / d;
        let m = y % d;
        vstd::arithmetic::div_mod::lemma_fundamental_div_mod(y, d);
        vstd::arithmetic::div_mod::lemma_mod_pos_bound(y, d);
        assert(x - q * d == -m) by (nonlinear_arith)
            requires
                y == d * k + m,
                q == k * -1,
                x == -y,
        ;
    } else if x > 0 {
        let e = -d;
        let k = x / e;
        let m = x % e;
        vstd::arithmetic::div_mod::lemma_fundamental_div_mod(x, e);
        vstd::arithmetic::div_mod::lemma_mod_pos_bound(x, e);
        assert(x - q * d == m) by (nonlinear_arith)
            requires
                x == e * k + m,
                q == k * -1,
                d == -e,
        ;
    }
}

fn step(op: Native, a: i64, b: i64) -> (r: Result<i64, bool>)
    ensures
        match arith_step(op, a, b) {
            ArithOutcome::Number(x) => r == Ok::<i64, bool>(x),
            ArithOutcome::Overflow => r == Err::<i64, bool>(false),
            ArithOutcome::DivisionByZero => r == Err::<i64, bool>(true),
            _ => false,
        },
{
    match op {
        Native::Plus => match a.checked_add(b) {
            Some(x) => Ok(x),
            None => Err(false),
        },
        Native::Minus => match a.checked_sub(b) {
            Some(x) => Ok(x),
            None => Err(false),
        },
        Native::Multiply => match a.checked_mul(b) {
            Some(x) => Ok(x),
            None => Err(false),
        },
        Native::Quotient => if b == 0 {
            Err(true)
        } else {
            match a.checked_div(b) {
                Some(q) => Ok(q),
                None => Err(false),
            }
        },
        _ => if b == 0 {
            Err(true)
        } else {
            match a.checked_div(b) {
                Some(q) => {
                    assert(-0x4000_0000_0000_0000_0000_0000_0000_0000 <= (q as int) * (b as int)
                        <= 0x4000_0000_0000_0000_0000_0000_0000_0000) by (nonlinear_arith)
                        requires
                            i64::MIN <= q <= i64::MAX,
                            i64::MIN <= b <= i64::MAX,
                    ;
                    proof {
                        lemma_truncated_remainder(a as int, b as int, q as int);
                    }
                    let prod = (q as i128) * (b as i128);
                    Ok(((a as i128) - prod) as i64)
                },
                None => Err(false),
            }
        },
    }
}

/// An arithmetic operator (`+ - * quotient remainder`) on evaluated operands.
pub fn arithmetic_values(op: Native, vals: &Vec<Value>, interner: &StringInterner) -> (r: Value)
    ensures
        arith_result(op, arith_spec(op, vals@), interner.names(), r),
{
    if vals.len() == 0 {
        if op == Native::Plus || op == Native::Minus {
            return Value::new_integer(0);
        } else {
            return Value::new_integer(1);
        }
    }
    let mut acc = match vals[0].get_integer() {
        Some(i) => i,
        None => {
            return type_condition(op.name(), "integer", &vals[0], interner);
        },
    };
    let mut i: usize = 1;
    while i < vals.len()
        invariant
            1 <= i <= vals@.len(),
            arith_spec(op, vals@) == arith_from(op, acc, vals@.subrange(i as int, vals@.len() as int)),
        decreases vals.len() - i,
    {
        let ghost rest = vals@.subrange(i as int, vals@.len() as int);
        assert(rest.drop_first() =~= vals@.subrange(i as int + 1, vals@.len() as int));
        assert(rest[0] == vals@[i as int]);
        match vals[i].get_integer() {
            Some(x) => match step(op, acc, x) {
                Ok(n) => {
                    acc = n;
                },
                Err(true) => {
                    return condition("division by zero");
                },
                Err(false) => {
                    return condition("integer overflow");
                },
            },
            None => {
                return type_condition(op.name(), "integer", &vals[i], interner);
            },
        }
        i = i + 1;
    }
    Value::new_integer(acc)
}

pub enum CompareOutcome {
    Truth(bool),
    NotInteger(Value),
}

pub open spec fn compare_step(op: Native, a: i64, b: i64) -> bool {
    match op {
        Native::NumEq => a == b,
        Native::Lt => a < b,
        Native::Le => a <= b,
        Native::Gt => a > b,
        _ => a >= b,
    }
}

/// Compares `first` with each of `rest`; every one of them must be an integer.
pub open spec fn compare_from(op: Native, first: i64, rest: Seq<Value>) -> CompareOutcome
    decreases rest.len(),
{
    if rest.len() == 0 {
        CompareOutcome::Truth(true)
    } else {
        match rest[0]@ {
            ValueData::Integer(x) => match compare_from(op, first, rest.drop_first()) {
                CompareOutcome::Truth(b) => CompareOutcome::Truth(compare_step(op, first, x) && b),
                other => other,
            },
            _ => CompareOutcome::NotInteger(rest[0]),
        }
    }
}

/// A comparison operator (`= < <= > >=`) on at least one evaluated operand:
/// the first operand holds the relation to each of the others.
pub open spec fn compare_spec(op: Native, vals: Seq<Value>) -> CompareOutcome {
    match vals[0]@ {
        ValueData::Integer(i) => compare_from(op, i, vals.drop_first()),
        _ => CompareOutcome::NotInteger(vals[0]),
    }
}

pub open spec fn compare_result(op: Native, o: CompareOutcome, names: Map<u64, Seq<char>>, r: Value) -> bool {
    match o {
        CompareOutcome::Truth(b) => r@ == ValueData::Bool(b),
        CompareOutcome::NotInteger(x) => is_condition_with(r, type_text(native_name(op), "integer"@, print_spec(x, names))),
    }
}

pub fn comparison_values(op: Native, vals: &Vec<Value>, interner: &StringInterner) -> (r: Value)
    requires
        vals@.len() >= 1,
    ensures
        compare_result(op, compare_spec(op, vals@), interner.names(), r),
{
    let first = match vals[0].get_integer() {
        Some(i) => i,
        None => {
            return type_condition(op.name(), "integer", &vals[0], interner);
        },
    };
    let mut res = true;
    let mut i: usize = 1;
    while i < vals.len()
        invariant
            1 <= i <= vals@.len(),
            compare_spec(op, vals@) == (match compare_from(op, first, vals@.subrange(i as int, vals@.len() as int)) {
                CompareOutcome::Truth(b) => CompareOutcome::Truth(res && b),
                other => other,
            }),
        decreases vals.len() - i,
    {
        let ghost rest = vals@.subrange(i as int, vals@.len() as int);
        assert(rest.drop_first() =~= vals@.subrange(i as int + 1, vals@.len() as int));
        assert(rest[0] == vals@[i as int]);
        match vals[i].get_integer() {
            Some(x) => {
                let t = match op {
                    Native::NumEq => first == x,
                    Native::Lt => first < x,
                    Native::Le => first <= x,
                    Native::Gt => first > x,
                    _ => first >= x,
                };
                res = res && t;
            },
            None => {
                return type_condition(op.name(), "integer", &vals[i], interner);
            },
        }
        i = i + 1;
    }
    assert(vals@.subrange(i as int, vals@.len() as int) =~= Seq::<Value>::empty());
    Value::new_bool(res)
}

/// Structural equality: same tags, equal contents, pairs equal part by part.
pub open spec fn equal_spec(a: Value, b: Value) -> bool
    decreases a, 0nat,
{
    match (a@, b@) {
        (ValueData::Bool(x), ValueData::Bool(y)) => x == y,
        (ValueData::Char(x), ValueData::Char(y)) => x == y,
        (ValueData::Integer(x), ValueData::Integer(y)) => x == y,
        (ValueData::Symbol(x), ValueData::Symbol(y)) => x == y,
        (ValueData::String(x), ValueData::String(y)) => x@ == y@,
        (ValueData::EmptyList, ValueData::EmptyList) => true,
        (ValueData::Pair(a1, a2), ValueData::Pair(b1, b2)) => equal_spec(a1, b1) && equal_spec(a2, b2),
        (ValueData::Condition(x), ValueData::Condition(y)) => equal_spec(x, y),
        (ValueData::NativeProc(x), ValueData::NativeProc(y)) => x == y,
        (ValueData::Proc(p), ValueData::Proc(q)) => {
            &&& (match (p.name, q.name) {
                (Some(m), Some(n)) => m@ == n@,
                (None, None) => true,
                _ => false,
            })
            &&& p.parent_scope == q.parent_scope
            &&& p.bindings@ == q.bindings@
            &&& equal_all(p.code@, q.code@)
        },
        (ValueData::Recur(x), ValueData::Recur(y)) => equal_all(x@, y@),
        _ => false,
    }
}

pub open spec fn equal_all(s: Seq<Value>, t: Seq<Value>) -> bool
    decreases s, 1nat,
{
    if s.len() != t.len() {
        false
    } else if s.len() == 0 {
        true
    } else {
        equal_all(s.drop_last(), t.drop_last()) && equal_spec(s.last(), t.last())
    }
}

fn equal_vecs(s: &Vec<Value>, t: &Vec<Value>) -> (r: bool)
    ensures
        r == equal_all(s@, t@),
    decreases s, 1nat,
{
    if s.len() != t.len() {
        return false;
    }
    let mut i: usize = 0;
    while i < s.len()
        invariant
            i <= s@.len(),
            s@.len() == t@.len(),
            equal_all(s@.subrange(0, i as int), t@.subrange(0, i as int)),
        decreases s.len() - i,
    {
        proof {
            assert(s@.subrange(0, i as int + 1).drop_last() =~= s@.subrange(0, i as int));
            assert(t@.subrange(0, i as int + 1).drop_last() =~= t@.subrange(0, i as int));
        }
        if !values_equal(&s[i], &t[i]) {
            proof {
                if equal_all(s@, t@) {
                    lemma_equal_all_prefix(s@, t@, i as int + 1);
                    assert(s@.subrange(0, i as int + 1).last() == s@[i as int]);
                    assert(t@.subrange(0, i as int + 1).last() == t@[i as int]);
                }
            }
            return false;
        }
        i = i + 1;
    }
    assert(s@.subrange(0, i as int) =~= s@);
    assert(t@.subrange(0, i as int) =~= t@);
    true
}

proof fn lemma_equal_all_prefix(s: Seq<Value>, t: Seq<Value>, k: int)
    requires
        s.len() == t.len(),
        0 <= k <= s.len(),
        equal_all(s, t),
    ensures
        equal_all(s.subrange(0, k), t.subrange(0, k)),
    decreases s.len(),
{
    if k == s.len() {
        assert(s.subrange(0, k) =~= s);
        assert(t.subrange(0, k) =~= t);
    } else {
        lemma_equal_all_prefix(s.drop_last(), t.drop_last(), k);
        assert(s.drop_last().subrange(0, k) =~= s.subrange(0, k));
        assert(t.drop_last().subrange(0, k) =~= t.subrange(0, k));
    }
}

fn same_ids(s: &Vec<u64>, t: &Vec<u64>) -> (r: bool)
    ensures
        r == (s@ == t@),
{
    if s.len() != t.len() {
        return false;
    }
    let mut i: usize = 0;
    while i < s.len()
        invariant
            i <= s@.len(),
            s@.len() == t@.len(),
            s@.subrange(0, i as int) == t@.subrange(0, i as int),
        decreases s.len() - i,
    {
        if s[i] != t[i] {
            assert(s@[i as int] != t@[i as int]);
            return false;
        }
        assert(s@.subrange(0, i as int + 1) =~= t@.subrange(0, i as int + 1)) by {
            assert(s@.subrange(0, i as int) =~= t@.subrange(0, i as int));
            assert forall|j: int| 0 <= j < i implies s@[j] == t@[j] by {
                assert(s@.subrange(0, i as int)[j] == t@.subrange(0, i as int)[j]);
            }
        }
        i = i + 1;
    }
    assert(s@.subrange(0, i as int) =~= s@);
    assert(t@.subrange(0, i as int) =~= t@);
    true
}

/// Structural equality of two datums, as `eq?` decides it.
pub fn values_equal(a: &Value, b: &Value) -> (r: bool)
    ensures
        r == equal_spec(*a, *b),
    decreases *a, 0nat,
{
    match (a.data(), b.data()) {
        (ValueData::Bool(x), ValueData::Bool(y)) => *x == *y,
        (ValueData::Char(x), ValueData::Char(y)) => *x == *y,
        (ValueData::Integer(x), ValueData::Integer(y)) => *x == *y,
        (ValueData::Symbol(x), ValueData::Symbol(y)) => *x == *y,
        (ValueData::String(x), ValueData::String(y)) => *x == *y,
        (ValueData::EmptyList, ValueData::EmptyList) => true,
        (ValueData::Pair(a1, a2), ValueData::Pair(b1, b2)) => values_equal(a1, b1) && values_equal(a2, b2),
        (ValueData::Condition(x), ValueData::Condition(y)) => values_equal(x, y),
        (ValueData::NativeProc(x), ValueData::NativeProc(y)) => *x == *y,
        (ValueData::Proc(p), ValueData::Proc(q)) => {
            let names = match (&p.name, &q.name) {
                (Some(m), Some(n)) => *m == *n,
                (None, None) => true,
                _ => false,
            };
            names && p.parent_scope == q.parent_scope && same_ids(&p.bindings, &q.bindings) && equal_vecs(&p.code, &q.code)
        },
        (ValueData::Recur(x), ValueData::Recur(y)) => equal_vecs(x, y),
        _ => false,
    }
}

/// Structural equality holds between a datum and itself, so two datums built
/// apart with the same contents compare equal under `eq?`.
pub proof fn lemma_equal_reflexive(v: Value)
    ensures
        equal_spec(v, v),
    decreases v, 0nat,
{
    match v@ {
        ValueData::Pair(a, b) => {
            lemma_equal_reflexive(a);
            lemma_equal_reflexive(b);
        },
        ValueData::Condition(x) => {
            lemma_equal_reflexive(x);
        },
        ValueData::Proc(p) => {
            lemma_equal_all_reflexive(p.code@);
        },
        ValueData::Recur(args) => {
            lemma_equal_all_reflexive(args@);
        },
        _ => {},
    }
}

/// Elementwise structural equality holds between a sequence and itself.
pub proof fn lemma_equal_all_reflexive(s: Seq<Value>)
    ensures
        equal_all(s, s),
    decreases s, 1nat,
{
    if s.len() > 0 {
        lemma_equal_all_reflexive(s.drop_last());
        lemma_equal_reflexive(s.last());
    }
}

/// `eq?` on evaluated operands: every neighbouring two are equal.
pub open spec fn all_equal_spec(vals: Seq<Value>) -> bool {
    forall|i: int| 0 <= i < vals.len() - 1 ==> #[trigger] equal_spec(vals[i], vals[i + 1])
}

pub fn all_equal(vals: &Vec<Value>) -> (r: bool)
    ensures
        r == all_equal_spec(vals@),
{
    let mut i: usize = 0;
    while vals.len() > 0 && i < vals.len() - 1
        invariant
            forall|j: int| 0 <= j < i && j < vals@.len() - 1 ==> #[trigger] equal_spec(vals@[j], vals@[j + 1]),
        decreases vals.len() - i,
    {
        if !values_equal(&vals[i], &vals[i + 1]) {
            return false;
        }
        i = i + 1;
    }
    true
}

// ---------------------------------------------------------------------------
// The built-ins
// ---------------------------------------------------------------------------

/// Runs the built-in `n` on the unevaluated arguments `args`.
pub fn apply_native(interpreter: &mut Interpreter, n: Native, args: &Vec<Value>, fuel: u64) -> (r: Value)
    requires
        old(interpreter).wf(),
    ensures
        final(interpreter).wf(),
        evolves(*old(interpreter), *final(interpreter)),
        native_spec(n, *old(interpreter), args@, r),
        native_agrees(n, *old(interpreter), args@, fuel, r, *final(interpreter)),
    decreases fuel, 5nat,
{
    match n {
        Native::Quote => quote(interpreter, args),
        Native::Define => define(interpreter, args, fuel),
        Native::SetBang => set(interpreter, args, fuel),
        Native::If => if_(interpreter, args, fuel),
        Native::PolyEq => poly_eq(interpreter, args, fuel),
        Native::Lambda => lambda(interpreter, args),
        Native::Let => let_(interpreter, args, fuel),
        Native::LetStar => let_dash(interpreter, args, fuel),
        Native::Loop => loop_(interpreter, args, fuel),
        Native::Begin => begin(interpreter, args, fuel),
        Native::Recur => recur(interpreter, args, fuel),
        Native::NullP | Native::BooleanP | Native::SymbolP | Native::IntegerP | Native::CharP
        | Native::StringP | Native::ProcedureP | Native::ListP | Native::PairP => type_predicate(
            interpreter,
            n,
            args,
            fuel,
        ),
        Native::CharInteger => char_integer(interpreter, args, fuel),
        Native::IntegerChar => integer_char(interpreter, args, fuel),
        Native::NumberString => number_string(interpreter, args, fuel),
        Native::StringNumber => string_number(interpreter, args, fuel),
        Native::SymbolString => symbol_string(interpreter, args, fuel),
        Native::StringSymbol => string_symbol(interpreter, args, fuel),
        Native::Plus | Native::Minus | Native::Multiply | Native::Quotient | Native::Remainder => arithmetic(
            interpreter,
            n,
            args,
            fuel,
        ),
        Native::NumEq | Native::Gt | Native::Ge | Native::Lt | Native::Le => comparison(
            interpreter,
            n,
            args,
            fuel,
        ),
        Native::List => list(interpreter, args, fuel),
        Native::Car => car(interpreter, args, fuel),
        Native::Cdr => cdr(interpreter, args, fuel),
        Native::Cons => cons(interpreter, args, fuel),
        Native::SetCar => set_car_(interpreter, args, fuel),
        Native::SetCdr => set_cdr_(interpreter, args, fuel),
        Native::SymbolSpace => symbol_space(interpreter, args),
    }
}

/// `(quote x)`: `x`, unevaluated.
pub fn quote(interpreter: &mut Interpreter, args: &Vec<Value>) -> (r: Value)
    ensures
        *final(interpreter) == *old(interpreter),
        args@.len() == 1 ==> r == args@[0],
        args@.len() != 1 ==> is_condition_with(r, arity_text("quote"@, decimal_of(1), args@.len() as int)),
        native_agrees(Native::Quote, *old(interpreter), args@, 0, r, *final(interpreter)),
{
    if let Some(c) = check_exact("quote", args.len(), 1) {
        return c;
    }
    args[0].clone()
}

/// `new` is `old` with `id` bound to `x` in the current frame itself: every
/// other id of that frame, and every other earlier frame, as it was.
pub open spec fn rebound(old: Interpreter, new: Interpreter, id: u64, x: Value) -> bool {
    let cur = old.current_scope as int;
    &&& new.current_scope == old.current_scope
    &&& new.interner == old.interner
    &&& old.scope.frames@.len() <= new.scope.frames@.len()
    &&& new.scope.frames@[cur].parent == old.scope.frames@[cur].parent
    &&& find_binding(new.scope.frames@[cur].bindings@, id) == Some(x)
    &&& forall|other: u64| other != id ==> #[trigger] find_binding(new.scope.frames@[cur].bindings@, other) == find_binding(
        old.scope.frames@[cur].bindings@,
        other,
    )
    &&& forall|i: int| 0 <= i < old.scope.frames@.len() && i != cur ==> #[trigger] new.scope.frames@[i] == old.scope.frames@[i]
}

/// `(define name expr)`: binds `name` in the current frame to the value of
/// `expr` and gives `name`.
pub fn define(interpreter: &mut Interpreter, args: &Vec<Value>, fuel: u64) -> (r: Value)
    requires
        old(interpreter).wf(),
    ensures
        final(interpreter).wf(),
        evolves(*old(interpreter), *final(interpreter)),
        args@.len() != 2 ==> is_condition_with(r, arity_text("define"@, decimal_of(2), args@.len() as int)),
        args@.len() == 2 && args@[0]@ is Symbol ==> r == args@[0] && find_binding(
            final(interpreter).scope.frames@[final(interpreter).current_scope as int].bindings@,
            args@[0]@->Symbol_0,
        ) is Some,
        args@.len() == 2 && !(args@[0]@ is Symbol) ==> is_condition_with(
            r,
            type_text("define"@, "symbol"@, print_spec(args@[0], old(interpreter).interner.names())),
        ),
        args@.len() == 2 && args@[0]@ is Symbol && crate::interpreter::is_atom(args@[1]) ==> exists|x: Value|
            atom_result(*old(interpreter), args@[1], x) && find_binding(
                final(interpreter).scope.frames@[final(interpreter).current_scope as int].bindings@,
                args@[0]@->Symbol_0,
            ) == Some(x),
        args@.len() == 2 && args@[0]@ is Symbol ==> (ev(old(interpreter).scope.frames@, env_of(*old(interpreter)), args@[1], fuel as nat) matches Some(
            Outcome::Val(x),
        ) ==> r == args@[0] && rebound(*old(interpreter), *final(interpreter), args@[0]@->Symbol_0, x)),
        // the value bound is what evaluating the expression gives, as a call of a built-in states it
        fuel > 0 && args@.len() == 2 && args@[0]@ is Symbol ==> (find_binding(
            final(interpreter).scope.frames@[final(interpreter).current_scope as int].bindings@,
            args@[0]@->Symbol_0,
        ) matches Some(x) && crate::interpreter::native_called(*old(interpreter), args@[1], x)),
    decreases fuel, 4nat,
{
    if let Some(c) = check_exact("define", args.len(), 2) {
        return c;
    }
    let s = match args[0].get_symbol() {
        Some(s) => s,
        None => {
            return type_condition("define", "symbol", &args[0], &interpreter.interner);
        },
    };
    let item = interpreter.eval(&args[1], fuel);
    let cur = interpreter.current_scope;
    interpreter.scope.add_symbol(cur, s, item);
    args[0].clone()
}

/// `(set! name expr)`: like `define`, for a name that is bound already.
pub fn set(interpreter: &mut Interpreter, args: &Vec<Value>, fuel: u64) -> (r: Value)
    requires
        old(interpreter).wf(),
    ensures
        final(interpreter).wf(),
        evolves(*old(interpreter), *final(interpreter)),
        args@.len() != 2 ==> is_condition_with(r, arity_text("set!"@, decimal_of(2), args@.len() as int)),
        args@.len() == 2 && args@[0]@ is Symbol && old(interpreter).scope.lookup_view(
            old(interpreter).current_scope as int,
            args@[0]@->Symbol_0,
        ) is None ==> is_condition_with(
            r,
            "set!: unknown identifier "@ + print_spec(args@[0], old(interpreter).interner.names()),
        ) && *final(interpreter) == *old(interpreter),
        args@.len() == 2 && args@[0]@ is Symbol && old(interpreter).scope.lookup_view(
            old(interpreter).current_scope as int,
            args@[0]@->Symbol_0,
        ) is Some && crate::interpreter::is_atom(args@[1]) ==> r == args@[0] && exists|x: Value|
            atom_result(*old(interpreter), args@[1], x) && find_binding(
                final(interpreter).scope.frames@[final(interpreter).current_scope as int].bindings@,
                args@[0]@->Symbol_0,
            ) == Some(x),
        args@.len() == 2 && args@[0]@ is Symbol && old(interpreter).scope.lookup_view(
            old(interpreter).current_scope as int,
            args@[0]@->Symbol_0,
        ) is Some ==> (ev(old(interpreter).scope.frames@, env_of(*old(interpreter)), args@[1], fuel as nat) matches Some(Outcome::Val(x)) ==> r == args@[0]
            && rebound(*old(interpreter), *final(interpreter), args@[0]@->Symbol_0, x)),
        args@.len() == 2 && !(args@[0]@ is Symbol) ==> is_condition_with(
            r,
            type_text("set!"@, "symbol"@, print_spec(args@[0], old(interpreter).interner.names())),
        ),
        fuel > 0 && args@.len() == 2 && args@[0]@ is Symbol && old(interpreter).scope.lookup_view(
            old(interpreter).current_scope as int,
            args@[0]@->Symbol_0,
        ) is Some ==> (find_binding(
            final(interpreter).scope.frames@[final(interpreter).current_scope as int].bindings@,
            args@[0]@->Symbol_0,
        ) matches Some(x) && crate::interpreter::native_called(*old(interpreter), args@[1], x)),
    decreases fuel, 4nat,
{
    if let Some(c) = check_exact("set!", args.len(), 2) {
        return c;
    }
    let s = match args[0].get_symbol() {
        Some(s) => s,
        None => {
            return type_condition("set!", "symbol", &args[0], &interpreter.interner);
        },
    };
    if interpreter.scope.lookup_symbol(interpreter.current_scope, s).is_none() {
        let t = args[0].to_string(&interpreter.interner);
        return condition_from(join2("set!: unknown identifier ", t.as_str()));
    }
    let item = interpreter.eval(&args[1], fuel);
    let cur = interpreter.current_scope;
    interpreter.scope.add_symbol(cur, s, item);
    args[0].clone()
}

/// For atoms `(c a b)`: `c` gives a boolean that chooses between what `a`
/// and what `b` give; anything else gives a condition.
pub open spec fn if_result(st: Interpreter, args: Seq<Value>, r: Value) -> bool {
    exists|c: Value|
        #![trigger atom_result(st, args[0], c)]
        atom_result(st, args[0], c) && match c@ {
            ValueData::Bool(true) => atom_result(st, args[1], r),
            ValueData::Bool(false) => atom_result(st, args[2], r),
            _ => r@ is Condition,
        }
}

/// What the built-in `n` gives on arguments that are atoms, conditions
/// included, for the built-ins whose result the atoms settle, and what
/// `lambda` gives on any arguments. What every
/// built-in gives on arguments of any shape that raise no condition is
/// `ev_native`; each built-in's own contract states the rest.
pub open spec fn native_spec(n: Native, st: Interpreter, args: Seq<Value>, r: Value) -> bool {
    match n {
        Native::Quote => if args.len() == 1 {
            r == args[0]
        } else {
            is_condition_with(r, arity_text("quote"@, decimal_of(1), args.len() as int))
        },
        Native::If => args.len() == 3 && all_atoms(args) ==> if_result(st, args, r),
        Native::Plus | Native::Minus | Native::Multiply | Native::Quotient | Native::Remainder => all_atoms(args)
            ==> exists|vals: Seq<Value>| atom_results(st, args, vals) && arith_result(n, arith_spec(n, vals), st.interner.names(), r),
        Native::NumEq | Native::Gt | Native::Ge | Native::Lt | Native::Le => args.len() >= 2 && all_atoms(args)
            ==> exists|vals: Seq<Value>| atom_results(st, args, vals) && compare_result(n, compare_spec(n, vals), st.interner.names(), r),
        Native::PolyEq => args.len() >= 2 && all_atoms(args) ==> exists|vals: Seq<Value>| atom_results(st, args, vals)
            && r@ == ValueData::Bool(all_equal_spec(vals)),
        Native::List => all_atoms(args) ==> exists|vals: Seq<Value>| atom_results(st, args, vals) && r == list_of(vals),
        Native::Lambda => lambda_spec(st, args, r),
        _ => true,
    }
}

/// `(if c a b)`: `a` or `b`, by the boolean that `c` gives.
pub fn if_(interpreter: &mut Interpreter, args: &Vec<Value>, fuel: u64) -> (r: Value)
    requires
        old(interpreter).wf(),
    ensures
        final(interpreter).wf(),
        evolves(*old(interpreter), *final(interpreter)),
        args@.len() != 3 ==> is_condition_with(r, arity_text("if"@, decimal_of(3), args@.len() as int)),
        args@.len() == 3 && all_atoms(args@) ==> if_result(*old(interpreter), args@, r),
        native_agrees(Native::If, *old(interpreter), args@, fuel, r, *final(interpreter)),
        args@.len() == 3 ==> (ev(old(interpreter).scope.frames@, env_of(*old(interpreter)), args@[0], fuel as nat) matches Some(
            Outcome::Val(c),
        ) ==> (!(c@ is Bool) ==> is_condition_with(
            r,
            "if: argument mismatch: expected bool, got: "@ + print_spec(c, final(interpreter).interner.names()),
        ) && grows(*old(interpreter), *final(interpreter)))),
    decreases fuel, 4nat,
{
    if let Some(c) = check_exact("if", args.len(), 3) {
        return c;
    }
    let ghost st0 = *interpreter;
    let cond = interpreter.eval(&args[0], fuel);
    proof {
        if ev(st0.scope.frames@, env_of(st0), args@[0], fuel as nat) is Some {
            crate::semantics::lemma_grows_env(st0, *interpreter, st0.current_scope as int);
            crate::semantics::lemma_mono_ev(st0.scope.frames@, interpreter.scope.frames@, env_of(st0), args@[1], fuel as nat);
            crate::semantics::lemma_mono_ev(st0.scope.frames@, interpreter.scope.frames@, env_of(st0), args@[2], fuel as nat);
        }
    }
    assert(all_atoms(args@) ==> crate::interpreter::is_atom(args@[0]) && crate::interpreter::is_atom(args@[1])
        && crate::interpreter::is_atom(args@[2]));
    match cond.get_bool() {
        Some(true) => interpreter.eval(&args[1], fuel),
        Some(false) => interpreter.eval(&args[2], fuel),
        None => {
            let s = cond.to_string(&interpreter.interner);
            condition_from(join2("if: argument mismatch: expected bool, got: ", s.as_str()))
        },
    }
}

/// What `(lambda ...)` gives in state `st`: a closure over the current
/// frame for a well-formed parameter list, else a condition.
pub open spec fn lambda_spec(st: Interpreter, args: Seq<Value>, r: Value) -> bool {
    let names = st.interner.names();
    if args.len() < 2 {
        is_condition_with(r, arity_text("lambda"@, decimal_of(2) + ".."@, args.len() as int))
    } else if !(args[0]@ is Symbol) {
        match list_spec(args[0]) {
            Some(ps) => if params_ok(ps) {
                &&& r@ is Proc
                &&& r@->Proc_0.name is None
                &&& r@->Proc_0.parent_scope == st.current_scope
                &&& params_are(ps, r@->Proc_0.bindings@)
                &&& r@->Proc_0.code@ == args.drop_first()
            } else {
                r@ is Condition
            },
            None => is_condition_with(r, type_text("lambda"@, "list"@, print_spec(args[0], names))),
        }
    } else if args.len() == 2 {
        is_condition_with(r, arity_text("lambda"@, decimal_of(3) + ".."@, args.len() as int))
    } else {
        match list_spec(args[1]) {
            Some(ps) => if params_ok(ps) {
                &&& r@ is Proc
                &&& match r@->Proc_0.name {
                    Some(n) => names.contains_key(args[0]@->Symbol_0) && n@ == names[args[0]@->Symbol_0],
                    None => !names.contains_key(args[0]@->Symbol_0),
                }
                &&& r@->Proc_0.parent_scope == st.current_scope
                &&& params_are(ps, r@->Proc_0.bindings@)
                &&& r@->Proc_0.code@ == args.subrange(2, args.len() as int)
            } else {
                r@ is Condition
            },
            None => is_condition_with(r, type_text("lambda"@, "list"@, print_spec(args[1], names))),
        }
    }
}

/// Every element of a parameter list is a symbol.
pub open spec fn params_ok(ps: Seq<Value>) -> bool {
    forall|i: int| 0 <= i < ps.len() ==> (#[trigger] ps[i])@ is Symbol
}

/// `ids` are the ids of the symbols `ps`, in order.
pub open spec fn params_are(ps: Seq<Value>, ids: Seq<u64>) -> bool {
    &&& ids.len() == ps.len()
    &&& forall|i: int| 0 <= i < ps.len() ==> #[trigger] ps[i]@ == ValueData::Symbol(ids[i])
}

/// The symbol ids of a parameter list, or the condition for the first
/// element that is not a symbol.
fn parameter_ids(name: &str, params: &Vec<Value>, interner: &StringInterner) -> (r: Result<Vec<u64>, Value>)
    ensures
        match r {
            Ok(ids) => ids@.len() == params@.len() && forall|i: int| 0 <= i < params@.len() ==> #[trigger] params@[i]@ == ValueData::Symbol(ids@[i]),
            Err(c) => c@ is Condition && exists|i: int| 0 <= i < params@.len() && !(#[trigger] params@[i]@ is Symbol),
        },
{
    let mut ids: Vec<u64> = Vec::new();
    let mut i: usize = 0;
    while i < params.len()
        invariant
            i <= params@.len(),
            ids@.len() == i,
            forall|j: int| 0 <= j < i ==> #[trigger] params@[j]@ == ValueData::Symbol(ids@[j]),
        decreases params.len() - i,
    {
        match params[i].get_symbol() {
            Some(id) => ids.push(id),
            None => {
                assert(!(params@[i as int]@ is Symbol));
                return Err(type_condition(name, "symbol", &params[i], interner));
            },
        }
        i = i + 1;
    }
    Ok(ids)
}

/// `(lambda (params) body...)` or `(lambda name (params) body...)`: a
/// closure over the current frame.
pub fn lambda(interpreter: &mut Interpreter, args: &Vec<Value>) -> (r: Value)
    ensures
        *final(interpreter) == *old(interpreter),
        lambda_spec(*old(interpreter), args@, r),
{
    if let Some(c) = check_min("lambda", args.len(), 2) {
        return c;
    }
    let name: Option<String>;
    let first_code: usize;
    let params: Vec<Value>;
    match args[0].get_symbol() {
        Some(id) => {
            if let Some(c) = check_min("lambda", args.len(), 3) {
                return c;
            }
            name = match interpreter.interner.lookup(id) {
                Some(s) => Some(String::from_str(s)),
                None => None,
            };
            params = match args[1].get_list() {
                Some(l) => l,
                None => {
                    return type_condition("lambda", "list", &args[1], &interpreter.interner);
                },
            };
            first_code = 2;
        },
        None => {
            name = None;
            params = match args[0].get_list() {
                Some(l) => l,
                None => {
                    return type_condition("lambda", "list", &args[0], &interpreter.interner);
                },
            };
            first_code = 1;
        },
    }
    let bindings = match parameter_ids("lambda", &params, &interpreter.interner) {
        Ok(ids) => ids,
        Err(c) => {
            return c;
        },
    };
    let mut code: Vec<Value> = Vec::new();
    let mut i = first_code;
    while i < args.len()
        invariant
            first_code <= i <= args@.len(),
            code@ == args@.subrange(first_code as int, i as int),
        decreases args.len() - i,
    {
        code.push(args[i].clone());
        assert(code@ =~= args@.subrange(first_code as int, i as int + 1));
        i = i + 1;
    }
    assert(first_code == 1 ==> args@.subrange(1, args@.len() as int) =~= args@.drop_first());
    assert(params_are(params@, bindings@));
    Value::new_proc(name, interpreter.current_scope, bindings, code)
}

/// `b` is one binding `(name expr)`.
pub open spec fn binding_ok(b: Value) -> bool {
    match list_spec(b) {
        Some(p) => p.len() == 2 && p[0]@ is Symbol,
        None => false,
    }
}

/// `list` is a binding list `((name expr) ...)`.
pub open spec fn bindings_ok(list: Value) -> bool {
    match list_spec(list) {
        Some(items) => forall|i: int| 0 <= i < items.len() ==> binding_ok(#[trigger] items[i]),
        None => false,
    }
}

/// The pairs of a binding list `((name expr) ...)`, or the condition for the
/// first malformed one.
fn binding_pairs(name: &str, list: &Value, interner: &StringInterner) -> (r: Result<(Vec<u64>, Vec<Value>), Value>)
    ensures
        match r {
            Ok((ids, exprs)) => ids@ == binding_ids(*list) && exprs@ == binding_exprs(*list) && bindings_ok(*list),
            Err(c) => c@ is Condition && !bindings_ok(*list),
        },
{
    let items = match list.get_list() {
        Some(l) => l,
        None => {
            return Err(type_condition(name, "list", list, interner));
        },
    };
    let mut ids: Vec<u64> = Vec::new();
    let mut exprs: Vec<Value> = Vec::new();
    let mut i: usize = 0;
    while i < items.len()
        invariant
            i <= items@.len(),
            ids@.len() == i,
            exprs@.len() == i,
            forall|j: int| 0 <= j < i ==> #[trigger] ids@[j] == list_spec(items@[j])->Some_0[0]@->Symbol_0,
            forall|j: int| 0 <= j < i ==> #[trigger] exprs@[j] == list_spec(items@[j])->Some_0[1],
            list_spec(*list) == Some(items@),
            forall|j: int| 0 <= j < i ==> binding_ok(#[trigger] items@[j]),
        decreases items.len() - i,
    {
        let binding = match items[i].get_list() {
            Some(b) => b,
            None => {
                assert(!binding_ok(items@[i as int]));
                assert(!bindings_ok(*list)) by {
                    if bindings_ok(*list) {
                        assert(binding_ok(list_spec(*list)->Some_0[i as int]));
                    }
                }
                return Err(type_condition(name, "list", &items[i], interner));
            },
        };
        if binding.len() != 2 {
            assert(!binding_ok(items@[i as int]));
            assert(!bindings_ok(*list)) by {
                    if bindings_ok(*list) {
                        assert(binding_ok(list_spec(*list)->Some_0[i as int]));
                    }
                }
            let mut m = String::from_str("binding for ");
            m.append(name);
            m.append(" must be a list with length 2");
            return Err(condition_from(m));
        }
        match binding[0].get_symbol() {
            Some(id) => {
                ids.push(id);
                exprs.push(binding[1].clone());
            },
            None => {
                assert(!binding_ok(items@[i as int]));
                assert(!bindings_ok(*list)) by {
                    if bindings_ok(*list) {
                        assert(binding_ok(list_spec(*list)->Some_0[i as int]));
                    }
                }
                return Err(type_condition(name, "symbol", &binding[0], interner));
            },
        }
        i = i + 1;
    }
    assert(ids@ =~= binding_ids(*list));
    assert(exprs@ =~= binding_exprs(*list));
    Ok((ids, exprs))
}

/// `(let ((name expr) ...) body...)`: the exprs are evaluated in the current
/// frame, then the body runs in a child frame with the bindings.
pub fn let_(interpreter: &mut Interpreter, args: &Vec<Value>, fuel: u64) -> (r: Value)
    requires
        old(interpreter).wf(),
    ensures
        final(interpreter).wf(),
        evolves(*old(interpreter), *final(interpreter)),
        args@.len() < 2 ==> is_condition_with(r, arity_text("let"@, decimal_of(2) + ".."@, args@.len() as int)),
        args@.len() >= 2 && !bindings_ok(args@[0]) ==> r@ is Condition && *final(interpreter) == *old(interpreter),
        args@.len() >= 2 && bindings_ok(args@[0]) ==> child_frame_made(*old(interpreter), *final(interpreter)),
        native_agrees(Native::Let, *old(interpreter), args@, fuel, r, *final(interpreter)),
        args@.len() >= 2 && bindings_ok(args@[0]) && ev_args(old(interpreter).scope.frames@, env_of(*old(interpreter)), binding_exprs(args@[0]), fuel as nat) is Some ==> all_kept(
            *old(interpreter),
            *final(interpreter),
        ),
    decreases fuel, 4nat,
{
    if let Some(c) = check_min("let", args.len(), 2) {
        return c;
    }
    let (ids, exprs) = match binding_pairs("let", &args[0], &interpreter.interner) {
        Ok(p) => p,
        Err(c) => {
            return c;
        },
    };
    let ghost env = env_of(*interpreter);
    let ghost fr = interpreter.scope.frames@;
    let vals = interpreter.eval_args(&exprs, fuel);
    let parent = interpreter.current_scope;
    let ghost st1 = *interpreter;
    let frame = interpreter.bind_frame(parent, &ids, &vals);
    proof {
        if ev_args(fr, env, exprs@, fuel as nat) is Some {
            lemma_grows_env(*old(interpreter), st1, parent as int);
        }
    }
    interpreter.current_scope = frame;
    proof {
        assert(args@.subrange(1, args@.len() as int) =~= args@.drop_first());
        if let Some(vs) = ev_args(fr, env, exprs@, fuel as nat) {
            crate::semantics::lemma_mono_body(fr, interpreter.scope.frames@, extend(env, ids@, vs), args@.drop_first(), fuel as nat);
        }
    }
    let res = interpreter.eval_body(args, 1, fuel);
    interpreter.current_scope = parent;
    assert(interpreter.scope.frames@[frame as int].parent == Some(parent));
    res
}

/// `(let* ((name expr) ...) body...)`: each expr is evaluated in the new
/// frame, seeing the bindings before it.
pub fn let_dash(interpreter: &mut Interpreter, args: &Vec<Value>, fuel: u64) -> (r: Value)
    requires
        old(interpreter).wf(),
    ensures
        final(interpreter).wf(),
        evolves(*old(interpreter), *final(interpreter)),
        args@.len() < 2 ==> is_condition_with(r, arity_text("let*"@, decimal_of(2) + ".."@, args@.len() as int)),
        args@.len() >= 2 && !bindings_ok(args@[0]) ==> r@ is Condition && *final(interpreter) == *old(interpreter),
        args@.len() >= 2 && bindings_ok(args@[0]) ==> child_frame_made(*old(interpreter), *final(interpreter)),
        native_agrees(Native::LetStar, *old(interpreter), args@, fuel, r, *final(interpreter)),
        args@.len() >= 2 && bindings_ok(args@[0]) && ev_star(old(interpreter).scope.frames@, env_of(*old(interpreter)), binding_ids(args@[0]), binding_exprs(args@[0]), fuel as nat) is Some ==> all_kept(
            *old(interpreter),
            *final(interpreter),
        ),
    decreases fuel, 4nat,
{
    if let Some(c) = check_min("let*", args.len(), 2) {
        return c;
    }
    let (ids, exprs) = match binding_pairs("let*", &args[0], &interpreter.interner) {
        Ok(p) => p,
        Err(c) => {
            return c;
        },
    };
    let ghost env = env_of(*interpreter);
    let ghost fr = interpreter.scope.frames@;
    let parent = interpreter.current_scope;
    let (frame, vals) = interpreter.bind_in_order(&ids, &exprs, fuel);
    interpreter.current_scope = frame;
    proof {
        if ev_star(fr, env, ids@, exprs@, fuel as nat) is Some {
            crate::semantics::lemma_mono_body(fr, interpreter.scope.frames@, extend(env, ids@, vals@), args@.drop_first(), fuel as nat);
            assert(args@.subrange(1, args@.len() as int) =~= args@.drop_first());
        }
    }
    let res = interpreter.eval_body(args, 1, fuel);
    interpreter.current_scope = parent;
    assert(interpreter.scope.frames@[frame as int].parent == Some(parent));
    assert(args@.subrange(1, args@.len() as int) =~= args@.drop_first());
    res
}

/// A frame was made, since `old`, as a child of the frame that was current.
pub open spec fn child_frame_made(old: Interpreter, new: Interpreter) -> bool {
    exists|k: int|
        old.scope.frames@.len() <= k < new.scope.frames@.len() && #[trigger] new.scope.frames@[k].parent == Some(
            old.current_scope,
        )
}

/// Frames and names have only grown since `old`.
pub open spec fn parents_kept_since(old: Interpreter, new: Interpreter) -> bool {
    &&& crate::scope::parents_kept(old.scope.frames@, new.scope.frames@)
    &&& crate::interpreter::names_kept(old.interner.names(), new.interner.names())
}

/// `(loop ((name expr) ...) body...)`: the names are bound in order in a
/// new frame, each expr seeing the ones before it; then the body runs
/// through the trampoline.
pub fn loop_(interpreter: &mut Interpreter, args: &Vec<Value>, fuel: u64) -> (r: Value)
    requires
        old(interpreter).wf(),
    ensures
        final(interpreter).wf(),
        evolves(*old(interpreter), *final(interpreter)),
        args@.len() < 2 ==> is_condition_with(r, arity_text("loop"@, decimal_of(2) + ".."@, args@.len() as int)),
        args@.len() >= 2 && !bindings_ok(args@[0]) ==> r@ is Condition && *final(interpreter) == *old(interpreter),
        !(r@ is Recur),
        native_agrees(Native::Loop, *old(interpreter), args@, fuel, r, *final(interpreter)),
        args@.len() >= 2 && bindings_ok(args@[0]) ==> all_kept(*old(interpreter), *final(interpreter)),
        args@.len() >= 2 && bindings_ok(args@[0]) ==> (ev_star(
            old(interpreter).scope.frames@,
            env_of(*old(interpreter)),
            binding_ids(args@[0]),
            binding_exprs(args@[0]),
            fuel as nat,
        ) matches Some(vs) ==> (tramp(
            old(interpreter).scope.frames@,
            env_of(*old(interpreter)),
            binding_ids(args@[0]),
            vs,
            args@.drop_first(),
            fuel as nat,
            fuel as nat,
        ) matches Some(e) ==> ending_is(r, e))),
    decreases fuel, 4nat,
{
    if let Some(c) = check_min("loop", args.len(), 2) {
        return c;
    }
    let (ids, exprs) = match binding_pairs("loop", &args[0], &interpreter.interner) {
        Ok(p) => p,
        Err(c) => {
            return c;
        },
    };
    let mut bindings: Vec<(u64, Value)> = Vec::new();
    let mut i: usize = 0;
    while i < ids.len()
        invariant
            ids@.len() == exprs@.len(),
            i <= ids@.len(),
            bindings@.len() == i,
            forall|j: int| 0 <= j < i ==> #[trigger] bindings@[j] == (ids@[j], exprs@[j]),
        decreases ids.len() - i,
    {
        bindings.push((ids[i], exprs[i].clone()));
        i = i + 1;
    }
    let mut body: Vec<Value> = Vec::new();
    let mut j: usize = 1;
    while j < args.len()
        invariant
            1 <= j <= args@.len(),
            body@ == args@.subrange(1, j as int),
        decreases args.len() - j,
    {
        body.push(args[j].clone());
        assert(body@ =~= args@.subrange(1, j as int + 1));
        j = j + 1;
    }
    assert(body@ =~= args@.drop_first());
    let lp = LetLoop::new(bindings, body);
    assert(lp.ids_view() =~= ids@);
    assert(lp.exprs_view() =~= exprs@);
    lp.evaluate_loop(interpreter, fuel)
}

/// `(begin e...)`: evaluates all, gives the last.
pub fn begin(interpreter: &mut Interpreter, args: &Vec<Value>, fuel: u64) -> (r: Value)
    requires
        old(interpreter).wf(),
    ensures
        final(interpreter).wf(),
        evolves(*old(interpreter), *final(interpreter)),
        args@.len() == 0 ==> is_condition_with(r, arity_text("begin"@, decimal_of(1) + ".."@, 0)),
        args@.len() > 0 && all_atoms(args@) ==> exists|vals: Seq<Value>| atom_results(*old(interpreter), args@, vals) && r == vals.last(),
        native_agrees(Native::Begin, *old(interpreter), args@, fuel, r, *final(interpreter)),
    decreases fuel, 4nat,
{
    let vals = interpreter.eval_args(args, fuel);
    if let Some(c) = check_min("begin", vals.len(), 1) {
        return c;
    }
    let r = vals[vals.len() - 1].clone();
    assert(r == vals@.last());
    assert(all_atoms(args@) ==> atom_results(*old(interpreter), args@, vals@));
    r
}

/// `(recur e...)`: the signal that carries the values of its arguments to
/// the enclosing `loop` or closure body.
pub fn recur(interpreter: &mut Interpreter, args: &Vec<Value>, fuel: u64) -> (r: Value)
    requires
        old(interpreter).wf(),
    ensures
        final(interpreter).wf(),
        evolves(*old(interpreter), *final(interpreter)),
        r@ is Recur && r@->Recur_0@.len() == args@.len(),
        all_atoms(args@) ==> atom_results(*old(interpreter), args@, r@->Recur_0@),
        native_agrees(Native::Recur, *old(interpreter), args@, fuel, r, *final(interpreter)),
    decreases fuel, 4nat,
{
    let vals = interpreter.eval_args(args, fuel);
    Value::new_recur(vals)
}

/// `(eq? a b ...)`: whether the values are structurally equal.
pub fn poly_eq(interpreter: &mut Interpreter, args: &Vec<Value>, fuel: u64) -> (r: Value)
    requires
        old(interpreter).wf(),
    ensures
        final(interpreter).wf(),
        evolves(*old(interpreter), *final(interpreter)),
        args@.len() < 2 ==> is_condition_with(r, arity_text("eq?"@, decimal_of(2) + ".."@, args@.len() as int)),
        args@.len() >= 2 && all_atoms(args@) ==> exists|vals: Seq<Value>| atom_results(*old(interpreter), args@, vals) && r@ == ValueData::Bool(all_equal_spec(vals)),
        native_agrees(Native::PolyEq, *old(interpreter), args@, fuel, r, *final(interpreter)),
    decreases fuel, 4nat,
{
    let vals = interpreter.eval_args(args, fuel);
    if let Some(c) = check_min("eq?", vals.len(), 2) {
        return c;
    }
    let r = Value::new_bool(all_equal(&vals));
    assert(all_atoms(args@) ==> atom_results(*old(interpreter), args@, vals@));
    r
}

/// The type predicates: `null? boolean? symbol? integer? char? string?
/// procedure? list? pair?`.
pub fn type_predicate(interpreter: &mut Interpreter, n: Native, args: &Vec<Value>, fuel: u64) -> (r: Value)
    requires
        old(interpreter).wf(),
        n is NullP || n is BooleanP || n is SymbolP || n is IntegerP || n is CharP || n is StringP || n is ProcedureP
            || n is ListP || n is PairP,
    ensures
        final(interpreter).wf(),
        evolves(*old(interpreter), *final(interpreter)),
        args@.len() != 1 ==> r@ is Condition,
        args@.len() == 1 && all_atoms(args@) ==> exists|vals: Seq<Value>| atom_results(*old(interpreter), args@, vals) && r@ == ValueData::Bool(type_test_spec(n, vals[0])),
        native_agrees(n, *old(interpreter), args@, fuel, r, *final(interpreter)),
    decreases fuel, 4nat,
{
    let vals = interpreter.eval_args(args, fuel);
    if let Some(c) = check_exact(n.name(), vals.len(), 1) {
        return c;
    }
    let r = Value::new_bool(type_test(n, &vals[0]));
    assert(all_atoms(args@) ==> atom_results(*old(interpreter), args@, vals@));
    r
}

/// Evaluates the single argument of a one-operand built-in, or gives the
/// arity condition.
fn one_value(interpreter: &mut Interpreter, name: &str, args: &Vec<Value>, fuel: u64) -> (r: Result<Value, Value>)
    requires
        old(interpreter).wf(),
    ensures
        final(interpreter).wf(),
        evolves(*old(interpreter), *final(interpreter)),
        args@.len() != 1 ==> r is Err && is_condition_with(r->Err_0, arity_text(name@, decimal_of(1), args@.len() as int)),
        args@.len() == 1 ==> r is Ok,
        args@.len() == 1 && all_atoms(args@) ==> atom_result(*old(interpreter), args@[0], r->Ok_0),
        args@.len() == 1 ==> (ev(old(interpreter).scope.frames@, env_of(*old(interpreter)), args@[0], fuel as nat) matches Some(Outcome::Val(x)) ==> r
            == Ok::<Value, Value>(x) && grows(*old(interpreter), *final(interpreter))),
    decreases fuel, 2nat,
{
    proof {
        if args@.len() == 1 {
            let e = env_of(*old(interpreter));
            let fr = old(interpreter).scope.frames@;
            assert(args@.drop_last() =~= Seq::<Value>::empty());
            assert(ev_args(fr, e, args@.drop_last(), fuel as nat) == Some(Seq::<Value>::empty()));
            assert(args@.last() == args@[0]);
            if let Some(Outcome::Val(x)) = ev(fr, e, args@[0], fuel as nat) {
                assert(ev_args(fr, e, args@, fuel as nat) == Some(Seq::<Value>::empty().push(x)));
            }
        }
    }
    let vals = interpreter.eval_args(args, fuel);
    if let Some(c) = check_exact(name, vals.len(), 1) {
        return Err(c);
    }
    proof {
        if ev_args(old(interpreter).scope.frames@, env_of(*old(interpreter)), args@, fuel as nat) is Some {
            lemma_ev_args_prefix(old(interpreter).scope.frames@, env_of(*old(interpreter)), args@, fuel as nat, 0);
        }
    }
    Ok(vals[0].clone())
}

/// `(char->integer c)`: the character's code.
pub fn char_integer(interpreter: &mut Interpreter, args: &Vec<Value>, fuel: u64) -> (r: Value)
    requires
        old(interpreter).wf(),
    ensures
        final(interpreter).wf(),
        evolves(*old(interpreter), *final(interpreter)),
        args@.len() != 1 ==> is_condition_with(r, arity_text("char->integer"@, decimal_of(1), args@.len() as int)),
        args@.len() == 1 ==> (ev(old(interpreter).scope.frames@, env_of(*old(interpreter)), args@[0], fuel as nat) matches Some(Outcome::Val(x)) ==> match x@ {
            ValueData::Char(c) => r@ == ValueData::Integer((c as u32) as i64),
            _ => is_condition_with(r, type_text("char->integer"@, "char"@, print_spec(x, final(interpreter).interner.names()))),
        }),
    decreases fuel, 4nat,
{
    let v = match one_value(interpreter, "char->integer", args, fuel) {
        Ok(v) => v,
        Err(c) => {
            return c;
        },
    };
    match v.get_char() {
        Some(c) => Value::new_integer((c as u32) as i64),
        None => type_condition("char->integer", "char", &v, &interpreter.interner),
    }
}

/// `(integer->char i)`: the character with code `i`, for `0 < i` that is a
/// Unicode scalar value.
pub fn integer_char(interpreter: &mut Interpreter, args: &Vec<Value>, fuel: u64) -> (r: Value)
    requires
        old(interpreter).wf(),
    ensures
        final(interpreter).wf(),
        evolves(*old(interpreter), *final(interpreter)),
        args@.len() != 1 ==> is_condition_with(r, arity_text("integer->char"@, decimal_of(1), args@.len() as int)),
        args@.len() == 1 ==> (ev(old(interpreter).scope.frames@, env_of(*old(interpreter)), args@[0], fuel as nat) matches Some(Outcome::Val(x)) ==> match x@ {
            ValueData::Integer(i) => if 0 < i && i < 0xFFFF_FFFF && is_scalar_value(i as u32) {
                r@ is Char && (r@->Char_0 as u32) as i64 == i
            } else {
                is_condition_with(r, "integer is not a valid char"@)
            },
            _ => is_condition_with(r, type_text("integer->char"@, "integer"@, print_spec(x, final(interpreter).interner.names()))),
        }),
    decreases fuel, 4nat,
{
    let v = match one_value(interpreter, "integer->char", args, fuel) {
        Ok(v) => v,
        Err(c) => {
            return c;
        },
    };
    let i = match v.get_integer() {
        Some(i) => i,
        None => {
            return type_condition("integer->char", "integer", &v, &interpreter.interner);
        },
    };
    if 0 < i && i < 0xFFFF_FFFF {
        if let Some(c) = char_from_code(i as u32) {
            return Value::new_char(c);
        }
    }
    condition("integer is not a valid char")
}

/// `(number->string i)`: decimal notation of `i`.
pub fn number_string(interpreter: &mut Interpreter, args: &Vec<Value>, fuel: u64) -> (r: Value)
    requires
        old(interpreter).wf(),
    ensures
        final(interpreter).wf(),
        evolves(*old(interpreter), *final(interpreter)),
        args@.len() != 1 ==> is_condition_with(r, arity_text("number->string"@, decimal_of(1), args@.len() as int)),
        args@.len() == 1 ==> (ev(old(interpreter).scope.frames@, env_of(*old(interpreter)), args@[0], fuel as nat) matches Some(Outcome::Val(x)) ==> match x@ {
            ValueData::Integer(i) => r@ is String && r@->String_0@ == decimal_of(i as int),
            _ => is_condition_with(r, type_text("number->string"@, "integer"@, print_spec(x, final(interpreter).interner.names()))),
        }),
    decreases fuel, 4nat,
{
    let v = match one_value(interpreter, "number->string", args, fuel) {
        Ok(v) => v,
        Err(c) => {
            return c;
        },
    };
    match v.get_integer() {
        Some(i) => {
            let s = decimal_string(i as i128);
            Value::new_string(s.as_str())
        },
        None => type_condition("number->string", "integer", &v, &interpreter.interner),
    }
}

/// `(string->number s)`: the integer that `s` writes.
pub fn string_number(interpreter: &mut Interpreter, args: &Vec<Value>, fuel: u64) -> (r: Value)
    requires
        old(interpreter).wf(),
    ensures
        final(interpreter).wf(),
        evolves(*old(interpreter), *final(interpreter)),
        args@.len() != 1 ==> is_condition_with(r, arity_text("string->number"@, decimal_of(1), args@.len() as int)),
        args@.len() == 1 ==> (ev(old(interpreter).scope.frames@, env_of(*old(interpreter)), args@[0], fuel as nat) matches Some(Outcome::Val(x)) ==> match x@ {
            ValueData::String(s) => if crate::lexer::is_integer_text(s@) && crate::lexer::fits_i64(
                crate::lexer::integer_text_value(s@),
            ) {
                r@ is Integer && r@->Integer_0 as int == crate::lexer::integer_text_value(s@)
            } else {
                is_condition_with(r, "string is not a valid integer: "@ + print_spec(x, final(interpreter).interner.names()))
            },
            _ => is_condition_with(r, type_text("string->number"@, "string"@, print_spec(x, final(interpreter).interner.names()))),
        }),
    decreases fuel, 4nat,
{
    let v = match one_value(interpreter, "string->number", args, fuel) {
        Ok(v) => v,
        Err(c) => {
            return c;
        },
    };
    match v.get_string() {
        Some(s) => match crate::lexer::parse_integer(s) {
            Some(i) => Value::new_integer(i),
            None => {
                let t = v.to_string(&interpreter.interner);
                condition_from(join2("string is not a valid integer: ", t.as_str()))
            },
        },
        None => type_condition("string->number", "string", &v, &interpreter.interner),
    }
}

/// `(symbol->string s)`: the name of the symbol.
pub fn symbol_string(interpreter: &mut Interpreter, args: &Vec<Value>, fuel: u64) -> (r: Value)
    requires
        old(interpreter).wf(),
    ensures
        final(interpreter).wf(),
        evolves(*old(interpreter), *final(interpreter)),
        args@.len() != 1 ==> is_condition_with(r, arity_text("symbol->string"@, decimal_of(1), args@.len() as int)),
        args@.len() == 1 ==> (ev(old(interpreter).scope.frames@, env_of(*old(interpreter)), args@[0], fuel as nat) matches Some(Outcome::Val(x)) ==> match x@ {
            ValueData::Symbol(id) => if final(interpreter).interner.names().contains_key(id) {
                r@ is String && r@->String_0@ == final(interpreter).interner.names()[id]
            } else {
                is_condition_with(r, "internal error: invalid symbol"@)
            },
            _ => is_condition_with(r, type_text("symbol->string"@, "symbol"@, print_spec(x, final(interpreter).interner.names()))),
        }),
    decreases fuel, 4nat,
{
    let v = match one_value(interpreter, "symbol->string", args, fuel) {
        Ok(v) => v,
        Err(c) => {
            return c;
        },
    };
    let id = match v.get_symbol() {
        Some(id) => id,
        None => {
            return type_condition("symbol->string", "symbol", &v, &interpreter.interner);
        },
    };
    match interpreter.interner.lookup(id) {
        Some(s) => Value::new_string(s),
        None => condition("internal error: invalid symbol"),
    }
}

/// `(string->symbol s)`: the symbol named `s`.
pub fn string_symbol(interpreter: &mut Interpreter, args: &Vec<Value>, fuel: u64) -> (r: Value)
    requires
        old(interpreter).wf(),
    ensures
        final(interpreter).wf(),
        evolves(*old(interpreter), *final(interpreter)),
        args@.len() != 1 ==> is_condition_with(r, arity_text("string->symbol"@, decimal_of(1), args@.len() as int)),
        args@.len() == 1 ==> (ev(old(interpreter).scope.frames@, env_of(*old(interpreter)), args@[0], fuel as nat) matches Some(Outcome::Val(x)) ==> match x@ {
            ValueData::String(s) => {
                let id = crate::string_interner::symbol_id_of(s@);
                &&& r@ == ValueData::Symbol(id)
                &&& final(interpreter).interner.names().contains_key(id)
                &&& final(interpreter).interner.names()[id] == if old(interpreter).interner.names().contains_key(id) {
                    old(interpreter).interner.names()[id]
                } else {
                    s@
                }
            },
            _ => is_condition_with(r, type_text("string->symbol"@, "string"@, print_spec(x, final(interpreter).interner.names())))
                && final(interpreter).interner == old(interpreter).interner,
        }),
    decreases fuel, 4nat,
{
    let v = match one_value(interpreter, "string->symbol", args, fuel) {
        Ok(v) => v,
        Err(c) => {
            return c;
        },
    };
    match v.get_string() {
        Some(s) => {
            let id = interpreter.interner.intern(s);
            Value::new_symbol(id)
        },
        None => type_condition("string->symbol", "string", &v, &interpreter.interner),
    }
}

/// `+ - * quotient remainder` on the values of the arguments.
pub fn arithmetic(interpreter: &mut Interpreter, op: Native, args: &Vec<Value>, fuel: u64) -> (r: Value)
    requires
        old(interpreter).wf(),
        op is Plus || op is Minus || op is Multiply || op is Quotient || op is Remainder,
    ensures
        final(interpreter).wf(),
        evolves(*old(interpreter), *final(interpreter)),
        all_atoms(args@) ==> exists|vals: Seq<Value>| atom_results(*old(interpreter), args@, vals) && arith_result(op, arith_spec(op, vals), old(interpreter).interner.names(), r),
        native_agrees(op, *old(interpreter), args@, fuel, r, *final(interpreter)),
    decreases fuel, 4nat,
{
    let vals = interpreter.eval_args(args, fuel);
    let r = arithmetic_values(op, &vals, &interpreter.interner);
    assert(all_atoms(args@) ==> atom_results(*old(interpreter), args@, vals@));
    r
}

/// `= < <= > >=` on the values of at least two arguments.
pub fn comparison(interpreter: &mut Interpreter, op: Native, args: &Vec<Value>, fuel: u64) -> (r: Value)
    requires
        old(interpreter).wf(),
        op is NumEq || op is Gt || op is Ge || op is Lt || op is Le,
    ensures
        final(interpreter).wf(),
        evolves(*old(interpreter), *final(interpreter)),
        args@.len() < 2 ==> r@ is Condition,
        args@.len() >= 2 && all_atoms(args@) ==> exists|vals: Seq<Value>| atom_results(*old(interpreter), args@, vals) && compare_result(op, compare_spec(op, vals), old(interpreter).interner.names(), r),
        native_agrees(op, *old(interpreter), args@, fuel, r, *final(interpreter)),
    decreases fuel, 4nat,
{
    let vals = interpreter.eval_args(args, fuel);
    if let Some(c) = check_min(op.name(), vals.len(), 2) {
        return c;
    }
    let r = comparison_values(op, &vals, &interpreter.interner);
    assert(all_atoms(args@) ==> atom_results(*old(interpreter), args@, vals@));
    r
}

/// `(list e...)`: the list of the values.
pub fn list(interpreter: &mut Interpreter, args: &Vec<Value>, fuel: u64) -> (r: Value)
    requires
        old(interpreter).wf(),
    ensures
        final(interpreter).wf(),
        evolves(*old(interpreter), *final(interpreter)),
        list_spec(r) is Some && list_spec(r)->Some_0.len() == args@.len(),
        all_atoms(args@) ==> exists|vals: Seq<Value>| atom_results(*old(interpreter), args@, vals) && r == list_of(vals),
        native_agrees(Native::List, *old(interpreter), args@, fuel, r, *final(interpreter)),
    decreases fuel, 4nat,
{
    let vals = interpreter.eval_args(args, fuel);
    let r = Value::new_list(vals.as_slice());
    assert(all_atoms(args@) ==> atom_results(*old(interpreter), args@, vals@));
    r
}

/// `(car p)`: the head of a pair.
pub fn car(interpreter: &mut Interpreter, args: &Vec<Value>, fuel: u64) -> (r: Value)
    requires
        old(interpreter).wf(),
    ensures
        final(interpreter).wf(),
        evolves(*old(interpreter), *final(interpreter)),
        args@.len() != 1 ==> is_condition_with(r, arity_text("car"@, decimal_of(1), args@.len() as int)),
        native_agrees(Native::Car, *old(interpreter), args@, fuel, r, *final(interpreter)),
        args@.len() == 1 ==> (ev(old(interpreter).scope.frames@, env_of(*old(interpreter)), args@[0], fuel as nat) matches Some(Outcome::Val(x)) ==> match x@ {
            ValueData::Pair(a, _) => r == a,
            _ => is_condition_with(r, type_text("car"@, "pair"@, print_spec(x, final(interpreter).interner.names()))),
        }),
    decreases fuel, 4nat,
{
    proof {
        if ev_args(old(interpreter).scope.frames@, env_of(*old(interpreter)), args@, fuel as nat) is Some {
            lemma_ev_args_prefix(old(interpreter).scope.frames@, env_of(*old(interpreter)), args@, fuel as nat, 0);
        }
    }
    let v = match one_value(interpreter, "car", args, fuel) {
        Ok(v) => v,
        Err(c) => {
            return c;
        },
    };
    match v.get_pair() {
        Some((a, _)) => a.clone(),
        None => type_condition("car", "pair", &v, &interpreter.interner),
    }
}

/// `(cdr p)`: the tail of a pair.
pub fn cdr(interpreter: &mut Interpreter, args: &Vec<Value>, fuel: u64) -> (r: Value)
    requires
        old(interpreter).wf(),
    ensures
        final(interpreter).wf(),
        evolves(*old(interpreter), *final(interpreter)),
        args@.len() != 1 ==> is_condition_with(r, arity_text("cdr"@, decimal_of(1), args@.len() as int)),
        native_agrees(Native::Cdr, *old(interpreter), args@, fuel, r, *final(interpreter)),
        args@.len() == 1 ==> (ev(old(interpreter).scope.frames@, env_of(*old(interpreter)), args@[0], fuel as nat) matches Some(Outcome::Val(x)) ==> match x@ {
            ValueData::Pair(_, b) => r == b,
            _ => is_condition_with(r, type_text("cdr"@, "pair"@, print_spec(x, final(interpreter).interner.names()))),
        }),
    decreases fuel, 4nat,
{
    proof {
        if ev_args(old(interpreter).scope.frames@, env_of(*old(interpreter)), args@, fuel as nat) is Some {
            lemma_ev_args_prefix(old(interpreter).scope.frames@, env_of(*old(interpreter)), args@, fuel as nat, 0);
        }
    }
    let v = match one_value(interpreter, "cdr", args, fuel) {
        Ok(v) => v,
        Err(c) => {
            return c;
        },
    };
    match v.get_pair() {
        Some((_, b)) => b.clone(),
        None => type_condition("cdr", "pair", &v, &interpreter.interner),
    }
}

/// `(cons a b)`: the pair of the two values.
pub fn cons(interpreter: &mut Interpreter, args: &Vec<Value>, fuel: u64) -> (r: Value)
    requires
        old(interpreter).wf(),
    ensures
        final(interpreter).wf(),
        evolves(*old(interpreter), *final(interpreter)),
        args@.len() != 2 ==> is_condition_with(r, arity_text("cons"@, decimal_of(2), args@.len() as int)),
        args@.len() == 2 && all_atoms(args@) ==> exists|vals: Seq<Value>| atom_results(*old(interpreter), args@, vals) && r@ == ValueData::Pair(vals[0], vals[1]),
        native_agrees(Native::Cons, *old(interpreter), args@, fuel, r, *final(interpreter)),
    decreases fuel, 4nat,
{
    let vals = interpreter.eval_args(args, fuel);
    if let Some(c) = check_exact("cons", vals.len(), 2) {
        return c;
    }
    let r = Value::new_pair(vals[0].clone(), vals[1].clone());
    assert(all_atoms(args@) ==> atom_results(*old(interpreter), args@, vals@));
    r
}

/// `(set-car! name x)` and `(set-cdr! name x)`: rebinds `name` in the
/// current frame to a new pair with one part replaced by `x`, as written;
/// the old pair is not changed.
fn set_part(interpreter: &mut Interpreter, op: &str, head: bool, args: &Vec<Value>, fuel: u64) -> (r: Value)
    requires
        old(interpreter).wf(),
    ensures
        final(interpreter).wf(),
        evolves(*old(interpreter), *final(interpreter)),
        args@.len() != 2 ==> is_condition_with(r, arity_text(op@, decimal_of(2), args@.len() as int)),
        args@.len() == 2 && !(args@[0]@ is Symbol) ==> r@ is Condition && *final(interpreter) == *old(interpreter),
        args@.len() == 2 && args@[0]@ is Symbol ==> match env_of(*old(interpreter))(args@[0]@->Symbol_0) {
            Some(p) => match p@ {
                ValueData::Pair(a, b) => r == args@[0] && rebound(
                    *old(interpreter),
                    *final(interpreter),
                    args@[0]@->Symbol_0,
                    datum(ValueData::Pair(if head { args@[1] } else { a }, if head { b } else { args@[1] })),
                ),
                _ => is_condition_with(r, type_text(op@, "pair"@, print_spec(p, old(interpreter).interner.names())))
                    && *final(interpreter) == *old(interpreter),
            },
            None => r@ is Condition && *final(interpreter) == *old(interpreter),
        },
    decreases fuel, 2nat,
{
    if let Some(c) = check_exact(op, args.len(), 2) {
        return c;
    }
    let id = match args[0].get_symbol() {
        Some(id) => id,
        None => {
            return type_condition(op, "symbol", &args[0], &interpreter.interner);
        },
    };
    let old_pair = interpreter.eval(&args[0], fuel);
    let new_pair = match old_pair.get_pair() {
        Some((a, b)) => {
            let elem = args[1].clone();
            if head {
                Value::new_pair(elem, b.clone())
            } else {
                Value::new_pair(a.clone(), elem)
            }
        },
        None => {
            return type_condition(op, "pair", &old_pair, &interpreter.interner);
        },
    };
    let cur = interpreter.current_scope;
    interpreter.scope.add_symbol(cur, id, new_pair);
    args[0].clone()
}

/// `(set-car! name x)`: rebinds `name` to a pair whose head is `x`.
pub fn set_car_(interpreter: &mut Interpreter, args: &Vec<Value>, fuel: u64) -> (r: Value)
    requires
        old(interpreter).wf(),
    ensures
        final(interpreter).wf(),
        evolves(*old(interpreter), *final(interpreter)),
        args@.len() != 2 ==> is_condition_with(r, arity_text("set-car!"@, decimal_of(2), args@.len() as int)),
        args@.len() == 2 && !(args@[0]@ is Symbol) ==> r@ is Condition && *final(interpreter) == *old(interpreter),
        args@.len() == 2 && args@[0]@ is Symbol ==> match env_of(*old(interpreter))(args@[0]@->Symbol_0) {
            Some(p) => match p@ {
                ValueData::Pair(a, b) => r == args@[0] && rebound(
                    *old(interpreter),
                    *final(interpreter),
                    args@[0]@->Symbol_0,
                    datum(ValueData::Pair(args@[1], b)),
                ),
                _ => is_condition_with(r, type_text("set-car!"@, "pair"@, print_spec(p, old(interpreter).interner.names())))
                    && *final(interpreter) == *old(interpreter),
            },
            None => r@ is Condition && *final(interpreter) == *old(interpreter),
        },
    decreases fuel, 4nat,
{
    set_part(interpreter, "set-car!", true, args, fuel)
}

/// `(set-cdr! name x)`: rebinds `name` to a pair whose tail is `x`.
pub fn set_cdr_(interpreter: &mut Interpreter, args: &Vec<Value>, fuel: u64) -> (r: Value)
    requires
        old(interpreter).wf(),
    ensures
        final(interpreter).wf(),
        evolves(*old(interpreter), *final(interpreter)),
        args@.len() != 2 ==> is_condition_with(r, arity_text("set-cdr!"@, decimal_of(2), args@.len() as int)),
        args@.len() == 2 && !(args@[0]@ is Symbol) ==> r@ is Condition && *final(interpreter) == *old(interpreter),
        args@.len() == 2 && args@[0]@ is Symbol ==> match env_of(*old(interpreter))(args@[0]@->Symbol_0) {
            Some(p) => match p@ {
                ValueData::Pair(a, b) => r == args@[0] && rebound(
                    *old(interpreter),
                    *final(interpreter),
                    args@[0]@->Symbol_0,
                    datum(ValueData::Pair(a, args@[1])),
                ),
                _ => is_condition_with(r, type_text("set-cdr!"@, "pair"@, print_spec(p, old(interpreter).interner.names())))
                    && *final(interpreter) == *old(interpreter),
            },
            None => r@ is Condition && *final(interpreter) == *old(interpreter),
        },
    decreases fuel, 4nat,
{
    set_part(interpreter, "set-cdr!", false, args, fuel)
}

/// `(symbol-space)`: the list of symbols bound as seen from the current
/// frame, innermost frame first.
pub fn symbol_space(interpreter: &mut Interpreter, args: &Vec<Value>) -> (r: Value)
    ensures
        *final(interpreter) == *old(interpreter),
        args@.len() != 0 ==> is_condition_with(r, arity_text("symbol-space"@, decimal_of(0), args@.len() as int)),
        args@.len() == 0 ==> match list_spec(r) {
            Some(s) => {
                let ids = crate::scope::chain_ids(final(interpreter).scope.frames@, final(interpreter).current_scope as int);
                &&& s.len() == ids.len()
                &&& forall|i: int| 0 <= i < s.len() ==> (#[trigger] s[i])@ == ValueData::Symbol(ids[i])
            },
            None => false,
        },
{
    if let Some(c) = check_exact("symbol-space", args.len(), 0) {
        return c;
    }
    let ids = interpreter.scope.symbol_ids(interpreter.current_scope);
    let mut symbols: Vec<Value> = Vec::new();
    let mut i: usize = 0;
    while i < ids.len()
        invariant
            i <= ids@.len(),
            symbols@.len() == i,
            forall|j: int| 0 <= j < i ==> (#[trigger] symbols@[j])@ == ValueData::Symbol(ids@[j]),
        decreases ids.len() - i,
    {
        symbols.push(Value::new_symbol(ids[i]));
        i = i + 1;
    }
    Value::new_list(symbols.as_slice())
}

} // verus!
