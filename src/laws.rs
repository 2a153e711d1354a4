//! Properties of the evaluator that relate several of its parts.
use crate::interpreter::{atom_result, is_condition_with, native_bound, only_natives, Interpreter};
use crate::native::{
    all_equal_spec, bindings_ok, arith_from, arith_spec, compare_from, compare_spec, equal_spec, ArithOutcome, CompareOutcome,
};
use crate::printer::print_spec;
use crate::scope::ScopeData;
use crate::semantics::{no_signal, signal_before_last, Ending, ev_star, apply_values, binding_exprs, binding_ids, bound_in, ev, ev_args, ev_body, ev_native, extend, tramp, Env, Outcome};
use crate::string_interner::symbol_id_of;
use crate::value::{datum, lemma_list_of, list_of, native_name, Native, Value, ValueData};
use vstd::prelude::*;

verus! {

/// `(quote x)` for the symbol id `q`.
pub open spec fn quoted(q: u64, x: Value) -> Value {
    list_of(seq![datum(ValueData::Symbol(q)), x])
}

/// `eq?` compares structure: where `e` names `eq?` and `q` names `quote`,
/// `(e (q a) (q b))` is true exactly when `a` and `b` are built alike, even
/// when they are two separate constructions.
pub proof fn lemma_eq_structural(frames: Seq<ScopeData>, env: Env, e: u64, q: u64, a: Value, b: Value, fuel: nat)
    requires
        env(e) == Some(datum(ValueData::NativeProc(Native::PolyEq))),
        env(q) == Some(datum(ValueData::NativeProc(Native::Quote))),
        fuel >= 2,
    ensures
        ev(frames, env, list_of(seq![datum(ValueData::Symbol(e)), quoted(q, a), quoted(q, b)]), fuel) == Some(
            Outcome::Val(datum(ValueData::Bool(equal_spec(a, b)))),
        ),
{
    let f = (fuel - 1) as nat;
    let args = seq![quoted(q, a), quoted(q, b)];
    let whole = seq![datum(ValueData::Symbol(e)), quoted(q, a), quoted(q, b)];
    lemma_list_of(whole);
    lemma_list_of(seq![datum(ValueData::Symbol(q)), a]);
    lemma_list_of(seq![datum(ValueData::Symbol(q)), b]);
    assert(whole.drop_first() =~= args);
    lemma_list_of(args);
    assert(seq![datum(ValueData::Symbol(q)), a].drop_first() =~= seq![a]);
    assert(seq![datum(ValueData::Symbol(q)), b].drop_first() =~= seq![b]);
    lemma_list_of(seq![a]);
    lemma_list_of(seq![b]);
    lemma_quote_gives(frames, env, q, a, f);
    lemma_quote_gives(frames, env, q, b, f);
    assert(args.drop_last() =~= seq![quoted(q, a)]);
    assert(seq![quoted(q, a)].drop_last() =~= Seq::<Value>::empty());
    assert(ev_args(frames, env, Seq::<Value>::empty(), f) == Some(Seq::<Value>::empty()));
    assert(seq![quoted(q, a)].last() == quoted(q, a));
    assert(Seq::<Value>::empty().push(a) =~= seq![a]);
    assert(ev_args(frames, env, seq![quoted(q, a)], f) == Some(seq![a]));
    assert(args.last() == quoted(q, b));
    assert(seq![a].push(b) =~= seq![a, b]);
    assert(ev_args(frames, env, args, f) == Some(seq![a, b]));
    let vs = seq![a, b];
    assert(all_equal_spec(vs) == equal_spec(a, b)) by {
        if equal_spec(a, b) {
            assert forall|i: int| 0 <= i < vs.len() - 1 implies #[trigger] equal_spec(vs[i], vs[i + 1]) by {
                assert(i == 0);
            }
        } else {
            let z: int = 0;
            assert(!equal_spec(vs[z], vs[z + 1]));
        }
    }
    assert(ev_native(frames, env, Native::PolyEq, args, f) == Some(Outcome::Val(datum(ValueData::Bool(equal_spec(a, b))))));
    let v = list_of(whole);
    assert(v@ == ValueData::Pair(datum(ValueData::Symbol(e)), list_of(args)));
    assert(ev(frames, env, datum(ValueData::Symbol(e)), f) == Some(Outcome::Val(datum(ValueData::NativeProc(Native::PolyEq)))));
}

/// Where `q` names `quote`, `(q x)` gives `x`.
proof fn lemma_quote_gives(frames: Seq<ScopeData>, env: Env, q: u64, x: Value, fuel: nat)
    requires
        env(q) == Some(datum(ValueData::NativeProc(Native::Quote))),
        fuel >= 1,
    ensures
        ev(frames, env, quoted(q, x), fuel) == Some(Outcome::Val(x)),
{
    let s = seq![datum(ValueData::Symbol(q)), x];
    assert(s.drop_first() =~= seq![x]);
    lemma_list_of(seq![x]);
    let v = quoted(q, x);
    assert(v@ == ValueData::Pair(datum(ValueData::Symbol(q)), list_of(seq![x])));
    assert(ev(frames, env, datum(ValueData::Symbol(q)), (fuel - 1) as nat) == Some(
        Outcome::Val(datum(ValueData::NativeProc(Native::Quote))),
    ));
    assert(ev_native(frames, env, Native::Quote, seq![x], (fuel - 1) as nat) == Some(Outcome::Val(x)));
}

/// In a fresh interpreter, whose global frame binds only the built-ins, a
/// symbol that is no built-in's name evaluates to the condition that names
/// it: by the text recorded for it, which `parse` guarantees for every
/// symbol it reads.
pub proof fn lemma_undefined_symbol(st: Interpreter, id: u64, r: Value)
    requires
        st.wf(),
        st.current_scope == 0,
        st.scope.frames@[0].parent is None,
        only_natives(st, 0),
        forall|n: Native| #[trigger] symbol_id_of(native_name(n)) != id,
        atom_result(st, datum(ValueData::Symbol(id)), r),
    ensures
        is_condition_with(r, "undefined ident: "@ + print_spec(datum(ValueData::Symbol(id)), st.interner.names())),
        st.interner.names().contains_key(id) ==> is_condition_with(r, "undefined ident: "@ + st.interner.names()[id]),
{
    let b = st.scope.frames@[0].bindings@;
    if let Some(v) = crate::scope::find_binding(b, id) {
        assert(symbol_id_of(native_name(v@->NativeProc_0)) == id);
    }
    assert(st.scope.lookup_view(0, id) is None);
}

} // verus!

verus! {

/// The symbol with id `id`.
pub open spec fn sym(id: u64) -> Value {
    datum(ValueData::Symbol(id))
}

/// The integer `k`.
pub open spec fn num(k: i64) -> Value {
    datum(ValueData::Integer(k))
}

/// A call of the built-in named `h` evaluates to what the built-in gives.
pub proof fn lemma_call(frames: Seq<ScopeData>, env: Env, h: u64, n: Native, args: Seq<Value>, fuel: nat)
    requires
        env(h) == Some(datum(ValueData::NativeProc(n))),
        fuel >= 1,
    ensures
        ev(frames, env, list_of(seq![sym(h)] + args), fuel) == ev_native(frames, env, n, args, (fuel - 1) as nat),
{
    let s = seq![sym(h)] + args;
    assert(s.drop_first() =~= args);
    assert(s[0] == sym(h));
    lemma_list_of(args);
    assert(ev(frames, env, sym(h), (fuel - 1) as nat) == Some(Outcome::Val(datum(ValueData::NativeProc(n)))));
}

/// Two operands that are a symbol bound in `env` and an integer.
proof fn lemma_two_operands(frames: Seq<ScopeData>, env: Env, i: u64, x: Value, m: i64, fuel: nat)
    requires
        env(i) == Some(x),
    ensures
        ev_args(frames, env, seq![sym(i), num(m)], fuel) == Some(seq![x, num(m)]),
{
    let s = seq![sym(i), num(m)];
    assert(s.drop_last() =~= seq![sym(i)]);
    assert(seq![sym(i)].drop_last() =~= Seq::<Value>::empty());
    assert(ev_args(frames, env, Seq::<Value>::empty(), fuel) == Some(Seq::<Value>::empty()));
    assert(ev(frames, env, sym(i), fuel) == Some(Outcome::Val(x)));
    assert(Seq::<Value>::empty().push(x) =~= seq![x]);
    assert(ev_args(frames, env, seq![sym(i)], fuel) == Some(seq![x]));
    assert(ev(frames, env, num(m), fuel) == Some(Outcome::Val(num(m))));
    assert(seq![x].push(num(m)) =~= seq![x, num(m)]);
}

/// `(if (= i n) i (recur (+ i 1)))`, over the ids that name `if`, `=`,
/// `+` and `recur`.
pub open spec fn counting_body(names: (u64, u64, u64, u64), i: u64, n: i64) -> Value {
    let (iff, eq, plus, rec) = names;
    let test = list_of(seq![sym(eq)] + seq![sym(i), num(n)]);
    let next = list_of(seq![sym(rec)] + seq![list_of(seq![sym(plus)] + seq![sym(i), num(1)])]);
    list_of(seq![sym(iff)] + seq![test, sym(i), next])
}

/// `env` binds the four ids to `if`, `=`, `+` and `recur`, and `i` is none
/// of them.
pub open spec fn counting_env(env: Env, names: (u64, u64, u64, u64), i: u64) -> bool {
    let (iff, eq, plus, rec) = names;
    &&& env(iff) == Some(datum(ValueData::NativeProc(Native::If)))
    &&& env(eq) == Some(datum(ValueData::NativeProc(Native::NumEq)))
    &&& env(plus) == Some(datum(ValueData::NativeProc(Native::Plus)))
    &&& env(rec) == Some(datum(ValueData::NativeProc(Native::Recur)))
    &&& i != iff && i != eq && i != plus && i != rec
}

/// One round of the counting body with `i` bound to `k`.
proof fn lemma_counting_round(frames: Seq<ScopeData>, env: Env, names: (u64, u64, u64, u64), i: u64, n: i64, k: i64, fuel: nat)
    requires
        counting_env(env, names, i),
        k <= n < i64::MAX,
        fuel >= 3,
    ensures
        ev(frames, extend(env, seq![i], seq![num(k)]), counting_body(names, i, n), fuel) == if k == n {
            Some(Outcome::Val(num(n)))
        } else {
            Some(Outcome::Again(seq![num((k + 1) as i64)]))
        },
{
    let (iff, eq, plus, rec) = names;
    let e = extend(env, seq![i], seq![num(k)]);
    assert(e(i) == Some(num(k)));
    assert forall|x: u64| x != i implies #[trigger] e(x) == env(x) by {
        assert(seq![i].drop_last() =~= Seq::<u64>::empty());
        assert(seq![num(k)].drop_last() =~= Seq::<Value>::empty());
        assert(bound_in(seq![i], seq![num(k)], x) == bound_in(Seq::<u64>::empty(), Seq::<Value>::empty(), x));
    }
    let f1 = (fuel - 1) as nat;
    let test = list_of(seq![sym(eq)] + seq![sym(i), num(n)]);
    let step = list_of(seq![sym(plus)] + seq![sym(i), num(1)]);
    let next = list_of(seq![sym(rec)] + seq![step]);
    lemma_call(frames, e, iff, Native::If, seq![test, sym(i), next], fuel);
    lemma_call(frames, e, eq, Native::NumEq, seq![sym(i), num(n)], f1);
    lemma_two_operands(frames, e, i, num(k), n, (f1 - 1) as nat);
    let vs = seq![num(k), num(n)];
    assert(vs.drop_first() =~= seq![num(n)]);
    assert(seq![num(n)].drop_first() =~= Seq::<Value>::empty());
    assert(compare_from(Native::NumEq, k, Seq::<Value>::empty()) == CompareOutcome::Truth(true));
    assert(compare_from(Native::NumEq, k, seq![num(n)]) == CompareOutcome::Truth(k == n));
    assert(compare_spec(Native::NumEq, vs) == CompareOutcome::Truth(k == n));
    assert(apply_values(Native::NumEq, vs) == Some(datum(ValueData::Bool(k == n))));
    assert(ev_native(frames, e, Native::NumEq, seq![sym(i), num(n)], (f1 - 1) as nat) == Some(
        Outcome::Val(datum(ValueData::Bool(k == n))),
    ));
    assert(ev(frames, e, test, f1) == Some(Outcome::Val(datum(ValueData::Bool(k == n)))));
    if k != n {
        lemma_call(frames, e, rec, Native::Recur, seq![step], f1);
        lemma_call(frames, e, plus, Native::Plus, seq![sym(i), num(1)], (f1 - 1) as nat);
        lemma_two_operands(frames, e, i, num(k), 1, (f1 - 2) as nat);
        let ws = seq![num(k), num(1)];
        assert(ws.drop_first() =~= seq![num(1)]);
        assert(seq![num(1)].drop_first() =~= Seq::<Value>::empty());
        assert(arith_from(Native::Plus, (k + 1) as i64, Seq::<Value>::empty()) == ArithOutcome::Number((k + 1) as i64));
        assert(arith_from(Native::Plus, k, seq![num(1)]) == ArithOutcome::Number((k + 1) as i64));
        assert(arith_spec(Native::Plus, ws) == ArithOutcome::Number((k + 1) as i64));
        assert(apply_values(Native::Plus, ws) == Some(num((k + 1) as i64)));
        assert(ev(frames, e, step, (f1 - 1) as nat) == Some(Outcome::Val(num((k + 1) as i64))));
        assert(seq![step].drop_last() =~= Seq::<Value>::empty());
        assert(ev_args(frames, e, Seq::<Value>::empty(), (f1 - 1) as nat) == Some(Seq::<Value>::empty()));
        assert(Seq::<Value>::empty().push(num((k + 1) as i64)) =~= seq![num((k + 1) as i64)]);
        assert(ev_args(frames, e, seq![step], (f1 - 1) as nat) == Some(seq![num((k + 1) as i64)]));
    }
}

/// A counting loop ends with its bound: with `i` bound to `k`, and rounds
/// enough for each value up to `n`, the trampoline over
/// `(if (= i n) i (recur (+ i 1)))` gives `n`.
pub proof fn lemma_counting_loop(frames: Seq<ScopeData>, env: Env, names: (u64, u64, u64, u64), i: u64, n: i64, k: i64, fuel: nat, rounds: nat)
    requires
        counting_env(env, names, i),
        k <= n < i64::MAX,
        fuel >= 3,
        rounds >= n - k + 1,
    ensures
        tramp(frames, env, seq![i], seq![num(k)], seq![counting_body(names, i, n)], fuel, rounds) == Some(
            Ending::Done(num(n)),
        ),
    decreases n - k,
{
    let body = seq![counting_body(names, i, n)];
    let e = extend(env, seq![i], seq![num(k)]);
    lemma_counting_round(frames, env, names, i, n, k, fuel);
    assert(body.drop_last() =~= Seq::<Value>::empty());
    assert(ev_args(frames, e, Seq::<Value>::empty(), fuel) == Some(Seq::<Value>::empty()));
    assert(no_signal(Seq::<Value>::empty()));
    assert(!signal_before_last(frames, e, body, fuel));
    assert(ev_body(frames, e, body, fuel) == ev(frames, e, counting_body(names, i, n), fuel));
    if k < n {
        lemma_counting_loop(frames, env, names, i, n, (k + 1) as i64, fuel, (rounds - 1) as nat);
    }
}

/// `(lp ((i k)) (if (= i n) i (recur (+ i 1))))`, where `lp` names `loop`.
pub open spec fn counting_loop(lp: u64, names: (u64, u64, u64, u64), i: u64, n: i64, k: i64) -> Value {
    let binding = list_of(seq![sym(i), num(k)]);
    list_of(seq![sym(lp)] + seq![list_of(seq![binding]), counting_body(names, i, n)])
}

/// A counting `loop` evaluates to its bound, given a budget of more rounds
/// than it counts.
pub proof fn lemma_counting_loop_value(frames: Seq<ScopeData>, env: Env, lp: u64, names: (u64, u64, u64, u64), i: u64, n: i64, k: i64, fuel: nat)
    requires
        counting_env(env, names, i),
        env(lp) == Some(datum(ValueData::NativeProc(Native::Loop))),
        k <= n < i64::MAX,
        fuel >= 4,
        fuel >= n - k + 2,
    ensures
        ev(frames, env, counting_loop(lp, names, i, n, k), fuel) == Some(Outcome::Val(num(n))),
{
    let f = (fuel - 1) as nat;
    let binding = list_of(seq![sym(i), num(k)]);
    let list = list_of(seq![binding]);
    let body = counting_body(names, i, n);
    let args = seq![list, body];
    lemma_call(frames, env, lp, Native::Loop, args, fuel);
    lemma_list_of(seq![binding]);
    lemma_list_of(seq![sym(i), num(k)]);
    assert(bindings_ok(list));
    assert(binding_ids(list) =~= seq![i]);
    assert(binding_exprs(list) =~= seq![num(k)]);
    assert(seq![num(k)].drop_last() =~= Seq::<Value>::empty());
    assert(seq![i].drop_last() =~= Seq::<u64>::empty());
    assert(ev_star(frames, env, Seq::<u64>::empty(), Seq::<Value>::empty(), f) == Some(Seq::<Value>::empty()));
    assert(Seq::<Value>::empty().push(num(k)) =~= seq![num(k)]);
    assert(seq![num(k)].last() == num(k));
    assert(num(k)@ == ValueData::Integer(k));
    assert(ev(frames, extend(env, Seq::<u64>::empty(), Seq::<Value>::empty()), num(k), f) == Some(Outcome::Val(num(k))));
    assert(ev_star(frames, env, seq![i], seq![num(k)], f) == Some(seq![num(k)]));
    assert(args.drop_first() =~= seq![body]);
    lemma_counting_loop(frames, env, names, i, n, k, f, f);
}

/// In a fresh interpreter, a built-in whose name shares its id with no
/// other built-in's name is bound to itself.
pub proof fn lemma_builtin_bound(st: Interpreter, n: Native)
    requires
        only_natives(st, 0),
        native_bound(st, 0, n),
        forall|m: Native| #[trigger] symbol_id_of(native_name(m)) == symbol_id_of(native_name(n)) ==> m == n,
    ensures
        crate::scope::find_binding(st.scope.frames@[0].bindings@, symbol_id_of(native_name(n))) == Some(
            datum(ValueData::NativeProc(n)),
        ),
{
    let v = crate::scope::find_binding(st.scope.frames@[0].bindings@, symbol_id_of(native_name(n)))->Some_0;
    assert(symbol_id_of(native_name(v@->NativeProc_0)) == symbol_id_of(native_name(n)));
}

} // verus!
