//! What evaluation gives on the part of the language that leaves every
//! existing frame as it was: no `define`, `set!`, `lambda` or interning on
//! the way, and no condition raised but where a trampoline ends with one.
//! Closures are called over the frames they were made in. On such an
//! expression the result is a function of the environment and the frames
//! alone, stated here by recursion on the datum, with the same budget that
//! the evaluator spends.
use crate::interpreter::Interpreter;
use crate::native::{arith_spec, compare_spec, all_equal_spec, bindings_ok, type_test_spec, ArithOutcome, CompareOutcome};
use crate::scope::{lookup_spec, ScopeData};
use crate::value::{datum, list_of, list_spec, Native, Value, ValueData};
use vstd::prelude::*;

verus! {

/// What a symbol denotes, for each id.
pub type Env = spec_fn(u64) -> Option<Value>;

/// What an expression gives: a value, or a `recur` signal with its values.
pub enum Outcome {
    Val(Value),
    Again(Seq<Value>),
}

/// The environment seen from frame `f` of a store.
pub open spec fn frame_env(frames: Seq<ScopeData>, f: int) -> Env {
    |id: u64| lookup_spec(frames, f, id)
}

/// The environment seen from the current frame.
pub open spec fn env_of(st: Interpreter) -> Env {
    frame_env(st.scope.frames@, st.current_scope as int)
}

/// The value that the last of `ids` equal to `id` is paired with in `vals`.
pub open spec fn bound_in(ids: Seq<u64>, vals: Seq<Value>, id: u64) -> Option<Value>
    decreases ids.len(),
{
    if ids.len() == 0 || vals.len() != ids.len() {
        None
    } else if ids.last() == id {
        Some(vals.last())
    } else {
        bound_in(ids.drop_last(), vals.drop_last(), id)
    }
}

/// `env` with `ids` bound to `vals` in a new innermost frame.
pub open spec fn extend(env: Env, ids: Seq<u64>, vals: Seq<Value>) -> Env {
    |id: u64|
        match bound_in(ids, vals, id) {
            Some(v) => Some(v),
            None => env(id),
        }
}

/// `r` is what the outcome `o` stands for.
pub open spec fn outcome_is(r: Value, o: Outcome) -> bool {
    match o {
        Outcome::Val(x) => r == x,
        Outcome::Again(s) => r@ is Recur && r@->Recur_0@ == s,
    }
}

/// The names of a well-formed binding list `((name expr) ...)`.
pub open spec fn binding_ids(list: Value) -> Seq<u64> {
    let items = list_spec(list)->Some_0;
    Seq::new(items.len(), |i: int| list_spec(items[i])->Some_0[0]@->Symbol_0)
}

/// The expressions of a well-formed binding list `((name expr) ...)`.
pub open spec fn binding_exprs(list: Value) -> Seq<Value> {
    let items = list_spec(list)->Some_0;
    Seq::new(items.len(), |i: int| list_spec(items[i])->Some_0[1])
}

/// How a trampoline ends: with a value, or with a condition whose message
/// is the given text.
pub enum Ending {
    Done(Value),
    Fails(Seq<char>),
}

/// `r` is what the ending `e` stands for.
pub open spec fn ending_is(r: Value, e: Ending) -> bool {
    match e {
        Ending::Done(x) => r == x,
        Ending::Fails(m) => r@ is Condition && r@->Condition_0@ is String && r@->Condition_0@->String_0@ == m,
    }
}

/// The values of the `recur` signal that an outcome is, if it is one.
pub open spec fn signal_of(o: Outcome) -> Option<Seq<Value>> {
    match o {
        Outcome::Again(vs) => Some(vs),
        Outcome::Val(x) => match x@ {
            ValueData::Recur(vs) => Some(vs@),
            _ => None,
        },
    }
}

/// The outcome of evaluating `v` in `env` with budget `fuel`, closures
/// reaching the frames of `frames`; `None` where evaluation would leave
/// this part of the language.
pub open spec fn ev(frames: Seq<ScopeData>, env: Env, v: Value, fuel: nat) -> Option<Outcome>
    decreases fuel, 0nat, 0nat,
{
    match v@ {
        ValueData::Symbol(id) => match env(id) {
            Some(x) => Some(Outcome::Val(x)),
            None => None,
        },
        ValueData::EmptyList => None,
        ValueData::Pair(head, rest) => match list_spec(rest) {
            None => Some(Outcome::Val(v)),
            Some(args) => if fuel == 0 {
                None
            } else {
                match ev(frames, env, head, (fuel - 1) as nat) {
                    Some(Outcome::Val(f)) => match f@ {
                        ValueData::NativeProc(n) => ev_native(frames, env, n, args, (fuel - 1) as nat),
                        ValueData::Proc(p) => if p.bindings@.len() == args.len() && p.parent_scope < frames.len() {
                            match ev_args(frames, env, args, (fuel - 1) as nat) {
                                Some(vals) => match tramp(
                                    frames,
                                    frame_env(frames, p.parent_scope as int),
                                    p.bindings@,
                                    vals,
                                    p.code@,
                                    (fuel - 1) as nat,
                                    (fuel - 1) as nat,
                                ) {
                                    Some(Ending::Done(x)) => Some(Outcome::Val(x)),
                                    _ => None,
                                },
                                None => None,
                            }
                        } else {
                            None
                        },
                        _ => None,
                    },
                    _ => None,
                }
            },
        },
        _ => Some(Outcome::Val(v)),
    }
}

/// The values of `args`, each evaluated in `env`, where each gives a value.
pub open spec fn ev_args(frames: Seq<ScopeData>, env: Env, args: Seq<Value>, fuel: nat) -> Option<Seq<Value>>
    decreases fuel, 1nat, args.len(),
{
    if args.len() == 0 {
        Some(Seq::empty())
    } else {
        match ev_args(frames, env, args.drop_last(), fuel) {
            Some(s) => match ev(frames, env, args.last(), fuel) {
                Some(Outcome::Val(x)) => Some(s.push(x)),
                _ => None,
            },
            None => None,
        }
    }
}

/// None of `s` is a `recur` signal.
pub open spec fn no_signal(s: Seq<Value>) -> bool {
    forall|i: int| 0 <= i < s.len() ==> !((#[trigger] s[i])@ is Recur)
}

/// Some expression of `body` but the last gives a `recur` signal, the ones
/// before it giving values.
pub open spec fn signal_before_last(frames: Seq<ScopeData>, env: Env, body: Seq<Value>, fuel: nat) -> bool
    decreases fuel, 1nat, body.len(),
{
    body.len() > 0 && match ev_args(frames, env, body.drop_last(), fuel) {
        Some(s) => !no_signal(s),
        None => false,
    }
}

/// A body: each expression in order, all but the last giving a value; the
/// outcome of the last, or `()` for none.
pub open spec fn ev_body(frames: Seq<ScopeData>, env: Env, body: Seq<Value>, fuel: nat) -> Option<Outcome>
    decreases fuel, 1nat, body.len(),
{
    if body.len() == 0 {
        Some(Outcome::Val(datum(ValueData::EmptyList)))
    } else {
        match ev_args(frames, env, body.drop_last(), fuel) {
            Some(s) => if no_signal(s) {
                ev(frames, env, body.last(), fuel)
            } else {
                None
            },
            None => None,
        }
    }
}

/// The values of bindings evaluated in order, each expression seeing the
/// ones before it.
pub open spec fn ev_star(frames: Seq<ScopeData>, env: Env, ids: Seq<u64>, exprs: Seq<Value>, fuel: nat) -> Option<Seq<Value>>
    decreases fuel, 1nat, exprs.len(),
{
    if exprs.len() == 0 || ids.len() != exprs.len() {
        Some(Seq::empty())
    } else {
        match ev_star(frames, env, ids.drop_last(), exprs.drop_last(), fuel) {
            Some(s) => match ev(frames, extend(env, ids.drop_last(), s), exprs.last(), fuel) {
                Some(Outcome::Val(x)) => Some(s.push(x)),
                _ => None,
            },
            None => None,
        }
    }
}

/// The trampoline: `body` in `env` extended with `ids` bound to `vals`,
/// again with the values of each `recur` of matching length, for at most
/// `rounds` rounds. It fails on a budget spent, on a `recur` before the
/// last expression, and on a `recur` with the wrong number of values.
pub open spec fn tramp(
    frames: Seq<ScopeData>,
    env: Env,
    ids: Seq<u64>,
    vals: Seq<Value>,
    body: Seq<Value>,
    fuel: nat,
    rounds: nat,
) -> Option<Ending>
    decreases fuel, 2nat, rounds,
{
    if rounds == 0 {
        Some(Ending::Fails("evaluation budget exhausted"@))
    } else if signal_before_last(frames, extend(env, ids, vals), body, fuel) {
        Some(Ending::Fails("recur in non-tail position"@))
    } else {
        match ev_body(frames, extend(env, ids, vals), body, fuel) {
            Some(o) => match signal_of(o) {
                Some(vs) => if vs.len() == ids.len() {
                    tramp(frames, env, ids, vs, body, fuel, (rounds - 1) as nat)
                } else {
                    Some(Ending::Fails(recur_arity_text(ids.len(), vs.len())))
                },
                None => Some(Ending::Done(o->Val_0)),
            },
            None => None,
        }
    }
}

/// The message for a `recur` with `got` values where `expected` are due.
pub open spec fn recur_arity_text(expected: nat, got: nat) -> Seq<char> {
    crate::interpreter::arity_text("recur"@, crate::text::decimal_of(expected as int), got as int)
}

/// The built-in `n` on the unevaluated `args`.
pub open spec fn ev_native(frames: Seq<ScopeData>, env: Env, n: Native, args: Seq<Value>, fuel: nat) -> Option<Outcome>
    decreases fuel, 3nat, 0nat,
{
    match n {
        Native::Quote => if args.len() == 1 {
            Some(Outcome::Val(args[0]))
        } else {
            None
        },
        Native::If => if args.len() == 3 {
            match ev(frames, env, args[0], fuel) {
                Some(Outcome::Val(c)) => match c@ {
                    ValueData::Bool(true) => ev(frames, env, args[1], fuel),
                    ValueData::Bool(false) => ev(frames, env, args[2], fuel),
                    _ => None,
                },
                _ => None,
            }
        } else {
            None
        },
        Native::Recur => match ev_args(frames, env, args, fuel) {
            Some(vals) => Some(Outcome::Again(vals)),
            None => None,
        },
        Native::Let => if args.len() >= 2 && bindings_ok(args[0]) {
            match ev_args(frames, env, binding_exprs(args[0]), fuel) {
                Some(vals) => ev_body(frames, extend(env, binding_ids(args[0]), vals), args.drop_first(), fuel),
                None => None,
            }
        } else {
            None
        },
        Native::LetStar => if args.len() >= 2 && bindings_ok(args[0]) {
            match ev_star(frames, env, binding_ids(args[0]), binding_exprs(args[0]), fuel) {
                Some(vals) => ev_body(frames, extend(env, binding_ids(args[0]), vals), args.drop_first(), fuel),
                None => None,
            }
        } else {
            None
        },
        Native::Loop => if args.len() >= 2 && bindings_ok(args[0]) {
            match ev_star(frames, env, binding_ids(args[0]), binding_exprs(args[0]), fuel) {
                Some(vals) => match tramp(frames, env, binding_ids(args[0]), vals, args.drop_first(), fuel, fuel) {
                    Some(Ending::Done(x)) => Some(Outcome::Val(x)),
                    _ => None,
                },
                None => None,
            }
        } else {
            None
        },
        _ => match ev_args(frames, env, args, fuel) {
            Some(vals) => match apply_values(n, vals) {
                Some(x) => Some(Outcome::Val(x)),
                None => None,
            },
            None => None,
        },
    }
}

/// What a built-in that evaluates all its operands gives on their values,
/// where it gives no condition and touches neither frames nor names.
pub open spec fn apply_values(n: Native, vals: Seq<Value>) -> Option<Value> {
    match n {
        Native::PolyEq => if vals.len() >= 2 {
            Some(datum(ValueData::Bool(all_equal_spec(vals))))
        } else {
            None
        },
        Native::Plus | Native::Minus | Native::Multiply | Native::Quotient | Native::Remainder => match arith_spec(
            n,
            vals,
        ) {
            ArithOutcome::Number(x) => Some(datum(ValueData::Integer(x))),
            _ => None,
        },
        Native::NumEq | Native::Gt | Native::Ge | Native::Lt | Native::Le => if vals.len() >= 2 {
            match compare_spec(n, vals) {
                CompareOutcome::Truth(b) => Some(datum(ValueData::Bool(b))),
                _ => None,
            }
        } else {
            None
        },
        Native::NullP | Native::BooleanP | Native::SymbolP | Native::IntegerP | Native::CharP | Native::StringP
        | Native::ProcedureP | Native::ListP | Native::PairP => if vals.len() == 1 {
            Some(datum(ValueData::Bool(type_test_spec(n, vals[0]))))
        } else {
            None
        },
        Native::List => Some(list_of(vals)),
        Native::Begin => if vals.len() >= 1 {
            Some(vals.last())
        } else {
            None
        },
        Native::Car => if vals.len() == 1 && vals[0]@ is Pair {
            Some(vals[0]@->Pair_0)
        } else {
            None
        },
        Native::Cdr => if vals.len() == 1 && vals[0]@ is Pair {
            Some(vals[0]@->Pair_1)
        } else {
            None
        },
        Native::Cons => if vals.len() == 2 {
            Some(datum(ValueData::Pair(vals[0], vals[1])))
        } else {
            None
        },
        _ => None,
    }
}

/// Where `o` settles the outcome, `r` is it and `new` has grown from `old`.
pub open spec fn agrees(o: Option<Outcome>, old: Interpreter, r: Value, new: Interpreter) -> bool {
    o matches Some(x) ==> outcome_is(r, x) && grows(old, new)
}

/// Where the built-in `n` on `args` stays in the part of the language that
/// `ev_native` settles, `r` is its outcome and `new` has grown from `old`.
pub open spec fn native_agrees(n: Native, old: Interpreter, args: Seq<Value>, fuel: u64, r: Value, new: Interpreter) -> bool {
    agrees(ev_native(old.scope.frames@, env_of(old), n, args, fuel as nat), old, r, new)
}

/// `new` follows `old` with every frame of `old` exactly as it was, the
/// same current frame and the same symbol names; frames may have been added.
pub open spec fn grows(old: Interpreter, new: Interpreter) -> bool {
    &&& new.current_scope == old.current_scope
    &&& new.interner == old.interner
    &&& old.scope.frames@.len() <= new.scope.frames@.len()
    &&& forall|i: int| 0 <= i < old.scope.frames@.len() ==> #[trigger] new.scope.frames@[i] == old.scope.frames@[i]
}

/// A frame's lookups depend only on it and the frames before it.
pub proof fn lemma_lookup_prefix(a: Seq<ScopeData>, b: Seq<ScopeData>, idx: int, id: u64)
    requires
        crate::scope::frames_wf(a),
        0 <= idx < a.len() <= b.len(),
        forall|i: int| 0 <= i < a.len() ==> #[trigger] b[i] == a[i],
    ensures
        lookup_spec(b, idx, id) == lookup_spec(a, idx, id),
    decreases idx,
{
    assert(b[idx] == a[idx]);
    match a[idx].parent {
        Some(p) => {
            if p < idx {
                lemma_lookup_prefix(a, b, p as int, id);
            }
        },
        None => {},
    }
}

/// Where all of `args` give values, so does each prefix, and each one its
/// own value.
pub proof fn lemma_ev_args_prefix(frames: Seq<ScopeData>, env: Env, args: Seq<Value>, fuel: nat, i: int)
    requires
        0 <= i <= args.len(),
        ev_args(frames, env, args, fuel) is Some,
    ensures
        ev_args(frames, env, args.subrange(0, i), fuel) == Some(ev_args(frames, env, args, fuel)->Some_0.subrange(0, i)),
        ev_args(frames, env, args, fuel)->Some_0.len() == args.len(),
        i < args.len() ==> ev(frames, env, args[i], fuel) == Some(Outcome::Val(ev_args(frames, env, args, fuel)->Some_0[i])),
    decreases args.len(),
{
    let s = ev_args(frames, env, args, fuel)->Some_0;
    if args.len() > 0 {
        lemma_ev_args_prefix(frames, env, args.drop_last(), fuel, if i < args.len() { i } else { args.len() - 1 });
        let t = ev_args(frames, env, args.drop_last(), fuel)->Some_0;
        assert(s == t.push(s.last()));
        if i < args.len() {
            assert(args.drop_last().subrange(0, i) =~= args.subrange(0, i));
            assert(s.subrange(0, i) =~= t.subrange(0, i));
            if i < args.len() - 1 {
                assert(args.drop_last()[i] == args[i]);
            }
        } else {
            assert(args.subrange(0, i) =~= args);
            assert(s.subrange(0, i) =~= s);
        }
    } else {
        assert(args.subrange(0, i) =~= args);
        assert(s.subrange(0, i) =~= s);
    }
}

/// A frame that binds exactly what `ids` and `vals` bind, over a parent
/// kept from `old`, sees `extend` of what the parent saw.
pub proof fn lemma_frame_env(old: Seq<ScopeData>, frames: Seq<ScopeData>, frame: usize, parent: usize, ids: Seq<u64>, vals: Seq<Value>)
    requires
        crate::scope::frames_wf(old),
        0 <= parent < old.len() <= frame < frames.len(),
        forall|i: int| 0 <= i < old.len() ==> #[trigger] frames[i] == old[i],
        frames[frame as int].parent == Some(parent),
        forall|id: u64| #[trigger] crate::scope::find_binding(frames[frame as int].bindings@, id) == bound_in(ids, vals, id),
    ensures
        frame_env(frames, frame as int) == extend(frame_env(old, parent as int), ids, vals),
{
    assert forall|id: u64| #[trigger] frame_env(frames, frame as int)(id) == extend(frame_env(old, parent as int), ids, vals)(id) by {
        lemma_lookup_prefix(old, frames, parent as int, id);
    }
    assert(frame_env(frames, frame as int) =~= extend(frame_env(old, parent as int), ids, vals));
}

/// Where the `let*` values are settled, so are those of each prefix.
pub proof fn lemma_ev_star_prefix(frames: Seq<ScopeData>, env: Env, ids: Seq<u64>, exprs: Seq<Value>, fuel: nat, i: int)
    requires
        0 <= i <= exprs.len(),
        ids.len() == exprs.len(),
        ev_star(frames, env, ids, exprs, fuel) is Some,
    ensures
        ev_star(frames, env, ids.subrange(0, i), exprs.subrange(0, i), fuel) is Some,
        ev_star(frames, env, ids, exprs, fuel)->Some_0.len() == exprs.len(),
    decreases exprs.len(),
{
    if exprs.len() > 0 {
        if i < exprs.len() {
            lemma_ev_star_prefix(frames, env, ids.drop_last(), exprs.drop_last(), fuel, i);
            assert(ids.drop_last().subrange(0, i) =~= ids.subrange(0, i));
            assert(exprs.drop_last().subrange(0, i) =~= exprs.subrange(0, i));
        } else {
            lemma_ev_star_prefix(frames, env, ids.drop_last(), exprs.drop_last(), fuel, i - 1);
            assert(ids.subrange(0, i) =~= ids);
            assert(exprs.subrange(0, i) =~= exprs);
        }
    } else {
        assert(ids.subrange(0, i) =~= ids);
        assert(exprs.subrange(0, i) =~= exprs);
    }
}

/// Growing keeps what every earlier frame sees.
pub proof fn lemma_grows_env(old: Interpreter, new: Interpreter, f: int)
    requires
        old.scope.wf(),
        0 <= f < old.scope.frames@.len(),
        grows(old, new),
    ensures
        frame_env(new.scope.frames@, f) == frame_env(old.scope.frames@, f),
{
    assert forall|id: u64| #[trigger] frame_env(new.scope.frames@, f)(id) == frame_env(old.scope.frames@, f)(id) by {
        lemma_lookup_prefix(old.scope.frames@, new.scope.frames@, f, id);
    }
    assert(frame_env(new.scope.frames@, f) =~= frame_env(old.scope.frames@, f));
}

/// `g` holds the frames of `f`, in place, and maybe more.
pub open spec fn prefix_of(f: Seq<ScopeData>, g: Seq<ScopeData>) -> bool {
    &&& f.len() <= g.len()
    &&& forall|i: int| 0 <= i < f.len() ==> #[trigger] g[i] == f[i]
}

/// Frames added after `f` change nothing that a frame of `f` sees.
pub proof fn lemma_frame_env_prefix(f: Seq<ScopeData>, g: Seq<ScopeData>, k: int)
    requires
        crate::scope::frames_wf(f),
        prefix_of(f, g),
        0 <= k < f.len(),
    ensures
        frame_env(g, k) == frame_env(f, k),
{
    assert forall|id: u64| #[trigger] frame_env(g, k)(id) == frame_env(f, k)(id) by {
        lemma_lookup_prefix(f, g, k, id);
    }
    assert(frame_env(g, k) =~= frame_env(f, k));
}

/// What `ev` settles over the frames `f` it settles alike over frames that
/// extend them.
pub proof fn lemma_mono_ev(f: Seq<ScopeData>, g: Seq<ScopeData>, env: Env, v: Value, fuel: nat)
    requires
        crate::scope::frames_wf(f),
        prefix_of(f, g),
    ensures
        ev(f, env, v, fuel) is Some ==> ev(g, env, v, fuel) == ev(f, env, v, fuel),
    decreases fuel, 0nat, 0nat,
{
    if let ValueData::Pair(head, rest) = v@ {
        if let Some(args) = list_spec(rest) {
            if fuel > 0 {
                let f1 = (fuel - 1) as nat;
                lemma_mono_ev(f, g, env, head, f1);
                if let Some(Outcome::Val(h)) = ev(f, env, head, f1) {
                    match h@ {
                        ValueData::NativeProc(n) => lemma_mono_native(f, g, env, n, args, f1),
                        ValueData::Proc(p) => {
                            if p.bindings@.len() == args.len() && p.parent_scope < f.len() {
                                lemma_mono_args(f, g, env, args, f1);
                                lemma_frame_env_prefix(f, g, p.parent_scope as int);
                                if let Some(vals) = ev_args(f, env, args, f1) {
                                    lemma_mono_tramp(
                                        f,
                                        g,
                                        frame_env(f, p.parent_scope as int),
                                        p.bindings@,
                                        vals,
                                        p.code@,
                                        f1,
                                        f1,
                                    );
                                }
                            }
                        },
                        _ => {},
                    }
                }
            }
        }
    }
}

/// `ev_args` over extended frames.
pub proof fn lemma_mono_args(f: Seq<ScopeData>, g: Seq<ScopeData>, env: Env, args: Seq<Value>, fuel: nat)
    requires
        crate::scope::frames_wf(f),
        prefix_of(f, g),
    ensures
        ev_args(f, env, args, fuel) is Some ==> ev_args(g, env, args, fuel) == ev_args(f, env, args, fuel),
    decreases fuel, 1nat, args.len(),
{
    if args.len() > 0 {
        lemma_mono_args(f, g, env, args.drop_last(), fuel);
        lemma_mono_ev(f, g, env, args.last(), fuel);
    }
}

/// `ev_body` over extended frames.
pub proof fn lemma_mono_body(f: Seq<ScopeData>, g: Seq<ScopeData>, env: Env, body: Seq<Value>, fuel: nat)
    requires
        crate::scope::frames_wf(f),
        prefix_of(f, g),
    ensures
        ev_body(f, env, body, fuel) is Some ==> ev_body(g, env, body, fuel) == ev_body(f, env, body, fuel),
        signal_before_last(f, env, body, fuel) ==> signal_before_last(g, env, body, fuel),
        body.len() > 0 && ev_args(f, env, body.drop_last(), fuel) is Some ==> ev_args(g, env, body.drop_last(), fuel) == ev_args(
            f,
            env,
            body.drop_last(),
            fuel,
        ),
    decreases fuel, 1nat, body.len(),
{
    if body.len() > 0 {
        lemma_mono_args(f, g, env, body.drop_last(), fuel);
        lemma_mono_ev(f, g, env, body.last(), fuel);
    }
}

/// `ev_star` over extended frames.
pub proof fn lemma_mono_star(f: Seq<ScopeData>, g: Seq<ScopeData>, env: Env, ids: Seq<u64>, exprs: Seq<Value>, fuel: nat)
    requires
        crate::scope::frames_wf(f),
        prefix_of(f, g),
    ensures
        ev_star(f, env, ids, exprs, fuel) is Some ==> ev_star(g, env, ids, exprs, fuel) == ev_star(f, env, ids, exprs, fuel),
    decreases fuel, 1nat, exprs.len(),
{
    if exprs.len() > 0 && ids.len() == exprs.len() {
        lemma_mono_star(f, g, env, ids.drop_last(), exprs.drop_last(), fuel);
        if let Some(s) = ev_star(f, env, ids.drop_last(), exprs.drop_last(), fuel) {
            lemma_mono_ev(f, g, extend(env, ids.drop_last(), s), exprs.last(), fuel);
        }
    }
}

/// `tramp` over extended frames.
pub proof fn lemma_mono_tramp(
    f: Seq<ScopeData>,
    g: Seq<ScopeData>,
    env: Env,
    ids: Seq<u64>,
    vals: Seq<Value>,
    body: Seq<Value>,
    fuel: nat,
    rounds: nat,
)
    requires
        crate::scope::frames_wf(f),
        prefix_of(f, g),
    ensures
        tramp(f, env, ids, vals, body, fuel, rounds) is Some ==> tramp(g, env, ids, vals, body, fuel, rounds) == tramp(
            f,
            env,
            ids,
            vals,
            body,
            fuel,
            rounds,
        ),
    decreases fuel, 2nat, rounds,
{
    if rounds > 0 {
        let e = extend(env, ids, vals);
        lemma_mono_body(f, g, e, body, fuel);
        if tramp(f, env, ids, vals, body, fuel, rounds) is Some && body.len() > 0 {
            if !signal_before_last(f, e, body, fuel) {
                assert(ev_body(f, e, body, fuel) is Some);
                assert(ev_args(f, e, body.drop_last(), fuel) is Some);
            }
            assert(signal_before_last(g, e, body, fuel) == signal_before_last(f, e, body, fuel));
        }
        if tramp(f, env, ids, vals, body, fuel, rounds) is Some && body.len() == 0 {
            assert(!signal_before_last(g, e, body, fuel));
            assert(!signal_before_last(f, e, body, fuel));
        }
        if let Some(o) = ev_body(f, e, body, fuel) {
            if let Some(vs) = signal_of(o) {
                if vs.len() == ids.len() {
                    lemma_mono_tramp(f, g, env, ids, vs, body, fuel, (rounds - 1) as nat);
                }
            }
        }
        let step_f = if signal_before_last(f, e, body, fuel) {
            Some(Ending::Fails("recur in non-tail position"@))
        } else {
            match ev_body(f, e, body, fuel) {
                Some(o) => match signal_of(o) {
                    Some(vs) => if vs.len() == ids.len() {
                        tramp(f, env, ids, vs, body, fuel, (rounds - 1) as nat)
                    } else {
                        Some(Ending::Fails(recur_arity_text(ids.len(), vs.len())))
                    },
                    None => Some(Ending::Done(o->Val_0)),
                },
                None => None,
            }
        };
        let step_g = if signal_before_last(g, e, body, fuel) {
            Some(Ending::Fails("recur in non-tail position"@))
        } else {
            match ev_body(g, e, body, fuel) {
                Some(o) => match signal_of(o) {
                    Some(vs) => if vs.len() == ids.len() {
                        tramp(g, env, ids, vs, body, fuel, (rounds - 1) as nat)
                    } else {
                        Some(Ending::Fails(recur_arity_text(ids.len(), vs.len())))
                    },
                    None => Some(Ending::Done(o->Val_0)),
                },
                None => None,
            }
        };
        assert(tramp(f, env, ids, vals, body, fuel, rounds) == step_f);
        assert(tramp(g, env, ids, vals, body, fuel, rounds) == step_g);
    }
}

/// `ev_native` over extended frames.
pub proof fn lemma_mono_native(f: Seq<ScopeData>, g: Seq<ScopeData>, env: Env, n: Native, args: Seq<Value>, fuel: nat)
    requires
        crate::scope::frames_wf(f),
        prefix_of(f, g),
    ensures
        ev_native(f, env, n, args, fuel) is Some ==> ev_native(g, env, n, args, fuel) == ev_native(f, env, n, args, fuel),
    decreases fuel, 3nat, 0nat,
{
    match n {
        Native::Quote => {},
        Native::If => {
            if args.len() == 3 {
                lemma_mono_ev(f, g, env, args[0], fuel);
                lemma_mono_ev(f, g, env, args[1], fuel);
                lemma_mono_ev(f, g, env, args[2], fuel);
            }
        },
        Native::Let => {
            if args.len() >= 2 && bindings_ok(args[0]) {
                lemma_mono_args(f, g, env, binding_exprs(args[0]), fuel);
                if let Some(vals) = ev_args(f, env, binding_exprs(args[0]), fuel) {
                    lemma_mono_body(f, g, extend(env, binding_ids(args[0]), vals), args.drop_first(), fuel);
                }
            }
        },
        Native::LetStar => {
            if args.len() >= 2 && bindings_ok(args[0]) {
                lemma_mono_star(f, g, env, binding_ids(args[0]), binding_exprs(args[0]), fuel);
                if let Some(vals) = ev_star(f, env, binding_ids(args[0]), binding_exprs(args[0]), fuel) {
                    lemma_mono_body(f, g, extend(env, binding_ids(args[0]), vals), args.drop_first(), fuel);
                }
            }
        },
        Native::Loop => {
            if args.len() >= 2 && bindings_ok(args[0]) {
                lemma_mono_star(f, g, env, binding_ids(args[0]), binding_exprs(args[0]), fuel);
                if let Some(vals) = ev_star(f, env, binding_ids(args[0]), binding_exprs(args[0]), fuel) {
                    lemma_mono_tramp(f, g, env, binding_ids(args[0]), vals, args.drop_first(), fuel, fuel);
                }
            }
        },
        _ => {
            lemma_mono_args(f, g, env, args, fuel);
        },
    }
}

} // verus!
