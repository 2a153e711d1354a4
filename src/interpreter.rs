//! The evaluator: dispatch on a datum's shape, closure calls, and the
//! trampoline that runs `loop` and closure bodies, consuming `recur` signals
//! by iteration instead of host recursion.
use crate::native;
use crate::printer::{print_spec, proc_name};
use crate::scope::{find_binding, parents_kept, Scope};
use crate::semantics::{
    agrees, bound_in, env_of, ev, ev_args, ev_body, ev_star, extend, frame_env, grows, lemma_ev_args_prefix,
    lemma_ev_star_prefix, lemma_grows_env,
    lemma_mono_args, lemma_mono_body, lemma_mono_ev, lemma_mono_native, lemma_mono_tramp, no_signal, outcome_is, prefix_of,
    recur_arity_text, signal_before_last, signal_of, tramp, ending_is, Ending, Outcome,
};
use crate::string_interner::StringInterner;
use crate::text::{decimal_of, decimal_string};
use crate::value::{datum, list_spec, Native, Proc, Value, ValueData};
use vstd::prelude::*;

verus! {

broadcast use vstd::std_specs::vec::group_vec_axioms;

/// The evaluation budget of a top-level call: the depth of nested
/// evaluations, and the rounds of each trampoline, never exceed it.
pub const EVALUATION_BUDGET: u64 = 0xFFFF_FFFF_FFFF_FFFFu64;

/// The state of evaluation: the symbol names, the store of frames, and the
/// frame that evaluation currently sees.
pub struct Interpreter {
    pub interner: StringInterner,
    pub scope: Scope,
    pub current_scope: usize,
}

/// `r` is a condition whose payload is the string `msg`.
pub open spec fn is_condition_with(r: Value, msg: Seq<char>) -> bool {
    &&& r@ is Condition
    &&& r@->Condition_0@ is String
    &&& r@->Condition_0@->String_0@ == msg
}

pub open spec fn arity_text(name: Seq<char>, expected: Seq<char>, got: int) -> Seq<char> {
    "arity mismatch for "@ + name + ": expected: "@ + expected + ", got: "@ + decimal_of(got)
}

pub open spec fn type_text(name: Seq<char>, kind: Seq<char>, got: Seq<char>) -> Seq<char> {
    name + " expected "@ + kind + ", got: "@ + got
}

/// What evaluating `v` gives when `v` is not a pair: a symbol's binding as
/// seen from the current frame, a condition for an unbound symbol or for
/// `()`, and the datum itself for everything else.
pub open spec fn atom_result(st: Interpreter, v: Value, r: Value) -> bool {
    match v@ {
        ValueData::Symbol(id) => match st.scope.lookup_view(st.current_scope as int, id) {
            Some(x) => r == x,
            None => is_condition_with(r, "undefined ident: "@ + print_spec(v, st.interner.names())),
        },
        ValueData::EmptyList => is_condition_with(r, "tried to evaluate ()"@),
        _ => r == v,
    }
}

pub open spec fn is_atom(v: Value) -> bool {
    !(v@ is Pair)
}

pub open spec fn all_atoms(s: Seq<Value>) -> bool {
    forall|i: int| 0 <= i < s.len() ==> is_atom(#[trigger] s[i])
}

/// Each of `vals` is what the datum at the same place of `args` evaluates
/// to, all of them atoms, in state `st`.
pub open spec fn atom_results(st: Interpreter, args: Seq<Value>, vals: Seq<Value>) -> bool {
    &&& vals.len() == args.len()
    &&& forall|i: int| 0 <= i < args.len() ==> atom_result(st, #[trigger] args[i], vals[i])
}

/// Where `value` calls a closure named by a symbol with a number of
/// arguments other than its parameter count, `r` is the arity condition.
pub open spec fn arity_checked(st: Interpreter, value: Value, r: Value) -> bool {
    match list_spec(value) {
        Some(items) => (items.len() > 0 && items[0]@ is Symbol) ==> match st.scope.lookup_view(
            st.current_scope as int,
            items[0]@->Symbol_0,
        ) {
            Some(f) => match f@ {
                ValueData::Proc(p) => p.bindings@.len() != items.len() - 1 ==> is_condition_with(
                    r,
                    arity_text(proc_name(p), decimal_of(p.bindings@.len() as int), items.len() - 1),
                ),
                _ => true,
            },
            None => true,
        },
        None => true,
    }
}

/// Where `value` is a list whose head is an atom that gives a built-in, `r`
/// is what the built-in gives on the rest of the list.
pub open spec fn native_called(st: Interpreter, value: Value, r: Value) -> bool {
    match list_spec(value) {
        Some(items) => (items.len() > 0 && is_atom(items[0])) ==> forall|f: Value|
            #[trigger] atom_result(st, items[0], f) ==> match f@ {
                ValueData::NativeProc(n) => native::native_spec(n, st, items.drop_first(), r),
                _ => true,
            },
        None => true,
    }
}

/// Where `value` is a list whose head gives something that is neither a
/// built-in nor a closure, `r` is the condition that says so.
pub open spec fn not_callable(st: Interpreter, value: Value, fuel: nat, r: Value) -> bool {
    match list_spec(value) {
        Some(items) => items.len() > 0 && fuel > 0 ==> (ev(st.scope.frames@, env_of(st), items[0], (fuel - 1) as nat) matches Some(
            Outcome::Val(f),
        ) ==> (!(f@ is NativeProc) && !(f@ is Proc) ==> is_condition_with(
            r,
            "tried to call "@ + print_spec(f, st.interner.names()) + ", which is not possible"@,
        ))),
        None => true,
    }
}

/// `new` follows `old` after an evaluation: the same current frame, every
/// earlier frame kept with its parent, every earlier frame but the current
/// one exactly as it was, and symbol names only added.
pub open spec fn evolves(old: Interpreter, new: Interpreter) -> bool {
    &&& new.current_scope == old.current_scope
    &&& parents_kept(old.scope.frames@, new.scope.frames@)
    &&& others_kept(old, new)
    &&& names_kept(old.interner.names(), new.interner.names())
}

/// Every frame of `old` is in `new` as it was.
pub open spec fn all_kept(old: Interpreter, new: Interpreter) -> bool {
    forall|i: int| 0 <= i < old.scope.frames@.len() ==> #[trigger] new.scope.frames@[i] == old.scope.frames@[i]
}

/// Every frame of `old` but its current one is in `new` as it was.
pub open spec fn others_kept(old: Interpreter, new: Interpreter) -> bool {
    forall|i: int|
        0 <= i < old.scope.frames@.len() && i != old.current_scope ==> #[trigger] new.scope.frames@[i] == old.scope.frames@[i]
}

/// Every name of `old` stands in `new` unchanged.
pub open spec fn names_kept(old: Map<u64, Seq<char>>, new: Map<u64, Seq<char>>) -> bool {
    forall|k: u64| #[trigger] old.contains_key(k) ==> new.contains_key(k) && new[k] == old[k]
}

/// A condition with the given message.
pub fn condition(msg: &str) -> (r: Value)
    ensures
        is_condition_with(r, msg@),
{
    Value::new_condition(Value::new_string(msg))
}

/// A condition whose message is `msg`.
pub fn condition_from(msg: String) -> (r: Value)
    ensures
        is_condition_with(r, msg@),
{
    Value::new_condition(Value::new_string(msg.as_str()))
}

/// The two texts one after the other.
pub fn join2(a: &str, b: &str) -> (r: String)
    ensures
        r@ == a@ + b@,
{
    let mut r = String::from_str(a);
    r.append(b);
    r
}

/// The three texts one after another.
pub fn concat3(a: &str, b: &str, c: &str) -> (r: String)
    ensures
        r@ == a@ + b@ + c@,
{
    let mut r = String::from_str(a);
    r.append(b);
    r.append(c);
    r
}

/// The condition for a call with `got` arguments where `expected` were due.
pub fn arity_condition(name: &str, expected: &str, got: usize) -> (r: Value)
    ensures
        is_condition_with(r, arity_text(name@, expected@, got as int)),
{
    let mut m = String::from_str("arity mismatch for ");
    m.append(name);
    m.append(": expected: ");
    m.append(expected);
    m.append(", got: ");
    let g = decimal_string(got as i128);
    m.append(g.as_str());
    condition_from(m)
}

/// `None` where `got == n`, else the arity condition.
pub fn check_exact(name: &str, got: usize, n: usize) -> (r: Option<Value>)
    ensures
        got == n ==> r is None,
        got != n ==> r is Some && is_condition_with(r->Some_0, arity_text(name@, decimal_of(n as int), got as int)),
{
    if got == n {
        None
    } else {
        let e = decimal_string(n as i128);
        Some(arity_condition(name, e.as_str(), got))
    }
}

/// `None` where `got >= n`, else the arity condition.
pub fn check_min(name: &str, got: usize, n: usize) -> (r: Option<Value>)
    ensures
        got >= n ==> r is None,
        got < n ==> r is Some && is_condition_with(r->Some_0, arity_text(name@, decimal_of(n as int) + ".."@, got as int)),
{
    if got >= n {
        None
    } else {
        let mut e = decimal_string(n as i128);
        e.append("..");
        Some(arity_condition(name, e.as_str(), got))
    }
}

/// The name of the built-in `n` is known and bound, in frame `frame` itself,
/// to a built-in: to `n`, unless another built-in's name has the same id.
pub open spec fn native_bound(st: Interpreter, frame: int, n: Native) -> bool {
    let id = crate::string_interner::symbol_id_of(crate::value::native_name(n));
    &&& st.interner.names().contains_key(id)
    &&& crate::scope::find_binding(st.scope.frames@[frame].bindings@, id) matches Some(v)
    &&& v@ is NativeProc
}

/// Frame `frame` binds nothing but built-ins, each under the id of its own
/// name.
pub open spec fn only_natives(st: Interpreter, frame: int) -> bool {
    forall|id: u64| #[trigger] crate::scope::find_binding(st.scope.frames@[frame].bindings@, id) matches Some(v) ==> v@ is NativeProc
        && crate::string_interner::symbol_id_of(crate::value::native_name(v@->NativeProc_0)) == id
}

impl Interpreter {
    pub open spec fn wf(&self) -> bool {
        &&& self.interner.wf()
        &&& self.scope.wf()
        &&& self.current_scope < self.scope.frames@.len()
    }

    /// An interpreter whose global frame binds every built-in under its name.
    pub fn new() -> (r: Interpreter)
        ensures
            r.wf(),
            r.current_scope == 0,
            r.scope.frames@.len() == 1,
            r.scope.frames@[0].parent is None,
            forall|n: Native| #[trigger] native_bound(r, 0, n),
            only_natives(r, 0),
    {
        let mut interpreter = Interpreter {
            interner: StringInterner::new(),
            scope: Scope::new(),
            current_scope: 0,
        };
        interpreter.init();
        interpreter
    }

    fn init(&mut self)
        requires
            old(self).wf(),
            old(self).scope.frames@[old(self).current_scope as int].bindings@.len() == 0,
        ensures
            final(self).wf(),
            final(self).current_scope == old(self).current_scope,
            final(self).scope.frames@.len() == old(self).scope.frames@.len(),
            final(self).scope.frames@[final(self).current_scope as int].parent == old(self).scope.frames@[old(self).current_scope as int].parent,
            forall|n: Native| #[trigger] native_bound(*final(self), old(self).current_scope as int, n),
            only_natives(*final(self), old(self).current_scope as int),
    {
        let all = Native::all();
        let cur = self.current_scope;
        let mut i: usize = 0;
        while i < all.len()
            invariant
                self.wf(),
                self.current_scope == cur,
                cur == old(self).current_scope,
                self.scope.frames@.len() == old(self).scope.frames@.len(),
                self.scope.frames@[cur as int].parent == old(self).scope.frames@[cur as int].parent,
                forall|j: int| 0 <= j < i ==> #[trigger] native_bound(*self, cur as int, all@[j]),
                only_natives(*self, cur as int),
            decreases all.len() - i,
        {
            let ghost before = *self;
            self.add_native(all[i]);
            proof {
                assert forall|j: int| 0 <= j < i + 1 implies #[trigger] native_bound(*self, cur as int, all@[j]) by {
                    if j < i {
                        assert(native_bound(before, cur as int, all@[j]));
                    }
                }
            }
            i = i + 1;
        }
        proof {
            assert forall|n: Native| #[trigger] native_bound(*self, cur as int, n) by {
                assert(all@.contains(n));
                let j = choose|j: int| 0 <= j < all@.len() && all@[j] == n;
                assert(native_bound(*self, cur as int, all@[j]));
            }
        }
    }

    fn add_native(&mut self, n: Native)
        requires
            old(self).wf(),
        ensures
            final(self).wf(),
            final(self).current_scope == old(self).current_scope,
            final(self).scope.frames@.len() == old(self).scope.frames@.len(),
            native_bound(*final(self), old(self).current_scope as int, n),
            final(self).scope.frames@[final(self).current_scope as int].parent == old(self).scope.frames@[old(self).current_scope as int].parent,
            only_natives(*old(self), old(self).current_scope as int) ==> only_natives(*final(self), old(self).current_scope as int),
            forall|m: Native| #[trigger] native_bound(*old(self), old(self).current_scope as int, m) ==> native_bound(
                *final(self),
                old(self).current_scope as int,
                m,
            ),
    {
        self.add_str_to_current_scope(n.name(), Value::new_native_proc(n));
        proof {
            let id = crate::string_interner::symbol_id_of(crate::value::native_name(n));
            assert(crate::scope::find_binding(self.scope.frames@[self.current_scope as int].bindings@, id) == Some(
                datum(ValueData::NativeProc(n)),
            ));
        }
    }

    /// Binds the symbol with text `s` to `value` in the current frame.
    pub fn add_str_to_current_scope(&mut self, s: &str, value: Value)
        requires
            old(self).wf(),
        ensures
            final(self).wf(),
            final(self).current_scope == old(self).current_scope,
            final(self).scope.frames@.len() == old(self).scope.frames@.len(),
            final(self).interner.names().contains_key(crate::string_interner::symbol_id_of(s@)),
            crate::scope::find_binding(
                final(self).scope.frames@[final(self).current_scope as int].bindings@,
                crate::string_interner::symbol_id_of(s@),
            ) == Some(value),
            names_kept(old(self).interner.names(), final(self).interner.names()),
            final(self).scope.frames@[final(self).current_scope as int].parent == old(self).scope.frames@[old(self).current_scope as int].parent,
            forall|other: u64| other != crate::string_interner::symbol_id_of(s@) ==> #[trigger] crate::scope::find_binding(
                final(self).scope.frames@[final(self).current_scope as int].bindings@,
                other,
            ) == crate::scope::find_binding(old(self).scope.frames@[old(self).current_scope as int].bindings@, other),
    {
        let id = self.interner.intern(s);
        self.scope.add_symbol(self.current_scope, id, value);
    }

    /// Evaluates `value` in the current frame.
    pub fn evaluate(&mut self, value: &Value) -> (r: Value)
        requires
            old(self).wf(),
        ensures
            final(self).wf(),
            evolves(*old(self), *final(self)),
            is_atom(*value) ==> atom_result(*old(self), *value, r) && *final(self) == *old(self),
            value@ is Pair && list_spec(*value) is None ==> r == *value,
            arity_checked(*old(self), *value, r),
            native_called(*old(self), *value, r),
            not_callable(*old(self), *value, EVALUATION_BUDGET as nat, r),
            agrees(ev(old(self).scope.frames@, env_of(*old(self)), *value, EVALUATION_BUDGET as nat), *old(self), r, *final(self)),
    {
        self.eval(value, EVALUATION_BUDGET)
    }

    /// Evaluates `value` with a budget of `fuel` nested evaluations.
    pub fn eval(&mut self, value: &Value, fuel: u64) -> (r: Value)
        requires
            old(self).wf(),
        ensures
            final(self).wf(),
            evolves(*old(self), *final(self)),
            is_atom(*value) ==> atom_result(*old(self), *value, r) && *final(self) == *old(self),
            value@ is Pair && list_spec(*value) is None ==> r == *value,
            fuel > 0 ==> arity_checked(*old(self), *value, r),
            fuel > 0 ==> native_called(*old(self), *value, r),
            fuel == 0 && value@ is Pair && list_spec(*value) is Some ==> is_condition_with(
                r,
                "evaluation budget exhausted"@,
            ),
            agrees(ev(old(self).scope.frames@, env_of(*old(self)), *value, fuel as nat), *old(self), r, *final(self)),
            not_callable(*old(self), *value, fuel as nat, r),
        decreases fuel, 0nat,
    {
        match value.data() {
            ValueData::Symbol(id) => {
                match self.scope.lookup_symbol(self.current_scope, *id) {
                    Some(v) => v,
                    None => {
                        let s = value.to_string(&self.interner);
                        let m = join2("undefined ident: ", s.as_str());
                        proof {
                            assert(m@ =~= "undefined ident: "@ + print_spec(*value, self.interner.names()));
                        }
                        condition_from(m)
                    },
                }
            },
            ValueData::EmptyList => condition("tried to evaluate ()"),
            ValueData::Pair(head, rest) => {
                let args = match rest.get_list() {
                    Some(args) => args,
                    None => {
                        return value.clone();
                    },
                };
                if fuel == 0 {
                    return condition("evaluation budget exhausted");
                }
                let ghost st0 = *self;
                let f = self.eval(head, fuel - 1);
                proof {
                    let items = list_spec(*value)->Some_0;
                    assert(items[0] == *head);
                    assert(items.drop_first() =~= args@);
                    let fr = st0.scope.frames@;
                    let f1 = (fuel - 1) as nat;
                    if ev(fr, env_of(st0), *head, f1) is Some {
                        lemma_grows_env(st0, *self, st0.current_scope as int);
                        lemma_mono_args(fr, self.scope.frames@, env_of(st0), args@, f1);
                        if let Some(Outcome::Val(h)) = ev(fr, env_of(st0), *head, f1) {
                            match h@ {
                                ValueData::NativeProc(n) => {
                                    lemma_mono_native(fr, self.scope.frames@, env_of(st0), n, args@, f1);
                                },
                                ValueData::Proc(p) => {
                                    if p.parent_scope < fr.len() {
                                        crate::semantics::lemma_frame_env_prefix(fr, self.scope.frames@, p.parent_scope as int);
                                        if let Some(vs) = ev_args(fr, env_of(st0), args@, f1) {
                                            lemma_mono_tramp(
                                                fr,
                                                self.scope.frames@,
                                                frame_env(fr, p.parent_scope as int),
                                                p.bindings@,
                                                vs,
                                                p.code@,
                                                f1,
                                                f1,
                                            );
                                        }
                                    }
                                },
                                _ => {},
                            }
                        }
                    }
                }
                match f.data() {
                    ValueData::NativeProc(n) => native::apply_native(self, *n, &args, fuel - 1),
                    ValueData::Proc(p) => p.evaluate(self, &args, fuel - 1),
                    _ => {
                        let s = f.to_string(&self.interner);
                        let m = concat3("tried to call ", s.as_str(), ", which is not possible");
                        condition_from(m)
                    },
                }
            },
            _ => value.clone(),
        }
    }

    /// Evaluates each datum of `args` in order, in the current frame.
    pub fn eval_args(&mut self, args: &Vec<Value>, fuel: u64) -> (r: Vec<Value>)
        requires
            old(self).wf(),
        ensures
            final(self).wf(),
            evolves(*old(self), *final(self)),
            r@.len() == args@.len(),
            all_atoms(args@) ==> atom_results(*old(self), args@, r@) && *final(self) == *old(self),
            ev_args(old(self).scope.frames@, env_of(*old(self)), args@, fuel as nat) matches Some(vals) ==> r@ == vals && grows(*old(self), *final(self)),
        decreases fuel, 1nat,
    {
        let ghost env = env_of(*self);
        let ghost fr = self.scope.frames@;
        let ghost pure = ev_args(fr, env, args@, fuel as nat) is Some;
        let mut out: Vec<Value> = Vec::new();
        let mut i: usize = 0;
        while i < args.len()
            invariant
                self.wf(),
                evolves(*old(self), *self),
                i <= args@.len(),
                out@.len() == i,
                env == env_of(*old(self)),
                fr == old(self).scope.frames@,
                old(self).wf(),
                pure == ev_args(fr, env, args@, fuel as nat) is Some,
                all_atoms(args@) ==> *self == *old(self) && forall|j: int| 0 <= j < i ==> atom_result(*old(self), #[trigger] args@[j], out@[j]),
                pure ==> grows(*old(self), *self) && out@ == ev_args(fr, env, args@, fuel as nat)->Some_0.subrange(0, i as int),
            decreases args.len() - i,
        {
            let ghost st = *self;
            proof {
                if pure {
                    lemma_grows_env(*old(self), st, old(self).current_scope as int);
                    lemma_ev_args_prefix(fr, env, args@, fuel as nat, i as int);
                    lemma_mono_ev(fr, st.scope.frames@, env, args@[i as int], fuel as nat);
                }
            }
            let v = self.eval(&args[i], fuel);
            out.push(v);
            i = i + 1;
            proof {
                if pure {
                    let s = ev_args(fr, env, args@, fuel as nat)->Some_0;
                    assert(out@ =~= s.subrange(0, i as int));
                }
            }
        }
        proof {
            if pure {
                lemma_ev_args_prefix(fr, env, args@, fuel as nat, 0);
                assert(out@ =~= ev_args(fr, env, args@, fuel as nat)->Some_0);
            }
        }
        out
    }

    /// A fresh child frame of `parent` that binds `ids` to `vals`, the later
    /// of two equal ids winning.
    pub fn bind_frame(&mut self, parent: usize, ids: &Vec<u64>, vals: &Vec<Value>) -> (frame: usize)
        requires
            old(self).wf(),
            parent < old(self).scope.frames@.len(),
            ids@.len() == vals@.len(),
        ensures
            final(self).wf(),
            evolves(*old(self), *final(self)),
            final(self).interner == old(self).interner,
            grows(*old(self), *final(self)),
            frame == old(self).scope.frames@.len(),
            final(self).scope.frames@.len() == old(self).scope.frames@.len() + 1,
            final(self).scope.frames@[frame as int].parent == Some(parent),
            frame_env(final(self).scope.frames@, frame as int) == extend(
                frame_env(old(self).scope.frames@, parent as int),
                ids@,
                vals@,
            ),
    {
        let frame = self.scope.new_child(parent);
        let mut i: usize = 0;
        while i < ids.len()
            invariant
                self.wf(),
                old(self).wf(),
                i <= ids@.len(),
                ids@.len() == vals@.len(),
                self.interner == old(self).interner,
                self.current_scope == old(self).current_scope,
                frame == old(self).scope.frames@.len(),
                self.scope.frames@.len() == old(self).scope.frames@.len() + 1,
                self.scope.frames@[frame as int].parent == Some(parent),
                forall|k: int| 0 <= k < old(self).scope.frames@.len() ==> #[trigger] self.scope.frames@[k] == old(self).scope.frames@[k],
                forall|id: u64| #[trigger] find_binding(self.scope.frames@[frame as int].bindings@, id) == bound_in(
                    ids@.subrange(0, i as int),
                    vals@.subrange(0, i as int),
                    id,
                ),
            decreases ids.len() - i,
        {
            self.scope.add_symbol(frame, ids[i], vals[i].clone());
            proof {
                let a = ids@.subrange(0, i as int + 1);
                let b = vals@.subrange(0, i as int + 1);
                assert(a.drop_last() =~= ids@.subrange(0, i as int));
                assert(b.drop_last() =~= vals@.subrange(0, i as int));
                assert forall|id: u64| #[trigger] find_binding(self.scope.frames@[frame as int].bindings@, id) == bound_in(a, b, id) by {}
            }
            i = i + 1;
        }
        proof {
            assert(ids@.subrange(0, i as int) =~= ids@);
            assert(vals@.subrange(0, i as int) =~= vals@);
            crate::semantics::lemma_frame_env(old(self).scope.frames@, self.scope.frames@, frame, parent, ids@, vals@);
        }
        frame
    }

    /// A fresh child frame of the current one in which `ids` are bound in
    /// order to the values of `exprs`, each evaluated in that frame and so
    /// seeing the ones before it; the frame and the values.
    pub fn bind_in_order(&mut self, ids: &Vec<u64>, exprs: &Vec<Value>, fuel: u64) -> (r: (usize, Vec<Value>))
        requires
            old(self).wf(),
            ids@.len() == exprs@.len(),
        ensures
            final(self).wf(),
            evolves(*old(self), *final(self)),
            all_kept(*old(self), *final(self)),
            r.0 == old(self).scope.frames@.len(),
            r.0 < final(self).scope.frames@.len(),
            final(self).scope.frames@[r.0 as int].parent == Some(old(self).current_scope),
            r.1@.len() == ids@.len(),
            ev_star(old(self).scope.frames@, env_of(*old(self)), ids@, exprs@, fuel as nat) matches Some(vs) ==> {
                &&& r.1@ == vs
                &&& grows(*old(self), *final(self))
                &&& frame_env(final(self).scope.frames@, r.0 as int) == extend(env_of(*old(self)), ids@, vs)
            },
        decreases fuel, 1nat,
    {
        let ghost env = env_of(*self);
        let ghost fr = self.scope.frames@;
        let ghost pure = ev_star(fr, env, ids@, exprs@, fuel as nat) is Some;
        let parent = self.current_scope;
        let frame = self.scope.new_child(parent);
        self.current_scope = frame;
        let mut vals: Vec<Value> = Vec::new();
        proof {
            if pure {
                lemma_ev_star_prefix(fr, env, ids@, exprs@, fuel as nat, 0);
            }
        }
        let mut i: usize = 0;
        while i < ids.len()
            invariant
                self.wf(),
                old(self).wf(),
                crate::native::parents_kept_since(*old(self), *self),
                self.current_scope == frame,
                parent == old(self).current_scope,
                ids@.len() == exprs@.len(),
                i <= ids@.len(),
                frame == old(self).scope.frames@.len(),
                frame < self.scope.frames@.len(),
                self.scope.frames@[frame as int].parent == Some(parent),
                env == env_of(*old(self)),
                fr == old(self).scope.frames@,
                pure == ev_star(fr, env, ids@, exprs@, fuel as nat) is Some,
                forall|k: int| 0 <= k < old(self).scope.frames@.len() ==> #[trigger] self.scope.frames@[k]
                    == old(self).scope.frames@[k],
                vals@.len() == i,
                pure ==> forall|id: u64| #[trigger] find_binding(self.scope.frames@[frame as int].bindings@, id) == bound_in(
                    ids@.subrange(0, i as int),
                    vals@,
                    id,
                ),
                pure ==> {
                    &&& self.interner == old(self).interner
                    &&& ev_star(fr, env, ids@.subrange(0, i as int), exprs@.subrange(0, i as int), fuel as nat) == Some(vals@)
                },
            decreases ids.len() - i,
        {
            proof {
                if pure {
                    crate::semantics::lemma_frame_env(
                        old(self).scope.frames@,
                        self.scope.frames@,
                        frame,
                        parent,
                        ids@.subrange(0, i as int),
                        vals@,
                    );
                    lemma_ev_star_prefix(fr, env, ids@, exprs@, fuel as nat, i as int + 1);
                    let a = ids@.subrange(0, i as int + 1);
                    let e = exprs@.subrange(0, i as int + 1);
                    assert(a.drop_last() =~= ids@.subrange(0, i as int));
                    assert(e.drop_last() =~= exprs@.subrange(0, i as int));
                    assert(prefix_of(fr, self.scope.frames@));
                    lemma_mono_ev(fr, self.scope.frames@, extend(env, ids@.subrange(0, i as int), vals@), exprs@[i as int], fuel as nat);
                }
            }
            let v = self.eval(&exprs[i], fuel);
            self.scope.add_symbol(frame, ids[i], v.clone());
            let ghost before = vals@;
            vals.push(v);
            proof {
                let a = ids@.subrange(0, i as int + 1);
                assert(a.drop_last() =~= ids@.subrange(0, i as int));
                assert(vals@.drop_last() =~= before);
                if pure {
                    assert forall|id: u64| #[trigger] find_binding(self.scope.frames@[frame as int].bindings@, id) == bound_in(a, vals@, id) by {}
                }
            }
            i = i + 1;
        }
        proof {
            assert(ids@.subrange(0, i as int) =~= ids@);
            assert(exprs@.subrange(0, i as int) =~= exprs@);
            if pure {
                crate::semantics::lemma_frame_env(old(self).scope.frames@, self.scope.frames@, frame, parent, ids@, vals@);
            }
        }
        self.current_scope = parent;
        (frame, vals)
    }

    /// Evaluates `body[start..]` in order in the current frame: the value of
    /// the last one, or `()` for none. A `recur` signal from any but the last
    /// gives a condition.
    pub fn eval_body(&mut self, body: &Vec<Value>, start: usize, fuel: u64) -> (r: Value)
        requires
            old(self).wf(),
            start <= body@.len(),
        ensures
            final(self).wf(),
            evolves(*old(self), *final(self)),
            agrees(
                ev_body(old(self).scope.frames@, env_of(*old(self)), body@.subrange(start as int, body@.len() as int), fuel as nat),
                *old(self),
                r,
                *final(self),
            ),
            start < body@.len() ==> (ev_args(
                old(self).scope.frames@,
                env_of(*old(self)),
                body@.subrange(start as int, body@.len() - 1),
                fuel as nat,
            ) matches Some(s) ==> (!no_signal(s) ==> is_condition_with(r, "recur in non-tail position"@) && grows(
                *old(self),
                *final(self),
            ))),
        decreases fuel, 1nat,
    {
        let ghost env = env_of(*self);
        let ghost fr = self.scope.frames@;
        let ghost b = body@.subrange(start as int, body@.len() as int);
        let ghost pure = ev_body(fr, env, b, fuel as nat) is Some;
        let ghost pre = b.len() > 0 && ev_args(fr, env, b.drop_last(), fuel as nat) is Some;
        proof {
            if b.len() > 0 {
                assert(b.drop_last() =~= body@.subrange(start as int, body@.len() - 1));
            }
            if pre {
                lemma_ev_args_prefix(fr, env, b.drop_last(), fuel as nat, 0);
            }
        }
        let mut res = Value::empty_list();
        let mut i = start;
        while i < body.len()
            invariant
                self.wf(),
                old(self).wf(),
                evolves(*old(self), *self),
                start <= i <= body@.len(),
                env == env_of(*old(self)),
                fr == old(self).scope.frames@,
                b == body@.subrange(start as int, body@.len() as int),
                pure == (ev_body(fr, env, b, fuel as nat) is Some),
                pre == (b.len() > 0 && ev_args(fr, env, b.drop_last(), fuel as nat) is Some),
                pure && b.len() > 0 ==> pre,
                i == start ==> *self == *old(self) && res == datum(ValueData::EmptyList),
                pre ==> ev_args(fr, env, b.drop_last(), fuel as nat)->Some_0.len() == b.len() - 1,
                (pre && i < body@.len()) || (pure && i > start) ==> grows(*old(self), *self),
                pre ==> forall|k: int| 0 <= k < i - start && k < b.len() - 1 ==> !((#[trigger] ev_args(fr, env, b.drop_last(), fuel as nat)->Some_0[k])@ is Recur),
                pure && i > start ==> (ev(fr, env, body@[i - 1], fuel as nat) matches Some(o) && outcome_is(res, o)),
            decreases body.len() - i,
        {
            let ghost st = *self;
            proof {
                if pre || pure {
                    lemma_grows_env(*old(self), st, old(self).current_scope as int);
                    lemma_mono_ev(fr, st.scope.frames@, env, body@[i as int], fuel as nat);
                }
                if pre && i + 1 < body.len() {
                    lemma_ev_args_prefix(fr, env, b.drop_last(), fuel as nat, i - start);
                    assert(b.drop_last()[i - start] == body@[i as int]);
                }
                if pure && i + 1 == body.len() {
                    assert(b.last() == body@[i as int]);
                }
            }
            res = self.eval(&body[i], fuel);
            if i + 1 < body.len() && res.get_recur().is_some() {
                proof {
                    assert(b.drop_last() =~= body@.subrange(start as int, body@.len() - 1));
                    if pre {
                        assert(grows(st, *self));
                        assert(grows(*old(self), *self));
                    }
                }
                return condition("recur in non-tail position");
            }
            i = i + 1;
        }
        proof {
            if pre {
                let sv = ev_args(fr, env, b.drop_last(), fuel as nat)->Some_0;
                assert forall|k: int| 0 <= k < sv.len() implies !((#[trigger] sv[k])@ is Recur) by {}
                assert(no_signal(sv));
            }
            if b.len() > 0 {
                assert(b.last() == body@[body@.len() - 1]);
            }
        }
        res
    }

    /// Runs `body` in a fresh child frame of `parent` that binds `ids` to
    /// `vals`, again with the new values for as long as the last expression
    /// yields a `recur` signal of matching length. A round changes no frame
    /// made before it, so the frames it made are reachable only from
    /// themselves and from the values it hands on; where those hold no
    /// closure and no pair, the frames are dropped before the next round.
    pub fn trampoline(&mut self, parent: usize, ids: &Vec<u64>, init: Vec<Value>, body: &Vec<Value>, fuel: u64) -> (r: Value)
        requires
            old(self).wf(),
            parent < old(self).scope.frames@.len(),
            ids@.len() == init@.len(),
        ensures
            final(self).wf(),
            evolves(*old(self), *final(self)),
            all_kept(*old(self), *final(self)),
            !(r@ is Recur),
            fuel == 0 ==> is_condition_with(r, "evaluation budget exhausted"@),
            fuel > 0 ==> final(self).scope.frames@.len() > old(self).scope.frames@.len()
                && final(self).scope.frames@[old(self).scope.frames@.len() as int].parent == Some(parent),
            tramp(
                old(self).scope.frames@,
                frame_env(old(self).scope.frames@, parent as int),
                ids@,
                init@,
                body@,
                fuel as nat,
                fuel as nat,
            ) matches Some(e) ==> ending_is(r, e) && grows(*old(self), *final(self)),
        decreases fuel, 2nat,
    {
        let saved = self.current_scope;
        let base = self.scope.frames.len();
        let ghost first_frame = self.scope.frames@.len();
        let ghost fr = self.scope.frames@;
        let ghost penv = frame_env(fr, parent as int);
        let ghost target = tramp(fr, penv, ids@, init@, body@, fuel as nat, fuel as nat);
        let mut vals = init;
        let mut rounds: u64 = fuel;
        loop
            invariant
                self.wf(),
                old(self).wf(),
                evolves(*old(self), *self),
                all_kept(*old(self), *self),
                parent < old(self).scope.frames@.len(),
                saved == self.current_scope,
                ids@.len() == vals@.len(),
                rounds <= fuel,
                rounds < fuel ==> self.scope.frames@.len() > first_frame && self.scope.frames@[first_frame as int].parent
                    == Some(parent),
                rounds == fuel ==> self.scope.frames@.len() == first_frame && *self == *old(self),
                first_frame == old(self).scope.frames@.len(),
                base == first_frame,
                fr == old(self).scope.frames@,
                penv == frame_env(fr, parent as int),
                target == tramp(fr, penv, ids@, init@, body@, fuel as nat, fuel as nat),
                target is Some ==> target == tramp(fr, penv, ids@, vals@, body@, fuel as nat, rounds as nat) && grows(
                    *old(self),
                    *self,
                ),
            decreases rounds,
        {
            if rounds == 0 {
                return condition("evaluation budget exhausted");
            }
            let ghost before = tramp(fr, penv, ids@, vals@, body@, fuel as nat, rounds as nat);
            let ghost e = extend(penv, ids@, vals@);
            if rounds < fuel && plain_values(&vals) {
                self.scope.release(base);
                proof {
                    assert(self.scope.frames@.len() == base);
                }
            }
            rounds = rounds - 1;
            let ghost st = *self;
            let frame = self.bind_frame(parent, ids, &vals);
            proof {
                if target is Some {
                    lemma_grows_env(*old(self), st, parent as int);
                }
            }
            self.current_scope = frame;
            let ghost stk = *self;
            let res = self.eval_body(body, 0, fuel);
            self.current_scope = saved;
            proof {
                assert(body@.subrange(0, body@.len() as int) =~= body@);
                if body@.len() > 0 {
                    assert(body@.subrange(0, body@.len() - 1) =~= body@.drop_last());
                }
                if target is Some {
                    assert(env_of(stk) == e);
                    assert(prefix_of(fr, stk.scope.frames@));
                    lemma_mono_body(fr, stk.scope.frames@, e, body@, fuel as nat);
                    assert(before == if signal_before_last(fr, e, body@, fuel as nat) {
                        Some(Ending::Fails("recur in non-tail position"@))
                    } else {
                        match ev_body(fr, e, body@, fuel as nat) {
                            Some(o) => match signal_of(o) {
                                Some(vs) => if vs.len() == ids@.len() {
                                    tramp(fr, penv, ids@, vs, body@, fuel as nat, rounds as nat)
                                } else {
                                    Some(Ending::Fails(recur_arity_text(ids@.len(), vs.len())))
                                },
                                None => Some(Ending::Done(o->Val_0)),
                            },
                            None => None,
                        }
                    });
                }
            }
            match res.get_recur() {
                Some(args) => {
                    if args.len() != ids.len() {
                        let e = decimal_string(ids.len() as i128);
                        return arity_condition("recur", e.as_str(), args.len());
                    }
                    vals = native::share_all(args);
                },
                None => {
                    return res;
                },
            }
        }
    }
}

/// None of `vals` is a closure, a pair or anything else that holds data.
fn plain_values(vals: &Vec<Value>) -> (r: bool)
    ensures
        r ==> forall|i: int| 0 <= i < vals@.len() ==> !((#[trigger] vals@[i])@ is Proc) && !(vals@[i]@ is Pair)
            && !(vals@[i]@ is Condition) && !(vals@[i]@ is Recur),
{
    let mut i: usize = 0;
    while i < vals.len()
        invariant
            i <= vals@.len(),
            forall|j: int| 0 <= j < i ==> !((#[trigger] vals@[j])@ is Proc) && !(vals@[j]@ is Pair) && !(vals@[j]@ is Condition)
                && !(vals@[j]@ is Recur),
        decreases vals.len() - i,
    {
        match vals[i].data() {
            ValueData::Proc(_) | ValueData::Pair(_, _) | ValueData::Condition(_) | ValueData::Recur(_) => {
                return false;
            },
            _ => {},
        }
        i = i + 1;
    }
    true
}

/// A binder of values to symbols together with a body: the shape of `loop`.
pub struct LetLoop {
    pub bindings: Vec<(u64, Value)>,
    pub code: Vec<Value>,
}

impl LetLoop {
    pub fn new(bindings: Vec<(u64, Value)>, code: Vec<Value>) -> (r: LetLoop)
        ensures
            r.bindings == bindings,
            r.code == code,
    {
        LetLoop { bindings, code }
    }

    /// The names of the bindings, in order.
    pub open spec fn ids_view(&self) -> Seq<u64> {
        self.bindings@.map_values(|b: (u64, Value)| b.0)
    }

    /// The expressions of the bindings, in order.
    pub open spec fn exprs_view(&self) -> Seq<Value> {
        self.bindings@.map_values(|b: (u64, Value)| b.1)
    }

    /// Binds the names in order, in a child frame of the current one, to
    /// the values of their expressions, each seeing the ones before it; then
    /// runs the body through the trampoline, rebinding the names for each
    /// `recur` of the body's last expression.
    pub fn evaluate_loop(&self, interpreter: &mut Interpreter, fuel: u64) -> (r: Value)
        requires
            old(interpreter).wf(),
        ensures
            final(interpreter).wf(),
            evolves(*old(interpreter), *final(interpreter)),
            all_kept(*old(interpreter), *final(interpreter)),
            !(r@ is Recur),
            final(interpreter).scope.frames@.len() > old(interpreter).scope.frames@.len()
                && final(interpreter).scope.frames@[old(interpreter).scope.frames@.len() as int].parent == Some(
                old(interpreter).current_scope,
            ),
            ev_star(old(interpreter).scope.frames@, env_of(*old(interpreter)), self.ids_view(), self.exprs_view(), fuel as nat)
                matches Some(vs) ==> (tramp(
                old(interpreter).scope.frames@,
                env_of(*old(interpreter)),
                self.ids_view(),
                vs,
                self.code@,
                fuel as nat,
                fuel as nat,
            ) matches Some(e) ==> ending_is(r, e) && grows(*old(interpreter), *final(interpreter))),
        decreases fuel, 3nat,
    {
        let mut ids: Vec<u64> = Vec::new();
        let mut exprs: Vec<Value> = Vec::new();
        let mut i: usize = 0;
        while i < self.bindings.len()
            invariant
                i <= self.bindings@.len(),
                ids@ == self.ids_view().subrange(0, i as int),
                exprs@ == self.exprs_view().subrange(0, i as int),
            decreases self.bindings.len() - i,
        {
            ids.push(self.bindings[i].0);
            exprs.push(self.bindings[i].1.clone());
            assert(ids@ =~= self.ids_view().subrange(0, i as int + 1));
            assert(exprs@ =~= self.exprs_view().subrange(0, i as int + 1));
            i = i + 1;
        }
        assert(ids@ =~= self.ids_view());
        assert(exprs@ =~= self.exprs_view());
        let parent = interpreter.current_scope;
        let (_frame, vals) = interpreter.bind_in_order(&ids, &exprs, fuel);
        proof {
            let fr = old(interpreter).scope.frames@;
            if let Some(vs) = ev_star(fr, env_of(*old(interpreter)), ids@, exprs@, fuel as nat) {
                lemma_grows_env(*old(interpreter), *interpreter, parent as int);
                lemma_mono_tramp(fr, interpreter.scope.frames@, env_of(*old(interpreter)), ids@, vs, self.code@, fuel as nat, fuel as nat);
            }
        }
        interpreter.trampoline(parent, &ids, vals, &self.code, fuel)
    }
}

impl Proc {
    /// Calls the closure: the arguments are evaluated in the caller's frame,
    /// then the body runs in a child of the closure's own frame.
    pub fn evaluate(&self, interpreter: &mut Interpreter, args: &Vec<Value>, fuel: u64) -> (r: Value)
        requires
            old(interpreter).wf(),
        ensures
            final(interpreter).wf(),
            evolves(*old(interpreter), *final(interpreter)),
            self.bindings@.len() != args@.len() ==> is_condition_with(
                r,
                arity_text(proc_name(*self), decimal_of(self.bindings@.len() as int), args@.len() as int),
            ) && *final(interpreter) == *old(interpreter),
            self.bindings@.len() == args@.len() ==> !(r@ is Recur),
            // the body runs in a fresh child of the frame the closure was made in
            self.bindings@.len() == args@.len() && fuel > 0 && self.parent_scope < old(interpreter).scope.frames@.len()
                ==> exists|k: int|
                old(interpreter).scope.frames@.len() <= k < final(interpreter).scope.frames@.len()
                    && #[trigger] final(interpreter).scope.frames@[k].parent == Some(self.parent_scope),
            // the call itself changes no frame of the caller; its arguments may
            ev_args(old(interpreter).scope.frames@, env_of(*old(interpreter)), args@, fuel as nat) is Some ==> all_kept(*old(interpreter), *final(interpreter)),
            // arguments in the caller's frame, then the body over the closure's frame
            self.bindings@.len() == args@.len() && self.parent_scope < old(interpreter).scope.frames@.len() ==> (ev_args(
                old(interpreter).scope.frames@,
                env_of(*old(interpreter)),
                args@,
                fuel as nat,
            ) matches Some(vals) ==> (tramp(
                old(interpreter).scope.frames@,
                frame_env(old(interpreter).scope.frames@, self.parent_scope as int),
                self.bindings@,
                vals,
                self.code@,
                fuel as nat,
                fuel as nat,
            ) matches Some(e) ==> ending_is(r, e) && grows(*old(interpreter), *final(interpreter)))),
        decreases fuel, 3nat,
    {
        if self.bindings.len() != args.len() {
            let e = decimal_string(self.bindings.len() as i128);
            return match &self.name {
                Some(n) => arity_condition(n.as_str(), e.as_str(), args.len()),
                None => arity_condition("lambda", e.as_str(), args.len()),
            };
        }
        let vals = interpreter.eval_args(args, fuel);
        if self.parent_scope >= interpreter.scope.frames.len() {
            return condition("closure refers to an unknown frame");
        }
        let ghost start = interpreter.scope.frames@.len();
        proof {
            let fr = old(interpreter).scope.frames@;
            if let Some(vs) = ev_args(fr, env_of(*old(interpreter)), args@, fuel as nat) {
                if self.parent_scope < fr.len() {
                    lemma_grows_env(*old(interpreter), *interpreter, self.parent_scope as int);
                    lemma_mono_tramp(
                        fr,
                        interpreter.scope.frames@,
                        frame_env(fr, self.parent_scope as int),
                        self.bindings@,
                        vs,
                        self.code@,
                        fuel as nat,
                        fuel as nat,
                    );
                }
            }
        }
        let r = interpreter.trampoline(self.parent_scope, &self.bindings, vals, &self.code, fuel);
        assert(fuel > 0 ==> interpreter.scope.frames@[start as int].parent == Some(self.parent_scope));
        r
    }
}

} // verus!
