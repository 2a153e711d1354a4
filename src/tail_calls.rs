//! The load-time check that every `recur` form stands in tail position of
//! a `loop` or closure body.
use crate::lexer::Error;
use crate::string_interner::{symbol_id, symbol_id_of};
use crate::value::{list_spec, Value, ValueData};
use vstd::prelude::*;

verus! {

/// The ids of the reserved words that the check looks at.
#[derive(Clone, Copy)]
pub struct Keywords {
    pub recur: u64,
    pub loop_: u64,
    pub lambda: u64,
    pub begin: u64,
    pub if_: u64,
    pub let_: u64,
    pub let_star: u64,
    pub define: u64,
    pub quote: u64,
}

pub open spec fn keywords_spec() -> Keywords {
    Keywords {
        recur: symbol_id_of("recur"@),
        loop_: symbol_id_of("loop"@),
        lambda: symbol_id_of("lambda"@),
        begin: symbol_id_of("begin"@),
        if_: symbol_id_of("if"@),
        let_: symbol_id_of("let"@),
        let_star: symbol_id_of("let*"@),
        define: symbol_id_of("define"@),
        quote: symbol_id_of("quote"@),
    }
}

impl Keywords {
    pub fn new() -> (r: Keywords)
        ensures
            r == keywords_spec(),
    {
        Keywords {
            recur: symbol_id("recur"),
            loop_: symbol_id("loop"),
            lambda: symbol_id("lambda"),
            begin: symbol_id("begin"),
            if_: symbol_id("if"),
            let_: symbol_id("let"),
            let_star: symbol_id("let*"),
            define: symbol_id("define"),
            quote: symbol_id("quote"),
        }
    }
}

/// Whether every `recur` in `v` is allowed; `tail` says whether `v` itself
/// stands where a `recur` may: in tail position of a `loop` or closure body.
///
/// A `recur` form is allowed only where `tail` holds, and its operands are
/// not in tail position. `quote` hides its operand from the check. The last
/// expression of `begin`, of a `let` or `let*` body and the branches of `if` inherit
/// the position of the form; the last expression of a `loop` or `lambda`
/// body is in tail position whatever the form's own position. Everything
/// else, the operands of calls, `define`'s value, binding lists and all but
/// the last expression of a body, is not in tail position.
pub open spec fn tail_ok(v: Value, tail: bool, kw: Keywords) -> bool
    decreases v, 1nat,
{
    match v@ {
        ValueData::Pair(h, t) => if h@ is Symbol && list_spec(v) is Some {
            let k = h@->Symbol_0;
            if k == kw.recur {
                tail && none_tail(t, kw)
            } else if k == kw.quote {
                true
            } else if k == kw.begin {
                body_ok(t, tail, kw)
            } else if k == kw.if_ {
                match t@ {
                    ValueData::Pair(c, rest) => tail_ok(c, false, kw) && all_tail(rest, tail, kw),
                    _ => true,
                }
            } else if k == kw.let_ || k == kw.let_star {
                match t@ {
                    ValueData::Pair(b, body) => tail_ok(b, false, kw) && body_ok(body, tail, kw),
                    _ => true,
                }
            } else if k == kw.loop_ {
                match t@ {
                    ValueData::Pair(b, body) => tail_ok(b, false, kw) && body_ok(body, true, kw),
                    _ => true,
                }
            } else if k == kw.lambda {
                match t@ {
                    ValueData::Pair(first, rest) => if first@ is Symbol {
                        match rest@ {
                            ValueData::Pair(params, body) => tail_ok(params, false, kw) && body_ok(body, true, kw),
                            _ => true,
                        }
                    } else {
                        tail_ok(first, false, kw) && body_ok(rest, true, kw)
                    },
                    _ => true,
                }
            } else {
                tail_ok(h, false, kw) && none_tail(t, kw)
            }
        } else {
            tail_ok(h, false, kw) && none_tail(t, kw)
        },
        _ => true,
    }
}

/// Every element along the pair links of `l` is out of tail position.
pub open spec fn none_tail(l: Value, kw: Keywords) -> bool
    decreases l, 0nat,
{
    match l@ {
        ValueData::Pair(h, t) => tail_ok(h, false, kw) && none_tail(t, kw),
        _ => true,
    }
}

/// Every element along the pair links of `l` is in position `tail`.
pub open spec fn all_tail(l: Value, tail: bool, kw: Keywords) -> bool
    decreases l, 0nat,
{
    match l@ {
        ValueData::Pair(h, t) => tail_ok(h, tail, kw) && all_tail(t, tail, kw),
        _ => true,
    }
}

/// A body: the last element is in position `tail`, the others are not.
pub open spec fn body_ok(l: Value, tail: bool, kw: Keywords) -> bool
    decreases l, 0nat,
{
    match l@ {
        ValueData::Pair(h, t) => if t@ is Pair {
            tail_ok(h, false, kw) && body_ok(t, tail, kw)
        } else {
            tail_ok(h, tail, kw)
        },
        _ => true,
    }
}

fn is_proper_list(v: &Value) -> (r: bool)
    ensures
        r == (list_spec(*v) is Some),
{
    v.get_list().is_some()
}

pub fn check_tail(v: &Value, tail: bool, kw: &Keywords) -> (r: bool)
    ensures
        r == tail_ok(*v, tail, *kw),
    decreases *v, 1nat,
{
    match v.data() {
        ValueData::Pair(h, t) => {
            match h.get_symbol() {
                Some(k) => {
                    if !is_proper_list(v) {
                        return check_tail(h, false, kw) && check_none_tail(t, kw);
                    }
                    if k == kw.recur {
                        tail && check_none_tail(t, kw)
                    } else if k == kw.quote {
                        true
                    } else if k == kw.begin {
                        check_body(t, tail, kw)
                    } else if k == kw.if_ {
                        match t.data() {
                            ValueData::Pair(c, rest) => check_tail(c, false, kw) && check_all_tail(rest, tail, kw),
                            _ => true,
                        }
                    } else if k == kw.let_ || k == kw.let_star {
                        match t.data() {
                            ValueData::Pair(b, body) => check_tail(b, false, kw) && check_body(body, tail, kw),
                            _ => true,
                        }
                    } else if k == kw.loop_ {
                        match t.data() {
                            ValueData::Pair(b, body) => check_tail(b, false, kw) && check_body(body, true, kw),
                            _ => true,
                        }
                    } else if k == kw.lambda {
                        match t.data() {
                            ValueData::Pair(first, rest) => {
                                if first.get_symbol().is_some() {
                                    match rest.data() {
                                        ValueData::Pair(params, body) => check_tail(params, false, kw) && check_body(
                                            body,
                                            true,
                                            kw,
                                        ),
                                        _ => true,
                                    }
                                } else {
                                    check_tail(first, false, kw) && check_body(rest, true, kw)
                                }
                            },
                            _ => true,
                        }
                    } else {
                        check_tail(h, false, kw) && check_none_tail(t, kw)
                    }
                },
                None => check_tail(h, false, kw) && check_none_tail(t, kw),
            }
        },
        _ => true,
    }
}

fn check_none_tail(l: &Value, kw: &Keywords) -> (r: bool)
    ensures
        r == none_tail(*l, *kw),
    decreases *l, 0nat,
{
    match l.data() {
        ValueData::Pair(h, t) => check_tail(h, false, kw) && check_none_tail(t, kw),
        _ => true,
    }
}

fn check_all_tail(l: &Value, tail: bool, kw: &Keywords) -> (r: bool)
    ensures
        r == all_tail(*l, tail, *kw),
    decreases *l, 0nat,
{
    match l.data() {
        ValueData::Pair(h, t) => check_tail(h, tail, kw) && check_all_tail(t, tail, kw),
        _ => true,
    }
}

fn check_body(l: &Value, tail: bool, kw: &Keywords) -> (r: bool)
    ensures
        r == body_ok(*l, tail, *kw),
    decreases *l, 0nat,
{
    match l.data() {
        ValueData::Pair(h, t) => {
            if t.get_pair().is_some() {
                check_tail(h, false, kw) && check_body(t, tail, kw)
            } else {
                check_tail(h, tail, kw)
            }
        },
        _ => true,
    }
}

/// Checks a parsed program: each top-level form is out of tail position.
pub fn verify_tail_calls(items: &Vec<Value>) -> (r: Result<(), Error>)
    ensures
        r is Ok <==> forall|i: int| 0 <= i < items@.len() ==> tail_ok(#[trigger] items@[i], false, keywords_spec()),
        r matches Err(e) ==> e == Error::RecurInNonTailPosition,
{
    let kw = Keywords::new();
    let mut i: usize = 0;
    while i < items.len()
        invariant
            kw == keywords_spec(),
            i <= items@.len(),
            forall|j: int| 0 <= j < i ==> tail_ok(#[trigger] items@[j], false, keywords_spec()),
        decreases items.len() - i,
    {
        if !check_tail(&items[i], false, &kw) {
            return Err(Error::RecurInNonTailPosition);
        }
        i = i + 1;
    }
    Ok(())
}

} // verus!
