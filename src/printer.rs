//! Canonical text of a datum.
use crate::string_interner::StringInterner;
use crate::text::{decimal_of, decimal_string, join_spec, join_strings, string_from_chars, views_of};
use crate::value::{is_pair_or_empty, native_name, Proc, Value, ValueData};
use vstd::prelude::*;

verus! {

broadcast use vstd::std_specs::vec::group_vec_axioms;

/// The letter that stands after a backslash for a character written as an
/// escape: newline, space, tab and backslash.
pub open spec fn escape_char_spec(c: char) -> Option<char> {
    if c == '\n' {
        Some('n')
    } else if c == ' ' {
        Some('s')
    } else if c == '\t' {
        Some('t')
    } else if c == '\\' {
        Some('\\')
    } else {
        None
    }
}

/// A character literal: `#\x`, or `#\\n` and the like for the escapes.
pub open spec fn print_char(c: char) -> Seq<char> {
    match escape_char_spec(c) {
        Some(e) => seq!['#', '\\', '\\', e],
        None => seq!['#', '\\', c],
    }
}

/// One character of a string literal's body.
pub open spec fn escape_in_string(c: char) -> Seq<char> {
    if c == '\n' {
        seq!['\\', 'n']
    } else if c == '\t' {
        seq!['\\', 't']
    } else if c == '"' {
        seq!['\\', '"']
    } else if c == '\\' {
        seq!['\\', '\\']
    } else {
        seq![c]
    }
}

/// The body of a string literal for the text `s`.
pub open spec fn escape_str(s: Seq<char>) -> Seq<char>
    decreases s.len(),
{
    if s.len() == 0 {
        Seq::empty()
    } else {
        escape_str(s.drop_last()) + escape_in_string(s.last())
    }
}

/// The text of a symbol: its recorded name, or its id where none is known.
pub open spec fn print_symbol(id: u64, names: Map<u64, Seq<char>>) -> Seq<char> {
    if names.contains_key(id) {
        names[id]
    } else {
        "[SYMBOL: "@ + decimal_of(id as int) + "]"@
    }
}

/// The known names of a sequence of symbol ids; unknown ids are left out.
pub open spec fn param_names(ids: Seq<u64>, names: Map<u64, Seq<char>>) -> Seq<Seq<char>>
    decreases ids.len(),
{
    if ids.len() == 0 {
        Seq::empty()
    } else if names.contains_key(ids.last()) {
        param_names(ids.drop_last(), names).push(names[ids.last()])
    } else {
        param_names(ids.drop_last(), names)
    }
}

/// Canonical text of a datum. Proper lists print as `(a b c)`, a pair whose
/// tail is not a pair or `()` as `(a . b)`; a tail of a list that is such a
/// pair prints as one element.
pub open spec fn print_spec(v: Value, names: Map<u64, Seq<char>>) -> Seq<char>
    decreases v, 0nat,
{
    match v@ {
        ValueData::Bool(b) => if b { "true"@ } else { "false"@ },
        ValueData::Char(c) => print_char(c),
        ValueData::Integer(i) => decimal_of(i as int),
        ValueData::Symbol(id) => print_symbol(id, names),
        ValueData::String(s) => seq!['"'] + escape_str(s@) + seq!['"'],
        ValueData::EmptyList => "()"@,
        ValueData::Pair(a, b) => if is_pair_or_empty(b) {
            "("@ + join_spec(seq![print_spec(a, names)] + list_parts(b, names), " "@) + ")"@
        } else {
            "("@ + print_spec(a, names) + " . "@ + print_spec(b, names) + ")"@
        },
        ValueData::Condition(x) => "[CONDITION: "@ + print_spec(x, names) + "]"@,
        ValueData::NativeProc(n) => "[NATIVE_PROC: "@ + native_name(n) + "]"@,
        ValueData::Proc(p) => "[PROC: "@ + proc_text(p, names) + "]"@,
        ValueData::Recur(args) => "[RECUR: ("@ + join_spec(print_all(args@, names), " "@) + ")]"@,
    }
}

/// A closure's text: `(name (params) body...)`, `lambda` for a closure
/// without a name.
pub open spec fn proc_text(p: Proc, names: Map<u64, Seq<char>>) -> Seq<char>
    decreases p, 3nat,
{
    "("@ + proc_name(p) + " ("@ + join_spec(param_names(p.bindings@, names), " "@) + ") "@ + join_spec(
        print_all(p.code@, names),
        " "@,
    ) + ")"@
}

pub open spec fn proc_name(p: Proc) -> Seq<char> {
    match p.name {
        Some(n) => n@,
        None => "lambda"@,
    }
}

/// The printed elements that follow the head of a list.
pub open spec fn list_parts(v: Value, names: Map<u64, Seq<char>>) -> Seq<Seq<char>>
    decreases v, 1nat,
{
    match v@ {
        ValueData::Pair(a, b) => if is_pair_or_empty(b) {
            seq![print_spec(a, names)] + list_parts(b, names)
        } else {
            seq![print_spec(v, names)]
        },
        _ => Seq::empty(),
    }
}

/// Each datum of a sequence, printed.
pub open spec fn print_all(s: Seq<Value>, names: Map<u64, Seq<char>>) -> Seq<Seq<char>>
    decreases s, 2nat,
{
    if s.len() == 0 {
        Seq::empty()
    } else {
        print_all(s.drop_last(), names).push(print_spec(s.last(), names))
    }
}


/// The letter written after a backslash for `x`, where `x` is written as an
/// escape.
pub fn escape_char(x: char) -> (r: Option<char>)
    ensures
        r == escape_char_spec(x),
{
    if x == '\n' {
        Some('n')
    } else if x == ' ' {
        Some('s')
    } else if x == '\t' {
        Some('t')
    } else if x == '\\' {
        Some('\\')
    } else {
        None
    }
}

fn print_string_literal(s: &str) -> (r: String)
    ensures
        r@ == seq!['"'] + escape_str(s@) + seq!['"'],
{
    let cs = crate::text::chars_of(s);
    let mut out: Vec<char> = Vec::new();
    out.push('"');
    let mut i: usize = 0;
    while i < cs.len()
        invariant
            i <= cs@.len(),
            cs@ == s@,
            out@ == seq!['"'] + escape_str(cs@.subrange(0, i as int)),
        decreases cs.len() - i,
    {
        let c = cs[i];
        proof {
            let t = cs@.subrange(0, i as int + 1);
            assert(t.drop_last() =~= cs@.subrange(0, i as int));
            assert(t.last() == c);
        }
        if c == '\n' {
            out.push('\\');
            out.push('n');
        } else if c == '\t' {
            out.push('\\');
            out.push('t');
        } else if c == '"' {
            out.push('\\');
            out.push('"');
        } else if c == '\\' {
            out.push('\\');
            out.push('\\');
        } else {
            out.push(c);
        }
        proof {
            assert(out@ =~= seq!['"'] + escape_str(cs@.subrange(0, i as int + 1)));
        }
        i = i + 1;
    }
    out.push('"');
    assert(cs@.subrange(0, cs@.len() as int) =~= cs@);
    string_from_chars(&out)
}

fn print_char_literal(c: char) -> (r: String)
    ensures
        r@ == print_char(c),
{
    let mut out: Vec<char> = Vec::new();
    out.push('#');
    out.push('\\');
    match escape_char(c) {
        Some(e) => {
            out.push('\\');
            out.push(e);
        },
        None => {
            out.push(c);
        },
    }
    assert(out@ =~= print_char(c));
    string_from_chars(&out)
}

fn print_symbol_exec(id: u64, interner: &StringInterner) -> (r: String)
    ensures
        r@ == print_symbol(id, interner.names()),
{
    match interner.lookup(id) {
        Some(s) => String::from_str(s),
        None => {
            let mut r = String::from_str("[SYMBOL: ");
            let d = decimal_string(id as i128);
            r.append(d.as_str());
            r.append("]");
            r
        },
    }
}

fn param_names_exec(ids: &Vec<u64>, interner: &StringInterner) -> (r: Vec<String>)
    ensures
        views_of(r@) == param_names(ids@, interner.names()),
{
    let mut out: Vec<String> = Vec::new();
    let mut i: usize = 0;
    while i < ids.len()
        invariant
            i <= ids@.len(),
            views_of(out@) == param_names(ids@.subrange(0, i as int), interner.names()),
        decreases ids.len() - i,
    {
        proof {
            let t = ids@.subrange(0, i as int + 1);
            assert(t.drop_last() =~= ids@.subrange(0, i as int));
        }
        match interner.lookup(ids[i]) {
            Some(s) => {
                out.push(String::from_str(s));
                assert(views_of(out@) =~= param_names(ids@.subrange(0, i as int + 1), interner.names()));
            },
            None => {},
        }
        i = i + 1;
    }
    assert(ids@.subrange(0, ids@.len() as int) =~= ids@);
    out
}

fn print_all_exec(vals: &Vec<Value>, interner: &StringInterner) -> (r: Vec<String>)
    ensures
        views_of(r@) == print_all(vals@, interner.names()),
    decreases vals, 2nat,
{
    let mut out: Vec<String> = Vec::new();
    let mut i: usize = 0;
    while i < vals.len()
        invariant
            i <= vals@.len(),
            views_of(out@) == print_all(vals@.subrange(0, i as int), interner.names()),
        decreases vals.len() - i,
    {
        proof {
            let t = vals@.subrange(0, i as int + 1);
            assert(t.drop_last() =~= vals@.subrange(0, i as int));
        }
        let s = vals[i].to_string(interner);
        out.push(s);
        assert(views_of(out@) =~= print_all(vals@.subrange(0, i as int + 1), interner.names()));
        i = i + 1;
    }
    assert(vals@.subrange(0, vals@.len() as int) =~= vals@);
    out
}

fn list_parts_exec(v: &Value, interner: &StringInterner, parts: &mut Vec<String>)
    ensures
        views_of(final(parts)@) == views_of(old(parts)@) + list_parts(*v, interner.names()),
    decreases *v, 1nat,
{
    match v.data() {
        ValueData::Pair(a, b) => {
            if is_pair_or_empty_exec(b) {
                let s = a.to_string(interner);
                parts.push(s);
                list_parts_exec(b, interner, parts);
                assert(views_of(final(parts)@) =~= views_of(old(parts)@) + list_parts(*v, interner.names()));
            } else {
                let s = v.to_string(interner);
                parts.push(s);
                assert(views_of(final(parts)@) =~= views_of(old(parts)@) + list_parts(*v, interner.names()));
            }
        },
        _ => {
            assert(views_of(final(parts)@) =~= views_of(old(parts)@) + list_parts(*v, interner.names()));
        },
    }
}

fn is_pair_or_empty_exec(v: &Value) -> (r: bool)
    ensures
        r == is_pair_or_empty(*v),
{
    match v.data() {
        ValueData::Pair(_, _) => true,
        ValueData::EmptyList => true,
        _ => false,
    }
}

fn wrap(open: &str, inner: &str, close: &str) -> (r: String)
    ensures
        r@ == open@ + inner@ + close@,
{
    let mut r = String::from_str(open);
    r.append(inner);
    r.append(close);
    r
}

impl Proc {
    /// The closure's text, with parameter names taken from `interner`.
    pub fn to_string(&self, interner: &StringInterner) -> (r: String)
        ensures
            r@ == proc_text(*self, interner.names()),
        decreases *self, 3nat,
    {
        let params = param_names_exec(&self.bindings, interner);
        let code = print_all_exec(&self.code, interner);
        let mut r = String::from_str("(");
        match &self.name {
            Some(n) => r.append(n.as_str()),
            None => r.append("lambda"),
        }
        r.append(" (");
        let jp = join_strings(&params, " ");
        r.append(jp.as_str());
        r.append(") ");
        let jc = join_strings(&code, " ");
        r.append(jc.as_str());
        r.append(")");
        r
    }
}

impl Value {
    /// Canonical text of the datum, with symbol names taken from `interner`.
    pub fn to_string(&self, interner: &StringInterner) -> (r: String)
        ensures
            r@ == print_spec(*self, interner.names()),
        decreases *self, 0nat,
    {
        match self.data() {
            ValueData::Bool(b) => if *b {
                String::from_str("true")
            } else {
                String::from_str("false")
            },
            ValueData::Char(c) => print_char_literal(*c),
            ValueData::Integer(i) => decimal_string(*i as i128),
            ValueData::Symbol(id) => print_symbol_exec(*id, interner),
            ValueData::String(s) => print_string_literal(s.as_str()),
            ValueData::EmptyList => String::from_str("()"),
            ValueData::Pair(a, b) => {
                if is_pair_or_empty_exec(b) {
                    let mut parts: Vec<String> = Vec::new();
                    parts.push(a.to_string(interner));
                    list_parts_exec(b, interner, &mut parts);
                    assert(views_of(parts@) =~= seq![print_spec(*a, interner.names())] + list_parts(*b, interner.names()));
                    let j = join_strings(&parts, " ");
                    wrap("(", j.as_str(), ")")
                } else {
                    let sa = a.to_string(interner);
                    let sb = b.to_string(interner);
                    let mut r = String::from_str("(");
                    r.append(sa.as_str());
                    r.append(" . ");
                    r.append(sb.as_str());
                    r.append(")");
                    r
                }
            },
            ValueData::Condition(x) => {
                let s = x.to_string(interner);
                wrap("[CONDITION: ", s.as_str(), "]")
            },
            ValueData::NativeProc(n) => wrap("[NATIVE_PROC: ", n.name(), "]"),
            ValueData::Proc(p) => {
                let t = p.to_string(interner);
                wrap("[PROC: ", t.as_str(), "]")
            },
            ValueData::Recur(args) => {
                let parts = print_all_exec(args, interner);
                let j = join_strings(&parts, " ");
                wrap("[RECUR: (", j.as_str(), ")]")
            },
        }
    }
}

} // verus!
