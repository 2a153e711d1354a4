//! The immutable, reference-counted datum shared by program text and runtime data.
use std::rc::Rc;
use vstd::prelude::*;

verus! {

broadcast use vstd::std_specs::vec::group_vec_axioms;

/// The built-in operations of the global frame. Each one receives its
/// arguments unevaluated and decides itself which of them to evaluate.
#[derive(Clone, Copy, PartialEq, Eq, Debug, Structural)]
pub enum Native {
    Quote,
    Define,
    SetBang,
    If,
    PolyEq,
    Lambda,
    Let,
    LetStar,
    Loop,
    Begin,
    Recur,
    NullP,
    BooleanP,
    SymbolP,
    IntegerP,
    CharP,
    StringP,
    ProcedureP,
    ListP,
    PairP,
    CharInteger,
    IntegerChar,
    NumberString,
    StringNumber,
    SymbolString,
    StringSymbol,
    Plus,
    Minus,
    Multiply,
    Quotient,
    Remainder,
    NumEq,
    Gt,
    Ge,
    Lt,
    Le,
    List,
    Car,
    Cdr,
    Cons,
    SetCar,
    SetCdr,
    SymbolSpace,
}

/// The name under which a built-in is bound in the global frame.
pub open spec fn native_name(n: Native) -> Seq<char> {
    match n {
        Native::Quote => "quote"@,
        Native::Define => "define"@,
        Native::SetBang => "set!"@,
        Native::If => "if"@,
        Native::PolyEq => "eq?"@,
        Native::Lambda => "lambda"@,
        Native::Let => "let"@,
        Native::LetStar => "let*"@,
        Native::Loop => "loop"@,
        Native::Begin => "begin"@,
        Native::Recur => "recur"@,
        Native::NullP => "null?"@,
        Native::BooleanP => "boolean?"@,
        Native::SymbolP => "symbol?"@,
        Native::IntegerP => "integer?"@,
        Native::CharP => "char?"@,
        Native::StringP => "string?"@,
        Native::ProcedureP => "procedure?"@,
        Native::ListP => "list?"@,
        Native::PairP => "pair?"@,
        Native::CharInteger => "char->integer"@,
        Native::IntegerChar => "integer->char"@,
        Native::NumberString => "number->string"@,
        Native::StringNumber => "string->number"@,
        Native::SymbolString => "symbol->string"@,
        Native::StringSymbol => "string->symbol"@,
        Native::Plus => "+"@,
        Native::Minus => "-"@,
        Native::Multiply => "*"@,
        Native::Quotient => "quotient"@,
        Native::Remainder => "remainder"@,
        Native::NumEq => "="@,
        Native::Gt => ">"@,
        Native::Ge => ">="@,
        Native::Lt => "<"@,
        Native::Le => "<="@,
        Native::List => "list"@,
        Native::Car => "car"@,
        Native::Cdr => "cdr"@,
        Native::Cons => "cons"@,
        Native::SetCar => "set-car!"@,
        Native::SetCdr => "set-cdr!"@,
        Native::SymbolSpace => "symbol-space"@,
    }
}

impl Native {
    /// Every built-in, each once.
    pub fn all() -> (r: Vec<Native>)
        ensures
            forall|n: Native| #[trigger] r@.contains(n),
    {
        let r = vec![Native::Quote, Native::Define, Native::SetBang, Native::If, Native::PolyEq, Native::Lambda, Native::Let, Native::LetStar, Native::Loop, Native::Begin, Native::Recur, Native::NullP, Native::BooleanP, Native::SymbolP, Native::IntegerP, Native::CharP, Native::StringP, Native::ProcedureP, Native::ListP, Native::PairP, Native::CharInteger, Native::IntegerChar, Native::NumberString, Native::StringNumber, Native::SymbolString, Native::StringSymbol, Native::Plus, Native::Minus, Native::Multiply, Native::Quotient, Native::Remainder, Native::NumEq, Native::Gt, Native::Ge, Native::Lt, Native::Le, Native::List, Native::Car, Native::Cdr, Native::Cons, Native::SetCar, Native::SetCdr, Native::SymbolSpace];
        assert forall|n: Native| #[trigger] r@.contains(n) by {
            match n {
                Native::Quote => assert(r@[0] == n),
                Native::Define => assert(r@[1] == n),
                Native::SetBang => assert(r@[2] == n),
                Native::If => assert(r@[3] == n),
                Native::PolyEq => assert(r@[4] == n),
                Native::Lambda => assert(r@[5] == n),
                Native::Let => assert(r@[6] == n),
                Native::LetStar => assert(r@[7] == n),
                Native::Loop => assert(r@[8] == n),
                Native::Begin => assert(r@[9] == n),
                Native::Recur => assert(r@[10] == n),
                Native::NullP => assert(r@[11] == n),
                Native::BooleanP => assert(r@[12] == n),
                Native::SymbolP => assert(r@[13] == n),
                Native::IntegerP => assert(r@[14] == n),
                Native::CharP => assert(r@[15] == n),
                Native::StringP => assert(r@[16] == n),
                Native::ProcedureP => assert(r@[17] == n),
                Native::ListP => assert(r@[18] == n),
                Native::PairP => assert(r@[19] == n),
                Native::CharInteger => assert(r@[20] == n),
                Native::IntegerChar => assert(r@[21] == n),
                Native::NumberString => assert(r@[22] == n),
                Native::StringNumber => assert(r@[23] == n),
                Native::SymbolString => assert(r@[24] == n),
                Native::StringSymbol => assert(r@[25] == n),
                Native::Plus => assert(r@[26] == n),
                Native::Minus => assert(r@[27] == n),
                Native::Multiply => assert(r@[28] == n),
                Native::Quotient => assert(r@[29] == n),
                Native::Remainder => assert(r@[30] == n),
                Native::NumEq => assert(r@[31] == n),
                Native::Gt => assert(r@[32] == n),
                Native::Ge => assert(r@[33] == n),
                Native::Lt => assert(r@[34] == n),
                Native::Le => assert(r@[35] == n),
                Native::List => assert(r@[36] == n),
                Native::Car => assert(r@[37] == n),
                Native::Cdr => assert(r@[38] == n),
                Native::Cons => assert(r@[39] == n),
                Native::SetCar => assert(r@[40] == n),
                Native::SetCdr => assert(r@[41] == n),
                Native::SymbolSpace => assert(r@[42] == n),
            }
        }
        r
    }
    pub fn name(&self) -> (r: &'static str)
        ensures
            r@ == native_name(*self),
    {
        match self {
            Native::Quote => "quote",
            Native::Define => "define",
            Native::SetBang => "set!",
            Native::If => "if",
            Native::PolyEq => "eq?",
            Native::Lambda => "lambda",
            Native::Let => "let",
            Native::LetStar => "let*",
            Native::Loop => "loop",
            Native::Begin => "begin",
            Native::Recur => "recur",
            Native::NullP => "null?",
            Native::BooleanP => "boolean?",
            Native::SymbolP => "symbol?",
            Native::IntegerP => "integer?",
            Native::CharP => "char?",
            Native::StringP => "string?",
            Native::ProcedureP => "procedure?",
            Native::ListP => "list?",
            Native::PairP => "pair?",
            Native::CharInteger => "char->integer",
            Native::IntegerChar => "integer->char",
            Native::NumberString => "number->string",
            Native::StringNumber => "string->number",
            Native::SymbolString => "symbol->string",
            Native::StringSymbol => "string->symbol",
            Native::Plus => "+",
            Native::Minus => "-",
            Native::Multiply => "*",
            Native::Quotient => "quotient",
            Native::Remainder => "remainder",
            Native::NumEq => "=",
            Native::Gt => ">",
            Native::Ge => ">=",
            Native::Lt => "<",
            Native::Le => "<=",
            Native::List => "list",
            Native::Car => "car",
            Native::Cdr => "cdr",
            Native::Cons => "cons",
            Native::SetCar => "set-car!",
            Native::SetCdr => "set-cdr!",
            Native::SymbolSpace => "symbol-space",
        }
    }
}

/// A closure: an optional display name, the frame it was created in, its
/// parameters and its body.
#[derive(Debug)]
pub struct Proc {
    pub name: Option<String>,
    pub parent_scope: usize,
    pub bindings: Vec<u64>,
    pub code: Vec<Value>,
}

#[derive(Debug)]
pub enum ValueData {
    Bool(bool),
    Char(char),
    Integer(i64),
    Symbol(u64),
    String(String),
    EmptyList,
    Pair(Value, Value),
    Condition(Value),
    NativeProc(Native),
    Proc(Proc),
    Recur(Vec<Value>),
}

/// A datum; cloning it shares the same immutable data.
#[derive(Debug)]
pub struct Value {
    pub data: Rc<ValueData>,
}

impl View for Value {
    type V = ValueData;

    open spec fn view(&self) -> ValueData {
        *self.data
    }
}

impl Clone for Value {
    fn clone(&self) -> (r: Self)
        ensures
            r == *self,
    {
        Value { data: self.data.clone() }
    }
}

/// The elements of a proper list, or `None` where the tail links end in
/// something other than the empty list.
pub open spec fn list_spec(v: Value) -> Option<Seq<Value>>
    decreases v,
{
    match v@ {
        ValueData::EmptyList => Some(Seq::empty()),
        ValueData::Pair(a, b) => match list_spec(b) {
            Some(s) => Some(seq![a] + s),
            None => None,
        },
        _ => None,
    }
}

/// The number of nodes of a datum, counting each pair link.
pub open spec fn size(v: Value) -> nat
    decreases v,
{
    match v@ {
        ValueData::Pair(a, b) => 1 + size(a) + size(b),
        ValueData::Condition(a) => 1 + size(a),
        _ => 1,
    }
}

/// The datum holding `d`.
pub open spec fn datum(d: ValueData) -> Value {
    Value { data: Rc::new(d) }
}

pub open spec fn is_pair_or_empty(v: Value) -> bool {
    v@ is Pair || v@ is EmptyList
}

/// The list built from a sequence of elements.
pub open spec fn list_of(s: Seq<Value>) -> Value
    decreases s.len(),
{
    if s.len() == 0 {
        Value { data: Rc::new(ValueData::EmptyList) }
    } else {
        Value { data: Rc::new(ValueData::Pair(s[0], list_of(s.drop_first()))) }
    }
}

pub proof fn lemma_list_of(s: Seq<Value>)
    ensures
        list_spec(list_of(s)) == Some(s),
    decreases s.len(),
{
    if s.len() > 0 {
        lemma_list_of(s.drop_first());
        assert(seq![s[0]] + s.drop_first() =~= s);
    } else {
        assert(s =~= Seq::empty());
    }
}

impl Value {
    fn new_with(data: ValueData) -> (r: Value)
        ensures
            r@ == data,
            r == datum(data),
    {
        Value { data: Rc::new(data) }
    }

    pub fn new_bool(x: bool) -> (r: Value)
        ensures
            r@ == ValueData::Bool(x),
            r == datum(ValueData::Bool(x)),
    {
        Self::new_with(ValueData::Bool(x))
    }

    pub fn new_char(x: char) -> (r: Value)
        ensures
            r@ == ValueData::Char(x),
            r == datum(ValueData::Char(x)),
    {
        Self::new_with(ValueData::Char(x))
    }

    pub fn new_integer(x: i64) -> (r: Value)
        ensures
            r@ == ValueData::Integer(x),
            r == datum(ValueData::Integer(x)),
    {
        Self::new_with(ValueData::Integer(x))
    }

    pub fn new_symbol(id: u64) -> (r: Value)
        ensures
            r@ == ValueData::Symbol(id),
            r == datum(ValueData::Symbol(id)),
    {
        Self::new_with(ValueData::Symbol(id))
    }

    pub fn new_string(x: &str) -> (r: Value)
        ensures
            r@ is String,
            r@->String_0@ == x@,
    {
        Self::new_with(ValueData::String(String::from_str(x)))
    }

    pub fn new_pair(a: Value, b: Value) -> (r: Value)
        ensures
            r@ == ValueData::Pair(a, b),
            r == datum(ValueData::Pair(a, b)),
    {
        Self::new_with(ValueData::Pair(a, b))
    }

    pub fn new_condition(x: Value) -> (r: Value)
        ensures
            r@ == ValueData::Condition(x),
            r == datum(ValueData::Condition(x)),
    {
        Self::new_with(ValueData::Condition(x))
    }

    pub fn empty_list() -> (r: Value)
        ensures
            r@ == ValueData::EmptyList,
            r == datum(ValueData::EmptyList),
    {
        Self::new_with(ValueData::EmptyList)
    }

    pub fn new_native_proc(f: Native) -> (r: Value)
        ensures
            r@ == ValueData::NativeProc(f),
            r == datum(ValueData::NativeProc(f)),
    {
        Self::new_with(ValueData::NativeProc(f))
    }

    pub fn new_proc(name: Option<String>, parent_scope: usize, bindings: Vec<u64>, code: Vec<Value>) -> (r: Value)
        ensures
            r@ is Proc,
            r@->Proc_0 == Proc::spec_new(name, parent_scope, bindings, code),
    {
        Self::new_with(ValueData::Proc(Proc::new(name, parent_scope, bindings, code)))
    }

    pub fn new_recur(args: Vec<Value>) -> (r: Value)
        ensures
            r@ == ValueData::Recur(args),
    {
        Self::new_with(ValueData::Recur(args))
    }

    pub fn data(&self) -> (r: &ValueData)
        ensures
            *r == self@,
    {
        &*self.data
    }

    pub fn get_empty_list(&self) -> (r: Option<()>)
        ensures
            r is Some <==> self@ is EmptyList,
    {
        match self.data() {
            ValueData::EmptyList => Some(()),
            _ => None,
        }
    }

    pub fn get_symbol(&self) -> (r: Option<u64>)
        ensures
            match self@ {
                ValueData::Symbol(id) => r == Some(id),
                _ => r is None,
            },
    {
        match self.data() {
            ValueData::Symbol(id) => Some(*id),
            _ => None,
        }
    }

    pub fn get_bool(&self) -> (r: Option<bool>)
        ensures
            match self@ {
                ValueData::Bool(b) => r == Some(b),
                _ => r is None,
            },
    {
        match self.data() {
            ValueData::Bool(b) => Some(*b),
            _ => None,
        }
    }

    pub fn get_integer(&self) -> (r: Option<i64>)
        ensures
            match self@ {
                ValueData::Integer(i) => r == Some(i),
                _ => r is None,
            },
    {
        match self.data() {
            ValueData::Integer(i) => Some(*i),
            _ => None,
        }
    }

    pub fn get_char(&self) -> (r: Option<char>)
        ensures
            match self@ {
                ValueData::Char(c) => r == Some(c),
                _ => r is None,
            },
    {
        match self.data() {
            ValueData::Char(c) => Some(*c),
            _ => None,
        }
    }

    pub fn get_string(&self) -> (r: Option<&str>)
        ensures
            match self@ {
                ValueData::String(s) => r is Some && r->Some_0@ == s@,
                _ => r is None,
            },
    {
        match self.data() {
            ValueData::String(s) => Some(s.as_str()),
            _ => None,
        }
    }

    pub fn get_pair(&self) -> (r: Option<(&Value, &Value)>)
        ensures
            match self@ {
                ValueData::Pair(a, b) => r == Some((&a, &b)),
                _ => r is None,
            },
    {
        match self.data() {
            ValueData::Pair(a, b) => Some((a, b)),
            _ => None,
        }
    }

    pub fn get_condition(&self) -> (r: Option<&Value>)
        ensures
            match self@ {
                ValueData::Condition(x) => r == Some(&x),
                _ => r is None,
            },
    {
        match self.data() {
            ValueData::Condition(x) => Some(x),
            _ => None,
        }
    }

    pub fn get_native(&self) -> (r: Option<Native>)
        ensures
            match self@ {
                ValueData::NativeProc(n) => r == Some(n),
                _ => r is None,
            },
    {
        match self.data() {
            ValueData::NativeProc(n) => Some(*n),
            _ => None,
        }
    }

    pub fn get_proc(&self) -> (r: Option<&Proc>)
        ensures
            match self@ {
                ValueData::Proc(p) => r == Some(&p),
                _ => r is None,
            },
    {
        match self.data() {
            ValueData::Proc(p) => Some(p),
            _ => None,
        }
    }

    pub fn get_recur(&self) -> (r: Option<&[Value]>)
        ensures
            match self@ {
                ValueData::Recur(args) => r is Some && r->Some_0@ == args@,
                _ => r is None,
            },
    {
        match self.data() {
            ValueData::Recur(args) => Some(args.as_slice()),
            _ => None,
        }
    }

    /// The proper list of the given elements, in order.
    pub fn new_list(elements: &[Value]) -> (r: Value)
        ensures
            list_spec(r) == Some(elements@),
            r == list_of(elements@),
    {
        let mut res = Value::empty_list();
        let mut i: usize = elements.len();
        proof {
            assert(elements@.subrange(i as int, elements@.len() as int) =~= Seq::<Value>::empty());
        }
        while i > 0
            invariant
                i <= elements@.len(),
                res == list_of(elements@.subrange(i as int, elements@.len() as int)),
            decreases i,
        {
            i = i - 1;
            let ghost rest = elements@.subrange(i as int + 1, elements@.len() as int);
            res = Value::new_pair(elements[i].clone(), res);
            proof {
                let s = elements@.subrange(i as int, elements@.len() as int);
                assert(s.drop_first() =~= rest);
                assert(s[0] == elements@[i as int]);
            }
        }
        proof {
            assert(elements@.subrange(0, elements@.len() as int) =~= elements@);
            lemma_list_of(elements@);
        }
        res
    }

    /// The elements of a proper list; `None` for anything else.
    pub fn get_list(&self) -> (r: Option<Vec<Value>>)
        ensures
            match list_spec(*self) {
                Some(s) => r is Some && r->Some_0@ == s,
                None => r is None,
            },
    {
        let mut out: Vec<Value> = Vec::new();
        let mut cur = self.clone();
        loop
            invariant
                list_spec(*self) == (match list_spec(cur) {
                    Some(s) => Some(out@ + s),
                    None => None::<Seq<Value>>,
                }),
            decreases size(cur),
        {
            let next;
            match cur.data() {
                ValueData::Pair(a, b) => {
                    proof {
                        if let Some(s) = list_spec(*b) {
                            assert(out@ + (seq![*a] + s) =~= out@.push(*a) + s);
                        }
                    }
                    out.push(a.clone());
                    next = b.clone();
                },
                ValueData::EmptyList => {
                    assert(out@ + Seq::<Value>::empty() =~= out@);
                    return Some(out);
                },
                _ => {
                    return None;
                },
            }
            cur = next;
        }
    }
}

impl Proc {
    pub open spec fn spec_new(name: Option<String>, parent_scope: usize, bindings: Vec<u64>, code: Vec<Value>) -> Proc {
        Proc { name, parent_scope, bindings, code }
    }

    pub fn new(name: Option<String>, parent_scope: usize, bindings: Vec<u64>, code: Vec<Value>) -> (r: Proc)
        ensures
            r == Proc::spec_new(name, parent_scope, bindings, code),
    {
        Proc { name, parent_scope, bindings, code }
    }
}

} // verus!
