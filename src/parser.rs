//! The grammar: tokens to datums. An item is an atom, `'item`, `()`, a list
//! `(item ...)` or a dotted pair `(item . item)`; a program is a sequence of
//! items. Reserved words read as symbols, `true` and `false` as booleans.
use crate::interpreter::names_kept;
use crate::lexer::{lex_from, span_view, spans_view, unescape_spec, unescape_string, Error, LexAll, Spanned, Token, TokenSpec, Tokenizer};
use crate::string_interner::{symbol_id_of, StringInterner};
use crate::tail_calls::{keywords_spec, tail_ok, verify_tail_calls};
use crate::value::{list_of, Value, ValueData};
use vstd::prelude::*;

verus! {

broadcast use vstd::std_specs::vec::group_vec_axioms;

/// The datum of a token that stands for itself.
pub open spec fn atom_datum(t: Token, v: Value) -> bool {
    match t {
        Token::Char(c) => v@ == ValueData::Char(c),
        Token::Integer(n) => v@ == ValueData::Integer(n),
        Token::String(b) => v@ is String && v@->String_0@ == unescape_spec(b@),
        Token::Symbol(s) => v@ == ValueData::Symbol(symbol_id_of(s@)),
        Token::True => v@ == ValueData::Bool(true),
        Token::False => v@ == ValueData::Bool(false),
        Token::Begin => v@ == ValueData::Symbol(symbol_id_of("begin"@)),
        Token::Define => v@ == ValueData::Symbol(symbol_id_of("define"@)),
        Token::If => v@ == ValueData::Symbol(symbol_id_of("if"@)),
        Token::Let => v@ == ValueData::Symbol(symbol_id_of("let"@)),
        Token::Loop => v@ == ValueData::Symbol(symbol_id_of("loop"@)),
        Token::Lambda => v@ == ValueData::Symbol(symbol_id_of("lambda"@)),
        Token::Recur => v@ == ValueData::Symbol(symbol_id_of("recur"@)),
        Token::Quote => v@ == ValueData::Symbol(symbol_id_of("quote"@)),
        _ => false,
    }
}

/// Every symbol in `v` has its text recorded in `names`.
pub open spec fn symbols_known(v: Value, names: Map<u64, Seq<char>>) -> bool
    decreases v,
{
    match v@ {
        ValueData::Symbol(id) => names.contains_key(id),
        ValueData::Pair(a, b) => symbols_known(a, names) && symbols_known(b, names),
        _ => true,
    }
}

/// Names only added keep every symbol known.
pub proof fn lemma_symbols_known_kept(v: Value, a: Map<u64, Seq<char>>, b: Map<u64, Seq<char>>)
    requires
        symbols_known(v, a),
        names_kept(a, b),
    ensures
        symbols_known(v, b),
    decreases v,
{
    match v@ {
        ValueData::Pair(x, y) => {
            lemma_symbols_known_kept(x, a, b);
            lemma_symbols_known_kept(y, a, b);
        },
        _ => {},
    }
}

/// A list of known datums is known.
proof fn lemma_list_known(s: Seq<Value>, names: Map<u64, Seq<char>>)
    requires
        forall|j: int| 0 <= j < s.len() ==> symbols_known(#[trigger] s[j], names),
    ensures
        symbols_known(list_of(s), names),
    decreases s.len(),
{
    if s.len() > 0 {
        assert(symbols_known(s[0], names));
        lemma_list_known(s.drop_first(), names);
    }
}

/// Where the item that starts at `pos` ends: after its last token.
pub open spec fn item_end(toks: Seq<Spanned>, pos: int) -> Option<int>
    decreases toks.len() - pos, 0nat,
{
    if pos < 0 || pos >= toks.len() {
        None
    } else {
        match toks[pos].1 {
            Token::OpenParen => list_end(toks, pos + 1, true),
            Token::QuoteTick => item_end(toks, pos + 1),
            Token::ClosingParen | Token::Dot | Token::WhiteSpace => None,
            _ => Some(pos + 1),
        }
    }
}

/// Where the rest of a list that starts at `pos`, after its `(`, ends:
/// after its `)`. Where `first` holds, a `.` may follow the item at `pos`.
pub open spec fn list_end(toks: Seq<Spanned>, pos: int, first: bool) -> Option<int>
    decreases toks.len() - pos, 1nat,
{
    if pos < 0 || pos >= toks.len() {
        None
    } else if toks[pos].1 is ClosingParen {
        Some(pos + 1)
    } else {
        match item_end(toks, pos) {
            Some(m) => if pos < m <= toks.len() {
                if first && m < toks.len() && toks[m].1 is Dot {
                    match item_end(toks, m + 1) {
                        Some(m2) => if m < m2 < toks.len() && toks[m2].1 is ClosingParen {
                            Some(m2 + 1)
                        } else {
                            None
                        },
                        None => None,
                    }
                } else {
                    list_end(toks, m, false)
                }
            } else {
                None
            },
            None => None,
        }
    }
}

/// `v` is the item that the tokens from `pos` on write.
pub open spec fn item_datum(toks: Seq<Spanned>, pos: int, v: Value) -> bool
    decreases toks.len() - pos, 0nat,
{
    if pos < 0 || pos >= toks.len() {
        false
    } else {
        match toks[pos].1 {
            Token::OpenParen => list_datum(toks, pos + 1, v, true),
            Token::QuoteTick => match v@ {
                ValueData::Pair(q, rest) => q@ == ValueData::Symbol(symbol_id_of("quote"@)) && match rest@ {
                    ValueData::Pair(x, e) => e@ is EmptyList && item_datum(toks, pos + 1, x),
                    _ => false,
                },
                _ => false,
            },
            t => atom_datum(t, v),
        }
    }
}

/// `v` is the list that the tokens from `pos` on write after an opening
/// parenthesis: `)`, or items and `)`, or, where `first` holds, one item,
/// `.`, one item and `)`.
pub open spec fn list_datum(toks: Seq<Spanned>, pos: int, v: Value, first: bool) -> bool
    decreases toks.len() - pos, 1nat,
{
    if pos < 0 || pos >= toks.len() {
        false
    } else if toks[pos].1 is ClosingParen {
        v@ is EmptyList
    } else {
        match (item_end(toks, pos), v@) {
            (Some(m), ValueData::Pair(h, t)) => if pos < m <= toks.len() {
                item_datum(toks, pos, h) && if first && m < toks.len() && toks[m].1 is Dot {
                    item_datum(toks, m + 1, t)
                } else {
                    list_datum(toks, m, t, false)
                }
            } else {
                false
            },
            _ => false,
        }
    }
}

/// The tokens from `pos` on are a sequence of whole items.
pub open spec fn program_end(toks: Seq<Spanned>, pos: int) -> bool
    decreases toks.len() - pos,
{
    if pos < 0 || pos > toks.len() {
        false
    } else if pos == toks.len() {
        true
    } else {
        match item_end(toks, pos) {
            Some(m) => pos < m <= toks.len() && program_end(toks, m),
            None => false,
        }
    }
}

/// An error of the grammar rather than of a single token.
pub open spec fn grammar_error(e: Error) -> bool {
    e is UnexpectedEof || e is UnrecognizedToken
}

pub open spec fn all_tail_ok(items: Seq<Value>) -> bool {
    forall|i: int| 0 <= i < items.len() ==> tail_ok(#[trigger] items[i], false, keywords_spec())
}

/// What parsing the significant tokens `toks` gives: the items they write,
/// where they are whole items and every `recur` stands in tail position; a
/// grammar error where they are not whole items; else the tail-call error.
pub open spec fn parse_outcome(toks: Seq<Spanned>, r: Result<Vec<Value>, Error>) -> bool {
    if !program_end(toks, 0) {
        r matches Err(e) && grammar_error(e)
    } else {
        match r {
            Ok(items) => program_datums(toks, items@) && all_tail_ok(items@),
            Err(e) => e == Error::RecurInNonTailPosition && exists|items: Seq<Value>|
                #[trigger] program_datums(toks, items) && !all_tail_ok(items),
        }
    }
}

/// `items` are the items that `toks` write one after another.
pub open spec fn program_datums(toks: Seq<Spanned>, items: Seq<Value>) -> bool {
    exists|b: Seq<int>|
        #![trigger b.len()]
        b.len() == items.len() + 1 && b[0] == 0 && b.last() == toks.len() && forall|k: int|
            0 <= k < items.len() ==> item_end(toks, b[k]) == Some(#[trigger] b[k + 1]) && item_datum(
                toks,
                b[k],
                items[k],
            )
}

/// `first` followed by `rest`, unless `rest` is an error.
pub open spec fn prepend(first: Seq<(int, TokenSpec, int)>, rest: LexAll) -> LexAll {
    match rest {
        LexAll::Tokens(ts) => LexAll::Tokens(first + ts),
        LexAll::Fail(e) => LexAll::Fail(e),
    }
}

/// The tokens of `text` other than whitespace, in order, or the first error.
fn significant_tokens(text: &str) -> (r: Result<Vec<Spanned>, Error>)
    ensures
        match lex_from(text@, 0) {
            LexAll::Tokens(ts) => r matches Ok(toks) && spans_view(toks@) == ts,
            LexAll::Fail(e) => r == Err::<Vec<Spanned>, Error>(e),
        },
{
    let mut tokenizer = Tokenizer::new(text);
    let mut tokens: Vec<Spanned> = Vec::new();
    proof {
        assert(spans_view(tokens@) =~= Seq::empty());
        assert(prepend(Seq::empty(), lex_from(text@, 0)) =~= lex_from(text@, 0)) by {
            match lex_from(text@, 0) {
                LexAll::Tokens(ts) => assert(Seq::<(int, TokenSpec, int)>::empty() + ts =~= ts),
                LexAll::Fail(_) => {},
            }
        }
    }
    loop
        invariant
            tokenizer.wf(),
            tokenizer.text@ == text@,
            lex_from(text@, 0) == prepend(spans_view(tokens@), lex_from(text@, tokenizer.pos as int)),
        decreases tokenizer.text@.len() - tokenizer.pos,
    {
        let ghost pos = tokenizer.pos as int;
        match tokenizer.next_token() {
            None => {
                proof {
                    assert(spans_view(tokens@) + Seq::<(int, TokenSpec, int)>::empty() =~= spans_view(tokens@));
                }
                return Ok(tokens);
            },
            Some(Err(e)) => {
                return Err(e);
            },
            Some(Ok(t)) => {
                match t.1 {
                    Token::WhiteSpace => {},
                    _ => {
                        let ghost before = spans_view(tokens@);
                        tokens.push(t);
                        proof {
                            assert(spans_view(tokens@) =~= before.push(span_view(t)));
                            match lex_from(text@, t.2 as int) {
                                LexAll::Tokens(rest) => {
                                    assert(before + (seq![span_view(t)] + rest) =~= before.push(span_view(t)) + rest);
                                },
                                LexAll::Fail(_) => {},
                            }
                        }
                    },
                }
            },
        }
    }
}

fn unrecognized(t: &Spanned) -> (r: Error)
    ensures
        r == Error::UnrecognizedToken(t.0, t.2),
{
    Error::UnrecognizedToken(t.0, t.2)
}

/// The symbol with text `s`, recorded in `interner`.
fn symbol(s: &str, interner: &mut StringInterner) -> (r: Value)
    requires
        old(interner).wf(),
    ensures
        final(interner).wf(),
        names_kept(old(interner).names(), final(interner).names()),
        r@ == ValueData::Symbol(symbol_id_of(s@)),
        symbols_known(r, final(interner).names()),
{
    let id = interner.intern(s);
    Value::new_symbol(id)
}

/// One item from `pos` on; the position after it.
fn parse_item(tokens: &Vec<Spanned>, pos: usize, interner: &mut StringInterner) -> (r: Result<(Value, usize), Error>)
    requires
        old(interner).wf(),
        pos <= tokens@.len(),
    ensures
        final(interner).wf(),
        names_kept(old(interner).names(), final(interner).names()),
        r matches Ok((v, next)) ==> pos < next <= tokens@.len() && item_end(tokens@, pos as int) == Some(next as int)
            && item_datum(tokens@, pos as int, v),
        r matches Ok((v, _)) ==> symbols_known(v, final(interner).names()),
        r matches Err(e) ==> item_end(tokens@, pos as int) is None && grammar_error(e),
    decreases tokens@.len() - pos, 0nat,
{
    if pos >= tokens.len() {
        return Err(Error::UnexpectedEof);
    }
    let t = &tokens[pos];
    let v = match &t.1 {
        Token::OpenParen => {
            return parse_list(tokens, pos + 1, interner);
        },
        Token::QuoteTick => {
            let (quoted, next) = match parse_item(tokens, pos + 1, interner) {
                Ok(p) => p,
                Err(e) => {
                    return Err(e);
                },
            };
            let ghost mid = interner.names();
            let q = symbol("quote", interner);
            proof {
                lemma_symbols_known_kept(quoted, mid, interner.names());
            }
            let e = Value::empty_list();
            assert(symbols_known(e, interner.names()));
            assert(symbols_known(quoted, interner.names()));
            let inner = Value::new_pair(quoted, e);
            assert(inner@ == ValueData::Pair(quoted, e));
            assert(symbols_known(inner, interner.names()));
            let v = Value::new_pair(q, inner);
            assert(symbols_known(v, interner.names()));
            return Ok((v, next));
        },
        Token::ClosingParen | Token::Dot | Token::WhiteSpace => {
            return Err(unrecognized(t));
        },
        Token::Char(c) => Value::new_char(*c),
        Token::Integer(n) => Value::new_integer(*n),
        Token::String(s) => {
            let u = unescape_string(s.as_str());
            Value::new_string(u.as_str())
        },
        Token::Symbol(s) => symbol(s.as_str(), interner),
        Token::True => Value::new_bool(true),
        Token::False => Value::new_bool(false),
        Token::Begin => symbol("begin", interner),
        Token::Define => symbol("define", interner),
        Token::If => symbol("if", interner),
        Token::Let => symbol("let", interner),
        Token::Loop => symbol("loop", interner),
        Token::Lambda => symbol("lambda", interner),
        Token::Recur => symbol("recur", interner),
        Token::Quote => symbol("quote", interner),
    };
    Ok((v, pos + 1))
}

fn is_token(tokens: &Vec<Spanned>, pos: usize, closing: bool) -> (r: bool)
    ensures
        r == (pos < tokens@.len() && if closing {
            tokens@[pos as int].1 is ClosingParen
        } else {
            tokens@[pos as int].1 is Dot
        }),
        r ==> pos < tokens.len(),
{
    if pos >= tokens.len() {
        return false;
    }
    match tokens[pos].1 {
        Token::ClosingParen => closing,
        Token::Dot => !closing,
        _ => false,
    }
}

/// Items with the given bounds, closed by `)` at `close`, write their list.
proof fn lemma_closed_list(toks: Seq<Spanned>, b: Seq<int>, items: Seq<Value>, k: int, close: int)
    requires
        b.len() == items.len() + 1,
        0 <= k <= items.len(),
        b[k] >= 0,
        b[items.len() as int] == close,
        0 <= close < toks.len(),
        toks[close].1 is ClosingParen,
        forall|j: int|
            0 <= j < items.len() ==> item_end(toks, b[j]) == Some(#[trigger] b[j + 1]) && b[j] < b[j + 1] <= toks.len()
                && item_datum(toks, b[j], items[j]),
        items.len() >= 1 ==> !(toks[b[1]].1 is Dot),
    ensures
        list_end(toks, b[k], k == 0) == Some(close + 1),
        list_datum(toks, b[k], list_of(items.subrange(k, items.len() as int)), k == 0),
    decreases items.len() - k,
{
    let s = items.subrange(k, items.len() as int);
    if k == items.len() {
        assert(s =~= Seq::<Value>::empty());
        assert(list_of(s)@ is EmptyList);
    } else {
        lemma_closed_list(toks, b, items, k + 1, close);
        assert(s.drop_first() =~= items.subrange(k + 1, items.len() as int));
        assert(item_end(toks, b[k]) == Some(b[k + 1]));
        assert(s[0] == items[k]);
        assert(list_of(s)@ == ValueData::Pair(items[k], list_of(s.drop_first())));
        if k + 1 == items.len() {
            assert(b[k + 1] == close);
        }
    }
}

/// The rest of a list after its `(`: `)`, items up to `)`, or one item,
/// `.`, one item and `)`.
fn parse_list(tokens: &Vec<Spanned>, pos: usize, interner: &mut StringInterner) -> (r: Result<(Value, usize), Error>)
    requires
        old(interner).wf(),
        pos <= tokens@.len(),
    ensures
        final(interner).wf(),
        names_kept(old(interner).names(), final(interner).names()),
        r matches Ok((v, next)) ==> pos < next <= tokens@.len() && list_end(tokens@, pos as int, true) == Some(next as int)
            && list_datum(tokens@, pos as int, v, true),
        r matches Ok((v, _)) ==> symbols_known(v, final(interner).names()),
        r matches Err(e) ==> list_end(tokens@, pos as int, true) is None && grammar_error(e),
    decreases tokens@.len() - pos, 1nat,
{
    if is_token(tokens, pos, true) {
        return Ok((Value::empty_list(), pos + 1));
    }
    let mut items: Vec<Value> = Vec::new();
    let mut cur = pos;
    let ghost mut b: Seq<int> = seq![pos as int];
    loop
        invariant
            interner.wf(),
            names_kept(old(interner).names(), interner.names()),
            pos <= cur <= tokens@.len(),
            items@.len() > 0 ==> pos < cur,
            !(pos < tokens@.len() && tokens@[pos as int].1 is ClosingParen),
            b.len() == items@.len() + 1,
            b[0] == pos,
            b[items@.len() as int] == cur,
            forall|j: int|
                0 <= j < items@.len() ==> item_end(tokens@, b[j]) == Some(#[trigger] b[j + 1]) && b[j] < b[j + 1]
                    <= tokens@.len() && item_datum(tokens@, b[j], items@[j]),
            items@.len() >= 1 ==> !(tokens@[b[1]].1 is Dot) && !(tokens@[b[1]].1 is ClosingParen),
            items@.len() >= 1 ==> list_end(tokens@, pos as int, true) == list_end(tokens@, cur as int, false) && cur
                < tokens@.len() && !(tokens@[cur as int].1 is ClosingParen) && !(tokens@[cur as int].1 is Dot),
            forall|j: int| 0 <= j < items@.len() ==> symbols_known(#[trigger] items@[j], interner.names()),
        decreases tokens@.len() - cur,
    {
        let ghost before = interner.names();
        let (v, next) = match parse_item(tokens, cur, interner) {
            Ok(p) => p,
            Err(e) => {
                return Err(e);
            },
        };
        proof {
            assert forall|j: int| 0 <= j < items@.len() implies symbols_known(#[trigger] items@[j], interner.names()) by {
                lemma_symbols_known_kept(items@[j], before, interner.names());
            }
        }
        let ghost old_items = items@;
        let ghost old_b = b;
        items.push(v);
        proof {
            b = b.push(next as int);
            assert forall|j: int|
                0 <= j < items@.len() implies item_end(tokens@, b[j]) == Some(#[trigger] b[j + 1]) && b[j] < b[j + 1]
                    <= tokens@.len() && item_datum(tokens@, b[j], items@[j]) by {
                if j < old_items.len() {
                    assert(items@[j] == old_items[j]);
                    assert(b[j] == old_b[j]);
                    assert(b[j + 1] == old_b[j + 1]);
                }
            }
        }
        let ghost prev = b[items@.len() - 1];
        cur = next;
        proof {
            assert(item_end(tokens@, prev) == Some(cur as int));
            if !(items@.len() == 1 && cur < tokens@.len() && tokens@[cur as int].1 is Dot) {
                assert(list_end(tokens@, pos as int, true) == list_end(tokens@, cur as int, false));
            }
        }
        if is_token(tokens, cur, true) {
            let r = Value::new_list(items.as_slice());
            proof {
                lemma_list_known(items@, interner.names());
                lemma_closed_list(tokens@, b, items@, 0, cur as int);
                assert(items@.subrange(0, items@.len() as int) =~= items@);
            }
            return Ok((r, cur + 1));
        }
        if is_token(tokens, cur, false) {
            if items.len() != 1 {
                assert(item_end(tokens@, cur as int) is None);
                return Err(unrecognized(&tokens[cur]));
            }
            let ghost before_tail = interner.names();
            let (tail, after) = match parse_item(tokens, cur + 1, interner) {
                Ok(p) => p,
                Err(e) => {
                    return Err(e);
                },
            };
            proof {
                lemma_symbols_known_kept(items@[0], before_tail, interner.names());
            }
            if !is_token(tokens, after, true) {
                if after >= tokens.len() {
                    return Err(Error::UnexpectedEof);
                }
                return Err(unrecognized(&tokens[after]));
            }
            assert(item_datum(tokens@, b[0], items@[0]) && item_end(tokens@, b[0]) == Some(b[1]));
            let head = items.pop().unwrap();
            let r = Value::new_pair(head, tail);
            return Ok((r, after + 1));
        }
        if cur >= tokens.len() {
            return Err(Error::UnexpectedEof);
        }
    }
}

/// The datums that `input` writes, in order, after the check that every
/// `recur` stands in tail position.
pub fn parse(input: &str, interner: &mut StringInterner) -> (r: Result<Vec<Value>, Error>)
    requires
        old(interner).wf(),
    ensures
        final(interner).wf(),
        names_kept(old(interner).names(), final(interner).names()),
        match lex_from(input@, 0) {
            LexAll::Fail(e) => r == Err::<Vec<Value>, Error>(e),
            LexAll::Tokens(ts) => exists|toks: Seq<Spanned>| #[trigger] spans_view(toks) == ts && parse_outcome(toks, r),
        },
        r matches Ok(items) ==> forall|j: int| 0 <= j < items@.len() ==> symbols_known(#[trigger] items@[j], final(interner).names()),
{
    let tokens = match significant_tokens(input) {
        Ok(t) => t,
        Err(e) => {
            return Err(e);
        },
    };
    let ghost toks = tokens@;
    assert(lex_from(input@, 0) == LexAll::Tokens(spans_view(toks)));
    let mut items: Vec<Value> = Vec::new();
    let mut pos: usize = 0;
    let ghost mut b: Seq<int> = seq![0int];
    while pos < tokens.len()
        invariant
            interner.wf(),
            names_kept(old(interner).names(), interner.names()),
            pos <= tokens@.len(),
            b.len() == items@.len() + 1,
            b[0] == 0,
            b[items@.len() as int] == pos,
            forall|j: int|
                0 <= j < items@.len() ==> item_end(tokens@, b[j]) == Some(#[trigger] b[j + 1]) && item_datum(
                    tokens@,
                    b[j],
                    items@[j],
                ),
            program_end(tokens@, 0) == program_end(tokens@, pos as int),
            toks == tokens@,
            lex_from(input@, 0) == LexAll::Tokens(spans_view(toks)),
            forall|j: int| 0 <= j < items@.len() ==> symbols_known(#[trigger] items@[j], interner.names()),
        decreases tokens@.len() - pos,
    {
        let ghost before = interner.names();
        let (v, next) = match parse_item(&tokens, pos, interner) {
            Ok(p) => p,
            Err(e) => {
                let r = Err(e);
                assert(parse_outcome(toks, r));
                return r;
            },
        };
        proof {
            assert forall|j: int| 0 <= j < items@.len() implies symbols_known(#[trigger] items@[j], interner.names()) by {
                lemma_symbols_known_kept(items@[j], before, interner.names());
            }
        }
        let ghost old_items = items@;
        let ghost old_b = b;
        items.push(v);
        proof {
            b = b.push(next as int);
            assert forall|j: int|
                0 <= j < items@.len() implies item_end(tokens@, b[j]) == Some(#[trigger] b[j + 1]) && item_datum(
                tokens@,
                b[j],
                items@[j],
            ) by {
                if j < old_items.len() {
                    assert(items@[j] == old_items[j]);
                    assert(b[j] == old_b[j]);
                    assert(b[j + 1] == old_b[j + 1]);
                }
            }
        }
        pos = next;
    }
    assert(program_datums(tokens@, items@)) by {
        assert(b.len() == items@.len() + 1);
    }
    assert(program_end(tokens@, 0));
    match verify_tail_calls(&items) {
        Ok(()) => {
            let r = Ok(items);
            assert(parse_outcome(toks, r));
            r
        },
        Err(e) => {
            let r = Err(e);
            assert(parse_outcome(toks, r));
            r
        },
    }
}

} // verus!
