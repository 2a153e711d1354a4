//! The reader takes back what the printer writes, literal by literal.
use crate::lexer::{
    lex_from, lex_at, symbol_lex, scan_item, keyword_spec, integer_lex, char_lex, scan_digits, scan_string, first_non_ascii, string_lex, ends_item, LexAll, LexStep, TokenSpec, fits_i64,
    all_digits, char_literal, digit_value, digits_value, integer_text_value, is_digit, is_integer_text, printable_spec,
    unescape_char_spec, unescape_spec,
};
use crate::lexer::{span_view, spans_view, token_view, Error, Spanned, Token};
use crate::parser::{atom_datum, all_tail_ok, item_datum, item_end, parse_outcome, program_datums, program_end};
use crate::tail_calls::{keywords_spec, tail_ok};
use crate::value::{Value, ValueData};
use crate::printer::{print_spec, escape_char_spec, escape_in_string, escape_str, print_char};
use crate::text::{decimal_of, digit_char, digits_of};
use vstd::prelude::*;

verus! {

proof fn lemma_digit_char(d: nat)
    requires
        d < 10,
    ensures
        is_digit(digit_char(d)),
        digit_value(digit_char(d)) == d,
{
    let c = digit_char(d);
    assert((c as u32) == d + 48);
}

proof fn lemma_digits_of(n: nat)
    ensures
        all_digits(digits_of(n)),
        digits_value(digits_of(n)) == n,
    decreases n,
{
    if n < 10 {
        lemma_digit_char(n);
        assert(digits_of(n).drop_last() =~= Seq::<char>::empty());
        assert(digits_value(digits_of(n)) == digits_value(Seq::<char>::empty()) * 10 + digit_value(digit_char(n)));
    } else {
        lemma_digits_of(n / 10);
        lemma_digit_char(n % 10);
        let s = digits_of(n);
        assert(s.drop_last() =~= digits_of(n / 10));
        assert(s.last() == digit_char(n % 10));
        assert(digits_value(s) == digits_value(digits_of(n / 10)) * 10 + digit_value(digit_char(n % 10)));
        assert(n == (n / 10) * 10 + n % 10) by (nonlinear_arith);
        assert forall|i: int| 0 <= i < s.len() implies is_digit(#[trigger] s[i]) by {
            if i < s.len() - 1 {
                assert(s[i] == digits_of(n / 10)[i]);
            }
        }
    }
}

/// An integer printed in decimal reads back as the same integer: the text
/// is integer syntax and denotes the value.
pub proof fn lemma_integer_round_trip(i: i64)
    ensures
        is_integer_text(decimal_of(i as int)),
        integer_text_value(decimal_of(i as int)) == i as int,
{
    let s = decimal_of(i as int);
    if i < 0 {
        lemma_digits_of((-i) as nat);
        assert(s.drop_first() =~= digits_of((-i) as nat));
    } else {
        lemma_digits_of(i as nat);
        assert(is_digit(s[0]));
    }
}

/// A character printed as a literal reads back as the same character: an
/// escaped one through its letter, any other as the printable character
/// itself.
pub proof fn lemma_char_round_trip(c: char)
    requires
        printable_spec(c) || escape_char_spec(c) is Some,
    ensures
        char_literal(print_char(c), c),
{
}

proof fn lemma_escape_str_front(s: Seq<char>)
    requires
        s.len() > 0,
    ensures
        escape_str(s) == escape_in_string(s[0]) + escape_str(s.drop_first()),
    decreases s.len(),
{
    if s.len() == 1 {
        assert(s.drop_last() =~= Seq::<char>::empty());
        assert(s.drop_first() =~= Seq::<char>::empty());
        assert(escape_str(s) =~= escape_in_string(s[0]) + escape_str(s.drop_first()));
    } else {
        lemma_escape_str_front(s.drop_last());
        assert(s.drop_last().drop_first() =~= s.drop_first().drop_last());
        assert(s.drop_last()[0] == s[0]);
        assert(s.drop_first().last() == s.last());
        assert(escape_str(s) =~= escape_in_string(s[0]) + escape_str(s.drop_first()));
    }
}

/// The body of a string literal as the printer writes it reads back, its
/// escapes resolved, as the text it was printed from.
pub proof fn lemma_string_round_trip(s: Seq<char>)
    ensures
        unescape_spec(escape_str(s)) == s,
    decreases s.len(),
{
    if s.len() == 0 {
        assert(escape_str(s) =~= Seq::<char>::empty());
        assert(s =~= Seq::<char>::empty());
    } else {
        lemma_escape_str_front(s);
        lemma_string_round_trip(s.drop_first());
        let c = s[0];
        let rest = escape_str(s.drop_first());
        let t = escape_in_string(c) + rest;
        if c == '\n' || c == '\t' || c == '"' || c == '\\' {
            assert(t.subrange(2, t.len() as int) =~= rest);
        } else {
            assert(t.drop_first() =~= rest);
        }
        assert(seq![c] + s.drop_first() =~= s);
    }
}

proof fn lemma_scan_digits(text: Seq<char>, k: int)
    requires
        0 <= k <= text.len(),
        forall|i: int| k <= i < text.len() ==> is_digit(#[trigger] text[i]),
    ensures
        scan_digits(text, k) == text.len(),
    decreases text.len() - k,
{
    if k < text.len() {
        lemma_scan_digits(text, k + 1);
    }
}

/// The text of an integer as the printer writes it reads back, through the
/// tokenizer, as exactly one token: that integer.
pub proof fn lemma_integer_lexes(n: i64)
    ensures
        lex_from(decimal_of(n as int), 0) == LexAll::Tokens(
            seq![(0int, TokenSpec::Integer(n), decimal_of(n as int).len() as int)],
        ),
{
    let text = decimal_of(n as int);
    let len = text.len() as int;
    lemma_integer_round_trip(n);
    if n < 0 {
        lemma_digits_of((-n) as nat);
        assert(text.drop_first() =~= digits_of((-n) as nat));
        assert forall|i: int| 1 <= i < len implies is_digit(#[trigger] text[i]) by {
            assert(text[i] == text.drop_first()[i - 1]);
        }
        assert(is_digit(text[1]));
    } else {
        lemma_digits_of(n as nat);
        assert forall|i: int| 1 <= i < len implies is_digit(#[trigger] text[i]) by {
            assert(is_digit(text[i]));
        }
    }
    lemma_scan_digits(text, 1);
    assert(text.subrange(0, len) =~= text);
    assert(ends_item(text, len));
    assert(fits_i64(integer_text_value(text)));
    assert(integer_lex(text, 0) == LexStep::Token(TokenSpec::Integer(n), len));
    assert(lex_at(text, 0) == LexStep::Token(TokenSpec::Integer(n), len));
    assert(lex_from(text, len) == LexAll::Tokens(Seq::empty()));
    assert(seq![(0int, TokenSpec::Integer(n), len)] + Seq::<(int, TokenSpec, int)>::empty() =~= seq![
        (0int, TokenSpec::Integer(n), len),
    ]);
}

/// A character as the printer writes it reads back, through the
/// tokenizer, as exactly one token: that character.
pub proof fn lemma_char_lexes(c: char)
    requires
        printable_spec(c) || escape_char_spec(c) is Some,
    ensures
        lex_from(print_char(c), 0) == LexAll::Tokens(seq![(0int, TokenSpec::Char(c), print_char(c).len() as int)]),
{
    let text = print_char(c);
    let len = text.len() as int;
    assert(ends_item(text, len));
    assert(char_lex(text, 0) == LexStep::Token(TokenSpec::Char(c), len));
    assert(lex_at(text, 0) == LexStep::Token(TokenSpec::Char(c), len));
    assert(lex_from(text, len) == LexAll::Tokens(Seq::empty()));
    assert(seq![(0int, TokenSpec::Char(c), len)] + Seq::<(int, TokenSpec, int)>::empty() =~= seq![
        (0int, TokenSpec::Char(c), len),
    ]);
}

/// Every character of the text is in ASCII.
pub open spec fn ascii_text(s: Seq<char>) -> bool {
    forall|i: int| 0 <= i < s.len() ==> (#[trigger] s[i] as u32) < 128
}

proof fn lemma_escape_str_ascii(s: Seq<char>)
    requires
        ascii_text(s),
    ensures
        ascii_text(escape_str(s)),
    decreases s.len(),
{
    if s.len() > 0 {
        lemma_escape_str_ascii(s.drop_last());
        assert((s.last() as u32) < 128);
        let a = escape_str(s.drop_last());
        let b = escape_in_string(s.last());
        assert forall|i: int| 0 <= i < a.len() + b.len() implies (#[trigger] (a + b)[i] as u32) < 128 by {
            if i < a.len() {
                assert((a + b)[i] == a[i]);
            } else {
                assert((a + b)[i] == b[i - a.len()]);
            }
        }
    }
}

/// Scanning a string body that the printer wrote stops at the `"` after it.
proof fn lemma_scan_escaped(text: Seq<char>, k: int, s: Seq<char>)
    requires
        0 <= k,
        k + escape_str(s).len() < text.len(),
        text.subrange(k, k + escape_str(s).len()) == escape_str(s),
        text[k + escape_str(s).len()] == '"',
    ensures
        scan_string(text, k) == LexStep::Token(TokenSpec::WhiteSpace, k + escape_str(s).len()),
    decreases s.len(),
{
    let e = escape_str(s);
    if s.len() == 0 {
        assert(e =~= Seq::<char>::empty());
    } else {
        lemma_escape_str_front(s);
        let c = s[0];
        let head = escape_in_string(c);
        let rest = escape_str(s.drop_first());
        assert(e == head + rest);
        assert(text[k] == e[0]);
        let h = head.len() as int;
        assert(text.subrange(k + h, k + h + rest.len()) =~= rest) by {
            assert forall|i: int| 0 <= i < rest.len() implies text.subrange(k + h, k + h + rest.len())[i] == rest[i] by {
                assert(text[k + h + i] == text.subrange(k, k + e.len())[h + i]);
                assert(e[h + i] == rest[i]);
            }
        }
        if c == '\n' || c == '\t' || c == '"' || c == '\\' {
            assert(text[k + 1] == e[1]);
        }
        lemma_scan_escaped(text, k + h, s.drop_first());
    }
}

proof fn lemma_ascii_run(text: Seq<char>, j: int, i: int)
    requires
        0 <= j <= i <= text.len(),
        forall|m: int| j <= m < i ==> (#[trigger] text[m] as u32) < 128,
    ensures
        first_non_ascii(text, j, i) is None,
    decreases i - j,
{
    if j < i {
        lemma_ascii_run(text, j + 1, i);
    }
}

/// A string of ASCII characters as the printer writes it reads back,
/// through the tokenizer, as exactly one token whose body is the printed
/// escapes; resolving them gives the string back.
pub proof fn lemma_string_lexes(s: Seq<char>)
    requires
        ascii_text(s),
    ensures
        lex_from(seq!['"'] + escape_str(s) + seq!['"'], 0) == LexAll::Tokens(
            seq![(0int, TokenSpec::String(escape_str(s)), escape_str(s).len() as int + 2)],
        ),
        unescape_spec(escape_str(s)) == s,
{
    let e = escape_str(s);
    let text = seq!['"'] + e + seq!['"'];
    let len = text.len() as int;
    assert(text.subrange(1, 1 + e.len() as int) =~= e);
    lemma_scan_escaped(text, 1, s);
    lemma_escape_str_ascii(s);
    assert forall|m: int| 1 <= m < len - 1 implies (#[trigger] text[m] as u32) < 128 by {
        assert(text[m] == e[m - 1]);
    }
    lemma_ascii_run(text, 1, len - 1);
    assert(string_lex(text, 0) == LexStep::Token(TokenSpec::String(e), len));
    assert(lex_at(text, 0) == LexStep::Token(TokenSpec::String(e), len));
    assert(lex_from(text, len) == LexAll::Tokens(Seq::empty()));
    assert(seq![(0int, TokenSpec::String(e), len)] + Seq::<(int, TokenSpec, int)>::empty() =~= seq![
        (0int, TokenSpec::String(e), len),
    ]);
    lemma_string_round_trip(s);
}

proof fn lemma_scan_item(text: Seq<char>, k: int)
    requires
        0 <= k <= text.len(),
        forall|i: int| k <= i < text.len() ==> !ends_item(text, i),
    ensures
        scan_item(text, k) == text.len(),
    decreases text.len() - k,
{
    if k < text.len() {
        lemma_scan_item(text, k + 1);
    }
}

/// A boolean as the printer writes it reads back, through the tokenizer,
/// as exactly one token: that boolean.
pub proof fn lemma_bool_lexes(b: bool)
    ensures
        lex_from(if b { "true"@ } else { "false"@ }, 0) == LexAll::Tokens(
            seq![(0int, if b { TokenSpec::True } else { TokenSpec::False }, if b { 4int } else { 5int })],
        ),
{
    reveal_strlit("true");
    reveal_strlit("false");
    reveal_strlit("begin");
    reveal_strlit("define");
    reveal_strlit("if");
    reveal_strlit("let");
    reveal_strlit("loop");
    reveal_strlit("lambda");
    reveal_strlit("recur");
    reveal_strlit("quote");
    let text = if b { "true"@ } else { "false"@ };
    let len = text.len() as int;
    let t = if b { TokenSpec::True } else { TokenSpec::False };
    assert forall|i: int| 1 <= i < len implies !ends_item(text, i) by {
        if b {
            assert(i == 1 || i == 2 || i == 3);
        } else {
            assert(i == 1 || i == 2 || i == 3 || i == 4);
        }
    }
    lemma_scan_item(text, 1);
    assert(text.subrange(0, len) =~= text);
    assert(text != "begin"@ && text != "define"@ && text != "if"@ && text != "let"@ && text != "loop"@ && text
        != "lambda"@ && text != "recur"@ && text != "quote"@) by {
        assert(text[0] != "begin"@[0] && text[0] != "define"@[0] && text[0] != "if"@[0] && text[0] != "let"@[0]
            && text[0] != "loop"@[0] && text[0] != "lambda"@[0] && text[0] != "recur"@[0] && text[0] != "quote"@[0]);
    }
    assert(b ==> text == "true"@);
    assert(!b ==> text != "true"@ && text == "false"@);
    assert(symbol_lex(text, 0) == LexStep::Token(t, len));
    assert(lex_at(text, 0) == LexStep::Token(t, len));
    assert(lex_from(text, len) == LexAll::Tokens(Seq::empty()));
    assert(seq![(0int, t, len)] + Seq::<(int, TokenSpec, int)>::empty() =~= seq![(0int, t, len)]);
}

/// Tokens that are one literal parse as one datum: the literal's.
proof fn lemma_one_literal_parses(toks: Seq<Spanned>, r: Result<Vec<Value>, Error>, ts: TokenSpec, e: int)
    requires
        spans_view(toks) == seq![(0int, ts, e)],
        ts is Integer || ts is Char || ts is String || ts is True || ts is False,
        parse_outcome(toks, r),
    ensures
        r is Ok,
        r->Ok_0@.len() == 1,
        toks.len() == 1,
        token_view(toks[0].1) == ts,
        atom_datum(toks[0].1, r->Ok_0@[0]),
{
    assert(spans_view(toks).len() == toks.len());
    assert(toks.len() == 1);
    assert(span_view(toks[0]) == spans_view(toks)[0]);
    assert(token_view(toks[0].1) == ts);
    assert(item_end(toks, 0) == Some(1int));
    assert(program_end(toks, 1));
    assert(program_end(toks, 0));
    assert forall|items: Seq<Value>| #[trigger] program_datums(toks, items) implies items.len() == 1 && atom_datum(
        toks[0].1,
        items[0],
    ) && all_tail_ok(items) by {
        let b = choose|b: Seq<int>|
            #![trigger b.len()]
            b.len() == items.len() + 1 && b[0] == 0 && b.last() == toks.len() && forall|k: int|
                0 <= k < items.len() ==> item_end(toks, b[k]) == Some(#[trigger] b[k + 1]) && item_datum(
                    toks,
                    b[k],
                    items[k],
                );
        if items.len() == 0 {
            assert(b[0] == b.last());
        } else {
            assert(item_end(toks, b[0]) == Some(b[1]));
            if items.len() > 1 {
                assert(item_end(toks, b[1]) == Some(b[2]));
            }
            assert(item_datum(toks, 0, items[0]));
            assert(tail_ok(items[0], false, keywords_spec()));
        }
    }
    if let Ok(items) = r {
        assert(program_datums(toks, items@));
    } else {
        let items = choose|items: Seq<Value>| #[trigger] program_datums(toks, items) && !all_tail_ok(items);
        assert(program_datums(toks, items));
    }
}

/// An integer as the printer writes it parses back as exactly that one
/// integer, which prints as the same text.
pub proof fn lemma_integer_parse_round_trip(
    n: i64,
    toks: Seq<Spanned>,
    r: Result<Vec<Value>, Error>,
    names: Map<u64, Seq<char>>,
)
    requires
        lex_from(decimal_of(n as int), 0) == LexAll::Tokens(spans_view(toks)),
        parse_outcome(toks, r),
    ensures
        r is Ok,
        r->Ok_0@.len() == 1,
        r->Ok_0@[0]@ == ValueData::Integer(n),
        print_spec(r->Ok_0@[0], names) == decimal_of(n as int),
{
    lemma_integer_lexes(n);
    lemma_one_literal_parses(toks, r, TokenSpec::Integer(n), decimal_of(n as int).len() as int);
}

/// A boolean as the printer writes it parses back as exactly that one
/// boolean, which prints as the same text.
pub proof fn lemma_bool_parse_round_trip(b: bool, toks: Seq<Spanned>, r: Result<Vec<Value>, Error>, names: Map<u64, Seq<char>>)
    requires
        lex_from(if b { "true"@ } else { "false"@ }, 0) == LexAll::Tokens(spans_view(toks)),
        parse_outcome(toks, r),
    ensures
        r is Ok,
        r->Ok_0@.len() == 1,
        r->Ok_0@[0]@ == ValueData::Bool(b),
        print_spec(r->Ok_0@[0], names) == if b { "true"@ } else { "false"@ },
{
    lemma_bool_lexes(b);
    lemma_one_literal_parses(
        toks,
        r,
        if b { TokenSpec::True } else { TokenSpec::False },
        if b { 4int } else { 5int },
    );
}

/// A character as the printer writes it parses back as exactly that one
/// character, which prints as the same text.
pub proof fn lemma_char_parse_round_trip(c: char, toks: Seq<Spanned>, r: Result<Vec<Value>, Error>, names: Map<u64, Seq<char>>)
    requires
        printable_spec(c) || escape_char_spec(c) is Some,
        lex_from(print_char(c), 0) == LexAll::Tokens(spans_view(toks)),
        parse_outcome(toks, r),
    ensures
        r is Ok,
        r->Ok_0@.len() == 1,
        r->Ok_0@[0]@ == ValueData::Char(c),
        print_spec(r->Ok_0@[0], names) == print_char(c),
{
    lemma_char_lexes(c);
    lemma_one_literal_parses(toks, r, TokenSpec::Char(c), print_char(c).len() as int);
}

/// A string of ASCII characters as the printer writes it parses back as
/// exactly that one string, which prints as the same text.
pub proof fn lemma_string_parse_round_trip(
    s: Seq<char>,
    toks: Seq<Spanned>,
    r: Result<Vec<Value>, Error>,
    names: Map<u64, Seq<char>>,
)
    requires
        ascii_text(s),
        lex_from(seq!['"'] + escape_str(s) + seq!['"'], 0) == LexAll::Tokens(spans_view(toks)),
        parse_outcome(toks, r),
    ensures
        r is Ok,
        r->Ok_0@.len() == 1,
        r->Ok_0@[0]@ is String,
        r->Ok_0@[0]@->String_0@ == s,
        print_spec(r->Ok_0@[0], names) == seq!['"'] + escape_str(s) + seq!['"'],
{
    lemma_string_lexes(s);
    lemma_one_literal_parses(toks, r, TokenSpec::String(escape_str(s)), escape_str(s).len() as int + 2);
}

} // verus!
