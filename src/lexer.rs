//! The tokenizer: source text to tokens with their character spans.
use crate::text::chars_of;
use vstd::prelude::*;

verus! {

/// What can go wrong while reading source text. Positions count characters
/// from the start of the text.
#[derive(Debug, PartialEq, Eq, Structural)]
pub enum Error {
    /// A character outside printable ASCII where one is required, at its position.
    NonAsciiChar(usize),
    /// A backslash escape that is not one of the known ones: start and end.
    InvalidEscape(usize, usize),
    /// A token that does not end where it must: start and end.
    InvalidToken(usize, usize),
    /// The text ends inside a string literal that starts at the position.
    UnexpectedEofString(usize),
    /// The text ends inside a character literal that starts at the position.
    UnexpectedEofChar(usize),
    /// A token that the grammar does not allow there: start and end.
    UnrecognizedToken(usize, usize),
    /// The text ends where an item or a closing parenthesis is due.
    UnexpectedEof,
    /// A `recur` form that is not in tail position of a `loop` or closure body.
    RecurInNonTailPosition,
}

#[derive(Debug)]
pub enum Token {
    OpenParen,
    ClosingParen,
    Dot,
    QuoteTick,
    WhiteSpace,
    Char(char),
    Integer(i64),
    /// The body of a string literal, escapes not yet resolved.
    String(String),
    Symbol(String),
    True,
    False,
    Begin,
    Define,
    If,
    Let,
    Loop,
    Lambda,
    Recur,
    Quote,
}

/// A token with the positions where it starts and ends.
pub type Spanned = (usize, Token, usize);

pub open spec fn whitespace_spec(c: char) -> bool {
    c == ' ' || c == '\n' || c == '\t'
}

/// An item ends before whitespace, a closing parenthesis or the end of text.
pub open spec fn ends_item(cs: Seq<char>, i: int) -> bool {
    i >= cs.len() || whitespace_spec(cs[i]) || cs[i] == ')'
}

pub open spec fn printable_spec(c: char) -> bool {
    '!' <= c && c <= '~'
}

/// The character that stands for the letter after a backslash.
pub open spec fn unescape_char_spec(c: char) -> Option<char> {
    if c == 'n' {
        Some('\n')
    } else if c == 's' {
        Some(' ')
    } else if c == 't' {
        Some('\t')
    } else if c == '\\' {
        Some('\\')
    } else {
        None
    }
}

/// `s` is a character literal for `x`: `#\\` and a printable character
/// other than a backslash, or `#\\\\` and the letter of an escape, or `#\\\\`
/// alone for a backslash.
pub open spec fn char_literal(s: Seq<char>, x: char) -> bool {
    &&& s.len() >= 3
    &&& s[0] == '#'
    &&& s[1] == '\\'
    &&& {
        ||| (s.len() == 3 && s[2] == x && printable_spec(x) && x != '\\')
        ||| (s.len() == 4 && s[2] == '\\' && unescape_char_spec(s[3]) == Some(x))
        ||| (s.len() == 3 && s[2] == '\\' && x == '\\')
    }
}

/// The token `t` is what the text from `s` to `e` writes.
#[verifier::opaque]
pub open spec fn token_fits(text: Seq<char>, s: int, t: Token, e: int) -> bool {
    &&& 0 <= s < e <= text.len()
    &&& {
        let span = text.subrange(s, e);
        match t {
            Token::OpenParen => span == seq!['('],
            Token::ClosingParen => span == seq![')'],
            Token::Dot => span == seq!['.'],
            Token::QuoteTick => span == seq!['\''],
            Token::WhiteSpace => forall|i: int| 0 <= i < span.len() ==> whitespace_spec(#[trigger] span[i]),
            Token::Char(x) => char_literal(span, x),
            Token::Integer(n) => is_integer_text(span) && n as int == integer_text_value(span),
            Token::String(b) => span == seq!['"'] + b@ + seq!['"'],
            Token::Symbol(x) => x@ == span,
            Token::True => span == "true"@,
            Token::False => span == "false"@,
            Token::Begin => span == "begin"@,
            Token::Define => span == "define"@,
            Token::If => span == "if"@,
            Token::Let => span == "let"@,
            Token::Loop => span == "loop"@,
            Token::Lambda => span == "lambda"@,
            Token::Recur => span == "recur"@,
            Token::Quote => span == "quote"@,
        }
    }
}

fn whitespace(x: char) -> (r: bool)
    ensures
        r == whitespace_spec(x),
{
    x == ' ' || x == '\n' || x == '\t'
}

fn end_of_item(cs: &Vec<char>, i: usize) -> (r: bool)
    ensures
        r == ends_item(cs@, i as int),
{
    i >= cs.len() || whitespace(cs[i]) || cs[i] == ')'
}

fn numeric(x: char) -> (r: bool)
    ensures
        r == is_digit(x),
{
    '0' <= x && x <= '9'
}

fn printable_char(x: char) -> (r: bool)
    ensures
        r == printable_spec(x),
{
    x >= '!' && x <= '~'
}

pub fn unescape_char(x: char) -> (r: Option<char>)
    ensures
        r == unescape_char_spec(x),
{
    if x == 'n' {
        Some('\n')
    } else if x == 's' {
        Some(' ')
    } else if x == 't' {
        Some('\t')
    } else if x == '\\' {
        Some('\\')
    } else {
        None
    }
}

pub open spec fn is_digit(c: char) -> bool {
    '0' <= c && c <= '9'
}

pub open spec fn digit_value(c: char) -> int {
    (c as u32) as int - 48
}

/// The number that a run of decimal digits denotes.
pub open spec fn digits_value(s: Seq<char>) -> int
    decreases s.len(),
{
    if s.len() == 0 {
        0
    } else {
        digits_value(s.drop_last()) * 10 + digit_value(s.last())
    }
}

pub open spec fn all_digits(s: Seq<char>) -> bool {
    s.len() > 0 && forall|i: int| 0 <= i < s.len() ==> is_digit(#[trigger] s[i])
}

/// Integer syntax: an optional `-` followed by one or more decimal digits.
pub open spec fn is_integer_text(s: Seq<char>) -> bool {
    all_digits(s) || (s.len() > 0 && s[0] == '-' && all_digits(s.drop_first()))
}

/// The integer that integer syntax denotes.
pub open spec fn integer_text_value(s: Seq<char>) -> int {
    if s.len() > 0 && s[0] == '-' {
        -digits_value(s.drop_first())
    } else {
        digits_value(s)
    }
}

pub open spec fn fits_i64(x: int) -> bool {
    i64::MIN <= x && x <= i64::MAX
}

proof fn lemma_digits_value_nonneg(s: Seq<char>)
    requires
        forall|i: int| 0 <= i < s.len() ==> is_digit(#[trigger] s[i]),
    ensures
        digits_value(s) >= 0,
    decreases s.len(),
{
    if s.len() > 0 {
        lemma_digits_value_nonneg(s.drop_last());
        assert(is_digit(s[s.len() - 1]));
    }
}

/// The magnitude of a run of digits, where it stays below 2^63 + 1.
fn digits_magnitude(cs: &Vec<char>, start: usize, end: usize) -> (r: Option<u64>)
    requires
        start <= end <= cs@.len(),
    ensures
        ({
            let s = cs@.subrange(start as int, end as int);
            match r {
                Some(m) => all_digits(s) && m as int == digits_value(s) && m <= 0x8000_0000_0000_0000u64,
                None => !all_digits(s) || digits_value(s) > 0x8000_0000_0000_0000u64,
            }
        }),
{
    if start == end {
        return None;
    }
    let mut acc: u64 = 0;
    let mut i = start;
    while i < end
        invariant
            start <= i <= end <= cs@.len(),
            forall|j: int| start <= j < i ==> is_digit(#[trigger] cs@[j]),
            acc as int == digits_value(cs@.subrange(start as int, i as int)),
            acc <= 0x8000_0000_0000_0000u64,
        decreases end - i,
    {
        let c = cs[i];
        let ghost prev = cs@.subrange(start as int, i as int);
        let ghost next = cs@.subrange(start as int, i as int + 1);
        assert(next.drop_last() =~= prev);
        if !('0' <= c && c <= '9') {
            assert(!is_digit(cs@.subrange(start as int, end as int)[i - start]));
            return None;
        }
        let d = (c as u32 - 48) as u64;
        if acc > 0x0CCC_CCCC_CCCC_CCCCu64 || acc * 10 + d > 0x8000_0000_0000_0000u64 {
            proof {
                let s = cs@.subrange(start as int, end as int);
                assert(digits_value(next) == acc * 10 + d);
                assert(digits_value(next) > 0x8000_0000_0000_0000u64) by (nonlinear_arith)
                    requires
                        digits_value(next) == acc * 10 + d,
                        acc > 0x0CCC_CCCC_CCCC_CCCCu64 || acc * 10 + d > 0x8000_0000_0000_0000u64,
                        d >= 0,
                ;
                if all_digits(s) {
                    lemma_digits_prefix_grows(s, (i - start) as int + 1);
                    assert(s.subrange(0, (i - start) as int + 1) =~= next);
                }
            }
            return None;
        }
        acc = acc * 10 + d;
        i = i + 1;
    }
    proof {
        let s = cs@.subrange(start as int, end as int);
        assert forall|j: int| 0 <= j < s.len() implies is_digit(#[trigger] s[j]) by {
            assert(s[j] == cs@[start + j]);
        }
    }
    Some(acc)
}

/// A longer run of digits never denotes less than a prefix of it.
proof fn lemma_digits_prefix_grows(s: Seq<char>, k: int)
    requires
        0 <= k <= s.len(),
        forall|i: int| 0 <= i < s.len() ==> is_digit(#[trigger] s[i]),
    ensures
        digits_value(s) >= digits_value(s.subrange(0, k)),
    decreases s.len(),
{
    if k == s.len() {
        assert(s.subrange(0, k) =~= s);
    } else {
        lemma_digits_prefix_grows(s.drop_last(), k);
        assert(s.drop_last().subrange(0, k) =~= s.subrange(0, k));
        lemma_digits_value_nonneg(s.drop_last());
        assert(is_digit(s[s.len() - 1]));
    }
}

/// The integer written in `cs` from `start` to `end`, where all of it is
/// integer syntax and the value fits in 64 bits.
pub fn integer_from_chars(cs: &Vec<char>, start: usize, end: usize) -> (r: Option<i64>)
    requires
        start <= end <= cs@.len(),
    ensures
        ({
            let s = cs@.subrange(start as int, end as int);
            match r {
                Some(n) => is_integer_text(s) && n as int == integer_text_value(s),
                None => !is_integer_text(s) || !fits_i64(integer_text_value(s)),
            }
        }),
{
    let ghost s = cs@.subrange(start as int, end as int);
    if start < end && cs[start] == '-' {
        assert(s.drop_first() =~= cs@.subrange(start as int + 1, end as int));
        assert(!all_digits(s)) by {
            assert(!is_digit(s[0]));
        }
        match digits_magnitude(cs, start + 1, end) {
            Some(m) => {
                if m == 0x8000_0000_0000_0000u64 {
                    Some(i64::MIN)
                } else {
                    Some(-(m as i64))
                }
            },
            None => None,
        }
    } else {
        match digits_magnitude(cs, start, end) {
            Some(m) => {
                if m > 0x7FFF_FFFF_FFFF_FFFFu64 {
                    None
                } else {
                    Some(m as i64)
                }
            },
            None => {
                proof {
                    if s.len() > 0 && s[0] == '-' {
                        assert(cs@[start as int] == '-');
                    }
                }
                None
            },
        }
    }
}

/// The integer that the whole of `s` writes, where `s` is integer syntax
/// whose value fits in 64 bits.
pub fn parse_integer(s: &str) -> (r: Option<i64>)
    ensures
        match r {
            Some(n) => is_integer_text(s@) && n as int == integer_text_value(s@),
            None => !is_integer_text(s@) || !fits_i64(integer_text_value(s@)),
        },
{
    let cs = chars_of(s);
    assert(cs@.subrange(0, cs@.len() as int) =~= s@);
    integer_from_chars(&cs, 0, cs.len())
}

/// The text of a string literal's body with its escapes resolved: `\\n`,
/// `\\t`, `\\"`, `\\s` and `\\\\`; any other backslash stays as it is.
pub open spec fn unescape_spec(s: Seq<char>) -> Seq<char>
    decreases s.len(),
{
    if s.len() == 0 {
        Seq::empty()
    } else if s[0] == '\\' && s.len() >= 2 {
        let n = s[1];
        let rest = unescape_spec(s.subrange(2, s.len() as int));
        if n == 'n' {
            seq!['\n'] + rest
        } else if n == 't' {
            seq!['\t'] + rest
        } else if n == '"' {
            seq!['"'] + rest
        } else if n == 's' {
            seq![' '] + rest
        } else if n == '\\' {
            seq!['\\'] + rest
        } else {
            seq!['\\', n] + rest
        }
    } else {
        seq![s[0]] + unescape_spec(s.drop_first())
    }
}

/// A token as the text shows it, its texts as character sequences.
pub enum TokenSpec {
    OpenParen,
    ClosingParen,
    Dot,
    QuoteTick,
    WhiteSpace,
    Char(char),
    Integer(i64),
    String(Seq<char>),
    Symbol(Seq<char>),
    True,
    False,
    Begin,
    Define,
    If,
    Let,
    Loop,
    Lambda,
    Recur,
    Quote,
}

pub open spec fn token_view(t: Token) -> TokenSpec {
    match t {
        Token::OpenParen => TokenSpec::OpenParen,
        Token::ClosingParen => TokenSpec::ClosingParen,
        Token::Dot => TokenSpec::Dot,
        Token::QuoteTick => TokenSpec::QuoteTick,
        Token::WhiteSpace => TokenSpec::WhiteSpace,
        Token::Char(c) => TokenSpec::Char(c),
        Token::Integer(n) => TokenSpec::Integer(n),
        Token::String(s) => TokenSpec::String(s@),
        Token::Symbol(s) => TokenSpec::Symbol(s@),
        Token::True => TokenSpec::True,
        Token::False => TokenSpec::False,
        Token::Begin => TokenSpec::Begin,
        Token::Define => TokenSpec::Define,
        Token::If => TokenSpec::If,
        Token::Let => TokenSpec::Let,
        Token::Loop => TokenSpec::Loop,
        Token::Lambda => TokenSpec::Lambda,
        Token::Recur => TokenSpec::Recur,
        Token::Quote => TokenSpec::Quote,
    }
}

/// What reading one token gives: the token and where it ends, or an error.
pub enum LexStep {
    Token(TokenSpec, int),
    Fail(Error),
}

/// The first position from `i` on that does not hold whitespace.
pub open spec fn scan_ws(text: Seq<char>, i: int) -> int
    decreases text.len() - i,
{
    if 0 <= i < text.len() && whitespace_spec(text[i]) {
        scan_ws(text, i + 1)
    } else {
        i
    }
}

/// The first position from `i` on that does not hold a digit.
pub open spec fn scan_digits(text: Seq<char>, i: int) -> int
    decreases text.len() - i,
{
    if 0 <= i < text.len() && is_digit(text[i]) {
        scan_digits(text, i + 1)
    } else {
        i
    }
}

/// The first position from `i` on where an item ends.
pub open spec fn scan_item(text: Seq<char>, i: int) -> int
    decreases text.len() - i,
{
    if ends_item(text, i) || i < 0 {
        i
    } else {
        scan_item(text, i + 1)
    }
}

/// The token for a run of symbol characters: a reserved word, `true`,
/// `false`, or a symbol.
pub open spec fn keyword_spec(s: Seq<char>) -> TokenSpec {
    if s == "begin"@ {
        TokenSpec::Begin
    } else if s == "define"@ {
        TokenSpec::Define
    } else if s == "if"@ {
        TokenSpec::If
    } else if s == "let"@ {
        TokenSpec::Let
    } else if s == "loop"@ {
        TokenSpec::Loop
    } else if s == "lambda"@ {
        TokenSpec::Lambda
    } else if s == "recur"@ {
        TokenSpec::Recur
    } else if s == "quote"@ {
        TokenSpec::Quote
    } else if s == "true"@ {
        TokenSpec::True
    } else if s == "false"@ {
        TokenSpec::False
    } else {
        TokenSpec::Symbol(s)
    }
}

pub open spec fn integer_lex(text: Seq<char>, start: int) -> LexStep {
    let i = scan_digits(text, start + 1);
    let s = text.subrange(start, i);
    if !ends_item(text, i) {
        LexStep::Fail(Error::InvalidToken(i as usize, i as usize))
    } else if is_integer_text(s) && fits_i64(integer_text_value(s)) {
        LexStep::Token(TokenSpec::Integer(integer_text_value(s) as i64), i)
    } else {
        LexStep::Fail(Error::InvalidToken(start as usize, i as usize))
    }
}

pub open spec fn symbol_lex(text: Seq<char>, start: int) -> LexStep {
    let i = scan_item(text, start + 1);
    LexStep::Token(keyword_spec(text.subrange(start, i)), i)
}

pub open spec fn char_lex(text: Seq<char>, start: int) -> LexStep {
    let i = start + 2;
    let len = text.len() as int;
    if i >= len {
        LexStep::Fail(Error::UnexpectedEofChar(len as usize))
    } else if text[i] == '\\' {
        if i + 1 >= len {
            LexStep::Token(TokenSpec::Char('\\'), len)
        } else {
            match unescape_char_spec(text[i + 1]) {
                None => LexStep::Fail(Error::InvalidEscape(i as usize, (i + 2) as usize)),
                Some(x) => if !ends_item(text, i + 2) {
                    LexStep::Fail(Error::InvalidToken((i + 2) as usize, (i + 2) as usize))
                } else {
                    LexStep::Token(TokenSpec::Char(x), i + 2)
                },
            }
        }
    } else if !printable_spec(text[i]) {
        LexStep::Fail(Error::NonAsciiChar(i as usize))
    } else if !ends_item(text, i + 1) {
        LexStep::Fail(Error::InvalidToken((i + 1) as usize, (i + 1) as usize))
    } else {
        LexStep::Token(TokenSpec::Char(text[i]), i + 1)
    }
}

/// Where the body of a string literal that continues at `i` ends: the
/// position of its closing `"`, or the error that stops it.
pub open spec fn scan_string(text: Seq<char>, i: int) -> LexStep
    decreases text.len() - i,
{
    let len = text.len() as int;
    if i < 0 || i >= len {
        LexStep::Fail(Error::UnexpectedEofString(len as usize))
    } else if text[i] == '"' {
        LexStep::Token(TokenSpec::WhiteSpace, i)
    } else if text[i] == '\\' {
        if i + 1 >= len {
            LexStep::Fail(Error::UnexpectedEofString(len as usize))
        } else if text[i + 1] != '"' && unescape_char_spec(text[i + 1]) is None {
            LexStep::Fail(Error::InvalidEscape(i as usize, (i + 2) as usize))
        } else {
            scan_string(text, i + 2)
        }
    } else {
        scan_string(text, i + 1)
    }
}

/// The first position from `j` before `i` that holds a character outside
/// ASCII.
pub open spec fn first_non_ascii(text: Seq<char>, j: int, i: int) -> Option<int>
    decreases i - j,
{
    if j >= i {
        None
    } else if (text[j] as u32) >= 128 {
        Some(j)
    } else {
        first_non_ascii(text, j + 1, i)
    }
}

pub open spec fn string_lex(text: Seq<char>, start: int) -> LexStep {
    match scan_string(text, start + 1) {
        LexStep::Fail(e) => LexStep::Fail(e),
        LexStep::Token(_, i) => match first_non_ascii(text, start + 1, i) {
            Some(j) => LexStep::Fail(Error::NonAsciiChar(j as usize)),
            None => LexStep::Token(TokenSpec::String(text.subrange(start + 1, i)), i + 1),
        },
    }
}

/// The token that starts at `pos`, where `pos` is inside the text.
pub open spec fn lex_at(text: Seq<char>, pos: int) -> LexStep {
    let c = text[pos];
    let len = text.len() as int;
    if c == '(' {
        LexStep::Token(TokenSpec::OpenParen, pos + 1)
    } else if c == ')' {
        LexStep::Token(TokenSpec::ClosingParen, pos + 1)
    } else if c == '\'' {
        LexStep::Token(TokenSpec::QuoteTick, pos + 1)
    } else if c == '.' {
        LexStep::Token(TokenSpec::Dot, pos + 1)
    } else if whitespace_spec(c) {
        LexStep::Token(TokenSpec::WhiteSpace, scan_ws(text, pos + 1))
    } else if c == '"' {
        string_lex(text, pos)
    } else if c == '#' {
        if pos + 1 < len && text[pos + 1] == '\\' {
            char_lex(text, pos)
        } else if ends_item(text, pos + 1) {
            LexStep::Token(TokenSpec::Symbol(seq!['#']), pos + 1)
        } else {
            symbol_lex(text, pos)
        }
    } else if is_digit(c) || (c == '-' && pos + 1 < len && is_digit(text[pos + 1])) {
        integer_lex(text, pos)
    } else {
        symbol_lex(text, pos)
    }
}

/// The tokens of a whole text other than whitespace, with their spans, or
/// the first error.
pub enum LexAll {
    Tokens(Seq<(int, TokenSpec, int)>),
    Fail(Error),
}

/// The significant tokens of `text` from `pos` on, read one after another.
pub open spec fn lex_from(text: Seq<char>, pos: int) -> LexAll
    decreases text.len() - pos,
{
    if pos < 0 || pos >= text.len() {
        LexAll::Tokens(Seq::empty())
    } else {
        match lex_at(text, pos) {
            LexStep::Fail(e) => LexAll::Fail(e),
            LexStep::Token(t, e) => if e <= pos || e > text.len() {
                LexAll::Tokens(Seq::empty())
            } else {
                match lex_from(text, e) {
                    LexAll::Fail(err) => LexAll::Fail(err),
                    LexAll::Tokens(rest) => if t is WhiteSpace {
                        LexAll::Tokens(rest)
                    } else {
                        LexAll::Tokens(seq![(pos, t, e)] + rest)
                    },
                }
            },
        }
    }
}

pub open spec fn span_view(t: Spanned) -> (int, TokenSpec, int) {
    (t.0 as int, token_view(t.1), t.2 as int)
}

pub open spec fn spans_view(toks: Seq<Spanned>) -> Seq<(int, TokenSpec, int)> {
    toks.map_values(|t: Spanned| span_view(t))
}

/// `r` is what `l` says reading at `pos` gives.
pub open spec fn step_result(r: Option<Result<Spanned, Error>>, pos: int, l: LexStep) -> bool {
    match l {
        LexStep::Token(ts, e) => match r {
            Some(Ok((s, t, e2))) => s == pos && e2 == e && token_view(t) == ts,
            _ => false,
        },
        LexStep::Fail(err) => match r {
            Some(Err(e)) => e == err,
            _ => false,
        },
    }
}

/// Resolves the escapes of a string literal's body.
pub fn unescape_string(input: &str) -> (r: String)
    ensures
        r@ == unescape_spec(input@),
{
    let cs = chars_of(input);
    let mut out: Vec<char> = Vec::new();
    let mut i: usize = 0;
    assert(cs@.subrange(0, cs@.len() as int) =~= input@);
    assert(out@ + unescape_spec(input@) =~= unescape_spec(input@));
    while i < cs.len()
        invariant
            i <= cs@.len(),
            cs@ == input@,
            out@ + unescape_spec(cs@.subrange(i as int, cs@.len() as int)) == unescape_spec(input@),
        decreases cs.len() - i,
    {
        let ghost rest = cs@.subrange(i as int, cs@.len() as int);
        let c = cs[i];
        if c == '\\' && i + 1 < cs.len() {
            let n = cs[i + 1];
            assert(rest.subrange(2, rest.len() as int) =~= cs@.subrange(i as int + 2, cs@.len() as int));
            if n == 'n' {
                out.push('\n');
            } else if n == 't' {
                out.push('\t');
            } else if n == '"' {
                out.push('"');
            } else if n == 's' {
                out.push(' ');
            } else if n == '\\' {
                out.push('\\');
            } else {
                out.push('\\');
                out.push(n);
            }
            assert(out@ + unescape_spec(cs@.subrange(i as int + 2, cs@.len() as int)) =~= unescape_spec(input@)) by {
                assert(rest[0] == c);
                assert(rest[1] == n);
            }
            i = i + 2;
        } else {
            out.push(c);
            assert(rest.drop_first() =~= cs@.subrange(i as int + 1, cs@.len() as int));
            assert(out@ + unescape_spec(cs@.subrange(i as int + 1, cs@.len() as int)) =~= unescape_spec(input@)) by {
                assert(rest[0] == c);
            }
            i = i + 1;
        }
    }
    assert(cs@.subrange(i as int, cs@.len() as int) =~= Seq::<char>::empty());
    assert(out@ =~= out@ + Seq::<char>::empty());
    crate::text::string_from_chars(&out)
}

/// Reads tokens from source text, one at a time.
pub struct Tokenizer {
    pub text: Vec<char>,
    pub pos: usize,
}

fn string_of(cs: &Vec<char>, start: usize, end: usize) -> (r: String)
    requires
        start <= end <= cs@.len(),
    ensures
        r@ == cs@.subrange(start as int, end as int),
{
    let mut v: Vec<char> = Vec::new();
    let mut i = start;
    while i < end
        invariant
            start <= i <= end <= cs@.len(),
            v@ == cs@.subrange(start as int, i as int),
        decreases end - i,
    {
        v.push(cs[i]);
        assert(v@ =~= cs@.subrange(start as int, i as int + 1));
        i = i + 1;
    }
    crate::text::string_from_chars(&v)
}

fn is_ascii_char(c: char) -> (r: bool)
    ensures
        r == ((c as u32) < 128),
{
    (c as u32) < 128
}

impl Tokenizer {
    pub open spec fn wf(&self) -> bool {
        self.pos <= self.text@.len()
    }

    pub fn new(text: &str) -> (r: Tokenizer)
        ensures
            r.wf(),
            r.text@ == text@,
            r.pos == 0,
    {
        Tokenizer { text: chars_of(text), pos: 0 }
    }

    fn peek_next(&self) -> (r: Option<char>)
        requires
            self.wf(),
        ensures
            self.pos < self.text@.len() ==> r == Some(self.text@[self.pos as int]),
            self.pos >= self.text@.len() ==> r is None,
    {
        if self.pos < self.text.len() {
            Some(self.text[self.pos])
        } else {
            None
        }
    }

    /// The next token, `None` at the end of the text.
    pub fn next_token(&mut self) -> (r: Option<Result<Spanned, Error>>)
        requires
            old(self).wf(),
        ensures
            final(self).wf(),
            final(self).text == old(self).text,
            r is None <==> old(self).pos >= old(self).text@.len(),
            match r {
                Some(Ok((s, t, e))) => {
                    &&& old(self).pos == s
                    &&& s < e <= old(self).text@.len()
                    &&& e == final(self).pos
                    &&& token_fits(old(self).text@, s as int, t, e as int)
                    &&& (t is WhiteSpace ==> forall|i: int| s <= i < e ==> whitespace_spec(#[trigger] old(self).text@[i]))
                },
                _ => true,
            },
            old(self).pos < old(self).text@.len() ==> step_result(r, old(self).pos as int, lex_at(old(self).text@, old(self).pos as int)),
    {
        proof {
            reveal(token_fits);
        }
        let start = self.pos;
        let len = self.text.len();
        let c = match self.peek_next() {
            Some(c) => c,
            None => {
                return None;
            },
        };
        assert(self.text@.subrange(start as int, start as int + 1) =~= seq![c]);
        if c == '(' {
            self.pos = start + 1;
            return Some(Ok((start, Token::OpenParen, start + 1)));
        }
        if c == ')' {
            self.pos = start + 1;
            return Some(Ok((start, Token::ClosingParen, start + 1)));
        }
        if c == '\'' {
            self.pos = start + 1;
            return Some(Ok((start, Token::QuoteTick, start + 1)));
        }
        if c == '.' {
            self.pos = start + 1;
            return Some(Ok((start, Token::Dot, start + 1)));
        }
        if whitespace(c) {
            let mut i = start + 1;
            while i < len && whitespace(self.text[i])
                invariant
                    start < i <= len,
                    len == self.text@.len(),
                    forall|j: int| start <= j < i ==> whitespace_spec(#[trigger] self.text@[j]),
                    scan_ws(self.text@, start + 1) == scan_ws(self.text@, i as int),
                decreases len - i,
            {
                i = i + 1;
            }
            self.pos = i;
            assert forall|j: int| 0 <= j < i - start implies whitespace_spec(#[trigger] self.text@.subrange(start as int, i as int)[j]) by {
                assert(self.text@.subrange(start as int, i as int)[j] == self.text@[start + j]);
            }
            return Some(Ok((start, Token::WhiteSpace, i)));
        }
        if c == '"' {
            return self.string_token(start);
        }
        if c == '#' {
            if start + 1 < len && self.text[start + 1] == '\\' {
                return self.char_token(start);
            }
            if end_of_item(&self.text, start + 1) {
                self.pos = start + 1;
                return Some(Ok((start, Token::Symbol(string_of(&self.text, start, start + 1)), start + 1)));
            }
            return self.symbol_token(start);
        }
        if numeric(c) || (c == '-' && start + 1 < len && numeric(self.text[start + 1])) {
            return self.integer_token(start);
        }
        self.symbol_token(start)
    }

    /// Digits after an optional `-`, up to the end of the item.
    fn integer_token(&mut self, start: usize) -> (r: Option<Result<Spanned, Error>>)
        requires
            old(self).wf(),
            start == old(self).pos,
            start < old(self).text@.len(),
        ensures
            final(self).wf(),
            final(self).text == old(self).text,
            r is Some,
            match r {
                Some(Ok((s, t, e))) => start == s && e == final(self).pos && token_fits(old(self).text@, s as int, t, e as int)
                    && !(t is WhiteSpace),
                _ => true,
            },
            step_result(r, start as int, integer_lex(old(self).text@, start as int)),
    {
        proof {
            reveal(token_fits);
        }
        let len = self.text.len();
        let mut i = start + 1;
        while i < len && numeric(self.text[i])
            invariant
                start < i <= len,
                len == self.text@.len(),
                scan_digits(self.text@, start + 1) == scan_digits(self.text@, i as int),
            decreases len - i,
        {
            i = i + 1;
        }
        if !end_of_item(&self.text, i) {
            self.pos = i;
            return Some(Err(Error::InvalidToken(i, i)));
        }
        match integer_from_chars(&self.text, start, i) {
            Some(n) => {
                self.pos = i;
                Some(Ok((start, Token::Integer(n), i)))
            },
            None => {
                self.pos = i;
                Some(Err(Error::InvalidToken(start, i)))
            },
        }
    }

    /// A run of characters up to the end of the item; the reserved words,
    /// `true` and `false` become their own tokens.
    fn symbol_token(&mut self, start: usize) -> (r: Option<Result<Spanned, Error>>)
        requires
            old(self).wf(),
            start == old(self).pos,
            start < old(self).text@.len(),
        ensures
            final(self).wf(),
            final(self).text == old(self).text,
            match r {
                Some(Ok((s, t, e))) => start == s && e == final(self).pos && token_fits(old(self).text@, s as int, t, e as int)
                    && !(t is WhiteSpace),
                Some(Err(_)) => true,
                None => false,
            },
            step_result(r, start as int, symbol_lex(old(self).text@, start as int)),
    {
        proof {
            reveal(token_fits);
        }
        let len = self.text.len();
        let mut i = start + 1;
        while !end_of_item(&self.text, i)
            invariant
                start < i <= len,
                len == self.text@.len(),
                scan_item(self.text@, start + 1) == scan_item(self.text@, i as int),
            decreases len - i,
        {
            i = i + 1;
        }
        self.pos = i;
        let text = string_of(&self.text, start, i);
        let token = keyword_or_symbol(text);
        Some(Ok((start, token, i)))
    }

    /// `#\\x` for a printable character `x`, or `#\\\\e` for an escape.
    fn char_token(&mut self, start: usize) -> (r: Option<Result<Spanned, Error>>)
        requires
            old(self).wf(),
            start == old(self).pos,
            start + 1 < old(self).text@.len(),
            old(self).text@[start as int] == '#',
            old(self).text@[start + 1] == '\\',
        ensures
            final(self).wf(),
            final(self).text == old(self).text,
            match r {
                Some(Ok((s, t, e))) => start == s && e == final(self).pos && token_fits(old(self).text@, s as int, t, e as int)
                    && !(t is WhiteSpace),
                Some(Err(_)) => true,
                None => false,
            },
            step_result(r, start as int, char_lex(old(self).text@, start as int)),
    {
        proof {
            reveal(token_fits);
        }
        let len = self.text.len();
        let i = start + 2;
        if i >= len {
            self.pos = len;
            return Some(Err(Error::UnexpectedEofChar(len)));
        }
        let c = self.text[i];
        let x;
        if c == '\\' {
            if i + 1 >= len {
                self.pos = len;
                assert(self.text@.subrange(start as int, len as int) =~= seq!['#', '\\', '\\']);
                return Some(Ok((start, Token::Char('\\'), len)));
            }
            match unescape_char(self.text[i + 1]) {
                Some(u) => {
                    x = u;
                },
                None => {
                    self.pos = len;
                    return Some(Err(Error::InvalidEscape(i, i + 2)));
                },
            }
            if !end_of_item(&self.text, i + 2) {
                self.pos = len;
                return Some(Err(Error::InvalidToken(i + 2, i + 2)));
            }
            self.pos = i + 2;
            assert(self.text@.subrange(start as int, i + 2) =~= seq!['#', '\\', '\\', self.text@[i + 1]]);
            return Some(Ok((start, Token::Char(x), i + 2)));
        }
        if !printable_char(c) {
            self.pos = len;
            return Some(Err(Error::NonAsciiChar(i)));
        }
        if !end_of_item(&self.text, i + 1) {
            self.pos = len;
            return Some(Err(Error::InvalidToken(i + 1, i + 1)));
        }
        self.pos = i + 1;
        assert(self.text@.subrange(start as int, i + 1) =~= seq!['#', '\\', c]);
        Some(Ok((start, Token::Char(c), i + 1)))
    }

    /// A string literal: its body runs to the next `"` that no backslash
    /// escapes, and holds ASCII only.
    fn string_token(&mut self, start: usize) -> (r: Option<Result<Spanned, Error>>)
        requires
            old(self).wf(),
            start == old(self).pos,
            start < old(self).text@.len(),
            old(self).text@[start as int] == '"',
        ensures
            final(self).wf(),
            final(self).text == old(self).text,
            match r {
                Some(Ok((s, t, e))) => start == s && e == final(self).pos && token_fits(old(self).text@, s as int, t, e as int)
                    && !(t is WhiteSpace),
                Some(Err(_)) => true,
                None => false,
            },
            step_result(r, start as int, string_lex(old(self).text@, start as int)),
    {
        proof {
            reveal(token_fits);
        }
        let len = self.text.len();
        let mut i = start + 1;
        loop
            invariant
                start < i <= len,
                len == self.text@.len(),
                self.text == old(self).text,
                self.pos == old(self).pos,
                self.text@[start as int] == '"',
                scan_string(self.text@, start + 1) == scan_string(self.text@, i as int),
            decreases len - i,
        {
            if i >= len {
                self.pos = len;
                return Some(Err(Error::UnexpectedEofString(len)));
            }
            let c = self.text[i];
            if c == '"' {
                let mut j = start + 1;
                while j < i
                    invariant
                        start < j <= i < len,
                        len == self.text@.len(),
                        self.text == old(self).text,
                        self.text@[i as int] == '"',
                        self.text@[start as int] == '"',
                        first_non_ascii(self.text@, start + 1, i as int) == first_non_ascii(self.text@, j as int, i as int),
                        scan_string(self.text@, start + 1) == LexStep::Token(TokenSpec::WhiteSpace, i as int),
                    decreases i - j,
                {
                    if !is_ascii_char(self.text[j]) {
                        self.pos = len;
                        return Some(Err(Error::NonAsciiChar(j)));
                    }
                    j = j + 1;
                }
                self.pos = i + 1;
                let body = string_of(&self.text, start + 1, i);
                assert(self.text@[start as int] == '"');
                assert(self.text@[i as int] == '"');
                assert(self.text@.subrange(start as int, i + 1) =~= seq!['"'] + body@ + seq!['"']);
                proof {
                    reveal(token_fits);
                }
                return Some(Ok((start, Token::String(body), i + 1)));
            }
            if c == '\\' {
                if i + 1 >= len {
                    self.pos = len;
                    return Some(Err(Error::UnexpectedEofString(len)));
                }
                let n = self.text[i + 1];
                if n != '"' && unescape_char(n).is_none() {
                    self.pos = len;
                    return Some(Err(Error::InvalidEscape(i, i + 2)));
                }
                i = i + 2;
            } else {
                i = i + 1;
            }
        }
    }
}

fn keyword_or_symbol(text: String) -> (r: Token)
    ensures
        token_view(r) == keyword_spec(text@),
        match r {
            Token::Symbol(x) => x@ == text@,
            Token::True => text@ == "true"@,
            Token::False => text@ == "false"@,
            Token::Begin => text@ == "begin"@,
            Token::Define => text@ == "define"@,
            Token::If => text@ == "if"@,
            Token::Let => text@ == "let"@,
            Token::Loop => text@ == "loop"@,
            Token::Lambda => text@ == "lambda"@,
            Token::Recur => text@ == "recur"@,
            Token::Quote => text@ == "quote"@,
            _ => false,
        },
{
    let t = text.as_str();
    if str_eq(t, "begin") {
        Token::Begin
    } else if str_eq(t, "define") {
        Token::Define
    } else if str_eq(t, "if") {
        Token::If
    } else if str_eq(t, "let") {
        Token::Let
    } else if str_eq(t, "loop") {
        Token::Loop
    } else if str_eq(t, "lambda") {
        Token::Lambda
    } else if str_eq(t, "recur") {
        Token::Recur
    } else if str_eq(t, "quote") {
        Token::Quote
    } else if str_eq(t, "true") {
        Token::True
    } else if str_eq(t, "false") {
        Token::False
    } else {
        Token::Symbol(text)
    }
}

/// Whether the two texts are the same.
pub fn str_eq(a: &str, b: &str) -> (r: bool)
    ensures
        r == (a@ == b@),
{
    let x = chars_of(a);
    let y = chars_of(b);
    if x.len() != y.len() {
        return false;
    }
    let mut i: usize = 0;
    while i < x.len()
        invariant
            i <= x@.len(),
            x@.len() == y@.len(),
            x@ == a@,
            y@ == b@,
            forall|j: int| 0 <= j < i ==> x@[j] == y@[j],
        decreases x.len() - i,
    {
        if x[i] != y[i] {
            return false;
        }
        i = i + 1;
    }
    assert(x@ =~= y@);
    true
}

} // verus!
