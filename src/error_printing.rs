//! Rendering a load-time error: the source line with a caret span under the
//! offending characters, an `error:` line and an optional `hint:` line.
use crate::lexer::Error;
use crate::text::{chars_of, decimal_of, decimal_string, string_from_chars};
use vstd::prelude::*;

verus! {

broadcast use vstd::std_specs::vec::group_vec_axioms;

/// The position where the line that holds position `k` starts.
pub open spec fn line_start(s: Seq<char>, k: int) -> int
    decreases k,
{
    if k <= 0 {
        0
    } else if s[k - 1] == '\n' {
        k
    } else {
        line_start(s, k - 1)
    }
}

/// The position of the first newline at or after `k`, or the end of text.
pub open spec fn line_end(s: Seq<char>, k: int) -> int
    decreases s.len() - k,
{
    if k >= s.len() {
        s.len() as int
    } else if s[k] == '\n' {
        k
    } else {
        line_end(s, k + 1)
    }
}

/// The number of newlines before position `k`: the line number, from 0.
pub open spec fn newlines_before(s: Seq<char>, k: int) -> nat
    decreases k,
{
    if k <= 0 {
        0
    } else {
        newlines_before(s, k - 1) + if s[k - 1] == '\n' { 1nat } else { 0nat }
    }
}

pub open spec fn repeat_char(c: char, n: nat) -> Seq<char> {
    Seq::new(n, |i: int| c)
}

/// `n | line` and below it `^` under the positions from `start` to `end`
/// (one at least), the columns lined up.
pub open spec fn line_with_pos_spec(s: Seq<char>, start: int, end: int) -> Seq<char> {
    let e = if start >= end { start + 1 } else { end };
    let ls = line_start(s, start);
    let no = decimal_of(newlines_before(s, start) as int);
    no + " | "@ + s.subrange(ls, line_end(s, start)) + seq!['\n'] + repeat_char(' ', no.len()) + " | "@
        + repeat_char(' ', (start - ls) as nat) + repeat_char('^', (e - start) as nat) + seq![' ']
}

pub open spec fn error_msg_spec(msg: Seq<char>) -> Seq<char> {
    "error: "@ + msg
}

pub open spec fn hint_msg_spec(hint: Seq<char>) -> Seq<char> {
    if hint.len() > 0 {
        "\nhint: "@ + hint
    } else {
        Seq::empty()
    }
}

/// The count of `(` less the count of `)`.
pub open spec fn paren_balance(s: Seq<char>) -> int
    decreases s.len(),
{
    if s.len() == 0 {
        0
    } else {
        paren_balance(s.drop_last()) + if s.last() == '(' {
            1int
        } else if s.last() == ')' {
            -1int
        } else {
            0int
        }
    }
}

/// The `)` that would close every unclosed `(`.
pub open spec fn missing_parens(s: Seq<char>) -> Seq<char> {
    if paren_balance(s) > 0 {
        repeat_char(')', paren_balance(s) as nat)
    } else {
        Seq::empty()
    }
}

pub open spec fn eof_hint(s: Seq<char>) -> Seq<char> {
    if paren_balance(s) > 0 {
        "unclosed parens, maybe you're missing '"@ + missing_parens(s) + "'?"@
    } else {
        Seq::empty()
    }
}

pub open spec fn clamp(s: Seq<char>, k: int) -> int {
    if k > s.len() {
        s.len() as int
    } else {
        k
    }
}

/// The whole message for `err` on source text `s`.
pub open spec fn error_message_spec(s: Seq<char>, err: Error) -> Seq<char> {
    let n = s.len() as int;
    match err {
        Error::NonAsciiChar(p) => {
            let q = clamp(s, p as int);
            line_with_pos_spec(s, q, q) + error_msg_spec(
                "invalid character: "@ + (if q < n { seq![s[q]] } else { Seq::empty() }) + " is not ASCII"@,
            )
        },
        Error::InvalidEscape(a, b) => line_with_pos_spec(s, clamp(s, a as int), clamp(s, b as int)) + error_msg_spec(
            "invalid escape"@,
        ),
        Error::InvalidToken(a, b) => line_with_pos_spec(s, clamp(s, a as int), clamp(s, b as int)) + error_msg_spec(
            "invalid token"@,
        ),
        Error::UnexpectedEofString(_) => line_with_pos_spec(s, n, n) + error_msg_spec("unexpected EOF\n"@)
            + hint_msg_spec("missing closing \", did you forget to terminate a string literal?"@),
        Error::UnexpectedEofChar(_) => line_with_pos_spec(s, n, n) + error_msg_spec("unexpected EOF"@),
        Error::UnrecognizedToken(a, b) => line_with_pos_spec(s, clamp(s, a as int), clamp(s, b as int))
            + error_msg_spec("unrecognized token"@),
        Error::UnexpectedEof => line_with_pos_spec(s, n, n) + error_msg_spec("unexpected EOF"@) + hint_msg_spec(
            eof_hint(s),
        ),
        Error::RecurInNonTailPosition => error_msg_spec("recur in non-tail position"@),
    }
}

fn repeat(out: &mut Vec<char>, c: char, n: usize)
    ensures
        final(out)@ == old(out)@ + repeat_char(c, n as nat),
{
    let mut i: usize = 0;
    while i < n
        invariant
            i <= n,
            out@ == old(out)@ + repeat_char(c, i as nat),
        decreases n - i,
    {
        out.push(c);
        assert(out@ =~= old(out)@ + repeat_char(c, (i + 1) as nat));
        i = i + 1;
    }
}

fn push_all(out: &mut Vec<char>, s: &str)
    ensures
        final(out)@ == old(out)@ + s@,
{
    let mut cs = chars_of(s);
    out.append(&mut cs);
}

/// The source line that holds `start`, numbered, with a caret span from
/// `start` to `end` below it.
pub fn print_line_with_pos(input: &str, start: usize, end: usize) -> (r: String)
    requires
        start <= input@.len(),
    ensures
        r@ == line_with_pos_spec(input@, start as int, end as int),
{
    let cs = chars_of(input);
    let carets: usize = if start >= end {
        1
    } else {
        end - start
    };
    let mut line_no: usize = 0;
    let mut ls: usize = 0;
    let mut i: usize = 0;
    while i < start
        invariant
            i <= start <= cs@.len(),
            cs@ == input@,
            line_no as int == newlines_before(cs@, i as int),
            line_no <= i,
            ls as int == line_start(cs@, i as int),
        decreases start - i,
    {
        if cs[i] == '\n' {
            line_no = line_no + 1;
            ls = i + 1;
        }
        i = i + 1;
    }
    let mut le = start;
    while le < cs.len() && cs[le] != '\n'
        invariant
            start <= le <= cs@.len(),
            line_end(cs@, start as int) == line_end(cs@, le as int),
        decreases cs.len() - le,
    {
        le = le + 1;
    }
    let mut out: Vec<char> = Vec::new();
    let no = decimal_string(line_no as i128);
    let no_chars = chars_of(no.as_str());
    push_all(&mut out, no.as_str());
    push_all(&mut out, " | ");
    let mut k = ls;
    proof {
        lemma_line_start_le(cs@, start as int);
    }
    while k < le
        invariant
            ls <= k <= le <= cs@.len(),
            out@ == decimal_of(line_no as int) + " | "@ + cs@.subrange(ls as int, k as int),
        decreases le - k,
    {
        out.push(cs[k]);
        assert(out@ =~= decimal_of(line_no as int) + " | "@ + cs@.subrange(ls as int, k as int + 1));
        k = k + 1;
    }
    out.push('\n');
    repeat(&mut out, ' ', no_chars.len());
    push_all(&mut out, " | ");
    repeat(&mut out, ' ', start - ls);
    repeat(&mut out, '^', carets);
    out.push(' ');
    proof {
        assert(out@ =~= line_with_pos_spec(input@, start as int, end as int));
    }
    string_from_chars(&out)
}

proof fn lemma_line_start_le(s: Seq<char>, k: int)
    requires
        0 <= k,
    ensures
        0 <= line_start(s, k) <= k,
    decreases k,
{
    if k > 0 && s[k - 1] != '\n' {
        lemma_line_start_le(s, k - 1);
    }
}

pub fn print_error_msg(msg: &str) -> (r: String)
    ensures
        r@ == error_msg_spec(msg@),
{
    let mut r = String::from_str("error: ");
    r.append(msg);
    r
}

pub fn print_hint_msg(hint: &str) -> (r: String)
    ensures
        r@ == hint_msg_spec(hint@),
{
    if hint.unicode_len() > 0 {
        let mut r = String::from_str("\nhint: ");
        r.append(hint);
        r
    } else {
        String::new()
    }
}

/// The count of `(` less the count of `)` in `s`.
pub fn count_unclosed(s: &str) -> (r: i128)
    ensures
        r as int == paren_balance(s@),
        r <= usize::MAX,
{
    let cs = chars_of(s);
    let mut n: i128 = 0;
    let mut i: usize = 0;
    while i < cs.len()
        invariant
            i <= cs@.len(),
            cs@ == s@,
            n as int == paren_balance(cs@.subrange(0, i as int)),
            -(i as int) <= n <= i,
        decreases cs.len() - i,
    {
        assert(cs@.subrange(0, i as int + 1).drop_last() =~= cs@.subrange(0, i as int));
        if cs[i] == '(' {
            n = n + 1;
        } else if cs[i] == ')' {
            n = n - 1;
        }
        i = i + 1;
    }
    assert(cs@.subrange(0, i as int) =~= s@);
    n
}

/// The `)` that would close every unclosed `(` of `line`.
pub fn close_params(line: &str) -> (r: String)
    ensures
        r@ == missing_parens(line@),
{
    let n = count_unclosed(line);
    let mut out: Vec<char> = Vec::new();
    if n > 0 {
        repeat(&mut out, ')', n as usize);
    }
    assert(out@ =~= missing_parens(line@));
    string_from_chars(&out)
}

fn unexpected_eof(input: &str) -> (r: String)
    ensures
        r@ == line_with_pos_spec(input@, input@.len() as int, input@.len() as int) + error_msg_spec(
            "unexpected EOF"@,
        ) + hint_msg_spec(eof_hint(input@)),
{
    let parens = close_params(input);
    let hint = if count_unclosed(input) > 0 {
        let mut h = String::from_str("unclosed parens, maybe you're missing '");
        h.append(parens.as_str());
        h.append("'?");
        h
    } else {
        String::new()
    };
    proof {
        if paren_balance(input@) <= 0 {
            assert(hint@ =~= eof_hint(input@));
        }
    }
    let n = input.unicode_len();
    let mut r = message(input, n, n, "unexpected EOF");
    let h = print_hint_msg(hint.as_str());
    r.append(h.as_str());
    r
}

fn clamp_exec(n: usize, k: usize) -> (r: usize)
    ensures
        r as int == if k > n { n as int } else { k as int },
{
    if k > n {
        n
    } else {
        k
    }
}

fn message(input: &str, start: usize, end: usize, msg: &str) -> (r: String)
    requires
        start <= input@.len(),
    ensures
        r@ == line_with_pos_spec(input@, start as int, end as int) + error_msg_spec(msg@),
{
    let mut r = print_line_with_pos(input, start, end);
    let m = print_error_msg(msg);
    r.append(m.as_str());
    r
}

/// The rendered message for `err` on source text `input`.
pub fn create_error_message(input: &str, err: &Error) -> (r: String)
    ensures
        r@ == error_message_spec(input@, *err),
{
    let n = input.unicode_len();
    match err {
        Error::NonAsciiChar(p) => {
            let q = clamp_exec(n, *p);
            let mut m = String::from_str("invalid character: ");
            if q < n {
                let c = input.get_char(q);
                let v = vec![c];
                let cs = string_from_chars(&v);
                m.append(cs.as_str());
            }
            m.append(" is not ASCII");
            let r = message(input, q, q, m.as_str());
            proof {
                let q = q as int;
                assert(m@ =~= "invalid character: "@ + (if q < n { seq![input@[q]] } else { Seq::empty() }) + " is not ASCII"@);
            }
            r
        },
        Error::InvalidEscape(a, b) => message(input, clamp_exec(n, *a), clamp_exec(n, *b), "invalid escape"),
        Error::InvalidToken(a, b) => message(input, clamp_exec(n, *a), clamp_exec(n, *b), "invalid token"),
        Error::UnexpectedEofString(_) => {
            let mut r = message(input, n, n, "unexpected EOF\n");
            let h = print_hint_msg("missing closing \", did you forget to terminate a string literal?");
            r.append(h.as_str());
            r
        },
        Error::UnexpectedEofChar(_) => message(input, n, n, "unexpected EOF"),
        Error::UnrecognizedToken(a, b) => message(input, clamp_exec(n, *a), clamp_exec(n, *b), "unrecognized token"),
        Error::UnexpectedEof => unexpected_eof(input),
        Error::RecurInNonTailPosition => print_error_msg("recur in non-tail position"),
    }
}

} // verus!
