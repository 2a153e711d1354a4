//! Completion for an interactive prompt: the bound names that extend the
//! word being typed, and the `)` that would close the line.
use crate::error_printing::{close_params, missing_parens};
use crate::text::{chars_of, views_of};
use vstd::prelude::*;

verus! {

broadcast use vstd::std_specs::vec::group_vec_axioms;

/// The names of `idents` that start with `word`, in order.
pub open spec fn matches_of(idents: Seq<Seq<char>>, word: Seq<char>) -> Seq<Seq<char>>
    decreases idents.len(),
{
    if idents.len() == 0 {
        Seq::empty()
    } else if word.is_prefix_of(idents.last()) {
        matches_of(idents.drop_last(), word).push(idents.last())
    } else {
        matches_of(idents.drop_last(), word)
    }
}

pub open spec fn all_spaces(s: Seq<char>) -> bool {
    forall|i: int| 0 <= i < s.len() ==> s[i] == ' '
}

/// The candidates offered for `word` on `line`: the closing parentheses
/// first where the word is blank, last otherwise.
pub open spec fn candidates_spec(idents: Seq<Seq<char>>, word: Seq<char>, line: Seq<char>) -> Seq<Seq<char>> {
    if all_spaces(word) {
        seq![missing_parens(line)] + matches_of(idents, word)
    } else {
        matches_of(idents, word).push(missing_parens(line))
    }
}

fn starts_with(s: &Vec<char>, prefix: &Vec<char>) -> (r: bool)
    ensures
        r == prefix@.is_prefix_of(s@),
{
    if prefix.len() > s.len() {
        return false;
    }
    let mut i: usize = 0;
    while i < prefix.len()
        invariant
            i <= prefix@.len() <= s@.len(),
            forall|j: int| 0 <= j < i ==> prefix@[j] == s@[j],
        decreases prefix.len() - i,
    {
        if prefix[i] != s[i] {
            return false;
        }
        i = i + 1;
    }
    assert(prefix@ =~= s@.subrange(0, prefix@.len() as int));
    true
}

fn blank(s: &Vec<char>) -> (r: bool)
    ensures
        r == all_spaces(s@),
{
    let mut i: usize = 0;
    while i < s.len()
        invariant
            i <= s@.len(),
            forall|j: int| 0 <= j < i ==> s@[j] == ' ',
        decreases s.len() - i,
    {
        if s[i] != ' ' {
            return false;
        }
        i = i + 1;
    }
    true
}

/// The completions of `word` on `line` among the names `idents`.
pub fn complete(idents: &Vec<String>, word: &str, line: &str) -> (r: Vec<String>)
    ensures
        views_of(r@) == candidates_spec(views_of(idents@), word@, line@),
{
    let w = chars_of(word);
    let close = close_params(line);
    let mut matches: Vec<String> = Vec::new();
    let mut i: usize = 0;
    while i < idents.len()
        invariant
            i <= idents@.len(),
            w@ == word@,
            views_of(matches@) == matches_of(views_of(idents@.subrange(0, i as int)), word@),
        decreases idents.len() - i,
    {
        proof {
            assert(views_of(idents@.subrange(0, i as int + 1)).drop_last() =~= views_of(idents@.subrange(0, i as int)));
        }
        let cs = chars_of(idents[i].as_str());
        if starts_with(&cs, &w) {
            matches.push(idents[i].clone());
            assert(views_of(matches@) =~= matches_of(views_of(idents@.subrange(0, i as int + 1)), word@));
        }
        i = i + 1;
    }
    assert(idents@.subrange(0, i as int) =~= idents@);
    if blank(&w) {
        let mut out: Vec<String> = Vec::new();
        out.push(close);
        out.append(&mut matches);
        assert(views_of(out@) =~= candidates_spec(views_of(idents@), word@, line@));
        out
    } else {
        matches.push(close);
        assert(views_of(matches@) =~= candidates_spec(views_of(idents@), word@, line@));
        matches
    }
}

} // verus!
