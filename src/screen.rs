use vstd::prelude::*;
use vstd::string::StrSliceExecFns;

use apollo_parser::{Lexer, TokenKind};

verus! {

#[verifier::external_type_specification]
pub struct ExTokenKind(TokenKind);

/// The tokens that apollo_parser's lexer reads from `source`, in order,
/// each as its kind and its text.
pub uninterp spec fn lexed_tokens(source: Seq<char>) -> Seq<(TokenKind, Seq<char>)>;

/// Relies on apollo_parser's `Lexer`: the tokens it reads from `source`,
/// each as its kind and its text; they depend on the text alone.
#[verifier::external_body]
fn lex_tokens(source: &str) -> (r: Vec<(TokenKind, String)>)
    ensures
        r@.len() == lexed_tokens(source@).len(),
        forall|i: int| 0 <= i < r@.len() ==> (#[trigger] r@[i]).0 == lexed_tokens(source@)[i].0
            && r@[i].1@ == lexed_tokens(source@)[i].1,
{
    let mut out = Vec::new();
    for token in Lexer::new(source).lex().0 {
        out.push((token.kind(), token.data().to_string()));
    }
    out
}

/// Whether a token kind is one whose text apollo_compiler reads as a number.
pub open spec fn is_number_kind(k: TokenKind) -> bool {
    k == TokenKind::Int || k == TokenKind::Float
}

fn number_kind(k: TokenKind) -> (r: bool)
    ensures
        r == is_number_kind(k),
{
    match k {
        TokenKind::Int => true,
        TokenKind::Float => true,
        _ => false,
    }
}

pub open spec fn is_digit(c: char) -> bool {
    '0' <= c && c <= '9'
}

pub open spec fn is_sign(c: char) -> bool {
    c == '+' || c == '-'
}

/// The first index at or after `i` that does not hold a decimal digit.
pub open spec fn digits_end(s: Seq<char>, i: int) -> int
    decreases s.len() - i,
{
    if 0 <= i < s.len() && is_digit(s[i]) {
        digits_end(s, i + 1)
    } else {
        i
    }
}

/// Whether `s` is a number that `f64::from_str` reads: an optional sign,
/// one digit or more, optionally `.` and digits, and optionally an exponent
/// marker with an optional sign and one digit or more.
pub open spec fn well_formed_number(s: Seq<char>) -> bool {
    let i0: int = if s.len() > 0 && is_sign(s[0]) { 1 } else { 0 };
    let i1 = digits_end(s, i0);
    let i2 = if i1 < s.len() && s[i1] == '.' { digits_end(s, i1 + 1) } else { i1 };
    let i3: int = if i2 < s.len() && (s[i2] == 'e' || s[i2] == 'E') {
        if i2 + 1 < s.len() && is_sign(s[i2 + 1]) { i2 + 2 } else { i2 + 1 }
    } else {
        i2
    };
    let i4 = digits_end(s, i3);
    &&& i1 > i0
    &&& (i3 > i2 ==> i4 > i3)
    &&& i4 == s.len()
}

/// Whether every Int and Float token of `source` is a well-formed number.
/// apollo_compiler reads each such token that stands as a value with
/// `f64::from_str` and panics where that fails, as on `1e` or a lone `-`.
pub open spec fn numbers_well_formed(source: Seq<char>) -> bool {
    forall|i: int| 0 <= i < lexed_tokens(source).len() && is_number_kind((#[trigger] lexed_tokens(source)[i]).0)
        ==> well_formed_number(lexed_tokens(source)[i].1)
}

proof fn lemma_digits_end_bounds(s: Seq<char>, i: int)
    requires
        0 <= i <= s.len(),
    ensures
        i <= digits_end(s, i) <= s.len(),
    decreases s.len() - i,
{
    if i < s.len() && is_digit(s[i]) {
        lemma_digits_end_bounds(s, i + 1);
    }
}

fn digit_at(s: &str, i: usize) -> (r: bool)
    requires
        i < s@.len(),
    ensures
        r == is_digit(s@[i as int]),
{
    let c = s.get_char(i);
    '0' <= c && c <= '9'
}

fn skip_digits(s: &str, n: usize, i: usize) -> (r: usize)
    requires
        n == s@.len(),
        i <= n,
    ensures
        r as int == digits_end(s@, i as int),
        i <= r <= n,
{
    let mut j: usize = i;
    while j < n && digit_at(s, j)
        invariant
            i <= j <= n,
            n == s@.len(),
            digits_end(s@, j as int) == digits_end(s@, i as int),
        decreases n - j,
    {
        j = j + 1;
    }
    proof { lemma_digits_end_bounds(s@, j as int); }
    j
}

/// Whether `s` is a number that `f64::from_str` reads.
pub fn is_well_formed_number(s: &str) -> (r: bool)
    ensures
        r == well_formed_number(s@),
{
    let n = s.unicode_len();
    let i0: usize = if n > 0 && (s.get_char(0) == '+' || s.get_char(0) == '-') { 1 } else { 0 };
    let i1 = skip_digits(s, n, i0);
    let i2 = if i1 < n && s.get_char(i1) == '.' { skip_digits(s, n, i1 + 1) } else { i1 };
    let i3: usize = if i2 < n && (s.get_char(i2) == 'e' || s.get_char(i2) == 'E') {
        if i2 + 1 < n && (s.get_char(i2 + 1) == '+' || s.get_char(i2 + 1) == '-') { i2 + 2 } else { i2 + 1 }
    } else {
        i2
    };
    let i4 = skip_digits(s, n, i3);
    i1 > i0 && (i3 == i2 || i4 > i3) && i4 == n
}

/// Whether every number token of `source` is well formed, so that
/// apollo_compiler can read it.
pub fn numbers_are_well_formed(source: &str) -> (r: bool)
    ensures
        r == numbers_well_formed(source@),
{
    let tokens = lex_tokens(source);
    let mut i: usize = 0;
    while i < tokens.len()
        invariant
            0 <= i <= tokens@.len(),
            tokens@.len() == lexed_tokens(source@).len(),
            forall|k: int| 0 <= k < tokens@.len() ==> (#[trigger] tokens@[k]).0 == lexed_tokens(source@)[k].0
                && tokens@[k].1@ == lexed_tokens(source@)[k].1,
            forall|k: int| 0 <= k < i && is_number_kind((#[trigger] lexed_tokens(source@)[k]).0)
                ==> well_formed_number(lexed_tokens(source@)[k].1),
        decreases tokens@.len() - i,
    {
        let ghost k = i as int;
        assert(tokens@[k].0 == lexed_tokens(source@)[k].0);
        if number_kind(tokens[i].0) && !is_well_formed_number(tokens[i].1.as_str()) {
            return false;
        }
        i = i + 1;
    }
    true
}

} // verus!
