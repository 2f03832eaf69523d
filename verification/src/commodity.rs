//! The commodity scanner: a non-empty symbol such as a currency code or
//! `$`, ending in front of punctuation, digits, whitespace, or a line
//! ending.

use vstd::prelude::*;
use vstd::slice::{slice_subrange, slice_to_vec};

use crate::chars::{is_digit, is_hspace};
use crate::error::{err_at, ContextLabel, ErrorKind, ParseError};

verus! {

/// A commodity symbol.
#[derive(Debug, Clone, PartialEq, Eq)]
pub struct Commodity(pub Vec<char>);

impl View for Commodity {
    type V = Seq<char>;

    open spec fn view(&self) -> Seq<char> {
        self.0@
    }
}

/// Whether the front of `s` ends a commodity: punctuation that may follow
/// a symbol in an amount expression, a digit, whitespace, a line ending,
/// or the end of the input.
pub open spec fn commodity_delim_now(s: Seq<char>) -> bool {
    ||| s.len() == 0
    ||| s[0] == '.'
    ||| s[0] == ','
    ||| s[0] == '/'
    ||| s[0] == '@'
    ||| is_digit(s[0])
    ||| is_hspace(s[0])
    ||| s[0] == '\n'
    ||| (s[0] == '\r' && s.len() >= 2 && s[1] == '\n')
}

/// How many characters the commodity at the front of `s` spans.
pub open spec fn commodity_len(s: Seq<char>) -> nat
    decreases s.len(),
{
    if commodity_delim_now(s) {
        0
    } else {
        1 + commodity_len(s.skip(1))
    }
}

/// A commodity never runs past the end of the input.
pub proof fn lemma_commodity_len_le(s: Seq<char>)
    ensures
        commodity_len(s) <= s.len(),
    decreases s.len(),
{
    if !commodity_delim_now(s) {
        lemma_commodity_len_le(s.skip(1));
    }
}

/// Whether the commodity terminator test holds `at` characters into `input`.
fn commodity_delim(input: &[char], at: usize) -> (r: bool)
    requires
        at <= input@.len(),
    ensures
        r == commodity_delim_now(input@.skip(at as int)),
{
    if at == input.len() {
        return true;
    }
    let c = input[at];
    assert(input@.skip(at as int)[0] == input@[at as int]);
    assert(at + 1 < input@.len() ==> input@.skip(at as int)[1] == input@[at as int + 1]);
    if c == '.' || c == ',' || c == '/' || c == '@' || c == '\n' {
        true
    } else if ('0' <= c && c <= '9') || c == ' ' || c == '\t' {
        true
    } else if c == '\r' {
        at + 1 < input.len() && input[at + 1] == '\n'
    } else {
        false
    }
}

/// Scans the commodity at the front of `input`.
///
/// Succeeds exactly when at least one character stands before the first
/// terminator, so `$50` yields the commodity `$` with `50` left over.  On
/// an input that begins with a terminator the failure is a lexical error.
pub fn commodity(input: &[char]) -> (r: Result<(&[char], Commodity), ParseError>)
    ensures
        match r {
            Ok((leftover, value)) => {
                &&& commodity_len(input@) > 0
                &&& value@ == input@.take(commodity_len(input@) as int)
                &&& leftover@ == input@.skip(commodity_len(input@) as int)
            },
            Err(e) => {
                &&& commodity_len(input@) == 0
                &&& e@ == err_at(ErrorKind::LexicalError, input@.len(), ContextLabel::Commodity)
            },
        },
{
    let n = input.len();
    let mut i: usize = 0;
    proof {
        assert(input@.skip(0) =~= input@);
    }
    while !commodity_delim(input, i)
        invariant
            n == input@.len(),
            0 <= i <= n,
            commodity_len(input@) == i + commodity_len(input@.skip(i as int)),
        decreases input@.len() - i,
    {
        proof {
            assert(input@.skip(i as int).len() == input@.len() - i);
            lemma_commodity_len_le(input@.skip(i as int));
            assert(input@.skip(i as int).skip(1) =~= input@.skip(i as int + 1));
        }
        i = i + 1;
    }
    if i == 0 {
        Err(ParseError::new(ErrorKind::LexicalError, input.len(), ContextLabel::Commodity))
    } else {
        let text = slice_to_vec(slice_subrange(input, 0, i));
        let leftover = slice_subrange(input, i, input.len());
        proof {
            assert(input@.subrange(0, i as int) =~= input@.take(i as int));
            assert(input@.subrange(i as int, input@.len() as int) =~= input@.skip(i as int));
        }
        Ok((leftover, Commodity(text)))
    }
}

} // verus!
