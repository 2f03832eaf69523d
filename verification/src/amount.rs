//! The amount scanner: a run of digits, optionally followed by a decimal
//! point and a second run of digits.
//!
//! The value is kept as its digit runs, which represents any
//! arbitrary-precision non-negative decimal exactly.  When the decimal
//! point is not followed by at least one digit, neither the point nor
//! anything after it is consumed: the point stays in the remainder.

use vstd::prelude::*;
use vstd::slice::{slice_subrange, slice_to_vec};

use crate::chars::{digit_run_len, is_digit, lemma_digit_run_len, scan_digit_run};
use crate::error::{err_at, ContextLabel, ErrorKind, ParseError};

verus! {

/// The mathematical image of an `Amount`.
pub struct AmountView {
    pub integer: Seq<char>,
    pub fraction: Seq<char>,
}

/// A sign-less decimal value: its integer digit run and its fractional
/// digit run, the latter empty when no fractional group was consumed.
#[derive(Debug, Clone, PartialEq, Eq)]
pub struct Amount {
    pub integer: Vec<char>,
    pub fraction: Vec<char>,
}

impl View for Amount {
    type V = AmountView;

    open spec fn view(&self) -> AmountView {
        AmountView { integer: self.integer@, fraction: self.fraction@ }
    }
}

/// Whether a fractional group follows the integer digits of `s`: a decimal
/// point with at least one digit directly after it.
pub open spec fn frac_present(s: Seq<char>) -> bool {
    let d = digit_run_len(s);
    &&& d < s.len()
    &&& s[d as int] == '.'
    &&& d + 1 < s.len()
    &&& is_digit(s[d + 1int])
}

/// How many characters the amount at the front of `s` spans.
pub open spec fn amount_len(s: Seq<char>) -> nat {
    if frac_present(s) {
        digit_run_len(s) + 1 + digit_run_len(s.skip(digit_run_len(s) + 1int))
    } else {
        digit_run_len(s)
    }
}

/// The integer digit run of the amount at the front of `s`.
pub open spec fn amount_integer(s: Seq<char>) -> Seq<char> {
    s.take(digit_run_len(s) as int)
}

/// The fractional digit run of the amount at the front of `s`; empty when
/// no fractional group is consumed.
pub open spec fn amount_fraction(s: Seq<char>) -> Seq<char> {
    if frac_present(s) {
        s.skip(digit_run_len(s) + 1int).take(digit_run_len(s.skip(digit_run_len(s) + 1int)) as int)
    } else {
        Seq::empty()
    }
}

/// Scans the amount at the front of `input`.
///
/// Succeeds exactly when the input begins with a digit.  A decimal point
/// with no digit after it is not consumed.
pub fn amount(input: &[char]) -> (r: Result<(&[char], Amount), ParseError>)
    ensures
        match r {
            Ok((leftover, value)) => {
                &&& digit_run_len(input@) > 0
                &&& value@.integer == amount_integer(input@)
                &&& value@.fraction == amount_fraction(input@)
                &&& leftover@ == input@.skip(amount_len(input@) as int)
            },
            Err(e) => {
                &&& digit_run_len(input@) == 0
                &&& e@ == err_at(ErrorKind::LexicalError, input@.len(), ContextLabel::Amount)
            },
        },
{
    let d = scan_digit_run(input);
    proof {
        lemma_digit_run_len(input@);
    }
    if d == 0 {
        return Err(ParseError::new(ErrorKind::LexicalError, input.len(), ContextLabel::Amount));
    }
    let integer = slice_to_vec(slice_subrange(input, 0, d));
    proof {
        assert(integer@ =~= amount_integer(input@));
    }
    let frac_now = d < input.len() && input[d] == '.' && d + 1 < input.len() && {
        let c = input[d + 1];
        '0' <= c && c <= '9'
    };
    if frac_now {
        let after_dot = slice_subrange(input, d + 1, input.len());
        proof {
            assert(after_dot@ =~= input@.skip(d + 1int));
        }
        let f = scan_digit_run(after_dot);
        proof {
            lemma_digit_run_len(input@.skip(d + 1int));
        }
        let fraction = slice_to_vec(slice_subrange(input, d + 1, d + 1 + f));
        let leftover = slice_subrange(input, d + 1 + f, input.len());
        proof {
            assert(fraction@ =~= amount_fraction(input@));
            assert(leftover@ =~= input@.skip(amount_len(input@) as int));
        }
        Ok((leftover, Amount { integer, fraction }))
    } else {
        let leftover = slice_subrange(input, d, input.len());
        proof {
            assert(leftover@ =~= input@.skip(amount_len(input@) as int));
        }
        Ok((leftover, Amount { integer, fraction: Vec::new() }))
    }
}

} // verus!
