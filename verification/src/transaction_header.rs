//! The header line of a transaction: a date at column zero, at least one
//! space, and the rest of the line as free-text description.
//!
//! `transaction_header` accepts a header closed by a line ending or by the
//! end of the input; `header` insists on the line ending.

use vstd::prelude::*;
use vstd::slice::{slice_subrange, slice_to_vec};

use crate::chars::{
    hspace_run_len, lemma_hspace_run_len, lemma_line_break_at, line_break_at, line_end_len,
    rest_of_line_ok, scan_hspace_run, scan_line_break,
};
use crate::date::{date, spec_date, Date};
use crate::error::{err_at, wrapped, ContextLabel, ErrView, ErrorKind, ParseError};
use crate::guards::{content_now, starts_with_content};

verus! {

/// What scanning a header from `s` yields: the consumed length, the date,
/// and the description, or the failure.  With `require_line_ending` the
/// header may not stop at the end of the input.
pub open spec fn spec_header_at(s: Seq<char>, require_line_ending: bool) -> Result<
    (nat, (Date, Seq<char>)),
    ErrView,
> {
    if !content_now(s) {
        Err(
            wrapped(
                err_at(ErrorKind::StructuralError, s.len(), ContextLabel::StartsWithContent),
                ContextLabel::TransactionHeader,
            ),
        )
    } else {
        match spec_date(s) {
            Err(kind) => Err(
                wrapped(err_at(kind, s.len(), ContextLabel::Date), ContextLabel::TransactionHeader),
            ),
            Ok((dlen, d)) => {
                let after = s.skip(dlen as int);
                let ws = hspace_run_len(after);
                if ws == 0 {
                    Err(
                        err_at(
                            ErrorKind::LexicalError,
                            after.len(),
                            ContextLabel::TransactionHeader,
                        ),
                    )
                } else {
                    let rest = after.skip(ws as int);
                    if !rest_of_line_ok(rest) {
                        Err(
                            err_at(
                                ErrorKind::StructuralError,
                                rest.len(),
                                ContextLabel::TransactionHeader,
                            ),
                        )
                    } else {
                        let k = line_break_at(rest);
                        if require_line_ending && k == rest.len() {
                            Err(
                                err_at(
                                    ErrorKind::StructuralError,
                                    0,
                                    ContextLabel::TransactionHeader,
                                ),
                            )
                        } else {
                            Ok(
                                (
                                    (dlen + ws + k + line_end_len(rest)) as nat,
                                    (d, rest.take(k as int)),
                                ),
                            )
                        }
                    }
                }
            },
        }
    }
}

/// The header production closed by a line ending or the end of the input.
pub open spec fn spec_transaction_header(s: Seq<char>) -> Result<
    (nat, (Date, Seq<char>)),
    ErrView,
> {
    spec_header_at(s, false)
}

/// The header production that insists on a line ending.
pub open spec fn spec_header(s: Seq<char>) -> Result<(nat, (Date, Seq<char>)), ErrView> {
    spec_header_at(s, true)
}

/// A successful header consumes at least one character and never runs
/// past the end of the input.
pub proof fn lemma_spec_header_consumed(s: Seq<char>, require_line_ending: bool)
    requires
        spec_header_at(s, require_line_ending) is Ok,
    ensures
        1 <= spec_header_at(s, require_line_ending)->Ok_0.0 <= s.len(),
{
    crate::date::lemma_date_len_le(s);
    let dlen = spec_date(s)->Ok_0.0;
    let after = s.skip(dlen as int);
    lemma_hspace_run_len(after);
    let rest = after.skip(hspace_run_len(after) as int);
    lemma_line_break_at(rest);
}

/// The shared body of the two header scanners.
fn header_core(input: &[char], require_line_ending: bool) -> (r: Result<
    (&[char], (Date, Vec<char>)),
    ParseError,
>)
    ensures
        match r {
            Ok((leftover, value)) => {
                &&& leftover@.len() <= input@.len()
                &&& spec_header_at(input@, require_line_ending) == Ok::<
                    (nat, (Date, Seq<char>)),
                    ErrView,
                >(((input@.len() - leftover@.len()) as nat, (value.0, value.1@)))
                &&& leftover@ == input@.skip((input@.len() - leftover@.len()) as int)
            },
            Err(e) => spec_header_at(input@, require_line_ending) == Err::<
                (nat, (Date, Seq<char>)),
                ErrView,
            >(e@),
        },
{
    if let Err(e) = starts_with_content(input) {
        return Err(e.wrap(ContextLabel::TransactionHeader));
    }
    let (after_date, d) = match date(input) {
        Err(e) => return Err(e.wrap(ContextLabel::TransactionHeader)),
        Ok(x) => x,
    };
    let ghost dlen = crate::date::date_len(input@);
    proof {
        crate::date::lemma_date_len_le(input@);
    }
    let ws = scan_hspace_run(after_date);
    proof {
        lemma_hspace_run_len(after_date@);
    }
    if ws == 0 {
        return Err(
            ParseError::new(
                ErrorKind::LexicalError,
                after_date.len(),
                ContextLabel::TransactionHeader,
            ),
        );
    }
    let rest = slice_subrange(after_date, ws, after_date.len());
    proof {
        assert(rest@ =~= after_date@.skip(ws as int));
    }
    let k = scan_line_break(rest);
    proof {
        lemma_line_break_at(rest@);
    }
    if k < rest.len() && rest[k] == '\r' && !(k + 1 < rest.len() && rest[k + 1] == '\n') {
        return Err(
            ParseError::new(ErrorKind::StructuralError, rest.len(), ContextLabel::TransactionHeader),
        );
    }
    let eol: usize = if k == rest.len() {
        if require_line_ending {
            return Err(
                ParseError::new(ErrorKind::StructuralError, 0, ContextLabel::TransactionHeader),
            );
        }
        0
    } else if rest[k] == '\n' {
        1
    } else {
        2
    };
    let description = slice_to_vec(slice_subrange(rest, 0, k));
    let leftover = slice_subrange(rest, k + eol, rest.len());
    proof {
        assert(description@ =~= rest@.take(k as int));
        assert(after_date@.len() == input@.len() - dlen);
        assert(rest@.len() == after_date@.len() - ws);
        assert(line_end_len(rest@) == eol);
        assert(leftover@ =~= input@.skip((dlen + ws + k + eol) as int));
    }
    Ok((leftover, (d, description)))
}

/// Scans a transaction header: the content guard, a date, one or more
/// spaces, and the description up to a line ending or the end of the
/// input.
pub fn transaction_header(input: &[char]) -> (r: Result<(&[char], (Date, Vec<char>)), ParseError>)
    ensures
        match r {
            Ok((leftover, value)) => {
                &&& leftover@.len() <= input@.len()
                &&& spec_transaction_header(input@) == Ok::<(nat, (Date, Seq<char>)), ErrView>(
                    ((input@.len() - leftover@.len()) as nat, (value.0, value.1@)),
                )
                &&& leftover@ == input@.skip((input@.len() - leftover@.len()) as int)
            },
            Err(e) => spec_transaction_header(input@) == Err::<(nat, (Date, Seq<char>)), ErrView>(
                e@,
            ),
        },
{
    header_core(input, false)
}

/// Scans a transaction header whose line must close with a line ending;
/// the end of the input is not accepted in its place.
pub fn header(input: &[char]) -> (r: Result<(&[char], (Date, Vec<char>)), ParseError>)
    ensures
        match r {
            Ok((leftover, value)) => {
                &&& leftover@.len() <= input@.len()
                &&& spec_header(input@) == Ok::<(nat, (Date, Seq<char>)), ErrView>(
                    ((input@.len() - leftover@.len()) as nat, (value.0, value.1@)),
                )
                &&& leftover@ == input@.skip((input@.len() - leftover@.len()) as int)
            },
            Err(e) => spec_header(input@) == Err::<(nat, (Date, Seq<char>)), ErrView>(e@),
        },
{
    header_core(input, true)
}

} // verus!
