//! One leg of a transaction: an indented line holding an account, an
//! optional virtual-account bracketing, and the rest of the line as value
//! text.

use vstd::prelude::*;
use vstd::slice::{slice_subrange, slice_to_vec};

use crate::account::{account, account_len, lemma_account_tail_len_le, Account};
use crate::chars::{
    lemma_line_break_at, line_break_at, line_end_len, rest_of_line_ok, scan_line_break,
};
use crate::error::{err_at, wrapped, ContextLabel, ErrView, ErrorKind, ParseError};
use crate::guards::{indent_len, indent_now, indented, lemma_indent_len_le};
use crate::identifier::{ident_len, lemma_ident_len_le};

verus! {

/// How a posting takes part in balancing: a real leg, a virtual leg in
/// parentheses, or a balanced virtual leg in square brackets.
#[derive(Debug, Clone, Copy, PartialEq, Eq, Structural)]
pub enum PostingType {
    Actual,
    Virtual,
    VirtualBalanced,
}

/// The mathematical image of a `Posting`.
pub struct PostingView {
    pub account: Seq<char>,
    pub value_expression: Seq<char>,
    pub posting_type: PostingType,
}

/// One leg of a transaction.
#[derive(Debug, Clone, PartialEq, Eq)]
pub struct Posting {
    pub account: Account,
    pub value_expression: Vec<char>,
    pub posting_type: PostingType,
}

impl View for Posting {
    type V = PostingView;

    open spec fn view(&self) -> PostingView {
        PostingView {
            account: self.account@,
            value_expression: self.value_expression@,
            posting_type: self.posting_type,
        }
    }
}

/// How many characters the opening marker at the front of `s` spans.
pub open spec fn open_marker_len(s: Seq<char>) -> nat {
    if s.len() > 0 && (s[0] == '(' || s[0] == '[') {
        1
    } else {
        0
    }
}

/// How many characters the closing marker at the front of `s` spans.
pub open spec fn close_marker_len(s: Seq<char>) -> nat {
    if s.len() > 0 && (s[0] == ')' || s[0] == ']') {
        1
    } else {
        0
    }
}

/// The posting kind named by the markers around the account, if the
/// combination is allowed: none at all, `(` with `)`, or `[` with `]`.
/// Any other combination of present markers is malformed.
pub open spec fn marker_type(before: Seq<char>, after: Seq<char>) -> Option<PostingType> {
    let open = open_marker_len(before) == 1;
    let close = close_marker_len(after) == 1;
    if !open && !close {
        Some(PostingType::Actual)
    } else if open && close && before[0] == '(' && after[0] == ')' {
        Some(PostingType::Virtual)
    } else if open && close && before[0] == '[' && after[0] == ']' {
        Some(PostingType::VirtualBalanced)
    } else {
        None
    }
}

/// What scanning a posting from `s` yields: the consumed length and the
/// posting, or the failure.
///
/// The line must be indented.  After the account and its optional closing
/// marker, either a second stretch of indentation separates the account
/// from the value text, or the line closes at once and the value text is
/// empty.
pub open spec fn spec_posting(s: Seq<char>) -> Result<(nat, PostingView), ErrView> {
    if !indent_now(s) {
        Err(
            wrapped(
                err_at(ErrorKind::StructuralError, s.len(), ContextLabel::Indentation),
                ContextLabel::Posting,
            ),
        )
    } else {
        let s1 = s.skip(indent_len(s) as int);
        let s2 = s1.skip(open_marker_len(s1) as int);
        if ident_len(s2) == 0 {
            Err(
                wrapped(
                    wrapped(
                        err_at(ErrorKind::LexicalError, s2.len(), ContextLabel::Identifier),
                        ContextLabel::Account,
                    ),
                    ContextLabel::Posting,
                ),
            )
        } else {
            let s3 = s2.skip(account_len(s2) as int);
            let s4 = s3.skip(close_marker_len(s3) as int);
            match marker_type(s1, s3) {
                None => Err(err_at(ErrorKind::StructuralError, s.len(), ContextLabel::Posting)),
                Some(ptype) => spec_posting_value(s, s2, s4, ptype),
            }
        }
    }
}

/// The value part of a posting: the second indentation and the rest of
/// the line, or an immediate line end with an empty value.  `s` is the
/// whole posting, `s2` the input at the account, `s4` the input past the
/// closing marker.
pub open spec fn spec_posting_value(
    s: Seq<char>,
    s2: Seq<char>,
    s4: Seq<char>,
    ptype: PostingType,
) -> Result<(nat, PostingView), ErrView> {
    let acct = s2.take(account_len(s2) as int);
    if indent_now(s4) {
        let s5 = s4.skip(indent_len(s4) as int);
        if !rest_of_line_ok(s5) {
            Err(err_at(ErrorKind::StructuralError, s5.len(), ContextLabel::Posting))
        } else {
            let k = line_break_at(s5);
            Ok(
                (
                    (s.len() - s5.len() + k + line_end_len(s5)) as nat,
                    PostingView {
                        account: acct,
                        value_expression: s5.take(k as int),
                        posting_type: ptype,
                    },
                ),
            )
        }
    } else if s4.len() == 0 {
        Ok(
            (
                s.len() as nat,
                PostingView { account: acct, value_expression: Seq::empty(), posting_type: ptype },
            ),
        )
    } else if s4[0] == '\n' {
        Ok(
            (
                (s.len() - s4.len() + 1) as nat,
                PostingView { account: acct, value_expression: Seq::empty(), posting_type: ptype },
            ),
        )
    } else if s4[0] == '\r' && s4.len() >= 2 && s4[1] == '\n' {
        Ok(
            (
                (s.len() - s4.len() + 2) as nat,
                PostingView { account: acct, value_expression: Seq::empty(), posting_type: ptype },
            ),
        )
    } else {
        Err(
            wrapped(
                err_at(ErrorKind::StructuralError, s4.len(), ContextLabel::Indentation),
                ContextLabel::Posting,
            ),
        )
    }
}

/// A successful posting consumes at least its indentation and never runs
/// past the end of the input.
pub proof fn lemma_spec_posting_consumed(s: Seq<char>)
    requires
        spec_posting(s) is Ok,
    ensures
        1 <= spec_posting(s)->Ok_0.0 <= s.len(),
{
    lemma_indent_len_le(s);
    let s1 = s.skip(indent_len(s) as int);
    let s2 = s1.skip(open_marker_len(s1) as int);
    lemma_ident_len_le(s2);
    lemma_account_tail_len_le(s2.skip(ident_len(s2) as int));
    let s3 = s2.skip(account_len(s2) as int);
    let s4 = s3.skip(close_marker_len(s3) as int);
    if indent_now(s4) {
        lemma_indent_len_le(s4);
        let s5 = s4.skip(indent_len(s4) as int);
        lemma_line_break_at(s5);
    }
}

/// Scans the value part of a posting: `input` is the whole posting,
/// `s4` the input just past the closing marker, and `acct` the account
/// already scanned from the ghost suffix `s2`.
fn posting_value<'a>(
    input: &'a [char],
    s4: &'a [char],
    acct: Account,
    ptype: PostingType,
    Ghost(s2): Ghost<Seq<char>>,
) -> (r: Result<(&'a [char], Posting), ParseError>)
    requires
        s4@.len() <= input@.len(),
        s4@ == input@.skip((input@.len() - s4@.len()) as int),
        acct@ == s2.take(account_len(s2) as int),
    ensures
        match r {
            Ok((leftover, value)) => {
                &&& leftover@.len() <= input@.len()
                &&& spec_posting_value(input@, s2, s4@, ptype) == Ok::<(nat, PostingView), ErrView>(
                    ((input@.len() - leftover@.len()) as nat, value@),
                )
                &&& leftover@ == input@.skip((input@.len() - leftover@.len()) as int)
            },
            Err(e) => spec_posting_value(input@, s2, s4@, ptype) == Err::<
                (nat, PostingView),
                ErrView,
            >(e@),
        },
{
    match indented(s4) {
        Ok((s5, _)) => {
            proof {
                lemma_indent_len_le(s4@);
            }
            let k = scan_line_break(s5);
            proof {
                lemma_line_break_at(s5@);
            }
            if k < s5.len() && s5[k] == '\r' && !(k + 1 < s5.len() && s5[k + 1] == '\n') {
                return Err(
                    ParseError::new(ErrorKind::StructuralError, s5.len(), ContextLabel::Posting),
                );
            }
            let eol: usize = if k == s5.len() {
                0
            } else if s5[k] == '\n' {
                1
            } else {
                2
            };
            let value_expression = slice_to_vec(slice_subrange(s5, 0, k));
            let leftover = slice_subrange(s5, k + eol, s5.len());
            proof {
                assert(value_expression@ =~= s5@.take(k as int));
                assert(line_end_len(s5@) == eol);
                assert(leftover@ =~= input@.skip(input@.len() - s5@.len() + k + eol));
            }
            Ok((leftover, Posting { account: acct, value_expression, posting_type: ptype }))
        },
        Err(ind_err) => {
            let eol: usize = if s4.len() == 0 {
                0
            } else if s4[0] == '\n' {
                1
            } else if s4[0] == '\r' && s4.len() >= 2 && s4[1] == '\n' {
                2
            } else {
                return Err(ind_err.wrap(ContextLabel::Posting));
            };
            let leftover = slice_subrange(s4, eol, s4.len());
            proof {
                assert(leftover@ =~= input@.skip(input@.len() - s4@.len() + eol));
            }
            Ok(
                (
                    leftover,
                    Posting {
                        account: acct,
                        value_expression: Vec::new(),
                        posting_type: ptype,
                    },
                ),
            )
        },
    }
}

/// Scans the posting at the front of `input`.
pub fn posting(input: &[char]) -> (r: Result<(&[char], Posting), ParseError>)
    ensures
        match r {
            Ok((leftover, value)) => {
                &&& leftover@.len() <= input@.len()
                &&& spec_posting(input@) == Ok::<(nat, PostingView), ErrView>(
                    ((input@.len() - leftover@.len()) as nat, value@),
                )
                &&& leftover@ == input@.skip((input@.len() - leftover@.len()) as int)
            },
            Err(e) => spec_posting(input@) == Err::<(nat, PostingView), ErrView>(e@),
        },
{
    let s1 = match indented(input) {
        Err(e) => return Err(e.wrap(ContextLabel::Posting)),
        Ok((s1, _)) => s1,
    };
    proof {
        lemma_indent_len_le(input@);
    }
    let open_present = s1.len() > 0 && (s1[0] == '(' || s1[0] == '[');
    let s2 = if open_present {
        slice_subrange(s1, 1, s1.len())
    } else {
        s1
    };
    proof {
        assert(s2@ =~= s1@.skip(open_marker_len(s1@) as int));
    }
    let (s3, acct) = match account(s2) {
        Err(e) => return Err(e.wrap(ContextLabel::Posting)),
        Ok(x) => x,
    };
    proof {
        lemma_ident_len_le(s2@);
        lemma_account_tail_len_le(s2@.skip(ident_len(s2@) as int));
    }
    let close_present = s3.len() > 0 && (s3[0] == ')' || s3[0] == ']');
    let s4 = if close_present {
        slice_subrange(s3, 1, s3.len())
    } else {
        s3
    };
    proof {
        assert(s4@ =~= s3@.skip(close_marker_len(s3@) as int));
    }
    let ptype: PostingType = if !open_present && !close_present {
        PostingType::Actual
    } else if open_present && close_present && s1[0] == '(' && s3[0] == ')' {
        PostingType::Virtual
    } else if open_present && close_present && s1[0] == '[' && s3[0] == ']' {
        PostingType::VirtualBalanced
    } else {
        return Err(ParseError::new(ErrorKind::StructuralError, input.len(), ContextLabel::Posting));
    };
    proof {
        assert(s4@ == input@.skip((input@.len() - s4@.len()) as int)) by {
            assert(s4@ =~= input@.skip((input@.len() - s4@.len()) as int));
        }
    }
    posting_value(input, s4, acct, ptype, Ghost(s2@))
}

} // verus!
