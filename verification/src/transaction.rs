//! A transaction: a header line followed by one or more postings.
//!
//! The posting list is committed by indentation: every indented line after
//! the header must scan as a posting, and the list ends at the first
//! unindented line, blank line, or end of input.  A header with no posting
//! after it is a structural error.

use vstd::prelude::*;

use crate::date::Date;
use crate::error::{err_at, wrapped, ContextLabel, ErrView, ErrorKind, ParseError};
use crate::guards::{indent_now, is_indented};
use crate::posting::{lemma_spec_posting_consumed, posting, spec_posting, Posting, PostingView};
use crate::transaction_header::{spec_transaction_header, transaction_header};

verus! {

/// The mathematical image of a `Transaction`.
pub struct TransactionView {
    pub date: Date,
    pub description: Seq<char>,
    pub postings: Seq<PostingView>,
}

/// A dated header and its postings.
#[derive(Debug, Clone, PartialEq, Eq)]
pub struct Transaction {
    pub date: Date,
    pub description: Vec<char>,
    pub postings: Vec<Posting>,
}

impl View for Transaction {
    type V = TransactionView;

    open spec fn view(&self) -> TransactionView {
        TransactionView {
            date: self.date,
            description: self.description@,
            postings: self.postings@.map_values(|p: Posting| p@),
        }
    }
}

/// What scanning postings from `s` yields, as long as lines keep being
/// indented: the consumed length and the postings.  An indented line that
/// does not scan as a posting fails the whole list.
pub open spec fn spec_postings(s: Seq<char>) -> Result<(nat, Seq<PostingView>), ErrView>
    decreases s.len(),
{
    if !indent_now(s) {
        Ok((0, Seq::empty()))
    } else {
        match spec_posting(s) {
            Err(e) => Err(e),
            Ok((n, p)) => {
                proof {
                    lemma_spec_posting_consumed(s);
                }
                match spec_postings(s.skip(n as int)) {
                    Err(e) => Err(e),
                    Ok((m, ps)) => Ok(((n + m) as nat, seq![p] + ps)),
                }
            },
        }
    }
}

/// The postings of `s` never run past the end of the input.
pub proof fn lemma_spec_postings_consumed(s: Seq<char>)
    requires
        spec_postings(s) is Ok,
    ensures
        spec_postings(s)->Ok_0.0 <= s.len(),
    decreases s.len(),
{
    if indent_now(s) && spec_posting(s) is Ok {
        lemma_spec_posting_consumed(s);
        let n = spec_posting(s)->Ok_0.0;
        lemma_spec_postings_consumed(s.skip(n as int));
    }
}

/// A successful transaction consumes at least its header and never runs
/// past the end of the input.
pub proof fn lemma_spec_transaction_consumed(s: Seq<char>)
    requires
        spec_transaction(s) is Ok,
    ensures
        1 <= spec_transaction(s)->Ok_0.0 <= s.len(),
{
    crate::transaction_header::lemma_spec_header_consumed(s, false);
    let hlen = spec_transaction_header(s)->Ok_0.0;
    lemma_spec_postings_consumed(s.skip(hlen as int));
}

/// What scanning a transaction from `s` yields: the consumed length and
/// the transaction, or the failure.  A valid header followed by zero
/// postings is a structural error reported just past the header.
pub open spec fn spec_transaction(s: Seq<char>) -> Result<(nat, TransactionView), ErrView> {
    match spec_transaction_header(s) {
        Err(e) => Err(wrapped(e, ContextLabel::Transaction)),
        Ok((hlen, (d, desc))) => match spec_postings(s.skip(hlen as int)) {
            Err(e) => Err(wrapped(e, ContextLabel::Transaction)),
            Ok((plen, ps)) => {
                if ps.len() == 0 {
                    Err(
                        err_at(
                            ErrorKind::StructuralError,
                            (s.len() - hlen) as nat,
                            ContextLabel::Transaction,
                        ),
                    )
                } else {
                    Ok(
                        (
                            (hlen + plen) as nat,
                            TransactionView { date: d, description: desc, postings: ps },
                        ),
                    )
                }
            },
        },
    }
}

/// Scans the transaction at the front of `input`: a header, then one or
/// more postings.
pub fn transaction(input: &[char]) -> (r: Result<(&[char], Transaction), ParseError>)
    ensures
        match r {
            Ok((leftover, value)) => {
                &&& leftover@.len() <= input@.len()
                &&& spec_transaction(input@) == Ok::<(nat, TransactionView), ErrView>(
                    ((input@.len() - leftover@.len()) as nat, value@),
                )
                &&& leftover@ == input@.skip((input@.len() - leftover@.len()) as int)
            },
            Err(e) => spec_transaction(input@) == Err::<(nat, TransactionView), ErrView>(e@),
        },
{
    let (after_header, (date, description)) = match transaction_header(input) {
        Err(e) => return Err(e.wrap(ContextLabel::Transaction)),
        Ok(x) => x,
    };
    let ghost hlen = (input@.len() - after_header@.len()) as nat;
    let mut postings: Vec<Posting> = Vec::new();
    let mut cur: &[char] = after_header;
    let ghost mut done: nat = 0;
    proof {
        assert(postings@.map_values(|p: Posting| p@) =~= Seq::<PostingView>::empty());
    }
    while is_indented(cur)
        invariant
            spec_transaction_header(input@) == Ok::<(nat, (Date, Seq<char>)), ErrView>(
                (hlen, (date, description@)),
            ),
            after_header@ == input@.skip(hlen as int),
            hlen <= input@.len(),
            cur@ == after_header@.skip(done as int),
            done <= after_header@.len(),
            match spec_postings(cur@) {
                Ok((m, ps)) => spec_postings(after_header@) == Ok::<
                    (nat, Seq<PostingView>),
                    ErrView,
                >(((done + m) as nat, postings@.map_values(|p: Posting| p@) + ps)),
                Err(e) => spec_postings(after_header@) == Err::<
                    (nat, Seq<PostingView>),
                    ErrView,
                >(e),
            },
        decreases cur@.len(),
    {
        let (next, p) = match posting(cur) {
            Err(e) => return Err(e.wrap(ContextLabel::Transaction)),
            Ok(x) => x,
        };
        proof {
            lemma_spec_posting_consumed(cur@);
        }
        let ghost n = (cur@.len() - next@.len()) as nat;
        let ghost old_ps = postings@;
        postings.push(p);
        proof {
            let prior = old_ps.map_values(|q: Posting| q@);
            assert(postings@.map_values(|q: Posting| q@) =~= prior.push(p@));
            assert(next@ =~= after_header@.skip((done + n) as int));
            if spec_postings(next@) is Ok {
                let (m, ps) = spec_postings(next@)->Ok_0;
                assert(prior.push(p@) + ps =~= prior + (seq![p@] + ps));
            }
        }
        cur = next;
        proof {
            done = (done + n) as nat;
        }
    }
    proof {
        assert(spec_postings(cur@) == Ok::<(nat, Seq<PostingView>), ErrView>(
            (0, Seq::<PostingView>::empty()),
        ));
        assert(postings@.map_values(|p: Posting| p@) + Seq::<PostingView>::empty()
            =~= postings@.map_values(|p: Posting| p@));
    }
    if postings.len() == 0 {
        return Err(
            ParseError::new(ErrorKind::StructuralError, cur.len(), ContextLabel::Transaction),
        );
    }
    proof {
        assert(cur@ =~= input@.skip((hlen + done) as int));
    }
    Ok((cur, Transaction { date, description, postings }))
}

} // verus!
