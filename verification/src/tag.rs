//! The tag scanner: a non-empty run of ASCII letters and digits.

use vstd::prelude::*;
use vstd::slice::{slice_subrange, slice_to_vec};

use crate::chars::{alnum_run_len, lemma_alnum_run_len, scan_alnum_run};
use crate::error::{err_at, ContextLabel, ErrorKind, ParseError};

verus! {

/// An alphanumeric label.
#[derive(Debug, Clone, PartialEq, Eq)]
pub struct Tag(pub Vec<char>);

impl View for Tag {
    type V = Seq<char>;

    open spec fn view(&self) -> Seq<char> {
        self.0@
    }
}

/// Scans the tag at the front of `input`: one or more ASCII letters or
/// digits.
///
/// Succeeds exactly when the run is non-empty; anything else is left in
/// the remainder.
pub fn tag(input: &[char]) -> (r: Result<(&[char], Tag), ParseError>)
    ensures
        match r {
            Ok((leftover, value)) => {
                &&& alnum_run_len(input@) > 0
                &&& value@ == input@.take(alnum_run_len(input@) as int)
                &&& leftover@ == input@.skip(alnum_run_len(input@) as int)
            },
            Err(e) => {
                &&& alnum_run_len(input@) == 0
                &&& e@ == err_at(ErrorKind::LexicalError, input@.len(), ContextLabel::Tag)
            },
        },
{
    let i = scan_alnum_run(input);
    proof {
        lemma_alnum_run_len(input@);
    }
    if i == 0 {
        Err(ParseError::new(ErrorKind::LexicalError, input.len(), ContextLabel::Tag))
    } else {
        let text = slice_to_vec(slice_subrange(input, 0, i));
        let leftover = slice_subrange(input, i, input.len());
        proof {
            assert(input@.subrange(0, i as int) =~= input@.take(i as int));
            assert(input@.subrange(i as int, input@.len() as int) =~= input@.skip(i as int));
        }
        Ok((leftover, Tag(text)))
    }
}

} // verus!
