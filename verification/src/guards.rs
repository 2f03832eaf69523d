//! Zero-width and indentation guards that decide which grammar alternative
//! a line belongs to.

use vstd::prelude::*;
use vstd::slice::slice_subrange;

use crate::chars::{hspace_run_len, is_hspace, scan_hspace_run};
use crate::error::{err_at, ContextLabel, ErrorKind, ParseError};

verus! {

/// Whether the current position carries content: not whitespace, not a
/// line ending, and not the end of the input.
pub open spec fn content_now(s: Seq<char>) -> bool {
    &&& s.len() > 0
    &&& !is_hspace(s[0])
    &&& s[0] != '\n'
    &&& !(s[0] == '\r' && s.len() >= 2 && s[1] == '\n')
}

/// Whether the input starts with indentation: a single tab or two
/// consecutive spaces.
pub open spec fn indent_now(s: Seq<char>) -> bool {
    ||| (s.len() > 0 && s[0] == '\t')
    ||| (s.len() >= 2 && s[0] == ' ' && s[1] == ' ')
}

/// How many characters the indentation at the front of `s` spans: the tab
/// or the two spaces, and any further horizontal whitespace.  Zero when
/// the input is not indented.
pub open spec fn indent_len(s: Seq<char>) -> nat {
    if s.len() > 0 && s[0] == '\t' {
        1 + hspace_run_len(s.skip(1))
    } else if s.len() >= 2 && s[0] == ' ' && s[1] == ' ' {
        2 + hspace_run_len(s.skip(2))
    } else {
        0
    }
}

/// The indentation never runs past the end of the input.
pub proof fn lemma_indent_len_le(s: Seq<char>)
    ensures
        indent_len(s) <= s.len(),
        indent_now(s) ==> indent_len(s) >= 1,
{
    if s.len() > 0 && s[0] == '\t' {
        crate::chars::lemma_hspace_run_len(s.skip(1));
    } else if s.len() >= 2 && s[0] == ' ' && s[1] == ' ' {
        crate::chars::lemma_hspace_run_len(s.skip(2));
    }
}

/// Whether the input starts with indentation, without consuming it.
pub fn is_indented(input: &[char]) -> (r: bool)
    ensures
        r == indent_now(input@),
{
    (input.len() > 0 && input[0] == '\t') || (input.len() >= 2 && input[0] == ' ' && input[1]
        == ' ')
}

/// The zero-width guard that a top-level construct begins here.
///
/// Succeeds, consuming nothing, exactly when the position is not
/// whitespace, not a line ending, and not the end of the input.
pub fn starts_with_content(input: &[char]) -> (r: Result<(&[char], ()), ParseError>)
    ensures
        match r {
            Ok((leftover, _)) => content_now(input@) && leftover@ == input@,
            Err(e) => !content_now(input@) && e@ == err_at(
                ErrorKind::StructuralError,
                input@.len(),
                ContextLabel::StartsWithContent,
            ),
        },
{
    let ok = if input.len() == 0 {
        false
    } else {
        let c = input[0];
        !(c == ' ' || c == '\t' || c == '\n' || (c == '\r' && input.len() >= 2 && input[1]
            == '\n'))
    };
    if ok {
        Ok((input, ()))
    } else {
        Err(
            ParseError::new(
                ErrorKind::StructuralError,
                input.len(),
                ContextLabel::StartsWithContent,
            ),
        )
    }
}

/// The indentation guard: a tab or two-or-more spaces, then any further
/// horizontal whitespace, all consumed.
///
/// Fails, without consuming, on an unindented line.
pub fn indented(input: &[char]) -> (r: Result<(&[char], ()), ParseError>)
    ensures
        match r {
            Ok((leftover, _)) => indent_now(input@) && leftover@ == input@.skip(
                indent_len(input@) as int,
            ),
            Err(e) => !indent_now(input@) && e@ == err_at(
                ErrorKind::StructuralError,
                input@.len(),
                ContextLabel::Indentation,
            ),
        },
{
    let head: usize = if input.len() > 0 && input[0] == '\t' {
        1
    } else if input.len() >= 2 && input[0] == ' ' && input[1] == ' ' {
        2
    } else {
        return Err(
            ParseError::new(ErrorKind::StructuralError, input.len(), ContextLabel::Indentation),
        );
    };
    let rest = slice_subrange(input, head, input.len());
    proof {
        assert(rest@ =~= input@.skip(head as int));
    }
    let ws = scan_hspace_run(rest);
    proof {
        crate::chars::lemma_hspace_run_len(input@.skip(head as int));
        assert(input@.skip(head as int).len() == input@.len() - head);
    }
    let leftover = slice_subrange(input, head + ws, input.len());
    proof {
        assert(leftover@ =~= input@.skip(indent_len(input@) as int));
    }
    Ok((leftover, ()))
}

} // verus!
