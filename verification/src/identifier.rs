//! The innermost lexical scanner: a non-empty stretch of text that stops in
//! front of the next delimiter.

use vstd::prelude::*;
use vstd::slice::{slice_subrange, slice_to_vec};

use crate::error::{err_at, ContextLabel, ErrorKind, ParseError};

verus! {

/// One component of an account path.  Exists only while an account is being
/// scanned.
#[derive(Debug, Clone, PartialEq, Eq)]
pub struct Identifier(pub Vec<char>);

impl View for Identifier {
    type V = Seq<char>;

    open spec fn view(&self) -> Seq<char> {
        self.0@
    }
}

/// Whether the front of `s` is one of the terminators that end an
/// identifier: a tab, a colon, a closing bracket, a line ending, two
/// consecutive spaces, or the end of the input.  The terminator is never
/// part of the identifier.
pub open spec fn ident_delim_now(s: Seq<char>) -> bool {
    ||| s.len() == 0
    ||| s[0] == '\t'
    ||| s[0] == ':'
    ||| s[0] == ')'
    ||| s[0] == ']'
    ||| s[0] == '\n'
    ||| (s[0] == ' ' && s.len() >= 2 && s[1] == ' ')
    ||| (s[0] == '\r' && s.len() >= 2 && s[1] == '\n')
}

/// How many characters the identifier at the front of `s` spans: the
/// distance to the first terminator.
pub open spec fn ident_len(s: Seq<char>) -> nat
    decreases s.len(),
{
    if ident_delim_now(s) {
        0
    } else {
        1 + ident_len(s.skip(1))
    }
}

/// An identifier never runs past the end of the input.
pub proof fn lemma_ident_len_le(s: Seq<char>)
    ensures
        ident_len(s) <= s.len(),
    decreases s.len(),
{
    if !ident_delim_now(s) {
        lemma_ident_len_le(s.skip(1));
    }
}

/// Scanning one character deeper into an identifier.
pub proof fn lemma_ident_len_step(s: Seq<char>, i: int)
    requires
        0 <= i <= s.len(),
        forall|j: int| 0 <= j < i ==> !ident_delim_now(#[trigger] s.skip(j)),
    ensures
        ident_len(s) == i + ident_len(s.skip(i)),
    decreases i,
{
    if i > 0 {
        lemma_ident_len_step(s, i - 1);
        assert(s.skip(i - 1).skip(1) =~= s.skip(i));
    } else {
        assert(s.skip(0) =~= s);
    }
}

/// An identifier never succeeds on empty input or on input that begins
/// with a terminator: the scan then spans zero characters, and
/// `identifier` reports its lexical error.
pub proof fn lemma_identifier_rejects_delimiter(s: Seq<char>)
    requires
        s.len() == 0 || ident_delim_now(s),
    ensures
        ident_len(s) == 0,
{
}

/// Whether the terminator test holds `at` characters into `input`.
pub(crate) fn ident_delim(input: &[char], at: usize) -> (r: bool)
    requires
        at <= input@.len(),
    ensures
        r == ident_delim_now(input@.skip(at as int)),
{
    if at == input.len() {
        return true;
    }
    let c = input[at];
    assert(input@.skip(at as int)[0] == input@[at as int]);
    assert(at + 1 < input@.len() ==> input@.skip(at as int)[1] == input@[at as int + 1]);
    if c == '\t' || c == ':' || c == ')' || c == ']' || c == '\n' {
        true
    } else if c == ' ' || c == '\r' {
        let pair = if c == ' ' { ' ' } else { '\n' };
        at + 1 < input.len() && input[at + 1] == pair
    } else {
        false
    }
}

/// The length of the identifier at the front of `input`, as a scan.
pub(crate) fn scan_ident(input: &[char]) -> (n: usize)
    ensures
        n == ident_len(input@),
        n <= input@.len(),
{
    let n = input.len();
    let mut i: usize = 0;
    proof {
        assert(input@.skip(0) =~= input@);
    }
    while !ident_delim(input, i)
        invariant
            n == input@.len(),
            0 <= i <= n,
            ident_len(input@) == i + ident_len(input@.skip(i as int)),
        decreases input@.len() - i,
    {
        proof {
            assert(input@.skip(i as int).len() == input@.len() - i);
            lemma_ident_len_le(input@.skip(i as int));
            assert(input@.skip(i as int).skip(1) =~= input@.skip(i as int + 1));
        }
        i = i + 1;
    }
    i
}

/// Scans the identifier at the front of `input`.
///
/// Succeeds exactly when at least one character stands before the first
/// terminator; the terminator itself is left in the remainder.  On an input
/// that begins with a terminator the failure is a lexical error reported at
/// the start of the input.
pub fn identifier(input: &[char]) -> (r: Result<(&[char], Identifier), ParseError>)
    ensures
        match r {
            Ok((leftover, value)) => {
                &&& ident_len(input@) > 0
                &&& value@ == input@.take(ident_len(input@) as int)
                &&& leftover@ == input@.skip(ident_len(input@) as int)
            },
            Err(e) => {
                &&& ident_len(input@) == 0
                &&& e@ == err_at(ErrorKind::LexicalError, input@.len(), ContextLabel::Identifier)
            },
        },
{
    let i = scan_ident(input);
    if i == 0 {
        Err(ParseError::new(ErrorKind::LexicalError, input.len(), ContextLabel::Identifier))
    } else {
        let text = slice_to_vec(slice_subrange(input, 0, i));
        let leftover = slice_subrange(input, i, input.len());
        assert(input@.subrange(0, i as int) =~= input@.take(i as int));
        assert(input@.subrange(i as int, input@.len() as int) =~= input@.skip(i as int));
        Ok((leftover, Identifier(text)))
    }
}

} // verus!
