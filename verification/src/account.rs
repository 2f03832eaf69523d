//! An account path: one or more identifiers joined by single colons.
//!
//! The scanner returns the verbatim substring spanning the whole path,
//! colons included; callers that need the components split on `:`
//! themselves.

use vstd::prelude::*;
use vstd::slice::{slice_subrange, slice_to_vec};

use crate::error::{err_at, wrapped, ContextLabel, ErrorKind, ParseError};
use crate::identifier::{ident_delim_now, ident_len, lemma_ident_len_le, scan_ident};

verus! {

/// The verbatim text of an account path.
#[derive(Debug, Clone, PartialEq, Eq)]
pub struct Account(pub Vec<char>);

impl View for Account {
    type V = Seq<char>;

    open spec fn view(&self) -> Seq<char> {
        self.0@
    }
}

/// How far the account path continues past a just-scanned identifier:
/// zero, unless a colon followed by another non-empty identifier stands at
/// the front of `s`, in which case the separator, that identifier, and any
/// further continuation all count.
pub open spec fn account_tail_len(s: Seq<char>) -> nat
    decreases s.len(),
{
    if s.len() > 0 && s[0] == ':' && ident_len(s.skip(1)) > 0 {
        proof {
            lemma_ident_len_le(s.skip(1));
        }
        1 + ident_len(s.skip(1)) + account_tail_len(s.skip(1 + ident_len(s.skip(1)) as int))
    } else {
        0
    }
}

/// How many characters the account path at the front of `s` spans.
/// Meaningful only when the first identifier is non-empty.
pub open spec fn account_len(s: Seq<char>) -> nat {
    ident_len(s) + account_tail_len(s.skip(ident_len(s) as int))
}

/// An account path never runs past the end of the input.
pub proof fn lemma_account_tail_len_le(s: Seq<char>)
    ensures
        account_tail_len(s) <= s.len(),
    decreases s.len(),
{
    if s.len() > 0 && s[0] == ':' && ident_len(s.skip(1)) > 0 {
        lemma_ident_len_le(s.skip(1));
        lemma_account_tail_len_le(s.skip(1 + ident_len(s.skip(1)) as int));
    }
}

/// The text of a colon-joined sequence of segments.
pub open spec fn joined(segs: Seq<Seq<char>>) -> Seq<char>
    decreases segs.len(),
{
    if segs.len() == 0 {
        Seq::empty()
    } else if segs.len() == 1 {
        segs[0]
    } else {
        segs[0] + seq![':'] + joined(segs.drop_first())
    }
}

/// A segment that no terminator cuts short: non-empty, free of tabs,
/// colons, closing brackets, and line-ending characters, and holding no
/// two consecutive spaces.
pub open spec fn plain_segment(seg: Seq<char>) -> bool {
    &&& seg.len() > 0
    &&& forall|i: int|
        0 <= i < seg.len() ==> !(#[trigger] seg[i] == '\t' || seg[i] == ':' || seg[i] == ')'
            || seg[i] == ']' || seg[i] == '\n' || seg[i] == '\r')
    &&& forall|i: int|
        0 <= i && i + 1 < seg.len() ==> !(#[trigger] seg[i] == ' ' && seg[i + 1] == ' ')
}

/// Text that begins with a terminator of the identifier scanner, or
/// nothing at all: a trailing delimiter run.  Two exclusions keep the run
/// from changing what precedes it: when the text before the run ends in a
/// space, two leading spaces would cut that space off; and a colon
/// followed by another identifier would extend the account path, so a
/// leading colon qualifies only when no identifier follows it.
pub open spec fn delimiter_run(trailer: Seq<char>, after_space: bool) -> bool {
    ||| trailer.len() == 0
    ||| trailer[0] == '\t'
    ||| trailer[0] == '\n'
    ||| trailer[0] == ')'
    ||| trailer[0] == ']'
    ||| (trailer.len() >= 2 && trailer[0] == ' ' && trailer[1] == ' ' && !after_space)
    ||| (trailer.len() >= 2 && trailer[0] == '\r' && trailer[1] == '\n')
    ||| (trailer.len() >= 1 && trailer[0] == ':' && ident_len(trailer.skip(1)) == 0)
}

/// The identifier scan stops exactly at the first terminator.
proof fn lemma_ident_len_exact(s: Seq<char>, m: int)
    requires
        0 <= m <= s.len(),
        forall|j: int| 0 <= j < m ==> !ident_delim_now(#[trigger] s.skip(j)),
        ident_delim_now(s.skip(m)),
    ensures
        ident_len(s) == m,
{
    crate::identifier::lemma_ident_len_step(s, m);
}

/// For every non-empty colon-joined sequence of plain segments, the
/// account scanner consumes exactly that joined text and leaves any
/// trailing delimiter run untouched: by the scanner's contract, `account`
/// on `joined(segs) + trailer` returns the verbatim `joined(segs)` with
/// `trailer` as the remainder.
pub proof fn lemma_account_exact(segs: Seq<Seq<char>>, trailer: Seq<char>)
    requires
        segs.len() > 0,
        forall|k: int| 0 <= k < segs.len() ==> plain_segment(#[trigger] segs[k]),
        delimiter_run(trailer, segs.last().len() > 0 && segs.last().last() == ' '),
    ensures
        ident_len(joined(segs) + trailer) > 0,
        account_len(joined(segs) + trailer) == joined(segs).len(),
    decreases segs.len(),
{
    let s = joined(segs) + trailer;
    let seg0 = segs[0];
    if segs.len() == 1 {
        assert(joined(segs) == seg0);
        assert forall|j: int| 0 <= j < seg0.len() implies !ident_delim_now(
            #[trigger] s.skip(j),
        ) by {
            assert(s.skip(j)[0] == seg0[j]);
            if j + 1 < s.len() {
                assert(s.skip(j)[1] == s[j + 1]);
                if j + 1 < seg0.len() {
                    assert(s[j + 1] == seg0[j + 1]);
                } else {
                    assert(s[j + 1] == trailer[0]);
                }
            }
        }
        assert(s.skip(seg0.len() as int) =~= trailer);
        assert(ident_delim_now(trailer));
        lemma_ident_len_exact(s, seg0.len() as int);
        assert(account_tail_len(s.skip(seg0.len() as int)) == 0);
    } else {
        let rest = segs.drop_first();
        assert(joined(segs) == seg0 + seq![':'] + joined(rest));
        assert forall|k: int| 0 <= k < rest.len() implies plain_segment(#[trigger] rest[k]) by {
            assert(rest[k] == segs[k + 1]);
        }
        assert(rest.last() == segs.last());
        lemma_account_exact(rest, trailer);
        let v = joined(rest) + trailer;
        assert forall|j: int| 0 <= j < seg0.len() implies !ident_delim_now(
            #[trigger] s.skip(j),
        ) by {
            assert(s.skip(j)[0] == seg0[j]);
            if j + 1 < s.len() {
                assert(s.skip(j)[1] == s[j + 1]);
                if j + 1 < seg0.len() {
                    assert(s[j + 1] == seg0[j + 1]);
                } else {
                    assert(s[j + 1] == ':');
                }
            }
        }
        assert(s[seg0.len() as int] == ':');
        assert(s.skip(seg0.len() as int)[0] == ':');
        lemma_ident_len_exact(s, seg0.len() as int);
        let u = s.skip(seg0.len() as int);
        assert(u.skip(1) =~= v);
        assert(ident_len(v) > 0);
        assert(account_tail_len(u) == 1 + ident_len(v) + account_tail_len(
            u.skip(1 + ident_len(v) as int),
        ));
        assert(u.skip(1 + ident_len(v) as int) =~= v.skip(ident_len(v) as int));
        assert(account_tail_len(u) == 1 + account_len(v));
        assert(account_len(s) == seg0.len() + 1 + joined(rest).len());
        assert(joined(segs).len() == seg0.len() + 1 + joined(rest).len());
    }
}

/// The continuation of an account path, as a scan.  `input` is positioned
/// just past an identifier.
fn scan_account_tail(input: &[char]) -> (n: usize)
    ensures
        n == account_tail_len(input@),
        n <= input@.len(),
    decreases input@.len(),
{
    if input.len() > 0 && input[0] == ':' {
        let rest = slice_subrange(input, 1, input.len());
        proof {
            assert(rest@ =~= input@.skip(1));
        }
        let seg = scan_ident(rest);
        if seg > 0 {
            let after = slice_subrange(input, 1 + seg, input.len());
            proof {
                assert(after@ =~= input@.skip(1 + seg as int));
            }
            let cont = scan_account_tail(after);
            1 + seg + cont
        } else {
            0
        }
    } else {
        0
    }
}

/// Scans the account path at the front of `input`: identifiers separated
/// by single colons, one or more of them.
///
/// Succeeds exactly when the first identifier is non-empty, returning the
/// verbatim consumed substring; a colon not followed by another identifier
/// is left in the remainder.  The failure is the identifier's lexical
/// error wrapped in the account context.
pub fn account(input: &[char]) -> (r: Result<(&[char], Account), ParseError>)
    ensures
        match r {
            Ok((leftover, value)) => {
                &&& ident_len(input@) > 0
                &&& value@ == input@.take(account_len(input@) as int)
                &&& leftover@ == input@.skip(account_len(input@) as int)
            },
            Err(e) => {
                &&& ident_len(input@) == 0
                &&& e@ == wrapped(
                    err_at(ErrorKind::LexicalError, input@.len(), ContextLabel::Identifier),
                    ContextLabel::Account,
                )
            },
        },
{
    let first = scan_ident(input);
    if first == 0 {
        return Err(
            ParseError::new(ErrorKind::LexicalError, input.len(), ContextLabel::Identifier).wrap(
                ContextLabel::Account,
            ),
        );
    }
    let after_first = slice_subrange(input, first, input.len());
    proof {
        assert(after_first@ =~= input@.skip(first as int));
    }
    let tail = scan_account_tail(after_first);
    let len = first + tail;
    let text = slice_to_vec(slice_subrange(input, 0, len));
    let leftover = slice_subrange(input, len, input.len());
    proof {
        assert(input@.subrange(0, len as int) =~= input@.take(account_len(input@) as int));
        assert(input@.subrange(len as int, input@.len() as int) =~= input@.skip(
            account_len(input@) as int,
        ));
    }
    Ok((leftover, Account(text)))
}

} // verus!
