//! A top-level declaration: a keyword (`account`, `commodity`, `tag`), a
//! value scanned by the keyword's own scanner, and zero or more indented
//! metadata lines kept verbatim.
//!
//! The declaration shape is written once, parameterized by the kind; the
//! kind picks the keyword literal and the value scanner.

use vstd::prelude::*;
use vstd::slice::{slice_subrange, slice_to_vec};

use crate::account::{account, account_len, lemma_account_tail_len_le};
use crate::chars::{
    alnum_run_len, hspace_run_len, lemma_alnum_run_len, lemma_hspace_run_len, lemma_line_break_at,
    line_break_at, line_end_len, rest_of_line_ok, scan_hspace_run, scan_line_break,
};
use crate::commodity::{commodity, commodity_len, lemma_commodity_len_le};
use crate::error::{err_at, wrapped, ContextLabel, ErrView, ErrorKind, ParseError};
use crate::guards::{indent_len, indent_now, indented, is_indented, lemma_indent_len_le};
use crate::identifier::{ident_len, lemma_ident_len_le};
use crate::tag::tag;

verus! {

/// Which declaration a keyword introduces.
#[derive(Debug, Clone, Copy, PartialEq, Eq, Structural)]
pub enum DeclarationKind {
    Account,
    Commodity,
    Tag,
}

/// The mathematical image of a `Declaration`.
pub struct DeclarationView {
    pub kind: DeclarationKind,
    pub value: Seq<char>,
    pub extras: Seq<Seq<char>>,
}

/// A keyword declaration with its verbatim metadata lines.
#[derive(Debug, Clone, PartialEq, Eq)]
pub struct Declaration {
    pub kind: DeclarationKind,
    pub value: Vec<char>,
    pub extras: Vec<Vec<char>>,
}

/// The element-wise view of a vector of verbatim lines.
pub open spec fn lines_view(lines: Seq<Vec<char>>) -> Seq<Seq<char>> {
    lines.map_values(|l: Vec<char>| l@)
}

impl View for Declaration {
    type V = DeclarationView;

    open spec fn view(&self) -> DeclarationView {
        DeclarationView { kind: self.kind, value: self.value@, extras: lines_view(self.extras@) }
    }
}

/// The keyword that introduces a declaration of the given kind.
pub open spec fn spec_keyword(kind: DeclarationKind) -> Seq<char> {
    match kind {
        DeclarationKind::Account => seq!['a', 'c', 'c', 'o', 'u', 'n', 't'],
        DeclarationKind::Commodity => seq!['c', 'o', 'm', 'm', 'o', 'd', 'i', 't', 'y'],
        DeclarationKind::Tag => seq!['t', 'a', 'g'],
    }
}

/// The context label of a declaration of the given kind.
pub open spec fn spec_label(kind: DeclarationKind) -> ContextLabel {
    match kind {
        DeclarationKind::Account => ContextLabel::AccountDeclaration,
        DeclarationKind::Commodity => ContextLabel::CommodityDeclaration,
        DeclarationKind::Tag => ContextLabel::TagDeclaration,
    }
}

/// How long the value at the front of `s` is under the kind's scanner,
/// and whether that scanner succeeds at all.
pub open spec fn value_ok(s: Seq<char>, kind: DeclarationKind) -> bool {
    match kind {
        DeclarationKind::Account => ident_len(s) > 0,
        DeclarationKind::Commodity => commodity_len(s) > 0,
        DeclarationKind::Tag => alnum_run_len(s) > 0,
    }
}

/// How many characters the kind's value scanner consumes from `s`.
pub open spec fn value_len(s: Seq<char>, kind: DeclarationKind) -> nat {
    match kind {
        DeclarationKind::Account => account_len(s),
        DeclarationKind::Commodity => commodity_len(s),
        DeclarationKind::Tag => alnum_run_len(s),
    }
}

/// The failure of the kind's value scanner, before the declaration's own
/// label is pushed.
pub open spec fn value_err(s: Seq<char>, kind: DeclarationKind) -> ErrView {
    match kind {
        DeclarationKind::Account => wrapped(
            err_at(ErrorKind::LexicalError, s.len(), ContextLabel::Identifier),
            ContextLabel::Account,
        ),
        DeclarationKind::Commodity => err_at(
            ErrorKind::LexicalError,
            s.len(),
            ContextLabel::Commodity,
        ),
        DeclarationKind::Tag => err_at(ErrorKind::LexicalError, s.len(), ContextLabel::Tag),
    }
}

/// What scanning the indented metadata lines from `s` yields: the
/// consumed length and the verbatim lines, indentation stripped.  The
/// run ends at the first unindented line, and also before an indented
/// line whose rest is malformed (a carriage return with no newline after
/// it): such a line is left in the remainder, and the declaration above
/// it still succeeds.
pub open spec fn spec_extras(s: Seq<char>) -> (nat, Seq<Seq<char>>)
    decreases s.len(),
{
    if !indent_now(s) {
        (0, Seq::empty())
    } else {
        let body = s.skip(indent_len(s) as int);
        if !rest_of_line_ok(body) {
            (0, Seq::empty())
        } else {
            let k = line_break_at(body);
            let step = (indent_len(s) + k + line_end_len(body)) as nat;
            proof {
                lemma_indent_len_le(s);
                lemma_line_break_at(body);
            }
            let (m, ls) = spec_extras(s.skip(step as int));
            ((step + m) as nat, seq![body.take(k as int)] + ls)
        }
    }
}

/// The metadata lines never run past the end of the input.
pub proof fn lemma_spec_extras_consumed(s: Seq<char>)
    ensures
        spec_extras(s).0 <= s.len(),
    decreases s.len(),
{
    if indent_now(s) {
        let body = s.skip(indent_len(s) as int);
        lemma_indent_len_le(s);
        lemma_line_break_at(body);
        if rest_of_line_ok(body) {
            let step = (indent_len(s) + line_break_at(body) + line_end_len(body)) as nat;
            lemma_spec_extras_consumed(s.skip(step as int));
        }
    }
}

/// What scanning a declaration of the given kind from `s` yields: the
/// consumed length and the declaration, or the failure.
pub open spec fn spec_declaration(s: Seq<char>, kind: DeclarationKind) -> Result<
    (nat, DeclarationView),
    ErrView,
> {
    let kw = spec_keyword(kind);
    let label = spec_label(kind);
    if !(s.len() >= kw.len() && s.take(kw.len() as int) == kw) {
        Err(err_at(ErrorKind::LexicalError, s.len(), label))
    } else {
        let s1 = s.skip(kw.len() as int);
        let ws = hspace_run_len(s1);
        if ws == 0 {
            Err(err_at(ErrorKind::LexicalError, s1.len(), label))
        } else {
            let s2 = s1.skip(ws as int);
            if !value_ok(s2, kind) {
                Err(wrapped(value_err(s2, kind), label))
            } else {
                let s3 = s2.skip(value_len(s2, kind) as int);
                let s4 = s3.skip(hspace_run_len(s3) as int);
                let eol: nat = if s4.len() == 0 {
                    0
                } else if s4[0] == '\n' {
                    1
                } else if s4[0] == '\r' && s4.len() >= 2 && s4[1] == '\n' {
                    2
                } else {
                    3
                };
                if eol == 3 {
                    Err(err_at(ErrorKind::StructuralError, s4.len(), label))
                } else {
                    let (m, extras) = spec_extras(s4.skip(eol as int));
                    Ok(
                        (
                            ((s.len() - s4.len()) + eol + m) as nat,
                            DeclarationView {
                                kind,
                                value: s2.take(value_len(s2, kind) as int),
                                extras,
                            },
                        ),
                    )
                }
            }
        }
    }
}

/// A successful declaration consumes at least its keyword and never runs
/// past the end of the input.
pub proof fn lemma_spec_declaration_consumed(s: Seq<char>, kind: DeclarationKind)
    requires
        spec_declaration(s, kind) is Ok,
    ensures
        1 <= spec_declaration(s, kind)->Ok_0.0 <= s.len(),
{
    let kw = spec_keyword(kind);
    let s1 = s.skip(kw.len() as int);
    lemma_hspace_run_len(s1);
    let s2 = s1.skip(hspace_run_len(s1) as int);
    match kind {
        DeclarationKind::Account => {
            lemma_ident_len_le(s2);
            lemma_account_tail_len_le(s2.skip(ident_len(s2) as int));
        },
        DeclarationKind::Commodity => {
            lemma_commodity_len_le(s2);
        },
        DeclarationKind::Tag => {
            lemma_alnum_run_len(s2);
        },
    }
    let s3 = s2.skip(value_len(s2, kind) as int);
    lemma_hspace_run_len(s3);
    let s4 = s3.skip(hspace_run_len(s3) as int);
    let eol: nat = if s4.len() == 0 {
        0
    } else if s4[0] == '\n' {
        1
    } else {
        2
    };
    lemma_spec_extras_consumed(s4.skip(eol as int));
}

/// The keyword of the given kind, as characters.
pub(crate) fn keyword_chars(kind: DeclarationKind) -> (kw: Vec<char>)
    ensures
        kw@ == spec_keyword(kind),
{
    match kind {
        DeclarationKind::Account => {
            let kw = vec!['a', 'c', 'c', 'o', 'u', 'n', 't'];
            proof {
                assert(kw@ =~= spec_keyword(DeclarationKind::Account));
            }
            kw
        },
        DeclarationKind::Commodity => {
            let kw = vec!['c', 'o', 'm', 'm', 'o', 'd', 'i', 't', 'y'];
            proof {
                assert(kw@ =~= spec_keyword(DeclarationKind::Commodity));
            }
            kw
        },
        DeclarationKind::Tag => {
            let kw = vec!['t', 'a', 'g'];
            proof {
                assert(kw@ =~= spec_keyword(DeclarationKind::Tag));
            }
            kw
        },
    }
}

/// Whether `input` begins with the characters of `kw`.
fn has_prefix(input: &[char], kw: &Vec<char>) -> (r: bool)
    ensures
        r == (input@.len() >= kw@.len() && input@.take(kw@.len() as int) == kw@),
{
    if input.len() < kw.len() {
        return false;
    }
    let mut i: usize = 0;
    while i < kw.len()
        invariant
            0 <= i <= kw@.len() <= input@.len(),
            forall|j: int| 0 <= j < i ==> input@[j] == kw@[j],
        decreases kw@.len() - i,
    {
        if input[i] != kw[i] {
            proof {
                assert(input@.take(kw@.len() as int)[i as int] != kw@[i as int]);
            }
            return false;
        }
        i = i + 1;
    }
    proof {
        assert(input@.take(kw@.len() as int) =~= kw@);
    }
    true
}

/// Scans the indented metadata lines at the front of `input`; an
/// indented line whose rest is malformed ends the run without being
/// consumed.
fn extra_lines(input: &[char]) -> (r: (&[char], Vec<Vec<char>>))
    ensures
        r.0@.len() <= input@.len(),
        spec_extras(input@) == (((input@.len() - r.0@.len()) as nat, lines_view(r.1@))),
        r.0@ == input@.skip((input@.len() - r.0@.len()) as int),
{
    let mut lines: Vec<Vec<char>> = Vec::new();
    let mut cur: &[char] = input;
    let ghost mut done: nat = 0;
    proof {
        assert(lines_view(lines@) =~= Seq::<Seq<char>>::empty());
    }
    while is_indented(cur)
        invariant
            cur@ == input@.skip(done as int),
            done <= input@.len(),
            spec_extras(input@) == ((
                (done + spec_extras(cur@).0) as nat,
                lines_view(lines@) + spec_extras(cur@).1,
            )),
        decreases cur@.len(),
    {
        let (body, _) = match indented(cur) {
            Err(e) => {
                proof {
                    assert(false);
                }
                return (cur, lines);
            },
            Ok(x) => x,
        };
        proof {
            lemma_indent_len_le(cur@);
        }
        let k = scan_line_break(body);
        proof {
            lemma_line_break_at(body@);
        }
        if k < body.len() && body[k] == '\r' && !(k + 1 < body.len() && body[k + 1] == '\n') {
            proof {
                assert(spec_extras(cur@) == ((0nat, Seq::<Seq<char>>::empty())));
                assert(lines_view(lines@) + Seq::<Seq<char>>::empty() =~= lines_view(lines@));
            }
            return (cur, lines);
        }
        let eol: usize = if k == body.len() {
            0
        } else if body[k] == '\n' {
            1
        } else {
            2
        };
        let line = slice_to_vec(slice_subrange(body, 0, k));
        let next = slice_subrange(body, k + eol, body.len());
        let ghost step = (indent_len(cur@) + k + line_end_len(body@)) as nat;
        let ghost old_lines = lines@;
        lines.push(line);
        proof {
            assert(line_end_len(body@) == eol);
            assert(lines_view(lines@) =~= lines_view(old_lines).push(body@.take(k as int)));
            assert(next@ =~= cur@.skip(step as int));
            assert(next@ =~= input@.skip((done + step) as int));
            let (m, ls) = spec_extras(next@);
            assert(lines_view(old_lines).push(body@.take(k as int)) + ls =~= lines_view(
                old_lines,
            ) + (seq![body@.take(k as int)] + ls));
        }
        cur = next;
        proof {
            done = (done + step) as nat;
        }
    }
    proof {
        assert(spec_extras(cur@) == ((0nat, Seq::<Seq<char>>::empty())));
        assert(lines_view(lines@) + Seq::<Seq<char>>::empty() =~= lines_view(lines@));
    }
    (cur, lines)
}

/// Scans a declaration of the given kind at the front of `input`: the
/// keyword, one or more spaces, the kind's value, optional trailing
/// spaces, a line ending or the end of the input, and the indented
/// metadata lines.
#[verifier::rlimit(100)]
pub fn declaration(input: &[char], kind: DeclarationKind) -> (r: Result<
    (&[char], Declaration),
    ParseError,
>)
    ensures
        match r {
            Ok((leftover, value)) => {
                &&& leftover@.len() <= input@.len()
                &&& spec_declaration(input@, kind) == Ok::<(nat, DeclarationView), ErrView>(
                    ((input@.len() - leftover@.len()) as nat, value@),
                )
                &&& leftover@ == input@.skip((input@.len() - leftover@.len()) as int)
            },
            Err(e) => spec_declaration(input@, kind) == Err::<(nat, DeclarationView), ErrView>(e@),
        },
{
    let kw = keyword_chars(kind);
    let exec_label = match kind {
        DeclarationKind::Account => ContextLabel::AccountDeclaration,
        DeclarationKind::Commodity => ContextLabel::CommodityDeclaration,
        DeclarationKind::Tag => ContextLabel::TagDeclaration,
    };
    if !has_prefix(input, &kw) {
        return Err(ParseError::new(ErrorKind::LexicalError, input.len(), exec_label));
    }
    let s1 = slice_subrange(input, kw.len(), input.len());
    proof {
        assert(s1@ =~= input@.skip(spec_keyword(kind).len() as int));
    }
    let ws = scan_hspace_run(s1);
    proof {
        lemma_hspace_run_len(s1@);
    }
    if ws == 0 {
        return Err(ParseError::new(ErrorKind::LexicalError, s1.len(), exec_label));
    }
    let s2 = slice_subrange(s1, ws, s1.len());
    proof {
        assert(s2@ =~= s1@.skip(ws as int));
    }
    let (s3, value) = match kind {
        DeclarationKind::Account => {
            match account(s2) {
                Err(e) => return Err(e.wrap(exec_label)),
                Ok((s3, v)) => {
                    proof {
                        lemma_ident_len_le(s2@);
                        lemma_account_tail_len_le(s2@.skip(ident_len(s2@) as int));
                    }
                    (s3, v.0)
                },
            }
        },
        DeclarationKind::Commodity => {
            match commodity(s2) {
                Err(e) => return Err(e.wrap(exec_label)),
                Ok((s3, v)) => {
                    proof {
                        lemma_commodity_len_le(s2@);
                    }
                    (s3, v.0)
                },
            }
        },
        DeclarationKind::Tag => {
            match tag(s2) {
                Err(e) => return Err(e.wrap(exec_label)),
                Ok((s3, v)) => {
                    proof {
                        lemma_alnum_run_len(s2@);
                    }
                    (s3, v.0)
                },
            }
        },
    };
    let ws2 = scan_hspace_run(s3);
    proof {
        lemma_hspace_run_len(s3@);
    }
    let s4 = slice_subrange(s3, ws2, s3.len());
    proof {
        assert(s4@ =~= s3@.skip(ws2 as int));
    }
    let eol: usize = if s4.len() == 0 {
        0
    } else if s4[0] == '\n' {
        1
    } else if s4[0] == '\r' && s4.len() >= 2 && s4[1] == '\n' {
        2
    } else {
        return Err(ParseError::new(ErrorKind::StructuralError, s4.len(), exec_label));
    };
    let s5 = slice_subrange(s4, eol, s4.len());
    proof {
        assert(s5@ =~= s4@.skip(eol as int));
    }
    let (leftover, extras) = extra_lines(s5);
    proof {
        lemma_spec_extras_consumed(s5@);
        let kwlen = spec_keyword(kind).len() as int;
        let vlen = value_len(s2@, kind) as int;
        assert(s1@.len() == input@.len() - kwlen);
        assert(s2@.len() == s1@.len() - ws);
        assert(s3@.len() == s2@.len() - vlen);
        assert(s4@.len() == s3@.len() - ws2);
        assert(s5@.len() == s4@.len() - eol);
        let c5 = s5@.len() - leftover@.len();
        assert(s2@ =~= input@.skip(kwlen + ws));
        assert(s3@ =~= input@.skip(kwlen + ws + vlen));
        assert(s4@ =~= input@.skip(kwlen + ws + vlen + ws2));
        assert(s5@ =~= input@.skip(kwlen + ws + vlen + ws2 + eol));
        assert(leftover@ =~= input@.skip(kwlen + ws + vlen + ws2 + eol + c5));
        assert(leftover@ =~= input@.skip(input@.len() - leftover@.len()));
    }
    Ok((leftover, Declaration { kind, value, extras }))
}

} // verus!
