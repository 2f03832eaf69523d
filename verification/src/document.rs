//! The document assembler: at each position it skips blank lines, then
//! commits to the first alternative whose keyword or guard matches, in
//! the fixed order account declaration, commodity declaration, tag
//! declaration, transaction.
//!
//! Once a keyword (followed by a space) or a transaction header has
//! matched, a later failure inside that item is a hard error: the same
//! characters are never retried under another alternative.  Parsing
//! succeeds when the input is exhausted; at a non-blank position where no
//! alternative matches the failure is `AlternativeExhausted`.

use vstd::prelude::*;
use vstd::slice::slice_subrange;

use crate::chars::{hspace_run_len, is_hspace, lemma_hspace_run_len, scan_hspace_run};
use crate::declaration::{
    declaration, keyword_chars, lemma_spec_declaration_consumed, spec_declaration, spec_keyword,
    Declaration, DeclarationKind, DeclarationView,
};
use crate::error::{err_at, wrapped, ContextLabel, ErrView, ErrorKind, ParseError};
use crate::guards::content_now;
use crate::transaction::{
    lemma_spec_transaction_consumed, spec_transaction, transaction, Transaction, TransactionView,
};

verus! {

/// One top-level item of a ledger file.
#[derive(Debug, Clone, PartialEq, Eq)]
pub enum Item {
    Declaration(Declaration),
    Transaction(Transaction),
}

/// The mathematical image of an `Item`.
pub enum ItemView {
    Declaration(DeclarationView),
    Transaction(TransactionView),
}

impl View for Item {
    type V = ItemView;

    open spec fn view(&self) -> ItemView {
        match self {
            Item::Declaration(d) => ItemView::Declaration(d@),
            Item::Transaction(t) => ItemView::Transaction(t@),
        }
    }
}

/// The element-wise view of a vector of items.
pub open spec fn items_view(items: Seq<Item>) -> Seq<ItemView> {
    items.map_values(|i: Item| i@)
}

/// A parsed ledger file: its declarations and transactions in source
/// order.
#[derive(Debug, Clone, PartialEq, Eq)]
pub struct Document {
    pub items: Vec<Item>,
}

impl View for Document {
    type V = Seq<ItemView>;

    open spec fn view(&self) -> Seq<ItemView> {
        items_view(self.items@)
    }
}

/// How many characters the blank lines at the front of `s` span: lines
/// holding only horizontal whitespace before their line ending, and any
/// whitespace that closes the input.
pub open spec fn blank_len(s: Seq<char>) -> nat
    decreases s.len(),
{
    let h = hspace_run_len(s);
    proof {
        lemma_hspace_run_len(s);
    }
    if h == s.len() {
        s.len()
    } else if s[h as int] == '\n' {
        (h + 1) + blank_len(s.skip(h + 1int))
    } else if s[h as int] == '\r' && h + 1 < s.len() && s[h + 1int] == '\n' {
        (h + 2) + blank_len(s.skip(h + 2int))
    } else {
        0
    }
}

/// The blank lines never run past the end of the input.
pub proof fn lemma_blank_len_le(s: Seq<char>)
    ensures
        blank_len(s) <= s.len(),
    decreases s.len(),
{
    let h = hspace_run_len(s);
    lemma_hspace_run_len(s);
    if h == s.len() {
    } else if s[h as int] == '\n' {
        lemma_blank_len_le(s.skip(h + 1int));
    } else if s[h as int] == '\r' && h + 1 < s.len() && s[h + 1int] == '\n' {
        lemma_blank_len_le(s.skip(h + 2int));
    }
}

/// Whether the given declaration keyword, followed by a space or tab,
/// commits the position to that declaration.
pub open spec fn keyword_committed(s: Seq<char>, kind: DeclarationKind) -> bool {
    let kw = spec_keyword(kind);
    &&& s.len() > kw.len()
    &&& s.take(kw.len() as int) == kw
    &&& is_hspace(s[kw.len() as int])
}

/// What parsing one top-level item from a non-blank position `t` yields:
/// the consumed length and the item, or the failure.  The alternatives
/// are tried in fixed order; a committed alternative's failure is final.
#[verifier::opaque]
pub open spec fn spec_item(t: Seq<char>) -> Result<(nat, ItemView), ErrView> {
    if keyword_committed(t, DeclarationKind::Account) {
        spec_item_declaration(t, DeclarationKind::Account)
    } else if keyword_committed(t, DeclarationKind::Commodity) {
        spec_item_declaration(t, DeclarationKind::Commodity)
    } else if keyword_committed(t, DeclarationKind::Tag) {
        spec_item_declaration(t, DeclarationKind::Tag)
    } else {
        match spec_transaction(t) {
            Ok((n, tx)) => Ok((n, ItemView::Transaction(tx))),
            Err(e) => {
                if content_now(t) {
                    Err(wrapped(e, ContextLabel::Document))
                } else {
                    Err(err_at(ErrorKind::AlternativeExhausted, t.len(), ContextLabel::Document))
                }
            },
        }
    }
}

/// The declaration arm of the document alternatives.
pub open spec fn spec_item_declaration(t: Seq<char>, kind: DeclarationKind) -> Result<
    (nat, ItemView),
    ErrView,
> {
    match spec_declaration(t, kind) {
        Err(e) => Err(wrapped(e, ContextLabel::Document)),
        Ok((n, d)) => Ok((n, ItemView::Declaration(d))),
    }
}

/// A successful item consumes at least one character and never runs past
/// the end of the input.
pub proof fn lemma_spec_item_consumed(t: Seq<char>)
    requires
        spec_item(t) is Ok,
    ensures
        1 <= spec_item(t)->Ok_0.0 <= t.len(),
{
    reveal(spec_item);
    if keyword_committed(t, DeclarationKind::Account) {
        lemma_spec_declaration_consumed(t, DeclarationKind::Account);
    } else if keyword_committed(t, DeclarationKind::Commodity) {
        lemma_spec_declaration_consumed(t, DeclarationKind::Commodity);
    } else if keyword_committed(t, DeclarationKind::Tag) {
        lemma_spec_declaration_consumed(t, DeclarationKind::Tag);
    } else {
        lemma_spec_transaction_consumed(t);
    }
}

/// What parsing a whole document from `s` yields: its items in source
/// order, or the failure.  Blank lines are skipped between items; the
/// parse succeeds only when the input is exhausted.
pub open spec fn spec_document(s: Seq<char>) -> Result<Seq<ItemView>, ErrView>
    decreases s.len(),
{
    let b = blank_len(s);
    proof {
        lemma_blank_len_le(s);
    }
    let t = s.skip(b as int);
    if t.len() == 0 {
        Ok(Seq::empty())
    } else {
        match spec_item(t) {
            Err(e) => Err(e),
            Ok((n, item)) => {
                proof {
                    lemma_spec_item_consumed(t);
                }
                match spec_document(t.skip(n as int)) {
                    Err(e) => Err(e),
                    Ok(items) => Ok(seq![item] + items),
                }
            },
        }
    }
}

/// Consumes the blank lines at the front of `input`.
fn skip_blanks(input: &[char]) -> (r: &[char])
    ensures
        r@ == input@.skip(blank_len(input@) as int),
        r@.len() <= input@.len(),
{
    let mut cur: &[char] = input;
    let ghost mut done: nat = 0;
    proof {
        assert(input@.skip(0) =~= input@);
    }
    loop
        invariant
            done <= input@.len(),
            cur@ == input@.skip(done as int),
            blank_len(input@) == done + blank_len(cur@),
        decreases cur@.len(),
    {
        let h = scan_hspace_run(cur);
        proof {
            lemma_hspace_run_len(cur@);
        }
        if h == cur.len() {
            let next = slice_subrange(cur, h, cur.len());
            proof {
                assert(next@ =~= input@.skip(blank_len(input@) as int));
            }
            return next;
        }
        let step: usize = if cur[h] == '\n' {
            h + 1
        } else if cur[h] == '\r' && h + 1 < cur.len() && cur[h + 1] == '\n' {
            h + 2
        } else {
            proof {
                assert(blank_len(cur@) == 0);
                assert(cur@ =~= input@.skip(blank_len(input@) as int));
            }
            return cur;
        };
        let next = slice_subrange(cur, step, cur.len());
        proof {
            assert(next@ =~= cur@.skip(step as int));
            assert(next@ =~= input@.skip((done + step) as int));
        }
        cur = next;
        proof {
            done = (done + step) as nat;
        }
    }
}

/// Whether the keyword of `kind` followed by a space or tab stands at the
/// front of `input`.
fn keyword_commits(input: &[char], kind: DeclarationKind) -> (r: bool)
    ensures
        r == keyword_committed(input@, kind),
{
    let kw = keyword_chars(kind);
    let n = kw.len();
    if input.len() <= n {
        return false;
    }
    let mut i: usize = 0;
    while i < n
        invariant
            0 <= i <= n == kw@.len() < input@.len(),
            kw@ == spec_keyword(kind),
            forall|j: int| 0 <= j < i ==> input@[j] == kw@[j],
        decreases n - i,
    {
        if input[i] != kw[i] {
            proof {
                assert(input@.take(n as int)[i as int] != kw@[i as int]);
            }
            return false;
        }
        i = i + 1;
    }
    proof {
        assert(input@.take(n as int) =~= kw@);
    }
    let c = input[n];
    c == ' ' || c == '\t'
}

/// Parses one top-level item at a non-blank position.
fn parse_item(t: &[char]) -> (r: Result<(&[char], Item), ParseError>)
    ensures
        match r {
            Ok((leftover, item)) => {
                &&& leftover@.len() <= t@.len()
                &&& spec_item(t@) == Ok::<(nat, ItemView), ErrView>(
                    ((t@.len() - leftover@.len()) as nat, item@),
                )
                &&& leftover@ == t@.skip((t@.len() - leftover@.len()) as int)
            },
            Err(e) => spec_item(t@) == Err::<(nat, ItemView), ErrView>(e@),
        },
{
    proof {
        reveal(spec_item);
    }
    let kind_hit: Option<DeclarationKind> = if keyword_commits(t, DeclarationKind::Account) {
        Some(DeclarationKind::Account)
    } else if keyword_commits(t, DeclarationKind::Commodity) {
        Some(DeclarationKind::Commodity)
    } else if keyword_commits(t, DeclarationKind::Tag) {
        Some(DeclarationKind::Tag)
    } else {
        None
    };
    match kind_hit {
        Some(kind) => {
            match declaration(t, kind) {
                Err(e) => Err(e.wrap(ContextLabel::Document)),
                Ok((next, d)) => Ok((next, Item::Declaration(d))),
            }
        },
        None => {
            match transaction(t) {
                Err(e) => {
                    if t.len() == 0 || t[0] == ' ' || t[0] == '\t' || t[0] == '\n' || (t[0]
                        == '\r' && t.len() >= 2 && t[1] == '\n') {
                        Err(
                            ParseError::new(
                                ErrorKind::AlternativeExhausted,
                                t.len(),
                                ContextLabel::Document,
                            ),
                        )
                    } else {
                        Err(e.wrap(ContextLabel::Document))
                    }
                },
                Ok((next, tx)) => Ok((next, Item::Transaction(tx))),
            }
        },
    }
}

/// Parses a whole ledger file: declarations and transactions in source
/// order, with blank lines between items.
///
/// Succeeds exactly when every top-level item parses and the input is
/// exhausted; the result owns every item.
pub fn parse_document(input: &[char]) -> (r: Result<Document, ParseError>)
    ensures
        match r {
            Ok(doc) => spec_document(input@) == Ok::<Seq<ItemView>, ErrView>(doc@),
            Err(e) => spec_document(input@) == Err::<Seq<ItemView>, ErrView>(e@),
        },
{
    let mut items: Vec<Item> = Vec::new();
    let mut cur: &[char] = input;
    let ghost mut done: nat = 0;
    proof {
        assert(items_view(items@) =~= Seq::<ItemView>::empty());
        assert(input@.skip(0) =~= input@);
    }
    loop
        invariant
            done <= input@.len(),
            cur@ == input@.skip(done as int),
            match spec_document(cur@) {
                Ok(its) => spec_document(input@) == Ok::<Seq<ItemView>, ErrView>(
                    items_view(items@) + its,
                ),
                Err(e) => spec_document(input@) == Err::<Seq<ItemView>, ErrView>(e),
            },
        decreases cur@.len(),
    {
        let t = skip_blanks(cur);
        proof {
            lemma_blank_len_le(cur@);
        }
        let ghost b = blank_len(cur@);
        if t.len() == 0 {
            proof {
                assert(spec_document(cur@) == Ok::<Seq<ItemView>, ErrView>(Seq::empty()));
                assert(items_view(items@) + Seq::<ItemView>::empty() =~= items_view(items@));
            }
            return Ok(Document { items });
        }
        let ghost old_items = items@;
        let (next, item) = match parse_item(t) {
            Err(e) => return Err(e),
            Ok(x) => x,
        };
        proof {
            lemma_spec_item_consumed(t@);
        }
        let ghost n = (t@.len() - next@.len()) as nat;
        items.push(item);
        proof {
            assert(items_view(items@) =~= items_view(old_items).push(item@));
            if spec_document(next@) is Ok {
                let its = spec_document(next@)->Ok_0;
                assert(items_view(old_items).push(item@) + its =~= items_view(old_items) + (seq![
                    item@,
                ] + its));
            }
            assert(next@ =~= cur@.skip((b + n) as int));
            assert(next@ =~= input@.skip((done + b + n) as int));
        }
        cur = next;
        proof {
            done = (done + b + n) as nat;
        }
    }
}

} // verus!
