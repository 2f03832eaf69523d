use ledger_lint::account::Account;
use ledger_lint::date::Date;
use ledger_lint::declaration::{Declaration, DeclarationKind};
use ledger_lint::document::{parse_document, Document, Item};
use ledger_lint::error::{ContextLabel, ErrorKind};
use ledger_lint::posting::{Posting, PostingType};
use ledger_lint::transaction::Transaction;

fn chars(s: &str) -> Vec<char> {
    s.chars().collect()
}

#[test]
fn document_single_declaration() {
    let input = chars("account Expenses:Cash\n");
    assert_eq!(
        parse_document(&input),
        Ok(Document {
            items: vec![Item::Declaration(Declaration {
                kind: DeclarationKind::Account,
                value: chars("Expenses:Cash"),
                extras: vec![],
            })],
        })
    );
}

#[test]
fn document_empty_inputs() {
    assert_eq!(parse_document(&chars("")), Ok(Document { items: vec![] }));
    assert_eq!(parse_document(&chars("\n\n")), Ok(Document { items: vec![] }));
    assert_eq!(parse_document(&chars("   \n\t\n  ")), Ok(Document { items: vec![] }));
}

#[test]
fn document_header_without_posting() {
    let e = parse_document(&chars("2019/01/02 Coffee\n")).unwrap_err();
    assert_eq!(e.kind, ErrorKind::StructuralError);
}

#[test]
fn document_mixed_items() {
    let input = chars(
        "account Expenses:Cash\n\ncommodity USD\n\n2019/01/02 Coffee\n  Expenses:Cash  5 USD\n  Assets:Bank\n\ntag Payee\n  extra 1\n  extra 2",
    );
    let doc = parse_document(&input).unwrap();
    assert_eq!(doc.items.len(), 4);
    assert_eq!(
        doc.items[0],
        Item::Declaration(Declaration {
            kind: DeclarationKind::Account,
            value: chars("Expenses:Cash"),
            extras: vec![],
        })
    );
    assert_eq!(
        doc.items[1],
        Item::Declaration(Declaration {
            kind: DeclarationKind::Commodity,
            value: chars("USD"),
            extras: vec![],
        })
    );
    assert_eq!(
        doc.items[2],
        Item::Transaction(Transaction {
            date: Date { year: 2019, month: 1, day: 2 },
            description: chars("Coffee"),
            postings: vec![
                Posting {
                    account: Account(chars("Expenses:Cash")),
                    value_expression: chars("5 USD"),
                    posting_type: PostingType::Actual,
                },
                Posting {
                    account: Account(chars("Assets:Bank")),
                    value_expression: chars(""),
                    posting_type: PostingType::Actual,
                },
            ],
        })
    );
    assert_eq!(
        doc.items[3],
        Item::Declaration(Declaration {
            kind: DeclarationKind::Tag,
            value: chars("Payee"),
            extras: vec![chars("extra 1"), chars("extra 2")],
        })
    );
}

#[test]
fn document_alternative_exhausted() {
    let e = parse_document(&chars("  stray indented line\n")).unwrap_err();
    assert_eq!(e.kind, ErrorKind::AlternativeExhausted);
    assert_eq!(e.contexts, vec![ContextLabel::Document]);
}

#[test]
fn document_committed_keyword_fails_hard() {
    let e = parse_document(&chars("account :\n")).unwrap_err();
    assert_eq!(e.kind, ErrorKind::LexicalError);
    assert_eq!(
        e.contexts,
        vec![
            ContextLabel::Identifier,
            ContextLabel::Account,
            ContextLabel::AccountDeclaration,
            ContextLabel::Document,
        ]
    );
}

#[test]
fn document_invalid_date_surfaces_date_error() {
    let e = parse_document(&chars("2019/13/02 Coffee\n  Assets:Bank\n")).unwrap_err();
    assert_eq!(e.kind, ErrorKind::FormatError);
    assert_eq!(
        e.contexts,
        vec![
            ContextLabel::Date,
            ContextLabel::TransactionHeader,
            ContextLabel::Transaction,
            ContextLabel::Document,
        ]
    );
}

#[test]
fn document_error_positions() {
    let input = chars("account Expenses:Cash\n2019/01/02 Coffee\n");
    let e = parse_document(&input).unwrap_err();
    assert_eq!(e.kind, ErrorKind::StructuralError);
    assert_eq!(e.remaining, 0);
}

#[test]
fn document_crlf_line_endings() {
    let input = chars("account Expenses:Cash\r\n\r\n2019/01/02 Coffee\r\n  Assets:Bank\r\n");
    let doc = parse_document(&input).unwrap();
    assert_eq!(doc.items.len(), 2);
    assert_eq!(
        doc.items[1],
        Item::Transaction(Transaction {
            date: Date { year: 2019, month: 1, day: 2 },
            description: chars("Coffee"),
            postings: vec![Posting {
                account: Account(chars("Assets:Bank")),
                value_expression: chars(""),
                posting_type: PostingType::Actual,
            }],
        })
    );
}

#[test]
fn document_items_without_blank_separators() {
    let input = chars("account A\ntag T\n2019/01/02 x\n  (B)  1 USD\n");
    let doc = parse_document(&input).unwrap();
    assert_eq!(doc.items.len(), 3);
    assert_eq!(
        doc.items[2],
        Item::Transaction(Transaction {
            date: Date { year: 2019, month: 1, day: 2 },
            description: chars("x"),
            postings: vec![Posting {
                account: Account(chars("B")),
                value_expression: chars("1 USD"),
                posting_type: PostingType::Virtual,
            }],
        })
    );
}

#[test]
fn document_extras_bind_to_their_declaration() {
    let input = chars("tag T\n  note one\naccount A\n");
    let doc = parse_document(&input).unwrap();
    assert_eq!(doc.items.len(), 2);
    assert_eq!(
        doc.items[0],
        Item::Declaration(Declaration {
            kind: DeclarationKind::Tag,
            value: chars("T"),
            extras: vec![chars("note one")],
        })
    );
}

