use ledger_lint::account::Account;
use ledger_lint::date::Date;
use ledger_lint::error::ErrorKind;
use ledger_lint::guards::{indented, starts_with_content};
use ledger_lint::posting::{posting, Posting, PostingType};
use ledger_lint::transaction::{transaction, Transaction};
use ledger_lint::transaction_header::{header, transaction_header};

fn chars(s: &str) -> Vec<char> {
    s.chars().collect()
}

#[test]
fn starts_with_content_test() {
    let input = chars("arst");
    assert_eq!(starts_with_content(&input), Ok((&chars("arst")[..], ())));
    let input = chars("# comment");
    assert_eq!(starts_with_content(&input), Ok((&chars("# comment")[..], ())));
    assert!(starts_with_content(&chars("\n")).is_err());
    assert!(starts_with_content(&chars(" ")).is_err());
    assert!(starts_with_content(&chars("")).is_err());
}

#[test]
fn indent_test() {
    let input = chars("  a");
    assert_eq!(indented(&input), Ok((&chars("a")[..], ())));
    let input = chars("\ta");
    assert_eq!(indented(&input), Ok((&chars("a")[..], ())));
    let input = chars("\t  a");
    assert_eq!(indented(&input), Ok((&chars("a")[..], ())));
    let input = chars("    a");
    assert_eq!(indented(&input), Ok((&chars("a")[..], ())));
    assert!(indented(&chars("a")).is_err());
    assert!(indented(&chars(" a")).is_err());
    assert!(indented(&chars("\na")).is_err());
}

#[test]
fn header_valid_header() {
    let d = Date { year: 2003, month: 4, day: 15 };
    let input = chars("2003/04/15 description\n");
    assert_eq!(header(&input), Ok((&chars("")[..], (d, chars("description")))));
    let input = chars("2003/4/15 description\r\n");
    assert_eq!(header(&input), Ok((&chars("")[..], (d, chars("description")))));
}

#[test]
fn header_invalid_header() {
    assert!(header(&chars(" arst\n")).is_err());
    assert!(header(&chars("\tarst\n")).is_err());
    assert!(header(&chars("   \tarst\n")).is_err());
    assert!(header(&chars("2003/4/ asrtn\n")).is_err());
}

#[test]
fn header_requires_line_ending() {
    assert!(header(&chars("2003/04/15 description")).is_err());
    let d = Date { year: 2003, month: 4, day: 15 };
    let input = chars("2003/04/15 description");
    assert_eq!(
        transaction_header(&input),
        Ok((&chars("")[..], (d, chars("description"))))
    );
}

#[test]
fn transaction_header_valid_header() {
    let d = Date { year: 2003, month: 4, day: 15 };
    let input = chars("2003/04/15 description\n");
    assert_eq!(transaction_header(&input), Ok((&chars("")[..], (d, chars("description")))));
    let input = chars("2003/4/15 description\r\n");
    assert_eq!(transaction_header(&input), Ok((&chars("")[..], (d, chars("description")))));
}

#[test]
fn transaction_header_invalid_header() {
    assert!(transaction_header(&chars(" arst\n")).is_err());
    assert!(transaction_header(&chars("\tarst\n")).is_err());
    assert!(transaction_header(&chars("   \tarst\n")).is_err());
    assert!(transaction_header(&chars("2003/4/ asrtn\n")).is_err());
}

#[test]
fn space_indented() {
    let input = chars("    account    value\n");
    assert_eq!(
        posting(&input),
        Ok((
            &chars("")[..],
            Posting {
                account: Account(chars("account")),
                value_expression: chars("value"),
                posting_type: PostingType::Actual,
            }
        ))
    );
    let input = chars("    account:two  value\r\n");
    assert_eq!(
        posting(&input),
        Ok((
            &chars("")[..],
            Posting {
                account: Account(chars("account:two")),
                value_expression: chars("value"),
                posting_type: PostingType::Actual,
            }
        ))
    );
}

#[test]
fn tab_indented() {
    let input = chars("\taccount\tvalue\n");
    assert_eq!(
        posting(&input),
        Ok((
            &chars("")[..],
            Posting {
                account: Account(chars("account")),
                value_expression: chars("value"),
                posting_type: PostingType::Actual,
            }
        ))
    );
    let input = chars("\taccount:two\tvalue\r\n");
    assert_eq!(
        posting(&input),
        Ok((
            &chars("")[..],
            Posting {
                account: Account(chars("account:two")),
                value_expression: chars("value"),
                posting_type: PostingType::Actual,
            }
        ))
    );
}

#[test]
fn mix_indented() {
    let input = chars("\t  \taccount  \tvalue string\n");
    assert_eq!(
        posting(&input),
        Ok((
            &chars("")[..],
            Posting {
                account: Account(chars("account")),
                value_expression: chars("value string"),
                posting_type: PostingType::Actual,
            }
        ))
    );
}

#[test]
fn not_indented() {
    let e = posting(&chars("arst\n")).unwrap_err();
    assert_eq!(e.kind, ErrorKind::StructuralError);
}

#[test]
fn virtual_posting() {
    let input = chars("    (account)    value\n");
    assert_eq!(
        posting(&input),
        Ok((
            &chars("")[..],
            Posting {
                account: Account(chars("account")),
                value_expression: chars("value"),
                posting_type: PostingType::Virtual,
            }
        ))
    );
}

#[test]
fn virtual_balanced() {
    let input = chars("    [account]    value\n");
    assert_eq!(
        posting(&input),
        Ok((
            &chars("")[..],
            Posting {
                account: Account(chars("account")),
                value_expression: chars("value"),
                posting_type: PostingType::VirtualBalanced,
            }
        ))
    );
}

#[test]
fn mixed_virtual_type() {
    let e = posting(&chars("    [account)    value\n")).unwrap_err();
    assert_eq!(e.kind, ErrorKind::StructuralError);
}

#[test]
fn virtual_with_amount_text() {
    let input = chars("    (acct)  10 USD\n");
    assert_eq!(
        posting(&input),
        Ok((
            &chars("")[..],
            Posting {
                account: Account(chars("acct")),
                value_expression: chars("10 USD"),
                posting_type: PostingType::Virtual,
            }
        ))
    );
    assert!(posting(&chars("    [acct)  10 USD\n")).is_err());
}

#[test]
fn posting_without_value_text() {
    let input = chars("  Assets:Bank\n");
    assert_eq!(
        posting(&input),
        Ok((
            &chars("")[..],
            Posting {
                account: Account(chars("Assets:Bank")),
                value_expression: chars(""),
                posting_type: PostingType::Actual,
            }
        ))
    );
}

#[test]
fn valid_transaction() {
    let d = Date { year: 2003, month: 4, day: 15 };
    let input = chars("2003/04/15 Header\n  Posting1  value1\n\tPosting2\tvalue2\n");
    assert_eq!(
        transaction(&input),
        Ok((
            &chars("")[..],
            Transaction {
                date: d,
                description: chars("Header"),
                postings: vec![
                    Posting {
                        account: Account(chars("Posting1")),
                        value_expression: chars("value1"),
                        posting_type: PostingType::Actual,
                    },
                    Posting {
                        account: Account(chars("Posting2")),
                        value_expression: chars("value2"),
                        posting_type: PostingType::Actual,
                    },
                ],
            }
        ))
    );
}

#[test]
fn bad_indentation() {
    assert!(
        transaction(&chars("  2003/04/15 Header\n  Posting1  value1\n  Posting2  value2\n"))
            .is_err()
    );
    assert!(
        transaction(&chars("2003/04/15 Header\nPosting1  value1\n  Posting2  value2\n")).is_err()
    );
    match transaction(&chars("2003/04/15 Header\n  Posting1  value1\nPosting2  value2\n")) {
        Ok((leftover, _)) => assert!(!leftover.is_empty()),
        Err(_) => {},
    }
}

#[test]
fn transaction_with_empty_value_posting() {
    let d = Date { year: 2019, month: 1, day: 2 };
    let input = chars("2019/01/02 Coffee\n  Expenses:Cash  5 USD\n  Assets:Bank\n");
    assert_eq!(
        transaction(&input),
        Ok((
            &chars("")[..],
            Transaction {
                date: d,
                description: chars("Coffee"),
                postings: vec![
                    Posting {
                        account: Account(chars("Expenses:Cash")),
                        value_expression: chars("5 USD"),
                        posting_type: PostingType::Actual,
                    },
                    Posting {
                        account: Account(chars("Assets:Bank")),
                        value_expression: chars(""),
                        posting_type: PostingType::Actual,
                    },
                ],
            }
        ))
    );
}

#[test]
fn transaction_without_postings() {
    let e = transaction(&chars("2019/01/02 Coffee\n")).unwrap_err();
    assert_eq!(e.kind, ErrorKind::StructuralError);
}
