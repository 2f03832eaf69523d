use ledger_lint::account::{account, Account};
use ledger_lint::amount::{amount, Amount};
use ledger_lint::commodity::{commodity, Commodity};
use ledger_lint::date::{date, Date};
use ledger_lint::error::ErrorKind;
use ledger_lint::identifier::{identifier, Identifier};
use ledger_lint::tag::{tag, Tag};

fn chars(s: &str) -> Vec<char> {
    s.chars().collect()
}

#[test]
fn without_space() {
    let input = chars("arst  ");
    assert_eq!(identifier(&input), Ok((&chars("  ")[..], Identifier(chars("arst")))));
    let input = chars("arst\t");
    assert_eq!(identifier(&input), Ok((&chars("\t")[..], Identifier(chars("arst")))));
    let input = chars("arst\r\n");
    assert_eq!(identifier(&input), Ok((&chars("\r\n")[..], Identifier(chars("arst")))));
    let input = chars("arst\n");
    assert_eq!(identifier(&input), Ok((&chars("\n")[..], Identifier(chars("arst")))));
    let input = chars("arst:");
    assert_eq!(identifier(&input), Ok((&chars(":")[..], Identifier(chars("arst")))));
    let input = chars("arst");
    assert_eq!(identifier(&input), Ok((&chars("")[..], Identifier(chars("arst")))));
}

#[test]
fn with_space() {
    let input = chars("ar st  ");
    assert_eq!(identifier(&input), Ok((&chars("  ")[..], Identifier(chars("ar st")))));
    let input = chars("ar st\t");
    assert_eq!(identifier(&input), Ok((&chars("\t")[..], Identifier(chars("ar st")))));
    let input = chars("ar st\r\n");
    assert_eq!(identifier(&input), Ok((&chars("\r\n")[..], Identifier(chars("ar st")))));
    let input = chars("ar st\n");
    assert_eq!(identifier(&input), Ok((&chars("\n")[..], Identifier(chars("ar st")))));
    let input = chars("ar st:");
    assert_eq!(identifier(&input), Ok((&chars(":")[..], Identifier(chars("ar st")))));
    let input = chars("ar st");
    assert_eq!(identifier(&input), Ok((&chars("")[..], Identifier(chars("ar st")))));
}

#[test]
fn zero_length() {
    assert!(identifier(&chars("")).is_err());
    assert!(identifier(&chars(":")).is_err());
}

#[test]
fn identifier_rejects_delimiters() {
    for input in [")", "]", "\t", "\n", "  x", "\r\n"] {
        let text = chars(input);
        let e = identifier(&text).unwrap_err();
        assert_eq!(e.kind, ErrorKind::LexicalError);
        assert_eq!(e.remaining, input.chars().count());
    }
}

#[test]
fn one_long() {
    let input = chars("one");
    assert_eq!(account(&input), Ok((&chars("")[..], Account(chars("one")))));
    let input = chars("one  ");
    assert_eq!(account(&input), Ok((&chars("  ")[..], Account(chars("one")))));
    let input = chars("one\t");
    assert_eq!(account(&input), Ok((&chars("\t")[..], Account(chars("one")))));
    let input = chars("one\n");
    assert_eq!(account(&input), Ok((&chars("\n")[..], Account(chars("one")))));
    let input = chars("one\r\n");
    assert_eq!(account(&input), Ok((&chars("\r\n")[..], Account(chars("one")))));
}

#[test]
fn two_long() {
    let input = chars("one:two");
    assert_eq!(account(&input), Ok((&chars("")[..], Account(chars("one:two")))));
    let input = chars("one:two  ");
    assert_eq!(account(&input), Ok((&chars("  ")[..], Account(chars("one:two")))));
    let input = chars("one:two\t");
    assert_eq!(account(&input), Ok((&chars("\t")[..], Account(chars("one:two")))));
    let input = chars("one:two\n");
    assert_eq!(account(&input), Ok((&chars("\n")[..], Account(chars("one:two")))));
    let input = chars("one:two\r\n");
    assert_eq!(account(&input), Ok((&chars("\r\n")[..], Account(chars("one:two")))));
}

#[test]
fn oddities() {
    let input = chars("two words:three words here");
    assert_eq!(
        account(&input),
        Ok((&chars("")[..], Account(chars("two words:three words here"))))
    );
    let input = chars("one:");
    assert_eq!(account(&input), Ok((&chars(":")[..], Account(chars("one")))));
}

#[test]
fn account_leaves_trailing_delimiters() {
    let input = chars("one:two  rest");
    assert_eq!(account(&input), Ok((&chars("  rest")[..], Account(chars("one:two")))));
    let input = chars("a b:c d]x");
    assert_eq!(account(&input), Ok((&chars("]x")[..], Account(chars("a b:c d")))));
}

#[test]
fn commodity_valid() {
    let input = chars("USD");
    assert_eq!(commodity(&input), Ok((&chars("")[..], Commodity(chars("USD")))));
    let input = chars("usd");
    assert_eq!(commodity(&input), Ok((&chars("")[..], Commodity(chars("usd")))));
    let input = chars("USD ");
    assert_eq!(commodity(&input), Ok((&chars(" ")[..], Commodity(chars("USD")))));
    let input = chars("USD\n");
    assert_eq!(commodity(&input), Ok((&chars("\n")[..], Commodity(chars("USD")))));
    let input = chars("USD@");
    assert_eq!(commodity(&input), Ok((&chars("@")[..], Commodity(chars("USD")))));
    let input = chars("$50");
    assert_eq!(commodity(&input), Ok((&chars("50")[..], Commodity(chars("$")))));
}

#[test]
fn commodity_empty_is_lexical_error() {
    let e = commodity(&chars("50 USD")).unwrap_err();
    assert_eq!(e.kind, ErrorKind::LexicalError);
}

#[test]
fn tag_valid() {
    let input = chars("Tag");
    assert_eq!(tag(&input), Ok((&chars("")[..], Tag(chars("Tag")))));
    let input = chars("Tag:");
    assert_eq!(tag(&input), Ok((&chars(":")[..], Tag(chars("Tag")))));
}

#[test]
fn correct_input() {
    let input = chars("1");
    assert_eq!(
        amount(&input),
        Ok((&chars("")[..], Amount { integer: chars("1"), fraction: chars("") }))
    );
    let input = chars("1 ");
    assert_eq!(
        amount(&input),
        Ok((&chars(" ")[..], Amount { integer: chars("1"), fraction: chars("") }))
    );
    let input = chars("1.1");
    assert_eq!(
        amount(&input),
        Ok((&chars("")[..], Amount { integer: chars("1"), fraction: chars("1") }))
    );
    let input = chars("1.1\n");
    assert_eq!(
        amount(&input),
        Ok((&chars("\n")[..], Amount { integer: chars("1"), fraction: chars("1") }))
    );
    let input = chars("123.123");
    assert_eq!(
        amount(&input),
        Ok((&chars("")[..], Amount { integer: chars("123"), fraction: chars("123") }))
    );
}

#[test]
fn partial_input() {
    let input = chars("1.");
    assert_eq!(
        amount(&input),
        Ok((&chars(".")[..], Amount { integer: chars("1"), fraction: chars("") }))
    );
    let input = chars("1$");
    assert_eq!(
        amount(&input),
        Ok((&chars("$")[..], Amount { integer: chars("1"), fraction: chars("") }))
    );
    assert!(amount(&chars("$1")).is_err());
}

#[test]
fn valid_date() {
    let d = Date { year: 2003, month: 4, day: 15 };
    assert_eq!(date(&chars("2003/04/15")), Ok((&chars("")[..], d)));
    assert_eq!(date(&chars("2003/4/15")), Ok((&chars("")[..], d)));

    let d = Date { year: 2003, month: 4, day: 5 };
    assert_eq!(date(&chars("2003/04/5")), Ok((&chars("")[..], d)));
    assert_eq!(date(&chars("2003/04/05")), Ok((&chars("")[..], d)));
}

#[test]
fn invalid_date() {
    assert!(date(&chars("2003/40/15")).is_err());
    assert!(date(&chars("2003/04/55")).is_err());
    assert!(date(&chars("2003/02/30")).is_err());
}

#[test]
fn date_leap_years() {
    let d = Date { year: 2004, month: 2, day: 29 };
    assert_eq!(date(&chars("2004/02/29")), Ok((&chars("")[..], d)));
    assert!(date(&chars("2003/02/29")).is_err());
    assert!(date(&chars("1900/02/29")).is_err());
    let d = Date { year: 2000, month: 2, day: 29 };
    assert_eq!(date(&chars("2000/02/29")), Ok((&chars("")[..], d)));
}

#[test]
fn date_group_widths() {
    let d = Date { year: 3, month: 4, day: 5 };
    assert_eq!(date(&chars("3/4/5 x")), Ok((&chars(" x")[..], d)));
    let e = date(&chars("12345/01/02")).unwrap_err();
    assert_eq!(e.kind, ErrorKind::FormatError);
    assert!(date(&chars("2003/004/15")).is_err());
    assert!(date(&chars("2003/04/015")).is_err());
    let e = date(&chars("2003-04-15")).unwrap_err();
    assert_eq!(e.kind, ErrorKind::FormatError);
    let e = date(&chars("abc")).unwrap_err();
    assert_eq!(e.kind, ErrorKind::LexicalError);
}
