use ledger_lint::account::Account;
use ledger_lint::account_declaration::{account_declaration, AccountDeclaration};
use ledger_lint::commodity::Commodity;
use ledger_lint::commodity_declaration::{commodity_declaration, CommodityDeclaration};
use ledger_lint::declaration::{declaration, Declaration, DeclarationKind};
use ledger_lint::tag::Tag;
use ledger_lint::tag_declaration::{tag_declaration, TagDeclaration};

fn chars(s: &str) -> Vec<char> {
    s.chars().collect()
}

#[test]
fn account_declaration_normal_declaration() {
    let input = chars("account my:long:account\n  extra 1\n  extra 2");
    assert_eq!(
        account_declaration(&input),
        Ok((
            &chars("")[..],
            AccountDeclaration {
                account: Account(chars("my:long:account")),
                extras: vec![chars("extra 1"), chars("extra 2")],
            }
        ))
    );
}

#[test]
fn commodity_declaration_normal_declaration() {
    let input = chars("commodity myCommodity\n  extra 1\n  extra 2");
    assert_eq!(
        commodity_declaration(&input),
        Ok((
            &chars("")[..],
            CommodityDeclaration {
                commodity: Commodity(chars("myCommodity")),
                extras: vec![chars("extra 1"), chars("extra 2")],
            }
        ))
    );
}

#[test]
fn tag_declaration_normal_declaration() {
    let input = chars("tag Payee\n  extra 1\n  extra 2");
    assert_eq!(
        tag_declaration(&input),
        Ok((
            &chars("")[..],
            TagDeclaration {
                tag: Tag(chars("Payee")),
                extras: vec![chars("extra 1"), chars("extra 2")],
            }
        ))
    );
}

#[test]
fn declaration_without_extras() {
    let input = chars("account Expenses:Cash\nnext");
    assert_eq!(
        declaration(&input, DeclarationKind::Account),
        Ok((
            &chars("next")[..],
            Declaration {
                kind: DeclarationKind::Account,
                value: chars("Expenses:Cash"),
                extras: vec![],
            }
        ))
    );
}

#[test]
fn declaration_trailing_spaces_before_line_end() {
    let input = chars("commodity USD   \n");
    assert_eq!(
        declaration(&input, DeclarationKind::Commodity),
        Ok((
            &chars("")[..],
            Declaration {
                kind: DeclarationKind::Commodity,
                value: chars("USD"),
                extras: vec![],
            }
        ))
    );
}

#[test]
fn declaration_keyword_must_match() {
    assert!(declaration(&chars("tag Payee\n"), DeclarationKind::Account).is_err());
    assert!(account_declaration(&chars("accounts x\n")).is_err());
    assert!(tag_declaration(&chars("tag\n")).is_err());
}

#[test]
fn extras_end_before_malformed_line() {
    // An indented line holding a carriage return with no newline after it
    // is not an extra: the run ends and the line stays in the remainder,
    // with the declaration above it succeeding.
    let input = chars("account A\n  \r");
    assert_eq!(
        account_declaration(&input),
        Ok((
            &chars("  \r")[..],
            AccountDeclaration { account: Account(chars("A")), extras: vec![] }
        ))
    );
    let input = chars("commodity C\n  \r");
    assert_eq!(
        commodity_declaration(&input),
        Ok((
            &chars("  \r")[..],
            CommodityDeclaration { commodity: Commodity(chars("C")), extras: vec![] }
        ))
    );
}

#[test]
fn extras_keep_lines_before_malformed_one() {
    let input = chars("tag T\n  good\n  x\ry\n");
    assert_eq!(
        tag_declaration(&input),
        Ok((
            &chars("  x\ry\n")[..],
            TagDeclaration { tag: Tag(chars("T")), extras: vec![chars("good")] }
        ))
    );
}

