use ledger_lint::cli::{exec, Command};
use ledger_lint::date::Date;
use ledger_lint::lint::{analyze, tx_dates_valid, CheckOpts, Finding};

fn chars(s: &str) -> Vec<char> {
    s.chars().collect()
}

fn all_checks() -> CheckOpts {
    CheckOpts { all: true, late_declaration: false, missing_payee: false, tx_order: false }
}

#[test]
fn empty_file() {
    let opts = all_checks();
    assert_eq!(analyze(&chars(""), &opts).len(), 0);
}

#[test]
fn ok() {
    let opts = all_checks();

    let file = "
account Expenses:Cash
account Equity

2019/01/01 * Tx text
    ; Payee: myPayee
    Expenses:Cash     320 CHF
    Equity

2019/01/01 * Tx text
    Expenses:Cash     320 CHF ; Payee: myPayee
    Equity
";
    assert_eq!(analyze(&chars(file), &opts).len(), 0);
}

#[test]
fn late_declaration() {
    let opts = all_checks();

    let file = "
account Expenses:Cash

2019/01/01 * Tx text
    ; Payee: myPayee
    Expenses:Cash     320 CHF
    Equity

account Equity
";
    assert_eq!(analyze(&chars(file), &opts).len(), 1);
}

#[test]
fn missing_payee() {
    let opts = all_checks();

    let file = "
account Expenses:Cash
account Equity

2019/01/01 * Tx text
    Expenses:Cash     320 CHF
    Equity
";
    assert_eq!(analyze(&chars(file), &opts).len(), 1);
}

#[test]
fn tx_order() {
    let opts = all_checks();

    let file = "
account Expenses:Cash
account Equity

2019/02/02 * Tx text
    ; Payee: myPayee
    Expenses:Cash     320 CHF
    Equity

2019/01/01 * Tx text
    Expenses:Cash     320 CHF ; Payee: myPayee
    Equity
";
    assert_eq!(analyze(&chars(file), &opts).len(), 1);
}

#[test]
fn tx_order_reports_both_dates() {
    let opts = all_checks();
    let file = "2019/02/02 one\n2019/01/01 two\n";
    let findings = analyze(&chars(file), &opts);
    assert_eq!(
        findings,
        vec![Finding::TxOrder {
            line: 2,
            tx_date: Date { year: 2019, month: 1, day: 1 },
            prev_tx_date: Date { year: 2019, month: 2, day: 2 },
        }]
    );
}

#[test]
fn late_declaration_line_number() {
    let opts = all_checks();
    let file = "2019/01/01 tx\n    ; Payee: p\naccount Equity\n";
    let findings = analyze(&chars(file), &opts);
    assert_eq!(findings, vec![Finding::AccountDeclaration { line: 3 }]);
}

#[test]
fn missing_payee_line_number() {
    let opts = all_checks();
    let file = "2019/01/01 tx\n    Expenses:Cash  1 CHF\n";
    let findings = analyze(&chars(file), &opts);
    assert_eq!(findings, vec![Finding::MissingPayee { line: 2 }]);
}

#[test]
fn payee_tag_gap_variants() {
    let opts = all_checks();
    let with_space = "2019/01/01 tx\n    ;\tPayee: p\n    Expenses:Cash  1 CHF\n";
    assert_eq!(analyze(&chars(with_space), &opts).len(), 0);
    let no_gap = "2019/01/01 tx\n    ;Payee: p\n    Expenses:Cash  1 CHF\n";
    assert_eq!(analyze(&chars(no_gap), &opts).len(), 0);
    let wide_gap = "2019/01/01 tx\n    ;  Payee: p\n    Expenses:Cash  1 CHF\n";
    assert_eq!(analyze(&chars(wide_gap), &opts).len(), 1);
}

#[test]
fn disabled_checks_stay_silent() {
    let opts = CheckOpts {
        all: false,
        late_declaration: false,
        missing_payee: false,
        tx_order: false,
    };
    let file = "2019/02/02 one\n2019/01/01 two\n    Expenses:Cash  1 CHF\naccount Equity\n";
    assert_eq!(analyze(&chars(file), &opts).len(), 0);
}

#[test]
fn tx_dates_valid_accepts_and_rejects() {
    assert!(tx_dates_valid(&chars("account Equity\n2019/01/01 tx\n")));
    assert!(!tx_dates_valid(&chars("2019/13/01 tx\n")));
    assert!(!tx_dates_valid(&chars("account Equity\n2019/02/30 tx\n")));
    assert!(tx_dates_valid(&chars("")));
}

#[test]
fn exec_dispatches_check() {
    let content = chars("2019/01/01 tx\n    Expenses:Cash  1 CHF\n");
    let findings = exec(&content, &Command::Check(all_checks()));
    assert_eq!(findings, vec![Finding::MissingPayee { line: 2 }]);
}

#[test]
fn crlf_lines_are_linted_alike() {
    let opts = all_checks();
    let file = "2019/02/02 one\r\n2019/01/01 two\r\n";
    let findings = analyze(&chars(file), &opts);
    assert_eq!(
        findings,
        vec![Finding::TxOrder {
            line: 2,
            tx_date: Date { year: 2019, month: 1, day: 1 },
            prev_tx_date: Date { year: 2019, month: 2, day: 2 },
        }]
    );
}

#[test]
fn unicode_whitespace_in_lint_patterns() {
    let opts = all_checks();
    // A payee tag separated from its semicolon by a no-break space still counts.
    let nbsp_gap = "2019/01/01 tx\n    ;\u{a0}Payee: p\n    Expenses:Cash  1 CHF\n";
    assert_eq!(analyze(&chars(nbsp_gap), &opts).len(), 0);
    // A cashflow posting indented with an ideographic space is still a posting.
    let wide_indent = "2019/01/01 tx\n\u{3000}Expenses:Cash  1 CHF\n";
    assert_eq!(
        analyze(&chars(wide_indent), &opts),
        vec![Finding::MissingPayee { line: 2 }]
    );
}

