//! The line-oriented lint pass: heuristic checks over the raw lines of a
//! ledger file.
//!
//! Three checks can be enabled: a declaration placed after the first
//! transaction, a transaction dated earlier than the one before it, and
//! an `Income`/`Expense` posting inside a transaction that carries no
//! payee tag.  The checks are pattern matches over already-classified
//! lines; no grammar of the parser is involved.

use vstd::prelude::*;
use vstd::slice::slice_subrange;

use crate::chars::{dec_value, is_digit};
use crate::date::Date;

verus! {

/// Which lint checks run.
#[derive(Debug, Clone, Copy, PartialEq, Eq, Structural)]
pub struct CheckOpts {
    /// Enable all checks.
    pub all: bool,
    /// Warn when an account declaration is found after the first
    /// transaction.
    pub late_declaration: bool,
    /// Warn when an earlier transaction is placed after a later one.
    pub tx_order: bool,
    /// Warn when an `Income` or `Expense` posting has no related payee
    /// tag.
    pub missing_payee: bool,
}

/// One warning, with the one-based line it was found on.
#[derive(Debug, Clone, Copy, PartialEq, Eq, Structural)]
pub enum Finding {
    AccountDeclaration { line: usize },
    TxOrder { line: usize, tx_date: Date, prev_tx_date: Date },
    MissingPayee { line: usize },
}

/// The state of the transaction the scan is currently inside.
#[derive(Debug, Clone, Copy, PartialEq, Eq, Structural)]
pub struct TransactionState {
    pub date: Date,
    pub contains_payee: bool,
}

impl TransactionState {
    /// The state right after a transaction header: its date, and no
    /// payee tag seen yet.
    pub fn new(date: Date) -> (r: Self)
        ensures
            r == (TransactionState { date, contains_payee: false }),
    {
        Self { date, contains_payee: false }
    }
}

/// The scan state of the lint pass.
#[derive(Debug, Clone, Copy, PartialEq, Eq, Structural)]
pub struct State {
    pub line_number: usize,
    pub declarations_done: bool,
    pub transaction: Option<TransactionState>,
}

impl Default for State {
    /// The state before any line was read.
    fn default() -> (r: Self)
        ensures
            r == (State { line_number: 0, declarations_done: false, transaction: None }),
    {
        Self { line_number: 0, declarations_done: false, transaction: None }
    }
}

/// The distance to the first newline in `s`, or the length of `s`.
pub open spec fn nl_at(s: Seq<char>) -> nat
    decreases s.len(),
{
    if s.len() == 0 || s[0] == '\n' {
        0
    } else {
        1 + nl_at(s.skip(1))
    }
}

/// The newline scan never runs past the end of the input, nothing before
/// the break is a newline, and the break itself is one.
pub proof fn lemma_nl_at(s: Seq<char>)
    ensures
        nl_at(s) <= s.len(),
        forall|i: int| 0 <= i < nl_at(s) ==> #[trigger] s[i] != '\n',
        nl_at(s) < s.len() ==> s[nl_at(s) as int] == '\n',
    decreases s.len(),
{
    if s.len() == 0 || s[0] == '\n' {
    } else {
        lemma_nl_at(s.skip(1));
        assert forall|i: int| 0 <= i < nl_at(s) implies #[trigger] s[i] != '\n' by {
            if i > 0 {
                assert(s.skip(1)[i - 1] == s[i]);
            }
        }
        if nl_at(s) < s.len() {
            assert(s.skip(1)[nl_at(s) - 1] == s[nl_at(s) as int]);
        }
    }
}

/// Scanning one character deeper towards the newline.
pub proof fn lemma_nl_at_step(s: Seq<char>, i: int)
    requires
        0 <= i <= s.len(),
        forall|j: int| 0 <= j < i ==> #[trigger] s[j] != '\n',
    ensures
        nl_at(s) == i + nl_at(s.skip(i)),
    decreases i,
{
    if i > 0 {
        assert(s.skip(i - 1).skip(1) =~= s.skip(i));
        lemma_nl_at_step(s, i - 1);
        assert(s.skip(i - 1)[0] == s[i - 1]);
    } else {
        assert(s.skip(0) =~= s);
    }
}

/// A line with its terminator removed: the carriage return of a
/// `"\r\n"` ending is stripped as well.
pub open spec fn strip_cr(l: Seq<char>) -> Seq<char> {
    if l.len() > 0 && l.last() == '\r' {
        l.drop_last()
    } else {
        l
    }
}

/// The lines of `s`, split at newlines, each with its line ending
/// removed; a final line ending opens no further empty line.
pub open spec fn lines_of(s: Seq<char>) -> Seq<Seq<char>>
    decreases s.len(),
{
    if s.len() == 0 {
        Seq::empty()
    } else {
        let k = nl_at(s);
        proof {
            lemma_nl_at(s);
        }
        if k == s.len() {
            seq![strip_cr(s.take(k as int))]
        } else {
            seq![strip_cr(s.take(k as int))] + lines_of(s.skip(k + 1int))
        }
    }
}

/// Whether `l` opens an account declaration: the literal `account`
/// followed by a space.
pub open spec fn is_account_decl_line(l: Seq<char>) -> bool {
    l.len() >= 8 && l.take(8) == seq!['a', 'c', 'c', 'o', 'u', 'n', 't', ' ']
}

/// Whether `l` opens a transaction: four digits, a slash, two digits, a
/// slash, and two digits, at the start of the line.
pub open spec fn is_tx_start(l: Seq<char>) -> bool {
    &&& l.len() >= 10
    &&& (forall|i: int| 0 <= i < 4 ==> is_digit(#[trigger] l[i]))
    &&& l[4] == '/'
    &&& is_digit(l[5]) && is_digit(l[6])
    &&& l[7] == '/'
    &&& is_digit(l[8]) && is_digit(l[9])
}

/// The date named by the first ten characters of a transaction line.
pub open spec fn tx_date_of(l: Seq<char>) -> Date {
    Date {
        year: dec_value(l.subrange(0, 4)) as u32,
        month: dec_value(l.subrange(5, 7)) as u32,
        day: dec_value(l.subrange(8, 10)) as u32,
    }
}

/// Whether the date opening a transaction line names a real calendar
/// day.  On a transaction line whose date does not, the lint pass cannot
/// proceed.
pub open spec fn tx_date_ok(l: Seq<char>) -> bool {
    tx_date_of(l).valid()
}

/// Every transaction line of `s` carries a real calendar date; the lint
/// pass accepts exactly such inputs.
pub open spec fn lint_input_ok(s: Seq<char>) -> bool {
    forall|i: int|
        0 <= i < lines_of(s).len() && is_tx_start(#[trigger] lines_of(s)[i]) ==> tx_date_ok(
            lines_of(s)[i],
        )
}

/// The whitespace class of the lint patterns: the Unicode white-space
/// characters, as a payee tag's optional gap or a posting line's leading
/// indentation may hold any of them.
pub open spec fn is_lint_space(c: char) -> bool {
    ||| c == ' '
    ||| ('\u{9}' <= c && c <= '\u{d}')
    ||| c == '\u{85}'
    ||| c == '\u{a0}'
    ||| c == '\u{1680}'
    ||| ('\u{2000}' <= c && c <= '\u{200a}')
    ||| c == '\u{2028}'
    ||| c == '\u{2029}'
    ||| c == '\u{202f}'
    ||| c == '\u{205f}'
    ||| c == '\u{3000}'
}

/// Whether the literal `Payee:` stands at position `j` of `l`.
pub open spec fn payee_literal_at(l: Seq<char>, j: int) -> bool {
    &&& 0 <= j
    &&& j + 6 <= l.len()
    &&& l.subrange(j, j + 6) == seq!['P', 'a', 'y', 'e', 'e', ':']
}

/// Whether a payee tag starts at position `i`: a semicolon, at most one
/// whitespace character, and the literal `Payee:`.
pub open spec fn payee_tag_at(l: Seq<char>, i: int) -> bool {
    &&& 0 <= i < l.len()
    &&& l[i] == ';'
    &&& (payee_literal_at(l, i + 1) || (i + 1 < l.len() && is_lint_space(l[i + 1])
        && payee_literal_at(l, i + 2)))
}

/// Whether `l` holds a payee tag anywhere.
pub open spec fn has_payee_tag(l: Seq<char>) -> bool {
    exists|i: int| payee_tag_at(l, i)
}

/// How many characters the lint-whitespace run at the front of `l`
/// spans.
pub open spec fn lint_space_run(l: Seq<char>) -> nat
    decreases l.len(),
{
    if l.len() == 0 || !is_lint_space(l[0]) {
        0
    } else {
        1 + lint_space_run(l.skip(1))
    }
}

/// The whitespace run never runs past the end of the line.
pub proof fn lemma_lint_space_run(l: Seq<char>)
    ensures
        lint_space_run(l) <= l.len(),
    decreases l.len(),
{
    if l.len() > 0 && is_lint_space(l[0]) {
        lemma_lint_space_run(l.skip(1));
    }
}

/// Scanning one character deeper into the whitespace run.
pub proof fn lemma_lint_space_run_step(l: Seq<char>, i: int)
    requires
        0 <= i <= l.len(),
        forall|j: int| 0 <= j < i ==> is_lint_space(#[trigger] l[j]),
    ensures
        lint_space_run(l) == i + lint_space_run(l.skip(i)),
    decreases i,
{
    if i > 0 {
        assert(l.skip(i - 1).skip(1) =~= l.skip(i));
        lemma_lint_space_run_step(l, i - 1);
        assert(l.skip(i - 1)[0] == l[i - 1]);
    } else {
        assert(l.skip(0) =~= l);
    }
}

/// Whether `l` is an `Income` or `Expense` posting line: one or more
/// whitespace characters, then one of the two literals.
pub open spec fn is_cashflow_line(l: Seq<char>) -> bool {
    let h = lint_space_run(l) as int;
    let t = l.skip(h);
    &&& h >= 1
    &&& (t.len() >= 6 && t.take(6) == seq!['I', 'n', 'c', 'o', 'm', 'e'] || t.len() >= 7
        && t.take(7) == seq!['E', 'x', 'p', 'e', 'n', 's', 'e'])
}

/// The state before any line was read, at the spec level.
pub open spec fn default_state() -> State {
    State { line_number: 0, declarations_done: false, transaction: None }
}

/// What one line does to the scan state, and the warnings it raises, in
/// the order the checks run: late declaration, transaction order, then
/// missing payee.
pub open spec fn spec_lint_step(l: Seq<char>, n: usize, st: State, opts: CheckOpts) -> (
    State,
    Seq<Finding>,
) {
    let late = opts.all || opts.late_declaration;
    let order = opts.all || opts.tx_order;
    let missing = opts.all || opts.missing_payee;
    let fs0: Seq<Finding> = if late && is_account_decl_line(l) && st.declarations_done {
        seq![Finding::AccountDeclaration { line: n }]
    } else {
        Seq::empty()
    };
    let started = is_tx_start(l);
    let fs1: Seq<Finding> = if started && order && st.transaction is Some && tx_date_of(
        l,
    ).spec_before(st.transaction->Some_0.date) {
        seq![
            Finding::TxOrder {
                line: n,
                tx_date: tx_date_of(l),
                prev_tx_date: st.transaction->Some_0.date,
            },
        ]
    } else {
        Seq::empty()
    };
    let st1 = State {
        line_number: n,
        declarations_done: st.declarations_done || started,
        transaction: if started {
            Some(TransactionState { date: tx_date_of(l), contains_payee: false })
        } else {
            st.transaction
        },
    };
    if missing && st1.transaction is Some {
        let tx = st1.transaction->Some_0;
        if has_payee_tag(l) {
            if is_cashflow_line(l) {
                (st1, fs0 + fs1)
            } else {
                (
                    State {
                        transaction: Some(TransactionState { contains_payee: true, ..tx }),
                        ..st1
                    },
                    fs0 + fs1,
                )
            }
        } else if is_cashflow_line(l) && !tx.contains_payee {
            (st1, fs0 + fs1 + seq![Finding::MissingPayee { line: n }])
        } else {
            (st1, fs0 + fs1)
        }
    } else {
        (st1, fs0 + fs1)
    }
}

/// The warnings that the lines from `lines` onward raise, `n` being the
/// one-based number of the first of them.
pub open spec fn run_lint(lines: Seq<Seq<char>>, n: usize, st: State, opts: CheckOpts) -> Seq<
    Finding,
>
    decreases lines.len(),
{
    if lines.len() == 0 {
        Seq::empty()
    } else {
        let (st2, fs) = spec_lint_step(lines[0], n, st, opts);
        fs + run_lint(lines.drop_first(), (n + 1) as usize, st2, opts)
    }
}

/// Every warning the lint pass raises on `content` under `opts`, in
/// source order.
pub open spec fn spec_analyze(content: Seq<char>, opts: CheckOpts) -> Seq<Finding> {
    run_lint(lines_of(content), 1, default_state(), opts)
}

/// The distance to the first newline in `input`.
fn scan_nl(input: &[char]) -> (n: usize)
    ensures
        n == nl_at(input@),
{
    let mut i: usize = 0;
    while i < input.len() && input[i] != '\n'
        invariant
            0 <= i <= input@.len(),
            forall|j: int| 0 <= j < i ==> #[trigger] input@[j] != '\n',
        decreases input@.len() - i,
    {
        i = i + 1;
    }
    proof {
        lemma_nl_at_step(input@, i as int);
    }
    i
}

/// Whether `l` begins with the characters of `kw`.
fn prefix_matches(l: &[char], kw: &Vec<char>) -> (r: bool)
    ensures
        r == (l@.len() >= kw@.len() && l@.take(kw@.len() as int) == kw@),
{
    if l.len() < kw.len() {
        return false;
    }
    let mut i: usize = 0;
    while i < kw.len()
        invariant
            0 <= i <= kw@.len() <= l@.len(),
            forall|j: int| 0 <= j < i ==> l@[j] == kw@[j],
        decreases kw@.len() - i,
    {
        if l[i] != kw[i] {
            proof {
                assert(l@.take(kw@.len() as int)[i as int] != kw@[i as int]);
            }
            return false;
        }
        i = i + 1;
    }
    proof {
        assert(l@.take(kw@.len() as int) =~= kw@);
    }
    true
}

/// Whether `l` opens an account declaration.
fn account_decl_line(l: &[char]) -> (r: bool)
    ensures
        r == is_account_decl_line(l@),
{
    let kw = vec!['a', 'c', 'c', 'o', 'u', 'n', 't', ' '];
    proof {
        assert(kw@ =~= seq!['a', 'c', 'c', 'o', 'u', 'n', 't', ' ']);
    }
    prefix_matches(l, &kw)
}

/// Whether `l` opens a transaction.
fn tx_start_line(l: &[char]) -> (r: bool)
    ensures
        r == is_tx_start(l@),
{
    if l.len() < 10 {
        return false;
    }
    let r = crate::chars::digit(l[0]) && crate::chars::digit(l[1]) && crate::chars::digit(l[2])
        && crate::chars::digit(l[3]) && l[4] == '/' && crate::chars::digit(l[5])
        && crate::chars::digit(l[6]) && l[7] == '/' && crate::chars::digit(l[8])
        && crate::chars::digit(l[9]);
    proof {
        if r {
            assert forall|i: int| 0 <= i < 4 implies is_digit(#[trigger] l@[i]) by {
                assert(is_digit(l@[0]) && is_digit(l@[1]) && is_digit(l@[2]) && is_digit(l@[3]));
            }
        }
    }
    r
}

/// The date opening a transaction line.
fn tx_date_line(l: &[char]) -> (r: Date)
    requires
        is_tx_start(l@),
    ensures
        r == tx_date_of(l@),
{
    let y = slice_subrange(l, 0, 4);
    let m = slice_subrange(l, 5, 7);
    let d = slice_subrange(l, 8, 10);
    proof {
        assert(y@ =~= l@.subrange(0, 4));
        assert(m@ =~= l@.subrange(5, 7));
        assert(d@ =~= l@.subrange(8, 10));
    }
    Date {
        year: crate::date::run_value(y),
        month: crate::date::run_value(m),
        day: crate::date::run_value(d),
    }
}

/// Whether a payee tag stands anywhere in `l`.
fn payee_line(l: &[char]) -> (r: bool)
    ensures
        r == has_payee_tag(l@),
{
    let kw = vec!['P', 'a', 'y', 'e', 'e', ':'];
    proof {
        assert(kw@ =~= seq!['P', 'a', 'y', 'e', 'e', ':']);
    }
    let mut i: usize = 0;
    while i < l.len()
        invariant
            0 <= i <= l@.len(),
            kw@ == seq!['P', 'a', 'y', 'e', 'e', ':'],
            forall|j: int| 0 <= j < i ==> !payee_tag_at(l@, j),
        decreases l@.len() - i,
    {
        if l[i] == ';' {
            let direct = slice_subrange(l, i + 1, l.len());
            proof {
                assert(direct@ =~= l@.skip(i + 1));
            }
            if prefix_matches(direct, &kw) {
                proof {
                    assert(l@.subrange(i + 1, i + 7) =~= l@.skip(i + 1).take(6));
                    assert(payee_tag_at(l@, i as int));
                }
                return true;
            }
            if i + 1 < l.len() {
                if lint_space(l[i + 1]) {
                    let gapped = slice_subrange(l, i + 2, l.len());
                    proof {
                        assert(gapped@ =~= l@.skip(i + 2));
                    }
                    if prefix_matches(gapped, &kw) {
                        proof {
                            assert(l@.subrange(i + 2, i + 8) =~= l@.skip(i + 2).take(6));
                            assert(payee_tag_at(l@, i as int));
                        }
                        return true;
                    }
                }
            }
        }
        proof {
            assert(!payee_tag_at(l@, i as int)) by {
                if payee_tag_at(l@, i as int) {
                    if payee_literal_at(l@, i + 1) {
                        assert(l@.subrange(i + 1, i + 7) =~= l@.skip(i + 1).take(6));
                    } else {
                        assert(l@.subrange(i + 2, i + 8) =~= l@.skip(i + 2).take(6));
                    }
                }
            }
        }
        i = i + 1;
    }
    proof {
        assert forall|j: int| !payee_tag_at(l@, j) by {
            if 0 <= j < l@.len() {
            }
        }
    }
    false
}

/// Whether `c` is in the whitespace class of the lint patterns.
fn lint_space(c: char) -> (r: bool)
    ensures
        r == is_lint_space(c),
{
    c == ' ' || ('\u{9}' <= c && c <= '\u{d}') || c == '\u{85}' || c == '\u{a0}' || c
        == '\u{1680}' || ('\u{2000}' <= c && c <= '\u{200a}') || c == '\u{2028}' || c
        == '\u{2029}' || c == '\u{202f}' || c == '\u{205f}' || c == '\u{3000}'
}

/// The length of the lint-whitespace run at the front of `l`.
fn scan_lint_space(l: &[char]) -> (n: usize)
    ensures
        n == lint_space_run(l@),
{
    let mut i: usize = 0;
    while i < l.len() && lint_space(l[i])
        invariant
            0 <= i <= l@.len(),
            forall|j: int| 0 <= j < i ==> is_lint_space(#[trigger] l@[j]),
        decreases l@.len() - i,
    {
        i = i + 1;
    }
    proof {
        lemma_lint_space_run_step(l@, i as int);
    }
    i
}

/// Whether `l` is an `Income` or `Expense` posting line.
fn cashflow_line(l: &[char]) -> (r: bool)
    ensures
        r == is_cashflow_line(l@),
{
    let h = scan_lint_space(l);
    proof {
        lemma_lint_space_run(l@);
    }
    if h == 0 {
        return false;
    }
    let t = slice_subrange(l, h, l.len());
    proof {
        assert(t@ =~= l@.skip(h as int));
    }
    let income = vec!['I', 'n', 'c', 'o', 'm', 'e'];
    let expense = vec!['E', 'x', 'p', 'e', 'n', 's', 'e'];
    proof {
        assert(income@ =~= seq!['I', 'n', 'c', 'o', 'm', 'e']);
        assert(expense@ =~= seq!['E', 'x', 'p', 'e', 'n', 's', 'e']);
    }
    prefix_matches(t, &income) || prefix_matches(t, &expense)
}

/// Runs the checks over one line: the resulting state, with the raised
/// warnings pushed onto `findings`.
fn lint_line(l: &[char], n: usize, st: State, opts: &CheckOpts, findings: &mut Vec<Finding>) -> (r:
    State)
    requires
        is_tx_start(l@) ==> tx_date_ok(l@),
    ensures
        ({
            let (st2, fs) = spec_lint_step(l@, n, st, *opts);
            r == st2 && final(findings)@ == old(findings)@ + fs
        }),
{
    let late = opts.all || opts.late_declaration;
    let order = opts.all || opts.tx_order;
    let missing = opts.all || opts.missing_payee;
    let ghost fs_start = findings@;
    if late && account_decl_line(l) && st.declarations_done {
        findings.push(Finding::AccountDeclaration { line: n });
    }
    let started = tx_start_line(l);
    let mut st1 = State {
        line_number: n,
        declarations_done: st.declarations_done,
        transaction: st.transaction,
    };
    if started {
        let d = tx_date_line(l);
        if order {
            if let Some(prev) = st.transaction {
                if d.before(&prev.date) {
                    findings.push(
                        Finding::TxOrder { line: n, tx_date: d, prev_tx_date: prev.date },
                    );
                }
            }
        }
        st1.declarations_done = true;
        st1.transaction = Some(TransactionState::new(d));
    }
    if missing {
        if let Some(tx) = st1.transaction {
            if payee_line(l) {
                if !cashflow_line(l) {
                    st1.transaction = Some(
                        TransactionState { date: tx.date, contains_payee: true },
                    );
                }
            } else if cashflow_line(l) && !tx.contains_payee {
                findings.push(Finding::MissingPayee { line: n });
            }
        }
    }
    proof {
        assert(findings@ =~= fs_start + (spec_lint_step(l@, n, st, *opts).1));
    }
    st1
}

/// Runs the enabled lint checks over `content` and returns every warning
/// in source order.
///
/// The input must be such that every transaction line carries a real
/// calendar date; `tx_dates_valid` tests exactly that.
#[verifier::rlimit(100)]
pub fn analyze(content: &[char], opts: &CheckOpts) -> (r: Vec<Finding>)
    requires
        lint_input_ok(content@),
    ensures
        r@ == spec_analyze(content@, *opts),
{
    let total = content.len();
    let mut findings: Vec<Finding> = Vec::new();
    let mut st = State::default();
    let mut cur: &[char] = content;
    proof {
        assert(findings@ + run_lint(lines_of(cur@), 1, st, *opts) =~= run_lint(
            lines_of(content@),
            1,
            default_state(),
            *opts,
        ));
    }
    while cur.len() > 0
        invariant
            total == content@.len(),
            st.line_number <= content@.len() - cur@.len(),
            lint_input_ok(cur@),
            spec_analyze(content@, *opts) == findings@ + run_lint(
                lines_of(cur@),
                (st.line_number + 1) as usize,
                st,
                *opts,
            ),
        decreases cur@.len(),
    {
        let k = scan_nl(cur);
        proof {
            lemma_nl_at(cur@);
        }
        let line: &[char] = if k > 0 && cur[k - 1] == '\r' {
            slice_subrange(cur, 0, k - 1)
        } else {
            slice_subrange(cur, 0, k)
        };
        let next: &[char] = if k == cur.len() {
            slice_subrange(cur, k, k)
        } else {
            slice_subrange(cur, k + 1, cur.len())
        };
        proof {
            assert(line@ =~= strip_cr(cur@.take(k as int)));
            assert(lines_of(cur@)[0] == line@);
            if k < cur@.len() {
                assert(next@ =~= cur@.skip(k + 1int));
            } else {
                assert(next@ =~= Seq::<char>::empty());
                assert(lines_of(next@) =~= Seq::<Seq<char>>::empty());
            }
            assert(lines_of(cur@) =~= seq![line@] + lines_of(next@));
            assert(is_tx_start(line@) ==> tx_date_ok(line@)) by {
                assert(lines_of(cur@)[0] == line@);
            }
            assert(lint_input_ok(next@)) by {
                assert forall|i: int|
                    0 <= i < lines_of(next@).len() && is_tx_start(
                        #[trigger] lines_of(next@)[i],
                    ) implies tx_date_ok(lines_of(next@)[i]) by {
                    assert(lines_of(cur@)[i + 1] == lines_of(next@)[i]);
                }
            }
        }
        let n = st.line_number + 1;
        let ghost old_st = st;
        let st2 = lint_line(line, n, st, opts, &mut findings);
        proof {
            assert(lines_of(cur@).drop_first() =~= lines_of(next@));
        }
        st = st2;
        cur = next;
    }
    proof {
        assert(lines_of(cur@) =~= Seq::<Seq<char>>::empty());
        assert(findings@ + Seq::<Finding>::empty() =~= findings@);
    }
    findings
}

/// Whether every transaction line of `content` carries a real calendar
/// date, so that `analyze` accepts the input.
#[verifier::rlimit(100)]
pub fn tx_dates_valid(content: &[char]) -> (b: bool)
    ensures
        b == lint_input_ok(content@),
{
    let mut cur: &[char] = content;
    while cur.len() > 0
        invariant
            lint_input_ok(content@) == lint_input_ok(cur@),
        decreases cur@.len(),
    {
        let k = scan_nl(cur);
        proof {
            lemma_nl_at(cur@);
        }
        let line: &[char] = if k > 0 && cur[k - 1] == '\r' {
            slice_subrange(cur, 0, k - 1)
        } else {
            slice_subrange(cur, 0, k)
        };
        let next: &[char] = if k == cur.len() {
            slice_subrange(cur, k, k)
        } else {
            slice_subrange(cur, k + 1, cur.len())
        };
        proof {
            assert(line@ =~= strip_cr(cur@.take(k as int)));
            assert(lines_of(cur@)[0] == line@);
            if k < cur@.len() {
                assert(next@ =~= cur@.skip(k + 1int));
            } else {
                assert(next@ =~= Seq::<char>::empty());
                assert(lines_of(next@) =~= Seq::<Seq<char>>::empty());
            }
            assert(lines_of(cur@) =~= seq![line@] + lines_of(next@));
        }
        if tx_start_line(line) {
            let d = tx_date_line(line);
            if !crate::date::check_ymd(d.year, d.month, d.day) {
                proof {
                    assert(!lint_input_ok(cur@)) by {
                        assert(lines_of(cur@)[0] == line@);
                        assert(is_tx_start(lines_of(cur@)[0]) && !tx_date_ok(lines_of(cur@)[0]));
                    }
                }
                return false;
            }
        }
        proof {
            assert(lint_input_ok(cur@) == lint_input_ok(next@)) by {
                if lint_input_ok(next@) && (is_tx_start(line@) ==> tx_date_ok(line@)) {
                    assert forall|i: int|
                        0 <= i < lines_of(cur@).len() && is_tx_start(
                            #[trigger] lines_of(cur@)[i],
                        ) implies tx_date_ok(lines_of(cur@)[i]) by {
                        if i == 0 {
                        } else {
                            assert(lines_of(cur@)[i] == lines_of(next@)[i - 1]);
                        }
                    }
                }
                if lint_input_ok(cur@) {
                    assert forall|i: int|
                        0 <= i < lines_of(next@).len() && is_tx_start(
                            #[trigger] lines_of(next@)[i],
                        ) implies tx_date_ok(lines_of(next@)[i]) by {
                        assert(lines_of(cur@)[i + 1] == lines_of(next@)[i]);
                    }
                }
            }
        }
        cur = next;
    }
    proof {
        assert(lines_of(cur@) =~= Seq::<Seq<char>>::empty());
    }
    true
}

} // verus!
