//! Character classes and digit-run helpers shared by the scanners.
//!
//! All classes are ASCII: the grammar's delimiters and keywords are ASCII
//! characters, so multi-byte text passes through the scanners untouched.

use vstd::prelude::*;

verus! {

/// An ASCII decimal digit, `'0'` through `'9'`.
pub open spec fn is_digit(c: char) -> bool {
    '0' <= c && c <= '9'
}

/// Horizontal whitespace: a space or a tab.
pub open spec fn is_hspace(c: char) -> bool {
    c == ' ' || c == '\t'
}

/// An ASCII letter or digit.
pub open spec fn is_alphanumeric(c: char) -> bool {
    ('a' <= c && c <= 'z') || ('A' <= c && c <= 'Z') || is_digit(c)
}

/// The numeric value of an ASCII digit.
pub open spec fn digit_value(c: char) -> nat
    recommends
        is_digit(c),
{
    ((c as int) - ('0' as int)) as nat
}

/// How many characters the run of ASCII digits at the front of `s` spans.
pub open spec fn digit_run_len(s: Seq<char>) -> nat
    decreases s.len(),
{
    if s.len() == 0 || !is_digit(s[0]) {
        0
    } else {
        1 + digit_run_len(s.skip(1))
    }
}

/// How many characters the run of horizontal whitespace at the front of `s` spans.
pub open spec fn hspace_run_len(s: Seq<char>) -> nat
    decreases s.len(),
{
    if s.len() == 0 || !is_hspace(s[0]) {
        0
    } else {
        1 + hspace_run_len(s.skip(1))
    }
}

/// How many characters the run of ASCII letters and digits at the front of
/// `s` spans.
pub open spec fn alnum_run_len(s: Seq<char>) -> nat
    decreases s.len(),
{
    if s.len() == 0 || !is_alphanumeric(s[0]) {
        0
    } else {
        1 + alnum_run_len(s.skip(1))
    }
}

/// The distance to the first carriage return or newline in `s`, or the
/// length of `s` when it holds neither.
pub open spec fn line_break_at(s: Seq<char>) -> nat
    decreases s.len(),
{
    if s.len() == 0 || s[0] == '\r' || s[0] == '\n' {
        0
    } else {
        1 + line_break_at(s.skip(1))
    }
}

/// Whether the rest of the current line is well formed: it runs to the end
/// of the input, to a newline, or to a carriage return that a newline
/// follows.  A lone carriage return is malformed.
pub open spec fn rest_of_line_ok(s: Seq<char>) -> bool {
    let k = line_break_at(s);
    ||| k == s.len()
    ||| s[k as int] == '\n'
    ||| (k + 1 < s.len() && s[k + 1int] == '\n')
}

/// How many characters the line ending at the break point spans: nothing
/// at the end of the input, one for a newline, two for a carriage return
/// and newline.
pub open spec fn line_end_len(s: Seq<char>) -> nat {
    let k = line_break_at(s);
    if k == s.len() {
        0
    } else if s[k as int] == '\n' {
        1
    } else {
        2
    }
}

/// The break point never runs past the end of the input, nothing before
/// it is a carriage return or newline, and the character at it is one of
/// the two.
pub proof fn lemma_line_break_at(s: Seq<char>)
    ensures
        line_break_at(s) <= s.len(),
        forall|i: int|
            0 <= i < line_break_at(s) ==> #[trigger] s[i] != '\r' && s[i] != '\n',
        line_break_at(s) < s.len() ==> s[line_break_at(s) as int] == '\r' || s[line_break_at(
            s,
        ) as int] == '\n',
    decreases s.len(),
{
    if s.len() == 0 || s[0] == '\r' || s[0] == '\n' {
    } else {
        lemma_line_break_at(s.skip(1));
        assert forall|i: int|
            0 <= i < line_break_at(s) implies #[trigger] s[i] != '\r' && s[i] != '\n' by {
            if i > 0 {
                assert(s.skip(1)[i - 1] == s[i]);
            }
        }
        if line_break_at(s) < s.len() {
            assert(s.skip(1)[line_break_at(s) - 1] == s[line_break_at(s) as int]);
        }
    }
}

/// Scanning one character deeper towards the line break.
pub proof fn lemma_line_break_at_step(s: Seq<char>, i: int)
    requires
        0 <= i <= s.len(),
        forall|j: int| 0 <= j < i ==> #[trigger] s[j] != '\r' && s[j] != '\n',
    ensures
        line_break_at(s) == i + line_break_at(s.skip(i)),
    decreases i,
{
    if i > 0 {
        assert(s.skip(i - 1).skip(1) =~= s.skip(i));
        lemma_line_break_at_step(s, i - 1);
        assert(s.skip(i - 1)[0] == s[i - 1]);
    } else {
        assert(s.skip(0) =~= s);
    }
}

/// The distance to the first carriage return or newline in `input`.
pub fn scan_line_break(input: &[char]) -> (n: usize)
    ensures
        n == line_break_at(input@),
{
    let mut i: usize = 0;
    while i < input.len() && input[i] != '\r' && input[i] != '\n'
        invariant
            0 <= i <= input@.len(),
            forall|j: int| 0 <= j < i ==> #[trigger] input@[j] != '\r' && input@[j] != '\n',
        decreases input@.len() - i,
    {
        i = i + 1;
    }
    proof {
        lemma_line_break_at_step(input@, i as int);
    }
    i
}

/// The value of a sequence of ASCII digits read in base ten.
pub open spec fn dec_value(s: Seq<char>) -> nat
    decreases s.len(),
{
    if s.len() == 0 {
        0
    } else {
        dec_value(s.drop_last()) * 10 + digit_value(s.last())
    }
}

/// A run length never exceeds the length of the sequence, and every
/// character inside the run is a digit while the character just past a
/// maximal run is not.
pub proof fn lemma_digit_run_len(s: Seq<char>)
    ensures
        digit_run_len(s) <= s.len(),
        forall|i: int| 0 <= i < digit_run_len(s) ==> is_digit(#[trigger] s[i]),
        digit_run_len(s) < s.len() ==> !is_digit(s[digit_run_len(s) as int]),
    decreases s.len(),
{
    if s.len() == 0 || !is_digit(s[0]) {
    } else {
        lemma_digit_run_len(s.skip(1));
        assert forall|i: int| 0 <= i < digit_run_len(s) implies is_digit(#[trigger] s[i]) by {
            if i > 0 {
                assert(s.skip(1)[i - 1] == s[i]);
            }
        }
        if digit_run_len(s) < s.len() {
            assert(s.skip(1)[digit_run_len(s) - 1] == s[digit_run_len(s) as int]);
        }
    }
}

/// The counterpart of `lemma_digit_run_len` for horizontal whitespace.
pub proof fn lemma_hspace_run_len(s: Seq<char>)
    ensures
        hspace_run_len(s) <= s.len(),
        forall|i: int| 0 <= i < hspace_run_len(s) ==> is_hspace(#[trigger] s[i]),
        hspace_run_len(s) < s.len() ==> !is_hspace(s[hspace_run_len(s) as int]),
    decreases s.len(),
{
    if s.len() == 0 || !is_hspace(s[0]) {
    } else {
        lemma_hspace_run_len(s.skip(1));
        assert forall|i: int| 0 <= i < hspace_run_len(s) implies is_hspace(#[trigger] s[i]) by {
            if i > 0 {
                assert(s.skip(1)[i - 1] == s[i]);
            }
        }
        if hspace_run_len(s) < s.len() {
            assert(s.skip(1)[hspace_run_len(s) - 1] == s[hspace_run_len(s) as int]);
        }
    }
}

/// The counterpart of `lemma_digit_run_len` for letters and digits.
pub proof fn lemma_alnum_run_len(s: Seq<char>)
    ensures
        alnum_run_len(s) <= s.len(),
        forall|i: int| 0 <= i < alnum_run_len(s) ==> is_alphanumeric(#[trigger] s[i]),
        alnum_run_len(s) < s.len() ==> !is_alphanumeric(s[alnum_run_len(s) as int]),
    decreases s.len(),
{
    if s.len() == 0 || !is_alphanumeric(s[0]) {
    } else {
        lemma_alnum_run_len(s.skip(1));
        assert forall|i: int| 0 <= i < alnum_run_len(s) implies is_alphanumeric(
            #[trigger] s[i],
        ) by {
            if i > 0 {
                assert(s.skip(1)[i - 1] == s[i]);
            }
        }
        if alnum_run_len(s) < s.len() {
            assert(s.skip(1)[alnum_run_len(s) - 1] == s[alnum_run_len(s) as int]);
        }
    }
}

/// Scanning one character deeper into a digit run.
pub proof fn lemma_digit_run_len_step(s: Seq<char>, i: int)
    requires
        0 <= i <= s.len(),
        forall|j: int| 0 <= j < i ==> is_digit(#[trigger] s[j]),
    ensures
        digit_run_len(s) == i + digit_run_len(s.skip(i)),
    decreases i,
{
    if i > 0 {
        assert(s.skip(i - 1).skip(1) =~= s.skip(i));
        lemma_digit_run_len_step(s, i - 1);
        assert(s.skip(i - 1)[0] == s[i - 1]);
    } else {
        assert(s.skip(0) =~= s);
    }
}

/// Scanning one character deeper into a whitespace run.
pub proof fn lemma_hspace_run_len_step(s: Seq<char>, i: int)
    requires
        0 <= i <= s.len(),
        forall|j: int| 0 <= j < i ==> is_hspace(#[trigger] s[j]),
    ensures
        hspace_run_len(s) == i + hspace_run_len(s.skip(i)),
    decreases i,
{
    if i > 0 {
        assert(s.skip(i - 1).skip(1) =~= s.skip(i));
        lemma_hspace_run_len_step(s, i - 1);
        assert(s.skip(i - 1)[0] == s[i - 1]);
    } else {
        assert(s.skip(0) =~= s);
    }
}

/// Scanning one character deeper into a letter-and-digit run.
pub proof fn lemma_alnum_run_len_step(s: Seq<char>, i: int)
    requires
        0 <= i <= s.len(),
        forall|j: int| 0 <= j < i ==> is_alphanumeric(#[trigger] s[j]),
    ensures
        alnum_run_len(s) == i + alnum_run_len(s.skip(i)),
    decreases i,
{
    if i > 0 {
        assert(s.skip(i - 1).skip(1) =~= s.skip(i));
        lemma_alnum_run_len_step(s, i - 1);
        assert(s.skip(i - 1)[0] == s[i - 1]);
    } else {
        assert(s.skip(0) =~= s);
    }
}

/// Whether `c` is an ASCII decimal digit.
pub fn digit(c: char) -> (r: bool)
    ensures
        r == is_digit(c),
{
    '0' <= c && c <= '9'
}

/// Whether `c` is a space or a tab.
pub fn hspace(c: char) -> (r: bool)
    ensures
        r == is_hspace(c),
{
    c == ' ' || c == '\t'
}

/// Whether `c` is an ASCII letter or digit.
pub fn alphanumeric(c: char) -> (r: bool)
    ensures
        r == is_alphanumeric(c),
{
    ('a' <= c && c <= 'z') || ('A' <= c && c <= 'Z') || ('0' <= c && c <= '9')
}

/// The length of the digit run at the front of `input`.
pub fn scan_digit_run(input: &[char]) -> (n: usize)
    ensures
        n == digit_run_len(input@),
{
    let mut i: usize = 0;
    while i < input.len() && digit(input[i])
        invariant
            0 <= i <= input@.len(),
            forall|j: int| 0 <= j < i ==> is_digit(#[trigger] input@[j]),
        decreases input@.len() - i,
    {
        i = i + 1;
    }
    proof {
        lemma_digit_run_len_step(input@, i as int);
    }
    i
}

/// The length of the letter-and-digit run at the front of `input`.
pub fn scan_alnum_run(input: &[char]) -> (n: usize)
    ensures
        n == alnum_run_len(input@),
{
    let mut i: usize = 0;
    while i < input.len() && alphanumeric(input[i])
        invariant
            0 <= i <= input@.len(),
            forall|j: int| 0 <= j < i ==> is_alphanumeric(#[trigger] input@[j]),
        decreases input@.len() - i,
    {
        i = i + 1;
    }
    proof {
        lemma_alnum_run_len_step(input@, i as int);
    }
    i
}

/// The length of the horizontal-whitespace run at the front of `input`.
pub fn scan_hspace_run(input: &[char]) -> (n: usize)
    ensures
        n == hspace_run_len(input@),
{
    let mut i: usize = 0;
    while i < input.len() && hspace(input[i])
        invariant
            0 <= i <= input@.len(),
            forall|j: int| 0 <= j < i ==> is_hspace(#[trigger] input@[j]),
        decreases input@.len() - i,
    {
        i = i + 1;
    }
    proof {
        lemma_hspace_run_len_step(input@, i as int);
    }
    i
}

} // verus!
