//! The scanner that recognizes the user-agent shape in a header value.
//!
//! [`find_shape`] walks the string left to right, taking each run of
//! characters as far as it reaches. Because every boundary character of the
//! shape falls outside the class of the run before it, the shape's boundary
//! positions are determined by the string, and a failed check at any point
//! rules out every choice of boundaries, not just the one the scanner tried.

use vstd::prelude::*;

use crate::pattern::digit;
use crate::pattern::digit_val;
use crate::pattern::digits_val;
use crate::pattern::dot_digit;
use crate::pattern::lemma_digits_val_step;
use crate::pattern::lemma_digit_run_unique;
use crate::pattern::lemma_dot_digit_run_unique;
use crate::pattern::lemma_word_run_unique;
use crate::pattern::shape_at;
use crate::pattern::space_char;
use crate::pattern::MIN_SUPPORTED_MAJOR;
use crate::pattern::spec_prefix;
use crate::pattern::word_char;

verus! {

/// Whether `c` is a decimal digit.
pub fn is_digit_char(c: char) -> (r: bool)
    ensures
        r == digit(c),
{
    '0' <= c && c <= '9'
}

/// Whether `c` is a decimal digit or a dot.
pub fn is_dot_digit_char(c: char) -> (r: bool)
    ensures
        r == dot_digit(c),
{
    c == '.' || ('0' <= c && c <= '9')
}

/// Whether `c` is a word character.
pub fn is_word_char(c: char) -> (r: bool)
    ensures
        r == word_char(c),
{
    ('a' <= c && c <= 'z') || ('A' <= c && c <= 'Z') || ('0' <= c && c <= '9') || c == '_'
}

/// Whether `c` is whitespace.
pub fn is_space_char(c: char) -> (r: bool)
    ensures
        r == space_char(c),
{
    c == ' ' || c == '\t' || c == '\n' || c == '\r' || c == '\x0b' || c == '\x0c' || c == '\u{85}'
        || c == '\u{a0}' || c == '\u{1680}' || ('\u{2000}' <= c && c <= '\u{200a}')
        || c == '\u{2028}' || c == '\u{2029}' || c == '\u{202f}' || c == '\u{205f}'
        || c == '\u{3000}'
}

/// The character of the fixed prefix at position `i`.
fn prefix_char(i: usize) -> (c: char)
    requires
        i < 17,
    ensures
        c == spec_prefix()[i as int],
{
    match i {
        0 => 'F',
        1 => 'i',
        2 => 'r',
        3 => 'e',
        4 => 'f',
        5 => 'o',
        6 => 'x',
        7 => '-',
        8 => 'i',
        9 => 'O',
        10 => 'S',
        11 => '-',
        12 => 'S',
        13 => 'y',
        14 => 'n',
        15 => 'c',
        _ => '/',
    }
}

/// The end of the run of digits that starts at `start`: the first position at
/// or after `start` that holds no digit, or the end of the string.
#[verifier::loop_isolation(false)]
fn scan_digits(s: &str, start: usize, n: usize) -> (e: usize)
    requires
        n == s@.len(),
        start <= n,
    ensures
        start <= e <= n,
        forall|j: int| start <= j < e ==> digit(#[trigger] s@[j]),
        e < n ==> !digit(s@[e as int]),
{
    let mut i = start;
    while i < n
        invariant
            start <= i <= n,
            forall|j: int| start <= j < i ==> digit(#[trigger] s@[j]),
        decreases n - i,
    {
        if !is_digit_char(s.get_char(i)) {
            return i;
        }
        i += 1;
    }
    i
}

/// The end of the run of digits and dots that starts at `start`.
#[verifier::loop_isolation(false)]
fn scan_dot_digits(s: &str, start: usize, n: usize) -> (e: usize)
    requires
        n == s@.len(),
        start <= n,
    ensures
        start <= e <= n,
        forall|j: int| start <= j < e ==> dot_digit(#[trigger] s@[j]),
        e < n ==> !dot_digit(s@[e as int]),
{
    let mut i = start;
    while i < n
        invariant
            start <= i <= n,
            forall|j: int| start <= j < i ==> dot_digit(#[trigger] s@[j]),
        decreases n - i,
    {
        if !is_dot_digit_char(s.get_char(i)) {
            return i;
        }
        i += 1;
    }
    i
}

/// The end of the run of word characters that starts at `start`.
#[verifier::loop_isolation(false)]
fn scan_word_chars(s: &str, start: usize, n: usize) -> (e: usize)
    requires
        n == s@.len(),
        start <= n,
    ensures
        start <= e <= n,
        forall|j: int| start <= j < e ==> word_char(#[trigger] s@[j]),
        e < n ==> !word_char(s@[e as int]),
{
    let mut i = start;
    while i < n
        invariant
            start <= i <= n,
            forall|j: int| start <= j < i ==> word_char(#[trigger] s@[j]),
        decreases n - i,
    {
        if !is_word_char(s.get_char(i)) {
            return i;
        }
        i += 1;
    }
    i
}

/// The numeric value of one digit character.
fn digit_value(c: char) -> (d: u32)
    requires
        digit(c),
    ensures
        d as int == digit_val(c),
{
    match c {
        '0' => 0,
        '1' => 1,
        '2' => 2,
        '3' => 3,
        '4' => 4,
        '5' => 5,
        '6' => 6,
        '7' => 7,
        '8' => 8,
        _ => 9,
    }
}

/// The decimal value of the digits in `s[lo..hi)`, capped at the version
/// threshold: every value at or past the cap reports the cap itself, which
/// keeps the arithmetic small and still decides `value < threshold` exactly.
#[verifier::loop_isolation(false)]
pub(crate) fn capped_digits_value(s: &str, lo: usize, hi: usize) -> (v: u32)
    requires
        lo <= hi <= s@.len(),
        forall|j: int| lo <= j < hi ==> digit(#[trigger] s@[j]),
    ensures
        v as int == if digits_val(s@.subrange(lo as int, hi as int)) <= MIN_SUPPORTED_MAJOR as int {
            digits_val(s@.subrange(lo as int, hi as int))
        } else {
            MIN_SUPPORTED_MAJOR as int
        },
{
    let mut v: u32 = 0;
    let mut i = lo;
    while i < hi
        invariant
            lo <= i <= hi,
            v as int == if digits_val(s@.subrange(lo as int, i as int)) <= MIN_SUPPORTED_MAJOR as int {
                digits_val(s@.subrange(lo as int, i as int))
            } else {
                MIN_SUPPORTED_MAJOR as int
            },
        decreases hi - i,
    {
        let d = digit_value(s.get_char(i));
        proof {
            lemma_digits_val_step(s@, lo as int, i as int);
        }
        v = 10 * v + d;
        if v > MIN_SUPPORTED_MAJOR {
            v = MIN_SUPPORTED_MAJOR;
        }
        i += 1;
    }
    v
}

/// Finds the boundary positions of the recognized shape in `s`, or shows that
/// no choice of boundaries fits.
#[verifier::loop_isolation(false)]
#[verifier::rlimit(100)]
pub(crate) fn find_shape(s: &str) -> (r: Option<(usize, usize, usize, usize, usize)>)
    ensures
        match r {
            Some(t) => shape_at(s@, t.0 as int, t.1 as int, t.2 as int, t.3 as int, t.4 as int),
            None => forall|t1: int, t2: int, t3: int, t4: int, t5: int|
                !shape_at(s@, t1, t2, t3, t4, t5),
        },
{
    let n = s.unicode_len();
    if n < 42 {
        return None;
    }
    let mut i: usize = 0;
    while i < 17
        invariant
            0 <= i <= 17,
            forall|j: int| 0 <= j < i ==> #[trigger] s@[j] == spec_prefix()[j],
        decreases 17 - i,
    {
        if s.get_char(i) != prefix_char(i) {
            return None;
        }
        i += 1;
    }
    let d_end = scan_digits(s, 17, n);
    let ok1 = d_end > 17 && d_end < n && s.get_char(d_end) == '.';
    if !ok1 {
        proof {
            assert forall|t1: int, t2: int, t3: int, t4: int, t5: int|
                !shape_at(s@, t1, t2, t3, t4, t5) by {
                if shape_at(s@, t1, t2, t3, t4, t5) {
                    lemma_digit_run_unique(s@, 17, d_end as int, t1);
                }
            }
        }
        return None;
    }
    let m_end = scan_dot_digits(s, d_end + 1, n);
    let ok2 = m_end > d_end + 1 && m_end < n && s.get_char(m_end) == 'b';
    if !ok2 {
        proof {
            assert forall|t1: int, t2: int, t3: int, t4: int, t5: int|
                !shape_at(s@, t1, t2, t3, t4, t5) by {
                if shape_at(s@, t1, t2, t3, t4, t5) {
                    lemma_digit_run_unique(s@, 17, d_end as int, t1);
                    lemma_dot_digit_run_unique(s@, t1 + 1, m_end as int, t2);
                }
            }
        }
        return None;
    }
    let b_end = scan_digits(s, m_end + 1, n);
    let ok3 = b_end > m_end + 1 && b_end < n && is_space_char(s.get_char(b_end)) && b_end + 1 < n
        && s.get_char(b_end + 1) == '(';
    if !ok3 {
        proof {
            assert forall|t1: int, t2: int, t3: int, t4: int, t5: int|
                !shape_at(s@, t1, t2, t3, t4, t5) by {
                if shape_at(s@, t1, t2, t3, t4, t5) {
                    lemma_digit_run_unique(s@, 17, d_end as int, t1);
                    lemma_dot_digit_run_unique(s@, t1 + 1, m_end as int, t2);
                    lemma_digit_run_unique(s@, t2 + 1, b_end as int, t3);
                }
            }
        }
        return None;
    }
    let dev_end = scan_word_chars(s, b_end + 2, n);
    let ok4 = dev_end > b_end + 2 && dev_end < n && s.get_char(dev_end) == ';';
    if !ok4 {
        proof {
            assert forall|t1: int, t2: int, t3: int, t4: int, t5: int|
                !shape_at(s@, t1, t2, t3, t4, t5) by {
                if shape_at(s@, t1, t2, t3, t4, t5) {
                    lemma_digit_run_unique(s@, 17, d_end as int, t1);
                    lemma_dot_digit_run_unique(s@, t1 + 1, m_end as int, t2);
                    lemma_digit_run_unique(s@, t2 + 1, b_end as int, t3);
                    lemma_word_run_unique(s@, t3 + 2, dev_end as int, t4);
                }
            }
        }
        return None;
    }
    let ok5 = n - dev_end >= 12 && is_space_char(s.get_char(dev_end + 1)) && s.get_char(
        dev_end + 2,
    ) == 'i' && s.get_char(dev_end + 3) == 'P' && s.get_char(dev_end + 4) == 'h' && s.get_char(
        dev_end + 5,
    ) == 'o' && s.get_char(dev_end + 6) == 'n' && s.get_char(dev_end + 7) == 'e' && is_space_char(
        s.get_char(dev_end + 8),
    ) && s.get_char(dev_end + 9) == 'O' && s.get_char(dev_end + 10) == 'S' && is_space_char(
        s.get_char(dev_end + 11),
    );
    if !ok5 {
        proof {
            assert forall|t1: int, t2: int, t3: int, t4: int, t5: int|
                !shape_at(s@, t1, t2, t3, t4, t5) by {
                if shape_at(s@, t1, t2, t3, t4, t5) {
                    lemma_digit_run_unique(s@, 17, d_end as int, t1);
                    lemma_dot_digit_run_unique(s@, t1 + 1, m_end as int, t2);
                    lemma_digit_run_unique(s@, t2 + 1, b_end as int, t3);
                    lemma_word_run_unique(s@, t3 + 2, dev_end as int, t4);
                }
            }
        }
        return None;
    }
    let sv_end = scan_dot_digits(s, dev_end + 12, n);
    let ok6 = sv_end > dev_end + 12 && sv_end < n && s.get_char(sv_end) == ')' && n - sv_end >= 4
        && is_space_char(s.get_char(sv_end + 1)) && s.get_char(sv_end + 2) == '(' && s.get_char(
        n - 1,
    ) == ')';
    if !ok6 {
        proof {
            assert forall|t1: int, t2: int, t3: int, t4: int, t5: int|
                !shape_at(s@, t1, t2, t3, t4, t5) by {
                if shape_at(s@, t1, t2, t3, t4, t5) {
                    lemma_digit_run_unique(s@, 17, d_end as int, t1);
                    lemma_dot_digit_run_unique(s@, t1 + 1, m_end as int, t2);
                    lemma_digit_run_unique(s@, t2 + 1, b_end as int, t3);
                    lemma_word_run_unique(s@, t3 + 2, dev_end as int, t4);
                    lemma_dot_digit_run_unique(s@, t4 + 12, sv_end as int, t5);
                }
            }
        }
        return None;
    }
    let mut k = sv_end + 3;
    while k < n - 1
        invariant
            sv_end + 3 <= k <= n - 1,
            forall|j: int| sv_end + 3 <= j < k ==> #[trigger] s@[j] != '\n',
        decreases n - 1 - k,
    {
        if s.get_char(k) == '\n' {
            proof {
                assert forall|t1: int, t2: int, t3: int, t4: int, t5: int|
                    !shape_at(s@, t1, t2, t3, t4, t5) by {
                    if shape_at(s@, t1, t2, t3, t4, t5) {
                        lemma_digit_run_unique(s@, 17, d_end as int, t1);
                        lemma_dot_digit_run_unique(s@, t1 + 1, m_end as int, t2);
                        lemma_digit_run_unique(s@, t2 + 1, b_end as int, t3);
                        lemma_word_run_unique(s@, t3 + 2, dev_end as int, t4);
                        lemma_dot_digit_run_unique(s@, t4 + 12, sv_end as int, t5);
                    }
                }
            }
            return None;
        }
        k += 1;
    }
    proof {
        assert(shape_at(
            s@,
            d_end as int,
            m_end as int,
            b_end as int,
            dev_end as int,
            sv_end as int,
        ));
    }
    Some((d_end, m_end, b_end, dev_end, sv_end))
}

} // verus!
