//! Low-level byte scanning: ASCII constants, character classes,
//! first/last-occurrence searches, maximal runs, and line splitting,
//! each with a spec-level definition that the executable code is
//! proved to implement.

use vstd::prelude::*;
use vstd::slice::{slice_subrange, slice_to_vec};

verus! {

// ASCII bytes used by the log grammar.
pub const NL: u8 = 10; // '\n'
pub const CR: u8 = 13; // '\r'
pub const SP: u8 = 32; // ' '
pub const QUOTE: u8 = 39; // '\''
pub const COMMA: u8 = 44; // ','

/// An ASCII decimal digit `0`..`9`.
pub open spec fn is_digit(b: u8) -> bool {
    48 <= b <= 57
}

/// A byte that may appear in a numeric field of a metric line:
/// a digit, `.`, `e`, `+` or `-`.
pub open spec fn is_num_byte(b: u8) -> bool {
    is_digit(b) || b == 46 || b == 101 || b == 43 || b == 45
}

/// A word byte (letter, digit or `_`), for word boundaries in the
/// job header.
pub open spec fn is_word_byte(b: u8) -> bool {
    is_digit(b) || (97 <= b <= 122) || (65 <= b <= 90) || b == 95
}

/// A byte trimmed from both ends of a node name: space or `'`.
pub open spec fn is_trim_byte(b: u8) -> bool {
    b == SP || b == QUOTE
}

pub fn digit(b: u8) -> (r: bool)
    ensures
        r == is_digit(b),
{
    48 <= b && b <= 57
}

pub fn num_byte(b: u8) -> (r: bool)
    ensures
        r == is_num_byte(b),
{
    digit(b) || b == 46 || b == 101 || b == 43 || b == 45
}

pub fn word_byte(b: u8) -> (r: bool)
    ensures
        r == is_word_byte(b),
{
    digit(b) || (97 <= b && b <= 122) || (65 <= b && b <= 90) || b == 95
}

pub fn trim_byte(b: u8) -> (r: bool)
    ensures
        r == is_trim_byte(b),
{
    b == SP || b == QUOTE
}

/// Index of the first occurrence of `b` in `s` at or after `from`.
pub open spec fn spec_find_byte(s: Seq<u8>, from: int, b: u8) -> Option<int>
    decreases s.len() - from,
{
    if from < 0 || from >= s.len() {
        None
    } else if s[from] == b {
        Some(from)
    } else {
        spec_find_byte(s, from + 1, b)
    }
}

/// First occurrence of the byte `b` in `s[from..]`, as an absolute index.
pub fn find_byte(s: &[u8], from: usize, b: u8) -> (r: Option<usize>)
    requires
        from <= s@.len(),
    ensures
        match r {
            Some(j) => spec_find_byte(s@, from as int, b) == Some(j as int),
            None => spec_find_byte(s@, from as int, b) is None,
        },
{
    let mut i: usize = from;
    while i < s.len()
        invariant
            from <= i <= s@.len(),
            spec_find_byte(s@, from as int, b) == spec_find_byte(s@, i as int, b),
        decreases s@.len() - i,
    {
        if s[i] == b {
            return Some(i);
        }
        i = i + 1;
    }
    None
}

/// Index of the last occurrence of `b` in `s` strictly before `upto`.
pub open spec fn spec_rfind_byte(s: Seq<u8>, upto: int, b: u8) -> Option<int>
    decreases upto,
{
    if upto <= 0 || upto > s.len() {
        None
    } else if s[upto - 1] == b {
        Some(upto - 1)
    } else {
        spec_rfind_byte(s, upto - 1, b)
    }
}

/// Last occurrence of the byte `b` in `s[..upto]`.
pub fn rfind_byte(s: &[u8], upto: usize, b: u8) -> (r: Option<usize>)
    requires
        upto <= s@.len(),
    ensures
        match r {
            Some(j) => spec_rfind_byte(s@, upto as int, b) == Some(j as int),
            None => spec_rfind_byte(s@, upto as int, b) is None,
        },
{
    let mut i: usize = upto;
    while i > 0
        invariant
            i <= upto <= s@.len(),
            spec_rfind_byte(s@, upto as int, b) == spec_rfind_byte(s@, i as int, b),
        decreases i,
    {
        if s[i - 1] == b {
            return Some(i - 1);
        }
        i = i - 1;
    }
    None
}

/// End of the maximal run of numeric-field bytes starting at `i`.
pub open spec fn num_run_end(s: Seq<u8>, i: int) -> int
    decreases s.len() - i,
{
    if 0 <= i < s.len() && is_num_byte(s[i]) {
        num_run_end(s, i + 1)
    } else {
        i
    }
}

/// End of the maximal run of digits starting at `i`.
pub open spec fn digit_run_end(s: Seq<u8>, i: int) -> int
    decreases s.len() - i,
{
    if 0 <= i < s.len() && is_digit(s[i]) {
        digit_run_end(s, i + 1)
    } else {
        i
    }
}

/// A run end lies between its start and the end of the string.
pub proof fn lemma_num_run_end_bounds(s: Seq<u8>, i: int)
    requires
        0 <= i <= s.len(),
    ensures
        i <= num_run_end(s, i) <= s.len(),
    decreases s.len() - i,
{
    if i < s.len() && is_num_byte(s[i]) {
        lemma_num_run_end_bounds(s, i + 1);
    }
}

/// A run end lies between its start and the end of the string.
pub proof fn lemma_digit_run_end_bounds(s: Seq<u8>, i: int)
    requires
        0 <= i <= s.len(),
    ensures
        i <= digit_run_end(s, i) <= s.len(),
    decreases s.len() - i,
{
    if i < s.len() && is_digit(s[i]) {
        lemma_digit_run_end_bounds(s, i + 1);
    }
}

/// Every byte of the run is in the class, and the run is maximal.
pub proof fn lemma_digit_run_chars(s: Seq<u8>, i: int)
    requires
        0 <= i <= s.len(),
    ensures
        forall|j: int| i <= j < digit_run_end(s, i) ==> is_digit(s[j]),
        digit_run_end(s, i) < s.len() ==> !is_digit(s[digit_run_end(s, i)]),
    decreases s.len() - i,
{
    if i < s.len() && is_digit(s[i]) {
        lemma_digit_run_chars(s, i + 1);
    }
}

pub fn num_run_end_exec(s: &[u8], i: usize) -> (r: usize)
    requires
        i <= s@.len(),
    ensures
        r == num_run_end(s@, i as int),
{
    let mut j: usize = i;
    while j < s.len()
        invariant
            i <= j <= s@.len(),
            num_run_end(s@, i as int) == num_run_end(s@, j as int),
        decreases s@.len() - j,
    {
        if !num_byte(s[j]) {
            return j;
        }
        j = j + 1;
    }
    j
}

pub fn digit_run_end_exec(s: &[u8], i: usize) -> (r: usize)
    requires
        i <= s@.len(),
    ensures
        r == digit_run_end(s@, i as int),
{
    let mut j: usize = i;
    while j < s.len()
        invariant
            i <= j <= s@.len(),
            digit_run_end(s@, i as int) == digit_run_end(s@, j as int),
        decreases s@.len() - j,
    {
        if !digit(s[j]) {
            return j;
        }
        j = j + 1;
    }
    j
}

/// Copy of the byte range `[lo, hi)` of `s`.
pub fn bytes_of(s: &[u8], lo: usize, hi: usize) -> (r: Vec<u8>)
    requires
        lo <= hi <= s@.len(),
    ensures
        r@ == s@.subrange(lo as int, hi as int),
{
    slice_to_vec(slice_subrange(s, lo, hi))
}

/// A line with a trailing carriage return stripped, as `str::lines` does
/// for `\r\n` endings.
pub open spec fn strip_cr(l: Seq<u8>) -> Seq<u8> {
    if l.len() > 0 && l.last() == CR {
        l.drop_last()
    } else {
        l
    }
}

/// The lines of `s[from..]`: split at `\n`, a `\r` before the `\n`
/// dropped, and no empty final line after a trailing `\n`.
pub open spec fn spec_lines_from(s: Seq<u8>, from: int) -> Seq<Seq<u8>>
    decreases s.len() - from,
{
    if from < 0 || from >= s.len() {
        Seq::empty()
    } else {
        match spec_find_byte(s, from, NL) {
            None => seq![s.subrange(from, s.len() as int)],
            Some(j) => if from <= j < s.len() {
                seq![strip_cr(s.subrange(from, j))] + spec_lines_from(s, j + 1)
            } else {
                // cannot arise: a found index lies in `[from, s.len())`
                Seq::empty()
            },
        }
    }
}

/// The lines of `s`, as `str::lines` yields them.
pub open spec fn spec_lines(s: Seq<u8>) -> Seq<Seq<u8>> {
    spec_lines_from(s, 0)
}

/// First occurrences stay in range.
pub proof fn lemma_find_byte_some(s: Seq<u8>, from: int, b: u8)
    ensures
        match spec_find_byte(s, from, b) {
            Some(j) => from <= j < s.len() && s[j] == b,
            None => true,
        },
    decreases s.len() - from,
{
    if 0 <= from < s.len() && s[from] != b {
        lemma_find_byte_some(s, from + 1, b);
    }
}

/// Split `s` into its lines.
pub fn split_lines(s: &[u8]) -> (r: Vec<Vec<u8>>)
    ensures
        r.deep_view() == spec_lines(s@),
{
    let mut out: Vec<Vec<u8>> = Vec::new();
    let mut pos: usize = 0;
    proof {
        assert(spec_lines(s@) =~~= out.deep_view() + spec_lines_from(s@, 0));
    }
    while pos < s.len()
        invariant
            pos <= s@.len(),
            spec_lines(s@) == out.deep_view() + spec_lines_from(s@, pos as int),
        decreases s@.len() - pos,
    {
        proof {
            lemma_find_byte_some(s@, pos as int, NL);
        }
        match find_byte(s, pos, NL) {
            None => {
                let line = bytes_of(s, pos, s.len());
                out.push(line);
                proof {
                    assert(spec_lines(s@) =~~= out.deep_view() + spec_lines_from(
                        s@,
                        s@.len() as int,
                    ));
                }
                pos = s.len();
            },
            Some(j) => {
                let line = if j > pos && s[j - 1] == CR {
                    bytes_of(s, pos, j - 1)
                } else {
                    bytes_of(s, pos, j)
                };
                proof {
                    assert(line@ =~= strip_cr(s@.subrange(pos as int, j as int)));
                }
                out.push(line);
                proof {
                    assert(spec_lines(s@) =~~= out.deep_view() + spec_lines_from(s@, j + 1));
                }
                pos = j + 1;
            },
        }
    }
    proof {
        assert(spec_lines(s@) =~~= out.deep_view());
    }
    out
}

} // verus!
