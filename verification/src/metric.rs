//! The shape of a metric line: a timestamp, then `l=` with a load value,
//! then `iter=` with an iteration count, then `err={ u=... phi=... }` with
//! two error figures, in that order with arbitrary text between them.
//! Matching yields the five capture ranges within the line.

use vstd::prelude::*;
use crate::scan::{
    SP, is_digit, is_num_byte, digit, num_byte, num_run_end, digit_run_end, num_run_end_exec,
    digit_run_end_exec, lemma_num_run_end_bounds, lemma_digit_run_end_bounds,
};

verus! {

/// The five capture ranges of a metric line, as byte offsets within the
/// line: timestamp, load, iteration count, error u, error phi.
#[derive(Clone, Copy, Debug, PartialEq, Eq, Structural)]
pub struct Caps {
    pub ts_lo: usize,
    pub ts_hi: usize,
    pub load_lo: usize,
    pub load_hi: usize,
    pub iter_lo: usize,
    pub iter_hi: usize,
    pub u_lo: usize,
    pub u_hi: usize,
    pub phi_lo: usize,
    pub phi_hi: usize,
}

/// The tokens searched for while matching a metric line.
#[derive(Clone, Copy, Debug, PartialEq, Eq, Structural)]
pub enum Tok {
    /// A timestamp `dddd-dd-dd dd:dd:dd.ddd`.
    Ts,
    /// `l=` followed by a numeric byte.
    Load,
    /// `iter=` followed by a digit.
    Iter,
    /// `err={ u=<num> phi=<num>`, both runs nonempty.
    ErrPair,
}

/// A timestamp `dddd-dd-dd dd:dd:dd.ddd` (23 bytes) starts at `i`.
pub open spec fn ts_at(s: Seq<u8>, i: int) -> bool {
    &&& 0 <= i
    &&& i + 23 <= s.len()
    &&& is_digit(s[i]) && is_digit(s[i + 1]) && is_digit(s[i + 2]) && is_digit(s[i + 3])
    &&& s[i + 4] == 45  // '-'
    &&& is_digit(s[i + 5]) && is_digit(s[i + 6])
    &&& s[i + 7] == 45  // '-'
    &&& is_digit(s[i + 8]) && is_digit(s[i + 9])
    &&& s[i + 10] == SP
    &&& is_digit(s[i + 11]) && is_digit(s[i + 12])
    &&& s[i + 13] == 58  // ':'
    &&& is_digit(s[i + 14]) && is_digit(s[i + 15])
    &&& s[i + 16] == 58  // ':'
    &&& is_digit(s[i + 17]) && is_digit(s[i + 18])
    &&& s[i + 19] == 46  // '.'
    &&& is_digit(s[i + 20]) && is_digit(s[i + 21]) && is_digit(s[i + 22])
}

/// `l=` followed by at least one numeric byte starts at `i`.
pub open spec fn load_at(s: Seq<u8>, i: int) -> bool {
    &&& 0 <= i
    &&& i + 3 <= s.len()
    &&& s[i] == 108  // 'l'
    &&& s[i + 1] == 61  // '='
    &&& is_num_byte(s[i + 2])
}

/// `iter=` followed by at least one digit starts at `i`.
pub open spec fn iter_at(s: Seq<u8>, i: int) -> bool {
    &&& 0 <= i
    &&& i + 6 <= s.len()
    &&& s[i] == 105  // 'i'
    &&& s[i + 1] == 116  // 't'
    &&& s[i + 2] == 101  // 'e'
    &&& s[i + 3] == 114  // 'r'
    &&& s[i + 4] == 61  // '='
    &&& is_digit(s[i + 5])
}

/// `err={ u=` followed by at least one numeric byte starts at `i`.
pub open spec fn err_head_at(s: Seq<u8>, i: int) -> bool {
    &&& 0 <= i
    &&& i + 9 <= s.len()
    &&& s[i] == 101  // 'e'
    &&& s[i + 1] == 114  // 'r'
    &&& s[i + 2] == 114  // 'r'
    &&& s[i + 3] == 61  // '='
    &&& s[i + 4] == 123  // '{'
    &&& s[i + 5] == SP
    &&& s[i + 6] == 117  // 'u'
    &&& s[i + 7] == 61  // '='
    &&& is_num_byte(s[i + 8])
}

/// The whole error token starts at `i`: `err={ u=` with a nonempty
/// numeric run, immediately followed by ` phi=` with a nonempty numeric
/// run.
pub open spec fn err_at(s: Seq<u8>, i: int) -> bool {
    &&& err_head_at(s, i)
    &&& {
        let u_hi = num_run_end(s, i + 8);
        &&& u_hi + 6 <= s.len()
        &&& s[u_hi] == SP
        &&& s[u_hi + 1] == 112  // 'p'
        &&& s[u_hi + 2] == 104  // 'h'
        &&& s[u_hi + 3] == 105  // 'i'
        &&& s[u_hi + 4] == 61  // '='
        &&& is_num_byte(s[u_hi + 5])
    }
}

pub open spec fn tok_at(s: Seq<u8>, i: int, t: Tok) -> bool {
    match t {
        Tok::Ts => ts_at(s, i),
        Tok::Load => load_at(s, i),
        Tok::Iter => iter_at(s, i),
        Tok::ErrPair => err_at(s, i),
    }
}

/// Position of the first occurrence of token `t` in `s` at or after
/// `from`.
pub open spec fn spec_find_tok(s: Seq<u8>, from: int, t: Tok) -> Option<int>
    decreases s.len() - from,
{
    if from < 0 || from >= s.len() {
        None
    } else if tok_at(s, from, t) {
        Some(from)
    } else {
        spec_find_tok(s, from + 1, t)
    }
}

/// A found token lies in range.
pub proof fn lemma_find_tok_some(s: Seq<u8>, from: int, t: Tok)
    ensures
        match spec_find_tok(s, from, t) {
            Some(j) => from <= j < s.len() && tok_at(s, j, t),
            None => true,
        },
    decreases s.len() - from,
{
    if 0 <= from < s.len() && !tok_at(s, from, t) {
        lemma_find_tok_some(s, from + 1, t);
    }
}

/// Does token `t` start at position `i`?
pub fn tok_at_exec(s: &[u8], i: usize, t: Tok) -> (r: bool)
    requires
        i <= s@.len(),
    ensures
        r == tok_at(s@, i as int, t),
{
    let n = s.len();
    match t {
        Tok::Ts => {
            if n - i < 23 {
                return false;
            }
            digit(s[i]) && digit(s[i + 1]) && digit(s[i + 2]) && digit(s[i + 3]) && s[i + 4] == 45
                && digit(s[i + 5]) && digit(s[i + 6]) && s[i + 7] == 45 && digit(s[i + 8]) && digit(
                s[i + 9],
            ) && s[i + 10] == SP && digit(s[i + 11]) && digit(s[i + 12]) && s[i + 13] == 58 && digit(
                s[i + 14],
            ) && digit(s[i + 15]) && s[i + 16] == 58 && digit(s[i + 17]) && digit(s[i + 18]) && s[i
                + 19] == 46 && digit(s[i + 20]) && digit(s[i + 21]) && digit(s[i + 22])
        },
        Tok::Load => {
            if n - i < 3 {
                return false;
            }
            s[i] == 108 && s[i + 1] == 61 && num_byte(s[i + 2])
        },
        Tok::Iter => {
            if n - i < 6 {
                return false;
            }
            s[i] == 105 && s[i + 1] == 116 && s[i + 2] == 101 && s[i + 3] == 114 && s[i + 4] == 61
                && digit(s[i + 5])
        },
        Tok::ErrPair => {
            if n - i < 9 {
                return false;
            }
            let head = s[i] == 101 && s[i + 1] == 114 && s[i + 2] == 114 && s[i + 3] == 61 && s[i
                + 4] == 123 && s[i + 5] == SP && s[i + 6] == 117 && s[i + 7] == 61 && num_byte(
                s[i + 8],
            );
            if !head {
                return false;
            }
            let u_hi = num_run_end_exec(s, i + 8);
            proof {
                lemma_num_run_end_bounds(s@, i + 8);
            }
            if n - u_hi < 6 {
                return false;
            }
            s[u_hi] == SP && s[u_hi + 1] == 112 && s[u_hi + 2] == 104 && s[u_hi + 3] == 105 && s[u_hi
                + 4] == 61 && num_byte(s[u_hi + 5])
        },
    }
}

/// First occurrence of token `t` in `s[from..]`, as an absolute index.
pub fn find_tok(s: &[u8], from: usize, t: Tok) -> (r: Option<usize>)
    requires
        from <= s@.len(),
    ensures
        match r {
            Some(j) => spec_find_tok(s@, from as int, t) == Some(j as int),
            None => spec_find_tok(s@, from as int, t) is None,
        },
{
    let mut i: usize = from;
    while i < s.len()
        invariant
            from <= i <= s@.len(),
            spec_find_tok(s@, from as int, t) == spec_find_tok(s@, i as int, t),
        decreases s@.len() - i,
    {
        if tok_at_exec(s, i, t) {
            return Some(i);
        }
        i = i + 1;
    }
    None
}

/// The capture ranges are ordered and lie within a string of length `n`.
pub open spec fn caps_wf(c: Caps, n: int) -> bool {
    &&& c.ts_lo <= c.ts_hi <= c.load_lo <= c.load_hi <= c.iter_lo <= c.iter_hi <= c.u_lo <= c.u_hi
        <= c.phi_lo <= c.phi_hi
    &&& c.phi_hi <= n
}

/// The capture ranges of the first metric-shaped match in `s`, or `None`
/// when `s` does not contain the metric shape: the first timestamp, then
/// the first following `l=` value, `iter=` count, and `err={ u=.. phi=.. }`
/// figures.
pub open spec fn metric_caps(s: Seq<u8>) -> Option<Caps> {
    match spec_find_tok(s, 0, Tok::Ts) {
        None => None,
        Some(t) => match spec_find_tok(s, t + 23, Tok::Load) {
            None => None,
            Some(l) => {
                let load_hi = num_run_end(s, l + 2);
                match spec_find_tok(s, load_hi, Tok::Iter) {
                    None => None,
                    Some(it) => {
                        let iter_hi = digit_run_end(s, it + 5);
                        match spec_find_tok(s, iter_hi, Tok::ErrPair) {
                            None => None,
                            Some(e) => {
                                let u_hi = num_run_end(s, e + 8);
                                let phi_hi = num_run_end(s, u_hi + 5);
                                Some(
                                    Caps {
                                        ts_lo: t as usize,
                                        ts_hi: (t + 23) as usize,
                                        load_lo: (l + 2) as usize,
                                        load_hi: load_hi as usize,
                                        iter_lo: (it + 5) as usize,
                                        iter_hi: iter_hi as usize,
                                        u_lo: (e + 8) as usize,
                                        u_hi: u_hi as usize,
                                        phi_lo: (u_hi + 5) as usize,
                                        phi_hi: phi_hi as usize,
                                    },
                                )
                            },
                        }
                    },
                }
            },
        },
    }
}

/// A match yields well-formed capture ranges.
pub proof fn lemma_metric_caps_wf(s: Seq<u8>)
    requires
        s.len() <= usize::MAX,
    ensures
        match metric_caps(s) {
            Some(c) => caps_wf(c, s.len() as int),
            None => true,
        },
{
    lemma_find_tok_some(s, 0, Tok::Ts);
    if let Some(t) = spec_find_tok(s, 0, Tok::Ts) {
        lemma_find_tok_some(s, t + 23, Tok::Load);
        if let Some(l) = spec_find_tok(s, t + 23, Tok::Load) {
            lemma_num_run_end_bounds(s, l + 2);
            let load_hi = num_run_end(s, l + 2);
            lemma_find_tok_some(s, load_hi, Tok::Iter);
            if let Some(it) = spec_find_tok(s, load_hi, Tok::Iter) {
                lemma_digit_run_end_bounds(s, it + 5);
                let iter_hi = digit_run_end(s, it + 5);
                lemma_find_tok_some(s, iter_hi, Tok::ErrPair);
                if let Some(e) = spec_find_tok(s, iter_hi, Tok::ErrPair) {
                    lemma_num_run_end_bounds(s, e + 8);
                    let u_hi = num_run_end(s, e + 8);
                    lemma_num_run_end_bounds(s, u_hi + 5);
                }
            }
        }
    }
}

/// Match a line against the metric shape, yielding its capture ranges.
pub fn match_metric(s: &[u8]) -> (r: Option<Caps>)
    ensures
        r == metric_caps(s@),
        r matches Some(c) ==> caps_wf(c, s@.len() as int),
{
    let n = s.len();
    if n == 0 {
        return None;
    }
    proof {
        lemma_metric_caps_wf(s@);
    }
    let t = match find_tok(s, 0, Tok::Ts) {
        None => {
            return None;
        },
        Some(t) => t,
    };
    proof {
        lemma_find_tok_some(s@, 0, Tok::Ts);
    }
    let l = match find_tok(s, t + 23, Tok::Load) {
        None => {
            return None;
        },
        Some(l) => l,
    };
    proof {
        lemma_find_tok_some(s@, t + 23, Tok::Load);
    }
    let load_hi = num_run_end_exec(s, l + 2);
    proof {
        lemma_num_run_end_bounds(s@, l + 2);
    }
    let it = match find_tok(s, load_hi, Tok::Iter) {
        None => {
            return None;
        },
        Some(it) => it,
    };
    proof {
        lemma_find_tok_some(s@, load_hi as int, Tok::Iter);
    }
    let iter_hi = digit_run_end_exec(s, it + 5);
    proof {
        lemma_digit_run_end_bounds(s@, it + 5);
    }
    let e = match find_tok(s, iter_hi, Tok::ErrPair) {
        None => {
            return None;
        },
        Some(e) => e,
    };
    proof {
        lemma_find_tok_some(s@, iter_hi as int, Tok::ErrPair);
    }
    let u_hi = num_run_end_exec(s, e + 8);
    proof {
        lemma_num_run_end_bounds(s@, e + 8);
    }
    let phi_hi = num_run_end_exec(s, u_hi + 5);
    Some(
        Caps {
            ts_lo: t,
            ts_hi: t + 23,
            load_lo: l + 2,
            load_hi,
            iter_lo: it + 5,
            iter_hi,
            u_lo: e + 8,
            u_hi,
            phi_lo: u_hi + 5,
            phi_hi,
        },
    )
}

} // verus!
