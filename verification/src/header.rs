//! The job header line: `JobInfo(` with `id='..'`, `name='..'`,
//! `queue='..'`, `n=<digits>` and `nodes=[..]` fields located in order,
//! each introduced at a word boundary; the parameter-blob span of the
//! second line; and splitting and trimming of the node list.

use vstd::prelude::*;
use crate::scan::{
    QUOTE, COMMA, is_digit, is_word_byte, is_trim_byte, digit, word_byte, trim_byte,
    spec_find_byte, find_byte, spec_rfind_byte, rfind_byte, digit_run_end, digit_run_end_exec,
    lemma_digit_run_end_bounds, lemma_digit_run_chars, lemma_find_byte_some, bytes_of,
};

verus! {

/// The capture ranges of the five job-header fields, as byte offsets
/// within the header line.
#[derive(Clone, Copy, Debug, PartialEq, Eq, Structural)]
pub struct HeaderCaps {
    pub id_lo: usize,
    pub id_hi: usize,
    pub name_lo: usize,
    pub name_hi: usize,
    pub queue_lo: usize,
    pub queue_hi: usize,
    pub n_lo: usize,
    pub n_hi: usize,
    pub nodes_lo: usize,
    pub nodes_hi: usize,
}

/// The tokens that introduce the header fields.
#[derive(Clone, Copy, Debug, PartialEq, Eq, Structural)]
pub enum HTok {
    /// The literal `JobInfo(`.
    JobInfo,
    /// `id='` at a word boundary.
    Id,
    /// `name='` at a word boundary.
    Name,
    /// `queue='` at a word boundary.
    Queue,
    /// `n=` at a word boundary, followed by a digit.
    NCpu,
    /// `nodes=[` at a word boundary.
    Nodes,
}

/// A word boundary: the start of the string, or a preceding non-word
/// byte.
pub open spec fn boundary_at(s: Seq<u8>, i: int) -> bool {
    i == 0 || !is_word_byte(s[i - 1])
}

/// The literal `JobInfo(` starts at `i`.
pub open spec fn jobinfo_at(s: Seq<u8>, i: int) -> bool {
    &&& 0 <= i
    &&& i + 8 <= s.len()
    &&& s[i] == 74  // 'J'
    &&& s[i + 1] == 111  // 'o'
    &&& s[i + 2] == 98  // 'b'
    &&& s[i + 3] == 73  // 'I'
    &&& s[i + 4] == 110  // 'n'
    &&& s[i + 5] == 102  // 'f'
    &&& s[i + 6] == 111  // 'o'
    &&& s[i + 7] == 40  // '('
}

/// `id='` at a word boundary starts at `i`.
pub open spec fn id_at(s: Seq<u8>, i: int) -> bool {
    &&& 0 <= i
    &&& i + 4 <= s.len()
    &&& boundary_at(s, i)
    &&& s[i] == 105  // 'i'
    &&& s[i + 1] == 100  // 'd'
    &&& s[i + 2] == 61  // '='
    &&& s[i + 3] == QUOTE
}

/// `name='` at a word boundary starts at `i`.
pub open spec fn name_at(s: Seq<u8>, i: int) -> bool {
    &&& 0 <= i
    &&& i + 6 <= s.len()
    &&& boundary_at(s, i)
    &&& s[i] == 110  // 'n'
    &&& s[i + 1] == 97  // 'a'
    &&& s[i + 2] == 109  // 'm'
    &&& s[i + 3] == 101  // 'e'
    &&& s[i + 4] == 61  // '='
    &&& s[i + 5] == QUOTE
}

/// `queue='` at a word boundary starts at `i`.
pub open spec fn queue_at(s: Seq<u8>, i: int) -> bool {
    &&& 0 <= i
    &&& i + 7 <= s.len()
    &&& boundary_at(s, i)
    &&& s[i] == 113  // 'q'
    &&& s[i + 1] == 117  // 'u'
    &&& s[i + 2] == 101  // 'e'
    &&& s[i + 3] == 117  // 'u'
    &&& s[i + 4] == 101  // 'e'
    &&& s[i + 5] == 61  // '='
    &&& s[i + 6] == QUOTE
}

/// `n=` at a word boundary, followed by a digit, starts at `i`.
pub open spec fn ncpu_at(s: Seq<u8>, i: int) -> bool {
    &&& 0 <= i
    &&& i + 3 <= s.len()
    &&& boundary_at(s, i)
    &&& s[i] == 110  // 'n'
    &&& s[i + 1] == 61  // '='
    &&& is_digit(s[i + 2])
}

/// `nodes=[` at a word boundary starts at `i`.
pub open spec fn nodes_at(s: Seq<u8>, i: int) -> bool {
    &&& 0 <= i
    &&& i + 7 <= s.len()
    &&& boundary_at(s, i)
    &&& s[i] == 110  // 'n'
    &&& s[i + 1] == 111  // 'o'
    &&& s[i + 2] == 100  // 'd'
    &&& s[i + 3] == 101  // 'e'
    &&& s[i + 4] == 115  // 's'
    &&& s[i + 5] == 61  // '='
    &&& s[i + 6] == 91  // '['
}

pub open spec fn htok_at(s: Seq<u8>, i: int, t: HTok) -> bool {
    match t {
        HTok::JobInfo => jobinfo_at(s, i),
        HTok::Id => id_at(s, i),
        HTok::Name => name_at(s, i),
        HTok::Queue => queue_at(s, i),
        HTok::NCpu => ncpu_at(s, i),
        HTok::Nodes => nodes_at(s, i),
    }
}

/// Position of the first occurrence of header token `t` at or after
/// `from`.
pub open spec fn spec_find_htok(s: Seq<u8>, from: int, t: HTok) -> Option<int>
    decreases s.len() - from,
{
    if from < 0 || from >= s.len() {
        None
    } else if htok_at(s, from, t) {
        Some(from)
    } else {
        spec_find_htok(s, from + 1, t)
    }
}

/// A found header token lies in range.
pub proof fn lemma_find_htok_some(s: Seq<u8>, from: int, t: HTok)
    ensures
        match spec_find_htok(s, from, t) {
            Some(j) => from <= j < s.len() && htok_at(s, j, t),
            None => true,
        },
    decreases s.len() - from,
{
    if 0 <= from < s.len() && !htok_at(s, from, t) {
        lemma_find_htok_some(s, from + 1, t);
    }
}

/// Does header token `t` start at position `i`?
fn htok_at_exec(s: &[u8], i: usize, t: HTok) -> (r: bool)
    requires
        i <= s@.len(),
    ensures
        r == htok_at(s@, i as int, t),
{
    let n = s.len();
    let b = i == 0 || !word_byte(s[i - 1]);
    match t {
        HTok::JobInfo => {
            n - i >= 8 && s[i] == 74 && s[i + 1] == 111 && s[i + 2] == 98 && s[i + 3] == 73 && s[i
                + 4] == 110 && s[i + 5] == 102 && s[i + 6] == 111 && s[i + 7] == 40
        },
        HTok::Id => {
            n - i >= 4 && b && s[i] == 105 && s[i + 1] == 100 && s[i + 2] == 61 && s[i + 3] == QUOTE
        },
        HTok::Name => {
            n - i >= 6 && b && s[i] == 110 && s[i + 1] == 97 && s[i + 2] == 109 && s[i + 3] == 101
                && s[i + 4] == 61 && s[i + 5] == QUOTE
        },
        HTok::Queue => {
            n - i >= 7 && b && s[i] == 113 && s[i + 1] == 117 && s[i + 2] == 101 && s[i + 3] == 117
                && s[i + 4] == 101 && s[i + 5] == 61 && s[i + 6] == QUOTE
        },
        HTok::NCpu => {
            n - i >= 3 && b && s[i] == 110 && s[i + 1] == 61 && digit(s[i + 2])
        },
        HTok::Nodes => {
            n - i >= 7 && b && s[i] == 110 && s[i + 1] == 111 && s[i + 2] == 100 && s[i + 3] == 101
                && s[i + 4] == 115 && s[i + 5] == 61 && s[i + 6] == 91
        },
    }
}

/// First occurrence of header token `t` in `s[from..]`.
fn find_htok(s: &[u8], from: usize, t: HTok) -> (r: Option<usize>)
    requires
        from <= s@.len(),
    ensures
        match r {
            Some(j) => spec_find_htok(s@, from as int, t) == Some(j as int),
            None => spec_find_htok(s@, from as int, t) is None,
        },
{
    let mut i: usize = from;
    while i < s.len()
        invariant
            from <= i <= s@.len(),
            spec_find_htok(s@, from as int, t) == spec_find_htok(s@, i as int, t),
        decreases s@.len() - i,
    {
        if htok_at_exec(s, i, t) {
            return Some(i);
        }
        i = i + 1;
    }
    None
}

/// The capture ranges are ordered and lie within a string of length `n`.
pub open spec fn header_caps_wf(c: HeaderCaps, n: int) -> bool {
    &&& c.id_lo <= c.id_hi <= c.name_lo <= c.name_hi <= c.queue_lo <= c.queue_hi <= c.n_lo <= c.n_hi
        <= c.nodes_lo <= c.nodes_hi
    &&& c.nodes_hi <= n
}

/// The capture ranges of the job-header fields, or `None` when the header
/// line does not match: `JobInfo(`, then in order `id='..'`, `name='..'`,
/// `queue='..'`, `n=<digits>`, and `nodes=[..]` whose span runs to the
/// last `]` that still has a `)` after it.
pub open spec fn header_caps(s: Seq<u8>) -> Option<HeaderCaps> {
    match spec_find_htok(s, 0, HTok::JobInfo) {
        None => None,
        Some(j0) => match spec_find_htok(s, j0 + 8, HTok::Id) {
            None => None,
            Some(p1) => match spec_find_byte(s, p1 + 4, QUOTE) {
                None => None,
                Some(q1) => match spec_find_htok(s, q1 + 1, HTok::Name) {
                    None => None,
                    Some(p2) => match spec_find_byte(s, p2 + 6, QUOTE) {
                        None => None,
                        Some(q2) => match spec_find_htok(s, q2 + 1, HTok::Queue) {
                            None => None,
                            Some(p3) => match spec_find_byte(s, p3 + 7, QUOTE) {
                                None => None,
                                Some(q3) => match spec_find_htok(s, q3 + 1, HTok::NCpu) {
                                    None => None,
                                    Some(p4) => {
                                        let n_hi = digit_run_end(s, p4 + 2);
                                        match spec_find_htok(s, n_hi, HTok::Nodes) {
                                            None => None,
                                            Some(p5) => match spec_rfind_byte(
                                                s,
                                                s.len() as int,
                                                41,  // ')'
                                            ) {
                                                None => None,
                                                Some(k) => match spec_rfind_byte(s, k, 93  // ']'
                                                ) {
                                                    None => None,
                                                    Some(j) => if p5 + 7 <= j {
                                                        Some(
                                                            HeaderCaps {
                                                                id_lo: (p1 + 4) as usize,
                                                                id_hi: q1 as usize,
                                                                name_lo: (p2 + 6) as usize,
                                                                name_hi: q2 as usize,
                                                                queue_lo: (p3 + 7) as usize,
                                                                queue_hi: q3 as usize,
                                                                n_lo: (p4 + 2) as usize,
                                                                n_hi: n_hi as usize,
                                                                nodes_lo: (p5 + 7) as usize,
                                                                nodes_hi: j as usize,
                                                            },
                                                        )
                                                    } else {
                                                        None
                                                    },
                                                },
                                            },
                                        }
                                    },
                                },
                            },
                        },
                    },
                },
            },
        },
    }
}

/// Last occurrences stay in range.
pub proof fn lemma_rfind_byte_some(s: Seq<u8>, upto: int, b: u8)
    ensures
        match spec_rfind_byte(s, upto, b) {
            Some(j) => 0 <= j < upto <= s.len() && s[j] == b,
            None => true,
        },
    decreases upto,
{
    if 0 < upto <= s.len() && s[upto - 1] != b {
        lemma_rfind_byte_some(s, upto - 1, b);
    }
}

/// A header match yields well-formed capture ranges.
pub proof fn lemma_header_caps_wf(s: Seq<u8>)
    requires
        s.len() <= usize::MAX,
    ensures
        match header_caps(s) {
            Some(c) => header_caps_wf(c, s.len() as int) && (forall|x: int|
                c.n_lo <= x < c.n_hi ==> is_digit(#[trigger] s[x])),
            None => true,
        },
{
    lemma_find_htok_some(s, 0, HTok::JobInfo);
    if let Some(j0) = spec_find_htok(s, 0, HTok::JobInfo) {
        lemma_find_htok_some(s, j0 + 8, HTok::Id);
        if let Some(p1) = spec_find_htok(s, j0 + 8, HTok::Id) {
            lemma_find_byte_some(s, p1 + 4, QUOTE);
            if let Some(q1) = spec_find_byte(s, p1 + 4, QUOTE) {
                lemma_find_htok_some(s, q1 + 1, HTok::Name);
                if let Some(p2) = spec_find_htok(s, q1 + 1, HTok::Name) {
                    lemma_find_byte_some(s, p2 + 6, QUOTE);
                    if let Some(q2) = spec_find_byte(s, p2 + 6, QUOTE) {
                        lemma_find_htok_some(s, q2 + 1, HTok::Queue);
                        if let Some(p3) = spec_find_htok(s, q2 + 1, HTok::Queue) {
                            lemma_find_byte_some(s, p3 + 7, QUOTE);
                            if let Some(q3) = spec_find_byte(s, p3 + 7, QUOTE) {
                                lemma_find_htok_some(s, q3 + 1, HTok::NCpu);
                                if let Some(p4) = spec_find_htok(s, q3 + 1, HTok::NCpu) {
                                    lemma_digit_run_end_bounds(s, p4 + 2);
                                    lemma_digit_run_chars(s, p4 + 2);
                                    let n_hi = digit_run_end(s, p4 + 2);
                                    lemma_find_htok_some(s, n_hi, HTok::Nodes);
                                    if let Some(p5) = spec_find_htok(s, n_hi, HTok::Nodes) {
                                        lemma_rfind_byte_some(s, s.len() as int, 41);
                                        if let Some(k) = spec_rfind_byte(s, s.len() as int, 41) {
                                            lemma_rfind_byte_some(s, k, 93);
                                        }
                                    }
                                }
                            }
                        }
                    }
                }
            }
        }
    }
}

/// Match the header line, yielding the five field ranges.
pub fn match_header(s: &[u8]) -> (r: Option<HeaderCaps>)
    ensures
        r == header_caps(s@),
        r matches Some(c) ==> header_caps_wf(c, s@.len() as int),
{
    let n = s.len();
    proof {
        lemma_header_caps_wf(s@);
    }
    let j0 = match find_htok(s, 0, HTok::JobInfo) {
        None => {
            return None;
        },
        Some(v) => v,
    };
    proof {
        lemma_find_htok_some(s@, 0, HTok::JobInfo);
    }
    let p1 = match find_htok(s, j0 + 8, HTok::Id) {
        None => {
            return None;
        },
        Some(v) => v,
    };
    proof {
        lemma_find_htok_some(s@, j0 + 8, HTok::Id);
    }
    let q1 = match find_byte(s, p1 + 4, QUOTE) {
        None => {
            return None;
        },
        Some(v) => v,
    };
    proof {
        lemma_find_byte_some(s@, p1 + 4, QUOTE);
    }
    let p2 = match find_htok(s, q1 + 1, HTok::Name) {
        None => {
            return None;
        },
        Some(v) => v,
    };
    proof {
        lemma_find_htok_some(s@, q1 + 1, HTok::Name);
    }
    let q2 = match find_byte(s, p2 + 6, QUOTE) {
        None => {
            return None;
        },
        Some(v) => v,
    };
    proof {
        lemma_find_byte_some(s@, p2 + 6, QUOTE);
    }
    let p3 = match find_htok(s, q2 + 1, HTok::Queue) {
        None => {
            return None;
        },
        Some(v) => v,
    };
    proof {
        lemma_find_htok_some(s@, q2 + 1, HTok::Queue);
    }
    let q3 = match find_byte(s, p3 + 7, QUOTE) {
        None => {
            return None;
        },
        Some(v) => v,
    };
    proof {
        lemma_find_byte_some(s@, p3 + 7, QUOTE);
    }
    let p4 = match find_htok(s, q3 + 1, HTok::NCpu) {
        None => {
            return None;
        },
        Some(v) => v,
    };
    proof {
        lemma_find_htok_some(s@, q3 + 1, HTok::NCpu);
    }
    let n_hi = digit_run_end_exec(s, p4 + 2);
    proof {
        lemma_digit_run_end_bounds(s@, p4 + 2);
    }
    let p5 = match find_htok(s, n_hi, HTok::Nodes) {
        None => {
            return None;
        },
        Some(v) => v,
    };
    proof {
        lemma_find_htok_some(s@, n_hi as int, HTok::Nodes);
    }
    let k = match rfind_byte(s, n, 41) {
        None => {
            return None;
        },
        Some(v) => v,
    };
    proof {
        lemma_rfind_byte_some(s@, n as int, 41);
    }
    let j = match rfind_byte(s, k, 93) {
        None => {
            return None;
        },
        Some(v) => v,
    };
    proof {
        lemma_rfind_byte_some(s@, k as int, 93);
    }
    if p5 + 7 <= j {
        Some(
            HeaderCaps {
                id_lo: p1 + 4,
                id_hi: q1,
                name_lo: p2 + 6,
                name_hi: q2,
                queue_lo: p3 + 7,
                queue_hi: q3,
                n_lo: p4 + 2,
                n_hi,
                nodes_lo: p5 + 7,
                nodes_hi: j,
            },
        )
    } else {
        None
    }
}

/// The parameter span of the parameter line: from the first `{` to the
/// last `}`, inclusive, when the `{` comes first; otherwise there are no
/// parameters.
pub open spec fn params_span(s: Seq<u8>) -> Option<Seq<u8>> {
    match spec_find_byte(s, 0, 123) {  // '{'
        None => None,
        Some(f) => match spec_rfind_byte(s, s.len() as int, 125) {  // '}'
            None => None,
            Some(l) => if f < l {
                Some(s.subrange(f, l + 1))
            } else {
                None
            },
        },
    }
}

/// Extract the parameter span of the parameter line, if any.
pub fn extract_params(s: &[u8]) -> (r: Option<Vec<u8>>)
    ensures
        match r {
            Some(v) => params_span(s@) == Some(v@),
            None => params_span(s@) is None,
        },
{
    let f = match find_byte(s, 0, 123) {
        None => {
            return None;
        },
        Some(v) => v,
    };
    proof {
        lemma_find_byte_some(s@, 0, 123);
    }
    let l = match rfind_byte(s, s.len(), 125) {
        None => {
            return None;
        },
        Some(v) => v,
    };
    proof {
        lemma_rfind_byte_some(s@, s@.len() as int, 125);
    }
    if f < l {
        Some(bytes_of(s, f, l + 1))
    } else {
        None
    }
}

/// The first non-trimmed position at or after `i`.
pub open spec fn first_keep(l: Seq<u8>, i: int) -> int
    decreases l.len() - i,
{
    if 0 <= i < l.len() && is_trim_byte(l[i]) {
        first_keep(l, i + 1)
    } else {
        i
    }
}

/// The position after the last non-trimmed byte strictly before `i`.
pub open spec fn last_keep(l: Seq<u8>, i: int) -> int
    decreases i,
{
    if 0 < i <= l.len() && is_trim_byte(l[i - 1]) {
        last_keep(l, i - 1)
    } else {
        i
    }
}

/// A node name with surrounding spaces and single quotes removed, as
/// `str::trim_matches` removes them.
pub open spec fn trim_node(l: Seq<u8>) -> Seq<u8> {
    let lo = first_keep(l, 0);
    let hi = last_keep(l, l.len() as int);
    if lo < hi {
        l.subrange(lo, hi)
    } else {
        Seq::empty()
    }
}

pub proof fn lemma_first_keep_bounds(l: Seq<u8>, i: int)
    requires
        0 <= i <= l.len(),
    ensures
        i <= first_keep(l, i) <= l.len(),
    decreases l.len() - i,
{
    if i < l.len() && is_trim_byte(l[i]) {
        lemma_first_keep_bounds(l, i + 1);
    }
}

pub proof fn lemma_last_keep_bounds(l: Seq<u8>, i: int)
    requires
        0 <= i <= l.len(),
    ensures
        0 <= last_keep(l, i) <= i,
    decreases i,
{
    if 0 < i && is_trim_byte(l[i - 1]) {
        lemma_last_keep_bounds(l, i - 1);
    }
}

/// Scanning back for the trimmed end never passes a non-trimmed byte.
pub proof fn lemma_last_keep_above(l: Seq<u8>, i: int, p: int)
    requires
        0 <= p < i <= l.len(),
        !is_trim_byte(l[p]),
    ensures
        last_keep(l, i) > p,
    decreases i,
{
    if 0 < i && is_trim_byte(l[i - 1]) {
        lemma_last_keep_above(l, i - 1, p);
    }
}

/// Trim a node name.
pub fn trim_node_exec(l: &[u8]) -> (r: Vec<u8>)
    ensures
        r@ == trim_node(l@),
{
    let mut lo: usize = 0;
    while lo < l.len() && trim_byte(l[lo])
        invariant
            0 <= lo <= l@.len(),
            first_keep(l@, 0) == first_keep(l@, lo as int),
        decreases l@.len() - lo,
    {
        lo = lo + 1;
    }
    let mut hi: usize = l.len();
    while hi > 0 && trim_byte(l[hi - 1])
        invariant
            0 <= hi <= l@.len(),
            last_keep(l@, l@.len() as int) == last_keep(l@, hi as int),
        decreases hi,
    {
        hi = hi - 1;
    }
    if lo < hi {
        bytes_of(l, lo, hi)
    } else {
        Vec::new()
    }
}

/// The node names of `s[from..]`: split at commas, each piece trimmed.
pub open spec fn split_nodes_from(s: Seq<u8>, from: int) -> Seq<Seq<u8>>
    decreases s.len() - from,
{
    if from < 0 || from > s.len() {
        Seq::empty()
    } else {
        match spec_find_byte(s, from, COMMA) {
            None => seq![trim_node(s.subrange(from, s.len() as int))],
            Some(j) => if from <= j < s.len() {
                seq![trim_node(s.subrange(from, j))] + split_nodes_from(s, j + 1)
            } else {
                // cannot arise: a found index lies in `[from, s.len())`
                Seq::empty()
            },
        }
    }
}

/// The node names of the whole span `s`. A span without commas yields one
/// name; an empty span yields one empty name, as `str::split` does.
pub open spec fn spec_split_nodes(s: Seq<u8>) -> Seq<Seq<u8>> {
    split_nodes_from(s, 0)
}

/// Split a node-list span at commas and trim each piece.
pub fn split_nodes(s: &[u8]) -> (r: Vec<Vec<u8>>)
    ensures
        r.deep_view() == spec_split_nodes(s@),
{
    let n = s.len();
    let mut out: Vec<Vec<u8>> = Vec::new();
    let mut pos: usize = 0;
    proof {
        assert(spec_split_nodes(s@) =~~= out.deep_view() + split_nodes_from(s@, 0));
    }
    loop
        invariant_except_break
            spec_split_nodes(s@) == out.deep_view() + split_nodes_from(s@, pos as int),
        invariant
            pos <= s@.len(),
            n == s@.len(),
        ensures
            out.deep_view() == spec_split_nodes(s@),
        decreases s@.len() - pos,
    {
        proof {
            lemma_find_byte_some(s@, pos as int, COMMA);
        }
        match find_byte(s, pos, COMMA) {
            None => {
                let piece = {
                    let sub = bytes_of(s, pos, s.len());
                    trim_node_exec(sub.as_slice())
                };
                out.push(piece);
                proof {
                    assert(out.deep_view() =~~= spec_split_nodes(s@));
                }
                break;
            },
            Some(j) => {
                let piece = {
                    let sub = bytes_of(s, pos, j);
                    trim_node_exec(sub.as_slice())
                };
                out.push(piece);
                proof {
                    assert(spec_split_nodes(s@) =~~= out.deep_view() + split_nodes_from(
                        s@,
                        j + 1,
                    ));
                }
                pos = j + 1;
            },
        }
    }
    out
}

} // verus!
