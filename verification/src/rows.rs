//! Building the tabular byte stream: one row per metric line, in source
//! order, each row `timestamp,load,iter,error_u,error_phi,job_id` and a
//! newline. A matching line is sliced with the capture ranges of the
//! first matching line (the template) where its own ranges coincide with
//! them; a line whose column layout differs from the template falls back
//! to extraction with its own ranges, so no field is ever cut short.

use vstd::prelude::*;
use rayon::iter::IntoParallelRefIterator;
use rayon::iter::ParallelIterator;
use crate::metric::{Caps, metric_caps, match_metric};
use crate::scan::{COMMA, NL};

verus! {

/// The five fields of `line` sliced with the ranges `c`, joined with
/// commas, with the job id and a newline appended.
pub open spec fn row_fields(line: Seq<u8>, c: Caps, id: Seq<u8>) -> Seq<u8> {
    line.subrange(c.ts_lo as int, c.ts_hi as int) + seq![COMMA] + line.subrange(
        c.load_lo as int,
        c.load_hi as int,
    ) + seq![COMMA] + line.subrange(c.iter_lo as int, c.iter_hi as int) + seq![COMMA]
        + line.subrange(c.u_lo as int, c.u_hi as int) + seq![COMMA] + line.subrange(
        c.phi_lo as int,
        c.phi_hi as int,
    ) + seq![COMMA] + id + seq![NL]
}

/// The row a line contributes: empty when the line does not match the
/// metric shape; otherwise its fields, sliced with the template ranges
/// when the line shares the template's column layout, and with the
/// line's own ranges when it does not.
pub open spec fn row_of(line: Seq<u8>, tpl: Caps, id: Seq<u8>) -> Seq<u8> {
    match metric_caps(line) {
        None => Seq::empty(),
        Some(own) => if own == tpl {
            row_fields(line, tpl, id)
        } else {
            row_fields(line, own, id)
        },
    }
}

/// The row a line contributes under full per-line extraction, with no
/// template: empty for a non-matching line, else its own captured fields.
pub open spec fn full_row_of(line: Seq<u8>, id: Seq<u8>) -> Seq<u8> {
    match metric_caps(line) {
        None => Seq::empty(),
        Some(own) => row_fields(line, own, id),
    }
}

/// The concatenated rows of `lines[i..]`.
pub open spec fn rows_from(lines: Seq<Seq<u8>>, i: int, tpl: Caps, id: Seq<u8>) -> Seq<u8>
    decreases lines.len() - i,
{
    if i < 0 || i >= lines.len() {
        Seq::empty()
    } else {
        row_of(lines[i], tpl, id) + rows_from(lines, i + 1, tpl, id)
    }
}

/// The concatenated rows of all of `lines`, in source order.
pub open spec fn spec_rows(lines: Seq<Seq<u8>>, tpl: Caps, id: Seq<u8>) -> Seq<u8> {
    rows_from(lines, 0, tpl, id)
}

/// The concatenated rows of `lines[i..]` under full per-line extraction.
pub open spec fn full_rows_from(lines: Seq<Seq<u8>>, i: int, id: Seq<u8>) -> Seq<u8>
    decreases lines.len() - i,
{
    if i < 0 || i >= lines.len() {
        Seq::empty()
    } else {
        full_row_of(lines[i], id) + full_rows_from(lines, i + 1, id)
    }
}

/// The number of metric-shaped lines among `lines[i..]`: one row is
/// emitted for each.
pub open spec fn row_count_from(lines: Seq<Seq<u8>>, i: int) -> int
    decreases lines.len() - i,
{
    if i < 0 || i >= lines.len() {
        0
    } else {
        (if metric_caps(lines[i]) is Some {
            1int
        } else {
            0int
        }) + row_count_from(lines, i + 1)
    }
}

/// The number of rows all of `lines` contribute.
pub open spec fn spec_row_count(lines: Seq<Seq<u8>>) -> int {
    row_count_from(lines, 0)
}

/// The capture ranges of the template: the first metric-shaped line of
/// `lines[i..]`.
pub open spec fn template_from(lines: Seq<Seq<u8>>, i: int) -> Option<Caps>
    decreases lines.len() - i,
{
    if i < 0 || i >= lines.len() {
        None
    } else {
        match metric_caps(lines[i]) {
            Some(c) => Some(c),
            None => template_from(lines, i + 1),
        }
    }
}

/// Find the template: the capture ranges of the first metric-shaped line.
pub fn find_template(lines: &Vec<Vec<u8>>) -> (r: Option<Caps>)
    ensures
        r == template_from(lines.deep_view(), 0),
{
    let mut i: usize = 0;
    while i < lines.len()
        invariant
            i <= lines@.len(),
            lines.deep_view().len() == lines@.len(),
            template_from(lines.deep_view(), 0) == template_from(lines.deep_view(), i as int),
        decreases lines@.len() - i,
    {
        proof {
            assert(lines.deep_view()[i as int] =~= lines@[i as int]@);
        }
        match match_metric(lines[i].as_slice()) {
            Some(c) => {
                return Some(c);
            },
            None => {},
        }
        i = i + 1;
    }
    None
}

/// Append the byte range `[lo, hi)` of `line` to `out`.
fn push_range(out: &mut Vec<u8>, line: &[u8], lo: usize, hi: usize)
    requires
        lo <= hi <= line@.len(),
    ensures
        final(out)@ == old(out)@ + line@.subrange(lo as int, hi as int),
{
    let mut i: usize = lo;
    while i < hi
        invariant
            lo <= i <= hi <= line@.len(),
            out@ == old(out)@ + line@.subrange(lo as int, i as int),
        decreases hi - i,
    {
        out.push(line[i]);
        proof {
            assert(out@ =~= old(out)@ + line@.subrange(lo as int, i + 1));
        }
        i = i + 1;
    }
    proof {
        assert(out@ =~= old(out)@ + line@.subrange(lo as int, hi as int));
    }
}

/// The row `line` contributes, sliced with the template ranges `tpl`
/// where the line shares their layout.
pub fn build_row(line: &[u8], tpl: &Caps, id: &[u8]) -> (r: Vec<u8>)
    ensures
        r@ == row_of(line@, *tpl, id@),
{
    let mut out: Vec<u8> = Vec::new();
    let own = match match_metric(line) {
        None => {
            return out;
        },
        Some(own) => own,
    };
    let c = if own == *tpl {
        *tpl
    } else {
        own
    };
    push_range(&mut out, line, c.ts_lo, c.ts_hi);
    out.push(COMMA);
    push_range(&mut out, line, c.load_lo, c.load_hi);
    out.push(COMMA);
    push_range(&mut out, line, c.iter_lo, c.iter_hi);
    out.push(COMMA);
    push_range(&mut out, line, c.u_lo, c.u_hi);
    out.push(COMMA);
    push_range(&mut out, line, c.phi_lo, c.phi_hi);
    out.push(COMMA);
    push_range(&mut out, id, 0, id.len());
    out.push(NL);
    proof {
        assert(id@.subrange(0, id@.len() as int) =~= id@);
        assert(out@ =~= row_fields(line@, c, id@));
    }
    out
}

/// Relies on rayon's `par_iter().flat_map_iter(..).collect()` on a `Vec`,
/// which applies the closure — a call of the verified `build_row` — to
/// every line in parallel and collects the produced bytes in source
/// order, as rayon documents of `collect`.
#[verifier::external_body]
pub fn rows_parallel(lines: &Vec<Vec<u8>>, tpl: &Caps, id: &Vec<u8>) -> (r: Vec<u8>)
    ensures
        r@ == spec_rows(lines.deep_view(), *tpl, id@),
{
    lines.par_iter().flat_map_iter(|line| build_row(line, tpl, id)).collect()
}

/// Extraction through the template yields the same field values as full
/// per-line extraction: the template is used only where the line's own
/// capture ranges coincide with it.
pub proof fn lemma_template_slice_exact(line: Seq<u8>, tpl: Caps, id: Seq<u8>)
    ensures
        row_of(line, tpl, id) == full_row_of(line, id),
{
}

/// The whole output through the template equals the output of full
/// per-line extraction, whatever the template.
pub proof fn lemma_template_rows_exact(lines: Seq<Seq<u8>>, i: int, tpl: Caps, id: Seq<u8>)
    ensures
        rows_from(lines, i, tpl, id) == full_rows_from(lines, i, id),
    decreases lines.len() - i,
{
    if 0 <= i < lines.len() {
        lemma_template_rows_exact(lines, i + 1, tpl, id);
        lemma_template_slice_exact(lines[i], tpl, id);
    }
}

/// Positions past the first line shift down by one when the first line
/// is dropped.
proof fn lemma_rows_from_shift(lines: Seq<Seq<u8>>, i: int, tpl: Caps, id: Seq<u8>)
    requires
        0 <= i,
        lines.len() > 0,
    ensures
        rows_from(lines, i + 1, tpl, id) == rows_from(lines.drop_first(), i, tpl, id),
    decreases lines.len() - i,
{
    if i + 1 < lines.len() {
        lemma_rows_from_shift(lines, i + 1, tpl, id);
        assert(lines.drop_first()[i] == lines[i + 1]);
    }
}

/// Rows stand in source-line order: the output is the concatenation, in
/// line order, of the row each line contributes.
pub proof fn lemma_rows_in_line_order(lines: Seq<Seq<u8>>, tpl: Caps, id: Seq<u8>)
    ensures
        spec_rows(lines, tpl, id) == lines.map_values(
            |l: Seq<u8>| row_of(l, tpl, id),
        ).flatten(),
    decreases lines.len(),
{
    let f = |l: Seq<u8>| row_of(l, tpl, id);
    if lines.len() == 0 {
        assert(lines.map_values(f).len() == 0);
        assert(lines.map_values(f).flatten() =~= Seq::<u8>::empty());
    } else {
        lemma_rows_in_line_order(lines.drop_first(), tpl, id);
        lemma_rows_from_shift(lines, 0, tpl, id);
        assert(lines.map_values(f).drop_first() =~= lines.drop_first().map_values(f));
        assert(lines.map_values(f).first() == f(lines[0]));
        assert(lines.map_values(f).flatten() == f(lines[0]) + lines.map_values(
            f,
        ).drop_first().flatten());
    }
}

/// Removing a line leaves the rows of the positions after it shifted
/// down by one.
proof fn lemma_rows_remove_tail(lines: Seq<Seq<u8>>, i: int, j: int, tpl: Caps, id: Seq<u8>)
    requires
        0 <= i < lines.len(),
        i <= j,
    ensures
        rows_from(lines.remove(i), j, tpl, id) == rows_from(lines, j + 1, tpl, id),
        row_count_from(lines.remove(i), j) == row_count_from(lines, j + 1),
    decreases lines.len() - j,
{
    let rem = lines.remove(i);
    if j < rem.len() {
        assert(rem[j] == lines[j + 1]);
        lemma_rows_remove_tail(lines, i, j + 1, tpl, id);
    }
}

proof fn lemma_rows_remove_head(lines: Seq<Seq<u8>>, i: int, j: int, tpl: Caps, id: Seq<u8>)
    requires
        0 <= j <= i < lines.len(),
        metric_caps(lines[i]) is None,
    ensures
        rows_from(lines.remove(i), j, tpl, id) == rows_from(lines, j, tpl, id),
        row_count_from(lines.remove(i), j) == row_count_from(lines, j),
    decreases i - j,
{
    let rem = lines.remove(i);
    if j < i {
        assert(rem[j] == lines[j]);
        lemma_rows_remove_head(lines, i, j + 1, tpl, id);
    } else {
        lemma_rows_remove_tail(lines, i, j, tpl, id);
    }
}

/// A line that does not match the metric shape contributes nothing: its
/// removal leaves the rows, and the row count, unchanged, so the rows of
/// the following lines keep their places.
pub proof fn lemma_nonmetric_line_dropped(lines: Seq<Seq<u8>>, i: int, tpl: Caps, id: Seq<u8>)
    requires
        0 <= i < lines.len(),
        metric_caps(lines[i]) is None,
    ensures
        spec_rows(lines.remove(i), tpl, id) == spec_rows(lines, tpl, id),
        spec_row_count(lines.remove(i)) == spec_row_count(lines),
{
    lemma_rows_remove_head(lines, i, 0, tpl, id);
}

} // verus!
