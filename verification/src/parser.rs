//! The log parser: the first line is the job header, the second the
//! optional parameter blob, and the remaining lines the metric entries.
//! Parsing yields the job metadata and one tabular row per metric line,
//! `timestamp,load,iter,error_u,error_phi,job_id`, newline-terminated,
//! in source-line order; or a staged format error.

use vstd::prelude::*;
use crate::error::{Error, Stage};
use crate::scan::{NL, spec_find_byte, find_byte, lemma_find_byte_some, bytes_of, spec_lines, split_lines};
use crate::num::{dec_val, digits_to_i32, lemma_dec_val_nonneg};
use crate::header::{header_caps, match_header, params_span, extract_params, spec_split_nodes, split_nodes, lemma_header_caps_wf};
use crate::rows::{spec_rows, template_from, find_template, rows_parallel};

verus! {

/// The job metadata parsed from the header: string-encoded id, name,
/// queue, CPU count, ordered node names, and the optional verbatim
/// parameter blob.
#[derive(Debug)]
pub struct JobInfo {
    pub id: Vec<u8>,
    pub name: Vec<u8>,
    pub queue: Vec<u8>,
    pub n: i32,
    pub nodes: Vec<Vec<u8>>,
    pub parameters: Option<Vec<u8>>,
}

/// The mathematical content of a `JobInfo`.
#[verifier::ext_equal]
pub struct JobInfoView {
    pub id: Seq<u8>,
    pub name: Seq<u8>,
    pub queue: Seq<u8>,
    pub n: int,
    pub nodes: Seq<Seq<u8>>,
    pub parameters: Option<Seq<u8>>,
}

impl View for JobInfo {
    type V = JobInfoView;

    open spec fn view(&self) -> JobInfoView {
        JobInfoView {
            id: self.id@,
            name: self.name@,
            queue: self.queue@,
            n: self.n as int,
            nodes: self.nodes.deep_view(),
            parameters: self.parameters.deep_view(),
        }
    }
}

/// What parsing a whole log text yields: split at the first two line
/// boundaries, match the header fields, take the parameter span, find
/// the template among the body lines, and emit one row per metric line.
/// A header whose CPU count does not fit an `i32` fails at the header
/// stage.
pub open spec fn parse_spec(s: Seq<u8>) -> Result<(JobInfoView, Seq<u8>), Error> {
    match spec_find_byte(s, 0, NL) {
        None => Err(Error::Format(Stage::Header)),
        Some(i) => {
            let header = s.subrange(0, i);
            match spec_find_byte(s, i + 1, NL) {
                None => Err(Error::Format(Stage::Params)),
                Some(j) => {
                    let params_line = s.subrange(i + 1, j);
                    let body = s.subrange(j + 1, s.len() as int);
                    match header_caps(header) {
                        None => Err(Error::Format(Stage::Header)),
                        Some(h) => {
                            if dec_val(header.subrange(h.n_lo as int, h.n_hi as int)) > i32::MAX {
                                Err(Error::Format(Stage::Header))
                            } else {
                                let jv = JobInfoView {
                                    id: header.subrange(h.id_lo as int, h.id_hi as int),
                                    name: header.subrange(h.name_lo as int, h.name_hi as int),
                                    queue: header.subrange(h.queue_lo as int, h.queue_hi as int),
                                    n: dec_val(header.subrange(h.n_lo as int, h.n_hi as int)),
                                    nodes: spec_split_nodes(
                                        header.subrange(h.nodes_lo as int, h.nodes_hi as int),
                                    ),
                                    parameters: params_span(params_line),
                                };
                                let lines = spec_lines(body);
                                match template_from(lines, 0) {
                                    None => Err(Error::Format(Stage::Template)),
                                    Some(tpl) => Ok((jv, spec_rows(lines, tpl, jv.id))),
                                }
                            }
                        },
                    }
                },
            }
        },
    }
}

/// The log parser.
pub struct LogParser;

impl LogParser {
    /// Parse a log text into the job metadata and the tabular rows.
    ///
    /// The text must hold a header line, a parameter line, and a body;
    /// the header must carry the five job fields, and at least one body
    /// line must match the metric shape (it becomes the slicing
    /// template). Each failure is reported with its stage.
    pub fn parse_to_csv(logs: &[u8]) -> (r: Result<(JobInfo, Vec<u8>), Error>)
        ensures
            match (r, parse_spec(logs@)) {
                (Ok((job, rows)), Ok((jv, rv))) => job@ == jv && rows@ == rv,
                (Err(e), Err(ev)) => e == ev,
                _ => false,
            },
    {
        let n = logs.len();
        let i = match find_byte(logs, 0, NL) {
            None => {
                return Err(Error::Format(Stage::Header));
            },
            Some(v) => v,
        };
        proof {
            lemma_find_byte_some(logs@, 0, NL);
        }
        let header = bytes_of(logs, 0, i);
        let j = match find_byte(logs, i + 1, NL) {
            None => {
                return Err(Error::Format(Stage::Params));
            },
            Some(v) => v,
        };
        proof {
            lemma_find_byte_some(logs@, i + 1, NL);
        }
        let params_line = bytes_of(logs, i + 1, j);
        let body = bytes_of(logs, j + 1, n);
        let params = extract_params(params_line.as_slice());
        proof {
            lemma_header_caps_wf(header@);
        }
        let h = match match_header(header.as_slice()) {
            None => {
                return Err(Error::Format(Stage::Header));
            },
            Some(v) => v,
        };
        let n_cpu = match digits_to_i32(header.as_slice(), h.n_lo, h.n_hi) {
            None => {
                return Err(Error::Format(Stage::Header));
            },
            Some(v) => v,
        };
        proof {
            lemma_dec_val_nonneg(header@.subrange(h.n_lo as int, h.n_hi as int));
        }
        let id = bytes_of(header.as_slice(), h.id_lo, h.id_hi);
        let name = bytes_of(header.as_slice(), h.name_lo, h.name_hi);
        let queue = bytes_of(header.as_slice(), h.queue_lo, h.queue_hi);
        let nodes_span = bytes_of(header.as_slice(), h.nodes_lo, h.nodes_hi);
        let nodes = split_nodes(nodes_span.as_slice());
        let lines = split_lines(body.as_slice());
        let tpl = match find_template(&lines) {
            None => {
                return Err(Error::Format(Stage::Template));
            },
            Some(v) => v,
        };
        let rows = rows_parallel(&lines, &tpl, &id);
        let job = JobInfo { id, name, queue, n: n_cpu, nodes, parameters: params };
        proof {
            if let Ok((jv, rv)) = parse_spec(logs@) {
                assert(job@.nodes =~~= jv.nodes);
                assert(job@ =~~= jv);
                assert(rows@ == rv);
            }
        }
        Ok((job, rows))
    }
}

} // verus!
