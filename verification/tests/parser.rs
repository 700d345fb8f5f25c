use solverlog::error::{Error, Stage};
use solverlog::parser::LogParser;
use solverlog::num::parse_i64;

fn sample_log() -> String {
    let mut text = String::new();
    text.push_str(
        "JobInfo(id='666666', name='test_job', queue='default', n=4, nodes=['node1', 'node2'])\n",
    );
    text.push_str("{param1: value1, param2: value2}\n");
    text.push_str("2023-01-01 10:00:00.000 ... l=1.5 ... iter=1 ... err={ u=0.1 phi=0.2 }\n");
    text.push_str("2023-01-01 10:01:00.000 ... l=1.2 ... iter=2 ... err={ u=0.05 phi=0.15 }\n");
    text
}

#[test]
fn test_parse_end_to_end() {
    let text = sample_log();
    let (job, rows) = LogParser::parse_to_csv(text.as_bytes()).unwrap();
    assert_eq!(job.id, b"666666");
    assert_eq!(job.name, b"test_job");
    assert_eq!(job.queue, b"default");
    assert_eq!(job.n, 4);
    assert_eq!(job.nodes, vec![b"node1".to_vec(), b"node2".to_vec()]);
    assert_eq!(
        job.parameters,
        Some(b"{param1: value1, param2: value2}".to_vec())
    );
    let expected = "2023-01-01 10:00:00.000,1.5,1,0.1,0.2,666666\n\
                    2023-01-01 10:01:00.000,1.2,2,0.05,0.15,666666\n";
    assert_eq!(rows, expected.as_bytes());
}

#[test]
fn test_parse_missing_first_boundary() {
    let err = LogParser::parse_to_csv(b"no newline at all").unwrap_err();
    assert!(matches!(err, Error::Format(Stage::Header)));
}

#[test]
fn test_parse_missing_second_boundary() {
    let err = LogParser::parse_to_csv(b"JobInfo(...)\nsecond line without end").unwrap_err();
    assert!(matches!(err, Error::Format(Stage::Params)));
}

#[test]
fn test_parse_unmatched_header() {
    let text = "not a job header\n{}\n2023-01-01 10:00:00.000 l=1.0 iter=1 err={ u=0.1 phi=0.2 }\n";
    let err = LogParser::parse_to_csv(text.as_bytes()).unwrap_err();
    assert!(matches!(err, Error::Format(Stage::Header)));
}

#[test]
fn test_parse_no_metric_line() {
    let text = "JobInfo(id='1', name='a', queue='q', n=1, nodes=[x])\n{}\nnothing useful\nstill nothing\n";
    let err = LogParser::parse_to_csv(text.as_bytes()).unwrap_err();
    assert!(matches!(err, Error::Format(Stage::Template)));
}

#[test]
fn test_parse_drops_nonmatching_lines() {
    let mut text = String::new();
    text.push_str("JobInfo(id='7', name='j', queue='q', n=2, nodes=['n'])\n");
    text.push_str("{}\n");
    text.push_str("starting up, nothing to report\n");
    text.push_str("2024-05-05 01:02:03.004 step l=2.0 speak iter=3 err={ u=0.3 phi=0.4 }\n");
    text.push_str("a stray diagnostic line\n");
    text.push_str("2024-05-05 01:02:04.004 step l=2.5 speak iter=4 err={ u=0.2 phi=0.3 }\n");
    let (_, rows) = LogParser::parse_to_csv(text.as_bytes()).unwrap();
    let expected = "2024-05-05 01:02:03.004,2.0,3,0.3,0.4,7\n\
                    2024-05-05 01:02:04.004,2.5,4,0.2,0.3,7\n";
    assert_eq!(rows, expected.as_bytes());
}

#[test]
fn test_parse_without_parameters() {
    let mut text = String::new();
    text.push_str("JobInfo(id='9', name='x', queue='batch', n=8, nodes=['a','b'])\n");
    text.push_str("no braces here\n");
    text.push_str("2024-01-01 00:00:00.000 l=1.0 iter=1 err={ u=1.0 phi=1.0 }\n");
    let (job, _) = LogParser::parse_to_csv(text.as_bytes()).unwrap();
    assert_eq!(job.parameters, None);
}

#[test]
fn test_parse_empty_node_list() {
    let mut text = String::new();
    text.push_str("JobInfo(id='3', name='x', queue='q', n=1, nodes=[])\n");
    text.push_str("{}\n");
    text.push_str("2024-01-01 00:00:00.000 l=1.0 iter=1 err={ u=1.0 phi=1.0 }\n");
    let (job, _) = LogParser::parse_to_csv(text.as_bytes()).unwrap();
    // splitting an empty span yields one empty name, as `str::split` does
    assert_eq!(job.nodes, vec![b"".to_vec()]);
}

#[test]
fn test_parse_crlf_line_endings() {
    let mut text = String::new();
    text.push_str("JobInfo(id='11', name='w', queue='q', n=2, nodes=['n'])\n");
    text.push_str("{}\n");
    text.push_str("2024-03-03 10:00:00.500 l=4.0 iter=9 err={ u=0.9 phi=0.8 }\r\n");
    let (_, rows) = LogParser::parse_to_csv(text.as_bytes()).unwrap();
    assert_eq!(rows, b"2024-03-03 10:00:00.500,4.0,9,0.9,0.8,11\n");
}

#[test]
fn test_parse_template_slices_later_lines() {
    // the second matching line shares the first line's column layout and
    // is sliced with the cached ranges rather than re-matched
    let mut text = String::new();
    text.push_str("JobInfo(id='5', name='t', queue='q', n=1, nodes=['n'])\n");
    text.push_str("{}\n");
    text.push_str("2020-02-02 02:02:02.002 l=9.0 iter=1 err={ u=0.5 phi=0.6 }\n");
    text.push_str("2021-03-03 03:03:03.003 l=8.0 iter=2 err={ u=0.4 phi=0.3 }\n");
    let (_, rows) = LogParser::parse_to_csv(text.as_bytes()).unwrap();
    let expected = "2020-02-02 02:02:02.002,9.0,1,0.5,0.6,5\n\
                    2021-03-03 03:03:03.003,8.0,2,0.4,0.3,5\n";
    assert_eq!(rows, expected.as_bytes());
}

#[test]
fn test_parse_id_numeric() {
    assert_eq!(parse_i64(b"666666"), Some(666666));
    assert_eq!(parse_i64(b"-12"), Some(-12));
    assert_eq!(parse_i64(b"+7"), Some(7));
    assert_eq!(parse_i64(b"0"), Some(0));
    assert_eq!(parse_i64(b"9223372036854775807"), Some(i64::MAX));
    assert_eq!(parse_i64(b"-9223372036854775808"), Some(i64::MIN));
}

#[test]
fn test_parse_id_not_numeric() {
    assert_eq!(parse_i64(b""), None);
    assert_eq!(parse_i64(b"12a"), None);
    assert_eq!(parse_i64(b"-"), None);
    assert_eq!(parse_i64(b"+"), None);
    assert_eq!(parse_i64(b" 3"), None);
    assert_eq!(parse_i64(b"9223372036854775808"), None);
    assert_eq!(parse_i64(b"-9223372036854775809"), None);
}

#[test]
fn test_parse_skips_false_load_token() {
    // `l=` followed by a non-numeric byte is not the load field; the
    // search moves on to the next occurrence
    let mut text = String::new();
    text.push_str("JobInfo(id='4', name='j', queue='q', n=1, nodes=['n'])\n");
    text.push_str("{}\n");
    text.push_str("2024-01-01 00:00:00.000 vol=high l=3.5 iter=2 err={ u=0.1 phi=0.2 }\n");
    let (_, rows) = LogParser::parse_to_csv(text.as_bytes()).unwrap();
    assert_eq!(rows, b"2024-01-01 00:00:00.000,3.5,2,0.1,0.2,4\n");
}

#[test]
fn test_parse_skips_incomplete_error_group() {
    // an `err={ u=..` group without ` phi=` right after the run is
    // passed over in favour of a later complete one
    let mut text = String::new();
    text.push_str("JobInfo(id='4', name='j', queue='q', n=1, nodes=['n'])\n");
    text.push_str("{}\n");
    text.push_str("2024-01-01 00:00:00.000 l=1.0 iter=1 err={ u=7 broken err={ u=2 phi=3 }\n");
    let (_, rows) = LogParser::parse_to_csv(text.as_bytes()).unwrap();
    assert_eq!(rows, b"2024-01-01 00:00:00.000,1.0,1,2,3,4\n");
}

#[test]
fn test_parse_field_key_needs_word_boundary() {
    // `id='` inside a longer word does not open the id field
    let mut text = String::new();
    text.push_str("JobInfo(grid='9' id='7', name='j', queue='q', n=1, nodes=['n'])\n");
    text.push_str("{}\n");
    text.push_str("2024-01-01 00:00:00.000 l=1.0 iter=1 err={ u=0.1 phi=0.2 }\n");
    let (job, _) = LogParser::parse_to_csv(text.as_bytes()).unwrap();
    assert_eq!(job.id, b"7");
}

#[test]
fn test_parse_header_fields_out_of_order() {
    // the five fields are located left to right; a queue that comes
    // before the name cannot be found
    let text = "JobInfo(id='1', queue='q', name='x', n=1, nodes=['n'])\n{}\n2024-01-01 00:00:00.000 l=1.0 iter=1 err={ u=0.1 phi=0.2 }\n";
    let err = LogParser::parse_to_csv(text.as_bytes()).unwrap_err();
    assert!(matches!(err, Error::Format(Stage::Header)));
}

#[test]
fn test_parse_id_leading_zeros() {
    assert_eq!(parse_i64(b"007"), Some(7));
    assert_eq!(parse_i64(b"-0"), Some(0));
}
