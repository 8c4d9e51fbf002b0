use proxy_finder::lines::split_lines;
use proxy_finder::pipeline::{encode_record, render_output};

#[test]
fn splits_newline_terminated_lines() {
    let input: Vec<u8> = b"1.2.3.4:80\n5.6.7.8:3128\n".to_vec();
    let lines = split_lines(&input);
    assert_eq!(lines, vec![b"1.2.3.4:80".to_vec(), b"5.6.7.8:3128".to_vec()]);
}

#[test]
fn splits_without_trailing_newline() {
    let input: Vec<u8> = b"a\nb".to_vec();
    let lines = split_lines(&input);
    assert_eq!(lines, vec![b"a".to_vec(), b"b".to_vec()]);
}

#[test]
fn empty_input_has_no_lines() {
    let input: Vec<u8> = Vec::new();
    let lines = split_lines(&input);
    assert!(lines.is_empty());
}

#[test]
fn strips_carriage_returns() {
    let input: Vec<u8> = b"a\r\nb\r\n".to_vec();
    let lines = split_lines(&input);
    assert_eq!(lines, vec![b"a".to_vec(), b"b".to_vec()]);
}

#[test]
fn keeps_blank_interior_lines() {
    let input: Vec<u8> = b"a\n\nb".to_vec();
    let lines = split_lines(&input);
    assert_eq!(lines, vec![b"a".to_vec(), b"".to_vec(), b"b".to_vec()]);
}

#[test]
fn single_line_without_newline() {
    let input: Vec<u8> = b"only".to_vec();
    let lines = split_lines(&input);
    assert_eq!(lines, vec![b"only".to_vec()]);
}

#[test]
fn encode_record_appends_newline() {
    let rec = encode_record(&b"1.2.3.4:80".to_vec());
    assert_eq!(rec, b"1.2.3.4:80\n".to_vec());
}

#[test]
fn encode_record_of_empty_address_is_bare_newline() {
    let rec = encode_record(&Vec::new());
    assert_eq!(rec, b"\n".to_vec());
}

#[test]
fn rendered_output_splits_back_to_records() {
    let records = vec![b"good1".to_vec(), b"good2".to_vec(), b"x".to_vec()];
    let out = render_output(&records);
    assert_eq!(out, b"good1\ngood2\nx\n".to_vec());
    assert_eq!(split_lines(&out), records);
}
