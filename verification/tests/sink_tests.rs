use proxy_finder::lines::split_lines;
use proxy_finder::sink::Sink;

#[test]
fn sink_accumulates_complete_records() {
    let mut s = Sink::new();
    s.record(&b"good1".to_vec());
    s.record(&b"good2".to_vec());
    assert_eq!(s.into_bytes(), b"good1\ngood2\n".to_vec());
}

#[test]
fn empty_sink_has_no_bytes() {
    let s = Sink::new();
    assert!(s.into_bytes().is_empty());
}

#[test]
fn a_thousand_records_split_back_whole() {
    let mut s = Sink::new();
    let mut expected: Vec<u8> = Vec::new();
    let mut addrs: Vec<Vec<u8>> = Vec::new();
    for i in 0..1000 {
        let addr = format!("10.0.0.{}:{}", i % 256, 1000 + i).into_bytes();
        expected.extend_from_slice(&addr);
        expected.push(b'\n');
        addrs.push(addr.clone());
        s.record(&addr);
    }
    let bytes = s.into_bytes();
    assert_eq!(bytes, expected);
    assert_eq!(*bytes.last().unwrap(), b'\n');
    let lines = split_lines(&bytes);
    assert_eq!(lines, addrs);
}
