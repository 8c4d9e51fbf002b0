use proxy_finder::pipeline::{collect_recorded, run_static};

#[test]
fn good_proxies_recorded_bad_ones_not() {
    let addrs = vec![b"good1".to_vec(), b"bad1".to_vec(), b"good2".to_vec()];
    let probed = vec![true, false, true];
    let written = vec![true, true, true];
    let recorded = collect_recorded(&addrs, &probed, &written);
    assert_eq!(recorded, vec![b"good1".to_vec(), b"good2".to_vec()]);
    let out = run_static(&addrs, &probed, &written);
    assert_eq!(out, b"good1\ngood2\n".to_vec());
}

#[test]
fn empty_input_gives_empty_output() {
    let addrs: Vec<Vec<u8>> = Vec::new();
    let out = run_static(&addrs, &Vec::new(), &Vec::new());
    assert!(out.is_empty());
}

#[test]
fn two_runs_on_same_input_agree() {
    let addrs = vec![b"A".to_vec(), b"B".to_vec()];
    let probed = vec![true, false];
    let written = vec![true, true];
    let first = run_static(&addrs, &probed, &written);
    let second = run_static(&addrs, &probed, &written);
    assert_eq!(first, b"A\n".to_vec());
    assert_eq!(first, second);
}

#[test]
fn failed_sink_write_drops_only_that_proxy() {
    let addrs = vec![b"w1".to_vec(), b"w2".to_vec(), b"w3".to_vec()];
    let probed = vec![true, true, true];
    let written = vec![true, false, true];
    let out = run_static(&addrs, &probed, &written);
    assert_eq!(out, b"w1\nw3\n".to_vec());
}

#[test]
fn duplicate_address_recorded_once_per_success() {
    let addrs = vec![b"dup".to_vec(), b"dup".to_vec()];
    let probed = vec![true, false];
    let written = vec![true, true];
    let out = run_static(&addrs, &probed, &written);
    assert_eq!(out, b"dup\n".to_vec());
}

#[test]
fn no_partial_record_under_many_writers() {
    let mut addrs: Vec<Vec<u8>> = Vec::new();
    let mut probed: Vec<bool> = Vec::new();
    let mut written: Vec<bool> = Vec::new();
    for i in 0..1000 {
        addrs.push(format!("10.0.{}.{}:8080", i / 256, i % 256).into_bytes());
        probed.push(i % 3 != 0);
        written.push(true);
    }
    let out = run_static(&addrs, &probed, &written);
    // every byte belongs to a complete, newline-terminated record
    assert_eq!(*out.last().unwrap(), b'\n');
    let mut expected: Vec<u8> = Vec::new();
    for i in 0..1000 {
        if probed[i] {
            expected.extend_from_slice(&addrs[i]);
            expected.push(b'\n');
        }
    }
    assert_eq!(out, expected);
}

#[test]
fn run_from_raw_input_bytes() {
    let raw = b"good1\nbad1\ngood2\n".to_vec();
    let probed = vec![true, false, true];
    let written = vec![true, true, true];
    let out = proxy_finder::pipeline::run_from_input(&raw, &probed, &written);
    assert_eq!(out, b"good1\ngood2\n".to_vec());
}
