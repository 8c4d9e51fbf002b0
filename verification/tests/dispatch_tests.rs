use proxy_finder::dispatch::Dispatcher;
use proxy_finder::probe::{should_record, ProbeOutcome};

#[test]
fn launches_in_input_order_with_configured_delay() {
    let addrs = vec![b"a".to_vec(), b"b".to_vec(), b"c".to_vec()];
    let mut d = Dispatcher::new(addrs, 33);

    let c0 = d.next_launch().unwrap();
    assert_eq!(c0.addr, b"a".to_vec());
    assert_eq!(c0.delay_ms, 33);
    assert_eq!(c0.progress_pct, 0);

    let c1 = d.next_launch().unwrap();
    assert_eq!(c1.addr, b"b".to_vec());
    assert_eq!(c1.delay_ms, 33);
    assert_eq!(c1.progress_pct, 33);

    let c2 = d.next_launch().unwrap();
    assert_eq!(c2.addr, b"c".to_vec());
    assert_eq!(c2.progress_pct, 66);

    assert!(d.next_launch().is_none());
    assert!(d.next_launch().is_none());
}

#[test]
fn empty_input_launches_nothing() {
    let mut d = Dispatcher::new(Vec::new(), 10);
    assert!(d.next_launch().is_none());
}

#[test]
fn only_reachable_outcomes_are_recorded() {
    assert!(should_record(ProbeOutcome::Reachable));
    assert!(!should_record(ProbeOutcome::Unreachable));
    assert!(!should_record(ProbeOutcome::SetupRejected));
}
