use vertex_rejoin::harness::{
    inbound_verdict, initial_plan, node_addr, node_label, node_schedule, outbound_verdict,
    past_test_deadline, restart_plan, start_order, Inbound, Outbound, NODE_COUNT, RESTARTED_NODE,
    TEST_TIMEOUT_S,
};
use vertex_rejoin::node::{event_line, greeting};

fn strings(v: &[&str]) -> Vec<String> {
    v.iter().map(|s| s.to_string()).collect()
}

#[test]
fn topology() {
    assert_eq!(NODE_COUNT, 4);
    assert_eq!(RESTARTED_NODE, 1);
    assert_eq!(node_addr(0), "127.0.0.1:9000");
    assert_eq!(node_addr(3), "127.0.0.1:9003");
    assert_eq!(node_label(2), "node-2");
    assert_eq!(node_label(10), "node-10");
    assert_eq!(start_order(), vec![3, 2, 1, 0]);
}

#[test]
fn schedules_of_the_four_nodes() {
    assert_eq!(node_schedule(0), vec![(5000, "pre:node-0".to_string()), (13000, "offline:node-0".to_string()), (25000, "live:node-0".to_string())]);
    assert_eq!(node_schedule(1), vec![(5000, "pre:node-1".to_string())]);
    assert_eq!(node_schedule(2), vec![(5000, "pre:node-2".to_string()), (15000, "offline:node-2".to_string()), (27000, "live:node-2".to_string())]);
    assert_eq!(node_schedule(3), vec![(5000, "pre:node-3".to_string()), (17000, "offline:node-3".to_string()), (29000, "live:node-3".to_string())]);
}

#[test]
fn spawn_plans() {
    let p = initial_plan(2);
    assert_eq!(p.node, 2);
    assert!(!p.joining);
    assert_eq!(p.scheduled_sends, node_schedule(2));
    assert!(p.watch_prefixes.is_empty());
    assert_eq!(p.watch_timeout_s, 0);
    let r = restart_plan();
    assert_eq!(r.node, 1);
    assert!(r.joining);
    assert!(r.scheduled_sends.is_empty());
    assert_eq!(r.watch_prefixes, strings(&["offline:", "live:"]));
    assert_eq!(r.watch_timeout_s, 30);
}

#[test]
fn overall_deadline() {
    assert_eq!(TEST_TIMEOUT_S, 120);
    assert!(!past_test_deadline(0));
    assert!(!past_test_deadline(120_000_000_000));
    assert!(past_test_deadline(120_000_000_001));
}

#[test]
fn inbound_verdicts() {
    assert!(matches!(inbound_verdict(Some(0)), Inbound::Passed));
    assert!(matches!(inbound_verdict(Some(42)), Inbound::Reproduced));
    assert!(matches!(inbound_verdict(None), Inbound::NoVerdict));
    assert!(matches!(inbound_verdict(Some(101)), Inbound::Unexpected(101)));
    assert!(matches!(inbound_verdict(Some(-1)), Inbound::Unexpected(-1)));
}

#[test]
fn outbound_finds_the_rejoin_greeting() {
    let got = event_line("89abcdef", &greeting("node-1", true));
    let outputs = vec![
        strings(&["engine started (joining=false)", "SyncPoint #1"]),
        strings(&[got.as_str()]),
        vec![strings(&["x"])[0].clone(), got.clone()],
        vec![got.clone()],
    ];
    assert!(matches!(outbound_verdict(false, &outputs), Outbound::Received(2)));
    let first = vec![vec![got.clone()], Vec::new(), Vec::new(), vec![got.clone()]];
    assert!(matches!(outbound_verdict(true, &first), Outbound::Received(0)));
}

#[test]
fn outbound_ignores_the_restarted_node_and_plain_hellos() {
    let hello = event_line("89abcdef", &greeting("node-1", false));
    let rejoin = event_line("89abcdef", &greeting("node-1", true));
    let outputs = vec![vec![hello.clone()], vec![rejoin.clone()], Vec::new(), vec!["rejoin:node-1".to_string()]];
    assert!(matches!(outbound_verdict(true, &outputs), Outbound::Missing));
    assert!(matches!(outbound_verdict(false, &outputs), Outbound::Skipped));
}
