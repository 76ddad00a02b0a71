use vertex_rejoin::cli::{is_node_invocation, node_command_args, parse_node_args, ArgError, NodeConfig};
use vertex_rejoin::harness::{initial_plan, restart_plan};

fn strings(v: &[&str]) -> Vec<String> {
    v.iter().map(|s| s.to_string()).collect()
}

fn config_of(args: &[&str]) -> (Vec<String>, NodeConfig) {
    let parsed = parse_node_args(&strings(args));
    match parsed.result {
        Ok(c) => (parsed.ignored, c),
        Err(_) => panic!("refused: {args:?}"),
    }
}

#[test]
fn parses_a_full_node_command_line() {
    let (ignored, c) = config_of(&[
        "--bind", "127.0.0.1:9000", "--secret", "S", "--label", "node-0",
        "--send-after-ms", "5000", "--send-payload", "pre:node-0",
        "--send-after-ms", "13000", "--send-payload", "offline:node-0",
        "--watch-prefix", "live:", "--watch-timeout-s", "30",
        "--peer-addr", "127.0.0.1:9001", "--peer-pubkey", "K1",
        "--joining",
    ]);
    assert!(ignored.is_empty());
    assert_eq!(c.bind, "127.0.0.1:9000");
    assert_eq!(c.secret, "S");
    assert_eq!(c.label, "node-0");
    assert!(c.joining);
    assert_eq!(c.scheduled_sends, vec![(5000, "pre:node-0".to_string()), (13000, "offline:node-0".to_string())]);
    assert_eq!(c.watch_prefixes, strings(&["live:"]));
    assert_eq!(c.watch_timeout_s, 30);
    assert_eq!(c.peers, vec![("127.0.0.1:9001".to_string(), "K1".to_string())]);
}

#[test]
fn empty_command_line_gives_defaults() {
    let (ignored, c) = config_of(&[]);
    assert!(ignored.is_empty());
    assert_eq!(c.bind, "");
    assert_eq!(c.secret, "");
    assert_eq!(c.label, "");
    assert!(!c.joining);
    assert!(c.peers.is_empty());
    assert!(c.scheduled_sends.is_empty());
    assert!(c.watch_prefixes.is_empty());
    assert_eq!(c.watch_timeout_s, 0);
}

#[test]
fn unknown_arguments_are_set_aside_in_order() {
    let (ignored, c) = config_of(&["--verbose", "--label", "x", "stray"]);
    assert_eq!(ignored, strings(&["--verbose", "stray"]));
    assert_eq!(c.label, "x");
}

#[test]
fn values_are_taken_whatever_they_look_like() {
    let (ignored, c) = config_of(&["--send-payload", "--joining", "--send-after-ms", "1", "--label", "--bind"]);
    assert!(ignored.is_empty());
    assert!(!c.joining);
    assert_eq!(c.scheduled_sends, vec![(1, "--joining".to_string())]);
    assert_eq!(c.label, "--bind");
}

#[test]
fn later_single_values_override_earlier_ones() {
    let (_, c) = config_of(&["--bind", "a", "--bind", "b", "--watch-timeout-s", "5", "--watch-timeout-s", "+6"]);
    assert_eq!(c.bind, "b");
    assert_eq!(c.watch_timeout_s, 6);
}

#[test]
fn peers_pair_up_as_far_as_both_lists_go() {
    let (_, c) = config_of(&["--peer-addr", "a", "--peer-addr", "b", "--peer-pubkey", "ka"]);
    assert_eq!(c.peers, vec![("a".to_string(), "ka".to_string())]);
}

#[test]
fn option_without_value_is_refused() {
    let parsed = parse_node_args(&strings(&["--what", "--bind"]));
    assert_eq!(parsed.ignored, strings(&["--what"]));
    match parsed.result {
        Err(ArgError::MissingValue { flag }) => assert_eq!(flag, "--bind"),
        _ => panic!("expected a missing value"),
    }
}

#[test]
fn bad_number_is_refused() {
    let parsed = parse_node_args(&strings(&["--send-after-ms", "soon", "--label", "x"]));
    match parsed.result {
        Err(ArgError::InvalidNumber { flag, value }) => {
            assert_eq!(flag, "--send-after-ms");
            assert_eq!(value, "soon");
        }
        _ => panic!("expected an invalid number"),
    }
    let parsed = parse_node_args(&strings(&["--watch-timeout-s", "-3"]));
    assert!(matches!(parsed.result, Err(ArgError::InvalidNumber { .. })));
}

#[test]
fn first_refusal_wins() {
    let parsed = parse_node_args(&strings(&["--watch-timeout-s", "x", "--bind"]));
    assert!(matches!(parsed.result, Err(ArgError::InvalidNumber { .. })));
}

#[test]
fn unpaired_sends_are_refused() {
    let parsed = parse_node_args(&strings(&["--send-after-ms", "1", "--send-after-ms", "2", "--send-payload", "p"]));
    match parsed.result {
        Err(ArgError::UnpairedSends { after_ms, payloads }) => {
            assert_eq!(after_ms, 2);
            assert_eq!(payloads, 1);
        }
        _ => panic!("expected unpaired sends"),
    }
}

#[test]
fn node_invocation_is_recognised() {
    assert!(is_node_invocation(&strings(&["exe", "node"])));
    assert!(is_node_invocation(&strings(&["exe", "node", "--bind", "x"])));
    assert!(!is_node_invocation(&strings(&["exe"])));
    assert!(!is_node_invocation(&strings(&["exe", "nodes"])));
    assert!(!is_node_invocation(&strings(&["node"])));
}

fn keys() -> (Vec<String>, Vec<String>) {
    (strings(&["s0", "s1", "s2", "s3"]), strings(&["k0", "k1", "k2", "k3"]))
}

#[test]
fn restart_command_line_is_exact() {
    let (secrets, pubkeys) = keys();
    let plan = restart_plan();
    let args = node_command_args(plan.node, &secrets, &pubkeys, plan.joining, &plan.scheduled_sends, &plan.watch_prefixes, plan.watch_timeout_s);
    assert_eq!(args, strings(&[
        "node", "--bind", "127.0.0.1:9001", "--secret", "s1", "--label", "node-1", "--joining",
        "--watch-prefix", "offline:", "--watch-prefix", "live:", "--watch-timeout-s", "30",
        "--peer-addr", "127.0.0.1:9000", "--peer-pubkey", "k0",
        "--peer-addr", "127.0.0.1:9002", "--peer-pubkey", "k2",
        "--peer-addr", "127.0.0.1:9003", "--peer-pubkey", "k3",
    ]));
}

#[test]
fn initial_command_line_is_exact() {
    let (secrets, pubkeys) = keys();
    let plan = initial_plan(3);
    let args = node_command_args(plan.node, &secrets, &pubkeys, plan.joining, &plan.scheduled_sends, &plan.watch_prefixes, plan.watch_timeout_s);
    assert_eq!(args, strings(&[
        "node", "--bind", "127.0.0.1:9003", "--secret", "s3", "--label", "node-3",
        "--send-after-ms", "5000", "--send-payload", "pre:node-3",
        "--send-after-ms", "17000", "--send-payload", "offline:node-3",
        "--send-after-ms", "29000", "--send-payload", "live:node-3",
        "--peer-addr", "127.0.0.1:9000", "--peer-pubkey", "k0",
        "--peer-addr", "127.0.0.1:9001", "--peer-pubkey", "k1",
        "--peer-addr", "127.0.0.1:9002", "--peer-pubkey", "k2",
    ]));
}

#[test]
fn node_reads_back_what_the_orchestrator_wrote() {
    let (secrets, _) = keys();
    let pubkeys = strings(&["k0", "k1", "k2"]);
    for node in 0..4usize {
        let plan = if node == 1 { restart_plan() } else { initial_plan(node) };
        let pk = if node == 3 { pubkeys.clone() } else { keys().1 };
        let argv = node_command_args(node, &secrets, &pk, plan.joining, &plan.scheduled_sends, &plan.watch_prefixes, plan.watch_timeout_s);
        let mut full = vec!["exe".to_string()];
        full.extend(argv.iter().cloned());
        assert!(is_node_invocation(&full));
        let parsed = parse_node_args(&argv[1..]);
        assert!(parsed.ignored.is_empty());
        let c = match parsed.result { Ok(c) => c, Err(_) => panic!("refused") };
        assert_eq!(c.secret, secrets[node]);
        assert_eq!(c.label, format!("node-{node}"));
        assert_eq!(c.bind, format!("127.0.0.1:900{node}"));
        assert_eq!(c.joining, plan.joining);
        assert_eq!(c.scheduled_sends, plan.scheduled_sends);
        assert_eq!(c.watch_prefixes, plan.watch_prefixes);
        assert_eq!(c.watch_timeout_s, plan.watch_timeout_s);
        let expected: Vec<(String, String)> = (0..4usize).filter(|j| *j != node)
            .map(|j| (format!("127.0.0.1:900{j}"), pk[j].clone())).collect();
        assert_eq!(c.peers, expected);
    }
}

#[test]
fn roundtrip_with_awkward_payloads() {
    let (secrets, pubkeys) = keys();
    let sends = vec![(0u64, "--joining".to_string()), (u64::MAX, String::new()), (7, "--bind".to_string())];
    let prefixes = strings(&["", "--label"]);
    let argv = node_command_args(2, &secrets, &pubkeys, false, &sends, &prefixes, 0);
    let parsed = parse_node_args(&argv[1..]);
    assert!(parsed.ignored.is_empty());
    let c = match parsed.result { Ok(c) => c, Err(_) => panic!("refused") };
    assert!(!c.joining);
    assert_eq!(c.scheduled_sends, sends);
    assert_eq!(c.watch_prefixes, prefixes);
    assert_eq!(c.watch_timeout_s, 0);
    assert_eq!(c.label, "node-2");
}
