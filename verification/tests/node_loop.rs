use vertex_rejoin::node::{
    bind_retry, engine_settings, event_line, greeting, sent_line, short_creator, started_line,
    sync_line, timeout_line, NodeLoop, BIND_RETRY_DELAY_MS, BIND_RETRY_LIMIT,
};

fn strings(v: &[&str]) -> Vec<String> {
    v.iter().map(|s| s.to_string()).collect()
}

fn bytes(v: &[&str]) -> Vec<Vec<u8>> {
    v.iter().map(|s| s.as_bytes().to_vec()).collect()
}

#[test]
fn bind_is_retried_forty_times() {
    assert_eq!(BIND_RETRY_LIMIT, 40);
    assert_eq!(BIND_RETRY_DELAY_MS, 500);
    assert_eq!(bind_retry(0), Some(1));
    assert_eq!(bind_retry(39), Some(40));
    assert_eq!(bind_retry(40), None);
    assert_eq!(bind_retry(u32::MAX), None);
}

#[test]
fn engine_settings_of_every_node() {
    let s = engine_settings();
    assert_eq!(s.fallen_behind_kick_s, 120);
    assert!(s.enable_state_sharing);
    assert_eq!(s.epoch_states_to_cache, 10);
}

#[test]
fn greetings_tell_a_rejoin_apart() {
    assert_eq!(greeting("node-1", true), "rejoin:node-1");
    assert_eq!(greeting("node-0", false), "hello:node-0");
    assert_eq!(greeting("", false), "hello:");
}

#[test]
fn printed_lines() {
    assert_eq!(started_line(true), "engine started (joining=true)");
    assert_eq!(started_line(false), "engine started (joining=false)");
    assert_eq!(sent_line("pre:node-0"), "SENT \"pre:node-0\"");
    assert_eq!(sync_line(1), "SyncPoint #1");
    assert_eq!(sync_line(12), "SyncPoint #12");
    assert_eq!(event_line("abcdefgh", "live:node-2"), "EVENT from ...abcdefgh: \"live:node-2\"");
    assert_eq!(
        timeout_line(30, &strings(&["offline:", "li\"ve:"])),
        "TIMEOUT after 30s — missing prefixes: [\"offline:\", \"li\\\"ve:\"]"
    );
}

#[test]
fn short_creator_keeps_last_eight_bytes() {
    assert_eq!(short_creator("0123456789abcdef"), "89abcdef");
    assert_eq!(short_creator("12345678"), "12345678");
    assert_eq!(short_creator("abc"), "abc");
    assert_eq!(short_creator(""), "");
    assert_eq!(short_creator("ééééé"), "éééé");
}

#[test]
fn scheduled_sends_fire_in_order_once_each() {
    let sends = vec![(5000u64, "pre:node-0".to_string()), (13000, "offline:node-0".to_string()), (25000, "live:node-0".to_string())];
    let mut n = NodeLoop::new("node-0".to_string(), false, sends, Vec::new(), 0);
    assert_eq!(n.next_send_after_ms(), Some(5000));
    assert_eq!(n.fire_next_send(), "pre:node-0");
    assert_eq!(n.next_send_after_ms(), Some(13000));
    assert_eq!(n.fire_next_send(), "offline:node-0");
    assert_eq!(n.next_send_after_ms(), Some(25000));
    assert_eq!(n.fire_next_send(), "live:node-0");
    assert_eq!(n.next_send_after_ms(), None);
}

#[test]
fn watch_deadline_needs_prefixes_and_a_timeout() {
    let n = NodeLoop::new("n".to_string(), true, Vec::new(), strings(&["a"]), 30);
    assert_eq!(n.watch_deadline_s(), Some(30));
    let n = NodeLoop::new("n".to_string(), true, Vec::new(), strings(&["a"]), 0);
    assert_eq!(n.watch_deadline_s(), None);
    let n = NodeLoop::new("n".to_string(), true, Vec::new(), Vec::new(), 30);
    assert_eq!(n.watch_deadline_s(), None);
}

#[test]
fn greeting_goes_out_at_the_first_sync_point_only() {
    let mut n = NodeLoop::new("node-1".to_string(), true, Vec::new(), Vec::new(), 0);
    assert_eq!(n.sync_points(), 0);
    let first = n.on_sync_point();
    assert_eq!(first.count, 1);
    assert_eq!(first.greeting, Some("rejoin:node-1".to_string()));
    let second = n.on_sync_point();
    assert_eq!(second.count, 2);
    assert_eq!(second.greeting, None);
    assert_eq!(n.sync_points(), 2);
    let mut m = NodeLoop::new("node-2".to_string(), false, Vec::new(), Vec::new(), 0);
    assert_eq!(m.on_sync_point().greeting, Some("hello:node-2".to_string()));
}

#[test]
fn watching_node_stops_once_every_prefix_is_seen() {
    let mut n = NodeLoop::new("node-1".to_string(), true, Vec::new(), strings(&["offline:", "live:"]), 30);
    let r = n.on_event("KEYxxxx12345678", &bytes(&["pre:node-0", "offline:node-0"]));
    assert_eq!(r.lines, strings(&[
        "EVENT from ...12345678: \"pre:node-0\"",
        "EVENT from ...12345678: \"offline:node-0\"",
    ]));
    assert!(!r.all_seen);
    assert_eq!(n.on_watch_deadline(), "TIMEOUT after 30s — missing prefixes: [\"live:\"]");
    let r = n.on_event("abc", &bytes(&["offline:node-2", "live:node-2", "live:node-3"]));
    assert_eq!(r.lines, strings(&[
        "EVENT from ...abc: \"offline:node-2\"",
        "EVENT from ...abc: \"live:node-2\"",
    ]));
    assert!(r.all_seen);
}

#[test]
fn one_payload_can_satisfy_several_prefixes() {
    let mut n = NodeLoop::new("x".to_string(), true, Vec::new(), strings(&["", "li", "live:"]), 5);
    let r = n.on_event("c", &bytes(&["live:node-0", "other"]));
    assert_eq!(r.lines.len(), 1);
    assert!(r.all_seen);
}

#[test]
fn node_that_does_not_watch_never_stops() {
    let mut n = NodeLoop::new("node-0".to_string(), false, Vec::new(), Vec::new(), 0);
    let r = n.on_event("c", &bytes(&["live:node-2", "offline:node-3"]));
    assert_eq!(r.lines.len(), 2);
    assert!(!r.all_seen);
    let r = n.on_event("c", &Vec::new());
    assert!(r.lines.is_empty());
    assert!(!r.all_seen);
}

#[test]
fn invalid_utf8_is_shown_with_replacement_characters() {
    let mut n = NodeLoop::new("x".to_string(), true, Vec::new(), strings(&["live:"]), 5);
    let r = n.on_event("c", &vec![vec![b'l', 0xff, b'x'], b"live:\xfe".to_vec()]);
    assert_eq!(r.lines, strings(&[
        "EVENT from ...c: \"l\u{FFFD}x\"",
        "EVENT from ...c: \"live:\u{FFFD}\"",
    ]));
    assert!(r.all_seen);
}

#[test]
fn sends_fire_by_delay_not_by_list_position() {
    let sends = vec![
        (10000u64, "a".to_string()),
        (5000, "b".to_string()),
        (7000, "d".to_string()),
        (5000, "c".to_string()),
        (0, "e".to_string()),
    ];
    let mut n = NodeLoop::new("node-0".to_string(), false, sends, Vec::new(), 0);
    let mut fired = Vec::new();
    while let Some(ms) = n.next_send_after_ms() {
        fired.push((ms, n.fire_next_send()));
    }
    assert_eq!(fired, vec![
        (0, "e".to_string()),
        (5000, "b".to_string()),
        (5000, "c".to_string()),
        (7000, "d".to_string()),
        (10000, "a".to_string()),
    ]);
}

#[test]
fn greeting_is_tied_to_the_first_sync_point() {
    let mut n = NodeLoop::new("node-3".to_string(), false, Vec::new(), Vec::new(), 0);
    let mut greetings = 0;
    for k in 1..=5u64 {
        let r = n.on_sync_point();
        assert_eq!(r.count, k);
        if r.greeting.is_some() {
            greetings += 1;
            assert_eq!(k, 1);
        }
    }
    assert_eq!(greetings, 1);
}
