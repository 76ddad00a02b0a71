//! The orchestrator's side: where the four nodes listen, what each is told
//! to send, how the restarted node is watched, and how the outcome is judged.

use vstd::prelude::*;
use vstd::string::*;

use crate::cli::send_texts;
use crate::decimal::{decimal, push_decimal};
use crate::node::{event_line_text, greeting, greeting_text};
use crate::text::{occurs_in, text_contains, texts};

verus! {

/// How many nodes take part.
pub const NODE_COUNT: usize = 4;

/// The node that is killed and started again.
pub const RESTARTED_NODE: usize = 1;

/// The listening address of node `i`.
pub open spec fn node_addr_text(i: nat) -> Seq<char> {
    if i == 0 {
        "127.0.0.1:9000"@
    } else if i == 1 {
        "127.0.0.1:9001"@
    } else if i == 2 {
        "127.0.0.1:9002"@
    } else {
        "127.0.0.1:9003"@
    }
}

/// The label of node `i`: `node-` followed by its number.
pub open spec fn node_label_text(i: nat) -> Seq<char> {
    "node-"@ + decimal(i)
}

/// The listening address of node `i`.
pub fn node_addr(i: usize) -> (a: &'static str)
    requires
        i < NODE_COUNT,
    ensures
        a@ == node_addr_text(i as nat),
{
    if i == 0 {
        "127.0.0.1:9000"
    } else if i == 1 {
        "127.0.0.1:9001"
    } else if i == 2 {
        "127.0.0.1:9002"
    } else {
        "127.0.0.1:9003"
    }
}

/// The label of node `i`.
pub fn node_label(i: usize) -> (l: String)
    ensures
        l@ == node_label_text(i as nat),
{
    let mut l = String::from_str("node-");
    push_decimal(i as u64, &mut l);
    l
}


/// Seconds between starting one node and the next.
pub const START_GAP_S: u64 = 1;

/// Seconds the four nodes run together before node 1 is killed.
pub const SETTLE_S: u64 = 10;

/// Seconds node 1 stays down.
pub const DOWNTIME_S: u64 = 10;

/// Seconds the restarted node has to see what it watches for.
pub const RESTART_WATCH_S: u64 = 30;

/// Seconds after which the whole test gives up on the restarted node.
pub const TEST_TIMEOUT_S: u64 = 120;

/// Seconds between two looks at whether the restarted node has exited.
pub const POLL_INTERVAL_S: u64 = 1;

/// The exit status of a node that saw everything it watched for.
pub const EXIT_ALL_SEEN: i32 = 0;

/// The exit status of a node whose watch timed out.
pub const EXIT_WATCH_TIMEOUT: i32 = 42;

/// `prefix` followed by the label of node `i`.
pub open spec fn tagged(prefix: Seq<char>, i: nat) -> Seq<char> {
    prefix + node_label_text(i)
}

/// The sends scheduled on node `i`, in milliseconds after its engine starts:
/// every node sends `pre:` at 5 s; nodes 0, 2 and 3 send `offline:` while
/// node 1 is down and `live:` after it is back.
pub open spec fn schedule_spec(i: nat) -> Seq<(u64, Seq<char>)> {
    if i == 0 {
        seq![
            (5000u64, tagged("pre:"@, 0)),
            (13000u64, tagged("offline:"@, 0)),
            (25000u64, tagged("live:"@, 0)),
        ]
    } else if i == 1 {
        seq![(5000u64, tagged("pre:"@, 1))]
    } else if i == 2 {
        seq![
            (5000u64, tagged("pre:"@, 2)),
            (15000u64, tagged("offline:"@, 2)),
            (27000u64, tagged("live:"@, 2)),
        ]
    } else {
        seq![
            (5000u64, tagged("pre:"@, 3)),
            (17000u64, tagged("offline:"@, 3)),
            (29000u64, tagged("live:"@, 3)),
        ]
    }
}

fn tagged_text(prefix: &str, i: usize) -> (s: String)
    ensures
        s@ == tagged(prefix@, i as nat),
{
    let mut s = String::from_str(prefix);
    let l = node_label(i);
    s.append(l.as_str());
    s
}

/// The sends scheduled on node `i`.
pub fn node_schedule(i: usize) -> (v: Vec<(u64, String)>)
    requires
        i < NODE_COUNT,
    ensures
        send_texts(v@) == schedule_spec(i as nat),
{
    let mut v: Vec<(u64, String)> = Vec::new();
    if i == 1 {
        v.push((5000, tagged_text("pre:", i)));
    } else {
        let (offline_ms, live_ms): (u64, u64) = if i == 0 {
            (13000, 25000)
        } else if i == 2 {
            (15000, 27000)
        } else {
            (17000, 29000)
        };
        v.push((5000, tagged_text("pre:", i)));
        v.push((offline_ms, tagged_text("offline:", i)));
        v.push((live_ms, tagged_text("live:", i)));
    }
    assert(send_texts(v@) =~= schedule_spec(i as nat));
    v
}

/// The order in which the nodes are first started: 3, 2, 1, 0.
pub fn start_order() -> (v: Vec<usize>)
    ensures
        v@ == seq![3usize, 2usize, 1usize, 0usize],
{
    let v = vec![3, 2, 1, 0];
    assert(v@ =~= seq![3usize, 2usize, 1usize, 0usize]);
    v
}

/// How a node is to be started.
pub struct SpawnPlan {
    pub node: usize,
    pub joining: bool,
    pub scheduled_sends: Vec<(u64, String)>,
    pub watch_prefixes: Vec<String>,
    pub watch_timeout_s: u64,
}

/// The first start of node `i`: not joining, its own schedule, no watch.
pub fn initial_plan(i: usize) -> (p: SpawnPlan)
    requires
        i < NODE_COUNT,
    ensures
        p.node == i,
        !p.joining,
        send_texts(p.scheduled_sends@) == schedule_spec(i as nat),
        p.watch_prefixes@.len() == 0,
        p.watch_timeout_s == 0,
{
    SpawnPlan {
        node: i,
        joining: false,
        scheduled_sends: node_schedule(i),
        watch_prefixes: Vec::new(),
        watch_timeout_s: 0,
    }
}

/// The restart of node 1: joining the running session, nothing to send,
/// watching for `offline:` (missed while down) and `live:` (sent after it
/// is back) for 30 s.
pub fn restart_plan() -> (p: SpawnPlan)
    ensures
        p.node == RESTARTED_NODE,
        p.joining,
        p.scheduled_sends@.len() == 0,
        texts(p.watch_prefixes@) == seq!["offline:"@, "live:"@],
        p.watch_timeout_s == RESTART_WATCH_S,
{
    let mut prefixes: Vec<String> = Vec::new();
    prefixes.push(String::from_str("offline:"));
    prefixes.push(String::from_str("live:"));
    assert(texts(prefixes@) =~= seq!["offline:"@, "live:"@]);
    SpawnPlan {
        node: RESTARTED_NODE,
        joining: true,
        scheduled_sends: Vec::new(),
        watch_prefixes: prefixes,
        watch_timeout_s: RESTART_WATCH_S,
    }
}

/// Whether the test has run past its overall deadline, given the time since
/// the restart in nanoseconds.
pub fn past_test_deadline(elapsed_ns: u128) -> (r: bool)
    ensures
        r == (elapsed_ns > TEST_TIMEOUT_S as u128 * 1_000_000_000u128),
{
    elapsed_ns > (TEST_TIMEOUT_S as u128) * 1_000_000_000u128
}

/// What the restarted node's exit says about replay and live delivery.
pub enum Inbound {
    /// It saw both the missed and the live transactions.
    Passed,
    /// Its watch timed out: the issue is reproduced.
    Reproduced,
    /// No exit status: the test timed out, or the node was ended by a signal.
    NoVerdict,
    /// It exited with some other status.
    Unexpected(i32),
}

/// Judges the restarted node by its exit status (`None` when there is none).
pub fn inbound_verdict(code: Option<i32>) -> (v: Inbound)
    ensures
        v == match code {
            None => Inbound::NoVerdict,
            Some(c) => if c == EXIT_ALL_SEEN {
                Inbound::Passed
            } else if c == EXIT_WATCH_TIMEOUT {
                Inbound::Reproduced
            } else {
                Inbound::Unexpected(c)
            },
        },
{
    match code {
        None => Inbound::NoVerdict,
        Some(c) => if c == EXIT_ALL_SEEN {
            Inbound::Passed
        } else if c == EXIT_WATCH_TIMEOUT {
            Inbound::Reproduced
        } else {
            Inbound::Unexpected(c)
        },
    }
}

/// What the surviving nodes' output says about the restarted node sending.
pub enum Outbound {
    /// This surviving node printed the restarted node's greeting.
    Received(usize),
    /// None did, although the restarted node came up.
    Missing,
    /// None did, and the restarted node never came up: not judged.
    Skipped,
}

/// The text that marks the restarted node's greeting in an event line.
pub open spec fn rejoin_marker() -> Seq<char> {
    "\""@ + greeting_text(node_label_text(RESTARTED_NODE as nat), true) + "\""@
}

/// Some line of a node's output holds the marker.
pub open spec fn saw_rejoin(lines: Seq<Seq<char>>) -> bool {
    exists|k: int| 0 <= k < lines.len() && occurs_in(rejoin_marker(), #[trigger] lines[k])
}

/// Judges sending by the restarted node: it reached the first of nodes 0, 2
/// and 3 that printed the marker; if none did, that is a failure when the
/// restarted node came up and goes unjudged when it did not.
pub open spec fn outbound_spec(inbound_ok: bool, outputs: Seq<Seq<Seq<char>>>) -> Outbound {
    if saw_rejoin(outputs[0]) {
        Outbound::Received(0)
    } else if saw_rejoin(outputs[2]) {
        Outbound::Received(2)
    } else if saw_rejoin(outputs[3]) {
        Outbound::Received(3)
    } else if inbound_ok {
        Outbound::Missing
    } else {
        Outbound::Skipped
    }
}

fn rejoin_marker_text() -> (m: String)
    ensures
        m@ == rejoin_marker(),
{
    let mut m = String::from_str("\"");
    let l = node_label(RESTARTED_NODE);
    let g = greeting(l.as_str(), true);
    m.append(g.as_str());
    m.append("\"");
    m
}

fn output_saw_rejoin(lines: &Vec<String>, marker: &String) -> (r: bool)
    requires
        marker@ == rejoin_marker(),
    ensures
        r == saw_rejoin(texts(lines@)),
{
    let mut k: usize = 0;
    while k < lines.len()
        invariant
            k <= lines.len(),
            marker@ == rejoin_marker(),
            forall|j: int| 0 <= j < k ==> !occurs_in(rejoin_marker(), #[trigger] texts(lines@)[j]),
        decreases lines.len() - k,
    {
        if text_contains(lines[k].as_str(), marker.as_str()) {
            assert(occurs_in(rejoin_marker(), texts(lines@)[k as int]));
            return true;
        }
        k = k + 1;
    }
    false
}

/// Judges whether the restarted node could send, from what each node printed
/// (indexed by node).
pub fn outbound_verdict(inbound_ok: bool, outputs: &Vec<Vec<String>>) -> (v: Outbound)
    requires
        outputs.len() == NODE_COUNT,
    ensures
        v == outbound_spec(inbound_ok, outputs@.map_values(|o: Vec<String>| texts(o@))),
{
    let marker = rejoin_marker_text();
    if output_saw_rejoin(&outputs[0], &marker) {
        Outbound::Received(0)
    } else if output_saw_rejoin(&outputs[2], &marker) {
        Outbound::Received(2)
    } else if output_saw_rejoin(&outputs[3], &marker) {
        Outbound::Received(3)
    } else if inbound_ok {
        Outbound::Missing
    } else {
        Outbound::Skipped
    }
}

/// Law: the line a surviving node prints when it receives the restarted
/// node's greeting, whoever the creator is, holds the marker the outbound
/// check looks for.
pub proof fn lemma_rejoin_event_detected(short: Seq<char>)
    ensures
        occurs_in(
            rejoin_marker(),
            event_line_text(short, greeting_text(node_label_text(RESTARTED_NODE as nat), true)),
        ),
{
    reveal_strlit("EVENT from ...");
    reveal_strlit(": \"");
    reveal_strlit("\"");
    let g = greeting_text(node_label_text(RESTARTED_NODE as nat), true);
    let line = event_line_text(short, g);
    let m = rejoin_marker();
    let i: int = 16 + short.len() as int;
    assert(line =~= ("EVENT from ..."@ + short + ": "@.take(2)) + m) by {
        reveal_strlit(": ");
        assert(": \""@ =~= ": "@.take(2) + "\""@);
    }
    assert(line.subrange(i, i + m.len()) =~= m);
}


/// Some line of `lines` holds `needle`.
pub open spec fn some_line_holds(lines: Seq<Seq<char>>, needle: Seq<char>) -> bool {
    exists|j: int| 0 <= j < lines.len() && occurs_in(needle, #[trigger] lines[j])
}

/// The marker is the restarted node's greeting in quotes: `"rejoin:node-1"`.
pub proof fn lemma_rejoin_marker_text()
    ensures
        rejoin_marker() == "\"rejoin:node-1\""@,
{
    reveal_strlit("\"rejoin:node-1\"");
    reveal_strlit("\"");
    reveal_strlit("rejoin:");
    reveal_strlit("node-");
    vstd::utf8::char_u32_cast('1', 49u32);
    assert(decimal(1) == seq!['1']);
    assert(rejoin_marker() =~= "\"rejoin:node-1\""@);
}

/// Law: the outbound verdict names the first of nodes 0, 2 and 3, in that
/// order, any of whose printed lines holds `"rejoin:node-1"`, wherever the
/// line stands; when none does, it is a failure if the restarted node came
/// up and unjudged otherwise.
pub proof fn lemma_outbound_verdict(inbound_ok: bool, outputs: Seq<Seq<Seq<char>>>)
    requires
        outputs.len() == NODE_COUNT,
    ensures
        some_line_holds(outputs[0], "\"rejoin:node-1\""@) ==> outbound_spec(inbound_ok, outputs)
            == Outbound::Received(0),
        !some_line_holds(outputs[0], "\"rejoin:node-1\""@) && some_line_holds(
            outputs[2],
            "\"rejoin:node-1\""@,
        ) ==> outbound_spec(inbound_ok, outputs) == Outbound::Received(2),
        !some_line_holds(outputs[0], "\"rejoin:node-1\""@) && !some_line_holds(
            outputs[2],
            "\"rejoin:node-1\""@,
        ) && some_line_holds(outputs[3], "\"rejoin:node-1\""@) ==> outbound_spec(
            inbound_ok,
            outputs,
        ) == Outbound::Received(3),
        !some_line_holds(outputs[0], "\"rejoin:node-1\""@) && !some_line_holds(
            outputs[2],
            "\"rejoin:node-1\""@,
        ) && !some_line_holds(outputs[3], "\"rejoin:node-1\""@) ==> outbound_spec(
            inbound_ok,
            outputs,
        ) == if inbound_ok {
            Outbound::Missing
        } else {
            Outbound::Skipped
        },
{
    lemma_rejoin_marker_text();
    let m = "\"rejoin:node-1\""@;
    assert(saw_rejoin(outputs[0]) == some_line_holds(outputs[0], m));
    assert(saw_rejoin(outputs[2]) == some_line_holds(outputs[2], m));
    assert(saw_rejoin(outputs[3]) == some_line_holds(outputs[3], m));
}

} // verus!
