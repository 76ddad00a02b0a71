//! The decisions of a running node: when to send what, what to announce at
//! a sync point, what to print for each event, and when the watched prefixes
//! have all been seen.  The caller waits on timers and the engine, performs
//! the actions and hands back what happened.

use std::collections::VecDeque;

use vstd::prelude::*;
use vstd::string::*;
use vstd::utf8::*;

use crate::decimal::{decimal, push_decimal};
use crate::text::{
    bool_text, bool_to_text, debug_list, debug_list_text, decode_lossy, lossy_text,
    text_starts_with, texts,
};

verus! {

/// How many times a failed socket bind is tried again.
pub const BIND_RETRY_LIMIT: u32 = 40;

/// How long to wait before trying a failed socket bind again.
pub const BIND_RETRY_DELAY_MS: u64 = 500;

/// After a failed bind, having tried again `attempts` times: the new count
/// when another try is due, `None` when the node gives up.
pub fn bind_retry(attempts: u32) -> (r: Option<u32>)
    ensures
        r == if attempts < BIND_RETRY_LIMIT {
            Some((attempts + 1) as u32)
        } else {
            None::<u32>
        },
{
    if attempts < BIND_RETRY_LIMIT {
        Some(attempts + 1)
    } else {
        None
    }
}

/// Engine settings every node uses.
pub struct EngineSettings {
    /// Seconds behind after which a peer is kicked from the session.
    pub fallen_behind_kick_s: i64,
    /// Whether peers share state so that a rejoining node can catch up.
    pub enable_state_sharing: bool,
    /// How many epoch states are kept for sharing.
    pub epoch_states_to_cache: u16,
}

/// The engine settings of every node: kick after 120 s, state sharing on,
/// 10 epoch states cached.
pub fn engine_settings() -> (s: EngineSettings)
    ensures
        s.fallen_behind_kick_s == 120,
        s.enable_state_sharing,
        s.epoch_states_to_cache == 10,
{
    EngineSettings { fallen_behind_kick_s: 120, enable_state_sharing: true, epoch_states_to_cache: 10 }
}

/// A transaction to send a fixed time after the engine starts.
pub struct ScheduledSend {
    pub after_ms: u64,
    pub payload: String,
}

/// The delays and texts of scheduled sends.
pub open spec fn schedule_texts(v: Seq<ScheduledSend>) -> Seq<(u64, Seq<char>)> {
    v.map_values(|s: ScheduledSend| (s.after_ms, s.payload@))
}

/// Places a send among sends: after every send at its end that is due no
/// later than it, before those due later.
pub open spec fn insert_by_delay(s: Seq<(u64, Seq<char>)>, x: (u64, Seq<char>)) -> Seq<
    (u64, Seq<char>),
>
    decreases s.len(),
{
    if s.len() == 0 || s.last().0 <= x.0 {
        s.push(x)
    } else {
        insert_by_delay(s.drop_last(), x).push(s.last())
    }
}

/// The sends in the order they fall due: by delay, and in their given order
/// among equal delays.
pub open spec fn order_by_delay(s: Seq<(u64, Seq<char>)>) -> Seq<(u64, Seq<char>)>
    decreases s.len(),
{
    if s.len() == 0 {
        s
    } else {
        insert_by_delay(order_by_delay(s.drop_last()), s.last())
    }
}

/// The delays never decrease along the sequence.
pub open spec fn delays_sorted(s: Seq<(u64, Seq<char>)>) -> bool {
    forall|i: int, j: int| 0 <= i <= j < s.len() ==> #[trigger] s[i].0 <= #[trigger] s[j].0
}

/// The sends with delay `d`, in order.
pub open spec fn with_delay(s: Seq<(u64, Seq<char>)>, d: u64) -> Seq<(u64, Seq<char>)> {
    s.filter(|x: (u64, Seq<char>)| x.0 == d)
}

proof fn lemma_insert_bounded(s: Seq<(u64, Seq<char>)>, x: (u64, Seq<char>), b: u64)
    requires
        forall|i: int| 0 <= i < s.len() ==> #[trigger] s[i].0 <= b,
        x.0 <= b,
    ensures
        forall|i: int|
            0 <= i < insert_by_delay(s, x).len() ==> #[trigger] insert_by_delay(s, x)[i].0 <= b,
        insert_by_delay(s, x).len() == s.len() + 1,
    decreases s.len(),
{
    if s.len() > 0 && s.last().0 > x.0 {
        let t = s.drop_last();
        lemma_insert_bounded(t, x, b);
        let r = insert_by_delay(t, x);
        assert forall|i: int| 0 <= i < r.push(s.last()).len() implies #[trigger] r.push(
            s.last(),
        )[i].0 <= b by {
            if i < r.len() {
                assert(r.push(s.last())[i] == r[i]);
            }
        }
    }
}

proof fn lemma_insert_sorted(s: Seq<(u64, Seq<char>)>, x: (u64, Seq<char>))
    requires
        delays_sorted(s),
    ensures
        delays_sorted(insert_by_delay(s, x)),
    decreases s.len(),
{
    if s.len() > 0 && s.last().0 > x.0 {
        let t = s.drop_last();
        let l = s.last();
        assert(delays_sorted(t)) by {
            assert forall|i: int, j: int| 0 <= i <= j < t.len() implies #[trigger] t[i].0
                <= #[trigger] t[j].0 by {
                assert(t[i] == s[i] && t[j] == s[j]);
            }
        }
        lemma_insert_sorted(t, x);
        assert forall|i: int| 0 <= i < t.len() implies #[trigger] t[i].0 <= l.0 by {
            assert(t[i] == s[i]);
            assert(s[i].0 <= s[s.len() - 1].0);
        }
        lemma_insert_bounded(t, x, l.0);
        let r = insert_by_delay(t, x);
        let full = r.push(l);
        assert forall|i: int, j: int| 0 <= i <= j < full.len() implies #[trigger] full[i].0
            <= #[trigger] full[j].0 by {
            if j < r.len() {
                assert(full[i] == r[i] && full[j] == r[j]);
            } else if i < r.len() {
                assert(full[i] == r[i]);
            }
        }
    } else {
        let full = s.push(x);
        assert forall|i: int, j: int| 0 <= i <= j < full.len() implies #[trigger] full[i].0
            <= #[trigger] full[j].0 by {
            if j < s.len() {
                assert(full[i] == s[i] && full[j] == s[j]);
            } else if i < s.len() {
                assert(full[i] == s[i]);
                assert(s[i].0 <= s[s.len() - 1].0);
            }
        }
    }
}

proof fn lemma_insert_multiset(s: Seq<(u64, Seq<char>)>, x: (u64, Seq<char>))
    ensures
        insert_by_delay(s, x).to_multiset() =~= s.to_multiset().insert(x),
    decreases s.len(),
{
    broadcast use vstd::seq_lib::group_to_multiset_ensures;

    if s.len() > 0 && s.last().0 > x.0 {
        let t = s.drop_last();
        lemma_insert_multiset(t, x);
        assert(t.push(s.last()) =~= s);
    }
}

proof fn lemma_insert_with_delay(s: Seq<(u64, Seq<char>)>, x: (u64, Seq<char>), d: u64)
    ensures
        with_delay(insert_by_delay(s, x), d) == if x.0 == d {
            with_delay(s, d).push(x)
        } else {
            with_delay(s, d)
        },
    decreases s.len(),
{
    reveal(Seq::filter);
    if s.len() > 0 && s.last().0 > x.0 {
        let t = s.drop_last();
        lemma_insert_with_delay(t, x, d);
        let r = insert_by_delay(t, x);
        assert(r.push(s.last()).drop_last() =~= r);
        assert(t.push(s.last()) =~= s);
        if x.0 == d {
            assert(s.last().0 != d);
        }
    } else {
        assert(s.push(x).drop_last() =~= s);
    }
}

/// Law: ordering sends by delay keeps every send exactly once, puts the
/// delays in order, and keeps the given order among sends of equal delay.
pub proof fn lemma_order_by_delay(s: Seq<(u64, Seq<char>)>)
    ensures
        order_by_delay(s).to_multiset() =~= s.to_multiset(),
        delays_sorted(order_by_delay(s)),
        forall|d: u64| #[trigger] with_delay(order_by_delay(s), d) == with_delay(s, d),
    decreases s.len(),
{
    broadcast use vstd::seq_lib::group_to_multiset_ensures;

    if s.len() == 0 {
    } else {
        let t = s.drop_last();
        lemma_order_by_delay(t);
        lemma_insert_multiset(order_by_delay(t), s.last());
        lemma_insert_sorted(order_by_delay(t), s.last());
        assert(t.push(s.last()) =~= s);
        assert forall|d: u64| #[trigger] with_delay(order_by_delay(s), d) == with_delay(s, d) by {
            lemma_insert_with_delay(order_by_delay(t), s.last(), d);
            reveal(Seq::filter);
            assert(s.drop_last() =~= t);
        }
    }
}

proof fn lemma_insert_at(s: Seq<(u64, Seq<char>)>, x: (u64, Seq<char>), k: int)
    requires
        0 <= k <= s.len(),
        forall|j: int| k <= j < s.len() ==> #[trigger] s[j].0 > x.0,
        k == 0 || s[k - 1].0 <= x.0,
    ensures
        insert_by_delay(s, x) == s.insert(k, x),
    decreases s.len(),
{
    if s.len() == 0 {
        assert(s.insert(k, x) =~= s.push(x));
    } else if s.last().0 <= x.0 {
        assert(k == s.len());
        assert(s.insert(k, x) =~= s.push(x));
    } else {
        let t = s.drop_last();
        assert(k < s.len());
        lemma_insert_at(t, x, k);
        assert(t.insert(k, x).push(s.last()) =~= s.insert(k, x));
    }
}

/// The sends still to fire, as texts, after inserting.
fn insert_send(sends: &mut VecDeque<ScheduledSend>, after_ms: u64, payload: String)
    ensures
        schedule_texts(final(sends)@) == insert_by_delay(
            schedule_texts(old(sends)@),
            (after_ms, payload@),
        ),
{
    let ghost s = schedule_texts(sends@);
    let mut k: usize = sends.len();
    while k > 0 && sends[k - 1].after_ms > after_ms
        invariant
            k <= sends@.len(),
            s == schedule_texts(sends@),
            forall|j: int| k <= j < s.len() ==> #[trigger] s[j].0 > after_ms,
        decreases k,
    {
        k = k - 1;
    }
    proof {
        lemma_insert_at(s, (after_ms, payload@), k as int);
    }
    let ghost before = sends@;
    let entry = ScheduledSend { after_ms, payload };
    sends.insert(k, entry);
    assert(schedule_texts(sends@) =~= s.insert(k as int, (after_ms, entry.payload@)));
}

/// What a node announces at its first sync point: `rejoin:` and its label
/// when it rejoins a running session, `hello:` and its label otherwise.
pub open spec fn greeting_text(label: Seq<char>, joining: bool) -> Seq<char> {
    if joining {
        "rejoin:"@ + label
    } else {
        "hello:"@ + label
    }
}

/// The line printed when the engine has started.
pub open spec fn started_line_text(joining: bool) -> Seq<char> {
    "engine started (joining="@ + bool_text(joining) + ")"@
}

/// The line printed for a transaction the node sends.
pub open spec fn sent_line_text(payload: Seq<char>) -> Seq<char> {
    "SENT \""@ + payload + "\""@
}

/// The line printed for the `n`-th sync point.
pub open spec fn sync_line_text(n: nat) -> Seq<char> {
    "SyncPoint #"@ + decimal(n)
}

/// The line printed for a transaction in an event of the peer whose key
/// ends in `short`.
pub open spec fn event_line_text(short: Seq<char>, payload: Seq<char>) -> Seq<char> {
    "EVENT from ..."@ + short + ": \""@ + payload + "\""@
}

/// The line printed when the watch deadline passes with prefixes unseen.
pub open spec fn timeout_line_text(secs: u64, unseen: Seq<Seq<char>>) -> Seq<char> {
    "TIMEOUT after "@ + decimal(secs as nat) + "s — missing prefixes: "@ + debug_list_text(
        unseen,
    )
}

/// Where the last eight bytes of a creator's key text begin.
pub open spec fn short_cut(creator: &str) -> int {
    let n = creator.len();
    if n >= 8 {
        n - 8
    } else {
        0
    }
}

/// The last eight bytes of a creator's key text, as text.
pub open spec fn short_creator_text(creator: &str) -> Seq<char> {
    decode_utf8(creator.spec_bytes().subrange(short_cut(creator), creator.spec_bytes().len() as int))
}

/// Some payload received so far begins with `prefix`.
pub open spec fn prefix_seen(prefix: Seq<char>, received: Seq<Seq<char>>) -> bool {
    exists|k: int| 0 <= k < received.len() && prefix.is_prefix_of(#[trigger] received[k])
}

/// The watched prefixes that no payload received so far begins with, in order.
pub open spec fn unseen_prefixes(prefixes: Seq<Seq<char>>, received: Seq<Seq<char>>) -> Seq<
    Seq<char>,
> {
    prefixes.filter(|p: Seq<char>| !prefix_seen(p, received))
}

/// A watching node has seen every prefix it watches for.
pub open spec fn watch_done(
    watching: bool,
    prefixes: Seq<Seq<char>>,
    received: Seq<Seq<char>>,
) -> bool {
    watching && unseen_prefixes(prefixes, received).len() == 0
}

/// The greeting of a node.
pub fn greeting(label: &str, joining: bool) -> (g: String)
    ensures
        g@ == greeting_text(label@, joining),
{
    let mut g = if joining {
        String::from_str("rejoin:")
    } else {
        String::from_str("hello:")
    };
    g.append(label);
    g
}

/// The line printed when the engine has started.
pub fn started_line(joining: bool) -> (l: String)
    ensures
        l@ == started_line_text(joining),
{
    let mut l = String::from_str("engine started (joining=");
    let b = bool_to_text(joining);
    l.append(b.as_str());
    l.append(")");
    l
}

/// The line printed for a transaction the node sends.
pub fn sent_line(payload: &str) -> (l: String)
    ensures
        l@ == sent_line_text(payload@),
{
    let mut l = String::from_str("SENT \"");
    l.append(payload);
    l.append("\"");
    l
}

/// The line printed for the `n`-th sync point.
pub fn sync_line(n: u64) -> (l: String)
    ensures
        l@ == sync_line_text(n as nat),
{
    let mut l = String::from_str("SyncPoint #");
    push_decimal(n, &mut l);
    l
}

/// The line printed for a transaction received from the peer whose key ends in `short`.
pub fn event_line(short: &str, payload: &str) -> (l: String)
    ensures
        l@ == event_line_text(short@, payload@),
{
    let mut l = String::from_str("EVENT from ...");
    l.append(short);
    l.append(": \"");
    l.append(payload);
    l.append("\"");
    l
}

/// The line printed when the watch deadline passes.
pub fn timeout_line(secs: u64, unseen: &Vec<String>) -> (l: String)
    ensures
        l@ == timeout_line_text(secs, texts(unseen@)),
{
    let mut l = String::from_str("TIMEOUT after ");
    push_decimal(secs, &mut l);
    l.append("s — missing prefixes: ");
    let d = debug_list(unseen);
    l.append(d.as_str());
    l
}

/// The last eight bytes of a creator's key text (all of it when shorter).
/// The cut must fall between two characters.
pub fn short_creator(creator: &str) -> (s: &str)
    requires
        is_char_boundary(creator.spec_bytes(), short_cut(creator)),
    ensures
        s@ == short_creator_text(creator),
{
    let n = creator.len();
    let cut = n.saturating_sub(8);
    assert(cut as int == short_cut(creator));
    let (_, tail) = creator.split_at(cut);
    proof {
        encode_utf8_decode_utf8(tail@);
    }
    tail
}


proof fn lemma_filter_filter<A>(s: Seq<A>, a: spec_fn(A) -> bool, b: spec_fn(A) -> bool)
    ensures
        s.filter(a).filter(b) == s.filter(|x: A| a(x) && b(x)),
    decreases s.len(),
{
    reveal(Seq::filter);
    if s.len() > 0 {
        lemma_filter_filter(s.drop_last(), a, b);
        let fa = s.drop_last().filter(a);
        if a(s.last()) {
            assert(fa.push(s.last()).drop_last() =~= fa);
        }
    }
}

proof fn lemma_filter_true<A>(s: Seq<A>)
    ensures
        s.filter(|x: A| true) == s,
    decreases s.len(),
{
    reveal(Seq::filter);
    if s.len() > 0 {
        lemma_filter_true(s.drop_last());
        assert(s.drop_last().push(s.last()) =~= s);
    }
}

proof fn lemma_filter_empty<A>(s: Seq<A>, p: spec_fn(A) -> bool)
    requires
        s.len() == 0,
    ensures
        s.filter(p).len() == 0,
{
    reveal(Seq::filter);
}

/// Receiving one more payload leaves unseen exactly the prefixes that were
/// unseen and that it does not begin with.
proof fn lemma_unseen_after(prefixes: Seq<Seq<char>>, received: Seq<Seq<char>>, t: Seq<char>)
    ensures
        unseen_prefixes(prefixes, received.push(t)) == unseen_prefixes(prefixes, received).filter(
            |p: Seq<char>| !p.is_prefix_of(t),
        ),
{
    let a = |p: Seq<char>| !prefix_seen(p, received);
    let b = |p: Seq<char>| !p.is_prefix_of(t);
    lemma_filter_filter(prefixes, a, b);
    let both = |x: Seq<char>| a(x) && b(x);
    let after = |p: Seq<char>| !prefix_seen(p, received.push(t));
    assert forall|p: Seq<char>| #[trigger] after(p) == both(p) by {
        let r2 = received.push(t);
        if prefix_seen(p, received) {
            let k = choose|k: int| 0 <= k < received.len() && p.is_prefix_of(#[trigger] received[k]);
            assert(r2[k] == received[k]);
        }
        if p.is_prefix_of(t) {
            assert(r2[received.len() as int] == t);
        }
        if prefix_seen(p, r2) {
            let k = choose|k: int| 0 <= k < r2.len() && p.is_prefix_of(#[trigger] r2[k]);
            if k < received.len() {
                assert(r2[k] == received[k]);
            }
        }
    }
    assert(after =~= both);
}

/// Keeps the prefixes that `text` does not begin with, in order.
fn drop_matched(prefixes: &Vec<String>, text: &str) -> (r: Vec<String>)
    ensures
        texts(r@) == texts(prefixes@).filter(|p: Seq<char>| !p.is_prefix_of(text@)),
{
    broadcast use crate::text::lemma_texts_push;

    let ghost pred = |p: Seq<char>| !p.is_prefix_of(text@);
    let mut r: Vec<String> = Vec::new();
    let mut k: usize = 0;
    proof {
        reveal(Seq::filter);
        assert(texts(prefixes@).take(0) =~= Seq::<Seq<char>>::empty());
        assert(texts(r@) =~= Seq::<Seq<char>>::empty());
    }
    while k < prefixes.len()
        invariant
            k <= prefixes.len(),
            pred == (|p: Seq<char>| !p.is_prefix_of(text@)),
            texts(r@) == texts(prefixes@).take(k as int).filter(pred),
        decreases prefixes.len() - k,
    {
        let keep = !text_starts_with(text, prefixes[k].as_str());
        proof {
            reveal(Seq::filter);
            let t = texts(prefixes@).take(k + 1);
            assert(t.drop_last() =~= texts(prefixes@).take(k as int));
            assert(t.last() == prefixes@[k as int]@);
        }
        if keep {
            r.push(prefixes[k].clone());
        }
        k = k + 1;
    }
    assert(texts(prefixes@).take(k as int) =~= texts(prefixes@));
    r
}

/// What a sync point gives.
pub struct SyncOutcome {
    /// How many sync points have been seen, this one included.
    pub count: u64,
    /// The greeting to send, at the first sync point only.
    pub greeting: Option<String>,
}

/// What an event gives.
pub struct EventOutcome {
    /// The lines to print, one per transaction handled, in order.
    pub lines: Vec<String>,
    /// Every watched prefix has now been seen: the node stops with success
    /// after printing the lines.
    pub all_seen: bool,
}

/// The state of a running node between two things happening.
pub struct NodeLoop {
    label: String,
    joining: bool,
    sends: VecDeque<ScheduledSend>,
    sync_count: u64,
    greeted: bool,
    watching: bool,
    watch_timeout_s: u64,
    unseen: Vec<String>,
    prefixes: Ghost<Seq<Seq<char>>>,
    schedule: Ghost<Seq<(u64, Seq<char>)>>,
    fired: Ghost<Seq<(u64, Seq<char>)>>,
    received: Ghost<Seq<Seq<char>>>,
}

impl NodeLoop {
    /// The node's label.
    pub closed spec fn label(&self) -> Seq<char> {
        self.label@
    }

    /// Whether the node rejoins a running session.
    pub closed spec fn joining(&self) -> bool {
        self.joining
    }

    /// The sends still to fire, in order.
    pub closed spec fn pending_sends(&self) -> Seq<(u64, Seq<char>)> {
        schedule_texts(self.sends@)
    }

    /// All sends the node was given, in order.
    pub closed spec fn schedule(&self) -> Seq<(u64, Seq<char>)> {
        self.schedule@
    }

    /// The sends fired so far, in order.
    pub closed spec fn fired(&self) -> Seq<(u64, Seq<char>)> {
        self.fired@
    }

    /// How many sync points have been seen.
    pub closed spec fn sync_count(&self) -> u64 {
        self.sync_count
    }

    /// Whether the greeting has been announced.
    pub closed spec fn greeted(&self) -> bool {
        self.greeted
    }

    /// Whether the node watches for prefixes.
    pub closed spec fn watching(&self) -> bool {
        self.watching
    }

    /// The watch timeout in seconds; 0 for none.
    pub closed spec fn watch_timeout_s(&self) -> u64 {
        self.watch_timeout_s
    }

    /// The prefixes the node watches for.
    pub closed spec fn prefixes(&self) -> Seq<Seq<char>> {
        self.prefixes@
    }

    /// The watched prefixes not seen yet, in order.
    pub closed spec fn unseen(&self) -> Seq<Seq<char>> {
        texts(self.unseen@)
    }

    /// The payloads of all transactions handled so far, in order.
    pub closed spec fn received(&self) -> Seq<Seq<char>> {
        self.received@
    }

    /// The node's state is consistent: the schedule is ordered by delay and
    /// is what has fired followed by what is pending; the greeting has gone
    /// out exactly when a sync point has been seen; the node watches exactly
    /// when it has prefixes; the unseen prefixes are those no handled payload
    /// begins with.
    pub closed spec fn wf(&self) -> bool {
        &&& self.schedule@ == self.fired@ + schedule_texts(self.sends@)
        &&& delays_sorted(self.schedule@)
        &&& self.greeted == (self.sync_count > 0)
        &&& self.watching == (self.prefixes@.len() > 0)
        &&& texts(self.unseen@) == unseen_prefixes(self.prefixes@, self.received@)
    }

    /// A node about to start: its sends ordered by when they fall due (by
    /// delay, in their given order among equal delays), nothing fired, no
    /// sync point, nothing received, every watched prefix unseen.
    pub fn new(
        label: String,
        joining: bool,
        scheduled_sends: Vec<(u64, String)>,
        watch_prefixes: Vec<String>,
        watch_timeout_s: u64,
    ) -> (n: NodeLoop)
        ensures
            n.wf(),
            n.label() == label@,
            n.joining() == joining,
            n.schedule() == order_by_delay(crate::cli::send_texts(scheduled_sends@)),
            n.pending_sends() == n.schedule(),
            n.fired() == Seq::<(u64, Seq<char>)>::empty(),
            n.sync_count() == 0,
            !n.greeted(),
            n.watching() == (watch_prefixes@.len() > 0),
            n.watch_timeout_s() == watch_timeout_s,
            n.prefixes() == texts(watch_prefixes@),
            n.unseen() == n.prefixes(),
            n.received() == Seq::<Seq<char>>::empty(),
    {
        let ghost plan = crate::cli::send_texts(scheduled_sends@);
        let mut sends: VecDeque<ScheduledSend> = VecDeque::new();
        let mut k: usize = 0;
        assert(schedule_texts(sends@) =~= order_by_delay(plan.take(0)));
        while k < scheduled_sends.len()
            invariant
                k <= scheduled_sends.len(),
                plan == crate::cli::send_texts(scheduled_sends@),
                schedule_texts(sends@) == order_by_delay(plan.take(k as int)),
            decreases scheduled_sends.len() - k,
        {
            insert_send(&mut sends, scheduled_sends[k].0, scheduled_sends[k].1.clone());
            proof {
                let t = plan.take(k + 1);
                assert(t.drop_last() =~= plan.take(k as int));
                assert(t.last() == (scheduled_sends@[k as int].0, scheduled_sends@[k as int].1@));
            }
            k = k + 1;
        }
        assert(plan.take(k as int) =~= plan);
        proof {
            lemma_order_by_delay(plan);
        }
        let ghost ordered = order_by_delay(plan);
        let watching = watch_prefixes.len() > 0;
        let ghost prefixes = texts(watch_prefixes@);
        proof {
            let none = Seq::<Seq<char>>::empty();
            let all = |p: Seq<char>| !prefix_seen(p, none);
            assert(all =~= (|p: Seq<char>| true));
            lemma_filter_true(prefixes);
        }
        let n = NodeLoop {
            label,
            joining,
            sends,
            sync_count: 0,
            greeted: false,
            watching,
            watch_timeout_s,
            unseen: watch_prefixes,
            prefixes: Ghost(prefixes),
            schedule: Ghost(ordered),
            fired: Ghost(Seq::empty()),
            received: Ghost(Seq::empty()),
        };
        assert(n.schedule@ =~= n.fired@ + schedule_texts(n.sends@));
        n
    }

    /// How many sync points have been seen.
    pub fn sync_points(&self) -> (n: u64)
        ensures
            n == self.sync_count(),
    {
        self.sync_count
    }

    /// When the next scheduled send is due, in milliseconds after the engine
    /// started: the smallest delay among the pending sends; `None` when none
    /// is left.
    pub fn next_send_after_ms(&self) -> (r: Option<u64>)
        requires
            self.wf(),
        ensures
            r == if self.pending_sends().len() == 0 {
                None::<u64>
            } else {
                Some(self.pending_sends()[0].0)
            },
            r matches Some(d) ==> forall|j: int|
                0 <= j < self.pending_sends().len() ==> d <= #[trigger] self.pending_sends()[j].0,
    {
        proof {
            let f: int = self.fired@.len() as int;
            let p = schedule_texts(self.sends@);
            assert forall|j: int| 0 <= j < p.len() implies p[0].0 <= #[trigger] p[j].0 by {
                assert(self.schedule@[f] == p[0]);
                assert(self.schedule@[f + j] == p[j]);
            }
        }
        if self.sends.len() == 0 {
            None
        } else {
            Some(self.sends[0].after_ms)
        }
    }

    /// When the watch gives up, in seconds after the engine started: only
    /// when the node watches and has a timeout.
    pub fn watch_deadline_s(&self) -> (r: Option<u64>)
        ensures
            r == if self.watching() && self.watch_timeout_s() > 0 {
                Some(self.watch_timeout_s())
            } else {
                None::<u64>
            },
    {
        if self.watching && self.watch_timeout_s > 0 {
            Some(self.watch_timeout_s)
        } else {
            None
        }
    }

    /// The next scheduled send is due: the pending send with the smallest
    /// delay (the first given among equal ones) is taken off the schedule and
    /// its payload returned, to be sent.
    pub fn fire_next_send(&mut self) -> (payload: String)
        requires
            old(self).wf(),
            old(self).pending_sends().len() > 0,
        ensures
            final(self).wf(),
            payload@ == old(self).pending_sends()[0].1,
            final(self).pending_sends() == old(self).pending_sends().drop_first(),
            final(self).fired() == old(self).fired().push(old(self).pending_sends()[0]),
            final(self).schedule() == old(self).schedule(),
            final(self).label() == old(self).label(),
            final(self).joining() == old(self).joining(),
            final(self).sync_count() == old(self).sync_count(),
            final(self).greeted() == old(self).greeted(),
            final(self).watching() == old(self).watching(),
            final(self).watch_timeout_s() == old(self).watch_timeout_s(),
            final(self).prefixes() == old(self).prefixes(),
            final(self).unseen() == old(self).unseen(),
            final(self).received() == old(self).received(),
    {
        let ghost before = self.sends@;
        let entry = self.sends.pop_front();
        let ScheduledSend { after_ms, payload } = entry.unwrap();
        proof {
            let first = (after_ms, payload@);
            assert(schedule_texts(before)[0] == first);
            assert(schedule_texts(self.sends@) =~= schedule_texts(before).drop_first());
            self.fired@ = self.fired@.push(first);
            assert(self.schedule@ =~= self.fired@ + schedule_texts(self.sends@));
        }
        payload
    }

    /// A sync point has come: it is counted, and at the first one the
    /// node's greeting is to be sent.
    pub fn on_sync_point(&mut self) -> (r: SyncOutcome)
        requires
            old(self).wf(),
            old(self).sync_count() < u64::MAX,
        ensures
            final(self).wf(),
            final(self).sync_count() == old(self).sync_count() + 1,
            r.count == final(self).sync_count(),
            final(self).greeted(),
            r.greeting is Some <==> old(self).sync_count() == 0,
            match r.greeting {
                Some(g) => !old(self).greeted() && g@ == greeting_text(
                    old(self).label(),
                    old(self).joining(),
                ),
                None => old(self).greeted(),
            },
            final(self).label() == old(self).label(),
            final(self).joining() == old(self).joining(),
            final(self).pending_sends() == old(self).pending_sends(),
            final(self).fired() == old(self).fired(),
            final(self).schedule() == old(self).schedule(),
            final(self).watching() == old(self).watching(),
            final(self).watch_timeout_s() == old(self).watch_timeout_s(),
            final(self).prefixes() == old(self).prefixes(),
            final(self).unseen() == old(self).unseen(),
            final(self).received() == old(self).received(),
    {
        self.sync_count = self.sync_count + 1;
        let greeting = if !self.greeted {
            self.greeted = true;
            Some(greeting(self.label.as_str(), self.joining))
        } else {
            None
        };
        SyncOutcome { count: self.sync_count, greeting }
    }

    /// The watch deadline has passed: the line to print before the node
    /// stops with the timeout status.
    pub fn on_watch_deadline(&self) -> (line: String)
        ensures
            line@ == timeout_line_text(self.watch_timeout_s(), self.unseen()),
    {
        timeout_line(self.watch_timeout_s, &self.unseen)
    }

    /// An event from the peer whose key text is `creator` has reached
    /// consensus with the given transactions.  Each is decoded leniently
    /// and printed; when the node watches, the prefixes it begins with are
    /// marked seen, and handling stops at the first transaction after which
    /// none is left unseen.
    pub fn on_event(&mut self, creator: &str, transactions: &Vec<Vec<u8>>) -> (r: EventOutcome)
        requires
            old(self).wf(),
            is_char_boundary(creator.spec_bytes(), short_cut(creator)),
        ensures
            final(self).wf(),
            ({
                let payloads = transactions@.map_values(|t: Vec<u8>| lossy_text(t@));
                let m = r.lines@.len();
                &&& m <= payloads.len()
                &&& final(self).received() == old(self).received() + payloads.take(m as int)
                &&& forall|k: int|
                    0 <= k < m ==> #[trigger] r.lines@[k]@ == event_line_text(
                        short_creator_text(creator),
                        payloads[k],
                    )
                &&& forall|k: int|
                    0 <= k < m && valid_utf8(transactions@[k]@) ==> #[trigger] payloads[k]
                        == decode_utf8(transactions@[k]@)
                &&& forall|k: int|
                    1 <= k < m ==> !#[trigger] watch_done(
                        old(self).watching(),
                        old(self).prefixes(),
                        old(self).received() + payloads.take(k),
                    )
                &&& r.all_seen == (m >= 1 && watch_done(
                    old(self).watching(),
                    old(self).prefixes(),
                    old(self).received() + payloads.take(m as int),
                ))
                &&& !r.all_seen ==> m == payloads.len()
            }),
            final(self).label() == old(self).label(),
            final(self).joining() == old(self).joining(),
            final(self).pending_sends() == old(self).pending_sends(),
            final(self).fired() == old(self).fired(),
            final(self).schedule() == old(self).schedule(),
            final(self).sync_count() == old(self).sync_count(),
            final(self).greeted() == old(self).greeted(),
            final(self).watching() == old(self).watching(),
            final(self).watch_timeout_s() == old(self).watch_timeout_s(),
            final(self).prefixes() == old(self).prefixes(),
            final(self).unseen() == unseen_prefixes(final(self).prefixes(), final(self).received()),
    {
        let ghost payloads = transactions@.map_values(|t: Vec<u8>| lossy_text(t@));
        let ghost start = self.received@;
        let short = short_creator(creator);
        let ghost s0 = *self;
        let mut lines: Vec<String> = Vec::new();
        let mut all_seen = false;
        let mut k: usize = 0;
        while k < transactions.len() && !all_seen
            invariant
                self.wf(),
                self.label == s0.label,
                self.joining == s0.joining,
                self.sends == s0.sends,
                self.sync_count == s0.sync_count,
                self.greeted == s0.greeted,
                self.watching == s0.watching,
                self.watch_timeout_s == s0.watch_timeout_s,
                self.prefixes == s0.prefixes,
                self.schedule == s0.schedule,
                self.fired == s0.fired,
                k <= transactions.len(),
                payloads == transactions@.map_values(|t: Vec<u8>| lossy_text(t@)),
                short@ == short_creator_text(creator),
                lines@.len() == k,
                self.received@ == start + payloads.take(k as int),
                forall|j: int|
                    0 <= j < k ==> #[trigger] lines@[j]@ == event_line_text(short@, payloads[j]),
                forall|j: int|
                    0 <= j < k && valid_utf8(transactions@[j]@) ==> #[trigger] payloads[j]
                        == decode_utf8(transactions@[j]@),
                forall|j: int|
                    1 <= j < k ==> !#[trigger] watch_done(
                        self.watching,
                        self.prefixes@,
                        start + payloads.take(j),
                    ),
                all_seen == (k >= 1 && watch_done(
                    self.watching,
                    self.prefixes@,
                    start + payloads.take(k as int),
                )),
            decreases transactions.len() - k,
        {
            let text = decode_lossy(transactions[k].as_slice());
            lines.push(event_line(short, text.as_str()));
            let ghost before = self.received@;
            proof {
                lemma_unseen_after(self.prefixes@, before, text@);
                self.received@ = before.push(text@);
                assert(payloads[k as int] == text@);
                assert(start + payloads.take(k + 1) =~= self.received@);
            }
            if self.watching {
                let ghost old_unseen = texts(self.unseen@);
                self.unseen = drop_matched(&self.unseen, text.as_str());
                proof {
                    let f1 = |p: Seq<char>| !p.is_prefix_of(text@);
                    assert(texts(self.unseen@) == old_unseen.filter(f1));
                    assert(old_unseen == unseen_prefixes(self.prefixes@, before));
                    assert(unseen_prefixes(self.prefixes@, self.received@) == old_unseen.filter(f1));
                    assert(self.schedule@ == self.fired@ + schedule_texts(self.sends@));
                }
                if self.unseen.len() == 0 {
                    all_seen = true;
                }
            } else {
                proof {
                    lemma_filter_empty(self.prefixes@, |p: Seq<char>| !prefix_seen(p, before));
                    lemma_filter_empty(
                        self.prefixes@,
                        |p: Seq<char>| !prefix_seen(p, self.received@),
                    );
                    assert(texts(self.unseen@).len() == 0);
                    assert(texts(self.unseen@) =~= unseen_prefixes(self.prefixes@, self.received@));
                }
            }
            k = k + 1;
        }
        EventOutcome { lines, all_seen }
    }
}

/// Law: a watching node is done exactly when every prefix it watches for
/// begins some payload it has handled.
pub proof fn lemma_watch_done_iff_all_seen(prefixes: Seq<Seq<char>>, received: Seq<Seq<char>>)
    ensures
        watch_done(true, prefixes, received) <==> (forall|i: int|
            0 <= i < prefixes.len() ==> prefix_seen(#[trigger] prefixes[i], received)),
{
    let pred = |p: Seq<char>| !prefix_seen(p, received);
    let u = unseen_prefixes(prefixes, received);
    if u.len() == 0 {
        assert forall|i: int| 0 <= i < prefixes.len() implies prefix_seen(
            #[trigger] prefixes[i],
            received,
        ) by {
            if !prefix_seen(prefixes[i], received) {
                prefixes.lemma_filter_contains(pred, i);
            }
        }
    } else {
        prefixes.lemma_filter_pred(pred, 0);
        assert(u.contains(u[0]));
        prefixes.lemma_filter_contains_rev(pred, u[0]);
        let i = choose|i: int| 0 <= i < prefixes.len() && prefixes[i] == u[0];
        assert(!prefix_seen(prefixes[i], received));
    }
}

/// Law: the schedule is always what has fired followed by what is pending,
/// in the order sends fall due, so every pending send is due no earlier than
/// any fired one; the greeting has gone out exactly when a sync point has
/// been seen; and the unseen prefixes are exactly the watched prefixes that
/// no handled payload begins with.
pub proof fn lemma_node_loop_invariant(n: &NodeLoop)
    requires
        n.wf(),
    ensures
        n.schedule() == n.fired() + n.pending_sends(),
        delays_sorted(n.schedule()),
        delays_sorted(n.pending_sends()),
        forall|i: int, j: int|
            0 <= i < n.fired().len() && 0 <= j < n.pending_sends().len() ==> #[trigger] n.fired()[i].0
                <= #[trigger] n.pending_sends()[j].0,
        n.greeted() == (n.sync_count() > 0),
        n.watching() == (n.prefixes().len() > 0),
        n.unseen() == unseen_prefixes(n.prefixes(), n.received()),
{
    let f = n.fired();
    let fl: int = f.len() as int;
    let p = n.pending_sends();
    let sch = n.schedule();
    assert forall|i: int, j: int| 0 <= i <= j < p.len() implies #[trigger] p[i].0 <= #[trigger] p[
        j
    ].0 by {
        assert(sch[fl + i] == p[i]);
        assert(sch[fl + j] == p[j]);
    }
    assert forall|i: int, j: int|
        0 <= i < f.len() && 0 <= j < p.len() implies #[trigger] f[i].0 <= #[trigger] p[j].0 by {
        assert(sch[i] == f[i]);
        assert(sch[fl + j] == p[j]);
    }
}

} // verus!
