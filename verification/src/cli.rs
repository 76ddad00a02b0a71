//! The command line of a node process: how it is read, and how the
//! orchestrator writes it.

use vstd::prelude::*;
use vstd::string::*;

use crate::decimal::{decimal, parse_u64, parse_u64_spec, push_decimal};
use crate::harness::{node_addr, node_addr_text, node_label, node_label_text, NODE_COUNT};
use crate::text::{same_text, texts};

verus! {

/// An option that is followed by a value.
#[derive(Clone, Copy, Debug)]
pub enum ValueFlag {
    Bind,
    Secret,
    Label,
    PeerAddr,
    PeerPubkey,
    SendAfterMs,
    SendPayload,
    WatchPrefix,
    WatchTimeoutS,
}

/// The option that `a` names, if it is one that takes a value.
pub open spec fn value_flag_of(a: Seq<char>) -> Option<ValueFlag> {
    if a == "--bind"@ {
        Some(ValueFlag::Bind)
    } else if a == "--secret"@ {
        Some(ValueFlag::Secret)
    } else if a == "--label"@ {
        Some(ValueFlag::Label)
    } else if a == "--peer-addr"@ {
        Some(ValueFlag::PeerAddr)
    } else if a == "--peer-pubkey"@ {
        Some(ValueFlag::PeerPubkey)
    } else if a == "--send-after-ms"@ {
        Some(ValueFlag::SendAfterMs)
    } else if a == "--send-payload"@ {
        Some(ValueFlag::SendPayload)
    } else if a == "--watch-prefix"@ {
        Some(ValueFlag::WatchPrefix)
    } else if a == "--watch-timeout-s"@ {
        Some(ValueFlag::WatchTimeoutS)
    } else {
        None
    }
}

/// What has been read of a node's command line so far.
#[verifier::ext_equal]
pub struct ArgsRead {
    pub bind: Seq<char>,
    pub secret: Seq<char>,
    pub label: Seq<char>,
    pub joining: bool,
    pub peer_addrs: Seq<Seq<char>>,
    pub peer_pubkeys: Seq<Seq<char>>,
    pub send_after_ms: Seq<u64>,
    pub send_payloads: Seq<Seq<char>>,
    pub watch_prefixes: Seq<Seq<char>>,
    pub watch_timeout_s: u64,
    pub ignored: Seq<Seq<char>>,
}

/// Nothing read yet: empty texts, not joining, no lists, no watch timeout.
pub open spec fn nothing_read() -> ArgsRead {
    ArgsRead {
        bind: Seq::empty(),
        secret: Seq::empty(),
        label: Seq::empty(),
        joining: false,
        peer_addrs: Seq::empty(),
        peer_pubkeys: Seq::empty(),
        send_after_ms: Seq::empty(),
        send_payloads: Seq::empty(),
        watch_prefixes: Seq::empty(),
        watch_timeout_s: 0,
        ignored: Seq::empty(),
    }
}

/// The effect of `--joining`.
pub open spec fn read_joining(d: ArgsRead) -> ArgsRead {
    ArgsRead { joining: true, ..d }
}

/// The effect of an argument that names no option: it is set aside.
pub open spec fn read_unknown(d: ArgsRead, a: Seq<char>) -> ArgsRead {
    ArgsRead { ignored: d.ignored.push(a), ..d }
}

/// The effect of option `f` with value `v`; `None` when a number is expected
/// and `v` is not one.  Single values are overwritten, lists grow.
pub open spec fn read_value(d: ArgsRead, f: ValueFlag, v: Seq<char>) -> Option<ArgsRead> {
    match f {
        ValueFlag::Bind => Some(ArgsRead { bind: v, ..d }),
        ValueFlag::Secret => Some(ArgsRead { secret: v, ..d }),
        ValueFlag::Label => Some(ArgsRead { label: v, ..d }),
        ValueFlag::PeerAddr => Some(ArgsRead { peer_addrs: d.peer_addrs.push(v), ..d }),
        ValueFlag::PeerPubkey => Some(ArgsRead { peer_pubkeys: d.peer_pubkeys.push(v), ..d }),
        ValueFlag::SendAfterMs => match parse_u64_spec(v) {
            Some(n) => Some(ArgsRead { send_after_ms: d.send_after_ms.push(n), ..d }),
            None => None,
        },
        ValueFlag::SendPayload => Some(ArgsRead { send_payloads: d.send_payloads.push(v), ..d }),
        ValueFlag::WatchPrefix => Some(
            ArgsRead { watch_prefixes: d.watch_prefixes.push(v), ..d },
        ),
        ValueFlag::WatchTimeoutS => match parse_u64_spec(v) {
            Some(n) => Some(ArgsRead { watch_timeout_s: n, ..d }),
            None => None,
        },
    }
}

/// Why a node's command line is refused.
pub enum ArgErrorView {
    MissingValue(Seq<char>),
    InvalidNumber(Seq<char>, Seq<char>),
    UnpairedSends(nat, nat),
}

/// Reads `args` from position `i` on, starting from `d`: the state at the end,
/// or at the first refused option together with the reason.
pub open spec fn scan_args(d: ArgsRead, args: Seq<Seq<char>>, i: int) -> (ArgsRead, Option<
    ArgErrorView,
>)
    decreases args.len() - i,
{
    if i < 0 || i >= args.len() {
        (d, None)
    } else if args[i] == "--joining"@ {
        scan_args(read_joining(d), args, i + 1)
    } else {
        match value_flag_of(args[i]) {
            Some(f) => if i + 1 >= args.len() {
                (d, Some(ArgErrorView::MissingValue(args[i])))
            } else {
                match read_value(d, f, args[i + 1]) {
                    Some(d2) => scan_args(d2, args, i + 2),
                    None => (d, Some(ArgErrorView::InvalidNumber(args[i], args[i + 1]))),
                }
            },
            None => scan_args(read_unknown(d, args[i]), args, i + 1),
        }
    }
}

/// Pairs up two lists element by element, as far as the shorter one goes.
pub open spec fn zip<A, B>(a: Seq<A>, b: Seq<B>) -> Seq<(A, B)> {
    Seq::new(if a.len() <= b.len() { a.len() } else { b.len() }, |k: int| (a[k], b[k]))
}

/// A node's settings, as texts.
#[verifier::ext_equal]
pub struct NodeConfigView {
    pub bind: Seq<char>,
    pub secret: Seq<char>,
    pub label: Seq<char>,
    pub joining: bool,
    pub peers: Seq<(Seq<char>, Seq<char>)>,
    pub scheduled_sends: Seq<(u64, Seq<char>)>,
    pub watch_prefixes: Seq<Seq<char>>,
    pub watch_timeout_s: u64,
}

/// The settings made of a fully read command line: peers pair addresses with
/// keys as far as both lists go; delays and payloads must be equally many.
pub open spec fn finish_args(d: ArgsRead) -> Result<NodeConfigView, ArgErrorView> {
    if d.send_after_ms.len() != d.send_payloads.len() {
        Err(ArgErrorView::UnpairedSends(d.send_after_ms.len(), d.send_payloads.len()))
    } else {
        Ok(
            NodeConfigView {
                bind: d.bind,
                secret: d.secret,
                label: d.label,
                joining: d.joining,
                peers: zip(d.peer_addrs, d.peer_pubkeys),
                scheduled_sends: zip(d.send_after_ms, d.send_payloads),
                watch_prefixes: d.watch_prefixes,
                watch_timeout_s: d.watch_timeout_s,
            },
        )
    }
}

/// What a node makes of its command line: the arguments it set aside, and
/// its settings or the reason it refuses them.
pub open spec fn node_args_spec(args: Seq<Seq<char>>) -> (
    Seq<Seq<char>>,
    Result<NodeConfigView, ArgErrorView>,
) {
    let (d, e) = scan_args(nothing_read(), args, 0);
    (
        d.ignored,
        match e {
            Some(err) => Err(err),
            None => finish_args(d),
        },
    )
}

/// The texts of scheduled sends.
pub open spec fn send_texts(v: Seq<(u64, String)>) -> Seq<(u64, Seq<char>)> {
    v.map_values(|p: (u64, String)| (p.0, p.1@))
}

/// The texts of address and key pairs.
pub open spec fn pair_texts(v: Seq<(String, String)>) -> Seq<(Seq<char>, Seq<char>)> {
    v.map_values(|p: (String, String)| (p.0@, p.1@))
}

/// A node's settings.
pub struct NodeConfig {
    pub bind: String,
    pub secret: String,
    pub label: String,
    pub joining: bool,
    pub peers: Vec<(String, String)>,
    pub scheduled_sends: Vec<(u64, String)>,
    pub watch_prefixes: Vec<String>,
    pub watch_timeout_s: u64,
}

impl View for NodeConfig {
    type V = NodeConfigView;

    open spec fn view(&self) -> NodeConfigView {
        NodeConfigView {
            bind: self.bind@,
            secret: self.secret@,
            label: self.label@,
            joining: self.joining,
            peers: pair_texts(self.peers@),
            scheduled_sends: send_texts(self.scheduled_sends@),
            watch_prefixes: texts(self.watch_prefixes@),
            watch_timeout_s: self.watch_timeout_s,
        }
    }
}

/// Why a node's command line is refused.
pub enum ArgError {
    /// The option is the last argument, with no value after it.
    MissingValue { flag: String },
    /// The option wants a number and its value is not one.
    InvalidNumber { flag: String, value: String },
    /// `--send-after-ms` and `--send-payload` are not equally many.
    UnpairedSends { after_ms: usize, payloads: usize },
}

impl View for ArgError {
    type V = ArgErrorView;

    open spec fn view(&self) -> ArgErrorView {
        match self {
            ArgError::MissingValue { flag } => ArgErrorView::MissingValue(flag@),
            ArgError::InvalidNumber { flag, value } => ArgErrorView::InvalidNumber(flag@, value@),
            ArgError::UnpairedSends { after_ms, payloads } => ArgErrorView::UnpairedSends(
                *after_ms as nat,
                *payloads as nat,
            ),
        }
    }
}

/// What a node makes of its command line.
pub struct NodeArgs {
    /// Arguments that name no option, in order, up to where reading stopped.
    pub ignored: Vec<String>,
    pub result: Result<NodeConfig, ArgError>,
}

impl View for NodeArgs {
    type V = (Seq<Seq<char>>, Result<NodeConfigView, ArgErrorView>);

    open spec fn view(&self) -> (Seq<Seq<char>>, Result<NodeConfigView, ArgErrorView>) {
        (
            texts(self.ignored@),
            match self.result {
                Ok(c) => Ok(c@),
                Err(e) => Err(e@),
            },
        )
    }
}

/// Whether a process was started as a node (its first argument after the
/// program is `node`) rather than as the orchestrator.
pub fn is_node_invocation(argv: &Vec<String>) -> (r: bool)
    ensures
        r == (argv@.len() > 1 && argv@[1]@ == "node"@),
{
    argv.len() > 1 && same_text(argv[1].as_str(), "node")
}

/// The option that `a` names, if it takes a value.
pub fn value_flag(a: &str) -> (f: Option<ValueFlag>)
    ensures
        f == value_flag_of(a@),
{
    if same_text(a, "--bind") {
        Some(ValueFlag::Bind)
    } else if same_text(a, "--secret") {
        Some(ValueFlag::Secret)
    } else if same_text(a, "--label") {
        Some(ValueFlag::Label)
    } else if same_text(a, "--peer-addr") {
        Some(ValueFlag::PeerAddr)
    } else if same_text(a, "--peer-pubkey") {
        Some(ValueFlag::PeerPubkey)
    } else if same_text(a, "--send-after-ms") {
        Some(ValueFlag::SendAfterMs)
    } else if same_text(a, "--send-payload") {
        Some(ValueFlag::SendPayload)
    } else if same_text(a, "--watch-prefix") {
        Some(ValueFlag::WatchPrefix)
    } else if same_text(a, "--watch-timeout-s") {
        Some(ValueFlag::WatchTimeoutS)
    } else {
        None
    }
}

/// The command line read so far, as plain values.
struct Reading {
    bind: String,
    secret: String,
    label: String,
    joining: bool,
    peer_addrs: Vec<String>,
    peer_pubkeys: Vec<String>,
    send_after_ms: Vec<u64>,
    send_payloads: Vec<String>,
    watch_prefixes: Vec<String>,
    watch_timeout_s: u64,
    ignored: Vec<String>,
}

impl View for Reading {
    type V = ArgsRead;

    closed spec fn view(&self) -> ArgsRead {
        ArgsRead {
            bind: self.bind@,
            secret: self.secret@,
            label: self.label@,
            joining: self.joining,
            peer_addrs: texts(self.peer_addrs@),
            peer_pubkeys: texts(self.peer_pubkeys@),
            send_after_ms: self.send_after_ms@,
            send_payloads: texts(self.send_payloads@),
            watch_prefixes: texts(self.watch_prefixes@),
            watch_timeout_s: self.watch_timeout_s,
            ignored: texts(self.ignored@),
        }
    }
}


fn new_reading() -> (d: Reading)
    ensures
        d@ == nothing_read(),
{
    let d = Reading {
        bind: String::new(),
        secret: String::new(),
        label: String::new(),
        joining: false,
        peer_addrs: Vec::new(),
        peer_pubkeys: Vec::new(),
        send_after_ms: Vec::new(),
        send_payloads: Vec::new(),
        watch_prefixes: Vec::new(),
        watch_timeout_s: 0,
        ignored: Vec::new(),
    };
    assert(d@.peer_addrs =~= Seq::empty());
    assert(d@.peer_pubkeys =~= Seq::empty());
    assert(d@.send_payloads =~= Seq::empty());
    assert(d@.watch_prefixes =~= Seq::empty());
    assert(d@.ignored =~= Seq::empty());
    assert(d@ =~= nothing_read());
    d
}

/// Applies option `f` with value `v` to what has been read; `false`, and
/// nothing changed, when a number is expected and `v` is not one.
fn apply_value(d: &mut Reading, f: ValueFlag, v: &String) -> (ok: bool)
    ensures
        ok == read_value(old(d)@, f, v@) is Some,
        ok ==> read_value(old(d)@, f, v@) == Some(final(d)@),
        !ok ==> final(d)@ == old(d)@,
{
    broadcast use crate::text::lemma_texts_push;

    match f {
        ValueFlag::Bind => {
            d.bind = v.clone();
        },
        ValueFlag::Secret => {
            d.secret = v.clone();
        },
        ValueFlag::Label => {
            d.label = v.clone();
        },
        ValueFlag::PeerAddr => {
            d.peer_addrs.push(v.clone());
        },
        ValueFlag::PeerPubkey => {
            d.peer_pubkeys.push(v.clone());
        },
        ValueFlag::SendAfterMs => {
            match parse_u64(v.as_str()) {
                Some(x) => {
                    d.send_after_ms.push(x);
                },
                None => {
                    return false;
                },
            }
        },
        ValueFlag::SendPayload => {
            d.send_payloads.push(v.clone());
        },
        ValueFlag::WatchPrefix => {
            d.watch_prefixes.push(v.clone());
        },
        ValueFlag::WatchTimeoutS => {
            match parse_u64(v.as_str()) {
                Some(x) => {
                    d.watch_timeout_s = x;
                },
                None => {
                    return false;
                },
            }
        },
    }
    assert(read_value(old(d)@, f, v@) == Some(d@));
    true
}

/// Pairs two lists element by element, as far as the shorter one goes.
fn zip_texts(a: &Vec<String>, b: &Vec<String>) -> (r: Vec<(String, String)>)
    ensures
        pair_texts(r@) == zip(texts(a@), texts(b@)),
{
    let n = if a.len() <= b.len() {
        a.len()
    } else {
        b.len()
    };
    let mut r: Vec<(String, String)> = Vec::new();
    let mut k: usize = 0;
    while k < n
        invariant
            n <= a.len(),
            n <= b.len(),
            n == (if a.len() <= b.len() { a.len() } else { b.len() }),
            k <= n,
            r@.len() == k,
            pair_texts(r@) == zip(texts(a@), texts(b@)).take(k as int),
        decreases n - k,
    {
        let ghost prev = r@;
        r.push((a[k].clone(), b[k].clone()));
        proof {
            let z = zip(texts(a@), texts(b@));
            assert forall|j: int| 0 <= j < k + 1 implies #[trigger] pair_texts(r@)[j] == z.take(
                k + 1,
            )[j] by {
                if j < k {
                    assert(r@[j] == prev[j]);
                    assert(pair_texts(prev)[j] == z.take(k as int)[j]);
                } else {
                    assert(texts(a@)[j] == a@[j]@);
                    assert(texts(b@)[j] == b@[j]@);
                }
            }
            assert(pair_texts(r@) =~= z.take(k + 1));
        }
        k = k + 1;
    }
    assert(zip(texts(a@), texts(b@)).take(n as int) =~= zip(texts(a@), texts(b@)));
    r
}

/// Pairs delays with payloads element by element.
fn zip_sends(a: &Vec<u64>, b: &Vec<String>) -> (r: Vec<(u64, String)>)
    requires
        a.len() == b.len(),
    ensures
        send_texts(r@) == zip(a@, texts(b@)),
{
    let n = a.len();
    let mut r: Vec<(u64, String)> = Vec::new();
    let mut k: usize = 0;
    while k < n
        invariant
            n == a.len(),
            n == b.len(),
            k <= n,
            r@.len() == k,
            send_texts(r@) == zip(a@, texts(b@)).take(k as int),
        decreases n - k,
    {
        let ghost prev = r@;
        r.push((a[k], b[k].clone()));
        proof {
            let z = zip(a@, texts(b@));
            assert forall|j: int| 0 <= j < k + 1 implies #[trigger] send_texts(r@)[j] == z.take(
                k + 1,
            )[j] by {
                if j < k {
                    assert(r@[j] == prev[j]);
                    assert(send_texts(prev)[j] == z.take(k as int)[j]);
                } else {
                    assert(texts(b@)[j] == b@[j]@);
                }
            }
            assert(send_texts(r@) =~= z.take(k + 1));
        }
        k = k + 1;
    }
    assert(zip(a@, texts(b@)).take(n as int) =~= zip(a@, texts(b@)));
    r
}

fn finish_reading(d: Reading) -> (r: Result<NodeConfig, ArgError>)
    ensures
        match r {
            Ok(c) => finish_args(d@) == Ok::<NodeConfigView, ArgErrorView>(c@),
            Err(e) => finish_args(d@) == Err::<NodeConfigView, ArgErrorView>(e@),
        },
{
    if d.send_after_ms.len() != d.send_payloads.len() {
        return Err(
            ArgError::UnpairedSends {
                after_ms: d.send_after_ms.len(),
                payloads: d.send_payloads.len(),
            },
        );
    }
    let peers = zip_texts(&d.peer_addrs, &d.peer_pubkeys);
    let scheduled_sends = zip_sends(&d.send_after_ms, &d.send_payloads);
    let c = NodeConfig {
        bind: d.bind,
        secret: d.secret,
        label: d.label,
        joining: d.joining,
        peers,
        scheduled_sends,
        watch_prefixes: d.watch_prefixes,
        watch_timeout_s: d.watch_timeout_s,
    };
    Ok(c)
}

/// Reads a node's command line (the arguments after `node`).  Options with a
/// value take the next argument whatever it is; a later single-valued option
/// overrides an earlier one; arguments that name no option are set aside.
/// Reading stops at the first option without a value or with a value that is
/// not the number it needs; at the end, delays and payloads must pair up.
pub fn parse_node_args(args: &[String]) -> (r: NodeArgs)
    ensures
        r@ == node_args_spec(texts(args@)),
{
    broadcast use crate::text::lemma_texts_push;

    let ghost a = texts(args@);
    let n = args.len();
    let mut d = new_reading();
    let mut i: usize = 0;
    while i < n
        invariant
            n == args@.len(),
            a == texts(args@),
            i <= n,
            scan_args(nothing_read(), a, 0) == scan_args(d@, a, i as int),
        decreases n - i,
    {
        let arg = args[i].as_str();
        assert(a[i as int] == args@[i as int]@);
        let ghost d0 = d@;
        if same_text(arg, "--joining") {
            d.joining = true;
            assert(d@ == read_joining(d0));
            i = i + 1;
        } else {
            match value_flag(arg) {
                Some(f) => {
                    if i + 1 >= n {
                        let ignored = d.ignored;
                        return NodeArgs {
                            ignored,
                            result: Err(ArgError::MissingValue { flag: args[i].clone() }),
                        };
                    }
                    assert(a[i + 1] == args@[i + 1]@);
                    if !apply_value(&mut d, f, &args[i + 1]) {
                        let ignored = d.ignored;
                        return NodeArgs {
                            ignored,
                            result: Err(
                                ArgError::InvalidNumber {
                                    flag: args[i].clone(),
                                    value: args[i + 1].clone(),
                                },
                            ),
                        };
                    }
                    assert(scan_args(d0, a, i as int) == scan_args(d@, a, i + 2));
                    i = i + 2;
                },
                None => {
                    let ghost ig = d.ignored@;
                    d.ignored.push(args[i].clone());
                    proof {
                        crate::text::lemma_texts_push(ig, args@[i as int]);
                    }
                    assert(d@ == read_unknown(d0, a[i as int]));
                    i = i + 1;
                },
            }
        }
    }
    let ghost end = d@;
    assert(scan_args(end, a, n as int) == (end, None::<ArgErrorView>));
    let ignored = d.ignored.clone();
    let result = finish_reading(d);
    NodeArgs { ignored, result }
}


/// The options that hand a node its scheduled sends, in order.
pub open spec fn send_options(sends: Seq<(u64, Seq<char>)>) -> Seq<Seq<char>>
    decreases sends.len(),
{
    if sends.len() == 0 {
        seq![]
    } else {
        send_options(sends.drop_last()) + seq![
            "--send-after-ms"@,
            decimal(sends.last().0 as nat),
            "--send-payload"@,
            sends.last().1,
        ]
    }
}

/// The options that hand a node the prefixes to watch for, in order.
pub open spec fn prefix_options(prefixes: Seq<Seq<char>>) -> Seq<Seq<char>>
    decreases prefixes.len(),
{
    if prefixes.len() == 0 {
        seq![]
    } else {
        prefix_options(prefixes.drop_last()) + seq!["--watch-prefix"@, prefixes.last()]
    }
}

/// The other nodes among the first `k`, each with its address and key.
pub open spec fn peer_list(node: nat, pubkeys: Seq<Seq<char>>, k: nat) -> Seq<
    (Seq<char>, Seq<char>),
>
    decreases k,
{
    if k == 0 {
        seq![]
    } else if k - 1 == node {
        peer_list(node, pubkeys, (k - 1) as nat)
    } else {
        peer_list(node, pubkeys, (k - 1) as nat).push(
            (node_addr_text((k - 1) as nat), pubkeys[k - 1]),
        )
    }
}

/// The options that introduce the given peers, in order.
pub open spec fn peer_options(peers: Seq<(Seq<char>, Seq<char>)>) -> Seq<Seq<char>>
    decreases peers.len(),
{
    if peers.len() == 0 {
        seq![]
    } else {
        peer_options(peers.drop_last()) + seq![
            "--peer-addr"@,
            peers.last().0,
            "--peer-pubkey"@,
            peers.last().1,
        ]
    }
}

/// The options the orchestrator starts node `node` with: its address, key
/// and label; `--joining` when it rejoins; its scheduled sends; the prefixes
/// it watches for; the watch timeout when there is one; the other nodes.
pub open spec fn node_options(
    node: nat,
    secrets: Seq<Seq<char>>,
    pubkeys: Seq<Seq<char>>,
    joining: bool,
    sends: Seq<(u64, Seq<char>)>,
    prefixes: Seq<Seq<char>>,
    watch_timeout_s: u64,
) -> Seq<Seq<char>> {
    seq![
        "--bind"@,
        node_addr_text(node),
        "--secret"@,
        secrets[node as int],
        "--label"@,
        node_label_text(node),
    ] + (if joining {
        seq!["--joining"@]
    } else {
        seq![]
    }) + send_options(sends) + prefix_options(prefixes) + (if watch_timeout_s > 0 {
        seq!["--watch-timeout-s"@, decimal(watch_timeout_s as nat)]
    } else {
        seq![]
    }) + peer_options(peer_list(node, pubkeys, NODE_COUNT as nat))
}

/// The whole command line after the program: the word `node`, then the options.
pub open spec fn node_command_spec(
    node: nat,
    secrets: Seq<Seq<char>>,
    pubkeys: Seq<Seq<char>>,
    joining: bool,
    sends: Seq<(u64, Seq<char>)>,
    prefixes: Seq<Seq<char>>,
    watch_timeout_s: u64,
) -> Seq<Seq<char>> {
    seq!["node"@] + node_options(
        node,
        secrets,
        pubkeys,
        joining,
        sends,
        prefixes,
        watch_timeout_s,
    )
}

/// A list of `len` public keys holds the key of every node other than `node`.
pub open spec fn keys_cover_peers(node: nat, len: nat) -> bool {
    len >= NODE_COUNT || (node == NODE_COUNT - 1 && len >= NODE_COUNT - 1)
}

fn push_text(out: &mut Vec<String>, t: &str)
    ensures
        texts(final(out)@) == texts(old(out)@).push(t@),
{
    broadcast use crate::text::lemma_texts_push;

    out.push(String::from_str(t));
}

fn push_string(out: &mut Vec<String>, t: String)
    ensures
        texts(final(out)@) == texts(old(out)@).push(t@),
{
    broadcast use crate::text::lemma_texts_push;

    out.push(t);
}

/// The arguments the orchestrator starts node `node` with, after the program
/// itself.  Needs the node's key and the public keys of all other nodes.
pub fn node_command_args(
    node: usize,
    secrets: &Vec<String>,
    pubkeys: &Vec<String>,
    joining: bool,
    scheduled_sends: &Vec<(u64, String)>,
    watch_prefixes: &Vec<String>,
    watch_timeout_s: u64,
) -> (args: Vec<String>)
    requires
        node < NODE_COUNT,
        node < secrets.len(),
        keys_cover_peers(node as nat, pubkeys.len() as nat),
    ensures
        texts(args@) == node_command_spec(
            node as nat,
            texts(secrets@),
            texts(pubkeys@),
            joining,
            send_texts(scheduled_sends@),
            texts(watch_prefixes@),
            watch_timeout_s,
        ),
{
    let ghost sec = texts(secrets@);
    let ghost keys = texts(pubkeys@);
    let ghost sends = send_texts(scheduled_sends@);
    let ghost prefixes = texts(watch_prefixes@);
    let mut out: Vec<String> = Vec::new();
    assert(texts(out@) =~= seq![]);
    push_text(&mut out, "node");
    push_text(&mut out, "--bind");
    push_text(&mut out, node_addr(node));
    push_text(&mut out, "--secret");
    push_string(&mut out, secrets[node].clone());
    push_text(&mut out, "--label");
    push_string(&mut out, node_label(node));
    if joining {
        push_text(&mut out, "--joining");
    }
    assert(sec[node as int] == secrets@[node as int]@);
    let ghost head = texts(out@);
    assert(head =~= seq!["node"@] + (seq![
        "--bind"@,
        node_addr_text(node as nat),
        "--secret"@,
        sec[node as int],
        "--label"@,
        node_label_text(node as nat),
    ] + (if joining {
        seq!["--joining"@]
    } else {
        seq![]
    })));
    let mut k: usize = 0;
    while k < scheduled_sends.len()
        invariant
            k <= scheduled_sends.len(),
            sends == send_texts(scheduled_sends@),
            texts(out@) == head + send_options(sends.take(k as int)),
        decreases scheduled_sends.len() - k,
    {
        push_text(&mut out, "--send-after-ms");
        let mut ms = String::new();
        crate::decimal::push_decimal(scheduled_sends[k].0, &mut ms);
        push_string(&mut out, ms);
        push_text(&mut out, "--send-payload");
        push_string(&mut out, scheduled_sends[k].1.clone());
        proof {
            let t = sends.take(k + 1);
            assert(t.drop_last() =~= sends.take(k as int));
            assert(t.last() == (scheduled_sends@[k as int].0, scheduled_sends@[k as int].1@));
            assert(texts(out@) =~= head + send_options(t));
        }
        k = k + 1;
    }
    assert(sends.take(k as int) =~= sends);
    let ghost with_sends = texts(out@);
    let mut k: usize = 0;
    while k < watch_prefixes.len()
        invariant
            k <= watch_prefixes.len(),
            prefixes == texts(watch_prefixes@),
            texts(out@) == with_sends + prefix_options(prefixes.take(k as int)),
        decreases watch_prefixes.len() - k,
    {
        push_text(&mut out, "--watch-prefix");
        push_string(&mut out, watch_prefixes[k].clone());
        proof {
            let t = prefixes.take(k + 1);
            assert(t.drop_last() =~= prefixes.take(k as int));
            assert(t.last() == watch_prefixes@[k as int]@);
            assert(texts(out@) =~= with_sends + prefix_options(t));
        }
        k = k + 1;
    }
    assert(prefixes.take(k as int) =~= prefixes);
    if watch_timeout_s > 0 {
        push_text(&mut out, "--watch-timeout-s");
        let mut t = String::new();
        crate::decimal::push_decimal(watch_timeout_s, &mut t);
        push_string(&mut out, t);
    }
    let ghost with_watch = texts(out@);
    let mut j: usize = 0;
    while j < NODE_COUNT
        invariant
            j <= NODE_COUNT,
            node < NODE_COUNT,
            keys == texts(pubkeys@),
            keys_cover_peers(node as nat, pubkeys.len() as nat),
            texts(out@) == with_watch + peer_options(peer_list(node as nat, keys, j as nat)),
        decreases NODE_COUNT - j,
    {
        if j != node {
            let ghost pl = peer_list(node as nat, keys, j as nat);
            push_text(&mut out, "--peer-addr");
            push_text(&mut out, node_addr(j));
            push_text(&mut out, "--peer-pubkey");
            push_string(&mut out, pubkeys[j].clone());
            proof {
                let pl2 = peer_list(node as nat, keys, (j + 1) as nat);
                assert(pl2 == pl.push((node_addr_text(j as nat), keys[j as int])));
                assert(pl2.drop_last() =~= pl);
                assert(keys[j as int] == pubkeys@[j as int]@);
                assert(texts(out@) =~= with_watch + peer_options(pl2));
            }
        }
        j = j + 1;
    }
    assert(texts(out@) =~= node_command_spec(
        node as nat,
        sec,
        keys,
        joining,
        sends,
        prefixes,
        watch_timeout_s,
    ));
    out
}


proof fn lemma_option_names()
    ensures
        value_flag_of("--bind"@) == Some(ValueFlag::Bind),
        value_flag_of("--secret"@) == Some(ValueFlag::Secret),
        value_flag_of("--label"@) == Some(ValueFlag::Label),
        value_flag_of("--peer-addr"@) == Some(ValueFlag::PeerAddr),
        value_flag_of("--peer-pubkey"@) == Some(ValueFlag::PeerPubkey),
        value_flag_of("--send-after-ms"@) == Some(ValueFlag::SendAfterMs),
        value_flag_of("--send-payload"@) == Some(ValueFlag::SendPayload),
        value_flag_of("--watch-prefix"@) == Some(ValueFlag::WatchPrefix),
        value_flag_of("--watch-timeout-s"@) == Some(ValueFlag::WatchTimeoutS),
        "--bind"@ != "--joining"@,
        "--secret"@ != "--joining"@,
        "--label"@ != "--joining"@,
        "--peer-addr"@ != "--joining"@,
        "--peer-pubkey"@ != "--joining"@,
        "--send-after-ms"@ != "--joining"@,
        "--send-payload"@ != "--joining"@,
        "--watch-prefix"@ != "--joining"@,
        "--watch-timeout-s"@ != "--joining"@,
{
    reveal_strlit("--bind");
    reveal_strlit("--secret");
    reveal_strlit("--label");
    reveal_strlit("--joining");
    reveal_strlit("--peer-addr");
    reveal_strlit("--peer-pubkey");
    reveal_strlit("--send-after-ms");
    reveal_strlit("--send-payload");
    reveal_strlit("--watch-prefix");
    reveal_strlit("--watch-timeout-s");
    assert("--bind"@.len() == 6);
    assert("--secret"@.len() == 8);
    assert("--label"@.len() == 7);
    assert("--joining"@.len() == 9);
    assert("--peer-addr"@.len() == 11);
    assert("--peer-pubkey"@.len() == 13);
    assert("--send-after-ms"@.len() == 15);
    assert("--send-payload"@.len() == 14);
    assert("--watch-prefix"@.len() == 14);
    assert("--watch-timeout-s"@.len() == 17);
    assert("--send-payload"@[2] != "--watch-prefix"@[2]);
}

/// The state after reading the given sends.
pub open spec fn read_sends(d: ArgsRead, sends: Seq<(u64, Seq<char>)>) -> ArgsRead {
    ArgsRead {
        send_after_ms: d.send_after_ms + sends.map_values(|s: (u64, Seq<char>)| s.0),
        send_payloads: d.send_payloads + sends.map_values(|s: (u64, Seq<char>)| s.1),
        ..d
    }
}

/// The state after reading the given watched prefixes.
pub open spec fn read_prefixes(d: ArgsRead, prefixes: Seq<Seq<char>>) -> ArgsRead {
    ArgsRead { watch_prefixes: d.watch_prefixes + prefixes, ..d }
}

/// The state after reading the given peers.
pub open spec fn read_peers(d: ArgsRead, peers: Seq<(Seq<char>, Seq<char>)>) -> ArgsRead {
    ArgsRead {
        peer_addrs: d.peer_addrs + peers.map_values(|p: (Seq<char>, Seq<char>)| p.0),
        peer_pubkeys: d.peer_pubkeys + peers.map_values(|p: (Seq<char>, Seq<char>)| p.1),
        ..d
    }
}

proof fn lemma_scan_sends(d: ArgsRead, args: Seq<Seq<char>>, o: int, sends: Seq<(u64, Seq<char>)>)
    requires
        0 <= o,
        o + send_options(sends).len() <= args.len(),
        args.subrange(o, o + send_options(sends).len()) == send_options(sends),
    ensures
        send_options(sends).len() == 4 * sends.len(),
        scan_args(d, args, o) == scan_args(read_sends(d, sends), args, o + 4 * sends.len()),
    decreases sends.len(),
{
    if sends.len() == 0 {
        assert(read_sends(d, sends) =~= d);
    } else {
        let rest = sends.drop_last();
        let last = sends.last();
        assert(args.subrange(o, o + send_options(rest).len()) =~= send_options(rest)) by {
            assert(send_options(rest) =~= send_options(sends).subrange(
                0,
                send_options(rest).len() as int,
            ));
        }
        lemma_scan_sends(d, args, o, rest);
        let p = o + 4 * rest.len();
        let d1 = read_sends(d, rest);
        assert(args[p] == send_options(sends)[p - o]);
        assert(args[p + 1] == send_options(sends)[p - o + 1]);
        assert(args[p + 2] == send_options(sends)[p - o + 2]);
        assert(args[p + 3] == send_options(sends)[p - o + 3]);
        lemma_option_names();
        crate::decimal::lemma_parse_decimal_roundtrip(last.0);
        let d2 = ArgsRead { send_after_ms: d1.send_after_ms.push(last.0), ..d1 };
        let d3 = ArgsRead { send_payloads: d2.send_payloads.push(last.1), ..d2 };
        assert(read_value(d1, ValueFlag::SendAfterMs, args[p + 1]) == Some(d2));
        assert(scan_args(d1, args, p) == scan_args(d2, args, p + 2));
        assert(scan_args(d2, args, p + 2) == scan_args(d3, args, p + 4));
        assert(d3 =~= read_sends(d, sends));
    }
}

proof fn lemma_scan_prefixes(d: ArgsRead, args: Seq<Seq<char>>, o: int, prefixes: Seq<Seq<char>>)
    requires
        0 <= o,
        o + prefix_options(prefixes).len() <= args.len(),
        args.subrange(o, o + prefix_options(prefixes).len()) == prefix_options(prefixes),
    ensures
        prefix_options(prefixes).len() == 2 * prefixes.len(),
        scan_args(d, args, o) == scan_args(
            read_prefixes(d, prefixes),
            args,
            o + 2 * prefixes.len(),
        ),
    decreases prefixes.len(),
{
    if prefixes.len() == 0 {
        assert(read_prefixes(d, prefixes) =~= d);
    } else {
        let rest = prefixes.drop_last();
        assert(args.subrange(o, o + prefix_options(rest).len()) =~= prefix_options(rest)) by {
            assert(prefix_options(rest) =~= prefix_options(prefixes).subrange(
                0,
                prefix_options(rest).len() as int,
            ));
        }
        lemma_scan_prefixes(d, args, o, rest);
        let p = o + 2 * rest.len();
        let d1 = read_prefixes(d, rest);
        assert(args[p] == prefix_options(prefixes)[p - o]);
        assert(args[p + 1] == prefix_options(prefixes)[p - o + 1]);
        lemma_option_names();
        let d2 = ArgsRead { watch_prefixes: d1.watch_prefixes.push(prefixes.last()), ..d1 };
        assert(scan_args(d1, args, p) == scan_args(d2, args, p + 2));
        assert(d2 =~= read_prefixes(d, prefixes));
    }
}

proof fn lemma_scan_peers(
    d: ArgsRead,
    args: Seq<Seq<char>>,
    o: int,
    peers: Seq<(Seq<char>, Seq<char>)>,
)
    requires
        0 <= o,
        o + peer_options(peers).len() <= args.len(),
        args.subrange(o, o + peer_options(peers).len()) == peer_options(peers),
    ensures
        peer_options(peers).len() == 4 * peers.len(),
        scan_args(d, args, o) == scan_args(read_peers(d, peers), args, o + 4 * peers.len()),
    decreases peers.len(),
{
    if peers.len() == 0 {
        assert(read_peers(d, peers) =~= d);
    } else {
        let rest = peers.drop_last();
        let last = peers.last();
        assert(args.subrange(o, o + peer_options(rest).len()) =~= peer_options(rest)) by {
            assert(peer_options(rest) =~= peer_options(peers).subrange(
                0,
                peer_options(rest).len() as int,
            ));
        }
        lemma_scan_peers(d, args, o, rest);
        let p = o + 4 * rest.len();
        let d1 = read_peers(d, rest);
        assert(args[p] == peer_options(peers)[p - o]);
        assert(args[p + 1] == peer_options(peers)[p - o + 1]);
        assert(args[p + 2] == peer_options(peers)[p - o + 2]);
        assert(args[p + 3] == peer_options(peers)[p - o + 3]);
        lemma_option_names();
        let d2 = ArgsRead { peer_addrs: d1.peer_addrs.push(last.0), ..d1 };
        let d3 = ArgsRead { peer_pubkeys: d2.peer_pubkeys.push(last.1), ..d2 };
        assert(scan_args(d1, args, p) == scan_args(d2, args, p + 2));
        assert(scan_args(d2, args, p + 2) == scan_args(d3, args, p + 4));
        assert(d3 =~= read_peers(d, peers));
    }
}

/// The settings a node started by the orchestrator should end up with.
pub open spec fn intended_config(
    node: nat,
    secrets: Seq<Seq<char>>,
    pubkeys: Seq<Seq<char>>,
    joining: bool,
    sends: Seq<(u64, Seq<char>)>,
    prefixes: Seq<Seq<char>>,
    watch_timeout_s: u64,
) -> NodeConfigView {
    NodeConfigView {
        bind: node_addr_text(node),
        secret: secrets[node as int],
        label: node_label_text(node),
        joining,
        peers: peer_list(node, pubkeys, NODE_COUNT as nat),
        scheduled_sends: sends,
        watch_prefixes: prefixes,
        watch_timeout_s,
    }
}

/// Law: a node reads back exactly the settings the orchestrator wrote on its
/// command line, and sets nothing aside.
#[verifier::spinoff_prover]
#[verifier::rlimit(40)]
pub proof fn lemma_node_command_roundtrip(
    node: nat,
    secrets: Seq<Seq<char>>,
    pubkeys: Seq<Seq<char>>,
    joining: bool,
    sends: Seq<(u64, Seq<char>)>,
    prefixes: Seq<Seq<char>>,
    watch_timeout_s: u64,
)
    ensures
        node_command_spec(node, secrets, pubkeys, joining, sends, prefixes, watch_timeout_s)[0]
            == "node"@,
        node_args_spec(
            node_command_spec(
                node,
                secrets,
                pubkeys,
                joining,
                sends,
                prefixes,
                watch_timeout_s,
            ).drop_first(),
        ) == (
            Seq::<Seq<char>>::empty(),
            Ok::<NodeConfigView, ArgErrorView>(
                intended_config(
                    node,
                    secrets,
                    pubkeys,
                    joining,
                    sends,
                    prefixes,
                    watch_timeout_s,
                ),
            ),
        ),
{
    let args = node_command_spec(
        node,
        secrets,
        pubkeys,
        joining,
        sends,
        prefixes,
        watch_timeout_s,
    ).drop_first();
    let head = seq![
        "--bind"@,
        node_addr_text(node),
        "--secret"@,
        secrets[node as int],
        "--label"@,
        node_label_text(node),
    ];
    let jseg: Seq<Seq<char>> = if joining {
        seq!["--joining"@]
    } else {
        seq![]
    };
    let sseg = send_options(sends);
    let pseg = prefix_options(prefixes);
    let tseg: Seq<Seq<char>> = if watch_timeout_s > 0 {
        seq!["--watch-timeout-s"@, decimal(watch_timeout_s as nat)]
    } else {
        seq![]
    };
    let peers = peer_list(node, pubkeys, NODE_COUNT as nat);
    let qseg = peer_options(peers);
    assert(args =~= head + jseg + sseg + pseg + tseg + qseg);
    lemma_option_names();
    reveal_strlit("--joining");
    // the address, key and label
    let d0 = nothing_read();
    let d1 = ArgsRead { bind: node_addr_text(node), ..d0 };
    let d2 = ArgsRead { secret: secrets[node as int], ..d1 };
    let d3 = ArgsRead { label: node_label_text(node), ..d2 };
    assert(scan_args(d0, args, 0) == scan_args(d1, args, 2));
    assert(scan_args(d1, args, 2) == scan_args(d2, args, 4));
    assert(scan_args(d2, args, 4) == scan_args(d3, args, 6));
    // joining
    let d4 = if joining {
        read_joining(d3)
    } else {
        d3
    };
    let o1: int = 6 + jseg.len() as int;
    assert(scan_args(d3, args, 6) == scan_args(d4, args, o1));
    // the scheduled sends
    assert(args.subrange(o1, o1 + sseg.len()) =~= sseg);
    lemma_scan_sends(d4, args, o1, sends);
    let d5 = read_sends(d4, sends);
    let o2: int = o1 + sseg.len();
    // the watched prefixes
    assert(args.subrange(o2, o2 + pseg.len()) =~= pseg);
    lemma_scan_prefixes(d5, args, o2, prefixes);
    let d6 = read_prefixes(d5, prefixes);
    let o3: int = o2 + pseg.len();
    // the watch timeout
    let d7 = if watch_timeout_s > 0 {
        ArgsRead { watch_timeout_s, ..d6 }
    } else {
        d6
    };
    let o4: int = o3 + tseg.len();
    if watch_timeout_s > 0 {
        crate::decimal::lemma_parse_decimal_roundtrip(watch_timeout_s);
        assert(args[o3] == "--watch-timeout-s"@);
        assert(args[o3 + 1] == decimal(watch_timeout_s as nat));
    }
    assert(scan_args(d6, args, o3) == scan_args(d7, args, o4));
    // the peers
    assert(args.subrange(o4, o4 + qseg.len()) =~= qseg);
    lemma_scan_peers(d7, args, o4, peers);
    let d8 = read_peers(d7, peers);
    assert(o4 + qseg.len() == args.len());
    assert(scan_args(d8, args, args.len() as int) == (d8, None::<ArgErrorView>));
    // the settings made of it
    assert(d8.ignored =~= Seq::<Seq<char>>::empty());
    assert(d8.send_after_ms.len() == d8.send_payloads.len());
    assert(zip(d8.send_after_ms, d8.send_payloads) =~= sends);
    assert(zip(d8.peer_addrs, d8.peer_pubkeys) =~= peers);
    assert(d8.watch_prefixes =~= prefixes);
    assert(finish_args(d8) == Ok::<NodeConfigView, ArgErrorView>(
        intended_config(node, secrets, pubkeys, joining, sends, prefixes, watch_timeout_s),
    ));
}


/// Reading that reaches the end of `args` without a refusal reads the same
/// whatever follows `args`, and goes on from where `args` ended.
proof fn lemma_scan_extend(d: ArgsRead, args: Seq<Seq<char>>, t: Seq<Seq<char>>, i: int)
    requires
        0 <= i <= args.len(),
        scan_args(d, args, i).1 is None,
    ensures
        scan_args(d, args + t, i) == scan_args(scan_args(d, args, i).0, args + t, args.len() as int),
    decreases args.len() - i,
{
    let all = args + t;
    if i == args.len() {
    } else {
        assert(all[i] == args[i]);
        if args[i] == "--joining"@ {
            lemma_scan_extend(read_joining(d), args, t, i + 1);
        } else {
            match value_flag_of(args[i]) {
                Some(f) => {
                    assert(i + 1 < args.len());
                    assert(all[i + 1] == args[i + 1]);
                    let d2 = read_value(d, f, args[i + 1]).unwrap();
                    lemma_scan_extend(d2, args, t, i + 2);
                },
                None => {
                    lemma_scan_extend(read_unknown(d, args[i]), args, t, i + 1);
                },
            }
        }
    }
}

/// Law: a command line is accepted only when it holds as many
/// `--send-after-ms` values as `--send-payload` values, and then the
/// scheduled sends pair them in order, the k-th delay with the k-th payload;
/// when all was read and the counts differ, it is refused for that reason.
pub proof fn lemma_accepted_sends_pair_up(args: Seq<Seq<char>>)
    ensures
        ({
            let (d, e) = scan_args(nothing_read(), args, 0);
            &&& node_args_spec(args).1 is Ok ==> {
                &&& e is None
                &&& d.send_after_ms.len() == d.send_payloads.len()
                &&& node_args_spec(args).1->Ok_0.scheduled_sends.len() == d.send_payloads.len()
                &&& forall|k: int|
                    0 <= k < d.send_payloads.len() ==> #[trigger] node_args_spec(
                        args,
                    ).1->Ok_0.scheduled_sends[k] == (d.send_after_ms[k], d.send_payloads[k])
            }
            &&& e is None && d.send_after_ms.len() != d.send_payloads.len() ==> node_args_spec(
                args,
            ).1 == Err::<NodeConfigView, ArgErrorView>(
                ArgErrorView::UnpairedSends(d.send_after_ms.len(), d.send_payloads.len()),
            )
        }),
{
}

/// Law: one more `--send-payload` after an accepted command line makes it
/// refused, as one payload more than there are delays.
pub proof fn lemma_extra_payload_refused(args: Seq<Seq<char>>, v: Seq<char>)
    requires
        node_args_spec(args).1 is Ok,
    ensures
        node_args_spec(args + seq!["--send-payload"@, v]).1 == Err::<
            NodeConfigView,
            ArgErrorView,
        >(
            ArgErrorView::UnpairedSends(
                node_args_spec(args).1->Ok_0.scheduled_sends.len(),
                node_args_spec(args).1->Ok_0.scheduled_sends.len() + 1,
            ),
        ),
{
    let t = seq!["--send-payload"@, v];
    let all = args + t;
    let (d, e) = scan_args(nothing_read(), args, 0);
    lemma_scan_extend(nothing_read(), args, t, 0);
    lemma_option_names();
    let n = args.len() as int;
    assert(all[n] == "--send-payload"@);
    assert(all[n + 1] == v);
    let d2 = ArgsRead { send_payloads: d.send_payloads.push(v), ..d };
    assert(scan_args(d, all, n) == scan_args(d2, all, n + 2));
    assert(scan_args(d2, all, n + 2) == (d2, None::<ArgErrorView>));
}

/// Law: one more `--send-after-ms` and `--send-payload` pair after an
/// accepted command line adds exactly that send at the end of the schedule
/// and changes nothing else.
pub proof fn lemma_extra_send_appended(args: Seq<Seq<char>>, ms: u64, v: Seq<char>)
    requires
        node_args_spec(args).1 is Ok,
    ensures
        node_args_spec(args + seq!["--send-after-ms"@, decimal(ms as nat), "--send-payload"@, v])
            == (
            node_args_spec(args).0,
            Ok::<NodeConfigView, ArgErrorView>(
                NodeConfigView {
                    scheduled_sends: node_args_spec(args).1->Ok_0.scheduled_sends.push((ms, v)),
                    ..node_args_spec(args).1->Ok_0
                },
            ),
        ),
{
    let t = seq!["--send-after-ms"@, decimal(ms as nat), "--send-payload"@, v];
    let all = args + t;
    let (d, e) = scan_args(nothing_read(), args, 0);
    lemma_scan_extend(nothing_read(), args, t, 0);
    lemma_option_names();
    crate::decimal::lemma_parse_decimal_roundtrip(ms);
    let n = args.len() as int;
    assert(all[n] == "--send-after-ms"@);
    assert(all[n + 1] == decimal(ms as nat));
    assert(all[n + 2] == "--send-payload"@);
    assert(all[n + 3] == v);
    let d2 = ArgsRead { send_after_ms: d.send_after_ms.push(ms), ..d };
    let d3 = ArgsRead { send_payloads: d2.send_payloads.push(v), ..d2 };
    assert(scan_args(d, all, n) == scan_args(d2, all, n + 2));
    assert(scan_args(d2, all, n + 2) == scan_args(d3, all, n + 4));
    assert(scan_args(d3, all, n + 4) == (d3, None::<ArgErrorView>));
    assert(zip(d3.send_after_ms, d3.send_payloads) =~= zip(d.send_after_ms, d.send_payloads).push(
        (ms, v),
    ));
}

} // verus!
