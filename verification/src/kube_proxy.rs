//! The service proxy's rules: what is programmed so that traffic to a
//! service's virtual address reaches one of its backends.

use vstd::prelude::*;

use crate::digest;
use crate::endpoints::{EndpointAddress, EndpointAddressView, Endpoints, EndpointsView};
use crate::service::{Service, ServiceView};
use crate::text;

verus! {

/// The chain that all traffic to services passes.
pub const KUBE_SERVICES: &'static str = "KUBE-SERVICES";

/// The chain that marks packets for masquerading.
pub const KUBE_MARK_MASQ: &'static str = "KUBE-MARK-MASQ";

/// All triggers of a sync share one key: the whole ruleset is rebuilt each
/// time, whatever changed.
pub const SYNC_KEY: &'static str = "sync";

/// A short, stable name for a text: its hash in 16 upper-case digits.
pub fn short_hash(s: &str) -> (name: String)
    ensures
        name@ == text::hex_chars(digest::hash_of(s@) as nat, 16, true),
{
    let mut name = String::new();
    text::push_hex(&mut name, digest::hash_text(s), 16, true);
    assert(name@ =~= text::hex_chars(digest::hash_of(s@) as nat, 16, true));
    name
}

pub open spec fn svc_chain(svc: Seq<char>) -> Seq<char> {
    "KUBE-SVC-"@ + text::hex_chars(digest::hash_of(svc) as nat, 16, true)
}

/// The chain of a service.
pub fn svc_chain_name(svc: &str) -> (name: String)
    ensures
        name@ == svc_chain(svc@),
{
    "KUBE-SVC-".to_owned().concat(short_hash(svc).as_str())
}

pub open spec fn destination(address: EndpointAddressView) -> Seq<char> {
    address.ip + ":"@ + text::decimal_chars(address.port as nat)
}

pub open spec fn sep_chain(svc: Seq<char>, address: EndpointAddressView) -> Seq<char> {
    "KUBE-SEP-"@ + text::hex_chars(digest::hash_of(svc + "/"@ + destination(address)) as nat, 16, true)
}

fn destination_text(ip: &str, port: u16) -> (s: String)
    ensures
        s@ == ip@ + ":"@ + text::decimal_chars(port as nat),
{
    let mut s = ip.to_owned();
    s.append(":");
    text::push_decimal(&mut s, port as u64);
    s
}

/// The chain of one backend of a service.
pub fn sep_chain_name(svc: &str, ip: &str, port: u16) -> (name: String)
    ensures
        name@ == sep_chain(svc@, EndpointAddressView { ip: ip@, port }),
{
    let mut key = svc.to_owned();
    key.append("/");
    key.append(destination_text(ip, port).as_str());
    assert(key@ =~= svc@ + "/"@ + destination(EndpointAddressView { ip: ip@, port }));
    "KUBE-SEP-".to_owned().concat(short_hash(key.as_str()).as_str())
}

/// One in so many, in hundred-thousandths, rounded to the nearest. One in 64
/// lies half way and goes to the even neighbour.
pub open spec fn share(k: nat) -> nat
    recommends
        k > 0,
{
    if k == 64 {
        1562
    } else {
        (200_000 + k) / (2 * k)
    }
}

/// One in so many, as a decimal fraction with five places.
pub open spec fn probability_chars(k: nat) -> Seq<char> {
    "0."@ + text::fixed_decimal(share(k), 5)
}

/// Writes out one in so many.
pub fn probability(k: usize) -> (s: String)
    requires
        k >= 2,
    ensures
        s@ == probability_chars(k as nat),
{
    let n: u64 = if k == 64 {
        1562
    } else if k > 200_000 {
        0
    } else {
        (200_000 + k as u64) / (2 * k as u64)
    };
    proof {
        if k > 200_000 {
            assert((200_000 + k) / (2 * k) == 0) by (nonlinear_arith)
                requires
                    k > 200_000,
            ;
        } else if k != 64 {
            assert((200_000 + k) / (2 * k) <= 50_001) by (nonlinear_arith)
                requires
                    2 <= k <= 200_000,
            ;
        }
        assert(n == share(k as nat));
    }
    let mut s = "0.".to_owned();
    text::push_fixed_decimal(&mut s, n, 5);
    s
}

/// The rule that sends traffic of a service to its backend number `i`: each
/// backend but the last takes its share of what is left, the last takes all.
pub open spec fn jump_rule(svc: Seq<char>, addresses: Seq<EndpointAddressView>, i: int) -> Seq<
    Seq<char>,
> {
    let to = sep_chain(svc, addresses[i]);
    if i < addresses.len() - 1 {
        seq![
            "-A"@,
            svc_chain(svc),
            "-m"@,
            "statistic"@,
            "--mode"@,
            "random"@,
            "--probability"@,
            probability_chars((addresses.len() - i) as nat),
            "-j"@,
            to,
        ]
    } else {
        seq!["-A"@, svc_chain(svc), "-j"@, to]
    }
}

/// The rules of one backend: its chain is made anew, marks packets for
/// masquerading and rewrites their destination; then the service's chain jumps
/// to it.
pub open spec fn backend_rules(svc: Seq<char>, addresses: Seq<EndpointAddressView>, i: int) -> Seq<
    Seq<Seq<char>>,
> {
    let chain = sep_chain(svc, addresses[i]);
    seq![
        seq!["-N"@, chain],
        seq!["-F"@, chain],
        seq!["-A"@, chain, "-j"@, KUBE_MARK_MASQ@],
        seq![
            "-A"@,
            chain,
            "-p"@,
            "tcp"@,
            "-j"@,
            "DNAT"@,
            "--to-destination"@,
            destination(addresses[i]),
        ],
        jump_rule(svc, addresses, i),
    ]
}

/// The rules of the first so many backends.
pub open spec fn backends_rules(
    svc: Seq<char>,
    addresses: Seq<EndpointAddressView>,
    count: nat,
) -> Seq<Seq<Seq<char>>>
    decreases count,
{
    if count == 0 {
        Seq::empty()
    } else {
        backends_rules(svc, addresses, (count - 1) as nat) + backend_rules(
            svc,
            addresses,
            count - 1,
        )
    }
}

/// The backends that are stored under a name: the first entry of that name.
pub open spec fn addresses_of(endpoints: Seq<EndpointsView>, name: Seq<char>) -> Seq<
    EndpointAddressView,
>
    decreases endpoints.len(),
{
    if endpoints.len() == 0 {
        Seq::empty()
    } else if endpoints[0].metadata.name == name {
        endpoints[0].addresses
    } else {
        addresses_of(endpoints.skip(1), name)
    }
}

/// The rules of one service. Without an address or without backends there are
/// none: traffic to it fails.
pub open spec fn service_rules(svc: ServiceView, endpoints: Seq<EndpointsView>) -> Seq<
    Seq<Seq<char>>,
> {
    let name = svc.metadata.name;
    let addresses = addresses_of(endpoints, name);
    match svc.spec.cluster_ip {
        None => Seq::empty(),
        Some(ip) => if addresses.len() == 0 {
            Seq::empty()
        } else {
            seq![seq!["-N"@, svc_chain(name)], seq!["-F"@, svc_chain(name)]] + backends_rules(
                name,
                addresses,
                addresses.len(),
            ) + seq![
                seq![
                    "-A"@,
                    KUBE_SERVICES@,
                    "-d"@,
                    ip,
                    "-p"@,
                    "tcp"@,
                    "--dport"@,
                    text::decimal_chars(svc.spec.port as nat),
                    "-j"@,
                    svc_chain(name),
                ],
            ]
        },
    }
}

pub open spec fn services_rules(services: Seq<ServiceView>, endpoints: Seq<EndpointsView>) -> Seq<
    Seq<Seq<char>>,
>
    decreases services.len(),
{
    if services.len() == 0 {
        Seq::empty()
    } else {
        services_rules(services.drop_last(), endpoints) + service_rules(
            services.last(),
            endpoints,
        )
    }
}

/// The whole ruleset: the top chain is flushed, then each service is
/// programmed.
pub open spec fn ruleset(services: Seq<ServiceView>, endpoints: Seq<EndpointsView>) -> Seq<
    Seq<Seq<char>>,
> {
    seq![seq!["-F"@, KUBE_SERVICES@]] + services_rules(services, endpoints)
}

fn push_rule(rules: &mut Vec<Vec<String>>, words: Vec<&str>)
    ensures
        final(rules).deep_view() == old(rules).deep_view().push(
            Seq::new(words@.len(), |i: int| words@[i]@),
        ),
{
    let ghost before = rules.deep_view();
    let ghost rule = Seq::new(words@.len(), |i: int| words@[i]@);
    rules.push(text::words(words));
    assert(rules.deep_view() =~= before.push(rule));
}

fn find_endpoints<'a>(endpoints: &'a Vec<Endpoints>, name: &str) -> (found: Option<&'a Endpoints>)
    ensures
        addresses_of(endpoints.deep_view(), name@) == (match found {
            Some(ep) => ep.deep_view().addresses,
            None => Seq::empty(),
        }),
{
    let ghost all = endpoints.deep_view();
    assert(all.skip(0) =~= all);
    for i in 0..endpoints.len()
        invariant
            all == endpoints.deep_view(),
            addresses_of(all, name@) == addresses_of(all.skip(i as int), name@),
    {
        assert(all.skip(i as int).skip(1) =~= all.skip(i + 1));
        assert(all.skip(i as int)[0] == endpoints@[i as int].deep_view());
        if text::same(endpoints[i].metadata.name.as_str(), name) {
            return Some(&endpoints[i]);
        }
    }
    None
}

fn push_backend(
    rules: &mut Vec<Vec<String>>,
    svc: &str,
    chain: &str,
    addresses: &Vec<EndpointAddress>,
    i: usize,
)
    requires
        i < addresses@.len(),
        chain@ == svc_chain(svc@),
    ensures
        final(rules).deep_view() == old(rules).deep_view() + backend_rules(
            svc@,
            addresses.deep_view(),
            i as int,
        ),
{
    let ghost before = rules.deep_view();
    let ep = &addresses[i];
    assert(addresses.deep_view()[i as int] == ep.deep_view());
    let own = sep_chain_name(svc, ep.ip.as_str(), ep.port);
    let sep = own.as_str();
    let to = destination_text(ep.ip.as_str(), ep.port);
    let ghost planned = backend_rules(svc@, addresses.deep_view(), i as int);
    push_rule(rules, vec!["-N", sep]);
    assert(rules.deep_view().last() =~= planned[0]);
    push_rule(rules, vec!["-F", sep]);
    assert(rules.deep_view().last() =~= planned[1]);
    push_rule(rules, vec!["-A", sep, "-j", KUBE_MARK_MASQ]);
    assert(rules.deep_view().last() =~= planned[2]);
    push_rule(rules, vec!["-A", sep, "-p", "tcp", "-j", "DNAT", "--to-destination", to.as_str()]);
    assert(rules.deep_view().last() =~= planned[3]);
    if i < addresses.len() - 1 {
        let p = probability(addresses.len() - i);
        push_rule(
            rules,
            vec![
                "-A",
                chain,
                "-m",
                "statistic",
                "--mode",
                "random",
                "--probability",
                p.as_str(),
                "-j",
                sep,
            ],
        );
    } else {
        push_rule(rules, vec!["-A", chain, "-j", sep]);
    }
    assert(rules.deep_view().last() =~= planned[4]);
    assert(rules.deep_view() =~= before + planned);
}

fn push_service(rules: &mut Vec<Vec<String>>, svc: &Service, endpoints: &Vec<Endpoints>)
    ensures
        final(rules).deep_view() == old(rules).deep_view() + service_rules(
            svc.deep_view(),
            endpoints.deep_view(),
        ),
{
    let ghost before = rules.deep_view();
    let ghost planned = service_rules(svc.deep_view(), endpoints.deep_view());
    let cluster_ip = match &svc.spec.cluster_ip {
        Some(ip) => ip.as_str(),
        None => {
            assert(before + planned =~= before);
            return;
        },
    };
    let name = svc.metadata.name.as_str();
    let ep = match find_endpoints(endpoints, name) {
        Some(ep) => ep,
        None => {
            assert(before + planned =~= before);
            return;
        },
    };
    if ep.addresses.len() == 0 {
        assert(before + planned =~= before);
        return;
    }
    let ghost addresses = ep.addresses.deep_view();
    let own = svc_chain_name(name);
    let chain = own.as_str();
    push_rule(rules, vec!["-N", chain]);
    assert(rules.deep_view().last() =~= seq!["-N"@, svc_chain(name@)]);
    push_rule(rules, vec!["-F", chain]);
    assert(rules.deep_view().last() =~= seq!["-F"@, svc_chain(name@)]);
    let ghost head = before + seq![seq!["-N"@, svc_chain(name@)], seq!["-F"@, svc_chain(name@)]];
    assert(rules.deep_view() =~= head);
    assert(head + backends_rules(name@, addresses, 0) =~= head);
    for i in 0..ep.addresses.len()
        invariant
            chain@ == svc_chain(name@),
            addresses == ep.addresses.deep_view(),
            rules.deep_view() == head + backends_rules(name@, addresses, i as nat),
    {
        push_backend(rules, name, chain, &ep.addresses, i);
        assert(rules.deep_view() =~= head + backends_rules(name@, addresses, (i + 1) as nat));
    }
    let port = text::decimal(svc.spec.port as u64);
    push_rule(
        rules,
        vec![
            "-A",
            KUBE_SERVICES,
            "-d",
            cluster_ip,
            "-p",
            "tcp",
            "--dport",
            port.as_str(),
            "-j",
            chain,
        ],
    );
    assert(rules.deep_view().last() =~= planned.last());
    assert(rules.deep_view() =~= before + planned);
}

/// Plans the whole ruleset, as argument lists.
pub fn plan_rules(services: &Vec<Service>, endpoints: &Vec<Endpoints>) -> (rules: Vec<Vec<String>>)
    ensures
        rules.deep_view() == ruleset(services.deep_view(), endpoints.deep_view()),
{
    let ghost all = services.deep_view();
    let mut rules: Vec<Vec<String>> = Vec::new();
    assert(rules.deep_view() =~= Seq::<Seq<Seq<char>>>::empty());
    push_rule(&mut rules, vec!["-F", KUBE_SERVICES]);
    let ghost flush = seq![seq!["-F"@, KUBE_SERVICES@]];
    assert(rules.deep_view().last() =~= seq!["-F"@, KUBE_SERVICES@]);
    assert(all.take(0) =~= Seq::<ServiceView>::empty());
    assert(rules.deep_view() =~= flush + services_rules(all.take(0), endpoints.deep_view()));
    for i in 0..services.len()
        invariant
            all == services.deep_view(),
            rules.deep_view() == flush + services_rules(
                all.take(i as int),
                endpoints.deep_view(),
            ),
    {
        proof {
            assert(all.take(i + 1).drop_last() =~= all.take(i as int));
            assert(all.take(i + 1).last() == services@[i as int].deep_view());
        }
        push_service(&mut rules, &services[i], endpoints);
        assert(rules.deep_view() =~= flush + services_rules(
            all.take(i + 1),
            endpoints.deep_view(),
        ));
    }
    assert(all.take(services@.len() as int) =~= all);
    rules
}

/// One step of the setup that the rules rest on.
#[derive(Debug, Clone, PartialEq)]
pub enum SetupStep {
    /// Run a command; that it fails with some words means that its work was
    /// done already.
    Tolerate { argv: Vec<String>, words: String },
    /// Run a command only where another one finds that its rule is missing.
    Ensure { check: Vec<String>, add: Vec<String> },
}

pub ghost enum SetupStepView {
    Tolerate { argv: Seq<Seq<char>>, words: Seq<char> },
    Ensure { check: Seq<Seq<char>>, add: Seq<Seq<char>> },
}

impl DeepView for SetupStep {
    type V = SetupStepView;

    open spec fn deep_view(&self) -> SetupStepView {
        match self {
            SetupStep::Tolerate { argv, words } => SetupStepView::Tolerate {
                argv: argv.deep_view(),
                words: words@,
            },
            SetupStep::Ensure { check, add } => SetupStepView::Ensure {
                check: check.deep_view(),
                add: add.deep_view(),
            },
        }
    }
}

/// A rule as a command on the address translation table.
pub open spec fn nat_command(rule: Seq<Seq<char>>) -> Seq<Seq<char>> {
    seq!["iptables"@, "-t"@, "nat"@] + rule
}

pub open spec fn jump_step(parent: Seq<char>) -> SetupStepView {
    SetupStepView::Ensure {
        check: nat_command(seq!["-C"@, parent, "-j"@, KUBE_SERVICES@]),
        add: nat_command(seq!["-A"@, parent, "-j"@, KUBE_SERVICES@]),
    }
}

pub open spec fn masquerade_rule(verb: Seq<char>) -> Seq<Seq<char>> {
    seq![
        verb,
        "POSTROUTING"@,
        "-m"@,
        "mark"@,
        "--mark"@,
        "0x4000/0x4000"@,
        "-j"@,
        "MASQUERADE"@,
    ]
}

/// The setup that the rules rest on: the chains they use, the mark that packets
/// get, the hooks by which packets reach the chains, and the masquerading of
/// marked packets.
pub open spec fn base_setup() -> Seq<SetupStepView> {
    seq![
        SetupStepView::Tolerate {
            argv: nat_command(seq!["-N"@, KUBE_SERVICES@]),
            words: "Chain already exists"@,
        },
        SetupStepView::Tolerate {
            argv: nat_command(seq!["-N"@, KUBE_MARK_MASQ@]),
            words: "Chain already exists"@,
        },
        SetupStepView::Tolerate {
            argv: nat_command(
                seq!["-A"@, KUBE_MARK_MASQ@, "-j"@, "MARK"@, "--set-xmark"@, "0x4000/0x4000"@],
            ),
            words: ""@,
        },
        jump_step("PREROUTING"@),
        jump_step("OUTPUT"@),
        SetupStepView::Ensure {
            check: nat_command(masquerade_rule("-C"@)),
            add: nat_command(masquerade_rule("-A"@)),
        },
    ]
}

/// A rule as a command on the address translation table.
pub fn nat_argv(rule: Vec<String>) -> (argv: Vec<String>)
    ensures
        argv.deep_view() == nat_command(rule.deep_view()),
{
    let mut argv = text::words(vec!["iptables", "-t", "nat"]);
    let ghost head = argv.deep_view();
    assert(head =~= seq!["iptables"@, "-t"@, "nat"@]);
    let mut rule = rule;
    let ghost tail = rule.deep_view();
    argv.append(&mut rule);
    assert(argv.deep_view() =~= head + tail);
    argv
}

fn ensure_jump(parent: &str) -> (step: SetupStep)
    ensures
        step.deep_view() == jump_step(parent@),
{
    let check = text::words(vec!["-C", parent, "-j", KUBE_SERVICES]);
    let add = text::words(vec!["-A", parent, "-j", KUBE_SERVICES]);
    assert(check.deep_view() =~= seq!["-C"@, parent@, "-j"@, KUBE_SERVICES@]);
    assert(add.deep_view() =~= seq!["-A"@, parent@, "-j"@, KUBE_SERVICES@]);
    SetupStep::Ensure { check: nat_argv(check), add: nat_argv(add) }
}

fn masquerade(verb: &str) -> (argv: Vec<String>)
    ensures
        argv.deep_view() == nat_command(masquerade_rule(verb@)),
{
    let rule = text::words(
        vec![verb, "POSTROUTING", "-m", "mark", "--mark", "0x4000/0x4000", "-j", "MASQUERADE"],
    );
    assert(rule.deep_view() =~= masquerade_rule(verb@));
    nat_argv(rule)
}

/// Plans the setup that the rules rest on.
pub fn ensure_base_chains() -> (steps: Vec<SetupStep>)
    ensures
        steps.deep_view() == base_setup(),
{
    let services = text::words(vec!["-N", KUBE_SERVICES]);
    assert(services.deep_view() =~= seq!["-N"@, KUBE_SERVICES@]);
    let mark_masq = text::words(vec!["-N", KUBE_MARK_MASQ]);
    assert(mark_masq.deep_view() =~= seq!["-N"@, KUBE_MARK_MASQ@]);
    let mark = text::words(
        vec!["-A", KUBE_MARK_MASQ, "-j", "MARK", "--set-xmark", "0x4000/0x4000"],
    );
    assert(mark.deep_view() =~= seq![
        "-A"@,
        KUBE_MARK_MASQ@,
        "-j"@,
        "MARK"@,
        "--set-xmark"@,
        "0x4000/0x4000"@,
    ]);
    let mut steps: Vec<SetupStep> = Vec::new();
    steps.push(
        SetupStep::Tolerate {
            argv: nat_argv(services),
            words: "Chain already exists".to_owned(),
        },
    );
    steps.push(
        SetupStep::Tolerate {
            argv: nat_argv(mark_masq),
            words: "Chain already exists".to_owned(),
        },
    );
    steps.push(SetupStep::Tolerate { argv: nat_argv(mark), words: "".to_owned() });
    steps.push(ensure_jump("PREROUTING"));
    steps.push(ensure_jump("OUTPUT"));
    steps.push(SetupStep::Ensure { check: masquerade("-C"), add: masquerade("-A") });
    assert(steps.deep_view() =~= base_setup());
    steps
}

/// Whether a rule makes a chain. That one exists already is no failure; any
/// other rule must succeed.
pub fn creates_chain(rule: &Vec<String>) -> (r: bool)
    ensures
        r == (rule.deep_view().len() > 0 && rule.deep_view()[0] == "-N"@),
{
    if rule.len() == 0 {
        return false;
    }
    assert(rule.deep_view()[0] == rule@[0]@);
    text::same(rule[0].as_str(), "-N")
}

/// Whether the complaint of a command that may fail is worth a warning: not
/// where nothing was expected, nor where it holds the expected words.
pub fn worth_a_warning(stderr: &str, expected: &str) -> (r: bool)
    ensures
        r == (expected@.len() > 0 && !text::holds(stderr@, expected@)),
{
    !expected.is_empty() && !text::contains(stderr, expected)
}

/// Law: chain names stay within the 28 characters that the packet filter
/// allows.
pub proof fn chain_names_fit(svc: Seq<char>, address: EndpointAddressView)
    ensures
        svc_chain(svc).len() == 25,
        sep_chain(svc, address).len() == 25,
{
    reveal_strlit("KUBE-SVC-");
    reveal_strlit("KUBE-SEP-");
    text::hex_chars_len(digest::hash_of(svc) as nat, 16, true);
    text::hex_chars_len(digest::hash_of(svc + "/"@ + destination(address)) as nat, 16, true);
}

pub open spec fn is_statistic(rule: Seq<Seq<char>>) -> bool {
    rule.len() > 3 && rule[3] == "statistic"@
}

/// Law: each backend has five rules and all but the last one's are entered by
/// chance, so a service with so many backends has one statistic rule less.
pub proof fn one_statistic_rule_less(svc: Seq<char>, addresses: Seq<EndpointAddressView>, count: nat)
    requires
        count <= addresses.len(),
    ensures
        backends_rules(svc, addresses, count).len() == 5 * count,
        backends_rules(svc, addresses, count).filter(
            |rule: Seq<Seq<char>>| is_statistic(rule),
        ).len() == if count == addresses.len() && count > 0 {
            (count - 1) as nat
        } else {
            count
        },
    decreases count,
{
    let pick = |rule: Seq<Seq<char>>| is_statistic(rule);
    reveal(Seq::filter);
    if count > 0 {
        let front = backends_rules(svc, addresses, (count - 1) as nat);
        let own = backend_rules(svc, addresses, count - 1);
        one_statistic_rule_less(svc, addresses, (count - 1) as nat);
        Seq::filter_distributes_over_add(front, own, pick);
        chain_names_fit(svc, addresses[count - 1]);
        words_differ(sep_chain(svc, addresses[count - 1]));
        reveal_with_fuel(Seq::filter, 6);
        assert(own.drop_last().drop_last().drop_last().drop_last().drop_last() =~= Seq::empty());
        assert(own.drop_last().drop_last().drop_last().drop_last() =~= seq![own[0]]);
        assert(own.drop_last().drop_last().drop_last() =~= seq![own[0], own[1]]);
        assert(own.drop_last().drop_last() =~= seq![own[0], own[1], own[2]]);
        assert(own.drop_last() =~= seq![own[0], own[1], own[2], own[3]]);
        assert(!pick(own[0]) && !pick(own[1]) && !pick(own[2]) && !pick(own[3]));
        assert(pick(own[4]) == (count - 1 < addresses.len() - 1));
    }
}

proof fn words_differ(chain: Seq<char>)
    requires
        chain.len() == 25,
    ensures
        chain != "statistic"@,
        KUBE_MARK_MASQ@ != "statistic"@,
        "tcp"@ != "statistic"@,
{
    reveal_strlit("statistic");
    reveal_strlit("tcp");
    reveal_strlit("KUBE-MARK-MASQ");
    assert("statistic"@.len() == 9);
    assert("tcp"@.len() == 3);
    assert(KUBE_MARK_MASQ@.len() == 14);
}

/// The first entry of a name is at a place.
pub open spec fn first_named(endpoints: Seq<EndpointsView>, name: Seq<char>, k: int) -> bool {
    &&& 0 <= k < endpoints.len()
    &&& endpoints[k].metadata.name == name
    &&& forall|j: int| 0 <= j < k ==> (#[trigger] endpoints[j]).metadata.name != name
}

/// Law: the backends of a service are those of the first entry of its name, and
/// there are none where no entry has its name.
pub proof fn backends_go_by_name(endpoints: Seq<EndpointsView>, name: Seq<char>, k: int)
    ensures
        first_named(endpoints, name, k) ==> addresses_of(endpoints, name)
            == endpoints[k].addresses,
        (forall|j: int|
            0 <= j < endpoints.len() ==> (#[trigger] endpoints[j]).metadata.name != name)
            ==> addresses_of(endpoints, name).len() == 0,
    decreases endpoints.len(),
{
    if endpoints.len() > 0 {
        let rest = endpoints.skip(1);
        backends_go_by_name(rest, name, k - 1);
        if first_named(endpoints, name, k) && k > 0 {
            assert(endpoints[0].metadata.name != name);
            assert(rest[k - 1] == endpoints[k]);
            assert forall|j: int| 0 <= j < k - 1 implies (
            #[trigger] rest[j]).metadata.name != name by {
                assert(rest[j] == endpoints[j + 1]);
            }
            assert(first_named(rest, name, k - 1));
        }
        if forall|j: int|
            0 <= j < endpoints.len() ==> (#[trigger] endpoints[j]).metadata.name != name {
            assert(endpoints[0].metadata.name != name);
            assert forall|j: int| 0 <= j < rest.len() implies (
            #[trigger] rest[j]).metadata.name != name by {
                assert(rest[j] == endpoints[j + 1]);
            }
        }
    }
}

/// Law: chains are told apart as far as their hashes are. A service's chain is
/// named by the service alone, a backend's by the service, the address and the port.
pub proof fn chains_go_by_hash(
    a: Seq<char>,
    b: Seq<char>,
    x: EndpointAddressView,
    y: EndpointAddressView,
)
    ensures
        svc_chain(a) == svc_chain(b) ==> digest::hash_of(a) == digest::hash_of(b),
        sep_chain(a, x) == sep_chain(b, y) ==> digest::hash_of(
            a + "/"@ + x.ip + ":"@ + text::decimal_chars(x.port as nat),
        ) == digest::hash_of(b + "/"@ + y.ip + ":"@ + text::decimal_chars(y.port as nat)),
        svc_chain(a) != sep_chain(b, y),
        svc_chain(a).take(9) == "KUBE-SVC-"@,
        sep_chain(a, x).take(9) == "KUBE-SEP-"@,
{
    let p = a + "/"@ + x.ip + ":"@ + text::decimal_chars(x.port as nat);
    let q = b + "/"@ + y.ip + ":"@ + text::decimal_chars(y.port as nat);
    assert(p =~= a + "/"@ + destination(x));
    assert(q =~= b + "/"@ + destination(y));
    reveal_strlit("KUBE-SVC-");
    reveal_strlit("KUBE-SEP-");
    assert(svc_chain(a).take(9) =~= "KUBE-SVC-"@);
    assert(sep_chain(a, x).take(9) =~= "KUBE-SEP-"@);
    assert(svc_chain(a)[6] == 'V');
    assert(sep_chain(b, y)[6] == 'E');
    if svc_chain(a) == svc_chain(b) {
        assert(svc_chain(a).skip(9) =~= text::hex_chars(digest::hash_of(a) as nat, 16, true));
        assert(svc_chain(b).skip(9) =~= text::hex_chars(digest::hash_of(b) as nat, 16, true));
        sixteen_digits_hold_64_bits(digest::hash_of(a), digest::hash_of(b));
    }
    if sep_chain(a, x) == sep_chain(b, y) {
        assert(sep_chain(a, x).skip(9) =~= text::hex_chars(digest::hash_of(p) as nat, 16, true));
        assert(sep_chain(b, y).skip(9) =~= text::hex_chars(digest::hash_of(q) as nat, 16, true));
        sixteen_digits_hold_64_bits(digest::hash_of(p), digest::hash_of(q));
    }
}

proof fn sixteen_digits_hold_64_bits(a: u64, b: u64)
    requires
        text::hex_chars(a as nat, 16, true) == text::hex_chars(b as nat, 16, true),
    ensures
        a == b,
{
    text::hex_tells_numbers_apart(a as nat, b as nat, 16, true);
    let two = vstd::arithmetic::power::pow(16, 2);
    let four = vstd::arithmetic::power::pow(16, 4);
    let eight = vstd::arithmetic::power::pow(16, 8);
    let sixteen = vstd::arithmetic::power::pow(16, 16);
    vstd::arithmetic::power::lemma_pow1(16);
    vstd::arithmetic::power::lemma_pow_adds(16, 1, 1);
    vstd::arithmetic::power::lemma_pow_adds(16, 2, 2);
    vstd::arithmetic::power::lemma_pow_adds(16, 4, 4);
    vstd::arithmetic::power::lemma_pow_adds(16, 8, 8);
    assert(sixteen == 0x1_0000_0000_0000_0000) by (nonlinear_arith)
        requires
            two == 256,
            four == two * two,
            eight == four * four,
            sixteen == eight * eight,
    ;
    vstd::arithmetic::div_mod::lemma_small_mod(a as nat, sixteen as nat);
    vstd::arithmetic::div_mod::lemma_small_mod(b as nat, sixteen as nat);
}

/// The place at which the rules of a backend begin.
proof fn backend_rules_have_places(
    svc: Seq<char>,
    addresses: Seq<EndpointAddressView>,
    count: nat,
    b: int,
)
    requires
        0 <= b < count <= addresses.len(),
    ensures
        backends_rules(svc, addresses, count).len() == 5 * count,
        backends_rules(svc, addresses, count).subrange(5 * b, 5 * b + 5) == backend_rules(
            svc,
            addresses,
            b,
        ),
    decreases count,
{
    let all = backends_rules(svc, addresses, count);
    let front = backends_rules(svc, addresses, (count - 1) as nat);
    one_statistic_rule_less(svc, addresses, (count - 1) as nat);
    if b < count - 1 {
        backend_rules_have_places(svc, addresses, (count - 1) as nat, b);
        assert(all.subrange(5 * b, 5 * b + 5) =~= front.subrange(5 * b, 5 * b + 5));
    } else {
        assert(all.subrange(5 * b, 5 * b + 5) =~= backend_rules(svc, addresses, b));
    }
}

/// What the packet filter is told of one service, from a place in the rules on: its
/// chain is made and emptied; then, for each backend in turn, a chain is made and
/// emptied that marks packets and sends them to the backend, and the service's chain
/// jumps there, by chance for all backends but the last; at the end, traffic to the
/// service's address and port is sent to its chain.
pub open spec fn tells_of(
    rules: Seq<Seq<Seq<char>>>,
    at: int,
    name: Seq<char>,
    ip: Seq<char>,
    port: u16,
    addresses: Seq<EndpointAddressView>,
) -> bool {
    let n = addresses.len() as int;
    &&& 0 <= at
    &&& at + 5 * n + 3 <= rules.len()
    &&& rules[at] == seq!["-N"@, svc_chain(name)]
    &&& rules[at + 1] == seq!["-F"@, svc_chain(name)]
    &&& forall|b: int|
        0 <= b < n ==> {
            let to = #[trigger] addresses[b];
            let chain = sep_chain(name, to);
            let from = at + 2 + 5 * b;
            &&& rules[from] == seq!["-N"@, chain]
            &&& rules[from + 1] == seq!["-F"@, chain]
            &&& rules[from + 2] == seq!["-A"@, chain, "-j"@, "KUBE-MARK-MASQ"@]
            &&& rules[from + 3] == seq![
                "-A"@,
                chain,
                "-p"@,
                "tcp"@,
                "-j"@,
                "DNAT"@,
                "--to-destination"@,
                to.ip + ":"@ + text::decimal_chars(to.port as nat),
            ]
            &&& rules[from + 4][0] == "-A"@
            &&& rules[from + 4][1] == svc_chain(name)
            &&& b == n - 1 ==> rules[from + 4] == seq!["-A"@, svc_chain(name), "-j"@, chain]
            &&& b < n - 1 ==> rules[from + 4] == seq![
                "-A"@,
                svc_chain(name),
                "-m"@,
                "statistic"@,
                "--mode"@,
                "random"@,
                "--probability"@,
                probability_chars((n - b) as nat),
                "-j"@,
                chain,
            ]
        }
    &&& rules[at + 2 + 5 * n] == seq![
        "-A"@,
        "KUBE-SERVICES"@,
        "-d"@,
        ip,
        "-p"@,
        "tcp"@,
        "--dport"@,
        text::decimal_chars(port as nat),
        "-j"@,
        svc_chain(name),
    ]
}

proof fn service_rules_tell(
    svc: ServiceView,
    endpoints: Seq<EndpointsView>,
    rules: Seq<Seq<Seq<char>>>,
    at: int,
)
    requires
        svc.spec.cluster_ip is Some,
        addresses_of(endpoints, svc.metadata.name).len() > 0,
        0 <= at,
        at + service_rules(svc, endpoints).len() <= rules.len(),
        rules.subrange(at, at + service_rules(svc, endpoints).len()) == service_rules(
            svc,
            endpoints,
        ),
    ensures
        service_rules(svc, endpoints).len() == 3 + 5 * addresses_of(
            endpoints,
            svc.metadata.name,
        ).len(),
        tells_of(
            rules,
            at,
            svc.metadata.name,
            svc.spec.cluster_ip->0,
            svc.spec.port,
            addresses_of(endpoints, svc.metadata.name),
        ),
{
    let name = svc.metadata.name;
    let addresses = addresses_of(endpoints, name);
    let n = addresses.len() as int;
    let own = service_rules(svc, endpoints);
    let middle = backends_rules(name, addresses, addresses.len());
    one_statistic_rule_less(name, addresses, addresses.len());
    let piece = rules.subrange(at, at + own.len());
    assert(own.len() == 3 + 5 * n);
    assert forall|k: int| 0 <= k < own.len() implies rules[at + k] == #[trigger] own[k] by {
        assert(piece[k] == rules[at + k]);
    }
    assert(rules[at + 0] == own[0]);
    assert(rules[at + 1] == own[1]);
    assert(rules[at + (2 + 5 * n)] == own[2 + 5 * n]);
    assert forall|b: int| 0 <= b < n implies {
        let to = #[trigger] addresses[b];
        let chain = sep_chain(name, to);
        let from = at + 2 + 5 * b;
        let planned = backend_rules(name, addresses, b);
        &&& rules[from] == planned[0]
        &&& rules[from + 1] == planned[1]
        &&& rules[from + 2] == planned[2]
        &&& rules[from + 3] == planned[3]
        &&& rules[from + 4] == planned[4]
    } by {
        backend_rules_have_places(name, addresses, addresses.len(), b);
        let planned = backend_rules(name, addresses, b);
        let part = middle.subrange(5 * b, 5 * b + 5);
        assert forall|j: int| 0 <= j < 5 implies rules[at + 2 + 5 * b + j]
            == #[trigger] planned[j] by {
            assert(part[j] == middle[5 * b + j]);
            assert(own[2 + 5 * b + j] == middle[5 * b + j]);
            assert(rules[at + (2 + 5 * b + j)] == own[2 + 5 * b + j]);
        }
        assert(rules[at + 2 + 5 * b + 0] == planned[0]);
        assert(rules[at + 2 + 5 * b + 1] == planned[1]);
        assert(rules[at + 2 + 5 * b + 2] == planned[2]);
        assert(rules[at + 2 + 5 * b + 3] == planned[3]);
        assert(rules[at + 2 + 5 * b + 4] == planned[4]);
    }
}

/// Law: the rules empty the top chain and then tell of one service after the other.
/// One more service adds its rules behind those of the others, and nothing else; one
/// without an address or without backends adds none.
pub proof fn each_service_adds_its_rules(
    services: Seq<ServiceView>,
    more: ServiceView,
    endpoints: Seq<EndpointsView>,
)
    ensures
        ruleset(Seq::empty(), endpoints) == seq![seq!["-F"@, "KUBE-SERVICES"@]],
        ({
            let before = ruleset(services, endpoints);
            let after = ruleset(services.push(more), endpoints);
            let addresses = addresses_of(endpoints, more.metadata.name);
            &&& before.is_prefix_of(after)
            &&& if more.spec.cluster_ip is None || addresses.len() == 0 {
                after == before
            } else {
                &&& after.len() == before.len() + 3 + 5 * addresses.len()
                &&& tells_of(
                    after,
                    before.len() as int,
                    more.metadata.name,
                    more.spec.cluster_ip->0,
                    more.spec.port,
                    addresses,
                )
            }
        }),
{
    let before = ruleset(services, endpoints);
    let after = ruleset(services.push(more), endpoints);
    let own = service_rules(more, endpoints);
    assert(services.push(more).drop_last() =~= services);
    assert(after =~= before + own);
    assert(after.subrange(0, before.len() as int) =~= before);
    assert(ruleset(Seq::empty(), endpoints) =~= seq![seq!["-F"@, "KUBE-SERVICES"@]]);
    if more.spec.cluster_ip is None || addresses_of(endpoints, more.metadata.name).len() == 0 {
        assert(after =~= before);
    } else {
        let at = before.len() as int;
        assert(after.subrange(at, at + own.len()) =~= own);
        service_rules_tell(more, endpoints, after, at);
    }
}

/// Law: every service with an address and a backend is programmed, wherever it
/// stands in the list: the rules tell of it, with each of its backends.
pub proof fn every_service_is_programmed(
    services: Seq<ServiceView>,
    endpoints: Seq<EndpointsView>,
    i: int,
    k: int,
) -> (at: int)
    requires
        0 <= i < services.len(),
        services[i].spec.cluster_ip is Some,
        first_named(endpoints, services[i].metadata.name, k),
        endpoints[k].addresses.len() > 0,
    ensures
        1 <= at,
        tells_of(
            ruleset(services, endpoints),
            at,
            services[i].metadata.name,
            services[i].spec.cluster_ip->0,
            services[i].spec.port,
            endpoints[k].addresses,
        ),
    decreases services.len(),
{
    let front = services.drop_last();
    let last = services.last();
    let name = services[i].metadata.name;
    let addresses = endpoints[k].addresses;
    assert(front.push(last) =~= services);
    each_service_adds_its_rules(front, last, endpoints);
    backends_go_by_name(endpoints, name, k);
    let before = ruleset(front, endpoints);
    let after = ruleset(services, endpoints);
    if i == services.len() - 1 {
        before.len() as int
    } else {
        assert(front[i] == services[i]);
        let at = every_service_is_programmed(front, endpoints, i, k);
        assert forall|j: int| 0 <= j < before.len() implies #[trigger] after[j] == before[j] by {
            assert(after.subrange(0, before.len() as int)[j] == after[j]);
        }
        at
    }
}

/// Law: a share is one part in so many, in hundred-thousandths, off by at most half
/// of one; it is written with five places behind the point.
pub proof fn shares_are_even(k: nat)
    requires
        k >= 2,
    ensures
        -(k as int) <= 2 * k * share(k) - 200_000 <= k,
        share(k) < 100_000,
        probability_chars(k).len() == 7,
        probability_chars(k)[0] == '0',
        probability_chars(k)[1] == '.',
        forall|i: int|
            0 <= i < 5 ==> #[trigger] probability_chars(k)[2 + i] as int == '0' as int + (share(
                k,
            ) as int / vstd::arithmetic::power::pow(10, (4 - i) as nat)) % 10,
{
    let q = share(k) as int;
    let m = k as int;
    if k != 64 {
        assert(200_000 + m - 2 * m < 2 * m * q <= 200_000 + m) by (nonlinear_arith)
            requires
                m >= 2,
                q == (200_000 + m) / (2 * m),
        ;
        assert(q < 100_000) by (nonlinear_arith)
            requires
                m >= 2,
                2 * m * q <= 200_000 + m,
        ;
        assert(2 * k * share(k) == 2 * m * q);
    }
    reveal_strlit("0.");
    assert forall|i: int| 0 <= i < 5 implies #[trigger] probability_chars(k)[2 + i] as int
        == '0' as int + (q / vstd::arithmetic::power::pow(10, (4 - i) as nat)) % 10 by {
        text::fixed_digits_have_places(share(k), 5, i);
        assert(probability_chars(k)[2 + i] == text::fixed_decimal(share(k), 5)[i]);
    }
    text::fixed_digits_have_places(share(k), 5, 0);
}

/// Law: the planned rules tell of every service that has an address and backends
/// under its name, wherever it stands in the list, and of each of its backends.
pub proof fn planned_rules_program_every_service(
    services: Vec<Service>,
    endpoints: Vec<Endpoints>,
    rules: Vec<Vec<String>>,
    i: int,
    k: int,
) -> (at: int)
    requires
        call_ensures(plan_rules, (&services, &endpoints), rules),
        0 <= i < services@.len(),
        services@[i].spec.cluster_ip is Some,
        first_named(endpoints.deep_view(), services@[i].metadata.name@, k),
        endpoints@[k].addresses@.len() > 0,
    ensures
        1 <= at,
        tells_of(
            rules.deep_view(),
            at,
            services@[i].metadata.name@,
            services@[i].spec.cluster_ip->0@,
            services@[i].spec.port,
            endpoints@[k].addresses.deep_view(),
        ),
{
    assert(services.deep_view()[i] == services@[i].deep_view());
    assert(endpoints.deep_view()[k] == endpoints@[k].deep_view());
    every_service_is_programmed(services.deep_view(), endpoints.deep_view(), i, k)
}


/// Law: the setup makes the two chains and the mark, hooks the first chain into
/// the way of packets that come in and that go out, and rewrites the source of
/// marked packets. A rule that is checked for is the one that is then added.
pub proof fn rules_rest_on_the_setup(steps: Vec<SetupStep>)
    requires
        call_ensures(ensure_base_chains, (), steps),
    ensures
        ({
            let s = steps.deep_view();
            let table = seq!["iptables"@, "-t"@, "nat"@];
            let masked = seq![
                "POSTROUTING"@, "-m"@, "mark"@, "--mark"@, "0x4000/0x4000"@, "-j"@, "MASQUERADE"@,
            ];
            &&& steps@.len() == 6
            &&& s[0] == (SetupStepView::Tolerate {
                argv: table + seq!["-N"@, "KUBE-SERVICES"@],
                words: "Chain already exists"@,
            })
            &&& s[1] == (SetupStepView::Tolerate {
                argv: table + seq!["-N"@, "KUBE-MARK-MASQ"@],
                words: "Chain already exists"@,
            })
            &&& s[2] == (SetupStepView::Tolerate {
                argv: table + seq![
                    "-A"@, "KUBE-MARK-MASQ"@, "-j"@, "MARK"@, "--set-xmark"@, "0x4000/0x4000"@,
                ],
                words: ""@,
            })
            &&& s[3] == (SetupStepView::Ensure {
                check: table + seq!["-C"@, "PREROUTING"@, "-j"@, "KUBE-SERVICES"@],
                add: table + seq!["-A"@, "PREROUTING"@, "-j"@, "KUBE-SERVICES"@],
            })
            &&& s[4] == (SetupStepView::Ensure {
                check: table + seq!["-C"@, "OUTPUT"@, "-j"@, "KUBE-SERVICES"@],
                add: table + seq!["-A"@, "OUTPUT"@, "-j"@, "KUBE-SERVICES"@],
            })
            &&& s[5] == (SetupStepView::Ensure {
                check: table + (seq!["-C"@] + masked),
                add: table + (seq!["-A"@] + masked),
            })
        }),
{
    let masked = seq![
        "POSTROUTING"@, "-m"@, "mark"@, "--mark"@, "0x4000/0x4000"@, "-j"@, "MASQUERADE"@,
    ];
    assert(steps.deep_view() == base_setup());
    assert(base_setup().len() == 6);
    assert(steps.deep_view().len() == steps@.len());
    assert(masquerade_rule("-C"@) =~= seq!["-C"@] + masked);
    assert(masquerade_rule("-A"@) =~= seq!["-A"@] + masked);
}

/// Law: a rule makes a chain exactly where it starts with `-N`; a complaint is
/// worth a warning exactly where another one was expected.
pub proof fn only_expected_complaints_pass(
    rule: &Vec<String>,
    makes: bool,
    stderr: &str,
    expected: &str,
    warns: bool,
)
    requires
        call_ensures(creates_chain, (rule,), makes),
        call_ensures(worth_a_warning, (stderr, expected), warns),
    ensures
        makes <==> rule@.len() > 0 && rule@[0]@ == "-N"@,
        expected@.len() == 0 ==> !warns,
        expected@.len() > 0 ==> (warns <==> !text::holds(stderr@, expected@)),
{
    assert(rule.deep_view().len() == rule@.len());
    if rule@.len() > 0 {
        assert(rule.deep_view()[0] == rule@[0]@);
    }
}

} // verus!
