//! The collector: which endpoints a collection round visits, what is asked of each, and how
//! the answers are gathered. The visits themselves are made by the caller.

use vstd::prelude::*;
use vstd::string::*;
use vstd::seq_lib::*;
use crate::snapshot::Timestamp;

verus! {

/// An endpoint that a collection round visits.
pub struct HostPort {
    pub host: String,
    pub port: String,
}

/// The text `host:port` by which an endpoint is named in the collected records.
pub open spec fn host_port_text(host: Seq<char>, port: Seq<char>) -> Seq<char> {
    host + seq![':'] + port
}

/// The address `http://host:port/path` at which an endpoint answers.
pub open spec fn endpoint_text(host: Seq<char>, port: Seq<char>, path: Seq<char>) -> Seq<char> {
    seq!['h', 't', 't', 'p', ':', '/', '/'] + host + seq![':'] + port + seq!['/'] + path
}

/// Writes `host:port`.
pub fn hostname_port(host: &str, port: &str) -> (text: String)
    ensures
        text@ == host_port_text(host@, port@),
{
    proof {
        reveal_strlit(":");
    }
    let mut text = String::from_str(host);
    text.append(":");
    text.append(port);
    assert(text@ =~= host_port_text(host@, port@));
    text
}

/// Writes `http://host:port/path`.
pub fn endpoint_url(host: &str, port: &str, path: &str) -> (url: String)
    ensures
        url@ == endpoint_text(host@, port@, path@),
{
    proof {
        reveal_strlit("http://");
        reveal_strlit(":");
        reveal_strlit("/");
    }
    let mut url = String::from_str("http://");
    url.append(host);
    url.append(":");
    url.append(port);
    url.append("/");
    url.append(path);
    assert(url@ =~= endpoint_text(host@, port@, path@));
    url
}

impl HostPort {
    /// Writes the endpoint as `host:port`.
    pub fn hostname_port(&self) -> (text: String)
        ensures
            text@ == host_port_text(self.host@, self.port@),
    {
        hostname_port(self.host.as_str(), self.port.as_str())
    }
}

/// The endpoints of one host: the host with every port, in the order of the ports.
pub open spec fn host_tasks(host: String, ports: Seq<String>) -> Seq<HostPort> {
    Seq::new(ports.len(), |j: int| HostPort { host, port: ports[j] })
}

/// The endpoints of a round: every host with every port, host by host.
pub open spec fn all_tasks(hosts: Seq<String>, ports: Seq<String>) -> Seq<HostPort>
    decreases hosts.len(),
{
    if hosts.len() == 0 {
        Seq::empty()
    } else {
        all_tasks(hosts.drop_last(), ports) + host_tasks(hosts.last(), ports)
    }
}

/// Lists the endpoints that a collection round visits: every host with every port. The same
/// hosts may answer in several roles, each on a port of its own.
pub fn task_list(hosts: &Vec<String>, ports: &Vec<String>) -> (tasks: Vec<HostPort>)
    ensures
        tasks@ == all_tasks(hosts@, ports@),
{
    let mut tasks: Vec<HostPort> = Vec::new();
    let mut i: usize = 0;
    while i < hosts.len()
        invariant
            i <= hosts@.len(),
            tasks@ == all_tasks(hosts@.take(i as int), ports@),
        decreases hosts@.len() - i,
    {
        let ghost done = tasks@;
        let mut j: usize = 0;
        while j < ports.len()
            invariant
                i < hosts@.len(),
                j <= ports@.len(),
                tasks@ == done + host_tasks(hosts@[i as int], ports@.take(j as int)),
            decreases ports@.len() - j,
        {
            tasks.push(HostPort { host: hosts[i].clone(), port: ports[j].clone() });
            assert(tasks@ =~= done + host_tasks(hosts@[i as int], ports@.take(j + 1)));
            j += 1;
        }
        proof {
            assert(ports@.take(ports@.len() as int) =~= ports@);
            assert(hosts@.take(i + 1).drop_last() =~= hosts@.take(i as int));
        }
        i += 1;
    }
    assert(hosts@.take(hosts@.len() as int) =~= hosts@);
    tasks
}

/// A round visits as many endpoints as there are hosts times ports.
pub proof fn law_task_count(hosts: Seq<String>, ports: Seq<String>)
    ensures
        all_tasks(hosts, ports).len() == hosts.len() * ports.len(),
    decreases hosts.len(),
{
    if hosts.len() > 0 {
        law_task_count(hosts.drop_last(), ports);
        assert((hosts.len() - 1) * ports.len() + ports.len() == hosts.len() * ports.len())
            by (nonlinear_arith);
    } else {
        assert(0 * ports.len() == 0) by (nonlinear_arith);
    }
}

/// A round visits every host on every port, and nothing else.
pub proof fn law_tasks_are_the_pairs(hosts: Seq<String>, ports: Seq<String>)
    ensures
        forall|i: int, j: int|
            #![trigger hosts[i], ports[j]]
            0 <= i < hosts.len() && 0 <= j < ports.len() ==> all_tasks(hosts, ports).contains(
                HostPort { host: hosts[i], port: ports[j] },
            ),
        forall|k: int|
            0 <= k < all_tasks(hosts, ports).len() ==> hosts.contains(
                (#[trigger] all_tasks(hosts, ports)[k]).host,
            ) && ports.contains(all_tasks(hosts, ports)[k].port),
    decreases hosts.len(),
{
    if hosts.len() > 0 {
        let front = hosts.drop_last();
        let before = all_tasks(front, ports);
        let row = host_tasks(hosts.last(), ports);
        let all = all_tasks(hosts, ports);
        law_tasks_are_the_pairs(front, ports);
        assert forall|i: int, j: int|
            #![trigger hosts[i], ports[j]]
            0 <= i < hosts.len() && 0 <= j < ports.len() implies all.contains(
            HostPort { host: hosts[i], port: ports[j] },
        ) by {
            let t = HostPort { host: hosts[i], port: ports[j] };
            if i < front.len() {
                assert(front[i] == hosts[i]);
                assert(before.contains(t));
                let k = choose|k: int| 0 <= k < before.len() && before[k] == t;
                assert(all[k] == t);
            } else {
                assert(row[j] == t);
                assert(all[before.len() + j] == t);
            }
        }
        assert forall|k: int| 0 <= k < all.len() implies hosts.contains((#[trigger] all[k]).host)
            && ports.contains(all[k].port) by {
            if k < before.len() {
                assert(all[k] == before[k]);
                let h = choose|h: int| 0 <= h < front.len() && front[h] == before[k].host;
                assert(hosts[h] == all[k].host);
            } else {
                let j = k - before.len();
                assert(all[k] == row[j]);
                assert(hosts[hosts.len() - 1] == all[k].host);
                assert(ports[j] == all[k].port);
            }
        }
    }
}

/// What is to be done with an endpoint once it has been probed.
pub enum TaskAction {
    /// The endpoint accepts connections: ask it at this address.
    Fetch { url: String },
    /// The endpoint is out of reach: it yields nothing, and the round goes on.
    Skip,
}

/// Decides what to do with an endpoint after the probe: an endpoint within reach is asked at
/// `path`, one out of reach is passed over.
pub fn plan_task(task: &HostPort, path: &str, reachable: bool) -> (action: TaskAction)
    ensures
        reachable ==> (action matches TaskAction::Fetch { url } && url@ == endpoint_text(
            task.host@,
            task.port@,
            path@,
        )),
        !reachable ==> action is Skip,
{
    if reachable {
        TaskAction::Fetch { url: endpoint_url(task.host.as_str(), task.port.as_str(), path) }
    } else {
        TaskAction::Skip
    }
}

/// How the visit to one endpoint ended.
pub enum Outcome<P> {
    /// The endpoint did not accept a connection.
    Unreachable,
    /// The endpoint answered, but the request failed or its answer could not be read.
    Failed,
    /// The endpoint answered with this payload.
    Parsed(P),
}

/// The visit to one endpoint: where, when, and how it ended.
pub struct TaskOutcome<P> {
    pub task: HostPort,
    /// The time just before the endpoint was asked.
    pub timestamp: Timestamp,
    pub outcome: Outcome<P>,
}

/// What one endpoint contributed to a round.
pub struct Collected<P> {
    pub hostname_port: String,
    pub timestamp: Timestamp,
    pub payload: P,
}

/// The model of a `Collected`: the endpoint's name as text.
pub ghost struct CollectedView<P> {
    pub hostname_port: Seq<char>,
    pub timestamp: Timestamp,
    pub payload: P,
}

impl<P> View for Collected<P> {
    type V = CollectedView<P>;

    open spec fn view(&self) -> CollectedView<P> {
        CollectedView {
            hostname_port: self.hostname_port@,
            timestamp: self.timestamp,
            payload: self.payload,
        }
    }
}

/// The contribution of one visit: its payload under the endpoint's name, if it has one.
pub open spec fn contribution<P>(visit: TaskOutcome<P>) -> Seq<CollectedView<P>> {
    match visit.outcome {
        Outcome::Parsed(payload) => seq![
            CollectedView {
                hostname_port: host_port_text(visit.task.host@, visit.task.port@),
                timestamp: visit.timestamp,
                payload,
            },
        ],
        _ => Seq::empty(),
    }
}

/// The contributions of a round's visits, in the order of the visits.
pub open spec fn gathered<P>(visits: Seq<TaskOutcome<P>>) -> Seq<CollectedView<P>>
    decreases visits.len(),
{
    if visits.len() == 0 {
        Seq::empty()
    } else {
        gathered(visits.drop_last()) + contribution(visits.last())
    }
}

/// The number of visits that ended with a payload.
pub open spec fn parsed_count<P>(visits: Seq<TaskOutcome<P>>) -> nat
    decreases visits.len(),
{
    if visits.len() == 0 {
        0
    } else {
        parsed_count(visits.drop_last()) + if visits.last().outcome is Parsed {
            1nat
        } else {
            0nat
        }
    }
}

/// The number of visits that found the endpoint out of reach.
pub open spec fn unreachable_count<P>(visits: Seq<TaskOutcome<P>>) -> nat
    decreases visits.len(),
{
    if visits.len() == 0 {
        0
    } else {
        unreachable_count(visits.drop_last()) + if visits.last().outcome is Unreachable {
            1nat
        } else {
            0nat
        }
    }
}

/// The number of visits whose request failed or whose answer could not be read.
pub open spec fn failed_count<P>(visits: Seq<TaskOutcome<P>>) -> nat
    decreases visits.len(),
{
    if visits.len() == 0 {
        0
    } else {
        failed_count(visits.drop_last()) + if visits.last().outcome is Failed {
            1nat
        } else {
            0nat
        }
    }
}

/// The models of a sequence of contributions.
pub open spec fn views<P>(collected: Seq<Collected<P>>) -> Seq<CollectedView<P>> {
    collected.map_values(|c: Collected<P>| c@)
}

/// Gathers the results of a round: the payload of every visit that has one, under the name
/// of its endpoint and with the time of the visit. A visit that found its endpoint out of
/// reach, or that failed, contributes nothing and stops nothing.
pub fn gather<P>(visits: Vec<TaskOutcome<P>>) -> (collected: Vec<Collected<P>>)
    ensures
        views(collected@) == gathered(visits@),
{
    let ghost all = visits@;
    let mut collected: Vec<Collected<P>> = Vec::new();
    for visit in it: visits
        invariant
            it.seq() == all,
            views(collected@) == gathered(all.take(it.index() as int)),
    {
        proof {
            let n = it.index() as int;
            assert(all.take(n + 1).drop_last() =~= all.take(n));
        }
        let ghost before = collected@;
        match visit.outcome {
            Outcome::Parsed(payload) => {
                let hostname_port = visit.task.hostname_port();
                collected.push(Collected { hostname_port, timestamp: visit.timestamp, payload });
                assert(views(collected@) =~= views(before) + contribution(visit));
            },
            _ => {
                assert(views(collected@) =~= views(before) + contribution(visit));
            },
        }
    }
    assert(all.take(all.len() as int) =~= all);
    collected
}

/// A round yields one contribution for each visit that ended with a payload: as many as
/// there were visits, less those that found the endpoint out of reach and those that failed.
pub proof fn law_gathered_count<P>(visits: Seq<TaskOutcome<P>>)
    ensures
        gathered(visits).len() == parsed_count(visits),
        parsed_count(visits) + unreachable_count(visits) + failed_count(visits) == visits.len(),
    decreases visits.len(),
{
    if visits.len() > 0 {
        law_gathered_count(visits.drop_last());
    }
}

/// The rows of a sequence of items: the rows of each item, one item after the other.
pub open spec fn flat_rows<T, R>(items: Seq<T>, rows: spec_fn(T) -> Seq<R>) -> Seq<R>
    decreases items.len(),
{
    if items.len() == 0 {
        Seq::empty()
    } else {
        flat_rows(items.drop_last(), rows) + rows(items.last())
    }
}

/// Taking one item out takes its rows out.
proof fn lemma_flat_rows_remove<T, R>(items: Seq<T>, rows: spec_fn(T) -> Seq<R>, j: int)
    requires
        0 <= j < items.len(),
    ensures
        flat_rows(items, rows).to_multiset() == flat_rows(items.remove(j), rows).to_multiset().add(
            rows(items[j]).to_multiset(),
        ),
    decreases items.len(),
{
    let front = items.drop_last();
    let last = rows(items.last());
    lemma_multiset_commutative(flat_rows(front, rows), last);
    if j == items.len() - 1 {
        assert(items.remove(j) =~= front);
    } else {
        let rest = items.remove(j);
        assert(rest.drop_last() =~= front.remove(j));
        assert(rest.last() == items.last());
        assert(front[j] == items[j]);
        lemma_flat_rows_remove(front, rows, j);
        lemma_multiset_commutative(flat_rows(front.remove(j), rows), last);
        let m = flat_rows(front.remove(j), rows).to_multiset();
        let c = rows(items[j]).to_multiset();
        assert(m.add(c).add(last.to_multiset()) =~= m.add(last.to_multiset()).add(c));
    }
}

/// The rows of a sequence of items do not depend on the order of the items: the same items
/// in another order give the same rows, each as often.
pub proof fn law_flat_rows_ignore_order<T, R>(a: Seq<T>, b: Seq<T>, rows: spec_fn(T) -> Seq<R>)
    requires
        a.to_multiset() == b.to_multiset(),
    ensures
        flat_rows(a, rows).to_multiset() == flat_rows(b, rows).to_multiset(),
    decreases a.len(),
{
    to_multiset_len(a);
    to_multiset_len(b);
    if a.len() > 0 {
        let x = a.last();
        let front = a.drop_last();
        assert(a =~= front.push(x));
        assert(a.contains(x)) by {
            assert(a[a.len() - 1] == x);
        }
        to_multiset_contains(a, x);
        to_multiset_contains(b, x);
        let j = choose|j: int| 0 <= j < b.len() && b[j] == x;
        let rest = b.remove(j);
        to_multiset_build(front, x);
        to_multiset_remove(b, j);
        assert(front.to_multiset() =~= rest.to_multiset());
        law_flat_rows_ignore_order(front, rest, rows);
        lemma_flat_rows_remove(b, rows, j);
        lemma_multiset_commutative(flat_rows(front, rows), rows(x));
    }
}

/// Where two ways of making rows give each item the same rows, each as often, they give a
/// sequence of items the same rows, each as often.
pub proof fn lemma_flat_rows_alike<T, R>(
    items: Seq<T>,
    one: spec_fn(T) -> Seq<R>,
    other: spec_fn(T) -> Seq<R>,
)
    requires
        forall|i: int|
            0 <= i < items.len() ==> one(#[trigger] items[i]).to_multiset() == other(
                items[i],
            ).to_multiset(),
    ensures
        flat_rows(items, one).to_multiset() == flat_rows(items, other).to_multiset(),
    decreases items.len(),
{
    if items.len() > 0 {
        let front = items.drop_last();
        assert forall|i: int| 0 <= i < front.len() implies one(#[trigger] front[i]).to_multiset()
            == other(front[i]).to_multiset() by {
            assert(front[i] == items[i]);
        }
        lemma_flat_rows_alike(front, one, other);
        assert(items[items.len() - 1] == items.last());
        lemma_multiset_commutative(flat_rows(front, one), one(items.last()));
        lemma_multiset_commutative(flat_rows(front, other), other(items.last()));
    }
}

/// The contribution of each visit.
pub open spec fn contributions<P>() -> spec_fn(TaskOutcome<P>) -> Seq<CollectedView<P>> {
    |visit: TaskOutcome<P>| contribution(visit)
}

/// What a round yields is the contributions of its visits, one visit after the other.
pub proof fn lemma_gathered_is_flat<P>(visits: Seq<TaskOutcome<P>>)
    ensures
        gathered(visits) == flat_rows(visits, contributions()),
    decreases visits.len(),
{
    if visits.len() > 0 {
        lemma_gathered_is_flat(visits.drop_last());
    }
}

/// What a round yields does not depend on the order in which its visits end: the same
/// visits in another order give the same contributions, each as often.
pub proof fn law_gathered_ignores_order<P>(a: Seq<TaskOutcome<P>>, b: Seq<TaskOutcome<P>>)
    requires
        a.to_multiset() == b.to_multiset(),
    ensures
        gathered(a).to_multiset() == gathered(b).to_multiset(),
{
    lemma_gathered_is_flat(a);
    lemma_gathered_is_flat(b);
    law_flat_rows_ignore_order(a, b, contributions());
}

/// The endpoints of each host, on the ports `ports`.
pub open spec fn host_rows(ports: Seq<String>) -> spec_fn(String) -> Seq<HostPort> {
    |host: String| host_tasks(host, ports)
}

/// The endpoint of each port, on the host `host`.
pub open spec fn port_rows(host: String) -> spec_fn(String) -> Seq<HostPort> {
    |port: String| seq![HostPort { host, port }]
}

/// The endpoints of a round are those of its hosts, one host after the other.
pub proof fn lemma_tasks_are_flat(hosts: Seq<String>, ports: Seq<String>)
    ensures
        all_tasks(hosts, ports) == flat_rows(hosts, host_rows(ports)),
    decreases hosts.len(),
{
    if hosts.len() > 0 {
        lemma_tasks_are_flat(hosts.drop_last(), ports);
    }
}

/// The endpoints of a host are those of its ports, one port after the other.
pub proof fn lemma_host_tasks_are_flat(host: String, ports: Seq<String>)
    ensures
        host_tasks(host, ports) == flat_rows(ports, port_rows(host)),
    decreases ports.len(),
{
    if ports.len() > 0 {
        lemma_host_tasks_are_flat(host, ports.drop_last());
        assert(host_tasks(host, ports) =~= host_tasks(host, ports.drop_last()) + port_rows(host)(
            ports.last(),
        ));
    } else {
        assert(host_tasks(host, ports) =~= Seq::<HostPort>::empty());
    }
}

/// The endpoints of a round do not depend on the order in which the hosts and the ports are
/// listed: the same hosts and the same ports in another order give the same endpoints, each
/// as often.
pub proof fn law_tasks_ignore_order(
    hosts: Seq<String>,
    ports: Seq<String>,
    other_hosts: Seq<String>,
    other_ports: Seq<String>,
)
    requires
        hosts.to_multiset() == other_hosts.to_multiset(),
        ports.to_multiset() == other_ports.to_multiset(),
    ensures
        all_tasks(hosts, ports).to_multiset() == all_tasks(other_hosts, other_ports).to_multiset(),
{
    lemma_tasks_are_flat(hosts, ports);
    lemma_tasks_are_flat(other_hosts, ports);
    lemma_tasks_are_flat(other_hosts, other_ports);
    law_flat_rows_ignore_order(hosts, other_hosts, host_rows(ports));
    assert forall|i: int| 0 <= i < other_hosts.len() implies host_rows(ports)(
        #[trigger] other_hosts[i],
    ).to_multiset() == host_rows(other_ports)(other_hosts[i]).to_multiset() by {
        let host = other_hosts[i];
        lemma_host_tasks_are_flat(host, ports);
        lemma_host_tasks_are_flat(host, other_ports);
        law_flat_rows_ignore_order(ports, other_ports, port_rows(host));
    }
    lemma_flat_rows_alike(other_hosts, host_rows(ports), host_rows(other_ports));
}

/// A contribution with its time set aside: the same endpoint and payload, at the epoch.
pub open spec fn untimed<P>(report: Collected<P>) -> Collected<P> {
    Collected {
        hostname_port: report.hostname_port,
        timestamp: Timestamp { seconds: 0, nanos: 0 },
        payload: report.payload,
    }
}

/// The contributions of a round with their times set aside.
pub open spec fn all_untimed<P>(reports: Seq<Collected<P>>) -> Seq<Collected<P>> {
    reports.map_values(|r: Collected<P>| untimed(r))
}

/// Where two ways of making rows give each item the same rows, they give a sequence of
/// items the same rows.
proof fn lemma_flat_rows_same<T, R>(
    items: Seq<T>,
    one: spec_fn(T) -> Seq<R>,
    other: spec_fn(T) -> Seq<R>,
)
    requires
        forall|i: int| 0 <= i < items.len() ==> one(#[trigger] items[i]) == other(items[i]),
    ensures
        flat_rows(items, one) == flat_rows(items, other),
    decreases items.len(),
{
    if items.len() > 0 {
        let front = items.drop_last();
        assert forall|i: int| 0 <= i < front.len() implies one(#[trigger] front[i]) == other(
            front[i],
        ) by {
            assert(front[i] == items[i]);
        }
        lemma_flat_rows_same(front, one, other);
        assert(items[items.len() - 1] == items.last());
    }
}

/// Changing every row of a sequence of items is changing the rows of each item.
proof fn lemma_flat_rows_changed<T, R>(
    items: Seq<T>,
    rows: spec_fn(T) -> Seq<R>,
    change: spec_fn(R) -> R,
)
    ensures
        flat_rows(items, rows).map_values(change) == flat_rows(
            items,
            |item: T| rows(item).map_values(change),
        ),
    decreases items.len(),
{
    let changed = |item: T| rows(item).map_values(change);
    if items.len() > 0 {
        lemma_flat_rows_changed(items.drop_last(), rows, change);
        assert(flat_rows(items, rows).map_values(change) =~= flat_rows(
            items.drop_last(),
            rows,
        ).map_values(change) + rows(items.last()).map_values(change));
    } else {
        assert(flat_rows(items, rows).map_values(change) =~= flat_rows(items, changed));
    }
}

/// The rows of changed items are the rows that each item gives once it is changed.
proof fn lemma_flat_rows_of_changed<T, R>(
    items: Seq<T>,
    change: spec_fn(T) -> T,
    rows: spec_fn(T) -> Seq<R>,
)
    ensures
        flat_rows(items.map_values(change), rows) == flat_rows(items, |item: T| rows(change(item))),
    decreases items.len(),
{
    if items.len() > 0 {
        lemma_flat_rows_of_changed(items.drop_last(), change, rows);
        assert(items.map_values(change).drop_last() =~= items.drop_last().map_values(change));
    }
}

/// What a round keeps does not depend on the order of the reports nor on their times, but
/// for what the rows show of the times: where `set_aside` takes out of a row what it holds
/// of the time of its report, two rounds of the same reports, in any order and at any
/// times, keep the same rows with that set aside, each as often.
pub proof fn law_rows_ignore_order_and_time<P, R>(
    a: Seq<Collected<P>>,
    b: Seq<Collected<P>>,
    rows: spec_fn(Collected<P>) -> Seq<R>,
    set_aside: spec_fn(R) -> R,
)
    requires
        all_untimed(a).to_multiset() == all_untimed(b).to_multiset(),
        forall|r: Collected<P>| #[trigger]
            rows(r).map_values(set_aside) == rows(untimed(r)).map_values(set_aside),
    ensures
        flat_rows(a, rows).map_values(set_aside).to_multiset() == flat_rows(b, rows).map_values(
            set_aside,
        ).to_multiset(),
{
    let bare = |r: Collected<P>| rows(r).map_values(set_aside);
    let erase = |r: Collected<P>| untimed(r);
    let through = |r: Collected<P>| bare(erase(r));
    lemma_flat_rows_changed(a, rows, set_aside);
    lemma_flat_rows_changed(b, rows, set_aside);
    lemma_flat_rows_of_changed(a, erase, bare);
    lemma_flat_rows_of_changed(b, erase, bare);
    assert forall|i: int| 0 <= i < a.len() implies bare(#[trigger] a[i]) == through(a[i]) by {
        assert(rows(a[i]).map_values(set_aside) == rows(untimed(a[i])).map_values(set_aside));
    }
    assert forall|i: int| 0 <= i < b.len() implies bare(#[trigger] b[i]) == through(b[i]) by {
        assert(rows(b[i]).map_values(set_aside) == rows(untimed(b[i])).map_values(set_aside));
    }
    lemma_flat_rows_same(a, bare, through);
    lemma_flat_rows_same(b, bare, through);
    assert(all_untimed(a) == a.map_values(erase));
    assert(all_untimed(b) == b.map_values(erase));
    law_flat_rows_ignore_order(a.map_values(erase), b.map_values(erase), bare);
    assert(flat_rows(a, rows).map_values(set_aside) == flat_rows(a.map_values(erase), bare));
    assert(flat_rows(b, rows).map_values(set_aside) == flat_rows(b.map_values(erase), bare));
}

} // verus!
