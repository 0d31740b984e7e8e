//! The node's metrics and their text form.

use crate::text_map::TextMap;
use vstd::prelude::*;

verus! {

broadcast use vstd::string::group_string_axioms;

/// Every gauge and counter of a node.
#[derive(Debug, PartialEq)]
pub struct Metrics {
    /// The node's current term.
    pub raft_term: i64,
    /// The highest index known to be replicated to a quorum.
    pub raft_commit_index: i64,
    /// The highest index applied to the state machine.
    pub raft_last_applied: i64,
    /// The number of entries in the log.
    pub raft_log_length: i64,
    /// The node's role: 0 follower, 1 candidate, 2 leader, 3 pre-candidate.
    pub raft_role: i64,
    /// Seconds since the last snapshot; -1 before the first.
    pub raft_snapshot_age_seconds: i64,
    /// The size of the last snapshot's file; -1 before the first.
    pub raft_snapshot_bytes: i64,
    /// Transactions that are staged.
    pub tx_pending_count: i64,
    /// Transactions that were aborted because they took too long.
    pub tx_timeout_aborted_total: u64,
    /// Transactions that were aborted on a client's request.
    pub tx_admin_aborted_total: u64,
    /// The highest index that each peer is known to hold.
    pub peer_match_index: TextMap<i64>,
    /// The next index to send to each peer.
    pub peer_next_index: TextMap<i64>,
}

#[verifier::ext_equal]
pub struct MetricsModel {
    pub raft_term: i64,
    pub raft_commit_index: i64,
    pub raft_last_applied: i64,
    pub raft_log_length: i64,
    pub raft_role: i64,
    pub raft_snapshot_age_seconds: i64,
    pub raft_snapshot_bytes: i64,
    pub tx_pending_count: i64,
    pub tx_timeout_aborted_total: u64,
    pub tx_admin_aborted_total: u64,
    pub peer_match_index: Map<Seq<char>, i64>,
    pub peer_next_index: Map<Seq<char>, i64>,
}

impl View for Metrics {
    type V = MetricsModel;

    open spec fn view(&self) -> MetricsModel {
        MetricsModel {
            raft_term: self.raft_term,
            raft_commit_index: self.raft_commit_index,
            raft_last_applied: self.raft_last_applied,
            raft_log_length: self.raft_log_length,
            raft_role: self.raft_role,
            raft_snapshot_age_seconds: self.raft_snapshot_age_seconds,
            raft_snapshot_bytes: self.raft_snapshot_bytes,
            tx_pending_count: self.tx_pending_count,
            tx_timeout_aborted_total: self.tx_timeout_aborted_total,
            tx_admin_aborted_total: self.tx_admin_aborted_total,
            peer_match_index: self.peer_match_index@,
            peer_next_index: self.peer_next_index@,
        }
    }
}

impl DeepView for Metrics {
    type V = MetricsModel;

    open spec fn deep_view(&self) -> MetricsModel {
        self@
    }
}

/// The gauge of every peer at 0.
pub open spec fn zero_gauges(peers: Seq<Seq<char>>) -> Map<Seq<char>, i64> {
    Map::new(|peer: Seq<char>| peers.contains(peer), |peer: Seq<char>| 0i64)
}

/// The metrics of a node before anything has happened.
pub open spec fn initial_metrics(peers: Seq<Seq<char>>) -> MetricsModel {
    MetricsModel {
        raft_term: 0,
        raft_commit_index: 0,
        raft_last_applied: 0,
        raft_log_length: 0,
        raft_role: 0,
        raft_snapshot_age_seconds: -1 as i64,
        raft_snapshot_bytes: -1 as i64,
        tx_pending_count: 0,
        tx_timeout_aborted_total: 0,
        tx_admin_aborted_total: 0,
        peer_match_index: zero_gauges(peers),
        peer_next_index: zero_gauges(peers),
    }
}

// ---- the outside registry ----

/// The registry of the `prometheus` crate.
#[verifier::external_type_specification]
#[verifier::external_body]
pub struct ExRegistry(prometheus::Registry);

/// The error of the `prometheus` crate.
#[verifier::external_type_specification]
#[verifier::external_body]
pub struct ExPrometheusError(prometheus::Error);

/// A metric as it is handed to a registry.
#[derive(Debug, PartialEq)]
pub enum Metric {
    Gauge { name: String, help: String, value: i64 },
    Counter { name: String, help: String, total: u64 },
    /// A gauge for each peer, under the label `peer`.
    PeerGauges { name: String, help: String, values: Vec<(String, i64)> },
}

#[verifier::ext_equal]
pub enum MetricModel {
    Gauge { name: Seq<char>, help: Seq<char>, value: i64 },
    Counter { name: Seq<char>, help: Seq<char>, total: u64 },
    PeerGauges { name: Seq<char>, help: Seq<char>, values: Seq<(Seq<char>, i64)> },
}

impl DeepView for Metric {
    type V = MetricModel;

    open spec fn deep_view(&self) -> MetricModel {
        match self {
            Metric::Gauge { name, help, value } => MetricModel::Gauge { name: name@, help: help@, value: *value },
            Metric::Counter { name, help, total } => MetricModel::Counter { name: name@, help: help@, total: *total },
            Metric::PeerGauges { name, help, values } => MetricModel::PeerGauges {
                name: name@,
                help: help@,
                values: values.deep_view(),
            },
        }
    }
}

/// The prefix of a registry and the metrics that were registered with it.
#[verifier::ext_equal]
pub struct RegistryModel {
    pub prefix: Seq<char>,
    pub metrics: Seq<MetricModel>,
}

impl RegistryModel {
    /// The registry with one more metric.
    pub open spec fn with(self, metric: MetricModel) -> RegistryModel {
        RegistryModel { metrics: self.metrics.push(metric), ..self }
    }
}

/// What a registry holds.
pub uninterp spec fn registered(registry: prometheus::Registry) -> RegistryModel;

/// Whether a registry takes a further metric.
pub uninterp spec fn admitted(contents: RegistryModel, metric: MetricModel) -> bool;

/// The text exposition of what a registry holds; `None` where the encoder
/// refuses it.
pub uninterp spec fn exposition(contents: RegistryModel) -> Option<Seq<u8>>;

/// `prometheus::Registry::new_custom`: an empty registry that puts a prefix in
/// front of every name. It fails on the empty prefix only.
#[verifier::external_body]
fn new_registry(prefix: &str) -> (registry: Result<prometheus::Registry, prometheus::Error>)
    ensures
        match registry {
            Ok(r) => prefix@.len() > 0 && registered(r) == (RegistryModel {
                prefix: prefix@,
                metrics: Seq::empty(),
            }),
            Err(_) => prefix@.len() == 0,
        },
{
    prometheus::Registry::new_custom(Some(prefix.to_string()), None)
}

/// `prometheus::Registry::register` with a new `prometheus::IntGauge` that is set to
/// `value`: where the registry takes it, it holds the gauge too.
#[verifier::external_body]
fn register_gauge(registry: prometheus::Registry, name: &str, help: &str, value: i64) -> (added: Result<
    prometheus::Registry,
    prometheus::Error,
>)
    ensures
        match added {
            Ok(r) => admitted(
                registered(registry),
                MetricModel::Gauge { name: name@, help: help@, value },
            ) && registered(r) == registered(registry).with(
                MetricModel::Gauge { name: name@, help: help@, value },
            ),
            Err(_) => !admitted(
                registered(registry),
                MetricModel::Gauge { name: name@, help: help@, value },
            ),
        },
{
    let gauge = prometheus::IntGauge::new(name, help)?;
    gauge.set(value);
    registry.register(Box::new(gauge))?;
    Ok(registry)
}

/// `prometheus::Registry::register` with a new `prometheus::IntCounter` that has
/// counted to `total`: where the registry takes it, it holds the counter too.
#[verifier::external_body]
fn register_counter(registry: prometheus::Registry, name: &str, help: &str, total: u64) -> (added: Result<
    prometheus::Registry,
    prometheus::Error,
>)
    ensures
        match added {
            Ok(r) => admitted(
                registered(registry),
                MetricModel::Counter { name: name@, help: help@, total },
            ) && registered(r) == registered(registry).with(
                MetricModel::Counter { name: name@, help: help@, total },
            ),
            Err(_) => !admitted(
                registered(registry),
                MetricModel::Counter { name: name@, help: help@, total },
            ),
        },
{
    let counter = prometheus::IntCounter::new(name, help)?;
    counter.inc_by(total);
    registry.register(Box::new(counter))?;
    Ok(registry)
}

/// The labelled gauges of the `prometheus` crate, under the one label `peer`.
#[verifier::external_body]
pub struct PeerGauges {
    gauges: prometheus::IntGaugeVec,
}

/// The gauges of peers: their name, what they mean, and what was set, in order.
#[verifier::ext_equal]
pub struct PeerGaugesModel {
    pub name: Seq<char>,
    pub help: Seq<char>,
    pub values: Seq<(Seq<char>, i64)>,
}

/// What labelled gauges hold.
pub uninterp spec fn labelled(gauges: PeerGauges) -> PeerGaugesModel;

/// A character that a metric's name may begin with.
pub open spec fn name_start(c: char) -> bool {
    'a' <= c <= 'z' || 'A' <= c <= 'Z' || c == '_' || c == ':'
}

/// A name that a metric may have.
pub open spec fn metric_name(name: Seq<char>) -> bool {
    &&& name.len() > 0
    &&& name_start(name[0])
    &&& forall|i: int| 0 <= i < name.len() ==> name_start(#[trigger] name[i]) || '0' <= name[i] <= '9'
}

/// `prometheus::IntGaugeVec::new` with the one label `peer`: gauges of which none is
/// set. It fails where the help text is empty or the name is not one that a
/// metric may have.
#[verifier::external_body]
fn new_peer_gauges(name: &str, help: &str) -> (gauges: Result<PeerGauges, prometheus::Error>)
    ensures
        match gauges {
            Ok(g) => metric_name(name@) && help@.len() > 0 && labelled(g) == (PeerGaugesModel {
                name: name@,
                help: help@,
                values: Seq::empty(),
            }),
            Err(_) => !metric_name(name@) || help@.len() == 0,
        },
{
    let gauges = prometheus::IntGaugeVec::new(prometheus::Opts::new(name, help), &["peer"])?;
    Ok(PeerGauges { gauges })
}

/// `prometheus::IntGaugeVec::with_label_values` and `prometheus::IntGauge::set`: sets the
/// gauge of a peer.
#[verifier::external_body]
fn set_peer_gauge(gauges: &mut PeerGauges, peer: &str, value: i64)
    ensures
        labelled(*final(gauges)) == (PeerGaugesModel {
            values: labelled(*old(gauges)).values.push((peer@, value)),
            ..labelled(*old(gauges))
        }),
{
    gauges.gauges.with_label_values(&[peer]).set(value);
}

/// `prometheus::Registry::register` with labelled gauges: where the registry takes
/// them, it holds the gauges too.
#[verifier::external_body]
fn register_peer_gauges(registry: prometheus::Registry, gauges: PeerGauges) -> (added: Result<
    prometheus::Registry,
    prometheus::Error,
>)
    ensures
        match added {
            Ok(r) => admitted(registered(registry), peer_metric(labelled(gauges))) && registered(r) == registered(
                registry,
            ).with(peer_metric(labelled(gauges))),
            Err(_) => !admitted(registered(registry), peer_metric(labelled(gauges))),
        },
{
    registry.register(Box::new(gauges.gauges))?;
    Ok(registry)
}

/// Labelled gauges as a metric.
pub open spec fn peer_metric(gauges: PeerGaugesModel) -> MetricModel {
    MetricModel::PeerGauges { name: gauges.name, help: gauges.help, values: gauges.values }
}

/// `prometheus::TextEncoder::encode` of what `prometheus::Registry::gather` collects:
/// the text exposition of what the registry holds.
#[verifier::external_body]
fn encode_text(registry: &prometheus::Registry) -> (text: Result<Vec<u8>, prometheus::Error>)
    ensures
        match text {
            Ok(bytes) => exposition(registered(*registry)) == Some(bytes@),
            Err(_) => exposition(registered(*registry)) is None,
        },
{
    let mut bytes = Vec::new();
    prometheus::Encoder::encode(&prometheus::TextEncoder::new(), &registry.gather(), &mut bytes)?;
    Ok(bytes)
}

// ---- from metrics to text ----

/// Why the metrics have no text form.
#[derive(Debug, Clone, Copy, PartialEq, Eq, Structural)]
pub enum MetricsError {
    /// The registry refused a metric.
    Registration,
    /// The encoder refused the registry.
    Encoding,
}

/// A registry that starts empty can hold `metrics`: it takes each after those
/// before it, and peer gauges are such that they can be made.
pub open spec fn registrable(prefix: Seq<char>, metrics: Seq<MetricModel>) -> bool {
    &&& prefix.len() > 0
    &&& forall|i: int|
        0 <= i < metrics.len() ==> makeable(#[trigger] metrics[i]) && admitted(
            RegistryModel { prefix, metrics: metrics.take(i) },
            metrics[i],
        )
}

/// Peer gauges need a proper name and a help text.
pub open spec fn makeable(metric: MetricModel) -> bool {
    metric matches MetricModel::PeerGauges { name, help, .. } ==> metric_name(name) && help.len() > 0
}

/// Registers one metric; `None` where it cannot be made or is refused.
fn register(registry: prometheus::Registry, metric: &Metric) -> (added: Option<prometheus::Registry>)
    ensures
        match added {
            Some(r) => {
                &&& makeable(metric.deep_view())
                &&& admitted(registered(registry), metric.deep_view())
                &&& registered(r) == registered(registry).with(metric.deep_view())
            },
            None => !makeable(metric.deep_view()) || !admitted(registered(registry), metric.deep_view()),
        },
{
    match metric {
        Metric::Gauge { name, help, value } => register_gauge(registry, name.as_str(), help.as_str(), *value).ok(),
        Metric::Counter { name, help, total } => register_counter(
            registry,
            name.as_str(),
            help.as_str(),
            *total,
        ).ok(),
        Metric::PeerGauges { name, help, values } => {
            let mut gauges: PeerGauges = match new_peer_gauges(name.as_str(), help.as_str()) {
                Ok(gauges) => gauges,
                Err(_) => {
                    return None;
                },
            };
            let ghost model = values.deep_view();
            let mut i: usize = 0;
            assert(model.take(0) =~= Seq::<(Seq<char>, i64)>::empty());
            while i < values.len()
                invariant
                    i <= values@.len(),
                    model == values.deep_view(),
                    labelled(gauges) == (PeerGaugesModel { name: name@, help: help@, values: model.take(i as int) }),
                decreases values@.len() - i,
            {
                let entry = &values[i];
                set_peer_gauge(&mut gauges, entry.0.as_str(), entry.1);
                proof {
                    assert(model[i as int] == (entry.0@, entry.1));
                    assert(model.take(i + 1) =~= model.take(i as int).push(model[i as int]));
                }
                i = i + 1;
            }
            assert(model.take(values@.len() as int) =~= model);
            register_peer_gauges(registry, gauges).ok()
        },
    }
}

/// The text exposition of metrics under a prefix.
pub open spec fn metrics_text(prefix: Seq<char>, metrics: Seq<MetricModel>) -> Result<Seq<u8>, MetricsError> {
    if !registrable(prefix, metrics) {
        Err(MetricsError::Registration)
    } else {
        match exposition(RegistryModel { prefix, metrics }) {
            Some(text) => Ok(text),
            None => Err(MetricsError::Encoding),
        }
    }
}

/// Writes metrics in the text exposition format.
pub fn expose(prefix: &str, metrics: &Vec<Metric>) -> (text: Result<Vec<u8>, MetricsError>)
    ensures
        match text {
            Ok(bytes) => metrics_text(prefix@, metrics.deep_view()) == Ok::<Seq<u8>, MetricsError>(bytes@),
            Err(e) => metrics_text(prefix@, metrics.deep_view()) == Err::<Seq<u8>, MetricsError>(e),
        },
{
    let ghost model = metrics.deep_view();
    let mut registry: prometheus::Registry = match new_registry(prefix) {
        Ok(registry) => registry,
        Err(_) => {
            return Err(MetricsError::Registration);
        },
    };
    let mut i: usize = 0;
    assert(model.take(0) =~= Seq::<MetricModel>::empty());
    while i < metrics.len()
        invariant
            i <= metrics@.len(),
            model == metrics.deep_view(),
            prefix@.len() > 0,
            registered(registry) == (RegistryModel { prefix: prefix@, metrics: model.take(i as int) }),
            forall|j: int|
                0 <= j < i ==> makeable(#[trigger] model[j]) && admitted(
                    RegistryModel { prefix: prefix@, metrics: model.take(j) },
                    model[j],
                ),
        decreases metrics@.len() - i,
    {
        assert(model[i as int] == metrics@[i as int].deep_view());
        match register(registry, &metrics[i]) {
            Some(r) => {
                registry = r;
            },
            None => {
                return Err(MetricsError::Registration);
            },
        }
        assert(model.take(i + 1) =~= model.take(i as int).push(model[i as int]));
        i = i + 1;
    }
    assert(model.take(metrics@.len() as int) =~= model);
    match encode_text(&registry) {
        Ok(bytes) => Ok(bytes),
        Err(_) => Err(MetricsError::Encoding),
    }
}

/// The entries of peer gauges in the order of their keys.
pub open spec fn gauge_list(keys: Seq<Seq<char>>, gauges: Map<Seq<char>, i64>) -> Seq<(Seq<char>, i64)> {
    Seq::new(keys.len(), |i: int| (keys[i], gauges[keys[i]]))
}

/// The entries of peer gauges in the order of their keys.
fn list_gauges(gauges: &TextMap<i64>) -> (list: Vec<(String, i64)>)
    ensures
        list.deep_view() == gauge_list(gauges.keys(), gauges@),
{
    let n: usize = gauges.len();
    let mut list: Vec<(String, i64)> = Vec::new();
    let mut i: usize = 0;
    while i < n
        invariant
            i <= n == gauges.keys().len(),
            list@.len() == i,
            forall|j: int|
                0 <= j < i ==> (#[trigger] list@[j]).deep_view() == (gauges.keys()[j], gauges@[gauges.keys()[j]]),
        decreases n - i,
    {
        list.push((gauges.key_at(i).clone(), *gauges.value_at(i)));
        i = i + 1;
    }
    assert(list.deep_view() =~= gauge_list(gauges.keys(), gauges@));
    list
}

fn gauge(name: &str, help: &str, value: i64) -> (metric: Metric)
    ensures
        metric.deep_view() == (MetricModel::Gauge { name: name@, help: help@, value }),
{
    Metric::Gauge { name: name.to_owned(), help: help.to_owned(), value }
}

fn counter(name: &str, help: &str, total: u64) -> (metric: Metric)
    ensures
        metric.deep_view() == (MetricModel::Counter { name: name@, help: help@, total }),
{
    Metric::Counter { name: name.to_owned(), help: help.to_owned(), total }
}

fn peer_gauges(name: &str, help: &str, gauges: &TextMap<i64>) -> (metric: Metric)
    ensures
        metric.deep_view() == (MetricModel::PeerGauges {
            name: name@,
            help: help@,
            values: gauge_list(gauges.keys(), gauges@),
        }),
{
    Metric::PeerGauges { name: name.to_owned(), help: help.to_owned(), values: list_gauges(gauges) }
}

impl Metrics {
    /// The metrics as they are registered.
    pub open spec fn metric_list(self) -> Seq<MetricModel> {
        seq![
            MetricModel::Gauge {
                name: "raft_term"@,
                help: "Raft current term on this node"@,
                value: self.raft_term,
            },
            MetricModel::Gauge {
                name: "raft_commit_index"@,
                help: "Raft commit_index"@,
                value: self.raft_commit_index,
            },
            MetricModel::Gauge {
                name: "raft_last_applied"@,
                help: "Raft last_applied"@,
                value: self.raft_last_applied,
            },
            MetricModel::Gauge { name: "raft_log_length"@, help: "Raft log length"@, value: self.raft_log_length },
            MetricModel::Gauge {
                name: "raft_role"@,
                help: "Raft role (0=F,1=C,2=L,3=P)"@,
                value: self.raft_role,
            },
            MetricModel::Gauge {
                name: "raft_snapshot_age_seconds"@,
                help: "Seconds since the most recent snapshot was installed (-1 = never)"@,
                value: self.raft_snapshot_age_seconds,
            },
            MetricModel::Gauge {
                name: "raft_snapshot_bytes"@,
                help: "On-disk size of the most recent snapshot file (-1 = never)"@,
                value: self.raft_snapshot_bytes,
            },
            MetricModel::Gauge {
                name: "tx_pending_count"@,
                help: "Pending 2PC transactions"@,
                value: self.tx_pending_count,
            },
            MetricModel::Counter {
                name: "tx_timeout_aborted_total"@,
                help: "Force-aborts by coordinator sweep"@,
                total: self.tx_timeout_aborted_total,
            },
            MetricModel::Counter {
                name: "tx_admin_aborted_total"@,
                help: "Successful AbortTx admin RPC calls"@,
                total: self.tx_admin_aborted_total,
            },
            MetricModel::PeerGauges {
                name: "peer_match_index"@,
                help: "Per-peer match index"@,
                values: gauge_list(self.peer_match_index.keys(), self.peer_match_index@),
            },
            MetricModel::PeerGauges {
                name: "peer_next_index"@,
                help: "Per-peer next_index"@,
                values: gauge_list(self.peer_next_index.keys(), self.peer_next_index@),
            },
        ]
    }

    /// The metrics as they are registered.
    pub fn metrics(&self) -> (list: Vec<Metric>)
        ensures
            list.deep_view() == self.metric_list(),
    {
        let mut list: Vec<Metric> = Vec::new();
        list.push(gauge("raft_term", "Raft current term on this node", self.raft_term));
        list.push(gauge("raft_commit_index", "Raft commit_index", self.raft_commit_index));
        list.push(gauge("raft_last_applied", "Raft last_applied", self.raft_last_applied));
        list.push(gauge("raft_log_length", "Raft log length", self.raft_log_length));
        list.push(gauge("raft_role", "Raft role (0=F,1=C,2=L,3=P)", self.raft_role));
        list.push(
            gauge(
                "raft_snapshot_age_seconds",
                "Seconds since the most recent snapshot was installed (-1 = never)",
                self.raft_snapshot_age_seconds,
            ),
        );
        list.push(
            gauge(
                "raft_snapshot_bytes",
                "On-disk size of the most recent snapshot file (-1 = never)",
                self.raft_snapshot_bytes,
            ),
        );
        list.push(gauge("tx_pending_count", "Pending 2PC transactions", self.tx_pending_count));
        list.push(
            counter("tx_timeout_aborted_total", "Force-aborts by coordinator sweep", self.tx_timeout_aborted_total),
        );
        list.push(
            counter("tx_admin_aborted_total", "Successful AbortTx admin RPC calls", self.tx_admin_aborted_total),
        );
        list.push(peer_gauges("peer_match_index", "Per-peer match index", &self.peer_match_index));
        list.push(peer_gauges("peer_next_index", "Per-peer next_index", &self.peer_next_index));
        assert(list.deep_view() =~= self.metric_list());
        list
    }

    /// The metrics in the text exposition format, each name under the prefix
    /// `oxide`.
    pub fn gather_text(&self) -> (text: Result<Vec<u8>, MetricsError>)
        ensures
            match text {
                Ok(bytes) => metrics_text("oxide"@, self.metric_list()) == Ok::<Seq<u8>, MetricsError>(bytes@),
                Err(e) => metrics_text("oxide"@, self.metric_list()) == Err::<Seq<u8>, MetricsError>(e),
            },
    {
        expose("oxide", &self.metrics())
    }
}

impl Metrics {
    /// The metrics of a node that knows no peers.
    pub fn new() -> (metrics: Metrics)
        ensures
            metrics@ == initial_metrics(Seq::empty()),
    {
        let peers: Vec<String> = Vec::new();
        assert(peers.deep_view() =~= Seq::<Seq<char>>::empty());
        Metrics::with_peers(&peers)
    }

    /// The metrics of a node that knows `initial_peers`: the gauges of each are
    /// there from the start, at 0.
    pub fn with_peers(initial_peers: &Vec<String>) -> (metrics: Metrics)
        ensures
            metrics@ == initial_metrics(initial_peers.deep_view()),
    {
        let ghost peers = initial_peers.deep_view();
        let mut peer_match_index: TextMap<i64> = TextMap::new();
        let mut peer_next_index: TextMap<i64> = TextMap::new();
        let mut i: usize = 0;
        assert(peer_match_index@ =~= zero_gauges(peers.take(0)));
        while i < initial_peers.len()
            invariant
                i <= initial_peers@.len(),
                peers == initial_peers.deep_view(),
                peer_match_index@ == zero_gauges(peers.take(i as int)),
                peer_next_index@ == zero_gauges(peers.take(i as int)),
            decreases initial_peers@.len() - i,
        {
            let peer = &initial_peers[i];
            proof {
                let before = peers.take(i as int);
                let after = peers.take(i + 1);
                assert forall|p: Seq<char>| after.contains(p) == (before.contains(p) || p == peer@) by {
                    if before.contains(p) {
                        assert(after[before.index_of(p)] == p);
                    }
                    assert(after[i as int] == peer@);
                    if after.contains(p) && p != peer@ {
                        assert(before[after.index_of(p)] == p);
                    }
                }
                assert(zero_gauges(after) =~= zero_gauges(before).insert(peer@, 0i64));
            }
            peer_match_index.insert(peer.clone(), 0);
            peer_next_index.insert(peer.clone(), 0);
            i = i + 1;
        }
        assert(peers.take(initial_peers@.len() as int) =~= peers);
        Metrics {
            raft_term: 0,
            raft_commit_index: 0,
            raft_last_applied: 0,
            raft_log_length: 0,
            raft_role: 0,
            raft_snapshot_age_seconds: -1,
            raft_snapshot_bytes: -1,
            tx_pending_count: 0,
            tx_timeout_aborted_total: 0,
            tx_admin_aborted_total: 0,
            peer_match_index,
            peer_next_index,
        }
    }

    /// Sets a peer's match-index gauge. An unknown peer gets none.
    pub fn set_peer_match_index(&mut self, peer: &str, value: i64)
        ensures
            final(self)@ == old(self)@.with_match_index(peer@, value),
    {
        if self.peer_match_index.contains_key(peer) {
            self.peer_match_index.insert(peer.to_owned(), value);
        }
    }

    /// Sets a peer's next-index gauge.
    pub fn set_peer_next_index(&mut self, peer: &str, value: i64)
        ensures
            final(self)@ == old(self)@.with_next_index(peer@, value),
    {
        self.peer_next_index.insert(peer.to_owned(), value);
    }
}

impl MetricsModel {
    pub open spec fn with_match_index(self, peer: Seq<char>, value: i64) -> MetricsModel {
        if self.peer_match_index.contains_key(peer) {
            MetricsModel { peer_match_index: self.peer_match_index.insert(peer, value), ..self }
        } else {
            self
        }
    }

    pub open spec fn with_next_index(self, peer: Seq<char>, value: i64) -> MetricsModel {
        MetricsModel { peer_next_index: self.peer_next_index.insert(peer, value), ..self }
    }
}

/// The metrics at the start: every gauge and counter at 0, those of the snapshot
/// at -1, and a gauge for each peer and for no one else.
pub proof fn metrics_start_at_zero(peers: Seq<Seq<char>>, peer: Seq<char>)
    ensures
        ({
            let m = initial_metrics(peers);
            &&& m.raft_term == 0 && m.raft_commit_index == 0 && m.raft_last_applied == 0 && m.raft_log_length == 0
            &&& m.raft_role == 0 && m.tx_pending_count == 0
            &&& m.tx_timeout_aborted_total == 0 && m.tx_admin_aborted_total == 0
            &&& m.raft_snapshot_age_seconds == -1 && m.raft_snapshot_bytes == -1
            &&& m.peer_match_index.contains_key(peer) <==> peers.contains(peer)
            &&& m.peer_next_index.contains_key(peer) <==> peers.contains(peer)
            &&& peers.contains(peer) ==> m.peer_match_index[peer] == 0 && m.peer_next_index[peer] == 0
        }),
{
}

/// A peer's gauges show what was set last, and no other gauge changes.
pub proof fn peer_gauges_show_what_was_set(m: MetricsModel, peer: Seq<char>, value: i64, other: Seq<char>)
    requires
        other != peer,
    ensures
        ({
            let matched = m.with_match_index(peer, value);
            let next = m.with_next_index(peer, value);
            &&& m.peer_match_index.contains_key(peer) ==> matched.peer_match_index.contains_key(peer)
                && matched.peer_match_index[peer] == value
            &&& !m.peer_match_index.contains_key(peer) ==> matched == m
            &&& matched.peer_match_index.contains_key(other) == m.peer_match_index.contains_key(other)
            &&& m.peer_match_index.contains_key(other) ==> matched.peer_match_index[other] == m.peer_match_index[other]
            &&& matched == (MetricsModel { peer_match_index: matched.peer_match_index, ..m })
            &&& next.peer_next_index.contains_key(peer) && next.peer_next_index[peer] == value
            &&& next.peer_next_index.contains_key(other) == m.peer_next_index.contains_key(other)
            &&& m.peer_next_index.contains_key(other) ==> next.peer_next_index[other] == m.peer_next_index[other]
            &&& next == (MetricsModel { peer_next_index: next.peer_next_index, ..m })
        }),
{
}

/// Peer gauges are listed under their peers, each with its own value.
pub proof fn gauges_are_listed_with_their_values(keys: Seq<Seq<char>>, gauges: Map<Seq<char>, i64>)
    ensures
        gauge_list(keys, gauges).len() == keys.len(),
        forall|i: int|
            0 <= i < keys.len() ==> (#[trigger] gauge_list(keys, gauges)[i]).0 == keys[i] && gauge_list(
                keys,
                gauges,
            )[i].1 == gauges[keys[i]],
{
}

/// Each metric is listed once, under its own name, with its own value.
pub proof fn metrics_are_listed_under_their_names(m: Metrics)
    ensures
        ({
            let list = m.metric_list();
            let shows = |i: int, named: Seq<char>, shown: i64|
                (list[i] matches MetricModel::Gauge { name, value, .. } && name == named && value == shown);
            let counts = |i: int, named: Seq<char>, counted: u64|
                (list[i] matches MetricModel::Counter { name, total, .. } && name == named && total == counted);
            &&& list.len() == 12
            &&& shows(0, "raft_term"@, m@.raft_term)
            &&& shows(1, "raft_commit_index"@, m@.raft_commit_index)
            &&& shows(2, "raft_last_applied"@, m@.raft_last_applied)
            &&& shows(3, "raft_log_length"@, m@.raft_log_length)
            &&& shows(4, "raft_role"@, m@.raft_role)
            &&& shows(5, "raft_snapshot_age_seconds"@, m@.raft_snapshot_age_seconds)
            &&& shows(6, "raft_snapshot_bytes"@, m@.raft_snapshot_bytes)
            &&& shows(7, "tx_pending_count"@, m@.tx_pending_count)
            &&& counts(8, "tx_timeout_aborted_total"@, m@.tx_timeout_aborted_total)
            &&& counts(9, "tx_admin_aborted_total"@, m@.tx_admin_aborted_total)
            &&& list[10] matches MetricModel::PeerGauges { name, values, .. } && name == "peer_match_index"@ && forall|
                i: int,
            |
                0 <= i < values.len() ==> (#[trigger] values[i]).1 == m@.peer_match_index[values[i].0]
            &&& list[11] matches MetricModel::PeerGauges { name, values, .. } && name == "peer_next_index"@ && forall|
                i: int,
            |
                0 <= i < values.len() ==> (#[trigger] values[i]).1 == m@.peer_next_index[values[i].0]
        }),
{
}

} // verus!
