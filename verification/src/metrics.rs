use vstd::prelude::*;
use vstd::multiset::Multiset;

use crate::labels::Labels;
use dashmap::DashMap;
use std::time::SystemTime;

verus! {

/// Type of metric — determines exporter semantics.
#[derive(Debug, Clone, Copy, PartialEq, Eq, Structural)]
pub enum MetricType {
    Gauge,
    Counter,
}

/// A single metric value with metadata.
///
/// `updated_at` is the wall-clock time of the reading (what OTLP
/// `time_unix_nano` reports, see `system_time_to_nanos`).
///
/// The reading is carried as the bit pattern of its `f64` (`f64::to_bits`);
/// the store never looks at it.
pub struct MetricValue {
    pub value_bits: u64,
    pub metric_type: MetricType,
    pub labels: Labels,
    pub description: String,
    pub unit: String,
    pub updated_at: SystemTime,
}

/// The mathematical content of a `MetricValue`.
pub struct MetricValueView {
    pub value_bits: u64,
    pub metric_type: MetricType,
    pub labels: Map<Seq<char>, Seq<char>>,
    pub description: Seq<char>,
    pub unit: Seq<char>,
    pub updated_at: SystemTime,
}

impl View for MetricValue {
    type V = MetricValueView;

    open spec fn view(&self) -> MetricValueView {
        MetricValueView {
            value_bits: self.value_bits,
            metric_type: self.metric_type,
            labels: self.labels.view(),
            description: self.description@,
            unit: self.unit@,
            updated_at: self.updated_at,
        }
    }
}

impl Clone for MetricValue {
    fn clone(&self) -> (res: MetricValue)
        ensures
            res@ == self@,
    {
        MetricValue {
            value_bits: self.value_bits,
            metric_type: self.metric_type,
            labels: self.labels.clone(),
            description: self.description.clone(),
            unit: self.unit.clone(),
            updated_at: self.updated_at,
        }
    }
}

/// The views of a sequence of metric values.
pub open spec fn views(s: Seq<MetricValue>) -> Seq<MetricValueView> {
    s.map_values(|m: MetricValue| m@)
}

/// Copies a list of metric values.
pub fn clone_metrics(v: &Vec<MetricValue>) -> (res: Vec<MetricValue>)
    ensures
        views(res@) == views(v@),
{
    let mut res: Vec<MetricValue> = Vec::new();
    let n = v.len();
    let mut i: usize = 0;
    while i < n
        invariant
            n == v.len(),
            i <= n,
            res.len() == i,
            views(res@) == views(v@.take(i as int)),
        decreases n - i,
    {
        let c = v[i].clone();
        let ghost before = res@;
        res.push(c);
        assert forall|j: int| 0 <= j < i + 1 implies #[trigger] views(res@)[j] == views(v@.take(i + 1))[j] by {
            if j < i {
                assert(res@[j] == before[j]);
                assert(views(before)[j] == views(v@.take(i as int))[j]);
            }
        }
        assert(views(res@) =~= views(v@.take(i + 1)));
        i = i + 1;
    }
    assert(v@.take(n as int) =~= v@);
    res
}

#[verifier::external_type_specification]
#[verifier::external_body]
#[verifier::reject_recursive_types(K)]
#[verifier::reject_recursive_types(V)]
#[verifier::reject_recursive_types(S)]
pub struct ExDashMap<K, V, S>(DashMap<K, V, S>);

/// Names what a collector-cache `DashMap` holds: for each collector name,
/// the metric values stored under it.
pub uninterp spec fn cache_entries(m: DashMap<String, Vec<MetricValue>>) -> Map<
    Seq<char>,
    Seq<MetricValueView>,
>;

/// The store with no collector in it.
pub open spec fn no_caches() -> Map<Seq<char>, Seq<MetricValueView>> {
    Map::empty()
}

/// Calls `DashMap::new`: a map with no entries.
#[verifier::external_body]
fn caches_new() -> (res: DashMap<String, Vec<MetricValue>>)
    ensures
        cache_entries(res) == no_caches(),
{
    DashMap::new()
}

/// Calls `DashMap::insert`: the entry of `key` becomes `value`, replacing an
/// earlier entry of that key; the other entries stay.
#[verifier::external_body]
fn caches_insert(m: &mut DashMap<String, Vec<MetricValue>>, key: String, value: Vec<MetricValue>)
    ensures
        cache_entries(*final(m)) == cache_entries(*old(m)).insert(key@, views(value@)),
{
    m.insert(key, value);
}

/// Calls `DashMap::get` and copies the entry found with `clone_metrics`:
/// `Some` with the entry of `key`, or `None` when there is none.
#[verifier::external_body]
fn caches_get(m: &DashMap<String, Vec<MetricValue>>, key: &str) -> (res: Option<Vec<MetricValue>>)
    ensures
        match res {
            Some(v) => cache_entries(*m).contains_key(key@) && views(v@) == cache_entries(*m)[key@],
            None => !cache_entries(*m).contains_key(key@),
        },
{
    m.get(key).map(|entry| clone_metrics(entry.value()))
}

/// Calls `DashMap::len`: the number of entries.
#[verifier::external_body]
fn caches_len(m: &DashMap<String, Vec<MetricValue>>) -> (res: usize)
    ensures
        res == cache_entries(*m).len(),
{
    m.len()
}

/// Calls `DashMap::iter` and copies each entry (key with `String::clone`,
/// value with `clone_metrics`). Every entry comes out once; the order is the
/// map's internal hash order, which is left open.
#[verifier::external_body]
fn caches_snapshot(m: &DashMap<String, Vec<MetricValue>>) -> (res: Vec<(String, Vec<MetricValue>)>)
    ensures
        res.len() == cache_entries(*m).len(),
        forall|i: int, j: int| 0 <= i < j < res.len() ==> #[trigger] res@[i].0@ != #[trigger] res@[j].0@,
        forall|i: int|
            0 <= i < res.len() ==> cache_entries(*m).contains_key(#[trigger] res@[i].0@)
                && cache_entries(*m)[res@[i].0@] == views(res@[i].1@),
        forall|k: Seq<char>|
            #[trigger] cache_entries(*m).contains_key(k) ==> exists|i: int|
                0 <= i < res.len() && res@[i].0@ == k,
{
    m.iter().map(|entry| (entry.key().clone(), clone_metrics(entry.value()))).collect()
}

/// The labels a published metric carries: global labels, then collector
/// labels, then the metric's own labels (a later source wins on a shared key),
/// then `collector` set to the collector's name and, when the unit is not
/// empty, `unit` set to the unit.
pub open spec fn merged_labels(
    global: Map<Seq<char>, Seq<char>>,
    collector: Map<Seq<char>, Seq<char>>,
    own: Map<Seq<char>, Seq<char>>,
    collector_name: Seq<char>,
    unit: Seq<char>,
) -> Map<Seq<char>, Seq<char>> {
    let base = global.union_prefer_right(collector).union_prefer_right(own).insert(
        "collector"@,
        collector_name,
    );
    if unit.len() > 0 {
        base.insert("unit"@, unit)
    } else {
        base
    }
}

/// A metric as it is stored by `publish`: only its labels change.
pub open spec fn with_merged_labels(
    m: MetricValueView,
    global: Map<Seq<char>, Seq<char>>,
    collector: Map<Seq<char>, Seq<char>>,
    collector_name: Seq<char>,
) -> MetricValueView {
    MetricValueView {
        labels: merged_labels(global, collector, m.labels, collector_name, m.unit),
        ..m
    }
}

/// The cache that `publish` stores for a collector.
pub open spec fn published(
    metrics: Seq<MetricValueView>,
    global: Map<Seq<char>, Seq<char>>,
    collector: Map<Seq<char>, Seq<char>>,
    collector_name: Seq<char>,
) -> Seq<MetricValueView> {
    metrics.map_values(|m: MetricValueView| with_merged_labels(m, global, collector, collector_name))
}

/// Gives `metric` its merged labels.
fn merge_metric(metric: &MetricValue, global: &Labels, collector: &Labels, collector_name: &str) -> (res:
    MetricValue)
    ensures
        res@ == with_merged_labels(metric@, global.view(), collector.view(), collector_name@),
{
    let mut labels = global.clone();
    labels.extend_from(collector);
    labels.extend_from(&metric.labels);
    labels.insert("collector".to_string(), collector_name.to_string());
    if !metric.unit.as_str().is_empty() {
        labels.insert("unit".to_string(), metric.unit.clone());
    }
    MetricValue {
        value_bits: metric.value_bits,
        metric_type: metric.metric_type,
        labels,
        description: metric.description.clone(),
        unit: metric.unit.clone(),
        updated_at: metric.updated_at,
    }
}

/// The metrics of the collectors listed in `order`, one collector after the other.
pub open spec fn flatten(order: Seq<Seq<char>>, caches: Map<Seq<char>, Seq<MetricValueView>>) -> Seq<
    MetricValueView,
>
    decreases order.len(),
{
    if order.len() == 0 {
        Seq::empty()
    } else {
        flatten(order.drop_last(), caches) + caches[order.last()]
    }
}

/// `order` lists every collector of `caches` exactly once.
pub open spec fn is_collector_order(order: Seq<Seq<char>>, caches: Map<Seq<char>, Seq<MetricValueView>>) -> bool {
    &&& order.no_duplicates()
    &&& forall|k: Seq<char>| caches.contains_key(k) <==> order.contains(k)
}

/// The metrics of all collectors, each counted as often as it occurs in the
/// caches (the same for every order of the collectors, by
/// `lemma_all_metrics_order_free`).
pub open spec fn all_cached(caches: Map<Seq<char>, Seq<MetricValueView>>) -> Multiset<MetricValueView> {
    flatten(choose|order: Seq<Seq<char>>| is_collector_order(order, caches), caches).to_multiset()
}

/// Store aggregating per-collector metric caches.
///
/// Collectors call `publish` to replace their cache snapshot. Exporters call
/// `all_metrics` for a read-only flat list — they never trigger Modbus calls.
pub struct MetricStore {
    caches: DashMap<String, Vec<MetricValue>>,
}

impl MetricStore {
    #[verifier::type_invariant]
    spec fn inv(self) -> bool {
        cache_entries(self.caches).dom().finite()
    }

    /// For each collector name, its latest published cache.
    pub closed spec fn view(&self) -> Map<Seq<char>, Seq<MetricValueView>> {
        cache_entries(self.caches)
    }

    /// An empty store.
    pub fn new() -> (res: MetricStore)
        ensures
            res.view() == no_caches(),
            res.view().dom().finite(),
    {
        MetricStore { caches: caches_new() }
    }

    /// Replaces the cache for `collector_name`.
    ///
    /// `global_labels` and `collector_labels` are merged into each metric
    /// following the precedence order: global → collector → metric-level.
    pub fn publish(
        &mut self,
        collector_name: &str,
        metrics: Vec<MetricValue>,
        global_labels: &Labels,
        collector_labels: &Labels,
    )
        ensures
            final(self).view() == old(self).view().insert(
                collector_name@,
                published(views(metrics@), global_labels.view(), collector_labels.view(), collector_name@),
            ),
            final(self).view().dom().finite(),
    {
        proof {
            use_type_invariant(&*self);
        }
        let ghost target = published(views(metrics@), global_labels.view(), collector_labels.view(), collector_name@);
        let mut merged: Vec<MetricValue> = Vec::new();
        let n = metrics.len();
        let mut i: usize = 0;
        while i < n
            invariant
                n == metrics.len(),
                i <= n,
                merged.len() == i,
                target == published(views(metrics@), global_labels.view(), collector_labels.view(), collector_name@),
                forall|j: int| 0 <= j < i ==> #[trigger] views(merged@)[j] == target[j],
            decreases n - i,
        {
            let m = merge_metric(&metrics[i], global_labels, collector_labels, collector_name);
            let ghost before = merged@;
            merged.push(m);
            assert forall|j: int| 0 <= j < i + 1 implies #[trigger] views(merged@)[j] == target[j] by {
                if j < i {
                    assert(merged@[j] == before[j]);
                    assert(views(before)[j] == target[j]);
                }
            }
            i = i + 1;
        }
        assert(views(merged@) =~= target);
        let mut caches = caches_new();
        std::mem::swap(&mut caches, &mut self.caches);
        caches_insert(&mut caches, collector_name.to_string(), merged);
        self.caches = caches;
    }

    /// A flat snapshot of all metrics across all collectors: the caches one
    /// after the other, in an order of collectors that is left open.
    pub fn all_metrics(&self) -> (res: Vec<MetricValue>)
        ensures
            exists|order: Seq<Seq<char>>|
                is_collector_order(order, self.view()) && views(res@) == #[trigger] flatten(order, self.view()),
            views(res@).to_multiset() == all_cached(self.view()),
    {
        proof {
            use_type_invariant(self);
        }
        let snapshot = caches_snapshot(&self.caches);
        let ghost caches = self.view();
        let ghost order = snapshot@.map_values(|e: (String, Vec<MetricValue>)| e.0@);
        let mut out: Vec<MetricValue> = Vec::new();
        let n = snapshot.len();
        let mut i: usize = 0;
        while i < n
            invariant
                n == snapshot.len(),
                i <= n,
                caches == self.view(),
                order == snapshot@.map_values(|e: (String, Vec<MetricValue>)| e.0@),
                forall|a: int|
                    0 <= a < snapshot.len() ==> caches.contains_key(#[trigger] snapshot@[a].0@)
                        && caches[snapshot@[a].0@] == views(snapshot@[a].1@),
                views(out@) == flatten(order.take(i as int), caches),
            decreases n - i,
        {
            let mut part = clone_metrics(&snapshot[i].1);
            let ghost before = out@;
            out.append(&mut part);
            proof {
                let t = order.take(i + 1);
                assert(t.drop_last() =~= order.take(i as int));
                assert(t.last() == snapshot@[i as int].0@);
                assert(views(out@) =~= views(before) + views(snapshot@[i as int].1@));
            }
            i = i + 1;
        }
        proof {
            assert(order.take(n as int) =~= order);
            assert(order.no_duplicates()) by {
                assert forall|a: int, b: int| 0 <= a < order.len() && 0 <= b < order.len() && a != b implies order[a]
                    != order[b] by {
                    if a < b {
                        assert(snapshot@[a].0@ != snapshot@[b].0@);
                    } else {
                        assert(snapshot@[b].0@ != snapshot@[a].0@);
                    }
                }
            }
            assert forall|k: Seq<char>| caches.contains_key(k) <==> order.contains(k) by {
                if caches.contains_key(k) {
                    let a = choose|a: int| 0 <= a < snapshot.len() && snapshot@[a].0@ == k;
                    assert(order[a] == k);
                }
                if order.contains(k) {
                    let a = choose|a: int| 0 <= a < order.len() && order[a] == k;
                    assert(snapshot@[a].0@ == k);
                }
            }
            assert(is_collector_order(order, caches));
            let chosen = choose|o: Seq<Seq<char>>| is_collector_order(o, caches);
            lemma_all_metrics_order_free(order, chosen, caches);
        }
        out
    }

    /// The metrics of one collector; empty when it has published nothing.
    pub fn metrics_for(&self, collector_name: &str) -> (res: Vec<MetricValue>)
        ensures
            views(res@) == if self.view().contains_key(collector_name@) {
                self.view()[collector_name@]
            } else {
                Seq::empty()
            },
    {
        match caches_get(&self.caches, collector_name) {
            Some(v) => v,
            None => Vec::new(),
        }
    }

    /// Number of collectors currently in the store.
    pub fn collector_count(&self) -> (res: usize)
        ensures
            res == self.view().len(),
            self.view().dom().finite(),
    {
        proof {
            use_type_invariant(self);
        }
        caches_len(&self.caches)
    }
}

/// Label precedence: a published metric's `collector` label is the collector's
/// name; its `unit` label is its unit when the unit is not empty; any other
/// label is taken from the metric's own labels, else from the collector
/// labels, else from the global labels, and is absent when none has it.
pub proof fn lemma_label_precedence(
    global: Map<Seq<char>, Seq<char>>,
    collector: Map<Seq<char>, Seq<char>>,
    own: Map<Seq<char>, Seq<char>>,
    collector_name: Seq<char>,
    unit: Seq<char>,
    key: Seq<char>,
)
    ensures
        ({
            let m = merged_labels(global, collector, own, collector_name, unit);
            &&& key == "collector"@ && !(unit.len() > 0 && key == "unit"@) ==> m.contains_key(key) && m[key]
                == collector_name
            &&& unit.len() > 0 && key == "unit"@ ==> m.contains_key(key) && m[key] == unit
            &&& key != "collector"@ && !(unit.len() > 0 && key == "unit"@) ==> {
                &&& m.contains_key(key) <==> (own.contains_key(key) || collector.contains_key(key)
                    || global.contains_key(key))
                &&& own.contains_key(key) ==> m[key] == own[key]
                &&& !own.contains_key(key) && collector.contains_key(key) ==> m[key] == collector[key]
                &&& !own.contains_key(key) && !collector.contains_key(key) && global.contains_key(key)
                    ==> m[key] == global[key]
            }
        }),
{
}

/// Publishing stores exactly the merged metrics under the collector's name,
/// which `metrics_for` then returns, and leaves every other collector's cache
/// as it was.
pub proof fn lemma_publish_then_read(
    caches: Map<Seq<char>, Seq<MetricValueView>>,
    collector_name: Seq<char>,
    metrics: Seq<MetricValueView>,
    global: Map<Seq<char>, Seq<char>>,
    collector: Map<Seq<char>, Seq<char>>,
)
    ensures
        ({
            let after = caches.insert(collector_name, published(metrics, global, collector, collector_name));
            &&& after.contains_key(collector_name)
            &&& after[collector_name] == published(metrics, global, collector, collector_name)
            &&& forall|other: Seq<char>|
                other != collector_name ==> (#[trigger] after.contains_key(other) == caches.contains_key(other)
                    && (caches.contains_key(other) ==> after[other] == caches[other]))
        }),
{
}

/// A second publish by the same collector replaces its first one entirely.
pub proof fn lemma_publish_overwrites(
    caches: Map<Seq<char>, Seq<MetricValueView>>,
    collector_name: Seq<char>,
    first: Seq<MetricValueView>,
    second: Seq<MetricValueView>,
    global: Map<Seq<char>, Seq<char>>,
    collector: Map<Seq<char>, Seq<char>>,
)
    ensures
        caches.insert(collector_name, published(first, global, collector, collector_name)).insert(
            collector_name,
            published(second, global, collector, collector_name),
        ) == caches.insert(collector_name, published(second, global, collector, collector_name)),
{
    assert(caches.insert(collector_name, published(first, global, collector, collector_name)).insert(
        collector_name,
        published(second, global, collector, collector_name),
    ) =~= caches.insert(collector_name, published(second, global, collector, collector_name)));
}

/// Publishing keeps the metrics, their order and everything but their labels.
pub proof fn lemma_publish_keeps_metrics(
    metrics: Seq<MetricValueView>,
    global: Map<Seq<char>, Seq<char>>,
    collector: Map<Seq<char>, Seq<char>>,
    collector_name: Seq<char>,
)
    ensures
        published(metrics, global, collector, collector_name).len() == metrics.len(),
        forall|i: int|
            0 <= i < metrics.len() ==> {
                let p = #[trigger] published(metrics, global, collector, collector_name)[i];
                &&& p.value_bits == metrics[i].value_bits
                &&& p.metric_type == metrics[i].metric_type
                &&& p.description == metrics[i].description
                &&& p.unit == metrics[i].unit
                &&& p.updated_at == metrics[i].updated_at
                &&& p.labels == merged_labels(global, collector, metrics[i].labels, collector_name, metrics[i].unit)
            },
{
}

/// The number of collectors grows by one when a new collector publishes and
/// stays the same when a known one publishes again.
pub proof fn lemma_publish_collector_count(
    caches: Map<Seq<char>, Seq<MetricValueView>>,
    collector_name: Seq<char>,
    cache: Seq<MetricValueView>,
)
    requires
        caches.dom().finite(),
    ensures
        caches.insert(collector_name, cache).dom().finite(),
        caches.insert(collector_name, cache).len() == if caches.contains_key(collector_name) {
            caches.len()
        } else {
            caches.len() + 1
        },
{
}

/// The sum of the cache lengths of the collectors listed in `order`.
pub open spec fn total_len(order: Seq<Seq<char>>, caches: Map<Seq<char>, Seq<MetricValueView>>) -> int
    decreases order.len(),
{
    if order.len() == 0 {
        0
    } else {
        total_len(order.drop_last(), caches) + caches[order.last()].len()
    }
}

/// The flat list is as long as the caches of the listed collectors together.
proof fn lemma_flatten_len(order: Seq<Seq<char>>, caches: Map<Seq<char>, Seq<MetricValueView>>)
    ensures
        flatten(order, caches).len() == total_len(order, caches),
    decreases order.len(),
{
    if order.len() > 0 {
        lemma_flatten_len(order.drop_last(), caches);
    }
}

/// The flat list of all metrics holds every metric of every collector, and
/// nothing else; its length is the sum of the cache lengths, that is of the
/// lengths that `metrics_for` gives for each collector.
pub proof fn lemma_flatten_holds_every_cache(
    order: Seq<Seq<char>>,
    caches: Map<Seq<char>, Seq<MetricValueView>>,
)
    requires
        is_collector_order(order, caches),
    ensures
        flatten(order, caches).len() == total_len(order, caches),
        all_cached(caches).len() == total_len(order, caches),
        forall|k: Seq<char>, j: int|
            caches.contains_key(k) && 0 <= j < caches[k].len() ==> flatten(order, caches).contains(
                #[trigger] caches[k][j],
            ),
        forall|x: MetricValueView|
            #[trigger] flatten(order, caches).contains(x) ==> exists|k: Seq<char>|
                caches.contains_key(k) && caches[k].contains(x),
{
    broadcast use vstd::seq_lib::group_to_multiset_ensures;

    lemma_flatten_len(order, caches);
    let chosen = choose|o: Seq<Seq<char>>| is_collector_order(o, caches);
    lemma_all_metrics_order_free(order, chosen, caches);
    assert(all_cached(caches) == flatten(order, caches).to_multiset());
    assert(flatten(order, caches).to_multiset().len() == flatten(order, caches).len());
    lemma_flatten_members(order, caches);
    assert forall|k: Seq<char>, j: int|
        caches.contains_key(k) && 0 <= j < caches[k].len() implies flatten(order, caches).contains(
        #[trigger] caches[k][j],
    ) by {
        assert(order.contains(k));
        let a = choose|a: int| 0 <= a < order.len() && order[a] == k;
        assert(caches[order[a]].contains(caches[k][j]));
    }
    assert forall|x: MetricValueView| #[trigger] flatten(order, caches).contains(x) implies exists|k: Seq<char>|
        caches.contains_key(k) && caches[k].contains(x) by {
        let a = choose|a: int| 0 <= a < order.len() && caches[order[a]].contains(x);
        assert(order.contains(order[a]));
    }
}

/// The members of `flatten(order, caches)` are the members of the caches of
/// the collectors listed in `order`.
proof fn lemma_flatten_members(order: Seq<Seq<char>>, caches: Map<Seq<char>, Seq<MetricValueView>>)
    ensures
        forall|x: MetricValueView|
            #[trigger] flatten(order, caches).contains(x) <==> exists|a: int|
                0 <= a < order.len() && caches[order[a]].contains(x),
    decreases order.len(),
{
    if order.len() > 0 {
        let d = order.drop_last();
        lemma_flatten_members(d, caches);
        let f = flatten(order, caches);
        let fd = flatten(d, caches);
        let last = caches[order.last()];
        assert forall|x: MetricValueView| #[trigger] f.contains(x) <==> exists|a: int|
            0 <= a < order.len() && caches[order[a]].contains(x) by {
            if f.contains(x) {
                let i = choose|i: int| 0 <= i < f.len() && f[i] == x;
                if i < fd.len() {
                    assert(fd[i] == x);
                    assert(fd.contains(x));
                    let a = choose|a: int| 0 <= a < d.len() && caches[d[a]].contains(x);
                    assert(order[a] == d[a]);
                } else {
                    assert(last[i - fd.len()] == x);
                    assert(caches[order[order.len() - 1]].contains(x));
                }
            }
            if exists|a: int| 0 <= a < order.len() && caches[order[a]].contains(x) {
                let a = choose|a: int| 0 <= a < order.len() && caches[order[a]].contains(x);
                if a < order.len() - 1 {
                    assert(d[a] == order[a]);
                    assert(fd.contains(x));
                    let i = choose|i: int| 0 <= i < fd.len() && fd[i] == x;
                    assert(f[i] == x);
                } else {
                    let i = choose|i: int| 0 <= i < last.len() && last[i] == x;
                    assert(f[fd.len() + i] == x);
                }
            }
        }
    }
}

/// Taking one collector out of the order takes exactly its cache out of the
/// flat list's multiset.
proof fn lemma_flatten_remove(
    order: Seq<Seq<char>>,
    caches: Map<Seq<char>, Seq<MetricValueView>>,
    a: int,
)
    requires
        0 <= a < order.len(),
    ensures
        flatten(order, caches).to_multiset() == flatten(order.remove(a), caches).to_multiset().add(
            caches[order[a]].to_multiset(),
        ),
    decreases order.len(),
{
    broadcast use vstd::seq_lib::lemma_multiset_commutative;

    let d = order.drop_last();
    let last = caches[order.last()];
    if a == order.len() - 1 {
        assert(order.remove(a) =~= d);
    } else {
        lemma_flatten_remove(d, caches, a);
        let r = order.remove(a);
        assert(r.drop_last() =~= d.remove(a));
        assert(r.last() == order.last());
        assert(d[a] == order[a]);
        let fd = flatten(d, caches).to_multiset();
        let fdr = flatten(d.remove(a), caches).to_multiset();
        let m = caches[order[a]].to_multiset();
        assert(flatten(order, caches).to_multiset() =~= fd.add(last.to_multiset()));
        assert(flatten(r, caches).to_multiset() =~= fdr.add(last.to_multiset()));
        assert(fd =~= fdr.add(m));
        assert(fdr.add(m).add(last.to_multiset()) =~= fdr.add(last.to_multiset()).add(m));
    }
}

/// Two sequences without repetition list the same names.
pub open spec fn same_names(o1: Seq<Seq<char>>, o2: Seq<Seq<char>>) -> bool {
    &&& o1.no_duplicates()
    &&& o2.no_duplicates()
    &&& forall|k: Seq<char>| o1.contains(k) <==> o2.contains(k)
}

/// Listing the same collectors in another order gives the same multiset of metrics.
proof fn lemma_flatten_order_free(
    o1: Seq<Seq<char>>,
    o2: Seq<Seq<char>>,
    caches: Map<Seq<char>, Seq<MetricValueView>>,
)
    requires
        same_names(o1, o2),
    ensures
        flatten(o1, caches).to_multiset() == flatten(o2, caches).to_multiset(),
    decreases o1.len(),
{
    broadcast use vstd::seq_lib::lemma_multiset_commutative;

    if o1.len() == 0 {
        if o2.len() > 0 {
            assert(o2.contains(o2[0]));
        }
        assert(o2 =~= o1);
    } else {
        let k = o1.last();
        assert(o1.contains(k)) by {
            assert(o1[o1.len() - 1] == k);
        }
        let a = choose|a: int| 0 <= a < o2.len() && o2[a] == k;
        let d1 = o1.drop_last();
        let d2 = o2.remove(a);
        assert(same_names(d1, d2)) by {
            assert forall|x: Seq<char>| d1.contains(x) <==> d2.contains(x) by {
                if d1.contains(x) {
                    let i = choose|i: int| 0 <= i < d1.len() && d1[i] == x;
                    assert(o1[i] == x);
                    assert(x != k);
                    assert(o1.contains(x));
                    let j = choose|j: int| 0 <= j < o2.len() && o2[j] == x;
                    assert(j != a);
                    if j < a {
                        assert(d2[j] == x);
                    } else {
                        assert(d2[j - 1] == x);
                    }
                }
                if d2.contains(x) {
                    let j = choose|j: int| 0 <= j < d2.len() && d2[j] == x;
                    let jj = if j < a { j } else { j + 1 };
                    assert(o2[jj] == x);
                    assert(jj != a);
                    assert(x != k);
                    assert(o2.contains(x));
                    let i = choose|i: int| 0 <= i < o1.len() && o1[i] == x;
                    assert(i != o1.len() - 1);
                    assert(d1[i] == x);
                }
            }
            assert forall|i: int, j: int| 0 <= i < d2.len() && 0 <= j < d2.len() && i != j implies d2[i]
                != d2[j] by {
                let ii = if i < a { i } else { i + 1 };
                let jj = if j < a { j } else { j + 1 };
                assert(d2[i] == o2[ii]);
                assert(d2[j] == o2[jj]);
            }
        }
        lemma_flatten_order_free(d1, d2, caches);
        lemma_flatten_remove(o2, caches, a);
        assert(flatten(o1, caches).to_multiset() =~= flatten(d1, caches).to_multiset().add(
            caches[k].to_multiset(),
        ));
    }
}

/// `all_metrics` holds the same metrics, each as often, whatever order the
/// collectors are walked in: the multiset of the flat list is fixed by the store.
pub proof fn lemma_all_metrics_order_free(
    o1: Seq<Seq<char>>,
    o2: Seq<Seq<char>>,
    caches: Map<Seq<char>, Seq<MetricValueView>>,
)
    requires
        is_collector_order(o1, caches),
        is_collector_order(o2, caches),
    ensures
        flatten(o1, caches).to_multiset() == flatten(o2, caches).to_multiset(),
{
    assert(same_names(o1, o2)) by {
        assert forall|k: Seq<char>| o1.contains(k) <==> o2.contains(k) by {
            assert(caches.contains_key(k) <==> o1.contains(k));
            assert(caches.contains_key(k) <==> o2.contains(k));
        }
    }
    lemma_flatten_order_free(o1, o2, caches);
}

impl Default for MetricStore {
    fn default() -> (res: MetricStore)
        ensures
            res.view() == no_caches(),
            res.view().dom().finite(),
    {
        MetricStore::new()
    }
}

} // verus!
