//! The TCP coordinator's metrics: counters fed by edge reports and node
//! heartbeats, and the periodic summary computed from them.
use vstd::prelude::*;
use crate::common::CoordStatus;
use crate::stats::{
    ascending, collect_values_after, compute_percentiles, keep_later_than, keep_stamped_after,
    later_than, percentile_rank, stamped_after, values_after,
};
use crate::table::{position_of, Table, TableKey};

verus! {

/// Length of the window of recent samples, in milliseconds.
pub const WINDOW_MS: u64 = 60_000;

/// Milliseconds within which an edge's last heartbeat makes it active.
pub const ACTIVE_WITHIN_MS: u64 = 15_000;

/// A node, identified by its role and numeric id (the pair that the
/// coordinator prints as `"<role>_<id>"`).
pub struct NodeKey {
    pub role: String,
    pub node_id: u32,
}

impl View for NodeKey {
    type V = (Seq<char>, u32);

    open spec fn view(&self) -> (Seq<char>, u32) {
        (self.role@, self.node_id)
    }
}

impl TableKey for NodeKey {
    fn same_key(&self, other: &Self) -> (r: bool) {
        self.node_id == other.node_id && self.role == other.role
    }

    fn copy_key(&self) -> (r: Self) {
        NodeKey { role: self.role.clone(), node_id: self.node_id }
    }
}

/// `role` starts with `"edge"` (and so does the printed key `"<role>_<id>"`,
/// exactly when the role does).
pub open spec fn is_edge_role(role: Seq<char>) -> bool {
    role.len() >= 4 && role[0] == 'e' && role[1] == 'd' && role[2] == 'g' && role[3] == 'e'
}

pub fn role_is_edge(role: &String) -> (r: bool)
    ensures
        r == is_edge_role(role@),
{
    let s = role.as_str();
    if s.unicode_len() < 4 {
        return false;
    }
    s.get_char(0) == 'e' && s.get_char(1) == 'd' && s.get_char(2) == 'g' && s.get_char(3) == 'e'
}

/// An edge node whose last heartbeat at `ts` is less than
/// `ACTIVE_WITHIN_MS` old at `now`.
pub open spec fn active_edge_at(now: u64) -> spec_fn(((Seq<char>, u32), u64)) -> bool {
    |e: ((Seq<char>, u32), u64)| is_edge_role(e.0.0) && now - e.1 < ACTIVE_WITHIN_MS
}

/// One node's uptime in the periodic summary.
pub struct NodeUptime {
    pub role: String,
    pub node_id: u32,
    pub uptime_s: u64,
}

/// The periodic summary, with the counters of the period that just ended.
pub struct MetricsSnapshot {
    pub status: CoordStatus,
    /// Milliseconds since the previous summary.
    pub elapsed_ms: u64,
    pub readings_since_last: u64,
    /// Reports per edge during the period, in order of first report.
    pub edge_readings: Vec<(u32, u64)>,
    pub latency_p50_ms: u64,
    pub latency_p99_ms: u64,
    pub total_anomalies: u64,
    pub lost_messages: u64,
    /// Per node, in order of first heartbeat.
    pub node_uptimes: Vec<NodeUptime>,
}

pub struct Metrics {
    total_readings: u64,
    total_anomalies: u64,
    lost_messages: u64,
    last_throughput_calc: u64,
    readings_since_last: u64,
    edge_readings_since_last: Table<u32, u64>,
    latencies_60s: Vec<(u64, u64)>,
    anomalies_60s: Vec<u64>,
    node_first_seen: Table<NodeKey, u64>,
    node_last_seen: Table<NodeKey, u64>,
    last_sequence_per_edge: Table<u32, u64>,
    start_time: u64,
}

/// The sequence number expected next from an edge whose last one was `last`
/// (the received one itself for an edge not seen before).
pub open spec fn expected_sequence(last: Option<u64>, received: u64) -> int {
    match last {
        Some(l) => l + 1,
        None => received as int,
    }
}

impl Metrics {
    pub closed spec fn total_readings(&self) -> u64 {
        self.total_readings
    }

    pub closed spec fn total_anomalies(&self) -> u64 {
        self.total_anomalies
    }

    pub closed spec fn lost_messages(&self) -> u64 {
        self.lost_messages
    }

    pub closed spec fn last_throughput_calc(&self) -> u64 {
        self.last_throughput_calc
    }

    pub closed spec fn readings_since_last(&self) -> u64 {
        self.readings_since_last
    }

    /// Reports per edge since the last summary, in order of first report.
    pub closed spec fn edge_reading_entries(&self) -> Seq<(u32, u64)> {
        self.edge_readings_since_last.contents()
    }

    pub closed spec fn edge_readings(&self) -> Map<u32, u64> {
        self.edge_readings_since_last@
    }

    /// `(received_ms, e2e_latency_ms)` per report within the window.
    pub closed spec fn latencies(&self) -> Seq<(u64, u64)> {
        self.latencies_60s@
    }

    /// Reception times of anomalous reports within the window.
    pub closed spec fn anomalies(&self) -> Seq<u64> {
        self.anomalies_60s@
    }

    pub closed spec fn first_seen_entries(&self) -> Seq<((Seq<char>, u32), u64)> {
        self.node_first_seen.contents()
    }

    pub closed spec fn first_seen(&self) -> Map<(Seq<char>, u32), u64> {
        self.node_first_seen@
    }

    pub closed spec fn last_seen_entries(&self) -> Seq<((Seq<char>, u32), u64)> {
        self.node_last_seen.contents()
    }

    pub closed spec fn last_seen(&self) -> Map<(Seq<char>, u32), u64> {
        self.node_last_seen@
    }

    pub closed spec fn last_sequences(&self) -> Map<u32, u64> {
        self.last_sequence_per_edge@
    }

    pub closed spec fn start_time(&self) -> u64 {
        self.start_time
    }

    pub closed spec fn wf(&self) -> bool {
        &&& self.edge_readings_since_last.wf()
        &&& self.node_first_seen.wf()
        &&& self.node_last_seen.wf()
        &&& self.last_sequence_per_edge.wf()
    }

    /// Recording this report overflows none of the counters.
    pub open spec fn fits_report(&self, edge_id: u32, sequence: u64, anomaly: bool) -> bool {
        &&& self.total_readings() < u64::MAX
        &&& self.readings_since_last() < u64::MAX
        &&& self.edge_readings().contains_key(edge_id) ==> self.edge_readings()[edge_id]
            < u64::MAX
        &&& anomaly ==> self.total_anomalies() < u64::MAX
        &&& self.last_sequences().contains_key(edge_id) ==> {
            &&& self.last_sequences()[edge_id] < u64::MAX
            &&& sequence > self.last_sequences()[edge_id] + 1 ==> self.lost_messages() + (sequence
                - self.last_sequences()[edge_id] - 1) <= u64::MAX
        }
    }

    /// No timestamp that the summary at `now` subtracts from `now` lies after it.
    pub open spec fn clock_consistent(&self, now: u64) -> bool {
        &&& self.start_time() <= now
        &&& self.last_throughput_calc() <= now
        &&& forall|k: (Seq<char>, u32)| #[trigger]
            self.first_seen().contains_key(k) ==> self.first_seen()[k] <= now
        &&& forall|k: (Seq<char>, u32)| #[trigger]
            self.last_seen().contains_key(k) && is_edge_role(k.0) ==> self.last_seen()[k] <= now
    }

    /// Fresh metrics for a coordinator started at `now`.
    pub fn new(now: u64) -> (m: Self)
        ensures
            m.wf(),
            m.total_readings() == 0,
            m.total_anomalies() == 0,
            m.lost_messages() == 0,
            m.last_throughput_calc() == now,
            m.readings_since_last() == 0,
            m.edge_reading_entries() == Seq::<(u32, u64)>::empty(),
            m.latencies() == Seq::<(u64, u64)>::empty(),
            m.anomalies() == Seq::<u64>::empty(),
            m.first_seen_entries() == Seq::<((Seq<char>, u32), u64)>::empty(),
            m.last_seen_entries() == Seq::<((Seq<char>, u32), u64)>::empty(),
            m.last_sequences() == Map::<u32, u64>::empty(),
            m.edge_readings() == Map::<u32, u64>::empty(),
            m.first_seen() == Map::<(Seq<char>, u32), u64>::empty(),
            m.last_seen() == Map::<(Seq<char>, u32), u64>::empty(),
            m.start_time() == now,
    {
        Metrics {
            total_readings: 0,
            total_anomalies: 0,
            lost_messages: 0,
            last_throughput_calc: now,
            readings_since_last: 0,
            edge_readings_since_last: Table::new(),
            latencies_60s: Vec::new(),
            anomalies_60s: Vec::new(),
            node_first_seen: Table::new(),
            node_last_seen: Table::new(),
            last_sequence_per_edge: Table::new(),
            start_time: now,
        }
    }

    /// Whether `record_report` may be called with this report.
    pub fn accepts_report(&self, edge_id: u32, sequence: u64, anomaly: bool) -> (r: bool)
        requires
            self.wf(),
        ensures
            r == self.fits_report(edge_id, sequence, anomaly),
    {
        if self.total_readings == u64::MAX || self.readings_since_last == u64::MAX {
            return false;
        }
        if anomaly && self.total_anomalies == u64::MAX {
            return false;
        }
        match self.edge_readings_since_last.get(&edge_id) {
            Some(c) => {
                if *c == u64::MAX {
                    return false;
                }
            },
            None => {},
        }
        match self.last_sequence_per_edge.get(&edge_id) {
            Some(last) => {
                if *last == u64::MAX {
                    return false;
                }
                if sequence > *last + 1 {
                    sequence - *last - 1 <= u64::MAX - self.lost_messages
                } else {
                    true
                }
            },
            None => true,
        }
    }

    /// Whether the summary at `now` may be computed.
    pub fn consistent_at(&self, now: u64) -> (r: bool)
        requires
            self.wf(),
        ensures
            r == self.clock_consistent(now),
    {
        if self.start_time > now || self.last_throughput_calc > now {
            return false;
        }
        let mut i: usize = 0;
        while i < self.node_first_seen.len()
            invariant
                self.wf(),
                i <= self.node_first_seen.contents().len(),
                forall|j: int| 0 <= j < i ==> #[trigger] self.node_first_seen.contents()[j].1 <= now,
            decreases self.node_first_seen.contents().len() - i,
        {
            if *self.node_first_seen.value_at(i) > now {
                proof {
                    crate::table::lemma_position_of(self.node_first_seen.contents(), i as int);
                    assert(self.first_seen().contains_key(self.node_first_seen.contents()[i as int].0));
                }
                return false;
            }
            i += 1;
        }
        let mut j: usize = 0;
        while j < self.node_last_seen.len()
            invariant
                self.wf(),
                j <= self.node_last_seen.contents().len(),
                forall|m: int|
                    0 <= m < j ==> #[trigger] self.node_last_seen.contents()[m].1 <= now
                        || !is_edge_role(self.node_last_seen.contents()[m].0.0),
            decreases self.node_last_seen.contents().len() - j,
        {
            let key = self.node_last_seen.key_at(j);
            if role_is_edge(&key.role) && *self.node_last_seen.value_at(j) > now {
                proof {
                    crate::table::lemma_position_of(self.node_last_seen.contents(), j as int);
                    assert(self.last_seen().contains_key(self.node_last_seen.contents()[j as int].0));
                }
                return false;
            }
            j += 1;
        }
        proof {
            assert forall|k: (Seq<char>, u32)| #[trigger]
                self.first_seen().contains_key(k) implies self.first_seen()[k] <= now by {
                let s = self.node_first_seen.contents();
                crate::table::lemma_position_of(s, position_of(s, k));
            }
            assert forall|k: (Seq<char>, u32)| #[trigger]
                self.last_seen().contains_key(k) && is_edge_role(k.0) implies self.last_seen()[k]
                <= now by {
                let s = self.node_last_seen.contents();
                crate::table::lemma_position_of(s, position_of(s, k));
            }
        }
        true
    }

    /// Records a report from edge `edge_id` about a reading taken at
    /// `sensor_ts`, received at `now`; returns the number of messages found
    /// missing before it.
    pub fn record_report(
        &mut self,
        edge_id: u32,
        sequence: u64,
        sensor_ts: u64,
        anomaly: bool,
        now: u64,
    ) -> (lost: u64)
        requires
            old(self).wf(),
            old(self).fits_report(edge_id, sequence, anomaly),
        ensures
            final(self).wf(),
            final(self).total_readings() == old(self).total_readings() + 1,
            final(self).readings_since_last() == old(self).readings_since_last() + 1,
            final(self).edge_readings() == old(self).edge_readings().insert(
                edge_id,
                (if old(self).edge_readings().contains_key(edge_id) {
                    old(self).edge_readings()[edge_id] + 1
                } else {
                    1
                }) as u64,
            ),
            old(self).edge_readings().contains_key(edge_id) ==> final(self).edge_reading_entries()
                == old(self).edge_reading_entries().update(
                position_of(old(self).edge_reading_entries(), edge_id),
                (edge_id, (old(self).edge_readings()[edge_id] + 1) as u64),
            ),
            !old(self).edge_readings().contains_key(edge_id) ==> final(self).edge_reading_entries()
                == old(self).edge_reading_entries().push((edge_id, 1u64)),
            final(self).latencies() == old(self).latencies().push(
                (now, (if now >= sensor_ts {
                    now - sensor_ts
                } else {
                    0
                }) as u64),
            ),
            final(self).total_anomalies() == old(self).total_anomalies() + (if anomaly {
                1int
            } else {
                0int
            }),
            final(self).anomalies() == (if anomaly {
                old(self).anomalies().push(now)
            } else {
                old(self).anomalies()
            }),
            ({
                let last = if old(self).last_sequences().contains_key(edge_id) {
                    Some(old(self).last_sequences()[edge_id])
                } else {
                    None
                };
                let expected = expected_sequence(last, sequence);
                &&& lost == (if sequence > expected {
                    sequence - expected
                } else {
                    0
                })
            }),
            final(self).lost_messages() == old(self).lost_messages() + lost,
            final(self).last_sequences() == old(self).last_sequences().insert(edge_id, sequence),
            final(self).first_seen_entries() == old(self).first_seen_entries(),
            final(self).last_seen_entries() == old(self).last_seen_entries(),
            final(self).last_throughput_calc() == old(self).last_throughput_calc(),
            final(self).start_time() == old(self).start_time(),
    {
        self.total_readings = self.total_readings + 1;
        self.readings_since_last = self.readings_since_last + 1;
        let count: u64 = match self.edge_readings_since_last.get(&edge_id) {
            Some(c) => *c + 1,
            None => 1,
        };
        self.edge_readings_since_last.insert(edge_id, count);
        let e2e_latency = now.saturating_sub(sensor_ts);
        self.latencies_60s.push((now, e2e_latency));
        if anomaly {
            self.total_anomalies = self.total_anomalies + 1;
            self.anomalies_60s.push(now);
        }
        let expected: u64 = match self.last_sequence_per_edge.get(&edge_id) {
            Some(last) => *last + 1,
            None => sequence,
        };
        let mut lost: u64 = 0;
        if sequence > expected {
            lost = sequence - expected;
            self.lost_messages = self.lost_messages + lost;
        }
        self.last_sequence_per_edge.insert(edge_id, sequence);
        lost
    }

    /// Records a heartbeat of the node `(role, node_id)` stamped `timestamp_ms`.
    pub fn record_heartbeat(&mut self, role: &String, node_id: u32, timestamp_ms: u64)
        requires
            old(self).wf(),
        ensures
            final(self).wf(),
            final(self).first_seen() == (if old(self).first_seen().contains_key((role@, node_id)) {
                old(self).first_seen()
            } else {
                old(self).first_seen().insert((role@, node_id), timestamp_ms)
            }),
            !old(self).first_seen().contains_key((role@, node_id)) ==> final(self).first_seen_entries() == old(self).first_seen_entries().push(
                ((role@, node_id), timestamp_ms),
            ),
            old(self).first_seen().contains_key((role@, node_id)) ==> final(self).first_seen_entries() == old(self).first_seen_entries(),
            final(self).last_seen() == old(self).last_seen().insert((role@, node_id), timestamp_ms),
            final(self).total_readings() == old(self).total_readings(),
            final(self).total_anomalies() == old(self).total_anomalies(),
            final(self).lost_messages() == old(self).lost_messages(),
            final(self).readings_since_last() == old(self).readings_since_last(),
            final(self).edge_reading_entries() == old(self).edge_reading_entries(),
            final(self).latencies() == old(self).latencies(),
            final(self).anomalies() == old(self).anomalies(),
            final(self).last_sequences() == old(self).last_sequences(),
            final(self).last_throughput_calc() == old(self).last_throughput_calc(),
            final(self).start_time() == old(self).start_time(),
    {
        let key = NodeKey { role: role.clone(), node_id };
        if !self.node_first_seen.contains_key(&key) {
            self.node_first_seen.insert(key.copy_key(), timestamp_ms);
        }
        self.node_last_seen.insert(key, timestamp_ms);
    }

    /// The number of edge nodes whose last heartbeat is less than
    /// `ACTIVE_WITHIN_MS` old at `now`.
    fn count_active_edges(&self, now: u64) -> (n: usize)
        requires
            self.wf(),
            self.clock_consistent(now),
        ensures
            n == self.last_seen_entries().filter(active_edge_at(now)).len(),
    {
        let ghost s = self.last_seen_entries();
        let mut n: usize = 0;
        let mut i: usize = 0;
        while i < self.node_last_seen.len()
            invariant
                self.wf(),
                self.clock_consistent(now),
                s == self.last_seen_entries(),
                i <= s.len(),
                n == s.take(i as int).filter(active_edge_at(now)).len(),
                n <= i,
            decreases s.len() - i,
        {
            proof {
                reveal(Seq::filter);
                assert(s.take(i + 1).drop_last() =~= s.take(i as int));
                crate::table::lemma_position_of(s, i as int);
                assert(self.last_seen().contains_key(s[i as int].0));
            }
            let key = self.node_last_seen.key_at(i);
            if role_is_edge(&key.role) && now - *self.node_last_seen.value_at(i) < ACTIVE_WITHIN_MS {
                n = n + 1;
            }
            i += 1;
        }
        assert(s.take(s.len() as int) =~= s);
        n
    }

    /// Whole seconds since each node's first heartbeat, in order of first
    /// heartbeat.
    fn node_uptimes(&self, now: u64) -> (r: Vec<NodeUptime>)
        requires
            self.wf(),
            self.clock_consistent(now),
        ensures
            r@.len() == self.first_seen_entries().len(),
            forall|i: int|
                0 <= i < r@.len() ==> {
                    let e = #[trigger] self.first_seen_entries()[i];
                    &&& (r@[i].role@, r@[i].node_id) == e.0
                    &&& r@[i].uptime_s == (now - e.1) / 1000
                },
    {
        let ghost s = self.first_seen_entries();
        let mut r: Vec<NodeUptime> = Vec::new();
        let mut i: usize = 0;
        while i < self.node_first_seen.len()
            invariant
                self.wf(),
                self.clock_consistent(now),
                s == self.first_seen_entries(),
                i <= s.len(),
                r@.len() == i,
                forall|j: int|
                    0 <= j < i ==> {
                        let e = #[trigger] s[j];
                        &&& (r@[j].role@, r@[j].node_id) == e.0
                        &&& r@[j].uptime_s == (now - e.1) / 1000
                    },
            decreases s.len() - i,
        {
            proof {
                crate::table::lemma_position_of(s, i as int);
                assert(self.first_seen().contains_key(s[i as int].0));
            }
            let key = self.node_first_seen.key_at(i);
            let first = *self.node_first_seen.value_at(i);
            r.push(
                NodeUptime {
                    role: key.role.clone(),
                    node_id: key.node_id,
                    uptime_s: (now - first) / 1000,
                },
            );
            i += 1;
        }
        r
    }

    /// The reports per edge since the last summary, in order of first report.
    fn edge_reading_list(&self) -> (r: Vec<(u32, u64)>)
        ensures
            r@ == self.edge_reading_entries(),
    {
        let mut r: Vec<(u32, u64)> = Vec::new();
        let mut i: usize = 0;
        while i < self.edge_readings_since_last.len()
            invariant
                i <= self.edge_reading_entries().len(),
                r@ == self.edge_reading_entries().take(i as int),
            decreases self.edge_reading_entries().len() - i,
        {
            r.push((*self.edge_readings_since_last.key_at(i), *self.edge_readings_since_last.value_at(i)));
            assert(r@ =~= self.edge_reading_entries().take(i + 1));
            i += 1;
        }
        assert(r@ =~= self.edge_reading_entries());
        r
    }

    /// The periodic summary at `now`: drops samples older than a minute,
    /// summarises, and starts a new throughput period.
    pub fn tick(&mut self, now: u64) -> (snap: MetricsSnapshot)
        requires
            old(self).wf(),
            old(self).clock_consistent(now),
        ensures
            final(self).wf(),
            ({
                let cutoff = if now >= WINDOW_MS {
                    (now - WINDOW_MS) as u64
                } else {
                    0
                };
                let lats = old(self).latencies().filter(stamped_after(cutoff));
                let values = values_after(lats, cutoff);
                &&& final(self).latencies() == lats
                &&& final(self).anomalies() == old(self).anomalies().filter(later_than(cutoff))
                &&& snap.status.active_edges == old(self).last_seen_entries().filter(
                    active_edge_at(now),
                ).len() as u32
                &&& snap.status.total_readings == old(self).total_readings()
                &&& snap.status.anomalies_last_min == final(self).anomalies().len() as u32
                &&& snap.status.uptime_s == (now - old(self).start_time()) / 1000
                &&& values.len() == 0 ==> snap.latency_p50_ms == 0 && snap.latency_p99_ms == 0
                &&& values.len() > 0 ==> snap.latency_p50_ms == ascending(values)[percentile_rank(
                    values.len(),
                    50,
                ) as int] && snap.latency_p99_ms == ascending(values)[percentile_rank(
                    values.len(),
                    99,
                ) as int]
            }),
            snap.elapsed_ms == now - old(self).last_throughput_calc(),
            snap.readings_since_last == old(self).readings_since_last(),
            snap.edge_readings@ == old(self).edge_reading_entries(),
            snap.total_anomalies == old(self).total_anomalies(),
            snap.lost_messages == old(self).lost_messages(),
            snap.node_uptimes@.len() == old(self).first_seen_entries().len(),
            forall|i: int|
                0 <= i < snap.node_uptimes@.len() ==> {
                    let e = #[trigger] old(self).first_seen_entries()[i];
                    &&& (snap.node_uptimes@[i].role@, snap.node_uptimes@[i].node_id) == e.0
                    &&& snap.node_uptimes@[i].uptime_s == (now - e.1) / 1000
                },
            final(self).last_throughput_calc() == now,
            final(self).readings_since_last() == 0,
            final(self).edge_reading_entries() == Seq::<(u32, u64)>::empty(),
            final(self).total_readings() == old(self).total_readings(),
            final(self).total_anomalies() == old(self).total_anomalies(),
            final(self).lost_messages() == old(self).lost_messages(),
            final(self).first_seen_entries() == old(self).first_seen_entries(),
            final(self).last_seen_entries() == old(self).last_seen_entries(),
            final(self).last_sequences() == old(self).last_sequences(),
            final(self).start_time() == old(self).start_time(),
    {
        let active = self.count_active_edges(now);
        let node_uptimes = self.node_uptimes(now);
        let edge_readings = self.edge_reading_list();
        let cutoff = now.saturating_sub(WINDOW_MS);
        self.latencies_60s = keep_stamped_after(&self.latencies_60s, cutoff);
        self.anomalies_60s = keep_later_than(&self.anomalies_60s, cutoff);
        let elapsed_ms = now - self.last_throughput_calc;
        let lats = collect_values_after(&self.latencies_60s, cutoff);
        let (p50, p99) = compute_percentiles(lats.as_slice());
        let status = CoordStatus {
            active_edges: #[verifier::truncate] (active as u32),
            total_readings: self.total_readings,
            anomalies_last_min: #[verifier::truncate] (self.anomalies_60s.len() as u32),
            uptime_s: (now - self.start_time) / 1000,
        };
        let snap = MetricsSnapshot {
            status,
            elapsed_ms,
            readings_since_last: self.readings_since_last,
            edge_readings,
            latency_p50_ms: p50,
            latency_p99_ms: p99,
            total_anomalies: self.total_anomalies,
            lost_messages: self.lost_messages,
            node_uptimes,
        };
        self.last_throughput_calc = now;
        self.readings_since_last = 0;
        self.edge_readings_since_last = Table::new();
        snap
    }
}

/// A report counts as revealing the same loss here as in the HTTP
/// coordinator: nothing for an edge's first report, and the numbers skipped
/// after the last sequence number otherwise.
pub proof fn lemma_loss_agrees_with_gap(last: Option<u64>, sequence: u64)
    ensures
        (if sequence > expected_sequence(last, sequence) {
            sequence - expected_sequence(last, sequence)
        } else {
            0
        }) == (match last {
            Some(l) => crate::coordinator::sequence_gap(l, sequence),
            None => 0,
        }),
{
}

/// The number of active edges in the summary never exceeds the number of
/// nodes heard from.
pub proof fn lemma_active_edges_bounded(m: Metrics, now: u64)
    ensures
        m.last_seen_entries().filter(active_edge_at(now)).len() <= m.last_seen_entries().len(),
{
    m.last_seen_entries().lemma_filter_len(active_edge_at(now));
}

/// A node counts as an active edge exactly when its role begins with
/// `"edge"` and it was heard from less than 15 seconds before `now`, just now
/// included.
pub proof fn lemma_active_edge_exactly(now: u64, role: Seq<char>, node_id: u32, ts: u64)
    requires
        ts <= now,
    ensures
        active_edge_at(now)(((role, node_id), ts)) <==> (role.len() >= 4 && role.subrange(0, 4)
            == seq!['e', 'd', 'g', 'e'] && now - ts < 15_000),
{
    if role.len() >= 4 {
        assert(role.subrange(0, 4) =~= seq![role[0], role[1], role[2], role[3]]);
        if role.subrange(0, 4) == seq!['e', 'd', 'g', 'e'] {
            assert(role.subrange(0, 4)[0] == 'e' && role.subrange(0, 4)[1] == 'd'
                && role.subrange(0, 4)[2] == 'g' && role.subrange(0, 4)[3] == 'e');
        }
    }
}

} // verus!
