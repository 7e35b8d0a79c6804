//! The coordinator's aggregate state: reports and heartbeats received from
//! edge nodes, loss detection by sequence gaps, and the figures behind its
//! status and metrics endpoints.
use vstd::prelude::*;
use crate::stats::{
    ascending, collect_values_after, compute_percentiles, keep_later_than, keep_stamped_after,
    later_than, percentile_rank, stamped_after, values_after,
};
use crate::table::{position_of, Table};

verus! {

/// Seconds without a heartbeat after which an edge counts as lost.
pub const EDGE_TIMEOUT_SECS: u64 = 10;

/// The same limit in milliseconds: an edge silent this long is lost.
pub const EDGE_TIMEOUT_MS: u64 = 10_000;

/// Length of the window of recent samples, in milliseconds.
pub const METRICS_WINDOW_MS: u64 = 60_000;

/// The key `"<edge>:<sensor>"` under which the last sequence number of a
/// sensor, as forwarded by an edge, is kept.
pub open spec fn sequence_key(edge: Seq<char>, sensor: Seq<char>) -> Seq<char> {
    edge + seq![':'] + sensor
}

/// The number of sequence numbers skipped between `last` and `next`.
pub open spec fn sequence_gap(last: u64, next: u64) -> int {
    if next > last + 1 {
        next - last - 1
    } else {
        0
    }
}

/// Whole seconds elapsed from `ts` to `now`.
pub open spec fn seconds_since(now: u64, ts: u64) -> int {
    (now - ts) / 1000
}

/// A heartbeat received at `ts` still counts at `now`: less than
/// `EDGE_TIMEOUT_MS` of silence has passed.
pub open spec fn is_fresh(now: u64, ts: u64) -> bool {
    now - ts < EDGE_TIMEOUT_MS
}

pub open spec fn fresh_entry(now: u64) -> spec_fn((Seq<char>, u64)) -> bool {
    |e: (Seq<char>, u64)| is_fresh(now, e.1)
}

/// What the coordinator learned from one report.
pub struct ReportReceipt {
    /// Milliseconds from the report's creation to its receipt (0 if the
    /// edge's clock is ahead).
    pub e2e_latency_ms: u64,
    /// The sequence number that was expected, when the sensor was seen before.
    pub expected_sequence: Option<u64>,
    /// The number of messages found missing.
    pub lost: u64,
}

/// The counting figures of the status and metrics endpoints at one instant.
pub struct StatusCounts {
    pub active_edges: usize,
    pub total_readings: u64,
    pub anomalies_last_min: u64,
    pub anomalies_total: u64,
    pub messages_lost: u64,
    /// Reports received in the last minute.
    pub recent_readings: usize,
    pub latency_p50_ms: u64,
    pub latency_p99_ms: u64,
}

/// One edge's line in the metrics listing.
pub struct EdgeRow {
    pub edge_id: String,
    pub last_seen_s: u64,
    pub active: bool,
    pub uptime_s: u64,
}

pub struct CoordState {
    edge_heartbeats: Table<String, u64>,
    total_readings: u64,
    anomalies_total: u64,
    anomalies_last_min: u64,
    latency_window: Vec<(u64, u64)>,
    readings_window: Vec<u64>,
    edge_first_seen: Table<String, u64>,
    last_sequences: Table<String, u64>,
    messages_lost: u64,
}

impl CoordState {
    /// Each node that sent a heartbeat stands in the entries once, with the
    /// timestamp of its last heartbeat.
    pub proof fn lemma_entries_agree(&self)
        requires
            self.wf(),
        ensures
            crate::table::distinct_keys(self.heartbeat_entries()),
            forall|i: int|
                0 <= i < self.heartbeat_entries().len() ==> {
                    let e = #[trigger] self.heartbeat_entries()[i];
                    &&& self.heartbeats().contains_key(e.0)
                    &&& self.heartbeats()[e.0] == e.1
                    &&& position_of(self.heartbeat_entries(), e.0) == i
                },
            forall|k: Seq<char>| #[trigger]
                self.heartbeats().contains_key(k) ==> {
                    let p = position_of(self.heartbeat_entries(), k);
                    &&& 0 <= p < self.heartbeat_entries().len()
                    &&& self.heartbeat_entries()[p] == (k, self.heartbeats()[k])
                },
    {
        let s = self.heartbeat_entries();
        assert forall|i: int| 0 <= i < s.len() implies {
            let e = #[trigger] s[i];
            &&& self.heartbeats().contains_key(e.0)
            &&& self.heartbeats()[e.0] == e.1
            &&& position_of(s, e.0) == i
        } by {
            crate::table::lemma_position_of(s, i);
        }
        assert forall|k: Seq<char>| #[trigger] self.heartbeats().contains_key(k) implies {
            let p = position_of(s, k);
            &&& 0 <= p < s.len()
            &&& s[p] == (k, self.heartbeats()[k])
        } by {
            let p = position_of(s, k);
            crate::table::lemma_position_of(s, p);
        }
    }

    /// Last heartbeat timestamp per node, in order of first heartbeat.
    pub closed spec fn heartbeat_entries(&self) -> Seq<(Seq<char>, u64)> {
        self.edge_heartbeats.contents()
    }

    pub closed spec fn heartbeats(&self) -> Map<Seq<char>, u64> {
        self.edge_heartbeats@
    }

    /// When each edge's first report arrived.
    pub closed spec fn first_seen(&self) -> Map<Seq<char>, u64> {
        self.edge_first_seen@
    }

    /// The last sequence number seen per `sequence_key`.
    pub closed spec fn last_sequences(&self) -> Map<Seq<char>, u64> {
        self.last_sequences@
    }

    /// `(received_ms, e2e_latency_ms)` per report since the last pruning.
    pub closed spec fn latency_window(&self) -> Seq<(u64, u64)> {
        self.latency_window@
    }

    /// Reception times of reports since the last pruning.
    pub closed spec fn readings_window(&self) -> Seq<u64> {
        self.readings_window@
    }

    pub closed spec fn total_readings(&self) -> u64 {
        self.total_readings
    }

    pub closed spec fn anomalies_total(&self) -> u64 {
        self.anomalies_total
    }

    pub closed spec fn anomalies_last_min(&self) -> u64 {
        self.anomalies_last_min
    }

    pub closed spec fn messages_lost(&self) -> u64 {
        self.messages_lost
    }

    pub closed spec fn wf(&self) -> bool {
        &&& self.edge_heartbeats.wf()
        &&& self.edge_first_seen.wf()
        &&& self.last_sequences.wf()
    }

    /// Recording this report overflows none of the counters.
    pub open spec fn fits_report(
        &self,
        edge: Seq<char>,
        sensor: Seq<char>,
        sequence: u64,
        anomaly: bool,
    ) -> bool {
        let key = sequence_key(edge, sensor);
        &&& self.total_readings() < u64::MAX
        &&& anomaly ==> self.anomalies_total() < u64::MAX && self.anomalies_last_min() < u64::MAX
        &&& self.last_sequences().contains_key(key) ==> {
            &&& self.last_sequences()[key] < u64::MAX
            &&& self.messages_lost() + sequence_gap(self.last_sequences()[key], sequence)
                <= u64::MAX
        }
    }

    /// No heartbeat is stamped after `now`.
    pub open spec fn heartbeats_not_after(&self, now: u64) -> bool {
        forall|k: Seq<char>| #[trigger]
            self.heartbeats().contains_key(k) ==> self.heartbeats()[k] <= now
    }

    /// No timestamp that the edge listing at `now` subtracts from `now` lies
    /// after it: heartbeats, and first reports of the nodes that sent one.
    pub open spec fn clock_consistent(&self, now: u64) -> bool {
        &&& self.heartbeats_not_after(now)
        &&& forall|k: Seq<char>| #[trigger]
            self.first_seen().contains_key(k) && self.heartbeats().contains_key(k)
                ==> self.first_seen()[k] <= now
    }

    pub fn new() -> (s: Self)
        ensures
            s.wf(),
            s.heartbeat_entries() == Seq::<(Seq<char>, u64)>::empty(),
            s.heartbeats() == Map::<Seq<char>, u64>::empty(),
            s.first_seen() == Map::<Seq<char>, u64>::empty(),
            s.last_sequences() == Map::<Seq<char>, u64>::empty(),
            s.latency_window() == Seq::<(u64, u64)>::empty(),
            s.readings_window() == Seq::<u64>::empty(),
            s.total_readings() == 0,
            s.anomalies_total() == 0,
            s.anomalies_last_min() == 0,
            s.messages_lost() == 0,
    {
        CoordState {
            edge_heartbeats: Table::new(),
            total_readings: 0,
            anomalies_total: 0,
            anomalies_last_min: 0,
            latency_window: Vec::new(),
            readings_window: Vec::new(),
            edge_first_seen: Table::new(),
            last_sequences: Table::new(),
            messages_lost: 0,
        }
    }

    pub fn total_readings_count(&self) -> (n: u64)
        ensures
            n == self.total_readings(),
    {
        self.total_readings
    }

    pub fn anomalies_total_count(&self) -> (n: u64)
        ensures
            n == self.anomalies_total(),
    {
        self.anomalies_total
    }

    pub fn messages_lost_count(&self) -> (n: u64)
        ensures
            n == self.messages_lost(),
    {
        self.messages_lost
    }

    /// Whether `record_report` may be called with this report.
    pub fn accepts_report(&self, edge_id: &String, sensor_id: &String, sequence: u64, anomaly: bool) -> (r:
        bool)
        requires
            self.wf(),
        ensures
            r == self.fits_report(edge_id@, sensor_id@, sequence, anomaly),
    {
        let key = Self::make_sequence_key(edge_id, sensor_id);
        if self.total_readings == u64::MAX {
            return false;
        }
        if anomaly && (self.anomalies_total == u64::MAX || self.anomalies_last_min == u64::MAX) {
            return false;
        }
        match self.last_sequences.get(&key) {
            Some(last) => {
                if *last == u64::MAX {
                    return false;
                }
                let gap: u64 = if sequence > *last + 1 {
                    sequence - *last - 1
                } else {
                    0
                };
                gap <= u64::MAX - self.messages_lost
            },
            None => true,
        }
    }

    /// Whether no heartbeat is stamped after `now` (what the counts at
    /// `now` need).
    pub fn heartbeats_settled_at(&self, now: u64) -> (r: bool)
        requires
            self.wf(),
        ensures
            r == self.heartbeats_not_after(now),
    {
        let ghost s = self.heartbeat_entries();
        let mut i: usize = 0;
        while i < self.edge_heartbeats.len()
            invariant
                self.wf(),
                s == self.heartbeat_entries(),
                i <= s.len(),
                forall|j: int| 0 <= j < i ==> #[trigger] s[j].1 <= now,
            decreases s.len() - i,
        {
            if *self.edge_heartbeats.value_at(i) > now {
                proof {
                    crate::table::lemma_position_of(s, i as int);
                    assert(self.heartbeats().contains_key(s[i as int].0));
                }
                return false;
            }
            i += 1;
        }
        proof {
            assert forall|k: Seq<char>| #[trigger] self.heartbeats().contains_key(k) implies self.heartbeats()[k] <= now by {
                crate::table::lemma_position_of(s, position_of(s, k));
            }
        }
        true
    }

    /// Whether the edge listing at `now` may be computed.
    pub fn consistent_at(&self, now: u64) -> (r: bool)
        requires
            self.wf(),
        ensures
            r == self.clock_consistent(now),
    {
        if !self.heartbeats_settled_at(now) {
            return false;
        }
        let ghost s = self.heartbeat_entries();
        let mut i: usize = 0;
        while i < self.edge_heartbeats.len()
            invariant
                self.wf(),
                s == self.heartbeat_entries(),
                i <= s.len(),
                forall|j: int|
                    0 <= j < i ==> #[trigger] self.first_seen().contains_key(s[j].0) ==> self.first_seen()[s[j].0] <= now,
            decreases s.len() - i,
        {
            proof {
                crate::table::lemma_position_of(s, i as int);
            }
            match self.edge_first_seen.get(self.edge_heartbeats.key_at(i)) {
                Some(first) => {
                    if *first > now {
                        proof {
                            assert(self.heartbeats().contains_key(s[i as int].0));
                            assert(self.first_seen().contains_key(s[i as int].0));
                        }
                        return false;
                    }
                },
                None => {},
            }
            i += 1;
        }
        proof {
            assert forall|k: Seq<char>| #[trigger] self.first_seen().contains_key(k) && self.heartbeats().contains_key(k) implies self.first_seen()[k] <= now by {
                let p = position_of(s, k);
                crate::table::lemma_position_of(s, p);
                assert(self.first_seen().contains_key(s[p].0));
            }
        }
        true
    }

    fn make_sequence_key(edge_id: &String, sensor_id: &String) -> (key: String)
        ensures
            key@ == sequence_key(edge_id@, sensor_id@),
    {
        let mut key = edge_id.clone();
        proof {
            reveal_strlit(":");
        }
        key.append(":");
        key.append(sensor_id.as_str());
        assert(key@ =~= sequence_key(edge_id@, sensor_id@));
        key
    }

    /// Records a report from `edge_id` about `sensor_id`, created by the edge
    /// at `sent_ms` and received at `recv_ms`.
    pub fn record_report(
        &mut self,
        edge_id: &String,
        sensor_id: &String,
        sent_ms: u64,
        sequence: u64,
        anomaly: bool,
        recv_ms: u64,
    ) -> (r: ReportReceipt)
        requires
            old(self).wf(),
            old(self).fits_report(edge_id@, sensor_id@, sequence, anomaly),
        ensures
            final(self).wf(),
            r.e2e_latency_ms == (if recv_ms >= sent_ms {
                recv_ms - sent_ms
            } else {
                0
            }),
            ({
                let key = sequence_key(edge_id@, sensor_id@);
                let seqs = old(self).last_sequences();
                &&& seqs.contains_key(key) ==> r.expected_sequence == Some((seqs[key] + 1) as u64)
                    && r.lost == sequence_gap(seqs[key], sequence)
                &&& !seqs.contains_key(key) ==> r.expected_sequence.is_none() && r.lost == 0
                &&& final(self).last_sequences() == seqs.insert(key, sequence)
            }),
            final(self).messages_lost() == old(self).messages_lost() + r.lost,
            final(self).total_readings() == old(self).total_readings() + 1,
            final(self).anomalies_total() == old(self).anomalies_total() + (if anomaly {
                1int
            } else {
                0int
            }),
            final(self).anomalies_last_min() == old(self).anomalies_last_min() + (if anomaly {
                1int
            } else {
                0int
            }),
            final(self).latency_window() == old(self).latency_window().push(
                (recv_ms, r.e2e_latency_ms),
            ),
            final(self).readings_window() == old(self).readings_window().push(recv_ms),
            final(self).first_seen() == (if old(self).first_seen().contains_key(edge_id@) {
                old(self).first_seen()
            } else {
                old(self).first_seen().insert(edge_id@, recv_ms)
            }),
            final(self).heartbeat_entries() == old(self).heartbeat_entries(),
            final(self).heartbeats() == old(self).heartbeats(),
    {
        let e2e_latency_ms = recv_ms.saturating_sub(sent_ms);
        let key = Self::make_sequence_key(edge_id, sensor_id);
        let mut expected_sequence: Option<u64> = None;
        let mut lost: u64 = 0;
        match self.last_sequences.get(&key) {
            Some(last) => {
                let expected = *last + 1;
                expected_sequence = Some(expected);
                if sequence > expected {
                    lost = sequence - expected;
                    self.messages_lost = self.messages_lost + lost;
                }
            },
            None => {},
        }
        self.last_sequences.insert(key, sequence);
        self.total_readings = self.total_readings + 1;
        if anomaly {
            self.anomalies_total = self.anomalies_total + 1;
            self.anomalies_last_min = self.anomalies_last_min + 1;
        }
        self.latency_window.push((recv_ms, e2e_latency_ms));
        self.readings_window.push(recv_ms);
        if !self.edge_first_seen.contains_key(edge_id) {
            self.edge_first_seen.insert(edge_id.clone(), recv_ms);
        }
        ReportReceipt { e2e_latency_ms, expected_sequence, lost }
    }

    /// Records a heartbeat of `node_id` stamped `timestamp_ms`; returns
    /// whether the node was not registered before.
    pub fn record_heartbeat(&mut self, node_id: &String, timestamp_ms: u64) -> (was_absent: bool)
        requires
            old(self).wf(),
        ensures
            final(self).wf(),
            was_absent == !old(self).heartbeats().contains_key(node_id@),
            final(self).heartbeats() == old(self).heartbeats().insert(node_id@, timestamp_ms),
            was_absent ==> final(self).heartbeat_entries() == old(self).heartbeat_entries().push(
                (node_id@, timestamp_ms),
            ),
            !was_absent ==> final(self).heartbeat_entries() == old(self).heartbeat_entries().update(
                position_of(old(self).heartbeat_entries(), node_id@),
                (node_id@, timestamp_ms),
            ),
            final(self).first_seen() == old(self).first_seen(),
            final(self).last_sequences() == old(self).last_sequences(),
            final(self).latency_window() == old(self).latency_window(),
            final(self).readings_window() == old(self).readings_window(),
            final(self).total_readings() == old(self).total_readings(),
            final(self).anomalies_total() == old(self).anomalies_total(),
            final(self).anomalies_last_min() == old(self).anomalies_last_min(),
            final(self).messages_lost() == old(self).messages_lost(),
            old(self).heartbeats().contains_key(node_id@) && old(self).heartbeats()[node_id@]
                == timestamp_ms ==> final(self).heartbeat_entries() == old(
                self,
            ).heartbeat_entries(),
    {
        let ghost s = self.heartbeat_entries();
        proof {
            if self.heartbeats().contains_key(node_id@) {
                let p = position_of(s, node_id@);
                crate::table::lemma_position_of(s, p);
                assert(s.update(p, (node_id@, s[p].1)) =~= s);
            }
        }
        self.edge_heartbeats.insert(node_id.clone(), timestamp_ms)
    }

    /// Drops samples older than one minute before `now` and restarts the
    /// per-minute anomaly count.
    pub fn prune(&mut self, now: u64)
        requires
            old(self).wf(),
            now >= METRICS_WINDOW_MS,
        ensures
            final(self).wf(),
            final(self).latency_window() == old(self).latency_window().filter(
                stamped_after((now - METRICS_WINDOW_MS) as u64),
            ),
            final(self).readings_window() == old(self).readings_window().filter(
                later_than((now - METRICS_WINDOW_MS) as u64),
            ),
            final(self).anomalies_last_min() == 0,
            final(self).heartbeat_entries() == old(self).heartbeat_entries(),
            final(self).heartbeats() == old(self).heartbeats(),
            final(self).first_seen() == old(self).first_seen(),
            final(self).last_sequences() == old(self).last_sequences(),
            final(self).total_readings() == old(self).total_readings(),
            final(self).anomalies_total() == old(self).anomalies_total(),
            final(self).messages_lost() == old(self).messages_lost(),
    {
        let cutoff = now - METRICS_WINDOW_MS;
        self.latency_window = keep_stamped_after(&self.latency_window, cutoff);
        self.readings_window = keep_later_than(&self.readings_window, cutoff);
        self.anomalies_last_min = 0;
    }

    /// The number of nodes whose last heartbeat is at most
    /// `EDGE_TIMEOUT_MS` old at `now`.
    pub fn active_edges(&self, now: u64) -> (n: usize)
        requires
            self.wf(),
            self.heartbeats_not_after(now),
        ensures
            n == self.heartbeat_entries().filter(fresh_entry(now)).len(),
    {
        let ghost s = self.heartbeat_entries();
        let mut n: usize = 0;
        let mut i: usize = 0;
        while i < self.edge_heartbeats.len()
            invariant
                self.wf(),
                self.heartbeats_not_after(now),
                s == self.heartbeat_entries(),
                i <= s.len(),
                n == s.take(i as int).filter(fresh_entry(now)).len(),
                n <= i,
            decreases s.len() - i,
        {
            proof {
                reveal(Seq::filter);
                assert(s.take(i + 1).drop_last() =~= s.take(i as int));
                crate::table::lemma_position_of(s, i as int);
                assert(self.heartbeats().contains_key(s[i as int].0));
            }
            let ts = *self.edge_heartbeats.value_at(i);
            if now - ts < EDGE_TIMEOUT_MS {
                n = n + 1;
            }
            i += 1;
        }
        assert(s.take(s.len() as int) =~= s);
        n
    }

    /// The counting figures of the status and metrics endpoints at `now`.
    pub fn status_counts(&self, now: u64) -> (c: StatusCounts)
        requires
            self.wf(),
            self.heartbeats_not_after(now),
            now >= METRICS_WINDOW_MS,
        ensures
            ({
                let cutoff = (now - METRICS_WINDOW_MS) as u64;
                let recent = values_after(self.latency_window(), cutoff);
                &&& c.active_edges == self.heartbeat_entries().filter(fresh_entry(now)).len()
                &&& c.total_readings == self.total_readings()
                &&& c.anomalies_last_min == self.anomalies_last_min()
                &&& c.anomalies_total == self.anomalies_total()
                &&& c.messages_lost == self.messages_lost()
                &&& c.recent_readings == self.readings_window().filter(later_than(cutoff)).len()
                &&& recent.len() == 0 ==> c.latency_p50_ms == 0 && c.latency_p99_ms == 0
                &&& recent.len() > 0 ==> c.latency_p50_ms == ascending(recent)[percentile_rank(
                    recent.len(),
                    50,
                ) as int] && c.latency_p99_ms == ascending(recent)[percentile_rank(
                    recent.len(),
                    99,
                ) as int]
            }),
    {
        let cutoff = now - METRICS_WINDOW_MS;
        let active_edges = self.active_edges(now);
        let recent = collect_values_after(&self.latency_window, cutoff);
        let (p50, p99) = compute_percentiles(recent.as_slice());
        let recent_readings = keep_later_than(&self.readings_window, cutoff).len();
        StatusCounts {
            active_edges,
            total_readings: self.total_readings,
            anomalies_last_min: self.anomalies_last_min,
            anomalies_total: self.anomalies_total,
            messages_lost: self.messages_lost,
            recent_readings,
            latency_p50_ms: p50,
            latency_p99_ms: p99,
        }
    }

    /// The nodes whose last heartbeat is at least `EDGE_TIMEOUT_MS` old at
    /// `now`, with the whole seconds of silence, in order of first heartbeat.
    pub fn stale_edges(&self, now: u64) -> (r: Vec<(String, u64)>)
        requires
            self.wf(),
            self.heartbeats_not_after(now),
        ensures
            r@.map_values(|e: (String, u64)| (e.0@, e.1 as int)) == self.heartbeat_entries().filter(
                |e: (Seq<char>, u64)| !is_fresh(now, e.1),
            ).map_values(|e: (Seq<char>, u64)| (e.0, seconds_since(now, e.1))),
    {
        let ghost s = self.heartbeat_entries();
        let ghost stale = |e: (Seq<char>, u64)| !is_fresh(now, e.1);
        let ghost shown = |e: (String, u64)| (e.0@, e.1 as int);
        let ghost age = |e: (Seq<char>, u64)| (e.0, seconds_since(now, e.1));
        let mut r: Vec<(String, u64)> = Vec::new();
        let mut i: usize = 0;
        while i < self.edge_heartbeats.len()
            invariant
                self.wf(),
                self.heartbeats_not_after(now),
                s == self.heartbeat_entries(),
                stale == (|e: (Seq<char>, u64)| !is_fresh(now, e.1)),
                shown == (|e: (String, u64)| (e.0@, e.1 as int)),
                age == (|e: (Seq<char>, u64)| (e.0, seconds_since(now, e.1))),
                i <= s.len(),
                r@.map_values(shown) == s.take(i as int).filter(stale).map_values(age),
            decreases s.len() - i,
        {
            proof {
                reveal(Seq::filter);
                assert(s.take(i + 1).drop_last() =~= s.take(i as int));
                crate::table::lemma_position_of(s, i as int);
                assert(self.heartbeats().contains_key(s[i as int].0));
            }
            let ts = *self.edge_heartbeats.value_at(i);
            let elapsed = (now - ts) / 1000;
            if now - ts >= EDGE_TIMEOUT_MS {
                let ghost before = r@;
                r.push((self.edge_heartbeats.key_at(i).clone(), elapsed));
                assert(r@.map_values(shown) =~= before.map_values(shown).push(age(s[i as int])));
                assert(s.take(i + 1).filter(stale) == s.take(i as int).filter(stale).push(s[i as int]));
                assert(s.take(i + 1).filter(stale).map_values(age) =~= s.take(i as int).filter(
                    stale,
                ).map_values(age).push(age(s[i as int])));
            } else {
                assert(s.take(i + 1).filter(stale) == s.take(i as int).filter(stale));
            }
            i += 1;
        }
        assert(s.take(s.len() as int) =~= s);
        r
    }

    /// One row per node that sent a heartbeat, in order of first heartbeat:
    /// seconds since its last heartbeat, whether it is still active, and the
    /// whole seconds since its first report (0 if it never reported).
    pub fn edge_rows(&self, now: u64) -> (rows: Vec<EdgeRow>)
        requires
            self.wf(),
            self.clock_consistent(now),
        ensures
            rows@.len() == self.heartbeat_entries().len(),
            forall|i: int|
                0 <= i < rows@.len() ==> {
                    let e = #[trigger] self.heartbeat_entries()[i];
                    &&& rows@[i].edge_id@ == e.0
                    &&& rows@[i].last_seen_s == seconds_since(now, e.1)
                    &&& rows@[i].active == is_fresh(now, e.1)
                    &&& rows@[i].uptime_s == (if self.first_seen().contains_key(e.0) {
                        seconds_since(now, self.first_seen()[e.0])
                    } else {
                        0
                    })
                },
    {
        let ghost s = self.heartbeat_entries();
        let mut rows: Vec<EdgeRow> = Vec::new();
        let mut i: usize = 0;
        while i < self.edge_heartbeats.len()
            invariant
                self.wf(),
                self.clock_consistent(now),
                s == self.heartbeat_entries(),
                i <= s.len(),
                rows@.len() == i,
                forall|j: int|
                    0 <= j < i ==> {
                        let e = #[trigger] s[j];
                        &&& rows@[j].edge_id@ == e.0
                        &&& rows@[j].last_seen_s == seconds_since(now, e.1)
                        &&& rows@[j].active == is_fresh(now, e.1)
                        &&& rows@[j].uptime_s == (if self.first_seen().contains_key(e.0) {
                            seconds_since(now, self.first_seen()[e.0])
                        } else {
                            0
                        })
                    },
            decreases s.len() - i,
        {
            proof {
                crate::table::lemma_position_of(s, i as int);
                assert(self.heartbeats().contains_key(s[i as int].0));
                if self.first_seen().contains_key(s[i as int].0) {
                    assert(self.first_seen()[s[i as int].0] <= now);
                }
            }
            let edge_id = self.edge_heartbeats.key_at(i);
            let ts = *self.edge_heartbeats.value_at(i);
            let last_seen_s = (now - ts) / 1000;
            let uptime_s = match self.edge_first_seen.get(edge_id) {
                Some(first) => (now - *first) / 1000,
                None => 0,
            };
            rows.push(
                EdgeRow {
                    edge_id: edge_id.clone(),
                    last_seen_s,
                    active: now - ts < EDGE_TIMEOUT_MS,
                    uptime_s,
                },
            );
            i += 1;
        }
        rows
    }
}

/// The messages counted lost while the reports of one sensor carry the
/// sequence numbers `seqs`, after the last one seen was `last`.
pub open spec fn losses_over(last: Option<u64>, seqs: Seq<u64>) -> int
    decreases seqs.len(),
{
    if seqs.len() == 0 {
        0
    } else {
        (match last {
            Some(l) => sequence_gap(l, seqs[0]),
            None => 0,
        }) + losses_over(Some(seqs[0]), seqs.drop_first())
    }
}

pub open spec fn strictly_increasing(seqs: Seq<u64>) -> bool {
    forall|i: int, j: int| 0 <= i < j < seqs.len() ==> seqs[i] < seqs[j]
}

/// Dropping the first number of a strictly increasing run leaves one.
proof fn lemma_tail_increasing(seqs: Seq<u64>)
    requires
        seqs.len() > 1,
        strictly_increasing(seqs),
    ensures
        strictly_increasing(seqs.drop_first()),
        seqs[0] < seqs.drop_first()[0],
        seqs.drop_first().last() == seqs.last(),
{
    let rest = seqs.drop_first();
    assert forall|i: int, j: int| 0 <= i < j < rest.len() implies rest[i] < rest[j] by {
        assert(rest[i] == seqs[i + 1] && rest[j] == seqs[j + 1]);
    }
}

/// The losses counted over a run after its first number: the numbers missing
/// between its first and its last.
proof fn lemma_losses_of_tail(seqs: Seq<u64>)
    requires
        seqs.len() > 0,
        strictly_increasing(seqs),
    ensures
        losses_over(Some(seqs[0]), seqs.drop_first()) == seqs.last() - seqs[0] - (seqs.len() - 1),
    decreases seqs.len(),
{
    let rest = seqs.drop_first();
    if rest.len() > 0 {
        lemma_tail_increasing(seqs);
        lemma_losses_of_tail(rest);
        assert(losses_over(Some(seqs[0]), rest) == sequence_gap(seqs[0], rest[0]) + losses_over(
            Some(rest[0]),
            rest.drop_first(),
        ));
    } else {
        assert(losses_over(Some(seqs[0]), rest) == 0);
    }
}

/// For a strictly increasing run of sequence numbers of one sensor, the
/// coordinator counts as lost exactly the numbers missing between the first
/// and the last of the run.
pub proof fn lemma_losses_count_missing(seqs: Seq<u64>)
    requires
        seqs.len() > 0,
        strictly_increasing(seqs),
    ensures
        losses_over(None, seqs) == seqs.last() - seqs[0] - (seqs.len() - 1),
{
    lemma_losses_of_tail(seqs);
    assert(losses_over(None, seqs) == losses_over(Some(seqs[0]), seqs.drop_first()));
}

/// A repeated or out-of-order sequence number is never counted as a loss.
pub proof fn lemma_no_loss_without_gap(last: u64, next: u64)
    requires
        next <= last + 1,
    ensures
        sequence_gap(last, next) == 0,
{
}

/// A node is reported lost exactly once `EDGE_TIMEOUT_SECS` seconds of
/// silence have passed, and then shows at least that many whole seconds since
/// its last heartbeat; a node heard from within that time (a live edge sends a
/// heartbeat every few seconds) stays active.
pub proof fn lemma_lost_iff_timeout(now: u64, ts: u64)
    requires
        ts <= now,
    ensures
        !is_fresh(now, ts) <==> now - ts >= 10_000,
        !is_fresh(now, ts) ==> seconds_since(now, ts) >= 10,
        is_fresh(now, ts) ==> seconds_since(now, ts) < 10,
{
}

/// The number of active edges never exceeds the number of nodes heard from.
pub proof fn lemma_active_edges_bounded(c: CoordState, now: u64)
    ensures
        c.heartbeat_entries().filter(fresh_entry(now)).len() <= c.heartbeat_entries().len(),
{
    c.heartbeat_entries().lemma_filter_len(fresh_entry(now));
}

/// Replacing one element changes the number kept by a filter by what the
/// old and the new element contribute.
proof fn lemma_filter_len_update<A>(s: Seq<A>, p: int, x: A, f: spec_fn(A) -> bool)
    requires
        0 <= p < s.len(),
    ensures
        s.update(p, x).filter(f).len() + (if f(s[p]) {
            1int
        } else {
            0int
        }) == s.filter(f).len() + (if f(x) {
            1int
        } else {
            0int
        }),
    decreases s.len(),
{
    reveal(Seq::filter);
    let t = s.update(p, x);
    if p == s.len() - 1 {
        assert(t.drop_last() =~= s.drop_last());
    } else {
        assert(t.drop_last() =~= s.drop_last().update(p, x));
        lemma_filter_len_update(s.drop_last(), p, x, f);
    }
}

/// Appending one element adds one to a filter's count exactly when the
/// filter keeps it.
proof fn lemma_filter_len_push<A>(s: Seq<A>, x: A, f: spec_fn(A) -> bool)
    ensures
        s.push(x).filter(f).len() == s.filter(f).len() + (if f(x) {
            1int
        } else {
            0int
        }),
{
    reveal(Seq::filter);
    assert(s.push(x).drop_last() =~= s);
}

/// Two sequences of the same length whose elements the two filters judge
/// alike, position by position, keep the same number of elements.
proof fn lemma_filter_len_agree<A, B>(
    a: Seq<A>,
    b: Seq<B>,
    fa: spec_fn(A) -> bool,
    fb: spec_fn(B) -> bool,
)
    requires
        a.len() == b.len(),
        forall|i: int| #![trigger a[i], b[i]] 0 <= i < a.len() ==> fa(a[i]) == fb(b[i]),
    ensures
        a.filter(fa).len() == b.filter(fb).len(),
    decreases a.len(),
{
    reveal(Seq::filter);
    if a.len() > 0 {
        let a2 = a.drop_last();
        let b2 = b.drop_last();
        assert forall|i: int| #![trigger a2[i], b2[i]] 0 <= i < a2.len() implies fa(a2[i]) == fb(
            b2[i],
        ) by {
            assert(a2[i] == a[i] && b2[i] == b[i]);
        }
        lemma_filter_len_agree(a2, b2, fa, fb);
        assert(fa(a.last()) == fb(b.last()));
    }
}

/// The metrics listing marks as active exactly as many edges as the status
/// figures count: given the rows that `edge_rows` lists at `now`, the active
/// rows number `status_counts(now).active_edges`.
pub proof fn lemma_listing_agrees_with_status(c: CoordState, rows: Seq<EdgeRow>, now: u64)
    requires
        rows.len() == c.heartbeat_entries().len(),
        forall|i: int|
            0 <= i < rows.len() ==> #[trigger] rows[i].active == is_fresh(
                now,
                c.heartbeat_entries()[i].1,
            ),
    ensures
        rows.filter(|r: EdgeRow| r.active).len() == c.heartbeat_entries().filter(
            fresh_entry(now),
        ).len(),
{
    let s = c.heartbeat_entries();
    let fr = |r: EdgeRow| r.active;
    assert forall|i: int| #![trigger rows[i], s[i]] 0 <= i < rows.len() implies fr(rows[i])
        == fresh_entry(now)(s[i]) by {}
    lemma_filter_len_agree(rows, s, fr, fresh_entry(now));
}

/// A heartbeat stamped within the timeout makes its node count as active: a
/// node that was new or lost adds one to the active edges, one that was
/// already active leaves their number as it was. (The entries after
/// `record_heartbeat` are the pushed or updated sequence below.)
pub proof fn lemma_heartbeat_counted_once(c: CoordState, k: Seq<char>, ts: u64, now: u64)
    requires
        c.wf(),
        is_fresh(now, ts),
    ensures
        !c.heartbeats().contains_key(k) ==> c.heartbeat_entries().push((k, ts)).filter(
            fresh_entry(now),
        ).len() == c.heartbeat_entries().filter(fresh_entry(now)).len() + 1,
        c.heartbeats().contains_key(k) ==> c.heartbeat_entries().update(
            position_of(c.heartbeat_entries(), k),
            (k, ts),
        ).filter(fresh_entry(now)).len() == c.heartbeat_entries().filter(fresh_entry(now)).len()
            + (if is_fresh(now, c.heartbeats()[k]) {
            0int
        } else {
            1int
        }),
{
    let s = c.heartbeat_entries();
    let f = fresh_entry(now);
    c.lemma_entries_agree();
    lemma_filter_len_push(s, (k, ts), f);
    if c.heartbeats().contains_key(k) {
        let p = position_of(s, k);
        lemma_filter_len_update(s, p, (k, ts), f);
    }
}

/// The seconds shown for a gap are the whole seconds within it, however
/// long the gap: the largest count of seconds whose milliseconds do not exceed
/// it.
pub proof fn lemma_seconds_since_whole(now: u64, ts: u64)
    requires
        ts <= now,
    ensures
        seconds_since(now, ts) * 1000 <= now - ts,
        now - ts < (seconds_since(now, ts) + 1) * 1000,
{
}

/// Sequence numbers are kept apart per edge and sensor: for edge names
/// without `':'`, two pairs share a key only when they are the same pair.
pub proof fn lemma_sequence_key_distinguishes(
    e1: Seq<char>,
    s1: Seq<char>,
    e2: Seq<char>,
    s2: Seq<char>,
)
    requires
        !e1.contains(':'),
        !e2.contains(':'),
        sequence_key(e1, s1) == sequence_key(e2, s2),
    ensures
        e1 == e2,
        s1 == s2,
{
    let k = sequence_key(e1, s1);
    if e1.len() < e2.len() {
        assert(k[e1.len() as int] == ':');
        assert(k[e1.len() as int] == e2[e1.len() as int]);
        assert(e2.contains(':'));
    } else if e2.len() < e1.len() {
        assert(k[e2.len() as int] == ':');
        assert(k[e2.len() as int] == e1[e2.len() as int]);
        assert(e1.contains(':'));
    }
    assert(e1 =~= k.subrange(0, e1.len() as int));
    assert(e2 =~= k.subrange(0, e2.len() as int));
    assert(s1 =~= k.subrange(e1.len() + 1int, k.len() as int));
    assert(s2 =~= k.subrange(e2.len() + 1int, k.len() as int));
}

/// The coordinators keep one minute of samples, an HTTP edge is lost after
/// ten seconds of silence, a TCP edge counts as active for fifteen, and an
/// edge averages its last ten readings of a sensor; a sensor pauses ten
/// seconds after ten readings dropped in a row.
pub proof fn lemma_time_limits()
    ensures
        METRICS_WINDOW_MS == 60_000,
        crate::metrics::WINDOW_MS == 60_000,
        EDGE_TIMEOUT_MS == 10_000,
        EDGE_TIMEOUT_SECS == 10,
        crate::metrics::ACTIVE_WITHIN_MS == 15_000,
        crate::window::WINDOW_SIZE == 10,
        crate::delivery::FAILURE_PAUSE_THRESHOLD == 10,
        crate::delivery::FAILURE_PAUSE_MS == 10_000,
{
}

} // verus!
