//! Per-sensor sliding windows of the most recent readings, kept by edge
//! nodes to compute moving averages.
use vstd::prelude::*;
use std::collections::HashMap;
use crate::table::Table;

verus! {

broadcast use vstd::std_specs::hash::group_hash_axioms;

/// Appends `v` to the window `w` of at most `n` values, dropping the oldest
/// value when the window grows past `n`.
pub open spec fn slide<T>(w: Seq<T>, v: T, n: nat) -> Seq<T> {
    let p = w.push(v);
    if p.len() > n {
        p.drop_first()
    } else {
        p
    }
}

/// The window left after sliding the values `vs` into `w`, in order.
pub open spec fn slide_all<T>(w: Seq<T>, vs: Seq<T>, n: nat) -> Seq<T>
    decreases vs.len(),
{
    if vs.len() == 0 {
        w
    } else {
        slide(slide_all(w, vs.drop_last(), n), vs.last(), n)
    }
}

/// Starting from an empty window, the window holds exactly the last
/// `min(n, k)` of the `k` values pushed, oldest first.
pub proof fn lemma_window_is_suffix<T>(vs: Seq<T>, n: nat)
    ensures
        slide_all(Seq::<T>::empty(), vs, n) == vs.subrange(
            vs.len() - (if n < vs.len() {
                n
            } else {
                vs.len()
            }),
            vs.len() as int,
        ),
    decreases vs.len(),
{
    if vs.len() > 0 {
        let k = vs.len();
        let prev = vs.drop_last();
        lemma_window_is_suffix(prev, n);
        let m = if n < prev.len() {
            n
        } else {
            prev.len()
        };
        assert(prev.subrange(prev.len() - m, prev.len() as int).push(vs.last()) =~= vs.subrange(
            k - 1 - m,
            k as int,
        ));
        if m + 1 > n {
            assert(vs.subrange(k - 1 - m, k as int).drop_first() =~= vs.subrange(
                k - n,
                k as int,
            ));
        }
    } else {
        assert(vs.subrange(0, 0) =~= Seq::<T>::empty());
    }
}

/// Sliding a value into a window of at most `n` values leaves at most `n`.
pub proof fn lemma_slide_bounded<T>(w: Seq<T>, v: T, n: nat)
    requires
        w.len() <= n,
    ensures
        slide(w, v, n).len() <= n,
        slide(w, v, n).last() == v || n == 0,
{
}

/// The windows of the TCP edge, one per sensor id, of at most `window_size`
/// readings each.
pub struct MovingAverage<T> {
    window_size: usize,
    buffer: HashMap<u32, Vec<T>>,
}

impl<T> MovingAverage<T> {
    pub closed spec fn window_size(&self) -> nat {
        self.window_size as nat
    }

    /// The readings kept for `sensor_id`, oldest first.
    pub closed spec fn window(&self, sensor_id: u32) -> Seq<T> {
        if self.buffer@.contains_key(sensor_id) {
            self.buffer@[sensor_id]@
        } else {
            Seq::empty()
        }
    }

    pub fn new(window_size: usize) -> (m: Self)
        ensures
            m.window_size() == window_size,
            forall|id: u32| #[trigger] m.window(id) == Seq::<T>::empty(),
    {
        MovingAverage { window_size, buffer: HashMap::new() }
    }

    /// Slides `value` into the window of `sensor_id` and returns that window.
    pub fn filter(&mut self, sensor_id: u32, value: T) -> (w: &Vec<T>)
        ensures
            final(self).window_size() == old(self).window_size(),
            final(self).window(sensor_id) == slide(
                old(self).window(sensor_id),
                value,
                old(self).window_size(),
            ),
            forall|id: u32| id != sensor_id ==> #[trigger] final(self).window(id) == old(self).window(id),
            w@ == final(self).window(sensor_id),
    {
        let mut buf = match self.buffer.remove(&sensor_id) {
            Some(b) => b,
            None => Vec::new(),
        };
        buf.push(value);
        if buf.len() > self.window_size {
            buf.remove(0);
        }
        self.buffer.insert(sensor_id, buf);
        proof {
            assert(self.buffer@.contains_key(sensor_id));
        }
        self.buffer.get(&sensor_id).unwrap()
    }

    /// The readings kept for `sensor_id`, oldest first.
    pub fn window_of(&self, sensor_id: u32) -> (w: Option<&Vec<T>>)
        ensures
            match w {
                Some(v) => v@ == self.window(sensor_id),
                None => self.window(sensor_id) == Seq::<T>::empty(),
            },
    {
        self.buffer.get(&sensor_id)
    }
}

/// Readings per window at the HTTP edge.
pub const WINDOW_SIZE: usize = 10;

/// The readings kept for one sensor and the number of readings received.
pub struct SensorTrack<T> {
    pub window: Vec<T>,
    pub count: u64,
}

/// What the HTTP edge learned from one reading.
pub struct Ingested {
    /// Milliseconds from the reading's creation to its receipt (0 if the
    /// sensor's clock is ahead).
    pub latency_ms: u64,
    /// Readings received from this sensor so far, this one included.
    pub sample_count: u64,
}

/// What the HTTP edge keeps of a sensor `k` in the state `m`: its window,
/// empty for a sensor never heard from.
pub open spec fn window_in<T>(m: Map<Seq<char>, (Seq<T>, nat)>, k: Seq<char>) -> Seq<T> {
    if m.contains_key(k) {
        m[k].0
    } else {
        Seq::empty()
    }
}

/// How many readings of sensor `k` the state `m` counts, 0 for a sensor
/// never heard from.
pub open spec fn count_in<T>(m: Map<Seq<char>, (Seq<T>, nat)>, k: Seq<char>) -> nat {
    if m.contains_key(k) {
        m[k].1
    } else {
        0
    }
}

/// The state after a reading of `v` from sensor `k`: its window slides by
/// `v` and its count grows by one; every other sensor stays as it was.
pub open spec fn after_reading<T>(m: Map<Seq<char>, (Seq<T>, nat)>, k: Seq<char>, v: T) -> Map<
    Seq<char>,
    (Seq<T>, nat),
> {
    m.insert(k, (slide(window_in(m, k), v, WINDOW_SIZE as nat), count_in(m, k) + 1))
}

/// Readings of two different sensors commute: either order leaves the same
/// windows and counts, and each sensor ends with the window and count that
/// its own reading gives.
pub proof fn lemma_readings_commute<T>(
    m: Map<Seq<char>, (Seq<T>, nat)>,
    a: Seq<char>,
    va: T,
    b: Seq<char>,
    vb: T,
)
    requires
        a != b,
    ensures
        after_reading(after_reading(m, a, va), b, vb) == after_reading(
            after_reading(m, b, vb),
            a,
            va,
        ),
        after_reading(after_reading(m, a, va), b, vb)[a] == after_reading(m, a, va)[a],
        after_reading(after_reading(m, a, va), b, vb)[b] == after_reading(m, b, vb)[b],
{
    assert(window_in(after_reading(m, a, va), b) == window_in(m, b));
    assert(count_in(after_reading(m, a, va), b) == count_in(m, b));
    assert(window_in(after_reading(m, b, vb), a) == window_in(m, a));
    assert(count_in(after_reading(m, b, vb), a) == count_in(m, a));
    assert(after_reading(after_reading(m, a, va), b, vb) =~= after_reading(
        after_reading(m, b, vb),
        a,
        va,
    ));
}

/// A window of at most `n > 0` values, slid by `v`: `v` appended, and the
/// oldest value dropped when the window was full; it then holds between 1
/// and `n` values.
pub proof fn lemma_slide_shape<T>(w: Seq<T>, v: T, n: nat)
    requires
        0 < n,
        w.len() <= n,
    ensures
        slide(w, v, n) == (if w.len() < n {
            w.push(v)
        } else {
            w.drop_first().push(v)
        }),
        1 <= slide(w, v, n).len() <= n,
{
    if w.len() == n {
        assert(w.push(v).drop_first() =~= w.drop_first().push(v));
    }
}

/// The windows of the HTTP edge, keyed by sensor name.
pub struct SensorWindows<T> {
    tracks: Table<String, SensorTrack<T>>,
}

impl<T> SensorWindows<T> {
    pub closed spec fn wf(&self) -> bool {
        &&& self.tracks.wf()
        &&& forall|k: Seq<char>| #[trigger]
            self.tracks@.contains_key(k) ==> self.tracks@[k].window@.len() <= WINDOW_SIZE
    }

    /// Whether any reading of `sensor` was received.
    pub closed spec fn knows(&self, sensor: Seq<char>) -> bool {
        self.tracks@.contains_key(sensor)
    }

    /// The readings kept for `sensor`, oldest first (never more than
    /// `WINDOW_SIZE`, see `window_bounded`).
    pub closed spec fn window(&self, sensor: Seq<char>) -> Seq<T> {
        if self.knows(sensor) {
            self.tracks@[sensor].window@
        } else {
            Seq::empty()
        }
    }

    /// The number of readings received from `sensor`.
    pub closed spec fn count(&self, sensor: Seq<char>) -> u64 {
        if self.knows(sensor) {
            self.tracks@[sensor].count
        } else {
            0
        }
    }

    /// The window and count of every sensor.
    pub open spec fn model(&self) -> Map<Seq<char>, (Seq<T>, nat)> {
        Map::new(|k: Seq<char>| self.knows(k), |k: Seq<char>| (self.window(k), self.count(k) as nat))
    }

    /// No window holds more than `WINDOW_SIZE` readings.
    pub proof fn window_bounded(&self, sensor: Seq<char>)
        requires
            self.wf(),
        ensures
            self.window(sensor).len() <= WINDOW_SIZE,
    {
    }

    pub fn new() -> (s: Self)
        ensures
            s.wf(),
            forall|k: Seq<char>| !#[trigger] s.knows(k),
            forall|k: Seq<char>| #[trigger] s.window(k) == Seq::<T>::empty(),
            forall|k: Seq<char>| #[trigger] s.count(k) == 0,
            s.model() == Map::<Seq<char>, (Seq<T>, nat)>::empty(),
    {
        let s = SensorWindows { tracks: Table::new() };
        assert(s.model() =~= Map::<Seq<char>, (Seq<T>, nat)>::empty());
        s
    }

    /// Whether `ingest` may be called for `sensor_id` (its count can grow).
    pub fn accepts(&self, sensor_id: &String) -> (r: bool)
        requires
            self.wf(),
        ensures
            r == (self.count(sensor_id@) < u64::MAX),
    {
        match self.tracks.get(sensor_id) {
            Some(t) => t.count < u64::MAX,
            None => true,
        }
    }

    /// Takes a reading of `value` from `sensor_id`, created at `sent_ms` and
    /// received at `recv_ms`.
    pub fn ingest(&mut self, sensor_id: &String, value: T, sent_ms: u64, recv_ms: u64) -> (r:
        Ingested)
        requires
            old(self).wf(),
            old(self).count(sensor_id@) < u64::MAX,
        ensures
            final(self).wf(),
            r.latency_ms == (if recv_ms >= sent_ms {
                recv_ms - sent_ms
            } else {
                0
            }),
            final(self).knows(sensor_id@),
            final(self).window(sensor_id@) == slide(
                old(self).window(sensor_id@),
                value,
                WINDOW_SIZE as nat,
            ),
            final(self).count(sensor_id@) == old(self).count(sensor_id@) + 1,
            1 <= final(self).window(sensor_id@).len() <= WINDOW_SIZE,
            old(self).window(sensor_id@).len() < 10 ==> final(self).window(sensor_id@) == old(
                self,
            ).window(sensor_id@).push(value),
            old(self).window(sensor_id@).len() == 10 ==> final(self).window(sensor_id@) == old(
                self,
            ).window(sensor_id@).drop_first().push(value),
            final(self).model() == after_reading(old(self).model(), sensor_id@, value),
            r.sample_count == final(self).count(sensor_id@),
            forall|k: Seq<char>|
                k != sensor_id@ ==> #[trigger] final(self).knows(k) == old(self).knows(k)
                    && final(self).window(k) == old(self).window(k) && final(self).count(k) == old(
                    self,
                ).count(k),
    {
        let latency_ms = recv_ms.saturating_sub(sent_ms);
        let sample_count: u64;
        match self.tracks.find(sensor_id) {
            Some(i) => {
                let ghost s = self.tracks.contents();
                proof {
                    crate::table::lemma_position_of(s, i as int);
                }
                let mut track = self.tracks.replace_at(
                    i,
                    SensorTrack { window: Vec::new(), count: 0 },
                );
                track.window.push(value);
                if track.window.len() > WINDOW_SIZE {
                    track.window.remove(0);
                }
                track.count = track.count + 1;
                sample_count = track.count;
                self.tracks.replace_at(i, track);
            },
            None => {
                let mut window = Vec::new();
                window.push(value);
                self.tracks.insert(sensor_id.clone(), SensorTrack { window, count: 1 });
                sample_count = 1;
            },
        }
        proof {
            lemma_slide_shape(old(self).window(sensor_id@), value, WINDOW_SIZE as nat);
            assert(self.model() =~= after_reading(old(self).model(), sensor_id@, value));
        }
        Ingested { latency_ms, sample_count }
    }

    /// The readings kept for `sensor_id`, oldest first.
    pub fn window_of(&self, sensor_id: &String) -> (w: Option<&Vec<T>>)
        requires
            self.wf(),
        ensures
            match w {
                Some(v) => self.knows(sensor_id@) && v@ == self.window(sensor_id@),
                None => !self.knows(sensor_id@),
            },
    {
        match self.tracks.get(sensor_id) {
            Some(t) => Some(&t.window),
            None => None,
        }
    }
}

} // verus!
