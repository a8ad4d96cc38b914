//! Trend history: fixed-size round-robin archives (in the manner of RRDtool).
//!
//! Two archives take every sample: `fine` (30 s step, 2880 slots = 24 h) and
//! `coarse` (5 min step, 2016 slots = 7 days). A slot is a time bucket that
//! accumulates sums and counts as samples arrive (consolidate on write); the
//! slot index is `(bucket / step) % rows`, so a bucket overwrites the one
//! `rows` steps older. Queries pick the archive that covers the range and
//! average consecutive points down to about `HISTORY_MAX_POINTS`.
//!
//! Values are integers: capacity in %, temperature in m°C, power in µW,
//! voltage in µV, current in µA.

use vstd::prelude::*;
use crate::num::{round_div, round_div_i128, sat_i64};
use crate::sort::{
    lemma_stable_sort_elements, lemma_stable_sort_sorted, sort_by_key, stable_sort, unkeyed,
};
use vstd::bytes::{
    lemma_auto_spec_u32_to_from_le_bytes, lemma_auto_spec_u64_to_from_le_bytes, spec_u32_from_le_bytes,
    spec_u32_to_le_bytes, spec_u64_from_le_bytes, spec_u64_to_le_bytes, u32_from_le_bytes,
    u32_to_le_bytes, u64_from_le_bytes, u64_to_le_bytes,
};
use vstd::slice::slice_subrange;

verus! {

/// How long history is kept (7 days, ms).
pub const RETENTION_MS: u64 = 604_800_000;
/// Points a query is averaged down to.
pub const HISTORY_MAX_POINTS: usize = 240;
/// Step of the fine archive (ms).
pub const HISTORY_FINE_STEP_MS: u64 = 30_000;
/// Slots of the fine archive (24 h).
pub const ROWS_FINE: usize = 2880;
/// Step of the coarse archive (ms).
pub const HISTORY_COARSE_STEP_MS: u64 = 300_000;
/// Slots of the coarse archive (7 days).
pub const ROWS_COARSE: usize = 2016;
/// Bytes of one stored slot: bucket (8), sample count (4), charging count
/// (4), and five accumulators of sum (8) and count (4).
pub const ROW_BYTES: usize = 76;
/// Bytes of both archives' slots.
pub const ARCHIVES_BYTES: usize = 372_096;
/// Samples between two writes of the history to disk.
pub const FLUSH_EVERY: u32 = 10;

/// A running sum and count of the values present; absent values are skipped.
#[derive(Clone, Copy, PartialEq, Eq, Structural, Debug)]
pub struct Accumulator {
    pub sum: i64,
    pub count: u32,
}

/// `n + 1`, stopping at `u32::MAX`.
pub open spec fn sat_inc(n: u32) -> u32 {
    if n == u32::MAX {
        n
    } else {
        (n + 1) as u32
    }
}

/// The accumulator after one more value, present or absent.
pub open spec fn acc_add(a: Accumulator, v: Option<i64>) -> Accumulator {
    match v {
        Some(x) => Accumulator { sum: sat_i64(a.sum + x), count: sat_inc(a.count) },
        None => a,
    }
}

/// The mean of what was accumulated, rounded half away from zero; `None`
/// when nothing was.
pub open spec fn acc_mean(a: Accumulator) -> Option<i64> {
    if a.count > 0 {
        Some(sat_i64(round_div(a.sum as int, a.count as int)))
    } else {
        None
    }
}

/// Nothing accumulated.
pub open spec fn empty_acc() -> Accumulator {
    Accumulator { sum: 0, count: 0 }
}

impl Accumulator {
    /// Nothing accumulated.
    pub fn empty() -> (r: Self)
        ensures
            r == empty_acc(),
    {
        Accumulator { sum: 0, count: 0 }
    }

    /// Takes one more value into account; `None` changes nothing.
    pub fn add(&mut self, v: Option<i64>)
        ensures
            *final(self) == acc_add(*old(self), v),
    {
        if let Some(x) = v {
            let s: i128 = (self.sum as i128) + (x as i128);
            self.sum = if s > i64::MAX as i128 {
                i64::MAX
            } else if s < i64::MIN as i128 {
                i64::MIN
            } else {
                s as i64
            };
            if self.count < u32::MAX {
                self.count = self.count + 1;
            }
        }
    }

    /// The rounded mean, `None` when no value was taken.
    pub fn average(&self) -> (r: Option<i64>)
        ensures
            r == acc_mean(*self),
    {
        if self.count > 0 {
            let q = round_div_i128(self.sum as i128, self.count as i128);
            Some(if q > i64::MAX as i128 {
                i64::MAX
            } else if q < i64::MIN as i128 {
                i64::MIN
            } else {
                q as i64
            })
        } else {
            None
        }
    }
}

/// One sample of a battery or of an input source.
#[derive(Clone, Copy, PartialEq, Eq, Structural, Debug)]
pub struct Reading {
    pub capacity: Option<i64>,
    pub temperature_mc: Option<i64>,
    pub power_uw: Option<i64>,
    pub voltage_uv: Option<i64>,
    pub current_ua: Option<i64>,
    pub charging: bool,
}

/// One point of history, as a query returns it.
#[derive(Clone, Copy, PartialEq, Eq, Structural, Debug)]
pub struct Sample {
    /// Start of the bucket (Unix ms).
    pub timestamp_ms: u64,
    /// %.
    pub capacity: Option<i64>,
    /// m°C.
    pub temperature_mc: Option<i64>,
    /// µW; negative while discharging.
    pub power_uw: Option<i64>,
    /// µV.
    pub voltage_uv: Option<i64>,
    /// µA.
    pub current_ua: Option<i64>,
    /// Whether most samples of the bucket were taken while charging.
    pub charging: bool,
}

/// A time bucket of an archive. `sample_count == 0` marks an empty slot.
#[derive(Clone, Copy, PartialEq, Eq, Structural, Debug)]
pub struct Slot {
    pub bucket_start_ms: u64,
    pub sample_count: u32,
    pub charging_count: u32,
    pub capacity: Accumulator,
    pub temperature: Accumulator,
    pub power: Accumulator,
    pub voltage: Accumulator,
    pub current: Accumulator,
}

/// An empty slot for `bucket`.
pub open spec fn empty_slot(bucket: u64) -> Slot {
    Slot {
        bucket_start_ms: bucket,
        sample_count: 0,
        charging_count: 0,
        capacity: empty_acc(),
        temperature: empty_acc(),
        power: empty_acc(),
        voltage: empty_acc(),
        current: empty_acc(),
    }
}

/// The slot after reading `r` falls into `bucket`: a slot still holding an
/// older bucket starts over.
pub open spec fn slot_add(s: Slot, bucket: u64, r: Reading) -> Slot {
    let base = if s.bucket_start_ms != bucket {
        empty_slot(bucket)
    } else {
        s
    };
    Slot {
        bucket_start_ms: bucket,
        sample_count: sat_inc(base.sample_count),
        charging_count: if r.charging {
            sat_inc(base.charging_count)
        } else {
            base.charging_count
        },
        capacity: acc_add(base.capacity, r.capacity),
        temperature: acc_add(base.temperature, r.temperature_mc),
        power: acc_add(base.power, r.power_uw),
        voltage: acc_add(base.voltage, r.voltage_uv),
        current: acc_add(base.current, r.current_ua),
    }
}

/// The sample a slot stands for; `None` for an empty slot. Charging is the
/// majority of the bucket's samples.
pub open spec fn slot_sample(s: Slot) -> Option<Sample> {
    if s.sample_count == 0 {
        None
    } else {
        Some(
            Sample {
                timestamp_ms: s.bucket_start_ms,
                capacity: acc_mean(s.capacity),
                temperature_mc: acc_mean(s.temperature),
                power_uw: acc_mean(s.power),
                voltage_uv: acc_mean(s.voltage),
                current_ua: acc_mean(s.current),
                charging: s.charging_count * 2 > s.sample_count,
            },
        )
    }
}

impl Slot {
    /// An empty slot.
    pub fn empty(bucket: u64) -> (r: Self)
        ensures
            r == empty_slot(bucket),
    {
        Slot {
            bucket_start_ms: bucket,
            sample_count: 0,
            charging_count: 0,
            capacity: Accumulator::empty(),
            temperature: Accumulator::empty(),
            power: Accumulator::empty(),
            voltage: Accumulator::empty(),
            current: Accumulator::empty(),
        }
    }

    /// The sample this slot stands for.
    pub fn as_sample(&self) -> (r: Option<Sample>)
        ensures
            r == slot_sample(*self),
    {
        if self.sample_count == 0 {
            return None;
        }
        Some(
            Sample {
                timestamp_ms: self.bucket_start_ms,
                capacity: self.capacity.average(),
                temperature_mc: self.temperature.average(),
                power_uw: self.power.average(),
                voltage_uv: self.voltage.average(),
                current_ua: self.current.average(),
                charging: (self.charging_count as u64) * 2 > (self.sample_count as u64),
            },
        )
    }
}

/// Start of the bucket of `step` ms holding time `ts`.
pub open spec fn bucket_of(ts: u64, step: u64) -> u64 {
    (ts - ts % step) as u64
}

/// Slot index of `bucket` in an archive of `rows` slots of `step` ms.
pub open spec fn slot_index(bucket: u64, step: u64, rows: int) -> int {
    ((bucket / step) as int) % rows
}

/// Whether the samples are in increasing time order.
pub open spec fn sorted_by_time(s: Seq<Sample>) -> bool {
    forall|i: int, j: int| 0 <= i < j < s.len() ==> s[i].timestamp_ms <= s[j].timestamp_ms
}

/// Whether a slot is reported by a query with this cutoff and oldest time.
pub open spec fn slot_kept(s: Slot, cutoff: u64, oldest: u64) -> bool {
    s.sample_count > 0 && s.bucket_start_ms >= cutoff && s.bucket_start_ms >= oldest
}

/// The samples of the kept slots, in slot order.
pub open spec fn kept_samples(slots: Seq<Slot>, cutoff: u64, oldest: u64) -> Seq<Sample>
    decreases slots.len(),
{
    if slots.len() == 0 {
        Seq::empty()
    } else {
        let rest = kept_samples(slots.drop_last(), cutoff, oldest);
        if slot_kept(slots.last(), cutoff, oldest) {
            rest.push(slot_sample(slots.last()).unwrap())
        } else {
            rest
        }
    }
}

/// `now` minus the retention period, stopping at zero.
pub open spec fn oldest_kept(now: u64) -> u64 {
    if now >= RETENTION_MS {
        (now - RETENTION_MS) as u64
    } else {
        0
    }
}

/// Samples keyed by their time.
pub open spec fn by_time(s: Seq<Sample>) -> Seq<(u64, Sample)> {
    s.map_values(|x: Sample| (x.timestamp_ms, x))
}

/// The samples in time order; samples of the same time keep their order.
pub open spec fn time_ordered(s: Seq<Sample>) -> Seq<Sample> {
    unkeyed(stable_sort(by_time(s)))
}

/// Samples put in time order are in time order, and as many as before.
pub proof fn lemma_time_ordered(s: Seq<Sample>)
    ensures
        sorted_by_time(time_ordered(s)),
        time_ordered(s).len() == s.len(),
{
    let k = by_time(s);
    let ss = stable_sort(k);
    lemma_stable_sort_sorted(k);
    lemma_stable_sort_elements(k);
    assert forall|i: int| 0 <= i < ss.len() implies (#[trigger] ss[i]).0 == ss[i].1.timestamp_ms by {
        assert(k.contains(ss[i]));
        let j = choose|j: int| 0 <= j < k.len() && k[j] == ss[i];
        assert(k[j] == (s[j].timestamp_ms, s[j]));
    }
    let t = time_ordered(s);
    assert forall|i: int, j: int| 0 <= i < j < t.len() implies t[i].timestamp_ms <= t[j].timestamp_ms by {
        assert(t[i] == ss[i].1);
        assert(t[j] == ss[j].1);
        assert(ss[i].0 <= ss[j].0);
    }
}

/// A round-robin archive: `rows` time buckets of `step` ms.
pub struct Archive {
    step: u64,
    slots: Vec<Slot>,
}

impl Archive {
    /// A positive step and at least one slot.
    pub closed spec fn wf(&self) -> bool {
        self.step > 0 && self.slots@.len() > 0
    }

    /// The bucket width (ms).
    pub closed spec fn step(&self) -> u64 {
        self.step
    }

    /// The slots, in index order.
    pub closed spec fn slots(&self) -> Seq<Slot> {
        self.slots@
    }

    /// An archive of `rows` empty slots.
    pub fn new(step: u64, rows: usize) -> (r: Self)
        requires
            step > 0,
            rows > 0,
        ensures
            r.wf(),
            r.step() == step,
            r.slots() == Seq::new(rows as nat, |i: int| empty_slot(0)),
    {
        let slots = vec![Slot::empty(0); rows];
        proof {
            assert(slots@ =~= Seq::new(rows as nat, |i: int| empty_slot(0)));
        }
        Archive { step, slots }
    }

    /// A copy of the archive.
    pub fn copy(&self) -> (r: Self)
        requires
            self.wf(),
        ensures
            r.wf(),
            r.step() == self.step(),
            r.slots() == self.slots(),
    {
        let mut slots: Vec<Slot> = Vec::new();
        let mut i: usize = 0;
        while i < self.slots.len()
            invariant
                i <= self.slots@.len(),
                slots@ == self.slots@.take(i as int),
            decreases self.slots@.len() - i,
        {
            slots.push(self.slots[i]);
            i += 1;
            assert(slots@ =~= self.slots@.take(i as int));
        }
        assert(self.slots@.take(self.slots@.len() as int) =~= self.slots@);
        Archive { step: self.step, slots }
    }

    /// Accumulates a reading taken at `timestamp_ms` into its bucket's slot.
    pub fn add(&mut self, timestamp_ms: u64, reading: Reading)
        requires
            old(self).wf(),
        ensures
            final(self).wf(),
            final(self).step() == old(self).step(),
            final(self).slots() == old(self).slots().update(
                slot_index(
                    bucket_of(timestamp_ms, old(self).step()),
                    old(self).step(),
                    old(self).slots().len() as int,
                ),
                slot_add(
                    old(self).slots()[slot_index(
                        bucket_of(timestamp_ms, old(self).step()),
                        old(self).step(),
                        old(self).slots().len() as int,
                    )],
                    bucket_of(timestamp_ms, old(self).step()),
                    reading,
                ),
            ),
    {
        let rem = timestamp_ms % self.step;
        assert(rem <= timestamp_ms) by (nonlinear_arith)
            requires
                rem == timestamp_ms % self.step,
                self.step > 0,
        ;
        let bucket = timestamp_ms - rem;
        let index = ((bucket / self.step) % (self.slots.len() as u64)) as usize;
        let mut slot = self.slots[index];
        if slot.bucket_start_ms != bucket {
            slot = Slot::empty(bucket);
        }
        if slot.sample_count < u32::MAX {
            slot.sample_count = slot.sample_count + 1;
        }
        if reading.charging && slot.charging_count < u32::MAX {
            slot.charging_count = slot.charging_count + 1;
        }
        slot.capacity.add(reading.capacity);
        slot.temperature.add(reading.temperature_mc);
        slot.power.add(reading.power_uw);
        slot.voltage.add(reading.voltage_uv);
        slot.current.add(reading.current_ua);
        self.slots.set(index, slot);
    }

    /// The samples of slots at or after `cutoff` and within the retention
    /// period before `now`, in time order; samples of the same time come
    /// in slot order.
    pub fn samples_since(&self, cutoff: u64, now: u64) -> (r: Vec<Sample>)
        ensures
            r@ == time_ordered(kept_samples(self.slots(), cutoff, oldest_kept(now))),
            sorted_by_time(r@),
    {
        let oldest = if now >= RETENTION_MS {
            now - RETENTION_MS
        } else {
            0
        };
        let mut keyed: Vec<(u64, Sample)> = Vec::new();
        let mut i: usize = 0;
        while i < self.slots.len()
            invariant
                i <= self.slots@.len(),
                oldest == oldest_kept(now),
                keyed@ == by_time(kept_samples(self.slots@.take(i as int), cutoff, oldest)),
            decreases self.slots@.len() - i,
        {
            let slot = self.slots[i];
            let ghost before = kept_samples(self.slots@.take(i as int), cutoff, oldest);
            assert(self.slots@.take(i + 1).drop_last() =~= self.slots@.take(i as int));
            if slot.sample_count > 0 && slot.bucket_start_ms >= cutoff && slot.bucket_start_ms >= oldest {
                let x = slot.as_sample().unwrap();
                keyed.push((x.timestamp_ms, x));
                assert(keyed@ =~= by_time(before.push(x)));
            }
            i += 1;
        }
        assert(self.slots@.take(self.slots@.len() as int) =~= self.slots@);
        let ghost all = keyed@;
        let sorted = sort_by_key(keyed);
        let mut out: Vec<Sample> = Vec::new();
        let mut j: usize = 0;
        while j < sorted.len()
            invariant
                j <= sorted@.len(),
                out@ == unkeyed(sorted@.take(j as int)),
            decreases sorted@.len() - j,
        {
            out.push(sorted[j].1);
            j += 1;
            assert(out@ =~= unkeyed(sorted@.take(j as int)));
        }
        assert(sorted@.take(sorted@.len() as int) =~= sorted@);
        proof {
            lemma_time_ordered(kept_samples(self.slots@, cutoff, oldest));
        }
        out
    }
}


/// The slots after a reading at `timestamp_ms` is accumulated into an
/// archive of `step` ms buckets.
pub open spec fn archive_add(slots: Seq<Slot>, step: u64, timestamp_ms: u64, r: Reading) -> Seq<Slot> {
    let bucket = bucket_of(timestamp_ms, step);
    let i = slot_index(bucket, step, slots.len() as int);
    slots.update(i, slot_add(slots[i], bucket, r))
}

// ------------------------------------------------------------- downsampling

/// The accumulation of a sequence of optional values.
pub open spec fn fold_acc(s: Seq<Option<i64>>) -> Accumulator
    decreases s.len(),
{
    if s.len() == 0 {
        empty_acc()
    } else {
        acc_add(fold_acc(s.drop_last()), s.last())
    }
}

/// One point standing for a non-empty run of samples: each value the mean
/// of the samples that have it; time and charging those of the last sample.
pub open spec fn average_bucket_spec(chunk: Seq<Sample>) -> Sample {
    let last = chunk.last();
    Sample {
        timestamp_ms: last.timestamp_ms,
        capacity: acc_mean(fold_acc(chunk.map_values(|x: Sample| x.capacity))),
        temperature_mc: acc_mean(fold_acc(chunk.map_values(|x: Sample| x.temperature_mc))),
        power_uw: acc_mean(fold_acc(chunk.map_values(|x: Sample| x.power_uw))),
        voltage_uv: acc_mean(fold_acc(chunk.map_values(|x: Sample| x.voltage_uv))),
        current_ua: acc_mean(fold_acc(chunk.map_values(|x: Sample| x.current_ua))),
        charging: last.charging,
    }
}

/// Samples per point when `n` samples are brought down to at most
/// `HISTORY_MAX_POINTS`.
pub open spec fn bucket_width(n: int) -> int {
    (n + HISTORY_MAX_POINTS - 1) / (HISTORY_MAX_POINTS as int)
}

/// The number of points `n` samples are averaged into.
pub open spec fn point_count(n: int) -> int {
    (n + bucket_width(n) - 1) / bucket_width(n)
}

/// The samples averaged by consecutive runs of `bucket_width` down to at
/// most `HISTORY_MAX_POINTS` points; unchanged when they are that few.
pub open spec fn downsample_spec(s: Seq<Sample>) -> Seq<Sample> {
    let n = s.len() as int;
    if n <= HISTORY_MAX_POINTS {
        s
    } else {
        let b = bucket_width(n);
        Seq::new(
            point_count(n) as nat,
            |k: int|
                average_bucket_spec(
                    s.subrange(
                        k * b,
                        if (k + 1) * b < n {
                            (k + 1) * b
                        } else {
                            n
                        },
                    ),
                ),
        )
    }
}

/// Downsampling never yields more than `HISTORY_MAX_POINTS` points, and
/// leaves at most that many samples as they are.
pub proof fn lemma_downsample_caps(s: Seq<Sample>)
    ensures
        downsample_spec(s).len() <= HISTORY_MAX_POINTS,
        s.len() <= HISTORY_MAX_POINTS ==> downsample_spec(s) == s,
{
    let n = s.len() as int;
    if n > HISTORY_MAX_POINTS {
        let b = bucket_width(n);
        assert(b >= 1 && 240 * b >= n) by (nonlinear_arith)
            requires
                b == (n + 239) / 240,
                n > 240,
        ;
        assert((n + b - 1) / b <= 240) by (nonlinear_arith)
            requires
                b >= 1,
                240 * b >= n,
                n > 0,
        ;
    }
}

/// The mean point of `s[start..end]`.
fn average_bucket(s: &[Sample], start: usize, end: usize) -> (r: Sample)
    requires
        start < end <= s@.len(),
    ensures
        r == average_bucket_spec(s@.subrange(start as int, end as int)),
{
    let mut capacity = Accumulator::empty();
    let mut temperature = Accumulator::empty();
    let mut power = Accumulator::empty();
    let mut voltage = Accumulator::empty();
    let mut current = Accumulator::empty();
    let mut i = start;
    while i < end
        invariant
            start <= i <= end <= s@.len(),
            capacity == fold_acc(s@.subrange(start as int, i as int).map_values(|x: Sample| x.capacity)),
            temperature == fold_acc(s@.subrange(start as int, i as int).map_values(|x: Sample| x.temperature_mc)),
            power == fold_acc(s@.subrange(start as int, i as int).map_values(|x: Sample| x.power_uw)),
            voltage == fold_acc(s@.subrange(start as int, i as int).map_values(|x: Sample| x.voltage_uv)),
            current == fold_acc(s@.subrange(start as int, i as int).map_values(|x: Sample| x.current_ua)),
        decreases end - i,
    {
        let x = s[i];
        proof {
            let pre = s@.subrange(start as int, i as int);
            let next = s@.subrange(start as int, i + 1);
            assert(next.map_values(|x: Sample| x.capacity).drop_last() =~= pre.map_values(|x: Sample| x.capacity));
            assert(next.map_values(|x: Sample| x.temperature_mc).drop_last() =~= pre.map_values(|x: Sample| x.temperature_mc));
            assert(next.map_values(|x: Sample| x.power_uw).drop_last() =~= pre.map_values(|x: Sample| x.power_uw));
            assert(next.map_values(|x: Sample| x.voltage_uv).drop_last() =~= pre.map_values(|x: Sample| x.voltage_uv));
            assert(next.map_values(|x: Sample| x.current_ua).drop_last() =~= pre.map_values(|x: Sample| x.current_ua));
        }
        capacity.add(x.capacity);
        temperature.add(x.temperature_mc);
        power.add(x.power_uw);
        voltage.add(x.voltage_uv);
        current.add(x.current_ua);
        i += 1;
    }
    let last = s[end - 1];
    Sample {
        timestamp_ms: last.timestamp_ms,
        capacity: capacity.average(),
        temperature_mc: temperature.average(),
        power_uw: power.average(),
        voltage_uv: voltage.average(),
        current_ua: current.average(),
        charging: last.charging,
    }
}

/// Averages consecutive runs of samples so that at most
/// `HISTORY_MAX_POINTS` points remain.
pub fn downsample(samples: Vec<Sample>) -> (r: Vec<Sample>)
    ensures
        r@ == downsample_spec(samples@),
        r@.len() <= HISTORY_MAX_POINTS,
{
    proof {
        lemma_downsample_caps(samples@);
    }
    let n = samples.len();
    if n <= HISTORY_MAX_POINTS {
        return samples;
    }
    let b = (n - 1) / 240 + 1;
    let m = (n - 1) / b + 1;
    proof {
        assert(b == (n + 239) / 240) by (nonlinear_arith)
            requires
                b == (n - 1) / 240 + 1,
                n > 240,
        ;
        assert(m as int == (n + b - 1) as int / (b as int)) by (nonlinear_arith)
            requires
                m as int == (n - 1) as int / (b as int) + 1,
                b >= 1,
                n > 240,
        ;
        assert(b >= 1 && 240 * b >= n) by (nonlinear_arith)
            requires
                b == (n + 239) / 240,
                n > 240,
        ;
        assert(m <= 240) by (nonlinear_arith)
            requires
                m as int == (n + b - 1) as int / (b as int),
                b >= 1,
                240 * b >= n,
        ;
        assert((m - 1) * b < n) by (nonlinear_arith)
            requires
                m as int == (n + b - 1) as int / (b as int),
                b >= 1,
                n > 0,
        ;
    }
    let mut out: Vec<Sample> = Vec::new();
    let mut k: usize = 0;
    while k < m
        invariant
            n == samples@.len(),
            n > 240,
            b == bucket_width(n as int),
            m == point_count(n as int),
            b >= 1,
            m <= 240,
            (m - 1) * b < n,
            k <= m,
            out@.len() == k,
            forall|j: int| 0 <= j < k ==> #[trigger] out@[j] == downsample_spec(samples@)[j],
        decreases m - k,
    {
        assert(k * b < n) by (nonlinear_arith)
            requires
                k < m,
                (m - 1) * b < n,
                b >= 1,
        ;
        assert(k * b <= 240 * b) by (nonlinear_arith)
            requires
                k <= 240,
                b >= 1,
        ;
        let start = k * b;
        let end = if n - start > b {
            start + b
        } else {
            n
        };
        assert((k + 1) * b == start + b) by (nonlinear_arith)
            requires
                start == k * b,
        ;
        let p = average_bucket(samples.as_slice(), start, end);
        out.push(p);
        k += 1;
    }
    assert(out@ =~= downsample_spec(samples@));
    out
}

// ---------------------------------------------------------------- encoding

/// `"BSR2"`, the first bytes of a history file (its sums are integers).
pub open spec fn magic() -> Seq<u8> {
    seq![66u8, 83u8, 82u8, 50u8]
}

/// `"BSR1"`, the first bytes of a history file of the earlier layout, whose
/// sums are 64-bit floats in the display units (%, °C, W, V, mA).
pub open spec fn float_magic() -> Seq<u8> {
    seq![66u8, 83u8, 82u8, 49u8]
}

/// An accumulator as stored: the sum's two's-complement bits, then the count.
pub open spec fn acc_bytes(a: Accumulator) -> Seq<u8> {
    spec_u64_to_le_bytes(a.sum as u64) + spec_u32_to_le_bytes(a.count)
}

/// A slot as stored, little-endian.
pub open spec fn slot_bytes(s: Slot) -> Seq<u8> {
    spec_u64_to_le_bytes(s.bucket_start_ms) + spec_u32_to_le_bytes(s.sample_count)
        + spec_u32_to_le_bytes(s.charging_count) + acc_bytes(s.capacity) + acc_bytes(s.temperature)
        + acc_bytes(s.power) + acc_bytes(s.voltage) + acc_bytes(s.current)
}

/// Slots as stored, one after another.
pub open spec fn slots_bytes(s: Seq<Slot>) -> Seq<u8>
    decreases s.len(),
{
    if s.len() == 0 {
        Seq::empty()
    } else {
        slots_bytes(s.drop_last()) + slot_bytes(s.last())
    }
}

/// The accumulator stored in the 12 bytes at `o`.
pub open spec fn acc_from_bytes(b: Seq<u8>, o: int) -> Accumulator {
    Accumulator {
        sum: spec_u64_from_le_bytes(b.subrange(o, o + 8)) as i64,
        count: spec_u32_from_le_bytes(b.subrange(o + 8, o + 12)),
    }
}

/// The slot stored in the 76 bytes `b`.
pub open spec fn slot_from_bytes(b: Seq<u8>) -> Slot {
    Slot {
        bucket_start_ms: spec_u64_from_le_bytes(b.subrange(0, 8)),
        sample_count: spec_u32_from_le_bytes(b.subrange(8, 12)),
        charging_count: spec_u32_from_le_bytes(b.subrange(12, 16)),
        capacity: acc_from_bytes(b, 16),
        temperature: acc_from_bytes(b, 28),
        power: acc_from_bytes(b, 40),
        voltage: acc_from_bytes(b, 52),
        current: acc_from_bytes(b, 64),
    }
}

/// The `n` slots stored from offset `o` of `b`.
pub open spec fn slots_from_bytes(b: Seq<u8>, o: int, n: nat) -> Seq<Slot> {
    Seq::new(n, |i: int| slot_from_bytes(b.subrange(o + i * 76, o + i * 76 + 76)))
}

proof fn lemma_i64_bits(x: i64)
    ensures
        (x as u64) as i64 == x,
{
    assert((x as u64) as i64 == x) by (bit_vector);
}

proof fn lemma_slot_round_trip(s: Slot)
    ensures
        slot_bytes(s).len() == 76,
        slot_from_bytes(slot_bytes(s)) == s,
{
    lemma_auto_spec_u64_to_from_le_bytes();
    lemma_auto_spec_u32_to_from_le_bytes();
    let b = slot_bytes(s);
    assert(b.subrange(0, 8) =~= spec_u64_to_le_bytes(s.bucket_start_ms));
    assert(b.subrange(8, 12) =~= spec_u32_to_le_bytes(s.sample_count));
    assert(b.subrange(12, 16) =~= spec_u32_to_le_bytes(s.charging_count));
    assert(b.subrange(16, 28) =~= acc_bytes(s.capacity));
    assert(b.subrange(28, 40) =~= acc_bytes(s.temperature));
    assert(b.subrange(40, 52) =~= acc_bytes(s.power));
    assert(b.subrange(52, 64) =~= acc_bytes(s.voltage));
    assert(b.subrange(64, 76) =~= acc_bytes(s.current));
    lemma_acc_round_trip(b, 16, s.capacity);
    lemma_acc_round_trip(b, 28, s.temperature);
    lemma_acc_round_trip(b, 40, s.power);
    lemma_acc_round_trip(b, 52, s.voltage);
    lemma_acc_round_trip(b, 64, s.current);
}

proof fn lemma_acc_round_trip(b: Seq<u8>, o: int, a: Accumulator)
    requires
        0 <= o,
        o + 12 <= b.len(),
        b.subrange(o, o + 12) == acc_bytes(a),
    ensures
        acc_from_bytes(b, o) == a,
{
    lemma_auto_spec_u64_to_from_le_bytes();
    lemma_auto_spec_u32_to_from_le_bytes();
    let x = spec_u64_to_le_bytes(a.sum as u64);
    assert(b.subrange(o, o + 8) =~= b.subrange(o, o + 12).subrange(0, 8));
    assert(acc_bytes(a).subrange(0, 8) =~= x);
    assert(b.subrange(o + 8, o + 12) =~= b.subrange(o, o + 12).subrange(8, 12));
    assert(acc_bytes(a).subrange(8, 12) =~= spec_u32_to_le_bytes(a.count));
    lemma_i64_bits(a.sum);
}

pub proof fn lemma_slots_bytes(s: Seq<Slot>)
    ensures
        slots_bytes(s).len() == 76 * s.len(),
        slots_from_bytes(slots_bytes(s), 0, s.len()) == s,
    decreases s.len(),
{
    if s.len() > 0 {
        lemma_slots_bytes(s.drop_last());
        lemma_slot_round_trip(s.last());
        let prev = slots_bytes(s.drop_last());
        let all = slots_bytes(s);
        assert forall|i: int| 0 <= i < s.len() implies #[trigger] slots_from_bytes(all, 0, s.len())[i]
            == s[i] by {
            if i < s.len() - 1 {
                assert(all.subrange(i * 76, i * 76 + 76) =~= prev.subrange(i * 76, i * 76 + 76));
                assert(slots_from_bytes(prev, 0, s.drop_last().len())[i] == s.drop_last()[i]);
            } else {
                assert(all.subrange(i * 76, i * 76 + 76) =~= slot_bytes(s.last()));
            }
        }
        assert(slots_from_bytes(all, 0, s.len()) =~= s);
    }
}

/// Slots stored at offset `a` of `b` read back as the slots that were stored.
pub proof fn lemma_slots_at(b: Seq<u8>, a: int, s: Seq<Slot>)
    requires
        0 <= a,
        a + 76 * s.len() <= b.len(),
        b.subrange(a, a + 76 * s.len()) == slots_bytes(s),
    ensures
        slots_from_bytes(b, a, s.len()) == s,
{
    lemma_slots_bytes(s);
    let sb = slots_bytes(s);
    assert forall|i: int| 0 <= i < s.len() implies #[trigger] b.subrange(a + i * 76, a + i * 76 + 76)
        == sb.subrange(i * 76, i * 76 + 76) by {
        assert(i * 76 + 76 <= 76 * s.len()) by (nonlinear_arith)
            requires
                0 <= i < s.len(),
        ;
        assert(b.subrange(a + i * 76, a + i * 76 + 76) =~= b.subrange(a, a + 76 * s.len()).subrange(
            i * 76,
            i * 76 + 76,
        ));
    }
    assert(slots_from_bytes(b, a, s.len()) =~= slots_from_bytes(sb, 0, s.len()));
}

/// Appends the elements of `t` to `v`.
pub fn extend_vec<T: Copy>(v: &mut Vec<T>, t: &[T])
    ensures
        final(v)@ == old(v)@ + t@,
{
    let mut i: usize = 0;
    while i < t.len()
        invariant
            i <= t@.len(),
            v@ == old(v)@ + t@.take(i as int),
        decreases t@.len() - i,
    {
        v.push(t[i]);
        i += 1;
        assert(v@ =~= old(v)@ + t@.take(i as int));
    }
    assert(t@.take(t@.len() as int) =~= t@);
}

fn write_acc(out: &mut Vec<u8>, a: &Accumulator)
    ensures
        final(out)@ == old(out)@ + acc_bytes(*a),
{
    let s = u64_to_le_bytes(a.sum as u64);
    extend_vec(out, s.as_slice());
    let c = u32_to_le_bytes(a.count);
    extend_vec(out, c.as_slice());
    assert(final(out)@ =~= old(out)@ + acc_bytes(*a));
}

fn write_slot(out: &mut Vec<u8>, s: &Slot)
    ensures
        final(out)@ == old(out)@ + slot_bytes(*s),
{
    let b = u64_to_le_bytes(s.bucket_start_ms);
    extend_vec(out, b.as_slice());
    let c = u32_to_le_bytes(s.sample_count);
    extend_vec(out, c.as_slice());
    let h = u32_to_le_bytes(s.charging_count);
    extend_vec(out, h.as_slice());
    write_acc(out, &s.capacity);
    write_acc(out, &s.temperature);
    write_acc(out, &s.power);
    write_acc(out, &s.voltage);
    write_acc(out, &s.current);
    assert(final(out)@ =~= old(out)@ + slot_bytes(*s));
}

fn read_acc(buf: &[u8], o: usize) -> (r: Accumulator)
    requires
        o + 12 <= buf@.len() <= usize::MAX,
    ensures
        r == acc_from_bytes(buf@, o as int),
{
    let sum = u64_from_le_bytes(slice_subrange(buf, o, o + 8));
    let count = u32_from_le_bytes(slice_subrange(buf, o + 8, o + 12));
    Accumulator { sum: sum as i64, count }
}

fn read_slot(buf: &[u8], o: usize) -> (r: Slot)
    requires
        o + 76 <= buf@.len() <= usize::MAX,
    ensures
        r == slot_from_bytes(buf@.subrange(o as int, o + 76)),
{
    let ghost b = buf@.subrange(o as int, o + 76);
    let bucket = u64_from_le_bytes(slice_subrange(buf, o, o + 8));
    let count = u32_from_le_bytes(slice_subrange(buf, o + 8, o + 12));
    let charging = u32_from_le_bytes(slice_subrange(buf, o + 12, o + 16));
    assert(b.subrange(0, 8) =~= buf@.subrange(o as int, o + 8));
    assert(b.subrange(8, 12) =~= buf@.subrange(o + 8, o + 12));
    assert(b.subrange(12, 16) =~= buf@.subrange(o + 12, o + 16));
    assert forall|k: int| 16 <= k <= 64 implies #[trigger] acc_from_bytes(b, k) == acc_from_bytes(buf@, o + k) by {
        assert(b.subrange(k, k + 8) =~= buf@.subrange(o + k, o + k + 8));
        assert(b.subrange(k + 8, k + 12) =~= buf@.subrange(o + k + 8, o + k + 12));
    }
    let capacity = read_acc(buf, o + 16);
    let temperature = read_acc(buf, o + 28);
    let power = read_acc(buf, o + 40);
    let voltage = read_acc(buf, o + 52);
    let current = read_acc(buf, o + 64);
    assert(acc_from_bytes(b, 16) == acc_from_bytes(buf@, o + 16));
    assert(acc_from_bytes(b, 28) == acc_from_bytes(buf@, o + 28));
    assert(acc_from_bytes(b, 40) == acc_from_bytes(buf@, o + 40));
    assert(acc_from_bytes(b, 52) == acc_from_bytes(buf@, o + 52));
    assert(acc_from_bytes(b, 64) == acc_from_bytes(buf@, o + 64));
    Slot {
        bucket_start_ms: bucket,
        sample_count: count,
        charging_count: charging,
        capacity,
        temperature,
        power,
        voltage,
        current,
    }
}


// ---------------------------------------------------------------- archives

/// The fine and the coarse archive; every sample goes into both.
pub struct Archives {
    fine: Archive,
    coarse: Archive,
}

/// `n` empty slots.
pub open spec fn empty_slots(n: nat) -> Seq<Slot> {
    Seq::new(n, |i: int| empty_slot(0))
}

/// The whole content of both archives as stored after the magic number.
pub open spec fn archives_bytes(fine: Seq<Slot>, coarse: Seq<Slot>) -> Seq<u8> {
    slots_bytes(fine) + slots_bytes(coarse)
}

impl Archives {
    /// Both archives have their fixed step and size.
    pub closed spec fn wf(&self) -> bool {
        &&& self.fine.wf()
        &&& self.coarse.wf()
        &&& self.fine.step() == HISTORY_FINE_STEP_MS
        &&& self.fine.slots().len() == ROWS_FINE
        &&& self.coarse.step() == HISTORY_COARSE_STEP_MS
        &&& self.coarse.slots().len() == ROWS_COARSE
    }

    /// The slots of the fine archive.
    pub closed spec fn fine_slots(&self) -> Seq<Slot> {
        self.fine.slots()
    }

    /// The slots of the coarse archive.
    pub closed spec fn coarse_slots(&self) -> Seq<Slot> {
        self.coarse.slots()
    }

    /// Empty archives.
    pub fn new() -> (r: Self)
        ensures
            r.wf(),
            r.fine_slots() == empty_slots(ROWS_FINE as nat),
            r.coarse_slots() == empty_slots(ROWS_COARSE as nat),
    {
        Archives {
            fine: Archive::new(HISTORY_FINE_STEP_MS, ROWS_FINE),
            coarse: Archive::new(HISTORY_COARSE_STEP_MS, ROWS_COARSE),
        }
    }

    /// A copy of both archives.
    pub fn copy(&self) -> (r: Self)
        requires
            self.wf(),
        ensures
            r.wf(),
            r.fine_slots() == self.fine_slots(),
            r.coarse_slots() == self.coarse_slots(),
    {
        Archives { fine: self.fine.copy(), coarse: self.coarse.copy() }
    }

    /// Accumulates a reading into both archives.
    pub fn add(&mut self, timestamp_ms: u64, reading: Reading)
        requires
            old(self).wf(),
        ensures
            final(self).wf(),
            final(self).fine_slots() == archive_add(
                old(self).fine_slots(),
                HISTORY_FINE_STEP_MS,
                timestamp_ms,
                reading,
            ),
            final(self).coarse_slots() == archive_add(
                old(self).coarse_slots(),
                HISTORY_COARSE_STEP_MS,
                timestamp_ms,
                reading,
            ),
    {
        self.fine.add(timestamp_ms, reading);
        self.coarse.add(timestamp_ms, reading);
    }

    /// The samples of the fine archive since `cutoff`, in time order
    /// (same times in slot order).
    pub fn fine_samples_since(&self, cutoff: u64, now: u64) -> (r: Vec<Sample>)
        ensures
            r@ == time_ordered(kept_samples(self.fine_slots(), cutoff, oldest_kept(now))),
            sorted_by_time(r@),
    {
        self.fine.samples_since(cutoff, now)
    }

    /// The samples of the coarse archive since `cutoff`, in time order
    /// (same times in slot order).
    pub fn coarse_samples_since(&self, cutoff: u64, now: u64) -> (r: Vec<Sample>)
        ensures
            r@ == time_ordered(kept_samples(self.coarse_slots(), cutoff, oldest_kept(now))),
            sorted_by_time(r@),
    {
        self.coarse.samples_since(cutoff, now)
    }

    /// Appends the slots of both archives, fine first.
    pub fn write_archive_bytes(&self, out: &mut Vec<u8>)
        ensures
            final(out)@ == old(out)@ + archives_bytes(self.fine_slots(), self.coarse_slots()),
    {
        let mut i: usize = 0;
        while i < self.fine.slots.len()
            invariant
                i <= self.fine.slots@.len(),
                out@ == old(out)@ + slots_bytes(self.fine.slots@.take(i as int)),
            decreases self.fine.slots@.len() - i,
        {
            assert(self.fine.slots@.take(i + 1).drop_last() =~= self.fine.slots@.take(i as int));
            write_slot(out, &self.fine.slots[i]);
            i += 1;
        }
        assert(self.fine.slots@.take(self.fine.slots@.len() as int) =~= self.fine.slots@);
        let ghost mid = out@;
        let mut j: usize = 0;
        while j < self.coarse.slots.len()
            invariant
                j <= self.coarse.slots@.len(),
                out@ == mid + slots_bytes(self.coarse.slots@.take(j as int)),
            decreases self.coarse.slots@.len() - j,
        {
            assert(self.coarse.slots@.take(j + 1).drop_last() =~= self.coarse.slots@.take(j as int));
            write_slot(out, &self.coarse.slots[j]);
            j += 1;
        }
        assert(self.coarse.slots@.take(self.coarse.slots@.len() as int) =~= self.coarse.slots@);
        assert(out@ =~= old(out)@ + archives_bytes(self.fine_slots(), self.coarse_slots()));
    }

    /// The history file: `"BSR2"` and the slots of both archives.
    pub fn to_bytes(&self) -> (r: Vec<u8>)
        ensures
            r@ == magic() + archives_bytes(self.fine_slots(), self.coarse_slots()),
    {
        let mut out: Vec<u8> = Vec::new();
        out.push(66u8);
        out.push(83u8);
        out.push(82u8);
        out.push(50u8);
        assert(out@ =~= magic());
        self.write_archive_bytes(&mut out);
        out
    }

    /// Archives from the bytes after the magic number; `None` unless there
    /// are exactly `ARCHIVES_BYTES` of them.
    pub fn from_archive_bytes(buf: &[u8]) -> (r: Option<Archives>)
        ensures
            buf@.len() != ARCHIVES_BYTES ==> r is None,
            buf@.len() == ARCHIVES_BYTES ==> (r matches Some(a) && a.wf() && a.fine_slots()
                == slots_from_bytes(buf@, 0, ROWS_FINE as nat) && a.coarse_slots()
                == slots_from_bytes(buf@, ROWS_FINE * ROW_BYTES, ROWS_COARSE as nat)),
    {
        if buf.len() != ARCHIVES_BYTES {
            return None;
        }
        let mut fine: Vec<Slot> = Vec::new();
        let mut i: usize = 0;
        while i < ROWS_FINE
            invariant
                buf@.len() == ARCHIVES_BYTES,
                i <= ROWS_FINE,
                fine@ == slots_from_bytes(buf@, 0, i as nat),
            decreases ROWS_FINE - i,
        {
            let slot = read_slot(buf, i * ROW_BYTES);
            fine.push(slot);
            i += 1;
            assert(fine@ =~= slots_from_bytes(buf@, 0, i as nat));
        }
        let mut coarse: Vec<Slot> = Vec::new();
        let mut j: usize = 0;
        while j < ROWS_COARSE
            invariant
                buf@.len() == ARCHIVES_BYTES,
                j <= ROWS_COARSE,
                coarse@ == slots_from_bytes(buf@, ROWS_FINE * ROW_BYTES, j as nat),
            decreases ROWS_COARSE - j,
        {
            let slot = read_slot(buf, ROWS_FINE * ROW_BYTES + j * ROW_BYTES);
            coarse.push(slot);
            j += 1;
            assert(coarse@ =~= slots_from_bytes(buf@, ROWS_FINE * ROW_BYTES, j as nat));
        }
        Some(
            Archives {
                fine: Archive { step: HISTORY_FINE_STEP_MS, slots: fine },
                coarse: Archive { step: HISTORY_COARSE_STEP_MS, slots: coarse },
            },
        )
    }

    /// Archives from a file of history whose first bytes are `"BSR"` and
    /// `version`; `None` when they or the length are otherwise.
    fn from_tagged_bytes(buf: &[u8], version: u8) -> (r: Option<Archives>)
        ensures
            !(buf@.len() == 4 + ARCHIVES_BYTES && buf@.subrange(0, 4) == seq![66u8, 83u8, 82u8, version]) ==> r is None,
            (buf@.len() == 4 + ARCHIVES_BYTES && buf@.subrange(0, 4) == seq![66u8, 83u8, 82u8, version]) ==> (r matches Some(
                a,
            ) && a.wf() && a.fine_slots() == slots_from_bytes(buf@, 4, ROWS_FINE as nat)
                && a.coarse_slots() == slots_from_bytes(
                buf@,
                4 + ROWS_FINE * ROW_BYTES,
                ROWS_COARSE as nat,
            )),
    {
        let n = buf.len();
        if n != 4 + ARCHIVES_BYTES || buf[0] != 66u8 || buf[1] != 83u8 || buf[2] != 82u8 || buf[3]
            != version {
            proof {
                if buf@.len() == 4 + ARCHIVES_BYTES && buf@.subrange(0, 4) == seq![66u8, 83u8, 82u8, version] {
                    assert(buf@[0] == buf@.subrange(0, 4)[0]);
                    assert(buf@[1] == buf@.subrange(0, 4)[1]);
                    assert(buf@[2] == buf@.subrange(0, 4)[2]);
                    assert(buf@[3] == buf@.subrange(0, 4)[3]);
                }
            }
            return None;
        }
        assert(buf@.subrange(0, 4) =~= seq![66u8, 83u8, 82u8, version]);
        let rest = slice_subrange(buf, 4, n);
        let r = Archives::from_archive_bytes(rest);
        proof {
            assert(rest@.len() == ARCHIVES_BYTES);
            assert forall|i: int| 0 <= i < ROWS_FINE implies #[trigger] rest@.subrange(i * 76, i * 76
                + 76) == buf@.subrange(4 + i * 76, 4 + i * 76 + 76) by {
                assert(rest@.subrange(i * 76, i * 76 + 76) =~= buf@.subrange(4 + i * 76, 4 + i * 76 + 76));
            }
            assert(slots_from_bytes(rest@, 0, ROWS_FINE as nat) =~= slots_from_bytes(buf@, 4, ROWS_FINE as nat));
            let o = ROWS_FINE * ROW_BYTES;
            assert forall|i: int| 0 <= i < ROWS_COARSE implies #[trigger] rest@.subrange(o + i * 76, o + i
                * 76 + 76) == buf@.subrange(4 + o + i * 76, 4 + o + i * 76 + 76) by {
                assert(rest@.subrange(o + i * 76, o + i * 76 + 76) =~= buf@.subrange(
                    4 + o + i * 76,
                    4 + o + i * 76 + 76,
                ));
            }
            assert(slots_from_bytes(rest@, o as int, ROWS_COARSE as nat) =~= slots_from_bytes(
                buf@,
                4 + o,
                ROWS_COARSE as nat,
            ));
        }
        r
    }

    /// Archives from a history file; `None` (no history) when the magic
    /// number or the length is wrong.
    pub fn from_bytes(buf: &[u8]) -> (r: Option<Archives>)
        ensures
            !(buf@.len() == 4 + ARCHIVES_BYTES && buf@.subrange(0, 4) == magic()) ==> r is None,
            (buf@.len() == 4 + ARCHIVES_BYTES && buf@.subrange(0, 4) == magic()) ==> (r matches Some(
                a,
            ) && a.wf() && a.fine_slots() == slots_from_bytes(buf@, 4, ROWS_FINE as nat)
                && a.coarse_slots() == slots_from_bytes(
                buf@,
                4 + ROWS_FINE * ROW_BYTES,
                ROWS_COARSE as nat,
            )),
    {
        Archives::from_tagged_bytes(buf, 50u8)
    }

    /// Archives from a history file of the earlier layout (`"BSR1"`), whose
    /// sums are 64-bit floats: the slots as stored, each sum holding the
    /// float's bits unconverted, for the caller to convert; `None` when the
    /// magic number or the length is wrong.
    pub fn from_float_bytes(buf: &[u8]) -> (r: Option<Archives>)
        ensures
            !(buf@.len() == 4 + ARCHIVES_BYTES && buf@.subrange(0, 4) == float_magic()) ==> r is None,
            (buf@.len() == 4 + ARCHIVES_BYTES && buf@.subrange(0, 4) == float_magic()) ==> (r matches Some(
                a,
            ) && a.wf() && a.fine_slots() == slots_from_bytes(buf@, 4, ROWS_FINE as nat)
                && a.coarse_slots() == slots_from_bytes(
                buf@,
                4 + ROWS_FINE * ROW_BYTES,
                ROWS_COARSE as nat,
            )),
    {
        Archives::from_tagged_bytes(buf, 49u8)
    }

    /// The slots of both archives, fine first.
    pub fn into_slots(self) -> (r: (Vec<Slot>, Vec<Slot>))
        ensures
            r.0@ == self.fine_slots(),
            r.1@ == self.coarse_slots(),
    {
        (self.fine.slots, self.coarse.slots)
    }

    /// Archives holding these slots; `None` unless there are `ROWS_FINE`
    /// fine and `ROWS_COARSE` coarse ones.
    pub fn from_slots(fine: Vec<Slot>, coarse: Vec<Slot>) -> (r: Option<Archives>)
        ensures
            (fine@.len() == ROWS_FINE && coarse@.len() == ROWS_COARSE) ==> (r matches Some(a) && a.wf()
                && a.fine_slots() == fine@ && a.coarse_slots() == coarse@),
            !(fine@.len() == ROWS_FINE && coarse@.len() == ROWS_COARSE) ==> r is None,
    {
        if fine.len() != ROWS_FINE || coarse.len() != ROWS_COARSE {
            return None;
        }
        Some(
            Archives {
                fine: Archive { step: HISTORY_FINE_STEP_MS, slots: fine },
                coarse: Archive { step: HISTORY_COARSE_STEP_MS, slots: coarse },
            },
        )
    }
}

/// What a history file read back holds: exactly the slots that were written.
pub proof fn lemma_archives_round_trip(fine: Seq<Slot>, coarse: Seq<Slot>)
    requires
        fine.len() == ROWS_FINE,
        coarse.len() == ROWS_COARSE,
    ensures
        (magic() + archives_bytes(fine, coarse)).len() == 4 + ARCHIVES_BYTES,
        (magic() + archives_bytes(fine, coarse)).subrange(0, 4) == magic(),
        slots_from_bytes(magic() + archives_bytes(fine, coarse), 4, ROWS_FINE as nat) == fine,
        slots_from_bytes(
            magic() + archives_bytes(fine, coarse),
            4 + ROWS_FINE * ROW_BYTES,
            ROWS_COARSE as nat,
        ) == coarse,
{
    lemma_slots_bytes(fine);
    lemma_slots_bytes(coarse);
    let all = magic() + archives_bytes(fine, coarse);
    let fb = slots_bytes(fine);
    let cb = slots_bytes(coarse);
    assert(all.subrange(0, 4) =~= magic());
    assert forall|i: int| 0 <= i < ROWS_FINE implies #[trigger] all.subrange(4 + i * 76, 4 + i * 76 + 76)
        == fb.subrange(i * 76, i * 76 + 76) by {
        assert(all.subrange(4 + i * 76, 4 + i * 76 + 76) =~= fb.subrange(i * 76, i * 76 + 76));
    }
    assert(slots_from_bytes(all, 4, ROWS_FINE as nat) =~= slots_from_bytes(fb, 0, ROWS_FINE as nat));
    assert forall|i: int| 0 <= i < ROWS_COARSE implies #[trigger] all.subrange(
        4 + ROWS_FINE * ROW_BYTES + i * 76,
        4 + ROWS_FINE * ROW_BYTES + i * 76 + 76,
    ) == cb.subrange(i * 76, i * 76 + 76) by {
        assert(all.subrange(4 + ROWS_FINE * ROW_BYTES + i * 76, 4 + ROWS_FINE * ROW_BYTES + i * 76 + 76)
            =~= cb.subrange(i * 76, i * 76 + 76));
    }
    assert(slots_from_bytes(all, 4 + ROWS_FINE * ROW_BYTES, ROWS_COARSE as nat) =~= slots_from_bytes(
        cb,
        0,
        ROWS_COARSE as nat,
    ));
}

/// Whether `r` answers a query of the last `range_ms` before `now` on
/// archives with these slots: the samples of the coarse archive when the
/// range exceeds what the fine one covers (24 h), else of the fine one,
/// in time order, downsampled.
pub open spec fn query_result(
    fine: Seq<Slot>,
    coarse: Seq<Slot>,
    range_ms: u64,
    now: u64,
    r: Seq<Sample>,
) -> bool {
    r == downsample_spec(
        time_ordered(
            kept_samples(
                if range_ms > HISTORY_FINE_STEP_MS * ROWS_FINE {
                    coarse
                } else {
                    fine
                },
                if now >= range_ms {
                    (now - range_ms) as u64
                } else {
                    0
                },
                oldest_kept(now),
            ),
        ),
    )
}

/// The samples of the last `range_ms` before `now`, downsampled.
pub fn query_archives(archives: &Archives, range_ms: u64, now: u64) -> (r: Vec<Sample>)
    ensures
        r@.len() <= HISTORY_MAX_POINTS,
        query_result(archives.fine_slots(), archives.coarse_slots(), range_ms, now, r@),
{
    let cutoff = if now >= range_ms {
        now - range_ms
    } else {
        0
    };
    let samples = if range_ms > HISTORY_FINE_STEP_MS * (ROWS_FINE as u64) {
        archives.coarse_samples_since(cutoff, now)
    } else {
        archives.fine_samples_since(cutoff, now)
    };
    downsample(samples)
}

} // verus!
