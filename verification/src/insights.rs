//! Charging insights: finished charging sessions, sessions in progress, and
//! long-term health snapshots of each battery.
//!
//! A session starts when a battery starts charging and goes on while it
//! charges or the device is externally powered. It ends after two samples
//! without either ("unplugged"), after two samples without the battery
//! ("battery_missing"), or when sampling stopped for more than ten minutes
//! ("sampling_gap"). Health snapshots are taken once a day per battery, and
//! when a session ends with changed health figures.

use vstd::prelude::*;
use crate::battery::{opt_is, BatteryInfo, CapacityKind, CapacityValue};
use crate::names::NameSet;
use crate::power::PowerSource;
use crate::session::{
    battery_identity, finish_spec, identity, is_charging, observe_spec, preview_spec, start_spec,
    sub_or_zero, ActiveModel, ActiveSession, ChargeSession, SessionModel,
};
use crate::sort::{sort_by_key, stable_sort, unkeyed};
use crate::text::{chars_of, str_eq, string_of, trim};

verus! {

/// The version of the stored data.
pub const DATA_VERSION: u32 = 1;
/// The stored data is written every this many samples.
pub const INSIGHTS_FLUSH_EVERY: u32 = 10;
/// A session not sampled for this long is closed (ms).
pub const MAX_RESUME_GAP_MS: u64 = 600_000;
/// A session ends after this many samples without power or battery.
pub const END_DEBOUNCE_SAMPLES: u8 = 2;
/// Health snapshots of a battery are taken this often (ms).
pub const HEALTH_INTERVAL_MS: u64 = 86_400_000;
/// At most this many finished sessions are kept.
pub const MAX_SESSIONS: usize = 1000;
/// At most this many health snapshots are kept.
pub const MAX_HEALTH_SNAPSHOTS: usize = 5000;

/// The health figures of a battery at one time.
pub struct HealthSnapshot {
    pub battery_id: String,
    pub battery_device: String,
    pub recorded_at_ms: u64,
    pub full_capacity: Option<CapacityValue>,
    pub design_capacity: Option<CapacityValue>,
    /// Hundredths of a percent.
    pub health_basis_points: Option<i64>,
    pub state_of_health: Option<i64>,
    pub cycle_count: Option<i64>,
}

/// The value of a `HealthSnapshot`.
pub struct HealthModel {
    pub battery_id: Seq<char>,
    pub battery_device: Seq<char>,
    pub recorded_at_ms: u64,
    pub full_capacity: Option<CapacityValue>,
    pub design_capacity: Option<CapacityValue>,
    pub health_basis_points: Option<i64>,
    pub state_of_health: Option<i64>,
    pub cycle_count: Option<i64>,
}

impl View for HealthSnapshot {
    type V = HealthModel;

    open spec fn view(&self) -> HealthModel {
        HealthModel {
            battery_id: self.battery_id@,
            battery_device: self.battery_device@,
            recorded_at_ms: self.recorded_at_ms,
            full_capacity: self.full_capacity,
            design_capacity: self.design_capacity,
            health_basis_points: self.health_basis_points,
            state_of_health: self.state_of_health,
            cycle_count: self.cycle_count,
        }
    }
}

/// The views of health snapshots.
pub open spec fn health_views(s: Seq<HealthSnapshot>) -> Seq<HealthModel> {
    s.map_values(|h: HealthSnapshot| h@)
}

/// The last `n` elements of `s`, or all of them when there are fewer.
pub open spec fn keep_last<T>(s: Seq<T>, n: int) -> Seq<T> {
    if s.len() > n {
        s.subrange(s.len() - n, s.len() as int)
    } else {
        s
    }
}

/// The latest snapshot of battery `id`.
pub open spec fn last_snapshot(h: Seq<HealthModel>, id: Seq<char>) -> Option<HealthModel>
    decreases h.len(),
{
    if h.len() == 0 {
        None
    } else if h.last().battery_id == id {
        Some(h.last())
    } else {
        last_snapshot(h.drop_last(), id)
    }
}

/// A battery's health as an exact fraction: `(n, d)` stands for
/// `100 × n / d` percent. The full capacity over the design capacity when
/// both are known in the same unit and the design is positive; else the
/// driver's `state_of_health` when it lies in 1..=100; nothing without
/// both capacities.
pub open spec fn health_fraction(
    full: Option<CapacityValue>,
    design: Option<CapacityValue>,
    soh: Option<i64>,
) -> Option<(int, int)> {
    match (full, design) {
        (Some(f), Some(d)) => if f.kind == d.kind && d.raw > 0 {
            Some((f.raw as int, d.raw as int))
        } else {
            match soh {
                Some(h) => if 1 <= h <= 100 {
                    Some((h as int, 100))
                } else {
                    None
                },
                None => None,
            }
        },
        _ => None,
    }
}

/// Whether the health moved by at least 0.1 percentage point, that is
/// `|100 n1 / d1 - 100 n2 / d2| >= 1/10`, or is known on one side only.
pub open spec fn health_changed(prev: Option<(int, int)>, cur: Option<(int, int)>) -> bool {
    match (prev, cur) {
        (Some((n1, d1)), Some((n2, d2))) => 1000 * crate::num::abs(n1 * d2 - n2 * d1) >= d1 * d2,
        (None, None) => false,
        _ => true,
    }
}

/// The smallest capacity change that counts: half a displayed unit, 0.5 mAh
/// (500 µAh) or 0.5 Wh (500000 µWh).
pub open spec fn capacity_step(kind: CapacityKind) -> int {
    match kind {
        CapacityKind::Charge => 500,
        CapacityKind::Energy => 500_000,
    }
}

/// Whether a capacity changed: another unit, a change of half a displayed
/// unit, or only one present.
pub open spec fn capacity_changed(prev: Option<CapacityValue>, cur: Option<CapacityValue>) -> bool {
    match (prev, cur) {
        (Some(p), Some(c)) => p.kind != c.kind || p.raw - c.raw >= capacity_step(c.kind) || c.raw
            - p.raw >= capacity_step(c.kind),
        (None, None) => false,
        _ => true,
    }
}

/// Whether the battery reports any health figure.
pub open spec fn has_health_figures(b: BatteryInfo) -> bool {
    b.full_capacity is Some || b.health_basis_points is Some || b.state_of_health is Some
        || b.cycle_count is Some
}

/// The snapshot of battery `b` at `now`.
pub open spec fn snapshot_of(b: BatteryInfo, now: u64) -> HealthModel {
    HealthModel {
        battery_id: identity(b),
        battery_device: b.device@,
        recorded_at_ms: now,
        full_capacity: b.full_capacity,
        design_capacity: b.design_capacity,
        health_basis_points: b.health_basis_points,
        state_of_health: b.state_of_health,
        cycle_count: b.cycle_count,
    }
}

/// Whether a snapshot of `b` is due at `now`: a day after the latest one of
/// the same battery, or when there is none; or, when a session has just
/// ended, when a health figure changed since the latest one.
pub open spec fn snapshot_due(h: Seq<HealthModel>, b: BatteryInfo, now: u64, session_finished: bool) -> bool {
    match last_snapshot(h, identity(b)) {
        None => true,
        Some(p) => sub_or_zero(now, p.recorded_at_ms) >= HEALTH_INTERVAL_MS || (session_finished && (
        p.cycle_count != b.cycle_count || p.state_of_health != b.state_of_health || health_changed(
            health_fraction(p.full_capacity, p.design_capacity, p.state_of_health),
            health_fraction(b.full_capacity, b.design_capacity, b.state_of_health),
        ) || capacity_changed(p.full_capacity, b.full_capacity))),
    }
}

/// The snapshots after sampling battery `b` at `now`.
pub open spec fn record_health_spec(h: Seq<HealthModel>, b: BatteryInfo, now: u64, session_finished: bool) -> Seq<
    HealthModel,
> {
    if has_health_figures(b) && snapshot_due(h, b, now, session_finished) {
        keep_last(h.push(snapshot_of(b, now)), MAX_HEALTH_SNAPSHOTS as int)
    } else {
        h
    }
}

fn health_fraction_exec(full: Option<CapacityValue>, design: Option<CapacityValue>, soh: Option<i64>) -> (r: Option<
    (i64, i64),
>)
    ensures
        match r {
            Some((n, d)) => health_fraction(full, design, soh) == Some((n as int, d as int)) && d > 0,
            None => health_fraction(full, design, soh) is None,
        },
{
    match (full, design) {
        (Some(f), Some(d)) => if f.kind == d.kind && d.raw > 0 {
            Some((f.raw, d.raw))
        } else {
            match soh {
                Some(h) => if 1 <= h && h <= 100 {
                    Some((h, 100))
                } else {
                    None
                },
                None => None,
            }
        },
        _ => None,
    }
}

fn health_changed_exec(prev: Option<(i64, i64)>, cur: Option<(i64, i64)>) -> (r: bool)
    requires
        prev matches Some((_, d)) ==> d > 0,
        cur matches Some((_, d)) ==> d > 0,
    ensures
        r == health_changed(
            match prev {
                Some((n, d)) => Some((n as int, d as int)),
                None => None,
            },
            match cur {
                Some((n, d)) => Some((n as int, d as int)),
                None => None,
            },
        ),
{
    match (prev, cur) {
        (Some((n1, d1)), Some((n2, d2))) => {
            proof {
                crate::num::lemma_mul_abs_bound(n1 as int, d2 as int, 0x8000_0000_0000_0000, 0x7fff_ffff_ffff_ffff);
                crate::num::lemma_mul_abs_bound(n2 as int, d1 as int, 0x8000_0000_0000_0000, 0x7fff_ffff_ffff_ffff);
                crate::num::lemma_mul_abs_bound(d1 as int, d2 as int, 0x8000_0000_0000_0000, 0x8000_0000_0000_0000);
            }
            let a: i128 = (n1 as i128) * (d2 as i128);
            let b: i128 = (n2 as i128) * (d1 as i128);
            let c: i128 = (d1 as i128) * (d2 as i128);
            assert(c > 0) by (nonlinear_arith)
                requires
                    c == d1 * d2,
                    d1 > 0,
                    d2 > 0,
            ;
            let diff: i128 = a - b;
            let m: u128 = if diff < 0 {
                (-diff) as u128
            } else {
                diff as u128
            };
            assert(m == crate::num::abs(n1 * d2 - n2 * d1));
            let cu: u128 = c as u128;
            let q: u128 = (cu + 999) / 1000;
            assert((m >= q) == (1000 * m >= cu)) by (nonlinear_arith)
                requires
                    q == (cu + 999) / 1000,
                    cu >= 0,
                    m >= 0,
            ;
            m >= q
        },
        (None, None) => false,
        _ => true,
    }
}

fn capacity_changed_exec(prev: Option<CapacityValue>, cur: Option<CapacityValue>) -> (r: bool)
    ensures
        r == capacity_changed(prev, cur),
{
    match (prev, cur) {
        (Some(p), Some(c)) => {
            if p.kind != c.kind {
                return true;
            }
            let step: i128 = match c.kind {
                CapacityKind::Charge => 500,
                CapacityKind::Energy => 500_000,
            };
            let d: i128 = (p.raw as i128) - (c.raw as i128);
            d >= step || -d >= step
        },
        (None, None) => false,
        _ => true,
    }
}

fn copy_str(s: &str) -> (r: String)
    ensures
        r@ == s@,
{
    string_of(chars_of(s).as_slice())
}

/// Drops the oldest elements of `v` beyond the last `n`.
fn keep_last_vec<T>(v: &mut Vec<T>, n: usize)
    ensures
        final(v)@ == keep_last(old(v)@, n as int),
{
    if v.len() > n {
        let extra = v.len() - n;
        let mut rest: Vec<T> = Vec::new();
        let mut all = Vec::new();
        std::mem::swap(&mut all, v);
        let ghost src = all@;
        // Move the kept elements, last first, then put them back in order.
        while all.len() > extra
            invariant
                extra <= all@.len() <= src.len(),
                all@ == src.take(all@.len() as int),
                rest@.len() == src.len() - all@.len(),
                forall|j: int| 0 <= j < rest@.len() ==> rest@[j] == src[src.len() - 1 - j],
            decreases all@.len(),
        {
            let ghost before = rest@;
            let ghost k = all@.len();
            let x = all.pop().unwrap();
            assert(x == src[k - 1]);
            rest.push(x);
            assert(rest@ == before.push(x));
            assert(all@ =~= src.take(all@.len() as int));
        }
        assert(rest@.len() == n);
        assert(src.subrange(src.len() - n as int, src.len() - n as int) =~= Seq::<T>::empty());
        let mut out: Vec<T> = Vec::new();
        while rest.len() > 0
            invariant
                rest@.len() + out@.len() == n,
                rest@.len() <= n,
                n <= src.len(),
                forall|j: int| 0 <= j < rest@.len() ==> rest@[j] == src[src.len() - 1 - j],
                out@ =~= src.subrange(src.len() - n as int, src.len() - rest@.len()),
            decreases rest@.len(),
        {
            let ghost m = rest@.len();
            let x = rest.pop().unwrap();
            assert(x == src[src.len() - m]);
            out.push(x);
            assert(out@ =~= src.subrange(src.len() - n as int, src.len() - rest@.len()));
        }
        *v = out;
    }
}

/// Takes a snapshot of battery `b` at `now` when one is due; keeps at most
/// `MAX_HEALTH_SNAPSHOTS`, dropping the oldest.
pub fn record_health(health: &mut Vec<HealthSnapshot>, b: &BatteryInfo, now: u64, session_finished: bool)
    ensures
        health_views(final(health)@) == record_health_spec(health_views(old(health)@), *b, now, session_finished),
{
    if b.full_capacity.is_none() && b.health_basis_points.is_none() && b.state_of_health.is_none()
        && b.cycle_count.is_none() {
        return;
    }
    let id = battery_identity(b);
    let ghost hv = health_views(health@);
    let mut i = health.len();
    assert(hv.take(i as int) =~= hv);
    while i > 0 && !str_eq(health[i - 1].battery_id.as_str(), id.as_str())
        invariant
            i <= health@.len(),
            hv == health_views(health@),
            last_snapshot(hv, id@) == last_snapshot(hv.take(i as int), id@),
        decreases i,
    {
        assert(hv.take(i as int).drop_last() =~= hv.take(i - 1));
        i -= 1;
    }
    let due = if i == 0 {
        assert(hv.take(0) =~= Seq::<HealthModel>::empty());
        true
    } else {
        assert(hv.take(i as int).last() == hv[i - 1]);
        let p = &health[i - 1];
        let elapsed: u64 = if now >= p.recorded_at_ms {
            now - p.recorded_at_ms
        } else {
            0
        };
        elapsed >= HEALTH_INTERVAL_MS || (session_finished && (p.cycle_count != b.cycle_count
            || p.state_of_health != b.state_of_health || health_changed_exec(
            health_fraction_exec(p.full_capacity, p.design_capacity, p.state_of_health),
            health_fraction_exec(b.full_capacity, b.design_capacity, b.state_of_health),
        ) || capacity_changed_exec(p.full_capacity, b.full_capacity)))
    };
    if !due {
        return;
    }
    let snap = HealthSnapshot {
        battery_id: id,
        battery_device: copy_str(b.device.as_str()),
        recorded_at_ms: now,
        full_capacity: b.full_capacity,
        design_capacity: b.design_capacity,
        health_basis_points: b.health_basis_points,
        state_of_health: b.state_of_health,
        cycle_count: b.cycle_count,
    };
    health.push(snap);
    assert(health_views(health@) =~= hv.push(snapshot_of(*b, now)));
    let ghost pushed = health@;
    keep_last_vec(health, MAX_HEALTH_SNAPSHOTS);
    proof {
        let k = keep_last(pushed, MAX_HEALTH_SNAPSHOTS as int);
        assert(health_views(k) =~= keep_last(health_views(pushed), MAX_HEALTH_SNAPSHOTS as int));
    }
}


// --------------------------------------------------------------- sessions

/// The views of session records.
pub open spec fn session_views(s: Seq<ChargeSession>) -> Seq<SessionModel> {
    s.map_values(|c: ChargeSession| c@)
}

/// Session records keyed by their start.
pub open spec fn by_start(s: Seq<SessionModel>) -> Seq<(u64, SessionModel)> {
    s.map_values(|x: SessionModel| (x.start_ms, x))
}

/// Session records in the order of their start; records that start at the
/// same time keep their order.
pub open spec fn sort_sessions(s: Seq<SessionModel>) -> Seq<SessionModel> {
    stable_sort(by_start(s)).map_values(|p: (u64, SessionModel)| p.1)
}

/// The records after session `a` ends: its record, if it is long enough,
/// joins them in the order of starts, and at most `MAX_SESSIONS` of the
/// latest are kept. Says whether a record was added.
pub open spec fn push_finished_spec(
    sessions: Seq<SessionModel>,
    a: ActiveModel,
    complete: bool,
    reason: Seq<char>,
) -> (Seq<SessionModel>, bool) {
    match finish_spec(a, complete, reason) {
        Some(r) => (keep_last(sort_sessions(sessions.push(r)), MAX_SESSIONS as int), true),
        None => (sessions, false),
    }
}

/// The elements of `v` in reverse order.
fn reversed<T>(v: Vec<T>) -> (r: Vec<T>)
    ensures
        r@ == v@.reverse(),
{
    let ghost src = v@;
    let mut v = v;
    let mut r: Vec<T> = Vec::new();
    while v.len() > 0
        invariant
            src == v@ + r@.reverse(),
        decreases v@.len(),
    {
        let x = v.pop().unwrap();
        let ghost before = r@;
        r.push(x);
        proof {
            assert(r@.reverse() =~= seq![x] + before.reverse());
            assert(src =~= v@ + r@.reverse());
        }
    }
    assert(src =~= r@.reverse());
    assert(r@ =~= src.reverse());
    r
}

/// Sorts session records by their start, stably.
fn sort_session_vec(v: Vec<ChargeSession>) -> (r: Vec<ChargeSession>)
    ensures
        session_views(r@) == sort_sessions(session_views(v@)),
{
    let ghost src = v@;
    let mut q = reversed(v);
    let n = q.len();
    let mut keyed: Vec<(u64, ChargeSession)> = Vec::new();
    let mut i: usize = 0;
    while i < n
        invariant
            n == src.len(),
            i <= n,
            q@.len() == n - i,
            forall|j: int| 0 <= j < q@.len() ==> q@[j] == src[n - 1 - j],
            keyed@.len() == i,
            forall|j: int| 0 <= j < i ==> (#[trigger] keyed@[j]).1 == src[j] && keyed@[j].0 == src[j].start_ms,
        decreases n - i,
    {
        let c = q.pop().unwrap();
        assert(c == src[i as int]);
        let k = c.start_ms;
        keyed.push((k, c));
        i += 1;
    }
    let ghost f = |c: ChargeSession| c@;
    let ghost g = |p: (u64, ChargeSession)| (p.0, f(p.1));
    assert(keyed@.map_values(g) =~= by_start(session_views(src)));
    let sorted = sort_by_key(keyed);
    proof {
        crate::sort::lemma_stable_sort_map(keyed@, f);
    }
    let mut q2 = reversed(sorted);
    let m = q2.len();
    let ghost ss = q2@.reverse();
    assert(ss =~= sorted@);
    let mut out: Vec<ChargeSession> = Vec::new();
    let mut i: usize = 0;
    while i < m
        invariant
            m == ss.len(),
            i <= m,
            q2@.len() == m - i,
            forall|j: int| 0 <= j < q2@.len() ==> q2@[j] == ss[m - 1 - j],
            out@.len() == i,
            forall|j: int| 0 <= j < i ==> #[trigger] out@[j] == ss[j].1,
        decreases m - i,
    {
        let p = q2.pop().unwrap();
        assert(p == ss[i as int]);
        let (_k, c) = p;
        out.push(c);
        i += 1;
    }
    proof {
        let sorted_views = stable_sort(keyed@).map_values(g);
        assert(session_views(out@) =~= sorted_views.map_values(|p: (u64, SessionModel)| p.1));
    }
    out
}

/// Ends session `a`: adds its record, when it is long enough, to `sessions`
/// in the order of starts, keeping at most `MAX_SESSIONS` of the latest.
/// Says whether a record was added.
pub fn push_finished(sessions: &mut Vec<ChargeSession>, a: &ActiveSession, complete: bool, reason: &str) -> (r: bool)
    ensures
        (session_views(final(sessions)@), r) == push_finished_spec(session_views(old(sessions)@), a@, complete, reason@),
{
    match a.finish(complete, reason) {
        None => false,
        Some(rec) => {
            let mut all = Vec::new();
            std::mem::swap(&mut all, sessions);
            let ghost before = session_views(all@);
            all.push(rec);
            assert(session_views(all@) =~= before.push(rec@));
            let sorted = sort_session_vec(all);
            *sessions = sorted;
            let ghost pre = sessions@;
            keep_last_vec(sessions, MAX_SESSIONS);
            assert(session_views(keep_last(pre, MAX_SESSIONS as int)) =~= keep_last(session_views(pre), MAX_SESSIONS as int));
            true
        },
    }
}


// ------------------------------------------------------------------- data

/// Everything the insights keep: finished sessions in the order of their
/// starts, sessions in progress (one per battery), and health snapshots.
pub struct InsightsData {
    pub version: u32,
    pub sessions: Vec<ChargeSession>,
    pub active: Vec<ActiveSession>,
    pub health: Vec<HealthSnapshot>,
}

/// The value of `InsightsData`.
pub struct InsightsModel {
    pub version: u32,
    pub sessions: Seq<SessionModel>,
    pub active: Seq<ActiveModel>,
    pub health: Seq<HealthModel>,
}

/// The views of sessions in progress.
pub open spec fn active_views(s: Seq<ActiveSession>) -> Seq<ActiveModel> {
    s.map_values(|a: ActiveSession| a@)
}

impl View for InsightsData {
    type V = InsightsModel;

    open spec fn view(&self) -> InsightsModel {
        InsightsModel {
            version: self.version,
            sessions: session_views(self.sessions@),
            active: active_views(self.active@),
            health: health_views(self.health@),
        }
    }
}

impl InsightsData {
    /// No sessions and no snapshots.
    pub fn new() -> (r: Self)
        ensures
            r@.version == DATA_VERSION,
            r@.sessions.len() == 0,
            r@.active.len() == 0,
            r@.health.len() == 0,
    {
        InsightsData { version: DATA_VERSION, sessions: Vec::new(), active: Vec::new(), health: Vec::new() }
    }
}

/// Whether session `a` was last sampled more than `MAX_RESUME_GAP_MS` ago.
pub open spec fn is_stale(a: ActiveModel, now: u64) -> bool {
    sub_or_zero(now, a.last_ms) > MAX_RESUME_GAP_MS
}

/// Closes the stale sessions of `active`, in turn, as incomplete with reason
/// `sampling_gap`. Gives the records, the sessions kept, and whether a
/// record was added.
pub open spec fn close_stale_spec(sessions: Seq<SessionModel>, active: Seq<ActiveModel>, now: u64) -> (
    Seq<SessionModel>,
    Seq<ActiveModel>,
    bool,
)
    decreases active.len(),
{
    if active.len() == 0 {
        (sessions, Seq::empty(), false)
    } else {
        let (s1, kept, u) = close_stale_spec(sessions, active.drop_last(), now);
        let a = active.last();
        if is_stale(a, now) {
            let (s2, u2) = push_finished_spec(s1, a, false, "sampling_gap"@);
            (s2, kept, u || u2)
        } else {
            (s1, kept.push(a), u)
        }
    }
}

/// `a` after one more sample without power or without its battery.
pub open spec fn bumped(a: ActiveModel) -> ActiveModel {
    ActiveModel {
        inactive_samples: if a.inactive_samples < 255 {
            (a.inactive_samples + 1) as u8
        } else {
            255
        },
        ..a
    }
}

fn bump(a: &mut ActiveSession)
    ensures
        final(a)@ == bumped(old(a)@),
{
    if a.inactive_samples < 255 {
        a.inactive_samples = a.inactive_samples + 1;
    }
}

fn close_stale(sessions: &mut Vec<ChargeSession>, active: &mut Vec<ActiveSession>, now: u64) -> (r: bool)
    ensures
        (session_views(final(sessions)@), active_views(final(active)@), r) == close_stale_spec(
            session_views(old(sessions)@),
            active_views(old(active)@),
            now,
        ),
{
    let mut all = Vec::new();
    std::mem::swap(&mut all, active);
    let ghost src = all@;
    let mut q = reversed(all);
    let n = q.len();
    let mut urgent = false;
    let mut i: usize = 0;
    proof {
        assert(active_views(src).take(0) =~= Seq::<ActiveModel>::empty());
        assert(active_views(active@) =~= Seq::<ActiveModel>::empty());
    }
    while i < n
        invariant
            n == src.len(),
            i <= n,
            q@.len() == n - i,
            forall|j: int| 0 <= j < q@.len() ==> q@[j] == src[n - 1 - j],
            (session_views(sessions@), active_views(active@), urgent) == close_stale_spec(
                session_views(old(sessions)@),
                active_views(src).take(i as int),
                now,
            ),
        decreases n - i,
    {
        let a = q.pop().unwrap();
        assert(a == src[i as int]);
        proof {
            let t = active_views(src).take(i + 1);
            assert(t.drop_last() =~= active_views(src).take(i as int));
            assert(t.last() == a@);
        }
        let gap: u64 = if now >= a.last_ms {
            now - a.last_ms
        } else {
            0
        };
        if gap > MAX_RESUME_GAP_MS {
            let u = push_finished(sessions, &a, false, "sampling_gap");
            urgent = urgent || u;
        } else {
            let ghost before = active_views(active@);
            active.push(a);
            assert(active_views(active@) =~= before.push(a@));
        }
        i += 1;
    }
    assert(active_views(src).take(n as int) =~= active_views(src));
    urgent
}

/// Whether any input source is online.
pub open spec fn externally_powered(sources: Seq<PowerSource>) -> bool {
    exists|i: int| 0 <= i < sources.len() && #[trigger] sources[i].online == Some(true)
}

fn any_online(sources: &[PowerSource]) -> (r: bool)
    ensures
        r == externally_powered(sources@),
{
    let mut i: usize = 0;
    while i < sources.len()
        invariant
            i <= sources@.len(),
            forall|j: int| 0 <= j < i ==> #[trigger] sources@[j].online != Some(true),
        decreases sources@.len() - i,
    {
        if sources[i].online == Some(true) {
            return true;
        }
        i += 1;
    }
    false
}

/// The position of the first session of battery `id`.
pub open spec fn position_of(active: Seq<ActiveModel>, id: Seq<char>) -> Option<int>
    decreases active.len(),
{
    if active.len() == 0 {
        None
    } else {
        match position_of(active.drop_last(), id) {
            Some(i) => Some(i),
            None => if active.last().battery_id == id {
                Some(active.len() - 1)
            } else {
                None
            },
        }
    }
}

proof fn lemma_position_of(active: Seq<ActiveModel>, id: Seq<char>)
    ensures
        match position_of(active, id) {
            Some(i) => 0 <= i < active.len() && active[i].battery_id == id && forall|j: int|
                0 <= j < i ==> #[trigger] active[j].battery_id != id,
            None => forall|j: int| 0 <= j < active.len() ==> #[trigger] active[j].battery_id != id,
        },
    decreases active.len(),
{
    if active.len() > 0 {
        lemma_position_of(active.drop_last(), id);
        let d = active.drop_last();
        assert forall|j: int| 0 <= j < d.len() implies d[j] == active[j] by {}
    }
}

fn find_active(active: &Vec<ActiveSession>, id: &str) -> (r: Option<usize>)
    ensures
        match r {
            Some(i) => position_of(active_views(active@), id@) == Some(i as int),
            None => position_of(active_views(active@), id@) is None,
        },
{
    let ghost v = active_views(active@);
    proof {
        lemma_position_of(v, id@);
    }
    let mut i: usize = 0;
    while i < active.len()
        invariant
            i <= active@.len(),
            v == active_views(active@),
            forall|j: int| 0 <= j < i ==> #[trigger] v[j].battery_id != id@,
            match position_of(v, id@) {
                Some(p) => 0 <= p < v.len() && v[p].battery_id == id@ && forall|j: int|
                    0 <= j < p ==> #[trigger] v[j].battery_id != id@,
                None => forall|j: int| 0 <= j < v.len() ==> #[trigger] v[j].battery_id != id@,
            },
        decreases active@.len() - i,
    {
        if str_eq(active[i].battery_id.as_str(), id) {
            assert(v[i as int].battery_id == id@);
            return Some(i);
        }
        i += 1;
    }
    None
}


/// The state of one evaluation while it goes through the batteries.
pub struct TickState {
    pub sessions: Seq<SessionModel>,
    pub active: Seq<ActiveModel>,
    pub health: Seq<HealthModel>,
    pub urgent: bool,
    pub seen: Set<Seq<char>>,
}

/// One battery of a sample. A session of the battery goes on while it
/// charges or any input is online; otherwise it counts a sample without
/// power and, at the second, ends as complete with reason `unplugged`, and a
/// snapshot is considered for the changed figures. Without a session, a
/// charging battery starts one, which must be stored at once. Then a daily
/// snapshot is considered.
pub open spec fn battery_tick_spec(st: TickState, b: BatteryInfo, sources: Seq<PowerSource>, now: u64) -> TickState {
    let id = identity(b);
    let charging = is_charging(b);
    let st1 = match position_of(st.active, id) {
        Some(i) => {
            let a = st.active[i];
            if charging || externally_powered(sources) {
                TickState { active: st.active.update(i, observe_spec(a, b, sources, now)), ..st }
            } else {
                let a2 = bumped(a);
                if a2.inactive_samples >= END_DEBOUNCE_SAMPLES {
                    let (s2, u) = push_finished_spec(st.sessions, a2, true, "unplugged"@);
                    TickState {
                        sessions: s2,
                        active: st.active.remove(i),
                        health: record_health_spec(st.health, b, now, true),
                        urgent: st.urgent || u,
                        seen: st.seen,
                    }
                } else {
                    TickState { active: st.active.update(i, a2), ..st }
                }
            }
        },
        None => if charging {
            TickState { active: st.active.push(start_spec(b, sources, now)), urgent: true, ..st }
        } else {
            st
        },
    };
    TickState { health: record_health_spec(st1.health, b, now, false), seen: st1.seen.insert(id), ..st1 }
}

/// The batteries of a sample in turn.
pub open spec fn batteries_tick_spec(st: TickState, bs: Seq<BatteryInfo>, sources: Seq<PowerSource>, now: u64) -> TickState
    decreases bs.len(),
{
    if bs.len() == 0 {
        st
    } else {
        battery_tick_spec(batteries_tick_spec(st, bs.drop_last(), sources, now), bs.last(), sources, now)
    }
}

fn battery_tick(
    sessions: &mut Vec<ChargeSession>,
    active: &mut Vec<ActiveSession>,
    health: &mut Vec<HealthSnapshot>,
    urgent: &mut bool,
    seen: &mut NameSet,
    b: &BatteryInfo,
    sources: &[PowerSource],
    now: u64,
)
    ensures
        ({
            let st = battery_tick_spec(
                TickState {
                    sessions: session_views(old(sessions)@),
                    active: active_views(old(active)@),
                    health: health_views(old(health)@),
                    urgent: *old(urgent),
                    seen: old(seen)@,
                },
                *b,
                sources@,
                now,
            );
            &&& session_views(final(sessions)@) == st.sessions
            &&& active_views(final(active)@) == st.active
            &&& health_views(final(health)@) == st.health
            &&& *final(urgent) == st.urgent
            &&& final(seen)@ == st.seen
        }),
{
    let id = battery_identity(b);
    let charging = opt_is(&b.status, "Charging");
    let powered = any_online(sources);
    let ghost av = active_views(active@);
    match find_active(active, id.as_str()) {
        Some(i) => {
            proof {
                lemma_position_of(av, id@);
            }
            let mut a = active.remove(i);
            assert(a@ == av[i as int]);
            if charging || powered {
                a.observe(b, sources, now);
                active.insert(i, a);
                assert(active_views(active@) =~= av.update(i as int, a@));
            } else {
                bump(&mut a);
                if a.inactive_samples >= END_DEBOUNCE_SAMPLES {
                    let u = push_finished(sessions, &a, true, "unplugged");
                    *urgent = *urgent || u;
                    record_health(health, b, now, true);
                    assert(active_views(active@) =~= av.remove(i as int));
                } else {
                    active.insert(i, a);
                    assert(active_views(active@) =~= av.update(i as int, a@));
                }
            }
        },
        None => {
            if charging {
                let a = ActiveSession::new(b, sources, now);
                active.push(a);
                assert(active_views(active@) =~= av.push(a@));
                *urgent = true;
            }
        },
    }
    record_health(health, b, now, false);
    seen.insert(id.as_str());
}


/// Each session of a battery not in the sample counts a sample without its
/// battery and, at the second, ends as incomplete with reason
/// `battery_missing`.
pub open spec fn close_missing_spec(sessions: Seq<SessionModel>, active: Seq<ActiveModel>, seen: Set<Seq<char>>) -> (
    Seq<SessionModel>,
    Seq<ActiveModel>,
    bool,
)
    decreases active.len(),
{
    if active.len() == 0 {
        (sessions, Seq::empty(), false)
    } else {
        let (s1, kept, u) = close_missing_spec(sessions, active.drop_last(), seen);
        let a = active.last();
        if seen.contains(a.battery_id) {
            (s1, kept.push(a), u)
        } else {
            let a2 = bumped(a);
            if a2.inactive_samples >= END_DEBOUNCE_SAMPLES {
                let (s2, u2) = push_finished_spec(s1, a2, false, "battery_missing"@);
                (s2, kept, u || u2)
            } else {
                (s1, kept.push(a2), u)
            }
        }
    }
}

fn close_missing(sessions: &mut Vec<ChargeSession>, active: &mut Vec<ActiveSession>, seen: &NameSet) -> (r: bool)
    ensures
        (session_views(final(sessions)@), active_views(final(active)@), r) == close_missing_spec(
            session_views(old(sessions)@),
            active_views(old(active)@),
            seen@,
        ),
{
    let mut all = Vec::new();
    std::mem::swap(&mut all, active);
    let ghost src = all@;
    let mut q = reversed(all);
    let n = q.len();
    let mut urgent = false;
    let mut i: usize = 0;
    proof {
        assert(active_views(src).take(0) =~= Seq::<ActiveModel>::empty());
        assert(active_views(active@) =~= Seq::<ActiveModel>::empty());
    }
    while i < n
        invariant
            n == src.len(),
            i <= n,
            q@.len() == n - i,
            forall|j: int| 0 <= j < q@.len() ==> q@[j] == src[n - 1 - j],
            (session_views(sessions@), active_views(active@), urgent) == close_missing_spec(
                session_views(old(sessions)@),
                active_views(src).take(i as int),
                seen@,
            ),
        decreases n - i,
    {
        let mut a = q.pop().unwrap();
        assert(a == src[i as int]);
        proof {
            let t = active_views(src).take(i + 1);
            assert(t.drop_last() =~= active_views(src).take(i as int));
            assert(t.last() == a@);
        }
        let ghost before = active_views(active@);
        if seen.contains(a.battery_id.as_str()) {
            active.push(a);
            assert(active_views(active@) =~= before.push(a@));
        } else {
            bump(&mut a);
            if a.inactive_samples >= END_DEBOUNCE_SAMPLES {
                let u = push_finished(sessions, &a, false, "battery_missing");
                urgent = urgent || u;
            } else {
                active.push(a);
                assert(active_views(active@) =~= before.push(a@));
            }
        }
        i += 1;
    }
    assert(active_views(src).take(n as int) =~= active_views(src));
    urgent
}

/// One sample of `batteries` and `sources` at `now`: stale sessions are
/// closed, each battery is examined in turn, and sessions whose battery is
/// missing are counted down. Says whether the data should be stored at once.
pub open spec fn tick_spec(d: InsightsModel, bs: Seq<BatteryInfo>, sources: Seq<PowerSource>, now: u64) -> (
    InsightsModel,
    bool,
) {
    let (s1, a1, u1) = close_stale_spec(d.sessions, d.active, now);
    let st = batteries_tick_spec(
        TickState { sessions: s1, active: a1, health: d.health, urgent: u1, seen: Set::empty() },
        bs,
        sources,
        now,
    );
    let (s3, a3, u3) = close_missing_spec(st.sessions, st.active, st.seen);
    (InsightsModel { version: d.version, sessions: s3, active: a3, health: st.health }, st.urgent || u3)
}

impl InsightsData {
    /// Takes one sample; says whether the data should be stored at once (a
    /// session started or a record was added).
    pub fn tick(&mut self, batteries: &[BatteryInfo], sources: &[PowerSource], now: u64) -> (r: bool)
        ensures
            (final(self)@, r) == tick_spec(old(self)@, batteries@, sources@, now),
    {
        let mut urgent = close_stale(&mut self.sessions, &mut self.active, now);
        let ghost st0 = TickState {
            sessions: session_views(self.sessions@),
            active: active_views(self.active@),
            health: health_views(self.health@),
            urgent,
            seen: Set::empty(),
        };
        let mut seen = NameSet::new();
        let mut i: usize = 0;
        while i < batteries.len()
            invariant
                i <= batteries@.len(),
                ({
                    let st = batteries_tick_spec(st0, batteries@.take(i as int), sources@, now);
                    &&& session_views(self.sessions@) == st.sessions
                    &&& active_views(self.active@) == st.active
                    &&& health_views(self.health@) == st.health
                    &&& urgent == st.urgent
                    &&& seen@ == st.seen
                }),
                self.version == old(self).version,
            decreases batteries@.len() - i,
        {
            battery_tick(
                &mut self.sessions,
                &mut self.active,
                &mut self.health,
                &mut urgent,
                &mut seen,
                &batteries[i],
                sources,
                now,
            );
            proof {
                let t = batteries@.take(i + 1);
                assert(t.drop_last() =~= batteries@.take(i as int));
                assert(t.last() == batteries@[i as int]);
            }
            i += 1;
        }
        assert(batteries@.take(i as int) =~= batteries@);
        let u = close_missing(&mut self.sessions, &mut self.active, &seen);
        urgent || u
    }
}


// ------------------------------------------------------------------- view

/// Whether a record of battery `id` is shown for `filter`: no filter, or an
/// empty one, shows every battery.
pub open spec fn id_matches(filter: Option<Seq<char>>, id: Seq<char>) -> bool {
    match filter {
        None => true,
        Some(f) => f.len() == 0 || f == id,
    }
}

/// The finished sessions of `s` shown for `filter`, marked as finished.
pub open spec fn finished_entries(s: Seq<SessionModel>, filter: Option<Seq<char>>) -> Seq<(SessionModel, bool)>
    decreases s.len(),
{
    if s.len() == 0 {
        Seq::empty()
    } else {
        let r = finished_entries(s.drop_last(), filter);
        if id_matches(filter, s.last().battery_id) {
            r.push((s.last(), false))
        } else {
            r
        }
    }
}

/// The previews of the sessions in progress of `s` shown for `filter`,
/// marked as in progress.
pub open spec fn active_entries(s: Seq<ActiveModel>, filter: Option<Seq<char>>) -> Seq<(SessionModel, bool)>
    decreases s.len(),
{
    if s.len() == 0 {
        Seq::empty()
    } else {
        let r = active_entries(s.drop_last(), filter);
        if id_matches(filter, s.last().battery_id) {
            r.push((preview_spec(s.last()), true))
        } else {
            r
        }
    }
}

/// The snapshots of `s` shown for `filter`.
pub open spec fn health_matching(s: Seq<HealthModel>, filter: Option<Seq<char>>) -> Seq<HealthModel>
    decreases s.len(),
{
    if s.len() == 0 {
        Seq::empty()
    } else {
        let r = health_matching(s.drop_last(), filter);
        if id_matches(filter, s.last().battery_id) {
            r.push(s.last())
        } else {
            r
        }
    }
}

/// Sessions keyed so that ascending keys put the latest start first.
pub open spec fn latest_first(e: Seq<(SessionModel, bool)>) -> Seq<(u64, (SessionModel, bool))> {
    e.map_values(|p: (SessionModel, bool)| ((u64::MAX - p.0.start_ms) as u64, p))
}

/// Snapshots keyed by the time they were taken.
pub open spec fn oldest_first(e: Seq<HealthModel>) -> Seq<(u64, HealthModel)> {
    e.map_values(|h: HealthModel| (h.recorded_at_ms, h))
}

/// A session as shown: its record and whether it is in progress.
pub struct SessionView {
    pub session: ChargeSession,
    pub active: bool,
}

/// What the insights show for a battery.
pub struct InsightsView {
    pub sessions: Vec<SessionView>,
    pub health: Vec<HealthSnapshot>,
}

/// The views of shown sessions.
pub open spec fn shown_views(s: Seq<SessionView>) -> Seq<(SessionModel, bool)> {
    s.map_values(|v: SessionView| (v.session@, v.active))
}

/// At most this many sessions are shown.
pub const SHOWN_SESSIONS: usize = 200;

/// The sessions shown for `filter`: the finished ones, then those in
/// progress, latest start first (records that start at the same time keep
/// that order), at most `SHOWN_SESSIONS`.
pub open spec fn shown_sessions(d: InsightsModel, filter: Option<Seq<char>>) -> Seq<(SessionModel, bool)> {
    let sorted = unkeyed(
        stable_sort(latest_first(finished_entries(d.sessions, filter) + active_entries(d.active, filter))),
    );
    if sorted.len() > SHOWN_SESSIONS {
        sorted.take(SHOWN_SESSIONS as int)
    } else {
        sorted
    }
}

/// The snapshots shown for `filter`, oldest first (snapshots taken at the
/// same time keep their order).
pub open spec fn shown_health(d: InsightsModel, filter: Option<Seq<char>>) -> Seq<HealthModel> {
    unkeyed(stable_sort(oldest_first(health_matching(d.health, filter))))
}

/// The values of the first `limit` elements of `v`.
fn values_of<T>(v: Vec<(u64, T)>, limit: usize) -> (r: Vec<T>)
    ensures
        r@.len() == (if v@.len() > limit {
            limit as int
        } else {
            v@.len() as int
        }),
        forall|j: int| 0 <= j < r@.len() ==> #[trigger] r@[j] == v@[j].1,
{
    let ghost src = v@;
    let mut q = reversed(v);
    let m = q.len();
    let n: usize = if m > limit {
        limit
    } else {
        m
    };
    let mut out: Vec<T> = Vec::new();
    let mut k: usize = 0;
    while k < n
        invariant
            n <= m,
            m == src.len(),
            k <= n,
            q@.len() == m - k,
            forall|t: int| 0 <= t < q@.len() ==> q@[t] == src[m - 1 - t],
            out@.len() == k,
            forall|t: int| 0 <= t < k ==> #[trigger] out@[t] == src[t].1,
        decreases n - k,
    {
        let p = q.pop().unwrap();
        assert(p == src[k as int]);
        let (_key, x) = p;
        out.push(x);
        k += 1;
    }
    out
}

fn copy_strings(v: &Vec<String>) -> (r: Vec<String>)
    ensures
        crate::sysfs::views(r@) == crate::sysfs::views(v@),
{
    let mut r: Vec<String> = Vec::new();
    let mut i: usize = 0;
    while i < v.len()
        invariant
            i <= v@.len(),
            crate::sysfs::views(r@) == crate::sysfs::views(v@).take(i as int),
        decreases v@.len() - i,
    {
        let ghost prev = crate::sysfs::views(r@);
        let c = v[i].clone();
        r.push(c);
        assert(crate::sysfs::views(r@) =~= prev.push(crate::sysfs::views(v@)[i as int]));
        i += 1;
        assert(crate::sysfs::views(r@) =~= crate::sysfs::views(v@).take(i as int));
    }
    assert(crate::sysfs::views(v@).take(i as int) =~= crate::sysfs::views(v@));
    r
}

fn copy_session(c: &ChargeSession) -> (r: ChargeSession)
    ensures
        r@ == c@,
{
    ChargeSession {
        id: c.id.clone(),
        battery_id: c.battery_id.clone(),
        battery_device: c.battery_device.clone(),
        battery_name: c.battery_name.clone(),
        start_ms: c.start_ms,
        end_ms: c.end_ms,
        start_capacity: c.start_capacity,
        end_capacity: c.end_capacity,
        charged_percent: c.charged_percent,
        duration_ms: c.duration_ms,
        charging_ms: c.charging_ms,
        battery_energy: c.battery_energy,
        input_energy: c.input_energy,
        charged: c.charged,
        average_battery_power: c.average_battery_power,
        average_input_power: c.average_input_power,
        peak_input_power_uw: c.peak_input_power_uw,
        average_temperature: c.average_temperature,
        peak_temperature_dc: c.peak_temperature_dc,
        source_names: copy_strings(&c.source_names),
        source_kinds: copy_strings(&c.source_kinds),
        usb_types: copy_strings(&c.usb_types),
        sample_count: c.sample_count,
        powered_sample_count: c.powered_sample_count,
        health_end: c.health_end,
        cycle_count_end: c.cycle_count_end,
        complete: c.complete,
        end_reason: c.end_reason.clone(),
    }
}

fn copy_snapshot(h: &HealthSnapshot) -> (r: HealthSnapshot)
    ensures
        r@ == h@,
{
    HealthSnapshot {
        battery_id: h.battery_id.clone(),
        battery_device: h.battery_device.clone(),
        recorded_at_ms: h.recorded_at_ms,
        full_capacity: h.full_capacity,
        design_capacity: h.design_capacity,
        health_basis_points: h.health_basis_points,
        state_of_health: h.state_of_health,
        cycle_count: h.cycle_count,
    }
}

fn id_matches_exec(filter: Option<&str>, id: &str) -> (r: bool)
    ensures
        r == id_matches(
            match filter {
                Some(f) => Some(f@),
                None => None,
            },
            id@,
        ),
{
    match filter {
        None => true,
        Some(f) => {
            let c = chars_of(f);
            c.len() == 0 || str_eq(f, id)
        },
    }
}

/// The optional filter as characters.
pub open spec fn filter_view(filter: Option<&str>) -> Option<Seq<char>> {
    match filter {
        Some(f) => Some(f@),
        None => None,
    }
}

impl InsightsData {
    fn session_entries(&self, battery_id: Option<&str>) -> (r: Vec<(u64, SessionView)>)
        ensures
            r@.len() == latest_first(
                finished_entries(self@.sessions, filter_view(battery_id)) + active_entries(self@.active, filter_view(battery_id)),
            ).len(),
            forall|j: int| 0 <= j < r@.len() ==> ((#[trigger] r@[j]).0, (r@[j].1.session@, r@[j].1.active)) == latest_first(
                finished_entries(self@.sessions, filter_view(battery_id)) + active_entries(self@.active, filter_view(battery_id)),
            )[j],
    {
        let ghost fv = filter_view(battery_id);
        let ghost d = self@;
        let mut keyed: Vec<(u64, SessionView)> = Vec::new();
        let mut i: usize = 0;
        while i < self.sessions.len()
            invariant
                i <= self.sessions@.len(),
                d == self@,
                fv == filter_view(battery_id),
                keyed@.len() == finished_entries(d.sessions.take(i as int), fv).len(),
                forall|j: int| 0 <= j < keyed@.len() ==> ((#[trigger] keyed@[j]).0, (keyed@[j].1.session@, keyed@[j].1.active)) == latest_first(
                    finished_entries(d.sessions.take(i as int), fv),
                )[j],
            decreases self.sessions@.len() - i,
        {
            proof {
                let t = d.sessions.take(i + 1);
                assert(t.drop_last() =~= d.sessions.take(i as int));
                assert(t.last() == self.sessions@[i as int]@);
            }
            let ghost e0 = finished_entries(d.sessions.take(i as int), fv);
            let ghost e1 = finished_entries(d.sessions.take(i + 1), fv);
            let ghost before = keyed@;
            if id_matches_exec(battery_id, self.sessions[i].battery_id.as_str()) {
                let c = copy_session(&self.sessions[i]);
                let k: u64 = u64::MAX - c.start_ms;
                keyed.push((k, SessionView { session: c, active: false }));
                proof {
                    assert(e1 == e0.push((self.sessions@[i as int]@, false)));
                    assert forall|j: int| 0 <= j < keyed@.len() implies ((#[trigger] keyed@[j]).0, (keyed@[j].1.session@, keyed@[j].1.active)) == latest_first(e1)[j] by {
                        if j < before.len() {
                            assert(keyed@[j] == before[j]);
                            assert(latest_first(e1)[j] == latest_first(e0)[j]);
                        }
                    }
                }
            }
            i += 1;
        }
        assert(d.sessions.take(i as int) =~= d.sessions);
        let ghost fin = finished_entries(d.sessions, fv);
        let mut j: usize = 0;
        while j < self.active.len()
            invariant
                j <= self.active@.len(),
                d == self@,
                fv == filter_view(battery_id),
                fin == finished_entries(d.sessions, fv),
                keyed@.len() == (fin + active_entries(d.active.take(j as int), fv)).len(),
                forall|t: int| 0 <= t < keyed@.len() ==> ((#[trigger] keyed@[t]).0, (keyed@[t].1.session@, keyed@[t].1.active)) == latest_first(
                    fin + active_entries(d.active.take(j as int), fv),
                )[t],
            decreases self.active@.len() - j,
        {
            proof {
                let t = d.active.take(j + 1);
                assert(t.drop_last() =~= d.active.take(j as int));
                assert(t.last() == self.active@[j as int]@);
                let e0 = active_entries(d.active.take(j as int), fv);
                let e1 = active_entries(d.active.take(j + 1), fv);
                if id_matches(fv, self.active@[j as int]@.battery_id) {
                    assert(fin + e1 =~= (fin + e0).push((preview_spec(self.active@[j as int]@), true)));
                } else {
                    assert(fin + e1 =~= fin + e0);
                }
            }
            let ghost e0 = fin + active_entries(d.active.take(j as int), fv);
            let ghost e1 = fin + active_entries(d.active.take(j + 1), fv);
            let ghost before = keyed@;
            if id_matches_exec(battery_id, self.active[j].battery_id.as_str()) {
                let c = self.active[j].preview();
                let k: u64 = u64::MAX - c.start_ms;
                keyed.push((k, SessionView { session: c, active: true }));
                proof {
                    assert(e1 == e0.push((preview_spec(self.active@[j as int]@), true)));
                    assert forall|t: int| 0 <= t < keyed@.len() implies ((#[trigger] keyed@[t]).0, (keyed@[t].1.session@, keyed@[t].1.active)) == latest_first(e1)[t] by {
                        if t < before.len() {
                            assert(keyed@[t] == before[t]);
                            assert(latest_first(e1)[t] == latest_first(e0)[t]);
                        }
                    }
                }
            }
            j += 1;
        }
        assert(d.active.take(j as int) =~= d.active);
        keyed
    }

    fn health_entries(&self, battery_id: Option<&str>) -> (r: Vec<(u64, HealthSnapshot)>)
        ensures
            r@.len() == oldest_first(health_matching(self@.health, filter_view(battery_id))).len(),
            forall|j: int| 0 <= j < r@.len() ==> ((#[trigger] r@[j]).0, r@[j].1@) == oldest_first(
                health_matching(self@.health, filter_view(battery_id)),
            )[j],
    {
        let ghost fv = filter_view(battery_id);
        let ghost d = self@;
        let mut keyed: Vec<(u64, HealthSnapshot)> = Vec::new();
        let mut i: usize = 0;
        while i < self.health.len()
            invariant
                i <= self.health@.len(),
                d == self@,
                fv == filter_view(battery_id),
                keyed@.len() == health_matching(d.health.take(i as int), fv).len(),
                forall|j: int| 0 <= j < keyed@.len() ==> ((#[trigger] keyed@[j]).0, keyed@[j].1@) == oldest_first(
                    health_matching(d.health.take(i as int), fv),
                )[j],
            decreases self.health@.len() - i,
        {
            proof {
                let t = d.health.take(i + 1);
                assert(t.drop_last() =~= d.health.take(i as int));
                assert(t.last() == self.health@[i as int]@);
            }
            let ghost e0 = health_matching(d.health.take(i as int), fv);
            let ghost e1 = health_matching(d.health.take(i + 1), fv);
            let ghost before = keyed@;
            if id_matches_exec(battery_id, self.health[i].battery_id.as_str()) {
                let h = copy_snapshot(&self.health[i]);
                let k = h.recorded_at_ms;
                keyed.push((k, h));
                proof {
                    assert(e1 == e0.push(self.health@[i as int]@));
                    assert forall|j: int| 0 <= j < keyed@.len() implies ((#[trigger] keyed@[j]).0, keyed@[j].1@) == oldest_first(e1)[j] by {
                        if j < before.len() {
                            assert(keyed@[j] == before[j]);
                            assert(oldest_first(e1)[j] == oldest_first(e0)[j]);
                        }
                    }
                }
            }
            i += 1;
        }
        assert(d.health.take(i as int) =~= d.health);
        keyed
    }

    /// What is shown for battery `battery_id` (all batteries when it is
    /// absent or empty): sessions, latest first, and health snapshots,
    /// oldest first.
    pub fn insights_view(&self, battery_id: Option<&str>) -> (r: InsightsView)
        ensures
            shown_views(r.sessions@) == shown_sessions(self@, filter_view(battery_id)),
            health_views(r.health@) == shown_health(self@, filter_view(battery_id)),
    {
        let ghost fv = filter_view(battery_id);
        let keyed = self.session_entries(battery_id);
        let ghost all = latest_first(finished_entries(self@.sessions, fv) + active_entries(self@.active, fv));
        let ghost g = |v: SessionView| (v.session@, v.active);
        assert(keyed@.map_values(|p: (u64, SessionView)| (p.0, g(p.1))) =~= all);
        let sorted = sort_by_key(keyed);
        proof {
            crate::sort::lemma_stable_sort_map(keyed@, g);
            crate::sort::lemma_stable_sort_sorted(keyed@);
            crate::sort::lemma_stable_sort_sorted(all);
        }
        let ghost ss = sorted@;
        let sessions = values_of(sorted, SHOWN_SESSIONS);
        proof {
            let target = unkeyed(stable_sort(all));
            assert forall|j: int| 0 <= j < sessions@.len() implies shown_views(sessions@)[j] == target[j] by {
                assert(stable_sort(all)[j] == (ss[j].0, g(ss[j].1)));
            }
            if target.len() > SHOWN_SESSIONS {
                assert(shown_views(sessions@) =~= target.take(SHOWN_SESSIONS as int));
            } else {
                assert(shown_views(sessions@) =~= target);
            }
        }
        let hk = self.health_entries(battery_id);
        let ghost hall = oldest_first(health_matching(self@.health, fv));
        let ghost hg = |h: HealthSnapshot| h@;
        assert(hk@.map_values(|p: (u64, HealthSnapshot)| (p.0, hg(p.1))) =~= hall);
        let hsorted = sort_by_key(hk);
        proof {
            crate::sort::lemma_stable_sort_map(hk@, hg);
            crate::sort::lemma_stable_sort_sorted(hk@);
            crate::sort::lemma_stable_sort_sorted(hall);
        }
        let ghost hs = hsorted@;
        let n = hsorted.len();
        let health = values_of(hsorted, n);
        proof {
            let target = unkeyed(stable_sort(hall));
            assert forall|j: int| 0 <= j < health@.len() implies health_views(health@)[j] == target[j] by {
                assert(stable_sort(hall)[j] == (hs[j].0, hg(hs[j].1)));
            }
            assert(health_views(health@) =~= target);
        }
        InsightsView { sessions, health }
    }
}


// ------------------------------------------------------------------- laws

/// Whether the records are in the order of their starts.
pub open spec fn starts_sorted(s: Seq<SessionModel>) -> bool {
    forall|i: int, j: int| 0 <= i <= j < s.len() ==> s[i].start_ms <= s[j].start_ms
}

proof fn lemma_stable_sort_keeps_keys(s: Seq<(u64, SessionModel)>)
    requires
        forall|i: int| 0 <= i < s.len() ==> (#[trigger] s[i]).0 == s[i].1.start_ms,
    ensures
        forall|i: int| 0 <= i < stable_sort(s).len() ==> (#[trigger] stable_sort(s)[i]).0 == stable_sort(s)[i].1.start_ms,
    decreases s.len(),
{
    if s.len() > 0 {
        let d = s.drop_last();
        assert forall|i: int| 0 <= i < d.len() implies (#[trigger] d[i]).0 == d[i].1.start_ms by {
            assert(d[i] == s[i]);
        }
        lemma_stable_sort_keeps_keys(d);
        let r = stable_sort(d);
        let p = crate::sort::upper_bound(r, s.last().0);
        crate::sort::lemma_stable_sort_sorted(d);
        crate::sort::lemma_upper_bound_range(r, s.last().0);
        let q = r.insert(p, s.last());
        assert forall|i: int| 0 <= i < q.len() implies (#[trigger] q[i]).0 == q[i].1.start_ms by {
            if i < p {
                assert(q[i] == r[i]);
            } else if i > p {
                assert(q[i] == r[i - 1]);
            }
        }
    }
}

/// Sorting records orders them by their starts.
pub proof fn lemma_sort_sessions_sorted(s: Seq<SessionModel>)
    ensures
        sort_sessions(s).len() == s.len(),
        starts_sorted(sort_sessions(s)),
{
    let k = by_start(s);
    lemma_stable_sort_keeps_keys(k);
    crate::sort::lemma_stable_sort_sorted(k);
    let r = stable_sort(k);
    assert forall|i: int, j: int| 0 <= i <= j < sort_sessions(s).len() implies sort_sessions(s)[i].start_ms
        <= sort_sessions(s)[j].start_ms by {
        assert(sort_sessions(s)[i] == r[i].1);
        assert(sort_sessions(s)[j] == r[j].1);
        assert(r[i].0 == r[i].1.start_ms);
        assert(r[j].0 == r[j].1.start_ms);
    }
}

/// When a session ends with a record, the records are in the order of
/// their starts, there are at most `MAX_SESSIONS` of them, and the latest
/// `MAX_SESSIONS` are kept.
pub proof fn lemma_push_finished_orders(sessions: Seq<SessionModel>, a: ActiveModel, complete: bool, reason: Seq<char>)
    ensures
        push_finished_spec(sessions, a, complete, reason).1 ==> {
            let r = push_finished_spec(sessions, a, complete, reason).0;
            &&& starts_sorted(r)
            &&& r.len() <= MAX_SESSIONS
            &&& r.len() == if sessions.len() + 1 > MAX_SESSIONS {
                MAX_SESSIONS as int
            } else {
                sessions.len() + 1 as int
            }
        },
        !push_finished_spec(sessions, a, complete, reason).1 ==> push_finished_spec(sessions, a, complete, reason).0
            == sessions,
{
    if let Some(rec) = finish_spec(a, complete, reason) {
        let all = sort_sessions(sessions.push(rec));
        lemma_sort_sessions_sorted(sessions.push(rec));
        let r = keep_last(all, MAX_SESSIONS as int);
        if all.len() > MAX_SESSIONS {
            assert forall|i: int, j: int| 0 <= i <= j < r.len() implies r[i].start_ms <= r[j].start_ms by {
                assert(r[i] == all[i + all.len() - MAX_SESSIONS]);
                assert(r[j] == all[j + all.len() - MAX_SESSIONS]);
            }
        }
    }
}

/// At most `MAX_HEALTH_SNAPSHOTS` snapshots are kept, the latest ones.
pub proof fn lemma_health_capped(h: Seq<HealthModel>, b: BatteryInfo, now: u64, session_finished: bool)
    requires
        h.len() <= MAX_HEALTH_SNAPSHOTS,
    ensures
        record_health_spec(h, b, now, session_finished).len() <= MAX_HEALTH_SNAPSHOTS,
{
}

/// A snapshot of a battery is taken at most once a day while no session of
/// it ends: within a day of its latest snapshot, sampling it adds none.
pub proof fn lemma_health_daily(h: Seq<HealthModel>, b: BatteryInfo, now: u64, p: HealthModel)
    requires
        last_snapshot(h, identity(b)) == Some(p),
        sub_or_zero(now, p.recorded_at_ms) < HEALTH_INTERVAL_MS,
    ensures
        record_health_spec(h, b, now, false) == h,
{
}

/// A battery that reports a health figure gets a snapshot, the latest of
/// all, when it has none yet or its latest is a day old.
pub proof fn lemma_health_due(h: Seq<HealthModel>, b: BatteryInfo, now: u64)
    requires
        h.len() < MAX_HEALTH_SNAPSHOTS,
        has_health_figures(b),
        match last_snapshot(h, identity(b)) {
            None => true,
            Some(p) => sub_or_zero(now, p.recorded_at_ms) >= HEALTH_INTERVAL_MS,
        },
    ensures
        record_health_spec(h, b, now, false) == h.push(snapshot_of(b, now)),
{
}

/// Batteries with different non-blank serial numbers are told apart.
pub proof fn lemma_identity_by_serial(b1: BatteryInfo, b2: BatteryInfo)
    requires
        b1.serial_number is Some,
        b2.serial_number is Some,
        trim(b1.serial_number.unwrap()@).len() > 0,
        trim(b2.serial_number.unwrap()@).len() > 0,
        trim(b1.serial_number.unwrap()@) != trim(b2.serial_number.unwrap()@),
    ensures
        identity(b1) != identity(b2),
{
    let p = "serial:"@;
    let x = trim(b1.serial_number.unwrap()@);
    let y = trim(b2.serial_number.unwrap()@);
    if identity(b1) == identity(b2) {
        assert((p + x).subrange(p.len() as int, (p + x).len() as int) =~= x);
        assert((p + y).subrange(p.len() as int, (p + y).len() as int) =~= y);
    }
}

/// The first sample that finds a session's battery neither charging nor
/// powered does not end the session: it only counts that sample.
pub proof fn lemma_unplug_debounce(st: TickState, b: BatteryInfo, sources: Seq<PowerSource>, now: u64, i: int)
    requires
        position_of(st.active, identity(b)) == Some(i),
        !is_charging(b),
        !externally_powered(sources),
        st.active[i].inactive_samples == 0,
    ensures
        battery_tick_spec(st, b, sources, now).active == st.active.update(i, bumped(st.active[i])),
        battery_tick_spec(st, b, sources, now).sessions == st.sessions,
{
}

/// The second such sample ends the session as complete, with reason
/// `unplugged`.
pub proof fn lemma_unplug_ends(st: TickState, b: BatteryInfo, sources: Seq<PowerSource>, now: u64, i: int)
    requires
        position_of(st.active, identity(b)) == Some(i),
        !is_charging(b),
        !externally_powered(sources),
        st.active[i].inactive_samples == 1,
    ensures
        battery_tick_spec(st, b, sources, now).active == st.active.remove(i),
        battery_tick_spec(st, b, sources, now).sessions == push_finished_spec(
            st.sessions,
            bumped(st.active[i]),
            true,
            "unplugged"@,
        ).0,
{
}

/// While any input is online, a session goes on even when the battery
/// pauses charging.
pub proof fn lemma_powered_session_continues(st: TickState, b: BatteryInfo, sources: Seq<PowerSource>, now: u64, i: int)
    requires
        position_of(st.active, identity(b)) == Some(i),
        externally_powered(sources),
    ensures
        battery_tick_spec(st, b, sources, now).active == st.active.update(i, observe_spec(st.active[i], b, sources, now)),
        battery_tick_spec(st, b, sources, now).sessions == st.sessions,
{
}

/// A battery that starts charging without a session starts one, and the
/// data must be stored at once.
pub proof fn lemma_charging_starts_session(st: TickState, b: BatteryInfo, sources: Seq<PowerSource>, now: u64)
    requires
        position_of(st.active, identity(b)) is None,
        is_charging(b),
    ensures
        battery_tick_spec(st, b, sources, now).active == st.active.push(start_spec(b, sources, now)),
        battery_tick_spec(st, b, sources, now).urgent,
{
}

/// After closing stale sessions, none of those kept is stale, and each kept
/// one was a session before.
pub proof fn lemma_close_stale(sessions: Seq<SessionModel>, active: Seq<ActiveModel>, now: u64)
    ensures
        forall|i: int| 0 <= i < close_stale_spec(sessions, active, now).1.len() ==> !is_stale(
            #[trigger] close_stale_spec(sessions, active, now).1[i],
            now,
        ),
        forall|i: int| 0 <= i < close_stale_spec(sessions, active, now).1.len() ==> active.contains(
            #[trigger] close_stale_spec(sessions, active, now).1[i],
        ),
    decreases active.len(),
{
    if active.len() > 0 {
        let d = active.drop_last();
        lemma_close_stale(sessions, d, now);
        let kept = close_stale_spec(sessions, d, now).1;
        assert forall|i: int| 0 <= i < kept.len() implies active.contains(#[trigger] kept[i]) by {
            assert(d.contains(kept[i]));
            let k = choose|k: int| 0 <= k < d.len() && d[k] == kept[i];
            assert(active[k] == kept[i]);
        }
        assert(active[active.len() - 1] == active.last());
    }
}


// ---------------------------------------------------------------- storage

/// Whether the data should be written after a sample: at once when
/// `urgent`, else every `INSIGHTS_FLUSH_EVERY`-th sample, `count` being the
/// number of samples before this one (a counter that wraps).
pub fn flush_due(urgent: bool, count: u32) -> (r: bool)
    ensures
        r == (urgent || count % INSIGHTS_FLUSH_EVERY == 0),
{
    urgent || count % INSIGHTS_FLUSH_EVERY == 0
}

/// Stored data as loaded: data of another version is discarded.
pub fn accept_stored(data: InsightsData) -> (r: InsightsData)
    ensures
        data.version == DATA_VERSION ==> r@ == data@,
        data.version != DATA_VERSION ==> r@.version == DATA_VERSION && r@.sessions.len() == 0 && r@.active.len()
            == 0 && r@.health.len() == 0,
{
    if data.version == DATA_VERSION {
        data
    } else {
        InsightsData::new()
    }
}


/// What every sample keeps of the data: the records in the order of their
/// starts and at most `MAX_SESSIONS` of them, at most
/// `MAX_HEALTH_SNAPSHOTS` snapshots, and at most one session in progress
/// per battery.
pub open spec fn data_ok(d: InsightsModel) -> bool {
    &&& starts_sorted(d.sessions)
    &&& d.sessions.len() <= MAX_SESSIONS
    &&& d.health.len() <= MAX_HEALTH_SNAPSHOTS
    &&& ids_unique(d.active)
}

/// Whether no two sessions in progress belong to the same battery.
pub open spec fn ids_unique(a: Seq<ActiveModel>) -> bool {
    forall|i: int, j: int| 0 <= i < j < a.len() ==> (#[trigger] a[i]).battery_id != (#[trigger] a[j]).battery_id
}

/// Whether the records are ordered and not too many.
pub open spec fn sessions_ok(s: Seq<SessionModel>) -> bool {
    starts_sorted(s) && s.len() <= MAX_SESSIONS
}

/// Whether every session of `kept` belongs to a battery of `from`.
pub open spec fn ids_within(kept: Seq<ActiveModel>, from: Seq<ActiveModel>) -> bool {
    forall|i: int| 0 <= i < kept.len() ==> exists|j: int| 0 <= j < from.len() && #[trigger] from[j].battery_id == (
    #[trigger] kept[i]).battery_id
}

proof fn lemma_push_finished_ok(s: Seq<SessionModel>, a: ActiveModel, complete: bool, reason: Seq<char>)
    requires
        sessions_ok(s),
    ensures
        sessions_ok(push_finished_spec(s, a, complete, reason).0),
        !push_finished_spec(s, a, complete, reason).1 ==> push_finished_spec(s, a, complete, reason).0 == s,
{
    lemma_push_finished_orders(s, a, complete, reason);
}

/// Whether every session in progress was sampled within `MAX_RESUME_GAP_MS`
/// before `now`.
pub open spec fn fresh_at(active: Seq<ActiveModel>, now: u64) -> bool {
    forall|i: int| 0 <= i < active.len() ==> !is_stale(#[trigger] active[i], now)
}

proof fn lemma_ids_within_self(a: Seq<ActiveModel>)
    ensures
        ids_within(a, a),
{
    if a.len() > 0 {
        // Stated of an equal sequence built afresh, whose elements give the
        // quantifiers terms to match on.
        let u = a.update(0, a[0]);
        assert forall|p: int| 0 <= p < u.len() implies exists|q: int|
            0 <= q < a.len() && #[trigger] a[q].battery_id == (#[trigger] u[p]).battery_id by {
            assert(a[p].battery_id == u[p].battery_id);
        }
        assert(u =~= a);
    }
}

proof fn lemma_ids_within_trans(a: Seq<ActiveModel>, b: Seq<ActiveModel>, c: Seq<ActiveModel>)
    requires
        ids_within(a, b),
        ids_within(b, c),
    ensures
        ids_within(a, c),
{
    if a.len() > 0 {
        // As in `lemma_ids_within_self`, stated of an equal sequence.
        let u = a.update(0, a[0]);
        assert forall|i: int| 0 <= i < u.len() implies exists|j: int| 0 <= j < c.len() && #[trigger] c[j].battery_id == (
        #[trigger] u[i]).battery_id by {
            assert(u[i] == a[i]);
            let k = choose|k: int| 0 <= k < b.len() && #[trigger] b[k].battery_id == a[i].battery_id;
            let j = choose|j: int| 0 <= j < c.len() && #[trigger] c[j].battery_id == b[k].battery_id;
            assert(c[j].battery_id == u[i].battery_id);
        }
        assert(u =~= a);
    }
}

proof fn lemma_close_stale_ok(sessions: Seq<SessionModel>, active: Seq<ActiveModel>, now: u64)
    requires
        sessions_ok(sessions),
    ensures
        sessions_ok(close_stale_spec(sessions, active, now).0),
        ids_unique(active) ==> ids_unique(close_stale_spec(sessions, active, now).1),
        ids_within(close_stale_spec(sessions, active, now).1, active),
        !close_stale_spec(sessions, active, now).2 ==> close_stale_spec(sessions, active, now).0 == sessions,
    decreases active.len(),
{
    if active.len() > 0 {
        let d = active.drop_last();
        if ids_unique(active) {
            assert(ids_unique(d)) by {
                assert forall|i: int, j: int| 0 <= i < j < d.len() implies (#[trigger] d[i]).battery_id != (
                #[trigger] d[j]).battery_id by {
                    assert(d[i] == active[i] && d[j] == active[j]);
                }
            }
        }
        lemma_close_stale_ok(sessions, d, now);
        let (s1, kept, u) = close_stale_spec(sessions, d, now);
        let a = active.last();
        if is_stale(a, now) {
            lemma_push_finished_ok(s1, a, false, "sampling_gap"@);
            assert forall|i: int| 0 <= i < kept.len() implies exists|j: int|
                0 <= j < active.len() && #[trigger] active[j].battery_id == (#[trigger] kept[i]).battery_id by {
                let j = choose|j: int| 0 <= j < d.len() && #[trigger] d[j].battery_id == kept[i].battery_id;
                assert(active[j] == d[j]);
            }
        } else {
            let k2 = kept.push(a);
            if ids_unique(active) {
                assert forall|i: int| 0 <= i < kept.len() implies (#[trigger] kept[i]).battery_id != a.battery_id by {
                    let j = choose|j: int| 0 <= j < d.len() && #[trigger] d[j].battery_id == kept[i].battery_id;
                    assert(active[j] == d[j]);
                    assert(active[active.len() - 1] == a);
                }
                assert forall|i: int, j: int| 0 <= i < j < k2.len() implies (#[trigger] k2[i]).battery_id != (
                #[trigger] k2[j]).battery_id by {
                    if j == kept.len() {
                        assert(k2[i] == kept[i]);
                    } else {
                        assert(k2[i] == kept[i] && k2[j] == kept[j]);
                    }
                }
            }
            assert forall|i: int| 0 <= i < k2.len() implies exists|j: int|
                0 <= j < active.len() && #[trigger] active[j].battery_id == (#[trigger] k2[i]).battery_id by {
                if i == kept.len() {
                    assert(active[active.len() - 1].battery_id == k2[i].battery_id);
                } else {
                    assert(k2[i] == kept[i]);
                    let j = choose|j: int| 0 <= j < d.len() && #[trigger] d[j].battery_id == kept[i].battery_id;
                    assert(active[j] == d[j]);
                }
            }
        }
    }
}

proof fn lemma_close_missing_ok(sessions: Seq<SessionModel>, active: Seq<ActiveModel>, seen: Set<Seq<char>>, now: u64)
    requires
        sessions_ok(sessions),
    ensures
        sessions_ok(close_missing_spec(sessions, active, seen).0),
        ids_unique(active) ==> ids_unique(close_missing_spec(sessions, active, seen).1),
        ids_within(close_missing_spec(sessions, active, seen).1, active),
        fresh_at(active, now) ==> fresh_at(close_missing_spec(sessions, active, seen).1, now),
        !close_missing_spec(sessions, active, seen).2 ==> close_missing_spec(sessions, active, seen).0 == sessions,
    decreases active.len(),
{
    if active.len() > 0 {
        let d = active.drop_last();
        if ids_unique(active) {
            assert(ids_unique(d)) by {
                assert forall|i: int, j: int| 0 <= i < j < d.len() implies (#[trigger] d[i]).battery_id != (
                #[trigger] d[j]).battery_id by {
                    assert(d[i] == active[i] && d[j] == active[j]);
                }
            }
        }
        if fresh_at(active, now) {
            assert(fresh_at(d, now)) by {
                assert forall|i: int| 0 <= i < d.len() implies !is_stale(#[trigger] d[i], now) by {
                    assert(d[i] == active[i]);
                }
            }
        }
        lemma_close_missing_ok(sessions, d, seen, now);
        let (s1, kept, u) = close_missing_spec(sessions, d, seen);
        let a = active.last();
        let a2 = if seen.contains(a.battery_id) {
            a
        } else {
            bumped(a)
        };
        assert(a2.battery_id == a.battery_id);
        assert(a2.last_ms == a.last_ms);
        if !seen.contains(a.battery_id) && bumped(a).inactive_samples >= END_DEBOUNCE_SAMPLES {
            lemma_push_finished_ok(s1, bumped(a), false, "battery_missing"@);
            assert forall|i: int| 0 <= i < kept.len() implies exists|j: int|
                0 <= j < active.len() && #[trigger] active[j].battery_id == (#[trigger] kept[i]).battery_id by {
                let j = choose|j: int| 0 <= j < d.len() && #[trigger] d[j].battery_id == kept[i].battery_id;
                assert(active[j] == d[j]);
            }
        } else {
            let k2 = kept.push(a2);
            assert(close_missing_spec(sessions, active, seen).1 == k2);
            if ids_unique(active) {
                assert forall|i: int| 0 <= i < kept.len() implies (#[trigger] kept[i]).battery_id != a.battery_id by {
                    let j = choose|j: int| 0 <= j < d.len() && #[trigger] d[j].battery_id == kept[i].battery_id;
                    assert(active[j] == d[j]);
                    assert(active[active.len() - 1] == a);
                }
                assert forall|i: int, j: int| 0 <= i < j < k2.len() implies (#[trigger] k2[i]).battery_id != (
                #[trigger] k2[j]).battery_id by {
                    if j == kept.len() {
                        assert(k2[i] == kept[i]);
                    } else {
                        assert(k2[i] == kept[i] && k2[j] == kept[j]);
                    }
                }
            }
            if fresh_at(active, now) {
                assert(active[active.len() - 1] == a);
                assert forall|i: int| 0 <= i < k2.len() implies !is_stale(#[trigger] k2[i], now) by {
                    if i < kept.len() {
                        assert(k2[i] == kept[i]);
                    }
                }
            }
            assert forall|i: int| 0 <= i < k2.len() implies exists|j: int|
                0 <= j < active.len() && #[trigger] active[j].battery_id == (#[trigger] k2[i]).battery_id by {
                if i == kept.len() {
                    assert(active[active.len() - 1].battery_id == k2[i].battery_id);
                } else {
                    assert(k2[i] == kept[i]);
                    let j = choose|j: int| 0 <= j < d.len() && #[trigger] d[j].battery_id == kept[i].battery_id;
                    assert(active[j] == d[j]);
                }
            }
        }
    }
}

/// Whether a tick state keeps the records ordered and not too many, and
/// the snapshots not too many.
pub open spec fn bounds_ok(st: TickState) -> bool {
    &&& sessions_ok(st.sessions)
    &&& st.health.len() <= MAX_HEALTH_SNAPSHOTS
}

/// What examining one battery keeps: the bounds; one session per battery;
/// sessions sampled within the gap; and, when it asks for no immediate
/// store, the records and which batteries have sessions.
proof fn lemma_battery_tick_ok(st: TickState, b: BatteryInfo, sources: Seq<PowerSource>, now: u64)
    requires
        bounds_ok(st),
    ensures
        bounds_ok(battery_tick_spec(st, b, sources, now)),
        ids_unique(st.active) ==> ids_unique(battery_tick_spec(st, b, sources, now).active),
        fresh_at(st.active, now) ==> fresh_at(battery_tick_spec(st, b, sources, now).active, now),
        !battery_tick_spec(st, b, sources, now).urgent ==> {
            &&& !st.urgent
            &&& battery_tick_spec(st, b, sources, now).sessions == st.sessions
            &&& ids_within(battery_tick_spec(st, b, sources, now).active, st.active)
        },
{
    let id = identity(b);
    lemma_position_of(st.active, id);
    let a = st.active;
    let r = battery_tick_spec(st, b, sources, now);
    match position_of(a, id) {
        Some(i) => {
            let x = a[i];
            if is_charging(b) || externally_powered(sources) {
                let u = a.update(i, observe_spec(x, b, sources, now));
                assert(u[i].last_ms == now);
                if ids_unique(a) {
                    assert forall|p: int, q: int| 0 <= p < q < u.len() implies (#[trigger] u[p]).battery_id != (
                    #[trigger] u[q]).battery_id by {
                        assert(u[p].battery_id == a[p].battery_id);
                        assert(u[q].battery_id == a[q].battery_id);
                    }
                }
                if fresh_at(a, now) {
                    assert forall|p: int| 0 <= p < u.len() implies !is_stale(#[trigger] u[p], now) by {
                        if p != i {
                            assert(u[p] == a[p]);
                        }
                    }
                }
                assert forall|p: int| 0 <= p < u.len() implies exists|q: int|
                    0 <= q < a.len() && #[trigger] a[q].battery_id == (#[trigger] u[p]).battery_id by {
                    assert(a[p].battery_id == u[p].battery_id);
                }
            } else {
                let x2 = bumped(x);
                if x2.inactive_samples >= END_DEBOUNCE_SAMPLES {
                    lemma_push_finished_ok(st.sessions, x2, true, "unplugged"@);
                    lemma_health_capped(st.health, b, now, true);
                    let rm = a.remove(i);
                    assert forall|p: int| 0 <= p < rm.len() implies rm[p] == a[if p < i { p } else { p + 1 }] by {}
                    if ids_unique(a) {
                        assert forall|p: int, q: int| 0 <= p < q < rm.len() implies (#[trigger] rm[p]).battery_id != (
                        #[trigger] rm[q]).battery_id by {
                            let pp = if p < i { p } else { p + 1 };
                            let qq = if q < i { q } else { q + 1 };
                            assert(rm[p] == a[pp]);
                            assert(rm[q] == a[qq]);
                        }
                    }
                    if fresh_at(a, now) {
                        assert forall|p: int| 0 <= p < rm.len() implies !is_stale(#[trigger] rm[p], now) by {
                            let pp = if p < i { p } else { p + 1 };
                            assert(rm[p] == a[pp]);
                        }
                    }
                    assert forall|p: int| 0 <= p < rm.len() implies exists|q: int|
                        0 <= q < a.len() && #[trigger] a[q].battery_id == (#[trigger] rm[p]).battery_id by {
                        let pp = if p < i { p } else { p + 1 };
                        assert(rm[p] == a[pp]);
                    }
                    lemma_health_capped(record_health_spec(st.health, b, now, true), b, now, false);
                } else {
                    let u = a.update(i, x2);
                    if ids_unique(a) {
                        assert forall|p: int, q: int| 0 <= p < q < u.len() implies (#[trigger] u[p]).battery_id != (
                        #[trigger] u[q]).battery_id by {
                            assert(u[p].battery_id == a[p].battery_id);
                            assert(u[q].battery_id == a[q].battery_id);
                        }
                    }
                    if fresh_at(a, now) {
                        assert forall|p: int| 0 <= p < u.len() implies !is_stale(#[trigger] u[p], now) by {
                            assert(u[p].last_ms == a[p].last_ms);
                            assert(!is_stale(a[p], now));
                        }
                    }
                    assert forall|p: int| 0 <= p < u.len() implies exists|q: int|
                        0 <= q < a.len() && #[trigger] a[q].battery_id == (#[trigger] u[p]).battery_id by {
                        assert(a[p].battery_id == u[p].battery_id);
                    }
                }
            }
        },
        None => {
            if is_charging(b) {
                let u = a.push(start_spec(b, sources, now));
                assert(start_spec(b, sources, now).battery_id == id);
                assert(u[a.len() as int].last_ms == now);
                if ids_unique(a) {
                    assert forall|p: int, q: int| 0 <= p < q < u.len() implies (#[trigger] u[p]).battery_id != (
                    #[trigger] u[q]).battery_id by {
                        assert(u[p] == a[p]);
                        if q < a.len() {
                            assert(u[q] == a[q]);
                        }
                    }
                }
                if fresh_at(a, now) {
                    assert forall|p: int| 0 <= p < u.len() implies !is_stale(#[trigger] u[p], now) by {
                        if p < a.len() {
                            assert(u[p] == a[p]);
                        }
                    }
                }
            } else {
                lemma_ids_within_self(a);
            }
        },
    }
    if !(position_of(a, id) matches Some(i) && !(is_charging(b) || externally_powered(sources))
        && bumped(a[i]).inactive_samples >= END_DEBOUNCE_SAMPLES) {
        lemma_health_capped(st.health, b, now, false);
    }
}

proof fn lemma_batteries_tick_ok(st: TickState, bs: Seq<BatteryInfo>, sources: Seq<PowerSource>, now: u64)
    requires
        bounds_ok(st),
    ensures
        bounds_ok(batteries_tick_spec(st, bs, sources, now)),
        ids_unique(st.active) ==> ids_unique(batteries_tick_spec(st, bs, sources, now).active),
        fresh_at(st.active, now) ==> fresh_at(batteries_tick_spec(st, bs, sources, now).active, now),
        !batteries_tick_spec(st, bs, sources, now).urgent ==> {
            &&& !st.urgent
            &&& batteries_tick_spec(st, bs, sources, now).sessions == st.sessions
            &&& ids_within(batteries_tick_spec(st, bs, sources, now).active, st.active)
        },
    decreases bs.len(),
{
    if bs.len() > 0 {
        let mid = batteries_tick_spec(st, bs.drop_last(), sources, now);
        lemma_batteries_tick_ok(st, bs.drop_last(), sources, now);
        lemma_battery_tick_ok(mid, bs.last(), sources, now);
        let fin = battery_tick_spec(mid, bs.last(), sources, now);
        if !fin.urgent {
            lemma_ids_within_trans(fin.active, mid.active, st.active);
        }
    } else {
        lemma_ids_within_self(st.active);
    }
}

/// Every sample keeps the data in order: records sorted by start and at
/// most `MAX_SESSIONS`, at most `MAX_HEALTH_SNAPSHOTS` snapshots, and one
/// session in progress per battery.
pub proof fn lemma_tick_keeps_data_ok(d: InsightsModel, bs: Seq<BatteryInfo>, sources: Seq<PowerSource>, now: u64)
    requires
        data_ok(d),
    ensures
        data_ok(tick_spec(d, bs, sources, now).0),
{
    lemma_close_stale_ok(d.sessions, d.active, now);
    let (s1, a1, u1) = close_stale_spec(d.sessions, d.active, now);
    let st0 = TickState { sessions: s1, active: a1, health: d.health, urgent: u1, seen: Set::empty() };
    lemma_batteries_tick_ok(st0, bs, sources, now);
    let st = batteries_tick_spec(st0, bs, sources, now);
    lemma_close_missing_ok(st.sessions, st.active, st.seen, now);
}

/// Every sample, from any state whose records are in the order of their
/// starts and within their limits: the records stay so, and the snapshots
/// within theirs; no session in progress afterwards was last sampled more
/// than `MAX_RESUME_GAP_MS` before `now`; and when the sample asks for no
/// immediate store, no record was added and no session started, so every
/// session in progress belongs to a battery that had one before.
pub proof fn lemma_tick_invariant(d: InsightsModel, bs: Seq<BatteryInfo>, sources: Seq<PowerSource>, now: u64)
    requires
        sessions_ok(d.sessions),
        d.health.len() <= MAX_HEALTH_SNAPSHOTS,
    ensures
        sessions_ok(tick_spec(d, bs, sources, now).0.sessions),
        tick_spec(d, bs, sources, now).0.health.len() <= MAX_HEALTH_SNAPSHOTS,
        forall|i: int|
            0 <= i < tick_spec(d, bs, sources, now).0.active.len() ==> sub_or_zero(
                now,
                (#[trigger] tick_spec(d, bs, sources, now).0.active[i]).last_ms,
            ) <= MAX_RESUME_GAP_MS,
        !tick_spec(d, bs, sources, now).1 ==> {
            &&& tick_spec(d, bs, sources, now).0.sessions == d.sessions
            &&& ids_within(tick_spec(d, bs, sources, now).0.active, d.active)
        },
{
    lemma_close_stale_ok(d.sessions, d.active, now);
    lemma_close_stale(d.sessions, d.active, now);
    let (s1, a1, u1) = close_stale_spec(d.sessions, d.active, now);
    assert(fresh_at(a1, now));
    let st0 = TickState { sessions: s1, active: a1, health: d.health, urgent: u1, seen: Set::empty() };
    lemma_batteries_tick_ok(st0, bs, sources, now);
    let st = batteries_tick_spec(st0, bs, sources, now);
    lemma_close_missing_ok(st.sessions, st.active, st.seen, now);
    let (s3, a3, u3) = close_missing_spec(st.sessions, st.active, st.seen);
    assert forall|i: int| 0 <= i < a3.len() implies sub_or_zero(now, (#[trigger] a3[i]).last_ms)
        <= MAX_RESUME_GAP_MS by {
        assert(!is_stale(a3[i], now));
    }
    if !(st.urgent || u3) {
        lemma_ids_within_trans(a3, st.active, a1);
        lemma_ids_within_trans(a3, a1, d.active);
    }
}

/// Whether closing the stale sessions of `active` produces a record: some
/// stale session is long enough to be recorded.
pub open spec fn stale_recorded(active: Seq<ActiveModel>, now: u64) -> bool {
    exists|k: int|
        0 <= k < active.len() && is_stale(#[trigger] active[k], now) && finish_spec(
            active[k],
            false,
            "sampling_gap"@,
        ) is Some
}

/// Whether examining battery `b` from state `st` starts a session: it
/// charges and has none.
pub open spec fn session_started(st: TickState, b: BatteryInfo) -> bool {
    position_of(st.active, identity(b)) is None && is_charging(b)
}

/// Whether examining battery `b` from state `st` ends its session with a
/// record: without charge or power at the second sample, long enough to be
/// recorded.
pub open spec fn session_recorded(st: TickState, b: BatteryInfo, sources: Seq<PowerSource>) -> bool {
    match position_of(st.active, identity(b)) {
        Some(i) => {
            &&& !(is_charging(b) || externally_powered(sources))
            &&& bumped(st.active[i]).inactive_samples >= END_DEBOUNCE_SAMPLES
            &&& finish_spec(bumped(st.active[i]), true, "unplugged"@) is Some
        },
        None => false,
    }
}

/// Whether battery `i` of `bs`, examined after the ones before it from
/// `st`, starts a session or ends one with a record.
pub open spec fn event_at(st: TickState, bs: Seq<BatteryInfo>, i: int, sources: Seq<PowerSource>, now: u64) -> bool {
    let before = batteries_tick_spec(st, bs.take(i), sources, now);
    session_started(before, bs[i]) || session_recorded(before, bs[i], sources)
}

/// Whether, going through the batteries from `st`, some battery starts a
/// session or ends one with a record.
pub open spec fn batteries_event(st: TickState, bs: Seq<BatteryInfo>, sources: Seq<PowerSource>, now: u64) -> bool {
    exists|i: int| 0 <= i < bs.len() && #[trigger] event_at(st, bs, i, sources, now)
}

/// Whether counting down the sessions of batteries not seen produces a
/// record: one reaches its second sample without its battery and is long
/// enough to be recorded.
pub open spec fn missing_recorded(active: Seq<ActiveModel>, seen: Set<Seq<char>>) -> bool {
    exists|k: int|
        0 <= k < active.len() && !seen.contains((#[trigger] active[k]).battery_id) && bumped(
            active[k],
        ).inactive_samples >= END_DEBOUNCE_SAMPLES && finish_spec(bumped(active[k]), false, "battery_missing"@) is Some
}

proof fn lemma_close_stale_flag(sessions: Seq<SessionModel>, active: Seq<ActiveModel>, now: u64)
    ensures
        close_stale_spec(sessions, active, now).2 == stale_recorded(active, now),
    decreases active.len(),
{
    if active.len() > 0 {
        let d = active.drop_last();
        lemma_close_stale_flag(sessions, d, now);
        assert forall|k: int| 0 <= k < d.len() implies #[trigger] d[k] == active[k] by {}
        if stale_recorded(d, now) {
            let k = choose|k: int|
                0 <= k < d.len() && is_stale(#[trigger] d[k], now) && finish_spec(d[k], false, "sampling_gap"@) is Some;
            assert(active[k] == d[k]);
        }
        if stale_recorded(active, now) && !stale_recorded(d, now) {
            let k = choose|k: int|
                0 <= k < active.len() && is_stale(#[trigger] active[k], now) && finish_spec(
                    active[k],
                    false,
                    "sampling_gap"@,
                ) is Some;
            if k < d.len() {
                assert(d[k] == active[k]);
            }
        }
        assert(active[active.len() - 1] == active.last());
    }
}

proof fn lemma_close_missing_flag(sessions: Seq<SessionModel>, active: Seq<ActiveModel>, seen: Set<Seq<char>>)
    ensures
        close_missing_spec(sessions, active, seen).2 == missing_recorded(active, seen),
    decreases active.len(),
{
    if active.len() > 0 {
        let d = active.drop_last();
        lemma_close_missing_flag(sessions, d, seen);
        assert forall|k: int| 0 <= k < d.len() implies #[trigger] d[k] == active[k] by {}
        if missing_recorded(d, seen) {
            let k = choose|k: int|
                0 <= k < d.len() && !seen.contains((#[trigger] d[k]).battery_id) && bumped(d[k]).inactive_samples
                    >= END_DEBOUNCE_SAMPLES && finish_spec(bumped(d[k]), false, "battery_missing"@) is Some;
            assert(active[k] == d[k]);
        }
        if missing_recorded(active, seen) && !missing_recorded(d, seen) {
            let k = choose|k: int|
                0 <= k < active.len() && !seen.contains((#[trigger] active[k]).battery_id) && bumped(
                    active[k],
                ).inactive_samples >= END_DEBOUNCE_SAMPLES && finish_spec(bumped(active[k]), false, "battery_missing"@)
                    is Some;
            if k < d.len() {
                assert(d[k] == active[k]);
            }
        }
        assert(active[active.len() - 1] == active.last());
    }
}

proof fn lemma_event_at_prefix(st: TickState, bs: Seq<BatteryInfo>, i: int, sources: Seq<PowerSource>, now: u64)
    requires
        bs.len() > 0,
        0 <= i < bs.len() - 1,
    ensures
        event_at(st, bs, i, sources, now) == event_at(st, bs.drop_last(), i, sources, now),
{
    assert(bs.drop_last().take(i) =~= bs.take(i));
    assert(bs.drop_last()[i] == bs[i]);
}

proof fn lemma_batteries_flag(st: TickState, bs: Seq<BatteryInfo>, sources: Seq<PowerSource>, now: u64)
    ensures
        batteries_tick_spec(st, bs, sources, now).urgent == (st.urgent || batteries_event(st, bs, sources, now)),
    decreases bs.len(),
{
    if bs.len() > 0 {
        let p = bs.drop_last();
        let n = p.len() as int;
        lemma_batteries_flag(st, p, sources, now);
        let mid = batteries_tick_spec(st, p, sources, now);
        assert(bs.take(n) =~= p);
        assert(event_at(st, bs, n, sources, now) == (session_started(mid, bs.last()) || session_recorded(
            mid,
            bs.last(),
            sources,
        )));
        if batteries_event(st, p, sources, now) {
            let i = choose|i: int| 0 <= i < p.len() && #[trigger] event_at(st, p, i, sources, now);
            lemma_event_at_prefix(st, bs, i, sources, now);
            assert(event_at(st, bs, i, sources, now));
        }
        if batteries_event(st, bs, sources, now) && !batteries_event(st, p, sources, now) {
            let i = choose|i: int| 0 <= i < bs.len() && #[trigger] event_at(st, bs, i, sources, now);
            if i < n {
                lemma_event_at_prefix(st, bs, i, sources, now);
                assert(event_at(st, p, i, sources, now));
            }
        }
    }
}

/// A sample asks for an immediate store exactly when a session started or
/// a session ended with a record: a stale session long enough to be
/// recorded was closed, a battery started a session or ended one with a
/// record, or the session of a missing battery ended with a record.
pub proof fn lemma_tick_store_exactly(d: InsightsModel, bs: Seq<BatteryInfo>, sources: Seq<PowerSource>, now: u64)
    ensures
        tick_spec(d, bs, sources, now).1 == ({
            let (s1, a1, u1) = close_stale_spec(d.sessions, d.active, now);
            let st0 = TickState { sessions: s1, active: a1, health: d.health, urgent: u1, seen: Set::empty() };
            let st = batteries_tick_spec(st0, bs, sources, now);
            stale_recorded(d.active, now) || batteries_event(st0, bs, sources, now) || missing_recorded(
                st.active,
                st.seen,
            )
        }),
{
    lemma_close_stale_flag(d.sessions, d.active, now);
    let (s1, a1, u1) = close_stale_spec(d.sessions, d.active, now);
    let st0 = TickState { sessions: s1, active: a1, health: d.health, urgent: u1, seen: Set::empty() };
    lemma_batteries_flag(st0, bs, sources, now);
    let st = batteries_tick_spec(st0, bs, sources, now);
    lemma_close_missing_flag(st.sessions, st.active, st.seen);
}

/// Fresh data is in order.
pub proof fn lemma_empty_data_ok(d: InsightsModel)
    requires
        d.sessions.len() == 0,
        d.active.len() == 0,
        d.health.len() == 0,
    ensures
        data_ok(d),
{
}

} // verus!
