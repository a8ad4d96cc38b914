//! History of the power inputs: one pair of archives per input source, plus
//! one for the total of all online inputs, kept in `String` order of the
//! source id. The same keyed archives hold each battery's history, by
//! device name.

use vstd::prelude::*;
use crate::history::{
    archive_add, empty_slots, query_archives, query_result, Archives, Reading, Sample, Slot,
    HISTORY_COARSE_STEP_MS, HISTORY_FINE_STEP_MS, ROWS_COARSE, ROWS_FINE,
};
use crate::history::{archives_bytes, extend_vec, lemma_slots_at, lemma_slots_bytes, slots_bytes, slots_from_bytes, ROW_BYTES, ARCHIVES_BYTES};
use vstd::bytes::{lemma_auto_spec_u32_to_from_le_bytes, spec_u32_from_le_bytes, spec_u32_to_le_bytes, u32_from_le_bytes, u32_to_le_bytes};
use vstd::slice::slice_subrange;
use vstd::utf8::{decode_utf8, encode_utf8, encode_utf8_decode_utf8, encode_utf8_valid_utf8, valid_utf8};
use crate::num::{abs, round_div, round_div_i128, sat_i64, sat_i64_of};
use crate::power::PowerSource;
use crate::text::{
    chars_eq, chars_lt, chars_of, lemma_lex_irreflexive, lemma_lex_total, lemma_lex_transitive,
    lex_lt, string_of, trim, trim_chars,
};

verus! {

/// The id under which the total of all online inputs is recorded.
pub open spec fn total_id() -> Seq<char> {
    "total"@
}

/// One input sample to record: per source, or the total.
#[derive(Debug)]
pub struct InputReading {
    pub source_id: String,
    /// µW, as a magnitude.
    pub power_uw: Option<i64>,
    /// µV.
    pub voltage_uv: Option<i64>,
    /// µA, as a magnitude.
    pub current_ua: Option<i64>,
}

/// `|x|`, limited to `i64`.
pub open spec fn abs_sat(x: i64) -> i64 {
    sat_i64(abs(x as int))
}

/// The magnitude of an optional value.
pub open spec fn opt_abs(v: Option<i64>) -> Option<i64> {
    match v {
        Some(x) => Some(abs_sat(x)),
        None => None,
    }
}

/// The online sources, in order.
pub open spec fn online(s: Seq<PowerSource>) -> Seq<PowerSource>
    decreases s.len(),
{
    if s.len() == 0 {
        Seq::empty()
    } else {
        let rest = online(s.drop_last());
        if s.last().online == Some(true) {
            rest.push(s.last())
        } else {
            rest
        }
    }
}

/// Sum and count of the values present.
pub open spec fn sum_present(v: Seq<Option<i64>>) -> (int, nat)
    decreases v.len(),
{
    if v.len() == 0 {
        (0, 0)
    } else {
        let (s, c) = sum_present(v.drop_last());
        match v.last() {
            Some(x) => (s + x, c + 1),
            None => (s, c),
        }
    }
}

/// The sum of the values present, `None` when none is.
pub open spec fn opt_sum(v: Seq<Option<i64>>) -> Option<i64> {
    let (s, c) = sum_present(v);
    if c > 0 {
        Some(sat_i64(s))
    } else {
        None
    }
}

/// The rounded mean of the values present, `None` when none is.
pub open spec fn opt_mean(v: Seq<Option<i64>>) -> Option<i64> {
    let (s, c) = sum_present(v);
    if c > 0 {
        Some(sat_i64(round_div(s, c as int)))
    } else {
        None
    }
}

/// Whether `r` is the reading recorded for source `p`.
pub open spec fn source_reading(r: InputReading, p: PowerSource) -> bool {
    &&& r.source_id@ == p.name@
    &&& r.power_uw == opt_abs(p.power_now_uw)
    &&& r.voltage_uv == p.voltage_now_uv
    &&& r.current_ua == opt_abs(p.current_now_ua)
}

/// Whether `r` is the total of the online sources `on`: power and current
/// summed as magnitudes, voltage averaged.
pub open spec fn total_reading(r: InputReading, on: Seq<PowerSource>) -> bool {
    &&& r.source_id@ == total_id()
    &&& r.power_uw == opt_sum(on.map_values(|p: PowerSource| opt_abs(p.power_now_uw)))
    &&& r.voltage_uv == opt_mean(on.map_values(|p: PowerSource| p.voltage_now_uv))
    &&& r.current_ua == opt_sum(on.map_values(|p: PowerSource| opt_abs(p.current_now_ua)))
}

/// Whether `rs` are the readings recorded for `sources`: nothing when none
/// is online, else the total first, then each online source in order.
pub open spec fn readings_for(sources: Seq<PowerSource>, rs: Seq<InputReading>) -> bool {
    &&& online(sources).len() == 0 ==> rs.len() == 0
    &&& online(sources).len() > 0 ==> {
        &&& rs.len() == online(sources).len() + 1
        &&& total_reading(rs[0], online(sources))
        &&& forall|k: int|
            0 <= k < online(sources).len() ==> source_reading(#[trigger] rs[k + 1], online(sources)[k])
    }
}

fn abs_of(x: i64) -> (r: i64)
    ensures
        r == abs_sat(x),
{
    if x == i64::MIN {
        i64::MAX
    } else if x < 0 {
        -x
    } else {
        x
    }
}

fn opt_abs_of(v: Option<i64>) -> (r: Option<i64>)
    ensures
        r == opt_abs(v),
{
    match v {
        Some(x) => Some(abs_of(x)),
        None => None,
    }
}

proof fn lemma_sum_present_bound(v: Seq<Option<i64>>)
    ensures
        abs(sum_present(v).0) <= sum_present(v).1 * 0x8000_0000_0000_0000,
        sum_present(v).1 <= v.len(),
    decreases v.len(),
{
    if v.len() > 0 {
        lemma_sum_present_bound(v.drop_last());
    }
}

/// The readings to record for the sources: nothing when none is online,
/// else the total first, then each online source in order.
pub fn input_readings(sources: &[PowerSource]) -> (r: Vec<InputReading>)
    ensures
        readings_for(sources@, r@),
{
    let mut per_source: Vec<InputReading> = Vec::new();
    let mut power_sum: i128 = 0;
    let mut power_count: u64 = 0;
    let mut voltage_sum: i128 = 0;
    let mut voltage_count: u64 = 0;
    let mut current_sum: i128 = 0;
    let mut current_count: u64 = 0;
    let mut i: usize = 0;
    let n_sources = sources.len();
    while i < n_sources
        invariant
            n_sources == sources@.len(),
            i <= sources@.len(),
            per_source@.len() == online(sources@.take(i as int)).len(),
            per_source@.len() <= i,
            forall|k: int|
                0 <= k < per_source@.len() ==> source_reading(
                    #[trigger] per_source@[k],
                    online(sources@.take(i as int))[k],
                ),
            (power_sum as int, power_count as nat) == sum_present(
                online(sources@.take(i as int)).map_values(|p: PowerSource| opt_abs(p.power_now_uw)),
            ),
            (voltage_sum as int, voltage_count as nat) == sum_present(
                online(sources@.take(i as int)).map_values(|p: PowerSource| p.voltage_now_uv),
            ),
            (current_sum as int, current_count as nat) == sum_present(
                online(sources@.take(i as int)).map_values(|p: PowerSource| opt_abs(p.current_now_ua)),
            ),
        decreases sources@.len() - i,
    {
        let ghost pre = sources@.take(i as int);
        let ghost next = sources@.take(i + 1);
        assert(next.drop_last() =~= pre);
        let p = &sources[i];
        proof {
            let on = online(pre);
            lemma_sum_present_bound(on.map_values(|p: PowerSource| opt_abs(p.power_now_uw)));
            lemma_sum_present_bound(on.map_values(|p: PowerSource| p.voltage_now_uv));
            lemma_sum_present_bound(on.map_values(|p: PowerSource| opt_abs(p.current_now_ua)));
            assert(on.len() <= i) by {
                assert(per_source@.len() <= i);
            }
        }
        if p.online == Some(true) {
            let power = opt_abs_of(p.power_now_uw);
            let current = opt_abs_of(p.current_now_ua);
            proof {
                let on = online(pre);
                let on2 = online(next);
                assert(on2 =~= on.push(*p));
                assert(on2.map_values(|p: PowerSource| opt_abs(p.power_now_uw)).drop_last()
                    =~= on.map_values(|p: PowerSource| opt_abs(p.power_now_uw)));
                assert(on2.map_values(|p: PowerSource| p.voltage_now_uv).drop_last()
                    =~= on.map_values(|p: PowerSource| p.voltage_now_uv));
                assert(on2.map_values(|p: PowerSource| opt_abs(p.current_now_ua)).drop_last()
                    =~= on.map_values(|p: PowerSource| opt_abs(p.current_now_ua)));
                assert(power_count < 0x1_0000_0000_0000_0000 - 1);
                assert(abs(power_sum as int) <= (power_count as int) * 0x8000_0000_0000_0000);
            }
            if let Some(x) = power {
                assert((power_count as int) * 0x8000_0000_0000_0000 < 0x7fff_ffff_ffff_ffff_ffff_ffff_ffff_ffff - 0x8000_0000_0000_0000) by (nonlinear_arith)
                    requires
                        power_count < 0x1_0000_0000_0000_0000 - 1,
                ;
                power_sum = power_sum + (x as i128);
                power_count = power_count + 1;
            }
            if let Some(x) = p.voltage_now_uv {
                assert((voltage_count as int) * 0x8000_0000_0000_0000 < 0x7fff_ffff_ffff_ffff_ffff_ffff_ffff_ffff - 0x8000_0000_0000_0000) by (nonlinear_arith)
                    requires
                        voltage_count < 0x1_0000_0000_0000_0000 - 1,
                ;
                voltage_sum = voltage_sum + (x as i128);
                voltage_count = voltage_count + 1;
            }
            if let Some(x) = current {
                assert((current_count as int) * 0x8000_0000_0000_0000 < 0x7fff_ffff_ffff_ffff_ffff_ffff_ffff_ffff - 0x8000_0000_0000_0000) by (nonlinear_arith)
                    requires
                        current_count < 0x1_0000_0000_0000_0000 - 1,
                ;
                current_sum = current_sum + (x as i128);
                current_count = current_count + 1;
            }
            per_source.push(
                InputReading {
                    source_id: p.name.clone(),
                    power_uw: power,
                    voltage_uv: p.voltage_now_uv,
                    current_ua: current,
                },
            );
        } else {
            assert(online(next) =~= online(pre));
        }
        i += 1;
    }
    assert(sources@.take(sources@.len() as int) =~= sources@);
    if per_source.len() == 0 {
        return Vec::new();
    }
    let total = InputReading {
        source_id: string_of(chars_of("total").as_slice()),
        power_uw: if power_count > 0 {
            Some(sat_i64_of(power_sum))
        } else {
            None
        },
        voltage_uv: if voltage_count > 0 {
            proof {
                lemma_sum_present_bound(online(sources@).map_values(|p: PowerSource| p.voltage_now_uv));
            }
            Some(sat_i64_of(round_div_i128(voltage_sum, voltage_count as i128)))
        } else {
            None
        },
        current_ua: if current_count > 0 {
            Some(sat_i64_of(current_sum))
        } else {
            None
        },
    };
    let mut out: Vec<InputReading> = Vec::new();
    out.push(total);
    let mut rest = per_source;
    let ghost items = rest@;
    let mut j: usize = 0;
    let n = rest.len();
    while j < n
        invariant
            n == items.len(),
            j <= n,
            rest@ == items.skip(j as int),
            out@.len() == j + 1,
            total_reading(out@[0], online(sources@)),
            forall|k: int| 0 <= k < j ==> #[trigger] out@[k + 1] == items[k],
        decreases n - j,
    {
        let item = rest.remove(0);
        assert(rest@ =~= items.skip(j + 1));
        out.push(item);
        j += 1;
    }
    out
}


/// The archives of one input source.
pub struct SourceHistory {
    id: Vec<char>,
    archives: Archives,
}

/// What one source's history holds: its id and the slots of its fine and
/// coarse archives.
pub type SourceModel = (Seq<char>, Seq<Slot>, Seq<Slot>);

/// The reading an input sample adds to its archives (inputs count as charging).
pub open spec fn reading_of(r: InputReading) -> Reading {
    Reading {
        capacity: None,
        temperature_mc: None,
        power_uw: r.power_uw,
        voltage_uv: r.voltage_uv,
        current_ua: r.current_ua,
        charging: true,
    }
}

/// Whether the ids are in strictly increasing `String` order.
pub open spec fn ids_sorted(e: Seq<SourceModel>) -> bool {
    forall|i: int| 0 <= i < e.len() - 1 ==> lex_lt(#[trigger] e[i].0, e[i + 1].0)
}

/// Whether `p` is where `id` goes among the entries to keep them in order.
pub open spec fn sorted_pos(e: Seq<SourceModel>, id: Seq<char>, p: int) -> bool {
    &&& 0 <= p <= e.len()
    &&& forall|i: int| 0 <= i < p ==> lex_lt(#[trigger] e[i].0, id)
    &&& forall|i: int| p <= i < e.len() ==> lex_lt(id, #[trigger] e[i].0)
}

/// Whether some entry has `id`.
pub open spec fn has_id(e: Seq<SourceModel>, id: Seq<char>) -> bool {
    exists|i: int| 0 <= i < e.len() && #[trigger] e[i].0 == id
}

/// The position of the entry with `id`, when there is one.
pub open spec fn id_index(e: Seq<SourceModel>, id: Seq<char>) -> int {
    choose|i: int| 0 <= i < e.len() && #[trigger] e[i].0 == id
}

/// The position where a new `id` goes.
pub open spec fn insert_pos(e: Seq<SourceModel>, id: Seq<char>) -> int {
    choose|p: int| sorted_pos(e, id, p)
}

/// The entries with source `id` holding the archives `fine` and `coarse`:
/// replaced when present, inserted in order otherwise.
pub open spec fn upsert(e: Seq<SourceModel>, id: Seq<char>, fine: Seq<Slot>, coarse: Seq<Slot>) -> Seq<
    SourceModel,
> {
    if has_id(e, id) {
        e.update(id_index(e, id), (id, fine, coarse))
    } else {
        e.insert(insert_pos(e, id), (id, fine, coarse))
    }
}

/// The fine and coarse slots held for `id`, empty archives when none.
pub open spec fn current_slots(e: Seq<SourceModel>, id: Seq<char>) -> (Seq<Slot>, Seq<Slot>) {
    if has_id(e, id) {
        let i = id_index(e, id);
        (e[i].1, e[i].2)
    } else {
        (empty_slots(ROWS_FINE as nat), empty_slots(ROWS_COARSE as nat))
    }
}

/// The entries after `r`, taken at `ts`, is recorded in the archives of
/// `id`, new empty ones when there are none.
pub open spec fn record_model(e: Seq<SourceModel>, ts: u64, id: Seq<char>, r: Reading) -> Seq<SourceModel> {
    let (fine, coarse) = current_slots(e, id);
    upsert(
        e,
        id,
        archive_add(fine, HISTORY_FINE_STEP_MS, ts, r),
        archive_add(coarse, HISTORY_COARSE_STEP_MS, ts, r),
    )
}

/// The entries after one input reading is recorded.
pub open spec fn add_reading_model(e: Seq<SourceModel>, ts: u64, r: InputReading) -> Seq<SourceModel> {
    record_model(e, ts, r.source_id@, reading_of(r))
}

/// The entries after the readings are recorded one after another.
pub open spec fn add_readings_model(e: Seq<SourceModel>, ts: u64, rs: Seq<InputReading>) -> Seq<
    SourceModel,
>
    decreases rs.len(),
{
    if rs.len() == 0 {
        e
    } else {
        add_reading_model(add_readings_model(e, ts, rs.drop_last()), ts, rs.last())
    }
}

/// In strictly increasing order, every earlier id is below every later one.
pub proof fn lemma_ids_sorted_pairwise(e: Seq<SourceModel>, i: int, j: int)
    requires
        ids_sorted(e),
        0 <= i < j < e.len(),
    ensures
        lex_lt(e[i].0, e[j].0),
    decreases j - i,
{
    if j == i + 1 {
    } else {
        lemma_ids_sorted_pairwise(e, i, j - 1);
        lemma_lex_transitive(e[i].0, e[j - 1].0, e[j].0);
    }
}

proof fn lemma_id_index_unique(e: Seq<SourceModel>, i: int, k: int)
    requires
        ids_sorted(e),
        0 <= i < e.len(),
        0 <= k < e.len(),
        e[i].0 == e[k].0,
    ensures
        i == k,
{
    if i < k {
        lemma_ids_sorted_pairwise(e, i, k);
        lemma_lex_irreflexive(e[i].0);
    } else if k < i {
        lemma_ids_sorted_pairwise(e, k, i);
        lemma_lex_irreflexive(e[i].0);
    }
}

proof fn lemma_sorted_pos_unique(e: Seq<SourceModel>, id: Seq<char>, p: int, q: int)
    requires
        sorted_pos(e, id, p),
        sorted_pos(e, id, q),
    ensures
        p == q,
{
    if p < q {
        assert(lex_lt(e[p].0, id));
        assert(lex_lt(id, e[p].0));
        lemma_lex_total(id, e[p].0);
    } else if q < p {
        assert(lex_lt(e[q].0, id));
        assert(lex_lt(id, e[q].0));
        lemma_lex_total(id, e[q].0);
    }
}

proof fn lemma_upsert_sorted(e: Seq<SourceModel>, id: Seq<char>, fine: Seq<Slot>, coarse: Seq<Slot>)
    requires
        ids_sorted(e),
        !has_id(e, id) ==> exists|p: int| sorted_pos(e, id, p),
    ensures
        ids_sorted(upsert(e, id, fine, coarse)),
        has_id(upsert(e, id, fine, coarse), id),
{
    if has_id(e, id) {
        let i = id_index(e, id);
        let u = e.update(i, (id, fine, coarse));
        assert forall|k: int| 0 <= k < u.len() - 1 implies lex_lt(#[trigger] u[k].0, u[k + 1].0) by {
            assert(u[k].0 == e[k].0);
            assert(u[k + 1].0 == e[k + 1].0);
        }
        assert(u[i].0 == id);
        assert(has_id(u, id));
        assert(upsert(e, id, fine, coarse) == u);
    } else {
        let p = insert_pos(e, id);
        let u = e.insert(p, (id, fine, coarse));
        e.insert_ensures(p, (id, fine, coarse));
        assert forall|k: int| 0 <= k < u.len() - 1 implies lex_lt(#[trigger] u[k].0, u[k + 1].0) by {
            if k + 1 < p {
                assert(u[k] == e[k]);
                assert(u[k + 1] == e[k + 1]);
            } else if k + 1 == p {
                assert(u[k] == e[k]);
            } else if k == p {
                assert(u[k + 1] == e[k]);
            } else {
                assert(u[k] == e[k - 1]);
                assert(u[k + 1] == e[k]);
            }
        }
        assert(u[p].0 == id);
        assert(has_id(u, id));
        assert(upsert(e, id, fine, coarse) == u);
    }
}

/// The recorded history of every input source.
pub struct InputArchives {
    sources: Vec<SourceHistory>,
}

impl InputArchives {
    /// The sources in order: id, fine slots, coarse slots.
    pub closed spec fn entries(&self) -> Seq<SourceModel> {
        self.sources@.map_values(
            |s: SourceHistory| (s.id@, s.archives.fine_slots(), s.archives.coarse_slots()),
        )
    }

    /// Ids strictly increasing, archives well formed.
    pub closed spec fn wf(&self) -> bool {
        &&& ids_sorted(self.entries())
        &&& forall|i: int| 0 <= i < self.sources@.len() ==> (#[trigger] self.sources@[i]).archives.wf()
    }

    /// No source recorded yet.
    pub fn new() -> (r: Self)
        ensures
            r.wf(),
            r.entries() == Seq::<SourceModel>::empty(),
    {
        let r = InputArchives { sources: Vec::new() };
        assert(r.entries() =~= Seq::<SourceModel>::empty());
        r
    }

    /// The position of source `id`.
    fn find(&self, id: &[char]) -> (r: Option<usize>)
        requires
            self.wf(),
        ensures
            match r {
                Some(i) => i < self.entries().len() && self.entries()[i as int].0 == id@ && i == id_index(
                    self.entries(),
                    id@,
                ),
                None => !has_id(self.entries(), id@),
            },
    {
        let mut i: usize = 0;
        while i < self.sources.len()
            invariant
                self.wf(),
                i <= self.sources@.len(),
                self.entries().len() == self.sources@.len(),
                forall|k: int| 0 <= k < i ==> #[trigger] self.entries()[k].0 != id@,
            decreases self.sources@.len() - i,
        {
            if chars_eq(self.sources[i].id.as_slice(), id) {
                proof {
                    let e = self.entries();
                    assert(e[i as int].0 == id@);
                    let k = id_index(e, id@);
                    lemma_id_index_unique(e, i as int, k);
                }
                return Some(i);
            }
            i += 1;
        }
        None
    }

    /// Where a new `id` goes to keep the ids in order.
    fn insert_position(&self, id: &[char]) -> (p: usize)
        requires
            self.wf(),
            !has_id(self.entries(), id@),
        ensures
            sorted_pos(self.entries(), id@, p as int),
    {
        let ghost e = self.entries();
        let mut p = self.sources.len();
        loop
            invariant
                p <= self.sources@.len(),
                e == self.entries(),
                e.len() == self.sources@.len(),
                forall|k: int| p <= k < e.len() ==> lex_lt(id@, #[trigger] e[k].0),
            ensures
                p <= e.len(),
                forall|k: int| p <= k < e.len() ==> lex_lt(id@, #[trigger] e[k].0),
                p > 0 ==> !lex_lt(id@, e[p - 1].0),
            decreases p,
        {
            if p == 0 {
                break;
            }
            assert(e[p - 1].0 == self.sources@[p - 1].id@);
            if !chars_lt(id, self.sources[p - 1].id.as_slice()) {
                break;
            }
            p -= 1;
        }
        proof {
            if p > 0 {
                assert(e[p - 1].0 != id@);
                lemma_lex_total(id@, e[p - 1].0);
                assert forall|k: int| 0 <= k < p implies lex_lt(#[trigger] e[k].0, id@) by {
                    if k < p - 1 {
                        lemma_ids_sorted_pairwise(e, k, p - 1);
                        lemma_lex_transitive(e[k].0, e[p - 1].0, id@);
                    }
                }
            }
        }
        p
    }

    /// Records `archives` for source `id`, replacing what was there.
    fn set_source(&mut self, id: Vec<char>, archives: Archives)
        requires
            old(self).wf(),
            archives.wf(),
        ensures
            final(self).wf(),
            final(self).entries() == upsert(
                old(self).entries(),
                id@,
                archives.fine_slots(),
                archives.coarse_slots(),
            ),
    {
        let ghost e = self.entries();
        match self.find(id.as_slice()) {
            Some(i) => {
                self.sources.set(i, SourceHistory { id, archives });
                proof {
                    assert(self.entries() =~= e.update(
                        i as int,
                        (id@, archives.fine_slots(), archives.coarse_slots()),
                    ));
                    lemma_upsert_sorted(e, id@, archives.fine_slots(), archives.coarse_slots());
                }
            },
            None => {
                let p = self.insert_position(id.as_slice());
                let ghost idv = id@;
                self.sources.insert(p, SourceHistory { id, archives });
                proof {
                    let q = insert_pos(e, idv);
                    lemma_sorted_pos_unique(e, idv, p as int, q);
                    assert(self.entries() =~= e.insert(
                        p as int,
                        (idv, archives.fine_slots(), archives.coarse_slots()),
                    ));
                    lemma_upsert_sorted(e, idv, archives.fine_slots(), archives.coarse_slots());
                }
            },
        }
    }

    /// Records `archives` for source `id`, replacing what was there.
    pub fn set_archives(&mut self, id: &str, archives: Archives)
        requires
            old(self).wf(),
            archives.wf(),
        ensures
            final(self).wf(),
            final(self).entries() == upsert(
                old(self).entries(),
                id@,
                archives.fine_slots(),
                archives.coarse_slots(),
            ),
    {
        self.set_source(chars_of(id), archives);
    }

    /// The sources in order, each with its archives.
    pub fn into_sources(self) -> (r: Vec<(String, Archives)>)
        requires
            self.wf(),
        ensures
            r@.len() == self.entries().len(),
            forall|i: int|
                0 <= i < r@.len() ==> {
                    &&& (#[trigger] r@[i]).1.wf()
                    &&& (r@[i].0@, r@[i].1.fine_slots(), r@[i].1.coarse_slots()) == self.entries()[i]
                },
    {
        let ghost e = self.entries();
        let ghost src = self.sources@;
        let mut sources = self.sources;
        let mut rev: Vec<(String, Archives)> = Vec::new();
        while sources.len() > 0
            invariant
                sources@.len() + rev@.len() == src.len(),
                forall|i: int| 0 <= i < sources@.len() ==> #[trigger] sources@[i] == src[i],
                forall|i: int|
                    0 <= i < rev@.len() ==> {
                        let k = src.len() - 1 - i;
                        &&& (#[trigger] rev@[i]).1.wf()
                        &&& (rev@[i].0@, rev@[i].1.fine_slots(), rev@[i].1.coarse_slots()) == e[k]
                    },
                e == src.map_values(
                    |s: SourceHistory| (s.id@, s.archives.fine_slots(), s.archives.coarse_slots()),
                ),
                forall|i: int| 0 <= i < src.len() ==> (#[trigger] src[i]).archives.wf(),
            decreases sources@.len(),
        {
            let k = sources.len() - 1;
            let h = sources.pop().unwrap();
            assert(h == src[k as int]);
            rev.push((string_of(h.id.as_slice()), h.archives));
        }
        let mut out: Vec<(String, Archives)> = Vec::new();
        while rev.len() > 0
            invariant
                out@.len() + rev@.len() == src.len(),
                forall|i: int|
                    0 <= i < rev@.len() ==> {
                        let k = src.len() - 1 - i;
                        &&& (#[trigger] rev@[i]).1.wf()
                        &&& (rev@[i].0@, rev@[i].1.fine_slots(), rev@[i].1.coarse_slots()) == e[k]
                    },
                forall|i: int|
                    0 <= i < out@.len() ==> {
                        &&& (#[trigger] out@[i]).1.wf()
                        &&& (out@[i].0@, out@[i].1.fine_slots(), out@[i].1.coarse_slots()) == e[i]
                    },
                e.len() == src.len(),
            decreases rev@.len(),
        {
            let j = rev.len() - 1;
            let ghost before = rev@;
            let x = rev.pop().unwrap();
            assert(x == before[j as int]);
            out.push(x);
        }
        out
    }

    /// Records one input reading taken at `ts`.
    pub fn add_reading(&mut self, ts: u64, r: &InputReading)
        requires
            old(self).wf(),
        ensures
            final(self).wf(),
            final(self).entries() == add_reading_model(old(self).entries(), ts, *r),
    {
        let reading = Reading {
            capacity: None,
            temperature_mc: None,
            power_uw: r.power_uw,
            voltage_uv: r.voltage_uv,
            current_ua: r.current_ua,
            charging: true,
        };
        self.record(ts, r.source_id.as_str(), reading);
    }

    /// Records `reading`, taken at `ts`, in the archives of `id`.
    pub fn record(&mut self, ts: u64, id: &str, reading: Reading)
        requires
            old(self).wf(),
        ensures
            final(self).wf(),
            final(self).entries() == record_model(old(self).entries(), ts, id@, reading),
    {
        let id = chars_of(id);
        let mut archives = match self.find(id.as_slice()) {
            Some(i) => self.sources[i].archives.copy(),
            None => Archives::new(),
        };
        archives.add(ts, reading);
        self.set_source(id, archives);
    }

    /// Records the readings taken at `ts`, in order.
    pub fn add_readings(&mut self, ts: u64, rs: &[InputReading])
        requires
            old(self).wf(),
        ensures
            final(self).wf(),
            final(self).entries() == add_readings_model(old(self).entries(), ts, rs@),
    {
        let mut i: usize = 0;
        while i < rs.len()
            invariant
                i <= rs@.len(),
                self.wf(),
                self.entries() == add_readings_model(old(self).entries(), ts, rs@.take(i as int)),
            decreases rs@.len() - i,
        {
            assert(rs@.take(i + 1).drop_last() =~= rs@.take(i as int));
            self.add_reading(ts, &rs[i]);
            i += 1;
        }
        assert(rs@.take(rs@.len() as int) =~= rs@);
    }

    /// The history of source `source_id` over the last `range_ms` before
    /// `now`; the total of all inputs when no id, or a blank one, is given;
    /// nothing for an unknown source.
    pub fn query(&self, range_ms: u64, source_id: Option<&str>, now: u64) -> (r: Vec<Sample>)
        requires
            self.wf(),
        ensures
            ({
                let id = match source_id {
                    Some(s) => if trim(s@).len() > 0 {
                        s@
                    } else {
                        total_id()
                    },
                    None => total_id(),
                };
                if has_id(self.entries(), id) {
                    let (fine, coarse) = current_slots(self.entries(), id);
                    query_result(fine, coarse, range_ms, now, r@)
                } else {
                    r@.len() == 0
                }
            }),
    {
        let id: Vec<char> = match source_id {
            Some(s) => {
                let c = chars_of(s);
                let t = trim_chars(c.as_slice());
                if t.len() > 0 {
                    c
                } else {
                    chars_of("total")
                }
            },
            None => chars_of("total"),
        };
        match self.find(id.as_slice()) {
            Some(i) => query_archives(&self.sources[i].archives, range_ms, now),
            None => Vec::new(),
        }
    }
}


// ---------------------------------------------------------------- encoding

/// `"BSI2"`, the first bytes of the input history file (its sums are
/// integers).
pub open spec fn input_magic() -> Seq<u8> {
    seq![66u8, 83u8, 73u8, 50u8]
}

/// One source as stored: id length, id in UTF-8, both archives' slots.
pub open spec fn record_bytes(e: SourceModel) -> Seq<u8> {
    spec_u32_to_le_bytes(encode_utf8(e.0).len() as u32) + encode_utf8(e.0) + archives_bytes(e.1, e.2)
}

/// Sources as stored, one after another.
pub open spec fn records_bytes(es: Seq<SourceModel>) -> Seq<u8>
    decreases es.len(),
{
    if es.len() == 0 {
        Seq::empty()
    } else {
        records_bytes(es.drop_last()) + record_bytes(es.last())
    }
}

/// The input history file: magic number, source count, sources.
pub open spec fn input_bytes(es: Seq<SourceModel>) -> Seq<u8> {
    input_magic() + spec_u32_to_le_bytes(es.len() as u32) + records_bytes(es)
}

/// The source stored at offset `o` of `b` and the offset after it; `None`
/// when it is cut short or its id is not UTF-8.
pub open spec fn parse_record(b: Seq<u8>, o: int) -> Option<(SourceModel, int)> {
    if o + 4 > b.len() {
        None
    } else {
        let n = spec_u32_from_le_bytes(b.subrange(o, o + 4)) as int;
        let id_end = o + 4 + n;
        if id_end > b.len() {
            None
        } else if !valid_utf8(b.subrange(o + 4, id_end)) {
            None
        } else if id_end + ARCHIVES_BYTES > b.len() {
            None
        } else {
            Some(
                (
                    (
                        decode_utf8(b.subrange(o + 4, id_end)),
                        slots_from_bytes(b, id_end, ROWS_FINE as nat),
                        slots_from_bytes(b, id_end + ROWS_FINE * ROW_BYTES, ROWS_COARSE as nat),
                    ),
                    id_end + ARCHIVES_BYTES,
                ),
            )
        }
    }
}

/// The sources after reading `count` records from offset 8, each replacing
/// an earlier one with the same id, and the offset reached.
pub open spec fn parse_state(b: Seq<u8>, count: nat) -> Option<(Seq<SourceModel>, int)>
    decreases count,
{
    if count == 0 {
        Some((Seq::empty(), 8))
    } else {
        match parse_state(b, (count - 1) as nat) {
            Some((e, o)) => match parse_record(b, o) {
                Some((rec, o2)) => Some((upsert(e, rec.0, rec.1, rec.2), o2)),
                None => None,
            },
            None => None,
        }
    }
}

/// `"BSI1"`, the first bytes of an input history file of the earlier
/// layout, whose sums are 64-bit floats in the display units (W, V, mA).
pub open spec fn input_float_magic() -> Seq<u8> {
    seq![66u8, 83u8, 73u8, 49u8]
}

/// What an input history file holds; `None` when the magic number is
/// wrong, a record is damaged, or bytes are left over.
pub open spec fn input_from_bytes_spec(b: Seq<u8>) -> Option<Seq<SourceModel>> {
    input_from_tagged_bytes(b, input_magic())
}

/// What an input history file with first bytes `tag` holds (the layout
/// is the same for both versions; only the meaning of the sums differs).
pub open spec fn input_from_tagged_bytes(b: Seq<u8>, tag: Seq<u8>) -> Option<Seq<SourceModel>> {
    if b.len() < 8 || b.subrange(0, 4) != tag {
        None
    } else {
        match parse_state(b, spec_u32_from_le_bytes(b.subrange(4, 8)) as nat) {
            Some((e, o)) => if o == b.len() {
                Some(e)
            } else {
                None
            },
            None => None,
        }
    }
}

/// The string whose UTF-8 encoding is `bytes` (std's `str::from_utf8`),
/// `None` when `bytes` is not valid UTF-8.
#[verifier::external_body]
pub(crate) fn utf8_str(bytes: &[u8]) -> (r: Option<&str>)
    ensures
        match r {
            Some(s) => valid_utf8(bytes@) && s@ == decode_utf8(bytes@),
            None => !valid_utf8(bytes@),
        },
{
    std::str::from_utf8(bytes).ok()
}

/// The little-endian `u32` at `*offset`, advancing the offset past it;
/// `None` when fewer than four bytes remain.
pub fn read_u32(buf: &[u8], offset: &mut usize) -> (r: Option<u32>)
    requires
        *old(offset) <= buf@.len(),
    ensures
        *old(offset) + 4 > buf@.len() ==> r is None && *final(offset) == *old(offset),
        *old(offset) + 4 <= buf@.len() ==> r == Some(
            spec_u32_from_le_bytes(buf@.subrange(*old(offset) as int, *old(offset) + 4)),
        ) && *final(offset) == *old(offset) + 4,
{
    if buf.len() - *offset < 4 {
        return None;
    }
    let v = u32_from_le_bytes(slice_subrange(buf, *offset, *offset + 4));
    *offset = *offset + 4;
    Some(v)
}

impl InputArchives {
    /// The input history file.
    pub fn to_bytes(&self) -> (r: Vec<u8>)
        requires
            self.wf(),
        ensures
            r@ == input_bytes(self.entries()),
    {
        let mut out: Vec<u8> = Vec::new();
        out.push(66u8);
        out.push(83u8);
        out.push(73u8);
        out.push(50u8);
        let count = u32_to_le_bytes(self.sources.len() as u32);
        extend_vec(&mut out, count.as_slice());
        let ghost head = out@;
        assert(head =~= input_magic() + spec_u32_to_le_bytes(self.entries().len() as u32));
        let mut i: usize = 0;
        while i < self.sources.len()
            invariant
                i <= self.sources@.len(),
                self.entries().len() == self.sources@.len(),
                out@ == head + records_bytes(self.entries().take(i as int)),
            decreases self.sources@.len() - i,
        {
            let src = &self.sources[i];
            let name = string_of(src.id.as_slice());
            let bytes = name.as_str().as_bytes();
            let n = u32_to_le_bytes(bytes.len() as u32);
            let ghost before = out@;
            extend_vec(&mut out, n.as_slice());
            extend_vec(&mut out, bytes);
            src.archives.write_archive_bytes(&mut out);
            proof {
                let e = self.entries();
                assert(e[i as int] == (src.id@, src.archives.fine_slots(), src.archives.coarse_slots()));
                assert(e.take(i + 1).drop_last() =~= e.take(i as int));
                assert(out@ =~= before + record_bytes(e[i as int]));
            }
            i += 1;
        }
        assert(self.entries().take(self.sources@.len() as int) =~= self.entries());
        out
    }

    /// Input history from a file; `None` (no history) when the file is not
    /// one.
    pub fn from_bytes(buf: &[u8]) -> (r: Option<InputArchives>)
        ensures
            match r {
                Some(a) => a.wf() && input_from_bytes_spec(buf@) == Some(a.entries()),
                None => input_from_bytes_spec(buf@) is None,
            },
    {
        InputArchives::from_tagged_bytes(buf, 50u8)
    }

    /// Input history from a file of the earlier layout (`"BSI1"`), whose
    /// sums are 64-bit floats: the slots as stored, each sum holding the
    /// float's bits unconverted, for the caller to convert; `None` when the
    /// file is not one.
    pub fn from_float_bytes(buf: &[u8]) -> (r: Option<InputArchives>)
        ensures
            match r {
                Some(a) => a.wf() && input_from_tagged_bytes(buf@, input_float_magic()) == Some(a.entries()),
                None => input_from_tagged_bytes(buf@, input_float_magic()) is None,
            },
    {
        InputArchives::from_tagged_bytes(buf, 49u8)
    }

    fn from_tagged_bytes(buf: &[u8], version: u8) -> (r: Option<InputArchives>)
        ensures
            match r {
                Some(a) => a.wf() && input_from_tagged_bytes(buf@, seq![66u8, 83u8, 73u8, version]) == Some(
                    a.entries(),
                ),
                None => input_from_tagged_bytes(buf@, seq![66u8, 83u8, 73u8, version]) is None,
            },
    {
        let ghost tag = seq![66u8, 83u8, 73u8, version];
        let len = buf.len();
        if len < 8 || buf[0] != 66u8 || buf[1] != 83u8 || buf[2] != 73u8 || buf[3] != version {
            proof {
                if len >= 8 && buf@.subrange(0, 4) == tag {
                    assert(buf@[0] == buf@.subrange(0, 4)[0]);
                    assert(buf@[1] == buf@.subrange(0, 4)[1]);
                    assert(buf@[2] == buf@.subrange(0, 4)[2]);
                    assert(buf@[3] == buf@.subrange(0, 4)[3]);
                }
            }
            return None;
        }
        assert(buf@.subrange(0, 4) =~= tag);
        let mut offset: usize = 4;
        let count = match read_u32(buf, &mut offset) {
            Some(c) => c,
            None => return None,
        };
        let mut archives = InputArchives::new();
        let mut k: u32 = 0;
        while k < count
            invariant
                len == buf@.len(),
                len >= 8,
                count == spec_u32_from_le_bytes(buf@.subrange(4, 8)),
                k <= count,
                offset <= len,
                archives.wf(),
                parse_state(buf@, k as nat) == Some((archives.entries(), offset as int)),
            decreases count - k,
        {
            let ghost o = offset as int;
            let id_len = match read_u32(buf, &mut offset) {
                Some(n) => n,
                None => {
                    assert(parse_record(buf@, o) is None);
                    proof {
                        lemma_parse_state_stops(buf@, (k + 1) as nat, count as nat);
                    }
                    return None;
                },
            };
            if len - offset < id_len as usize {
                assert(parse_record(buf@, o) is None);
                proof {
                    lemma_parse_state_stops(buf@, (k + 1) as nat, count as nat);
                }
                return None;
            }
            let id_end = offset + id_len as usize;
            let id = match utf8_str(slice_subrange(buf, offset, id_end)) {
                Some(s) => chars_of(s),
                None => {
                    assert(parse_record(buf@, o) is None);
                    proof {
                        lemma_parse_state_stops(buf@, (k + 1) as nat, count as nat);
                    }
                    return None;
                },
            };
            if len - id_end < ARCHIVES_BYTES {
                assert(parse_record(buf@, o) is None);
                proof {
                    lemma_parse_state_stops(buf@, (k + 1) as nat, count as nat);
                }
                return None;
            }
            let end = id_end + ARCHIVES_BYTES;
            let part = slice_subrange(buf, id_end, end);
            let a = match Archives::from_archive_bytes(part) {
                Some(a) => a,
                None => return None,
            };
            proof {
                assert forall|i: int| 0 <= i < ROWS_FINE implies #[trigger] part@.subrange(i * 76, i
                    * 76 + 76) == buf@.subrange(id_end + i * 76, id_end + i * 76 + 76) by {
                    assert(part@.subrange(i * 76, i * 76 + 76) =~= buf@.subrange(
                        id_end + i * 76,
                        id_end + i * 76 + 76,
                    ));
                }
                assert(slots_from_bytes(part@, 0, ROWS_FINE as nat) =~= slots_from_bytes(
                    buf@,
                    id_end as int,
                    ROWS_FINE as nat,
                ));
                let q = ROWS_FINE * ROW_BYTES;
                assert forall|i: int| 0 <= i < ROWS_COARSE implies #[trigger] part@.subrange(
                    q + i * 76,
                    q + i * 76 + 76,
                ) == buf@.subrange(id_end + q + i * 76, id_end + q + i * 76 + 76) by {
                    assert(part@.subrange(q + i * 76, q + i * 76 + 76) =~= buf@.subrange(
                        id_end + q + i * 76,
                        id_end + q + i * 76 + 76,
                    ));
                }
                assert(slots_from_bytes(part@, q as int, ROWS_COARSE as nat) =~= slots_from_bytes(
                    buf@,
                    id_end + q,
                    ROWS_COARSE as nat,
                ));
                assert(parse_record(buf@, o) == Some(
                    ((id@, a.fine_slots(), a.coarse_slots()), end as int),
                ));
            }
            archives.set_source(id, a);
            offset = end;
            k += 1;
        }
        if offset == len {
            Some(archives)
        } else {
            None
        }
    }
}

proof fn lemma_parse_state_stops(b: Seq<u8>, k: nat, m: nat)
    requires
        k <= m,
        parse_state(b, k) is None,
    ensures
        parse_state(b, m) is None,
    decreases m - k,
{
    if k < m {
        lemma_parse_state_stops(b, k, (m - 1) as nat);
    }
}

proof fn lemma_records_prefix(es: Seq<SourceModel>, j: int)
    requires
        0 <= j <= es.len(),
    ensures
        records_bytes(es.take(j)).len() <= records_bytes(es).len(),
        records_bytes(es).subrange(0, records_bytes(es.take(j)).len() as int) == records_bytes(es.take(j)),
    decreases es.len() - j,
{
    if j == es.len() {
        assert(es.take(j) =~= es);
        assert(records_bytes(es).subrange(0, records_bytes(es).len() as int) =~= records_bytes(es));
    } else {
        lemma_records_prefix(es, j + 1);
        let a = records_bytes(es.take(j));
        assert(es.take(j + 1).drop_last() =~= es.take(j));
        let b = records_bytes(es.take(j + 1));
        assert(b == a + record_bytes(es[j]));
        assert(records_bytes(es).subrange(0, a.len() as int) =~= b.subrange(0, a.len() as int));
    }
}

/// Reading back the input history file gives exactly the sources written,
/// whenever the ids fit the file's 32-bit lengths and count.
pub proof fn lemma_input_round_trip(es: Seq<SourceModel>)
    requires
        ids_sorted(es),
        es.len() < 0x1_0000_0000,
        forall|i: int| 0 <= i < es.len() ==> encode_utf8(#[trigger] es[i].0).len() < 0x1_0000_0000,
        forall|i: int|
            0 <= i < es.len() ==> (#[trigger] es[i]).1.len() == ROWS_FINE && es[i].2.len() == ROWS_COARSE,
    ensures
        input_from_bytes_spec(input_bytes(es)) == Some(es),
{
    lemma_auto_spec_u32_to_from_le_bytes();
    let b = input_bytes(es);
    let all = records_bytes(es);
    assert(b.subrange(0, 4) =~= input_magic());
    assert(b.subrange(4, 8) =~= spec_u32_to_le_bytes(es.len() as u32));
    assert forall|k: nat| k <= es.len() implies #[trigger] parse_state(b, k) == Some(
        (es.take(k as int), 8 + records_bytes(es.take(k as int)).len() as int),
    ) by {
        lemma_parse_state_prefix(es, k);
    }
    lemma_records_prefix(es, es.len() as int);
    assert(es.take(es.len() as int) =~= es);
    assert(parse_state(b, es.len() as nat) == Some((es, 8 + all.len() as int)));
}

/// A record stored at offset `o` reads back as itself.
proof fn lemma_parse_record_of(b: Seq<u8>, o: int, x: SourceModel)
    requires
        0 <= o,
        o + record_bytes(x).len() <= b.len(),
        b.subrange(o, o + record_bytes(x).len()) == record_bytes(x),
        encode_utf8(x.0).len() < 0x1_0000_0000,
        x.1.len() == ROWS_FINE,
        x.2.len() == ROWS_COARSE,
    ensures
        parse_record(b, o) == Some((x, o + record_bytes(x).len())),
{
    lemma_auto_spec_u32_to_from_le_bytes();
    let rb = record_bytes(x);
    let idb = encode_utf8(x.0);
    let n: int = idb.len() as int;
    encode_utf8_valid_utf8(x.0);
    encode_utf8_decode_utf8(x.0);
    lemma_slots_bytes(x.1);
    lemma_slots_bytes(x.2);
    assert(rb.subrange(0, 4) =~= spec_u32_to_le_bytes(n as u32));
    assert(b.subrange(o, o + 4) =~= rb.subrange(0, 4));
    assert(rb.subrange(4, 4 + n) =~= idb);
    assert(b.subrange(o + 4, o + 4 + n) =~= rb.subrange(4, 4 + n));
    let fe: int = o + 4 + n;
    assert(b.subrange(fe, fe + 76 * x.1.len()) =~= rb.subrange(4 + n, 4 + n + 76 * x.1.len()));
    assert(rb.subrange(4 + n, 4 + n + 76 * x.1.len()) =~= slots_bytes(x.1));
    lemma_slots_at(b, fe, x.1);
    let ce: int = fe + ROWS_FINE * ROW_BYTES;
    assert(b.subrange(ce, ce + 76 * x.2.len()) =~= rb.subrange(
        4 + n + 76 * x.1.len(),
        4 + n + 76 * x.1.len() + 76 * x.2.len(),
    ));
    assert(rb.subrange(4 + n + 76 * x.1.len(), 4 + n + 76 * x.1.len() + 76 * x.2.len()) =~= slots_bytes(
        x.2,
    ));
    lemma_slots_at(b, ce, x.2);
}

/// The `k`-th record of the file sits right after the ones before it.
proof fn lemma_record_at(es: Seq<SourceModel>, k: int)
    requires
        0 <= k < es.len(),
    ensures
        8 + records_bytes(es.take(k)).len() + record_bytes(es[k]).len() <= input_bytes(es).len(),
        input_bytes(es).subrange(
            8 + records_bytes(es.take(k)).len() as int,
            8 + records_bytes(es.take(k)).len() + record_bytes(es[k]).len() as int,
        ) == record_bytes(es[k]),
{
    lemma_auto_spec_u32_to_from_le_bytes();
    let b = input_bytes(es);
    let all = records_bytes(es);
    let pre = es.take(k);
    let rb = record_bytes(es[k]);
    assert(es.take(k + 1).drop_last() =~= pre);
    let rk = records_bytes(es.take(k + 1));
    assert(rk == records_bytes(pre) + rb);
    lemma_records_prefix(es, k + 1);
    assert(b =~= input_magic() + spec_u32_to_le_bytes(es.len() as u32) + all);
    let o: int = 8 + records_bytes(pre).len() as int;
    assert(b.subrange(o, o + rb.len()) =~= all.subrange(0, rk.len() as int).subrange(
        records_bytes(pre).len() as int,
        rk.len() as int,
    ));
}

/// An id above all earlier ones is appended.
proof fn lemma_upsert_appends(es: Seq<SourceModel>, j: int)
    requires
        ids_sorted(es),
        0 <= j < es.len(),
    ensures
        upsert(es.take(j), es[j].0, es[j].1, es[j].2) == es.take(j + 1),
{
    let pre = es.take(j);
    let x = es[j];
    assert forall|i: int| 0 <= i < pre.len() implies lex_lt(#[trigger] pre[i].0, x.0) by {
        lemma_ids_sorted_pairwise(es, i, j);
    }
    if has_id(pre, x.0) {
        let i = id_index(pre, x.0);
        lemma_lex_irreflexive(x.0);
    }
    assert(sorted_pos(pre, x.0, pre.len() as int));
    lemma_sorted_pos_unique(pre, x.0, pre.len() as int, insert_pos(pre, x.0));
    assert(pre.insert(pre.len() as int, x) =~= es.take(j + 1));
}

proof fn lemma_parse_state_prefix(es: Seq<SourceModel>, k: nat)
    requires
        ids_sorted(es),
        es.len() < 0x1_0000_0000,
        forall|i: int| 0 <= i < es.len() ==> encode_utf8(#[trigger] es[i].0).len() < 0x1_0000_0000,
        forall|i: int|
            0 <= i < es.len() ==> (#[trigger] es[i]).1.len() == ROWS_FINE && es[i].2.len() == ROWS_COARSE,
        k <= es.len(),
    ensures
        parse_state(input_bytes(es), k) == Some(
            (es.take(k as int), 8 + records_bytes(es.take(k as int)).len() as int),
        ),
    decreases k,
{
    if k == 0 {
        assert(es.take(0) =~= Seq::<SourceModel>::empty());
    } else {
        let j = (k - 1) as int;
        lemma_parse_state_prefix(es, (k - 1) as nat);
        let pre = es.take(j);
        let x = es[j];
        let o: int = 8 + records_bytes(pre).len() as int;
        lemma_record_at(es, j);
        lemma_parse_record_of(input_bytes(es), o, x);
        lemma_upsert_appends(es, j);
        assert(es.take(k as int).drop_last() =~= pre);
        assert(records_bytes(es.take(k as int)) == records_bytes(pre) + record_bytes(x));
    }
}

} // verus!
