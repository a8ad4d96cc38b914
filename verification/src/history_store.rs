//! The history kept by the sampler: the primary battery's archives (the
//! history file of earlier versions), each battery's own archives by device
//! name, and the input archives, with the cadence at which each is written
//! to disk.

use vstd::prelude::*;
use crate::battery::{opt_is, opt_view, BatteryInfo};
use crate::history::{
    archive_add, empty_slots, oldest_kept, query_archives, query_result, Archives, Reading, Sample,
    Slot, archives_bytes, magic, slots_from_bytes, FLUSH_EVERY, ROW_BYTES, ARCHIVES_BYTES, HISTORY_COARSE_STEP_MS, HISTORY_FINE_STEP_MS, RETENTION_MS, ROWS_COARSE,
    ROWS_FINE,
};
use crate::input_history::{
    add_readings_model, current_slots, record_model, has_id, input_bytes, input_from_bytes_spec, total_id, input_readings, online, readings_for, InputArchives, InputReading, SourceModel,
};
use crate::num::{abs, sat_i64};
use crate::power::PowerSource;
use crate::text::{chars_of, str_eq, trim, trim_chars};

verus! {

/// One line of the JSON-lines history of earlier versions, in this
/// library's units.
#[derive(Clone, Copy, Debug)]
pub struct LegacySample {
    pub timestamp_ms: u64,
    pub reading: Reading,
}

/// The reading the sampler records for a battery: power signed by direction
/// (positive while charging, negative otherwise), temperature in m°C.
pub open spec fn battery_reading(b: BatteryInfo) -> Reading {
    let charging = opt_view(b.status) == Some("Charging"@);
    Reading {
        capacity: b.capacity,
        temperature_mc: match b.temperature_dc {
            Some(t) => Some(sat_i64(t * 100)),
            None => None,
        },
        power_uw: match b.power_now_uw {
            Some(p) => Some(
                if charging {
                    sat_i64(abs(p as int))
                } else {
                    sat_i64(-abs(p as int))
                },
            ),
            None => None,
        },
        voltage_uv: b.voltage_now_uv,
        current_ua: b.current_now_ua,
        charging,
    }
}

/// The reading recorded for battery `b`.
pub fn battery_reading_of(b: &BatteryInfo) -> (r: Reading)
    ensures
        r == battery_reading(*b),
{
    let charging = opt_is(&b.status, "Charging");
    let temperature_mc = match b.temperature_dc {
        Some(t) => Some(
            if t > i64::MAX / 100 {
                i64::MAX
            } else if t < i64::MIN / 100 {
                i64::MIN
            } else {
                t * 100
            },
        ),
        None => None,
    };
    let power_uw = match b.power_now_uw {
        Some(p) => {
            let m: i64 = if p == i64::MIN {
                i64::MAX
            } else if p < 0 {
                -p
            } else {
                p
            };
            Some(
                if charging {
                    m
                } else if p == i64::MIN {
                    i64::MIN
                } else {
                    -m
                },
            )
        },
        None => None,
    };
    Reading {
        capacity: b.capacity,
        temperature_mc,
        power_uw,
        voltage_uv: b.voltage_now_uv,
        current_ua: b.current_now_ua,
        charging,
    }
}

/// The legacy samples still within the retention period before `now`.
pub open spec fn legacy_kept(s: Seq<LegacySample>, now: u64) -> Seq<LegacySample>
    decreases s.len(),
{
    if s.len() == 0 {
        Seq::empty()
    } else {
        let rest = legacy_kept(s.drop_last(), now);
        if s.last().timestamp_ms >= oldest_kept(now) {
            rest.push(s.last())
        } else {
            rest
        }
    }
}

/// Slots after the samples are accumulated one after another.
pub open spec fn add_all(slots: Seq<Slot>, step: u64, s: Seq<LegacySample>) -> Seq<Slot>
    decreases s.len(),
{
    if s.len() == 0 {
        slots
    } else {
        archive_add(add_all(slots, step, s.drop_last()), step, s.last().timestamp_ms, s.last().reading)
    }
}

/// Archives holding the legacy samples of the retention period, and whether
/// there was any.
pub fn migrate_legacy(samples: &[LegacySample], now: u64) -> (r: (Archives, bool))
    ensures
        r.0.wf(),
        r.0.fine_slots() == add_all(
            empty_slots(ROWS_FINE as nat),
            HISTORY_FINE_STEP_MS,
            legacy_kept(samples@, now),
        ),
        r.0.coarse_slots() == add_all(
            empty_slots(ROWS_COARSE as nat),
            HISTORY_COARSE_STEP_MS,
            legacy_kept(samples@, now),
        ),
        r.1 == (legacy_kept(samples@, now).len() > 0),
{
    let mut a = Archives::new();
    let cutoff = if now >= RETENTION_MS {
        now - RETENTION_MS
    } else {
        0
    };
    let mut migrated = false;
    let mut i: usize = 0;
    while i < samples.len()
        invariant
            i <= samples@.len(),
            cutoff == oldest_kept(now),
            a.wf(),
            a.fine_slots() == add_all(
                empty_slots(ROWS_FINE as nat),
                HISTORY_FINE_STEP_MS,
                legacy_kept(samples@.take(i as int), now),
            ),
            a.coarse_slots() == add_all(
                empty_slots(ROWS_COARSE as nat),
                HISTORY_COARSE_STEP_MS,
                legacy_kept(samples@.take(i as int), now),
            ),
            migrated == (legacy_kept(samples@.take(i as int), now).len() > 0),
        decreases samples@.len() - i,
    {
        let s = samples[i];
        assert(samples@.take(i + 1).drop_last() =~= samples@.take(i as int));
        if s.timestamp_ms >= cutoff {
            a.add(s.timestamp_ms, s.reading);
            migrated = true;
            proof {
                let k = legacy_kept(samples@.take(i + 1), now);
                assert(k.drop_last() =~= legacy_kept(samples@.take(i as int), now));
            }
        }
        i += 1;
    }
    assert(samples@.take(samples@.len() as int) =~= samples@);
    (a, migrated)
}

/// What a sampling round asks the caller to write to disk.
#[derive(Clone, Copy, PartialEq, Eq, Structural, Debug)]
pub struct TickOutcome {
    /// Write the battery history file.
    pub flush_battery: bool,
    /// Write the input history file.
    pub flush_input: bool,
}

/// The archives of each battery, by device name, after the batteries of
/// one sampling round at `ts` are recorded in turn.
pub open spec fn record_batteries(e: Seq<SourceModel>, ts: u64, bs: Seq<BatteryInfo>) -> Seq<SourceModel>
    decreases bs.len(),
{
    if bs.len() == 0 {
        e
    } else {
        let b = bs.last();
        record_model(record_batteries(e, ts, bs.drop_last()), ts, b.device@, battery_reading(b))
    }
}

/// The history held in memory.
pub struct HistoryStore {
    archives: Archives,
    battery_archives: InputArchives,
    input_archives: InputArchives,
    writes: u32,
    input_writes: u32,
}

/// `n + 1`, wrapping at `u32::MAX` as an atomic counter does.
pub open spec fn wrapping_inc(n: u32) -> u32 {
    if n == u32::MAX {
        0
    } else {
        (n + 1) as u32
    }
}

impl HistoryStore {
    /// Both archive sets are well formed.
    pub closed spec fn wf(&self) -> bool {
        self.archives.wf() && self.battery_archives.wf() && self.input_archives.wf()
    }

    /// The archives of each battery, by device name.
    pub closed spec fn batteries(&self) -> Seq<SourceModel> {
        self.battery_archives.entries()
    }

    /// The battery archives' fine slots.
    pub closed spec fn fine_slots(&self) -> Seq<Slot> {
        self.archives.fine_slots()
    }

    /// The battery archives' coarse slots.
    pub closed spec fn coarse_slots(&self) -> Seq<Slot> {
        self.archives.coarse_slots()
    }

    /// The input archives.
    pub closed spec fn inputs(&self) -> Seq<SourceModel> {
        self.input_archives.entries()
    }

    /// Battery samples recorded since the store was made (wrapping).
    pub closed spec fn writes(&self) -> u32 {
        self.writes
    }

    /// Input samples recorded since the store was made (wrapping).
    pub closed spec fn input_writes(&self) -> u32 {
        self.input_writes
    }

    /// A store over the histories read from disk.
    pub fn new(archives: Archives, battery_archives: InputArchives, input_archives: InputArchives) -> (r: Self)
        requires
            archives.wf(),
            battery_archives.wf(),
            input_archives.wf(),
        ensures
            r.wf(),
            r.fine_slots() == archives.fine_slots(),
            r.coarse_slots() == archives.coarse_slots(),
            r.batteries() == battery_archives.entries(),
            r.inputs() == input_archives.entries(),
            r.writes() == 0,
            r.input_writes() == 0,
    {
        HistoryStore { archives, battery_archives, input_archives, writes: 0, input_writes: 0 }
    }

    /// Records one sampling round at `now`: the primary (first) battery into
    /// the battery archives, each battery into its own archives, the online
    /// inputs into the input archives.
    /// Each history is to be written on the first round that records into
    /// it and every `FLUSH_EVERY` such rounds after.
    pub fn tick(&mut self, batteries: &[BatteryInfo], sources: &[PowerSource], now: u64) -> (r:
        TickOutcome)
        requires
            old(self).wf(),
        ensures
            final(self).wf(),
            batteries@.len() > 0 ==> {
                let rd = battery_reading(batteries@[0]);
                &&& final(self).fine_slots() == archive_add(
                    old(self).fine_slots(),
                    HISTORY_FINE_STEP_MS,
                    now,
                    rd,
                )
                &&& final(self).coarse_slots() == archive_add(
                    old(self).coarse_slots(),
                    HISTORY_COARSE_STEP_MS,
                    now,
                    rd,
                )
                &&& final(self).writes() == wrapping_inc(old(self).writes())
                &&& r.flush_battery == (old(self).writes() % FLUSH_EVERY == 0)
            },
            final(self).batteries() == record_batteries(old(self).batteries(), now, batteries@),
            batteries@.len() == 0 ==> {
                &&& final(self).fine_slots() == old(self).fine_slots()
                &&& final(self).coarse_slots() == old(self).coarse_slots()
                &&& final(self).writes() == old(self).writes()
                &&& !r.flush_battery
            },
            exists|rs: Seq<InputReading>|
                {
                    &&& readings_for(sources@, rs)
                    &&& final(self).inputs() == add_readings_model(old(self).inputs(), now, rs)
                    &&& (rs.len() > 0 ==> {
                        &&& final(self).input_writes() == wrapping_inc(old(self).input_writes())
                        &&& r.flush_input == (old(self).input_writes() % FLUSH_EVERY == 0)
                    })
                    &&& (rs.len() == 0 ==> {
                        &&& final(self).input_writes() == old(self).input_writes()
                        &&& !r.flush_input
                    })
                },
    {
        let mut flush_battery = false;
        if batteries.len() > 0 {
            let reading = battery_reading_of(&batteries[0]);
            self.archives.add(now, reading);
            flush_battery = self.writes % FLUSH_EVERY == 0;
            self.writes = if self.writes == u32::MAX {
                0
            } else {
                self.writes + 1
            };
        }
        let ghost mid = *self;
        let mut i: usize = 0;
        while i < batteries.len()
            invariant
                i <= batteries@.len(),
                self.archives == mid.archives,
                self.input_archives == mid.input_archives,
                self.writes == mid.writes,
                self.input_writes == mid.input_writes,
                self.archives.wf(),
                self.input_archives.wf(),
                self.battery_archives.wf(),
                self.battery_archives.entries() == record_batteries(
                    old(self).battery_archives.entries(),
                    now,
                    batteries@.take(i as int),
                ),
            decreases batteries@.len() - i,
        {
            let b = &batteries[i];
            let reading = battery_reading_of(b);
            self.battery_archives.record(now, b.device.as_str(), reading);
            proof {
                let t = batteries@.take(i + 1);
                assert(t.drop_last() =~= batteries@.take(i as int));
                assert(t.last() == batteries@[i as int]);
            }
            i += 1;
        }
        assert(batteries@.take(batteries@.len() as int) =~= batteries@);
        let readings = input_readings(sources);
        let mut flush_input = false;
        self.input_archives.add_readings(now, readings.as_slice());
        if readings.len() > 0 {
            flush_input = self.input_writes % FLUSH_EVERY == 0;
            self.input_writes = if self.input_writes == u32::MAX {
                0
            } else {
                self.input_writes + 1
            };
        }
        proof {
            assert(add_readings_model(old(self).inputs(), now, readings@) == self.inputs());
            assert(readings_for(sources@, readings@));
        }
        TickOutcome { flush_battery, flush_input }
    }

    /// The history of the last `range_ms` before `now`: of the inputs when
    /// `source_kind` is `input` (of source `input_source_id`, the total when
    /// none or a blank id is given), else of battery `battery_device_id`
    /// (nothing for a battery never recorded), or of the primary battery
    /// when none or a blank one is given.
    pub fn query(
        &self,
        range_ms: u64,
        source_kind: &str,
        input_source_id: Option<&str>,
        battery_device_id: Option<&str>,
        now: u64,
    ) -> (r: Vec<Sample>)
        requires
            self.wf(),
        ensures
            source_kind@ != "input"@ ==> match battery_device_id {
                Some(d) if trim(d@).len() > 0 => if has_id(self.batteries(), d@) {
                    let (fine, coarse) = current_slots(self.batteries(), d@);
                    query_result(fine, coarse, range_ms, now, r@)
                } else {
                    r@.len() == 0
                },
                _ => query_result(self.fine_slots(), self.coarse_slots(), range_ms, now, r@),
            },
            source_kind@ == "input"@ ==> ({
                let id = match input_source_id {
                    Some(s) => if trim(s@).len() > 0 {
                        s@
                    } else {
                        total_id()
                    },
                    None => total_id(),
                };
                if has_id(self.inputs(), id) {
                    let (fine, coarse) = current_slots(self.inputs(), id);
                    query_result(fine, coarse, range_ms, now, r@)
                } else {
                    r@.len() == 0
                }
            }),
    {
        if str_eq(source_kind, "input") {
            self.input_archives.query(range_ms, input_source_id, now)
        } else {
            match battery_device_id {
                Some(d) => {
                    let c = chars_of(d);
                    if trim_chars(c.as_slice()).len() > 0 {
                        self.battery_archives.query(range_ms, Some(d), now)
                    } else {
                        query_archives(&self.archives, range_ms, now)
                    }
                },
                None => query_archives(&self.archives, range_ms, now),
            }
        }
    }

    /// The battery history file.
    pub fn battery_file(&self) -> (r: Vec<u8>)
        ensures
            r@ == magic() + archives_bytes(self.fine_slots(), self.coarse_slots()),
    {
        self.archives.to_bytes()
    }

    /// The file of each battery's history, in the keyed layout of the input
    /// history.
    pub fn batteries_file(&self) -> (r: Vec<u8>)
        requires
            self.wf(),
        ensures
            r@ == input_bytes(self.batteries()),
    {
        self.battery_archives.to_bytes()
    }

    /// The input history file.
    pub fn input_file(&self) -> (r: Vec<u8>)
        requires
            self.wf(),
        ensures
            r@ == input_bytes(self.inputs()),
    {
        self.input_archives.to_bytes()
    }

    /// The store over what was read from disk: the battery history file
    /// when it is valid, else the legacy samples of the retention period;
    /// each battery's history file and the input history file when valid,
    /// else nothing. The flag says that legacy samples were taken over, so
    /// the battery file must be written before the legacy file is set aside.
    pub fn load(
        battery_file: Option<&[u8]>,
        batteries_file: Option<&[u8]>,
        input_file: Option<&[u8]>,
        legacy: &[LegacySample],
        now: u64,
    ) -> (r: (Self, bool))
        ensures
            r.0.wf(),
            r.0.writes() == 0,
            r.0.input_writes() == 0,
            ({
                let valid = match battery_file {
                    Some(b) => b@.len() == 4 + ARCHIVES_BYTES && b@.subrange(0, 4) == magic(),
                    None => false,
                };
                if valid {
                    let b = battery_file.unwrap()@;
                    &&& r.0.fine_slots() == slots_from_bytes(b, 4, ROWS_FINE as nat)
                    &&& r.0.coarse_slots() == slots_from_bytes(
                        b,
                        4 + ROWS_FINE * ROW_BYTES,
                        ROWS_COARSE as nat,
                    )
                    &&& !r.1
                } else {
                    &&& r.0.fine_slots() == add_all(
                        empty_slots(ROWS_FINE as nat),
                        HISTORY_FINE_STEP_MS,
                        legacy_kept(legacy@, now),
                    )
                    &&& r.0.coarse_slots() == add_all(
                        empty_slots(ROWS_COARSE as nat),
                        HISTORY_COARSE_STEP_MS,
                        legacy_kept(legacy@, now),
                    )
                    &&& r.1 == (legacy_kept(legacy@, now).len() > 0)
                }
            }),
            match batteries_file {
                Some(b) => match input_from_bytes_spec(b@) {
                    Some(e) => r.0.batteries() == e,
                    None => r.0.batteries() == Seq::<SourceModel>::empty(),
                },
                None => r.0.batteries() == Seq::<SourceModel>::empty(),
            },
            match input_file {
                Some(b) => match input_from_bytes_spec(b@) {
                    Some(e) => r.0.inputs() == e,
                    None => r.0.inputs() == Seq::<SourceModel>::empty(),
                },
                None => r.0.inputs() == Seq::<SourceModel>::empty(),
            },
    {
        let parsed = match battery_file {
            Some(b) => Archives::from_bytes(b),
            None => None,
        };
        let (archives, migrated) = match parsed {
            Some(a) => (a, false),
            None => migrate_legacy(legacy, now),
        };
        let input_archives = match input_file {
            Some(b) => match InputArchives::from_bytes(b) {
                Some(a) => a,
                None => InputArchives::new(),
            },
            None => InputArchives::new(),
        };
        let battery_archives = match batteries_file {
            Some(b) => match InputArchives::from_bytes(b) {
                Some(a) => a,
                None => InputArchives::new(),
            },
            None => InputArchives::new(),
        };
        (HistoryStore::new(archives, battery_archives, input_archives), migrated)
    }
}


/// What the sampler records of a battery: its charge, voltage and current
/// as read, its temperature in m°C (tenths × 100), marked charging exactly when its status
/// says so, and its power with the magnitude of `power_now`, positive while
/// charging and negative otherwise.
pub proof fn lemma_battery_reading(b: BatteryInfo)
    ensures
        battery_reading(b).charging == (opt_view(b.status) == Some("Charging"@)),
        battery_reading(b).capacity == b.capacity,
        battery_reading(b).voltage_uv == b.voltage_now_uv,
        battery_reading(b).current_ua == b.current_now_ua,
        b.temperature_dc matches Some(t) ==> (battery_reading(b).temperature_mc matches Some(m) && (abs(t as int)
            <= 92_233_720_368_547_758 ==> m == t * 100)),
        b.temperature_dc is None ==> battery_reading(b).temperature_mc is None,
        b.power_now_uw is None ==> battery_reading(b).power_uw is None,
        b.power_now_uw matches Some(p) ==> (battery_reading(b).power_uw matches Some(w) && (p != 0 ==> (w > 0
            <==> battery_reading(b).charging)) && (p != i64::MIN ==> abs(w as int) == abs(p as int))),
{
}

} // verus!
