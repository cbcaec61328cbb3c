use vstd::prelude::*;
use crate::errors::FlightError;
use crate::numeric::SCALE;
use crate::record::FlightSample;
use crate::timestamp::Timestamp;

verus! {

pub open spec fn timestamps_of(samples: Seq<FlightSample>) -> Seq<Timestamp> {
    samples.map_values(|s: FlightSample| s.timestamp)
}

pub open spec fn currents_of(samples: Seq<FlightSample>) -> Seq<i64> {
    samples.map_values(|s: FlightSample| s.current_altitude)
}

pub open spec fn zeros_of(samples: Seq<FlightSample>) -> Seq<i64> {
    samples.map_values(|s: FlightSample| s.zero_altitude)
}

pub open spec fn relatives_of(samples: Seq<FlightSample>) -> Seq<i64> {
    samples.map_values(|s: FlightSample| s.relative_altitude)
}

pub open spec fn speeds_of(samples: Seq<FlightSample>) -> Seq<i64> {
    samples.map_values(|s: FlightSample| s.speed)
}

pub open spec fn alarms_of(samples: Seq<FlightSample>) -> Seq<i64> {
    samples.map_values(|s: FlightSample| s.speed_alarm)
}

/// Whether a stored alarm value denotes an active flag: the device
/// reports 1, so active means the value truncates to one whole unit.
pub open spec fn alarm_active(v: i64) -> bool {
    SCALE <= v < 2 * SCALE
}

/// The timestamps whose alarm flag is active, in input order.
pub open spec fn markers_spec(ts: Seq<Timestamp>, al: Seq<i64>) -> Seq<Timestamp>
    recommends
        ts.len() == al.len(),
    decreases ts.len(),
{
    if ts.len() == 0 || al.len() != ts.len() {
        Seq::empty()
    } else {
        let rest = markers_spec(ts.drop_last(), al.drop_last());
        if alarm_active(al.last()) {
            rest.push(ts.last())
        } else {
            rest
        }
    }
}

/// Number of active alarm flags in a series.
pub open spec fn active_count(al: Seq<i64>) -> int
    decreases al.len(),
{
    if al.len() == 0 {
        0
    } else {
        active_count(al.drop_last()) + if alarm_active(al.last()) {
            1int
        } else {
            0int
        }
    }
}

/// Marker `j` is the timestamp of some sample whose alarm flag is
/// active.
pub open spec fn marker_justified(ts: Seq<Timestamp>, al: Seq<i64>, j: int) -> bool {
    exists|i: int|
        0 <= i < ts.len() && markers_spec(ts, al)[j] == ts[i] && alarm_active(#[trigger] al[i])
}

/// The alarm filtering law: the marker list holds exactly one entry
/// per active sample, and every marker is the timestamp of a sample
/// whose own alarm flag is active.
pub proof fn lemma_markers_filter(ts: Seq<Timestamp>, al: Seq<i64>)
    requires
        ts.len() == al.len(),
    ensures
        markers_spec(ts, al).len() == active_count(al),
        forall|j: int|
            0 <= j < markers_spec(ts, al).len() ==> #[trigger] marker_justified(ts, al, j),
    decreases ts.len(),
{
    if ts.len() == 0 {
    } else {
        lemma_markers_filter(ts.drop_last(), al.drop_last());
        let rest = markers_spec(ts.drop_last(), al.drop_last());
        assert forall|j: int| 0 <= j < markers_spec(ts, al).len() implies #[trigger]
            marker_justified(ts, al, j) by {
            if j < rest.len() {
                assert(marker_justified(ts.drop_last(), al.drop_last(), j));
                let i = choose|i: int|
                    0 <= i < ts.drop_last().len() && rest[j] == ts.drop_last()[i] && alarm_active(
                        #[trigger] al.drop_last()[i],
                    );
                assert(ts.drop_last()[i] == ts[i]);
                assert(al.drop_last()[i] == al[i]);
                assert(markers_spec(ts, al)[j] == ts[i] && alarm_active(al[i]));
            } else {
                assert(alarm_active(al.last()));
                assert(markers_spec(ts, al)[j] == ts[ts.len() - 1] && alarm_active(
                    al[ts.len() - 1],
                ));
            }
        }
    }
}

/// Parallel per-field series plus the timestamp axis, one entry per
/// sample, index-aligned across all six sequences in input order.
pub struct SeriesSet {
    pub timestamps: Vec<Timestamp>,
    pub current_altitudes: Vec<i64>,
    pub zero_altitudes: Vec<i64>,
    pub relative_altitudes: Vec<i64>,
    pub speeds: Vec<i64>,
    pub speed_alarms: Vec<i64>,
}

impl SeriesSet {
    /// All six sequences stay the same length.
    pub open spec fn wf(self) -> bool {
        &&& self.current_altitudes@.len() == self.timestamps@.len()
        &&& self.zero_altitudes@.len() == self.timestamps@.len()
        &&& self.relative_altitudes@.len() == self.timestamps@.len()
        &&& self.speeds@.len() == self.timestamps@.len()
        &&& self.speed_alarms@.len() == self.timestamps@.len()
    }

    /// The set holds exactly the fields of `samples`, in order.
    pub open spec fn matches(self, samples: Seq<FlightSample>) -> bool {
        &&& self.timestamps@ == timestamps_of(samples)
        &&& self.current_altitudes@ == currents_of(samples)
        &&& self.zero_altitudes@ == zeros_of(samples)
        &&& self.relative_altitudes@ == relatives_of(samples)
        &&& self.speeds@ == speeds_of(samples)
        &&& self.speed_alarms@ == alarms_of(samples)
    }

    /// Number of samples held.
    pub fn len(&self) -> (r: usize)
        requires
            self.wf(),
        ensures
            r == self.timestamps@.len(),
    {
        self.timestamps.len()
    }

    /// The timestamps at which the alarm flag is active, in order:
    /// the markers of the alarm panel.
    pub fn alarm_markers(&self) -> (r: Vec<Timestamp>)
        requires
            self.wf(),
        ensures
            r@ == markers_spec(self.timestamps@, self.speed_alarms@),
    {
        let n = self.timestamps.len();
        let mut out: Vec<Timestamp> = Vec::new();
        let mut i: usize = 0;
        proof {
            assert(self.timestamps@.subrange(0, 0) =~= Seq::<Timestamp>::empty());
            assert(self.speed_alarms@.subrange(0, 0) =~= Seq::<i64>::empty());
        }
        while i < n
            invariant
                self.wf(),
                i <= n,
                n == self.timestamps@.len(),
                out@ == markers_spec(
                    self.timestamps@.subrange(0, i as int),
                    self.speed_alarms@.subrange(0, i as int),
                ),
            decreases n - i,
        {
            proof {
                let tpre = self.timestamps@.subrange(0, i as int);
                let tpost = self.timestamps@.subrange(0, i as int + 1);
                let apre = self.speed_alarms@.subrange(0, i as int);
                let apost = self.speed_alarms@.subrange(0, i as int + 1);
                assert(tpost.drop_last() =~= tpre);
                assert(apost.drop_last() =~= apre);
                assert(tpost.last() == self.timestamps@[i as int]);
                assert(apost.last() == self.speed_alarms@[i as int]);
            }
            let v = self.speed_alarms[i];
            if SCALE <= v && v < 2 * SCALE {
                let t = self.timestamps[i];
                out.push(t);
            }
            i = i + 1;
        }
        proof {
            assert(self.timestamps@.subrange(0, n as int) =~= self.timestamps@);
            assert(self.speed_alarms@.subrange(0, n as int) =~= self.speed_alarms@);
        }
        out
    }

    /// The timestamp sub-axis a smoothed series is aligned to: entry
    /// `k` of a smoothed series belongs with entry `k` of this axis,
    /// which is the original timestamp at index `k + window - 1`.
    pub fn aligned_timestamps(&self, window: usize) -> (r: Result<Vec<Timestamp>, FlightError>)
        requires
            self.wf(),
            1 <= window,
        ensures
            match r {
                Ok(out) => {
                    &&& window <= self.timestamps@.len()
                    &&& out@ == self.timestamps@.subrange(
                        window - 1,
                        self.timestamps@.len() as int,
                    )
                },
                Err(e) => {
                    &&& e == FlightError::WindowTooLarge
                    &&& window > self.timestamps@.len()
                },
            },
    {
        let n = self.timestamps.len();
        if window > n {
            return Err(FlightError::WindowTooLarge);
        }
        let mut out: Vec<Timestamp> = Vec::new();
        let mut i: usize = window - 1;
        while i < n
            invariant
                self.wf(),
                1 <= window <= n,
                window - 1 <= i <= n,
                n == self.timestamps@.len(),
                out@ =~= self.timestamps@.subrange(window - 1, i as int),
            decreases n - i,
        {
            let t = self.timestamps[i];
            out.push(t);
            proof {
                assert(out@ =~= self.timestamps@.subrange(window - 1, i as int + 1));
            }
            i = i + 1;
        }
        Ok(out)
    }
}

/// Accumulates a sequence of samples into parallel per-field series
/// plus the timestamp axis, in input order, with no reordering,
/// deduplication or gap-filling. An empty input has no usable axis
/// bounds and is rejected as `EmptyInput`.
pub fn build(samples: &Vec<FlightSample>) -> (r: Result<SeriesSet, FlightError>)
    ensures
        match r {
            Ok(ss) => {
                &&& samples@.len() >= 1
                &&& ss.wf()
                &&& ss.matches(samples@)
            },
            Err(e) => {
                &&& e == FlightError::EmptyInput
                &&& samples@.len() == 0
            },
        },
{
    let n = samples.len();
    if n == 0 {
        return Err(FlightError::EmptyInput);
    }
    let mut ss = SeriesSet {
        timestamps: Vec::new(),
        current_altitudes: Vec::new(),
        zero_altitudes: Vec::new(),
        relative_altitudes: Vec::new(),
        speeds: Vec::new(),
        speed_alarms: Vec::new(),
    };
    let mut i: usize = 0;
    while i < n
        invariant
            i <= n,
            n == samples@.len(),
            ss.timestamps@.len() == i,
            ss.current_altitudes@.len() == i,
            ss.zero_altitudes@.len() == i,
            ss.relative_altitudes@.len() == i,
            ss.speeds@.len() == i,
            ss.speed_alarms@.len() == i,
            forall|j: int| 0 <= j < i ==> ss.timestamps@[j] == samples@[j].timestamp,
            forall|j: int| 0 <= j < i ==> ss.current_altitudes@[j] == samples@[j].current_altitude,
            forall|j: int| 0 <= j < i ==> ss.zero_altitudes@[j] == samples@[j].zero_altitude,
            forall|j: int|
                0 <= j < i ==> ss.relative_altitudes@[j] == samples@[j].relative_altitude,
            forall|j: int| 0 <= j < i ==> ss.speeds@[j] == samples@[j].speed,
            forall|j: int| 0 <= j < i ==> ss.speed_alarms@[j] == samples@[j].speed_alarm,
        decreases n - i,
    {
        let s = samples[i];
        ss.timestamps.push(s.timestamp);
        ss.current_altitudes.push(s.current_altitude);
        ss.zero_altitudes.push(s.zero_altitude);
        ss.relative_altitudes.push(s.relative_altitude);
        ss.speeds.push(s.speed);
        ss.speed_alarms.push(s.speed_alarm);
        i = i + 1;
    }
    proof {
        assert(ss.timestamps@ =~= timestamps_of(samples@));
        assert(ss.current_altitudes@ =~= currents_of(samples@));
        assert(ss.zero_altitudes@ =~= zeros_of(samples@));
        assert(ss.relative_altitudes@ =~= relatives_of(samples@));
        assert(ss.speeds@ =~= speeds_of(samples@));
        assert(ss.speed_alarms@ =~= alarms_of(samples@));
    }
    Ok(ss)
}

} // verus!
