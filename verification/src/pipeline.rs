use vstd::prelude::*;
use crate::bounds::{bounds, seq_min, seq_max};
use crate::errors::FlightError;
use crate::record::{FlightSample, parse, parse_spec};
use crate::series::{
    SeriesSet, build, markers_spec, timestamps_of, currents_of, zeros_of, relatives_of, speeds_of,
    alarms_of,
};
use crate::smooth::{moving_average, smoothed_spec};
use crate::timestamp::Timestamp;

verus! {

/// The views of a sequence of owned lines.
pub open spec fn lines_views(lines: Seq<String>) -> Seq<Seq<char>> {
    lines.map_values(|l: String| l@)
}

/// Parsing a whole log in order, stopping at the first line that
/// fails: the samples of all lines, or the failure of the first bad
/// line.
pub open spec fn parse_all(lines: Seq<Seq<char>>) -> Result<Seq<FlightSample>, FlightError>
    decreases lines.len(),
{
    if lines.len() == 0 {
        Ok(Seq::empty())
    } else {
        match parse_spec(lines.first()) {
            Err(e) => Err(e),
            Ok(s) => match parse_all(lines.drop_first()) {
                Err(e) => Err(e),
                Ok(rest) => Ok(seq![s] + rest),
            },
        }
    }
}

proof fn lemma_parse_all_step(vs: Seq<Seq<char>>, i: int)
    requires
        0 <= i < vs.len(),
    ensures
        parse_all(vs.skip(i)) == (match parse_spec(vs[i]) {
            Err(e) => Err::<Seq<FlightSample>, FlightError>(e),
            Ok(s) => match parse_all(vs.skip(i + 1)) {
                Err(e) => Err::<Seq<FlightSample>, FlightError>(e),
                Ok(rest) => Ok::<Seq<FlightSample>, FlightError>(seq![s] + rest),
            },
        }),
{
    let t = vs.skip(i);
    assert(t.len() == vs.len() - i);
    assert(t.first() == vs[i]);
    assert(t.drop_first() =~= vs.skip(i + 1));
}

/// `out` is the trailing moving average of `s` with window `w`.
pub open spec fn is_smoothed(out: Seq<i64>, s: Seq<i64>, w: int) -> bool {
    &&& out.len() == s.len() - w + 1
    &&& forall|k: int| 0 <= k < out.len() ==> out[k] as int == smoothed_spec(s, w)[k]
}

/// Everything a four-panel renderer needs: the raw time-axis range,
/// the aligned sub-axis, the four smoothed series, the value bounds of
/// the raw series each panel scales by, and the alarm markers.
#[derive(Debug, PartialEq)]
pub struct ChartData {
    /// First and last raw timestamps: the shared time-axis range.
    pub axis_start: Timestamp,
    pub axis_end: Timestamp,
    /// Sub-axis aligned with every smoothed series.
    pub aligned_times: Vec<Timestamp>,
    pub smoothed_current: Vec<i64>,
    pub smoothed_zero: Vec<i64>,
    pub smoothed_relative: Vec<i64>,
    pub smoothed_speed: Vec<i64>,
    pub current_min: i64,
    pub current_max: i64,
    pub relative_min: i64,
    pub relative_max: i64,
    pub speed_min: i64,
    pub speed_max: i64,
    /// Timestamps of the active alarm markers.
    pub alarm_times: Vec<Timestamp>,
}

/// The chart data that a sample sequence and a window denote.
pub open spec fn chart_data_matches(cd: ChartData, samples: Seq<FlightSample>, w: int) -> bool {
    let ts = timestamps_of(samples);
    &&& cd.axis_start == ts[0]
    &&& cd.axis_end == ts.last()
    &&& cd.aligned_times@ == ts.subrange(w - 1, samples.len() as int)
    &&& is_smoothed(cd.smoothed_current@, currents_of(samples), w)
    &&& is_smoothed(cd.smoothed_zero@, zeros_of(samples), w)
    &&& is_smoothed(cd.smoothed_relative@, relatives_of(samples), w)
    &&& is_smoothed(cd.smoothed_speed@, speeds_of(samples), w)
    &&& cd.current_min as int == seq_min(currents_of(samples))
    &&& cd.current_max as int == seq_max(currents_of(samples))
    &&& cd.relative_min as int == seq_min(relatives_of(samples))
    &&& cd.relative_max as int == seq_max(relatives_of(samples))
    &&& cd.speed_min as int == seq_min(speeds_of(samples))
    &&& cd.speed_max as int == seq_max(speeds_of(samples))
    &&& cd.alarm_times@ == markers_spec(ts, alarms_of(samples))
}

/// Runs the whole core pipeline on the lines of a log: parse every
/// line in order (failing on the first bad one), build the aligned
/// series, smooth the four value series with the window, and collect
/// the axis bounds and alarm markers for the renderer.
pub fn process(lines: &Vec<String>, window: usize) -> (r: Result<ChartData, FlightError>)
    requires
        1 <= window,
    ensures
        match parse_all(lines_views(lines@)) {
            Err(e) => r == Err::<ChartData, FlightError>(e),
            Ok(samples) => {
                if samples.len() == 0 {
                    r == Err::<ChartData, FlightError>(FlightError::EmptyInput)
                } else if window > samples.len() {
                    r == Err::<ChartData, FlightError>(FlightError::WindowTooLarge)
                } else {
                    r matches Ok(cd) && chart_data_matches(cd, samples, window as int)
                }
            },
        },
{
    let ghost vs = lines_views(lines@);
    let n = lines.len();
    let mut samples: Vec<FlightSample> = Vec::new();
    let mut i: usize = 0;
    proof {
        assert(vs.skip(0) =~= vs);
    }
    while i < n
        invariant
            i <= n,
            n == lines@.len(),
            vs == lines_views(lines@),
            match parse_all(vs.skip(i as int)) {
                Ok(rest) => parse_all(vs) == Ok::<Seq<FlightSample>, FlightError>(samples@ + rest),
                Err(e) => parse_all(vs) == Err::<Seq<FlightSample>, FlightError>(e),
            },
        decreases n - i,
    {
        let line = &lines[i];
        let res = parse(line.as_str());
        proof {
            lemma_parse_all_step(vs, i as int);
            assert(vs[i as int] == lines@[i as int]@);
        }
        match res {
            Ok(s) => {
                let ghost pre = samples@;
                samples.push(s);
                proof {
                    match parse_all(vs.skip(i + 1)) {
                        Ok(rest) => {
                            assert(parse_all(vs.skip(i as int)) == Ok::<
                                Seq<FlightSample>,
                                FlightError,
                            >(seq![s] + rest));
                            assert(samples@ + rest =~= pre + (seq![s] + rest));
                        },
                        Err(e) => {},
                    }
                }
            },
            Err(e) => {
                return Err(e);
            },
        }
        i = i + 1;
    }
    proof {
        assert(vs.skip(n as int) =~= Seq::<Seq<char>>::empty());
        assert(parse_all(Seq::<Seq<char>>::empty()) == Ok::<Seq<FlightSample>, FlightError>(
            Seq::<FlightSample>::empty(),
        ));
        assert(samples@ + Seq::<FlightSample>::empty() =~= samples@);
        assert(parse_all(vs) == Ok::<Seq<FlightSample>, FlightError>(samples@));
    }
    let ss = match build(&samples) {
        Ok(ss) => ss,
        Err(e) => {
            return Err(e);
        },
    };
    let smoothed_current = match moving_average(&ss.current_altitudes, window) {
        Ok(v) => v,
        Err(e) => {
            return Err(e);
        },
    };
    let smoothed_zero = match moving_average(&ss.zero_altitudes, window) {
        Ok(v) => v,
        Err(e) => {
            return Err(e);
        },
    };
    let smoothed_relative = match moving_average(&ss.relative_altitudes, window) {
        Ok(v) => v,
        Err(e) => {
            return Err(e);
        },
    };
    let smoothed_speed = match moving_average(&ss.speeds, window) {
        Ok(v) => v,
        Err(e) => {
            return Err(e);
        },
    };
    let aligned_times = match ss.aligned_timestamps(window) {
        Ok(v) => v,
        Err(e) => {
            return Err(e);
        },
    };
    let cur_b: (i64, i64) = match bounds(&ss.current_altitudes) {
        Some(b) => b,
        None => {
            return Err(FlightError::EmptyInput);
        },
    };
    let rel_b: (i64, i64) = match bounds(&ss.relative_altitudes) {
        Some(b) => b,
        None => {
            return Err(FlightError::EmptyInput);
        },
    };
    let speed_b: (i64, i64) = match bounds(&ss.speeds) {
        Some(b) => b,
        None => {
            return Err(FlightError::EmptyInput);
        },
    };
    let alarm_times = ss.alarm_markers();
    let axis_start = ss.timestamps[0];
    let axis_end = ss.timestamps[ss.timestamps.len() - 1];
    Ok(
        ChartData {
            axis_start,
            axis_end,
            aligned_times,
            smoothed_current,
            smoothed_zero,
            smoothed_relative,
            smoothed_speed,
            current_min: cur_b.0,
            current_max: cur_b.1,
            relative_min: rel_b.0,
            relative_max: rel_b.1,
            speed_min: speed_b.0,
            speed_max: speed_b.1,
            alarm_times,
        },
    )
}

} // verus!
