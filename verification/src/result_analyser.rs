//! Analysis of a single journey: distance, average speeds and driving times
//! derived from one ordered sequence of telemetry samples.

use vstd::arithmetic::div_mod::{
    lemma_div_is_ordered, lemma_div_multiples_vanish, lemma_div_pos_is_pos,
};
use vstd::arithmetic::mul::{lemma_mul_inequality, lemma_mul_nonnegative};
use vstd::prelude::*;

verus! {

/// Largest admissible cumulative position value.
pub const MAX_POSITION: u64 = 0x4000_0000;

/// Largest admissible timestamp value.
pub const MAX_TIMESTAMP: u64 = 0x40_0000_0000;

/// Largest admissible speed value.
pub const MAX_SPEED: u64 = 0x4000_0000;

/// One telemetry sample of a journey: the cumulative distance travelled so
/// far (`position`), the absolute time of the sample (`timestamp`) and the
/// instantaneous speed at that moment (`speed`), all in fixed units chosen
/// by the caller.
#[derive(Clone, Copy, PartialEq, Debug)]
pub struct TripEntry {
    pub position: u64,
    pub timestamp: u64,
    pub speed: u64,
}

/// Why a per-journey metric could not be computed.
#[derive(PartialEq, Debug)]
pub enum AnalyseError {
    /// The journey has no samples at all.
    NoEntries,
    /// A speed average would divide by a net distance of zero.
    ZeroDistance,
}

/// A single sample is within the admissible ranges.
pub open spec fn entry_wf(e: TripEntry) -> bool {
    &&& e.position <= MAX_POSITION
    &&& e.timestamp <= MAX_TIMESTAMP
    &&& e.speed <= MAX_SPEED
}

/// A journey is well formed: every sample is in range, and positions and
/// timestamps are non-decreasing along the sequence.
pub open spec fn trip_wf(s: Seq<TripEntry>) -> bool {
    &&& forall|i: int| 0 <= i < s.len() ==> entry_wf(#[trigger] s[i])
    &&& forall|i: int, j: int|
        0 <= i <= j < s.len() ==> (#[trigger] s[i]).position <= (#[trigger] s[j]).position
    &&& forall|i: int, j: int|
        0 <= i <= j < s.len() ==> (#[trigger] s[i]).timestamp <= (#[trigger] s[j]).timestamp
}

/// Net distance of a non-empty journey: last position minus first position.
pub open spec fn spec_distance(s: Seq<TripEntry>) -> int
    recommends
        s.len() > 0,
{
    s.last().position - s.first().position
}

/// Total driving time of a non-empty journey: last timestamp minus first.
pub open spec fn spec_driving_time(s: Seq<TripEntry>) -> int
    recommends
        s.len() > 0,
{
    s.last().timestamp - s.first().timestamp
}

/// Twice the distance-weighted integral of speed over the first `n` samples:
/// the sum over each adjacent pair of (speed sum of the pair) times (distance
/// covered between the pair). Halving is deferred to the final division.
pub open spec fn weighted_speed_sum(s: Seq<TripEntry>, n: int) -> int
    recommends
        n <= s.len(),
    decreases n,
{
    if n <= 1 {
        0
    } else {
        weighted_speed_sum(s, n - 1) + (s[n - 2].speed + s[n - 1].speed) * (s[n - 1].position
            - s[n - 2].position)
    }
}

/// Elapsed time of the non-idle intervals among the first `n` samples: an
/// interval counts unless both of its endpoint speeds are zero.
pub open spec fn pure_time_sum(s: Seq<TripEntry>, n: int) -> int
    recommends
        n <= s.len(),
    decreases n,
{
    if n <= 1 {
        0
    } else {
        pure_time_sum(s, n - 1) + if s[n - 2].speed > 0 || s[n - 1].speed > 0 {
            s[n - 1].timestamp - s[n - 2].timestamp
        } else {
            0
        }
    }
}

/// Distance-weighted average speed of a non-empty journey. A single-sample
/// journey degenerates to that sample's own speed; otherwise the weighted
/// integral is divided by twice the net distance (the factor two undoes the
/// deferred halving of the trapezoid rule).
pub open spec fn spec_average_speed(s: Seq<TripEntry>) -> int
    recommends
        s.len() > 0,
        s.len() > 1 ==> spec_distance(s) != 0,
{
    if s.len() == 1 {
        s[0].speed as int
    } else {
        weighted_speed_sum(s, s.len() as int) / (2 * spec_distance(s))
    }
}

/// Wraps one journey's sample sequence and derives its metrics. The samples
/// are never mutated after construction, so every operation returns the same
/// value on every call.
#[derive(PartialEq, Debug)]
pub struct ResultAnalyser {
    entries: Vec<TripEntry>,
}

impl View for ResultAnalyser {
    type V = Seq<TripEntry>;

    closed spec fn view(&self) -> Seq<TripEntry> {
        self.entries@
    }
}

/// On a well-formed non-empty journey the net distance is non-negative and
/// bounded by the largest admissible position.
pub proof fn lemma_distance_in_range(s: Seq<TripEntry>)
    requires
        trip_wf(s),
        s.len() > 0,
    ensures
        0 <= spec_distance(s) <= MAX_POSITION,
{
    assert(s[0].position <= s[s.len() - 1].position);
    assert(entry_wf(s[s.len() - 1]));
}

/// On a well-formed non-empty journey the driving time is non-negative and
/// bounded by the largest admissible timestamp.
pub proof fn lemma_driving_time_in_range(s: Seq<TripEntry>)
    requires
        trip_wf(s),
        s.len() > 0,
    ensures
        0 <= spec_driving_time(s) <= MAX_TIMESTAMP,
{
    assert(s[0].timestamp <= s[s.len() - 1].timestamp);
    assert(entry_wf(s[s.len() - 1]));
}

/// On a well-formed journey the weighted speed sum over the first `n`
/// samples is non-negative and bounded by twice the largest admissible speed
/// times the distance covered up to sample `n`.
pub proof fn lemma_weighted_sum_in_range(s: Seq<TripEntry>, n: int)
    requires
        trip_wf(s),
        1 <= n <= s.len(),
    ensures
        0 <= weighted_speed_sum(s, n) <= 2 * MAX_SPEED * (s[n - 1].position - s[0].position),
    decreases n,
{
    if n > 1 {
        lemma_weighted_sum_in_range(s, n - 1);
        let sp = s[n - 2].speed + s[n - 1].speed;
        let dp = s[n - 1].position - s[n - 2].position;
        assert(entry_wf(s[n - 2]));
        assert(entry_wf(s[n - 1]));
        assert(s[n - 2].position <= s[n - 1].position);
        lemma_mul_nonnegative(sp as int, dp);
        lemma_mul_inequality(sp as int, 2 * MAX_SPEED as int, dp);
    }
}

/// On a well-formed journey the idle-excluded time over the first `n`
/// samples is non-negative and never exceeds the elapsed time up to sample
/// `n`.
pub proof fn lemma_pure_time_in_range(s: Seq<TripEntry>, n: int)
    requires
        trip_wf(s),
        1 <= n <= s.len(),
    ensures
        0 <= pure_time_sum(s, n) <= s[n - 1].timestamp - s[0].timestamp,
    decreases n,
{
    if n > 1 {
        lemma_pure_time_in_range(s, n - 1);
        assert(s[n - 2].timestamp <= s[n - 1].timestamp);
    }
}

/// On a well-formed multi-sample journey with positive net distance, the
/// distance-weighted average speed lies between zero and the largest
/// admissible speed.
pub proof fn lemma_average_speed_in_range(s: Seq<TripEntry>)
    requires
        trip_wf(s),
        s.len() > 1,
        spec_distance(s) > 0,
    ensures
        0 <= spec_average_speed(s) <= MAX_SPEED,
{
    let n = s.len() as int;
    let d = spec_distance(s);
    let wss = weighted_speed_sum(s, n);
    lemma_weighted_sum_in_range(s, n);
    assert(wss <= 2 * MAX_SPEED * d);
    assert(2 * MAX_SPEED * d == (2 * d) * (MAX_SPEED as int)) by (nonlinear_arith);
    lemma_div_pos_is_pos(wss, 2 * d);
    lemma_div_is_ordered(wss, (2 * d) * (MAX_SPEED as int), 2 * d);
    lemma_div_multiples_vanish(MAX_SPEED as int, 2 * d);
}

impl ResultAnalyser {
    /// The journey is well formed (see [`trip_wf`]).
    pub open spec fn wf(&self) -> bool {
        trip_wf(self@)
    }

    /// Wraps the given sample sequence. The sequence is assumed to be sorted
    /// by timestamp and position and within the admissible ranges; it is not
    /// re-validated here.
    pub fn new(entries: Vec<TripEntry>) -> (a: ResultAnalyser)
        requires
            trip_wf(entries@),
        ensures
            a@ == entries@,
            a.wf(),
    {
        ResultAnalyser { entries }
    }

    /// Net distance of the journey: position of the last sample minus
    /// position of the first. Fails if and only if the journey is empty.
    pub fn distance(&self) -> (r: Result<u64, AnalyseError>)
        requires
            self.wf(),
        ensures
            match r {
                Ok(d) => self@.len() > 0 && d == spec_distance(self@) && d <= MAX_POSITION,
                Err(e) => self@.len() == 0 && e == AnalyseError::NoEntries,
            },
    {
        if self.entries.len() > 0 {
            let first = self.entries[0];
            let last = self.entries[self.entries.len() - 1];
            proof {
                lemma_distance_in_range(self@);
            }
            Ok(last.position - first.position)
        } else {
            Err(AnalyseError::NoEntries)
        }
    }

    /// Distance-weighted average speed of the journey, idle periods included:
    /// the trapezoidal integral of speed over distance, divided by the net
    /// distance. A single-sample journey yields that sample's own speed.
    /// Fails with `NoEntries` if and only if the journey is empty, and with
    /// `ZeroDistance` if and only if it has several samples but zero net
    /// distance.
    pub fn average_speed(&self) -> (r: Result<u64, AnalyseError>)
        requires
            self.wf(),
        ensures
            match r {
                Ok(v) => self@.len() > 0 && (self@.len() > 1 ==> spec_distance(self@) != 0) && v
                    == spec_average_speed(self@) && v <= MAX_SPEED,
                Err(AnalyseError::NoEntries) => self@.len() == 0,
                Err(AnalyseError::ZeroDistance) => self@.len() > 1 && spec_distance(self@) == 0,
            },
    {
        let n = self.entries.len();
        if n == 0 {
            Err(AnalyseError::NoEntries)
        } else if n == 1 {
            let e = self.entries[0];
            proof {
                assert(entry_wf(self@[0]));
            }
            Ok(e.speed)
        } else {
            let d = self.distance()?;
            if d == 0 {
                Err(AnalyseError::ZeroDistance)
            } else {
                let mut sum: u64 = 0;
                let mut i: usize = 0;
                while i < n - 1
                    invariant
                        self.wf(),
                        n == self@.len(),
                        2 <= n,
                        0 <= i <= n - 1,
                        sum == weighted_speed_sum(self@, i + 1),
                    decreases n - 1 - i,
                {
                    let cur = self.entries[i];
                    let next = self.entries[i + 1];
                    proof {
                        assert(entry_wf(self@[i as int]));
                        assert(entry_wf(self@[i + 1]));
                        assert(self@[i as int].position <= self@[i + 1].position);
                        lemma_weighted_sum_in_range(self@, i + 2);
                        assert(entry_wf(self@[0]));
                        let sp = self@[i as int].speed + self@[i + 1].speed;
                        let dp = self@[i + 1].position - self@[i as int].position;
                        lemma_mul_nonnegative(sp, dp);
                        assert(weighted_speed_sum(self@, i + 2) == sum + sp * dp);
                    }
                    sum = sum + (cur.speed + next.speed) * (next.position - cur.position);
                    i = i + 1;
                }
                proof {
                    lemma_average_speed_in_range(self@);
                }
                Ok(sum / (2 * d))
            }
        }
    }

    /// Average speed over the journey's movement: the same distance-weighted
    /// integral as [`Self::average_speed`] — an idle stretch covers no
    /// distance, so it carries no weight in the integral — read as the
    /// average over pure driving. Same failure conditions as
    /// [`Self::average_speed`].
    pub fn pure_average_speed(&self) -> (r: Result<u64, AnalyseError>)
        requires
            self.wf(),
        ensures
            match r {
                Ok(v) => self@.len() > 0 && (self@.len() > 1 ==> spec_distance(self@) != 0) && v
                    == spec_average_speed(self@) && v <= MAX_SPEED,
                Err(AnalyseError::NoEntries) => self@.len() == 0,
                Err(AnalyseError::ZeroDistance) => self@.len() > 1 && spec_distance(self@) == 0,
            },
    {
        self.average_speed()
    }

    /// Total driving time of the journey, idle periods included: timestamp of
    /// the last sample minus timestamp of the first. Fails if and only if the
    /// journey is empty.
    pub fn driving_time(&self) -> (r: Result<u64, AnalyseError>)
        requires
            self.wf(),
        ensures
            match r {
                Ok(t) => self@.len() > 0 && t == spec_driving_time(self@) && t <= MAX_TIMESTAMP,
                Err(e) => self@.len() == 0 && e == AnalyseError::NoEntries,
            },
    {
        if self.entries.len() > 0 {
            let first = self.entries[0];
            let last = self.entries[self.entries.len() - 1];
            proof {
                lemma_driving_time_in_range(self@);
            }
            Ok(last.timestamp - first.timestamp)
        } else {
            Err(AnalyseError::NoEntries)
        }
    }

    /// Driving time with idle periods excluded: the sum of the elapsed time
    /// of every interval between adjacent samples where at least one endpoint
    /// speed is non-zero. A single-sample journey yields zero. Fails if and
    /// only if the journey is empty.
    pub fn pure_driving_time(&self) -> (r: Result<u64, AnalyseError>)
        requires
            self.wf(),
        ensures
            match r {
                Ok(t) => self@.len() > 0 && t == pure_time_sum(self@, self@.len() as int) && t
                    <= MAX_TIMESTAMP,
                Err(e) => self@.len() == 0 && e == AnalyseError::NoEntries,
            },
    {
        let n = self.entries.len();
        if n == 0 {
            return Err(AnalyseError::NoEntries);
        }
        let mut time: u64 = 0;
        let mut i: usize = 0;
        while i < n - 1
            invariant
                self.wf(),
                n == self@.len(),
                1 <= n,
                0 <= i <= n - 1,
                time == pure_time_sum(self@, i + 1),
                time <= MAX_TIMESTAMP,
            decreases n - 1 - i,
        {
            let cur = self.entries[i];
            let next = self.entries[i + 1];
            proof {
                assert(entry_wf(self@[0]));
                assert(entry_wf(self@[i + 1]));
                assert(self@[i as int].timestamp <= self@[i + 1].timestamp);
                lemma_pure_time_in_range(self@, i + 2);
            }
            if cur.speed > 0 || next.speed > 0 {
                time = time + (next.timestamp - cur.timestamp);
            }
            i = i + 1;
        }
        Ok(time)
    }
}

} // verus!
