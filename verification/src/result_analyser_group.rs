//! Aggregation of per-journey metrics over a collection of journeys, with a
//! memoizing cache for each aggregate.

pub mod analyser_group_cache;

use crate::result_analyser::{
    spec_average_speed, spec_distance, spec_driving_time, pure_time_sum, AnalyseError,
    ResultAnalyser, MAX_POSITION, MAX_SPEED, MAX_TIMESTAMP,
};
use crate::result_analyser_group::analyser_group_cache::{cache_extends, AnalyserGroupCache};
use vstd::arithmetic::div_mod::{
    lemma_div_is_ordered, lemma_div_multiples_vanish, lemma_div_pos_is_pos,
};
use vstd::arithmetic::mul::{lemma_mul_nonnegative, lemma_mul_upper_bound};
use vstd::prelude::*;

verus! {

/// Largest admissible number of analysers in one group.
pub const MAX_GROUP: usize = 0x10_0000;

/// Why a group of analysers could not be created.
#[derive(PartialEq, Debug)]
pub enum CreateAnalyserGroupError {
    /// The collection of analysers is empty.
    NoAnalysers,
}

/// Every analyser in the collection wraps a well-formed journey, and the
/// collection is small enough for the aggregate sums to stay in range.
pub open spec fn analysers_wf(v: Seq<ResultAnalyser>) -> bool {
    &&& v.len() <= MAX_GROUP
    &&& forall|i: int| 0 <= i < v.len() ==> (#[trigger] v[i]).wf()
}

/// Every journey in the collection has at least one sample.
pub open spec fn all_have_entries(v: Seq<ResultAnalyser>) -> bool {
    forall|i: int| 0 <= i < v.len() ==> (#[trigger] v[i])@.len() > 0
}

/// Sum of the net distances of the first `n` journeys.
pub open spec fn total_distance_sum(v: Seq<ResultAnalyser>, n: int) -> int
    recommends
        n <= v.len(),
    decreases n,
{
    if n <= 0 {
        0
    } else {
        total_distance_sum(v, n - 1) + spec_distance(v[n - 1]@)
    }
}

/// Sum of the driving times of the first `n` journeys, idle periods included.
pub open spec fn total_driving_time_sum(v: Seq<ResultAnalyser>, n: int) -> int
    recommends
        n <= v.len(),
    decreases n,
{
    if n <= 0 {
        0
    } else {
        total_driving_time_sum(v, n - 1) + spec_driving_time(v[n - 1]@)
    }
}

/// Sum of the driving times of the first `n` journeys, idle periods excluded.
pub open spec fn total_pure_driving_time_sum(v: Seq<ResultAnalyser>, n: int) -> int
    recommends
        n <= v.len(),
    decreases n,
{
    if n <= 0 {
        0
    } else {
        total_pure_driving_time_sum(v, n - 1) + pure_time_sum(v[n - 1]@, v[n - 1]@.len() as int)
    }
}

/// Sum over the first `n` journeys of net distance times average speed: the
/// numerator of the group's distance-weighted average speed.
pub open spec fn weighted_group_speed_sum(v: Seq<ResultAnalyser>, n: int) -> int
    recommends
        n <= v.len(),
    decreases n,
{
    if n <= 0 {
        0
    } else {
        weighted_group_speed_sum(v, n - 1) + spec_distance(v[n - 1]@) * spec_average_speed(
            v[n - 1]@,
        )
    }
}

/// The error that computing this journey's average speed yields, if any:
/// `NoEntries` on an empty journey, `ZeroDistance` on a multi-sample journey
/// with zero net distance.
pub open spec fn speed_error_of(a: ResultAnalyser) -> Option<AnalyseError> {
    if a@.len() == 0 {
        Some(AnalyseError::NoEntries)
    } else if a@.len() > 1 && spec_distance(a@) == 0 {
        Some(AnalyseError::ZeroDistance)
    } else {
        None
    }
}

/// The first average-speed error among the journeys from index `i` on, in
/// group order, if any.
pub open spec fn first_speed_error_from(v: Seq<ResultAnalyser>, i: int) -> Option<AnalyseError>
    decreases v.len() - i,
{
    if i < 0 || i >= v.len() {
        None
    } else if speed_error_of(v[i]) is Some {
        speed_error_of(v[i])
    } else {
        first_speed_error_from(v, i + 1)
    }
}

/// If no journey from index `i` on yields an average-speed error, there is no
/// first error from `i` on.
pub proof fn lemma_first_speed_error_none(v: Seq<ResultAnalyser>, i: int)
    requires
        0 <= i <= v.len(),
        forall|k: int| i <= k < v.len() ==> speed_error_of(#[trigger] v[k]) is None,
    ensures
        first_speed_error_from(v, i) is None,
    decreases v.len() - i,
{
    if i < v.len() {
        lemma_first_speed_error_none(v, i + 1);
    }
}

/// If the journeys before index `i` yield no average-speed error and the one
/// at `i` does, that error is the group's first.
pub proof fn lemma_first_speed_error_found(v: Seq<ResultAnalyser>, j: int, i: int)
    requires
        0 <= j <= i < v.len(),
        forall|k: int| j <= k < i ==> speed_error_of(#[trigger] v[k]) is None,
        speed_error_of(v[i]) is Some,
    ensures
        first_speed_error_from(v, j) == speed_error_of(v[i]),
    decreases i - j,
{
    if j < i {
        lemma_first_speed_error_found(v, j + 1, i);
    }
}

/// The distance sum over the first `n` well-formed non-empty journeys is
/// non-negative and at most `n` times the largest admissible position.
pub proof fn lemma_total_distance_sum_in_range(v: Seq<ResultAnalyser>, n: int)
    requires
        analysers_wf(v),
        0 <= n <= v.len(),
        forall|k: int| 0 <= k < n ==> (#[trigger] v[k])@.len() > 0,
    ensures
        0 <= total_distance_sum(v, n) <= n * MAX_POSITION,
    decreases n,
{
    if n > 0 {
        lemma_total_distance_sum_in_range(v, n - 1);
        crate::result_analyser::lemma_distance_in_range(v[n - 1]@);
    }
}

/// The driving-time sum over the first `n` well-formed non-empty journeys is
/// non-negative and at most `n` times the largest admissible timestamp.
pub proof fn lemma_total_driving_time_sum_in_range(v: Seq<ResultAnalyser>, n: int)
    requires
        analysers_wf(v),
        0 <= n <= v.len(),
        forall|k: int| 0 <= k < n ==> (#[trigger] v[k])@.len() > 0,
    ensures
        0 <= total_driving_time_sum(v, n) <= n * MAX_TIMESTAMP,
    decreases n,
{
    if n > 0 {
        lemma_total_driving_time_sum_in_range(v, n - 1);
        crate::result_analyser::lemma_driving_time_in_range(v[n - 1]@);
    }
}

/// The idle-excluded driving-time sum over the first `n` well-formed
/// non-empty journeys is non-negative and at most `n` times the largest
/// admissible timestamp.
pub proof fn lemma_total_pure_driving_time_sum_in_range(v: Seq<ResultAnalyser>, n: int)
    requires
        analysers_wf(v),
        0 <= n <= v.len(),
        forall|k: int| 0 <= k < n ==> (#[trigger] v[k])@.len() > 0,
    ensures
        0 <= total_pure_driving_time_sum(v, n) <= n * MAX_TIMESTAMP,
    decreases n,
{
    if n > 0 {
        lemma_total_pure_driving_time_sum_in_range(v, n - 1);
        let s = v[n - 1]@;
        crate::result_analyser::lemma_pure_time_in_range(s, s.len() as int);
        crate::result_analyser::lemma_driving_time_in_range(s);
    }
}

/// Numerator of the group's distance-weighted average speed: the sum over
/// all journeys of net distance times average speed. Stops at the first
/// journey whose distance or average speed computation fails and hands that
/// error on.
fn group_weighted_speed_sum(analysers: &Vec<ResultAnalyser>) -> (r: Result<u128, AnalyseError>)
    requires
        analysers_wf(analysers@),
    ensures
        match r {
            Ok(w) => first_speed_error_from(analysers@, 0) is None && all_have_entries(analysers@)
                && w == weighted_group_speed_sum(analysers@, analysers@.len() as int) && w <= (
            MAX_SPEED as int) * total_distance_sum(analysers@, analysers@.len() as int),
            Err(e) => first_speed_error_from(analysers@, 0) == Some(e),
        },
{
    let n = analysers.len();
    let mut wsum: u128 = 0;
    let mut i: usize = 0;
    while i < n
        invariant
            n == analysers@.len(),
            analysers_wf(analysers@),
            0 <= i <= n,
            forall|k: int| 0 <= k < i ==> speed_error_of(#[trigger] analysers@[k]) is None,
            wsum == weighted_group_speed_sum(analysers@, i as int),
            wsum <= (MAX_SPEED as int) * total_distance_sum(analysers@, i as int),
            total_distance_sum(analysers@, i as int) <= (i as int) * MAX_POSITION,
        decreases n - i,
    {
        let d = match analysers[i].distance() {
            Ok(d) => d,
            Err(e) => {
                proof {
                    lemma_first_speed_error_found(analysers@, 0, i as int);
                }
                return Err(e);
            },
        };
        let s = match analysers[i].average_speed() {
            Ok(s) => s,
            Err(e) => {
                proof {
                    lemma_first_speed_error_found(analysers@, 0, i as int);
                }
                return Err(e);
            },
        };
        proof {
            let v = analysers@;
            let ii = i as int;
            assert(speed_error_of(v[ii]) is None);
            assert forall|k: int| 0 <= k < ii + 1 implies (#[trigger] v[k])@.len() > 0 by {
                assert(speed_error_of(v[k]) is None);
            }
            lemma_total_distance_sum_in_range(v, ii + 1);
            let dd = spec_distance(v[ii]@);
            let ss = spec_average_speed(v[ii]@);
            let t0 = total_distance_sum(v, ii);
            let t1 = total_distance_sum(v, ii + 1);
            assert(t1 == t0 + dd);
            lemma_mul_upper_bound(dd, MAX_POSITION as int, ss, MAX_SPEED as int);
            lemma_mul_nonnegative(dd, ss);
            assert(wsum + dd * ss <= (MAX_SPEED as int) * t1) by (nonlinear_arith)
                requires
                    0 <= wsum,
                    wsum <= (MAX_SPEED as int) * t0,
                    t1 == t0 + dd,
                    0 <= dd,
                    0 <= ss,
                    ss <= MAX_SPEED as int,
            ;
            assert((MAX_SPEED as int) * t1 <= 0x100_0000_0000_0000_0000_0000) by (nonlinear_arith)
                requires
                    0 <= t1,
                    t1 <= ((ii + 1) as int) * (MAX_POSITION as int),
                    0 <= ii,
                    ii + 1 <= MAX_GROUP as int,
                    MAX_POSITION == 0x4000_0000u64,
                    MAX_SPEED == 0x4000_0000u64,
                    MAX_GROUP == 0x10_0000usize,
            ;
        }
        wsum = wsum + (d as u128) * (s as u128);
        i = i + 1;
    }
    proof {
        lemma_first_speed_error_none(analysers@, 0);
        assert forall|k: int| 0 <= k < analysers@.len() implies (#[trigger] analysers@[k])@.len()
            > 0 by {
            assert(speed_error_of(analysers@[k]) is None);
        }
    }
    Ok(wsum)
}

/// Owns a non-empty collection of analysers and aggregates their metrics,
/// memoizing each aggregate on first successful computation. The analysers
/// are never mutated, so a cached value is always the value a fresh
/// computation would yield.
#[derive(PartialEq, Debug)]
pub struct ResultAnalyserGroup {
    analysers: Vec<ResultAnalyser>,
    cache: AnalyserGroupCache,
}

impl ResultAnalyserGroup {
    /// The analysers of the group, in order.
    pub closed spec fn analysers(&self) -> Seq<ResultAnalyser> {
        self.analysers@
    }

    /// The current cache contents.
    pub closed spec fn cache(&self) -> AnalyserGroupCache {
        self.cache
    }

    /// Every set cache slot holds exactly the value its aggregate computes
    /// from the analysers, and is only set where that computation succeeds.
    pub open spec fn cache_wf(&self) -> bool {
        let v = self.analysers();
        let n = v.len() as int;
        &&& (self.cache().total_distance matches Some(d) ==> all_have_entries(v) && d
            == total_distance_sum(v, n))
        &&& (self.cache().average_distance matches Some(d) ==> all_have_entries(v) && d
            == total_distance_sum(v, n) / n)
        &&& (self.cache().average_speed matches Some(x) ==> first_speed_error_from(v, 0) is None
            && total_distance_sum(v, n) > 0 && x == weighted_group_speed_sum(v, n)
            / total_distance_sum(v, n))
        &&& (self.cache().pure_average_speed matches Some(x) ==> first_speed_error_from(v, 0)
            is None && total_distance_sum(v, n) > 0 && x == weighted_group_speed_sum(v, n)
            / total_distance_sum(v, n))
        &&& (self.cache().total_driving_time matches Some(t) ==> all_have_entries(v) && t
            == total_driving_time_sum(v, n))
        &&& (self.cache().total_pure_driving_time matches Some(t) ==> all_have_entries(v) && t
            == total_pure_driving_time_sum(v, n))
    }

    /// The group invariant: at least one analyser, all of them well formed,
    /// and a coherent cache.
    pub open spec fn wf(&self) -> bool {
        &&& self.analysers().len() >= 1
        &&& analysers_wf(self.analysers())
        &&& self.cache_wf()
    }

    /// Wraps the given analysers with an empty cache. Fails if and only if
    /// the collection is empty.
    pub fn new(analysers: Vec<ResultAnalyser>) -> (r: Result<
        ResultAnalyserGroup,
        CreateAnalyserGroupError,
    >)
        requires
            analysers_wf(analysers@),
        ensures
            match r {
                Ok(g) => analysers@.len() > 0 && g.wf() && g.analysers() == analysers@
                    && g.cache().all_unset(),
                Err(e) => analysers@.len() == 0 && e == CreateAnalyserGroupError::NoAnalysers,
            },
    {
        if analysers.len() == 0 {
            Err(CreateAnalyserGroupError::NoAnalysers)
        } else {
            Ok(ResultAnalyserGroup { analysers, cache: AnalyserGroupCache::new() })
        }
    }

    /// Sum of the net distances of all journeys in the group. The first
    /// failing journey aborts the computation; the result is memoized on
    /// success only, and a repeated call returns the cached value unchanged.
    pub fn total_distance(&mut self) -> (r: Result<u64, AnalyseError>)
        requires
            old(self).wf(),
        ensures
            final(self).wf(),
            final(self).analysers() == old(self).analysers(),
            cache_extends(old(self).cache(), final(self).cache()),
            final(self).cache().average_distance == old(self).cache().average_distance,
            final(self).cache().average_speed == old(self).cache().average_speed,
            final(self).cache().pure_average_speed == old(self).cache().pure_average_speed,
            final(self).cache().total_driving_time == old(self).cache().total_driving_time,
            final(self).cache().total_pure_driving_time == old(
                self,
            ).cache().total_pure_driving_time,
            old(self).cache().total_distance matches Some(v) ==> r == Ok::<u64, AnalyseError>(v)
                && *final(self) == *old(self),
            match r {
                Ok(d) => all_have_entries(old(self).analysers()) && d == total_distance_sum(
                    old(self).analysers(),
                    old(self).analysers().len() as int,
                ) && final(self).cache().total_distance == Some(d),
                Err(e) => !all_have_entries(old(self).analysers()) && e == AnalyseError::NoEntries
                    && *final(self) == *old(self),
            },
    {
        if let Some(value) = self.cache.total_distance {
            return Ok(value);
        }
        let mut total: u64 = 0;
        let mut i: usize = 0;
        let n = self.analysers.len();
        while i < n
            invariant
                *self == *old(self),
                old(self).wf(),
                old(self).cache().total_distance is None,
                n == self.analysers@.len(),
                0 <= i <= n,
                forall|k: int| 0 <= k < i ==> (#[trigger] self.analysers@[k])@.len() > 0,
                total == total_distance_sum(self.analysers@, i as int),
                total <= (i as int) * MAX_POSITION,
            decreases n - i,
        {
            match self.analysers[i].distance() {
                Ok(d) => {
                    proof {
                        lemma_total_distance_sum_in_range(self.analysers@, i + 1);
                    }
                    total = total + d;
                },
                Err(e) => {
                    proof {
                        assert(self.analysers@[i as int]@.len() == 0);
                    }
                    return Err(e);
                },
            }
            i = i + 1;
        }
        self.cache.total_distance = Some(total);
        Ok(total)
    }

    /// Average net distance per journey: the total distance divided by the
    /// number of journeys, which is at least one by construction. Error
    /// propagation and caching as in [`Self::total_distance`].
    pub fn average_distance(&mut self) -> (r: Result<u64, AnalyseError>)
        requires
            old(self).wf(),
        ensures
            final(self).wf(),
            final(self).analysers() == old(self).analysers(),
            cache_extends(old(self).cache(), final(self).cache()),
            final(self).cache().average_speed == old(self).cache().average_speed,
            final(self).cache().pure_average_speed == old(self).cache().pure_average_speed,
            final(self).cache().total_driving_time == old(self).cache().total_driving_time,
            final(self).cache().total_pure_driving_time == old(
                self,
            ).cache().total_pure_driving_time,
            old(self).cache().average_distance matches Some(v) ==> r == Ok::<u64, AnalyseError>(v)
                && *final(self) == *old(self),
            match r {
                Ok(d) => all_have_entries(old(self).analysers()) && d == total_distance_sum(
                    old(self).analysers(),
                    old(self).analysers().len() as int,
                ) / (old(self).analysers().len() as int) && final(self).cache().average_distance
                    == Some(d),
                Err(e) => !all_have_entries(old(self).analysers()) && e == AnalyseError::NoEntries
                    && *final(self) == *old(self),
            },
    {
        if let Some(value) = self.cache.average_distance {
            return Ok(value);
        }
        let total = match self.total_distance() {
            Ok(t) => t,
            Err(e) => {
                return Err(e);
            },
        };
        let count = self.analysers.len();
        let avg = total / (count as u64);
        self.cache.average_distance = Some(avg);
        Ok(avg)
    }

    /// Distance-weighted mean of the journeys' average speeds, idle periods
    /// included: the sum of net distance times average speed over all
    /// journeys, divided by the total distance. The first failing journey
    /// aborts the computation with its error, in group order; a group whose
    /// journeys all succeed but cover no distance at all fails with
    /// `ZeroDistance`. The result is memoized on success only.
    pub fn average_speed(&mut self) -> (r: Result<u64, AnalyseError>)
        requires
            old(self).wf(),
        ensures
            final(self).wf(),
            final(self).analysers() == old(self).analysers(),
            cache_extends(old(self).cache(), final(self).cache()),
            final(self).cache().average_distance == old(self).cache().average_distance,
            final(self).cache().pure_average_speed == old(self).cache().pure_average_speed,
            final(self).cache().total_driving_time == old(self).cache().total_driving_time,
            final(self).cache().total_pure_driving_time == old(
                self,
            ).cache().total_pure_driving_time,
            old(self).cache().average_speed matches Some(v) ==> r == Ok::<u64, AnalyseError>(v)
                && *final(self) == *old(self),
            first_speed_error_from(old(self).analysers(), 0) matches Some(e0) ==> r == Err::<
                u64,
                AnalyseError,
            >(e0) && *final(self) == *old(self),
            match r {
                Ok(x) => first_speed_error_from(old(self).analysers(), 0) is None
                    && total_distance_sum(
                    old(self).analysers(),
                    old(self).analysers().len() as int,
                ) > 0 && x == weighted_group_speed_sum(
                    old(self).analysers(),
                    old(self).analysers().len() as int,
                ) / total_distance_sum(old(self).analysers(), old(self).analysers().len() as int)
                    && final(self).cache().average_speed == Some(x),
                Err(e) => final(self).cache().average_speed == old(self).cache().average_speed && (
                first_speed_error_from(old(self).analysers(), 0) == Some(e) || (
                first_speed_error_from(old(self).analysers(), 0) is None && total_distance_sum(
                    old(self).analysers(),
                    old(self).analysers().len() as int,
                ) == 0 && e == AnalyseError::ZeroDistance)),
            },
    {
        if let Some(value) = self.cache.average_speed {
            return Ok(value);
        }
        let wsum = match group_weighted_speed_sum(&self.analysers) {
            Ok(w) => w,
            Err(e) => {
                return Err(e);
            },
        };
        let total = match self.total_distance() {
            Ok(t) => t,
            Err(e) => {
                return Err(e);
            },
        };
        if total == 0 {
            return Err(AnalyseError::ZeroDistance);
        }
        proof {
            let v = old(self).analysers();
            let n = v.len() as int;
            let w = weighted_group_speed_sum(v, n);
            let t = total_distance_sum(v, n);
            lemma_div_pos_is_pos(w, t);
            lemma_div_is_ordered(w, t * (MAX_SPEED as int), t);
            lemma_div_multiples_vanish(MAX_SPEED as int, t);
        }
        let x = (wsum / (total as u128)) as u64;
        self.cache.average_speed = Some(x);
        Ok(x)
    }

    /// Distance-weighted mean of the journeys' movement-only average speeds.
    /// Each journey's value is the same distance-weighted integral as in
    /// [`Self::average_speed`] — an idle stretch covers no distance, so it
    /// carries no weight — and so is the group's mean; only the cache slot is
    /// its own. Failure conditions as in [`Self::average_speed`].
    pub fn pure_average_speed(&mut self) -> (r: Result<u64, AnalyseError>)
        requires
            old(self).wf(),
        ensures
            final(self).wf(),
            final(self).analysers() == old(self).analysers(),
            cache_extends(old(self).cache(), final(self).cache()),
            final(self).cache().average_distance == old(self).cache().average_distance,
            final(self).cache().average_speed == old(self).cache().average_speed,
            final(self).cache().total_driving_time == old(self).cache().total_driving_time,
            final(self).cache().total_pure_driving_time == old(
                self,
            ).cache().total_pure_driving_time,
            old(self).cache().pure_average_speed matches Some(v) ==> r == Ok::<u64, AnalyseError>(
                v,
            ) && *final(self) == *old(self),
            first_speed_error_from(old(self).analysers(), 0) matches Some(e0) ==> r == Err::<
                u64,
                AnalyseError,
            >(e0) && *final(self) == *old(self),
            match r {
                Ok(x) => first_speed_error_from(old(self).analysers(), 0) is None
                    && total_distance_sum(
                    old(self).analysers(),
                    old(self).analysers().len() as int,
                ) > 0 && x == weighted_group_speed_sum(
                    old(self).analysers(),
                    old(self).analysers().len() as int,
                ) / total_distance_sum(old(self).analysers(), old(self).analysers().len() as int)
                    && final(self).cache().pure_average_speed == Some(x),
                Err(e) => final(self).cache().pure_average_speed == old(
                    self,
                ).cache().pure_average_speed && (first_speed_error_from(old(self).analysers(), 0)
                    == Some(e) || (first_speed_error_from(old(self).analysers(), 0) is None
                    && total_distance_sum(
                    old(self).analysers(),
                    old(self).analysers().len() as int,
                ) == 0 && e == AnalyseError::ZeroDistance)),
            },
    {
        if let Some(value) = self.cache.pure_average_speed {
            return Ok(value);
        }
        let wsum = match group_weighted_speed_sum(&self.analysers) {
            Ok(w) => w,
            Err(e) => {
                return Err(e);
            },
        };
        let total = match self.total_distance() {
            Ok(t) => t,
            Err(e) => {
                return Err(e);
            },
        };
        if total == 0 {
            return Err(AnalyseError::ZeroDistance);
        }
        proof {
            let v = old(self).analysers();
            let n = v.len() as int;
            let w = weighted_group_speed_sum(v, n);
            let t = total_distance_sum(v, n);
            lemma_div_pos_is_pos(w, t);
            lemma_div_is_ordered(w, t * (MAX_SPEED as int), t);
            lemma_div_multiples_vanish(MAX_SPEED as int, t);
        }
        let x = (wsum / (total as u128)) as u64;
        self.cache.pure_average_speed = Some(x);
        Ok(x)
    }

    /// Sum of the driving times of all journeys in the group, idle periods
    /// included. Error propagation and caching as in
    /// [`Self::total_distance`].
    pub fn total_driving_time(&mut self) -> (r: Result<u64, AnalyseError>)
        requires
            old(self).wf(),
        ensures
            final(self).wf(),
            final(self).analysers() == old(self).analysers(),
            cache_extends(old(self).cache(), final(self).cache()),
            final(self).cache().total_distance == old(self).cache().total_distance,
            final(self).cache().average_distance == old(self).cache().average_distance,
            final(self).cache().average_speed == old(self).cache().average_speed,
            final(self).cache().pure_average_speed == old(self).cache().pure_average_speed,
            final(self).cache().total_pure_driving_time == old(
                self,
            ).cache().total_pure_driving_time,
            old(self).cache().total_driving_time matches Some(v) ==> r == Ok::<u64, AnalyseError>(
                v,
            ) && *final(self) == *old(self),
            match r {
                Ok(t) => all_have_entries(old(self).analysers()) && t == total_driving_time_sum(
                    old(self).analysers(),
                    old(self).analysers().len() as int,
                ) && final(self).cache().total_driving_time == Some(t),
                Err(e) => !all_have_entries(old(self).analysers()) && e == AnalyseError::NoEntries
                    && *final(self) == *old(self),
            },
    {
        if let Some(value) = self.cache.total_driving_time {
            return Ok(value);
        }
        let mut total: u64 = 0;
        let mut i: usize = 0;
        let n = self.analysers.len();
        while i < n
            invariant
                *self == *old(self),
                old(self).wf(),
                old(self).cache().total_driving_time is None,
                n == self.analysers@.len(),
                0 <= i <= n,
                forall|k: int| 0 <= k < i ==> (#[trigger] self.analysers@[k])@.len() > 0,
                total == total_driving_time_sum(self.analysers@, i as int),
                total <= (i as int) * MAX_TIMESTAMP,
            decreases n - i,
        {
            match self.analysers[i].driving_time() {
                Ok(t) => {
                    proof {
                        lemma_total_driving_time_sum_in_range(self.analysers@, i + 1);
                    }
                    total = total + t;
                },
                Err(e) => {
                    proof {
                        assert(self.analysers@[i as int]@.len() == 0);
                    }
                    return Err(e);
                },
            }
            i = i + 1;
        }
        self.cache.total_driving_time = Some(total);
        Ok(total)
    }

    /// Sum of the driving times of all journeys in the group, idle periods
    /// excluded. Error propagation and caching as in
    /// [`Self::total_distance`].
    pub fn total_pure_driving_time(&mut self) -> (r: Result<u64, AnalyseError>)
        requires
            old(self).wf(),
        ensures
            final(self).wf(),
            final(self).analysers() == old(self).analysers(),
            cache_extends(old(self).cache(), final(self).cache()),
            final(self).cache().total_distance == old(self).cache().total_distance,
            final(self).cache().average_distance == old(self).cache().average_distance,
            final(self).cache().average_speed == old(self).cache().average_speed,
            final(self).cache().pure_average_speed == old(self).cache().pure_average_speed,
            final(self).cache().total_driving_time == old(self).cache().total_driving_time,
            old(self).cache().total_pure_driving_time matches Some(v) ==> r == Ok::<
                u64,
                AnalyseError,
            >(v) && *final(self) == *old(self),
            match r {
                Ok(t) => all_have_entries(old(self).analysers()) && t
                    == total_pure_driving_time_sum(
                    old(self).analysers(),
                    old(self).analysers().len() as int,
                ) && final(self).cache().total_pure_driving_time == Some(t),
                Err(e) => !all_have_entries(old(self).analysers()) && e == AnalyseError::NoEntries
                    && *final(self) == *old(self),
            },
    {
        if let Some(value) = self.cache.total_pure_driving_time {
            return Ok(value);
        }
        let mut total: u64 = 0;
        let mut i: usize = 0;
        let n = self.analysers.len();
        while i < n
            invariant
                *self == *old(self),
                old(self).wf(),
                old(self).cache().total_pure_driving_time is None,
                n == self.analysers@.len(),
                0 <= i <= n,
                forall|k: int| 0 <= k < i ==> (#[trigger] self.analysers@[k])@.len() > 0,
                total == total_pure_driving_time_sum(self.analysers@, i as int),
                total <= (i as int) * MAX_TIMESTAMP,
            decreases n - i,
        {
            match self.analysers[i].pure_driving_time() {
                Ok(t) => {
                    proof {
                        lemma_total_pure_driving_time_sum_in_range(self.analysers@, i + 1);
                    }
                    total = total + t;
                },
                Err(e) => {
                    proof {
                        assert(self.analysers@[i as int]@.len() == 0);
                    }
                    return Err(e);
                },
            }
            i = i + 1;
        }
        self.cache.total_pure_driving_time = Some(total);
        Ok(total)
    }
}

} // verus!
