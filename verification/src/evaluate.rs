use crate::allocation::{
    is_valid_allocation, plan, small_get, small_len, SessionAllocation, MAX_TUTORS_PER_SESSION,
};
use crate::cost::{
    applicant_hours, cost_of_weeks, evaluates_to, feasible, largest_staffing, lemma_week_sessions,
    lists_week, occurrences, rating, session_preference, smallest_staffing, week_cost, week_hours,
    week_possible, week_preference, week_sessions, week_within_caps,
};
use crate::solver::{lemma_distinct_weeks_are_few, week_desired, Solver, MAX_SESSIONS, MAX_WEEKS};
use crate::types::{Availability, WeekNum};
use vstd::prelude::*;

verus! {

/// A bound on the hours one applicant can work in one week.
pub const HOURS_LIMIT: u64 = 0xFFFF_FFFF_FFFF;

/// A bound on the cost of one week.
pub const WEEK_COST_LIMIT: u64 = 0xF_FFFF_FFFF_FFFF;

/// A list of ascending indexes below `bound` has at most `bound` entries.
pub proof fn lemma_ascending_is_short(indexes: Seq<usize>, bound: nat)
    requires
        forall|i: int, j: int| 0 <= i < j < indexes.len() ==> indexes[i] < indexes[j],
        forall|i: int| 0 <= i < indexes.len() ==> (#[trigger] indexes[i]) < bound,
    ensures
        indexes.len() <= bound,
{
    assert forall|i: int| 0 <= i < indexes.len() implies (#[trigger] indexes[i]) >= i by {
        lemma_ascending_dominates(indexes, i);
    }
    if indexes.len() > 0 {
        assert(indexes[indexes.len() - 1] >= indexes.len() - 1);
    }
}

/// In a list of ascending indexes each entry is at least its place.
proof fn lemma_ascending_dominates(indexes: Seq<usize>, i: int)
    requires
        forall|i: int, j: int| 0 <= i < j < indexes.len() ==> indexes[i] < indexes[j],
        0 <= i < indexes.len(),
    ensures
        indexes[i] >= i,
    decreases i,
{
    if i > 0 {
        lemma_ascending_dominates(indexes, i - 1);
    }
}

/// A vector of `count` zeros.
fn zeros(count: usize) -> (v: Vec<u64>)
    ensures
        v@.len() == count,
        forall|i: int| 0 <= i < count ==> (#[trigger] v@[i]) == 0,
{
    let mut v: Vec<u64> = Vec::new();
    let mut i: usize = 0;
    while i < count
        invariant
            i <= count,
            v@.len() == i,
            forall|k: int| 0 <= k < i ==> (#[trigger] v@[k]) == 0,
        decreases count - i,
    {
        v.push(0);
        i += 1;
    }
    v
}

impl<'a> Solver<'a> {
    /// Goes through the applicants of one session: sums their preference
    /// costs and adds the session's length to the hours of each. Gives
    /// nothing as soon as one of them rated the session impossible.
    fn add_session(
        &self,
        s: usize,
        record: &SessionAllocation,
        hours: &mut Vec<u64>,
    ) -> (preference: Option<u64>)
        requires
            self.wf(),
            s < self.sessions@.len(),
            record@.len() <= MAX_TUTORS_PER_SESSION,
            forall|k: int|
                0 <= k < record@.len() ==> (#[trigger] record@[k]) < self.applicants@.len(),
            old(hours)@.len() == self.applicants@.len(),
            forall|a: int|
                0 <= a < old(hours)@.len() ==> (#[trigger] old(hours)@[a]) <= HOURS_LIMIT,
        ensures
            final(hours)@.len() == old(hours)@.len(),
            preference is Some <==> forall|k: int|
                0 <= k < record@.len() ==> rating(
                    self.pool(),
                    #[trigger] record@[k] as int,
                    s as int,
                ) != Availability::Impossible,
            preference matches Some(p) ==> {
                &&& p == session_preference(self.pool(), s as int, record@)
                &&& p <= 100 * record@.len()
                &&& forall|a: int|
                    0 <= a < old(hours)@.len() ==> (#[trigger] final(hours)@[a]) == old(hours)@[a]
                        + self.sessions@[s as int].length_hours as nat * occurrences(record@, a)
                &&& forall|a: int|
                    0 <= a < old(hours)@.len() ==> (#[trigger] final(hours)@[a])
                        <= old(hours)@[a] + 255 * record@.len()
            },
    {
        let length = self.sessions[s].length_hours;
        let count = small_len(record);
        let mut preference: u64 = 0;
        let mut k: usize = 0;
        proof {
            assert(record@.take(0).len() == 0);
            assert forall|a: int| 0 <= a < hours@.len() implies length as nat * occurrences(
                record@.take(0),
                a,
            ) == 0 by {
                assert(occurrences(record@.take(0), a) == 0);
            }
        }
        while k < count
            invariant
                self.wf(),
                s < self.sessions@.len(),
                length == self.sessions@[s as int].length_hours,
                count == record@.len(),
                count <= MAX_TUTORS_PER_SESSION,
                k <= count,
                forall|j: int|
                    0 <= j < record@.len() ==> (#[trigger] record@[j]) < self.applicants@.len(),
                hours@.len() == self.applicants@.len(),
                hours@.len() == old(hours)@.len(),
                forall|a: int|
                0 <= a < old(hours)@.len() ==> (#[trigger] old(hours)@[a]) <= HOURS_LIMIT,
                preference == session_preference(self.pool(), s as int, record@.take(k as int)),
                preference <= 100 * k,
                forall|j: int|
                    0 <= j < k ==> rating(self.pool(), #[trigger] record@[j] as int, s as int)
                        != Availability::Impossible,
                forall|a: int|
                    0 <= a < hours@.len() ==> (#[trigger] hours@[a]) == old(hours)@[a]
                        + length as nat * occurrences(record@.take(k as int), a),
                forall|a: int|
                    0 <= a < hours@.len() ==> (#[trigger] hours@[a]) <= old(hours)@[a] + 255 * k,
            decreases count - k,
        {
            let applicant = small_get(record, k);
            assert(applicant == record@[k as int]);
            proof {
                assert(record@.take(k + 1).drop_last() =~= record@.take(k as int));
                assert(record@.take(k + 1).last() == applicant);
            }
            let rated = self.applicants[applicant as usize].availabilities[s];
            assert(rated == rating(self.pool(), record@[k as int] as int, s as int));
            let step: u64 = match rated {
                Availability::Impossible => {
                    return None;
                },
                Availability::Dislike => 100,
                Availability::Possible => 5,
                Availability::Preferred => 0,
            };
            preference += step;
            let worked = hours[applicant as usize];
            hours.set(applicant as usize, worked + length as u64);
            proof {
                assert forall|a: int| 0 <= a < hours@.len() implies (#[trigger] hours@[a])
                    == old(hours)@[a] + length as nat * occurrences(record@.take(k + 1), a) by {
                    let prior = occurrences(record@.take(k as int), a);
                    if a == applicant {
                        assert(length as nat * (prior + 1) == length as nat * prior + length as nat)
                            by (nonlinear_arith);
                    }
                }
            }
            k += 1;
        }
        proof {
            assert(record@.take(count as int) =~= record@);
        }
        Some(preference)
    }

    /// Evaluates one week: nothing where a hard constraint is violated in
    /// it, else the week's cost.
    fn eval_week(&self, w: usize, allocations: &[SessionAllocation]) -> (cost: Option<u64>)
        requires
            self.wf(),
            self.admits(plan(allocations@)),
            w < self.weeks@.len(),
        ensures
            cost is Some <==> week_possible(
                self.pool(),
                plan(allocations@),
                self.weeks@[w as int].session_indexes@,
            ) && week_within_caps(
                self.sessions@,
                self.pool(),
                plan(allocations@),
                self.weeks@[w as int].session_indexes@,
            ),
            cost matches Some(c) ==> c == week_cost(
                self.sessions@,
                self.pool(),
                plan(allocations@),
                self.weeks@[w as int].desired_total_hours as nat,
                self.weeks@[w as int].session_indexes@,
            ) && c <= WEEK_COST_LIMIT,
    {
        let week = &self.weeks[w];
        let ghost indexes = week.session_indexes@;
        let ghost p = plan(allocations@);
        proof {
            lemma_week_sessions(self.sessions@, week.week);
            lemma_ascending_is_short(indexes, self.sessions@.len());
            assert(indexes.take(0).len() == 0);
        }
        let mut hours = zeros(self.applicants.len());
        let mut preference: u64 = 0;
        let mut effective: u64 = 0;
        let mut smallest: usize = MAX_TUTORS_PER_SESSION;
        let mut largest: usize = 0;
        let mut i: usize = 0;
        while i < week.session_indexes.len()
            invariant
                self.wf(),
                self.admits(p),
                p == plan(allocations@),
                w < self.weeks@.len(),
                indexes == self.weeks@[w as int].session_indexes@,
                indexes == week.session_indexes@,
                lists_week(self.sessions@, week.week, indexes),
                indexes.len() <= MAX_SESSIONS,
                i <= indexes.len(),
                hours@.len() == self.applicants@.len(),
                preference == week_preference(self.pool(), p, indexes.take(i as int)),
                preference <= 500 * i,
                effective == week_hours(self.sessions@, p, indexes.take(i as int)),
                effective <= 1275 * i,
                smallest == smallest_staffing(p, indexes.take(i as int)),
                largest == largest_staffing(p, indexes.take(i as int)),
                1 <= smallest <= MAX_TUTORS_PER_SESSION,
                largest <= MAX_TUTORS_PER_SESSION,
                forall|a: int|
                    0 <= a < hours@.len() ==> (#[trigger] hours@[a]) == applicant_hours(
                        self.sessions@,
                        p,
                        indexes.take(i as int),
                        a,
                    ),
                forall|a: int| 0 <= a < hours@.len() ==> (#[trigger] hours@[a]) <= 1275 * i,
                week_possible(self.pool(), p, indexes.take(i as int)),
            decreases indexes.len() - i,
        {
            let s = week.session_indexes[i];
            let ghost done = indexes.take(i as int);
            let ghost next = indexes.take(i + 1);
            proof {
                assert(next.drop_last() =~= done);
                assert(next.last() == s);
                assert(indexes[i as int] < self.sessions@.len());
                assert(p[s as int] == allocations@[s as int]@);
                assert(p[s as int].len() <= MAX_TUTORS_PER_SESSION);
                assert forall|k: int| 0 <= k < p[s as int].len() implies (#[trigger] p[s as int][k])
                    < self.applicants@.len() by {}
            }
            let record = &allocations[s];
            let size = small_len(record);
            let length = self.sessions[s].length_hours;
            assert(length as nat * size as nat <= 1275) by (nonlinear_arith)
                requires
                    length <= 255,
                    size <= 5,
            ;
            effective += (length as u64) * (size as u64);
            match self.add_session(s, record, &mut hours) {
                None => {
                    proof {
                        let k = choose|k: int|
                            0 <= k < record@.len() && rating(
                                self.pool(),
                                #[trigger] record@[k] as int,
                                s as int,
                            ) == Availability::Impossible;
                        assert(p[indexes[i as int] as int][k] == record@[k]);
                    }
                    return None;
                },
                Some(added) => {
                    preference += added;
                },
            }
            if size > 0 {
                if size < smallest {
                    smallest = size;
                }
                if size > largest {
                    largest = size;
                }
            }
            proof {
                assert forall|j: int, k: int|
                    0 <= j < next.len() && 0 <= k < p[next[j] as int].len() implies rating(
                    self.pool(),
                    #[trigger] p[next[j] as int][k] as int,
                    next[j] as int,
                ) != Availability::Impossible by {
                    if j < i {
                        assert(next[j] == done[j]);
                        assert(rating(self.pool(), p[done[j] as int][k] as int, done[j] as int)
                            != Availability::Impossible);
                    } else {
                        assert(p[next[j] as int][k] == record@[k]);
                    }
                }
            }
            i += 1;
        }
        proof {
            assert(indexes.take(i as int) =~= indexes);
        }
        let mut a: usize = 0;
        while a < self.applicants.len()
            invariant
                w < self.weeks@.len(),
                p == plan(allocations@),
                indexes == self.weeks@[w as int].session_indexes@,
                a <= self.applicants@.len(),
                hours@.len() == self.applicants@.len(),
                forall|b: int|
                    0 <= b < hours@.len() ==> (#[trigger] hours@[b]) == applicant_hours(
                        self.sessions@,
                        p,
                        indexes,
                        b,
                    ),
                forall|b: int|
                    0 <= b < a ==> #[trigger] applicant_hours(self.sessions@, p, indexes, b)
                        <= self.applicants@[b].max_hours_per_week,
            decreases self.applicants@.len() - a,
        {
            if hours[a] > self.applicants[a].max_hours_per_week as u64 {
                assert(applicant_hours(self.sessions@, p, indexes, a as int)
                    > self.applicants@[a as int].max_hours_per_week);
                return None;
            }
            a += 1;
        }
        let desired = week.desired_total_hours as u64;
        let mut cost = preference;
        if effective < desired {
            let missing = desired - effective;
            assert(missing * missing <= 65535 * 65535) by (nonlinear_arith)
                requires
                    missing <= 65535,
            ;
            cost += 20 * (missing * missing);
        } else {
            cost += 200 * (effective - desired);
        }
        if largest > smallest + 1 {
            cost += 50 * ((largest - smallest) as u64);
        }
        Some(cost)
    }

    /// Evaluates an allocation: nothing where it violates a hard constraint,
    /// else its cost.
    pub fn eval_allocation(&self, allocations: &[SessionAllocation]) -> (cost: Option<u64>)
        requires
            self.wf(),
            self.admits(plan(allocations@)),
        ensures
            cost is Some <==> feasible(self.sessions@, self.pool(), plan(allocations@)),
            evaluates_to(self.sessions@, self.pool(), self.desired(), plan(allocations@), cost),
    {
        let ghost p = plan(allocations@);
        let mut total: u64 = 0;
        let mut w: usize = 0;
        proof {
            lemma_distinct_weeks_are_few(self.desired());
        }
        while w < self.weeks.len()
            invariant
                self.wf(),
                self.admits(p),
                p == plan(allocations@),
                w <= self.weeks@.len(),
                self.weeks@.len() <= MAX_WEEKS,
                total == cost_of_weeks(self.sessions@, self.pool(), self.desired(), p, w as nat),
                total <= WEEK_COST_LIMIT * w,
                forall|v: int|
                    0 <= v < w ==> week_possible(
                        self.pool(),
                        p,
                        (#[trigger] self.weeks@[v]).session_indexes@,
                    ) && week_within_caps(
                        self.sessions@,
                        self.pool(),
                        p,
                        self.weeks@[v].session_indexes@,
                    ),
            decreases self.weeks@.len() - w,
        {
            match self.eval_week(w, allocations) {
                None => {
                    proof {
                        self.lemma_feasible_by_week(p);
                        assert(!(week_possible(
                            self.pool(),
                            p,
                            self.weeks@[w as int].session_indexes@,
                        ) && week_within_caps(
                            self.sessions@,
                            self.pool(),
                            p,
                            self.weeks@[w as int].session_indexes@,
                        )));
                    }
                    return None;
                },
                Some(cost) => {
                    assert(self.desired()[w as int] == (
                        self.weeks@[w as int].week,
                        self.weeks@[w as int].desired_total_hours,
                    ));
                    total += cost;
                },
            }
            w += 1;
        }
        proof {
            self.lemma_feasible_by_week(p);
        }
        Some(total)
    }

    /// Whether the records are an allocation state for this solver.
    pub fn fits(&self, allocations: &[SessionAllocation]) -> (ok: bool)
        ensures
            ok == self.admits(plan(allocations@)),
    {
        is_valid_allocation(allocations, self.sessions.len(), self.applicants.len())
    }

    /// An allocation is feasible exactly when every week of the solver
    /// passes both hard constraints: the weeks cover all sessions.
    pub proof fn lemma_feasible_by_week(&self, p: Seq<Seq<u16>>)
        requires
            self.wf(),
            self.admits(p),
        ensures
            feasible(self.sessions@, self.pool(), p) <==> forall|w: int|
                0 <= w < self.weeks@.len() ==> week_possible(
                    self.pool(),
                    p,
                    (#[trigger] self.weeks@[w]).session_indexes@,
                ) && week_within_caps(
                    self.sessions@,
                    self.pool(),
                    p,
                    self.weeks@[w].session_indexes@,
                ),
    {
        let by_week = forall|w: int|
            0 <= w < self.weeks@.len() ==> week_possible(
                self.pool(),
                p,
                (#[trigger] self.weeks@[w]).session_indexes@,
            ) && week_within_caps(
                self.sessions@,
                self.pool(),
                p,
                self.weeks@[w].session_indexes@,
            );
        if feasible(self.sessions@, self.pool(), p) {
            assert forall|w: int| 0 <= w < self.weeks@.len() implies week_possible(
                self.pool(),
                p,
                (#[trigger] self.weeks@[w]).session_indexes@,
            ) && week_within_caps(
                self.sessions@,
                self.pool(),
                p,
                self.weeks@[w].session_indexes@,
            ) by {
                let indexes = self.weeks@[w].session_indexes@;
                lemma_week_sessions(self.sessions@, self.weeks@[w].week);
                assert(week_within_caps(
                    self.sessions@,
                    self.pool(),
                    p,
                    week_sessions(self.sessions@, self.weeks@[w].week),
                ));
                assert forall|i: int, k: int|
                    0 <= i < indexes.len() && 0 <= k < p[indexes[i] as int].len() implies rating(
                    self.pool(),
                    #[trigger] p[indexes[i] as int][k] as int,
                    indexes[i] as int,
                ) != Availability::Impossible by {
                    assert(indexes[i] < self.sessions@.len());
                }
            }
        }
        if by_week {
            assert forall|s: int, k: int| 0 <= s < p.len() && 0 <= k < p[s].len() implies rating(
                self.pool(),
                #[trigger] p[s][k] as int,
                s,
            ) != Availability::Impossible by {
                assert(week_desired(self.desired(), self.sessions@[s].week));
                let w = choose|w: int|
                    0 <= w < self.desired().len() && (#[trigger] self.desired()[w]).0
                        == self.sessions@[s].week;
                let indexes = self.weeks@[w].session_indexes@;
                lemma_week_sessions(self.sessions@, self.weeks@[w].week);
                assert(indexes.contains(s as usize));
                let i = choose|i: int| 0 <= i < indexes.len() && indexes[i] == s as usize;
                assert(week_possible(self.pool(), p, indexes));
                assert(p[indexes[i] as int][k] == p[s][k]);
            }
            assert forall|week: WeekNum| #[trigger]
                week_within_caps(
                    self.sessions@,
                    self.pool(),
                    p,
                    week_sessions(self.sessions@, week),
                ) by {
                let indexes = week_sessions(self.sessions@, week);
                lemma_week_sessions(self.sessions@, week);
                if indexes.len() > 0 {
                    let s = indexes[0];
                    assert(self.sessions@[s as int].week == week);
                    assert(week_desired(self.desired(), self.sessions@[s as int].week));
                    let w = choose|w: int|
                        0 <= w < self.desired().len() && (#[trigger] self.desired()[w]).0 == week;
                    assert(self.weeks@[w].session_indexes@ == indexes);
                } else {
                    assert forall|a: int| 0 <= a < self.applicants@.len() implies applicant_hours(
                        self.sessions@,
                        p,
                        indexes,
                        a,
                    ) == 0 by {}
                }
            }
        }
    }
}

} // verus!
