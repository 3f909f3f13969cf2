use crate::cost::{lemma_week_sessions, week_sessions};
use crate::solver::{
    lemma_distinct_weeks_are_few, ratings_complete, week_desired, week_occurs, weeks_match, Solver,
    Week, MAX_APPLICANTS, MAX_SESSIONS, MAX_WEEKS,
};
use crate::types::{pool_of, Applicant, ApplicantView, Session, WeekNum};
use vstd::prelude::*;

verus! {

/// Why the input to a search is refused.
#[derive(Clone, Copy, Debug, PartialEq, Eq, Structural)]
pub enum InputError {
    /// There are more sessions than `MAX_SESSIONS`.
    TooManySessions,
    /// There are more applicants than `MAX_APPLICANTS`.
    TooManyApplicants,
    /// Some applicant does not rate each session exactly once.
    AvailabilityMismatch,
    /// The weeks of the desired hours are not those of the sessions.
    WeekMismatch,
}

/// The reason for which the input is refused, if it is: the first that
/// applies, in the order of the variants.
pub open spec fn input_error(
    applicants: Seq<ApplicantView>,
    sessions: Seq<Session>,
    desired: Seq<(WeekNum, u16)>,
) -> Option<InputError> {
    if sessions.len() > MAX_SESSIONS {
        Some(InputError::TooManySessions)
    } else if applicants.len() > MAX_APPLICANTS {
        Some(InputError::TooManyApplicants)
    } else if !ratings_complete(applicants, sessions) {
        Some(InputError::AvailabilityMismatch)
    } else if !weeks_match(sessions, desired) {
        Some(InputError::WeekMismatch)
    } else {
        None
    }
}

/// Whether every applicant has one rating for each session.
fn check_ratings(applicants: &[Applicant], sessions: &[Session]) -> (complete: bool)
    ensures
        complete == ratings_complete(pool_of(applicants@), sessions@),
{
    let mut a: usize = 0;
    while a < applicants.len()
        invariant
            a <= applicants@.len(),
            forall|b: int|
                0 <= b < a ==> (#[trigger] pool_of(applicants@)[b]).availabilities.len()
                    == sessions@.len(),
        decreases applicants@.len() - a,
    {
        if applicants[a].availabilities.len() != sessions.len() {
            assert(pool_of(applicants@)[a as int].availabilities.len() != sessions@.len());
            return false;
        }
        a += 1;
    }
    true
}

/// Whether no two entries of the desired hours are for the same week.
fn check_distinct(desired: &[(WeekNum, u16)]) -> (distinct: bool)
    ensures
        distinct == forall|i: int, j: int|
            0 <= i < j < desired@.len() ==> desired@[i].0 != desired@[j].0,
{
    let mut j: usize = 0;
    while j < desired.len()
        invariant
            j <= desired@.len(),
            forall|h: int, k: int| 0 <= h < k < j ==> desired@[h].0 != desired@[k].0,
        decreases desired@.len() - j,
    {
        let mut i: usize = 0;
        while i < j
            invariant
                i <= j < desired@.len(),
                forall|h: int| 0 <= h < i ==> desired@[h].0 != desired@[j as int].0,
            decreases j - i,
        {
            if desired[i].0.0 == desired[j].0.0 {
                return false;
            }
            i += 1;
        }
        j += 1;
    }
    true
}

/// The indexes of the sessions of week `week`, in ascending order.
fn sessions_of_week(sessions: &[Session], week: WeekNum) -> (indexes: Vec<usize>)
    ensures
        indexes@ == week_sessions(sessions@, week),
{
    let mut indexes: Vec<usize> = Vec::new();
    let mut s: usize = 0;
    assert(sessions@.take(0).len() == 0);
    while s < sessions.len()
        invariant
            s <= sessions@.len(),
            indexes@ == week_sessions(sessions@.take(s as int), week),
        decreases sessions@.len() - s,
    {
        proof {
            assert(sessions@.take(s + 1).drop_last() =~= sessions@.take(s as int));
            assert(sessions@.take(s + 1).last() == sessions@[s as int]);
        }
        if sessions[s].week.0 == week.0 {
            indexes.push(s);
        }
        s += 1;
    }
    assert(sessions@.take(s as int) =~= sessions@);
    indexes
}

/// Whether some entry of the desired hours is for week `week`.
fn find_week(desired: &[(WeekNum, u16)], week: WeekNum) -> (found: bool)
    ensures
        found == week_desired(desired@, week),
{
    let mut i: usize = 0;
    while i < desired.len()
        invariant
            i <= desired@.len(),
            forall|h: int| 0 <= h < i ==> (#[trigger] desired@[h]).0 != week,
        decreases desired@.len() - i,
    {
        if desired[i].0.0 == week.0 {
            return true;
        }
        i += 1;
    }
    false
}

impl<'a> Solver<'a> {
    /// Groups the sessions by week and checks the input. The weeks come in
    /// the order of the desired hours.
    pub fn new(
        applicants: &'a [Applicant],
        sessions: &'a [Session],
        desired_hours: &[(WeekNum, u16)],
    ) -> (made: Result<Solver<'a>, InputError>)
        ensures
            match made {
                Ok(solver) => {
                    &&& input_error(pool_of(applicants@), sessions@, desired_hours@) is None
                    &&& solver.wf()
                    &&& solver.sessions@ == sessions@
                    &&& solver.applicants@ == applicants@
                    &&& solver.pool() == pool_of(applicants@)
                    &&& solver.desired() == desired_hours@
                },
                Err(error) => input_error(pool_of(applicants@), sessions@, desired_hours@) == Some(
                    error,
                ),
            },
    {
        if sessions.len() > MAX_SESSIONS {
            return Err(InputError::TooManySessions);
        }
        if applicants.len() > MAX_APPLICANTS {
            return Err(InputError::TooManyApplicants);
        }
        if !check_ratings(applicants, sessions) {
            return Err(InputError::AvailabilityMismatch);
        }
        if desired_hours.len() > MAX_WEEKS || !check_distinct(desired_hours) {
            proof {
                if weeks_match(sessions@, desired_hours@) {
                    lemma_distinct_weeks_are_few(desired_hours@);
                }
            }
            return Err(InputError::WeekMismatch);
        }
        let mut weeks: Vec<Week> = Vec::new();
        let mut w: usize = 0;
        while w < desired_hours.len()
            invariant
                sessions@.len() <= MAX_SESSIONS,
                applicants@.len() <= MAX_APPLICANTS,
                ratings_complete(pool_of(applicants@), sessions@),
                w <= desired_hours@.len(),
                weeks@.len() == w,
                forall|v: int|
                    0 <= v < w ==> (#[trigger] weeks@[v]).week == desired_hours@[v].0
                        && weeks@[v].desired_total_hours == desired_hours@[v].1
                        && weeks@[v].session_indexes@ == week_sessions(sessions@, weeks@[v].week),
                forall|v: int|
                    0 <= v < w ==> week_occurs(sessions@, (#[trigger] desired_hours@[v]).0),
            decreases desired_hours@.len() - w,
        {
            let week = desired_hours[w].0;
            let indexes = sessions_of_week(sessions, week);
            proof {
                lemma_week_sessions(sessions@, week);
            }
            if indexes.len() == 0 {
                proof {
                    if week_occurs(sessions@, desired_hours@[w as int].0) {
                        let s = choose|s: int|
                            0 <= s < sessions@.len() && (#[trigger] sessions@[s]).week == week;
                        assert(indexes@.contains(s as usize));
                    }
                }
                return Err(InputError::WeekMismatch);
            }
            proof {
                assert(indexes@[0] < sessions@.len());
                assert(sessions@[indexes@[0] as int].week == week);
            }
            weeks.push(
                Week { week, desired_total_hours: desired_hours[w].1, session_indexes: indexes },
            );
            w += 1;
        }
        let mut s: usize = 0;
        while s < sessions.len()
            invariant
                sessions@.len() <= MAX_SESSIONS,
                applicants@.len() <= MAX_APPLICANTS,
                ratings_complete(pool_of(applicants@), sessions@),
                s <= sessions@.len(),
                forall|t: int|
                    0 <= t < s ==> week_desired(desired_hours@, (#[trigger] sessions@[t]).week),
            decreases sessions@.len() - s,
        {
            if !find_week(desired_hours, sessions[s].week) {
                return Err(InputError::WeekMismatch);
            }
            s += 1;
        }
        let solver = Solver { sessions, applicants, weeks };
        assert(solver.desired() =~= desired_hours@);
        Ok(solver)
    }
}

/// The reason for which the input to a search is refused, if it is.
pub fn input_refusal(
    applicants: &[Applicant],
    sessions: &[Session],
    desired_hours: &[(WeekNum, u16)],
) -> (refusal: Option<InputError>)
    ensures
        refusal == input_error(pool_of(applicants@), sessions@, desired_hours@),
{
    match Solver::new(applicants, sessions, desired_hours) {
        Ok(_) => None,
        Err(error) => Some(error),
    }
}

} // verus!
