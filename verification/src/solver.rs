use crate::allocation::valid_plan;
use crate::cost::{allocation_cost, week_sessions};
use crate::types::{pool_of, Applicant, ApplicantView, Session, WeekNum};
use vstd::prelude::*;

verus! {

/// The most applicants a solver takes: an applicant is named by a `u16`.
pub const MAX_APPLICANTS: usize = 65536;

/// The most sessions a solver takes, so that every cost fits in a `u64`.
pub const MAX_SESSIONS: usize = 0xFFFF_FFFF;

/// The most weeks there can be: a week is numbered by a `u8`.
pub const MAX_WEEKS: usize = 256;

/// One week of the timetable: its number, the staffed hours wanted in it, and
/// the indexes of its sessions in ascending order.
pub struct Week {
    pub week: WeekNum,
    pub desired_total_hours: u16,
    pub session_indexes: Vec<usize>,
}

/// Every applicant has one rating for each session.
pub open spec fn ratings_complete(applicants: Seq<ApplicantView>, sessions: Seq<Session>) -> bool {
    forall|a: int|
        0 <= a < applicants.len() ==> (#[trigger] applicants[a]).availabilities.len()
            == sessions.len()
}

/// Some session is in week `week`.
pub open spec fn week_occurs(sessions: Seq<Session>, week: WeekNum) -> bool {
    exists|s: int| 0 <= s < sessions.len() && (#[trigger] sessions[s]).week == week
}

/// Some entry of the desired hours is for week `week`.
pub open spec fn week_desired(desired: Seq<(WeekNum, u16)>, week: WeekNum) -> bool {
    exists|i: int| 0 <= i < desired.len() && (#[trigger] desired[i]).0 == week
}

/// The desired hours name each week of the sessions once, and no other week.
pub open spec fn weeks_match(sessions: Seq<Session>, desired: Seq<(WeekNum, u16)>) -> bool {
    &&& forall|i: int, j: int| 0 <= i < j < desired.len() ==> desired[i].0 != desired[j].0
    &&& forall|i: int|
        0 <= i < desired.len() ==> week_occurs(sessions, (#[trigger] desired[i]).0)
    &&& forall|s: int|
        0 <= s < sessions.len() ==> week_desired(desired, (#[trigger] sessions[s]).week)
}

/// Desired hours that name no week twice have at most `MAX_WEEKS` entries:
/// a week number is one of 256.
pub proof fn lemma_distinct_weeks_are_few(desired: Seq<(WeekNum, u16)>)
    requires
        forall|i: int, j: int| 0 <= i < j < desired.len() ==> desired[i].0 != desired[j].0,
    ensures
        desired.len() <= MAX_WEEKS,
{
    let numbers = Seq::new(desired.len(), |i: int| desired[i].0.0 as int);
    assert forall|i: int, j: int| 0 <= i < numbers.len() && 0 <= j < numbers.len() && i
        != j implies numbers[i] != numbers[j] by {
        if i < j {
            assert(desired[i].0 != desired[j].0);
        } else {
            assert(desired[j].0 != desired[i].0);
        }
    }
    numbers.unique_seq_to_set();
    vstd::set_lib::lemma_int_range(0, 256);
    assert forall|n: int| numbers.to_set().contains(n) implies vstd::set_lib::set_int_range(
        0,
        256,
    ).contains(n) by {
        let i = choose|i: int| 0 <= i < numbers.len() && numbers[i] == n;
        assert(numbers[i] == desired[i].0.0);
    }
    vstd::set_lib::lemma_len_subset(numbers.to_set(), vstd::set_lib::set_int_range(0, 256));
}

/// The sessions, the applicants and the week grouping that a search works on.
pub struct Solver<'a> {
    pub sessions: &'a [Session],
    pub applicants: &'a [Applicant],
    pub weeks: Vec<Week>,
}

impl<'a> Solver<'a> {
    /// What the applicants' records say.
    pub open spec fn pool(&self) -> Seq<ApplicantView> {
        pool_of(self.applicants@)
    }

    /// The desired hours that the weeks were made from.
    pub open spec fn desired(&self) -> Seq<(WeekNum, u16)> {
        Seq::new(
            self.weeks@.len(),
            |w: int| (self.weeks@[w].week, self.weeks@[w].desired_total_hours),
        )
    }

    /// The solver's invariant: the counts are within their limits, every
    /// applicant rates every session, there is one week for each week number
    /// that occurs among the sessions, and each week lists its sessions.
    pub open spec fn wf(&self) -> bool {
        &&& self.sessions@.len() <= MAX_SESSIONS
        &&& self.applicants@.len() <= MAX_APPLICANTS
        &&& ratings_complete(self.pool(), self.sessions@)
        &&& weeks_match(self.sessions@, self.desired())
        &&& forall|w: int|
            0 <= w < self.weeks@.len() ==> (#[trigger] self.weeks@[w]).session_indexes@
                == week_sessions(self.sessions@, self.weeks@[w].week)
    }

    /// `plan` is an allocation state for this solver's sessions and
    /// applicants.
    pub open spec fn admits(&self, plan: Seq<Seq<u16>>) -> bool {
        valid_plan(plan, self.sessions@.len(), self.applicants@.len())
    }

    /// The cost of an allocation under this solver: none where it is
    /// infeasible.
    pub open spec fn cost(&self, plan: Seq<Seq<u16>>) -> Option<nat> {
        allocation_cost(self.sessions@, self.pool(), self.desired(), plan)
    }
}

} // verus!
