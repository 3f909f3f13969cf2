use crate::allocation::MAX_TUTORS_PER_SESSION;
use crate::types::{ApplicantView, Availability, Session, WeekNum};
use vstd::prelude::*;

verus! {

/// How `applicant` rated `session`.
pub open spec fn rating(
    applicants: Seq<ApplicantView>,
    applicant: int,
    session: int,
) -> Availability {
    applicants[applicant].availabilities[session]
}

/// What one assignment with the given rating adds to the cost.
pub open spec fn preference_cost(rating: Availability) -> nat {
    match rating {
        Availability::Preferred => 0,
        Availability::Possible => 5,
        Availability::Dislike => 100,
        Availability::Impossible => 0,
    }
}

/// The preference cost of the applicants `assigned` to `session`.
pub open spec fn session_preference(
    applicants: Seq<ApplicantView>,
    session: int,
    assigned: Seq<u16>,
) -> nat
    decreases assigned.len(),
{
    if assigned.len() == 0 {
        0
    } else {
        session_preference(applicants, session, assigned.drop_last()) + preference_cost(
            rating(applicants, assigned.last() as int, session),
        )
    }
}

/// The preference cost of all assignments to the sessions listed in `indexes`.
pub open spec fn week_preference(
    applicants: Seq<ApplicantView>,
    plan: Seq<Seq<u16>>,
    indexes: Seq<usize>,
) -> nat
    decreases indexes.len(),
{
    if indexes.len() == 0 {
        0
    } else {
        week_preference(applicants, plan, indexes.drop_last()) + session_preference(
            applicants,
            indexes.last() as int,
            plan[indexes.last() as int],
        )
    }
}

/// The staffed hours of the sessions listed in `indexes`: each session's
/// length times the number of applicants assigned to it.
pub open spec fn week_hours(sessions: Seq<Session>, plan: Seq<Seq<u16>>, indexes: Seq<usize>) -> nat
    decreases indexes.len(),
{
    if indexes.len() == 0 {
        0
    } else {
        week_hours(sessions, plan, indexes.drop_last()) + sessions[indexes.last()
            as int].length_hours as nat * plan[indexes.last() as int].len()
    }
}

/// How many times `applicant` occurs in `assigned`.
pub open spec fn occurrences(assigned: Seq<u16>, applicant: int) -> nat
    decreases assigned.len(),
{
    if assigned.len() == 0 {
        0
    } else {
        occurrences(assigned.drop_last(), applicant) + if assigned.last() == applicant {
            1nat
        } else {
            0nat
        }
    }
}

/// The hours `applicant` works in the sessions listed in `indexes`.
pub open spec fn applicant_hours(
    sessions: Seq<Session>,
    plan: Seq<Seq<u16>>,
    indexes: Seq<usize>,
    applicant: int,
) -> nat
    decreases indexes.len(),
{
    if indexes.len() == 0 {
        0
    } else {
        applicant_hours(sessions, plan, indexes.drop_last(), applicant) + sessions[indexes.last()
            as int].length_hours as nat * occurrences(plan[indexes.last() as int], applicant)
    }
}

/// The smallest number of applicants at a staffed session among those listed
/// in `indexes`; the cap where none of them is staffed.
pub open spec fn smallest_staffing(plan: Seq<Seq<u16>>, indexes: Seq<usize>) -> nat
    decreases indexes.len(),
{
    if indexes.len() == 0 {
        MAX_TUTORS_PER_SESSION as nat
    } else {
        let rest = smallest_staffing(plan, indexes.drop_last());
        let size = plan[indexes.last() as int].len();
        if 0 < size < rest {
            size
        } else {
            rest
        }
    }
}

/// The largest number of applicants at a session among those listed in
/// `indexes`; zero where none of them is staffed.
pub open spec fn largest_staffing(plan: Seq<Seq<u16>>, indexes: Seq<usize>) -> nat
    decreases indexes.len(),
{
    if indexes.len() == 0 {
        0
    } else {
        let rest = largest_staffing(plan, indexes.drop_last());
        let size = plan[indexes.last() as int].len();
        if size > rest {
            size
        } else {
            rest
        }
    }
}

/// The penalty for missing a week's desired hours: quadratic in a shortfall,
/// linear in an excess.
pub open spec fn hours_penalty(desired: nat, effective: nat) -> nat {
    if effective < desired {
        20 * ((desired - effective) * (desired - effective)) as nat
    } else {
        200 * (effective - desired) as nat
    }
}

/// The penalty for staffing a week's sessions unevenly.
pub open spec fn spread_penalty(smallest: nat, largest: nat) -> nat {
    if largest > smallest + 1 {
        50 * (largest - smallest) as nat
    } else {
        0
    }
}

/// The cost of one week: preference cost, hours penalty and spread penalty.
pub open spec fn week_cost(
    sessions: Seq<Session>,
    applicants: Seq<ApplicantView>,
    plan: Seq<Seq<u16>>,
    desired: nat,
    indexes: Seq<usize>,
) -> nat {
    week_preference(applicants, plan, indexes) + hours_penalty(
        desired,
        week_hours(sessions, plan, indexes),
    ) + spread_penalty(smallest_staffing(plan, indexes), largest_staffing(plan, indexes))
}

/// No applicant is assigned to a session they rated impossible.
pub open spec fn no_impossible(applicants: Seq<ApplicantView>, plan: Seq<Seq<u16>>) -> bool {
    forall|s: int, k: int|
        0 <= s < plan.len() && 0 <= k < plan[s].len() ==> rating(
            applicants,
            #[trigger] plan[s][k] as int,
            s,
        ) != Availability::Impossible
}

/// No session listed in `indexes` has an applicant who rated it impossible.
pub open spec fn week_possible(
    applicants: Seq<ApplicantView>,
    plan: Seq<Seq<u16>>,
    indexes: Seq<usize>,
) -> bool {
    forall|i: int, k: int|
        0 <= i < indexes.len() && 0 <= k < plan[indexes[i] as int].len() ==> rating(
            applicants,
            #[trigger] plan[indexes[i] as int][k] as int,
            indexes[i] as int,
        ) != Availability::Impossible
}

/// No applicant works more hours in the sessions listed in `indexes` than
/// their weekly ceiling.
pub open spec fn week_within_caps(
    sessions: Seq<Session>,
    applicants: Seq<ApplicantView>,
    plan: Seq<Seq<u16>>,
    indexes: Seq<usize>,
) -> bool {
    forall|a: int|
        0 <= a < applicants.len() ==> #[trigger] applicant_hours(sessions, plan, indexes, a)
            <= applicants[a].max_hours_per_week
}

/// The indexes of the sessions of week `week`, in ascending order.
pub open spec fn week_sessions(sessions: Seq<Session>, week: WeekNum) -> Seq<usize>
    decreases sessions.len(),
{
    if sessions.len() == 0 {
        Seq::empty()
    } else {
        let rest = week_sessions(sessions.drop_last(), week);
        if sessions.last().week == week {
            rest.push((sessions.len() - 1) as usize)
        } else {
            rest
        }
    }
}

/// No hard constraint is violated: nobody is assigned to a session they
/// rated impossible, and nobody works more hours in the sessions of any one
/// week than their weekly ceiling.
pub open spec fn feasible(
    sessions: Seq<Session>,
    applicants: Seq<ApplicantView>,
    plan: Seq<Seq<u16>>,
) -> bool {
    &&& no_impossible(applicants, plan)
    &&& forall|week: WeekNum| #[trigger]
        week_within_caps(sessions, applicants, plan, week_sessions(sessions, week))
}

/// The summed cost of the first `count` weeks of the desired hours.
pub open spec fn cost_of_weeks(
    sessions: Seq<Session>,
    applicants: Seq<ApplicantView>,
    desired: Seq<(WeekNum, u16)>,
    plan: Seq<Seq<u16>>,
    count: nat,
) -> nat
    decreases count,
{
    if count == 0 {
        0
    } else {
        cost_of_weeks(sessions, applicants, desired, plan, (count - 1) as nat) + week_cost(
            sessions,
            applicants,
            plan,
            desired[count - 1].1 as nat,
            week_sessions(sessions, desired[count - 1].0),
        )
    }
}

/// The cost of an allocation: none where it is infeasible, else the sum of
/// the costs of all weeks of the desired hours.
pub open spec fn allocation_cost(
    sessions: Seq<Session>,
    applicants: Seq<ApplicantView>,
    desired: Seq<(WeekNum, u16)>,
    plan: Seq<Seq<u16>>,
) -> Option<nat> {
    if feasible(sessions, applicants, plan) {
        Some(cost_of_weeks(sessions, applicants, desired, plan, desired.len()))
    } else {
        None
    }
}

/// `indexes` lists, in ascending order, exactly the sessions of week `week`.
pub open spec fn lists_week(sessions: Seq<Session>, week: WeekNum, indexes: Seq<usize>) -> bool {
    &&& forall|i: int, j: int| 0 <= i < j < indexes.len() ==> indexes[i] < indexes[j]
    &&& forall|i: int|
        0 <= i < indexes.len() ==> (#[trigger] indexes[i]) < sessions.len()
            && sessions[indexes[i] as int].week == week
    &&& forall|s: int|
        0 <= s < sessions.len() && (#[trigger] sessions[s]).week == week ==> indexes.contains(
            s as usize,
        )
}

/// The sessions of a week are listed in ascending order, each once, and no
/// other session is.
pub proof fn lemma_week_sessions(sessions: Seq<Session>, week: WeekNum)
    requires
        sessions.len() <= usize::MAX,
    ensures
        lists_week(sessions, week, week_sessions(sessions, week)),
    decreases sessions.len(),
{
    let indexes = week_sessions(sessions, week);
    if sessions.len() > 0 {
        let front = sessions.drop_last();
        let rest = week_sessions(front, week);
        lemma_week_sessions(front, week);
        assert forall|i: int| 0 <= i < indexes.len() implies (#[trigger] indexes[i])
            < sessions.len() && sessions[indexes[i] as int].week == week by {
            if i < rest.len() {
                assert(indexes[i] == rest[i]);
                assert(front[rest[i] as int] == sessions[rest[i] as int]);
            }
        }
        assert forall|i: int, j: int| 0 <= i < j < indexes.len() implies indexes[i]
            < indexes[j] by {
            assert(indexes[i] == rest[i]);
            if j < rest.len() {
                assert(indexes[j] == rest[j]);
            }
        }
        assert forall|s: int| 0 <= s < sessions.len() && (#[trigger] sessions[s]).week
            == week implies indexes.contains(s as usize) by {
            if s < front.len() {
                assert(front[s] == sessions[s]);
                assert(rest.contains(s as usize));
                let i = choose|i: int| 0 <= i < rest.len() && rest[i] == s as usize;
                assert(indexes[i] == s as usize);
            } else {
                assert(indexes[indexes.len() - 1] == s as usize);
            }
        }
    }
}

/// An allocation in which somebody is assigned to a session they rated
/// impossible has no cost.
pub proof fn lemma_impossible_assignment_has_no_cost(
    sessions: Seq<Session>,
    applicants: Seq<ApplicantView>,
    desired: Seq<(WeekNum, u16)>,
    plan: Seq<Seq<u16>>,
    session: int,
    position: int,
)
    requires
        0 <= session < plan.len(),
        0 <= position < plan[session].len(),
        rating(applicants, plan[session][position] as int, session) == Availability::Impossible,
    ensures
        allocation_cost(sessions, applicants, desired, plan) is None,
{
}

/// An allocation in which somebody works more hours in the sessions of one
/// week than their weekly ceiling has no cost.
pub proof fn lemma_exceeded_ceiling_has_no_cost(
    sessions: Seq<Session>,
    applicants: Seq<ApplicantView>,
    desired: Seq<(WeekNum, u16)>,
    plan: Seq<Seq<u16>>,
    week: WeekNum,
    applicant: int,
)
    requires
        0 <= applicant < applicants.len(),
        applicant_hours(sessions, plan, week_sessions(sessions, week), applicant)
            > applicants[applicant].max_hours_per_week,
    ensures
        allocation_cost(sessions, applicants, desired, plan) is None,
{
    assert(!week_within_caps(sessions, applicants, plan, week_sessions(sessions, week)));
}

/// In an allocation that has a cost, an applicant who rated every session
/// of a week impossible is assigned to none of them.
pub proof fn lemma_ruled_out_week_stays_free(
    sessions: Seq<Session>,
    applicants: Seq<ApplicantView>,
    desired: Seq<(WeekNum, u16)>,
    plan: Seq<Seq<u16>>,
    week: WeekNum,
    applicant: u16,
)
    requires
        plan.len() == sessions.len(),
        allocation_cost(sessions, applicants, desired, plan) is Some,
        forall|s: int|
            0 <= s < sessions.len() && (#[trigger] sessions[s]).week == week ==> rating(
                applicants,
                applicant as int,
                s,
            ) == Availability::Impossible,
    ensures
        forall|s: int|
            0 <= s < sessions.len() && (#[trigger] sessions[s]).week == week ==> !plan[s].contains(
                applicant,
            ),
{
    assert forall|s: int| 0 <= s < sessions.len() && (#[trigger] sessions[s]).week
        == week implies !plan[s].contains(applicant) by {
        if plan[s].contains(applicant) {
            let k = choose|k: int| 0 <= k < plan[s].len() && plan[s][k] == applicant;
            assert(rating(applicants, plan[s][k] as int, s) != Availability::Impossible);
        }
    }
}

/// `found` is what the evaluation of `plan` yields: nothing where the
/// allocation has no cost, else its cost.
pub open spec fn evaluates_to(
    sessions: Seq<Session>,
    applicants: Seq<ApplicantView>,
    desired: Seq<(WeekNum, u16)>,
    plan: Seq<Seq<u16>>,
    found: Option<u64>,
) -> bool {
    match found {
        Some(cost) => allocation_cost(sessions, applicants, desired, plan) == Some(cost as nat),
        None => allocation_cost(sessions, applicants, desired, plan) is None,
    }
}

/// Two evaluations of the same allocation yield the same.
pub proof fn lemma_evaluations_agree(
    sessions: Seq<Session>,
    applicants: Seq<ApplicantView>,
    desired: Seq<(WeekNum, u16)>,
    plan: Seq<Seq<u16>>,
    first: Option<u64>,
    second: Option<u64>,
)
    requires
        evaluates_to(sessions, applicants, desired, plan, first),
        evaluates_to(sessions, applicants, desired, plan, second),
    ensures
        first == second,
{
}

/// Where nobody is assigned in a week, the week costs its full shortfall:
/// twenty times the square of the hours desired.
pub proof fn lemma_unstaffed_week_cost(
    sessions: Seq<Session>,
    applicants: Seq<ApplicantView>,
    plan: Seq<Seq<u16>>,
    desired: nat,
    indexes: Seq<usize>,
)
    requires
        forall|i: int| 0 <= i < indexes.len() ==> plan[(#[trigger] indexes[i]) as int].len() == 0,
    ensures
        week_preference(applicants, plan, indexes) == 0,
        week_hours(sessions, plan, indexes) == 0,
        week_cost(sessions, applicants, plan, desired, indexes) == 20 * (desired * desired),
{
    lemma_unstaffed_week_parts(sessions, applicants, plan, indexes);
    if desired == 0 {
        assert(20 * (desired * desired) == 0) by (nonlinear_arith)
            requires
                desired == 0,
        ;
    } else {
        assert(hours_penalty(desired, 0) == 20 * (desired * desired));
    }
}

/// Where nobody is assigned in a week, its preference cost and staffed
/// hours are zero, and its sessions take no part in the spread.
proof fn lemma_unstaffed_week_parts(
    sessions: Seq<Session>,
    applicants: Seq<ApplicantView>,
    plan: Seq<Seq<u16>>,
    indexes: Seq<usize>,
)
    requires
        forall|i: int| 0 <= i < indexes.len() ==> plan[(#[trigger] indexes[i]) as int].len() == 0,
    ensures
        week_preference(applicants, plan, indexes) == 0,
        week_hours(sessions, plan, indexes) == 0,
        smallest_staffing(plan, indexes) == MAX_TUTORS_PER_SESSION,
        largest_staffing(plan, indexes) == 0,
    decreases indexes.len(),
{
    if indexes.len() > 0 {
        let front = indexes.drop_last();
        assert forall|i: int| 0 <= i < front.len() implies plan[(#[trigger] front[i]) as int].len()
            == 0 by {
            assert(front[i] == indexes[i]);
        }
        lemma_unstaffed_week_parts(sessions, applicants, plan, front);
        let last = plan[indexes[indexes.len() - 1] as int];
        assert(last.len() == 0);
        assert(session_preference(applicants, indexes.last() as int, last) == 0);
        assert(sessions[indexes.last() as int].length_hours as nat * 0 == 0);
    }
}


/// With nobody assigned, nobody works any hours.
pub proof fn lemma_idle_hours(
    sessions: Seq<Session>,
    plan: Seq<Seq<u16>>,
    indexes: Seq<usize>,
    applicant: int,
)
    requires
        forall|i: int| 0 <= i < indexes.len() ==> plan[(#[trigger] indexes[i]) as int].len() == 0,
    ensures
        applicant_hours(sessions, plan, indexes, applicant) == 0,
    decreases indexes.len(),
{
    if indexes.len() > 0 {
        let front = indexes.drop_last();
        assert forall|i: int| 0 <= i < front.len() implies plan[(#[trigger] front[i]) as int].len()
            == 0 by {
            assert(front[i] == indexes[i]);
        }
        lemma_idle_hours(sessions, plan, front, applicant);
        let last = plan[indexes[indexes.len() - 1] as int];
        assert(last.len() == 0);
        assert(occurrences(last, applicant) == 0);
        assert(sessions[indexes.last() as int].length_hours as nat * 0 == 0);
    }
}

/// The allocation that assigns nobody is feasible.
pub proof fn lemma_empty_plan_feasible(
    sessions: Seq<Session>,
    applicants: Seq<ApplicantView>,
    plan: Seq<Seq<u16>>,
)
    requires
        sessions.len() <= usize::MAX,
        plan.len() == sessions.len(),
        forall|s: int| 0 <= s < plan.len() ==> (#[trigger] plan[s]).len() == 0,
    ensures
        feasible(sessions, applicants, plan),
{
    assert forall|week: WeekNum| #[trigger]
        week_within_caps(sessions, applicants, plan, week_sessions(sessions, week)) by {
        let indexes = week_sessions(sessions, week);
        lemma_week_sessions(sessions, week);
        assert forall|a: int| 0 <= a < applicants.len() implies #[trigger] applicant_hours(
            sessions,
            plan,
            indexes,
            a,
        ) <= applicants[a].max_hours_per_week by {
            lemma_idle_hours(sessions, plan, indexes, a);
        }
    }
}

} // verus!
