use crate::solution_output::{
    all_countable, all_rated, count_rated, count_rating, rated_session, solution_of,
    SolvedSession, SolvedSessionView,
};
use crate::types::{Availability, WeekNum};
use vstd::prelude::*;

verus! {

/// Some session is in week `week`.
pub open spec fn week_present(solution: Seq<SolvedSessionView>, week: u8) -> bool {
    exists|s: int| 0 <= s < solution.len() && (#[trigger] solution[s]).session.week.0 == week
}

/// The staffed hours of week `week`: the length of each of its sessions,
/// times the number of applicants assigned to it.
pub open spec fn staffed_hours(solution: Seq<SolvedSessionView>, week: u8) -> nat
    decreases solution.len(),
{
    if solution.len() == 0 {
        0
    } else {
        staffed_hours(solution.drop_last(), week) + if solution.last().session.week.0 == week {
            solution.last().session.length_hours as nat * solution.last().applicants.len()
        } else {
            0nat
        }
    }
}

/// The weeks below `limit` that have a session, in ascending order, each
/// with its staffed hours.
pub open spec fn weeks_summary(solution: Seq<SolvedSessionView>, limit: nat) -> Seq<(WeekNum, u128)>
    decreases limit,
{
    if limit == 0 {
        Seq::empty()
    } else {
        let front = weeks_summary(solution, (limit - 1) as nat);
        if week_present(solution, (limit - 1) as u8) {
            front.push(
                (WeekNum((limit - 1) as u8), staffed_hours(solution, (limit - 1) as u8) as u128),
            )
        } else {
            front
        }
    }
}

/// Whether some session is in the week.
fn has_week(solution: &[SolvedSession], week: u8) -> (found: bool)
    ensures
        found == week_present(solution_of(solution@), week),
{
    let ghost all = solution_of(solution@);
    let mut s: usize = 0;
    while s < solution.len()
        invariant
            all == solution_of(solution@),
            s <= solution@.len(),
            forall|t: int| 0 <= t < s ==> (#[trigger] all[t]).session.week.0 != week,
        decreases solution@.len() - s,
    {
        assert(all[s as int] == solution@[s as int]@);
        if solution[s].session.week.0 == week {
            return true;
        }
        s += 1;
    }
    false
}

/// Sums the staffed hours of the week.
fn sum_staffed_hours(solution: &[SolvedSession], week: u8) -> (hours: u128)
    requires
        all_countable(solution_of(solution@)),
    ensures
        hours == staffed_hours(solution_of(solution@), week),
{
    let ghost all = solution_of(solution@);
    let mut hours: u128 = 0;
    let mut s: usize = 0;
    assert(all.take(0).len() == 0);
    while s < solution.len()
        invariant
            all == solution_of(solution@),
            all_countable(all),
            s <= solution@.len(),
            hours == staffed_hours(all.take(s as int), week),
            hours <= s * 0xFF_FFFF_FFFF,
        decreases solution@.len() - s,
    {
        proof {
            assert(all.take(s + 1).drop_last() =~= all.take(s as int));
            assert(all.take(s + 1).last() == solution@[s as int]@);
            assert(all[s as int].applicants.len() <= 0xFFFF_FFFF);
        }
        if solution[s].session.week.0 == week {
            let count = solution[s].applicants.len();
            let length = solution[s].session.length_hours;
            assert(length as nat * count as nat <= 0xFF_FFFF_FFFF) by (nonlinear_arith)
                requires
                    length <= 255,
                    count <= 0xFFFF_FFFF,
            ;
            hours += (length as u128) * (count as u128);
        }
        s += 1;
    }
    assert(all.take(s as int) =~= all);
    hours
}

/// The staffed hours of each week that has a session, by ascending week.
pub fn hours_by_week(solution: &[SolvedSession]) -> (summary: Vec<(WeekNum, u128)>)
    requires
        all_countable(solution_of(solution@)),
    ensures
        summary@ == weeks_summary(solution_of(solution@), 256),
{
    let mut summary: Vec<(WeekNum, u128)> = Vec::new();
    let mut week: u16 = 0;
    while week < 256
        invariant
            all_countable(solution_of(solution@)),
            week <= 256,
            summary@ == weeks_summary(solution_of(solution@), week as nat),
        decreases 256 - week,
    {
        if has_week(solution, week as u8) {
            summary.push((WeekNum(week as u8), sum_staffed_hours(solution, week as u8)));
        }
        week += 1;
    }
    summary
}

/// How many assignments have the rating `rating`: each applicant of each
/// session counts where they gave the session that rating.
pub open spec fn rating_count(solution: Seq<SolvedSessionView>, rating: Availability) -> nat
    decreases solution.len(),
{
    if solution.len() == 0 {
        0
    } else {
        rating_count(solution.drop_last(), rating) + count_rated(
            solution.last().applicants,
            solution.last().session.id as int,
            rating,
        )
    }
}

/// The ratings from the least wanted to the most.
pub open spec fn ratings_in_order() -> Seq<Availability> {
    seq![
        Availability::Impossible,
        Availability::Dislike,
        Availability::Possible,
        Availability::Preferred,
    ]
}

/// Those of the first `count` ratings that some assignment has, in order,
/// each with the number of assignments that have it.
pub open spec fn ratings_summary(solution: Seq<SolvedSessionView>, count: nat) -> Seq<
    (Availability, u128),
>
    decreases count,
{
    if count == 0 {
        Seq::empty()
    } else {
        let front = ratings_summary(solution, (count - 1) as nat);
        let rating = ratings_in_order()[count - 1];
        if rating_count(solution, rating) > 0 {
            front.push((rating, rating_count(solution, rating) as u128))
        } else {
            front
        }
    }
}

/// Counts the assignments that have the rating.
fn count_assignments(solution: &[SolvedSession], rating: Availability) -> (count: u128)
    requires
        all_rated(solution_of(solution@)),
    ensures
        count == rating_count(solution_of(solution@), rating),
{
    let ghost all = solution_of(solution@);
    let mut count: u128 = 0;
    let mut s: usize = 0;
    assert(all.take(0).len() == 0);
    while s < solution.len()
        invariant
            all == solution_of(solution@),
            all_rated(all),
            s <= solution@.len(),
            count == rating_count(all.take(s as int), rating),
            count <= s * 0xFFFF_FFFF_FFFF_FFFF,
        decreases solution@.len() - s,
    {
        proof {
            assert(all.take(s + 1).drop_last() =~= all.take(s as int));
            assert(all.take(s + 1).last() == solution@[s as int]@);
            assert(rated_session(all[s as int]));
        }
        let here = count_rating(&solution[s], rating);
        assert((s + 1) * 0xFFFF_FFFF_FFFF_FFFF <= 0xFFFF_FFFF_FFFF_FFFF * 0xFFFF_FFFF_FFFF_FFFF)
            by (nonlinear_arith)
            requires
                s + 1 <= 0xFFFF_FFFF_FFFF_FFFF,
        ;
        count += here as u128;
        s += 1;
    }
    assert(all.take(s as int) =~= all);
    count
}

/// The number of assignments with each rating that occurs, from the least
/// wanted rating to the most.
pub fn preference_totals(solution: &[SolvedSession]) -> (summary: Vec<(Availability, u128)>)
    requires
        all_rated(solution_of(solution@)),
    ensures
        summary@ == ratings_summary(solution_of(solution@), 4),
{
    let order = [
        Availability::Impossible,
        Availability::Dislike,
        Availability::Possible,
        Availability::Preferred,
    ];
    let mut summary: Vec<(Availability, u128)> = Vec::new();
    let mut i: usize = 0;
    while i < 4
        invariant
            all_rated(solution_of(solution@)),
            i <= 4,
            order@ == ratings_in_order(),
            summary@ == ratings_summary(solution_of(solution@), i as nat),
        decreases 4 - i,
    {
        let count = count_assignments(solution, order[i]);
        if count > 0 {
            summary.push((order[i], count));
        }
        i += 1;
    }
    summary
}

} // verus!
