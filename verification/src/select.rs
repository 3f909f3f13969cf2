use crate::allocation::{plan, small_get, small_len, valid_plan, SessionAllocation};
use crate::anneal::{ends_a_run, follows, run_result, UphillRule, TOTAL_STEPS};
use crate::cost::allocation_cost;
use crate::setup::input_error;
use crate::solution_output::{solution_of, SolvedSession, SolvedSessionView};
use crate::solver::Solver;
use crate::types::{pool_of, Applicant, ApplicantView, Course, Session, WeekNum};
use vstd::prelude::*;

verus! {

/// `at` is the place of the first least of `costs`.
pub open spec fn is_first_least(costs: Seq<u64>, at: int) -> bool {
    &&& 0 <= at < costs.len()
    &&& forall|i: int| 0 <= i < costs.len() ==> costs[at] <= costs[i]
    &&& forall|i: int| 0 <= i < at ==> costs[i] > costs[at]
}

/// Those of `applicants` who teach `course`, in their order.
pub open spec fn of_course(applicants: Seq<ApplicantView>, course: Course) -> Seq<ApplicantView>
    decreases applicants.len(),
{
    if applicants.len() == 0 {
        Seq::empty()
    } else {
        let rest = of_course(applicants.drop_last(), course);
        if applicants.last().course == course {
            rest.push(applicants.last())
        } else {
            rest
        }
    }
}

/// Copies of the applicants who teach `course`, in their order.
pub fn filter_course(applicants: &[Applicant], course: Course) -> (chosen: Vec<Applicant>)
    ensures
        pool_of(chosen@) == of_course(pool_of(applicants@), course),
{
    let mut chosen: Vec<Applicant> = Vec::new();
    let mut i: usize = 0;
    let ghost pool = pool_of(applicants@);
    assert(pool.take(0).len() == 0);
    assert(pool_of(chosen@) =~= Seq::<ApplicantView>::empty());
    while i < applicants.len()
        invariant
            i <= applicants@.len(),
            pool == pool_of(applicants@),
            pool_of(chosen@) == of_course(pool.take(i as int), course),
        decreases applicants@.len() - i,
    {
        proof {
            assert(pool.take(i + 1).drop_last() =~= pool.take(i as int));
            assert(pool.take(i + 1).last() == applicants@[i as int]@);
        }
        if applicants[i].course == course {
            let ghost before = chosen@;
            let copy = applicants[i].clone();
            chosen.push(copy);
            assert(pool_of(chosen@) =~= pool_of(before).push(applicants@[i as int]@));
        }
        i += 1;
    }
    assert(pool.take(i as int) =~= pool);
    chosen
}

/// What the records of the applicants named in `assigned` say.
pub open spec fn named(applicants: Seq<ApplicantView>, assigned: Seq<u16>) -> Seq<ApplicantView> {
    Seq::new(assigned.len(), |k: int| applicants[assigned[k] as int])
}

/// The solved sessions that `plan` stands for: each session with the
/// records of the applicants assigned to it.
pub open spec fn resolved(
    sessions: Seq<Session>,
    applicants: Seq<ApplicantView>,
    plan: Seq<Seq<u16>>,
) -> Seq<SolvedSessionView> {
    Seq::new(
        sessions.len(),
        |s: int| SolvedSessionView { session: sessions[s], applicants: named(applicants, plan[s]) },
    )
}

/// Pairs each session with copies of the records of the applicants that the
/// allocation assigns to it.
pub fn resolve_allocation(
    allocation: &Vec<SessionAllocation>,
    sessions: &[Session],
    applicants: &[Applicant],
) -> (solution: Vec<SolvedSession>)
    requires
        valid_plan(plan(allocation@), sessions@.len(), applicants@.len()),
    ensures
        solution_of(solution@) == resolved(sessions@, pool_of(applicants@), plan(allocation@)),
{
    let ghost p = plan(allocation@);
    let ghost pool = pool_of(applicants@);
    let mut solution: Vec<SolvedSession> = Vec::new();
    let mut s: usize = 0;
    while s < sessions.len()
        invariant
            valid_plan(p, sessions@.len(), applicants@.len()),
            p == plan(allocation@),
            pool == pool_of(applicants@),
            s <= sessions@.len(),
            solution@.len() == s,
            forall|t: int|
                0 <= t < s ==> (#[trigger] solution@[t])@ == (SolvedSessionView {
                    session: sessions@[t],
                    applicants: named(pool, p[t]),
                }),
        decreases sessions@.len() - s,
    {
        let record = &allocation[s];
        assert(p[s as int] == record@);
        let count = small_len(record);
        let mut assigned: Vec<Applicant> = Vec::new();
        let mut k: usize = 0;
        while k < count
            invariant
                valid_plan(p, sessions@.len(), applicants@.len()),
                pool == pool_of(applicants@),
                s < sessions@.len(),
                p[s as int] == record@,
                count == record@.len(),
                k <= count,
                assigned@.len() == k,
                forall|j: int| 0 <= j < k ==> (#[trigger] assigned@[j])@ == pool[record@[j] as int],
            decreases count - k,
        {
            let applicant = small_get(record, k);
            assert(p[s as int][k as int] < applicants@.len());
            assigned.push(applicants[applicant as usize].clone());
            k += 1;
        }
        assert(pool_of(assigned@) =~= named(pool, p[s as int]));
        solution.push(SolvedSession { session: sessions[s], applicants: assigned });
        s += 1;
    }
    assert(solution_of(solution@) =~= resolved(sessions@, pool, p));
    solution
}

/// The result of a search under several seeds.
pub struct BestRun {
    /// The seed whose run ended with the least cost; the first such seed.
    pub seed: u64,
    /// That least cost.
    pub cost: u64,
    /// The cost each seed's run ended with, in the order of the seeds.
    pub costs: Vec<u64>,
    /// An allocation of that cost.
    pub allocation: Vec<SessionAllocation>,
    /// The same allocation, with records in place of ids.
    pub solution: Vec<SolvedSession>,
}

/// `seed` and `cost` are those of the winning run: the first of the runs
/// that ended with the least cost.
pub open spec fn is_winner(seeds: Seq<u64>, costs: Seq<u64>, seed: u64, cost: u64) -> bool {
    exists|at: int| #[trigger] is_first_least(costs, at) && seeds[at] == seed && costs[at] == cost
}

/// Some run of `TOTAL_STEPS` steps from `seed`, in which `accept_uphill`
/// decides the uphill moves, ends with the cost `cost`.
pub open spec fn is_run_cost<F: Fn(u64, u64, u64, u64) -> (bool, u64)>(
    accept_uphill: &F,
    sessions: Seq<Session>,
    applicants: Seq<ApplicantView>,
    desired: Seq<(WeekNum, u16)>,
    seed: u64,
    cost: u64,
) -> bool {
    exists|plan: Seq<Seq<u16>>| #[trigger]
        ends_a_run(
            accept_uphill,
            sessions,
            applicants,
            desired,
            seed,
            TOTAL_STEPS,
            cost as nat,
            plan,
        )
}

/// Each of the first `count` costs is the cost that a run from the seed at
/// its place ended with.
pub open spec fn costs_end_runs<F: Fn(u64, u64, u64, u64) -> (bool, u64)>(
    accept_uphill: &F,
    sessions: Seq<Session>,
    applicants: Seq<ApplicantView>,
    desired: Seq<(WeekNum, u16)>,
    seeds: Seq<u64>,
    costs: Seq<u64>,
    count: nat,
) -> bool {
    forall|i: int|
        0 <= i < count ==> is_run_cost(
            accept_uphill,
            sessions,
            applicants,
            desired,
            seeds[i],
            #[trigger] costs[i],
        )
}

/// Each of the first `count` costs is what the search from the seed at its
/// place ends with, where `rule` decides the uphill moves.
pub open spec fn costs_of_runs(
    sessions: Seq<Session>,
    applicants: Seq<ApplicantView>,
    desired: Seq<(WeekNum, u16)>,
    seeds: Seq<u64>,
    rule: UphillRule,
    costs: Seq<u64>,
    count: nat,
) -> bool {
    forall|i: int|
        0 <= i < count ==> (#[trigger] costs[i]) as nat == run_result(
            sessions,
            applicants,
            desired,
            seeds[i],
            rule,
            TOTAL_STEPS,
        ).0
}

/// Searches once for each seed, on the applicants who teach `course`, and
/// selects the seed whose run ended with the least cost, the first of them
/// where several did. That seed's run is then made once more, and its
/// allocation is what is given back; should the second run not end with the
/// cost of the first, the allocation of the first is given back in its place.
/// There is at least one seed, and the input is one that no `input_error`
/// refuses for the applicants of the course.
pub fn solve_many_times<F: Fn(u64, u64, u64, u64) -> (bool, u64)>(
    seeds: Vec<u64>,
    course: Course,
    applicants: &[Applicant],
    sessions: &[Session],
    desired_hours: &[(WeekNum, u16)],
    accept_uphill: &F,
) -> (run: BestRun)
    requires
        seeds@.len() > 0,
        input_error(of_course(pool_of(applicants@), course), sessions@, desired_hours@) is None,
        forall|state: u64, increase: u64, at: u64, of: u64|
            call_requires(accept_uphill, (state, increase, at, of)),
    ensures
        run.costs@.len() == seeds@.len(),
        is_winner(seeds@, run.costs@, run.seed, run.cost),
        valid_plan(
            plan(run.allocation@),
            sessions@.len(),
            of_course(pool_of(applicants@), course).len(),
        ),
        allocation_cost(
            sessions@,
            of_course(pool_of(applicants@), course),
            desired_hours@,
            plan(run.allocation@),
        ) == Some(run.cost as nat),
        solution_of(run.solution@) == resolved(
            sessions@,
            of_course(pool_of(applicants@), course),
            plan(run.allocation@),
        ),
        costs_end_runs(
            accept_uphill,
            sessions@,
            of_course(pool_of(applicants@), course),
            desired_hours@,
            seeds@,
            run.costs@,
            seeds@.len(),
        ),
        ends_a_run(
            accept_uphill,
            sessions@,
            of_course(pool_of(applicants@), course),
            desired_hours@,
            run.seed,
            TOTAL_STEPS,
            run.cost as nat,
            plan(run.allocation@),
        ),
        forall|rule: UphillRule| #[trigger]
            follows(accept_uphill, rule) ==> costs_of_runs(
                sessions@,
                of_course(pool_of(applicants@), course),
                desired_hours@,
                seeds@,
                rule,
                run.costs@,
                seeds@.len(),
            ) && plan(run.allocation@) == run_result(
                sessions@,
                of_course(pool_of(applicants@), course),
                desired_hours@,
                run.seed,
                rule,
                TOTAL_STEPS,
            ).1,
{
    let chosen = filter_course(applicants, course);
    let solver = Solver::new(chosen.as_slice(), sessions, desired_hours).unwrap();
    let (first_cost, first_allocation) = solver.anneal(seeds[0], TOTAL_STEPS, accept_uphill);
    let mut costs: Vec<u64> = Vec::new();
    costs.push(first_cost);
    let mut least: usize = 0;
    let mut kept = first_allocation;
    let mut i: usize = 1;
    while i < seeds.len()
        invariant
            solver.wf(),
            forall|state: u64, increase: u64, at: u64, of: u64|
                call_requires(accept_uphill, (state, increase, at, of)),
            1 <= i <= seeds@.len(),
            costs@.len() == i,
            is_first_least(costs@, least as int),
            solver.admits(plan(kept@)),
            solver.cost(plan(kept@)) == Some(costs@[least as int] as nat),
            costs_end_runs(
                accept_uphill,
                solver.sessions@,
                solver.pool(),
                solver.desired(),
                seeds@,
                costs@,
                i as nat,
            ),
            ends_a_run(
                accept_uphill,
                solver.sessions@,
                solver.pool(),
                solver.desired(),
                seeds@[least as int],
                TOTAL_STEPS,
                costs@[least as int] as nat,
                plan(kept@),
            ),
            forall|rule: UphillRule| #[trigger]
                follows(accept_uphill, rule) ==> costs_of_runs(
                    solver.sessions@,
                    solver.pool(),
                    solver.desired(),
                    seeds@,
                    rule,
                    costs@,
                    i as nat,
                ),
        decreases seeds@.len() - i,
    {
        let (cost, allocation) = solver.anneal(seeds[i], TOTAL_STEPS, accept_uphill);
        if cost < costs[least] {
            least = i;
            kept = allocation;
        }
        costs.push(cost);
        i += 1;
    }
    let seed = seeds[least];
    let cost = costs[least];
    let (again_cost, again) = solver.anneal(seed, TOTAL_STEPS, accept_uphill);
    let allocation = if again_cost == cost {
        again
    } else {
        kept
    };
    let solution = resolve_allocation(&allocation, sessions, chosen.as_slice());
    BestRun { seed, cost, costs, allocation, solution }
}

} // verus!
