use crate::allocation::{copy_allocation, empty_allocation, plan, valid_plan, SessionAllocation};
use crate::cost::{allocation_cost, lemma_empty_plan_feasible};
use crate::mutate::mutation_step;
use crate::setup::input_error;
use crate::solver::Solver;
use crate::stream::RandomStream;
use crate::types::{pool_of, Applicant, ApplicantView, Session, WeekNum};
use vstd::prelude::*;

verus! {

/// The number of steps of one search run.
pub const TOTAL_STEPS: u64 = 40000;

/// What the acceptance rule says of a mutated allocation.
#[derive(Clone, Copy, Debug, PartialEq, Eq, Structural)]
pub enum Verdict {
    /// The allocation is infeasible: put the last accepted one back.
    Reject,
    /// The allocation costs no more than the current one: take it.
    Accept,
    /// The allocation costs `increase` more than the current one: it is
    /// taken with a probability that falls with `increase` and with time.
    Uphill { increase: u64 },
}

/// The acceptance rule, up to the random draw for an uphill move.
pub open spec fn verdict(current: nat, proposed: Option<nat>) -> Verdict {
    match proposed {
        None => Verdict::Reject,
        Some(cost) => if cost <= current {
            Verdict::Accept
        } else {
            Verdict::Uphill { increase: (cost - current) as u64 }
        },
    }
}

/// Applies the acceptance rule to the cost of a mutated allocation.
pub fn judge(current_cost: u64, new_cost: Option<u64>) -> (v: Verdict)
    ensures
        v == verdict(
            current_cost as nat,
            match new_cost {
                Some(cost) => Some(cost as nat),
                None => None,
            },
        ),
{
    match new_cost {
        None => Verdict::Reject,
        Some(cost) => if cost <= current_cost {
            Verdict::Accept
        } else {
            Verdict::Uphill { increase: cost - current_cost }
        },
    }
}

/// The state of a search between two steps.
pub struct SearchState {
    /// The current allocation.
    pub plan: Seq<Seq<u16>>,
    /// Its cost.
    pub cost: nat,
    /// The state of the random stream.
    pub state: u64,
}

/// What the acceptance rule says of the step that starts from `before`. A
/// step that makes no mutation changes nothing, which is as if it were
/// rejected.
pub open spec fn step_verdict(
    sessions: Seq<Session>,
    applicants: Seq<ApplicantView>,
    desired: Seq<(WeekNum, u16)>,
    before: SearchState,
) -> Verdict {
    let mutated = mutation_step(applicants, before.plan, before.state);
    if mutated.mutation is None {
        Verdict::Reject
    } else {
        verdict(before.cost, allocation_cost(sessions, applicants, desired, mutated.plan))
    }
}

/// One step of a search: mutate, evaluate, accept or put back. `answer` is
/// what the draw for an uphill move gave, whether to accept and the state of
/// the random stream after it; it counts only where the step's verdict is
/// `Uphill`.
pub open spec fn step_outcome(
    sessions: Seq<Session>,
    applicants: Seq<ApplicantView>,
    desired: Seq<(WeekNum, u16)>,
    before: SearchState,
    answer: (bool, u64),
) -> SearchState {
    let mutated = mutation_step(applicants, before.plan, before.state);
    let proposed = allocation_cost(sessions, applicants, desired, mutated.plan);
    match step_verdict(sessions, applicants, desired, before) {
        Verdict::Reject => SearchState {
            plan: before.plan,
            cost: before.cost,
            state: mutated.state,
        },
        Verdict::Accept => SearchState {
            plan: mutated.plan,
            cost: proposed->0,
            state: mutated.state,
        },
        Verdict::Uphill { .. } => if answer.0 {
            SearchState { plan: mutated.plan, cost: proposed->0, state: answer.1 }
        } else {
            SearchState { plan: before.plan, cost: before.cost, state: answer.1 }
        },
    }
}

/// A rule for uphill moves: from the state of the random stream, the rise
/// in cost, the number of the step and the number of steps, to the decision
/// and the state of the stream after the draw.
pub type UphillRule = spec_fn(u64, u64, u64, u64) -> (bool, u64);

/// Whatever `accept_uphill` gives is what `rule` gives.
pub open spec fn follows<F: Fn(u64, u64, u64, u64) -> (bool, u64)>(
    accept_uphill: &F,
    rule: UphillRule,
) -> bool {
    forall|state: u64, increase: u64, at: u64, of: u64, answer: (bool, u64)|
        call_ensures(accept_uphill, (state, increase, at, of), answer) ==> answer == rule(
            state,
            increase,
            at,
            of,
        )
}

/// The rise in cost of an uphill step; zero for any other step.
pub open spec fn step_increase(
    sessions: Seq<Session>,
    applicants: Seq<ApplicantView>,
    desired: Seq<(WeekNum, u16)>,
    before: SearchState,
) -> u64 {
    match step_verdict(sessions, applicants, desired, before) {
        Verdict::Uphill { increase } => increase,
        _ => 0,
    }
}

/// The state in which a search starts: nobody is assigned, and the random
/// stream is in the state of the seed.
pub open spec fn start_state(
    sessions: Seq<Session>,
    applicants: Seq<ApplicantView>,
    desired: Seq<(WeekNum, u16)>,
    seed: u64,
) -> SearchState {
    let nobody = Seq::new(sessions.len(), |s: int| Seq::<u16>::empty());
    SearchState {
        plan: nobody,
        cost: allocation_cost(sessions, applicants, desired, nobody)->0,
        state: seed,
    }
}

/// The state of a search of `total_steps` steps after its first `steps`
/// steps, where `rule` decides the uphill moves.
pub open spec fn run_state(
    sessions: Seq<Session>,
    applicants: Seq<ApplicantView>,
    desired: Seq<(WeekNum, u16)>,
    seed: u64,
    rule: UphillRule,
    total_steps: u64,
    steps: nat,
) -> SearchState
    decreases steps,
{
    if steps == 0 {
        start_state(sessions, applicants, desired, seed)
    } else {
        let before = run_state(
            sessions,
            applicants,
            desired,
            seed,
            rule,
            total_steps,
            (steps - 1) as nat,
        );
        step_outcome(
            sessions,
            applicants,
            desired,
            before,
            rule(
                mutation_step(applicants, before.plan, before.state).state,
                step_increase(sessions, applicants, desired, before),
                (steps - 1) as u64,
                total_steps,
            ),
        )
    }
}

/// What a search of `total_steps` steps from `seed` ends with, where `rule`
/// decides the uphill moves: the cost and the allocation.
pub open spec fn run_result(
    sessions: Seq<Session>,
    applicants: Seq<ApplicantView>,
    desired: Seq<(WeekNum, u16)>,
    seed: u64,
    rule: UphillRule,
    total_steps: u64,
) -> (nat, Seq<Seq<u16>>) {
    let end = run_state(
        sessions,
        applicants,
        desired,
        seed,
        rule,
        total_steps,
        total_steps as nat,
    );
    (end.cost, end.plan)
}

/// Two searches on the same input, from the same seed and with the same
/// rule for uphill moves, end with the same cost and the same allocation.
pub proof fn lemma_runs_agree(
    sessions: Seq<Session>,
    applicants: Seq<ApplicantView>,
    desired: Seq<(WeekNum, u16)>,
    seed: u64,
    rule: UphillRule,
    total_steps: u64,
    first: (nat, Seq<Seq<u16>>),
    second: (nat, Seq<Seq<u16>>),
)
    requires
        first == run_result(sessions, applicants, desired, seed, rule, total_steps),
        second == run_result(sessions, applicants, desired, seed, rule, total_steps),
    ensures
        first == second,
{
}

/// The state of a search after its first `steps` steps, where `answers`
/// holds, step by step, what the draw for an uphill move gave.
pub open spec fn run_with(
    sessions: Seq<Session>,
    applicants: Seq<ApplicantView>,
    desired: Seq<(WeekNum, u16)>,
    seed: u64,
    answers: Seq<(bool, u64)>,
    steps: nat,
) -> SearchState
    decreases steps,
{
    if steps == 0 {
        start_state(sessions, applicants, desired, seed)
    } else {
        step_outcome(
            sessions,
            applicants,
            desired,
            run_with(sessions, applicants, desired, seed, answers, (steps - 1) as nat),
            answers[steps - 1],
        )
    }
}

/// Where step `step` of the run is an uphill move, its answer is one that
/// `accept_uphill` gives when handed the state of the random stream after
/// the mutation, the rise in cost, the number of the step and the number of
/// steps.
pub open spec fn answer_given<F: Fn(u64, u64, u64, u64) -> (bool, u64)>(
    accept_uphill: &F,
    sessions: Seq<Session>,
    applicants: Seq<ApplicantView>,
    desired: Seq<(WeekNum, u16)>,
    seed: u64,
    total_steps: u64,
    answers: Seq<(bool, u64)>,
    step: int,
) -> bool {
    let before = run_with(sessions, applicants, desired, seed, answers, step as nat);
    step_verdict(sessions, applicants, desired, before) matches Verdict::Uphill { increase }
        ==> call_ensures(
        accept_uphill,
        (
            mutation_step(applicants, before.plan, before.state).state,
            increase,
            step as u64,
            total_steps,
        ),
        answers[step],
    )
}

/// `answers` are the answers of the first `steps` steps of a run from
/// `seed` in which `accept_uphill` decides the uphill moves.
pub open spec fn is_run<F: Fn(u64, u64, u64, u64) -> (bool, u64)>(
    accept_uphill: &F,
    sessions: Seq<Session>,
    applicants: Seq<ApplicantView>,
    desired: Seq<(WeekNum, u16)>,
    seed: u64,
    total_steps: u64,
    answers: Seq<(bool, u64)>,
    steps: nat,
) -> bool {
    &&& answers.len() == steps
    &&& forall|i: int|
        0 <= i < steps ==> #[trigger] answer_given(
            accept_uphill,
            sessions,
            applicants,
            desired,
            seed,
            total_steps,
            answers,
            i,
        )
}

/// Some run of `total_steps` steps from `seed`, in which `accept_uphill`
/// decides the uphill moves, ends with the cost `cost` and the allocation
/// `plan`.
pub open spec fn ends_a_run<F: Fn(u64, u64, u64, u64) -> (bool, u64)>(
    accept_uphill: &F,
    sessions: Seq<Session>,
    applicants: Seq<ApplicantView>,
    desired: Seq<(WeekNum, u16)>,
    seed: u64,
    total_steps: u64,
    cost: nat,
    plan: Seq<Seq<u16>>,
) -> bool {
    exists|answers: Seq<(bool, u64)>|
        {
            &&& #[trigger] is_run(
                accept_uphill,
                sessions,
                applicants,
                desired,
                seed,
                total_steps,
                answers,
                total_steps as nat,
            )
            &&& run_with(sessions, applicants, desired, seed, answers, total_steps as nat).cost
                == cost
            &&& run_with(sessions, applicants, desired, seed, answers, total_steps as nat).plan
                == plan
        }
}

/// The first steps of a run do not depend on the answers of later steps.
pub proof fn lemma_run_with_more(
    sessions: Seq<Session>,
    applicants: Seq<ApplicantView>,
    desired: Seq<(WeekNum, u16)>,
    seed: u64,
    answers: Seq<(bool, u64)>,
    answer: (bool, u64),
    steps: nat,
)
    requires
        steps <= answers.len(),
    ensures
        run_with(sessions, applicants, desired, seed, answers.push(answer), steps) == run_with(
            sessions,
            applicants,
            desired,
            seed,
            answers,
            steps,
        ),
    decreases steps,
{
    if steps > 0 {
        lemma_run_with_more(
            sessions,
            applicants,
            desired,
            seed,
            answers,
            answer,
            (steps - 1) as nat,
        );
        assert(answers.push(answer)[steps - 1] == answers[steps - 1]);
    }
}

/// A run in which `accept_uphill` decides goes as the run that `rule`
/// decides, where whatever `accept_uphill` gives is what `rule` gives.
pub proof fn lemma_run_follows_rule<F: Fn(u64, u64, u64, u64) -> (bool, u64)>(
    accept_uphill: &F,
    sessions: Seq<Session>,
    applicants: Seq<ApplicantView>,
    desired: Seq<(WeekNum, u16)>,
    seed: u64,
    total_steps: u64,
    rule: UphillRule,
    answers: Seq<(bool, u64)>,
    steps: nat,
)
    requires
        follows(accept_uphill, rule),
        steps <= answers.len(),
        steps <= total_steps,
        forall|i: int|
            0 <= i < steps ==> #[trigger] answer_given(
                accept_uphill,
                sessions,
                applicants,
                desired,
                seed,
                total_steps,
                answers,
                i,
            ),
    ensures
        run_with(sessions, applicants, desired, seed, answers, steps) == run_state(
            sessions,
            applicants,
            desired,
            seed,
            rule,
            total_steps,
            steps,
        ),
    decreases steps,
{
    if steps > 0 {
        lemma_run_follows_rule(
            accept_uphill,
            sessions,
            applicants,
            desired,
            seed,
            total_steps,
            rule,
            answers,
            (steps - 1) as nat,
        );
        assert(answer_given(
            accept_uphill,
            sessions,
            applicants,
            desired,
            seed,
            total_steps,
            answers,
            steps - 1,
        ));
    }
}

/// Accepts the working allocation: a copy of it is kept, and its cost
/// becomes the current cost.
pub fn keep(
    working: &Vec<SessionAllocation>,
    new_cost: u64,
    kept: &mut Vec<SessionAllocation>,
    cost: &mut u64,
)
    ensures
        plan(final(kept)@) == plan(working@),
        *final(cost) == new_cost,
{
    *kept = copy_allocation(working);
    *cost = new_cost;
}

/// Rejects the working allocation: the copy kept at the last acceptance
/// takes its place.
pub fn put_back(working: &mut Vec<SessionAllocation>, kept: &Vec<SessionAllocation>)
    ensures
        plan(final(working)@) == plan(kept@),
{
    *working = copy_allocation(kept);
}

impl<'a> Solver<'a> {
    /// A step leads from `before` to `after` when `answer` is what
    /// `accept_uphill` gave: `after` is the step's outcome for that answer,
    /// and where the step's verdict is `Uphill`, the answer is one that
    /// `accept_uphill` gives when handed the state of the random stream after
    /// the mutation, the rise in cost, the number of the step and the number
    /// of steps.
    pub open spec fn steps<F: Fn(u64, u64, u64, u64) -> (bool, u64)>(
        &self,
        accept_uphill: &F,
        before: SearchState,
        step: u64,
        total_steps: u64,
        answer: (bool, u64),
        after: SearchState,
    ) -> bool {
        &&& after == step_outcome(self.sessions@, self.pool(), self.desired(), before, answer)
        &&& step_verdict(self.sessions@, self.pool(), self.desired(), before)
            matches Verdict::Uphill { increase } ==> call_ensures(
            accept_uphill,
            (
                mutation_step(self.pool(), before.plan, before.state).state,
                increase,
                step,
                total_steps,
            ),
            answer,
        )
    }

    /// One step of a search. Mutates the working allocation and evaluates
    /// it. An infeasible result is put back, one that costs no more is
    /// accepted, and for one that costs more `accept_uphill` decides: it is
    /// handed the state of the random stream, the rise in cost, the number
    /// of the step and the number of steps, and gives back its decision and
    /// the state of the stream after its draw.
    pub fn anneal_step<F: Fn(u64, u64, u64, u64) -> (bool, u64)>(
        &self,
        working: &mut Vec<SessionAllocation>,
        kept: &mut Vec<SessionAllocation>,
        cost: &mut u64,
        stream: &mut RandomStream,
        step: u64,
        total_steps: u64,
        accept_uphill: &F,
    )
        requires
            self.wf(),
            self.admits(plan(old(working)@)),
            plan(old(kept)@) == plan(old(working)@),
            self.cost(plan(old(working)@)) == Some(*old(cost) as nat),
            forall|state: u64, increase: u64, at: u64, of: u64|
                call_requires(accept_uphill, (state, increase, at, of)),
        ensures
            self.admits(plan(final(working)@)),
            plan(final(kept)@) == plan(final(working)@),
            self.cost(plan(final(working)@)) == Some(*final(cost) as nat),
            exists|answer: (bool, u64)| #[trigger]
                self.steps(
                    accept_uphill,
                    (SearchState {
                        plan: plan(old(working)@),
                        cost: *old(cost) as nat,
                        state: old(stream).state,
                    }),
                    step,
                    total_steps,
                    answer,
                    (SearchState {
                        plan: plan(final(working)@),
                        cost: *final(cost) as nat,
                        state: final(stream).state,
                    }),
                ),
    {
        let ghost before = SearchState {
            plan: plan(working@),
            cost: *cost as nat,
            state: stream.state,
        };
        match self.mutate_allocation(working, stream) {
            None => {
                proof {
                    let answer = (false, stream.state);
                    let after = SearchState {
                        plan: plan(working@),
                        cost: *cost as nat,
                        state: stream.state,
                    };
                    assert(self.steps(accept_uphill, before, step, total_steps, answer, after));
                }
            },
            Some(_) => {
                let new_cost = self.eval_allocation(working.as_slice());
                match judge(*cost, new_cost) {
                    Verdict::Reject => {
                        put_back(working, kept);
                        proof {
                            let answer = (false, stream.state);
                            let after = SearchState {
                                plan: plan(working@),
                                cost: *cost as nat,
                                state: stream.state,
                            };
                            assert(self.steps(
                                accept_uphill,
                                before,
                                step,
                                total_steps,
                                answer,
                                after,
                            ));
                        }
                    },
                    Verdict::Accept => {
                        keep(working, new_cost.unwrap(), kept, cost);
                        proof {
                            let answer = (false, stream.state);
                            let after = SearchState {
                                plan: plan(working@),
                                cost: *cost as nat,
                                state: stream.state,
                            };
                            assert(self.steps(
                                accept_uphill,
                                before,
                                step,
                                total_steps,
                                answer,
                                after,
                            ));
                        }
                    },
                    Verdict::Uphill { increase } => {
                        let answer = accept_uphill(stream.state, increase, step, total_steps);
                        stream.state = answer.1;
                        if answer.0 {
                            keep(working, new_cost.unwrap(), kept, cost);
                        } else {
                            put_back(working, kept);
                        }
                        proof {
                            let after = SearchState {
                                plan: plan(working@),
                                cost: *cost as nat,
                                state: stream.state,
                            };
                            assert(self.steps(
                                accept_uphill,
                                before,
                                step,
                                total_steps,
                                answer,
                                after,
                            ));
                        }
                    },
                }
            },
        }
    }
}

impl<'a> Solver<'a> {
    /// One search run: starts from the allocation that assigns nobody, with
    /// a random stream seeded by `seed`, and takes `total_steps` steps. Gives
    /// the current allocation at the end and its cost. Whatever
    /// `accept_uphill` decides, that allocation is feasible.
    pub fn anneal<F: Fn(u64, u64, u64, u64) -> (bool, u64)>(
        &self,
        seed: u64,
        total_steps: u64,
        accept_uphill: &F,
    ) -> (found: (u64, Vec<SessionAllocation>))
        requires
            self.wf(),
            forall|state: u64, increase: u64, at: u64, of: u64|
                call_requires(accept_uphill, (state, increase, at, of)),
        ensures
            self.admits(plan(found.1@)),
            self.cost(plan(found.1@)) == Some(found.0 as nat),
            ends_a_run(
                accept_uphill,
                self.sessions@,
                self.pool(),
                self.desired(),
                seed,
                total_steps,
                found.0 as nat,
                plan(found.1@),
            ),
            forall|rule: UphillRule| #[trigger]
                follows(accept_uphill, rule) ==> run_result(
                    self.sessions@,
                    self.pool(),
                    self.desired(),
                    seed,
                    rule,
                    total_steps,
                ) == (found.0 as nat, plan(found.1@)),
    {
        let mut working = empty_allocation(self.sessions.len());
        proof {
            assert forall|s: int| 0 <= s < plan(working@).len() implies (#[trigger] plan(
                working@,
            )[s]).len() == 0 by {
                assert(working@[s]@.len() == 0);
            }
            lemma_empty_plan_feasible(self.sessions@, self.pool(), plan(working@));
        }
        let mut cost = self.eval_allocation(working.as_slice()).unwrap();
        let mut kept = copy_allocation(&working);
        let mut stream = RandomStream::with_seed(seed);
        let mut step: u64 = 0;
        let ghost mut answers: Seq<(bool, u64)> = Seq::empty();
        assert(plan(working@) =~= Seq::new(self.sessions@.len(), |s: int| Seq::<u16>::empty()));
        while step < total_steps
            invariant
                self.wf(),
                is_run(
                    accept_uphill,
                    self.sessions@,
                    self.pool(),
                    self.desired(),
                    seed,
                    total_steps,
                    answers,
                    step as nat,
                ),
                run_with(self.sessions@, self.pool(), self.desired(), seed, answers, step as nat)
                    == (SearchState {
                    plan: plan(working@),
                    cost: cost as nat,
                    state: stream.state,
                }),
                self.admits(plan(working@)),
                plan(kept@) == plan(working@),
                self.cost(plan(working@)) == Some(cost as nat),
                forall|state: u64, increase: u64, at: u64, of: u64|
                    call_requires(accept_uphill, (state, increase, at, of)),
                step <= total_steps,
                forall|rule: UphillRule| #[trigger]
                    follows(accept_uphill, rule) ==> run_state(
                        self.sessions@,
                        self.pool(),
                        self.desired(),
                        seed,
                        rule,
                        total_steps,
                        step as nat,
                    ) == (SearchState {
                        plan: plan(working@),
                        cost: cost as nat,
                        state: stream.state,
                    }),
            decreases total_steps - step,
        {
            let ghost before = SearchState {
                plan: plan(working@),
                cost: cost as nat,
                state: stream.state,
            };
            self.anneal_step(
                &mut working,
                &mut kept,
                &mut cost,
                &mut stream,
                step,
                total_steps,
                accept_uphill,
            );
            proof {
                let after = SearchState {
                    plan: plan(working@),
                    cost: cost as nat,
                    state: stream.state,
                };
                let answer = choose|answer: (bool, u64)| #[trigger]
                    self.steps(accept_uphill, before, step, total_steps, answer, after);
                let longer = answers.push(answer);
                assert forall|i: int| 0 <= i <= step implies #[trigger] answer_given(
                    accept_uphill,
                    self.sessions@,
                    self.pool(),
                    self.desired(),
                    seed,
                    total_steps,
                    longer,
                    i,
                ) by {
                    lemma_run_with_more(
                        self.sessions@,
                        self.pool(),
                        self.desired(),
                        seed,
                        answers,
                        answer,
                        i as nat,
                    );
                    if i < step {
                        assert(answer_given(
                            accept_uphill,
                            self.sessions@,
                            self.pool(),
                            self.desired(),
                            seed,
                            total_steps,
                            answers,
                            i,
                        ));
                        assert(longer[i] == answers[i]);
                    }
                }
                lemma_run_with_more(
                    self.sessions@,
                    self.pool(),
                    self.desired(),
                    seed,
                    answers,
                    answer,
                    step as nat,
                );
                answers = longer;
                assert forall|rule: UphillRule| #[trigger]
                    follows(accept_uphill, rule) implies run_state(
                    self.sessions@,
                    self.pool(),
                    self.desired(),
                    seed,
                    rule,
                    total_steps,
                    (step + 1) as nat,
                ) == after by {
                    assert(run_state(
                        self.sessions@,
                        self.pool(),
                        self.desired(),
                        seed,
                        rule,
                        total_steps,
                        step as nat,
                    ) == before);
                }
            }
            step += 1;
        }
        (cost, kept)
    }
}

/// Searches for a cheap allocation of `applicants` to `sessions`: groups
/// the sessions by week and makes one search run of `TOTAL_STEPS` steps from
/// `seed`. The input is one that no `input_error` refuses, which
/// `input_refusal` tests.
pub fn solve<F: Fn(u64, u64, u64, u64) -> (bool, u64)>(
    applicants: &[Applicant],
    sessions: &[Session],
    desired_hours: &[(WeekNum, u16)],
    seed: u64,
    accept_uphill: &F,
) -> (found: (u64, Vec<SessionAllocation>))
    requires
        input_error(pool_of(applicants@), sessions@, desired_hours@) is None,
        forall|state: u64, increase: u64, at: u64, of: u64|
            call_requires(accept_uphill, (state, increase, at, of)),
    ensures
        valid_plan(plan(found.1@), sessions@.len(), applicants@.len()),
        allocation_cost(sessions@, pool_of(applicants@), desired_hours@, plan(found.1@)) == Some(
            found.0 as nat,
        ),
        ends_a_run(
            accept_uphill,
            sessions@,
            pool_of(applicants@),
            desired_hours@,
            seed,
            TOTAL_STEPS,
            found.0 as nat,
            plan(found.1@),
        ),
        forall|rule: UphillRule| #[trigger]
            follows(accept_uphill, rule) ==> run_result(
                sessions@,
                pool_of(applicants@),
                desired_hours@,
                seed,
                rule,
                TOTAL_STEPS,
            ) == (found.0 as nat, plan(found.1@)),
{
    let solver = Solver::new(applicants, sessions, desired_hours).unwrap();
    solver.anneal(seed, TOTAL_STEPS, accept_uphill)
}

} // verus!
