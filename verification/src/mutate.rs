use crate::allocation::{
    lemma_push_keeps_distinct, lemma_remove_keeps_distinct, plan, small_len, small_push,
    small_remove, SessionAllocation, MAX_TUTORS_PER_SESSION,
};
use crate::cost::rating;
use crate::solver::Solver;
use crate::stream::{drawn_below, drawn_coin, RandomStream};
use crate::types::{ApplicantView, Availability};
use vstd::prelude::*;

verus! {

/// One edit of an allocation.
#[derive(Clone, Copy, Debug, PartialEq, Eq, Structural)]
pub enum Mutation {
    /// `applicant` was added to session `session`.
    AddToSession { session: usize, applicant: u16 },
    /// `applicant` was removed from session `session`.
    RemoveFromSession { session: usize, applicant: u16 },
}

/// `applicant` can be added to `session`: they did not rate it impossible and
/// are not among `assigned`.
pub open spec fn can_add(
    applicants: Seq<ApplicantView>,
    session: int,
    assigned: Seq<u16>,
    applicant: int,
) -> bool {
    &&& rating(applicants, applicant, session) != Availability::Impossible
    &&& forall|k: int| 0 <= k < assigned.len() ==> assigned[k] != applicant
}

/// Those of the first `count` applicants who can be added to `session`, in
/// ascending order.
pub open spec fn candidates(
    applicants: Seq<ApplicantView>,
    session: int,
    assigned: Seq<u16>,
    count: nat,
) -> Seq<usize>
    decreases count,
{
    if count == 0 {
        Seq::empty()
    } else {
        let rest = candidates(applicants, session, assigned, (count - 1) as nat);
        if can_add(applicants, session, assigned, count - 1) {
            rest.push((count - 1) as usize)
        } else {
            rest
        }
    }
}

/// The candidates among the first `count` applicants are exactly those of
/// them who can be added, each once, in ascending order.
pub proof fn lemma_candidates(
    applicants: Seq<ApplicantView>,
    session: int,
    assigned: Seq<u16>,
    count: nat,
)
    requires
        count <= usize::MAX,
    ensures
        forall|i: int, j: int|
            0 <= i < j < candidates(applicants, session, assigned, count).len() ==> candidates(
                applicants,
                session,
                assigned,
                count,
            )[i] < candidates(applicants, session, assigned, count)[j],
        forall|i: int|
            0 <= i < candidates(applicants, session, assigned, count).len() ==> (
            #[trigger] candidates(applicants, session, assigned, count)[i]) < count && can_add(
                applicants,
                session,
                assigned,
                candidates(applicants, session, assigned, count)[i] as int,
            ),
        forall|a: usize|
            a < count && can_add(applicants, session, assigned, a as int) ==> #[trigger] candidates(
                applicants,
                session,
                assigned,
                count,
            ).contains(a),
    decreases count,
{
    if count > 0 {
        let all = candidates(applicants, session, assigned, count);
        let rest = candidates(applicants, session, assigned, (count - 1) as nat);
        lemma_candidates(applicants, session, assigned, (count - 1) as nat);
        assert forall|i: int, j: int| 0 <= i < j < all.len() implies all[i] < all[j] by {
            assert(all[i] == rest[i]);
            if j < rest.len() {
                assert(all[j] == rest[j]);
            }
        }
        assert forall|a: usize|
            a < count && can_add(applicants, session, assigned, a as int) implies #[trigger] all.contains(
            a,
        ) by {
            if a < count - 1 {
                assert(rest.contains(a));
                let i = choose|i: int| 0 <= i < rest.len() && rest[i] == a;
                assert(all[i] == a);
            } else {
                assert(all[all.len() - 1] == a);
            }
        }
    }
}

/// What one step of the mutator yields.
pub struct MutationStep {
    /// The edit made, if one was.
    pub mutation: Option<Mutation>,
    /// The allocation after the step.
    pub plan: Seq<Seq<u16>>,
    /// The state of the random stream after the step.
    pub state: u64,
}

/// The step the mutator takes on `plan` with a random stream in state
/// `state`. It draws a session, then 0 to add or 1 to remove. To add, it
/// draws one of the applicants who can be added, unless the session is full
/// or there is none. To remove, it draws one of the applicants assigned,
/// unless there is none. Without sessions it draws nothing.
pub open spec fn mutation_step(
    applicants: Seq<ApplicantView>,
    plan: Seq<Seq<u16>>,
    state: u64,
) -> MutationStep {
    if plan.len() == 0 {
        MutationStep { mutation: None, plan, state }
    } else {
        let (session, state1) = drawn_below(state, plan.len() as u64);
        let (action, state2) = drawn_coin(state1);
        let assigned = plan[session as int];
        if action == 0 {
            let choices = candidates(applicants, session as int, assigned, applicants.len());
            if assigned.len() == MAX_TUTORS_PER_SESSION || choices.len() == 0 {
                MutationStep { mutation: None, plan, state: state2 }
            } else {
                let (choice, state3) = drawn_below(state2, choices.len() as u64);
                let applicant = choices[choice as int] as u16;
                MutationStep {
                    mutation: Some(
                        Mutation::AddToSession { session: session as usize, applicant },
                    ),
                    plan: plan.update(session as int, assigned.push(applicant)),
                    state: state3,
                }
            }
        } else {
            if assigned.len() == 0 {
                MutationStep { mutation: None, plan, state: state2 }
            } else {
                let (position, state3) = drawn_below(state2, assigned.len() as u64);
                MutationStep {
                    mutation: Some(
                        Mutation::RemoveFromSession {
                            session: session as usize,
                            applicant: assigned[position as int],
                        },
                    ),
                    plan: plan.update(session as int, assigned.remove(position as int)),
                    state: state3,
                }
            }
        }
    }
}

/// The edit `mutation` is legal on `before` and leads to `after`: an added
/// applicant was not at the session and did not rate it impossible; a removed
/// applicant was at the session; all other sessions stay as they were.
pub open spec fn legal_mutation(
    applicants: Seq<ApplicantView>,
    before: Seq<Seq<u16>>,
    mutation: Mutation,
    after: Seq<Seq<u16>>,
) -> bool {
    match mutation {
        Mutation::AddToSession { session, applicant } => {
            &&& session < before.len()
            &&& applicant < applicants.len()
            &&& !before[session as int].contains(applicant)
            &&& rating(applicants, applicant as int, session as int) != Availability::Impossible
            &&& after == before.update(session as int, before[session as int].push(applicant))
        },
        Mutation::RemoveFromSession { session, applicant } => {
            &&& session < before.len()
            &&& before[session as int].contains(applicant)
            &&& exists|position: int|
                0 <= position < before[session as int].len() && before[session as int][position]
                    == applicant && after == before.update(
                    session as int,
                    #[trigger] before[session as int].remove(position),
                )
        },
    }
}

impl<'a> Solver<'a> {
    /// The applicants who can be added to session `s`, in ascending order.
    fn possible_applicants(&self, s: usize, record: &SessionAllocation) -> (choices: Vec<usize>)
        requires
            self.wf(),
            s < self.sessions@.len(),
        ensures
            choices@ == candidates(self.pool(), s as int, record@, self.applicants@.len()),
            forall|i: int|
                0 <= i < choices@.len() ==> (#[trigger] choices@[i]) < self.applicants@.len()
                    && can_add(
                    self.pool(),
                    s as int,
                    record@,
                    choices@[i] as int,
                ),
    {
        let mut choices: Vec<usize> = Vec::new();
        let mut a: usize = 0;
        while a < self.applicants.len()
            invariant
                self.wf(),
                s < self.sessions@.len(),
                a <= self.applicants@.len(),
                choices@ == candidates(self.pool(), s as int, record@, a as nat),
                forall|i: int|
                    0 <= i < choices@.len() ==> (#[trigger] choices@[i]) < a && can_add(
                        self.pool(),
                        s as int,
                        record@,
                        choices@[i] as int,
                    ),
            decreases self.applicants@.len() - a,
        {
            assert(self.pool()[a as int].availabilities.len() == self.sessions@.len());
            let impossible = match self.applicants[a].availabilities[s] {
                Availability::Impossible => true,
                _ => false,
            };
            if !impossible && !record.contains(a as u16) {
                assert(can_add(self.pool(), s as int, record@, a as int)) by {
                    assert forall|k: int| 0 <= k < record@.len() implies record@[k] != a by {
                        if record@[k] == a {
                            assert(record@.contains(a as u16));
                        }
                    }
                }
                choices.push(a);
            } else {
                assert(!can_add(self.pool(), s as int, record@, a as int)) by {
                    if !impossible {
                        let k = choose|k: int| 0 <= k < record@.len() && record@[k] == a as u16;
                        assert(record@[k] == a);
                    }
                }
            }
            a += 1;
        }
        choices
    }

    /// Edits the allocation at random: adds an applicant to a session or
    /// removes one from it, and says what it did; leaves the allocation as
    /// it was where the edit drawn cannot be made.
    pub fn mutate_allocation(
        &self,
        allocations: &mut Vec<SessionAllocation>,
        stream: &mut RandomStream,
    ) -> (mutation: Option<Mutation>)
        requires
            self.wf(),
            self.admits(plan(old(allocations)@)),
        ensures
            self.admits(plan(final(allocations)@)),
            mutation == mutation_step(
                self.pool(),
                plan(old(allocations)@),
                old(stream).state,
            ).mutation,
            plan(final(allocations)@) == mutation_step(
                self.pool(),
                plan(old(allocations)@),
                old(stream).state,
            ).plan,
            final(stream).state == mutation_step(
                self.pool(),
                plan(old(allocations)@),
                old(stream).state,
            ).state,
            mutation matches Some(made) ==> legal_mutation(
                self.pool(),
                plan(old(allocations)@),
                made,
                plan(final(allocations)@),
            ),
            mutation is None ==> plan(final(allocations)@) == plan(old(allocations)@),
    {
        let ghost before = plan(allocations@);
        if allocations.len() == 0 {
            return None;
        }
        let session_index = stream.index_below(allocations.len());
        let action = stream.coin();
        assert(before[session_index as int] == allocations@[session_index as int]@);
        if action == 0 {
            if small_len(&allocations[session_index]) == MAX_TUTORS_PER_SESSION {
                return None;
            }
            let choices = self.possible_applicants(session_index, &allocations[session_index]);
            if choices.len() == 0 {
                return None;
            }
            let choice = stream.index_below(choices.len());
            let applicant = choices[choice] as u16;
            small_push(&mut allocations[session_index], applicant);
            proof {
                let assigned = before[session_index as int];
                assert(can_add(self.pool(), session_index as int, assigned, applicant as int));
                assert(!assigned.contains(applicant));
                lemma_push_keeps_distinct(assigned, applicant);
                assert(plan(allocations@) =~= before.update(
                    session_index as int,
                    assigned.push(applicant),
                ));
            }
            Some(Mutation::AddToSession { session: session_index, applicant })
        } else {
            let count = small_len(&allocations[session_index]);
            if count == 0 {
                return None;
            }
            let position = stream.index_below(count);
            let applicant = small_remove(&mut allocations[session_index], position);
            proof {
                let assigned = before[session_index as int];
                lemma_remove_keeps_distinct(assigned, position as int);
                assert(plan(allocations@) =~= before.update(
                    session_index as int,
                    assigned.remove(position as int),
                ));
                assert(assigned[position as int] == applicant);
            }
            Some(Mutation::RemoveFromSession { session: session_index, applicant })
        }
    }
}

} // verus!
