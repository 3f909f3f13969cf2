use session_scheduler::allocation::{copy_allocation, empty_allocation, SessionAllocation};
use session_scheduler::anneal::{judge, keep, put_back, solve, Verdict, TOTAL_STEPS};
use session_scheduler::mutate::Mutation;
use session_scheduler::select::{filter_course, resolve_allocation, solve_many_times};
use session_scheduler::setup::{input_refusal, InputError};
use session_scheduler::solver::Solver;
use session_scheduler::stream::RandomStream;
use session_scheduler::types::{Applicant, Availability, Course, Day, Session, Venue, WeekNum};

use Availability::{Dislike, Impossible, Possible, Preferred};

fn annealing_rule(state: u64, increase: u64, step: u64, total_steps: u64) -> (bool, u64) {
    let mut generator = fastrand::Rng::with_seed(state);
    let temperature = 5.0f32 * (total_steps as f32) / ((step as f32) + 1.0);
    let probability = (-(increase as f32) / temperature).exp();
    let accepted = generator.f32() < probability;
    (accepted, generator.get_seed())
}

fn never_uphill(state: u64, _increase: u64, _step: u64, _total_steps: u64) -> (bool, u64) {
    (false, state)
}

fn session(id: usize, week: u8, length_hours: u8) -> Session {
    Session { id, day: Day::Mon, week: WeekNum(week), venue: Venue::FaceToFace, time_24hr: 10, length_hours }
}

fn applicant(id: u32, course: Course, max_hours_per_week: u16, availabilities: Vec<Availability>) -> Applicant {
    Applicant {
        id,
        email: format!("tutor{id}@example.org"),
        name: format!("Tutor {id}"),
        course,
        max_hours_per_week,
        availabilities,
    }
}

fn held(allocation: &[SessionAllocation]) -> Vec<Vec<u16>> {
    allocation.iter().map(|record| record.to_vec()).collect()
}

fn small_problem() -> (Vec<Applicant>, Vec<Session>, Vec<(WeekNum, u16)>) {
    let sessions = vec![session(0, 1, 1), session(1, 1, 2), session(2, 2, 1), session(3, 2, 3)];
    let applicants = vec![
        applicant(0, Course::Comp1511, 2, vec![Preferred, Possible, Dislike, Impossible]),
        applicant(1, Course::Comp1511, 3, vec![Possible, Impossible, Preferred, Possible]),
        applicant(2, Course::Comp1511, 4, vec![Dislike, Preferred, Possible, Preferred]),
        applicant(3, Course::Comp1511, 6, vec![Impossible, Impossible, Preferred, Dislike]),
    ];
    let desired = vec![(WeekNum(1), 5u16), (WeekNum(2), 6u16)];
    (applicants, sessions, desired)
}

#[test]
fn stream_draws_what_the_generator_draws() {
    for seed in [0u64, 1, 42, u64::MAX] {
        let mut generator = fastrand::Rng::with_seed(seed);
        let mut stream = RandomStream::with_seed(seed);
        for bound in 1..200usize {
            assert_eq!(stream.index_below(bound), generator.usize(..bound));
            assert_eq!(stream.coin(), generator.u8(0..=1));
            assert_eq!(stream.state, generator.get_seed());
        }
    }
}

#[test]
fn stream_moves_on_with_each_draw() {
    let mut stream = RandomStream::with_seed(7);
    let mut seen = Vec::new();
    for _ in 0..64 {
        let before = stream.state;
        let index = stream.index_below(1000);
        assert!(index < 1000);
        assert_ne!(stream.state, before);
        seen.push(index);
    }
    seen.sort();
    seen.dedup();
    assert!(seen.len() > 32);
    let mut coins = [0usize; 2];
    for _ in 0..64 {
        coins[stream.coin() as usize] += 1;
    }
    assert!(coins[0] > 0 && coins[1] > 0);
}

#[test]
fn acceptance_rule_has_three_verdicts() {
    assert_eq!(judge(10, None), Verdict::Reject);
    assert_eq!(judge(10, Some(10)), Verdict::Accept);
    assert_eq!(judge(10, Some(0)), Verdict::Accept);
    assert_eq!(judge(10, Some(11)), Verdict::Uphill { increase: 1 });
    assert_eq!(judge(0, Some(u64::MAX)), Verdict::Uphill { increase: u64::MAX });
    assert_eq!(judge(0, None), Verdict::Reject);
}

#[test]
fn accepting_keeps_and_rejecting_restores() {
    let mut working = empty_allocation(2);
    let mut kept = copy_allocation(&working);
    let mut cost = 50;
    assert!(working[1].assign(4));
    keep(&working, 30, &mut kept, &mut cost);
    assert_eq!(cost, 30);
    assert_eq!(held(&kept), vec![vec![], vec![4]]);
    assert!(working[0].assign(2));
    put_back(&mut working, &kept);
    assert_eq!(held(&working), vec![vec![], vec![4]]);
    assert_eq!(held(&kept), vec![vec![], vec![4]]);
}

#[test]
fn every_mutation_is_legal() {
    let (applicants, sessions, desired) = small_problem();
    let solver = Solver::new(&applicants, &sessions, &desired).unwrap();
    let mut allocation = empty_allocation(sessions.len());
    let mut stream = RandomStream::with_seed(2024);
    let mut added = 0;
    let mut removed = 0;
    let mut idle = 0;
    for _ in 0..5000 {
        let before = held(&allocation);
        let mutation = solver.mutate_allocation(&mut allocation, &mut stream);
        let after = held(&allocation);
        match mutation {
            Some(Mutation::AddToSession { session, applicant }) => {
                added += 1;
                assert!(!before[session].contains(&applicant));
                assert_ne!(applicants[applicant as usize].availabilities[session], Impossible);
                let mut expected = before.clone();
                expected[session].push(applicant);
                assert_eq!(after, expected);
            }
            Some(Mutation::RemoveFromSession { session, applicant }) => {
                removed += 1;
                let position = before[session].iter().position(|id| *id == applicant).unwrap();
                let mut expected = before.clone();
                expected[session].remove(position);
                assert_eq!(after, expected);
            }
            None => {
                idle += 1;
                assert_eq!(after, before);
            }
        }
        for record in after.iter() {
            assert!(record.len() <= 5);
            let mut distinct = record.clone();
            distinct.sort();
            distinct.dedup();
            assert_eq!(distinct.len(), record.len());
        }
    }
    assert!(added > 100 && removed > 100 && idle > 100);
}

#[test]
fn mutation_without_sessions_does_nothing() {
    let solver = Solver::new(&[], &[], &[]).unwrap();
    let mut allocation = empty_allocation(0);
    let mut stream = RandomStream::with_seed(5);
    assert_eq!(solver.mutate_allocation(&mut allocation, &mut stream), None);
    assert_eq!(stream.state, 5);
    assert_eq!(solver.anneal(5, 100, &annealing_rule).0, 0);
}

#[test]
fn two_preferred_applicants_fill_one_session() {
    let sessions = vec![session(0, 1, 1)];
    let applicants = vec![
        applicant(0, Course::Comp1511, 10, vec![Preferred]),
        applicant(1, Course::Comp1511, 10, vec![Preferred]),
    ];
    let desired = vec![(WeekNum(1), 2u16)];
    for seed in 0..5u64 {
        let (cost, allocation) =
            solve(&applicants, &sessions, &desired, seed, &annealing_rule);
        assert_eq!(cost, 0);
        let mut assigned = allocation[0].to_vec();
        assigned.sort();
        assert_eq!(assigned, vec![0, 1]);
    }
}

#[test]
fn same_seed_gives_the_same_run() {
    let (applicants, sessions, desired) = small_problem();
    for seed in [1u64, 2, 99] {
        let (first_cost, first) = solve(&applicants, &sessions, &desired, seed, &annealing_rule);
        let (second_cost, second) = solve(&applicants, &sessions, &desired, seed, &annealing_rule);
        assert_eq!(first_cost, second_cost);
        assert_eq!(held(&first), held(&second));
    }
}

#[test]
fn result_is_feasible_and_costs_what_is_reported() {
    let (applicants, sessions, desired) = small_problem();
    let solver = Solver::new(&applicants, &sessions, &desired).unwrap();
    for seed in 0..6u64 {
        let (cost, allocation) = solve(&applicants, &sessions, &desired, seed, &annealing_rule);
        assert_eq!(solver.eval_allocation(&allocation), Some(cost));
        let (greedy_cost, greedy) = solve(&applicants, &sessions, &desired, seed, &never_uphill);
        assert_eq!(solver.eval_allocation(&greedy), Some(greedy_cost));
        assert!(greedy_cost <= 20 * 25 + 20 * 36);
    }
}

#[test]
fn a_run_is_its_steps() {
    let (applicants, sessions, desired) = small_problem();
    let solver = Solver::new(&applicants, &sessions, &desired).unwrap();
    let steps = 3000;
    let mut working = empty_allocation(sessions.len());
    let mut kept = copy_allocation(&working);
    let mut cost = solver.eval_allocation(&working).unwrap();
    let mut stream = RandomStream::with_seed(11);
    for step in 0..steps {
        assert!(solver.fits(&working));
        solver.anneal_step(&mut working, &mut kept, &mut cost, &mut stream, step, steps, &annealing_rule);
        assert_eq!(held(&working), held(&kept));
        assert_eq!(solver.eval_allocation(&working), Some(cost));
    }
    let (run_cost, run) = solver.anneal(11, steps, &annealing_rule);
    assert_eq!(run_cost, cost);
    assert_eq!(held(&run), held(&kept));
}

#[test]
fn applicant_who_cannot_come_in_a_week_is_never_assigned_in_it() {
    let sessions = vec![session(0, 1, 1), session(1, 1, 1), session(2, 2, 1)];
    let applicants = vec![
        applicant(0, Course::Comp1511, 9, vec![Impossible, Impossible, Preferred]),
        applicant(1, Course::Comp1511, 9, vec![Possible, Dislike, Impossible]),
    ];
    let desired = vec![(WeekNum(1), 4u16), (WeekNum(2), 2u16)];
    for seed in 0..8u64 {
        let (_, allocation) = solve(&applicants, &sessions, &desired, seed, &annealing_rule);
        assert!(!allocation[0].contains(0));
        assert!(!allocation[1].contains(0));
        assert!(!allocation[2].contains(1));
    }
}

#[test]
fn mismatched_weeks_are_refused_before_a_search() {
    let (applicants, sessions, desired) = small_problem();
    assert_eq!(input_refusal(&applicants, &sessions, &desired), None);
    assert_eq!(
        input_refusal(&applicants, &sessions, &[(WeekNum(1), 5u16)]),
        Some(InputError::WeekMismatch)
    );
    assert_eq!(
        input_refusal(&applicants, &sessions, &[(WeekNum(2), 3u16)]),
        Some(InputError::WeekMismatch)
    );
    let other = filter_course(&applicants, Course::Comp2521);
    assert_eq!(input_refusal(&other, &sessions, &desired), None);
    let short = vec![applicant(0, Course::Comp1511, 2, vec![Preferred])];
    assert_eq!(
        input_refusal(&short, &sessions, &desired),
        Some(InputError::AvailabilityMismatch)
    );
}

#[test]
fn best_run_is_the_first_least() {
    let (applicants, sessions, desired) = small_problem();
    let seeds = vec![3u64, 1, 4, 1, 5];
    let run = solve_many_times(
        seeds.clone(),
        Course::Comp1511,
        &applicants,
        &sessions,
        &desired,
        &annealing_rule,
    );
    assert_eq!(run.costs.len(), seeds.len());
    let least = *run.costs.iter().min().unwrap();
    assert_eq!(run.cost, least);
    let first = run.costs.iter().position(|cost| *cost == least).unwrap();
    assert_eq!(run.seed, seeds[first]);
    for (seed, cost) in seeds.iter().zip(run.costs.iter()) {
        let (alone, _) = solve(&applicants, &sessions, &desired, *seed, &annealing_rule);
        assert_eq!(alone, *cost);
    }
    let solver = Solver::new(&applicants, &sessions, &desired).unwrap();
    assert_eq!(solver.eval_allocation(&run.allocation), Some(least));
    let (_, again) = solve(&applicants, &sessions, &desired, run.seed, &annealing_rule);
    assert_eq!(held(&again), held(&run.allocation));
}

#[test]
fn ties_go_to_the_first_seed() {
    let sessions = vec![session(0, 1, 1)];
    let applicants = vec![applicant(0, Course::Comp1511, 10, vec![Preferred])];
    let desired = vec![(WeekNum(1), 1u16)];
    let run = solve_many_times(vec![9, 2, 7], Course::Comp1511, &applicants, &sessions, &desired, &annealing_rule);
    assert_eq!(run.costs, vec![0, 0, 0]);
    assert_eq!(run.seed, 9);
    assert_eq!(run.cost, 0);
}

#[test]
fn only_the_course_is_searched() {
    let sessions = vec![session(0, 1, 1)];
    let applicants = vec![
        applicant(0, Course::Comp1521, 10, vec![Preferred]),
        applicant(1, Course::Comp1511, 10, vec![Preferred]),
        applicant(2, Course::Comp2521, 10, vec![Preferred]),
        applicant(3, Course::Comp1511, 10, vec![Preferred]),
    ];
    let chosen = filter_course(&applicants, Course::Comp1511);
    assert_eq!(chosen.iter().map(|a| a.id).collect::<Vec<u32>>(), vec![1, 3]);
    assert_eq!(chosen[1].email, "tutor3@example.org");
    assert_eq!(filter_course(&applicants, Course::Comp2521).len(), 1);
    let desired = vec![(WeekNum(1), 2u16)];
    let run = solve_many_times(vec![1], Course::Comp1511, &applicants, &sessions, &desired, &annealing_rule);
    assert_eq!(run.cost, 0);
    assert_eq!(run.solution.len(), 1);
    assert_eq!(run.solution[0].session.id, 0);
    let mut ids: Vec<u32> = run.solution[0].applicants.iter().map(|a| a.id).collect();
    ids.sort();
    assert_eq!(ids, vec![1, 3]);
}

#[test]
fn allocation_resolves_to_records() {
    let (applicants, sessions, _) = small_problem();
    let mut allocation = empty_allocation(sessions.len());
    assert!(allocation[1].assign(2));
    assert!(allocation[1].assign(0));
    assert!(allocation[3].assign(3));
    let solution = resolve_allocation(&allocation, &sessions, &applicants);
    assert_eq!(solution.len(), 4);
    for (place, solved) in solution.iter().enumerate() {
        assert_eq!(solved.session.id, place);
        assert_eq!(solved.session.length_hours, sessions[place].length_hours);
    }
    let names: Vec<Vec<&str>> =
        solution.iter().map(|s| s.applicants.iter().map(|a| a.name.as_str()).collect()).collect();
    assert_eq!(names, vec![vec![], vec!["Tutor 2", "Tutor 0"], vec![], vec!["Tutor 3"]]);
}

fn plain_cost(
    applicants: &[Applicant],
    sessions: &[Session],
    desired: &[(WeekNum, u16)],
    allocation: &[Vec<u16>],
) -> Option<u64> {
    let mut total = 0u64;
    for (week, wanted) in desired {
        let mut hours = vec![0u64; applicants.len()];
        let mut effective = 0u64;
        let mut smallest = 5usize;
        let mut largest = 0usize;
        for (index, session) in sessions.iter().enumerate().filter(|(_, s)| s.week == *week) {
            effective += session.length_hours as u64 * allocation[index].len() as u64;
            for id in &allocation[index] {
                total += match applicants[*id as usize].availabilities[index] {
                    Impossible => return None,
                    Dislike => 100,
                    Possible => 5,
                    Preferred => 0,
                };
                hours[*id as usize] += session.length_hours as u64;
            }
            if !allocation[index].is_empty() {
                smallest = smallest.min(allocation[index].len());
                largest = largest.max(allocation[index].len());
            }
        }
        if hours.iter().zip(applicants).any(|(worked, a)| *worked > a.max_hours_per_week as u64) {
            return None;
        }
        let wanted = *wanted as u64;
        total += if effective < wanted { 20 * (wanted - effective).pow(2) } else { 200 * (effective - wanted) };
        if largest > smallest + 1 {
            total += 50 * (largest - smallest) as u64;
        }
    }
    Some(total)
}

fn plain_search(
    applicants: &[Applicant],
    sessions: &[Session],
    desired: &[(WeekNum, u16)],
    seed: u64,
) -> (u64, Vec<Vec<u16>>) {
    fastrand::seed(seed);
    let mut allocation: Vec<Vec<u16>> = vec![Vec::new(); sessions.len()];
    let mut cost = plain_cost(applicants, sessions, desired, &allocation).unwrap();
    let mut kept = allocation.clone();
    for step in 0..TOTAL_STEPS {
        let index = fastrand::usize(..allocation.len());
        let action = fastrand::u8(0..=1);
        let changed = if action == 0 {
            let choices: Vec<u16> = (0..applicants.len() as u16)
                .filter(|id| {
                    applicants[*id as usize].availabilities[index] != Impossible
                        && !allocation[index].contains(id)
                })
                .collect();
            if allocation[index].len() == 5 || choices.is_empty() {
                false
            } else {
                let choice = choices[fastrand::usize(0..choices.len())];
                allocation[index].push(choice);
                true
            }
        } else if allocation[index].is_empty() {
            false
        } else {
            let position = fastrand::usize(0..allocation[index].len());
            allocation[index].remove(position);
            true
        };
        if !changed {
            continue;
        }
        let accepted = match plain_cost(applicants, sessions, desired, &allocation) {
            None => None,
            Some(new_cost) if new_cost <= cost => Some(new_cost),
            Some(new_cost) => {
                let temperature = 5.0f32 * (TOTAL_STEPS as f32) / ((step as f32) + 1.0);
                let probability = (-((new_cost - cost) as f32) / temperature).exp();
                if fastrand::f32() < probability {
                    Some(new_cost)
                } else {
                    None
                }
            }
        };
        match accepted {
            Some(new_cost) => {
                cost = new_cost;
                kept = allocation.clone();
            }
            None => allocation = kept.clone(),
        }
    }
    (cost, kept)
}

#[test]
fn search_agrees_with_a_plain_search() {
    let (applicants, sessions, desired) = small_problem();
    for seed in [0u64, 1, 2, 3, 12345] {
        let (cost, allocation) = solve(&applicants, &sessions, &desired, seed, &annealing_rule);
        let (plain, kept) = plain_search(&applicants, &sessions, &desired, seed);
        assert_eq!(cost, plain);
        assert_eq!(held(&allocation), kept);
    }
}
