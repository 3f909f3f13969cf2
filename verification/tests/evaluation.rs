use session_scheduler::allocation::{
    copy_allocation, empty_allocation, SessionAllocation, MAX_TUTORS_PER_SESSION,
};
use session_scheduler::setup::InputError;
use session_scheduler::solver::Solver;
use session_scheduler::types::{Applicant, Availability, Course, Day, Session, Venue, WeekNum};

fn session(id: usize, week: u8, length_hours: u8) -> Session {
    Session { id, day: Day::Mon, week: WeekNum(week), venue: Venue::FaceToFace, time_24hr: 10, length_hours }
}

fn applicant(id: u32, max_hours_per_week: u16, availabilities: Vec<Availability>) -> Applicant {
    Applicant {
        id,
        email: format!("tutor{id}@example.org"),
        name: format!("Tutor {id}"),
        course: Course::Comp1511,
        max_hours_per_week,
        availabilities,
    }
}

fn allocation(assigned: &[&[u16]]) -> Vec<SessionAllocation> {
    let mut records = empty_allocation(assigned.len());
    for (record, ids) in records.iter_mut().zip(assigned) {
        for id in ids.iter() {
            assert!(record.assign(*id));
        }
    }
    records
}

fn cost(
    applicants: &[Applicant],
    sessions: &[Session],
    desired: &[(WeekNum, u16)],
    assigned: &[&[u16]],
) -> Option<u64> {
    let solver = Solver::new(applicants, sessions, desired).unwrap();
    solver.eval_allocation(&allocation(assigned))
}

use Availability::{Dislike, Impossible, Possible, Preferred};

#[test]
fn records_hold_at_most_five_distinct_applicants() {
    let mut record = SessionAllocation::new();
    assert_eq!(record.len(), 0);
    assert!(!record.contains(3));
    assert!(record.assign(3));
    assert!(record.contains(3));
    assert!(!record.assign(3));
    for id in [9, 1, 7, 5] {
        assert!(record.assign(id));
    }
    assert_eq!(record.len(), MAX_TUTORS_PER_SESSION);
    assert!(!record.assign(2));
    assert_eq!(record.to_vec(), vec![3, 9, 1, 7, 5]);
    assert_eq!(record.unassign_at(1), Some(9));
    assert_eq!(record.to_vec(), vec![3, 1, 7, 5]);
    assert_eq!(record.unassign_at(4), None);
    assert_eq!(record.unassign_at(3), Some(5));
    assert_eq!(record.unassign_at(0), Some(3));
    assert_eq!(record.to_vec(), vec![1, 7]);
    let copy = record.clone();
    assert!(record.assign(2));
    assert_eq!(copy.to_vec(), vec![1, 7]);
    assert_eq!(record.to_vec(), vec![1, 7, 2]);
}

#[test]
fn copies_of_allocations_are_independent() {
    let mut first = allocation(&[&[0, 1], &[], &[2]]);
    let second = copy_allocation(&first);
    assert!(first[1].assign(4));
    let held: Vec<Vec<u16>> = second.iter().map(|record| record.to_vec()).collect();
    assert_eq!(held, vec![vec![0, 1], vec![], vec![2]]);
}

#[test]
fn unstaffed_week_costs_its_full_shortfall() {
    let sessions = vec![session(0, 1, 1), session(1, 1, 2)];
    let applicants = vec![applicant(0, 10, vec![Impossible, Impossible])];
    assert_eq!(cost(&applicants, &sessions, &[(WeekNum(1), 7)], &[&[], &[]]), Some(20 * 7 * 7));
    assert_eq!(cost(&[], &sessions, &[(WeekNum(1), 7)], &[&[], &[]]), Some(980));
    assert_eq!(cost(&[], &sessions, &[(WeekNum(1), 0)], &[&[], &[]]), Some(0));
    assert_eq!(
        cost(&[], &sessions, &[(WeekNum(1), 65535)], &[&[], &[]]),
        Some(20 * 65535 * 65535)
    );
}

#[test]
fn each_rating_has_its_cost() {
    let sessions = vec![session(0, 1, 1)];
    let desired = [(WeekNum(1), 1)];
    assert_eq!(cost(&[applicant(0, 9, vec![Preferred])], &sessions, &desired, &[&[0]]), Some(0));
    assert_eq!(cost(&[applicant(0, 9, vec![Possible])], &sessions, &desired, &[&[0]]), Some(5));
    assert_eq!(cost(&[applicant(0, 9, vec![Dislike])], &sessions, &desired, &[&[0]]), Some(100));
    assert_eq!(cost(&[applicant(0, 9, vec![Impossible])], &sessions, &desired, &[&[0]]), None);
}

#[test]
fn shortfall_is_quadratic_and_excess_linear() {
    let sessions = vec![session(0, 1, 2)];
    let applicants = vec![
        applicant(0, 9, vec![Preferred]),
        applicant(1, 9, vec![Preferred]),
        applicant(2, 9, vec![Preferred]),
    ];
    assert_eq!(cost(&applicants, &sessions, &[(WeekNum(1), 9)], &[&[0]]), Some(20 * 7 * 7));
    assert_eq!(cost(&applicants, &sessions, &[(WeekNum(1), 5)], &[&[0, 1]]), Some(20));
    assert_eq!(cost(&applicants, &sessions, &[(WeekNum(1), 4)], &[&[0, 1]]), Some(0));
    assert_eq!(cost(&applicants, &sessions, &[(WeekNum(1), 3)], &[&[0, 1]]), Some(200));
    assert_eq!(cost(&applicants, &sessions, &[(WeekNum(1), 1)], &[&[0, 1, 2]]), Some(200 * 5));
}

#[test]
fn uneven_staffing_is_penalised() {
    let sessions = vec![session(0, 1, 1), session(1, 1, 1), session(2, 1, 1)];
    let applicants: Vec<Applicant> =
        (0..6).map(|id| applicant(id, 9, vec![Preferred, Preferred, Preferred])).collect();
    assert_eq!(cost(&applicants, &sessions, &[(WeekNum(1), 4)], &[&[0, 1, 2], &[3], &[]]), Some(100));
    assert_eq!(cost(&applicants, &sessions, &[(WeekNum(1), 3)], &[&[0, 1], &[3], &[]]), Some(0));
    assert_eq!(cost(&applicants, &sessions, &[(WeekNum(1), 3)], &[&[0, 1, 2], &[], &[]]), Some(0));
    assert_eq!(
        cost(&applicants, &sessions, &[(WeekNum(1), 7)], &[&[0, 1, 2, 3, 4], &[5], &[0]]),
        Some(200)
    );
    assert_eq!(
        cost(&applicants, &sessions, &[(WeekNum(1), 7)], &[&[0, 1, 2, 3, 4], &[5, 0], &[]]),
        Some(150)
    );
}

#[test]
fn weekly_ceilings_hold_week_by_week() {
    let sessions = vec![session(0, 1, 2), session(1, 1, 2), session(2, 2, 2)];
    let applicants = vec![applicant(0, 3, vec![Preferred, Preferred, Preferred])];
    let desired = [(WeekNum(1), 2), (WeekNum(2), 2)];
    assert_eq!(cost(&applicants, &sessions, &desired, &[&[0], &[], &[0]]), Some(0));
    assert_eq!(cost(&applicants, &sessions, &desired, &[&[0], &[0], &[]]), None);
    let roomy = vec![applicant(0, 4, vec![Preferred, Preferred, Preferred])];
    assert_eq!(cost(&roomy, &sessions, &desired, &[&[0], &[0], &[]]), Some(200 * 2 + 20 * 4));
}

#[test]
fn costs_of_weeks_add_up() {
    let sessions = vec![session(0, 4, 1), session(1, 2, 3), session(2, 4, 2)];
    let applicants = vec![
        applicant(0, 9, vec![Possible, Dislike, Preferred]),
        applicant(1, 9, vec![Dislike, Possible, Possible]),
    ];
    let desired = [(WeekNum(2), 5), (WeekNum(4), 4)];
    let first = 5 + 20 * 2 * 2;
    let second = 5 + 100 + 5;
    assert_eq!(
        cost(&applicants, &sessions, &desired, &[&[0, 1], &[1], &[1]]),
        Some(first + second)
    );
    let swapped = [(WeekNum(4), 4), (WeekNum(2), 5)];
    assert_eq!(
        cost(&applicants, &sessions, &swapped, &[&[0, 1], &[1], &[1]]),
        Some(first + second)
    );
}

#[test]
fn evaluation_is_repeatable() {
    let sessions = vec![session(0, 1, 1), session(1, 1, 2)];
    let applicants = vec![
        applicant(0, 9, vec![Possible, Dislike]),
        applicant(1, 9, vec![Dislike, Possible]),
    ];
    let desired = [(WeekNum(1), 5)];
    let solver = Solver::new(&applicants, &sessions, &desired).unwrap();
    let records = allocation(&[&[0, 1], &[1]]);
    let first = solver.eval_allocation(&records);
    let second = solver.eval_allocation(&records);
    assert_eq!(first, second);
    assert_eq!(first, Some(105 + 5 + 20));
    assert_eq!(solver.eval_allocation(&copy_allocation(&records)), first);
}

fn refusal(
    applicants: &[Applicant],
    sessions: &[Session],
    desired: &[(WeekNum, u16)],
) -> Option<InputError> {
    Solver::new(applicants, sessions, desired).err()
}

#[test]
fn weeks_must_match() {
    let sessions = vec![session(0, 1, 1), session(1, 3, 1)];
    assert_eq!(refusal(&[], &sessions, &[(WeekNum(1), 1), (WeekNum(3), 1)]), None);
    assert_eq!(refusal(&[], &sessions, &[(WeekNum(3), 1), (WeekNum(1), 1)]), None);
    assert_eq!(refusal(&[], &sessions, &[(WeekNum(1), 1)]), Some(InputError::WeekMismatch));
    assert_eq!(
        refusal(&[], &sessions, &[(WeekNum(1), 1), (WeekNum(2), 1)]),
        Some(InputError::WeekMismatch)
    );
    assert_eq!(
        refusal(&[], &sessions, &[(WeekNum(1), 1), (WeekNum(3), 1), (WeekNum(5), 1)]),
        Some(InputError::WeekMismatch)
    );
    assert_eq!(
        refusal(&[], &sessions, &[(WeekNum(1), 1), (WeekNum(3), 1), (WeekNum(1), 2)]),
        Some(InputError::WeekMismatch)
    );
    assert_eq!(refusal(&[], &[], &[]), None);
    assert_eq!(refusal(&[], &[], &[(WeekNum(1), 1)]), Some(InputError::WeekMismatch));
}

#[test]
fn weeks_are_grouped() {
    let sessions = vec![session(0, 7, 1), session(1, 3, 1), session(2, 7, 1), session(3, 3, 2)];
    let solver = Solver::new(&[], &sessions, &[(WeekNum(3), 4), (WeekNum(7), 9)]).unwrap();
    assert_eq!(solver.weeks.len(), 2);
    assert_eq!(solver.weeks[0].week, WeekNum(3));
    assert_eq!(solver.weeks[0].desired_total_hours, 4);
    assert_eq!(solver.weeks[0].session_indexes, vec![1, 3]);
    assert_eq!(solver.weeks[1].week, WeekNum(7));
    assert_eq!(solver.weeks[1].desired_total_hours, 9);
    assert_eq!(solver.weeks[1].session_indexes, vec![0, 2]);
}

#[test]
fn every_applicant_must_rate_every_session() {
    let sessions = vec![session(0, 1, 1), session(1, 1, 1)];
    let desired = [(WeekNum(1), 1)];
    assert_eq!(
        refusal(&[applicant(0, 9, vec![Preferred])], &sessions, &desired),
        Some(InputError::AvailabilityMismatch)
    );
    assert_eq!(
        refusal(&[applicant(0, 9, vec![Preferred, Possible, Dislike])], &sessions, &desired),
        Some(InputError::AvailabilityMismatch)
    );
    assert_eq!(
        refusal(&[applicant(0, 9, vec![Preferred])], &sessions, &[(WeekNum(2), 1)]),
        Some(InputError::AvailabilityMismatch)
    );
    assert_eq!(refusal(&[applicant(0, 9, vec![Preferred, Possible])], &sessions, &desired), None);
}

#[test]
fn applicants_are_counted() {
    let sessions = vec![session(0, 1, 1)];
    let desired = [(WeekNum(1), 1)];
    let crowd: Vec<Applicant> = (0..65537).map(|id| applicant(id, 9, vec![Preferred])).collect();
    assert_eq!(refusal(&crowd, &sessions, &desired), Some(InputError::TooManyApplicants));
    assert_eq!(refusal(&crowd[..65536], &sessions, &desired), None);
    let solver = Solver::new(&crowd[..65536], &sessions, &desired).unwrap();
    assert_eq!(solver.eval_allocation(&allocation(&[&[65535]])), Some(0));
}

#[test]
fn allocation_states_are_recognised() {
    let sessions = vec![session(0, 1, 1), session(1, 1, 1)];
    let applicants = vec![
        applicant(0, 9, vec![Preferred, Preferred]),
        applicant(1, 9, vec![Preferred, Preferred]),
    ];
    let solver = Solver::new(&applicants, &sessions, &[(WeekNum(1), 1)]).unwrap();
    assert!(solver.fits(&allocation(&[&[], &[]])));
    assert!(solver.fits(&allocation(&[&[1, 0], &[0]])));
    assert!(!solver.fits(&allocation(&[&[1, 0]])));
    assert!(!solver.fits(&allocation(&[&[], &[], &[]])));
    assert!(!solver.fits(&allocation(&[&[2], &[]])));
    assert!(!solver.fits(&allocation(&[&[0], &[1, 7]])));
}
