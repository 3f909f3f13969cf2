use session_scheduler::hours_by_tutor::{comes_before, tabulate_hours_by_tutor};
use session_scheduler::ordering::sort_order;
use session_scheduler::solution_output::{
    export_order, is_countable, is_rated, is_within_clock, output_to_atci_toml,
    tabulate_solution_info, SolvedSession,
};
use session_scheduler::summary::{hours_by_week, preference_totals};
use session_scheduler::types::{Applicant, Availability, Course, Day, Session, Venue, WeekNum};

use Availability::{Dislike, Impossible, Possible, Preferred};

fn tutor(name: &str, max_hours_per_week: u16, availabilities: Vec<Availability>) -> Applicant {
    Applicant {
        id: 0,
        email: format!("{}@example.org", name.to_lowercase()),
        name: name.to_string(),
        course: Course::Comp1511,
        max_hours_per_week,
        availabilities,
    }
}

fn solved(
    id: usize,
    day: Day,
    week: u8,
    venue: Venue,
    time_24hr: u8,
    length_hours: u8,
    applicants: Vec<Applicant>,
) -> SolvedSession {
    SolvedSession {
        session: Session { id, day, week: WeekNum(week), venue, time_24hr, length_hours },
        applicants,
    }
}

fn sample() -> Vec<SolvedSession> {
    let ann = tutor("Ann", 5, vec![Preferred, Possible, Dislike, Preferred]);
    let bob = tutor("Bob", 10, vec![Possible, Possible, Preferred, Impossible]);
    let cat = tutor("Cat", 15, vec![Dislike, Preferred, Preferred, Possible]);
    vec![
        solved(0, Day::Tue, 2, Venue::Online, 14, 1, vec![cat.clone(), ann.clone()]),
        solved(1, Day::Mon, 2, Venue::FaceToFace, 10, 2, vec![]),
        solved(2, Day::Wed, 1, Venue::FaceToFace, 9, 3, vec![bob.clone(), cat.clone(), ann.clone()]),
        solved(3, Day::Mon, 2, Venue::FaceToFace, 9, 2, vec![ann.clone()]),
    ]
}

#[test]
fn stable_order_sorts_and_keeps_ties() {
    assert_eq!(sort_order(&vec![]), Vec::<usize>::new());
    assert_eq!(sort_order(&vec![5]), vec![0]);
    assert_eq!(sort_order(&vec![3, 1, 2]), vec![1, 2, 0]);
    assert_eq!(sort_order(&vec![2, 1, 2, 1, 0, 2]), vec![4, 1, 3, 0, 2, 5]);
    assert_eq!(sort_order(&vec![7, 7, 7]), vec![0, 1, 2]);
    assert_eq!(sort_order(&vec![u32::MAX, 0, u32::MAX]), vec![1, 0, 2]);
}

#[test]
fn texts_are_compared_by_characters() {
    assert!(comes_before("a", "b"));
    assert!(!comes_before("b", "a"));
    assert!(!comes_before("a", "a"));
    assert!(comes_before("", "a"));
    assert!(!comes_before("a", ""));
    assert!(!comes_before("", ""));
    assert!(comes_before("ab", "abc"));
    assert!(comes_before("Z", "a"));
    assert!(comes_before("abc", "abd"));
    assert!(comes_before("z", "\u{e9}"));
    for (a, b) in [("z5000", "z51"), ("ann@x", "ann@y"), ("\u{1F600}", "\u{e9}"), ("x", "x ")] {
        assert_eq!(comes_before(a, b), a < b);
        assert_eq!(comes_before(b, a), b < a);
    }
}

#[test]
fn solution_is_tabulated_by_week() {
    assert!(is_rated(&sample()));
    let expected = "1\tWednesday\t9\t3\tf2f\t3\t2\t0\t1\t9\tBob, Cat, Ann\n\
                    2\tTuesday\t14\t1\tonline\t2\t1\t0\t1\t2\tCat, Ann\n\
                    2\tMonday\t10\t2\tf2f\t0\t0\t0\t0\t0\t\n\
                    2\tMonday\t9\t2\tf2f\t1\t1\t0\t0\t2\tAnn\n";
    assert_eq!(tabulate_solution_info(sample()), expected);
    assert_eq!(tabulate_solution_info(vec![]), "");
}

#[test]
fn solution_is_exported_in_order() {
    assert_eq!(export_order(&sample()), vec![2, 3, 0]);
    assert_eq!(export_order(&[]), Vec::<usize>::new());
    let same_slot = vec![
        solved(0, Day::Mon, 1, Venue::Online, 9, 1, vec![tutor("B", 1, vec![Possible, Possible])]),
        solved(1, Day::Mon, 1, Venue::FaceToFace, 9, 2, vec![tutor("A", 1, vec![Possible, Possible])]),
        solved(0, Day::Sat, 0, Venue::Online, 23, 1, vec![tutor("C", 1, vec![Possible, Possible])]),
        solved(0, Day::Mon, 1, Venue::Online, 8, 1, vec![tutor("D", 1, vec![Possible, Possible])]),
    ];
    assert_eq!(export_order(&same_slot), vec![2, 3, 0, 1]);
}

#[test]
fn timetable_file_is_written() {
    let expected = "# Generated by https://github.com/XavierCooney/help-session-auto-scheduler/\n\
                    # using the result seed 42\n\
                    \n\
                    [[class.consult]]\n\
                    instructors = ['bob@example.org', 'cat@example.org', 'ann@example.org'] # Bob, Cat, Ann\n\
                    weeks       = '1'\n\
                    day         = 'Wed'\n\
                    start       = '9:00'\n\
                    end         = '12:00'\n\
                    mode        = 'f2f'\n\
                    \n\
                    [[class.consult]]\n\
                    instructors = ['ann@example.org'] # Ann\n\
                    weeks       = '2'\n\
                    day         = 'Mon'\n\
                    start       = '9:00'\n\
                    end         = '11:00'\n\
                    mode        = 'f2f'\n\
                    \n\
                    [[class.consult]]\n\
                    instructors = ['cat@example.org', 'ann@example.org'] # Cat, Ann\n\
                    weeks       = '2'\n\
                    day         = 'Tue'\n\
                    start       = '14:00'\n\
                    end         = '15:00'\n\
                    mode        = 'online'\n\
                    \n";
    assert_eq!(output_to_atci_toml(sample(), 42), expected);
    assert_eq!(
        output_to_atci_toml(vec![], u64::MAX),
        "# Generated by https://github.com/XavierCooney/help-session-auto-scheduler/\n# using the result seed 18446744073709551615\n\n"
    );
}

#[test]
fn hours_are_tabulated_by_tutor() {
    let expected = "Name\tEmail\tMax hours\tWeek 1\tWeek 2\n\
                    Ann\tann@example.org\t5\t3\t3\n\
                    Bob\tbob@example.org\t10\t3\t0\n\
                    Cat\tcat@example.org\t15\t3\t1\n";
    assert_eq!(tabulate_hours_by_tutor(sample()), expected);
    assert_eq!(tabulate_hours_by_tutor(vec![]), "Name\tEmail\tMax hours\n");
    let unstaffed = vec![solved(0, Day::Mon, 3, Venue::Online, 9, 1, vec![])];
    assert_eq!(tabulate_hours_by_tutor(unstaffed), "Name\tEmail\tMax hours\n");
}

#[test]
fn first_record_of_a_tutor_counts() {
    let early = tutor("Ann", 5, vec![Preferred]);
    let mut late = tutor("Ann", 9, vec![Preferred]);
    late.name = "Annabel".to_string();
    let mut other = tutor("Zed", 1, vec![Preferred]);
    other.email = "aaa@example.org".to_string();
    let solution = vec![
        solved(0, Day::Mon, 200, Venue::Online, 9, 2, vec![early.clone(), other.clone()]),
        solved(0, Day::Tue, 7, Venue::Online, 9, 4, vec![late.clone()]),
        solved(0, Day::Wed, 200, Venue::Online, 9, 1, vec![late.clone(), late.clone()]),
    ];
    let expected = "Name\tEmail\tMax hours\tWeek 7\tWeek 200\n\
                    Zed\taaa@example.org\t1\t0\t2\n\
                    Ann\tann@example.org\t5\t4\t4\n";
    assert_eq!(tabulate_hours_by_tutor(solution), expected);
}

#[test]
fn sessions_that_cannot_be_written_are_found() {
    assert!(is_rated(&[]) && is_countable(&[]) && is_within_clock(&[]));
    let unrated = vec![solved(1, Day::Mon, 1, Venue::Online, 9, 1, vec![tutor("Ann", 5, vec![Preferred])])];
    assert!(!is_rated(&unrated));
    assert!(is_countable(&unrated) && is_within_clock(&unrated));
    assert_eq!(
        tabulate_hours_by_tutor(unrated.clone()),
        "Name\tEmail\tMax hours\tWeek 1\nAnn\tann@example.org\t5\t1\n"
    );
    assert_eq!(hours_by_week(&unrated), vec![(WeekNum(1), 1)]);
    assert!(output_to_atci_toml(unrated, 1).contains("end         = '10:00'"));
    let late = vec![solved(0, Day::Mon, 1, Venue::Online, 250, 6, vec![tutor("Ann", 5, vec![Preferred])])];
    assert!(!is_within_clock(&late));
    assert!(is_rated(&late) && is_countable(&late));
    assert_eq!(
        tabulate_solution_info(late.clone()),
        "1\tMonday\t250\t6\tonline\t1\t1\t0\t0\t6\tAnn\n"
    );
    assert_eq!(preference_totals(&late), vec![(Preferred, 1)]);
    assert_eq!(hours_by_week(&late), vec![(WeekNum(1), 6)]);
    let edge = vec![solved(0, Day::Mon, 1, Venue::Online, 250, 5, vec![tutor("Ann", 5, vec![Impossible])])];
    assert!(is_within_clock(&edge));
    assert!(output_to_atci_toml(edge, 1).contains("end         = '255:00'"));
}

#[test]
fn staffed_hours_are_summed_by_week() {
    assert_eq!(hours_by_week(&sample()), vec![(WeekNum(1), 9), (WeekNum(2), 4)]);
    assert_eq!(hours_by_week(&[]), vec![]);
    let unstaffed = vec![
        solved(0, Day::Mon, 255, Venue::Online, 9, 1, vec![]),
        solved(0, Day::Mon, 0, Venue::Online, 9, 1, vec![]),
    ];
    assert_eq!(hours_by_week(&unstaffed), vec![(WeekNum(0), 0), (WeekNum(255), 0)]);
}

#[test]
fn ratings_of_assignments_are_counted() {
    assert_eq!(preference_totals(&sample()), vec![(Dislike, 2), (Preferred, 4)]);
    assert_eq!(preference_totals(&[]), vec![]);
    let mixed = vec![solved(
        0,
        Day::Mon,
        1,
        Venue::Online,
        9,
        1,
        vec![
            tutor("A", 1, vec![Impossible]),
            tutor("B", 1, vec![Possible]),
            tutor("C", 1, vec![Possible]),
        ],
    )];
    assert_eq!(preference_totals(&mixed), vec![(Impossible, 1), (Possible, 2)]);
}

fn random_solution(seed: u64) -> Vec<SolvedSession> {
    let mut generator = fastrand::Rng::with_seed(seed);
    let days = [Day::Mon, Day::Tue, Day::Wed, Day::Thu, Day::Fri, Day::Sat];
    let ratings = [Impossible, Dislike, Possible, Preferred];
    let names = ["Ann", "Bob", "Cat", "Dan", "Eve", "\u{c9}mile", "ann", "Bo"];
    let sessions = generator.usize(0..12);
    let pool: Vec<Applicant> = names
        .iter()
        .map(|name| {
            let availabilities = (0..sessions).map(|_| ratings[generator.usize(0..4)]).collect();
            tutor(name, generator.u16(0..40), availabilities)
        })
        .collect();
    (0..sessions)
        .map(|id| {
            let count = generator.usize(0..5);
            let applicants = (0..count).map(|_| pool[generator.usize(0..pool.len())].clone()).collect();
            solved(
                id,
                days[generator.usize(0..6)],
                generator.u8(0..4),
                if generator.bool() { Venue::Online } else { Venue::FaceToFace },
                generator.u8(8..12),
                generator.u8(1..4),
                applicants,
            )
        })
        .collect()
}

fn plain_table(mut solution: Vec<SolvedSession>) -> String {
    solution.sort_by_key(|solved| solved.session.week.0);
    let mut output = String::new();
    for solved in solution {
        let session = &solved.session;
        let rated = |rating: Availability| {
            solved.applicants.iter().filter(|a| a.availabilities[session.id] == rating).count()
        };
        let names: Vec<&str> = solved.applicants.iter().map(|a| a.name.as_str()).collect();
        let fields = [
            session.week.0.to_string(),
            session.day.long_name().to_string(),
            session.time_24hr.to_string(),
            session.length_hours.to_string(),
            session.venue.as_str().to_string(),
            solved.applicants.len().to_string(),
            rated(Preferred).to_string(),
            rated(Possible).to_string(),
            rated(Dislike).to_string(),
            (solved.applicants.len() * session.length_hours as usize).to_string(),
            names.join(", "),
        ];
        output.push_str(&fields.join("\t"));
        output.push('\n');
    }
    output
}

fn plain_hours(solution: Vec<SolvedSession>) -> String {
    let mut emails: Vec<String> =
        solution.iter().flat_map(|s| s.applicants.iter().map(|a| a.email.clone())).collect();
    emails.sort();
    emails.dedup();
    let mut weeks: Vec<u8> =
        solution.iter().filter(|s| !s.applicants.is_empty()).map(|s| s.session.week.0).collect();
    weeks.sort();
    weeks.dedup();
    let mut table = String::from("Name\tEmail\tMax hours");
    for week in &weeks {
        table.push_str(&format!("\tWeek {week}"));
    }
    table.push('\n');
    for email in emails {
        let record =
            solution.iter().flat_map(|s| s.applicants.iter()).find(|a| a.email == email).unwrap();
        table.push_str(&format!("{}\t{}\t{}", record.name, record.email, record.max_hours_per_week));
        for week in &weeks {
            let hours: u32 = solution
                .iter()
                .filter(|s| s.session.week.0 == *week)
                .map(|s| {
                    s.session.length_hours as u32
                        * s.applicants.iter().filter(|a| a.email == email).count() as u32
                })
                .sum();
            table.push_str(&format!("\t{hours}"));
        }
        table.push('\n');
    }
    table
}

fn plain_export_order(solution: &[SolvedSession]) -> Vec<usize> {
    let mut places: Vec<usize> = (0..solution.len()).collect();
    places.sort_by_key(|place| {
        let session = &solution[*place].session;
        (session.week, session.day.ordinal(), session.time_24hr)
    });
    places.retain(|place| !solution[*place].applicants.is_empty());
    places
}

#[test]
fn outputs_agree_with_plain_ones() {
    for seed in 0..200u64 {
        let solution = random_solution(seed);
        assert!(is_rated(&solution) && is_countable(&solution) && is_within_clock(&solution));
        assert_eq!(tabulate_solution_info(solution.clone()), plain_table(solution.clone()));
        assert_eq!(tabulate_hours_by_tutor(solution.clone()), plain_hours(solution.clone()));
        assert_eq!(export_order(&solution), plain_export_order(&solution));
        let file = output_to_atci_toml(solution.clone(), seed);
        assert_eq!(
            file.matches("[[class.consult]]").count(),
            solution.iter().filter(|s| !s.applicants.is_empty()).count()
        );
    }
}
