use session_scheduler::read_responses::{
    extract_applicants_from_tsv, try_extract_applicants_from_tsv, twentfour_hour_to_twelve_hour,
};
use session_scheduler::read_sessions::{
    expand_sequence_specification, extract_desired_hours, read_sessions_from_string,
    try_expand_sequence_specification, try_extract_desired_hours, try_read_sessions_from_string,
    twelve_hour_to_twentfour_hour,
};
use session_scheduler::text::{chars_of, text_of};
use session_scheduler::tsv::Tsv;
use session_scheduler::types::{Availability, Course, Day, Venue, WeekNum};

#[test]
fn sequence_of_ranges_and_numbers() {
    assert_eq!(try_expand_sequence_specification("1-3,5"), Some(vec![1, 2, 3, 5]));
    assert_eq!(try_expand_sequence_specification("7"), Some(vec![7]));
    assert_eq!(try_expand_sequence_specification("2,2,1"), Some(vec![2, 2, 1]));
    assert_eq!(try_expand_sequence_specification("10-12,1-2"), Some(vec![10, 11, 12, 1, 2]));
}

#[test]
fn sequence_with_signs() {
    assert_eq!(try_expand_sequence_specification("+2"), Some(vec![2]));
    assert_eq!(try_expand_sequence_specification("1-+3"), Some(vec![1, 2, 3]));
    assert_eq!(try_expand_sequence_specification("1--3"), Some(vec![]));
    assert_eq!(try_expand_sequence_specification("3-1"), Some(vec![]));
    assert_eq!(try_expand_sequence_specification("007"), Some(vec![7]));
}

#[test]
fn sequence_at_the_limits() {
    assert_eq!(try_expand_sequence_specification("2147483647"), Some(vec![2147483647]));
    assert_eq!(
        try_expand_sequence_specification("2147483646-2147483647"),
        Some(vec![2147483646, 2147483647])
    );
    assert_eq!(try_expand_sequence_specification("2147483648"), None);
    assert_eq!(try_expand_sequence_specification("0--2147483648"), Some(vec![]));
    assert_eq!(try_expand_sequence_specification("0--2147483649"), None);
}

#[test]
fn malformed_sequences() {
    assert_eq!(try_expand_sequence_specification(""), None);
    assert_eq!(try_expand_sequence_specification("a"), None);
    assert_eq!(try_expand_sequence_specification("1,"), None);
    assert_eq!(try_expand_sequence_specification(",1"), None);
    assert_eq!(try_expand_sequence_specification("-5"), None);
    assert_eq!(try_expand_sequence_specification("1-2-3"), None);
    assert_eq!(try_expand_sequence_specification("1 - 3"), None);
    assert_eq!(try_expand_sequence_specification("+"), None);
    assert_eq!(try_expand_sequence_specification("1-"), None);
}

#[test]
fn twelve_hour_times_are_read() {
    assert_eq!(twelve_hour_to_twentfour_hour("9am"), Some(9));
    assert_eq!(twelve_hour_to_twentfour_hour("2pm"), Some(14));
    assert_eq!(twelve_hour_to_twentfour_hour("12pm"), Some(12));
    assert_eq!(twelve_hour_to_twentfour_hour("12am"), Some(0));
    assert_eq!(twelve_hour_to_twentfour_hour("1am"), Some(1));
    assert_eq!(twelve_hour_to_twentfour_hour("11am"), Some(11));
    assert_eq!(twelve_hour_to_twentfour_hour("1pm"), Some(13));
    assert_eq!(twelve_hour_to_twentfour_hour("11pm"), Some(23));
    assert_eq!(twelve_hour_to_twentfour_hour("0am"), Some(0));
    assert_eq!(twelve_hour_to_twentfour_hour("243pm"), Some(255));
    assert_eq!(twelve_hour_to_twentfour_hour("244pm"), None);
    assert_eq!(twelve_hour_to_twentfour_hour("256am"), None);
    assert_eq!(twelve_hour_to_twentfour_hour("am"), None);
    assert_eq!(twelve_hour_to_twentfour_hour("9"), None);
    assert_eq!(twelve_hour_to_twentfour_hour("9 am"), None);
    assert_eq!(twelve_hour_to_twentfour_hour(""), None);
}

#[test]
fn twelve_hour_times_are_written() {
    assert_eq!(twentfour_hour_to_twelve_hour(0), "0am");
    assert_eq!(twentfour_hour_to_twelve_hour(9), "9am");
    assert_eq!(twentfour_hour_to_twelve_hour(11), "11am");
    assert_eq!(twentfour_hour_to_twelve_hour(12), "12pm");
    assert_eq!(twentfour_hour_to_twelve_hour(13), "1pm");
    assert_eq!(twentfour_hour_to_twelve_hour(23), "11pm");
    assert_eq!(twentfour_hour_to_twelve_hour(255), "243pm");
}

#[test]
fn characters_round_trip() {
    let text = "na\u{ef}ve \u{1F600} text";
    let chars = chars_of(text);
    assert_eq!(chars, text.chars().collect::<Vec<char>>());
    assert_eq!(text_of(&chars), text);
}

#[test]
fn days_are_read_and_named() {
    assert!(matches!(Day::from_str("mon"), Ok(Day::Mon)));
    assert!(matches!(Day::from_str("sat"), Ok(Day::Sat)));
    assert_eq!(Day::from_str("sun").unwrap_err(), "bad day \"sun\"");
    assert_eq!(Day::from_str("Mon").unwrap_err(), "bad day \"Mon\"");
    assert_eq!(Day::from_str("a\"b").unwrap_err(), "bad day \"a\\\"b\"");
    assert_eq!(Day::Mon.long_name(), "Monday");
    assert_eq!(Day::Tue.long_name(), "Tuesday");
    assert_eq!(Day::Wed.long_name(), "Wednesday");
    assert_eq!(Day::Thu.long_name(), "Thursday");
    assert_eq!(Day::Fri.long_name(), "Friday");
    assert_eq!(Day::Sat.long_name(), "Saturday");
    assert_eq!(Day::Thu.short_name(), "Thu");
}

#[test]
fn ratings_and_courses_are_read() {
    assert_eq!(Availability::from_str("Impossible"), Ok(Availability::Impossible));
    assert_eq!(Availability::from_str("Dislike"), Ok(Availability::Dislike));
    assert_eq!(Availability::from_str("Possible"), Ok(Availability::Possible));
    assert_eq!(Availability::from_str("Preferred"), Ok(Availability::Preferred));
    assert_eq!(Availability::from_str("preferred"), Err(()));
    assert_eq!(Availability::from_str(""), Err(()));
    assert_eq!(Course::Comp1511.to_string(), "COMP1511");
    assert_eq!(Course::Comp1521.to_string(), "COMP1521");
    assert_eq!(Course::Comp2521.to_string(), "COMP2521");
}

#[test]
fn timetable_is_read() {
    let input = "# help sessions\nmon 10am 2hrs f2f 1-3\n\n  tue 2pm 1hrs online 2,5   # later\r\nsat 12pm 3hrs f2f 10\n";
    let sessions = read_sessions_from_string(input);
    assert_eq!(sessions.len(), 6);
    for (place, session) in sessions.iter().enumerate() {
        assert_eq!(session.id, place);
    }
    assert_eq!(sessions[0].day, Day::Mon);
    assert_eq!(sessions[0].time_24hr, 10);
    assert_eq!(sessions[0].length_hours, 2);
    assert_eq!(sessions[0].venue, Venue::FaceToFace);
    assert_eq!(sessions[0].week, WeekNum(1));
    assert_eq!(sessions[2].week, WeekNum(3));
    assert_eq!(sessions[3].day, Day::Tue);
    assert_eq!(sessions[3].time_24hr, 14);
    assert_eq!(sessions[3].length_hours, 1);
    assert_eq!(sessions[3].venue, Venue::Online);
    assert_eq!(sessions[3].week, WeekNum(2));
    assert_eq!(sessions[4].week, WeekNum(5));
    assert_eq!(sessions[5].day, Day::Sat);
    assert_eq!(sessions[5].time_24hr, 12);
    assert_eq!(sessions[5].week, WeekNum(10));
}

#[test]
fn timetable_edge_cases() {
    assert_eq!(read_sessions_from_string("").len(), 0);
    assert_eq!(read_sessions_from_string("\n\n# nothing\n   \n").len(), 0);
    let wrapped = read_sessions_from_string("mon 1am 1hrs f2f 300");
    assert_eq!(wrapped[0].week, WeekNum(44));
    let tabs = read_sessions_from_string("fri\t9am\t1hrs\tonline\t4");
    assert_eq!(tabs.len(), 1);
    assert_eq!(tabs[0].day, Day::Fri);
}

#[test]
fn malformed_timetables() {
    assert!(try_read_sessions_from_string("mon 10am 2hrs f2f").is_none());
    assert!(try_read_sessions_from_string("mon 10am 2hrs f2f 1 2").is_none());
    assert!(try_read_sessions_from_string("sun 10am 2hrs f2f 1").is_none());
    assert!(try_read_sessions_from_string("mon 10 2hrs f2f 1").is_none());
    assert!(try_read_sessions_from_string("mon 10am 2 f2f 1").is_none());
    assert!(try_read_sessions_from_string("mon 10am 2hrs campus 1").is_none());
    assert!(try_read_sessions_from_string("mon 10am 2hrs f2f one").is_none());
    assert!(try_read_sessions_from_string("mon 10am 2hrs f2f 1\nbad line\n").is_none());
}

#[test]
fn tables_are_read() {
    let tsv = Tsv::from_string("Week\tDesired COMP1511 hours\tDesired COMP1521 hours\r\n1\t10\t4\n2\t12\t0\n");
    assert_eq!(tsv.num_rows(), 2);
    assert_eq!(tsv.header.len(), 3);
    let name = chars_of("Desired COMP1521 hours");
    assert_eq!(tsv.get(0, &name).map(|cell| text_of(cell)), Some("4".to_string()));
    assert_eq!(tsv.get(1, &name).map(|cell| text_of(cell)), Some("0".to_string()));
    assert_eq!(tsv.get(1, &chars_of("Missing")), None);
    let empty = Tsv::from_string("");
    assert_eq!(empty.num_rows(), 0);
    assert_eq!(empty.header.len(), 0);
    let short = Tsv::from_string("a\tb\n1\n");
    assert_eq!(short.get(0, &chars_of("a")).map(|cell| text_of(cell)), Some("1".to_string()));
    assert_eq!(short.get(0, &chars_of("b")), None);
}

#[test]
fn desired_hours_are_read() {
    let text = "Week\tDesired COMP1511 hours\tDesired COMP1521 hours\n1\t10\t4\n2\t12\t0\n10\t65535\t7\n";
    assert_eq!(
        try_extract_desired_hours(&Tsv::from_string(text), Course::Comp1511),
        Some(vec![(WeekNum(1), 10), (WeekNum(2), 12), (WeekNum(10), 65535)])
    );
    assert_eq!(
        try_extract_desired_hours(&Tsv::from_string(text), Course::Comp1521),
        Some(vec![(WeekNum(1), 4), (WeekNum(2), 0), (WeekNum(10), 7)])
    );
    assert_eq!(try_extract_desired_hours(&Tsv::from_string(text), Course::Comp2521), None);
    assert_eq!(
        try_extract_desired_hours(&Tsv::from_string("Week\tDesired COMP1511 hours\n256\t1\n"), Course::Comp1511),
        None
    );
    assert_eq!(
        try_extract_desired_hours(&Tsv::from_string("Week\tDesired COMP1511 hours\n1\t65536\n"), Course::Comp1511),
        None
    );
    assert_eq!(
        try_extract_desired_hours(&Tsv::from_string("Week\tDesired COMP1511 hours\n"), Course::Comp1511),
        Some(vec![])
    );
}

const SURVEY_HEADER: &str = "Email\tName\tWhich course are you primarily teaching?\tAround how many hours would you like to work on help sessions, per week?\tAre then any weeks you specifically are not available?\tMonday 10am-12pm\tOnline Tuesday 2pm-3pm";

#[test]
fn applicants_are_read() {
    let sessions = read_sessions_from_string("mon 10am 2hrs f2f 1-2\ntue 2pm 1hrs online 2\n");
    let text = format!(
        "{SURVEY_HEADER}\nann@example.org\tAnn\tCOMP1511\t1-5\t\tPreferred\tDislike\nbob@example.org\tBob\tCOMP2521\t>10\tWeek 2\tPossible\tPreferred\ncat@example.org\tCat\tCOMP1521\t6-10\t;Week 1;Week 7\tImpossible\tPossible\n"
    );
    let applicants = extract_applicants_from_tsv(Tsv::from_string(&text), &sessions);
    assert_eq!(applicants.len(), 3);
    assert_eq!(applicants[0].id, 0);
    assert_eq!(applicants[0].email, "ann@example.org");
    assert_eq!(applicants[0].name, "Ann");
    assert_eq!(applicants[0].course, Course::Comp1511);
    assert_eq!(applicants[0].max_hours_per_week, 5);
    assert_eq!(
        applicants[0].availabilities,
        vec![Availability::Preferred, Availability::Preferred, Availability::Dislike]
    );
    assert_eq!(applicants[1].id, 1);
    assert_eq!(applicants[1].course, Course::Comp2521);
    assert_eq!(applicants[1].max_hours_per_week, 15);
    assert_eq!(
        applicants[1].availabilities,
        vec![Availability::Possible, Availability::Impossible, Availability::Impossible]
    );
    assert_eq!(applicants[2].id, 2);
    assert_eq!(applicants[2].course, Course::Comp1521);
    assert_eq!(applicants[2].max_hours_per_week, 10);
    assert_eq!(
        applicants[2].availabilities,
        vec![Availability::Impossible, Availability::Impossible, Availability::Possible]
    );
}

#[test]
fn malformed_surveys() {
    let sessions = read_sessions_from_string("mon 10am 2hrs f2f 1\n");
    let row = |course: &str, hours: &str, weeks: &str, rating: &str| {
        format!("{SURVEY_HEADER}\nann@example.org\tAnn\t{course}\t{hours}\t{weeks}\t{rating}\tPossible\n")
    };
    let read = |text: String| try_extract_applicants_from_tsv(&Tsv::from_string(&text), &sessions);
    assert!(read(row("COMP1511", "1-5", "", "Preferred")).is_some());
    assert!(read(row("COMP9999", "1-5", "", "Preferred")).is_none());
    assert!(read(row("COMP1511", "5", "", "Preferred")).is_none());
    assert!(read(row("COMP1511", "1-5", "Week one", "Preferred")).is_none());
    assert!(read(row("COMP1511", "1-5", "Week 1;;Week 2", "Preferred")).is_none());
    assert!(read(row("COMP1511", "1-5", "Week 1;", "Preferred")).is_none());
    assert!(read(row("COMP1511", "1-5", "week 1", "Preferred")).is_none());
    assert!(read(row("COMP1511", "1-5", "", "Maybe")).is_none());
    assert!(read(row("COMP1511", "1-5", "Week 1", "Maybe")).is_some());
    let other = read_sessions_from_string("wed 10am 2hrs f2f 1\n");
    assert!(try_extract_applicants_from_tsv(
        &Tsv::from_string(&row("COMP1511", "1-5", "", "Preferred")),
        &other
    )
    .is_none());
    assert!(try_extract_applicants_from_tsv(
        &Tsv::from_string(&row("COMP1511", "1-5", "Week 1", "Preferred")),
        &other
    )
    .is_some());
}

#[test]
fn times_written_are_read_back() {
    for hour in 0..=255u8 {
        if hour != 24 {
            assert_eq!(
                twelve_hour_to_twentfour_hour(&twentfour_hour_to_twelve_hour(hour)),
                Some(hour)
            );
        }
    }
}

#[test]
fn noon_session_has_the_column_of_its_hours() {
    let sessions = read_sessions_from_string("mon 12pm 1hrs f2f 1\ntue 12am 2hrs online 1\n");
    assert_eq!(sessions[0].time_24hr, 12);
    assert_eq!(sessions[1].time_24hr, 0);
    let text = "Email\tName\tWhich course are you primarily teaching?\tAround how many hours would you like to work on help sessions, per week?\tAre then any weeks you specifically are not available?\tMonday 12pm-1pm\tOnline Tuesday 0am-2am\nann@example.org\tAnn\tCOMP1511\t1-5\t\tPreferred\tDislike\n";
    let applicants = extract_applicants_from_tsv(Tsv::from_string(text), &sessions);
    assert_eq!(applicants.len(), 1);
    assert_eq!(
        applicants[0].availabilities,
        vec![Availability::Preferred, Availability::Dislike]
    );
}

#[test]
fn well_formed_input_is_read_without_a_test() {
    assert_eq!(expand_sequence_specification("1-3,5"), vec![1, 2, 3, 5]);
    assert_eq!(expand_sequence_specification("4"), vec![4]);
    let sessions = read_sessions_from_string("mon 10am 2hrs f2f 1-2\n# done\n");
    assert_eq!(sessions.len(), 2);
    assert_eq!(sessions[1].id, 1);
    assert_eq!(sessions[1].week, WeekNum(2));
    let desired = extract_desired_hours(
        Tsv::from_string("Week\tDesired COMP2521 hours\n1\t6\n2\t8\n"),
        Course::Comp2521,
    );
    assert_eq!(desired, vec![(WeekNum(1), 6), (WeekNum(2), 8)]);
}
