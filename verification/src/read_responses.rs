use crate::numbers::{decimal, lemma_decimal_parses, parse_unsigned, push_decimal, read_u8};
use crate::read_sessions::clock_hour;
use crate::text::{
    chars_of, push_text, rows, spells, split, split_chars, starts_with, text_of, without_prefix,
};
use crate::tsv::{cell, Tsv, TsvView};
use crate::types::{pool_of, Applicant, ApplicantView, Availability, Course, Session, Venue};
use vstd::prelude::*;

verus! {

/// An hour of the day written as a twelve-hour time: noon is `12pm`, an
/// hour before noon ends in `am`, and one after noon is counted from noon
/// and ends in `pm`.
pub open spec fn twelve_hour(time: nat) -> Seq<char> {
    if time == 12 {
        "12pm"@
    } else if time < 12 {
        decimal(time) + "am"@
    } else {
        decimal((time - 12) as nat) + "pm"@
    }
}

/// An hour written as a twelve-hour time is read back as itself. Hour 24 is
/// left out: it is written as `12pm`, as noon is.
pub proof fn lemma_twelve_hour_reads_back(time: nat)
    requires
        time <= 255,
        time != 24,
    ensures
        clock_hour(twelve_hour(time)) == Some(time as u8),
{
    reveal_strlit("am");
    reveal_strlit("pm");
    reveal_strlit("12pm");
    let text = twelve_hour(time);
    if time == 12 {
        let body = text.subrange(0, text.len() - 2);
        assert(text.subrange(text.len() - 2, text.len() as int)[0] == 'p');
        assert(text.subrange(text.len() - 2, text.len() as int) =~= "pm"@);
        lemma_decimal_parses(12, 255);
        assert(decimal(1) =~= seq!['1']);
        assert(body =~= decimal(12));
    } else if time < 12 {
        let number = decimal(time);
        assert(text.subrange(text.len() - 2, text.len() as int) =~= "am"@);
        assert(text.subrange(0, text.len() - 2) =~= number);
        lemma_decimal_parses(time, 255);
    } else {
        let number = decimal((time - 12) as nat);
        assert(text.subrange(text.len() - 2, text.len() as int)[0] == 'p');
        assert(text.subrange(text.len() - 2, text.len() as int) =~= "pm"@);
        assert(text.subrange(0, text.len() - 2) =~= number);
        lemma_decimal_parses((time - 12) as nat, 255);
    }
}

/// Noon, `12pm`, is hour 12, and midnight, `12am`, is hour 0.
pub proof fn lemma_noon_and_midnight()
    ensures
        clock_hour("12pm"@) == Some(12u8),
        clock_hour("12am"@) == Some(0u8),
{
    reveal_strlit("am");
    reveal_strlit("pm");
    reveal_strlit("12pm");
    reveal_strlit("12am");
    lemma_twelve_hour_reads_back(12);
    let text = "12am"@;
    assert(text.subrange(text.len() - 2, text.len() as int) =~= "am"@);
    lemma_decimal_parses(12, 255);
    assert(decimal(1) =~= seq!['1']);
    assert(text.subrange(0, text.len() - 2) =~= decimal(12));
}

/// Writes an hour of the day as a twelve-hour time behind what `out` holds.
fn push_twelve_hour(out: &mut Vec<char>, time: u8)
    ensures
        final(out)@ == old(out)@ + twelve_hour(time as nat),
{
    if time == 12 {
        push_text(out, "12pm");
    } else if time < 12 {
        push_decimal(out, time as u128);
        push_text(out, "am");
        assert(out@ =~= old(out)@ + twelve_hour(time as nat));
    } else {
        push_decimal(out, (time - 12) as u128);
        push_text(out, "pm");
        assert(out@ =~= old(out)@ + twelve_hour(time as nat));
    }
}

/// Writes an hour of the day as a twelve-hour time.
pub fn twentfour_hour_to_twelve_hour(time: u8) -> (text: String)
    ensures
        text@ == twelve_hour(time as nat),
{
    let mut out: Vec<char> = Vec::new();
    push_twelve_hour(&mut out, time);
    assert(out@ =~= twelve_hour(time as nat));
    text_of(out.as_slice())
}

/// The name of the survey column that holds the ratings of a session: the
/// word `Online` for an online session, the day's full name, and the
/// session's start and end as twelve-hour times.
pub open spec fn column_name(session: Session) -> Seq<char> {
    (match session.venue {
        Venue::FaceToFace => ""@,
        Venue::Online => "Online "@,
    }) + session.day.long_text() + " "@ + twelve_hour(session.time_24hr as nat) + "-"@
        + twelve_hour((session.time_24hr + session.length_hours) as nat)
}

/// Writes the name of a session's survey column.
fn session_column(session: &Session) -> (name: Vec<char>)
    requires
        session.time_24hr + session.length_hours <= 255,
    ensures
        name@ == column_name(*session),
{
    let mut name: Vec<char> = Vec::new();
    match session.venue {
        Venue::FaceToFace => {
            push_text(&mut name, "");
        },
        Venue::Online => {
            push_text(&mut name, "Online ");
        },
    }
    push_text(&mut name, session.day.long_name());
    push_text(&mut name, " ");
    push_twelve_hour(&mut name, session.time_24hr);
    push_text(&mut name, "-");
    push_twelve_hour(&mut name, session.time_24hr + session.length_hours);
    assert(name@ =~= column_name(*session));
    name
}

/// The weekly hour ceiling that an answer of the survey stands for.
pub open spec fn max_hours(answer: Seq<char>) -> Option<u16> {
    if answer == "1-5"@ {
        Some(5u16)
    } else if answer == "6-10"@ {
        Some(10u16)
    } else if answer == ">10"@ {
        Some(15u16)
    } else {
        None
    }
}

/// Reads a weekly hour ceiling.
fn read_max_hours(answer: &[char]) -> (hours: Option<u16>)
    ensures
        hours == max_hours(answer@),
{
    if spells(answer, "1-5") {
        Some(5)
    } else if spells(answer, "6-10") {
        Some(10)
    } else if spells(answer, ">10") {
        Some(15)
    } else {
        None
    }
}

/// The week that a text such as `Week 3` names.
pub open spec fn week_named(text: Seq<char>) -> Option<u8> {
    if starts_with(text, "Week "@) {
        match parse_unsigned(text.subrange("Week "@.len() as int, text.len() as int), 255) {
            Some(week) => Some(week as u8),
            None => None,
        }
    } else {
        None
    }
}

/// The place of the first piece at or behind `from` that is not empty; the
/// number of pieces where there is none.
pub open spec fn filled_from(pieces: Seq<Seq<char>>, from: int) -> int
    decreases pieces.len() - from,
{
    if from < 0 || from >= pieces.len() {
        pieces.len() as int
    } else if pieces[from].len() > 0 {
        from
    } else {
        filled_from(pieces, from + 1)
    }
}

/// The weeks that an answer of the survey rules out. The answer names them
/// with semicolons between them; empty pieces before the first are passed
/// over. Nothing where a piece names no week.
pub open spec fn excluded_weeks(answer: Seq<char>) -> Option<Seq<u8>> {
    let pieces = split(answer, ';');
    let named = pieces.subrange(filled_from(pieces, 0), pieces.len() as int);
    if forall|i: int| 0 <= i < named.len() ==> week_named(#[trigger] named[i]) is Some {
        Some(Seq::new(named.len(), |i: int| week_named(named[i])->0))
    } else {
        None
    }
}

/// Reads the weeks that an answer rules out.
fn read_excluded_weeks(answer: &[char]) -> (weeks: Option<Vec<u8>>)
    ensures
        match weeks {
            Some(found) => excluded_weeks(answer@) == Some(found@),
            None => excluded_weeks(answer@) is None,
        },
{
    let pieces = split_chars(answer, ';');
    let ghost all = split(answer@, ';');
    let mut start: usize = 0;
    while start < pieces.len() && pieces[start].len() == 0
        invariant
            rows(pieces@) == all,
            start <= pieces@.len(),
            filled_from(all, 0) == filled_from(all, start as int),
        decreases pieces@.len() - start,
    {
        assert(all[start as int] == pieces@[start as int]@);
        start += 1;
    }
    if start < pieces.len() {
        assert(all[start as int] == pieces@[start as int]@);
    }
    let ghost named = all.subrange(start as int, all.len() as int);
    let mut weeks: Vec<u8> = Vec::new();
    let mut i: usize = start;
    while i < pieces.len()
        invariant
            rows(pieces@) == all,
            all == split(answer@, ';'),
            start == filled_from(all, 0),
            named == all.subrange(start as int, all.len() as int),
            start <= i <= pieces@.len(),
            weeks@.len() == i - start,
            forall|k: int|
                0 <= k < i - start ==> week_named(#[trigger] named[k]) == Some(weeks@[k]),
        decreases pieces@.len() - i,
    {
        assert(named[i - start] == pieces@[i as int]@);
        let week = match without_prefix(pieces[i].as_slice(), "Week ") {
            Some(number) => read_u8(number.as_slice()),
            None => None,
        };
        match week {
            Some(week) => {
                weeks.push(week);
            },
            None => {
                assert(week_named(named[i - start]) is None);
                return None;
            },
        }
        i += 1;
    }
    assert(weeks@ =~= Seq::new(named.len(), |k: int| week_named(named[k])->0));
    Some(weeks)
}

/// Whether `week` is among `weeks`.
fn rules_out(weeks: &Vec<u8>, week: u8) -> (found: bool)
    ensures
        found == weeks@.contains(week),
{
    let mut i: usize = 0;
    while i < weeks.len()
        invariant
            i <= weeks@.len(),
            forall|k: int| 0 <= k < i ==> weeks@[k] != week,
        decreases weeks@.len() - i,
    {
        if weeks[i] == week {
            return true;
        }
        i += 1;
    }
    false
}

/// How a row of the survey rates a session: impossible in a week that the
/// applicant ruled out, else the rating in the session's column. Nothing
/// where the session ends behind hour 255, the column is missing, or its
/// cell holds no rating.
pub open spec fn session_rating(
    header: Seq<Seq<char>>,
    row: Seq<Seq<char>>,
    excluded: Seq<u8>,
    session: Session,
) -> Option<Availability> {
    if excluded.contains(session.week.0) {
        Some(Availability::Impossible)
    } else if session.time_24hr + session.length_hours > 255 {
        None
    } else {
        match cell(header, row, column_name(session)) {
            Some(text) => Availability::named(text),
            None => None,
        }
    }
}

/// The question of the survey that asks for the course.
pub open spec fn course_question() -> Seq<char> {
    "Which course are you primarily teaching?"@
}

/// The question of the survey that asks for the weekly hours.
pub open spec fn hours_question() -> Seq<char> {
    "Around how many hours would you like to work on help sessions, per week?"@
}

/// The question of the survey that asks for the weeks to rule out.
pub open spec fn weeks_question() -> Seq<char> {
    "Are then any weeks you specifically are not available?"@
}

/// What a row's answers say of the applicant, apart from the ratings: the
/// email, the name, the course, the weekly hour ceiling and the weeks ruled
/// out.
pub open spec fn answers_of_row(header: Seq<Seq<char>>, row: Seq<Seq<char>>) -> Option<
    (Seq<char>, Seq<char>, Course, u16, Seq<u8>),
> {
    match (
        cell(header, row, "Email"@),
        cell(header, row, "Name"@),
        cell(header, row, course_question()),
        cell(header, row, hours_question()),
        cell(header, row, weeks_question()),
    ) {
        (Some(email), Some(name), Some(course), Some(hours), Some(weeks)) => match (
            Course::named(course),
            max_hours(hours),
            excluded_weeks(weeks),
        ) {
            (Some(course), Some(hours), Some(excluded)) => Some(
                (email, name, course, hours, excluded),
            ),
            _ => None,
        },
        _ => None,
    }
}

/// The applicant that row `index` of the survey stands for. Nothing where
/// an answer is missing or malformed, or some session has no rating.
pub open spec fn applicant_of_row(
    header: Seq<Seq<char>>,
    row: Seq<Seq<char>>,
    index: nat,
    sessions: Seq<Session>,
) -> Option<ApplicantView> {
    match answers_of_row(header, row) {
        Some((email, name, course, hours, excluded)) => if forall|s: int|
            0 <= s < sessions.len() ==> session_rating(
                header,
                row,
                excluded,
                #[trigger] sessions[s],
            ) is Some {
            Some(
                ApplicantView {
                    id: (index % 0x1_0000_0000) as u32,
                    email,
                    name,
                    course,
                    max_hours_per_week: hours,
                    availabilities: Seq::new(
                        sessions.len(),
                        |s: int| session_rating(header, row, excluded, sessions[s])->0,
                    ),
                },
            )
        } else {
            None
        },
        None => None,
    }
}

/// The applicants that a survey stands for, one for each row. Nothing where
/// some row stands for none.
pub open spec fn applicants_of_table(tsv: TsvView, sessions: Seq<Session>) -> Option<
    Seq<ApplicantView>,
> {
    if forall|r: int|
        0 <= r < tsv.rows.len() ==> applicant_of_row(
            tsv.header,
            #[trigger] tsv.rows[r],
            r as nat,
            sessions,
        ) is Some {
        Some(
            Seq::new(
                tsv.rows.len(),
                |r: int| applicant_of_row(tsv.header, tsv.rows[r], r as nat, sessions)->0,
            ),
        )
    } else {
        None
    }
}

/// The names of the survey's columns, as characters.
struct Questions {
    email: Vec<char>,
    name: Vec<char>,
    course: Vec<char>,
    hours: Vec<char>,
    weeks: Vec<char>,
}

impl Questions {
    /// Each field holds the name of its column.
    spec fn wf(&self) -> bool {
        &&& self.email@ == "Email"@
        &&& self.name@ == "Name"@
        &&& self.course@ == course_question()
        &&& self.hours@ == hours_question()
        &&& self.weeks@ == weeks_question()
    }

    /// The names of the columns.
    fn new() -> (questions: Questions)
        ensures
            questions.wf(),
    {
        Questions {
            email: chars_of("Email"),
            name: chars_of("Name"),
            course: chars_of("Which course are you primarily teaching?"),
            hours: chars_of(
                "Around how many hours would you like to work on help sessions, per week?",
            ),
            weeks: chars_of("Are then any weeks you specifically are not available?"),
        }
    }
}

/// Reads the ratings of one row for all sessions.
fn read_ratings(tsv: &Tsv, r: usize, excluded: &Vec<u8>, sessions: &[Session]) -> (ratings: Option<
    Vec<Availability>,
>)
    requires
        r < tsv@.rows.len(),
    ensures
        match ratings {
            Some(found) => found@.len() == sessions@.len() && forall|s: int|
                0 <= s < sessions@.len() ==> session_rating(
                    tsv@.header,
                    tsv@.rows[r as int],
                    excluded@,
                    #[trigger] sessions@[s],
                ) == Some(found@[s]),
            None => exists|s: int|
                0 <= s < sessions@.len() && session_rating(
                    tsv@.header,
                    tsv@.rows[r as int],
                    excluded@,
                    #[trigger] sessions@[s],
                ) is None,
        },
{
    let mut ratings: Vec<Availability> = Vec::new();
    let mut s: usize = 0;
    while s < sessions.len()
        invariant
            r < tsv@.rows.len(),
            s <= sessions@.len(),
            ratings@.len() == s,
            forall|t: int|
                0 <= t < s ==> session_rating(
                    tsv@.header,
                    tsv@.rows[r as int],
                    excluded@,
                    #[trigger] sessions@[t],
                ) == Some(ratings@[t]),
        decreases sessions@.len() - s,
    {
        let session = &sessions[s];
        let rating = if rules_out(excluded, session.week.0) {
            Some(Availability::Impossible)
        } else if session.time_24hr as u16 + session.length_hours as u16 > 255 {
            None
        } else {
            let column = session_column(session);
            match tsv.get(r, column.as_slice()) {
                Some(text) => Availability::from_chars(text.as_slice()),
                None => None,
            }
        };
        match rating {
            Some(rating) => {
                ratings.push(rating);
            },
            None => {
                assert(session_rating(
                    tsv@.header,
                    tsv@.rows[r as int],
                    excluded@,
                    sessions@[s as int],
                ) is None);
                return None;
            },
        }
        s += 1;
    }
    Some(ratings)
}

/// Reads the applicant of one row.
fn read_applicant(tsv: &Tsv, r: usize, questions: &Questions, sessions: &[Session]) -> (applicant:
    Option<Applicant>)
    requires
        r < tsv@.rows.len(),
        questions.wf(),
    ensures
        match applicant {
            Some(found) => applicant_of_row(tsv@.header, tsv@.rows[r as int], r as nat, sessions@)
                == Some(found@),
            None => applicant_of_row(tsv@.header, tsv@.rows[r as int], r as nat, sessions@) is None,
        },
{
    let email = match tsv.get(r, questions.email.as_slice()) {
        Some(chars) => text_of(chars.as_slice()),
        None => {
            return None;
        },
    };
    let name = match tsv.get(r, questions.name.as_slice()) {
        Some(chars) => text_of(chars.as_slice()),
        None => {
            return None;
        },
    };
    let course = match tsv.get(r, questions.course.as_slice()) {
        Some(chars) => Course::from_chars(chars.as_slice()),
        None => {
            return None;
        },
    };
    let hours = match tsv.get(r, questions.hours.as_slice()) {
        Some(chars) => read_max_hours(chars.as_slice()),
        None => {
            return None;
        },
    };
    let excluded = match tsv.get(r, questions.weeks.as_slice()) {
        Some(chars) => read_excluded_weeks(chars.as_slice()),
        None => {
            return None;
        },
    };
    match (course, hours, excluded) {
        (Some(course), Some(hours), Some(excluded)) => {
            assert(answers_of_row(tsv@.header, tsv@.rows[r as int]) == Some(
                (email@, name@, course, hours, excluded@),
            ));
            match read_ratings(tsv, r, &excluded, sessions) {
                Some(availabilities) => {
                    let applicant = Applicant {
                        id: (r as u64 % 0x1_0000_0000) as u32,
                        email,
                        name,
                        course,
                        max_hours_per_week: hours,
                        availabilities,
                    };
                    assert(applicant@.availabilities =~= Seq::new(
                        sessions@.len(),
                        |s: int|
                            session_rating(
                                tsv@.header,
                                tsv@.rows[r as int],
                                excluded@,
                                sessions@[s],
                            )->0,
                    ));
                    Some(applicant)
                },
                None => None,
            }
        },
        _ => None,
    }
}

/// Reads the applicants from survey responses of which every row is well
/// formed: one applicant for each row, each with a rating for every session.
pub fn extract_applicants_from_tsv(tsv: Tsv, sessions: &[Session]) -> (applicants: Vec<Applicant>)
    requires
        applicants_of_table(tsv@, sessions@) is Some,
    ensures
        applicants_of_table(tsv@, sessions@) == Some(pool_of(applicants@)),
{
    try_extract_applicants_from_tsv(&tsv, sessions).unwrap()
}

/// Reads the applicants from the survey responses, and gives nothing if an
/// answer of some row is missing or malformed.
pub fn try_extract_applicants_from_tsv(tsv: &Tsv, sessions: &[Session]) -> (applicants: Option<
    Vec<Applicant>,
>)
    ensures
        match applicants {
            Some(found) => applicants_of_table(tsv@, sessions@) == Some(pool_of(found@)),
            None => applicants_of_table(tsv@, sessions@) is None,
        },
{
    let questions = Questions::new();
    let mut applicants: Vec<Applicant> = Vec::new();
    let mut r: usize = 0;
    while r < tsv.num_rows()
        invariant
            questions.wf(),
            r <= tsv@.rows.len(),
            applicants@.len() == r,
            forall|q: int|
                0 <= q < r ==> applicant_of_row(
                    tsv@.header,
                    #[trigger] tsv@.rows[q],
                    q as nat,
                    sessions@,
                ) == Some(applicants@[q]@),
        decreases tsv@.rows.len() - r,
    {
        match read_applicant(tsv, r, &questions, sessions) {
            Some(applicant) => {
                applicants.push(applicant);
            },
            None => {
                return None;
            },
        }
        r += 1;
    }
    assert(pool_of(applicants@) =~= Seq::new(
        tsv@.rows.len(),
        |q: int| applicant_of_row(tsv@.header, tsv@.rows[q], q as nat, sessions@)->0,
    ));
    Some(applicants)
}

} // verus!
