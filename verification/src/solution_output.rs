use crate::numbers::{decimal, decimal_chars, push_decimal};
use crate::ordering::{sort_order, stable_order};
use crate::text::{chars_of, joined, push_joined, push_text, rows, text_of};
use crate::types::{pool_of, Applicant, ApplicantView, Availability, Session};
use vstd::prelude::*;

verus! {

/// A session together with the applicants assigned to it.
#[derive(Debug, Clone)]
pub struct SolvedSession {
    pub session: Session,
    pub applicants: Vec<Applicant>,
}

/// What a solved session says: the session, and what its applicants'
/// records say.
pub struct SolvedSessionView {
    pub session: Session,
    pub applicants: Seq<ApplicantView>,
}

impl View for SolvedSession {
    type V = SolvedSessionView;

    open spec fn view(&self) -> SolvedSessionView {
        SolvedSessionView { session: self.session, applicants: pool_of(self.applicants@) }
    }
}

/// What a list of solved sessions says.
pub open spec fn solution_of(solution: Seq<SolvedSession>) -> Seq<SolvedSessionView> {
    Seq::new(solution.len(), |s: int| solution[s]@)
}

/// The most applicants of one session whose hours can be summed.
pub const MAX_ASSIGNED: usize = 0xFFFF_FFFF;

/// Each applicant of the solved session rates it: the session's id is a
/// place in the applicant's ratings.
pub open spec fn rated_session(solved: SolvedSessionView) -> bool {
    forall|k: int|
        0 <= k < solved.applicants.len() ==> solved.session.id < (
        #[trigger] solved.applicants[k]).availabilities.len()
}

/// Each applicant of each solved session rates the session.
pub open spec fn all_rated(solution: Seq<SolvedSessionView>) -> bool {
    forall|s: int| 0 <= s < solution.len() ==> rated_session(#[trigger] solution[s])
}

/// No solved session has more than `MAX_ASSIGNED` applicants.
pub open spec fn all_countable(solution: Seq<SolvedSessionView>) -> bool {
    forall|s: int|
        0 <= s < solution.len() ==> (#[trigger] solution[s]).applicants.len() <= MAX_ASSIGNED
}

/// Every solved session ends by hour 255, the last that an hour can name.
pub open spec fn all_within_clock(solution: Seq<SolvedSessionView>) -> bool {
    forall|s: int|
        0 <= s < solution.len() ==> (#[trigger] solution[s]).session.time_24hr
            + solution[s].session.length_hours <= 255
}

/// Whether each applicant of each solved session rates the session.
pub fn is_rated(solution: &[SolvedSession]) -> (ok: bool)
    ensures
        ok == all_rated(solution_of(solution@)),
{
    let mut s: usize = 0;
    while s < solution.len()
        invariant
            s <= solution@.len(),
            forall|t: int| 0 <= t < s ==> rated_session(#[trigger] solution_of(solution@)[t]),
        decreases solution@.len() - s,
    {
        let solved = &solution[s];
        let ghost view = solution_of(solution@)[s as int];
        assert(view == solved@);
        let mut k: usize = 0;
        while k < solved.applicants.len()
            invariant
                s < solution@.len(),
                view == solution_of(solution@)[s as int],
                view == solved@,
                k <= solved.applicants@.len(),
                forall|j: int|
                    0 <= j < k ==> solved.session.id < (
                    #[trigger] view.applicants[j]).availabilities.len(),
            decreases solved.applicants@.len() - k,
        {
            assert(view.applicants[k as int] == solved.applicants@[k as int]@);
            if solved.session.id >= solved.applicants[k].availabilities.len() {
                assert(!rated_session(view));
                return false;
            }
            k += 1;
        }
        s += 1;
    }
    true
}

/// Whether no solved session has more than `MAX_ASSIGNED` applicants.
pub fn is_countable(solution: &[SolvedSession]) -> (ok: bool)
    ensures
        ok == all_countable(solution_of(solution@)),
{
    let mut s: usize = 0;
    while s < solution.len()
        invariant
            s <= solution@.len(),
            forall|t: int|
                0 <= t < s ==> (#[trigger] solution_of(solution@)[t]).applicants.len()
                    <= MAX_ASSIGNED,
        decreases solution@.len() - s,
    {
        assert(solution_of(solution@)[s as int] == solution@[s as int]@);
        if solution[s].applicants.len() > MAX_ASSIGNED {
            return false;
        }
        s += 1;
    }
    true
}

/// Whether every solved session ends by hour 255.
pub fn is_within_clock(solution: &[SolvedSession]) -> (ok: bool)
    ensures
        ok == all_within_clock(solution_of(solution@)),
{
    let mut s: usize = 0;
    while s < solution.len()
        invariant
            s <= solution@.len(),
            forall|t: int|
                0 <= t < s ==> (#[trigger] solution_of(solution@)[t]).session.time_24hr
                    + solution_of(solution@)[t].session.length_hours <= 255,
        decreases solution@.len() - s,
    {
        assert(solution_of(solution@)[s as int] == solution@[s as int]@);
        let session = &solution[s].session;
        if session.time_24hr as u16 + session.length_hours as u16 > 255 {
            return false;
        }
        s += 1;
    }
    true
}

/// The names of the applicants, in order.
pub open spec fn names_of(applicants: Seq<ApplicantView>) -> Seq<Seq<char>> {
    Seq::new(applicants.len(), |k: int| applicants[k].name)
}

/// The email addresses of the applicants, in order.
pub open spec fn emails_of(applicants: Seq<ApplicantView>) -> Seq<Seq<char>> {
    Seq::new(applicants.len(), |k: int| applicants[k].email)
}

/// The applicants' names, in order.
fn names(applicants: &Vec<Applicant>) -> (found: Vec<Vec<char>>)
    ensures
        rows(found@) == names_of(pool_of(applicants@)),
{
    let mut found: Vec<Vec<char>> = Vec::new();
    let mut k: usize = 0;
    while k < applicants.len()
        invariant
            k <= applicants@.len(),
            found@.len() == k,
            forall|j: int| 0 <= j < k ==> (#[trigger] found@[j])@ == applicants@[j].name@,
        decreases applicants@.len() - k,
    {
        found.push(chars_of(applicants[k].name.as_str()));
        k += 1;
    }
    assert(rows(found@) =~= names_of(pool_of(applicants@)));
    found
}

/// How many of the applicants gave session `session` the rating `rating`.
pub open spec fn count_rated(
    applicants: Seq<ApplicantView>,
    session: int,
    rating: Availability,
) -> nat
    decreases applicants.len(),
{
    if applicants.len() == 0 {
        0
    } else {
        count_rated(applicants.drop_last(), session, rating) + if applicants.last().availabilities[
            session] == rating {
            1nat
        } else {
            0nat
        }
    }
}

/// Counts the applicants who gave the session the rating.
pub(crate) fn count_rating(solved: &SolvedSession, rating: Availability) -> (count: usize)
    requires
        rated_session(solved@),
    ensures
        count == count_rated(solved@.applicants, solved.session.id as int, rating),
        count <= solved.applicants@.len(),
{
    let ghost pool = solved@.applicants;
    let mut count: usize = 0;
    let mut k: usize = 0;
    assert(pool.take(0).len() == 0);
    while k < solved.applicants.len()
        invariant
            rated_session(solved@),
            pool == solved@.applicants,
            k <= solved.applicants@.len(),
            count <= k,
            count == count_rated(pool.take(k as int), solved.session.id as int, rating),
        decreases solved.applicants@.len() - k,
    {
        proof {
            assert(pool.take(k + 1).drop_last() =~= pool.take(k as int));
            assert(pool.take(k + 1).last() == solved.applicants@[k as int]@);
            assert(pool[k as int] == solved.applicants@[k as int]@);
        }
        if solved.applicants[k].availabilities[solved.session.id] == rating {
            count += 1;
        }
        k += 1;
    }
    assert(pool.take(k as int) =~= pool);
    count
}

/// The fields of one line of the table of a solution: the week, the day,
/// the start, the length, the venue, the number of applicants, how many of
/// them preferred the session, found it possible and disliked it, the
/// staffed hours, and the applicants' names.
pub open spec fn info_fields(solved: SolvedSessionView) -> Seq<Seq<char>> {
    let session = solved.session;
    let count = solved.applicants.len();
    seq![
        decimal(session.week.0 as nat),
        session.day.long_text(),
        decimal(session.time_24hr as nat),
        decimal(session.length_hours as nat),
        session.venue.word(),
        decimal(count),
        decimal(count_rated(solved.applicants, session.id as int, Availability::Preferred)),
        decimal(count_rated(solved.applicants, session.id as int, Availability::Possible)),
        decimal(count_rated(solved.applicants, session.id as int, Availability::Dislike)),
        decimal(count * session.length_hours as nat),
        joined(names_of(solved.applicants), ", "@),
    ]
}

/// One line of the table of a solution: its fields with tabs between them,
/// and a line feed.
pub open spec fn info_line(solved: SolvedSessionView) -> Seq<char> {
    joined(info_fields(solved), "\t"@) + "\n"@
}

/// Writes one line of the table of a solution behind what `out` holds.
fn push_info_line(out: &mut Vec<char>, solved: &SolvedSession)
    requires
        rated_session(solved@),
    ensures
        final(out)@ == old(out)@ + info_line(solved@),
{
    let session = &solved.session;
    let count = solved.applicants.len();
    assert(count * session.length_hours <= 0xFFFF_FFFF_FFFF_FFFF * 255) by (nonlinear_arith)
        requires
            count <= 0xFFFF_FFFF_FFFF_FFFF,
            session.length_hours <= 255,
    ;
    let mut listed: Vec<char> = Vec::new();
    push_joined(&mut listed, &names(&solved.applicants), ", ");
    assert(listed@ =~= joined(names_of(solved@.applicants), ", "@));
    let mut fields: Vec<Vec<char>> = Vec::new();
    fields.push(decimal_chars(session.week.0 as u128));
    fields.push(chars_of(session.day.long_name()));
    fields.push(decimal_chars(session.time_24hr as u128));
    fields.push(decimal_chars(session.length_hours as u128));
    fields.push(chars_of(session.venue.as_str()));
    fields.push(decimal_chars(count as u128));
    fields.push(decimal_chars(count_rating(solved, Availability::Preferred) as u128));
    fields.push(decimal_chars(count_rating(solved, Availability::Possible) as u128));
    fields.push(decimal_chars(count_rating(solved, Availability::Dislike) as u128));
    fields.push(decimal_chars((count as u128) * (session.length_hours as u128)));
    fields.push(listed);
    assert(rows(fields@) =~= info_fields(solved@));
    push_joined(out, &fields, "\t");
    push_text(out, "\n");
    assert(out@ =~= old(out)@ + info_line(solved@));
}

/// The keys by which the table of a solution is sorted: the weeks.
pub open spec fn week_keys(solution: Seq<SolvedSessionView>) -> Seq<u32> {
    Seq::new(solution.len(), |s: int| solution[s].session.week.0 as u32)
}

/// The lines of the solved sessions at the places in `order`.
pub open spec fn info_lines(solution: Seq<SolvedSessionView>, order: Seq<usize>) -> Seq<char>
    decreases order.len(),
{
    if order.len() == 0 {
        Seq::empty()
    } else {
        info_lines(solution, order.drop_last()) + info_line(solution[order.last() as int])
    }
}

/// The table of a solution: one line for each solved session, by week, and
/// in the given order within a week.
pub open spec fn solution_info(solution: Seq<SolvedSessionView>) -> Seq<char> {
    info_lines(solution, stable_order(week_keys(solution), solution.len()))
}

/// Writes a solution as a table, one line for each solved session, sorted by
/// week.
pub fn tabulate_solution_info(solution: Vec<SolvedSession>) -> (table: String)
    requires
        all_rated(solution_of(solution@)),
    ensures
        table@ == solution_info(solution_of(solution@)),
{
    let ghost all = solution_of(solution@);
    let mut keys: Vec<u32> = Vec::new();
    let mut s: usize = 0;
    while s < solution.len()
        invariant
            s <= solution@.len(),
            keys@.len() == s,
            forall|t: int| 0 <= t < s ==> keys@[t] == solution@[t].session.week.0 as u32,
        decreases solution@.len() - s,
    {
        keys.push(solution[s].session.week.0 as u32);
        s += 1;
    }
    assert(keys@ =~= week_keys(all));
    let order = sort_order(&keys);
    let mut out: Vec<char> = Vec::new();
    let mut i: usize = 0;
    assert(order@.take(0).len() == 0);
    while i < order.len()
        invariant
            all == solution_of(solution@),
            all_rated(all),
            order@.len() == solution@.len(),
            forall|j: int| 0 <= j < order@.len() ==> (#[trigger] order@[j]) < solution@.len(),
            i <= order@.len(),
            out@ == info_lines(all, order@.take(i as int)),
        decreases order@.len() - i,
    {
        proof {
            assert(order@.take(i + 1).drop_last() =~= order@.take(i as int));
            assert(order@.take(i + 1).last() == order@[i as int]);
        }
        let solved = &solution[order[i]];
        assert(all[order@[i as int] as int] == solved@);
        push_info_line(&mut out, solved);
        i += 1;
    }
    assert(order@.take(i as int) =~= order@);
    text_of(out.as_slice())
}

/// The key by which sessions are sorted for export: the week, then the
/// day, then the start.
pub open spec fn slot_key(session: Session) -> u32 {
    ((session.week.0 as nat * 8 + session.day.rank()) * 256 + session.time_24hr as nat) as u32
}

/// The keys of the sessions of a solution.
pub open spec fn slot_keys(solution: Seq<SolvedSessionView>) -> Seq<u32> {
    Seq::new(solution.len(), |s: int| slot_key(solution[s].session))
}

/// One session's key is less than another's exactly when its week is
/// earlier, or the weeks are equal and its day is earlier, or both are equal
/// and its start is earlier.
pub proof fn lemma_slot_key_order(a: Session, b: Session)
    ensures
        slot_key(a) < slot_key(b) <==> a.week.0 < b.week.0 || (a.week.0 == b.week.0 && (
        a.day.rank() < b.day.rank() || (a.day.rank() == b.day.rank() && a.time_24hr
            < b.time_24hr))),
        slot_key(a) == slot_key(b) <==> a.week.0 == b.week.0 && a.day.rank() == b.day.rank()
            && a.time_24hr == b.time_24hr,
{
}

/// Those places of `order` whose sessions have an applicant, in order.
pub open spec fn staffed(solution: Seq<SolvedSessionView>, order: Seq<usize>) -> Seq<usize>
    decreases order.len(),
{
    if order.len() == 0 {
        Seq::empty()
    } else {
        let front = staffed(solution, order.drop_last());
        if solution[order.last() as int].applicants.len() > 0 {
            front.push(order.last())
        } else {
            front
        }
    }
}

/// The places of the sessions to export, in the order of export: the
/// sessions that have an applicant, by week, day and start, and in the given
/// order where these are equal.
pub open spec fn export_places(solution: Seq<SolvedSessionView>) -> Seq<usize> {
    staffed(solution, stable_order(slot_keys(solution), solution.len()))
}

/// Finds the places of the sessions to export, in the order of export.
pub fn export_order(solution: &[SolvedSession]) -> (places: Vec<usize>)
    ensures
        places@ == export_places(solution_of(solution@)),
        forall|i: int| 0 <= i < places@.len() ==> (#[trigger] places@[i]) < solution@.len(),
{
    let ghost all = solution_of(solution@);
    let mut keys: Vec<u32> = Vec::new();
    let mut s: usize = 0;
    while s < solution.len()
        invariant
            s <= solution@.len(),
            keys@.len() == s,
            forall|t: int| 0 <= t < s ==> keys@[t] == slot_key(solution@[t].session),
        decreases solution@.len() - s,
    {
        let session = &solution[s].session;
        keys.push(
            ((session.week.0 as u32) * 8 + session.day.ordinal() as u32) * 256
                + session.time_24hr as u32,
        );
        s += 1;
    }
    assert(keys@ =~= slot_keys(all));
    let order = sort_order(&keys);
    let mut places: Vec<usize> = Vec::new();
    let mut i: usize = 0;
    assert(order@.take(0).len() == 0);
    while i < order.len()
        invariant
            all == solution_of(solution@),
            order@.len() == solution@.len(),
            forall|j: int| 0 <= j < order@.len() ==> (#[trigger] order@[j]) < solution@.len(),
            i <= order@.len(),
            places@ == staffed(all, order@.take(i as int)),
            forall|j: int| 0 <= j < places@.len() ==> (#[trigger] places@[j]) < solution@.len(),
        decreases order@.len() - i,
    {
        proof {
            assert(order@.take(i + 1).drop_last() =~= order@.take(i as int));
            assert(order@.take(i + 1).last() == order@[i as int]);
            assert(all[order@[i as int] as int] == solution@[order@[i as int] as int]@);
        }
        if solution[order[i]].applicants.len() > 0 {
            places.push(order[i]);
        }
        i += 1;
    }
    assert(order@.take(i as int) =~= order@);
    places
}

/// The applicants' email addresses, each between single quotes.
pub open spec fn quoted_emails(applicants: Seq<ApplicantView>) -> Seq<Seq<char>> {
    Seq::new(applicants.len(), |k: int| "'"@ + applicants[k].email + "'"@)
}

/// The applicants' email addresses, each between single quotes.
fn quote_emails(applicants: &Vec<Applicant>) -> (found: Vec<Vec<char>>)
    ensures
        rows(found@) == quoted_emails(pool_of(applicants@)),
{
    let mut found: Vec<Vec<char>> = Vec::new();
    let mut k: usize = 0;
    while k < applicants.len()
        invariant
            k <= applicants@.len(),
            found@.len() == k,
            forall|j: int|
                0 <= j < k ==> (#[trigger] found@[j])@ == "'"@ + applicants@[j].email@ + "'"@,
        decreases applicants@.len() - k,
    {
        let mut quoted: Vec<char> = Vec::new();
        push_text(&mut quoted, "'");
        push_text(&mut quoted, applicants[k].email.as_str());
        push_text(&mut quoted, "'");
        assert(quoted@ =~= "'"@ + applicants@[k as int].email@ + "'"@);
        found.push(quoted);
        k += 1;
    }
    assert(rows(found@) =~= quoted_emails(pool_of(applicants@)));
    found
}

/// The parts of one session's entry in the timetable file: the instructors
/// by email address, with their names in a comment, the week, the day, the
/// start and the end as full hours, and the mode.
pub open spec fn consult_parts(solved: SolvedSessionView) -> Seq<Seq<char>> {
    let session = solved.session;
    seq![
        "[[class.consult]]\ninstructors = ["@,
        joined(quoted_emails(solved.applicants), ", "@),
        "] # "@,
        joined(names_of(solved.applicants), ", "@),
        "\nweeks       = '"@,
        decimal(session.week.0 as nat),
        "'\nday         = '"@,
        session.day.short_text(),
        "'\nstart       = '"@,
        decimal(session.time_24hr as nat),
        ":00'\nend         = '"@,
        decimal((session.time_24hr + session.length_hours) as nat),
        ":00'\nmode        = '"@,
        session.venue.word(),
        "'\n\n"@,
    ]
}

/// One session's entry in the timetable file.
pub open spec fn consult_entry(solved: SolvedSessionView) -> Seq<char> {
    joined(consult_parts(solved), ""@)
}

/// Writes one session's entry behind what `out` holds.
fn push_consult_entry(out: &mut Vec<char>, solved: &SolvedSession)
    requires
        solved.session.time_24hr + solved.session.length_hours <= 255,
    ensures
        final(out)@ == old(out)@ + consult_entry(solved@),
{
    let session = &solved.session;
    let mut instructors: Vec<char> = Vec::new();
    push_joined(&mut instructors, &quote_emails(&solved.applicants), ", ");
    assert(instructors@ =~= joined(quoted_emails(solved@.applicants), ", "@));
    let mut listed: Vec<char> = Vec::new();
    push_joined(&mut listed, &names(&solved.applicants), ", ");
    assert(listed@ =~= joined(names_of(solved@.applicants), ", "@));
    let mut parts: Vec<Vec<char>> = Vec::new();
    parts.push(chars_of("[[class.consult]]\ninstructors = ["));
    parts.push(instructors);
    parts.push(chars_of("] # "));
    parts.push(listed);
    parts.push(chars_of("\nweeks       = '"));
    parts.push(decimal_chars(session.week.0 as u128));
    parts.push(chars_of("'\nday         = '"));
    parts.push(chars_of(session.day.short_name()));
    parts.push(chars_of("'\nstart       = '"));
    parts.push(decimal_chars(session.time_24hr as u128));
    parts.push(chars_of(":00'\nend         = '"));
    parts.push(decimal_chars((session.time_24hr + session.length_hours) as u128));
    parts.push(chars_of(":00'\nmode        = '"));
    parts.push(chars_of(session.venue.as_str()));
    parts.push(chars_of("'\n\n"));
    assert(rows(parts@) =~= consult_parts(solved@));
    push_joined(out, &parts, "");
}

/// The entries of the solved sessions at the places in `places`.
pub open spec fn consult_entries(solution: Seq<SolvedSessionView>, places: Seq<usize>) -> Seq<char>
    decreases places.len(),
{
    if places.len() == 0 {
        Seq::empty()
    } else {
        consult_entries(solution, places.drop_last()) + consult_entry(
            solution[places.last() as int],
        )
    }
}

/// The timetable file of a solution: two comment lines, the second with
/// the seed, an empty line, and the entries of the sessions to export.
pub open spec fn atci_toml(solution: Seq<SolvedSessionView>, seed: u64) -> Seq<char> {
    "# Generated by https://github.com/XavierCooney/help-session-auto-scheduler/\n# using the result seed "@
        + decimal(seed as nat) + "\n\n"@ + consult_entries(solution, export_places(solution))
}

/// Writes a solution as a timetable file: an entry for each session that
/// has an applicant, sorted by week, day and start.
pub fn output_to_atci_toml(solution: Vec<SolvedSession>, seed: u64) -> (file: String)
    requires
        all_within_clock(solution_of(solution@)),
    ensures
        file@ == atci_toml(solution_of(solution@), seed),
{
    let ghost all = solution_of(solution@);
    let places = export_order(solution.as_slice());
    let mut out: Vec<char> = Vec::new();
    push_text(
        &mut out,
        "# Generated by https://github.com/XavierCooney/help-session-auto-scheduler/\n# using the result seed ",
    );
    push_decimal(&mut out, seed as u128);
    push_text(&mut out, "\n\n");
    let ghost head = out@;
    let mut i: usize = 0;
    assert(places@.take(0).len() == 0);
    assert(out@ =~= head + consult_entries(all, places@.take(0)));
    while i < places.len()
        invariant
            all == solution_of(solution@),
            all_within_clock(all),
            forall|j: int| 0 <= j < places@.len() ==> (#[trigger] places@[j]) < solution@.len(),
            i <= places@.len(),
            out@ == head + consult_entries(all, places@.take(i as int)),
        decreases places@.len() - i,
    {
        proof {
            assert(places@.take(i + 1).drop_last() =~= places@.take(i as int));
            assert(places@.take(i + 1).last() == places@[i as int]);
        }
        let solved = &solution[places[i]];
        assert(all[places@[i as int] as int] == solved@);
        push_consult_entry(&mut out, solved);
        assert(out@ =~= head + consult_entries(all, places@.take(i + 1)));
        i += 1;
    }
    assert(places@.take(i as int) =~= places@);
    assert(head =~= Seq::<char>::empty()
        + "# Generated by https://github.com/XavierCooney/help-session-auto-scheduler/\n# using the result seed "@
        + decimal(seed as nat) + "\n\n"@);
    text_of(out.as_slice())
}

} // verus!
