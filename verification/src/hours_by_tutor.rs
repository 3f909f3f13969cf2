use crate::numbers::{decimal, decimal_chars, push_decimal};
use crate::solution_output::{
    all_countable, solution_of, SolvedSession, SolvedSessionView,
};
use crate::text::{chars_of, joined, push_joined, push_text, rows, text_of};
use crate::types::{pool_of, Applicant, ApplicantView};
use vstd::prelude::*;

verus! {

/// Whether text `a` comes before text `b`, character by character; a text
/// comes behind each of its front parts.
pub open spec fn text_before(a: Seq<char>, b: Seq<char>) -> bool
    decreases a.len(),
{
    if b.len() == 0 {
        false
    } else if a.len() == 0 {
        true
    } else if a[0] != b[0] {
        a[0] < b[0]
    } else {
        text_before(a.drop_first(), b.drop_first())
    }
}

/// Whether the first text comes before the second.
pub fn comes_before(a: &str, b: &str) -> (before: bool)
    ensures
        before == text_before(a@, b@),
{
    let x = chars_of(a);
    let y = chars_of(b);
    let mut i: usize = 0;
    assert(x@.skip(0) =~= a@);
    assert(y@.skip(0) =~= b@);
    while i < x.len() && i < y.len() && x[i] == y[i]
        invariant
            x@ == a@,
            y@ == b@,
            i <= x@.len(),
            i <= y@.len(),
            text_before(a@, b@) == text_before(x@.skip(i as int), y@.skip(i as int)),
        decreases x@.len() - i,
    {
        assert(x@.skip(i as int).drop_first() =~= x@.skip(i + 1));
        assert(y@.skip(i as int).drop_first() =~= y@.skip(i + 1));
        i += 1;
    }
    if i >= y.len() {
        false
    } else if i >= x.len() {
        true
    } else {
        x[i] < y[i]
    }
}

/// The place at or behind `from` of the first tutor whose email address
/// does not come before `email`; the number of tutors where all do.
pub open spec fn tutor_place(tutors: Seq<ApplicantView>, email: Seq<char>, from: int) -> int
    decreases tutors.len() - from,
{
    if from < 0 || from >= tutors.len() {
        tutors.len() as int
    } else if !text_before(tutors[from].email, email) {
        from
    } else {
        tutor_place(tutors, email, from + 1)
    }
}

/// The tutors with `applicant` among them: put at the place that their
/// email address has in the order, unless a tutor with that address is there.
pub open spec fn with_tutor(tutors: Seq<ApplicantView>, applicant: ApplicantView) -> Seq<
    ApplicantView,
> {
    let at = tutor_place(tutors, applicant.email, 0);
    if at < tutors.len() && tutors[at].email == applicant.email {
        tutors
    } else {
        tutors.insert(at, applicant)
    }
}

/// The tutors with each of `applicants` among them, taken in order.
pub open spec fn with_tutors(tutors: Seq<ApplicantView>, applicants: Seq<ApplicantView>) -> Seq<
    ApplicantView,
>
    decreases applicants.len(),
{
    if applicants.len() == 0 {
        tutors
    } else {
        with_tutor(with_tutors(tutors, applicants.drop_last()), applicants.last())
    }
}

/// The tutors of a solution: for each email address that occurs, the first
/// applicant record with it, in the order of the addresses.
pub open spec fn tutors_of(solution: Seq<SolvedSessionView>) -> Seq<ApplicantView>
    decreases solution.len(),
{
    if solution.len() == 0 {
        Seq::empty()
    } else {
        with_tutors(tutors_of(solution.drop_last()), solution.last().applicants)
    }
}

/// No text comes before itself.
pub proof fn lemma_text_before_irreflexive(a: Seq<char>)
    ensures
        !text_before(a, a),
    decreases a.len(),
{
    if a.len() > 0 {
        lemma_text_before_irreflexive(a.drop_first());
    }
}

/// What comes before a text comes before all that the text comes before.
pub proof fn lemma_text_before_transitive(a: Seq<char>, b: Seq<char>, c: Seq<char>)
    requires
        text_before(a, b),
        text_before(b, c),
    ensures
        text_before(a, c),
    decreases a.len(),
{
    if a.len() > 0 && b.len() > 0 && c.len() > 0 && a[0] == b[0] && b[0] == c[0] {
        lemma_text_before_transitive(a.drop_first(), b.drop_first(), c.drop_first());
    }
}

/// Of two different texts one comes before the other.
pub proof fn lemma_text_before_total(a: Seq<char>, b: Seq<char>)
    ensures
        text_before(a, b) || text_before(b, a) || a == b,
    decreases a.len(),
{
    if a.len() == 0 || b.len() == 0 {
        if a.len() == 0 && b.len() == 0 {
            assert(a =~= b);
        }
    } else if a[0] == b[0] {
        lemma_text_before_total(a.drop_first(), b.drop_first());
        if a.drop_first() == b.drop_first() {
            assert(a =~= seq![a[0]] + a.drop_first());
            assert(b =~= seq![b[0]] + b.drop_first());
        }
    }
}

/// The tutors stand in the order of their email addresses, none of which
/// occurs twice.
pub open spec fn emails_ascend(tutors: Seq<ApplicantView>) -> bool {
    forall|i: int, j: int|
        0 <= i < j < tutors.len() ==> text_before(tutors[i].email, tutors[j].email)
}

/// Some tutor has the email address `email`.
pub open spec fn has_email(tutors: Seq<ApplicantView>, email: Seq<char>) -> bool {
    exists|t: int| 0 <= t < tutors.len() && (#[trigger] tutors[t]).email == email
}

/// In front of the place that `tutor_place` gives, every email address
/// comes before `email`; at the place, the address does not.
pub proof fn lemma_tutor_place(tutors: Seq<ApplicantView>, email: Seq<char>, from: int)
    requires
        0 <= from <= tutors.len(),
    ensures
        from <= tutor_place(tutors, email, from) <= tutors.len(),
        forall|i: int|
            from <= i < tutor_place(tutors, email, from) ==> text_before(
                (#[trigger] tutors[i]).email,
                email,
            ),
        tutor_place(tutors, email, from) < tutors.len() ==> !text_before(
            tutors[tutor_place(tutors, email, from)].email,
            email,
        ),
    decreases tutors.len() - from,
{
    if from < tutors.len() && text_before(tutors[from].email, email) {
        lemma_tutor_place(tutors, email, from + 1);
    }
}

/// Putting an applicant among tutors who stand in order leaves them in
/// order. The applicant's email address is then among theirs, every address
/// that was there is still, and every tutor is the applicant or was there.
pub proof fn lemma_with_tutor(tutors: Seq<ApplicantView>, applicant: ApplicantView)
    requires
        emails_ascend(tutors),
    ensures
        emails_ascend(with_tutor(tutors, applicant)),
        has_email(with_tutor(tutors, applicant), applicant.email),
        forall|email: Seq<char>|
            has_email(tutors, email) ==> has_email(with_tutor(tutors, applicant), email),
        forall|t: int|
            0 <= t < with_tutor(tutors, applicant).len() ==> (#[trigger] with_tutor(
                tutors,
                applicant,
            )[t]) == applicant || tutors.contains(with_tutor(tutors, applicant)[t]),
{
    let email = applicant.email;
    let at = tutor_place(tutors, email, 0);
    let after = with_tutor(tutors, applicant);
    lemma_tutor_place(tutors, email, 0);
    if at < tutors.len() && tutors[at].email == email {
        assert(after == tutors);
        assert forall|t: int| 0 <= t < after.len() implies (#[trigger] after[t]) == applicant
            || tutors.contains(after[t]) by {
            assert(tutors[t] == after[t]);
        }
    } else {
        assert(after == tutors.insert(at, applicant));
        assert forall|i: int, j: int| 0 <= i < j < after.len() implies text_before(
            after[i].email,
            after[j].email,
        ) by {
            let a = if i < at { i } else { i - 1 };
            let b = if j < at { j } else { j - 1 };
            if i != at && j != at {
                assert(after[i] == tutors[a]);
                assert(after[j] == tutors[b]);
            } else if j == at {
                assert(after[i] == tutors[a]);
            } else {
                assert(after[j] == tutors[b]);
                lemma_text_before_total(tutors[at].email, email);
                if b > at {
                    lemma_text_before_transitive(email, tutors[at].email, tutors[b].email);
                }
            }
        }
        assert(after[at] == applicant);
        assert forall|email: Seq<char>| has_email(tutors, email) implies has_email(
            after,
            email,
        ) by {
            let t = choose|t: int| 0 <= t < tutors.len() && (#[trigger] tutors[t]).email == email;
            if t < at {
                assert(after[t] == tutors[t]);
            } else {
                assert(after[t + 1] == tutors[t]);
            }
        }
        assert forall|t: int| 0 <= t < after.len() implies (#[trigger] after[t]) == applicant
            || tutors.contains(after[t]) by {
            if t < at {
                assert(after[t] == tutors[t]);
            } else if t > at {
                assert(after[t] == tutors[t - 1]);
            }
        }
    }
}

/// Every tutor of `tutors` is one of `known` or one of `applicants`.
pub open spec fn drawn_from(
    tutors: Seq<ApplicantView>,
    known: Seq<ApplicantView>,
    applicants: Seq<ApplicantView>,
) -> bool {
    forall|t: int|
        0 <= t < tutors.len() ==> known.contains(#[trigger] tutors[t]) || applicants.contains(
            tutors[t],
        )
}

/// Putting applicants among tutors who stand in order leaves them in order;
/// the email addresses of the tutors and of the applicants are then among
/// theirs, and every tutor is one of the applicants or was there.
pub proof fn lemma_with_tutors(tutors: Seq<ApplicantView>, applicants: Seq<ApplicantView>)
    requires
        emails_ascend(tutors),
    ensures
        emails_ascend(with_tutors(tutors, applicants)),
        forall|email: Seq<char>|
            has_email(tutors, email) ==> has_email(with_tutors(tutors, applicants), email),
        forall|k: int|
            0 <= k < applicants.len() ==> has_email(
                with_tutors(tutors, applicants),
                (#[trigger] applicants[k]).email,
            ),
        drawn_from(with_tutors(tutors, applicants), tutors, applicants),
    decreases applicants.len(),
{
    let after = with_tutors(tutors, applicants);
    if applicants.len() == 0 {
        assert forall|t: int| 0 <= t < after.len() implies tutors.contains(#[trigger] after[t]) by {
            assert(tutors[t] == after[t]);
        }
    } else {
        let front = applicants.drop_last();
        let between = with_tutors(tutors, front);
        lemma_with_tutors(tutors, front);
        lemma_with_tutor(between, applicants.last());
        assert forall|k: int| 0 <= k < applicants.len() implies has_email(
            after,
            (#[trigger] applicants[k]).email,
        ) by {
            if k < front.len() {
                assert(front[k] == applicants[k]);
                assert(has_email(between, front[k].email));
            }
        }
        assert forall|t: int| 0 <= t < after.len() implies tutors.contains(#[trigger] after[t])
            || applicants.contains(after[t]) by {
            if after[t] == applicants.last() {
                assert(applicants[applicants.len() - 1] == after[t]);
            } else {
                assert(between.contains(after[t]));
                let b = choose|b: int| 0 <= b < between.len() && between[b] == after[t];
                if !tutors.contains(between[b]) {
                    assert(front.contains(between[b]));
                    let f = choose|f: int| 0 <= f < front.len() && front[f] == between[b];
                    assert(applicants[f] == after[t]);
                }
            }
        }
    }
}

/// Some session of the solution has the applicant record `record`.
pub open spec fn is_assigned(solution: Seq<SolvedSessionView>, record: ApplicantView) -> bool {
    exists|s: int| 0 <= s < solution.len() && (#[trigger] solution[s]).applicants.contains(record)
}

/// The tutors of a solution stand in the order of their email addresses,
/// none of which occurs twice. Each tutor is an applicant record of the
/// solution, and the email address of every such record is a tutor's.
pub proof fn lemma_tutors_of(solution: Seq<SolvedSessionView>)
    ensures
        emails_ascend(tutors_of(solution)),
        forall|t: int|
            0 <= t < tutors_of(solution).len() ==> is_assigned(
                solution,
                #[trigger] tutors_of(solution)[t],
            ),
        forall|s: int, k: int|
            0 <= s < solution.len() && 0 <= k < solution[s].applicants.len() ==> has_email(
                tutors_of(solution),
                (#[trigger] solution[s].applicants[k]).email,
            ),
    decreases solution.len(),
{
    let tutors = tutors_of(solution);
    if solution.len() > 0 {
        let front = solution.drop_last();
        let known = tutors_of(front);
        let last = solution.last().applicants;
        lemma_tutors_of(front);
        lemma_with_tutors(known, last);
        assert forall|t: int| 0 <= t < tutors.len() implies is_assigned(
            solution,
            #[trigger] tutors[t],
        ) by {
            if known.contains(tutors[t]) {
                let i = choose|i: int| 0 <= i < known.len() && known[i] == tutors[t];
                assert(is_assigned(front, known[i]));
                let s = choose|s: int|
                    0 <= s < front.len() && (#[trigger] front[s]).applicants.contains(known[i]);
                assert(solution[s] == front[s]);
            } else {
                assert(solution[solution.len() - 1].applicants.contains(tutors[t]));
            }
        }
        assert forall|s: int, k: int|
            0 <= s < solution.len() && 0 <= k < solution[s].applicants.len() implies has_email(
            tutors,
            (#[trigger] solution[s].applicants[k]).email,
        ) by {
            if s < front.len() {
                assert(front[s] == solution[s]);
                assert(has_email(known, front[s].applicants[k].email));
            }
        }
    }
}

/// Some session of week `week` has an applicant.
pub open spec fn week_staffed(solution: Seq<SolvedSessionView>, week: u8) -> bool {
    exists|s: int|
        0 <= s < solution.len() && (#[trigger] solution[s]).session.week.0 == week
            && solution[s].applicants.len() > 0
}

/// The weeks below `limit` in which some session has an applicant, in
/// ascending order.
pub open spec fn staffed_weeks(solution: Seq<SolvedSessionView>, limit: nat) -> Seq<u8>
    decreases limit,
{
    if limit == 0 {
        Seq::empty()
    } else {
        let front = staffed_weeks(solution, (limit - 1) as nat);
        if week_staffed(solution, (limit - 1) as u8) {
            front.push((limit - 1) as u8)
        } else {
            front
        }
    }
}

/// How many of the applicants have the email address `email`.
pub open spec fn count_email(applicants: Seq<ApplicantView>, email: Seq<char>) -> nat
    decreases applicants.len(),
{
    if applicants.len() == 0 {
        0
    } else {
        count_email(applicants.drop_last(), email) + if applicants.last().email == email {
            1nat
        } else {
            0nat
        }
    }
}

/// The hours that the tutor with email address `email` works in week
/// `week`: the length of each session of that week, once for each time the
/// tutor is assigned to it.
pub open spec fn tutor_hours(solution: Seq<SolvedSessionView>, email: Seq<char>, week: u8) -> nat
    decreases solution.len(),
{
    if solution.len() == 0 {
        0
    } else {
        tutor_hours(solution.drop_last(), email, week) + if solution.last().session.week.0
            == week {
            solution.last().session.length_hours as nat * count_email(
                solution.last().applicants,
                email,
            )
        } else {
            0nat
        }
    }
}

/// The fields of the first line of the table of hours: the names of the
/// columns.
pub open spec fn header_fields(weeks: Seq<u8>) -> Seq<Seq<char>> {
    seq!["Name"@, "Email"@, "Max hours"@] + Seq::new(
        weeks.len(),
        |i: int| "Week "@ + decimal(weeks[i] as nat),
    )
}

/// The fields of a tutor's line of the table of hours: the name, the email
/// address, the weekly hour ceiling, and the hours worked in each week.
pub open spec fn tutor_fields(
    solution: Seq<SolvedSessionView>,
    tutor: ApplicantView,
    weeks: Seq<u8>,
) -> Seq<Seq<char>> {
    seq![tutor.name, tutor.email, decimal(tutor.max_hours_per_week as nat)] + Seq::new(
        weeks.len(),
        |i: int| decimal(tutor_hours(solution, tutor.email, weeks[i])),
    )
}

/// The lines of the first `count` tutors.
pub open spec fn tutor_lines(
    solution: Seq<SolvedSessionView>,
    tutors: Seq<ApplicantView>,
    weeks: Seq<u8>,
    count: nat,
) -> Seq<char>
    decreases count,
{
    if count == 0 {
        Seq::empty()
    } else {
        tutor_lines(solution, tutors, weeks, (count - 1) as nat) + joined(
            tutor_fields(solution, tutors[count - 1], weeks),
            "\t"@,
        ) + "\n"@
    }
}

/// The table of hours of a solution: a line with the names of the columns,
/// and a line for each tutor, in the order of the email addresses; the last
/// columns are those of the weeks in which some session has an applicant.
/// Tabs stand between the fields, and each line ends with a line feed.
pub open spec fn hours_table(solution: Seq<SolvedSessionView>) -> Seq<char> {
    let weeks = staffed_weeks(solution, 256);
    let tutors = tutors_of(solution);
    joined(header_fields(weeks), "\t"@) + "\n"@ + tutor_lines(
        solution,
        tutors,
        weeks,
        tutors.len(),
    )
}

/// What the applicant records at the given places say.
pub open spec fn records_at(solution: Seq<SolvedSession>, places: Seq<(usize, usize)>) -> Seq<
    ApplicantView,
> {
    Seq::new(places.len(), |i: int| solution[places[i].0 as int].applicants@[places[i].1 as int]@)
}

/// The places are those of applicant records of the solution.
pub open spec fn places_valid(solution: Seq<SolvedSession>, places: Seq<(usize, usize)>) -> bool {
    forall|i: int|
        0 <= i < places.len() ==> (#[trigger] places[i]).0 < solution.len() && places[i].1
            < solution[places[i].0 as int].applicants@.len()
}

/// Puts the place of an applicant record among those of the tutors.
fn add_tutor(solution: &Vec<SolvedSession>, places: &mut Vec<(usize, usize)>, s: usize, k: usize)
    requires
        s < solution@.len(),
        k < solution@[s as int].applicants@.len(),
        places_valid(solution@, old(places)@),
    ensures
        places_valid(solution@, final(places)@),
        records_at(solution@, final(places)@) == with_tutor(
            records_at(solution@, old(places)@),
            solution@[s as int].applicants@[k as int]@,
        ),
{
    let applicant = &solution[s].applicants[k];
    let ghost tutors = records_at(solution@, places@);
    let mut at: usize = 0;
    while at < places.len() && comes_before(
        solution[places[at].0].applicants[places[at].1].email.as_str(),
        applicant.email.as_str(),
    )
        invariant
            s < solution@.len(),
            k < solution@[s as int].applicants@.len(),
            applicant == solution@[s as int].applicants@[k as int],
            places_valid(solution@, places@),
            tutors == records_at(solution@, places@),
            at <= places@.len(),
            tutor_place(tutors, applicant@.email, 0) == tutor_place(
                tutors,
                applicant@.email,
                at as int,
            ),
        decreases places@.len() - at,
    {
        at += 1;
    }
    if at < places.len() && solution[places[at].0].applicants[places[at].1].email
        == applicant.email {
        return ;
    }
    places.insert(at, (s, k));
    assert(records_at(solution@, places@) =~= tutors.insert(at as int, applicant@));
}

/// The places of the first records of the tutors, in the order of their
/// email addresses.
fn find_tutors(solution: &Vec<SolvedSession>) -> (places: Vec<(usize, usize)>)
    ensures
        places_valid(solution@, places@),
        records_at(solution@, places@) == tutors_of(solution_of(solution@)),
{
    let ghost all = solution_of(solution@);
    let mut places: Vec<(usize, usize)> = Vec::new();
    let mut s: usize = 0;
    assert(all.take(0).len() == 0);
    assert(records_at(solution@, places@) =~= tutors_of(all.take(0)));
    while s < solution.len()
        invariant
            all == solution_of(solution@),
            s <= solution@.len(),
            places_valid(solution@, places@),
            records_at(solution@, places@) == tutors_of(all.take(s as int)),
        decreases solution@.len() - s,
    {
        let ghost pool = all[s as int].applicants;
        let ghost before = tutors_of(all.take(s as int));
        proof {
            assert(all.take(s + 1).drop_last() =~= all.take(s as int));
            assert(all.take(s + 1).last() == all[s as int]);
            assert(pool.take(0).len() == 0);
        }
        let mut k: usize = 0;
        while k < solution[s].applicants.len()
            invariant
                all == solution_of(solution@),
                s < solution@.len(),
                pool == all[s as int].applicants,
                k <= solution@[s as int].applicants@.len(),
                places_valid(solution@, places@),
                records_at(solution@, places@) == with_tutors(before, pool.take(k as int)),
            decreases solution@[s as int].applicants@.len() - k,
        {
            proof {
                assert(pool.take(k + 1).drop_last() =~= pool.take(k as int));
                assert(pool.take(k + 1).last() == solution@[s as int].applicants@[k as int]@);
            }
            add_tutor(solution, &mut places, s, k);
            k += 1;
        }
        assert(pool.take(k as int) =~= pool);
        s += 1;
    }
    assert(all.take(s as int) =~= all);
    places
}

/// Whether some session of week `week` has an applicant.
fn is_week_staffed(solution: &Vec<SolvedSession>, week: u8) -> (found: bool)
    ensures
        found == week_staffed(solution_of(solution@), week),
{
    let ghost all = solution_of(solution@);
    let mut s: usize = 0;
    while s < solution.len()
        invariant
            all == solution_of(solution@),
            s <= solution@.len(),
            forall|t: int|
                0 <= t < s ==> !((#[trigger] all[t]).session.week.0 == week
                    && all[t].applicants.len() > 0),
        decreases solution@.len() - s,
    {
        assert(all[s as int] == solution@[s as int]@);
        if solution[s].session.week.0 == week && solution[s].applicants.len() > 0 {
            return true;
        }
        s += 1;
    }
    false
}

/// The weeks in which some session has an applicant, in ascending order.
fn find_weeks(solution: &Vec<SolvedSession>) -> (weeks: Vec<u8>)
    ensures
        weeks@ == staffed_weeks(solution_of(solution@), 256),
{
    let mut weeks: Vec<u8> = Vec::new();
    let mut week: u16 = 0;
    while week < 256
        invariant
            week <= 256,
            weeks@ == staffed_weeks(solution_of(solution@), week as nat),
        decreases 256 - week,
    {
        if is_week_staffed(solution, week as u8) {
            weeks.push(week as u8);
        }
        week += 1;
    }
    weeks
}

/// Counts the applicants with the email address.
fn count_with_email(applicants: &Vec<Applicant>, email: &String) -> (count: usize)
    ensures
        count == count_email(pool_of(applicants@), email@),
        count <= applicants@.len(),
{
    let ghost pool = pool_of(applicants@);
    let mut count: usize = 0;
    let mut k: usize = 0;
    assert(pool.take(0).len() == 0);
    while k < applicants.len()
        invariant
            pool == pool_of(applicants@),
            k <= applicants@.len(),
            count <= k,
            count == count_email(pool.take(k as int), email@),
        decreases applicants@.len() - k,
    {
        proof {
            assert(pool.take(k + 1).drop_last() =~= pool.take(k as int));
            assert(pool.take(k + 1).last() == applicants@[k as int]@);
        }
        if applicants[k].email == *email {
            count += 1;
        }
        k += 1;
    }
    assert(pool.take(k as int) =~= pool);
    count
}

/// Sums the hours that the tutor with the email address works in the week.
fn sum_hours(solution: &Vec<SolvedSession>, email: &String, week: u8) -> (hours: u128)
    requires
        all_countable(solution_of(solution@)),
    ensures
        hours == tutor_hours(solution_of(solution@), email@, week),
{
    let ghost all = solution_of(solution@);
    let mut hours: u128 = 0;
    let mut s: usize = 0;
    assert(all.take(0).len() == 0);
    while s < solution.len()
        invariant
            all == solution_of(solution@),
            s <= solution@.len(),
            all_countable(all),
            hours == tutor_hours(all.take(s as int), email@, week),
            hours <= s * 0xFF_FFFF_FFFF,
        decreases solution@.len() - s,
    {
        proof {
            assert(all.take(s + 1).drop_last() =~= all.take(s as int));
            assert(all.take(s + 1).last() == solution@[s as int]@);
        }
        if solution[s].session.week.0 == week {
            let count = count_with_email(&solution[s].applicants, email);
            let length = solution[s].session.length_hours;
            assert(all[s as int].applicants.len() <= 0xFFFF_FFFF);
            assert(length as nat * count as nat <= 0xFF_FFFF_FFFF) by (nonlinear_arith)
                requires
                    length <= 255,
                    count <= 0xFFFF_FFFF,
            ;
            hours += (length as u128) * (count as u128);
        }
        s += 1;
    }
    assert(all.take(s as int) =~= all);
    hours
}

/// Writes a solution as a table of the hours that each tutor works in each
/// week, one line for each tutor, sorted by email address.
pub fn tabulate_hours_by_tutor(solution: Vec<SolvedSession>) -> (table: String)
    requires
        all_countable(solution_of(solution@)),
    ensures
        table@ == hours_table(solution_of(solution@)),
{
    let ghost all = solution_of(solution@);
    let weeks = find_weeks(&solution);
    let places = find_tutors(&solution);
    let ghost tutors = tutors_of(all);
    let mut out: Vec<char> = Vec::new();
    let mut header: Vec<Vec<char>> = Vec::new();
    header.push(chars_of("Name"));
    header.push(chars_of("Email"));
    header.push(chars_of("Max hours"));
    let mut w: usize = 0;
    while w < weeks.len()
        invariant
            w <= weeks@.len(),
            header@.len() == 3 + w,
            header@[0]@ == "Name"@,
            header@[1]@ == "Email"@,
            header@[2]@ == "Max hours"@,
            forall|i: int|
                0 <= i < w ==> (#[trigger] header@[3 + i])@ == "Week "@ + decimal(weeks@[i] as nat),
        decreases weeks@.len() - w,
    {
        let mut name: Vec<char> = Vec::new();
        push_text(&mut name, "Week ");
        push_decimal(&mut name, weeks[w] as u128);
        assert(name@ =~= "Week "@ + decimal(weeks@[w as int] as nat));
        header.push(name);
        w += 1;
    }
    assert forall|i: int| 0 <= i < header@.len() implies rows(header@)[i] == header_fields(
        weeks@,
    )[i] by {
        if i >= 3 {
            assert(header@[3 + (i - 3)]@ == "Week "@ + decimal(weeks@[i - 3] as nat));
        }
    }
    assert(rows(header@) =~= header_fields(weeks@));
    push_joined(&mut out, &header, "\t");
    push_text(&mut out, "\n");
    let ghost head = out@;
    let mut t: usize = 0;
    assert(out@ =~= head + tutor_lines(all, tutors, weeks@, 0));
    while t < places.len()
        invariant
            all == solution_of(solution@),
            all_countable(all),
            tutors == tutors_of(all),
            places_valid(solution@, places@),
            records_at(solution@, places@) == tutors,
            t <= places@.len(),
            out@ == head + tutor_lines(all, tutors, weeks@, t as nat),
        decreases places@.len() - t,
    {
        let tutor = &solution[places[t].0].applicants[places[t].1];
        assert(tutors[t as int] == tutor@);
        let mut fields: Vec<Vec<char>> = Vec::new();
        fields.push(chars_of(tutor.name.as_str()));
        fields.push(chars_of(tutor.email.as_str()));
        fields.push(decimal_chars(tutor.max_hours_per_week as u128));
        let mut w: usize = 0;
        while w < weeks.len()
            invariant
                all == solution_of(solution@),
                all_countable(all),
                w <= weeks@.len(),
                fields@.len() == 3 + w,
                fields@[0]@ == tutor@.name,
                fields@[1]@ == tutor@.email,
                fields@[2]@ == decimal(tutor@.max_hours_per_week as nat),
                forall|i: int|
                    0 <= i < w ==> (#[trigger] fields@[3 + i])@ == decimal(
                        tutor_hours(all, tutor@.email, weeks@[i]),
                    ),
            decreases weeks@.len() - w,
        {
            fields.push(decimal_chars(sum_hours(&solution, &tutor.email, weeks[w])));
            w += 1;
        }
        assert forall|i: int| 0 <= i < fields@.len() implies rows(fields@)[i] == tutor_fields(
            all,
            tutor@,
            weeks@,
        )[i] by {
            if i >= 3 {
                assert(fields@[3 + (i - 3)]@ == decimal(
                    tutor_hours(all, tutor@.email, weeks@[i - 3]),
                ));
            }
        }
        assert(rows(fields@) =~= tutor_fields(all, tutor@, weeks@));
        push_joined(&mut out, &fields, "\t");
        push_text(&mut out, "\n");
        assert(out@ =~= head + tutor_lines(all, tutors, weeks@, (t + 1) as nat));
        t += 1;
    }
    assert(head =~= joined(header_fields(weeks@), "\t"@) + "\n"@);
    text_of(out.as_slice())
}

} // verus!
