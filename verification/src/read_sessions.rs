use crate::numbers::{parse_i32, parse_unsigned, read_i32, read_u16, read_u8};
use crate::text::{
    chars_of, copy_range, ends_with, first_at, lines, position, push_text, rows, split,
    split_chars, split_lines, split_words, without_suffix, words,
};
use crate::tsv::{cell, Tsv, TsvView};
use crate::types::{Course, Day, Session, Venue, WeekNum};
use vstd::prelude::*;

verus! {

/// The integers from `low` to `high`, both included, in ascending order.
pub open spec fn int_range(low: int, high: int) -> Seq<i32> {
    if low > high {
        Seq::empty()
    } else {
        Seq::new((high - low + 1) as nat, |i: int| (low + i) as i32)
    }
}

/// What one item of a sequence specification stands for: a number for
/// itself, two numbers with a hyphen between them for the range from the
/// first to the second. Nothing where a number is malformed.
pub open spec fn expand_item(item: Seq<char>) -> Option<Seq<i32>> {
    let dash = first_at(item, '-', 0);
    if dash >= item.len() {
        match parse_i32(item) {
            Some(number) => Some(seq![number as i32]),
            None => None,
        }
    } else {
        match (
            parse_i32(item.subrange(0, dash)),
            parse_i32(item.subrange(dash + 1, item.len() as int)),
        ) {
            (Some(low), Some(high)) => Some(int_range(low, high)),
            _ => None,
        }
    }
}

/// What the items stand for, one after the other.
pub open spec fn expand_items(items: Seq<Seq<char>>) -> Option<Seq<i32>>
    decreases items.len(),
{
    if items.len() == 0 {
        Some(Seq::empty())
    } else {
        match (expand_items(items.drop_last()), expand_item(items.last())) {
            (Some(front), Some(more)) => Some(front + more),
            _ => None,
        }
    }
}

/// The numbers that a sequence specification stands for: its items are
/// separated by commas.
pub open spec fn expanded(spec: Seq<char>) -> Option<Seq<i32>> {
    expand_items(split(spec, ','))
}

/// Once the front items stand for nothing, neither do all.
pub proof fn lemma_items_stay_bad(items: Seq<Seq<char>>, count: int)
    requires
        0 <= count <= items.len(),
        expand_items(items.take(count)) is None,
    ensures
        expand_items(items) is None,
    decreases items.len() - count,
{
    if count < items.len() {
        assert(items.take(count + 1).drop_last() =~= items.take(count));
        lemma_items_stay_bad(items, count + 1);
    } else {
        assert(items.take(count) =~= items);
    }
}

/// Appends the integers from `low` to `high`.
fn push_range(out: &mut Vec<i32>, low: i32, high: i32)
    ensures
        final(out)@ == old(out)@ + int_range(low as int, high as int),
{
    let mut next: i64 = low as i64;
    assert(out@ =~= old(out)@ + int_range(low as int, low - 1));
    while next <= high as i64
        invariant
            low <= next <= high + 1 || (low > high && next == low),
            out@ == old(out)@ + int_range(low as int, next - 1),
        decreases high + 1 - next,
    {
        out.push(next as i32);
        assert(old(out)@ + int_range(low as int, next as int) =~= (old(out)@ + int_range(
            low as int,
            next - 1,
        )).push(next as i32));
        next += 1;
    }
    assert(int_range(low as int, next - 1) =~= int_range(low as int, high as int));
}

/// Appends what one item stands for; says whether it is well formed.
fn expand_into(out: &mut Vec<i32>, item: &[char]) -> (ok: bool)
    ensures
        match expand_item(item@) {
            Some(more) => ok && final(out)@ == old(out)@ + more,
            None => !ok,
        },
{
    let dash = position(item, '-', 0);
    if dash >= item.len() {
        match read_i32(item) {
            Some(number) => {
                out.push(number);
                assert(out@ =~= old(out)@ + seq![number]);
                true
            },
            None => false,
        }
    } else {
        let before = copy_range(item, 0, dash);
        let after = copy_range(item, dash + 1, item.len());
        match (read_i32(before.as_slice()), read_i32(after.as_slice())) {
            (Some(low), Some(high)) => {
                push_range(out, low, high);
                true
            },
            _ => false,
        }
    }
}

/// Expands the characters of a sequence specification.
pub fn expand_chars(spec: &[char]) -> (numbers: Option<Vec<i32>>)
    ensures
        match numbers {
            Some(found) => expanded(spec@) == Some(found@),
            None => expanded(spec@) is None,
        },
{
    let items = split_chars(spec, ',');
    let ghost all = split(spec@, ',');
    let mut numbers: Vec<i32> = Vec::new();
    let mut i: usize = 0;
    assert(all.take(0).len() == 0);
    while i < items.len()
        invariant
            rows(items@) == all,
            all == split(spec@, ','),
            i <= items@.len(),
            expand_items(all.take(i as int)) == Some(numbers@),
        decreases items@.len() - i,
    {
        proof {
            assert(all.take(i + 1).drop_last() =~= all.take(i as int));
            assert(all.take(i + 1).last() == items@[i as int]@);
        }
        if !expand_into(&mut numbers, items[i].as_slice()) {
            proof {
                assert(expand_item(all.take(i + 1).last()) is None);
                assert(expand_items(all.take(i + 1)) is None);
                lemma_items_stay_bad(all, i + 1);
            }
            return None;
        }
        i += 1;
    }
    assert(all.take(i as int) =~= all);
    Some(numbers)
}

/// Expands a sequence specification if it is well formed, and gives
/// nothing if it is not.
pub fn try_expand_sequence_specification(spec: &str) -> (numbers: Option<Vec<i32>>)
    ensures
        match numbers {
            Some(found) => expanded(spec@) == Some(found@),
            None => expanded(spec@) is None,
        },
{
    let chars = chars_of(spec);
    expand_chars(chars.as_slice())
}

/// Expands a well-formed sequence specification such as `1-3,5` into the
/// numbers it stands for, here 1, 2, 3 and 5.
pub fn expand_sequence_specification(spec: &str) -> (numbers: Vec<i32>)
    requires
        expanded(spec@) is Some,
    ensures
        expanded(spec@) == Some(numbers@),
{
    try_expand_sequence_specification(spec).unwrap()
}

/// The hour of the 24-hour clock that a twelve-hour time such as `9am` or
/// `2pm` stands for. `12am` is midnight, hour 0, and `12pm` is noon, hour 12.
/// Any other number stands for itself before `am`, and for twelve more
/// before `pm`. Nothing where the time is malformed or the hour exceeds 255.
pub open spec fn clock_hour(text: Seq<char>) -> Option<u8> {
    if ends_with(text, "am"@) {
        match parse_unsigned(text.subrange(0, text.len() - "am"@.len()), 255) {
            Some(hour) => if hour == 12 {
                Some(0u8)
            } else {
                Some(hour as u8)
            },
            None => None,
        }
    } else if ends_with(text, "pm"@) {
        match parse_unsigned(text.subrange(0, text.len() - "pm"@.len()), 255) {
            Some(hour) => if hour == 12 {
                Some(12u8)
            } else if hour + 12 <= 255 {
                Some((hour + 12) as u8)
            } else {
                None
            },
            None => None,
        }
    } else {
        None
    }
}

/// Reads a twelve-hour time from its characters.
pub fn read_clock(chars: &[char]) -> (hour: Option<u8>)
    ensures
        hour == clock_hour(chars@),
{
    match without_suffix(chars, "am") {
        Some(number) => match read_u8(number.as_slice()) {
            Some(hour) => if hour == 12 {
                Some(0)
            } else {
                Some(hour)
            },
            None => None,
        },
        None => match without_suffix(chars, "pm") {
            Some(number) => match read_u8(number.as_slice()) {
                Some(hour) => if hour == 12 {
                    Some(12)
                } else if hour <= 243 {
                    Some(hour + 12)
                } else {
                    None
                },
                None => None,
            },
            None => None,
        },
    }
}

/// Reads a twelve-hour time such as `9am` or `2pm` as an hour of the
/// 24-hour clock.
pub fn twelve_hour_to_twentfour_hour(s: &str) -> (hour: Option<u8>)
    ensures
        hour == clock_hour(s@),
{
    let chars = chars_of(s);
    read_clock(chars.as_slice())
}

/// The length in hours that a text such as `2hrs` stands for.
pub open spec fn length_hours(text: Seq<char>) -> Option<u8> {
    if ends_with(text, "hrs"@) {
        match parse_unsigned(text.subrange(0, text.len() - "hrs"@.len()), 255) {
            Some(hours) => Some(hours as u8),
            None => None,
        }
    } else {
        None
    }
}

/// Reads a length in hours from its characters.
fn read_length(chars: &[char]) -> (hours: Option<u8>)
    ensures
        hours == length_hours(chars@),
{
    match without_suffix(chars, "hrs") {
        Some(number) => read_u8(number.as_slice()),
        None => None,
    }
}

/// The low eight bits of a number.
pub open spec fn low_byte(number: i32) -> u8 {
    ((number + 0x1_0000_0000) % 256) as u8
}

/// The low eight bits of a number.
fn truncate(number: i32) -> (byte: u8)
    ensures
        byte == low_byte(number),
{
    ((number as i64 + 0x1_0000_0000) % 256) as u8
}

/// The sessions that a line's five words stand for, one for each week,
/// numbered from `first_id`.
pub open spec fn sessions_of_weeks(
    day: Day,
    time: u8,
    length: u8,
    venue: Venue,
    weeks: Seq<i32>,
    first_id: nat,
) -> Seq<Session> {
    Seq::new(
        weeks.len(),
        |i: int|
            Session {
                id: (first_id + i) as usize,
                day,
                week: WeekNum(low_byte(weeks[i])),
                venue,
                time_24hr: time,
                length_hours: length,
            },
    )
}

/// The sessions that one line of a timetable stands for, numbered from
/// `first_id`. What follows a `#` is a comment. A line without words stands
/// for no session. Any other line has five words: the day, the start as a
/// twelve-hour time, the length in hours, the venue, and the weeks as a
/// sequence specification. Nothing where the line is malformed, or where the
/// numbers of its sessions would not fit the machine.
pub open spec fn line_sessions(line: Seq<char>, first_id: nat) -> Option<Seq<Session>> {
    let fields = words(line.subrange(0, first_at(line, '#', 0)));
    if fields.len() == 0 {
        Some(Seq::empty())
    } else if fields.len() != 5 {
        None
    } else {
        match (
            Day::named(fields[0]),
            clock_hour(fields[1]),
            length_hours(fields[2]),
            Venue::named(fields[3]),
            expanded(fields[4]),
        ) {
            (Some(day), Some(time), Some(length), Some(venue), Some(weeks)) => if first_id
                + weeks.len() <= usize::MAX {
                Some(sessions_of_weeks(day, time, length, venue, weeks, first_id))
            } else {
                None
            },
            _ => None,
        }
    }
}

/// Reads one line of a timetable. The sessions are numbered from `*id`,
/// which is moved behind the last of them.
pub fn sessions_from_specification_line(line: &[char], id: &mut usize) -> (sessions: Option<
    Vec<Session>,
>)
    ensures
        match sessions {
            Some(found) => line_sessions(line@, *old(id) as nat) == Some(found@) && *final(id)
                == *old(id) + found@.len(),
            None => line_sessions(line@, *old(id) as nat) is None && *final(id) == *old(id),
        },
{
    let hash = position(line, '#', 0);
    let before = copy_range(line, 0, hash);
    let fields = split_words(before.as_slice());
    let ghost words = words(line@.subrange(0, hash as int));
    assert(rows(fields@) == words);
    if fields.len() == 0 {
        return Some(Vec::new());
    }
    if fields.len() != 5 {
        return None;
    }
    assert(words[0] == fields@[0]@);
    assert(words[1] == fields@[1]@);
    assert(words[2] == fields@[2]@);
    assert(words[3] == fields@[3]@);
    assert(words[4] == fields@[4]@);
    let day = match Day::from_chars(fields[0].as_slice()) {
        Some(day) => day,
        None => {
            return None;
        },
    };
    let time = match read_clock(fields[1].as_slice()) {
        Some(time) => time,
        None => {
            return None;
        },
    };
    let length = match read_length(fields[2].as_slice()) {
        Some(length) => length,
        None => {
            return None;
        },
    };
    let venue = match Venue::from_chars(fields[3].as_slice()) {
        Some(venue) => venue,
        None => {
            return None;
        },
    };
    let weeks = match expand_chars(fields[4].as_slice()) {
        Some(weeks) => weeks,
        None => {
            return None;
        },
    };
    let first = *id;
    if weeks.len() > usize::MAX - first {
        return None;
    }
    let mut sessions: Vec<Session> = Vec::new();
    let mut i: usize = 0;
    while i < weeks.len()
        invariant
            i <= weeks@.len(),
            first + weeks@.len() <= usize::MAX,
            sessions@.len() == i,
            forall|k: int|
                0 <= k < i ==> (#[trigger] sessions@[k]) == sessions_of_weeks(
                    day,
                    time,
                    length,
                    venue,
                    weeks@,
                    first as nat,
                )[k],
        decreases weeks@.len() - i,
    {
        sessions.push(
            Session {
                id: first + i,
                day,
                week: WeekNum(truncate(weeks[i])),
                venue,
                time_24hr: time,
                length_hours: length,
            },
        );
        i += 1;
    }
    assert(sessions@ =~= sessions_of_weeks(day, time, length, venue, weeks@, first as nat));
    *id = first + weeks.len();
    Some(sessions)
}

/// The sessions that the lines of a timetable stand for, numbered from 0 in
/// the order of the lines. Nothing where a line is malformed.
pub open spec fn sessions_of_lines(lines: Seq<Seq<char>>) -> Option<Seq<Session>>
    decreases lines.len(),
{
    if lines.len() == 0 {
        Some(Seq::empty())
    } else {
        match sessions_of_lines(lines.drop_last()) {
            Some(front) => match line_sessions(lines.last(), front.len()) {
                Some(more) => Some(front + more),
                None => None,
            },
            None => None,
        }
    }
}

/// Once the front lines stand for nothing, neither do all.
pub proof fn lemma_lines_stay_bad(lines: Seq<Seq<char>>, count: int)
    requires
        0 <= count <= lines.len(),
        sessions_of_lines(lines.take(count)) is None,
    ensures
        sessions_of_lines(lines) is None,
    decreases lines.len() - count,
{
    if count < lines.len() {
        assert(lines.take(count + 1).drop_last() =~= lines.take(count));
        lemma_lines_stay_bad(lines, count + 1);
    } else {
        assert(lines.take(count) =~= lines);
    }
}

/// The sessions that a timetable stands for.
pub open spec fn timetable(input: Seq<char>) -> Option<Seq<Session>> {
    sessions_of_lines(lines(input))
}

/// Reads a well-formed timetable, one specification to a line. The
/// sessions are numbered by their places.
pub fn read_sessions_from_string(input: &str) -> (sessions: Vec<Session>)
    requires
        timetable(input@) is Some,
    ensures
        timetable(input@) == Some(sessions@),
        forall|s: int| 0 <= s < sessions@.len() ==> (#[trigger] sessions@[s]).id == s,
{
    try_read_sessions_from_string(input).unwrap()
}

/// Reads a timetable if every line of it is well formed, and gives nothing
/// if one is not. The sessions are numbered by their places.
pub fn try_read_sessions_from_string(input: &str) -> (sessions: Option<Vec<Session>>)
    ensures
        match sessions {
            Some(found) => timetable(input@) == Some(found@) && forall|s: int|
                0 <= s < found@.len() ==> (#[trigger] found@[s]).id == s,
            None => timetable(input@) is None,
        },
{
    let chars = chars_of(input);
    let found = split_lines(chars.as_slice());
    let ghost all = lines(input@);
    let mut sessions: Vec<Session> = Vec::new();
    let mut id: usize = 0;
    let mut i: usize = 0;
    assert(all.take(0).len() == 0);
    while i < found.len()
        invariant
            rows(found@) == all,
            all == lines(input@),
            i <= found@.len(),
            id == sessions@.len(),
            sessions_of_lines(all.take(i as int)) == Some(sessions@),
            forall|s: int| 0 <= s < sessions@.len() ==> (#[trigger] sessions@[s]).id == s,
        decreases found@.len() - i,
    {
        proof {
            assert(all.take(i + 1).drop_last() =~= all.take(i as int));
            assert(all.take(i + 1).last() == found@[i as int]@);
        }
        match sessions_from_specification_line(found[i].as_slice(), &mut id) {
            Some(mut more) => {
                let ghost before = sessions@;
                let ghost added = more@;
                sessions.append(&mut more);
                assert(sessions@ =~= before + added);
            },
            None => {
                proof {
                    assert(line_sessions(all.take(i + 1).last(), sessions@.len()) is None);
                    assert(sessions_of_lines(all.take(i + 1)) is None);
                    lemma_lines_stay_bad(all, i + 1);
                }
                return None;
            },
        }
        i += 1;
    }
    assert(all.take(i as int) =~= all);
    Some(sessions)
}

/// The name of the column that holds the hours desired for `course`.
pub open spec fn desired_column(course: Course) -> Seq<char> {
    "Desired "@ + course.code() + " hours"@
}

/// The week and the hours desired for `course` that one row of the table
/// names: the number in column `Week`, which fits in eight bits, and the
/// number in the course's column, which fits in sixteen.
pub open spec fn desired_row(header: Seq<Seq<char>>, row: Seq<Seq<char>>, course: Course) -> Option<
    (WeekNum, u16),
> {
    match (cell(header, row, "Week"@), cell(header, row, desired_column(course))) {
        (Some(week), Some(hours)) => match (
            parse_unsigned(week, 255),
            parse_unsigned(hours, 65535),
        ) {
            (Some(week), Some(hours)) => Some((WeekNum(week as u8), hours as u16)),
            _ => None,
        },
        _ => None,
    }
}

/// The desired hours that a table names for `course`, one entry for each
/// row. Nothing where some row lacks a cell or holds a malformed number.
pub open spec fn desired_hours(tsv: TsvView, course: Course) -> Option<Seq<(WeekNum, u16)>> {
    if forall|r: int|
        0 <= r < tsv.rows.len() ==> desired_row(tsv.header, #[trigger] tsv.rows[r], course) is Some {
        Some(
            Seq::new(tsv.rows.len(), |r: int| desired_row(tsv.header, tsv.rows[r], course)->0),
        )
    } else {
        None
    }
}

/// Reads the hours desired for `course` in each week from a table, each
/// row of which names a week and the hours.
pub fn extract_desired_hours(tsv: Tsv, course: Course) -> (desired: Vec<(WeekNum, u16)>)
    requires
        desired_hours(tsv@, course) is Some,
    ensures
        desired_hours(tsv@, course) == Some(desired@),
{
    try_extract_desired_hours(&tsv, course).unwrap()
}

/// Reads the hours desired for `course` in each week from a table, and
/// gives nothing if some row lacks a cell or holds a malformed number.
pub fn try_extract_desired_hours(tsv: &Tsv, course: Course) -> (desired: Option<
    Vec<(WeekNum, u16)>,
>)
    ensures
        match desired {
            Some(found) => desired_hours(tsv@, course) == Some(found@),
            None => desired_hours(tsv@, course) is None,
        },
{
    let week_name = chars_of("Week");
    let mut hours_name: Vec<char> = Vec::new();
    push_text(&mut hours_name, "Desired ");
    let code = course.to_string();
    push_text(&mut hours_name, code.as_str());
    push_text(&mut hours_name, " hours");
    assert(hours_name@ =~= desired_column(course));
    let mut desired: Vec<(WeekNum, u16)> = Vec::new();
    let mut r: usize = 0;
    while r < tsv.num_rows()
        invariant
            week_name@ == "Week"@,
            hours_name@ == desired_column(course),
            r <= tsv@.rows.len(),
            desired@.len() == r,
            forall|q: int|
                0 <= q < r ==> desired_row(tsv@.header, #[trigger] tsv@.rows[q], course) == Some(
                    desired@[q],
                ),
        decreases tsv@.rows.len() - r,
    {
        let week = match tsv.get(r, week_name.as_slice()) {
            Some(chars) => read_u8(chars.as_slice()),
            None => None,
        };
        let hours = match tsv.get(r, hours_name.as_slice()) {
            Some(chars) => read_u16(chars.as_slice()),
            None => None,
        };
        match (week, hours) {
            (Some(week), Some(hours)) => {
                desired.push((WeekNum(week), hours));
            },
            _ => {
                assert(desired_row(tsv@.header, tsv@.rows[r as int], course) is None);
                return None;
            },
        }
        r += 1;
    }
    assert(desired@ =~= Seq::new(
        tsv@.rows.len(),
        |q: int| desired_row(tsv@.header, tsv@.rows[q], course)->0,
    ));
    Some(desired)
}

} // verus!
