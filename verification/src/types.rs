use crate::text::{chars_of, spells};
use vstd::prelude::*;

verus! {

/// A day of the week on which sessions run.
#[derive(Clone, Copy, Debug, PartialEq, Eq, Structural)]
pub enum Day {
    Mon,
    Tue,
    Wed,
    Thu,
    Fri,
    Sat,
}

/// The number of a teaching week.
#[derive(Clone, Copy, Debug, PartialEq, Eq, Hash, PartialOrd, Ord, Structural)]
pub struct WeekNum(pub u8);

/// How a session is delivered.
#[derive(Clone, Copy, Debug, PartialEq, Eq, Structural)]
pub enum Venue {
    FaceToFace,
    Online,
}

/// One scheduled occurrence of a help slot. A session's `id` is its place in
/// the session list and in every applicant's availability list.
#[derive(Clone, Copy, Debug)]
pub struct Session {
    pub id: usize,
    pub day: Day,
    pub week: WeekNum,
    pub venue: Venue,
    pub time_24hr: u8,
    pub length_hours: u8,
}

/// The course an applicant teaches.
#[derive(Clone, Copy, Debug, PartialEq, Eq, Structural)]
pub enum Course {
    Comp1511,
    Comp1521,
    Comp2521,
}

/// How strongly an applicant wants a session.
#[derive(Clone, Copy, Debug, PartialEq, Eq, Hash, PartialOrd, Ord, Structural)]
pub enum Availability {
    Impossible,
    Dislike,
    Possible,
    Preferred,
}

/// A person who can be assigned to sessions.
#[derive(Debug)]
pub struct Applicant {
    pub id: u32,
    pub email: String,
    pub name: String,
    pub course: Course,
    pub max_hours_per_week: u16,
    pub availabilities: Vec<Availability>,
}

/// What an applicant record says: its fields, text and lists by their
/// contents.
pub struct ApplicantView {
    pub id: u32,
    pub email: Seq<char>,
    pub name: Seq<char>,
    pub course: Course,
    pub max_hours_per_week: u16,
    pub availabilities: Seq<Availability>,
}

impl View for Applicant {
    type V = ApplicantView;

    open spec fn view(&self) -> ApplicantView {
        ApplicantView {
            id: self.id,
            email: self.email@,
            name: self.name@,
            course: self.course,
            max_hours_per_week: self.max_hours_per_week,
            availabilities: self.availabilities@,
        }
    }
}

/// What a list of applicant records says.
pub open spec fn pool_of(applicants: Seq<Applicant>) -> Seq<ApplicantView> {
    Seq::new(applicants.len(), |a: int| applicants[a]@)
}

impl Clone for Applicant {
    fn clone(&self) -> (copy: Self)
        ensures
            copy@ == self@,
    {
        let mut availabilities: Vec<Availability> = Vec::new();
        let mut i: usize = 0;
        while i < self.availabilities.len()
            invariant
                i <= self.availabilities.len(),
                availabilities@ == self.availabilities@.take(i as int),
            decreases self.availabilities.len() - i,
        {
            availabilities.push(self.availabilities[i]);
            i += 1;
        }
        assert(self.availabilities@.take(i as int) =~= self.availabilities@);
        Applicant {
            id: self.id,
            email: self.email.clone(),
            name: self.name.clone(),
            course: self.course,
            max_hours_per_week: self.max_hours_per_week,
            availabilities,
        }
    }
}

/// What `format!` gives for a text shown with `{:?}`: the text between
/// double quotes, with escapes where Rust writes them.
pub uninterp spec fn debug_text(text: Seq<char>) -> Seq<char>;

/// `format!` with `{:?}` on a text.
#[verifier::external_body]
fn show_debug(text: &str) -> (shown: String)
    ensures
        shown@ == debug_text(text@),
{
    format!("{text:?}")
}

impl Day {
    /// The day that a three-letter name in lower case stands for.
    pub open spec fn named(text: Seq<char>) -> Option<Day> {
        if text == "mon"@ {
            Some(Day::Mon)
        } else if text == "tue"@ {
            Some(Day::Tue)
        } else if text == "wed"@ {
            Some(Day::Wed)
        } else if text == "thu"@ {
            Some(Day::Thu)
        } else if text == "fri"@ {
            Some(Day::Fri)
        } else if text == "sat"@ {
            Some(Day::Sat)
        } else {
            None
        }
    }

    /// Reads a day from the characters of its three-letter name.
    pub fn from_chars(chars: &[char]) -> (day: Option<Day>)
        ensures
            day == Day::named(chars@),
    {
        if spells(chars, "mon") {
            Some(Day::Mon)
        } else if spells(chars, "tue") {
            Some(Day::Tue)
        } else if spells(chars, "wed") {
            Some(Day::Wed)
        } else if spells(chars, "thu") {
            Some(Day::Thu)
        } else if spells(chars, "fri") {
            Some(Day::Fri)
        } else if spells(chars, "sat") {
            Some(Day::Sat)
        } else {
            None
        }
    }

    /// Reads a day from its three-letter name; the error names the text that
    /// is no day.
    pub fn from_str(s: &str) -> (day: Result<Day, String>)
        ensures
            match day {
                Ok(found) => Day::named(s@) == Some(found),
                Err(message) => Day::named(s@) is None && message@ == "bad day "@ + debug_text(s@),
            },
    {
        let chars = chars_of(s);
        match Day::from_chars(chars.as_slice()) {
            Some(found) => Ok(found),
            None => {
                let mut message = "bad day ".to_owned();
                let shown = show_debug(s);
                message.append(shown.as_str());
                Err(message)
            },
        }
    }

    /// The day's full name, as a text.
    pub open spec fn long_text(self) -> Seq<char> {
        match self {
            Day::Mon => "Monday"@,
            Day::Tue => "Tuesday"@,
            Day::Wed => "Wednesday"@,
            Day::Thu => "Thursday"@,
            Day::Fri => "Friday"@,
            Day::Sat => "Saturday"@,
        }
    }

    /// The day's full name.
    pub fn long_name(self) -> (name: &'static str)
        ensures
            name@ == self.long_text(),
    {
        match self {
            Day::Mon => "Monday",
            Day::Tue => "Tuesday",
            Day::Wed => "Wednesday",
            Day::Thu => "Thursday",
            Day::Fri => "Friday",
            Day::Sat => "Saturday",
        }
    }

    /// The day's three-letter name, as a text.
    pub open spec fn short_text(self) -> Seq<char> {
        match self {
            Day::Mon => "Mon"@,
            Day::Tue => "Tue"@,
            Day::Wed => "Wed"@,
            Day::Thu => "Thu"@,
            Day::Fri => "Fri"@,
            Day::Sat => "Sat"@,
        }
    }

    /// The day's three-letter name.
    pub fn short_name(self) -> (name: &'static str)
        ensures
            name@ == self.short_text(),
    {
        match self {
            Day::Mon => "Mon",
            Day::Tue => "Tue",
            Day::Wed => "Wed",
            Day::Thu => "Thu",
            Day::Fri => "Fri",
            Day::Sat => "Sat",
        }
    }

    /// The day's place in the week, from 0 for Monday.
    pub open spec fn rank(self) -> nat {
        match self {
            Day::Mon => 0,
            Day::Tue => 1,
            Day::Wed => 2,
            Day::Thu => 3,
            Day::Fri => 4,
            Day::Sat => 5,
        }
    }

    /// The day's place in the week, from 0 for Monday.
    pub fn ordinal(self) -> (place: u8)
        ensures
            place == self.rank(),
    {
        match self {
            Day::Mon => 0,
            Day::Tue => 1,
            Day::Wed => 2,
            Day::Thu => 3,
            Day::Fri => 4,
            Day::Sat => 5,
        }
    }
}

impl Venue {
    /// The word for the venue in timetables.
    pub open spec fn word(self) -> Seq<char> {
        match self {
            Venue::FaceToFace => "f2f"@,
            Venue::Online => "online"@,
        }
    }

    /// The venue that a timetable word stands for.
    pub open spec fn named(text: Seq<char>) -> Option<Venue> {
        if text == "f2f"@ {
            Some(Venue::FaceToFace)
        } else if text == "online"@ {
            Some(Venue::Online)
        } else {
            None
        }
    }

    /// The word for the venue in timetables.
    pub fn as_str(self) -> (word: &'static str)
        ensures
            word@ == self.word(),
    {
        match self {
            Venue::FaceToFace => "f2f",
            Venue::Online => "online",
        }
    }

    /// Reads a venue from the characters of its timetable word.
    pub fn from_chars(chars: &[char]) -> (venue: Option<Venue>)
        ensures
            venue == Venue::named(chars@),
    {
        if spells(chars, "f2f") {
            Some(Venue::FaceToFace)
        } else if spells(chars, "online") {
            Some(Venue::Online)
        } else {
            None
        }
    }
}

impl Course {
    /// The course's code, as a text.
    pub open spec fn code(self) -> Seq<char> {
        match self {
            Course::Comp1511 => "COMP1511"@,
            Course::Comp1521 => "COMP1521"@,
            Course::Comp2521 => "COMP2521"@,
        }
    }

    /// The course that a code stands for.
    pub open spec fn named(text: Seq<char>) -> Option<Course> {
        if text == "COMP1511"@ {
            Some(Course::Comp1511)
        } else if text == "COMP1521"@ {
            Some(Course::Comp1521)
        } else if text == "COMP2521"@ {
            Some(Course::Comp2521)
        } else {
            None
        }
    }

    /// The course's code.
    pub fn to_string(&self) -> (code: String)
        ensures
            code@ == self.code(),
    {
        match self {
            Course::Comp1511 => "COMP1511".to_owned(),
            Course::Comp1521 => "COMP1521".to_owned(),
            Course::Comp2521 => "COMP2521".to_owned(),
        }
    }

    /// Reads a course from the characters of its code.
    pub fn from_chars(chars: &[char]) -> (course: Option<Course>)
        ensures
            course == Course::named(chars@),
    {
        if spells(chars, "COMP1511") {
            Some(Course::Comp1511)
        } else if spells(chars, "COMP1521") {
            Some(Course::Comp1521)
        } else if spells(chars, "COMP2521") {
            Some(Course::Comp2521)
        } else {
            None
        }
    }
}

impl Availability {
    /// The rating that a word of the survey stands for.
    pub open spec fn named(text: Seq<char>) -> Option<Availability> {
        if text == "Impossible"@ {
            Some(Availability::Impossible)
        } else if text == "Dislike"@ {
            Some(Availability::Dislike)
        } else if text == "Possible"@ {
            Some(Availability::Possible)
        } else if text == "Preferred"@ {
            Some(Availability::Preferred)
        } else {
            None
        }
    }

    /// Reads a rating from the characters of its word.
    pub fn from_chars(chars: &[char]) -> (rating: Option<Availability>)
        ensures
            rating == Availability::named(chars@),
    {
        if spells(chars, "Impossible") {
            Some(Availability::Impossible)
        } else if spells(chars, "Dislike") {
            Some(Availability::Dislike)
        } else if spells(chars, "Possible") {
            Some(Availability::Possible)
        } else if spells(chars, "Preferred") {
            Some(Availability::Preferred)
        } else {
            None
        }
    }

    /// Reads a rating from its word.
    pub fn from_str(s: &str) -> (rating: Result<Availability, ()>)
        ensures
            match rating {
                Ok(found) => Availability::named(s@) == Some(found),
                Err(_) => Availability::named(s@) is None,
            },
    {
        let chars = chars_of(s);
        match Availability::from_chars(chars.as_slice()) {
            Some(found) => Ok(found),
            None => Err(()),
        }
    }
}

} // verus!
