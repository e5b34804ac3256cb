//! Domain records of the schedule and the parsers that turn raw spreadsheet
//! text into them.
use vstd::prelude::*;
use crate::text::{
    all_digits, digits_value, find_char, first_index, lemma_first_index_found, lower_of, lowercase, small_number,
    trim, trim_of,
};

verus! {

#[derive(Clone, Copy, Debug, PartialEq, Eq, Structural, Hash)]
pub enum Day {
    Monday,
    Tuesday,
    Wednesday,
    Thursday,
    Friday,
    Saturday,
    Sunday,
}

/// When a meetup starts: a coarse part of the day, or an exact time on the
/// 24-hour clock (hour, minute).
#[derive(Clone, Copy, Debug, PartialEq, Eq, Structural)]
pub enum Time {
    Morning,
    Afternoon,
    Evening,
    ClockTime(i8, i8),
}

impl Time {
    pub open spec fn wf(self) -> bool {
        match self {
            Time::ClockTime(h, m) => 0 <= h <= 23 && 0 <= m <= 59,
            _ => true,
        }
    }

    /// Whether a clock time's hour and minute lie on the 24-hour clock.
    pub fn is_valid(&self) -> (r: bool)
        ensures
            r == self.wf(),
    {
        match self {
            Time::ClockTime(h, m) => 0 <= *h && *h <= 23 && 0 <= *m && *m <= 59,
            _ => true,
        }
    }
}

/// A running group's profile.
#[derive(Clone, Debug)]
pub struct Group {
    pub id: String,
    pub name: String,
    pub instagram: Option<String>,
    pub facebook: Option<String>,
    pub twitter: Option<String>,
    pub website: Option<String>,
    pub strava: Option<String>,
    pub description: Option<String>,
}

/// One recurring run of a group.
#[derive(Clone, Debug)]
pub struct Meetup {
    pub group: String,
    pub group_id: String,
    pub day: Day,
    pub time: Time,
    pub description: Option<String>,
    pub location: Option<String>,
}

/// Why a batch of rows could not be read.
#[derive(Debug)]
pub enum ModelError {
    /// The header row lacks the named column.
    MissingColumn(String),
    /// The text of a day cell that names no day of the week.
    InvalidDay(String),
    /// The text of a time cell that is neither a part of the day nor a clock time.
    InvalidTime(String),
    /// The text is not well-formed comma-separated data.
    MalformedCsv,
}

/// The day whose name, in lowercase, is `s`.
pub open spec fn day_named(s: Seq<char>) -> Option<Day> {
    if s == "monday"@ {
        Some(Day::Monday)
    } else if s == "tuesday"@ {
        Some(Day::Tuesday)
    } else if s == "wednesday"@ {
        Some(Day::Wednesday)
    } else if s == "thursday"@ {
        Some(Day::Thursday)
    } else if s == "friday"@ {
        Some(Day::Friday)
    } else if s == "saturday"@ {
        Some(Day::Saturday)
    } else if s == "sunday"@ {
        Some(Day::Sunday)
    } else {
        None
    }
}

/// The name of a day, in lowercase.
pub open spec fn day_name(d: Day) -> Seq<char> {
    match d {
        Day::Monday => "monday"@,
        Day::Tuesday => "tuesday"@,
        Day::Wednesday => "wednesday"@,
        Day::Thursday => "thursday"@,
        Day::Friday => "friday"@,
        Day::Saturday => "saturday"@,
        Day::Sunday => "sunday"@,
    }
}

/// The day that a cell names: its trimmed, lowercased text must equal a
/// day's name exactly.
pub open spec fn day_of(raw: Seq<char>) -> Option<Day> {
    day_named(trim_of(lower_of(raw)))
}

/// A cell names a day exactly when its lowercased, trimmed text is that
/// day's name; so every letter-casing of a day's name reads as that day.
pub proof fn lemma_day_of_name(raw: Seq<char>, d: Day)
    ensures
        (day_of(raw) == Some(d)) == (trim_of(lower_of(raw)) == day_name(d)),
{
    reveal_strlit("monday");
    reveal_strlit("tuesday");
    reveal_strlit("wednesday");
    reveal_strlit("thursday");
    reveal_strlit("friday");
    reveal_strlit("saturday");
    reveal_strlit("sunday");
    assert("monday"@[0] == 'm' && "monday"@.len() == 6);
    assert("tuesday"@[0] == 't' && "tuesday"@.len() == 7);
    assert("wednesday"@[0] == 'w' && "wednesday"@.len() == 9);
    assert("thursday"@[0] == 't' && "thursday"@.len() == 8);
    assert("friday"@[0] == 'f' && "friday"@.len() == 6);
    assert("saturday"@[0] == 's' && "saturday"@.len() == 8);
    assert("sunday"@[0] == 's' && "sunday"@.len() == 6);
}

fn same_text(a: &str, b: &str) -> (r: bool)
    ensures
        r == (a@ == b@),
{
    String::from_str(a) == String::from_str(b)
}

pub fn parse_day(raw_day: String) -> (r: Result<Day, ModelError>)
    ensures
        match day_of(raw_day@) {
            Some(d) => r == Ok::<Day, ModelError>(d),
            None => r == Err::<Day, ModelError>(ModelError::InvalidDay(raw_day)),
        },
{
    let lower = lowercase(raw_day.as_str());
    let t = trim(lower.as_str());
    if same_text(t, "monday") {
        Ok(Day::Monday)
    } else if same_text(t, "tuesday") {
        Ok(Day::Tuesday)
    } else if same_text(t, "wednesday") {
        Ok(Day::Wednesday)
    } else if same_text(t, "thursday") {
        Ok(Day::Thursday)
    } else if same_text(t, "friday") {
        Ok(Day::Friday)
    } else if same_text(t, "saturday") {
        Ok(Day::Saturday)
    } else if same_text(t, "sunday") {
        Ok(Day::Sunday)
    } else {
        Err(ModelError::InvalidDay(raw_day))
    }
}

/// The clock time written at the start of `t` as `H:MM` or `HH:MM`,
/// optionally followed by `am` or `pm` (with or without a space between).
/// A `pm` hour must lie in 1..=12 and gains 12 below noon; any other hour
/// must lie in 0..=23, and the minute in 0..=59.
pub open spec fn clock_of(t: Seq<char>) -> Option<(int, int)> {
    match first_index(t, ':', 0) {
        None => None,
        Some(c) => {
            let hs = t.take(c);
            let rest = t.skip(c + 1);
            let ms = if rest.len() >= 2 { rest.take(2) } else { rest };
            let suffix = trim_of(rest.skip(ms.len() as int));
            if 1 <= hs.len() <= 2 && all_digits(hs) && ms.len() == 2 && all_digits(ms) {
                let h = digits_value(hs);
                let m = digits_value(ms);
                if m > 59 {
                    None
                } else if suffix == "pm"@ {
                    if 1 <= h <= 12 {
                        Some((if h < 12 { h + 12 } else { h }, m))
                    } else {
                        None
                    }
                } else if suffix.len() == 0 || suffix == "am"@ {
                    if h <= 23 {
                        Some((h, m))
                    } else {
                        None
                    }
                } else {
                    None
                }
            } else {
                None
            }
        },
    }
}

/// The time that a cell names: after lowercasing and trimming, one of the
/// words `morning`, `afternoon`, `evening`, or a clock time.
pub open spec fn time_of(raw: Seq<char>) -> Option<Time> {
    let t = trim_of(lower_of(raw));
    if t == "morning"@ {
        Some(Time::Morning)
    } else if t == "afternoon"@ {
        Some(Time::Afternoon)
    } else if t == "evening"@ {
        Some(Time::Evening)
    } else {
        match clock_of(t) {
            Some((h, m)) => Some(Time::ClockTime(h as i8, m as i8)),
            None => None,
        }
    }
}

proof fn lemma_two_digits(s: Seq<char>)
    requires
        1 <= s.len() <= 2,
        all_digits(s),
    ensures
        0 <= digits_value(s) <= 99,
{
    let p = s.drop_last();
    assert(crate::text::is_digit(s[s.len() - 1]));
    assert(digits_value(s) == digits_value(p) * 10 + (s.last() as int - '0' as int));
    assert(0 <= s.last() as int - '0' as int <= 9);
    if s.len() == 2 {
        assert(crate::text::is_digit(s[0]));
        assert(p.drop_last().len() == 0);
        assert(digits_value(p) == digits_value(p.drop_last()) * 10 + (p.last() as int - '0' as int));
        assert(p.last() == s[0]);
        assert(digits_value(p.drop_last()) == 0);
        assert(0 <= p.last() as int - '0' as int <= 9);
    } else {
        assert(p.len() == 0);
        assert(digits_value(p) == 0);
    }
}

fn parse_clock(t: &str) -> (r: Option<(i8, i8)>)
    ensures
        match clock_of(t@) {
            Some((h, m)) => r == Some((h as i8, m as i8)) && 0 <= h <= 23 && 0 <= m <= 59,
            None => r is None,
        },
{
    let c = match find_char(t, ':') {
        Some(c) => c,
        None => {
            return None;
        },
    };
    proof {
        lemma_first_index_found(t@, ':', 0);
    }
    let n = t.unicode_len();
    let hs = t.substring_char(0, c);
    let rest = t.substring_char(c + 1, n);
    let rn = rest.unicode_len();
    let mn: usize = if rn >= 2 { 2 } else { rn };
    let ms = rest.substring_char(0, mn);
    let suffix = trim(rest.substring_char(mn, rn));
    assert(hs@ =~= t@.take(c as int));
    assert(rest@ =~= t@.skip(c as int + 1));
    assert(ms@ =~= (if rest@.len() >= 2 { rest@.take(2) } else { rest@ }));
    assert(rest@.subrange(mn as int, rn as int) =~= rest@.skip(mn as int));
    let h = match small_number(hs) {
        Some(h) => h,
        None => {
            return None;
        },
    };
    let m = match small_number(ms) {
        Some(m) => m,
        None => {
            return None;
        },
    };
    proof {
        lemma_two_digits(hs@);
        lemma_two_digits(ms@);
    }
    if mn != 2 || m > 59 {
        return None;
    }
    if same_text(suffix, "pm") {
        if 1 <= h && h <= 12 {
            let hour: u8 = if h < 12 { h + 12 } else { h };
            Some((hour as i8, m as i8))
        } else {
            None
        }
    } else if suffix.unicode_len() == 0 || same_text(suffix, "am") {
        if h <= 23 {
            Some((h as i8, m as i8))
        } else {
            None
        }
    } else {
        None
    }
}

pub fn parse_time(raw_time: String) -> (r: Result<Time, ModelError>)
    ensures
        match time_of(raw_time@) {
            Some(t) => r == Ok::<Time, ModelError>(t) && t.wf(),
            None => r == Err::<Time, ModelError>(ModelError::InvalidTime(raw_time)),
        },
{
    let lower = lowercase(raw_time.as_str());
    let t = trim(lower.as_str());
    if same_text(t, "morning") {
        Ok(Time::Morning)
    } else if same_text(t, "afternoon") {
        Ok(Time::Afternoon)
    } else if same_text(t, "evening") {
        Ok(Time::Evening)
    } else {
        match parse_clock(t) {
            Some((h, m)) => Ok(Time::ClockTime(h, m)),
            None => Err(ModelError::InvalidTime(raw_time)),
        }
    }
}

} // verus!
