//! Arranging meetups for display: by day of the week, and within a day by
//! time of day; and the text a time is shown as.
use vstd::prelude::*;
use crate::model::{Day, Meetup, Time};

verus! {

/// The minute of the day that a time stands for when meetups are ordered:
/// a part of the day counts as its usual start.
pub open spec fn effective_minutes(t: Time) -> int {
    match t {
        Time::Morning => 360int,
        Time::Afternoon => 720int,
        Time::Evening => 1080int,
        Time::ClockTime(h, m) => h * 60 + m,
    }
}

pub open spec fn meetup_key(m: Meetup) -> int {
    effective_minutes(m.time)
}

pub open spec fn keyed(k: int) -> spec_fn(Meetup) -> bool {
    |m: Meetup| meetup_key(m) == k
}

/// The meetups of `s` whose time counts as minute `k`, in their order in `s`.
pub open spec fn with_key(s: Seq<Meetup>, k: int) -> Seq<Meetup> {
    s.filter(keyed(k))
}

pub open spec fn sorted_by_time(s: Seq<Meetup>) -> bool {
    forall|i: int, j: int| 0 <= i < j < s.len() ==> meetup_key(s[i]) <= meetup_key(s[j])
}

pub fn minutes_of(time: &Time) -> (r: i32)
    ensures
        r as int == effective_minutes(*time),
{
    match time {
        Time::Morning => 6 * 60,
        Time::Afternoon => 12 * 60,
        Time::Evening => 18 * 60,
        Time::ClockTime(hour, minute) => (*hour as i32) * 60 + (*minute as i32),
    }
}

proof fn lemma_filter_none<A>(s: Seq<A>, p: spec_fn(A) -> bool)
    requires
        forall|i: int| 0 <= i < s.len() ==> !p(#[trigger] s[i]),
    ensures
        s.filter(p) == Seq::<A>::empty(),
    decreases s.len(),
{
    reveal(Seq::filter);
    if s.len() > 0 {
        lemma_filter_none(s.drop_last(), p);
    }
}

proof fn lemma_filter_push<A>(s: Seq<A>, x: A, p: spec_fn(A) -> bool)
    ensures
        s.push(x).filter(p) == if p(x) {
            s.filter(p).push(x)
        } else {
            s.filter(p)
        },
{
    reveal(Seq::filter);
    assert(s.push(x).drop_last() =~= s);
}

/// Putting `x` in front of the meetups that come later than it keeps the
/// order among each set of meetups at one time, `x` last among its own.
proof fn lemma_insert_keys(out: Seq<Meetup>, p: int, x: Meetup, k: int)
    requires
        0 <= p <= out.len(),
        forall|j: int| p <= j < out.len() ==> meetup_key(#[trigger] out[j]) > meetup_key(x),
    ensures
        with_key(out.insert(p, x), k) == if meetup_key(x) == k {
            with_key(out, k).push(x)
        } else {
            with_key(out, k)
        },
{
    broadcast use Seq::filter_distributes_over_add;

    let a = out.take(p);
    let b = out.skip(p);
    assert(out.insert(p, x) =~= a.push(x) + b);
    assert(out =~= a + b);
    lemma_filter_push(a, x, keyed(k));
    if meetup_key(x) == k {
        lemma_filter_none(b, keyed(k));
        assert(with_key(out, k) =~= with_key(a, k));
        assert(with_key(out.insert(p, x), k) =~= with_key(a, k).push(x));
    }
}

fn insertion_point(out: &Vec<Meetup>, key: i32) -> (p: usize)
    ensures
        p <= out@.len(),
        forall|j: int| 0 <= j < p ==> meetup_key(#[trigger] out@[j]) <= key,
        p < out@.len() ==> meetup_key(out@[p as int]) > key,
{
    let mut p: usize = 0;
    while p < out.len()
        invariant
            p <= out@.len(),
            forall|j: int| 0 <= j < p ==> meetup_key(#[trigger] out@[j]) <= key,
        decreases out@.len() - p,
    {
        if minutes_of(&out[p].time) > key {
            return p;
        }
        p = p + 1;
    }
    p
}

/// Orders meetups by the minute of the day they count as, earliest first;
/// meetups at the same minute keep their order.
pub fn sort_by_time(meetups: Vec<Meetup>) -> (r: Vec<Meetup>)
    ensures
        sorted_by_time(r@),
        forall|k: int| #[trigger] with_key(r@, k) == with_key(meetups@, k),
{
    let ghost input = meetups@;
    let ghost mut i: int = 0;
    let mut rest = meetups;
    let mut out: Vec<Meetup> = Vec::new();
    assert(rest@ =~= input.skip(0));
    assert forall|k: int| #[trigger] with_key(out@, k) == with_key(input.take(0), k) by {
        assert(out@ =~= input.take(0));
    }
    while rest.len() > 0
        invariant
            0 <= i <= input.len(),
            rest@ == input.skip(i),
            sorted_by_time(out@),
            forall|k: int| #[trigger] with_key(out@, k) == with_key(input.take(i), k),
        decreases rest@.len(),
    {
        let x = rest.remove(0);
        assert(x == input[i]);
        assert(rest@ =~= input.skip(i + 1));
        let key = minutes_of(&x.time);
        let p = insertion_point(&out, key);
        let ghost before = out@;
        assert forall|j: int| p <= j < before.len() implies meetup_key(#[trigger] before[j])
            > meetup_key(x) by {
            if j > p {
                assert(meetup_key(before[p as int]) <= meetup_key(before[j]));
            }
        }
        out.insert(p, x);
        assert forall|k: int| #[trigger] with_key(out@, k) == with_key(input.take(i + 1), k) by {
            lemma_insert_keys(before, p as int, x, k);
            assert(input.take(i + 1) =~= input.take(i).push(x));
            lemma_filter_push(input.take(i), x, keyed(k));
        }
        proof {
            i = i + 1;
        }
    }
    assert(input.take(i) =~= input);
    out
}

/// Meetups sorted into the seven days of the week.
pub struct MeetupsByDay {
    pub monday: Vec<Meetup>,
    pub tuesday: Vec<Meetup>,
    pub wednesday: Vec<Meetup>,
    pub thursday: Vec<Meetup>,
    pub friday: Vec<Meetup>,
    pub saturday: Vec<Meetup>,
    pub sunday: Vec<Meetup>,
}

pub open spec fn on_day(d: Day) -> spec_fn(Meetup) -> bool {
    |m: Meetup| m.day == d
}

impl MeetupsByDay {
    pub open spec fn on(&self, d: Day) -> Seq<Meetup> {
        match d {
            Day::Monday => self.monday@,
            Day::Tuesday => self.tuesday@,
            Day::Wednesday => self.wednesday@,
            Day::Thursday => self.thursday@,
            Day::Friday => self.friday@,
            Day::Saturday => self.saturday@,
            Day::Sunday => self.sunday@,
        }
    }

    /// The meetups on a day, empty where there are none.
    pub fn get(&self, day: Day) -> (r: &Vec<Meetup>)
        ensures
            r@ == self.on(day),
    {
        match day {
            Day::Monday => &self.monday,
            Day::Tuesday => &self.tuesday,
            Day::Wednesday => &self.wednesday,
            Day::Thursday => &self.thursday,
            Day::Friday => &self.friday,
            Day::Saturday => &self.saturday,
            Day::Sunday => &self.sunday,
        }
    }

    /// Whether any meetup falls on a day.
    pub fn has_day(&self, day: Day) -> (r: bool)
        ensures
            r == (self.on(day).len() > 0),
    {
        self.get(day).len() > 0
    }
}

/// Sorts meetups into the days they fall on; each day keeps the meetups'
/// order.
pub fn group_meetups(meetups: Vec<Meetup>) -> (r: MeetupsByDay)
    ensures
        forall|d: Day| #[trigger] r.on(d) == meetups@.filter(on_day(d)),
{
    let ghost input = meetups@;
    let ghost mut i: int = 0;
    let mut rest = meetups;
    let mut r = MeetupsByDay {
        monday: Vec::new(),
        tuesday: Vec::new(),
        wednesday: Vec::new(),
        thursday: Vec::new(),
        friday: Vec::new(),
        saturday: Vec::new(),
        sunday: Vec::new(),
    };
    assert forall|d: Day| #[trigger] r.on(d) == input.take(0).filter(on_day(d)) by {
        reveal(Seq::filter);
        assert(input.take(0) =~= Seq::<Meetup>::empty());
        assert(r.on(d) =~= Seq::<Meetup>::empty());
    }
    while rest.len() > 0
        invariant
            0 <= i <= input.len(),
            rest@ == input.skip(i),
            forall|d: Day| #[trigger] r.on(d) == input.take(i).filter(on_day(d)),
        decreases rest@.len(),
    {
        let m = rest.remove(0);
        assert(m == input[i]);
        assert(rest@ =~= input.skip(i + 1));
        assert(input.take(i + 1) =~= input.take(i).push(m));
        let ghost before = r;
        let day = m.day;
        match day {
            Day::Monday => r.monday.push(m),
            Day::Tuesday => r.tuesday.push(m),
            Day::Wednesday => r.wednesday.push(m),
            Day::Thursday => r.thursday.push(m),
            Day::Friday => r.friday.push(m),
            Day::Saturday => r.saturday.push(m),
            Day::Sunday => r.sunday.push(m),
        }
        assert forall|d: Day| #[trigger] r.on(d) == input.take(i + 1).filter(on_day(d)) by {
            lemma_filter_push(input.take(i), m, on_day(d));
            if d == day {
                assert(r.on(d) == before.on(d).push(m));
            } else {
                assert(r.on(d) == before.on(d));
            }
        }
        proof {
            i = i + 1;
        }
    }
    assert(input.take(i) =~= input);
    r
}

/// A day on which no meetup falls has no meetups in the grouping.
pub proof fn lemma_absent_day_is_empty(meetups: Seq<Meetup>, d: Day)
    requires
        forall|i: int| 0 <= i < meetups.len() ==> (#[trigger] meetups[i]).day != d,
    ensures
        meetups.filter(on_day(d)).len() == 0,
{
    lemma_filter_none(meetups, on_day(d));
}

/// Every meetup lands on the day it names: the days together hold as many
/// meetups as were given.
pub proof fn lemma_grouping_keeps_all(meetups: Seq<Meetup>)
    ensures
        meetups.filter(on_day(Day::Monday)).len() + meetups.filter(on_day(Day::Tuesday)).len()
            + meetups.filter(on_day(Day::Wednesday)).len() + meetups.filter(
            on_day(Day::Thursday),
        ).len() + meetups.filter(on_day(Day::Friday)).len() + meetups.filter(
            on_day(Day::Saturday),
        ).len() + meetups.filter(on_day(Day::Sunday)).len() == meetups.len(),
    decreases meetups.len(),
{
    reveal(Seq::filter);
    if meetups.len() > 0 {
        lemma_grouping_keeps_all(meetups.drop_last());
    }
}

/// The decimal digits of a number.
pub open spec fn decimal(n: nat) -> Seq<char>
    decreases n,
{
    if n < 10 {
        seq!["0123456789"@[n as int]]
    } else {
        decimal(n / 10) + seq!["0123456789"@[(n % 10) as int]]
    }
}

/// How a time is shown: a part of the day by its name; a clock time on the
/// 12-hour clock, with the minute in two digits and an `AM` or `PM` mark,
/// hours after 12 counting as `PM`.
pub open spec fn time_label(t: Time) -> Seq<char> {
    match t {
        Time::Morning => "Morning"@,
        Time::Afternoon => "Afternoon"@,
        Time::Evening => "Evening"@,
        Time::ClockTime(h, m) => {
            let minute = if m < 10 {
                "0"@ + decimal(m as nat)
            } else {
                decimal(m as nat)
            };
            if h > 12 {
                decimal((h - 12) as nat) + ":"@ + minute + " PM"@
            } else {
                decimal(h as nat) + ":"@ + minute + " AM"@
            }
        },
    }
}

fn push_decimal(out: &mut String, n: u8)
    requires
        n < 100,
    ensures
        final(out)@ == old(out)@ + decimal(n as nat),
{
    let digits = "0123456789";
    proof {
        reveal_strlit("0123456789");
    }
    let ghost start = out@;
    if n >= 10 {
        let d = (n / 10) as usize;
        out.append(digits.substring_char(d, d + 1));
        assert(digits@.subrange(d as int, d + 1) =~= seq![digits@[d as int]]);
        assert(decimal((n / 10) as nat) == seq![digits@[d as int]]);
    }
    let e = (n % 10) as usize;
    out.append(digits.substring_char(e, e + 1));
    assert(digits@.subrange(e as int, e + 1) =~= seq![digits@[e as int]]);
    assert(out@ =~= start + decimal(n as nat));
}

/// The text a time is shown as.
pub fn render_time(time: &Time) -> (r: String)
    requires
        time.wf(),
    ensures
        r@ == time_label(*time),
{
    match time {
        Time::Morning => String::from_str("Morning"),
        Time::Afternoon => String::from_str("Afternoon"),
        Time::Evening => String::from_str("Evening"),
        Time::ClockTime(hour, minute) => {
            let is_pm = *hour > 12;
            let h: u8 = if is_pm {
                (*hour - 12) as u8
            } else {
                *hour as u8
            };
            let mut out = String::new();
            push_decimal(&mut out, h);
            out.append(":");
            if *minute < 10 {
                out.append("0");
            }
            push_decimal(&mut out, *minute as u8);
            if is_pm {
                out.append(" PM");
            } else {
                out.append(" AM");
            }
            assert(out@ =~= time_label(*time));
            out
        },
    }
}

} // verus!
