//! Decoding of tabular rows into domain records: a header row names the
//! columns, each later row holds one record. Also the comma-separated text
//! that a grid of spreadsheet cells is written as, and read back from.
use vstd::prelude::*;
use crate::model::{Day, Group, Meetup, ModelError, Time, day_of, parse_day, parse_time, time_of};
use crate::text::{create_group_id, first_index, none_if_empty, slug_of, trim_of};

verus! {

/// What a `ModelError` says, in terms of character sequences.
pub enum ErrorView {
    MissingColumn(Seq<char>),
    InvalidDay(Seq<char>),
    InvalidTime(Seq<char>),
    MalformedCsv,
}

impl View for ModelError {
    type V = ErrorView;

    open spec fn view(&self) -> ErrorView {
        match self {
            ModelError::MissingColumn(s) => ErrorView::MissingColumn(s@),
            ModelError::InvalidDay(s) => ErrorView::InvalidDay(s@),
            ModelError::InvalidTime(s) => ErrorView::InvalidTime(s@),
            ModelError::MalformedCsv => ErrorView::MalformedCsv,
        }
    }
}

pub open spec fn opt_view(o: Option<String>) -> Option<Seq<char>> {
    match o {
        Some(s) => Some(s@),
        None => None,
    }
}

/// An optional text field: absent when its trimmed text is empty.
pub open spec fn optional(s: Seq<char>) -> Option<Seq<char>> {
    if trim_of(s).len() == 0 {
        None
    } else {
        Some(s)
    }
}

pub struct MeetupView {
    pub group: Seq<char>,
    pub group_id: Seq<char>,
    pub day: Day,
    pub time: Time,
    pub description: Option<Seq<char>>,
    pub location: Option<Seq<char>>,
}

impl View for Meetup {
    type V = MeetupView;

    open spec fn view(&self) -> MeetupView {
        MeetupView {
            group: self.group@,
            group_id: self.group_id@,
            day: self.day,
            time: self.time,
            description: opt_view(self.description),
            location: opt_view(self.location),
        }
    }
}

pub struct GroupView {
    pub id: Seq<char>,
    pub name: Seq<char>,
    pub instagram: Option<Seq<char>>,
    pub facebook: Option<Seq<char>>,
    pub twitter: Option<Seq<char>>,
    pub website: Option<Seq<char>>,
    pub strava: Option<Seq<char>>,
    pub description: Option<Seq<char>>,
}

impl View for Group {
    type V = GroupView;

    open spec fn view(&self) -> GroupView {
        GroupView {
            id: self.id@,
            name: self.name@,
            instagram: opt_view(self.instagram),
            facebook: opt_view(self.facebook),
            twitter: opt_view(self.twitter),
            website: opt_view(self.website),
            strava: opt_view(self.strava),
            description: opt_view(self.description),
        }
    }
}

pub open spec fn row_view(row: Seq<String>) -> Seq<Seq<char>> {
    row.map_values(|s: String| s@)
}

pub open spec fn table_view(t: Seq<Vec<String>>) -> Seq<Seq<Seq<char>>> {
    t.map_values(|row: Vec<String>| row_view(row@))
}

/// The text at position `i` of a row; a row shorter than its header reads
/// as empty in the missing positions.
pub open spec fn cell(row: Seq<Seq<char>>, i: int) -> Seq<char> {
    if 0 <= i < row.len() {
        row[i]
    } else {
        Seq::empty()
    }
}

/// Positions of the named columns in a header, or the first name missing.
pub open spec fn columns_of(header: Seq<Seq<char>>, names: Seq<Seq<char>>) -> Result<
    Seq<int>,
    ErrorView,
>
    decreases names.len(),
{
    if names.len() == 0 {
        Ok(Seq::empty())
    } else {
        match columns_of(header, names.drop_last()) {
            Err(e) => Err(e),
            Ok(cs) => match first_index(header, names.last(), 0) {
                None => Err(ErrorView::MissingColumn(names.last())),
                Some(i) => Ok(cs.push(i)),
            },
        }
    }
}

pub open spec fn meetup_columns() -> Seq<Seq<char>> {
    seq!["Running Group"@, "Day of the Week"@, "Time"@, "Description"@, "Location"@]
}

pub open spec fn group_columns() -> Seq<Seq<char>> {
    seq![
        "Name"@,
        "Instagram"@,
        "Facebook"@,
        "Twitter"@,
        "Website"@,
        "Strava"@,
        "Description"@,
    ]
}

/// The meetup that a row describes, given the positions of the meetup
/// columns; the time is read before the day.
pub open spec fn meetup_record(row: Seq<Seq<char>>, c: Seq<int>) -> Result<MeetupView, ErrorView> {
    let group = cell(row, c[0]);
    let day_text = cell(row, c[1]);
    let time_text = cell(row, c[2]);
    match time_of(time_text) {
        None => Err(ErrorView::InvalidTime(time_text)),
        Some(t) => match day_of(day_text) {
            None => Err(ErrorView::InvalidDay(day_text)),
            Some(d) => Ok(
                MeetupView {
                    group,
                    group_id: slug_of(group),
                    day: d,
                    time: t,
                    description: optional(cell(row, c[3])),
                    location: optional(cell(row, c[4])),
                },
            ),
        },
    }
}

/// The meetups of a run of rows, in order, or the error of the first row
/// that fails.
pub open spec fn meetup_rows(rows: Seq<Seq<Seq<char>>>, c: Seq<int>) -> Result<
    Seq<MeetupView>,
    ErrorView,
>
    decreases rows.len(),
{
    if rows.len() == 0 {
        Ok(Seq::empty())
    } else {
        match meetup_rows(rows.drop_last(), c) {
            Err(e) => Err(e),
            Ok(ms) => match meetup_record(rows.last(), c) {
                Err(e) => Err(e),
                Ok(m) => Ok(ms.push(m)),
            },
        }
    }
}

/// The meetups that a table holds: its first row is the header.
pub open spec fn meetups_of_table(t: Seq<Seq<Seq<char>>>) -> Result<Seq<MeetupView>, ErrorView> {
    if t.len() == 0 {
        Ok(Seq::empty())
    } else {
        match columns_of(t[0], meetup_columns()) {
            Err(e) => Err(e),
            Ok(c) => meetup_rows(t.skip(1), c),
        }
    }
}

pub open spec fn group_record(row: Seq<Seq<char>>, c: Seq<int>) -> GroupView {
    GroupView {
        id: slug_of(cell(row, c[0])),
        name: cell(row, c[0]),
        instagram: optional(cell(row, c[1])),
        facebook: optional(cell(row, c[2])),
        twitter: optional(cell(row, c[3])),
        website: optional(cell(row, c[4])),
        strava: optional(cell(row, c[5])),
        description: optional(cell(row, c[6])),
    }
}

/// The groups that a table holds: its first row is the header.
pub open spec fn groups_of_table(t: Seq<Seq<Seq<char>>>) -> Result<Seq<GroupView>, ErrorView> {
    if t.len() == 0 {
        Ok(Seq::empty())
    } else {
        match columns_of(t[0], group_columns()) {
            Err(e) => Err(e),
            Ok(c) => Ok(t.skip(1).map_values(|row: Seq<Seq<char>>| group_record(row, c))),
        }
    }
}

pub open spec fn meetups_match(r: Result<Vec<Meetup>, ModelError>, s: Result<Seq<MeetupView>, ErrorView>) -> bool {
    match (r, s) {
        (Ok(v), Ok(w)) => v@.map_values(|m: Meetup| m@) == w,
        (Err(e), Err(f)) => e@ == f,
        _ => false,
    }
}

pub open spec fn groups_match(r: Result<Vec<Group>, ModelError>, s: Result<Seq<GroupView>, ErrorView>) -> bool {
    match (r, s) {
        (Ok(v), Ok(w)) => v@.map_values(|g: Group| g@) == w,
        (Err(e), Err(f)) => e@ == f,
        _ => false,
    }
}

fn meetup_column_names() -> (r: Vec<String>)
    ensures
        row_view(r@) == meetup_columns(),
{
    let r = vec![
        String::from_str("Running Group"),
        String::from_str("Day of the Week"),
        String::from_str("Time"),
        String::from_str("Description"),
        String::from_str("Location"),
    ];
    assert(row_view(r@) =~= meetup_columns());
    r
}

fn group_column_names() -> (r: Vec<String>)
    ensures
        row_view(r@) == group_columns(),
{
    let r = vec![
        String::from_str("Name"),
        String::from_str("Instagram"),
        String::from_str("Facebook"),
        String::from_str("Twitter"),
        String::from_str("Website"),
        String::from_str("Strava"),
        String::from_str("Description"),
    ];
    assert(row_view(r@) =~= group_columns());
    r
}

fn find_column(header: &Vec<String>, name: &String) -> (r: Option<usize>)
    ensures
        match r {
            Some(i) => first_index(row_view(header@), name@, 0) == Some(i as int),
            None => first_index(row_view(header@), name@, 0) is None,
        },
{
    let mut i: usize = 0;
    while i < header.len()
        invariant
            i <= header@.len(),
            first_index(row_view(header@), name@, 0) == first_index(
                row_view(header@),
                name@,
                i as int,
            ),
        decreases header@.len() - i,
    {
        if header[i] == *name {
            return Some(i);
        }
        i = i + 1;
    }
    None
}

/// Positions in `header` of each of `names`, or the first name missing.
fn require_columns(header: &Vec<String>, names: &Vec<String>) -> (r: Result<Vec<usize>, ModelError>)
    ensures
        match columns_of(row_view(header@), row_view(names@)) {
            Ok(cs) => r is Ok && r->Ok_0@.map_values(|i: usize| i as int) == cs && cs.len()
                == names@.len() && forall|k: int|
                0 <= k < cs.len() ==> 0 <= #[trigger] cs[k] < header@.len(),
            Err(e) => r is Err && r->Err_0@ == e,
        },
{
    let ghost nv = row_view(names@);
    let mut cols: Vec<usize> = Vec::new();
    let mut i: usize = 0;
    let n = names.len();
    assert(nv.take(0) =~= Seq::<Seq<char>>::empty());
    assert(cols@.map_values(|j: usize| j as int) =~= Seq::<int>::empty());
    while i < n
        invariant
            nv == row_view(names@),
            n == nv.len(),
            i <= n,
            cols@.len() == i,
            columns_of(row_view(header@), nv.take(i as int)) == Ok::<Seq<int>, ErrorView>(
                cols@.map_values(|j: usize| j as int),
            ),
            forall|k: int| 0 <= k < cols@.len() ==> 0 <= #[trigger] cols@[k] < header@.len(),
        decreases n - i,
    {
        let name = &names[i];
        assert(nv.take(i as int + 1).drop_last() =~= nv.take(i as int));
        assert(nv.take(i as int + 1).last() == name@);
        match find_column(header, name) {
            Some(j) => {
                proof {
                    crate::text::lemma_first_index_found(row_view(header@), name@, 0);
                }
                cols.push(j);
                assert(cols@.map_values(|j: usize| j as int) =~= columns_of(
                    row_view(header@),
                    nv.take(i as int),
                )->Ok_0.push(j as int));
            },
            None => {
                proof {
                    lemma_columns_error_sticks(row_view(header@), nv, i as int + 1);
                }
                return Err(ModelError::MissingColumn(name.clone()));
            },
        }
        i = i + 1;
    }
    assert(nv.take(n as int) =~= nv);
    Ok(cols)
}

proof fn lemma_columns_error_sticks(header: Seq<Seq<char>>, names: Seq<Seq<char>>, k: int)
    requires
        0 <= k <= names.len(),
        columns_of(header, names.take(k)) is Err,
    ensures
        columns_of(header, names) == columns_of(header, names.take(k)),
    decreases names.len(),
{
    if k < names.len() {
        assert(names.drop_last().take(k) =~= names.take(k));
        lemma_columns_error_sticks(header, names.drop_last(), k);
    } else {
        assert(names.take(k) =~= names);
    }
}

proof fn lemma_meetup_error_sticks(rows: Seq<Seq<Seq<char>>>, c: Seq<int>, k: int)
    requires
        0 <= k <= rows.len(),
        meetup_rows(rows.take(k), c) is Err,
    ensures
        meetup_rows(rows, c) == meetup_rows(rows.take(k), c),
    decreases rows.len(),
{
    if k < rows.len() {
        assert(rows.drop_last().take(k) =~= rows.take(k));
        lemma_meetup_error_sticks(rows.drop_last(), c, k);
    } else {
        assert(rows.take(k) =~= rows);
    }
}

/// One bad row fails the whole batch: when any data row of a table with a
/// complete header does not describe a meetup, the table yields an error
/// and no meetups.
pub proof fn lemma_fail_fast(t: Seq<Seq<Seq<char>>>, i: int)
    requires
        1 <= i < t.len(),
        columns_of(t[0], meetup_columns()) is Ok,
        meetup_record(t[i], columns_of(t[0], meetup_columns())->Ok_0) is Err,
    ensures
        meetups_of_table(t) is Err,
{
    let c = columns_of(t[0], meetup_columns())->Ok_0;
    let rows = t.skip(1);
    assert(rows.take(i).drop_last() =~= rows.take(i - 1));
    assert(rows.take(i).last() == t[i]);
    lemma_meetup_error_sticks(rows, c, i);
}

/// The text of cell `i` of a row, empty past the row's end.
fn cell_at(row: &Vec<String>, i: usize) -> (r: String)
    ensures
        r@ == cell(row_view(row@), i as int),
{
    if i < row.len() {
        row[i].clone()
    } else {
        String::new()
    }
}

fn meetup_from_row(row: &Vec<String>, c: &Vec<usize>) -> (r: Result<Meetup, ModelError>)
    requires
        c@.len() == 5,
    ensures
        match meetup_record(row_view(row@), c@.map_values(|j: usize| j as int)) {
            Ok(m) => r is Ok && r->Ok_0@ == m,
            Err(e) => r is Err && r->Err_0@ == e,
        },
{
    let time = match parse_time(cell_at(row, c[2])) {
        Ok(t) => t,
        Err(e) => {
            return Err(e);
        },
    };
    let day = match parse_day(cell_at(row, c[1])) {
        Ok(d) => d,
        Err(e) => {
            return Err(e);
        },
    };
    let group = cell_at(row, c[0]);
    let group_id = create_group_id(group.as_str());
    Ok(
        Meetup {
            group,
            group_id,
            day,
            time,
            description: none_if_empty(cell_at(row, c[3])),
            location: none_if_empty(cell_at(row, c[4])),
        },
    )
}

fn group_from_row(row: &Vec<String>, c: &Vec<usize>) -> (r: Group)
    requires
        c@.len() == 7,
    ensures
        r@ == group_record(row_view(row@), c@.map_values(|j: usize| j as int)),
{
    let name = cell_at(row, c[0]);
    let id = create_group_id(name.as_str());
    Group {
        id,
        name,
        instagram: none_if_empty(cell_at(row, c[1])),
        facebook: none_if_empty(cell_at(row, c[2])),
        twitter: none_if_empty(cell_at(row, c[3])),
        website: none_if_empty(cell_at(row, c[4])),
        strava: none_if_empty(cell_at(row, c[5])),
        description: none_if_empty(cell_at(row, c[6])),
    }
}

/// The meetups of a table whose first row is the header. Columns are found
/// by name, in any order; a missing column fails the whole table, and so
/// does the first row whose time or day cannot be read.
pub fn meetups_from_table(table: &Vec<Vec<String>>) -> (r: Result<Vec<Meetup>, ModelError>)
    ensures
        meetups_match(r, meetups_of_table(table_view(table@))),
{
    let ghost t = table_view(table@);
    if table.len() == 0 {
        let v: Vec<Meetup> = Vec::new();
        assert(v@.map_values(|m: Meetup| m@) =~= Seq::<MeetupView>::empty());
        return Ok(v);
    }
    let names = meetup_column_names();
    assert(t[0] == row_view(table@[0]@));
    let c = match require_columns(&table[0], &names) {
        Ok(c) => c,
        Err(e) => {
            return Err(e);
        },
    };
    let ghost cs = c@.map_values(|j: usize| j as int);
    let ghost rows = t.skip(1);
    let mut out: Vec<Meetup> = Vec::new();
    let mut i: usize = 1;
    assert(rows.take(0) =~= Seq::<Seq<Seq<char>>>::empty());
    assert(out@.map_values(|m: Meetup| m@) =~= Seq::<MeetupView>::empty());
    while i < table.len()
        invariant
            t == table_view(table@),
            rows == t.skip(1),
            c@.len() == 5,
            cs == c@.map_values(|j: usize| j as int),
            t.len() > 0,
            columns_of(t[0], meetup_columns()) == Ok::<Seq<int>, ErrorView>(cs),
            1 <= i <= table@.len(),
            meetup_rows(rows.take(i - 1), cs) == Ok::<Seq<MeetupView>, ErrorView>(
                out@.map_values(|m: Meetup| m@),
            ),
        decreases table@.len() - i,
    {
        let m = meetup_from_row(&table[i], &c);
        assert(rows.take(i as int).drop_last() =~= rows.take(i - 1));
        assert(rows.take(i as int).last() == t[i as int]);
        assert(t[i as int] == row_view(table@[i as int]@));
        match m {
            Ok(m) => {
                out.push(m);
                assert(out@.map_values(|m: Meetup| m@) =~= meetup_rows(rows.take(i - 1), cs)->Ok_0.push(m@));
            },
            Err(e) => {
                proof {
                    assert(meetup_rows(rows.take(i as int), cs) == Err::<Seq<MeetupView>, ErrorView>(e@));
                    lemma_meetup_error_sticks(rows, cs, i as int);
                    assert(meetup_rows(rows, cs) == Err::<Seq<MeetupView>, ErrorView>(e@));
                    assert(columns_of(t[0], meetup_columns()) == Ok::<Seq<int>, ErrorView>(cs));
                }
                return Err(e);
            },
        }
        i = i + 1;
    }
    assert(rows.take(i - 1) =~= rows);
    Ok(out)
}

/// The groups of a table whose first row is the header. Columns are found
/// by name, in any order; a missing column fails the whole table.
pub fn groups_from_table(table: &Vec<Vec<String>>) -> (r: Result<Vec<Group>, ModelError>)
    ensures
        groups_match(r, groups_of_table(table_view(table@))),
{
    let ghost t = table_view(table@);
    if table.len() == 0 {
        let v: Vec<Group> = Vec::new();
        assert(v@.map_values(|g: Group| g@) =~= Seq::<GroupView>::empty());
        return Ok(v);
    }
    let names = group_column_names();
    assert(t[0] == row_view(table@[0]@));
    let c = match require_columns(&table[0], &names) {
        Ok(c) => c,
        Err(e) => {
            return Err(e);
        },
    };
    let ghost cs = c@.map_values(|j: usize| j as int);
    let ghost rows = t.skip(1);
    let mut out: Vec<Group> = Vec::new();
    let mut i: usize = 1;
    assert(rows.take(0) =~= Seq::<Seq<Seq<char>>>::empty());
    assert(out@.map_values(|g: Group| g@) =~= Seq::<GroupView>::empty());
    while i < table.len()
        invariant
            t == table_view(table@),
            rows == t.skip(1),
            c@.len() == 7,
            cs == c@.map_values(|j: usize| j as int),
            t.len() > 0,
            columns_of(t[0], group_columns()) == Ok::<Seq<int>, ErrorView>(cs),
            1 <= i <= table@.len(),
            out@.map_values(|g: Group| g@) == rows.take(i - 1).map_values(
                |row: Seq<Seq<char>>| group_record(row, cs),
            ),
        decreases table@.len() - i,
    {
        let g = group_from_row(&table[i], &c);
        assert(t[i as int] == row_view(table@[i as int]@));
        assert(rows[i - 1] == t[i as int]);
        assert(rows.take(i as int)[i - 1] == rows[i - 1]);
        let ghost prev = out@;
        out.push(g);
        assert(out@ == prev.push(g));
        assert(rows.take(i as int).map_values(|row: Seq<Seq<char>>| group_record(row, cs))
            =~= rows.take(i - 1).map_values(|row: Seq<Seq<char>>| group_record(row, cs)).push(g@));
        assert(out@.map_values(|g: Group| g@) =~= rows.take(i as int).map_values(
            |row: Seq<Seq<char>>| group_record(row, cs),
        ));
        i = i + 1;
    }
    assert(rows.take(i - 1) =~= rows);
    Ok(out)
}

} // verus!
