//! Spreadsheet data as comma-separated text: writing a grid of cells out,
//! and reading meetups and groups back from such text.
use vstd::prelude::*;
use crate::model::{Group, Meetup, ModelError};
use crate::table::{
    ErrorView, groups_from_table, groups_match, groups_of_table, meetups_from_table,
    meetups_match, meetups_of_table, table_view,
};

verus! {

/// `csv::Error`, which the reader returns on malformed text; carried only.
#[verifier::external_type_specification]
#[verifier::external_body]
pub struct ExCsvError(csv::Error);

/// The records that the `csv` reader finds in a text, each as its fields,
/// or `None` where the text is not well-formed.
pub uninterp spec fn csv_records_of(text: Seq<char>) -> Option<Seq<Seq<Seq<char>>>>;

/// Relies on `csv::Reader::records`, from a `csv::ReaderBuilder` that
/// returns the first record too and lets records differ in length: every
/// record of the text with its fields, or the first parse error.
#[verifier::external_body]
fn csv_records(text: &str) -> (r: Result<Vec<Vec<String>>, csv::Error>)
    ensures
        match csv_records_of(text@) {
            Some(t) => r is Ok && table_view(r->Ok_0@) == t,
            None => r is Err,
        },
{
    let mut reader = csv::ReaderBuilder::new().has_headers(false).flexible(true).from_reader(
        text.as_bytes(),
    );
    reader.records().map(|rec| rec.map(|fields| fields.iter().map(|f| f.to_string()).collect())).collect()
}

/// Reads the meetups of comma-separated text whose first record is the
/// header.
pub fn read_meetups(csv: String) -> (r: Result<Vec<Meetup>, ModelError>)
    ensures
        match csv_records_of(csv@) {
            Some(t) => meetups_match(r, meetups_of_table(t)),
            None => r is Err && r->Err_0@ == ErrorView::MalformedCsv,
        },
{
    match csv_records(csv.as_str()) {
        Ok(table) => meetups_from_table(&table),
        Err(_) => Err(ModelError::MalformedCsv),
    }
}

/// Reads the groups of comma-separated text whose first record is the
/// header.
pub fn read_groups(csv: String) -> (r: Result<Vec<Group>, ModelError>)
    ensures
        match csv_records_of(csv@) {
            Some(t) => groups_match(r, groups_of_table(t)),
            None => r is Err && r->Err_0@ == ErrorView::MalformedCsv,
        },
{
    match csv_records(csv.as_str()) {
        Ok(table) => groups_from_table(&table),
        Err(_) => Err(ModelError::MalformedCsv),
    }
}

/// One cell of a spreadsheet: text, or anything else, which reads as empty.
#[derive(Debug)]
pub enum Cell {
    Text(String),
    Empty,
}

/// Text with each double quote doubled, as inside a quoted CSV field.
pub open spec fn escaped(s: Seq<char>) -> Seq<char>
    decreases s.len(),
{
    if s.len() == 0 {
        Seq::empty()
    } else {
        escaped(s.drop_last()) + if s.last() == '"' {
            seq!['"', '"']
        } else {
            seq![s.last()]
        }
    }
}

/// A text cell is written quoted; an empty cell as nothing.
pub open spec fn csv_field(c: Cell) -> Seq<char> {
    match c {
        Cell::Text(s) => seq!['"'] + escaped(s@) + seq!['"'],
        Cell::Empty => Seq::empty(),
    }
}

pub open spec fn joined(parts: Seq<Seq<char>>, sep: char) -> Seq<char>
    decreases parts.len(),
{
    if parts.len() == 0 {
        Seq::empty()
    } else if parts.len() == 1 {
        parts[0]
    } else {
        joined(parts.drop_last(), sep) + seq![sep] + parts.last()
    }
}

/// The fields of a row, padded with empty fields up to `width`.
pub open spec fn line_fields(row: Seq<Cell>, width: int) -> Seq<Seq<char>> {
    Seq::new(
        if width > row.len() { width as nat } else { row.len() },
        |k: int| if k < row.len() { csv_field(row[k]) } else { Seq::empty() },
    )
}

/// A grid as CSV text: one line per row, each as wide as the first row.
pub open spec fn grid_csv(grid: Seq<Seq<Cell>>) -> Seq<char> {
    if grid.len() == 0 {
        Seq::empty()
    } else {
        joined(
            Seq::new(grid.len(), |i: int| joined(line_fields(grid[i], grid[0].len() as int), ',')),
            '\n',
        )
    }
}

proof fn lemma_joined_take(parts: Seq<Seq<char>>, sep: char, i: int)
    requires
        0 <= i < parts.len(),
    ensures
        joined(parts.take(i + 1), sep) == if i == 0 {
            parts[0]
        } else {
            joined(parts.take(i), sep) + seq![sep] + parts[i]
        },
{
    assert(parts.take(i + 1).drop_last() =~= parts.take(i));
}

fn push_field(out: &mut String, c: &Cell)
    ensures
        final(out)@ == old(out)@ + csv_field(*c),
{
    match c {
        Cell::Text(s) => {
            let ghost start = out@;
            out.append("\"");
            proof {
                reveal_strlit("\"");
            }
            let t = s.as_str();
            let n = t.unicode_len();
            let mut i: usize = 0;
            assert(t@.take(0) =~= Seq::<char>::empty());
            assert(out@ =~= start + seq!['"'] + escaped(t@.take(0)));
            while i < n
                invariant
                    n == t@.len(),
                    t@ == s@,
                    i <= n,
                    out@ == start + seq!['"'] + escaped(t@.take(i as int)),
                decreases n - i,
            {
                let ch = t.get_char(i);
                let ghost before = out@;
                let ghost piece = if ch == '"' {
                    seq!['"', '"']
                } else {
                    seq![ch]
                };
                if ch == '"' {
                    out.append("\"");
                    out.append("\"");
                    proof {
                        reveal_strlit("\"");
                    }
                    assert(out@ =~= before + seq!['"', '"']);
                } else {
                    out.append(t.substring_char(i, i + 1));
                    assert(t@.subrange(i as int, i as int + 1) =~= seq![ch]);
                    assert(out@ =~= before + seq![ch]);
                }
                assert(t@.take(i as int + 1).drop_last() =~= t@.take(i as int));
                assert(t@.take(i as int + 1).last() == ch);
                assert(escaped(t@.take(i as int + 1)) == escaped(t@.take(i as int)) + piece);
                assert(out@ =~= start + seq!['"'] + escaped(t@.take(i as int + 1)));
                i = i + 1;
            }
            assert(t@.take(n as int) =~= t@);
            out.append("\"");
            assert(out@ =~= start + csv_field(*c));
        },
        Cell::Empty => {
            assert(out@ =~= old(out)@ + csv_field(*c));
        },
    }
}

fn push_line(out: &mut String, row: &Vec<Cell>, width: usize)
    ensures
        final(out)@ == old(out)@ + joined(line_fields(row@, width as int), ','),
{
    let ghost start = out@;
    let ghost fields = line_fields(row@, width as int);
    let total: usize = if width > row.len() { width } else { row.len() };
    let mut k: usize = 0;
    assert(fields.take(0) =~= Seq::<Seq<char>>::empty());
    assert(out@ =~= start + joined(fields.take(0), ','));
    while k < total
        invariant
            fields == line_fields(row@, width as int),
            total == fields.len(),
            k <= total,
            out@ == start + joined(fields.take(k as int), ','),
        decreases total - k,
    {
        proof {
            lemma_joined_take(fields, ',', k as int);
        }
        if k > 0 {
            out.append(",");
            proof {
                reveal_strlit(",");
            }
        }
        if k < row.len() {
            push_field(out, &row[k]);
        }
        assert(out@ =~= start + joined(fields.take(k as int + 1), ','));
        k = k + 1;
    }
    assert(fields.take(total as int) =~= fields);
}

/// Writes a grid of cells as CSV text: rows on their own lines, cells
/// separated by commas, text quoted with inner quotes doubled, empty cells
/// as nothing, and rows shorter than the first padded with empty fields.
pub fn sheet_to_csv(values: &Vec<Vec<Cell>>) -> (r: String)
    ensures
        r@ == grid_csv(values@.map_values(|row: Vec<Cell>| row@)),
{
    let ghost grid = values@.map_values(|row: Vec<Cell>| row@);
    let mut out = String::new();
    if values.len() == 0 {
        return out;
    }
    let width = values[0].len();
    let ghost lines = Seq::new(
        grid.len(),
        |i: int| joined(line_fields(grid[i], grid[0].len() as int), ','),
    );
    let mut i: usize = 0;
    assert(lines.take(0) =~= Seq::<Seq<char>>::empty());
    while i < values.len()
        invariant
            grid == values@.map_values(|row: Vec<Cell>| row@),
            lines == Seq::new(
                grid.len(),
                |i: int| joined(line_fields(grid[i], grid[0].len() as int), ','),
            ),
            values@.len() > 0,
            width == values@[0]@.len(),
            i <= values@.len(),
            out@ == joined(lines.take(i as int), '\n'),
        decreases values@.len() - i,
    {
        proof {
            lemma_joined_take(lines, '\n', i as int);
        }
        if i > 0 {
            out.append("\n");
            proof {
                reveal_strlit("\n");
            }
        }
        push_line(&mut out, &values[i], width);
        assert(out@ =~= joined(lines.take(i as int + 1), '\n'));
        i = i + 1;
    }
    assert(lines.take(i as int) =~= lines);
    out
}

} // verus!
