use crate::text::{chars_of, lines, rows, same_chars, split, split_chars, split_lines};
use vstd::prelude::*;

verus! {

/// A table read from tab-separated text: the names of its columns, and its
/// rows of cells.
pub struct Tsv {
    pub header: Vec<Vec<char>>,
    pub rows: Vec<Vec<Vec<char>>>,
}

/// What a table holds.
pub struct TsvView {
    pub header: Seq<Seq<char>>,
    pub rows: Seq<Seq<Seq<char>>>,
}

impl View for Tsv {
    type V = TsvView;

    open spec fn view(&self) -> TsvView {
        TsvView {
            header: rows(self.header@),
            rows: Seq::new(self.rows@.len(), |r: int| rows(self.rows@[r]@)),
        }
    }
}

/// The table that tab-separated text stands for: its first line names the
/// columns, and each further line is a row. Text without lines stands for a
/// table without columns and rows.
pub open spec fn table(input: Seq<char>) -> TsvView {
    let all = lines(input);
    if all.len() == 0 {
        TsvView { header: Seq::empty(), rows: Seq::empty() }
    } else {
        TsvView {
            header: split(all[0], '\t'),
            rows: Seq::new((all.len() - 1) as nat, |r: int| split(all[r + 1], '\t')),
        }
    }
}

/// The place of the first column named `name` at or behind `from`; the
/// number of columns where there is none.
pub open spec fn column_from(header: Seq<Seq<char>>, name: Seq<char>, from: int) -> int
    decreases header.len() - from,
{
    if from < 0 || from >= header.len() {
        header.len() as int
    } else if header[from] == name {
        from
    } else {
        column_from(header, name, from + 1)
    }
}

/// The cell of `row` in the first column named `name`; nothing where no
/// column has that name or the row is too short.
pub open spec fn cell(header: Seq<Seq<char>>, row: Seq<Seq<char>>, name: Seq<char>) -> Option<
    Seq<char>,
> {
    let column = column_from(header, name, 0);
    if column < header.len() && column < row.len() {
        Some(row[column])
    } else {
        None
    }
}

impl Tsv {
    /// Reads a table from tab-separated text.
    pub fn from_string(input: &str) -> (tsv: Tsv)
        ensures
            tsv@ == table(input@),
    {
        let chars = chars_of(input);
        let all = split_lines(chars.as_slice());
        let ghost found = lines(input@);
        if all.len() == 0 {
            let tsv = Tsv { header: Vec::new(), rows: Vec::new() };
            assert(tsv@.header =~= table(input@).header);
            assert(tsv@.rows =~= table(input@).rows);
            return tsv;
        }
        assert(found[0] == all@[0]@);
        let header = split_chars(all[0].as_slice(), '\t');
        let mut body: Vec<Vec<Vec<char>>> = Vec::new();
        let mut i: usize = 1;
        while i < all.len()
            invariant
                rows(all@) == found,
                1 <= i <= all@.len(),
                body@.len() == i - 1,
                forall|r: int|
                    0 <= r < i - 1 ==> rows((#[trigger] body@[r])@) == split(found[r + 1], '\t'),
            decreases all@.len() - i,
        {
            assert(found[i as int] == all@[i as int]@);
            body.push(split_chars(all[i].as_slice(), '\t'));
            i += 1;
        }
        let tsv = Tsv { header, rows: body };
        assert(tsv@.rows =~= table(input@).rows);
        tsv
    }

    /// The number of rows.
    pub fn num_rows(&self) -> (count: usize)
        ensures
            count == self@.rows.len(),
    {
        self.rows.len()
    }

    /// The cell of row `row` in the first column named `name`.
    pub fn get(&self, row: usize, name: &[char]) -> (found: Option<&Vec<char>>)
        requires
            row < self@.rows.len(),
        ensures
            match found {
                Some(chars) => cell(self@.header, self@.rows[row as int], name@) == Some(chars@),
                None => cell(self@.header, self@.rows[row as int], name@) is None,
            },
    {
        let mut column: usize = 0;
        while column < self.header.len() && !same_chars(self.header[column].as_slice(), name)
            invariant
                column <= self.header@.len(),
                column_from(self@.header, name@, 0) == column_from(
                    self@.header,
                    name@,
                    column as int,
                ),
            decreases self.header@.len() - column,
        {
            assert(self@.header[column as int] == self.header@[column as int]@);
            column += 1;
        }
        if column < self.header.len() {
            assert(self@.header[column as int] == self.header@[column as int]@);
        }
        let cells = &self.rows[row];
        assert(self@.rows[row as int] == rows(cells@));
        if column < self.header.len() && column < cells.len() {
            assert(rows(cells@)[column as int] == cells@[column as int]@);
            Some(&cells[column])
        } else {
            None
        }
    }
}

} // verus!
