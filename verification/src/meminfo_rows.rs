//! Writing the rows of a memory table as text, and reading the text back.

use crate::meminfo::{meminfo_entries, meminfo_entry, meminfo_of, without_unit};
use crate::scan::{absent, lemma_find_is};
use crate::table::fill;
use crate::text::{
    all_decimal, decimal_value, is_decimal, is_space, lines, split_once, trim, trim_end,
    trim_start, unsigned_digits, unsigned_of, without_cr,
};
use vstd::prelude::*;

verus! {

/// One row of the table as it is written: a name, the number of spaces
/// between the colon and the amount, and the digits of the amount.
pub struct Row {
    pub name: Seq<char>,
    pub padding: nat,
    pub digits: Seq<char>,
}

/// A run of spaces.
pub open spec fn spaces(n: nat) -> Seq<char> {
    Seq::new(n, |i: int| ' ')
}

/// The line that writes a row: `name:`, the spaces, the digits and ` kB`.
pub open spec fn row_line(row: Row) -> Seq<char> {
    row.name + seq![':'] + spaces(row.padding) + row.digits + seq![' ', 'k', 'B']
}

/// The lines that write the rows.
pub open spec fn row_lines(rows: Seq<Row>) -> Seq<Seq<char>> {
    Seq::new(rows.len(), |i: int| row_line(rows[i]))
}

/// The text that writes the rows: one line for each, a line feed after each
/// line; after the last line only where `closed` says so.
pub open spec fn rows_text(rows: Seq<Row>, closed: bool) -> Seq<char>
    decreases rows.len(),
{
    if rows.len() == 0 {
        Seq::empty()
    } else if rows.len() == 1 && !closed {
        row_line(rows[0])
    } else {
        row_line(rows[0]) + seq!['\n'] + rows_text(rows.drop_first(), closed)
    }
}

/// True of a row that can be written on a line of its own: its name is not
/// empty, holds no colon and no line feed and has no white space at either
/// end; its digits are decimal digits, one at least, of an amount that the
/// machine word holds.
pub open spec fn well_written(row: Row) -> bool {
    &&& row.name.len() > 0
    &&& !is_space(row.name[0])
    &&& !is_space(row.name.last())
    &&& absent(row.name, ':', 0, row.name.len() as int)
    &&& absent(row.name, '\n', 0, row.name.len() as int)
    &&& row.digits.len() > 0
    &&& all_decimal(row.digits)
    &&& decimal_value(row.digits) <= usize::MAX
}

/// True when every row is well written and no two rows have the same name.
pub open spec fn well_written_rows(rows: Seq<Row>) -> bool {
    &&& forall|i: int| 0 <= i < rows.len() ==> well_written(#[trigger] rows[i])
    &&& forall|i: int, j: int|
        #![trigger rows[i], rows[j]]
        0 <= i < j < rows.len() ==> rows[i].name != rows[j].name
}

/// The amount that a row writes.
pub open spec fn row_amount(row: Row) -> usize {
    decimal_value(row.digits) as usize
}

/// Spaces before a text that begins with no white space are trimmed away,
/// and nothing else.
pub proof fn lemma_trim_start_spaces(n: nat, rest: Seq<char>)
    requires
        rest.len() > 0,
        !is_space(rest[0]),
    ensures
        trim_start(spaces(n) + rest) == rest,
    decreases n,
{
    let s = spaces(n) + rest;
    if n == 0 {
        assert(s =~= rest);
    } else {
        assert(s[0] == ' ');
        assert(is_space(' '));
        assert(s.drop_first() =~= spaces((n - 1) as nat) + rest);
        lemma_trim_start_spaces((n - 1) as nat, rest);
    }
}

/// The line of a well-written row binds the row's name to the row's amount.
pub proof fn lemma_row_is_read(row: Row)
    requires
        well_written(row),
    ensures
        meminfo_entry(row_line(row)) == Some((row.name, row_amount(row))),
        absent(row_line(row), '\n', 0, row_line(row).len() as int),
        row_line(row).len() > 0,
        row_line(row).last() == 'B',
{
    let line = row_line(row);
    let n = row.name.len() as int;
    let content = spaces(row.padding) + row.digits + seq![' ', 'k', 'B'];
    let amount = spaces(row.padding) + row.digits + seq![' '];
    let tail = row.digits + seq![' '];
    assert(is_decimal(row.digits[0]));
    assert(is_decimal(row.digits.last()));
    assert forall|j: int| 0 <= j < line.len() implies line[j] != '\n' by {
        if j < n {
            assert(line[j] == row.name[j]);
        } else if j == n {
        } else if j < n + 1 + row.padding {
            assert(line[j] == ' ');
        } else if j < n + 1 + row.padding + row.digits.len() {
            assert(line[j] == row.digits[j - n - 1 - row.padding]);
            assert(is_decimal(row.digits[j - n - 1 - row.padding]));
        }
    }
    assert forall|j: int| 0 <= j < n implies line[j] != ':' by {
        assert(line[j] == row.name[j]);
    }
    assert(line[n] == ':');
    lemma_find_is(line, ':', 0, n);
    assert(line.subrange(0, n) =~= row.name);
    assert(line.subrange(n + 1, line.len() as int) =~= content);
    assert(split_once(line, ':') == Some((row.name, content)));
    assert(content.subrange(0, content.len() - 2) =~= amount);
    assert(content[content.len() - 2] == 'k' && content[content.len() - 1] == 'B');
    assert(amount.last() == ' ');
    assert(without_unit(amount) == amount);
    assert(without_unit(content) == amount);
    assert(amount =~= spaces(row.padding) + tail);
    assert(tail[0] == row.digits[0]);
    lemma_trim_start_spaces(row.padding, tail);
    assert(tail.last() == ' ');
    assert(is_space(' '));
    assert(tail.drop_last() =~= row.digits);
    assert(trim_end(row.digits) == row.digits);
    assert(trim_end(tail) == row.digits);
    assert(trim(amount) == row.digits);
    assert(unsigned_digits(row.digits) == row.digits);
    assert(unsigned_of(row.digits, usize::MAX as nat) == Some(decimal_value(row.digits)));
    assert(trim_start(row.name) == row.name);
    assert(trim_end(row.name) == row.name);
}

/// The lines of the text that writes well-written rows are the lines of
/// the rows.
pub proof fn lemma_rows_lines(rows: Seq<Row>, closed: bool)
    requires
        well_written_rows(rows),
    ensures
        lines(rows_text(rows, closed)) == row_lines(rows),
    decreases rows.len(),
{
    let text = rows_text(rows, closed);
    if rows.len() == 0 {
        assert(row_lines(rows) =~= Seq::<Seq<char>>::empty());
    } else {
        let line = row_line(rows[0]);
        lemma_row_is_read(rows[0]);
        if rows.len() == 1 && !closed {
            lemma_find_is(text, '\n', 0, text.len() as int);
            assert(row_lines(rows) =~= seq![line]);
        } else {
            let rest = rows.drop_first();
            assert forall|i: int| 0 <= i < rest.len() implies well_written(#[trigger] rest[i]) by {
                assert(rest[i] == rows[i + 1]);
            }
            assert forall|i: int, j: int|
                #![trigger rest[i], rest[j]]
                0 <= i < j < rest.len() implies rest[i].name != rest[j].name by {
                assert(rest[i] == rows[i + 1] && rest[j] == rows[j + 1]);
            }
            lemma_rows_lines(rest, closed);
            let at = line.len() as int;
            assert forall|j: int| 0 <= j < at implies text[j] != '\n' by {
                assert(text[j] == line[j]);
            }
            assert(text[at] == '\n');
            lemma_find_is(text, '\n', 0, at);
            assert(text.subrange(0, at) =~= line);
            assert(text.subrange(at + 1, text.len() as int) =~= rows_text(rest, closed));
            assert(without_cr(line) == line);
            assert(row_lines(rows) =~= seq![line] + row_lines(rest));
        }
    }
}

/// Reading the lines of well-written rows into a table that binds none of
/// their names binds each name to its amount, adds one name for each row and
/// leaves what the table bound as it was.
pub proof fn lemma_rows_fill(table: Map<Seq<char>, usize>, rows: Seq<Row>)
    requires
        well_written_rows(rows),
        table.dom().finite(),
        forall|i: int| 0 <= i < rows.len() ==> !table.dom().contains((#[trigger] rows[i]).name),
    ensures
        ({
            let filled = fill(table, row_lines(rows), meminfo_entries());
            &&& filled.dom().finite()
            &&& filled.dom().len() == table.dom().len() + rows.len()
            &&& forall|i: int|
                0 <= i < rows.len() ==> filled.dom().contains((#[trigger] rows[i]).name)
                    && filled[rows[i].name] == row_amount(rows[i])
            &&& forall|name: Seq<char>|
                table.dom().contains(name) ==> #[trigger] filled.dom().contains(name)
                    && filled[name] == table[name]
            &&& forall|name: Seq<char>| #[trigger]
                filled.dom().contains(name) ==> table.dom().contains(name) || exists|i: int|
                    0 <= i < rows.len() && (#[trigger] rows[i]).name == name
        }),
    decreases rows.len(),
{
    let all = row_lines(rows);
    if rows.len() > 0 {
        let rest = rows.drop_first();
        let first = rows[0];
        let next = table.insert(first.name, row_amount(first));
        lemma_row_is_read(first);
        assert(all[0] == row_line(first));
        assert(meminfo_entries()(all[0]) == meminfo_entry(all[0]));
        assert(all.drop_first() =~= row_lines(rest));
        assert forall|i: int| 0 <= i < rest.len() implies well_written(#[trigger] rest[i]) by {
            assert(rest[i] == rows[i + 1]);
        }
        assert forall|i: int, j: int|
            #![trigger rest[i], rest[j]]
            0 <= i < j < rest.len() implies rest[i].name != rest[j].name by {
            assert(rest[i] == rows[i + 1] && rest[j] == rows[j + 1]);
        }
        assert forall|i: int| 0 <= i < rest.len() implies !next.dom().contains(
            (#[trigger] rest[i]).name,
        ) by {
            assert(rest[i] == rows[i + 1]);
            assert(rows[0].name != rows[i + 1].name);
        }
        lemma_rows_fill(next, rest);
        let filled = fill(table, all, meminfo_entries());
        assert(filled == fill(next, row_lines(rest), meminfo_entries()));
        assert forall|i: int| 0 <= i < rows.len() implies filled.dom().contains(
            (#[trigger] rows[i]).name,
        ) && filled[rows[i].name] == row_amount(rows[i]) by {
            if i > 0 {
                assert(rest[i - 1] == rows[i]);
            } else {
                assert(next.dom().contains(first.name));
            }
        }
        assert forall|name: Seq<char>| #[trigger]
            filled.dom().contains(name) implies table.dom().contains(name) || exists|i: int|
            0 <= i < rows.len() && (#[trigger] rows[i]).name == name by {
            if !next.dom().contains(name) {
                let i = choose|i: int| 0 <= i < rest.len() && (#[trigger] rest[i]).name == name;
                assert(rows[i + 1] == rest[i]);
            } else if name == first.name {
                assert(rows[0].name == name);
            }
        }
    } else {
        assert(all =~= Seq::<Seq<char>>::empty());
    }
}

/// Every well-written row is found again.
///
/// Write rows with distinct names as lines of `name:`, spaces, the digits of
/// the amount and ` kB`, with or without a line feed after the last. The
/// table read from that text binds each name to the amount of its row, in
/// kilobytes as written, and binds nothing else: it has as many names as
/// there are rows.
pub proof fn lemma_rows_read_back(rows: Seq<Row>, closed: bool)
    requires
        well_written_rows(rows),
    ensures
        ({
            let table = meminfo_of(rows_text(rows, closed));
            &&& table.dom().finite()
            &&& table.len() == rows.len()
            &&& forall|i: int|
                0 <= i < rows.len() ==> table.dom().contains((#[trigger] rows[i]).name)
                    && table[rows[i].name] == row_amount(rows[i])
            &&& forall|name: Seq<char>| #[trigger]
                table.dom().contains(name) ==> exists|i: int|
                    0 <= i < rows.len() && (#[trigger] rows[i]).name == name
        }),
{
    lemma_rows_lines(rows, closed);
    lemma_rows_fill(Map::empty(), rows);
}

} // verus!
