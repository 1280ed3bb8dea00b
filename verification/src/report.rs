//! Text tables for reports: every column as wide as its widest cell, every
//! cell set to the right.
use vstd::prelude::*;
use vstd::string::{StrSliceExecFns, StringExecFns};

verus! {

/// The number of bytes that the text takes in UTF-8, as `str::len` gives it.
pub open spec fn utf8_len(text: Seq<char>) -> nat {
    (vstd::utf8::encode_utf8(text).len() as usize) as nat
}

/// The width of column `c` over the first `n` rows: the most bytes that a
/// cell of the column takes; rows that do not reach the column do not count.
pub open spec fn column_width(table: Seq<Vec<String>>, c: int, n: int) -> nat
    decreases n,
{
    if n <= 0 {
        0
    } else {
        let above = column_width(table, c, n - 1);
        let row = table[n - 1]@;
        if c < row.len() && utf8_len(row[c]@) > above {
            utf8_len(row[c]@)
        } else {
            above
        }
    }
}

/// `count` spaces.
pub open spec fn spaces(count: int) -> Seq<char> {
    Seq::new(
        if count > 0 {
            count as nat
        } else {
            0
        },
        |i: int| ' ',
    )
}

/// A cell set to the right of a column of the given width: spaces up to the
/// width, counted in characters, then the cell, then the space that parts
/// it from the next column.
pub open spec fn padded(cell: Seq<char>, width: nat) -> Seq<char> {
    spaces(width - cell.len()) + cell + seq![' ']
}

/// The first `n` cells of row `r`, each in its column.
pub open spec fn row_text(table: Seq<Vec<String>>, r: int, n: int) -> Seq<char>
    decreases n,
{
    if n <= 0 {
        Seq::empty()
    } else {
        row_text(table, r, n - 1) + padded(
            table[r]@[n - 1]@,
            column_width(table, n - 1, table.len() as int),
        )
    }
}

/// The first `n` rows of the table, each on its own line.
pub open spec fn table_text(table: Seq<Vec<String>>, n: int) -> Seq<char>
    decreases n,
{
    if n <= 0 {
        Seq::empty()
    } else {
        table_text(table, n - 1) + row_text(table, n - 1, table[n - 1]@.len() as int) + seq![
            '\n',
        ]
    }
}

/// Appends `count` spaces to `text`.
fn push_spaces(text: &mut String, count: usize)
    ensures
        final(text)@ == old(text)@ + spaces(count as int),
{
    let mut i: usize = 0;
    assert(text@ == old(text)@ + spaces(0));
    while i < count
        invariant
            0 <= i <= count,
            text@ == old(text)@ + spaces(i as int),
        decreases count - i,
    {
        proof {
            reveal_strlit(" ");
        }
        text.append(" ");
        i = i + 1;
        assert(text@ == old(text)@ + spaces(i as int)) by {
            assert(" "@ == seq![' ']);
            assert(spaces(i as int) == spaces(i - 1) + seq![' ']);
        }
    }
}

/// The width of every column of the table.
fn column_widths(table: &Vec<Vec<String>>) -> (widths: Vec<usize>)
    requires
        table@.len() > 0,
        forall|r: int| 0 <= r < table@.len() ==> (#[trigger] table@[r])@.len() <= table@[0]@.len(),
    ensures
        widths@.len() == table@[0]@.len(),
        forall|c: int|
            0 <= c < widths@.len() ==> (#[trigger] widths@[c]) == column_width(
                table@,
                c,
                table@.len() as int,
            ),
{
    let columns: usize = table[0].len();
    let mut widths: Vec<usize> = Vec::new();
    let mut c: usize = 0;
    while c < columns
        invariant
            0 <= c <= columns,
            widths@.len() == c,
            forall|k: int| 0 <= k < c ==> (#[trigger] widths@[k]) == column_width(table@, k, 0),
        decreases columns - c,
    {
        widths.push(0);
        c = c + 1;
    }
    let mut r: usize = 0;
    while r < table.len()
        invariant
            0 <= r <= table@.len(),
            columns == table@[0]@.len(),
            widths@.len() == columns,
            forall|r: int|
                0 <= r < table@.len() ==> (#[trigger] table@[r])@.len() <= table@[0]@.len(),
            forall|k: int|
                0 <= k < columns ==> (#[trigger] widths@[k]) == column_width(table@, k, r as int),
        decreases table@.len() - r,
    {
        let row: &Vec<String> = &table[r];
        let mut i: usize = 0;
        while i < row.len()
            invariant
                0 <= i <= row@.len() <= columns,
                0 <= r < table@.len(),
                row@ == table@[r as int]@,
                widths@.len() == columns,
                forall|k: int|
                    0 <= k < i ==> (#[trigger] widths@[k]) == column_width(table@, k, r + 1),
                forall|k: int|
                    i <= k < columns ==> (#[trigger] widths@[k]) == column_width(
                        table@,
                        k,
                        r as int,
                    ),
            decreases row@.len() - i,
        {
            let bytes: usize = row[i].as_str().len();
            if bytes > widths[i] {
                widths.set(i, bytes);
            }
            i = i + 1;
        }
        r = r + 1;
    }
    widths
}

/// The table as text: each row on a line of its own, each cell set to the
/// right of its column and followed by a space. A column is as wide as the
/// most bytes that one of its cells takes. No row may have more cells than the first.
pub fn format_table(table: Vec<Vec<String>>) -> (r: String)
    requires
        forall|r: int| 0 <= r < table@.len() ==> (#[trigger] table@[r])@.len() <= table@[0]@.len(),
    ensures
        r@ == table_text(table@, table@.len() as int),
{
    let mut text: String = String::new();
    if table.len() == 0 {
        return text;
    }
    let widths: Vec<usize> = column_widths(&table);
    let mut r: usize = 0;
    while r < table.len()
        invariant
            0 <= r <= table@.len(),
            widths@.len() == table@[0]@.len(),
            forall|r: int|
                0 <= r < table@.len() ==> (#[trigger] table@[r])@.len() <= table@[0]@.len(),
            forall|c: int|
                0 <= c < widths@.len() ==> (#[trigger] widths@[c]) == column_width(
                    table@,
                    c,
                    table@.len() as int,
                ),
            text@ == table_text(table@, r as int),
        decreases table@.len() - r,
    {
        let row: &Vec<String> = &table[r];
        let ghost before: Seq<char> = text@;
        let mut i: usize = 0;
        assert(text@ == before + row_text(table@, r as int, 0));
        while i < row.len()
            invariant
                0 <= i <= row@.len() <= widths@.len(),
                0 <= r < table@.len(),
                row@ == table@[r as int]@,
                forall|c: int|
                    0 <= c < widths@.len() ==> (#[trigger] widths@[c]) == column_width(
                        table@,
                        c,
                        table@.len() as int,
                    ),
                text@ == before + row_text(table@, r as int, i as int),
            decreases row@.len() - i,
        {
            let cell: &str = row[i].as_str();
            let width: usize = widths[i];
            let length: usize = cell.unicode_len();
            let ghost so_far: Seq<char> = text@;
            let gap: usize = if width > length {
                width - length
            } else {
                0
            };
            push_spaces(&mut text, gap);
            text.append(cell);
            proof {
                reveal_strlit(" ");
            }
            text.append(" ");
            proof {
                assert(" "@ == seq![' ']);
                assert(spaces(gap as int) == spaces(width - length));
                assert(text@ == so_far + padded(cell@, width as nat));
            }
            i = i + 1;
        }
        proof {
            reveal_strlit("\n");
        }
        text.append("\n");
        proof {
            assert("\n"@ == seq!['\n']);
            assert(text@ == table_text(table@, r + 1));
        }
        r = r + 1;
    }
    text
}

} // verus!
