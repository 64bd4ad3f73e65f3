//! Plain-text tables: rows of cells padded to common column widths.

use crate::text::{chars_of, char_views, decimal, decimal_chars, join, join_chars, push_all, push_str, string_of};
use vstd::prelude::*;
use vstd::utf8::encode_utf8;

verus! {

/// A row whose number of cells differs from the table's column count.
#[derive(Clone, Copy, Debug, PartialEq, Eq, Structural)]
pub struct TableError {
    pub expected: usize,
    pub got: usize,
}

/// "Invalid table format: expected <expected> columns, got <got>".
pub open spec fn table_error_text(e: TableError) -> Seq<char> {
    "Invalid table format: expected "@ + decimal(e.expected as nat) + " columns, got "@ + decimal(
        e.got as nat,
    )
}

impl TableError {
    /// The message that reports the error.
    pub fn message(&self) -> (s: String)
        ensures
            s@ == table_error_text(*self),
    {
        let mut v: Vec<char> = Vec::new();
        push_str(&mut v, "Invalid table format: expected ");
        push_all(&mut v, &decimal_chars(self.expected as u64));
        push_str(&mut v, " columns, got ");
        push_all(&mut v, &decimal_chars(self.got as u64));
        string_of(&v)
    }
}

/// The cells of a table as text.
pub open spec fn cells_of(rows: Seq<Vec<String>>) -> Seq<Seq<Seq<char>>> {
    rows.map_values(|r: Vec<String>| r@.map_values(|c: String| c@))
}

/// Every row has `cols` cells.
pub open spec fn all_rows_have(rows: Seq<Vec<String>>, cols: nat) -> bool {
    forall|i: int| 0 <= i < rows.len() ==> #[trigger] rows[i].len() == cols
}

/// Checks that every row has `cols` cells; reports the first row that does not.
pub fn check_table(rows: &[Vec<String>], cols: usize) -> (r: Result<(), TableError>)
    ensures
        r is Ok <==> all_rows_have(rows@, cols as nat),
        r matches Err(e) ==> {
            &&& e.expected == cols
            &&& e.got != cols
            &&& exists|k: int|
                0 <= k < rows@.len() && rows@[k].len() == e.got && all_rows_have(
                    rows@.take(k),
                    cols as nat,
                )
        },
{
    let n = rows.len();
    let mut i: usize = 0;
    while i < n
        invariant
            n == rows@.len(),
            i <= n,
            all_rows_have(rows@.take(i as int), cols as nat),
        decreases n - i,
    {
        if rows[i].len() != cols {
            return Err(TableError { expected: cols, got: rows[i].len() });
        }
        assert(rows@.take(i + 1) =~= rows@.take(i as int).push(rows@[i as int]));
        i = i + 1;
    }
    assert(rows@.take(n as int) =~= rows@);
    Ok(())
}

/// The number of bytes of the UTF-8 encoding of `s`, as `str::len`
/// returns it in a `usize`.
pub open spec fn byte_len(s: Seq<char>) -> nat {
    (encode_utf8(s).len() as usize) as nat
}

/// The widest byte length of column `i` over all rows.
pub open spec fn col_width(cells: Seq<Seq<Seq<char>>>, i: int) -> nat
    decreases cells.len(),
{
    if cells.len() == 0 {
        0
    } else {
        let w = col_width(cells.drop_last(), i);
        let b = if 0 <= i < cells.last().len() {
            byte_len(cells.last()[i])
        } else {
            0
        };
        if w < b {
            b
        } else {
            w
        }
    }
}

/// A column is as wide as its widest cell: no cell of it is wider, and a
/// column of any width has a cell of exactly that width.
pub proof fn lemma_col_width_widest(cells: Seq<Seq<Seq<char>>>, i: int)
    ensures
        forall|r: int|
            0 <= r < cells.len() && 0 <= i < cells[r].len() ==> byte_len(#[trigger] cells[r][i])
                <= col_width(cells, i),
        col_width(cells, i) > 0 ==> exists|r: int|
            0 <= r < cells.len() && 0 <= i < cells[r].len() && byte_len(#[trigger] cells[r][i])
                == col_width(cells, i),
    decreases cells.len(),
{
    if cells.len() > 0 {
        let init = cells.drop_last();
        lemma_col_width_widest(init, i);
        assert forall|r: int|
            0 <= r < cells.len() && 0 <= i < cells[r].len() implies byte_len(
            #[trigger] cells[r][i],
        ) <= col_width(cells, i) by {
            if r < cells.len() - 1 {
                assert(cells[r] == init[r]);
            }
        }
        if col_width(cells, i) > 0 {
            if col_width(cells, i) == col_width(init, i) {
                let r = choose|r: int|
                    0 <= r < init.len() && 0 <= i < init[r].len() && byte_len(#[trigger] init[r][i])
                        == col_width(init, i);
                assert(cells[r] == init[r]);
            } else {
                let r = cells.len() - 1;
                assert(0 <= i < cells[r].len() && byte_len(cells[r][i]) == col_width(cells, i));
            }
        }
    }
}

/// `s` followed by spaces up to `w` characters, as `{:<w$}` formats it.
pub open spec fn pad(s: Seq<char>, w: nat) -> Seq<char> {
    if s.len() < w {
        s + Seq::new((w - s.len()) as nat, |_i: int| ' ')
    } else {
        s
    }
}

/// Padding keeps the text in front and fills with spaces behind it up to
/// `w` characters; a text of `w` characters or more stays as it is.
pub proof fn lemma_pad_left_aligned(s: Seq<char>, w: nat)
    ensures
        pad(s, w).len() == if s.len() < w { w } else { s.len() },
        pad(s, w).take(s.len() as int) == s,
        forall|k: int| s.len() <= k < pad(s, w).len() ==> #[trigger] pad(s, w)[k] == ' ',
{
    assert(pad(s, w).take(s.len() as int) =~= s);
}

/// A row with each cell padded to its column's width, cells separated by a space.
pub open spec fn padded_row(row: Seq<Seq<char>>, cells: Seq<Seq<Seq<char>>>) -> Seq<char> {
    join(Seq::new(row.len(), |i: int| pad(row[i], col_width(cells, i))), " "@)
}

/// All rows padded, one per line.
pub open spec fn table_text(cells: Seq<Seq<Seq<char>>>) -> Seq<char> {
    join(Seq::new(cells.len(), |r: int| padded_row(cells[r], cells)), "\n"@)
}

/// The widest byte length of each of the `cols` columns.
pub fn column_widths(rows: &Vec<Vec<String>>, cols: usize) -> (w: Vec<usize>)
    requires
        all_rows_have(rows@, cols as nat),
    ensures
        w.len() == cols,
        forall|i: int| 0 <= i < cols ==> w@[i] == col_width(cells_of(rows@), i),
{
    let ghost cells = cells_of(rows@);
    let mut w: Vec<usize> = Vec::new();
    let mut c: usize = 0;
    while c < cols
        invariant
            c <= cols,
            w.len() == c,
            forall|i: int| 0 <= i < c ==> w@[i] == 0,
        decreases cols - c,
    {
        w.push(0);
        c = c + 1;
    }
    let n = rows.len();
    let mut r: usize = 0;
    assert(cells.take(0).len() == 0);
    while r < n
        invariant
            n == rows.len(),
            cells == cells_of(rows@),
            all_rows_have(rows@, cols as nat),
            r <= n,
            w.len() == cols,
            forall|i: int| 0 <= i < cols ==> w@[i] == col_width(cells.take(r as int), i),
        decreases n - r,
    {
        let row = &rows[r];
        assert(row.len() == cols);
        let mut c: usize = 0;
        let ghost before = w@;
        let ghost next = cells.take(r + 1);
        assert(next.drop_last() =~= cells.take(r as int));
        assert(next.last() == cells[r as int]);
        while c < cols
            invariant
                n == rows.len(),
                r < n,
                cells == cells_of(rows@),
                row == &rows@[r as int],
                row.len() == cols,
                c <= cols,
                w.len() == cols,
                next == cells.take(r + 1),
                next.drop_last() == cells.take(r as int),
                next.last() == cells[r as int],
                forall|i: int| 0 <= i < c ==> w@[i] == col_width(next, i),
                before.len() == cols,
                forall|i: int| c <= i < cols ==> w@[i] == before[i],
                forall|i: int| 0 <= i < cols ==> before[i] == col_width(cells.take(r as int), i),
            decreases cols - c,
        {
            let b = row[c].as_str().len();
            assert(next.last()[c as int] == row@[c as int]@);
            assert(b == byte_len(row@[c as int]@));
            assert(col_width(next, c as int) == if before[c as int] < b {
                b as nat
            } else {
                before[c as int] as nat
            });
            if w[c] < b {
                w.set(c, b);
            }
            c = c + 1;
        }
        r = r + 1;
    }
    assert(cells.take(n as int) =~= cells);
    w
}

/// `s` padded with spaces to `width` characters.
pub fn pad_chars(s: &str, width: usize) -> (v: Vec<char>)
    ensures
        v@ == pad(s@, width as nat),
{
    let mut v = chars_of(s);
    if v.len() < width {
        let k = width - v.len();
        let ghost base = v@;
        let mut j: usize = 0;
        while j < k
            invariant
                j <= k,
                v@ == base + Seq::new(j as nat, |_i: int| ' '),
            decreases k - j,
        {
            v.push(' ');
            assert(v@ =~= base + Seq::new((j + 1) as nat, |_i: int| ' '));
            j = j + 1;
        }
    }
    v
}

/// Renders the rows with every column padded to its widest cell.
pub fn render_table(rows: &Vec<Vec<String>>, cols: usize) -> (s: String)
    requires
        all_rows_have(rows@, cols as nat),
    ensures
        s@ == table_text(cells_of(rows@)),
{
    let ghost cells = cells_of(rows@);
    let widths = column_widths(rows, cols);
    let n = rows.len();
    let mut lines: Vec<Vec<char>> = Vec::new();
    let mut r: usize = 0;
    while r < n
        invariant
            n == rows.len(),
            cells == cells_of(rows@),
            all_rows_have(rows@, cols as nat),
            widths.len() == cols,
            forall|i: int| 0 <= i < cols ==> widths@[i] == col_width(cells, i),
            r <= n,
            lines.len() == r,
            forall|k: int| 0 <= k < r ==> #[trigger] lines@[k]@ == padded_row(cells[k], cells),
        decreases n - r,
    {
        let row = &rows[r];
        let mut parts: Vec<Vec<char>> = Vec::new();
        let mut c: usize = 0;
        assert(row.len() == cols);
        while c < cols
            invariant
                n == rows.len(),
                r < n,
                cells == cells_of(rows@),
                row == &rows@[r as int],
                row.len() == cols,
                widths.len() == cols,
                forall|i: int| 0 <= i < cols ==> widths@[i] == col_width(cells, i),
                c <= cols,
                parts.len() == c,
                forall|k: int| 0 <= k < c ==> #[trigger] parts@[k]@ == pad(cells[r as int][k], col_width(cells, k)),
            decreases cols - c,
        {
            assert(cells[r as int][c as int] == row@[c as int]@);
            parts.push(pad_chars(row[c].as_str(), widths[c]));
            c = c + 1;
        }
        let mut sep: Vec<char> = Vec::new();
        sep.push(' ');
        let line = join_chars(&parts, &sep);
        proof {
            reveal_strlit(" ");
            assert(sep@ =~= " "@);
            assert(char_views(parts@) =~= Seq::new(cells[r as int].len(), |i: int| pad(cells[r as int][i], col_width(cells, i))));
        }
        lines.push(line);
        r = r + 1;
    }
    let mut nl: Vec<char> = Vec::new();
    nl.push('\n');
    let text = join_chars(&lines, &nl);
    proof {
        reveal_strlit("\n");
        assert(nl@ =~= "\n"@);
        assert(char_views(lines@) =~= Seq::new(cells.len(), |k: int| padded_row(cells[k], cells)));
    }
    string_of(&text)
}

} // verus!
