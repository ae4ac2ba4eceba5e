//! Markdown tables.
//!
//! A table is a grid of cells. Each row is a line that starts with `|` and
//! holds, for each cell, a blank, the cell's text and ` |`. In the text a
//! `|` is written `\|` and a line break becomes a blank; line breaks at the
//! end of a cell are left out. After the first row comes the separator row.

use vstd::prelude::*;

verus! {

/// What stands for the character `c` inside a cell.
pub open spec fn escaped_char(c: char) -> Seq<char> {
    if c == '|' {
        seq!['\\', '|']
    } else if c == '\n' {
        seq![' ']
    } else {
        seq![c]
    }
}

/// The text `s` with `|` written as `\|` and each line break as a blank.
pub open spec fn escaped(s: Seq<char>) -> Seq<char>
    decreases s.len(),
{
    if s.len() == 0 {
        Seq::empty()
    } else {
        escaped(s.drop_last()) + escaped_char(s.last())
    }
}

/// The text `s` without the line breaks at its end.
pub open spec fn trim_newlines(s: Seq<char>) -> Seq<char>
    decreases s.len(),
{
    if s.len() > 0 && s.last() == '\n' {
        trim_newlines(s.drop_last())
    } else {
        s
    }
}

/// `n` blanks.
pub open spec fn blanks(n: nat) -> Seq<char> {
    Seq::new(n, |i: int| ' ')
}

/// A cell of a row: a blank, the escaped text without the line breaks at its
/// end, a blank and a bar.
pub open spec fn cell_markdown(content: Seq<char>) -> Seq<char> {
    seq![' '] + escaped(trim_newlines(content)) + seq![' ', '|']
}

/// The separator cells of a table of `cols` columns.
pub open spec fn separator_cells(cols: nat) -> Seq<char>
    decreases cols,
{
    if cols == 0 {
        Seq::empty()
    } else {
        separator_cells((cols - 1) as nat) + " --- |"@
    }
}

/// The escaped text is the escaped trimmed text followed by one blank for
/// each line break that was trimmed.
pub proof fn lemma_escaped_trimmed(s: Seq<char>)
    ensures
        trim_newlines(s).len() <= s.len(),
        escaped(s) == escaped(trim_newlines(s)) + blanks(
            (s.len() - trim_newlines(s).len()) as nat,
        ),
    decreases s.len(),
{
    if s.len() > 0 && s.last() == '\n' {
        let front = s.drop_last();
        lemma_escaped_trimmed(front);
        let k = (front.len() - trim_newlines(front).len()) as nat;
        assert(blanks(k) + seq![' '] == blanks(k + 1));
        assert(escaped(s) == escaped(trim_newlines(front)) + (blanks(k) + seq![' ']));
    } else {
        assert(escaped(s) + blanks(0) == escaped(s));
    }
}

/// Appends the escaped form of the character `c` to `out`.
fn push_escaped_char(out: &mut String, c: char)
    ensures
        final(out)@ == old(out)@ + escaped_char(c),
{
    if c == '|' {
        out.push('\\');
        out.push('|');
        assert(out@ == old(out)@ + seq!['\\', '|']);
    } else if c == '\n' {
        out.push(' ');
    } else {
        out.push(c);
    }
}

/// Escapes the text of a cell: `|` becomes `\|`, and each line break becomes
/// a blank.
pub fn escape_markdown_cell(s: &str) -> (r: String)
    ensures
        r@ == escaped(s@),
{
    let mut out = String::new();
    for c in it: s.chars()
        invariant
            it.seq() == s@,
            out@ == escaped(s@.take(it.index() as int)),
    {
        let ghost i = it.index() as int;
        assert(s@.take(i + 1).drop_last() == s@.take(i));
        push_escaped_char(&mut out, c);
    }
    assert(s@.take(s@.len() as int) == s@);
    out
}

/// The text `s` without the line breaks at its end.
pub fn trimmed(s: &str) -> (r: String)
    ensures
        r@ == trim_newlines(s@),
{
    // the number of characters bounds the count of pending line breaks
    let n = s.unicode_len();
    let mut out = String::new();
    let mut pending: usize = 0;
    for c in it: s.chars()
        invariant
            it.seq() == s@,
            n == s@.len(),
            out@ == trim_newlines(s@.take(it.index() as int)),
            pending == it.index() - trim_newlines(s@.take(it.index() as int)).len(),
    {
        let ghost i = it.index() as int;
        let ghost prefix = s@.take(i);
        proof {
            assert(s@.take(i + 1).drop_last() == prefix);
            lemma_trimmed_is_prefix(prefix);
        }
        if c == '\n' {
            pending = pending + 1;
        } else {
            let ghost start = out@;
            let mut k: usize = 0;
            while k < pending
                invariant
                    k <= pending,
                    pending == prefix.len() - start.len(),
                    start == prefix.take(start.len() as int),
                    out@ == prefix.take(start.len() + k),
                    forall|j: int| start.len() <= j < prefix.len() ==> prefix[j] == '\n',
                decreases pending - k,
            {
                out.push('\n');
                assert(prefix.take(start.len() + k).push('\n') == prefix.take(
                    start.len() + k + 1,
                ));
                k = k + 1;
            }
            assert(prefix.take(prefix.len() as int) == prefix);
            out.push(c);
            assert(out@ == s@.take(i + 1));
            pending = 0;
        }
    }
    assert(s@.take(s@.len() as int) == s@);
    out
}

/// The trimmed text is the beginning of the text, and only line breaks
/// follow it.
pub proof fn lemma_trimmed_is_prefix(s: Seq<char>)
    ensures
        trim_newlines(s).len() <= s.len(),
        trim_newlines(s) == s.take(trim_newlines(s).len() as int),
        forall|j: int| trim_newlines(s).len() <= j < s.len() ==> s[j] == '\n',
        trim_newlines(s).len() > 0 ==> trim_newlines(s).last() != '\n',
    decreases s.len(),
{
    if s.len() > 0 && s.last() == '\n' {
        let front = s.drop_last();
        lemma_trimmed_is_prefix(front);
        assert(front.take(trim_newlines(front).len() as int) == s.take(
            trim_newlines(front).len() as int,
        ));
        assert forall|j: int| trim_newlines(s).len() <= j < s.len() implies s[j] == '\n' by {
            if j < front.len() {
                assert(s[j] == front[j]);
            }
        }
    } else {
        assert(s.take(s.len() as int) == s);
    }
}

/// Appends to `out` a cell of a row that holds `content` as it is: a blank,
/// the escaped text, a blank and a bar.
pub fn push_escaped_cell(out: &mut String, content: &str)
    ensures
        final(out)@ == old(out)@ + (seq![' '] + escaped(content@) + seq![' ', '|']),
{
    out.push(' ');
    let ghost base = out@;
    assert(base + escaped(Seq::<char>::empty()) == base);
    for c in it: content.chars()
        invariant
            it.seq() == content@,
            out@ == base + escaped(content@.take(it.index() as int)),
    {
        let ghost i = it.index() as int;
        assert(content@.take(i + 1).drop_last() == content@.take(i));
        push_escaped_char(out, c);
        assert(base + escaped(content@.take(i)) + escaped_char(c) == base + escaped(
            content@.take(i + 1),
        ));
    }
    assert(content@.take(content@.len() as int) == content@);
    out.push(' ');
    out.push('|');
    assert(out@ == old(out)@ + (seq![' '] + escaped(content@) + seq![' ', '|']));
}

/// Appends the cell of a row that holds `content` to `out`.
pub fn push_cell(out: &mut String, content: &str)
    ensures
        final(out)@ == old(out)@ + cell_markdown(content@),
{
    // the number of characters bounds the count of pending line breaks
    let n = content.unicode_len();
    out.push(' ');
    let ghost base = out@;
    let mut pending: usize = 0;
    assert(base + escaped(Seq::<char>::empty()) == base);
    for c in it: content.chars()
        invariant
            it.seq() == content@,
            n == content@.len(),
            out@ == base + escaped(trim_newlines(content@.take(it.index() as int))),
            pending == it.index() - trim_newlines(content@.take(it.index() as int)).len(),
    {
        let ghost i = it.index() as int;
        let ghost prefix = content@.take(i);
        proof {
            assert(content@.take(i + 1).drop_last() == prefix);
            lemma_escaped_trimmed(prefix);
        }
        if c == '\n' {
            pending = pending + 1;
        } else {
            let ghost start = out@;
            let mut k: usize = 0;
            while k < pending
                invariant
                    k <= pending,
                    out@ == start + blanks(k as nat),
                decreases pending - k,
            {
                out.push(' ');
                assert(blanks(k as nat).push(' ') == blanks((k + 1) as nat));
                k = k + 1;
            }
            assert(base + escaped(trim_newlines(prefix)) + blanks(pending as nat) == base
                + escaped(prefix));
            push_escaped_char(out, c);
            assert(base + escaped(prefix) + escaped_char(c) == base + escaped(
                content@.take(i + 1),
            ));
            pending = 0;
        }
    }
    assert(content@.take(content@.len() as int) == content@);
    out.push(' ');
    out.push('|');
    assert(out@ == old(out)@ + cell_markdown(content@));
}

/// The cells of a table as mathematical values: column, row and text.
pub open spec fn cell_views(cells: Seq<(u16, u16, String)>) -> Seq<(u16, u16, Seq<char>)> {
    Seq::new(cells.len(), |i: int| (cells[i].0, cells[i].1, cells[i].2@))
}

/// The index of the last of the first `n` cells that stands in row `row` and
/// column `col`, or -1 where none of them does.
pub open spec fn last_cell_at(cells: Seq<(u16, u16, Seq<char>)>, n: int, row: int, col: int) -> int
    decreases n,
{
    if n <= 0 {
        -1
    } else if cells[n - 1].0 == col && cells[n - 1].1 == row {
        n - 1
    } else {
        last_cell_at(cells, n - 1, row, col)
    }
}

/// The text in row `row` and column `col` of the grid: that of the last cell
/// given for the place, and nothing where no cell is given for it.
pub open spec fn cell_content(cells: Seq<(u16, u16, Seq<char>)>, row: int, col: int) -> Seq<
    char,
> {
    let k = last_cell_at(cells, cells.len() as int, row, col);
    if k < 0 {
        Seq::empty()
    } else {
        cells[k].2
    }
}

/// The first `cols` cells of row `row`.
pub open spec fn row_cells(cells: Seq<(u16, u16, Seq<char>)>, row: int, cols: int) -> Seq<char>
    decreases cols,
{
    if cols <= 0 {
        Seq::empty()
    } else {
        row_cells(cells, row, cols - 1) + cell_markdown(cell_content(cells, row, cols - 1))
    }
}

/// The line of row `row`, followed by the separator row where it is the
/// first row.
pub open spec fn row_markdown(cells: Seq<(u16, u16, Seq<char>)>, row: int, cols: int) -> Seq<
    char,
> {
    seq!['|'] + row_cells(cells, row, cols) + seq!['\n'] + if row == 0 {
        seq!['|'] + separator_cells(cols as nat) + seq!['\n']
    } else {
        Seq::empty()
    }
}

/// The first `rows` rows of the table.
pub open spec fn table_rows(cells: Seq<(u16, u16, Seq<char>)>, rows: int, cols: int) -> Seq<char>
    decreases rows,
{
    if rows <= 0 {
        Seq::empty()
    } else {
        table_rows(cells, rows - 1, cols) + row_markdown(cells, rows - 1, cols)
    }
}

/// The Markdown table of `rows` rows and `cols` columns that holds `cells`.
/// A cell outside the grid is left out.
pub open spec fn table_markdown(cells: Seq<(u16, u16, Seq<char>)>, rows: int, cols: int) -> Seq<
    char,
> {
    table_rows(cells, rows, cols)
}

/// Where the place in row `row` and column `col` stands in a grid that is
/// laid out row by row.
pub open spec fn slot_index(row: int, col: int, cols: int) -> int {
    row * cols + col
}

/// Each place of the grid has a slot of its own.
proof fn lemma_slots(row: int, col: int, row2: int, col2: int, rows: int, cols: int)
    requires
        0 <= row < rows,
        0 <= col < cols,
        0 <= row2 < rows,
        0 <= col2 < cols,
    ensures
        0 <= slot_index(row, col, cols) < rows * cols,
        slot_index(row, col, cols) == slot_index(row2, col2, cols) ==> row == row2 && col
            == col2,
{
    assert(0 <= row * cols + col < rows * cols) by (nonlinear_arith)
        requires
            0 <= row < rows,
            0 <= col < cols,
    ;
    assert(row * cols + col == row2 * cols + col2 ==> row == row2 && col == col2)
        by (nonlinear_arith)
        requires
            0 <= row,
            0 <= col < cols,
            0 <= row2,
            0 <= col2 < cols,
    ;
}

/// The last cell at a place is one of the first `n` cells, if there is one.
proof fn lemma_last_cell_in_range(
    cells: Seq<(u16, u16, Seq<char>)>,
    n: int,
    row: int,
    col: int,
)
    ensures
        -1 <= last_cell_at(cells, n, row, col),
        last_cell_at(cells, n, row, col) < n || n <= 0,
    decreases n,
{
    if n > 0 {
        lemma_last_cell_in_range(cells, n - 1, row, col);
    }
}

/// The slot of the place in row `row` and column `col`.
fn slot_at(row: u16, col: u16, rows: u16, cols: u16) -> (at: usize)
    requires
        row < rows,
        col < cols,
    ensures
        at == slot_index(row as int, col as int, cols as int),
        at < rows * cols,
{
    proof {
        lemma_slots(row as int, col as int, row as int, col as int, rows as int, cols as int);
        assert(rows * cols <= 0xFFFF * 0xFFFF) by (nonlinear_arith)
            requires
                rows <= 0xFFFF,
                cols <= 0xFFFF,
        ;
        assert(0 <= row * cols) by (nonlinear_arith)
            requires
                0 <= row,
                0 <= cols,
        ;
    }
    (row as usize) * (cols as usize) + col as usize
}

/// For each place of the grid, one more than the index of the last cell
/// given for it, or zero.
fn fill_slots(cells: &[(u16, u16, String)], rows: u16, cols: u16) -> (slots: Vec<usize>)
    ensures
        slots@.len() == rows * cols,
        forall|row: int, col: int|
            0 <= row < rows && 0 <= col < cols ==> #[trigger] slots@[slot_index(
                row,
                col,
                cols as int,
            )] == last_cell_at(cell_views(cells@), cells@.len() as int, row, col) + 1,
{
    let ghost views = cell_views(cells@);
    assert(rows * cols <= 0xFFFF * 0xFFFF) by (nonlinear_arith)
        requires
            rows <= 0xFFFF,
            cols <= 0xFFFF,
    ;
    let total: usize = (rows as usize) * (cols as usize);
    let mut slots: Vec<usize> = vec![0usize; total];
    let mut k: usize = 0;
    assert forall|row: int, col: int|
        0 <= row < rows && 0 <= col < cols implies #[trigger] slots@[slot_index(
        row,
        col,
        cols as int,
    )] == last_cell_at(views, 0, row, col) + 1 by {
        lemma_slots(row, col, row, col, rows as int, cols as int);
    }
    while k < cells.len()
        invariant
            k <= cells@.len(),
            views == cell_views(cells@),
            slots@.len() == rows * cols,
            forall|row: int, col: int|
                0 <= row < rows && 0 <= col < cols ==> #[trigger] slots@[slot_index(
                    row,
                    col,
                    cols as int,
                )] == last_cell_at(views, k as int, row, col) + 1,
        decreases cells@.len() - k,
    {
        let col = cells[k].0;
        let row = cells[k].1;
        assert(views[k as int].0 == col && views[k as int].1 == row);
        if row < rows && col < cols {
            let at = slot_at(row, col, rows, cols);
            let ghost before = slots@;
            slots.set(at, k + 1);
            assert forall|r: int, c: int|
                0 <= r < rows && 0 <= c < cols implies #[trigger] slots@[slot_index(
                r,
                c,
                cols as int,
            )] == last_cell_at(views, k + 1, r, c) + 1 by {
                lemma_slots(r, c, row as int, col as int, rows as int, cols as int);
                assert(before[slot_index(r, c, cols as int)] == last_cell_at(views, k as int, r, c)
                    + 1);
            }
        }
        k = k + 1;
    }
    slots
}

/// Lays cells out as a Markdown table of `rows` rows and `cols` columns.
///
/// Each cell is given with its column, its row and its text. Where several
/// cells are given for one place the last one stands; a place without a cell
/// is empty; a cell outside the grid is left out.
pub fn format_markdown_table(cells: &[(u16, u16, String)], rows: u16, cols: u16) -> (r: String)
    ensures
        r@ == table_markdown(cell_views(cells@), rows as int, cols as int),
{
    let ghost views = cell_views(cells@);
    let slots = fill_slots(cells, rows, cols);
    let mut out = String::new();
    let mut row: u16 = 0;
    while row < rows
        invariant
            row <= rows,
            views == cell_views(cells@),
            slots@.len() == rows * cols,
            forall|r: int, c: int|
                0 <= r < rows && 0 <= c < cols ==> #[trigger] slots@[slot_index(
                    r,
                    c,
                    cols as int,
                )] == last_cell_at(views, cells@.len() as int, r, c) + 1,
            out@ == table_rows(views, row as int, cols as int),
        decreases rows - row,
    {
        let ghost done = out@;
        out.push('|');
        let mut col: u16 = 0;
        while col < cols
            invariant
                col <= cols,
                row < rows,
                views == cell_views(cells@),
                slots@.len() == rows * cols,
                forall|r: int, c: int|
                    0 <= r < rows && 0 <= c < cols ==> #[trigger] slots@[slot_index(
                        r,
                        c,
                        cols as int,
                    )] == last_cell_at(views, cells@.len() as int, r, c) + 1,
                out@ == done + seq!['|'] + row_cells(views, row as int, col as int),
            decreases cols - col,
        {
            let at = slot_at(row, col, rows, cols);
            let slot = slots[at];
            proof {
                lemma_last_cell_in_range(views, cells@.len() as int, row as int, col as int);
            }
            if slot == 0 {
                proof {
                    reveal_strlit("");
                    assert(""@ == Seq::<char>::empty());
                }
                push_cell(&mut out, "");
            } else {
                assert(views[slot - 1].2 == cells@[slot - 1].2@);
                push_cell(&mut out, cells[slot - 1].2.as_str());
            }
            assert(out@ == done + seq!['|'] + (row_cells(views, row as int, col as int)
                + cell_markdown(cell_content(views, row as int, col as int))));
            col = col + 1;
        }
        out.push('\n');
        if row == 0 {
            out.push('|');
            let ghost start = out@;
            let mut k: u16 = 0;
            assert(start + separator_cells(0) == start);
            while k < cols
                invariant
                    k <= cols,
                    out@ == start + separator_cells(k as nat),
                decreases cols - k,
            {
                out.push_str(" --- |");
                assert(start + (separator_cells(k as nat) + " --- |"@) == start
                    + separator_cells((k + 1) as nat));
                k = k + 1;
            }
            out.push('\n');
            assert(out@ == done + (seq!['|'] + row_cells(views, 0, cols as int) + seq!['\n'] + (
            seq!['|'] + separator_cells(cols as nat) + seq!['\n'])));
        } else {
            assert(out@ == done + (seq!['|'] + row_cells(views, row as int, cols as int)
                + seq!['\n'] + Seq::<char>::empty()));
        }
        row = row + 1;
    }
    out
}

/// Each cell of a row is written as a blank, the escaped text of the cell
/// without the line breaks at its end, a blank and a bar.
pub proof fn lemma_cell_of_a_row(cells: Seq<(u16, u16, Seq<char>)>, row: int, col: int)
    requires
        0 <= col,
    ensures
        row_cells(cells, row, col + 1) == row_cells(cells, row, col) + (seq![' '] + escaped(
            trim_newlines(cell_content(cells, row, col)),
        ) + seq![' ', '|']),
{
}

/// A table of one cell is a bar, the cell and a line break, followed by the
/// separator row: the cell is a blank, the escaped text of `content` without
/// the line breaks at its end, a blank and a bar.
pub proof fn lemma_table_of_one_cell(content: Seq<char>)
    ensures
        table_markdown(seq![(0u16, 0u16, content)], 1, 1) == seq!['|'] + (seq![' '] + escaped(
            trim_newlines(content),
        ) + seq![' ', '|']) + seq!['\n'] + (seq!['|'] + " --- |"@ + seq!['\n']),
{
    let cells = seq![(0u16, 0u16, content)];
    assert(last_cell_at(cells, 1, 0, 0) == 0);
    assert(cell_content(cells, 0, 0) == content);
    lemma_cell_of_a_row(cells, 0, 0);
    assert(row_cells(cells, 0, 0) == Seq::<char>::empty());
    assert(row_cells(cells, 0, 1) == cell_markdown(content));
    assert(separator_cells(0) == Seq::<char>::empty());
    assert(separator_cells(1) == " --- |"@);
    assert(table_rows(cells, 0, 1) == Seq::<char>::empty());
    assert(table_rows(cells, 1, 1) == row_markdown(cells, 0, 1));
}

/// Escaping works character by character: the escaped form of two texts,
/// one after the other, is the escaped forms of the two, one after the
/// other.
pub proof fn lemma_escaped_of_concat(first: Seq<char>, second: Seq<char>)
    ensures
        escaped(first + second) == escaped(first) + escaped(second),
    decreases second.len(),
{
    if second.len() == 0 {
        assert(first + second == first);
        assert(escaped(first) + escaped(second) == escaped(first));
    } else {
        lemma_escaped_of_concat(first, second.drop_last());
        assert((first + second).drop_last() == first + second.drop_last());
        assert((first + second).last() == second.last());
        assert(escaped(first) + (escaped(second.drop_last()) + escaped_char(second.last()))
            == (escaped(first) + escaped(second.drop_last())) + escaped_char(second.last()));
    }
}

} // verus!
