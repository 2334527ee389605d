use vstd::prelude::*;

use crate::matching::MatchedRow;
use crate::text::{push_char, push_repeat, repeat};

verus! {

/// Spaces on each side of the widest cell of a column.
pub const PADDING: usize = 1;

/// Horizontal rule.
pub open spec fn horizontal() -> char {
    '\u{2500}'
}

/// Vertical rule.
pub open spec fn vertical() -> char {
    '\u{2502}'
}

/// The header labels, one per column.
pub open spec fn labels() -> Seq<Seq<char>> {
    seq![
        seq!['P', 'i', 'd'],
        seq!['N', 'a', 'm', 'e'],
        seq!['M', 'e', 'm', 'o', 'r', 'y'],
        seq!['V', 'i', 'r', 't', 'u', 'a', 'l', ' ', 'm', 'e', 'm', 'o', 'r', 'y'],
    ]
}

/// The four cells of a row: pid, name, memory, virtual memory.
pub open spec fn row_cells(r: MatchedRow) -> Seq<Seq<char>> {
    seq![r.pid@, r.name@, r.memory@, r.virtual_memory@]
}

/// The cells of column `c`, one per row.
pub open spec fn column(rows: Seq<MatchedRow>, c: int) -> Seq<Seq<char>> {
    rows.map_values(|r: MatchedRow| row_cells(r)[c])
}

/// The width of a column: its longest text, label included, plus padding on
/// both sides (lengths in characters).
pub open spec fn column_width(label: Seq<char>, cells: Seq<Seq<char>>) -> nat
    decreases cells.len(),
{
    if cells.len() == 0 {
        label.len() + 2 * PADDING as nat
    } else {
        let w = column_width(label, cells.drop_last());
        let v = cells.last().len() + 2 * PADDING as nat;
        if v > w {
            v
        } else {
            w
        }
    }
}

/// The four column widths of a table of `rows`.
pub open spec fn widths(rows: Seq<MatchedRow>) -> Seq<nat> {
    Seq::new(4, |c: int| column_width(labels()[c], column(rows, c)))
}

/// `s` centred in `w` characters; an odd space left over goes to the right.
pub open spec fn center(s: Seq<char>, w: nat) -> Seq<char> {
    let free = (w - s.len()) as nat;
    repeat(' ', free / 2) + s + repeat(' ', (free - free / 2) as nat)
}

/// A rule line: `l`, then the columns drawn with horizontal rules and
/// separated by `m`, then `r`.
pub open spec fn rule_line(l: char, m: char, r: char, w: Seq<nat>) -> Seq<char> {
    seq![l] + repeat(horizontal(), w[0]) + seq![m] + repeat(horizontal(), w[1]) + seq![m]
        + repeat(horizontal(), w[2]) + seq![m] + repeat(horizontal(), w[3]) + seq![r]
}

/// A line of four cells, each centred in its column, between vertical rules.
pub open spec fn cells_line(cells: Seq<Seq<char>>, w: Seq<nat>) -> Seq<char> {
    seq![vertical()] + center(cells[0], w[0]) + seq![vertical()] + center(cells[1], w[1]) + seq![
        vertical(),
    ] + center(cells[2], w[2]) + seq![vertical()] + center(cells[3], w[3]) + seq![vertical()]
}

/// The lines of the table: top rule, header, separator, one line per row,
/// bottom rule.
pub open spec fn table_lines(rows: Seq<MatchedRow>) -> Seq<Seq<char>> {
    let w = widths(rows);
    seq![
        rule_line('\u{250C}', '\u{252C}', '\u{2510}', w),
        cells_line(labels(), w),
        rule_line('\u{251C}', '\u{253C}', '\u{2524}', w),
    ] + rows.map_values(|r: MatchedRow| cells_line(row_cells(r), w)) + seq![
        rule_line('\u{2514}', '\u{2534}', '\u{2518}', w),
    ]
}

/// Every cell is short enough that its width can be counted in a `usize`.
pub open spec fn cells_fit(rows: Seq<MatchedRow>) -> bool {
    forall|k: int, c: int| 0 <= k < rows.len() && 0 <= c < 4 ==> #[trigger] row_cells(rows[k])[c].len() + 2 * PADDING <= usize::MAX
}

/// A column is at least as wide as its label and each of its cells, plus padding.
proof fn lemma_column_width_bounds(label: Seq<char>, cells: Seq<Seq<char>>)
    ensures
        column_width(label, cells) >= label.len() + 2 * PADDING,
        forall|k: int| 0 <= k < cells.len() ==> column_width(label, cells) >= #[trigger] cells[k].len() + 2 * PADDING,
    decreases cells.len(),
{
    if cells.len() > 0 {
        lemma_column_width_bounds(label, cells.drop_last());
        assert forall|k: int| 0 <= k < cells.len() implies column_width(label, cells) >= #[trigger] cells[k].len() + 2 * PADDING by {
            if k < cells.len() - 1 {
                assert(cells.drop_last()[k] == cells[k]);
            }
        }
    }
}

/// The text of cell `c` of row `r`.
fn cell_text(r: &MatchedRow, c: usize) -> (t: &String)
    requires
        c < 4,
    ensures
        t@ == row_cells(*r)[c as int],
{
    if c == 0 {
        &r.pid
    } else if c == 1 {
        &r.name
    } else if c == 2 {
        &r.memory
    } else {
        &r.virtual_memory
    }
}

/// Whether every cell of `rows` is short enough for `render`.
pub fn rows_fit(rows: &Vec<MatchedRow>) -> (r: bool)
    ensures
        r == cells_fit(rows@),
{
    let mut k: usize = 0;
    while k < rows.len()
        invariant
            k <= rows@.len(),
            forall|j: int, c: int| 0 <= j < k && 0 <= c < 4 ==> #[trigger] row_cells(rows@[j])[c].len() + 2 * PADDING <= usize::MAX,
        decreases rows@.len() - k,
    {
        let mut c: usize = 0;
        while c < 4
            invariant
                k < rows@.len(),
                c <= 4,
                forall|j: int, d: int| 0 <= j < k && 0 <= d < 4 ==> #[trigger] row_cells(rows@[j])[d].len() + 2 * PADDING <= usize::MAX,
                forall|d: int| 0 <= d < c ==> #[trigger] row_cells(rows@[k as int])[d].len() + 2 * PADDING <= usize::MAX,
            decreases 4 - c,
        {
            let len = cell_text(&rows[k], c).as_str().unicode_len();
            if len > usize::MAX - 2 * PADDING {
                assert(!cells_fit(rows@)) by {
                    assert(row_cells(rows@[k as int])[c as int].len() + 2 * PADDING > usize::MAX);
                }
                return false;
            }
            c = c + 1;
        }
        k = k + 1;
    }
    true
}

/// The width of column `c` of a table of `rows`, whose label is `label`.
fn column_width_exec(rows: &Vec<MatchedRow>, c: usize, label: &str) -> (w: usize)
    requires
        c < 4,
        label@ == labels()[c as int],
        cells_fit(rows@),
    ensures
        w == column_width(labels()[c as int], column(rows@, c as int)),
{
    let ghost l = labels()[c as int];
    let mut w: usize = label.unicode_len() + 2 * PADDING;
    let mut k: usize = 0;
    while k < rows.len()
        invariant
            c < 4,
            cells_fit(rows@),
            k <= rows@.len(),
            w == column_width(l, column(rows@.subrange(0, k as int), c as int)),
        decreases rows@.len() - k,
    {
        let t = cell_text(&rows[k], c);
        assert(row_cells(rows@[k as int])[c as int].len() + 2 * PADDING <= usize::MAX);
        let v = t.as_str().unicode_len() + 2 * PADDING;
        proof {
            let prev = column(rows@.subrange(0, k as int), c as int);
            let next = column(rows@.subrange(0, k + 1), c as int);
            assert(next.drop_last() =~= prev);
            assert(next.last() == t@);
        }
        if v > w {
            w = v;
        }
        k = k + 1;
    }
    assert(rows@.subrange(0, rows@.len() as int) =~= rows@);
    w
}

/// The four column widths of a table of `rows`.
pub fn column_widths(rows: &Vec<MatchedRow>) -> (w: Vec<usize>)
    requires
        cells_fit(rows@),
    ensures
        w@.map_values(|x: usize| x as nat) == widths(rows@),
{
    proof {
        reveal_strlit("Pid");
        reveal_strlit("Name");
        reveal_strlit("Memory");
        reveal_strlit("Virtual memory");
    }
    assert("Pid"@ =~= labels()[0]);
    assert("Name"@ =~= labels()[1]);
    assert("Memory"@ =~= labels()[2]);
    assert("Virtual memory"@ =~= labels()[3]);
    let mut w: Vec<usize> = Vec::new();
    w.push(column_width_exec(rows, 0, "Pid"));
    w.push(column_width_exec(rows, 1, "Name"));
    w.push(column_width_exec(rows, 2, "Memory"));
    w.push(column_width_exec(rows, 3, "Virtual memory"));
    assert(w@.map_values(|x: usize| x as nat) =~= widths(rows@));
    w
}

/// Appends `cell` centred in `w` characters.
fn push_centered(s: &mut String, cell: &str, w: usize)
    requires
        cell@.len() <= w,
    ensures
        final(s)@ == old(s)@ + center(cell@, w as nat),
{
    let len = cell.unicode_len();
    let free = w - len;
    push_repeat(s, ' ', free / 2);
    s.append(cell);
    push_repeat(s, ' ', free - free / 2);
    assert(final(s)@ =~= old(s)@ + center(cell@, w as nat));
}

/// A rule line over the widths `w`.
fn rule_text(l: char, m: char, r: char, w: &Vec<usize>) -> (t: String)
    requires
        w@.len() == 4,
    ensures
        t@ == rule_line(l, m, r, w@.map_values(|x: usize| x as nat)),
{
    let mut t = String::new();
    push_char(&mut t, l);
    push_repeat(&mut t, '\u{2500}', w[0]);
    push_char(&mut t, m);
    push_repeat(&mut t, '\u{2500}', w[1]);
    push_char(&mut t, m);
    push_repeat(&mut t, '\u{2500}', w[2]);
    push_char(&mut t, m);
    push_repeat(&mut t, '\u{2500}', w[3]);
    push_char(&mut t, r);
    assert(t@ =~= rule_line(l, m, r, w@.map_values(|x: usize| x as nat)));
    t
}

/// A line of four cells centred in the widths `w`.
fn cells_text(a: &str, b: &str, c: &str, d: &str, w: &Vec<usize>) -> (t: String)
    requires
        w@.len() == 4,
        a@.len() <= w@[0],
        b@.len() <= w@[1],
        c@.len() <= w@[2],
        d@.len() <= w@[3],
    ensures
        t@ == cells_line(seq![a@, b@, c@, d@], w@.map_values(|x: usize| x as nat)),
{
    let mut t = String::new();
    push_char(&mut t, '\u{2502}');
    push_centered(&mut t, a, w[0]);
    push_char(&mut t, '\u{2502}');
    push_centered(&mut t, b, w[1]);
    push_char(&mut t, '\u{2502}');
    push_centered(&mut t, c, w[2]);
    push_char(&mut t, '\u{2502}');
    push_centered(&mut t, d, w[3]);
    push_char(&mut t, '\u{2502}');
    assert(t@ =~= cells_line(seq![a@, b@, c@, d@], w@.map_values(|x: usize| x as nat)));
    t
}

/// The table of `rows`, one string per line: top rule, header, separator,
/// one line per row in the given order, bottom rule.
pub fn render(rows: &Vec<MatchedRow>) -> (lines: Vec<String>)
    requires
        cells_fit(rows@),
    ensures
        lines@.map_values(|l: String| l@) == table_lines(rows@),
{
    let w = column_widths(rows);
    let ghost ws = widths(rows@);
    proof {
        reveal_strlit("Pid");
        reveal_strlit("Name");
        reveal_strlit("Memory");
        reveal_strlit("Virtual memory");
        assert(ws[0] == column_width(labels()[0], column(rows@, 0)));
        assert(ws[1] == column_width(labels()[1], column(rows@, 1)));
        assert(ws[2] == column_width(labels()[2], column(rows@, 2)));
        assert(ws[3] == column_width(labels()[3], column(rows@, 3)));
        lemma_column_width_bounds(labels()[0], column(rows@, 0));
        lemma_column_width_bounds(labels()[1], column(rows@, 1));
        lemma_column_width_bounds(labels()[2], column(rows@, 2));
        lemma_column_width_bounds(labels()[3], column(rows@, 3));
    }
    assert("Pid"@ =~= labels()[0]);
    assert("Name"@ =~= labels()[1]);
    assert("Memory"@ =~= labels()[2]);
    assert("Virtual memory"@ =~= labels()[3]);
    assert(seq!["Pid"@, "Name"@, "Memory"@, "Virtual memory"@] =~= labels());
    assert(w@.len() == w@.map_values(|x: usize| x as nat).len());
    assert(forall|c: int| 0 <= c < 4 ==> w@[c] == #[trigger] ws[c]);
    let mut lines: Vec<String> = Vec::new();
    lines.push(rule_text('\u{250C}', '\u{252C}', '\u{2510}', &w));
    lines.push(cells_text("Pid", "Name", "Memory", "Virtual memory", &w));
    lines.push(rule_text('\u{251C}', '\u{253C}', '\u{2524}', &w));
    let mut k: usize = 0;
    while k < rows.len()
        invariant
            w@.map_values(|x: usize| x as nat) == ws,
            w@.len() == 4,
            forall|c: int| 0 <= c < 4 ==> w@[c] == #[trigger] ws[c],
            ws == widths(rows@),
            forall|c: int, j: int| 0 <= c < 4 && 0 <= j < rows@.len() ==> ws[c] >= #[trigger] column(rows@, c)[j].len() + 2 * PADDING,
            k <= rows@.len(),
            lines@.len() == 3 + k,
            lines@.map_values(|l: String| l@) == table_lines(rows@).subrange(0, 3 + k),
        decreases rows@.len() - k,
    {
        let r = &rows[k];
        proof {
            assert(column(rows@, 0)[k as int] == r.pid@);
            assert(column(rows@, 1)[k as int] == r.name@);
            assert(column(rows@, 2)[k as int] == r.memory@);
            assert(column(rows@, 3)[k as int] == r.virtual_memory@);
        }
        let t = cells_text(r.pid.as_str(), r.name.as_str(), r.memory.as_str(), r.virtual_memory.as_str(), &w);
        lines.push(t);
        proof {
            assert(seq![r.pid@, r.name@, r.memory@, r.virtual_memory@] == row_cells(*r));
            assert(lines@.map_values(|l: String| l@) =~= table_lines(rows@).subrange(0, 3 + k + 1));
        }
        k = k + 1;
    }
    let ghost before = lines@;
    lines.push(rule_text('\u{2514}', '\u{2534}', '\u{2518}', &w));
    proof {
        let tl = table_lines(rows@);
        let n = rows@.len() as int;
        assert(tl.len() == n + 4);
        assert(tl[n + 3] == rule_line('\u{2514}', '\u{2534}', '\u{2518}', ws));
        assert(tl =~= tl.subrange(0, n + 3).push(tl[n + 3]));
        assert(lines@.map_values(|l: String| l@) =~= before.map_values(|l: String| l@).push(lines@[n + 3]@));
    }
    assert(lines@.map_values(|l: String| l@) =~= table_lines(rows@));
    lines
}

/// The width of every line of a table: the four column widths and five
/// vertical rules.
pub open spec fn line_width(rows: Seq<MatchedRow>) -> nat {
    let w = widths(rows);
    w[0] + w[1] + w[2] + w[3] + 5
}

/// A table of `n` rows has `n + 4` lines, all of the same width: the sum of
/// the column widths plus the five vertical rules. With no rows it is the
/// bare frame of four lines.
pub proof fn lemma_table_shape(rows: Seq<MatchedRow>)
    ensures
        table_lines(rows).len() == rows.len() + 4,
        forall|i: int| 0 <= i < table_lines(rows).len() ==> (#[trigger] table_lines(rows)[i]).len() == line_width(rows),
{
    let w = widths(rows);
    let tl = table_lines(rows);
    assert forall|c: int| 0 <= c < 4 implies w[c] >= labels()[c].len() + 2 * PADDING && forall|j: int| 0 <= j < rows.len() ==> w[c] >= #[trigger] column(rows, c)[j].len() + 2 * PADDING by {
        lemma_column_width_bounds(labels()[c], column(rows, c));
    }
    assert forall|cells: Seq<Seq<char>>| cells.len() == 4 && (forall|c: int| 0 <= c < 4 ==> #[trigger] cells[c].len() <= w[c]) implies #[trigger] cells_line(cells, w).len() == line_width(rows) by {
        assert(center(cells[0], w[0]).len() == w[0]);
        assert(center(cells[1], w[1]).len() == w[1]);
        assert(center(cells[2], w[2]).len() == w[2]);
        assert(center(cells[3], w[3]).len() == w[3]);
    }
    assert forall|i: int| 0 <= i < tl.len() implies (#[trigger] tl[i]).len() == line_width(rows) by {
        if i == 1 {
            assert(cells_line(labels(), w).len() == line_width(rows));
        } else if 3 <= i < rows.len() + 3 {
            let r = rows[i - 3];
            let cells = row_cells(r);
            assert forall|c: int| 0 <= c < 4 implies #[trigger] cells[c].len() <= w[c] by {
                assert(column(rows, c)[i - 3] == cells[c]);
            }
            assert(cells_line(cells, w).len() == line_width(rows));
        }
    }
}

} // verus!
