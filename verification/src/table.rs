//! Plain-text tables and panels for console output.

use vstd::prelude::*;

use crate::text::{lemma_views_push, byte_len, byte_length, join, join_strings, owned, pad_left, pad_left_text, pad_right, pad_right_text, push_char, push_str, repeat_seq, repeat_text, views};

verus! {

/// Column alignment.
#[derive(Clone, Copy, PartialEq, Eq, Structural)]
pub enum Align {
    /// Left-aligned.
    Left,
    /// Right-aligned.
    Right,
}

/// A table column.
pub struct Column {
    /// Header text.
    pub title: String,
    /// Alignment of the column's cells.
    pub align: Align,
}

/// A text table.
pub struct Table {
    /// Title line above the table.
    pub title: String,
    /// Columns.
    pub columns: Vec<Column>,
    /// Rows of cells; a row has at most one cell per column.
    pub rows: Vec<Vec<String>>,
}

/// A table as plain values: title, columns (header and alignment) and rows.
#[verifier::ext_equal]
pub struct TableView {
    /// Title line.
    pub title: Seq<char>,
    /// Column headers and alignments.
    pub columns: Seq<(Seq<char>, Align)>,
    /// Rows of cells.
    pub rows: Seq<Seq<Seq<char>>>,
}

impl View for Table {
    type V = TableView;

    open spec fn view(&self) -> TableView {
        TableView {
            title: self.title@,
            columns: Seq::new(self.columns@.len(), |j: int| (self.columns@[j].title@, self.columns@[j].align)),
            rows: Seq::new(self.rows@.len(), |r: int| views(self.rows@[r]@)),
        }
    }
}

/// The larger of two naturals.
pub open spec fn max_nat(a: nat, b: nat) -> nat {
    if a >= b {
        a
    } else {
        b
    }
}

/// Widest cell, in bytes, that `rows` hold in column `j`.
pub open spec fn cells_width(rows: Seq<Seq<Seq<char>>>, j: int) -> nat
    decreases rows.len(),
{
    if rows.len() == 0 {
        0
    } else {
        max_nat(
            cells_width(rows.drop_last(), j),
            if j < rows.last().len() {
                byte_len(rows.last()[j])
            } else {
                0
            },
        )
    }
}

/// Width of column `j`: its widest text, header included, in bytes.
pub open spec fn column_width(t: TableView, j: int) -> nat {
    max_nat(byte_len(t.columns[j].0), cells_width(t.rows, j))
}

/// A cell padded to its column's width.
pub open spec fn aligned(cell: Seq<char>, width: nat, a: Align) -> Seq<char> {
    match a {
        Align::Left => pad_right(cell, width),
        Align::Right => pad_left(cell, width),
    }
}

/// A row line of `t` with the given cells.
pub open spec fn row_text(t: TableView, cells: Seq<Seq<char>>) -> Seq<char> {
    "│ "@ + join(
        Seq::new(cells.len(), |i: int| aligned(cells[i], column_width(t, i), t.columns[i].1)),
        " │ "@,
    ) + " │"@
}

/// Border run over a column: the column's width plus one space each side
/// (capped at the largest memory size).
pub open spec fn rule_width(w: nat) -> nat {
    if w + 2 <= usize::MAX {
        w + 2
    } else {
        usize::MAX as nat
    }
}

/// A border line of `t`.
pub open spec fn border_text(t: TableView, left: char, middle: char, right: char) -> Seq<char> {
    seq![left] + join(
        Seq::new(t.columns.len(), |i: int| repeat_seq("─"@, rule_width(column_width(t, i)))),
        seq![middle],
    ) + seq![right]
}

/// The header texts of `t`.
pub open spec fn header_cells(t: TableView) -> Seq<Seq<char>> {
    Seq::new(t.columns.len(), |i: int| t.columns[i].0)
}

/// The lines of a rendered table: title, top border, header, rule, rows, bottom border.
pub open spec fn table_lines(t: TableView) -> Seq<Seq<char>> {
    seq![t.title, border_text(t, '┌', '┬', '┐'), row_text(t, header_cells(t)), border_text(t, '├', '┼', '┤')]
        + Seq::new(t.rows.len(), |r: int| row_text(t, t.rows[r]))
        + seq![border_text(t, '└', '┴', '┘')]
}

/// A rendered table.
pub open spec fn table_text(t: TableView) -> Seq<char> {
    join(table_lines(t), "\n"@)
}

/// Whether `t` can be rendered: no row has more cells than there are columns.
pub open spec fn renderable(t: TableView) -> bool {
    forall|r: int| 0 <= r < t.rows.len() ==> (#[trigger] t.rows[r]).len() <= t.columns.len()
}

/// Rendered tables separated by a blank line.
pub open spec fn tables_text(ts: Seq<TableView>) -> Seq<char> {
    join(Seq::new(ts.len(), |i: int| table_text(ts[i])), "\n\n"@)
}

/// Widest key of the fields, in bytes.
pub open spec fn key_width(fields: Seq<(Seq<char>, Seq<char>)>) -> nat
    decreases fields.len(),
{
    if fields.len() == 0 {
        0
    } else {
        max_nat(key_width(fields.drop_last()), byte_len(fields.last().0))
    }
}

/// A field line of a panel.
pub open spec fn field_line(key: Seq<char>, value: Seq<char>, width: nat) -> Seq<char> {
    "  "@ + pad_right(key, width) + "  "@ + value
}

/// The lines of a panel: the title, its fields, then (after a blank line when
/// there are fields) its tables.
pub open spec fn panel_lines(title: Seq<char>, fields: Seq<(Seq<char>, Seq<char>)>, tables: Seq<TableView>) -> Seq<Seq<char>> {
    seq![title] + Seq::new(fields.len(), |i: int| field_line(fields[i].0, fields[i].1, key_width(fields)))
        + if tables.len() == 0 {
        Seq::empty()
    } else if fields.len() > 0 {
        seq![Seq::empty(), tables_text(tables)]
    } else {
        seq![tables_text(tables)]
    }
}

/// A rendered panel.
pub open spec fn panel_text(title: Seq<char>, fields: Seq<(Seq<char>, Seq<char>)>, tables: Seq<TableView>) -> Seq<char> {
    join(panel_lines(title, fields, tables), "\n"@)
}

/// Field pairs as plain values.
pub open spec fn fields_view(fields: Seq<(String, String)>) -> Seq<(Seq<char>, Seq<char>)> {
    Seq::new(fields.len(), |i: int| (fields[i].0@, fields[i].1@))
}

/// Tables as plain values.
pub open spec fn tables_view(tables: Seq<Table>) -> Seq<TableView> {
    Seq::new(tables.len(), |i: int| tables[i]@)
}

/// A column definition.
pub fn column(title: &str, align: Align) -> (c: Column)
    ensures
        c.title@ == title@,
        c.align == align,
{
    Column { title: owned(title), align }
}

fn max_usize(a: usize, b: usize) -> (m: usize)
    ensures
        m == max_nat(a as nat, b as nat),
{
    if a >= b {
        a
    } else {
        b
    }
}

fn table_widths(t: &Table) -> (w: Vec<usize>)
    ensures
        w@.len() == t.columns@.len(),
        forall|j: int| 0 <= j < w@.len() ==> #[trigger] w@[j] == column_width(t@, j),
{
    let mut w: Vec<usize> = Vec::new();
    let mut j: usize = 0;
    while j < t.columns.len()
        invariant
            j <= t.columns@.len(),
            w@.len() == j,
            forall|a: int| 0 <= a < j ==> #[trigger] w@[a] == column_width(t@, a),
        decreases t.columns.len() - j,
    {
        let mut width = byte_length(t.columns[j].title.as_str());
        let mut r: usize = 0;
        while r < t.rows.len()
            invariant
                j < t.columns@.len(),
                r <= t.rows@.len(),
                width == max_nat(byte_len(t.columns@[j as int].title@), cells_width(t@.rows.take(r as int), j as int)),
            decreases t.rows.len() - r,
        {
            assert(t@.rows.take(r + 1).drop_last() =~= t@.rows.take(r as int));
            let row = &t.rows[r];
            if j < row.len() {
                width = max_usize(width, byte_length(row[j].as_str()));
            }
            r = r + 1;
        }
        assert(t@.rows.take(t@.rows.len() as int) =~= t@.rows);
        w.push(width);
        j = j + 1;
    }
    w
}

fn render_row(t: &Table, cells: &Vec<String>, widths: &Vec<usize>) -> (s: String)
    requires
        cells@.len() <= t.columns@.len(),
        widths@.len() == t.columns@.len(),
        forall|j: int| 0 <= j < widths@.len() ==> #[trigger] widths@[j] == column_width(t@, j),
    ensures
        s@ == row_text(t@, views(cells@)),
{
    let ghost want = Seq::new(cells@.len(), |i: int| aligned(cells@[i]@, column_width(t@, i), t@.columns[i].1));
    let mut padded: Vec<String> = Vec::new();
    let mut i: usize = 0;
    while i < cells.len()
        invariant
            i <= cells@.len(),
            cells@.len() <= t.columns@.len(),
            widths@.len() == t.columns@.len(),
            forall|j: int| 0 <= j < widths@.len() ==> #[trigger] widths@[j] == column_width(t@, j),
            want == Seq::new(cells@.len(), |i: int| aligned(cells@[i]@, column_width(t@, i), t@.columns[i].1)),
            views(padded@) == want.take(i as int),
        decreases cells.len() - i,
    {
        let p = match t.columns[i].align {
            Align::Left => pad_right_text(cells[i].as_str(), widths[i]),
            Align::Right => pad_left_text(cells[i].as_str(), widths[i]),
        };
        let ghost before = padded@;
        padded.push(p);
        proof {
            lemma_views_push(before, p);
            assert(want.take(i + 1) =~= want.take(i as int).push(want[i as int]));
        }
        i = i + 1;
    }
    assert(want.take(cells@.len() as int) =~= want);
    assert(Seq::new(views(cells@).len(), |i: int| aligned(views(cells@)[i], column_width(t@, i), t@.columns[i].1)) =~= want);
    let mut s = owned("│ ");
    push_str(&mut s, join_strings(&padded, " │ ").as_str());
    push_str(&mut s, " │");
    s
}

fn render_border(t: &Table, left: char, middle: char, right: char, widths: &Vec<usize>) -> (s: String)
    requires
        renderable(t@),
        widths@.len() == t.columns@.len(),
        forall|j: int| 0 <= j < widths@.len() ==> #[trigger] widths@[j] == column_width(t@, j),
    ensures
        s@ == border_text(t@, left, middle, right),
{
    let ghost want = Seq::new(t.columns@.len(), |i: int| repeat_seq("─"@, rule_width(column_width(t@, i))));
    let mut parts: Vec<String> = Vec::new();
    let mut i: usize = 0;
    while i < widths.len()
        invariant
            i <= widths@.len(),
            renderable(t@),
            widths@.len() == t.columns@.len(),
            forall|j: int| 0 <= j < widths@.len() ==> #[trigger] widths@[j] == column_width(t@, j),
            want == Seq::new(t.columns@.len(), |i: int| repeat_seq("─"@, rule_width(column_width(t@, i)))),
            views(parts@) == want.take(i as int),
        decreases widths.len() - i,
    {
        let run = if widths[i] <= usize::MAX - 2 {
            widths[i] + 2
        } else {
            usize::MAX
        };
        let piece = repeat_text("─", run);
        let ghost before = parts@;
        parts.push(piece);
        proof {
            lemma_views_push(before, piece);
            assert(want.take(i + 1) =~= want.take(i as int).push(want[i as int]));
        }
        i = i + 1;
    }
    assert(want.take(widths@.len() as int) =~= want);
    let mut sep = String::new();
    push_char(&mut sep, middle);
    let mut s = String::new();
    push_char(&mut s, left);
    push_str(&mut s, join_strings(&parts, sep.as_str()).as_str());
    push_char(&mut s, right);
    assert(s@ =~= border_text(t@, left, middle, right));
    s
}

fn render_table(t: Table) -> (s: String)
    requires
        renderable(t@),
    ensures
        s@ == table_text(t@),
{
    let widths = table_widths(&t);
    let mut lines: Vec<String> = Vec::new();
    lines.push(t.title.clone());
    lines.push(render_border(&t, '┌', '┬', '┐', &widths));
    let mut titles: Vec<String> = Vec::new();
    let mut j: usize = 0;
    while j < t.columns.len()
        invariant
            j <= t.columns@.len(),
            views(titles@) == header_cells(t@).take(j as int),
        decreases t.columns.len() - j,
    {
        let title = t.columns[j].title.clone();
        let ghost before = titles@;
        titles.push(title);
        proof {
            lemma_views_push(before, title);
            assert(header_cells(t@).take(j + 1) =~= header_cells(t@).take(j as int).push(header_cells(t@)[j as int]));
        }
        j = j + 1;
    }
    assert(header_cells(t@).take(t.columns@.len() as int) =~= header_cells(t@));
    lines.push(render_row(&t, &titles, &widths));
    lines.push(render_border(&t, '├', '┼', '┤', &widths));
    let ghost head = views(lines@);
    let mut r: usize = 0;
    while r < t.rows.len()
        invariant
            r <= t.rows@.len(),
            renderable(t@),
            widths@.len() == t.columns@.len(),
            forall|j: int| 0 <= j < widths@.len() ==> #[trigger] widths@[j] == column_width(t@, j),
            views(lines@) == head + Seq::new(r as nat, |x: int| row_text(t@, views(t.rows@[x]@))),
        decreases t.rows.len() - r,
    {
        assert(t@.rows[r as int].len() <= t@.columns.len());
        let line = render_row(&t, &t.rows[r], &widths);
        let ghost before = lines@;
        lines.push(line);
        proof {
            lemma_views_push(before, line);
        }
        assert(views(lines@) =~= head + Seq::new((r + 1) as nat, |x: int| row_text(t@, views(t.rows@[x]@))));
        r = r + 1;
    }
    let bottom = render_border(&t, '└', '┴', '┘', &widths);
    let ghost before = lines@;
    lines.push(bottom);
    proof {
        lemma_views_push(before, bottom);
    }
    assert(views(lines@) =~= table_lines(t@));
    join_strings(&lines, "\n")
}

/// Renders tables one after another, separated by a blank line.
pub fn render_tables(tables: Vec<Table>) -> (s: String)
    requires
        forall|i: int| 0 <= i < tables@.len() ==> renderable(#[trigger] tables@[i]@),
    ensures
        s@ == tables_text(tables_view(tables@)),
{
    let ghost ts = tables@;
    let ghost want = Seq::new(ts.len(), |i: int| table_text(ts[i]@));
    let mut rendered: Vec<String> = Vec::new();
    let mut rest = tables;
    let mut i: usize = 0;
    assert(rest@ =~= ts.skip(0));
    assert(ts.len() == rest.len());
    while rest.len() > 0
        invariant
            i + rest@.len() == ts.len(),
            ts.len() <= usize::MAX,
            rest@ == ts.skip(i as int),
            forall|k: int| 0 <= k < ts.len() ==> renderable(#[trigger] ts[k]@),
            want == Seq::new(ts.len(), |i: int| table_text(ts[i]@)),
            views(rendered@) == want.take(i as int),
        decreases rest.len(),
    {
        let t = rest.remove(0);
        assert(t == ts[i as int]);
        let text = render_table(t);
        let ghost before = rendered@;
        rendered.push(text);
        proof {
            lemma_views_push(before, text);
            assert(want.take(i + 1) =~= want.take(i as int).push(want[i as int]));
        }
        assert(rest@ =~= ts.skip(i + 1));
        i = i + 1;
    }
    assert(want.take(ts.len() as int) =~= want);
    assert(Seq::new(tables_view(ts).len(), |i: int| table_text(tables_view(ts)[i])) =~= want);
    join_strings(&rendered, "\n\n")
}

/// Renders a panel: the title line, one aligned line per field, then the
/// tables (after a blank line when there are fields).
pub fn render_panel(title: &str, fields: Vec<(String, String)>, tables: Vec<Table>) -> (s: String)
    requires
        forall|i: int| 0 <= i < tables@.len() ==> renderable(#[trigger] tables@[i]@),
    ensures
        s@ == panel_text(title@, fields_view(fields@), tables_view(tables@)),
{
    let ghost fs = fields@;
    let ghost ts = tables@;
    let mut lines: Vec<String> = Vec::new();
    lines.push(owned(title));
    let has_fields = fields.len() > 0;
    let mut width: usize = 0;
    let mut i: usize = 0;
    while i < fields.len()
        invariant
            i <= fields@.len(),
            width == key_width(fields_view(fields@).take(i as int)),
        decreases fields.len() - i,
    {
        assert(fields_view(fields@).take(i + 1).drop_last() =~= fields_view(fields@).take(i as int));
        width = max_usize(width, byte_length(fields[i].0.as_str()));
        i = i + 1;
    }
    assert(fields_view(fields@).take(fields@.len() as int) =~= fields_view(fields@));
    let mut k: usize = 0;
    while k < fields.len()
        invariant
            k <= fields@.len(),
            width == key_width(fields_view(fields@)),
            views(lines@) == seq![title@] + Seq::new(k as nat, |x: int| field_line(fields@[x].0@, fields@[x].1@, key_width(fields_view(fields@)))),
        decreases fields.len() - k,
    {
        let mut line = owned("  ");
        push_str(&mut line, pad_right_text(fields[k].0.as_str(), width).as_str());
        push_str(&mut line, "  ");
        push_str(&mut line, fields[k].1.as_str());
        let ghost before = lines@;
        lines.push(line);
        proof {
            lemma_views_push(before, line);
        }
        assert(views(lines@) =~= seq![title@] + Seq::new((k + 1) as nat, |x: int| field_line(fields@[x].0@, fields@[x].1@, key_width(fields_view(fields@)))));
        k = k + 1;
    }
    let ghost fields_done = views(lines@);
    if tables.len() > 0 {
        if has_fields {
            let blank = String::new();
            let ghost before = lines@;
            lines.push(blank);
            proof {
                lemma_views_push(before, blank);
            }
        }
        let rendered = render_tables(tables);
        let ghost before = lines@;
        lines.push(rendered);
        proof {
            lemma_views_push(before, rendered);
        }
    }
    assert(views(lines@) =~= panel_lines(title@, fields_view(fs), tables_view(ts)));
    join_strings(&lines, "\n")
}

} // verus!
