//! The table that a script fills row by row and then has printed.
use vstd::prelude::*;

verus! {

/// One cell of a row: its text, and how many bytes the text takes.
#[derive(Default, Clone)]
pub struct Cell {
    pub content: String,
    pub length: usize,
}

/// One row of the table.
#[derive(Default, Clone)]
pub struct Row {
    pub cells: Vec<Cell>,
}

/// The header of a column: its text, and how many bytes the text takes.
#[derive(Default, Clone)]
pub struct Header {
    pub content: String,
    pub length: usize,
}

/// A table: headers, rows, and the number of spaces between columns.
#[derive(Default)]
pub struct Table {
    pub headers: Vec<Header>,
    pub rows: Vec<Row>,
    pub cell_margin: usize,
}

/// The number of bytes that a text takes.
pub open spec fn byte_length(text: Seq<char>) -> usize {
    vstd::utf8::encode_utf8(text).len() as usize
}

/// A cell or a header as contracts speak of it.
pub ghost struct CellModel {
    pub content: Seq<char>,
    pub length: usize,
}

impl View for Cell {
    type V = CellModel;

    open spec fn view(&self) -> CellModel {
        CellModel { content: self.content@, length: self.length }
    }
}

impl View for Header {
    type V = CellModel;

    open spec fn view(&self) -> CellModel {
        CellModel { content: self.content@, length: self.length }
    }
}

/// The models of a list of cells.
pub open spec fn cell_models(cells: Seq<Cell>) -> Seq<CellModel> {
    Seq::new(cells.len(), |i: int| cells[i]@)
}

/// The models of a list of headers.
pub open spec fn header_models(headers: Seq<Header>) -> Seq<CellModel> {
    Seq::new(headers.len(), |i: int| headers[i]@)
}

/// The models of a list of rows, row by row.
pub open spec fn row_models(rows: Seq<Row>) -> Seq<Seq<CellModel>> {
    Seq::new(rows.len(), |i: int| cell_models(rows[i].cells@))
}

/// The cells or headers made of the given texts, each with the length of
/// its text.
pub open spec fn measured(texts: Seq<Seq<char>>) -> Seq<CellModel> {
    Seq::new(texts.len(), |i: int| CellModel { content: texts[i], length: byte_length(texts[i]) })
}

/// A table as contracts speak of it.
pub ghost struct TableModel {
    pub headers: Seq<CellModel>,
    pub rows: Seq<Seq<CellModel>>,
    pub cell_margin: usize,
}

impl View for Table {
    type V = TableModel;

    open spec fn view(&self) -> TableModel {
        TableModel {
            headers: header_models(self.headers@),
            rows: row_models(self.rows@),
            cell_margin: self.cell_margin,
        }
    }
}

impl Cell {
    /// A cell with the given text.
    pub fn new(content: String) -> (cell: Cell)
        ensures
            cell.content@ == content@,
            cell.length == byte_length(content@),
    {
        let len = content.as_str().len();
        Cell { content, length: len }
    }
}

impl Header {
    /// A header with the given text.
    pub fn new(content: String) -> (header: Header)
        ensures
            header.content@ == content@,
            header.length == byte_length(content@),
    {
        let len = content.as_str().len();
        Header { content, length: len }
    }
}

impl Table {
    /// An empty table whose columns will stand `cell_margin` spaces apart.
    pub fn new(cell_margin: usize) -> (table: Table)
        ensures
            table@ == (TableModel {
                headers: Seq::empty(),
                rows: Seq::empty(),
                cell_margin,
            }),
    {
        let table = Table { headers: Vec::new(), rows: Vec::new(), cell_margin };
        assert(table@.headers =~= Seq::<CellModel>::empty());
        assert(table@.rows =~= Seq::<Seq<CellModel>>::empty());
        table
    }

    /// Adds a row with one cell for each of the texts.
    pub fn add_row(&mut self, cells: Vec<String>)
        ensures
            final(self)@ == (TableModel {
                rows: old(self)@.rows.push(measured(crate::text::string_views(cells@))),
                ..old(self)@
            }),
    {
        let mut row: Vec<Cell> = Vec::new();
        let mut i: usize = 0;
        while i < cells.len()
            invariant
                i <= cells.len(),
                row.len() == i,
                forall|k: int|
                    0 <= k < i ==> (#[trigger] row@[k]).content@ == cells@[k]@ && row@[k].length
                        == byte_length(row@[k].content@),
            decreases cells.len() - i,
        {
            row.push(Cell::new(cells[i].clone()));
            i += 1;
        }
        assert(cell_models(row@) =~= measured(crate::text::string_views(cells@)));
        let ghost before = self.rows@;
        self.rows.push(Row { cells: row });
        assert(row_models(self.rows@) =~= row_models(before).push(cell_models(row@)));
    }

    /// Replaces the headers by one header for each of the texts.
    pub fn set_headers(&mut self, headers: Vec<String>)
        ensures
            final(self)@ == (TableModel {
                headers: measured(crate::text::string_views(headers@)),
                ..old(self)@
            }),
    {
        let mut made: Vec<Header> = Vec::new();
        let mut i: usize = 0;
        while i < headers.len()
            invariant
                i <= headers.len(),
                made.len() == i,
                forall|k: int|
                    0 <= k < i ==> (#[trigger] made@[k]).content@ == headers@[k]@
                        && made@[k].length == byte_length(made@[k].content@),
            decreases headers.len() - i,
        {
            made.push(Header::new(headers[i].clone()));
            i += 1;
        }
        assert(header_models(made@) =~= measured(crate::text::string_views(headers@)));
        self.headers = made;
    }
}

/// Why a table cannot be printed.
#[derive(Debug, Clone, Copy, PartialEq, Eq)]
pub enum TableError {
    /// The table has headers and no row.
    NoRows,
    /// A row has fewer cells than the table has headers.
    MissingCell,
    /// A column with its margin is wider than any text can be.
    TooWide,
}

/// The greatest length among the cells of column `i` in the first `r` rows.
pub open spec fn widest_cell(t: TableModel, i: int, r: int) -> int
    decreases r,
{
    if r <= 0 {
        0
    } else if widest_cell(t, i, r - 1) >= t.rows[r - 1][i].length {
        widest_cell(t, i, r - 1)
    } else {
        t.rows[r - 1][i].length as int
    }
}

/// The least length among the cells of column `i` in the first `r` rows
/// and the column's header.
pub open spec fn narrowest_cell(t: TableModel, i: int, r: int) -> int
    decreases r,
{
    if r <= 0 {
        t.headers[i].length as int
    } else if narrowest_cell(t, i, r - 1) <= t.rows[r - 1][i].length {
        narrowest_cell(t, i, r - 1)
    } else {
        t.rows[r - 1][i].length as int
    }
}

/// The width of column `i`: the greatest length among its header and its
/// cells.
pub open spec fn column_width(t: TableModel, i: int) -> int {
    if t.headers[i].length >= widest_cell(t, i, t.rows.len() as int) {
        t.headers[i].length as int
    } else {
        widest_cell(t, i, t.rows.len() as int)
    }
}

/// The widest gap that column `i` needs behind one of its texts: what its
/// shortest text lacks of the column's width, and the margin.
pub open spec fn widest_gap(t: TableModel, i: int) -> int {
    column_width(t, i) - narrowest_cell(t, i, t.rows.len() as int) + t.cell_margin
}

/// `n` times the character `c`.
pub open spec fn repeated(c: char, n: int) -> Seq<char> {
    Seq::new(n as nat, |i: int| c)
}

/// The spaces behind a text of the given length in column `i`: up to the
/// column's width, and the margin.
pub open spec fn gap(t: TableModel, i: int, length: usize) -> Seq<char> {
    repeated(' ', column_width(t, i) - length + t.cell_margin)
}

/// The first `k` columns of the line of headers.
pub open spec fn header_line(t: TableModel, k: int) -> Seq<char>
    decreases k,
{
    if k <= 0 {
        Seq::empty()
    } else {
        header_line(t, k - 1) + t.headers[k - 1].content + gap(t, k - 1, t.headers[k - 1].length)
    }
}

/// The first `k` columns of the line that underlines the headers.
pub open spec fn rule_line(t: TableModel, k: int) -> Seq<char>
    decreases k,
{
    if k <= 0 {
        Seq::empty()
    } else {
        rule_line(t, k - 1) + repeated('-', t.headers[k - 1].length as int) + gap(
            t,
            k - 1,
            t.headers[k - 1].length,
        )
    }
}

/// The first `k` columns of the line of row `r`.
pub open spec fn row_line(t: TableModel, r: int, k: int) -> Seq<char>
    decreases k,
{
    if k <= 0 {
        Seq::empty()
    } else {
        row_line(t, r, k - 1) + t.rows[r][k - 1].content + gap(
            t,
            k - 1,
            t.rows[r][k - 1].length,
        )
    }
}

/// The lines of the printed table: the headers, a rule under them, and the
/// rows. Every text is followed by spaces up to the width of its column and
/// by the margin. A table has as many columns as it has headers; cells beyond
/// them are not printed. The lengths that count are the ones that headers and
/// cells carry.
pub open spec fn rendered(t: TableModel) -> Result<Seq<Seq<char>>, TableError> {
    let n = t.headers.len() as int;
    if n > 0 && t.rows.len() == 0 {
        Err(TableError::NoRows)
    } else if exists|r: int| 0 <= r < t.rows.len() && (#[trigger] t.rows[r]).len() < n {
        Err(TableError::MissingCell)
    } else if exists|i: int| 0 <= i < n && #[trigger] widest_gap(t, i) > usize::MAX {
        Err(TableError::TooWide)
    } else {
        Ok(
            seq![header_line(t, n), rule_line(t, n)] + Seq::new(
                t.rows.len() as nat,
                |r: int| row_line(t, r, n),
            ),
        )
    }
}

/// Appends `n` times the character `c`.
fn push_repeated(out: &mut Vec<char>, c: char, n: usize)
    ensures
        final(out)@ == old(out)@ + repeated(c, n as int),
{
    let ghost start = out@;
    let mut i: usize = 0;
    assert(out@ =~= start + repeated(c, 0));
    while i < n
        invariant
            i <= n,
            out@ == start + repeated(c, i as int),
        decreases n - i,
    {
        out.push(c);
        i += 1;
        assert(out@ =~= start + repeated(c, i as int));
    }
}

impl Table {
    /// The lines of the printed table.
    #[verifier::loop_isolation(false)]
    pub fn try_render(&self) -> (result: Result<Vec<String>, TableError>)
        ensures
            match result {
                Ok(lines) => rendered(self@) == Ok::<Seq<Seq<char>>, TableError>(
                    crate::text::string_views(lines@),
                ),
                Err(e) => rendered(self@) == Err::<Seq<Seq<char>>, TableError>(e),
            },
    {
        let n = self.headers.len();
        let rows = self.rows.len();
        proof {
            assert forall|k: int| 0 <= k < rows implies (#[trigger] self@.rows[k])
                == cell_models(self.rows[k].cells@) by {}
            assert forall|k: int, j: int|
                0 <= k < rows && 0 <= j < self.rows[k].cells.len() implies (
            #[trigger] self@.rows[k][j]) == self.rows[k].cells[j]@ by {
                assert(self@.rows[k] == cell_models(self.rows[k].cells@));
            }
            assert forall|k: int| 0 <= k < n implies (#[trigger] self@.headers[k])
                == self.headers[k]@ by {}
        }
        if n > 0 && rows == 0 {
            return Err(TableError::NoRows);
        }
        let mut r: usize = 0;
        while r < rows
            invariant
                r <= rows,
                rows == self.rows.len(),
                n == self.headers.len(),
                forall|k: int| 0 <= k < r ==> (#[trigger] self.rows[k]).cells.len() >= n,
            decreases rows - r,
        {
            if self.rows[r].cells.len() < n {
                assert(self@.rows[r as int].len() < n);
                return Err(TableError::MissingCell);
            }
            r += 1;
        }
        let mut widths: Vec<usize> = Vec::new();
        let mut i: usize = 0;
        while i < n
            invariant
                i <= n,
                rows == self.rows.len(),
                n == self.headers.len(),
                forall|k: int| 0 <= k < rows ==> (#[trigger] self.rows[k]).cells.len() >= n,
                widths.len() == i,
                forall|k: int| 0 <= k < i ==> #[trigger] widths[k] == column_width(self@, k),
                forall|k: int| 0 <= k < i ==> #[trigger] widest_gap(self@, k) <= usize::MAX,
            decreases n - i,
        {
            let mut widest: usize = 0;
            let mut narrowest: usize = self.headers[i].length;
            let mut r: usize = 0;
            while r < rows
                invariant
                    r <= rows,
                    i < n,
                    rows == self.rows.len(),
                    n == self.headers.len(),
                    forall|k: int| 0 <= k < rows ==> (#[trigger] self.rows[k]).cells.len() >= n,
                    widest == widest_cell(self@, i as int, r as int),
                    narrowest == narrowest_cell(self@, i as int, r as int),
                decreases rows - r,
            {
                assert(self.rows[r as int].cells.len() >= n);
                let length = self.rows[r].cells[i].length;
                if length > widest {
                    widest = length;
                }
                if length < narrowest {
                    narrowest = length;
                }
                r += 1;
            }
            let width = if self.headers[i].length >= widest {
                self.headers[i].length
            } else {
                widest
            };
            proof {
                lemma_narrowest(self@, i as int, rows as int);
            }
            if self.cell_margin > usize::MAX - (width - narrowest) {
                assert(widest_gap(self@, i as int) > usize::MAX);
                return Err(TableError::TooWide);
            }
            widths.push(width);
            i += 1;
        }
        let mut lines: Vec<Vec<char>> = Vec::new();
        let mut head: Vec<char> = Vec::new();
        let mut rule: Vec<char> = Vec::new();
        let mut i: usize = 0;
        while i < n
            invariant
                i <= n,
                rows == self.rows.len(),
                n == self.headers.len(),
                widths.len() == n,
                forall|k: int| 0 <= k < n ==> #[trigger] widths[k] == column_width(self@, k),
                forall|k: int| 0 <= k < n ==> #[trigger] widest_gap(self@, k) <= usize::MAX,
                head@ == header_line(self@, i as int),
                rule@ == rule_line(self@, i as int),
            decreases n - i,
        {
            let header = &self.headers[i];
            proof {
                lemma_narrowest(self@, i as int, rows as int);
                assert(widest_gap(self@, i as int) <= usize::MAX);
            }
            let space = widths[i] - header.length + self.cell_margin;
            crate::text::push_str(&mut head, header.content.as_str());
            push_repeated(&mut head, ' ', space);
            push_repeated(&mut rule, '-', header.length);
            push_repeated(&mut rule, ' ', space);
            i += 1;
        }
        lines.push(head);
        lines.push(rule);
        let mut r: usize = 0;
        while r < rows
            invariant
                r <= rows,
                rows == self.rows.len(),
                n == self.headers.len(),
                widths.len() == n,
                forall|k: int| 0 <= k < rows ==> (#[trigger] self.rows[k]).cells.len() >= n,
                forall|k: int| 0 <= k < n ==> #[trigger] widths[k] == column_width(self@, k),
                forall|k: int| 0 <= k < n ==> #[trigger] widest_gap(self@, k) <= usize::MAX,
                lines.len() == r + 2,
                lines@[0]@ == header_line(self@, n as int),
                lines@[1]@ == rule_line(self@, n as int),
                forall|k: int| 0 <= k < r ==> (#[trigger] lines@[k + 2])@ == row_line(
                    self@,
                    k,
                    n as int,
                ),
            decreases rows - r,
        {
            let mut line: Vec<char> = Vec::new();
            let mut i: usize = 0;
            assert(self.rows[r as int].cells.len() >= n);
            while i < n
                invariant
                    i <= n,
                    r < rows,
                    rows == self.rows.len(),
                    n == self.headers.len(),
                    widths.len() == n,
                    self.rows[r as int].cells.len() >= n,
                    forall|k: int| 0 <= k < n ==> #[trigger] widths[k] == column_width(self@, k),
                    forall|k: int| 0 <= k < n ==> #[trigger] widest_gap(self@, k) <= usize::MAX,
                    line@ == row_line(self@, r as int, i as int),
                decreases n - i,
            {
                let cell = &self.rows[r].cells[i];
                proof {
                    lemma_narrowest_row(self@, i as int, rows as int, r as int);
                    lemma_widest_row(self@, i as int, rows as int, r as int);
                    assert(widest_gap(self@, i as int) <= usize::MAX);
                }
                let space = widths[i] - cell.length + self.cell_margin;
                crate::text::push_str(&mut line, cell.content.as_str());
                push_repeated(&mut line, ' ', space);
                i += 1;
            }
            lines.push(line);
            r += 1;
        }
        proof {
            let want = seq![header_line(self@, n as int), rule_line(self@, n as int)] + Seq::new(
                rows as nat,
                |r: int| row_line(self@, r, n as int),
            );
            assert(crate::text::views(lines@) =~= want) by {
                assert forall|k: int| 0 <= k < lines.len() implies crate::text::views(lines@)[k]
                    == want[k] by {
                    if k >= 2 {
                        assert(lines@[(k - 2) + 2]@ == row_line(self@, k - 2, n as int));
                    }
                }
            }
        }
        Ok(crate::text::strings_of(&lines))
    }
}

/// The narrowest cell is no longer than the header, and the widest no
/// shorter than nothing.
pub proof fn lemma_narrowest(t: TableModel, i: int, r: int)
    requires
        r >= 0,
    ensures
        0 <= narrowest_cell(t, i, r) <= t.headers[i].length,
        0 <= widest_cell(t, i, r),
    decreases r,
{
    if r > 0 {
        lemma_narrowest(t, i, r - 1);
    }
}

/// The narrowest cell of the first rows is no longer than any cell among
/// them.
pub proof fn lemma_narrowest_row(t: TableModel, i: int, rows: int, r: int)
    requires
        0 <= r < rows,
    ensures
        narrowest_cell(t, i, rows) <= t.rows[r][i].length,
    decreases rows,
{
    if r < rows - 1 {
        lemma_narrowest_row(t, i, rows - 1, r);
    }
}

/// The widest cell of the first rows is no shorter than any cell among them.
pub proof fn lemma_widest_row(t: TableModel, i: int, rows: int, r: int)
    requires
        0 <= r < rows,
    ensures
        widest_cell(t, i, rows) >= t.rows[r][i].length,
    decreases rows,
{
    if r < rows - 1 {
        lemma_widest_row(t, i, rows - 1, r);
    }
}

impl Table {
    /// The lines of the printed table. The table must be one that can be
    /// printed: `try_render` tells.
    pub fn render(&self) -> (lines: Vec<String>)
        requires
            rendered(self@) is Ok,
        ensures
            rendered(self@) == Ok::<Seq<Seq<char>>, TableError>(
                crate::text::string_views(lines@),
            ),
    {
        match self.try_render() {
            Ok(lines) => lines,
            Err(_) => vstd::pervasive::unreached(),
        }
    }
}

} // verus!
