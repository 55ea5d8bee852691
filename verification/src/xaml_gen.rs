//! Grid-model generator: the in-memory layout description of the command
//! grid (flat and sectioned), plus the cell-size and control-id helpers.
//!
//! - [`cell_size`] derives a button's (width, height) from `icon_size`,
//!   clamped to a non-degenerate range so dimensions are never zero.
//! - [`assign_control_ids`] gives unique `u16` ids (from 1000) to the cells
//!   that carry a `command_id`.
//! - [`command_for_id`] resolves such an id back to its command id.

use vstd::prelude::*;

use crate::text::copy_string;

verus! {

/// A single cell in the command grid.
#[derive(Debug, Clone, PartialEq, Eq)]
pub struct GridCell {
    /// Zero-based row index.
    pub row: u32,
    /// Zero-based column index.
    pub col: u32,
    /// Label displayed on the button (fallback when no icon resolves).
    pub label: String,
    /// The raw icon string (emoji or file name); empty means label only.
    pub icon: String,
    /// Optional stable command id.
    pub command_id: Option<String>,
}

pub struct CellView {
    pub row: u32,
    pub col: u32,
    pub label: Seq<char>,
    pub icon: Seq<char>,
    pub command_id: Option<Seq<char>>,
}

pub open spec fn opt_view(o: Option<String>) -> Option<Seq<char>> {
    match o {
        Some(s) => Some(s@),
        None => None,
    }
}

impl View for GridCell {
    type V = CellView;

    open spec fn view(&self) -> CellView {
        CellView {
            row: self.row,
            col: self.col,
            label: self.label@,
            icon: self.icon@,
            command_id: opt_view(self.command_id),
        }
    }
}

pub open spec fn cells_view(cs: Seq<GridCell>) -> Seq<CellView> {
    cs.map_values(|c: GridCell| c@)
}

/// A fully computed grid layout ready to be rendered.
#[derive(Debug, Clone)]
pub struct GridModel {
    /// Number of columns in the grid.
    pub cols: u32,
    /// Ordered list of cells (row-major).
    pub cells: Vec<GridCell>,
}

/// `n / d` rounded up.
pub open spec fn div_ceil(n: int, d: int) -> int {
    if n % d == 0 {
        n / d
    } else {
        n / d + 1
    }
}

impl GridModel {
    /// Total number of rows (computed from cells and column count).
    pub fn row_count(&self) -> (r: u32)
        ensures
            r == (if self.cells@.len() == 0 || self.cols == 0 {
                0
            } else {
                div_ceil((self.cells@.len() as u32) as int, self.cols as int)
            }),
    {
        if self.cells.len() == 0 || self.cols == 0 {
            return 0;
        }
        let n = self.cells.len() as u32;
        let c = self.cols;
        if n % c == 0 {
            n / c
        } else {
            assert(n / c < u32::MAX) by (nonlinear_arith)
                requires
                    c >= 1,
                    n % c != 0,
            {
                if c == 1 {
                    assert(n % c == 0);
                }
                assert(n / c <= n / 2);
            }
            n / c + 1
        }
    }
}

/// Input descriptor for a single command in the grid.
#[derive(Debug, Clone, PartialEq, Eq)]
pub struct GridEntry {
    /// Display label (command name).
    pub label: String,
    /// Raw icon string (emoji or file name).
    pub icon: String,
    /// Stable command id, if available.
    pub command_id: Option<String>,
}

pub struct EntryView {
    pub label: Seq<char>,
    pub icon: Seq<char>,
    pub command_id: Option<Seq<char>>,
}

impl View for GridEntry {
    type V = EntryView;

    open spec fn view(&self) -> EntryView {
        EntryView { label: self.label@, icon: self.icon@, command_id: opt_view(self.command_id) }
    }
}

pub open spec fn entries_view(es: Seq<GridEntry>) -> Seq<EntryView> {
    es.map_values(|e: GridEntry| e@)
}

fn copy_opt(o: &Option<String>) -> (r: Option<String>)
    ensures
        opt_view(r) == opt_view(*o),
{
    match o {
        Some(s) => Some(copy_string(s)),
        None => None,
    }
}

impl GridEntry {
    /// Convenience constructor for label-only entries.
    pub fn label_only(label: &str) -> (r: Self)
        ensures
            r.label@ == label@,
            r.icon@ == Seq::<char>::empty(),
            r.command_id is None,
    {
        GridEntry { label: label.to_string(), icon: String::new(), command_id: None }
    }
}

/// The cell an entry becomes at `(row, col)`.
pub open spec fn entry_cell(e: EntryView, row: u32, col: u32) -> CellView {
    CellView { row, col, label: e.label, icon: e.icon, command_id: e.command_id }
}

proof fn lemma_cells_view_push(s: Seq<GridCell>, x: GridCell)
    ensures
        cells_view(s.push(x)) == cells_view(s).push(x@),
{
    assert(cells_view(s.push(x)) =~= cells_view(s).push(x@));
}

fn make_cell(e: &GridEntry, row: u32, col: u32) -> (r: GridCell)
    ensures
        r@ == entry_cell(e@, row, col),
{
    GridCell {
        row,
        col,
        label: copy_string(&e.label),
        icon: copy_string(&e.icon),
        command_id: copy_opt(&e.command_id),
    }
}

/// The column count of a flat grid: the preferred count (at least one), but
/// never more than there are entries.
pub open spec fn grid_cols(n: int, preferred_cols: u32) -> u32 {
    let wanted: u32 = if preferred_cols < 1 {
        1
    } else {
        preferred_cols
    };
    if n == 0 || wanted <= (n as u32) {
        wanted
    } else {
        n as u32
    }
}

/// Build a [`GridModel`] from a list of [`GridEntry`] items.
///
/// `preferred_cols` is the desired number of columns. If fewer items are
/// provided than one full row, the grid has `entries.len()` columns instead
/// (never zero columns).
pub fn build_grid(entries: &[GridEntry], preferred_cols: u32) -> (r: GridModel)
    requires
        entries@.len() <= u32::MAX,
    ensures
        r.cols == grid_cols(entries@.len() as int, preferred_cols),
        r.cols >= 1,
        cells_view(r.cells@) == Seq::new(
            entries@.len(),
            |i: int| entry_cell(entries@[i]@, (i / r.cols as int) as u32, (i % r.cols as int) as u32),
        ),
{
    let wanted: u32 = if preferred_cols < 1 {
        1
    } else {
        preferred_cols
    };
    let n = entries.len() as u32;
    let cols: u32 = if entries.len() == 0 || wanted <= n {
        wanted
    } else {
        n
    };
    let mut cells: Vec<GridCell> = Vec::new();
    let mut i: usize = 0;
    while i < entries.len()
        invariant
            i <= entries.len(),
            entries@.len() <= u32::MAX,
            cols >= 1,
            cells_view(cells@) == Seq::new(
                i as nat,
                |k: int| entry_cell(entries@[k]@, (k / cols as int) as u32, (k % cols as int) as u32),
            ),
        decreases entries.len() - i,
    {
        let iu = i as u32;
        let cell = make_cell(&entries[i], iu / cols, iu % cols);
        let ghost before = cells@;
        let ghost x = cell;
        cells.push(cell);
        proof {
            lemma_cells_view_push(before, x);
        }
        i = i + 1;
        assert(cells_view(cells@) =~= Seq::new(
            i as nat,
            |k: int| entry_cell(entries@[k]@, (k / cols as int) as u32, (k % cols as int) as u32),
        ));
    }
    GridModel { cells, cols }
}

// ---------------------------------------------------------------------------
// Sectioned layout
// ---------------------------------------------------------------------------

/// A section of the grouped view: a header followed by its entries. A
/// section without entries is omitted by [`build_sectioned`].
#[derive(Debug, Clone, PartialEq, Eq)]
pub struct GridSection {
    /// Section header (category name, or "Uncategorized").
    pub header: String,
    /// Ordered entries of the section.
    pub entries: Vec<GridEntry>,
}

/// One row of the stacked sectioned layout.
#[derive(Debug, Clone, PartialEq, Eq)]
pub enum SectionRow {
    /// A section header row.
    Header {
        /// The category name or "Uncategorized".
        label: String,
        /// Index of the section in the given `sections` slice.
        section_idx: usize,
    },
    /// A row of button cells belonging to a section.
    Cells {
        /// Index of the section these cells belong to.
        section_idx: usize,
        /// Cells for this row (up to `cols` items).
        cells: Vec<GridCell>,
    },
}

pub enum RowView {
    Header { label: Seq<char>, section_idx: usize },
    Cells { section_idx: usize, cells: Seq<CellView> },
}

impl View for SectionRow {
    type V = RowView;

    open spec fn view(&self) -> RowView {
        match self {
            SectionRow::Header { label, section_idx } => RowView::Header {
                label: label@,
                section_idx: *section_idx,
            },
            SectionRow::Cells { section_idx, cells } => RowView::Cells {
                section_idx: *section_idx,
                cells: cells_view(cells@),
            },
        }
    }
}

pub open spec fn rows_view(rs: Seq<SectionRow>) -> Seq<RowView> {
    rs.map_values(|r: SectionRow| r@)
}

/// The fully computed sectioned layout: headers interleaved with their
/// button rows, non-empty sections only.
#[derive(Debug, Clone)]
pub struct SectionedModel {
    /// Number of columns used per section's button grid.
    pub cols: u32,
    /// Ordered vertical rows.
    pub rows: Vec<SectionRow>,
}

impl SectionedModel {
    /// Total number of rows (headers included).
    pub fn row_count(&self) -> (r: usize)
        ensures
            r == self.rows@.len(),
    {
        self.rows.len()
    }

    /// All `Cells` rows, in order.
    pub fn cell_rows(&self) -> (r: Vec<&[GridCell]>)
        ensures
            r@.map_values(|c: &[GridCell]| cells_view(c@)) == cell_rows_spec(rows_view(self.rows@)),
    {
        let mut out: Vec<&[GridCell]> = Vec::new();
        let mut i: usize = 0;
        let ghost rv = rows_view(self.rows@);
        while i < self.rows.len()
            invariant
                i <= self.rows.len(),
                rv == rows_view(self.rows@),
                out@.map_values(|c: &[GridCell]| cells_view(c@)) == cell_rows_spec(rv.take(i as int)),
            decreases self.rows.len() - i,
        {
            assert(rv.take(i + 1).drop_last() =~= rv.take(i as int));
            assert(rv[i as int] == self.rows@[i as int]@);
            match &self.rows[i] {
                SectionRow::Cells { cells, .. } => {
                    let ghost before = out@.map_values(|c: &[GridCell]| cells_view(c@));
                    out.push(cells.as_slice());
                    assert(out@.map_values(|c: &[GridCell]| cells_view(c@)) =~= before.push(
                        cells_view(cells@),
                    ));
                },
                SectionRow::Header { .. } => {},
            }
            i = i + 1;
        }
        assert(rv.take(i as int) =~= rv);
        out
    }
}

/// The cells of every `Cells` row, in order.
pub open spec fn cell_rows_spec(rows: Seq<RowView>) -> Seq<Seq<CellView>>
    decreases rows.len(),
{
    if rows.len() == 0 {
        Seq::empty()
    } else {
        let prev = cell_rows_spec(rows.drop_last());
        match rows.last() {
            RowView::Cells { cells, .. } => prev.push(cells),
            RowView::Header { .. } => prev,
        }
    }
}

/// The `j`-th chunk of `entries` cut into rows of `c` cells.
pub open spec fn chunk_cells(entries: Seq<EntryView>, c: int, j: int) -> Seq<CellView> {
    let start = j * c;
    let len = if entries.len() - start < c {
        entries.len() - start
    } else {
        c
    };
    Seq::new(len as nat, |k: int| entry_cell(entries[start + k], 0, k as u32))
}

/// The first `m` button rows of a section.
pub open spec fn chunk_rows(entries: Seq<EntryView>, idx: usize, c: int, m: int) -> Seq<RowView>
    decreases m,
{
    if m <= 0 {
        Seq::empty()
    } else {
        chunk_rows(entries, idx, c, m - 1).push(
            RowView::Cells { section_idx: idx, cells: chunk_cells(entries, c, m - 1) },
        )
    }
}

/// The rows a section contributes: its header, then its entries wrapped by
/// `min(cols, entries)` columns; nothing when it has no entries.
pub open spec fn section_rows(header: Seq<char>, entries: Seq<EntryView>, idx: usize, cols: u32) -> Seq<
    RowView,
> {
    if entries.len() == 0 {
        Seq::empty()
    } else {
        let n = entries.len() as u32;
        let c: int = if cols <= n {
            cols as int
        } else {
            n as int
        };
        seq![RowView::Header { label: header, section_idx: idx }] + chunk_rows(
            entries,
            idx,
            c,
            div_ceil(entries.len() as int, c),
        )
    }
}

/// The rows of the first `n` sections.
pub open spec fn sectioned_rows(sections: Seq<GridSection>, cols: u32, n: int) -> Seq<RowView>
    decreases n,
{
    if n <= 0 {
        Seq::empty()
    } else {
        sectioned_rows(sections, cols, n - 1) + section_rows(
            sections[n - 1].header@,
            entries_view(sections[n - 1].entries@),
            (n - 1) as usize,
            cols,
        )
    }
}

/// Facts on `div_ceil(n, c)` that the chunking loop needs.
proof fn lemma_div_ceil(n: int, c: int, j: int)
    requires
        c >= 1,
        n >= 0,
        j >= 0,
    ensures
        n >= 1 ==> div_ceil(n, c) >= 1,
        div_ceil(n, c) <= n,
        j * c < n ==> j < div_ceil(n, c),
        (j + 1) * c >= n ==> j + 1 >= div_ceil(n, c),
        (j + 1) * c == j * c + c,
{
    assert(n >= 1 ==> div_ceil(n, c) >= 1) by (nonlinear_arith)
        requires
            c >= 1,
            n >= 0,
            div_ceil(n, c) == (if n % c == 0 { n / c } else { n / c + 1 }),
    ;
    assert(div_ceil(n, c) <= n) by (nonlinear_arith)
        requires
            c >= 1,
            n >= 0,
            div_ceil(n, c) == (if n % c == 0 { n / c } else { n / c + 1 }),
    ;
    assert(j * c < n ==> j < div_ceil(n, c)) by (nonlinear_arith)
        requires
            c >= 1,
            n >= 0,
            j >= 0,
            div_ceil(n, c) == (if n % c == 0 { n / c } else { n / c + 1 }),
    ;
    assert((j + 1) * c >= n ==> j + 1 >= div_ceil(n, c)) by (nonlinear_arith)
        requires
            c >= 1,
            n >= 0,
            j >= 0,
            div_ceil(n, c) == (if n % c == 0 { n / c } else { n / c + 1 }),
    ;
    assert((j + 1) * c == j * c + c) by (nonlinear_arith);
}

/// The rows of one non-empty section's button grid.
fn push_section_cells(
    rows: &mut Vec<SectionRow>,
    entries: &Vec<GridEntry>,
    idx: usize,
    c: usize,
)
    requires
        c >= 1,
        entries@.len() >= 1,
        c <= entries@.len(),
        c <= u32::MAX,
    ensures
        rows_view(final(rows)@) == rows_view(old(rows)@) + chunk_rows(
            entries_view(entries@),
            idx,
            c as int,
            div_ceil(entries@.len() as int, c as int),
        ),
{
    let ghost ev = entries_view(entries@);
    let ghost base = rows_view(rows@);
    let ghost n = entries@.len() as int;
    let mut start: usize = 0;
    let mut j: usize = 0;
    proof {
        lemma_div_ceil(n, c as int, 0);
    }
    assert(rows_view(rows@) =~= base + chunk_rows(ev, idx, c as int, 0));
    while start < entries.len()
        invariant
            c >= 1,
            c <= u32::MAX,
            n == entries@.len(),
            ev == entries_view(entries@),
            start <= n,
            start < n ==> start == j * c,
            j <= div_ceil(n, c as int),
            start < n ==> j < div_ceil(n, c as int),
            start == n ==> j == div_ceil(n, c as int),
            rows_view(rows@) == base + chunk_rows(ev, idx, c as int, j as int),
        decreases entries.len() - start,
    {
        proof {
            lemma_div_ceil(n, c as int, j as int);
            lemma_div_ceil(n, c as int, j + 1);
        }
        let end = if entries.len() - start < c {
            entries.len()
        } else {
            start + c
        };
        let mut cells: Vec<GridCell> = Vec::new();
        let mut k: usize = start;
        while k < end
            invariant
                start <= k <= end <= entries.len(),
                end - start <= c,
                c <= u32::MAX,
                ev == entries_view(entries@),
                cells_view(cells@) == Seq::new(
                    (k - start) as nat,
                    |q: int| entry_cell(ev[start + q], 0, q as u32),
                ),
            decreases end - k,
        {
            let cell = make_cell(&entries[k], 0, (k - start) as u32);
            let ghost before = cells@;
            let ghost x = cell;
            cells.push(cell);
            proof {
                lemma_cells_view_push(before, x);
            }
            k = k + 1;
            assert(cells_view(cells@) =~= Seq::new(
                (k - start) as nat,
                |q: int| entry_cell(ev[start + q], 0, q as u32),
            ));
        }
        assert(cells_view(cells@) =~= chunk_cells(ev, c as int, j as int));
        let ghost before = rows_view(rows@);
        rows.push(SectionRow::Cells { section_idx: idx, cells });
        assert(rows_view(rows@) =~= before.push(
            RowView::Cells { section_idx: idx, cells: chunk_cells(ev, c as int, j as int) },
        ));
        start = end;
        j = j + 1;
    }
}

/// Build a [`SectionedModel`] from an ordered list of [`GridSection`]s.
///
/// Empty sections are omitted. Each non-empty section emits one header row
/// followed by its button rows, wrapped by `preferred_cols` (at least one)
/// clamped to the section's own entry count.
pub fn build_sectioned(sections: &[GridSection], preferred_cols: u32) -> (r: SectionedModel)
    requires
        forall|i: int| 0 <= i < sections@.len() ==> (#[trigger] sections@[i]).entries@.len() <= u32::MAX,
    ensures
        r.cols == (if preferred_cols < 1 {
            1
        } else {
            preferred_cols
        }),
        rows_view(r.rows@) == sectioned_rows(sections@, r.cols, sections@.len() as int),
{
    let cols: u32 = if preferred_cols < 1 {
        1
    } else {
        preferred_cols
    };
    let mut rows: Vec<SectionRow> = Vec::new();
    let mut i: usize = 0;
    assert(rows_view(rows@) =~= sectioned_rows(sections@, cols, 0));
    while i < sections.len()
        invariant
            i <= sections.len(),
            cols >= 1,
            forall|q: int| 0 <= q < sections@.len() ==> (#[trigger] sections@[q]).entries@.len() <= u32::MAX,
            rows_view(rows@) == sectioned_rows(sections@, cols, i as int),
        decreases sections.len() - i,
    {
        let section = &sections[i];
        if section.entries.len() > 0 {
            let n = section.entries.len() as u32;
            let sec_cols: u32 = if cols <= n {
                cols
            } else {
                n
            };
            let ghost before = rows_view(rows@);
            rows.push(SectionRow::Header { label: copy_string(&section.header), section_idx: i });
            assert(rows_view(rows@) =~= before.push(
                RowView::Header { label: section.header@, section_idx: i },
            ));
            push_section_cells(&mut rows, &section.entries, i, sec_cols as usize);
            assert(rows_view(rows@) =~= sectioned_rows(sections@, cols, i + 1));
        } else {
            assert(rows_view(rows@) =~= sectioned_rows(sections@, cols, i + 1));
        }
        i = i + 1;
    }
    SectionedModel { cols, rows }
}

// ---------------------------------------------------------------------------
// Layout helpers
// ---------------------------------------------------------------------------

/// Minimum cell dimension (width and height) in pixels.
pub const CELL_MIN: u32 = 40;

/// Maximum cell dimension in pixels.
pub const CELL_MAX: u32 = 256;

/// Label-area padding added to `icon_size` for the cell height.
pub const LABEL_PAD: u32 = 20;

/// Horizontal padding added to `icon_size` for the cell width.
pub const WIDTH_PAD: u32 = 16;

/// `v` clamped into `[lo, hi]`.
pub open spec fn clamp(v: int, lo: int, hi: int) -> int {
    if v < lo {
        lo
    } else if v > hi {
        hi
    } else {
        v
    }
}

/// `a + b`, saturating at `u32::MAX`.
pub open spec fn sat_add_u32(a: u32, b: u32) -> int {
    if a + b > u32::MAX {
        u32::MAX as int
    } else {
        a + b
    }
}

/// Button cell dimensions for `icon_size`:
/// width = clamp(icon_size + 16, 40, 256), height = clamp(icon_size + 20,
/// 40, 256), with saturating addition.
pub fn cell_size(icon_size: u32) -> (r: (u32, u32))
    ensures
        r.0 == clamp(sat_add_u32(icon_size, WIDTH_PAD), CELL_MIN as int, CELL_MAX as int),
        r.1 == clamp(sat_add_u32(icon_size, LABEL_PAD), CELL_MIN as int, CELL_MAX as int),
{
    let w = icon_size.saturating_add(WIDTH_PAD);
    let w = if w < CELL_MIN {
        CELL_MIN
    } else if w > CELL_MAX {
        CELL_MAX
    } else {
        w
    };
    let h = icon_size.saturating_add(LABEL_PAD);
    let h = if h < CELL_MIN {
        CELL_MIN
    } else if h > CELL_MAX {
        CELL_MAX
    } else {
        h
    };
    (w, h)
}

/// Both dimensions are always within `[CELL_MIN, CELL_MAX]`, so never zero.
pub proof fn law_cell_size_bounded(icon_size: u32)
    ensures
        CELL_MIN <= clamp(sat_add_u32(icon_size, WIDTH_PAD), CELL_MIN as int, CELL_MAX as int)
            <= CELL_MAX,
        CELL_MIN <= clamp(sat_add_u32(icon_size, LABEL_PAD), CELL_MIN as int, CELL_MAX as int)
            <= CELL_MAX,
{
}

/// Both dimensions are non-decreasing in `icon_size`.
pub proof fn law_cell_size_monotonic(a: u32, b: u32)
    requires
        a <= b,
    ensures
        clamp(sat_add_u32(a, WIDTH_PAD), CELL_MIN as int, CELL_MAX as int) <= clamp(
            sat_add_u32(b, WIDTH_PAD),
            CELL_MIN as int,
            CELL_MAX as int,
        ),
        clamp(sat_add_u32(a, LABEL_PAD), CELL_MIN as int, CELL_MAX as int) <= clamp(
            sat_add_u32(b, LABEL_PAD),
            CELL_MIN as int,
            CELL_MAX as int,
        ),
{
}

/// Base of the button control ids (avoids 0 and low system ids).
pub const CONTROL_ID_BASE: u16 = 1000;

/// The command ids of the cells that carry one, in cell order.
pub open spec fn command_ids(cells: Seq<CellView>) -> Seq<Seq<char>>
    decreases cells.len(),
{
    if cells.len() == 0 {
        Seq::empty()
    } else {
        let prev = command_ids(cells.drop_last());
        match cells.last().command_id {
            Some(id) => prev.push(id),
            None => prev,
        }
    }
}

/// `CONTROL_ID_BASE + (k as u16)`, saturating.
pub open spec fn control_id(k: int) -> u16 {
    let t = (k as u16) as int;
    if CONTROL_ID_BASE + t > u16::MAX {
        u16::MAX
    } else {
        (CONTROL_ID_BASE + t) as u16
    }
}

pub open spec fn id_map_view(m: Seq<(u16, String)>) -> Seq<(u16, Seq<char>)> {
    m.map_values(|p: (u16, String)| (p.0, p.1@))
}

/// Assigns sequential `u16` control ids, from [`CONTROL_ID_BASE`], to the
/// cells that carry a `command_id`; cells without one are skipped.
pub fn assign_control_ids(cells: &[GridCell]) -> (r: Vec<(u16, String)>)
    ensures
        id_map_view(r@) == Seq::new(
            command_ids(cells_view(cells@)).len(),
            |k: int| (control_id(k), command_ids(cells_view(cells@))[k]),
        ),
{
    let ghost cv = cells_view(cells@);
    let mut out: Vec<(u16, String)> = Vec::new();
    let mut i: usize = 0;
    while i < cells.len()
        invariant
            i <= cells.len(),
            cv == cells_view(cells@),
            id_map_view(out@) == Seq::new(
                command_ids(cv.take(i as int)).len(),
                |k: int| (control_id(k), command_ids(cv.take(i as int))[k]),
            ),
        decreases cells.len() - i,
    {
        assert(cv.take(i + 1).drop_last() =~= cv.take(i as int));
        assert(cv.take(i + 1).last() == cells@[i as int]@);
        match &cells[i].command_id {
            Some(cid) => {
                let k = out.len();
                let t = k as u16;
                let id = CONTROL_ID_BASE.saturating_add(t);
                assert(id == control_id(k as int));
                let ghost before = id_map_view(out@);
                out.push((id, copy_string(cid)));
                assert(id_map_view(out@) =~= before.push((id, cid@)));
                assert(id_map_view(out@) =~= Seq::new(
                    command_ids(cv.take(i + 1)).len(),
                    |k: int| (control_id(k), command_ids(cv.take(i + 1))[k]),
                ));
            },
            None => {
                assert(command_ids(cv.take(i + 1)) == command_ids(cv.take(i as int)));
            },
        }
        i = i + 1;
    }
    assert(cv.take(i as int) =~= cv);
    out
}

/// The command id of the first entry of `map` holding `control_id`.
pub open spec fn lookup_id(map: Seq<(u16, Seq<char>)>, control_id: u16) -> Option<Seq<char>>
    decreases map.len(),
{
    if map.len() == 0 {
        None
    } else if map[0].0 == control_id {
        Some(map[0].1)
    } else {
        lookup_id(map.drop_first(), control_id)
    }
}

/// Resolves a control id to its command id; `None` when the id is absent.
pub fn command_for_id(map: &[(u16, String)], control_id: u16) -> (r: Option<&str>)
    ensures
        match r {
            Some(s) => lookup_id(id_map_view(map@), control_id) == Some(s@),
            None => lookup_id(id_map_view(map@), control_id) is None,
        },
{
    let ghost mv = id_map_view(map@);
    let mut i: usize = 0;
    assert(mv.skip(0) =~= mv);
    while i < map.len()
        invariant
            i <= map.len(),
            mv == id_map_view(map@),
            lookup_id(mv, control_id) == lookup_id(mv.skip(i as int), control_id),
        decreases map.len() - i,
    {
        assert(mv.skip(i as int)[0] == (map@[i as int].0, map@[i as int].1@));
        assert(mv.skip(i as int).drop_first() =~= mv.skip(i + 1));
        if map[i].0 == control_id {
            return Some(map[i].1.as_str());
        }
        i = i + 1;
    }
    None
}

/// While fewer than 64536 ids are handed out, the ids are distinct: they
/// run `1000, 1001, …` without saturating.
pub proof fn law_control_ids_distinct(j: int, k: int)
    requires
        0 <= j < k < 64536,
    ensures
        control_id(j) != control_id(k),
        control_id(j) == CONTROL_ID_BASE + j,
{
}

/// A resolved id gives back the command it was assigned to: the `k`-th
/// command id answers to control id `1000 + k`.
pub proof fn law_command_for_id_inverts_assign(ids: Seq<Seq<char>>, k: int)
    requires
        0 <= k < ids.len(),
        ids.len() <= 64536,
    ensures
        lookup_id(Seq::new(ids.len(), |q: int| (control_id(q), ids[q])), control_id(k)) == Some(
            ids[k],
        ),
{
    let m = Seq::new(ids.len(), |q: int| (control_id(q), ids[q]));
    lemma_lookup_first(m, control_id(k), k);
}

proof fn lemma_lookup_first(m: Seq<(u16, Seq<char>)>, id: u16, k: int)
    requires
        0 <= k < m.len(),
        m[k].0 == id,
        forall|q: int| 0 <= q < k ==> m[q].0 != id,
    ensures
        lookup_id(m, id) == Some(m[k].1),
    decreases k,
{
    if k > 0 {
        assert(m[0].0 != id);
        lemma_lookup_first(m.drop_first(), id, k - 1);
    }
}

/// In a grid laid out row by row (cell `i` on row `i / cols`), the row
/// count is one more than the row of the last cell.
pub proof fn law_row_count_follows_last_cell(cells: Seq<CellView>, cols: u32)
    requires
        cols >= 1,
        1 <= cells.len() <= u32::MAX,
        forall|i: int| 0 <= i < cells.len() ==> (#[trigger] cells[i]).row == i / cols as int,
    ensures
        div_ceil(cells.len() as int, cols as int) == cells.last().row + 1,
{
    let n = cells.len() as int;
    let c = cols as int;
    assert(cells.last() == cells[n - 1]);
    assert(div_ceil(n, c) == (n - 1) / c + 1) by (nonlinear_arith)
        requires
            c >= 1,
            n >= 1,
            div_ceil(n, c) == (if n % c == 0 {
                n / c
            } else {
                n / c + 1
            }),
    {
        let q = (n - 1) / c;
        let r = (n - 1) % c;
        assert(n - 1 == q * c + r && 0 <= r < c);
        if r == c - 1 {
            assert(n == (q + 1) * c);
            assert(n % c == 0 && n / c == q + 1) by {
                vstd::arithmetic::div_mod::lemma_fundamental_div_mod_converse(n, c, q + 1, 0);
            }
        } else {
            assert(n == q * c + (r + 1));
            assert(n % c == r + 1 && n / c == q) by {
                vstd::arithmetic::div_mod::lemma_fundamental_div_mod_converse(n, c, q, r + 1);
            }
        }
    }
}

/// How a section's entries are cut into rows of `c` cells: entry `k` is on
/// button row `k / c`, at column `k % c`, and every row but the last is
/// full.
pub proof fn law_entries_fill_rows_in_order(entries: Seq<EntryView>, c: int)
    requires
        c >= 1,
    ensures
        forall|k: int|
            0 <= k < entries.len() ==> {
                let j = k / c;
                let i = k % c;
                &&& 0 <= j < div_ceil(entries.len() as int, c)
                &&& 0 <= i < (#[trigger] chunk_cells(entries, c, k / c)).len()
                &&& chunk_cells(entries, c, j)[i] == entry_cell(entries[k], 0, i as u32)
            },
        forall|j: int|
            0 <= j < div_ceil(entries.len() as int, c) - 1 ==> (#[trigger] chunk_cells(
                entries,
                c,
                j,
            )).len() == c,
{
    let n = entries.len() as int;
    assert forall|k: int| 0 <= k < n implies {
        let j = k / c;
        let i = k % c;
        &&& 0 <= j < div_ceil(n, c)
        &&& 0 <= i < (#[trigger] chunk_cells(entries, c, k / c)).len()
        &&& chunk_cells(entries, c, j)[i] == entry_cell(entries[k], 0, i as u32)
    } by {
        let j = k / c;
        let i = k % c;
        vstd::arithmetic::div_mod::lemma_fundamental_div_mod(k, c);
        vstd::arithmetic::div_mod::lemma_mod_bound(k, c);
        vstd::arithmetic::div_mod::lemma_div_pos_is_pos(k, c);
        assert(j * c == c * j) by (nonlinear_arith);
        lemma_div_ceil(n, c, j);
        assert(j * c + i == k);
    }
    assert forall|j: int| 0 <= j < div_ceil(n, c) - 1 implies (#[trigger] chunk_cells(
        entries,
        c,
        j,
    )).len() == c by {
        lemma_div_ceil(n, c, j + 1);
        lemma_div_ceil(n, c, j);
    }
}

} // verus!
