use vstd::prelude::*;
use vstd::arithmetic::div_mod::lemma_fundamental_div_mod_converse;
use vstd::arithmetic::div_mod::lemma_fundamental_div_mod;

use crate::label::Bitmap;

verus! {

/// The largest length a sheet configuration accepts, in micrometres: one kilometre.
pub const MAX_LENGTH: u64 = 1_000_000_000;

/// The most labels a sheet configuration accepts in one row.
pub const MAX_COLUMNS: u64 = 1_000_000;

/// Page geometry, every length in micrometres. Coordinates grow rightwards
/// and upwards from the page's lower left corner, and a placement's `(x, y)`
/// is the lower left corner of its cell.
pub struct SheetConfig {
    pub page_width: u64,
    pub page_height: u64,
    pub cell_width: u64,
    pub cell_height: u64,
    pub pitch_x: u64,
    pub pitch_y: u64,
    pub margin: u64,
    pub cols_per_row: u64,
}

/// Why a sheet configuration was refused.
#[derive(Debug, Clone, Copy, PartialEq, Eq, Structural)]
pub enum ConfigError {
    /// A length is over `MAX_LENGTH`, or the column count over `MAX_COLUMNS`.
    TooLarge,
    /// A row must hold at least one label.
    NoColumns,
    /// A cell has zero width or height.
    EmptyCell,
    /// A pitch is smaller than the cell, so neighbours would overlap.
    OverlappingCells,
    /// A full row does not fit between the left margin and the page's right edge.
    RowTooWide,
    /// Not even one row fits between the top and bottom margins.
    PageTooShort,
}

/// The first rule that a configuration with these values breaks, if any.
pub open spec fn config_fault(
    page_width: u64,
    page_height: u64,
    cell_width: u64,
    cell_height: u64,
    pitch_x: u64,
    pitch_y: u64,
    margin: u64,
    cols_per_row: u64,
) -> Option<ConfigError> {
    if page_width > MAX_LENGTH || page_height > MAX_LENGTH || cell_width > MAX_LENGTH
        || cell_height > MAX_LENGTH || pitch_x > MAX_LENGTH || pitch_y > MAX_LENGTH
        || margin > MAX_LENGTH || cols_per_row > MAX_COLUMNS {
        Some(ConfigError::TooLarge)
    } else if cols_per_row == 0 {
        Some(ConfigError::NoColumns)
    } else if cell_width == 0 || cell_height == 0 {
        Some(ConfigError::EmptyCell)
    } else if pitch_x < cell_width || pitch_y < cell_height {
        Some(ConfigError::OverlappingCells)
    } else if margin + (cols_per_row - 1) * pitch_x + cell_width > page_width {
        Some(ConfigError::RowTooWide)
    } else if 2 * margin + cell_height > page_height {
        Some(ConfigError::PageTooShort)
    } else {
        None
    }
}

/// One label on a page: the index of its bitmap in the document's label
/// list, and the lower left corner of its cell.
#[derive(Debug, Clone, Copy, PartialEq, Eq, Structural)]
pub struct Placement {
    pub label: usize,
    pub x: u64,
    pub y: u64,
}

/// One output page, its placements in reading order.
pub struct Page {
    pub placements: Vec<Placement>,
}

/// The laid out sheet: the label bitmaps, and the pages that place them.
pub struct Document {
    pub labels: Vec<Bitmap>,
    pub pages: Vec<Page>,
}

/// Pages needed for `n` labels, `per_page` to a page; no labels still take one blank page.
pub open spec fn page_count(n: int, per_page: int) -> int {
    if n == 0 {
        1
    } else {
        (n - 1) / per_page + 1
    }
}

/// Placements on page `p`: full pages first, the rest on the last.
pub open spec fn page_size(n: int, per_page: int, p: int) -> int {
    if n - p * per_page < per_page {
        n - p * per_page
    } else {
        per_page
    }
}

pub open spec fn label_order(placements: Seq<Placement>) -> Seq<usize> {
    placements.map_values(|pl: Placement| pl.label)
}

/// The label indices met when reading the pages in order, each in row-major order.
pub open spec fn reading_order(pages: Seq<Page>) -> Seq<usize>
    decreases pages.len(),
{
    if pages.len() == 0 {
        Seq::empty()
    } else {
        reading_order(pages.drop_last()) + label_order(pages.last().placements@)
    }
}

impl SheetConfig {
    pub open spec fn valid(&self) -> bool {
        config_fault(
            self.page_width,
            self.page_height,
            self.cell_width,
            self.cell_height,
            self.pitch_x,
            self.pitch_y,
            self.margin,
            self.cols_per_row,
        ) is None
    }

    /// The lower edge of the top row of cells.
    pub open spec fn top(&self) -> int {
        self.page_height - self.margin - self.cell_height
    }

    /// How many rows fit on a page: row `r` stands at `top - r * pitch_y`,
    /// which must not fall below the bottom margin.
    pub open spec fn rows_per_page(&self) -> int {
        (self.top() - self.margin) / (self.pitch_y as int) + 1
    }

    pub open spec fn per_page(&self) -> int {
        self.cols_per_row * self.rows_per_page()
    }

    /// Left edge of the `k`-th cell of a page, in row-major order.
    pub open spec fn slot_x(&self, k: int) -> int {
        self.margin + (k % (self.cols_per_row as int)) * self.pitch_x
    }

    /// Lower edge of the `k`-th cell of a page, in row-major order.
    pub open spec fn slot_y(&self, k: int) -> int {
        self.top() - (k / (self.cols_per_row as int)) * self.pitch_y
    }

    /// `pl` is the label with index `i` in the `k`-th cell of its page.
    pub open spec fn placed(&self, pl: Placement, i: int, k: int) -> bool {
        &&& pl.label as int == i
        &&& pl.x as int == self.slot_x(k)
        &&& pl.y as int == self.slot_y(k)
    }

    /// Checks the geometry before anything is laid out.
    pub fn new(
        page_width: u64,
        page_height: u64,
        cell_width: u64,
        cell_height: u64,
        pitch_x: u64,
        pitch_y: u64,
        margin: u64,
        cols_per_row: u64,
    ) -> (r: Result<SheetConfig, ConfigError>)
        ensures
            match r {
                Ok(c) => {
                    &&& config_fault(page_width, page_height, cell_width, cell_height, pitch_x, pitch_y, margin, cols_per_row) is None
                    &&& c.valid()
                    &&& c.page_width == page_width && c.page_height == page_height
                    &&& c.cell_width == cell_width && c.cell_height == cell_height
                    &&& c.pitch_x == pitch_x && c.pitch_y == pitch_y
                    &&& c.margin == margin && c.cols_per_row == cols_per_row
                },
                Err(e) => config_fault(page_width, page_height, cell_width, cell_height, pitch_x, pitch_y, margin, cols_per_row) == Some(e),
            },
    {
        if page_width > MAX_LENGTH || page_height > MAX_LENGTH || cell_width > MAX_LENGTH
            || cell_height > MAX_LENGTH || pitch_x > MAX_LENGTH || pitch_y > MAX_LENGTH
            || margin > MAX_LENGTH || cols_per_row > MAX_COLUMNS {
            return Err(ConfigError::TooLarge);
        }
        if cols_per_row == 0 {
            return Err(ConfigError::NoColumns);
        }
        if cell_width == 0 || cell_height == 0 {
            return Err(ConfigError::EmptyCell);
        }
        if pitch_x < cell_width || pitch_y < cell_height {
            return Err(ConfigError::OverlappingCells);
        }
        assert((cols_per_row - 1) * pitch_x <= MAX_COLUMNS * MAX_LENGTH) by (nonlinear_arith)
            requires
                cols_per_row <= MAX_COLUMNS,
                pitch_x <= MAX_LENGTH,
        ;
        if margin + (cols_per_row - 1) * pitch_x + cell_width > page_width {
            return Err(ConfigError::RowTooWide);
        }
        if 2 * margin + cell_height > page_height {
            return Err(ConfigError::PageTooShort);
        }
        Ok(
            SheetConfig {
                page_width,
                page_height,
                cell_width,
                cell_height,
                pitch_x,
                pitch_y,
                margin,
                cols_per_row,
            },
        )
    }
}

proof fn lemma_row_fits(cfg: &SheetConfig, r: int)
    requires
        cfg.valid(),
        r >= 0,
    ensures
        (cfg.top() - r * cfg.pitch_y >= cfg.margin) == (r < cfg.rows_per_page()),
        cfg.rows_per_page() >= 1,
        cfg.per_page() >= 1,
{
    let t = cfg.top() - cfg.margin;
    let d = cfg.pitch_y as int;
    lemma_fundamental_div_mod(t, d);
    assert((r * d <= t) == (r <= t / d)) by (nonlinear_arith)
        requires
            t == d * (t / d) + t % d,
            0 <= t % d < d,
            r >= 0,
    ;
    assert(cfg.per_page() >= 1) by (nonlinear_arith)
        requires
            cfg.cols_per_row >= 1,
            cfg.rows_per_page() >= 1,
            cfg.per_page() == cfg.cols_per_row * cfg.rows_per_page(),
    ;
}

proof fn lemma_last_page(n: int, pp: int, full: int, c: int)
    requires
        pp >= 1,
        full >= 0,
        1 <= c <= pp,
        n == full * pp + c,
    ensures
        page_count(n, pp) == full + 1,
        page_size(n, pp, full) == c,
        forall|p: int| 0 <= p < full ==> #[trigger] page_size(n, pp, p) == pp,
{
    lemma_fundamental_div_mod_converse(n - 1, pp, full, c - 1);
    assert forall|p: int| 0 <= p < full implies #[trigger] page_size(n, pp, p) == pp by {
        assert(n - p * pp >= pp) by (nonlinear_arith)
            requires
                n == full * pp + c,
                0 <= p < full,
                c >= 1,
                pp >= 1,
        ;
    }
}

/// `doc` places `n` labels on pages of `cfg`: full pages first, in reading
/// order, each label in the cell that its position on the page gives.
pub open spec fn laid_out(doc: &Document, n: int, cfg: &SheetConfig) -> bool {
    &&& doc.pages@.len() == page_count(n, cfg.per_page())
    &&& forall|p: int|
        0 <= p < doc.pages@.len() ==> #[trigger] doc.pages@[p].placements@.len() == page_size(
            n,
            cfg.per_page(),
            p,
        )
    &&& forall|p: int, k: int|
        0 <= p < doc.pages@.len() && 0 <= k < doc.pages@[p].placements@.len() ==> cfg.placed(
            #[trigger] doc.pages@[p].placements@[k],
            p * cfg.per_page() + k,
            k,
        )
    &&& reading_order(doc.pages@) == Seq::new(n as nat, |i: int| i as usize)
}

/// Lays the labels out row by row, left to right and top to bottom, starting
/// a new page whenever the next row would cross the bottom margin.
pub fn layout(labels: Vec<Bitmap>, cfg: &SheetConfig) -> (doc: Document)
    requires
        cfg.valid(),
    ensures
        doc.labels@ == labels@,
        laid_out(&doc, labels@.len() as int, cfg),
{
    let n = labels.len();
    let cols = cfg.cols_per_row;
    let top = cfg.page_height - cfg.margin - cfg.cell_height;
    let ghost pp = cfg.per_page();
    proof {
        lemma_row_fits(cfg, 0);
    }
    let mut pages: Vec<Page> = Vec::new();
    let mut cur: Vec<Placement> = Vec::new();
    let mut row: u64 = 0;
    let mut col: u64 = 0;
    let mut x: u64 = cfg.margin;
    let mut y: u64 = top;
    let mut i: usize = 0;
    while i < n
        invariant
            n == labels@.len(),
            cfg.valid(),
            cols == cfg.cols_per_row,
            top == cfg.top(),
            pp == cfg.per_page(),
            pp >= 1,
            i <= n,
            col <= cols,
            0 <= row < cfg.rows_per_page(),
            i > 0 ==> col >= 1,
            i == 0 ==> pages@.len() == 0 && cur@.len() == 0,
            cur@.len() == row * cols + col,
            x == cfg.margin + col * cfg.pitch_x,
            y == top - row * cfg.pitch_y,
            i == pages@.len() * pp + cur@.len(),
            forall|p: int| 0 <= p < pages@.len() ==> #[trigger] pages@[p].placements@.len() == pp,
            forall|p: int, k: int|
                0 <= p < pages@.len() && 0 <= k < pages@[p].placements@.len() ==> cfg.placed(
                    #[trigger] pages@[p].placements@[k],
                    p * pp + k,
                    k,
                ),
            forall|k: int|
                0 <= k < cur@.len() ==> cfg.placed(#[trigger] cur@[k], pages@.len() * pp + k, k),
            reading_order(pages@) + label_order(cur@) == Seq::new(i as nat, |j: int| j as usize),
        decreases n - i,
    {
        if col == cols {
            col = 0;
            x = cfg.margin;
            proof {
                lemma_row_fits(cfg, row + 1);
                assert((row + 1) * cols == row * cols + cols) by (nonlinear_arith);
                assert((row + 1) * cfg.pitch_y == row * cfg.pitch_y + cfg.pitch_y) by (nonlinear_arith);
            }
            if y >= cfg.margin + cfg.pitch_y {
                y = y - cfg.pitch_y;
                row = row + 1;
                assert(y == top - row * cfg.pitch_y) by (nonlinear_arith)
                    requires
                        y == top - (row - 1) * cfg.pitch_y - cfg.pitch_y,
                ;
            } else {
                let ghost old_pages = pages@;
                let ghost old_cur = cur@;
                assert(row + 1 == cfg.rows_per_page());
                assert(cur@.len() == pp) by (nonlinear_arith)
                    requires
                        cur@.len() == (row + 1) * cols,
                        pp == cols * cfg.rows_per_page(),
                        row + 1 == cfg.rows_per_page(),
                ;
                assert((pages@.len() + 1) * pp == pages@.len() * pp + pp) by (nonlinear_arith);
                pages.push(Page { placements: cur });
                cur = Vec::new();
                y = top;
                row = 0;
                assert(pages@.drop_last() =~= old_pages);
                assert(label_order(cur@) =~= Seq::<usize>::empty());
                assert(reading_order(pages@) == reading_order(old_pages) + label_order(old_cur));
                assert(reading_order(pages@) + label_order(cur@) =~= reading_order(pages@));
            }
        }
        let ghost k = cur@.len() as int;
        proof {
            lemma_fundamental_div_mod_converse(k, cols as int, row as int, col as int);
            lemma_row_fits(cfg, row as int);
            assert(col * cfg.pitch_x <= MAX_COLUMNS * MAX_LENGTH) by (nonlinear_arith)
                requires
                    col <= cols <= MAX_COLUMNS,
                    cfg.pitch_x <= MAX_LENGTH,
            ;
            assert((col + 1) * cfg.pitch_x == col * cfg.pitch_x + cfg.pitch_x) by (nonlinear_arith);
        }
        let ghost before = cur@;
        cur.push(Placement { label: i, x, y });
        assert(label_order(cur@) =~= label_order(before).push(i));
        x = x + cfg.pitch_x;
        col = col + 1;
        i = i + 1;
        assert(Seq::new(i as nat, |j: int| j as usize) =~= Seq::new((i - 1) as nat, |j: int| j as usize).push((i - 1) as usize));
    }
    let ghost full = pages@.len() as int;
    let ghost old_pages = pages@;
    let ghost last = cur@;
    proof {
        if n > 0 {
            assert(1 <= cur@.len() <= pp) by (nonlinear_arith)
                requires
                    cur@.len() == row * cols + col,
                    1 <= col <= cols,
                    0 <= row < cfg.rows_per_page(),
                    pp == cols * cfg.rows_per_page(),
            ;
            lemma_last_page(n as int, pp, full, cur@.len() as int);
        } else {
            assert(page_size(0, pp, 0) == 0);
        }
    }
    pages.push(Page { placements: cur });
    assert(pages@.drop_last() =~= old_pages);
    Document { labels, pages }
}

/// Laying out no labels gives one page with no placements on it.
pub proof fn lemma_empty_sheet(cfg: &SheetConfig)
    requires
        cfg.valid(),
    ensures
        page_count(0, cfg.per_page()) == 1,
        page_size(0, cfg.per_page(), 0) == 0,
{
    lemma_row_fits(cfg, 0);
}

/// With eight labels to a row, one label more than a page holds gives two
/// pages: the first full, the second with that one label.
pub proof fn lemma_one_past_a_page(cfg: &SheetConfig, n: int)
    requires
        cfg.valid(),
        cfg.cols_per_row == 8,
        n == 8 * cfg.rows_per_page() + 1,
    ensures
        page_count(n, cfg.per_page()) == 2,
        page_size(n, cfg.per_page(), 0) == 8 * cfg.rows_per_page(),
        page_size(n, cfg.per_page(), 1) == 1,
{
    lemma_row_fits(cfg, 0);
    lemma_last_page(n, cfg.per_page(), 1, 1);
}

/// Every cell of a page lies on the page, inside the margins.
pub proof fn lemma_slot_on_page(cfg: &SheetConfig, k: int)
    requires
        cfg.valid(),
        0 <= k < cfg.per_page(),
    ensures
        cfg.margin <= cfg.slot_x(k),
        cfg.slot_x(k) + cfg.cell_width <= cfg.page_width,
        cfg.margin <= cfg.slot_y(k),
        cfg.slot_y(k) + cfg.cell_height + cfg.margin <= cfg.page_height,
{
    let cols = cfg.cols_per_row as int;
    let c = k % cols;
    let r = k / cols;
    lemma_fundamental_div_mod(k, cols);
    lemma_row_fits(cfg, 0);
    assert(0 <= r < cfg.rows_per_page()) by (nonlinear_arith)
        requires
            k == cols * r + c,
            0 <= c < cols,
            0 <= k < cols * cfg.rows_per_page(),
    ;
    lemma_row_fits(cfg, r);
    assert(c * cfg.pitch_x <= (cols - 1) * cfg.pitch_x) by (nonlinear_arith)
        requires
            0 <= c < cols,
    ;
    assert(r * cfg.pitch_y >= 0) by (nonlinear_arith)
        requires
            r >= 0,
    ;
}

/// Two different cells of a page do not overlap: they are apart by a full
/// cell either across or up and down.
pub proof fn lemma_slots_disjoint(cfg: &SheetConfig, k1: int, k2: int)
    requires
        cfg.valid(),
        0 <= k1 < cfg.per_page(),
        0 <= k2 < cfg.per_page(),
        k1 != k2,
    ensures
        cfg.slot_x(k1) + cfg.cell_width <= cfg.slot_x(k2) || cfg.slot_x(k2) + cfg.cell_width
            <= cfg.slot_x(k1) || cfg.slot_y(k1) + cfg.cell_height <= cfg.slot_y(k2) || cfg.slot_y(
            k2,
        ) + cfg.cell_height <= cfg.slot_y(k1),
{
    let cols = cfg.cols_per_row as int;
    lemma_fundamental_div_mod(k1, cols);
    lemma_fundamental_div_mod(k2, cols);
    let c1 = k1 % cols;
    let c2 = k2 % cols;
    let r1 = k1 / cols;
    let r2 = k2 / cols;
    if c1 < c2 {
        assert(c1 * cfg.pitch_x + cfg.pitch_x <= c2 * cfg.pitch_x) by (nonlinear_arith)
            requires
                c1 + 1 <= c2,
        ;
    } else if c2 < c1 {
        assert(c2 * cfg.pitch_x + cfg.pitch_x <= c1 * cfg.pitch_x) by (nonlinear_arith)
            requires
                c2 + 1 <= c1,
        ;
    } else if r1 < r2 {
        assert(r1 * cfg.pitch_y + cfg.pitch_y <= r2 * cfg.pitch_y) by (nonlinear_arith)
            requires
                r1 + 1 <= r2,
        ;
    } else {
        assert(r2 < r1);
        assert(r2 * cfg.pitch_y + cfg.pitch_y <= r1 * cfg.pitch_y) by (nonlinear_arith)
            requires
                r2 + 1 <= r1,
        ;
    }
}

} // verus!
