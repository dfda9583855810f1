use vstd::prelude::*;

verus! {

/// Minimum number of useful characters a page's embedded text must have before
/// OCR is considered unnecessary for that page.
pub const MIN_NATIVE_TEXT_CHARS: usize = 48;

/// Widest page bitmap the reader ever asks the renderer for.
pub const MAX_RENDER_WIDTH: u32 = 8192;

/// Narrowest page bitmap requested outside dense grids.
pub const MIN_RENDER_WIDTH: u32 = 96;

/// Byte budget of the decoded page-bitmap cache.
pub const BITMAP_CACHE_BUDGET: usize = 335544320;

/// How pages are arranged on screen.
#[derive(Clone, Copy, Debug, PartialEq, Eq, Structural)]
pub enum ViewMode {
    Manual,
    FitWidth,
    FitHeight,
    Spread,
    Rows2,
    Rows3,
    Rows4,
    Rows5,
    Rows7,
    Overview,
}

/// What the window and the document decide for the adaptive grids: the number of
/// columns the window fits for the current fixed-row mode, the grid the overview
/// chose, and the number of pages.  These come from floating-point geometry.
#[derive(Clone, Copy, Debug, Default, PartialEq, Eq, Structural)]
pub struct GridFit {
    pub row_mode_cols: usize,
    pub overview_cols: usize,
    pub overview_rows: usize,
    pub page_count: usize,
}

/// `n`, or 1 where `n` is 0.
pub open spec fn or_one(n: usize) -> usize {
    if n == 0 { 1 } else { n }
}

impl ViewMode {
    /// The fixed row count of modes `Rows2` to `Rows7`.
    pub open spec fn spec_requested_rows(self) -> Option<usize> {
        match self {
            ViewMode::Rows2 => Some(2usize),
            ViewMode::Rows3 => Some(3usize),
            ViewMode::Rows4 => Some(4usize),
            ViewMode::Rows5 => Some(5usize),
            ViewMode::Rows7 => Some(7usize),
            _ => None,
        }
    }

    /// Whether the mode lays out pages in a grid of page groups.
    pub open spec fn spec_is_grid(self) -> bool {
        self == ViewMode::Spread || self == ViewMode::Overview || self.spec_requested_rows() is Some
    }

    /// The (columns, rows) shape of a multi-page mode under `fit`; `None` for
    /// single-page modes.  A zero count is taken as one.
    pub open spec fn spec_grid(self, fit: GridFit) -> Option<(usize, usize)> {
        if self == ViewMode::Spread {
            Some((2usize, 1usize))
        } else if self == ViewMode::Overview {
            Some((or_one(fit.overview_cols), or_one(fit.overview_rows)))
        } else {
            match self.spec_requested_rows() {
                Some(rows) => Some((or_one(fit.row_mode_cols), rows)),
                None => None,
            }
        }
    }

    /// Number of pages in one navigation group: the whole document for the
    /// overview, the grid's cells for the other grids, one page otherwise.
    pub open spec fn spec_pages_per_view(self, fit: GridFit) -> nat {
        if self == ViewMode::Overview {
            or_one(fit.page_count) as nat
        } else {
            match self.spec_grid(fit) {
                Some((cols, rows)) => (cols * rows) as nat,
                None => 1,
            }
        }
    }

    /// Whether the group size fits a machine word.
    pub open spec fn fits(self, fit: GridFit) -> bool {
        self.spec_pages_per_view(fit) <= usize::MAX
    }

    /// First page of the page group that contains `page`.
    pub open spec fn spec_canonical_page(self, fit: GridFit, page: nat) -> nat {
        let step = self.spec_pages_per_view(fit);
        if step > 1 {
            (page / step) * step
        } else {
            page
        }
    }

    /// The fixed row count of modes `Rows2` to `Rows7`.
    pub fn requested_grid_rows(self) -> (r: Option<usize>)
        ensures
            r == self.spec_requested_rows(),
    {
        match self {
            ViewMode::Rows2 => Some(2),
            ViewMode::Rows3 => Some(3),
            ViewMode::Rows4 => Some(4),
            ViewMode::Rows5 => Some(5),
            ViewMode::Rows7 => Some(7),
            _ => None,
        }
    }

    pub fn grid_spec(self, fit: GridFit) -> (r: Option<(usize, usize)>)
        ensures
            r == self.spec_grid(fit),
    {
        match self {
            ViewMode::Spread => Some((2, 1)),
            ViewMode::Overview => Some((
                if fit.overview_cols == 0 { 1 } else { fit.overview_cols },
                if fit.overview_rows == 0 { 1 } else { fit.overview_rows },
            )),
            _ => match self.requested_grid_rows() {
                Some(rows) => Some((if fit.row_mode_cols == 0 { 1 } else { fit.row_mode_cols }, rows)),
                None => None,
            },
        }
    }

    /// Whether the mode lays out several pages per view.
    pub fn is_grid(self) -> (r: bool)
        ensures
            r == self.spec_is_grid(),
    {
        match self {
            ViewMode::Spread | ViewMode::Overview => true,
            _ => self.requested_grid_rows().is_some(),
        }
    }

    pub fn pages_per_view(self, fit: GridFit) -> (r: usize)
        requires
            self.fits(fit),
        ensures
            r == self.spec_pages_per_view(fit),
            r >= 1,
    {
        if let ViewMode::Overview = self {
            return if fit.page_count == 0 { 1 } else { fit.page_count };
        }
        match self.grid_spec(fit) {
            Some((cols, rows)) => {
                proof {
                    vstd::arithmetic::mul::lemma_mul_increases(rows as int, cols as int);
                    vstd::arithmetic::mul::lemma_mul_is_commutative(rows as int, cols as int);
                }
                cols * rows
            },
            None => 1,
        }
    }

    pub fn canonical_page(self, page: usize, fit: GridFit) -> (r: usize)
        requires
            self.fits(fit),
        ensures
            r == self.spec_canonical_page(fit, page as nat),
            r <= page,
            page - r < self.spec_pages_per_view(fit),
    {
        let step = self.pages_per_view(fit);
        if step > 1 {
            let q = page / step;
            proof {
                vstd::arithmetic::div_mod::lemma_fundamental_div_mod(page as int, step as int);
                vstd::arithmetic::div_mod::lemma_mod_bound(page as int, step as int);
                vstd::arithmetic::mul::lemma_mul_is_commutative(q as int, step as int);
            }
            q * step
        } else {
            page
        }
    }
}

/// Canonicalising a page twice gives the same group start: the group of a
/// group's first page is that group.
pub proof fn lemma_canonical_page_idempotent(mode: ViewMode, fit: GridFit, page: nat)
    ensures
        mode.spec_canonical_page(fit, mode.spec_canonical_page(fit, page)) == mode.spec_canonical_page(fit, page),
{
    let step = mode.spec_pages_per_view(fit);
    if step > 1 {
        vstd::arithmetic::div_mod::lemma_div_multiples_vanish((page / step) as int, step as int);
    }
}

/// The first page of a group is a whole number of groups into the document, at
/// most one group before the page, and never after it.
pub proof fn lemma_canonical_page_is_group_start(mode: ViewMode, fit: GridFit, page: nat)
    ensures
        mode.spec_canonical_page(fit, page) % mode.spec_pages_per_view(fit) == 0,
        mode.spec_canonical_page(fit, page) <= page < mode.spec_canonical_page(fit, page) + mode.spec_pages_per_view(
            fit,
        ),
{
    let step = mode.spec_pages_per_view(fit);
    match mode.spec_grid(fit) {
        Some((cols, rows)) => {
            if mode != ViewMode::Overview {
                vstd::arithmetic::mul::lemma_mul_increases(cols as int, rows as int);
            }
        },
        None => {},
    }
    assert(step >= 1);
    if step > 1 {
        vstd::arithmetic::div_mod::lemma_fundamental_div_mod(page as int, step as int);
        vstd::arithmetic::div_mod::lemma_mod_bound(page as int, step as int);
        vstd::arithmetic::div_mod::lemma_mod_multiples_basic((page / step) as int, step as int);
        vstd::arithmetic::mul::lemma_mul_is_commutative((page / step) as int, step as int);
    }
}

/// The documented grid shapes: Spread shows two pages side by side; modes `Rows2`
/// to `Rows7` keep 2, 3, 4, 5 and 7 rows with the columns the window fits; the
/// overview shows the whole document as one group in the grid it chose; the other
/// modes show single pages.
pub proof fn lemma_grid_shapes(fit: GridFit)
    requires
        fit.row_mode_cols >= 1,
        fit.overview_cols >= 1,
        fit.overview_rows >= 1,
        fit.page_count >= 1,
    ensures
        ViewMode::Spread.spec_grid(fit) == Some((2usize, 1usize)),
        ViewMode::Rows2.spec_grid(fit) == Some((fit.row_mode_cols, 2usize)),
        ViewMode::Rows3.spec_grid(fit) == Some((fit.row_mode_cols, 3usize)),
        ViewMode::Rows4.spec_grid(fit) == Some((fit.row_mode_cols, 4usize)),
        ViewMode::Rows5.spec_grid(fit) == Some((fit.row_mode_cols, 5usize)),
        ViewMode::Rows7.spec_grid(fit) == Some((fit.row_mode_cols, 7usize)),
        ViewMode::Overview.spec_grid(fit) == Some((fit.overview_cols, fit.overview_rows)),
        ViewMode::Overview.spec_pages_per_view(fit) == fit.page_count,
        ViewMode::Rows2.spec_pages_per_view(fit) == fit.row_mode_cols * 2,
        ViewMode::Rows3.spec_pages_per_view(fit) == fit.row_mode_cols * 3,
        ViewMode::Rows4.spec_pages_per_view(fit) == fit.row_mode_cols * 4,
        ViewMode::Rows5.spec_pages_per_view(fit) == fit.row_mode_cols * 5,
        ViewMode::Rows7.spec_pages_per_view(fit) == fit.row_mode_cols * 7,
        ViewMode::Spread.spec_pages_per_view(fit) == 2,
        ViewMode::Manual.spec_grid(fit) is None && ViewMode::Manual.spec_pages_per_view(fit) == 1,
        ViewMode::FitWidth.spec_grid(fit) is None && ViewMode::FitWidth.spec_pages_per_view(fit) == 1,
        ViewMode::FitHeight.spec_grid(fit) is None && ViewMode::FitHeight.spec_pages_per_view(fit) == 1,
{
}

/// A position in a page's glyph list.
#[derive(Clone, Copy, Debug, PartialEq, Eq, Structural)]
pub struct SelectionPoint {
    pub page: usize,
    pub glyph: usize,
}

/// One search match: the page it is on and a short excerpt around it.
#[derive(Clone, Debug)]
pub struct SearchHit {
    pub page: usize,
    pub snippet: String,
}

/// Where a PDF link leads.
#[derive(Clone, Debug)]
pub enum LinkTarget {
    Page(usize),
    Url(String),
}

} // verus!
