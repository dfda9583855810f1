use vstd::prelude::*;

verus! {

/// The crop to use for `page`: its measured crop when cropping is enabled and the
/// crop is known, else `full` (the whole page).
pub fn crop_for_page<C: Copy>(crops: &Vec<Option<C>>, crop_enabled: bool, page: usize, full: C) -> (r: C)
    ensures
        r == (if crop_enabled && page < crops@.len() && crops@[page as int] is Some {
            crops@[page as int]->0
        } else {
            full
        }),
{
    if crop_enabled && page < crops.len() {
        match crops[page] {
            Some(crop) => crop,
            None => full,
        }
    } else {
        full
    }
}

/// One row of a page grid: pages `first_page .. first_page + count`, shown as
/// row `row_in_group` of page group `group`.
#[derive(Clone, Copy, Debug, PartialEq, Eq, Structural)]
pub struct GridRow {
    pub group: usize,
    pub row_in_group: usize,
    pub first_page: usize,
    pub count: usize,
}

/// Row `k` of a grid with `cols` columns and `rows` rows per group over
/// `page_count` pages.
pub open spec fn spec_grid_row(page_count: int, cols: int, rows: int, k: int) -> GridRow {
    let first = k * cols;
    let rest = page_count - first;
    GridRow {
        group: (k / rows) as usize,
        row_in_group: (k % rows) as usize,
        first_page: first as usize,
        count: (if rest < cols { rest } else { cols }) as usize,
    }
}

/// `n`, but at least 1.
pub open spec fn at_least_one(n: usize) -> int {
    if n == 0 { 1 } else { n as int }
}

/// The rows of a page grid: groups of `rows` rows of `cols` pages each (a zero
/// count counts as one), filled in reading order; a row is omitted once the pages
/// run out.
pub fn grid_rows(page_count: usize, cols: usize, rows: usize) -> (r: Vec<GridRow>)
    ensures
        r@.len() == (page_count + at_least_one(cols) - 1) / at_least_one(cols),
        forall|k: int| 0 <= k < r@.len() ==> #[trigger] r@[k] == spec_grid_row(
            page_count as int,
            at_least_one(cols),
            at_least_one(rows),
            k,
        ),
{
    let cw = if cols == 0 { 1 } else { cols };
    let rh = if rows == 0 { 1 } else { rows };
    let mut out: Vec<GridRow> = Vec::new();
    let mut first: usize = 0;
    let mut k: usize = 0;
    while first < page_count
        invariant
            cw >= 1,
            rh >= 1,
            cw as int == at_least_one(cols),
            rh as int == at_least_one(rows),
            first == k * cw,
            out@.len() == k,
            k <= (page_count + cw - 1) / (cw as int),
            forall|j: int| 0 <= j < k ==> #[trigger] out@[j] == spec_grid_row(page_count as int, cw as int, rh as int, j),
        decreases page_count - first + cw,
    {
        let rest = page_count - first;
        let count = if rest < cw { rest } else { cw };
        out.push(GridRow { group: k / rh, row_in_group: k % rh, first_page: first, count });
        proof {
            lemma_row_count_step(page_count as int, cw as int, k as int);
        }
        if rest <= cw {
            k = k + 1;
            proof {
                assert((k as int) * (cw as int) == (k - 1) * (cw as int) + cw) by (nonlinear_arith);
            }
            assert(k == (page_count + cw - 1) / (cw as int));
            return out;
        }
        first = first + cw;
        k = k + 1;
        proof {
            assert((k as int) * (cw as int) == (k - 1) * (cw as int) + cw) by (nonlinear_arith);
        }
    }
    proof {
        lemma_row_count_done(page_count as int, cw as int, k as int);
    }
    out
}

proof fn lemma_row_count_step(n: int, c: int, k: int)
    requires
        c >= 1,
        0 <= k,
        k * c < n,
    ensures
        k < (n + c - 1) / c,
        k + 1 <= n,
        n - k * c <= c ==> k + 1 == (n + c - 1) / c,
        n - k * c > c ==> k + 1 < (n + c - 1) / c,
{
    vstd::arithmetic::div_mod::lemma_fundamental_div_mod(n + c - 1, c);
    vstd::arithmetic::div_mod::lemma_mod_bound(n + c - 1, c);
    let q = (n + c - 1) / c;
    let m = (n + c - 1) % c;
    assert(n + c - 1 == c * q + m);
    assert(k < q) by (nonlinear_arith)
        requires n + c - 1 == c * q + m, 0 <= m < c, k * c < n, c >= 1;
    assert(k + 1 <= n) by (nonlinear_arith)
        requires k * c < n, c >= 1, k >= 0;
    if n - k * c <= c {
        assert(k + 1 >= q) by (nonlinear_arith)
            requires n + c - 1 == c * q + m, 0 <= m < c, n - k * c <= c, c >= 1;
    } else {
        assert(k + 1 < q) by (nonlinear_arith)
            requires n + c - 1 == c * q + m, 0 <= m < c, n - k * c > c, c >= 1;
    }
}

proof fn lemma_row_count_done(n: int, c: int, k: int)
    requires
        c >= 1,
        0 <= k,
        n >= 0,
        k * c >= n,
        k <= (n + c - 1) / c,
    ensures
        k == (n + c - 1) / c,
{
    vstd::arithmetic::div_mod::lemma_fundamental_div_mod(n + c - 1, c);
    vstd::arithmetic::div_mod::lemma_mod_bound(n + c - 1, c);
    let q = (n + c - 1) / c;
    let m = (n + c - 1) % c;
    assert(k >= q) by (nonlinear_arith)
        requires n + c - 1 == c * q + m, 0 <= m < c, k * c >= n, c >= 1;
}

/// The grid rows tile the document: the first row starts at page 0, each row
/// starts where the previous one ended, every row holds between 1 and `cols`
/// pages, and the last row ends at the last page.
pub proof fn lemma_grid_rows_tile_pages(page_count: int, cols: int, rows: int)
    requires
        1 <= page_count <= usize::MAX,
        cols >= 1,
        rows >= 1,
    ensures
        ({
            let n = (page_count + cols - 1) / cols;
            &&& n >= 1
            &&& spec_grid_row(page_count, cols, rows, 0).first_page == 0
            &&& forall|k: int| 1 <= k < n ==> (#[trigger] spec_grid_row(page_count, cols, rows, k)).first_page
                == spec_grid_row(page_count, cols, rows, k - 1).first_page + spec_grid_row(page_count, cols, rows, k - 1).count
            &&& forall|k: int| 0 <= k < n ==> 1 <= (#[trigger] spec_grid_row(page_count, cols, rows, k)).count <= cols
            &&& spec_grid_row(page_count, cols, rows, n - 1).first_page + spec_grid_row(page_count, cols, rows, n - 1).count
                == page_count
        }),
{
    let n = (page_count + cols - 1) / cols;
    lemma_row_count_step(page_count, cols, 0);
    assert forall|k: int| 0 <= k < n implies 1 <= (#[trigger] spec_grid_row(page_count, cols, rows, k)).count <= cols by {
        lemma_row_bounds(page_count, cols, k);
    }
    assert forall|k: int| 1 <= k < n implies (#[trigger] spec_grid_row(page_count, cols, rows, k)).first_page
        == spec_grid_row(page_count, cols, rows, k - 1).first_page + spec_grid_row(page_count, cols, rows, k - 1).count by {
        lemma_row_bounds(page_count, cols, k);
        lemma_row_bounds(page_count, cols, k - 1);
        assert(k * cols == (k - 1) * cols + cols) by (nonlinear_arith);
        assert(page_count - (k - 1) * cols > cols);
    }
    lemma_row_bounds(page_count, cols, n - 1);
    assert(page_count - (n - 1) * cols <= cols) by {
        vstd::arithmetic::div_mod::lemma_fundamental_div_mod(page_count + cols - 1, cols);
        vstd::arithmetic::div_mod::lemma_mod_bound(page_count + cols - 1, cols);
        let m = (page_count + cols - 1) % cols;
        assert(page_count - (n - 1) * cols <= cols) by (nonlinear_arith)
            requires page_count + cols - 1 == cols * n + m, 0 <= m < cols;
    }
}

proof fn lemma_row_bounds(n: int, c: int, k: int)
    requires
        n >= 1,
        c >= 1,
        0 <= k < (n + c - 1) / c,
    ensures
        0 <= k * c < n,
        k >= 1 ==> n - (k - 1) * c > c,
{
    vstd::arithmetic::div_mod::lemma_fundamental_div_mod(n + c - 1, c);
    vstd::arithmetic::div_mod::lemma_mod_bound(n + c - 1, c);
    let q = (n + c - 1) / c;
    let m = (n + c - 1) % c;
    assert(0 <= k * c < n) by (nonlinear_arith)
        requires n + c - 1 == c * q + m, 0 <= m < c, 0 <= k < q, c >= 1;
    if k >= 1 {
        assert(n - (k - 1) * c > c) by (nonlinear_arith)
            requires n + c - 1 == c * q + m, 0 <= m < c, 1 <= k < q, c >= 1;
    }
}

/// The first row whose pages include `page`.
pub fn row_for_page(row_pages: &Vec<Vec<usize>>, page: usize) -> (r: Option<usize>)
    ensures
        r is None <==> forall|k: int| 0 <= k < row_pages@.len() ==> !(#[trigger] row_pages@[k])@.contains(page),
        r matches Some(k) ==> k < row_pages@.len() && row_pages@[k as int]@.contains(page) && forall|j: int|
            0 <= j < k ==> !(#[trigger] row_pages@[j])@.contains(page),
{
    let mut k: usize = 0;
    while k < row_pages.len()
        invariant
            k <= row_pages@.len(),
            forall|j: int| 0 <= j < k ==> !(#[trigger] row_pages@[j])@.contains(page),
        decreases row_pages@.len() - k,
    {
        let row = &row_pages[k];
        let mut s: usize = 0;
        while s < row.len()
            invariant
                k < row_pages@.len(),
                *row == row_pages@[k as int],
                forall|j: int| 0 <= j < k ==> !(#[trigger] row_pages@[j])@.contains(page),
                s <= row@.len(),
                forall|t: int| 0 <= t < s ==> row@[t] != page,
            decreases row@.len() - s,
        {
            if row[s] == page {
                assert(row_pages@[k as int]@[s as int] == page);
                return Some(k);
            }
            s = s + 1;
        }
        assert(!row_pages@[k as int]@.contains(page));
        k = k + 1;
    }
    None
}

/// Where `page` is placed: the first (row, position) holding it, rows in order.
pub fn locate_page(row_pages: &Vec<Vec<usize>>, page: usize) -> (r: Option<(usize, usize)>)
    ensures
        r is None <==> forall|k: int| 0 <= k < row_pages@.len() ==> !(#[trigger] row_pages@[k])@.contains(page),
        r matches Some((k, s)) ==> {
            &&& k < row_pages@.len()
            &&& s < row_pages@[k as int]@.len()
            &&& row_pages@[k as int]@[s as int] == page
            &&& forall|j: int| 0 <= j < k ==> !(#[trigger] row_pages@[j])@.contains(page)
            &&& forall|t: int| 0 <= t < s ==> row_pages@[k as int]@[t] != page
        },
{
    let mut k: usize = 0;
    while k < row_pages.len()
        invariant
            k <= row_pages@.len(),
            forall|j: int| 0 <= j < k ==> !(#[trigger] row_pages@[j])@.contains(page),
        decreases row_pages@.len() - k,
    {
        let row = &row_pages[k];
        let mut s: usize = 0;
        while s < row.len()
            invariant
                k < row_pages@.len(),
                *row == row_pages@[k as int],
                forall|j: int| 0 <= j < k ==> !(#[trigger] row_pages@[j])@.contains(page),
                s <= row@.len(),
                forall|t: int| 0 <= t < s ==> row@[t] != page,
            decreases row@.len() - s,
        {
            if row[s] == page {
                assert(row_pages@[k as int]@[s as int] == page);
                return Some((k, s));
            }
            s = s + 1;
        }
        assert(!row_pages@[k as int]@.contains(page));
        k = k + 1;
    }
    None
}

} // verus!

verus! {

/// The column count of a fixed-row mode: the columns the window fits
/// (`window_cols`), but no more than the document fills with `rows` rows, and at
/// least one.  Zero page or row counts count as one.
pub open spec fn spec_fixed_row_columns(window_cols: usize, page_count: usize, rows: usize) -> int {
    let count = at_least_one(page_count);
    let r = at_least_one(rows);
    let needed = (count + r - 1) / r;
    let needed1 = if needed < 1 { 1 } else { needed };
    let c = if (window_cols as int) < needed1 { window_cols as int } else { needed1 };
    if c < 1 { 1 } else { c }
}

pub fn fixed_row_columns(window_cols: usize, page_count: usize, rows: usize) -> (r: usize)
    ensures
        r == spec_fixed_row_columns(window_cols, page_count, rows),
        r >= 1,
{
    let count = if page_count == 0 { 1 } else { page_count };
    let rr = if rows == 0 { 1 } else { rows };
    let q0 = count / rr;
    proof {
        vstd::arithmetic::div_mod::lemma_fundamental_div_mod(count as int, rr as int);
        vstd::arithmetic::div_mod::lemma_mod_bound(count as int, rr as int);
        if rr >= 2 {
            assert(q0 < count) by (nonlinear_arith)
                requires count == rr * q0 + count % rr, count % rr >= 0, rr >= 2, count >= 1, q0 >= 0;
        }
    }
    let needed = if count % rr != 0 { q0 + 1 } else { q0 };
    proof {
        vstd::arithmetic::div_mod::lemma_fundamental_div_mod(count as int, rr as int);
        vstd::arithmetic::div_mod::lemma_fundamental_div_mod((count + rr - 1) as int, rr as int);
        let q = count as int / rr as int;
        let m = count as int % rr as int;
        let q2 = (count + rr - 1) as int / rr as int;
        let m2 = (count + rr - 1) as int % rr as int;
        assert(0 <= m < rr && 0 <= m2 < rr);
        assert(q2 == q + if m != 0 { 1int } else { 0int }) by (nonlinear_arith)
            requires
                count == rr * q + m,
                count + rr - 1 == rr * q2 + m2,
                0 <= m < rr,
                0 <= m2 < rr,
                rr >= 1,
        {
            if m == 0 {
                assert(rr * q2 + m2 == rr * q + rr - 1);
                assert(rr * (q2 - q) == rr - 1 - m2);
                if q2 - q >= 1 { assert(rr * (q2 - q) >= rr); }
                if q2 - q <= -1 { assert(rr * (q2 - q) <= -rr); }
            } else {
                assert(rr * (q2 - q) == m + rr - 1 - m2);
                if q2 - q >= 2 { assert(rr * (q2 - q) >= 2 * rr); }
                if q2 - q <= 0 { assert(rr * (q2 - q) <= 0); }
            }
        }
    }
    let needed1 = if needed < 1 { 1 } else { needed };
    let c = if window_cols < needed1 { window_cols } else { needed1 };
    if c < 1 { 1 } else { c }
}

} // verus!

verus! {

/// A fixed-row mode uses no column it cannot fill: with `rows` rows, one column
/// fewer would not hold the whole document.  It uses as many columns as the
/// document needs, unless the window allows fewer.  The count never exceeds what
/// the window fits and is at least one.
pub proof fn lemma_fixed_row_columns_fill(window_cols: usize, page_count: usize, rows: usize)
    requires
        window_cols >= 1,
        page_count >= 1,
        rows >= 1,
    ensures
        1 <= spec_fixed_row_columns(window_cols, page_count, rows) <= window_cols,
        (spec_fixed_row_columns(window_cols, page_count, rows) - 1) * rows < page_count,
        spec_fixed_row_columns(window_cols, page_count, rows) == window_cols
            || spec_fixed_row_columns(window_cols, page_count, rows) * rows >= page_count,
{
    let r = rows as int;
    let n = page_count as int;
    let needed = (n + r - 1) / r;
    vstd::arithmetic::div_mod::lemma_fundamental_div_mod(n + r - 1, r);
    vstd::arithmetic::div_mod::lemma_mod_bound(n + r - 1, r);
    let m = (n + r - 1) % r;
    assert(n + r - 1 == r * needed + m);
    assert((needed - 1) * r < n && needed * r >= n && needed >= 1) by (nonlinear_arith)
        requires
            n + r - 1 == r * needed + m,
            0 <= m < r,
            n >= 1,
            r >= 1,
    {
        assert(r * needed == n + r - 1 - m);
        assert((needed - 1) * r == r * needed - r);
        if needed < 1 {
            assert(r * needed <= 0);
        }
    }
    let c = spec_fixed_row_columns(window_cols, page_count, rows);
    if (window_cols as int) < needed {
        assert(c == window_cols);
        assert((c - 1) * r <= (needed - 1) * r) by (nonlinear_arith)
            requires c <= needed, r >= 1;
    } else {
        assert(c == needed);
    }
}

} // verus!
