//! Gutter-based panel splitting.
//!
//! A page is split into panels at the white gutters between them:
//! 1. pixels darker than a threshold count as ink;
//! 2. the rows are profiled by how much ink each holds;
//! 3. runs of nearly empty rows long enough to be gutters are found, and runs
//!    separated by only a few inked rows are merged;
//! 4. the page is cut into horizontal strips at the gutters' midpoints;
//! 5. each strip is profiled by columns and cut the same way;
//! 6. cells smaller than a minimum size are dropped as noise.
use vstd::prelude::*;

verus! {

// ─── Pages and profiles ────────────────────────────────────────────

/// A grayscale page: `pixels[y * width + x]` is the luminance at `(x, y)`.
#[derive(Debug, Clone)]
pub struct GrayImage {
    pub width: u32,
    pub height: u32,
    pub pixels: Vec<u8>,
}

impl GrayImage {
    /// The pixel buffer holds exactly `width * height` pixels.
    pub open spec fn wf(&self) -> bool {
        self.pixels@.len() == self.width * self.height
    }
}

/// The number of zero ("ink") values in `s`.
pub open spec fn count_dark(s: Seq<u8>) -> nat
    decreases s.len(),
{
    if s.len() == 0 {
        0
    } else {
        count_dark(s.drop_last()) + if s.last() == 0 { 1nat } else { 0nat }
    }
}

/// The binary page of a grayscale page: ink (0) below `threshold`, white (255) otherwise.
pub open spec fn binary_pixels(pixels: Seq<u8>, threshold: u8) -> Seq<u8> {
    Seq::new(pixels.len(), |i: int| if pixels[i] < threshold { 0u8 } else { 255u8 })
}

/// Row `y` of a page `w` pixels wide.
pub open spec fn row_of(pixels: Seq<u8>, w: int, y: int) -> Seq<u8> {
    pixels.subrange(y * w, y * w + w)
}

/// Column `x` of rows `y0..y1` of a page `w` pixels wide.
pub open spec fn column_of(pixels: Seq<u8>, w: int, x: int, y0: int, y1: int) -> Seq<u8> {
    Seq::new((y1 - y0) as nat, |k: int| pixels[(y0 + k) * w + x])
}

/// The horizontal projection profile of a page: the ink count of each row.
pub open spec fn row_profile(pixels: Seq<u8>, w: int, h: int) -> Seq<u32> {
    Seq::new(h as nat, |y: int| count_dark(row_of(pixels, w, y)) as u32)
}

/// The vertical projection profile of rows `y0..y1`: the ink count of each column.
pub open spec fn column_profile(pixels: Seq<u8>, w: int, y0: int, y1: int) -> Seq<u32> {
    Seq::new(w as nat, |x: int| count_dark(column_of(pixels, w, x, y0, y1)) as u32)
}

proof fn lemma_count_dark_le(s: Seq<u8>)
    ensures
        count_dark(s) <= s.len(),
    decreases s.len(),
{
    if s.len() > 0 {
        lemma_count_dark_le(s.drop_last());
    }
}

proof fn lemma_count_dark_step(s: Seq<u8>, n: int)
    requires
        0 <= n < s.len(),
    ensures
        count_dark(s.take(n + 1)) == count_dark(s.take(n)) + if s[n] == 0 { 1nat } else { 0nat },
{
    assert(s.take(n + 1).drop_last() =~= s.take(n));
}

proof fn lemma_row_bound(w: int, h: int, y: int)
    requires
        0 <= w,
        0 <= y < h,
    ensures
        0 <= y * w,
        y * w + w <= w * h,
{
    assert(0 <= y * w) by (nonlinear_arith)
        requires
            0 <= y,
            0 <= w,
    ;
    assert(y * w + w <= w * h) by (nonlinear_arith)
        requires
            0 <= y < h,
            0 <= w,
    ;
}

proof fn lemma_index_bound(w: int, h: int, x: int, y: int)
    requires
        0 <= x < w,
        0 <= y < h,
    ensures
        0 <= y * w,
        y * w + x < w * h,
        y * w + w <= w * h,
{
    assert(0 <= y * w) by (nonlinear_arith)
        requires
            0 <= y,
            0 <= x < w,
    ;
    assert(y * w + w <= w * h) by (nonlinear_arith)
        requires
            0 <= y < h,
            0 <= x < w,
    ;
}

// ─── Gap detection ─────────────────────────────────────────────────

/// The last index of the run of values below `t` that contains index `i`.
pub open spec fn run_end(proj: Seq<u32>, t: u32, i: int) -> int
    decreases proj.len() - i,
{
    if 0 <= i && i + 1 < proj.len() && proj[i + 1] < t {
        run_end(proj, t, i + 1)
    } else {
        i
    }
}

/// The maximal runs of values below `t` that start at or after index `i` (where
/// `i` is not inside a run), those at least `min_gap` long, in order.
pub open spec fn runs_from(proj: Seq<u32>, t: u32, min_gap: usize, i: int) -> Seq<(usize, usize)>
    decreases proj.len() - i,
{
    if i < 0 || i >= proj.len() {
        Seq::empty()
    } else if proj[i] >= t {
        runs_from(proj, t, min_gap, i + 1)
    } else {
        let e = run_end(proj, t, i);
        proof {
            lemma_run_end_bounds(proj, t, i);
        }
        let rest = runs_from(proj, t, min_gap, e + 1);
        if e - i + 1 >= min_gap {
            seq![(i as usize, e as usize)] + rest
        } else {
            rest
        }
    }
}

/// Folds the runs from index `k` on into `cur`, which absorbs each run that starts
/// at most `cont` past its end.
pub open spec fn merge_from(runs: Seq<(usize, usize)>, cont: usize, cur: (usize, usize), k: int) -> Seq<(usize, usize)>
    decreases runs.len() - k,
{
    if k < 0 || k >= runs.len() {
        seq![cur]
    } else if runs[k].0 <= cur.1 + cont {
        merge_from(runs, cont, (cur.0, runs[k].1), k + 1)
    } else {
        seq![cur] + merge_from(runs, cont, runs[k], k + 1)
    }
}

/// Runs merged across islands of at most `cont` indices.
pub open spec fn merge_gaps(runs: Seq<(usize, usize)>, cont: usize) -> Seq<(usize, usize)> {
    if runs.len() == 0 {
        Seq::empty()
    } else {
        merge_from(runs, cont, runs[0], 1)
    }
}

/// The gutters of a projection profile: runs of values below `t` at least
/// `min_gap` long, merged across islands of at most `cont` indices.
pub open spec fn gutter_gaps(proj: Seq<u32>, t: u32, min_gap: usize, cont: usize) -> Seq<(usize, usize)> {
    merge_gaps(runs_from(proj, t, min_gap, 0), cont)
}

pub proof fn lemma_run_end_bounds(proj: Seq<u32>, t: u32, i: int)
    requires
        0 <= i < proj.len(),
    ensures
        i <= run_end(proj, t, i) < proj.len(),
        run_end(proj, t, i) + 1 == proj.len() || proj[run_end(proj, t, i) + 1] >= t,
        forall|j: int| i < j <= run_end(proj, t, i) ==> proj[j] < t,
    decreases proj.len() - i,
{
    if i + 1 < proj.len() && proj[i + 1] < t {
        lemma_run_end_bounds(proj, t, i + 1);
    }
}

/// Inside a run, every index has the same run end.
proof fn lemma_run_end_same(proj: Seq<u32>, t: u32, s: int, j: int)
    requires
        0 <= s <= j < proj.len(),
        forall|k: int| s < k <= j ==> proj[k] < t,
    ensures
        run_end(proj, t, s) == run_end(proj, t, j),
    decreases j - s,
{
    if s < j {
        lemma_run_end_same(proj, t, s + 1, j);
    }
}

// ─── Split points ──────────────────────────────────────────────────

/// The midpoint of a gap.
pub open spec fn gap_mid(g: (usize, usize)) -> int {
    (g.0 + g.1) / 2
}

/// The cut positions that the gaps define along a dimension of length `total`:
/// its start, its last index, and each gap midpoint strictly inside it.
pub open spec fn is_split_point(gaps: Seq<(usize, usize)>, total: usize, p: int) -> bool {
    ||| p == 0
    ||| (total > 0 && p == total - 1)
    ||| (exists|i: int| 0 <= i < gaps.len() && p == gap_mid(#[trigger] gaps[i]) && 0 < p < total)
}

/// Strictly increasing.
pub open spec fn strictly_increasing(s: Seq<usize>) -> bool {
    forall|i: int, j: int| 0 <= i < j < s.len() ==> s[i] < s[j]
}

/// The split points of a dimension, in increasing order.
pub open spec fn sorted_splits(gaps: Seq<(usize, usize)>, total: usize) -> Seq<usize> {
    choose|s: Seq<usize>| strictly_increasing(s) && (forall|p: usize| s.contains(p) <==> is_split_point(gaps, total, p as int))
}

/// Two strictly increasing sequences with the same elements are equal.
proof fn lemma_sorted_unique(s: Seq<usize>, t: Seq<usize>)
    requires
        strictly_increasing(s),
        strictly_increasing(t),
        forall|p: usize| s.contains(p) <==> t.contains(p),
    ensures
        s == t,
    decreases s.len(),
{
    if s.len() == 0 {
        if t.len() > 0 {
            assert(t.contains(t[0]));
        }
        assert(s =~= t);
    } else {
        assert(s.contains(s[0]));
        assert(t.len() > 0);
        assert(t.contains(t[0]));
        let i = choose|i: int| 0 <= i < s.len() && s[i] == t[0];
        let j = choose|j: int| 0 <= j < t.len() && t[j] == s[0];
        if i > 0 {
            assert(s[0] < s[i]);
        }
        if j > 0 {
            assert(t[0] < t[j]);
        }
        assert(s[0] == t[0]);
        let s1 = s.drop_first();
        let t1 = t.drop_first();
        assert forall|p: usize| s1.contains(p) <==> t1.contains(p) by {
            if s1.contains(p) {
                let k = choose|k: int| 0 <= k < s1.len() && s1[k] == p;
                assert(s[k + 1] == p && s[0] < p);
                assert(s.contains(p));
                let m = choose|m: int| 0 <= m < t.len() && t[m] == p;
                assert(m != 0);
                assert(t1[m - 1] == p);
            }
            if t1.contains(p) {
                let k = choose|k: int| 0 <= k < t1.len() && t1[k] == p;
                assert(t[k + 1] == p && t[0] < p);
                assert(t.contains(p));
                let m = choose|m: int| 0 <= m < s.len() && s[m] == p;
                assert(m != 0);
                assert(s1[m - 1] == p);
            }
        }
        lemma_sorted_unique(s1, t1);
        assert(s =~= seq![s[0]] + s1);
        assert(t =~= seq![t[0]] + t1);
    }
}

/// Inserts `x` into a strictly increasing vector, unless it is already there.
fn insert_sorted_unique(v: &mut Vec<usize>, x: usize)
    requires
        strictly_increasing(old(v)@),
    ensures
        strictly_increasing(final(v)@),
        forall|p: usize| final(v)@.contains(p) <==> (old(v)@.contains(p) || p == x),
{
    let mut i: usize = 0;
    while i < v.len() && v[i] < x
        invariant
            i <= v.len(),
            forall|j: int| 0 <= j < i ==> v@[j] < x,
        decreases v.len() - i,
    {
        i = i + 1;
    }
    if i < v.len() && v[i] == x {
        assert(v@.contains(x)) by {
            assert(v@[i as int] == x);
        }
        return;
    }
    let ghost before = v@;
    v.insert(i, x);
    proof {
        before.insert_ensures(i as int, x);
    }
    assert forall|p: usize| v@.contains(p) <==> (before.contains(p) || p == x) by {
        if v@.contains(p) {
            let k = choose|k: int| 0 <= k < v@.len() && v@[k] == p;
            if k < i {
                assert(before[k] == p);
            } else if k > i {
                assert(before[k - 1] == p);
            }
        }
        if before.contains(p) {
            let k = choose|k: int| 0 <= k < before.len() && before[k] == p;
            if k < i {
                assert(v@[k] == p);
            } else {
                assert(v@[k + 1] == p);
            }
        }
        if p == x {
            assert(v@[i as int] == x);
        }
    }
}

// ─── Panels ────────────────────────────────────────────────────────

/// A detected panel region of a page, in pixels.
#[derive(Debug, Clone, Copy, PartialEq, Eq, Structural)]
pub struct PanelRect {
    /// Position of this panel in reading order on the page.
    pub id: usize,
    /// X coordinate of the top-left corner.
    pub x: u32,
    /// Y coordinate of the top-left corner.
    pub y: u32,
    /// Width of the panel.
    pub width: u32,
    /// Height of the panel.
    pub height: u32,
}

impl PanelRect {
    /// Whether the panel lies within a page of `page_width` by `page_height`
    /// pixels, so that it can be cut out of it.
    pub fn fits_page(&self, page_width: u32, page_height: u32) -> (r: bool)
        ensures
            r == (self.x + self.width <= page_width && self.y + self.height <= page_height),
    {
        (self.x as u64) + (self.width as u64) <= page_width as u64
            && (self.y as u64) + (self.height as u64) <= page_height as u64
    }
}

/// The cells `(x, y, width, height)` of one horizontal band `[y0, y1]` cut at the
/// vertical splits `v[j..]`, keeping those at least `min_w` by `min_h`.
pub open spec fn band_cells(y0: usize, y1: usize, v: Seq<usize>, j: int, min_w: u32, min_h: u32) -> Seq<(u32, u32, u32, u32)>
    decreases v.len() - j,
{
    if j < 0 || j + 1 >= v.len() {
        Seq::empty()
    } else {
        let x0 = v[j] as u32;
        let x1 = v[j + 1] as u32;
        let w = if x1 >= x0 { (x1 - x0) as u32 } else { 0u32 };
        let h = if (y1 as u32) >= (y0 as u32) { ((y1 as u32) - (y0 as u32)) as u32 } else { 0u32 };
        let rest = band_cells(y0, y1, v, j + 1, min_w, min_h);
        if w >= min_w && h >= min_h {
            seq![(x0, y0 as u32, w, h)] + rest
        } else {
            rest
        }
    }
}

/// The cells of the grid that the horizontal splits `h[i..]` and vertical splits `v`
/// define, row by row, keeping those at least `min_w` by `min_h`.
pub open spec fn grid_cells(h: Seq<usize>, i: int, v: Seq<usize>, min_w: u32, min_h: u32) -> Seq<(u32, u32, u32, u32)>
    decreases h.len() - i,
{
    if i < 0 || i + 1 >= h.len() {
        Seq::empty()
    } else {
        band_cells(h[i], h[i + 1], v, 0, min_w, min_h) + grid_cells(h, i + 1, v, min_w, min_h)
    }
}

/// Panel `p` comes before panel `q` in reading order: it is in a higher strip, or in
/// the same strip and wholly to the left of `q`.
pub open spec fn reads_before(p: PanelRect, q: PanelRect) -> bool {
    p.y < q.y || (p.y == q.y && p.x + p.width <= q.x)
}

/// The cells of a band cut at increasing positions all start at the band's top and
/// follow one another left to right without overlapping.
proof fn lemma_band_cells_ordered(y0: usize, y1: usize, v: Seq<usize>, j: int, min_w: u32, min_h: u32, w: u32)
    requires
        strictly_increasing(v),
        forall|k: int| 0 <= k < v.len() ==> v[k] <= w,
        0 <= j,
    ensures
        forall|k: int| 0 <= k < band_cells(y0, y1, v, j, min_w, min_h).len()
            ==> (#[trigger] band_cells(y0, y1, v, j, min_w, min_h)[k]).1 == y0 as u32
                && band_cells(y0, y1, v, j, min_w, min_h)[k].0 >= v[j],
        forall|k: int, l: int| 0 <= k < l < band_cells(y0, y1, v, j, min_w, min_h).len()
            ==> (#[trigger] band_cells(y0, y1, v, j, min_w, min_h)[k]).0 + band_cells(y0, y1, v, j, min_w, min_h)[k].2
                <= (#[trigger] band_cells(y0, y1, v, j, min_w, min_h)[l]).0,
    decreases v.len() - j,
{
    if j + 1 < v.len() {
        lemma_band_cells_ordered(y0, y1, v, j + 1, min_w, min_h, w);
        let c = band_cells(y0, y1, v, j, min_w, min_h);
        let rest = band_cells(y0, y1, v, j + 1, min_w, min_h);
        assert(v[j] < v[j + 1]);
        let x0 = v[j] as u32;
        let x1 = v[j + 1] as u32;
        if c.len() > rest.len() {
            assert(c == seq![(x0, y0 as u32, (x1 - x0) as u32, if (y1 as u32) >= (y0 as u32) { ((y1 as u32) - (y0 as u32)) as u32 } else { 0u32 })] + rest);
            assert forall|k: int| 0 <= k < c.len() implies (#[trigger] c[k]).1 == y0 as u32 && c[k].0 >= v[j] by {
                if k > 0 {
                    assert(c[k] == rest[k - 1]);
                }
            }
            assert forall|k: int, l: int| 0 <= k < l < c.len() implies (#[trigger] c[k]).0 + c[k].2 <= (#[trigger] c[l]).0 by {
                assert(c[l] == rest[l - 1]);
                if k > 0 {
                    assert(c[k] == rest[k - 1]);
                }
            }
        } else {
            assert(c == rest);
        }
    }
}

/// A cell `(x, y, width, height)` lies within a page `w` by `h` and is at least
/// `min_w` by `min_h`.
pub open spec fn cell_within(c: (u32, u32, u32, u32), w: u32, h: u32, min_w: u32, min_h: u32) -> bool {
    &&& c.0 + c.2 <= w
    &&& c.1 + c.3 <= h
    &&& c.2 >= min_w
    &&& c.3 >= min_h
}

/// A panel lies within a page `w` by `h` and is at least `min_w` by `min_h`.
pub open spec fn panel_within(p: PanelRect, w: u32, h: u32, min_w: u32, min_h: u32) -> bool {
    cell_within((p.x, p.y, p.width, p.height), w, h, min_w, min_h)
}

/// The cells of a band whose cut positions lie within the page lie within it.
proof fn lemma_band_cells_within(y0: usize, y1: usize, v: Seq<usize>, j: int, min_w: u32, min_h: u32, w: u32, h: u32)
    requires
        forall|k: int| 0 <= k < v.len() ==> v[k] <= w,
        y0 <= h,
        y1 <= h,
    ensures
        forall|k: int| 0 <= k < band_cells(y0, y1, v, j, min_w, min_h).len()
            ==> cell_within(#[trigger] band_cells(y0, y1, v, j, min_w, min_h)[k], w, h, min_w, min_h),
    decreases v.len() - j,
{
    if j < 0 || j + 1 >= v.len() {
    } else {
        lemma_band_cells_within(y0, y1, v, j + 1, min_w, min_h, w, h);
        let rest = band_cells(y0, y1, v, j + 1, min_w, min_h);
        let cells = band_cells(y0, y1, v, j, min_w, min_h);
        assert forall|k: int| 0 <= k < cells.len() implies cell_within(#[trigger] cells[k], w, h, min_w, min_h) by {
            let x0 = v[j] as u32;
            let x1 = v[j + 1] as u32;
            let cw = if x1 >= x0 { (x1 - x0) as u32 } else { 0u32 };
            let ch = if (y1 as u32) >= (y0 as u32) { ((y1 as u32) - (y0 as u32)) as u32 } else { 0u32 };
            if cw >= min_w && ch >= min_h {
                if k > 0 {
                    assert(cells[k] == rest[k - 1]);
                }
            } else {
                assert(cells[k] == rest[k]);
            }
        }
    }
}

/// `panels` are the cells `cells` numbered from `first_id` in order.
pub open spec fn numbered_from(panels: Seq<PanelRect>, cells: Seq<(u32, u32, u32, u32)>, first_id: int) -> bool {
    &&& panels.len() == cells.len()
    &&& forall|k: int| 0 <= k < panels.len() ==> {
        let c = #[trigger] cells[k];
        panels[k] == PanelRect { id: (first_id + k) as usize, x: c.0, y: c.1, width: c.2, height: c.3 }
    }
}

/// The smaller of two values.
pub open spec fn min_u32(a: u32, b: u32) -> u32 {
    if a <= b { a } else { b }
}

/// The larger of a gap length and 1.
pub open spec fn at_least_one(n: usize) -> usize {
    if n >= 1 { n } else { 1 }
}

/// The panel cells of horizontal strip `i` (between splits `hs[i]` and `hs[i + 1]`) of a
/// binary page `w` by `h`: empty when the strip is empty or lower than `min_ph`;
/// otherwise the strip's columns are profiled, its vertical gutters (columns with
/// less than 5% ink) found and the strip cut at their midpoints.
pub open spec fn strip_cells(
    bin: Seq<u8>,
    w: u32,
    h: u32,
    hs: Seq<usize>,
    i: int,
    cont: usize,
    min_v_gap: usize,
    min_pw: u32,
    min_ph: u32,
) -> Seq<(u32, u32, u32, u32)> {
    let y_start = hs[i] as u32;
    let y_end = min_u32(hs[i + 1] as u32, h);
    if y_end <= y_start || y_end - y_start < min_ph {
        Seq::empty()
    } else {
        let strip_height = (y_end - y_start) as u32;
        let v_proj = column_profile(bin, w as int, y_start as int, y_end as int);
        let v_gaps = gutter_gaps(v_proj, strip_height / 20, at_least_one(min_v_gap), cont);
        let v_splits = sorted_splits(v_gaps, w as usize);
        band_cells(hs[i], hs[i + 1], v_splits, 0, min_pw, min_ph)
    }
}

/// The cells of strips `i..` of a page, in order.
pub open spec fn strips_cells(
    bin: Seq<u8>,
    w: u32,
    h: u32,
    hs: Seq<usize>,
    i: int,
    cont: usize,
    min_v_gap: usize,
    min_pw: u32,
    min_ph: u32,
) -> Seq<(u32, u32, u32, u32)>
    decreases hs.len() - i,
{
    if i < 0 || i + 1 >= hs.len() {
        Seq::empty()
    } else {
        strip_cells(bin, w, h, hs, i, cont, min_v_gap, min_pw, min_ph) + strips_cells(bin, w, h, hs, i + 1, cont, min_v_gap, min_pw, min_ph)
    }
}

/// The horizontal split points of a page: the midpoints of its horizontal gutters
/// (rows with less than 5% ink, runs at least `min_h_gap` rows long).
pub open spec fn page_row_splits(bin: Seq<u8>, w: u32, h: u32, cont: usize, min_h_gap: usize) -> Seq<usize> {
    let h_proj = row_profile(bin, w as int, h as int);
    let h_gaps = gutter_gaps(h_proj, w / 20, at_least_one(min_h_gap), cont);
    sorted_splits(h_gaps, h as usize)
}

/// The panel cells the gutter detector finds on a grayscale page `w` by `h`, in reading order.
pub open spec fn page_cells(
    pixels: Seq<u8>,
    w: u32,
    h: u32,
    threshold: u8,
    cont: usize,
    min_h_gap: usize,
    min_v_gap: usize,
    min_pw: u32,
    min_ph: u32,
) -> Seq<(u32, u32, u32, u32)> {
    let bin = binary_pixels(pixels, threshold);
    strips_cells(bin, w, h, page_row_splits(bin, w, h, cont, min_h_gap), 0, cont, min_v_gap, min_pw, min_ph)
}

/// The gutter-based panel detector: the integer part of its configuration.
#[derive(Debug, Clone, Copy)]
pub struct GutterDetector {
    /// Binary threshold (0–255). Pixels darker than this are considered "ink".
    pub threshold: u8,
    /// Maximum number of inked indices between two gutters that still merge them.
    pub gutter_continuity_gap: u32,
}

/// The rows `y0..y0 + rows` of a page.
pub fn crop_rows(img: &GrayImage, y0: u32, rows: u32) -> (strip: GrayImage)
    requires
        img.wf(),
        y0 + rows <= img.height,
    ensures
        strip.wf(),
        strip.width == img.width,
        strip.height == rows,
        strip.pixels@ == img.pixels@.subrange(y0 * img.width, (y0 + rows) * img.width),
{
    let w = img.width as usize;
    proof {
        let ww = img.width as int;
        let hh = img.height as int;
        let a = y0 as int;
        let r = rows as int;
        assert((a + r) * ww <= ww * hh) by (nonlinear_arith)
            requires a + r <= hh, 0 <= ww, 0 <= a, 0 <= r;
        assert(a * ww <= (a + r) * ww) by (nonlinear_arith)
            requires 0 <= r, 0 <= ww;
        assert((a + r) * ww - a * ww == r * ww) by (nonlinear_arith);
        assert(0 <= a * ww) by (nonlinear_arith) requires 0 <= a, 0 <= ww;
        assert(img.pixels@.len() == img.pixels.len());
    }
    let start = y0 as usize * w;
    let end = (y0 as usize + rows as usize) * w;
    let mut pixels: Vec<u8> = Vec::new();
    let mut i = start;
    while i < end
        invariant
            start <= i <= end <= img.pixels@.len(),
            pixels@ == img.pixels@.subrange(start as int, i as int),
        decreases end - i,
    {
        pixels.push(img.pixels[i]);
        assert(pixels@ =~= img.pixels@.subrange(start as int, i + 1));
        i = i + 1;
    }
    assert(pixels@.len() == rows * img.width);
    assert((rows as int) * (img.width as int) == (img.width as int) * (rows as int)) by (nonlinear_arith);
    GrayImage { width: img.width, height: rows, pixels }
}

/// The columns of a strip of rows are the columns of those rows of the page.
proof fn lemma_column_of_strip(pixels: Seq<u8>, w: int, h: int, y0: int, rows: int, x: int)
    requires
        0 <= x < w,
        0 <= y0,
        0 <= rows,
        y0 + rows <= h,
        pixels.len() == w * h,
    ensures
        column_of(pixels.subrange(y0 * w, (y0 + rows) * w), w, x, 0, rows) == column_of(pixels, w, x, y0, y0 + rows),
{
    let strip = pixels.subrange(y0 * w, (y0 + rows) * w);
    assert forall|k: int| 0 <= k < rows implies #[trigger] column_of(strip, w, x, 0, rows)[k] == column_of(pixels, w, x, y0, y0 + rows)[k] by {
        assert(y0 * w + (0 + k) * w + x == (y0 + k) * w + x) by (nonlinear_arith);
        assert(0 <= k * w) by (nonlinear_arith) requires 0 <= k, 0 <= x < w;
        assert(k * w + x < rows * w) by (nonlinear_arith) requires 0 <= k < rows, 0 <= x < w;
        assert((y0 + rows) * w - y0 * w == rows * w) by (nonlinear_arith);
        assert(0 <= y0 * w) by (nonlinear_arith) requires 0 <= y0, 0 <= x < w;
        assert((y0 + rows) * w <= w * h) by (nonlinear_arith) requires y0 + rows <= h, 0 <= x < w;
    }
    assert(column_of(strip, w, x, 0, rows) =~= column_of(pixels, w, x, y0, y0 + rows));
}

impl GutterDetector {
    /// Detect the panels of a grayscale page. The fractional settings of the
    /// detector arrive already scaled to the page: `min_h_gap` and `min_v_gap` are the
    /// shortest horizontal and vertical gutters, `min_panel_w` and `min_panel_h` the
    /// smallest panel; a gutter row or column holds less than 5% ink. Panels are
    /// numbered from 0 in reading order.
    pub fn detect_layout(&self, page: &GrayImage, min_h_gap: usize, min_v_gap: usize, min_panel_w: u32, min_panel_h: u32) -> (panels: Vec<PanelRect>)
        requires
            page.wf(),
        ensures
            numbered_from(
                panels@,
                page_cells(page.pixels@, page.width, page.height, self.threshold, self.gutter_continuity_gap as usize,
                    min_h_gap, min_v_gap, min_panel_w, min_panel_h),
                0,
            ),
            forall|k: int| 0 <= k < panels@.len()
                ==> panel_within(#[trigger] panels@[k], page.width, page.height, min_panel_w, min_panel_h),
            forall|k: int, l: int| 0 <= k < l < panels@.len() ==> reads_before(#[trigger] panels@[k], #[trigger] panels@[l]),
    {
        let page_width = page.width;
        let page_height = page.height;
        let con_gap = self.gutter_continuity_gap as usize;
        let binary = Self::threshold_image(page, self.threshold);
        let ghost bin = binary.pixels@;
        let h_proj = Self::horizontal_projection(&binary);
        let h_gutter_threshold = page_width / 20;
        let min_h = if min_h_gap >= 1 { min_h_gap } else { 1 };
        let h_gaps = Self::detect_gaps(h_proj.as_slice(), h_gutter_threshold, min_h, con_gap);
        let h_splits = Self::midpoints(h_gaps.as_slice(), page_height as usize);
        assert forall|k: int| 0 <= k < h_splits@.len() implies h_splits@[k] <= page_height by {
            assert(h_splits@.contains(h_splits@[k]));
        }
        let ghost hs = h_splits@;
        let ghost all = strips_cells(bin, page_width, page_height, hs, 0, con_gap, min_v_gap, min_panel_w, min_panel_h);
        assert(h_splits@.contains(0));
        let min_v = if min_v_gap >= 1 { min_v_gap } else { 1 };
        let mut all_panels: Vec<PanelRect> = Vec::new();
        let mut i: usize = 0;
        while i < h_splits.len() - 1
            invariant
                binary.wf(),
                binary.pixels@ == bin,
                binary.width == page_width,
                binary.height == page_height,
                h_splits@ == hs,
                hs.len() >= 1,
                strictly_increasing(hs),
                min_v == at_least_one(min_v_gap),
                i <= hs.len() - 1,
                all == strips_cells(bin, page_width, page_height, hs, 0, con_gap, min_v_gap, min_panel_w, min_panel_h),
                all.len() == all_panels.len() + strips_cells(bin, page_width, page_height, hs, i as int, con_gap, min_v_gap, min_panel_w, min_panel_h).len(),
                all.skip(all_panels.len() as int) == strips_cells(bin, page_width, page_height, hs, i as int, con_gap, min_v_gap, min_panel_w, min_panel_h),
                numbered_from(all_panels@, all.take(all_panels.len() as int), 0),
                forall|k: int| 0 <= k < hs.len() ==> hs[k] <= page_height,
                forall|k: int| 0 <= k < all_panels@.len()
                    ==> panel_within(#[trigger] all_panels@[k], page_width, page_height, min_panel_w, min_panel_h),
                forall|k: int, l: int| 0 <= k < l < all_panels@.len()
                    ==> reads_before(#[trigger] all_panels@[k], #[trigger] all_panels@[l]),
                forall|k: int| 0 <= k < all_panels@.len() ==> (#[trigger] all_panels@[k]).y < hs[i as int],
            decreases hs.len() - i,
        {
            let ghost cells = strip_cells(bin, page_width, page_height, hs, i as int, con_gap, min_v_gap, min_panel_w, min_panel_h);
            let ghost rest = strips_cells(bin, page_width, page_height, hs, i + 1, con_gap, min_v_gap, min_panel_w, min_panel_h);
            assert(strips_cells(bin, page_width, page_height, hs, i as int, con_gap, min_v_gap, min_panel_w, min_panel_h) == cells + rest);
            let y_start = #[verifier::truncate] (h_splits[i] as u32);
            let y_next = #[verifier::truncate] (h_splits[i + 1] as u32);
            let y_end = if y_next <= page_height { y_next } else { page_height };
            if y_end <= y_start || y_end - y_start < min_panel_h {
                assert(cells =~= Seq::<(u32, u32, u32, u32)>::empty());
                assert(all.skip(all_panels.len() as int) =~= rest) by {
                    assert(cells + rest =~= rest);
                }
                i = i + 1;
                continue;
            }
            let strip_height = y_end - y_start;
            let strip = crop_rows(&binary, y_start, strip_height);
            let v_proj = Self::vertical_projection(&strip);
            proof {
                assert forall|x: int| 0 <= x < page_width implies
                    column_of(strip.pixels@, page_width as int, x, 0, strip_height as int)
                        == #[trigger] column_of(bin, page_width as int, x, y_start as int, y_end as int) by {
                    lemma_column_of_strip(bin, page_width as int, page_height as int, y_start as int, strip_height as int, x);
                }
                assert(v_proj@ =~= column_profile(bin, page_width as int, y_start as int, y_end as int));
            }
            let v_gutter_threshold = strip_height / 20;
            let v_gaps = Self::detect_gaps(v_proj.as_slice(), v_gutter_threshold, min_v, con_gap);
            let v_splits = Self::midpoints(v_gaps.as_slice(), page_width as usize);
            assert(v_splits@.contains(0));
            let pair = [h_splits[i], h_splits[i + 1]];
            let panels = Self::extract_panels(&pair, v_splits.as_slice(), min_panel_w, min_panel_h);
            proof {
                assert forall|k: int| 0 <= k < v_splits@.len() implies v_splits@[k] <= page_width by {
                    assert(v_splits@.contains(v_splits@[k]));
                }
                lemma_band_cells_within(hs[i as int], hs[i + 1], v_splits@, 0, min_panel_w, min_panel_h, page_width, page_height);
                assert(pair@ =~= seq![hs[i as int], hs[i + 1]]);
                assert(grid_cells(pair@, 1, v_splits@, min_panel_w, min_panel_h) =~= Seq::<(u32, u32, u32, u32)>::empty());
                assert(grid_cells(pair@, 0, v_splits@, min_panel_w, min_panel_h) =~= cells);
                assert(cells =~= band_cells(hs[i as int], hs[i + 1], v_splits@, 0, min_panel_w, min_panel_h));
                lemma_band_cells_ordered(hs[i as int], hs[i + 1], v_splits@, 0, min_panel_w, min_panel_h, page_width);
                assert(hs[i as int] < hs[i + 1]);
            }
            let ghost before = all_panels@;
            let mut j: usize = 0;
            while j < panels.len()
                invariant
                    numbered_from(panels@, cells, 0),
                    j <= panels.len(),
                    all_panels@.len() == before.len() + j,
                    numbered_from(all_panels@, all.take(all_panels.len() as int), 0),
                    all.skip(before.len() as int) == cells + rest,
                    all.len() == before.len() + cells.len() + rest.len(),
                    forall|k: int| 0 <= k < cells.len() ==> cell_within(#[trigger] cells[k], page_width, page_height, min_panel_w, min_panel_h),
                    forall|k: int| 0 <= k < all_panels@.len()
                        ==> panel_within(#[trigger] all_panels@[k], page_width, page_height, min_panel_w, min_panel_h),
                    forall|k: int| 0 <= k < before.len() ==> all_panels@[k] == before[k],
                    forall|k: int| 0 <= k < before.len() ==> (#[trigger] before[k]).y < hs[i as int],
                    forall|k: int| 0 <= k < cells.len() ==> (#[trigger] cells[k]).1 == hs[i as int] as u32,
                    forall|k: int, l: int| 0 <= k < l < cells.len()
                        ==> (#[trigger] cells[k]).0 + cells[k].2 <= (#[trigger] cells[l]).0,
                    hs[i as int] <= page_height,
                    forall|k: int, l: int| 0 <= k < l < all_panels@.len()
                        ==> reads_before(#[trigger] all_panels@[k], #[trigger] all_panels@[l]),
                decreases panels.len() - j,
            {
                let p = panels[j];
                let ghost k = all_panels.len() as int;
                assert(all[k] == (cells + rest)[j as int]) by {
                    assert(all.skip(before.len() as int)[j as int] == all[k]);
                }
                assert(cell_within(cells[j as int], page_width, page_height, min_panel_w, min_panel_h));
                let ghost prev = all_panels@;
                all_panels.push(PanelRect { id: all_panels.len(), x: p.x, y: p.y, width: p.width, height: p.height });
                proof {
                    assert(all_panels@[k] == PanelRect { id: k as usize, x: cells[j as int].0, y: cells[j as int].1, width: cells[j as int].2, height: cells[j as int].3 });
                    assert forall|a: int, b: int| 0 <= a < b < all_panels@.len()
                        implies reads_before(#[trigger] all_panels@[a], #[trigger] all_panels@[b]) by {
                        if b < k {
                            assert(all_panels@[a] == prev[a] && all_panels@[b] == prev[b]);
                        } else if a < before.len() {
                            assert(all_panels@[a] == before[a]);
                        } else {
                            let ja = a - before.len();
                            assert(all.take(prev.len() as int)[a] == all[a]);
                            assert(all[a] == (cells + rest)[ja]);
                            assert(prev[a].x == cells[ja].0 && prev[a].y == cells[ja].1 && prev[a].width == cells[ja].2);
                            assert(cells[ja].0 + cells[ja].2 <= cells[j as int].0);
                        }
                    }
                }
                assert forall|m: int| 0 <= m < all_panels.len() implies {
                    let c = #[trigger] all.take(all_panels.len() as int)[m];
                    all_panels@[m] == PanelRect { id: m as usize, x: c.0, y: c.1, width: c.2, height: c.3 }
                } by {
                    if m < k {
                        assert(all.take(all_panels.len() as int)[m] == all.take(k)[m]);
                    }
                }
                j = j + 1;
            }
            assert(all.skip(all_panels.len() as int) =~= rest) by {
                assert(all.skip(all_panels.len() as int) =~= all.skip(before.len() as int).skip(cells.len() as int));
                assert((cells + rest).skip(cells.len() as int) =~= rest);
            }
            assert forall|k: int| 0 <= k < all_panels@.len() implies (#[trigger] all_panels@[k]).y < hs[i + 1] by {
                if k < before.len() {
                    assert(all_panels@[k] == before[k]);
                } else {
                    let jk = k - before.len();
                    assert(all.take(all_panels.len() as int)[k] == all[k]);
                    assert(all[k] == (cells + rest)[jk]);
                }
            }
            i = i + 1;
        }
        assert(all.take(all_panels.len() as int) =~= all);
        all_panels
    }

    /// Apply the threshold: a binary page where 0 = ink (darker than `threshold`)
    /// and 255 = white.
    pub fn threshold_image(img: &GrayImage, threshold: u8) -> (binary: GrayImage)
        requires
            img.wf(),
        ensures
            binary.wf(),
            binary.width == img.width,
            binary.height == img.height,
            binary.pixels@ == binary_pixels(img.pixels@, threshold),
    {
        let mut pixels: Vec<u8> = Vec::new();
        let mut i: usize = 0;
        while i < img.pixels.len()
            invariant
                i <= img.pixels@.len(),
                pixels@ == binary_pixels(img.pixels@, threshold).take(i as int),
            decreases img.pixels.len() - i,
        {
            let v: u8 = if img.pixels[i] < threshold { 0 } else { 255 };
            pixels.push(v);
            assert(pixels@ =~= binary_pixels(img.pixels@, threshold).take(i + 1));
            i = i + 1;
        }
        assert(pixels@ =~= binary_pixels(img.pixels@, threshold));
        GrayImage { width: img.width, height: img.height, pixels }
    }

    /// Compute the horizontal projection profile: for each row, the number of dark pixels.
    pub fn horizontal_projection(img: &GrayImage) -> (proj: Vec<u32>)
        requires
            img.wf(),
        ensures
            proj@ == row_profile(img.pixels@, img.width as int, img.height as int),
    {
        let w = img.width as usize;
        let h = img.height as usize;
        let ghost p = img.pixels@;
        let mut proj: Vec<u32> = Vec::new();
        let mut y: usize = 0;
        while y < h
            invariant
                p == img.pixels@,
                w == img.width,
                h == img.height,
                p.len() == w * h,
                p.len() == img.pixels.len(),
                y <= h,
                proj@ == row_profile(p, w as int, h as int).take(y as int),
            decreases h - y,
        {
            proof {
                lemma_row_bound(w as int, h as int, y as int);
            }
            let base = y * w;
            let ghost row = row_of(p, w as int, y as int);
            let mut count: u32 = 0;
            let mut x: usize = 0;
            while x < w
                invariant
                    p == img.pixels@,
                    w == img.width,
                    p.len() == w * h,
                    p.len() == img.pixels.len(),
                    y < h,
                    base == y * w,
                    base + w <= p.len(),
                    row == p.subrange(base as int, base + w),
                    x <= w,
                    count == count_dark(row.take(x as int)),
                    count <= x,
                decreases w - x,
            {
                proof {
                    lemma_count_dark_step(row, x as int);
                }
                if img.pixels[base + x] == 0 {
                    count = count + 1;
                }
                x = x + 1;
            }
            assert(row.take(w as int) =~= row);
            proj.push(count);
            assert(proj@ =~= row_profile(p, w as int, h as int).take(y + 1));
            y = y + 1;
        }
        assert(proj@ =~= row_profile(p, w as int, h as int));
        proj
    }

    /// Compute the vertical projection profile: for each column, the number of dark pixels.
    pub fn vertical_projection(img: &GrayImage) -> (proj: Vec<u32>)
        requires
            img.wf(),
        ensures
            proj@ == column_profile(img.pixels@, img.width as int, 0, img.height as int),
    {
        let w = img.width as usize;
        let h = img.height as usize;
        let ghost p = img.pixels@;
        let mut proj: Vec<u32> = Vec::new();
        let mut x: usize = 0;
        while x < w
            invariant
                p == img.pixels@,
                w == img.width,
                h == img.height,
                p.len() == w * h,
                p.len() == img.pixels.len(),
                x <= w,
                proj@ == column_profile(p, w as int, 0, h as int).take(x as int),
            decreases w - x,
        {
            let ghost col = column_of(p, w as int, x as int, 0, h as int);
            let mut count: u32 = 0;
            let mut y: usize = 0;
            while y < h
                invariant
                    p == img.pixels@,
                    w == img.width,
                    h == img.height,
                    p.len() == w * h,
                    p.len() == img.pixels.len(),
                    x < w,
                    y <= h,
                    col == column_of(p, w as int, x as int, 0, h as int),
                    count == count_dark(col.take(y as int)),
                    count <= y,
                    h <= u32::MAX,
                decreases h - y,
            {
                proof {
                    lemma_index_bound(w as int, h as int, x as int, y as int);
                    lemma_count_dark_step(col, y as int);
                }
                let idx = y * w + x;
                if img.pixels[idx] == 0 {
                    count = count + 1;
                }
                y = y + 1;
            }
            assert(col.take(h as int) =~= col);
            proj.push(count);
            assert(proj@ =~= column_profile(p, w as int, 0, h as int).take(x + 1));
            x = x + 1;
        }
        assert(proj@ =~= column_profile(p, w as int, 0, h as int));
        proj
    }

    /// Detect gaps (gutters) in a projection profile: the maximal runs of values
    /// below `threshold` at least `min_gap_size` long, with runs separated by at
    /// most `continuity_gap` indices merged, as inclusive index ranges in order.
    #[verifier::spinoff_prover]
    pub fn detect_gaps(proj: &[u32], threshold: u32, min_gap_size: usize, continuity_gap: usize) -> (gaps: Vec<(usize, usize)>)
        ensures
            gaps@ == gutter_gaps(proj@, threshold, min_gap_size, continuity_gap),
    {
        let ghost p = proj@;
        let mut gaps: Vec<(usize, usize)> = Vec::new();
        let mut in_gap = false;
        let mut gap_start: usize = 0;
        let mut i: usize = 0;
        while i < proj.len()
            invariant
                p == proj@,
                i <= proj.len(),
                !in_gap ==> runs_from(p, threshold, min_gap_size, 0) == gaps@ + runs_from(p, threshold, min_gap_size, i as int),
                !in_gap ==> (i == 0 || p[i - 1] >= threshold),
                in_gap ==> gap_start < i,
                in_gap ==> forall|k: int| gap_start <= k < i ==> p[k] < threshold,
                in_gap ==> (gap_start == 0 || p[gap_start - 1] >= threshold),
                in_gap ==> runs_from(p, threshold, min_gap_size, 0) == gaps@ + runs_from(p, threshold, min_gap_size, gap_start as int),
            decreases proj.len() - i,
        {
            let val = proj[i];
            if val < threshold {
                if !in_gap {
                    in_gap = true;
                    gap_start = i;
                }
            } else {
                assert(runs_from(p, threshold, min_gap_size, i as int) == runs_from(p, threshold, min_gap_size, i + 1));
                if in_gap {
                    proof {
                        lemma_run_end_same(p, threshold, gap_start as int, i - 1);
                        lemma_run_end_bounds(p, threshold, gap_start as int);
                    }
                    let gap_end = i - 1;
                    if gap_end - gap_start + 1 >= min_gap_size {
                        assert(gaps@.push((gap_start, gap_end)) + runs_from(p, threshold, min_gap_size, i as int)
                            =~= gaps@ + (seq![(gap_start, gap_end)] + runs_from(p, threshold, min_gap_size, i as int)));
                        gaps.push((gap_start, gap_end));
                    }
                    in_gap = false;
                }
            }
            i = i + 1;
        }
        if in_gap {
            proof {
                lemma_run_end_same(p, threshold, gap_start as int, i - 1);
                lemma_run_end_bounds(p, threshold, gap_start as int);
            }
            let gap_end = i - 1;
            if gap_end - gap_start + 1 >= min_gap_size {
                assert(gaps@.push((gap_start, gap_end)) =~= gaps@ + (seq![(gap_start, gap_end)] + runs_from(p, threshold, min_gap_size, i as int)));
                gaps.push((gap_start, gap_end));
            } else {
                assert(gaps@ =~= gaps@ + runs_from(p, threshold, min_gap_size, i as int));
            }
        } else {
            assert(gaps@ =~= gaps@ + runs_from(p, threshold, min_gap_size, i as int));
        }
        let ghost raw = gaps@;
        assert(raw == runs_from(p, threshold, min_gap_size, 0));
        if gaps.len() == 0 {
            return gaps;
        }
        let mut merged: Vec<(usize, usize)> = Vec::new();
        let mut current = gaps[0];
        let mut k: usize = 1;
        while k < gaps.len()
            invariant
                gaps@ == raw,
                1 <= k <= gaps.len(),
                merge_gaps(raw, continuity_gap) == merged@ + merge_from(raw, continuity_gap, current, k as int),
            decreases gaps.len() - k,
        {
            let next = gaps[k];
            if next.0 <= current.1 || next.0 - current.1 <= continuity_gap {
                current = (current.0, next.1);
            } else {
                assert(merged@.push(current) + merge_from(raw, continuity_gap, next, k + 1)
                    =~= merged@ + (seq![current] + merge_from(raw, continuity_gap, next, k + 1)));
                merged.push(current);
                current = next;
            }
            k = k + 1;
        }
        assert(merged@.push(current) =~= merged@ + seq![current]);
        merged.push(current);
        merged
    }

    /// Find the split points that the gaps define along a dimension of length
    /// `total_len`: 0, `total_len - 1` (when the dimension is not empty), and every
    /// gap midpoint strictly between 0 and `total_len`, in increasing order without
    /// repeats.
    pub fn midpoints(gaps: &[(usize, usize)], total_len: usize) -> (splits: Vec<usize>)
        ensures
            strictly_increasing(splits@),
            forall|p: usize| splits@.contains(p) <==> is_split_point(gaps@, total_len, p as int),
            splits@ == sorted_splits(gaps@, total_len),
    {
        let mut split_points: Vec<usize> = Vec::new();
        split_points.push(0);
        assert(split_points@ =~= seq![0usize]);
        assert forall|p: usize| split_points@.contains(p) <==> p == 0 by {
            if p == 0 {
                assert(split_points@[0] == p);
            }
        }
        let mut i: usize = 0;
        while i < gaps.len()
            invariant
                i <= gaps.len(),
                strictly_increasing(split_points@),
                forall|p: usize| split_points@.contains(p) <==> (p == 0 || exists|j: int| 0 <= j < i && p == gap_mid(#[trigger] gaps@[j]) && 0 < p < total_len),
            decreases gaps.len() - i,
        {
            let (a, b) = gaps[i];
            let mid = a / 2 + b / 2 + (a % 2 + b % 2) / 2;
            assert(mid == gap_mid(gaps@[i as int]));
            if mid > 0 && mid < total_len {
                insert_sorted_unique(&mut split_points, mid);
            }
            proof {
                assert forall|p: usize| split_points@.contains(p) <==> (p == 0 || exists|j: int| 0 <= j < i + 1 && p == gap_mid(#[trigger] gaps@[j]) && 0 < p < total_len) by {
                    if exists|j: int| 0 <= j < i + 1 && p == gap_mid(#[trigger] gaps@[j]) && 0 < p < total_len {
                        let j = choose|j: int| 0 <= j < i + 1 && p == gap_mid(#[trigger] gaps@[j]) && 0 < p < total_len;
                        if j < i {
                            assert(exists|j: int| 0 <= j < i && p == gap_mid(#[trigger] gaps@[j]) && 0 < p < total_len);
                        }
                    }
                }
            }
            i = i + 1;
        }
        if total_len > 0 {
            insert_sorted_unique(&mut split_points, total_len - 1);
        }
        proof {
            let chosen = sorted_splits(gaps@, total_len);
            assert(strictly_increasing(chosen) && (forall|p: usize| chosen.contains(p) <==> is_split_point(gaps@, total_len, p as int)));
            lemma_sorted_unique(split_points@, chosen);
        }
        split_points
    }

    /// Extract panel regions from the grid that the horizontal and vertical split
    /// points define: each cell between consecutive splits, row by row, that is at
    /// least `min_width` by `min_height` (a cell's size saturates at zero), numbered
    /// from 0.
    pub fn extract_panels(h_splits: &[usize], v_splits: &[usize], min_width: u32, min_height: u32) -> (panels: Vec<PanelRect>)
        requires
            h_splits.len() >= 1,
            v_splits.len() >= 1,
        ensures
            numbered_from(panels@, grid_cells(h_splits@, 0, v_splits@, min_width, min_height), 0),
    {
        let mut panels: Vec<PanelRect> = Vec::new();
        let mut h_idx: usize = 0;
        while h_idx < h_splits.len() - 1
            invariant
                h_splits.len() >= 1,
                v_splits.len() >= 1,
                h_idx <= h_splits.len() - 1,
                grid_cells(h_splits@, 0, v_splits@, min_width, min_height).len() == panels.len()
                    + grid_cells(h_splits@, h_idx as int, v_splits@, min_width, min_height).len(),
                numbered_from(panels@, grid_cells(h_splits@, 0, v_splits@, min_width, min_height).take(panels.len() as int), 0),
                grid_cells(h_splits@, 0, v_splits@, min_width, min_height).skip(panels.len() as int)
                    == grid_cells(h_splits@, h_idx as int, v_splits@, min_width, min_height),
            decreases h_splits.len() - h_idx,
        {
            let y0 = #[verifier::truncate] (h_splits[h_idx] as u32);
            let y1 = #[verifier::truncate] (h_splits[h_idx + 1] as u32);
            let ghost all = grid_cells(h_splits@, 0, v_splits@, min_width, min_height);
            let ghost band = band_cells(h_splits@[h_idx as int], h_splits@[h_idx + 1], v_splits@, 0, min_width, min_height);
            let ghost base = panels.len() as int;
            assert(grid_cells(h_splits@, h_idx as int, v_splits@, min_width, min_height)
                == band + grid_cells(h_splits@, h_idx + 1, v_splits@, min_width, min_height));
            let mut v_idx: usize = 0;
            while v_idx < v_splits.len() - 1
                invariant
                    h_idx + 1 < h_splits.len(),
                    v_splits.len() >= 1,
                    v_idx <= v_splits.len() - 1,
                    y0 == #[verifier::truncate] (h_splits@[h_idx as int] as u32),
                    y1 == #[verifier::truncate] (h_splits@[h_idx + 1] as u32),
                    all == grid_cells(h_splits@, 0, v_splits@, min_width, min_height),
                    band == band_cells(h_splits@[h_idx as int], h_splits@[h_idx + 1], v_splits@, 0, min_width, min_height),
                        0 <= base <= panels.len(),
                    all.skip(base) == band + grid_cells(h_splits@, h_idx + 1, v_splits@, min_width, min_height),
                    all.len() == base + band.len() + grid_cells(h_splits@, h_idx + 1, v_splits@, min_width, min_height).len(),
                    numbered_from(panels@, all.take(panels.len() as int), 0),
                    band.len() == (panels.len() - base) + band_cells(h_splits@[h_idx as int], h_splits@[h_idx + 1], v_splits@, v_idx as int, min_width, min_height).len(),
                    band.skip(panels.len() - base) == band_cells(h_splits@[h_idx as int], h_splits@[h_idx + 1], v_splits@, v_idx as int, min_width, min_height),
                decreases v_splits.len() - v_idx,
            {
                let x0 = #[verifier::truncate] (v_splits[v_idx] as u32);
                let x1 = #[verifier::truncate] (v_splits[v_idx + 1] as u32);
                let width = x1.saturating_sub(x0);
                let height = y1.saturating_sub(y0);
                let ghost rest = band_cells(h_splits@[h_idx as int], h_splits@[h_idx + 1], v_splits@, v_idx + 1, min_width, min_height);
                let ghost cur = band_cells(h_splits@[h_idx as int], h_splits@[h_idx + 1], v_splits@, v_idx as int, min_width, min_height);
                if width >= min_width && height >= min_height {
                    let ghost k = panels.len() as int;
                    assert(cur == seq![(x0, y0, width, height)] + rest);
                    assert(band.skip(k - base)[0] == (x0, y0, width, height));
                    assert(cur.len() == rest.len() + 1);
                    assert(k - base < band.len());
                    assert(k < all.len());
                    assert(0 <= base <= k);
                    assert(all.subrange(base, all.len() as int)[k - base] == all[k]);
                    assert(all.skip(base)[k - base] == all[k]);
                    assert((band + grid_cells(h_splits@, h_idx + 1, v_splits@, min_width, min_height))[k - base] == band[k - base]);
                    assert(all[k] == band[k - base]);
                    panels.push(PanelRect { id: panels.len(), x: x0, y: y0, width, height });
                    assert(band.skip(panels.len() - base) =~= rest) by {
                        assert(band.skip(k - base) =~= seq![(x0, y0, width, height)] + rest);
                        assert(band.skip(k - base + 1) =~= band.skip(k - base).skip(1));
                        assert((seq![(x0, y0, width, height)] + rest).skip(1) =~= rest);
                    }
                    assert forall|j: int| 0 <= j < panels.len() implies {
                        let c = #[trigger] all.take(panels.len() as int)[j];
                        panels@[j] == PanelRect { id: j as usize, x: c.0, y: c.1, width: c.2, height: c.3 }
                    } by {
                        if j < k {
                            assert(all.take(panels.len() as int)[j] == all.take(k)[j]);
                        }
                    }
                } else {
                    assert(cur == rest);
                }
                v_idx = v_idx + 1;
            }
            assert(band.skip(panels.len() - base) =~= Seq::<(u32, u32, u32, u32)>::empty());
            assert(panels.len() - base == band.len());
            assert(all.skip(panels.len() as int) =~= grid_cells(h_splits@, h_idx + 1, v_splits@, min_width, min_height)) by {
                let g = grid_cells(h_splits@, h_idx + 1, v_splits@, min_width, min_height);
                assert(all.skip(panels.len() as int) =~= all.skip(base).skip(band.len() as int));
                assert((band + g).skip(band.len() as int) =~= g);
            }
            h_idx = h_idx + 1;
        }
        let ghost all = grid_cells(h_splits@, 0, v_splits@, min_width, min_height);
        assert(all.take(panels.len() as int) =~= all);
        panels
    }
}

/// A strip is cut by its own rows alone: two binary pages that agree on the rows of
/// strip `i` (between its cut rows, within the page) have that strip cut into the
/// same cells, whatever they hold elsewhere; each column's ink count that decides a
/// vertical gutter is counted within the strip's rows.
pub proof fn law_strip_cut_by_its_own_rows(
    b1: Seq<u8>,
    b2: Seq<u8>,
    w: u32,
    h: u32,
    hs: Seq<usize>,
    i: int,
    cont: usize,
    min_v_gap: usize,
    min_pw: u32,
    min_ph: u32,
)
    requires
        0 <= i,
        i + 1 < hs.len(),
        forall|y: int, x: int| (hs[i] as u32) <= y < min_u32(hs[i + 1] as u32, h) && 0 <= x < w
            ==> #[trigger] b1[y * w + x] == b2[y * w + x],
    ensures
        strip_cells(b1, w, h, hs, i, cont, min_v_gap, min_pw, min_ph)
            == strip_cells(b2, w, h, hs, i, cont, min_v_gap, min_pw, min_ph),
{
    let y_start = hs[i] as u32;
    let y_end = min_u32(hs[i + 1] as u32, h);
    if !(y_end <= y_start || y_end - y_start < min_ph) {
        assert forall|x: int| 0 <= x < w implies
            #[trigger] column_of(b1, w as int, x, y_start as int, y_end as int)
                == column_of(b2, w as int, x, y_start as int, y_end as int) by {
            let c1 = column_of(b1, w as int, x, y_start as int, y_end as int);
            let c2 = column_of(b2, w as int, x, y_start as int, y_end as int);
            assert forall|k: int| 0 <= k < c1.len() implies c1[k] == c2[k] by {
                let y = y_start + k;
                assert(c1[k] == b1[y * w + x]);
                assert(c2[k] == b2[y * w + x]);
                assert(b1[y * w + x] == b2[y * w + x]);
            }
            assert(c1 =~= c2);
        }
        assert(column_profile(b1, w as int, y_start as int, y_end as int)
            =~= column_profile(b2, w as int, y_start as int, y_end as int));
    }
}

} // verus!
