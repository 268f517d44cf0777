//! Where the video stands in the terminal's grid of cells.
//!
//! Columns and rows count from one, as `mpv` counts them.
use vstd::prelude::*;

verus! {

/// A rectangle of cells.
#[derive(Clone, Copy, Debug, PartialEq, Eq, Structural)]
pub struct Rect {
    /// The leftmost column.
    pub x: u16,
    /// The topmost row.
    pub y: u16,
    /// The number of columns.
    pub width: u16,
    /// The number of rows.
    pub height: u16,
}

/// A rectangle over the integers.
pub struct Area {
    pub x: int,
    pub y: int,
    pub width: int,
    pub height: int,
}

impl View for Rect {
    type V = Area;

    open spec fn view(&self) -> Area {
        Area {
            x: self.x as int,
            y: self.y as int,
            width: self.width as int,
            height: self.height as int,
        }
    }
}

impl Default for Rect {
    /// The empty rectangle at the origin.
    fn default() -> (r: Rect)
        ensures
            r == (Rect { x: 0, y: 0, width: 0, height: 0 }),
    {
        Rect { x: 0, y: 0, width: 0, height: 0 }
    }
}

/// The size that the terminal reports of its window. Terminals that do not know
/// their size in pixels report zero.
#[derive(Clone, Copy, Debug, PartialEq, Eq, Structural)]
pub struct WindowSize {
    pub rows: u16,
    pub columns: u16,
    /// In pixels.
    pub width: u16,
    /// In pixels.
    pub height: u16,
}

/// The larger of two integers.
pub open spec fn larger(a: int, b: int) -> int {
    if a >= b {
        a
    } else {
        b
    }
}

/// The smaller of two integers.
pub open spec fn smaller(a: int, b: int) -> int {
    if a <= b {
        a
    } else {
        b
    }
}

/// The rectangle of a thumbnail is large enough to hold the video.
pub open spec fn holds_video(r: Rect) -> bool {
    r.width >= 5 && r.height >= 3
}

/// The rectangle inside a thumbnail's: it begins one cell further to the right
/// and one cell further down, and ends one cell past either edge.
pub open spec fn inset(r: Rect) -> Area {
    Area { x: r.x + 1, y: r.y + 1, width: r.width as int, height: r.height as int }
}

/// The rectangle inside a thumbnail's can be given in cells, where there is one.
pub open spec fn inset_in_range(r: Rect) -> bool {
    holds_video(r) ==> r.x < u16::MAX && r.y < u16::MAX
}

/// Whether the rectangle inside a thumbnail's can be given in cells.
pub fn inset_fits(r: Rect) -> (b: bool)
    ensures
        b == inset_in_range(r),
{
    r.width < 5 || r.height < 3 || (r.x < u16::MAX && r.y < u16::MAX)
}

/// The rectangle for the video that replaces the thumbnail `r`, so that the video
/// does not touch the borders around it and fills the column. `None` where the
/// thumbnail is too small.
pub fn sanitize_panel_rect(r: Rect) -> (res: Option<Rect>)
    requires
        inset_in_range(r),
    ensures
        res is Some <==> holds_video(r),
        res is Some <==> r.width >= 5 && r.height >= 3,
        res matches Some(p) ==> p@ == inset(r),
        res matches Some(p) ==> p.x == r.x + 1 && p.y == r.y + 1,
        res matches Some(p) ==> p.width == r.width && p.height == r.height,
{
    let margin: u16 = 1;
    let extend: u16 = 1;
    if r.width < margin + 4 || r.height < margin + 2 {
        return None;
    }
    Some(
        Rect {
            x: r.x + margin,
            y: r.y + margin,
            width: r.width - margin + extend,
            height: r.height - margin + extend,
        },
    )
}

/// The panel at the top left of a terminal: about 30 percent of its columns, at
/// least 20 but not more than there are, below the first two rows. The height
/// keeps 16:9 for cells that are twice as high as wide, within 8 rows and what
/// the terminal leaves, and is never less than 4.
pub open spec fn panel_area(cols: int, rows: int) -> Area {
    let width = smaller(larger(cols * 30 / 100, 20), cols);
    let height = smaller(larger(width * 9 / 32, 8), larger(rows - 4, 0));
    Area { x: 1, y: 3, width, height: larger(height, 4) }
}

/// The panel of a terminal with `term_size` columns and rows.
pub fn panel_rect(term_size: (u16, u16)) -> (r: Rect)
    ensures
        r@ == panel_area(term_size.0 as int, term_size.1 as int),
{
    let (cols, rows) = term_size;
    let mut w: u32 = (cols as u32 * 30) / 100;
    if w < 20 {
        w = 20;
    }
    if w > cols as u32 {
        w = cols as u32;
    }
    let mut h: u32 = (w * 9) / 32;
    if h < 8 {
        h = 8;
    }
    let room: u32 = rows.saturating_sub(4) as u32;
    if h > room {
        h = room;
    }
    if h < 4 {
        h = 4;
    }
    Rect { x: 1, y: 3, width: w as u16, height: h as u16 }
}

/// The width and height of a cell in pixels, for a window that knows its size.
/// Without one, those of a font for high resolution.
pub open spec fn cell_size(window: Option<WindowSize>) -> (int, int) {
    match window {
        Some(ws) if ws.width > 0 && ws.height > 0 && ws.columns > 0 && ws.rows > 0 => (
            larger(ws.width as int / ws.columns as int, 4),
            larger(ws.height as int / ws.rows as int, 8),
        ),
        _ => (12, 24),
    }
}

/// The width and height of a cell in pixels.
pub fn cell_pixels(window: Option<WindowSize>) -> (cell: (u16, u16))
    ensures
        (cell.0 as int, cell.1 as int) == cell_size(window),
{
    if let Some(ws) = window {
        if ws.width > 0 && ws.height > 0 && ws.columns > 0 && ws.rows > 0 {
            let mut cw: u16 = ws.width / ws.columns;
            let mut ch: u16 = ws.height / ws.rows;
            if cw < 4 {
                cw = 4;
            }
            if ch < 8 {
                ch = 8;
            }
            return (cw, ch);
        }
    }
    (12, 24)
}

/// The length in pixels of `cells` cells of `pixels` pixels each, with at least
/// one of either.
pub open spec fn canvas(cells: int, pixels: int) -> int {
    larger(cells, 1) * larger(pixels, 1)
}

/// The size of the largest 16:9 picture on a canvas, rounded down to pixels.
pub open spec fn video_size(w: int, h: int) -> (int, int) {
    if w * 9 >= h * 16 {
        (h * 16 / 9, h)
    } else {
        (w, w * 9 / 16)
    }
}

/// The first cell, and the number of cells, of a picture of `video` pixels in the
/// middle of `length` pixels.
pub open spec fn centered(length: int, video: int, pixels: int) -> (int, int) {
    ((length - video) / 2 / pixels + 1, larger(video / pixels, 1))
}

/// The rectangle of a 16:9 picture in the middle of a terminal.
pub open spec fn fullscreen_area(cols: int, rows: int, cell: (int, int)) -> Area {
    let (w, h) = (canvas(cols, cell.0), canvas(rows, cell.1));
    let (vw, vh) = video_size(w, h);
    let (x, width) = centered(w, vw, larger(cell.0, 1));
    let (y, height) = centered(h, vh, larger(cell.1, 1));
    Area { x, y, width, height }
}

/// The pixels of the terminal can be compared with 16:9 in 32 bits.
pub open spec fn canvas_in_range(cols: int, rows: int, cell: (int, int)) -> bool {
    &&& canvas(cols, cell.0) * 9 <= u32::MAX
    &&& canvas(rows, cell.1) * 16 <= u32::MAX
}

proof fn lemma_product(a: int, b: int)
    by (nonlinear_arith)
    requires
        1 <= a <= 65535,
        1 <= b <= 65535,
    ensures
        a <= a * b <= 65535 * 65535,
        b <= a * b,
{
}

proof fn lemma_div(v: int, a: int, b: int)
    by (nonlinear_arith)
    requires
        0 <= v <= a * b,
        1 <= b,
        0 <= a,
    ensures
        0 <= v / b <= a,
{
}

proof fn lemma_half(v: int, a: int, b: int)
    by (nonlinear_arith)
    requires
        0 <= v,
        2 * v <= a * b,
        1 <= b,
        0 <= a,
    ensures
        0 <= 2 * (v / b) <= a,
{
    assert((v / b) * b <= v);
    assert(2 * (v / b) * b <= a * b);
}

/// The size of the largest 16:9 picture on a canvas.
fn fit_video(w: u32, h: u32) -> (size: (u32, u32))
    requires
        w * 9 <= u32::MAX,
        h * 16 <= u32::MAX,
    ensures
        (size.0 as int, size.1 as int) == video_size(w as int, h as int),
        size.0 <= w,
        size.1 <= h,
{
    if w * 9 >= h * 16 {
        (h * 16 / 9, h)
    } else {
        (w, w * 9 / 16)
    }
}

/// The first cell, and the number of cells, of a picture of `video` pixels in the
/// middle of `cells` cells of `pixels` pixels each.
fn place(cells: u16, pixels: u16, video: u32) -> (span: (u16, u16))
    requires
        1 <= cells,
        1 <= pixels,
        video <= cells * pixels,
    ensures
        (span.0 as int, span.1 as int) == centered(cells * pixels, video as int, pixels as int),
{
    proof {
        lemma_product(cells as int, pixels as int);
    }
    let length: u32 = cells as u32 * pixels as u32;
    let off: u32 = (length - video) / 2;
    proof {
        lemma_half(off as int, cells as int, pixels as int);
        lemma_div(video as int, cells as int, pixels as int);
    }
    let first: u32 = off / (pixels as u32);
    let count: u32 = video / (pixels as u32);
    (
        first as u16 + 1,
        if count >= 1 {
            count as u16
        } else {
            1
        },
    )
}

/// `n`, but at least one.
fn at_least_one(n: u16) -> (m: u16)
    ensures
        m == larger(n as int, 1),
{
    if n >= 1 {
        n
    } else {
        1
    }
}

/// Whether the place of a video in fullscreen can be computed, in a terminal with
/// `term_size` columns and rows of `cell` pixels.
pub fn canvas_fits(term_size: (u16, u16), cell: (u16, u16)) -> (b: bool)
    ensures
        b == canvas_in_range(
            term_size.0 as int,
            term_size.1 as int,
            (cell.0 as int, cell.1 as int),
        ),
{
    let cols = at_least_one(term_size.0);
    let rows = at_least_one(term_size.1);
    let cw = at_least_one(cell.0);
    let ch = at_least_one(cell.1);
    proof {
        lemma_product(cols as int, cw as int);
        lemma_product(rows as int, ch as int);
    }
    let w: u64 = cols as u64 * cw as u64;
    let h: u64 = rows as u64 * ch as u64;
    w * 9 <= u32::MAX as u64 && h * 16 <= u32::MAX as u64
}

/// The rectangle of a 16:9 picture in the middle of a terminal with `term_size`
/// columns and rows of `cell` pixels.
pub fn fullscreen_rect(term_size: (u16, u16), cell: (u16, u16)) -> (r: Rect)
    requires
        canvas_in_range(
            term_size.0 as int,
            term_size.1 as int,
            (cell.0 as int, cell.1 as int),
        ),
    ensures
        r@ == fullscreen_area(
            term_size.0 as int,
            term_size.1 as int,
            (cell.0 as int, cell.1 as int),
        ),
{
    let cols = at_least_one(term_size.0);
    let rows = at_least_one(term_size.1);
    let cw = at_least_one(cell.0);
    let ch = at_least_one(cell.1);
    proof {
        lemma_product(cols as int, cw as int);
        lemma_product(rows as int, ch as int);
    }
    let (vid_w, vid_h) = fit_video(cols as u32 * cw as u32, rows as u32 * ch as u32);
    let (x, width) = place(cols, cw, vid_w);
    let (y, height) = place(rows, ch, vid_h);
    Rect { x, y, width, height }
}

/// The panel lies inside the columns of its terminal, and in a terminal with six
/// rows or more inside its rows.
pub proof fn law_panel_fits(cols: int, rows: int)
    requires
        0 <= cols,
    ensures
        ({
            let p = panel_area(cols, rows);
            &&& 1 <= p.x && p.x + p.width - 1 <= cols
            &&& 1 <= p.y && (6 <= rows ==> p.y + p.height - 1 <= rows)
        }),
{
}

/// In a terminal with 67 columns or more the panel takes 30 percent of them,
/// rounded down. For cells that are twice as high as wide, it is no higher than
/// 16:9 in a terminal with 97 columns or more, and no lower, but for rounding,
/// where the rows leave room for that height. Where both hold it is 16:9.
pub proof fn law_panel_shape(cols: int, rows: int)
    ensures
        ({
            let p = panel_area(cols, rows);
            &&& 67 <= cols ==> 100 * p.width <= 30 * cols < 100 * (p.width + 1)
            &&& 97 <= cols ==> 32 * p.height <= 9 * p.width
            &&& 9 * p.width < 32 * (rows - 3) ==> 9 * p.width < 32 * (p.height + 1)
        }),
{
}

/// The rectangle that replaces a thumbnail leaves its first column and row free,
/// and ends one cell past its right and its bottom edge. It can be given unless
/// the thumbnail begins in the last column or row that can be counted.
pub proof fn law_inset(r: Rect)
    ensures
        ({
            let p = inset(r);
            &&& p.x == r.x + 1 && p.y == r.y + 1
            &&& p.x + p.width == r.x + r.width + 1
            &&& p.y + p.height == r.y + r.height + 1
        }),
        inset_in_range(r) <==> r.width < 5 || r.height < 3 || (r.x < 65535 && r.y < 65535),
{
}

/// The picture lies on the canvas, spans its whole width or its whole height, and
/// is 16:9 to the pixel that rounding takes.
pub proof fn law_video_is_16_to_9(w: int, h: int)
    requires
        0 <= w,
        0 <= h,
    ensures
        ({
            let (vw, vh) = video_size(w, h);
            &&& 0 <= vw <= w && 0 <= vh <= h
            &&& vw == w || vh == h
            &&& vw * 9 <= vh * 16 < (vw + 1) * 9 || vh * 16 <= vw * 9 < (vh + 1) * 16
        }),
{
}

proof fn lemma_span(cells: int, pixels: int, video: int)
    by (nonlinear_arith)
    requires
        1 <= cells,
        1 <= pixels,
        0 <= video <= cells * pixels,
    ensures
        ({
            let off = (cells * pixels - video) / 2;
            let left = off / pixels;
            let n = video / pixels;
            &&& 0 <= left && 0 <= n
            &&& 0 <= cells - 2 * left - n <= 2
        }),
{
    let off = (cells * pixels - video) / 2;
    let left = off / pixels;
    let n = video / pixels;
    assert(left * pixels <= off < (left + 1) * pixels);
    assert(n * pixels <= video < (n + 1) * pixels);
    assert(2 * off <= cells * pixels - video <= 2 * off + 1);
    assert((2 * left + n) * pixels <= cells * pixels);
    assert(cells * pixels < (2 * left + n + 3) * pixels);
}

proof fn lemma_centered(cells: int, pixels: int, video: int)
    requires
        1 <= cells,
        1 <= pixels,
        0 <= video <= cells * pixels,
    ensures
        ({
            let (first, n) = centered(cells * pixels, video, pixels);
            let before = first - 1;
            let after = cells - before - n;
            &&& 0 <= before && 1 <= n
            &&& 0 <= after
            &&& -1 <= after - before <= 2
        }),
{
    lemma_span(cells, pixels, video);
}

/// In fullscreen the video lies inside the terminal, in its middle: the free cells
/// to the right of it, and below it, are as many as those on the other side, give
/// or take the two cells that rounding takes.
pub proof fn law_fullscreen_is_centered(cols: int, rows: int, cell: (int, int))
    requires
        1 <= cols,
        1 <= rows,
    ensures
        ({
            let r = fullscreen_area(cols, rows, cell);
            let right = cols - (r.x - 1) - r.width;
            let below = rows - (r.y - 1) - r.height;
            &&& 1 <= r.x && 1 <= r.width && 0 <= right
            &&& 1 <= r.y && 1 <= r.height && 0 <= below
            &&& -1 <= right - (r.x - 1) <= 2
            &&& -1 <= below - (r.y - 1) <= 2
        }),
{
    let cw = larger(cell.0, 1);
    let ch = larger(cell.1, 1);
    let (w, h) = (cols * cw, rows * ch);
    assert(w >= 0 && h >= 0) by (nonlinear_arith)
        requires
            cols >= 1,
            rows >= 1,
            cw >= 1,
            ch >= 1,
            w == cols * cw,
            h == rows * ch,
    ;
    law_video_is_16_to_9(w, h);
    let (vw, vh) = video_size(w, h);
    lemma_centered(cols, cw, vw);
    lemma_centered(rows, ch, vh);
}

/// Cells of the size that is taken where the terminal does not know its own are
/// in range in every terminal.
pub proof fn law_default_cell_in_range(cols: u16, rows: u16)
    ensures
        canvas_in_range(cols as int, rows as int, cell_size(None)),
{
}

/// The panel stands below the first two rows, at the left, in every terminal. Its
/// width is 30 percent of the columns, rounded down, but at least 20, and not more
/// than there are.
pub proof fn law_panel_width(cols: int, rows: int)
    requires
        0 <= cols,
    ensures
        ({
            let p = panel_area(cols, rows);
            &&& p.x == 1 && p.y == 3
            &&& p.width == cols || 20 <= p.width < cols
            &&& p.width <= 20 || 100 * p.width <= 30 * cols
            &&& p.width == cols || 30 * cols < 100 * (p.width + 1)
        }),
{
}

/// The panel is never higher than 16:9 asks for in cells twice as high as wide, or
/// 8 rows, whichever is more, nor than the terminal without 4 of its rows, but it
/// has 4 rows in any case. Within that it is as high as it can be: where there is
/// room it is as high as 16:9 asks for, and at least 8 rows.
pub proof fn law_panel_height(cols: int, rows: int)
    requires
        0 <= cols,
    ensures
        ({
            let p = panel_area(cols, rows);
            &&& p.height <= 8 || 32 * p.height <= 9 * p.width
            &&& p.height <= 4 || p.height <= rows - 4
            &&& 4 <= p.height
            &&& 8 <= p.height || rows - 4 <= p.height
            &&& 9 * p.width < 32 * (p.height + 1) || rows - 4 <= p.height
            &&& 12 <= rows ==> 8 <= p.height
        }),
{
}

/// A larger terminal has no smaller a panel.
pub proof fn law_panel_grows(cols: int, rows: int, more_cols: int, more_rows: int)
    requires
        0 <= cols <= more_cols,
        rows <= more_rows,
    ensures
        panel_area(cols, rows).width <= panel_area(more_cols, more_rows).width,
        panel_area(cols, rows).height <= panel_area(more_cols, more_rows).height,
{
}

/// The whole pixels of a cell, where `cells` of them make up `length` pixels, but
/// `least` in any case.
pub open spec fn is_share(n: int, length: int, cells: int, least: int) -> bool {
    &&& least <= n
    &&& n == least || n * cells <= length
    &&& length < (n + 1) * cells
}

proof fn lemma_share(length: int, cells: int, least: int)
    by (nonlinear_arith)
    requires
        0 <= length,
        0 < cells,
        0 < least,
    ensures
        ({
            let q = length / cells;
            &&& q * cells <= length < (q + 1) * cells
            &&& q < least ==> length < (least + 1) * cells
        }),
{
}

/// A cell has as many whole pixels as the window has for each column and each
/// row, but 4 by 8 in any case. Where the terminal does not say how many, or says
/// that there are none, a cell has 12 by 24.
pub proof fn law_cell_size(window: Option<WindowSize>)
    ensures
        match window {
            Some(ws) => if ws.width == 0 || ws.height == 0 || ws.columns == 0 || ws.rows == 0 {
                cell_size(window) == (12int, 24int)
            } else {
                &&& is_share(cell_size(window).0, ws.width as int, ws.columns as int, 4)
                &&& is_share(cell_size(window).1, ws.height as int, ws.rows as int, 8)
            },
            None => cell_size(window) == (12int, 24int),
        },
{
    if let Some(ws) = window {
        if ws.columns > 0 && ws.rows > 0 {
            lemma_share(ws.width as int, ws.columns as int, 4);
            lemma_share(ws.height as int, ws.rows as int, 8);
        }
    }
}

/// In fullscreen a terminal without columns or rows, and a cell without pixels,
/// counts as having one.
pub proof fn law_fullscreen_has_a_cell(cols: int, rows: int, cell: (int, int))
    ensures
        cols <= 1 ==> fullscreen_area(cols, rows, cell) == fullscreen_area(1, rows, cell),
        rows <= 1 ==> fullscreen_area(cols, rows, cell) == fullscreen_area(cols, 1, cell),
        cell.0 <= 1 ==> fullscreen_area(cols, rows, cell) == fullscreen_area(
            cols,
            rows,
            (1, cell.1),
        ),
        cell.1 <= 1 ==> fullscreen_area(cols, rows, cell) == fullscreen_area(
            cols,
            rows,
            (cell.0, 1),
        ),
{
}

/// `count` cells of `pixels` pixels, from `first` on, are what whole cells a
/// picture of `video` pixels takes in the middle of `length` pixels. One cell it
/// takes in any case.
pub open spec fn is_middle(first: int, count: int, length: int, video: int, pixels: int) -> bool {
    &&& 2 * ((first - 1) * pixels) <= length - video
    &&& length - video < 2 * (first * pixels)
    &&& 1 <= count
    &&& count == 1 || count * pixels <= video
    &&& video < (count + 1) * pixels
}

proof fn lemma_middle(length: int, video: int, pixels: int)
    by (nonlinear_arith)
    requires
        1 <= pixels,
        0 <= video <= length,
    ensures
        ({
            let left = (length - video) / 2 / pixels;
            let n = video / pixels;
            &&& 2 * (left * pixels) <= length - video < 2 * ((left + 1) * pixels)
            &&& 0 <= n
            &&& n * pixels <= video < (n + 1) * pixels
            &&& n == 0 ==> video < 2 * pixels
        }),
{
    let off = (length - video) / 2;
    let left = off / pixels;
    assert(left * pixels <= off < (left + 1) * pixels);
    assert(off + 1 <= (left + 1) * pixels);
    assert(2 * off <= length - video <= 2 * off + 1);
}

/// In a terminal wider than 16:9 the video takes all the rows. `video` is the
/// width of a picture of that height that is 16:9, in whole pixels: it stands in
/// the middle of the columns.
pub proof fn law_fullscreen_in_a_wide_terminal(
    cols: int,
    rows: int,
    cell: (int, int),
    video: int,
)
    requires
        1 <= cols,
        1 <= rows,
        1 <= cell.0,
        1 <= cell.1,
        16 * (rows * cell.1) <= 9 * (cols * cell.0),
        9 * video <= 16 * (rows * cell.1) < 9 * (video + 1),
    ensures
        ({
            let r = fullscreen_area(cols, rows, cell);
            &&& r.y == 1 && r.height == rows
            &&& is_middle(r.x, r.width, cols * cell.0, video, cell.0)
        }),
{
    let (w, h) = (cols * cell.0, rows * cell.1);
    assert(h >= 1) by (nonlinear_arith)
        requires
            1 <= rows,
            1 <= cell.1,
            h == rows * cell.1,
    ;
    assert(video == h * 16 / 9);
    lemma_middle(w, video, cell.0);
    lemma_whole(rows, cell.1);
}

/// In a terminal narrower than 16:9 the video takes all the columns. `video` is
/// the height of a picture of that width that is 16:9, in whole pixels: it stands
/// in the middle of the rows.
pub proof fn law_fullscreen_in_a_narrow_terminal(
    cols: int,
    rows: int,
    cell: (int, int),
    video: int,
)
    requires
        1 <= cols,
        1 <= rows,
        1 <= cell.0,
        1 <= cell.1,
        9 * (cols * cell.0) < 16 * (rows * cell.1),
        16 * video <= 9 * (cols * cell.0) < 16 * (video + 1),
    ensures
        ({
            let r = fullscreen_area(cols, rows, cell);
            &&& r.x == 1 && r.width == cols
            &&& is_middle(r.y, r.height, rows * cell.1, video, cell.1)
        }),
{
    let (w, h) = (cols * cell.0, rows * cell.1);
    assert(w >= 1) by (nonlinear_arith)
        requires
            1 <= cols,
            1 <= cell.0,
            w == cols * cell.0,
    ;
    assert(video == w * 9 / 16);
    lemma_middle(h, video, cell.1);
    lemma_whole(cols, cell.0);
}

proof fn lemma_whole(cells: int, pixels: int)
    by (nonlinear_arith)
    requires
        1 <= cells,
        1 <= pixels,
    ensures
        (cells * pixels) / pixels == cells,
        0int / 2 / pixels == 0,
{
}

/// The place in fullscreen can be computed wherever nine times the width and
/// sixteen times the height of the terminal, in pixels, fit 32 bits.
pub proof fn law_canvas_in_range(cols: int, rows: int, cell: (int, int))
    requires
        1 <= cols,
        1 <= rows,
        1 <= cell.0,
        1 <= cell.1,
    ensures
        canvas_in_range(cols, rows, cell) <==> 9 * (cols * cell.0) <= 0xffff_ffff && 16 * (rows
            * cell.1) <= 0xffff_ffff,
        canvas_in_range(0, rows, cell) == canvas_in_range(1, rows, cell),
        canvas_in_range(cols, 0, cell) == canvas_in_range(cols, 1, cell),
        canvas_in_range(cols, rows, (0, cell.1)) == canvas_in_range(cols, rows, (1, cell.1)),
        canvas_in_range(cols, rows, (cell.0, 0)) == canvas_in_range(cols, rows, (cell.0, 1)),
{
}

/// A rectangle is seen as it is held.
pub proof fn law_rect_is_seen(r: Rect)
    ensures
        r@.x == r.x && r@.y == r.y && r@.width == r.width && r@.height == r.height,
{
}

} // verus!
