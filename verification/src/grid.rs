//! The library's grid: which rows are drawn, where a card stands, and how
//! the cards rise when the window opens.

use vstd::prelude::*;
use crate::flight::WAY;
use crate::geom::{floor_div, max_of, min_of, PX, Rect};

verus! {

/// A card's size and the space round it.
pub const CARD_W: i64 = 2_160_000;

pub const THUMB_H: i64 = 1_320_000;

pub const GAP: i64 = 160_000;

/// A card's height: the thumbnail, and the label under it.
pub const CARD_H: i64 = 1_580_000;

/// From one row to the next.
pub const PITCH: i64 = 1_740_000;

/// Rows of thumbnails kept beyond the drawn ones.
pub const THUMB_KEEP_ROWS: usize = 8;

/// Where the grid starts, below the toolbar.
pub const GRID_TOP: i64 = 560_000;

/// Scroll positions and windows lie within this.
pub const TALL: i64 = 1_000_000_000_000_000;

/// The rows of a grid of `n` cards.
pub open spec fn rows_of(n: int, cols: int) -> int {
    (n + max_of(cols, 1) - 1) / max_of(cols, 1)
}

/// `a / b`, rounded up.
pub open spec fn ceil_div(a: int, b: int) -> int {
    -((-a) / b)
}

/// The first row that is in view, not above the last one.
pub open spec fn top_row(rows: int, scroll: int) -> int {
    min_of(max_of((scroll - GAP) / PITCH as int, 0), rows - 1)
}

/// The last row whose top is above the view's bottom.
pub open spec fn bottom_row(rows: int, scroll: int, view: int) -> int {
    min_of(max_of(ceil_div(scroll + view - GAP, PITCH as int) - 1, 0), rows - 1)
}

/// The rows that are drawn: those in view and one more on each side. All
/// of them where the view is not laid out yet.
pub open spec fn drawn_rows(n: int, cols: int, scroll: int, view: int) -> (int, int) {
    let rows = rows_of(n, cols);
    if rows == 0 {
        (0, 0)
    } else if view <= 0 {
        (0, rows - 1)
    } else {
        (
            max_of(top_row(rows, scroll) - 1, 0),
            min_of(bottom_row(rows, scroll, view) + 1, rows - 1),
        )
    }
}

/// The height of the spacer that stands for `k` rows.
pub open spec fn spacer(k: int) -> int {
    if k > 0 {
        k * PITCH - GAP
    } else {
        0
    }
}

fn spacer_of(k: usize) -> (r: i64)
    requires
        k <= 1_000_000_000,
    ensures
        r == spacer(k as int),
{
    if k > 0 {
        k as i64 * PITCH - GAP
    } else {
        0
    }
}

/// The rows that are drawn, first and last, and the heights of the spacers
/// that stand for the rows above and below them.
pub fn visible_rows(n: usize, cols: usize, scroll: i64, view: i64) -> (r: (usize, usize, i64, i64))
    requires
        n <= 1_000_000_000,
        -TALL <= scroll <= TALL,
        -TALL <= view <= TALL,
    ensures
        ({
            let rows = rows_of(n as int, cols as int);
            let d = drawn_rows(n as int, cols as int, scroll as int, view as int);
            &&& r.0 == d.0 && r.1 == d.1
            &&& rows > 0 ==> r.0 <= r.1 < rows
            &&& r.2 == (if rows == 0 {
                0
            } else {
                spacer(d.0)
            })
            &&& r.3 == (if rows == 0 {
                0
            } else {
                spacer(rows - d.1 - 1)
            })
        }),
{
    let c: usize = if cols < 1 {
        1
    } else {
        cols
    };
    proof {
        assert(rows_of(n as int, cols as int) <= n && 0 <= rows_of(n as int, cols as int) && (n > 0
            ==> rows_of(n as int, cols as int) > 0)) by (nonlinear_arith)
            requires
                rows_of(n as int, cols as int) == (n + c - 1) / c as int,
                c >= 1,
                n >= 0,
        ;
    }
    let rows: usize = ((n as u128 + c as u128 - 1) / c as u128) as usize;
    assert(rows == rows_of(n as int, cols as int));
    if rows == 0 {
        return (0, 0, 0, 0);
    }
    if view <= 0 {
        return (0, rows - 1, 0, 0);
    }
    let at: i128 = floor_div((scroll - GAP) as i128, PITCH as i128);
    let first: usize = if at <= 0 {
        0
    } else if at > (rows - 1) as i128 {
        rows - 1
    } else {
        at as usize
    };
    let end: i128 = -floor_div(-((scroll + view - GAP) as i128), PITCH as i128);
    let last: usize = if end <= 1 {
        0
    } else if end - 1 > (rows - 1) as i128 {
        rows - 1
    } else {
        (end - 1) as usize
    };
    let first_row: usize = if first > 0 {
        first - 1
    } else {
        0
    };
    let last_row: usize = if last + 1 < rows {
        last + 1
    } else {
        rows - 1
    };
    proof {
        assert((scroll - GAP) / PITCH as int <= (scroll + view - GAP) / PITCH as int)
            by (nonlinear_arith)
            requires
                view > 0,
                PITCH == 1_740_000,
        ;
        assert((scroll + view - GAP) / PITCH as int <= end) by (nonlinear_arith)
            requires
                end == -((-(scroll + view - GAP)) / PITCH as int),
                PITCH == 1_740_000,
        ;
        assert(first_row <= last_row);
    }
    (first_row, last_row, spacer_of(first_row), spacer_of(rows - last_row - 1))
}

/// Where row `r` starts in the grid.
pub open spec fn row_top(r: int) -> int {
    GAP + r * PITCH
}

/// Where the first drawn row starts: below the grid's padding and, where
/// rows are left out above, their spacer and the gap after it.
pub open spec fn drawn_top(first: int) -> int {
    if first > 0 {
        GAP + spacer(first) + GAP
    } else {
        GAP as int
    }
}

/// Where the drawn content ends, padding included.
pub open spec fn drawn_end(rows: int, first: int, last: int) -> int {
    let below = rows - last - 1;
    let rendered = (last - first + 1) * PITCH - GAP;
    drawn_top(first) + rendered + GAP + if below > 0 {
        spacer(below) + GAP
    } else {
        0
    }
}

/// Leaving rows out moves nothing: the first drawn row stands where it
/// would with all rows drawn, and the content is as tall.
pub proof fn law_rows_in_place(rows: int, first: int, last: int)
    requires
        0 <= first <= last < rows,
    ensures
        drawn_top(first) == row_top(first),
        drawn_end(rows, first, last) == rows * PITCH + GAP,
{
    assert((last - first + 1) * PITCH == last * PITCH - first * PITCH + PITCH) by (nonlinear_arith);
    assert((rows - last - 1) * PITCH == rows * PITCH - last * PITCH - PITCH) by (nonlinear_arith);
}

/// Every row in view is drawn.
pub proof fn law_rows_in_view(n: int, cols: int, scroll: int, view: int, r: int)
    requires
        0 <= n,
        0 < view,
        0 <= r < rows_of(n, cols),
        row_top(r) < scroll + view,
        row_top(r) + CARD_H > scroll,
    ensures
        ({
            let d = drawn_rows(n, cols, scroll, view);
            d.0 <= r <= d.1
        }),
{
    let a = (scroll - GAP) / PITCH as int;
    let b = ceil_div(scroll + view - GAP, PITCH as int);
    assert(a <= r) by (nonlinear_arith)
        requires
            a == (scroll - GAP) / PITCH as int,
            GAP + r * PITCH + CARD_H > scroll,
            CARD_H <= PITCH,
            PITCH == 1_740_000,
            CARD_H == 1_580_000,
    ;
    assert(r < b) by (nonlinear_arith)
        requires
            b == -((-(scroll + view - GAP)) / PITCH as int),
            GAP + r * PITCH < scroll + view,
            PITCH == 1_740_000,
    ;
}

/// How many cards fit across a window.
pub open spec fn columns_of(width: int) -> int {
    max_of((width - GAP) / (CARD_W + GAP), 1)
}

/// How many cards fit across a window of this width.
pub fn columns(width: i64) -> (r: usize)
    requires
        0 <= width <= TALL,
    ensures
        r == columns_of(width as int),
        1 <= r <= 1_000_000_000,
{
    if width < GAP {
        return 1;
    }
    let n: i64 = (width - GAP) / (CARD_W + GAP);
    if n < 1 {
        1
    } else {
        n as usize
    }
}

/// Card `i` in the window, scrolled by this much.
pub open spec fn card_at(i: int, cols: int, scroll: int) -> Rect {
    Rect {
        x: (GAP + (i % cols) * (CARD_W + GAP)) as i64,
        y: (GRID_TOP + GAP + (i / cols) * PITCH - scroll) as i64,
        w: CARD_W,
        h: CARD_H,
    }
}

/// Card `i` in the window, scrolled by this much.
pub fn card_rect(i: usize, cols: usize, scroll: i64) -> (r: Rect)
    requires
        1 <= cols,
        i <= 1_000_000_000,
        -TALL <= scroll <= TALL,
    ensures
        r == card_at(i as int, cols as int, scroll as int),
        r.w == CARD_W && r.h == CARD_H,
        0 <= r.x <= 10 * TALL,
        -10 * TALL <= r.y <= 10 * TALL,
{
    let c: usize = i % cols;
    let k: usize = i / cols;
    proof {
        assert(i / cols <= i && i % cols <= i) by (nonlinear_arith)
            requires
                cols >= 1,
                i >= 0,
        ;
    }
    Rect {
        x: GAP + c as i64 * (CARD_W + GAP),
        y: GRID_TOP + GAP + k as i64 * PITCH - scroll,
        w: CARD_W,
        h: CARD_H,
    }
}

/// The cards whose thumbnails are kept: those of the drawn rows and some
/// beyond.
pub fn keep_window(first: usize, last: usize, cols: usize, n: usize) -> (r: (usize, usize))
    requires
        first <= last,
        last < 1_000_000_000,
        1 <= cols <= 1_000_000_000,
        n <= 1_000_000_000,
        first * cols <= n,
    ensures
        r.0 == max_of(first - THUMB_KEEP_ROWS, 0) * cols,
        r.1 == min_of((last + 1 + THUMB_KEEP_ROWS) * cols, n as int),
        r.0 <= r.1 <= n,
{
    let top: usize = if first > THUMB_KEEP_ROWS {
        first - THUMB_KEEP_ROWS
    } else {
        0
    };
    let end: u64 = last as u64 + 1 + THUMB_KEEP_ROWS as u64;
    proof {
        assert(top * cols <= first * cols && 0 <= top * cols) by (nonlinear_arith)
            requires
                0 <= top <= first,
                cols >= 0,
        ;
        assert(top * cols <= end * cols) by (nonlinear_arith)
            requires
                top <= end,
                cols >= 0,
        ;
        assert(end * cols <= 1_000_000_008 * 1_000_000_000) by (nonlinear_arith)
            requires
                0 <= end <= 1_000_000_008,
                0 <= cols <= 1_000_000_000,
        ;
    }
    let b: u64 = end * cols as u64;
    (
        top * cols,
        if b < n as u64 {
            b as usize
        } else {
            n
        },
    )
}

/// Each card rises over this long, this much after the one before it, in
/// milliseconds; the wait grows no more after this many cards.
pub const CASCADE_STAGGER: u64 = 25;

pub const CASCADE_RISE: u64 = 350;

pub const CASCADE_CARDS: u64 = 24;

/// Every card is in place by then.
pub const CASCADE_END: u64 = 950;

/// How far card `index` has risen, `at` milliseconds into the wave, in
/// parts of the whole way.
pub open spec fn risen(at: int, index: int) -> int {
    let wait = min_of(index, CASCADE_CARDS as int) * CASCADE_STAGGER;
    if at <= wait {
        0
    } else if at - wait >= CASCADE_RISE {
        WAY as int
    } else {
        (at - wait) * WAY / CASCADE_RISE as int
    }
}

/// How far card `index` has risen, `at` milliseconds into the wave.
pub fn cascade(at: u64, index: usize) -> (r: i64)
    ensures
        r == risen(at as int, index as int),
        0 <= r <= WAY,
{
    let k: u64 = if (index as u64) < CASCADE_CARDS {
        index as u64
    } else {
        CASCADE_CARDS
    };
    let wait: u64 = k * CASCADE_STAGGER;
    if at <= wait {
        0
    } else if at - wait >= CASCADE_RISE {
        WAY
    } else {
        ((at - wait) as i64 * WAY) / CASCADE_RISE as i64
    }
}

/// Every card is in place when the wave ends, none is before its own wait
/// is over, and none goes back down.
pub proof fn law_cascade(at: int, later: int, index: int)
    requires
        0 <= index,
        at <= later,
    ensures
        at >= CASCADE_END ==> risen(at, index) == WAY,
        at <= 0 ==> risen(at, index) == 0,
        risen(at, index) <= risen(later, index),
{
    let wait = min_of(index, CASCADE_CARDS as int) * CASCADE_STAGGER;
    let a = (at - wait) * WAY / CASCADE_RISE as int;
    let b = (later - wait) * WAY / CASCADE_RISE as int;
    assert(a <= b) by (nonlinear_arith)
        requires
            a == (at - wait) * WAY / CASCADE_RISE as int,
            b == (later - wait) * WAY / CASCADE_RISE as int,
            at <= later,
            WAY > 0,
            CASCADE_RISE == 350,
    ;
    if wait < at < wait + CASCADE_RISE {
        assert(0 <= a <= WAY) by (nonlinear_arith)
            requires
                a == (at - wait) * WAY / CASCADE_RISE as int,
                0 < at - wait < 350,
                WAY > 0,
                CASCADE_RISE == 350,
        ;
    }
    if wait < later < wait + CASCADE_RISE {
        assert(0 <= b) by (nonlinear_arith)
            requires
                b == (later - wait) * WAY / CASCADE_RISE as int,
                0 < later - wait,
                WAY > 0,
                CASCADE_RISE == 350,
        ;
    }
}

/// The cards stand in rows from the left to the right and from the top
/// down, with the same gap between them.
pub proof fn law_cards_in_rows(i: int, cols: int, scroll: int)
    requires
        0 <= i < 1_000_000_000,
        1 <= cols <= 1_000_000_000,
        -TALL <= scroll <= TALL,
    ensures
        ({
            let (a, b) = (card_at(i, cols, scroll), card_at(i + 1, cols, scroll));
            &&& (i + 1) % cols != 0 ==> b.left() == a.right() + 16 * PX && b.top() == a.top()
            &&& (i + 1) % cols == 0 ==> b.left() == 16 * PX && b.top() == a.bottom() + 16 * PX
            &&& a.w == 216 * PX && a.h == 158 * PX
        }),
        card_at(0, cols, scroll).left() == 16 * PX,
        card_at(0, cols, scroll).top() + scroll == 72 * PX,
        card_at(i, cols, scroll).top() + scroll == card_at(i, cols, 0).top(),
{
    let (q, r) = (i / cols, i % cols);
    assert(0 <= r < cols && 0 <= q <= i && i == q * cols + r) by (nonlinear_arith)
        requires
            0 <= i,
            cols >= 1,
            q == i / cols,
            r == i % cols,
    ;
    if r + 1 < cols {
        assert((i + 1) / cols == q && (i + 1) % cols == r + 1) by (nonlinear_arith)
            requires
                i == q * cols + r,
                0 <= r,
                r + 1 < cols,
                0 <= q,
        ;
    } else {
        assert((i + 1) / cols == q + 1 && (i + 1) % cols == 0) by (nonlinear_arith)
            requires
                i == q * cols + r,
                r + 1 == cols,
                0 <= q,
                cols >= 1,
        ;
    }
    assert(0int / cols == 0 && 0int % cols == 0) by (nonlinear_arith)
        requires
            cols >= 1,
    ;
}

/// As many columns as the window has room for, and at least one; as many
/// rows as the captures take.
pub proof fn law_columns(width: int, n: int, cols: int)
    requires
        0 <= width,
        0 <= n,
        1 <= cols,
    ensures
        columns_of(width) > 1 ==> 16 * PX + columns_of(width) * (232 * PX) <= width,
        16 * PX + (columns_of(width) + 1) * (232 * PX) > width,
        columns_of(width) >= 1,
        n <= rows_of(n, cols) * cols < n + cols,
{
    let k = (width - GAP) / (CARD_W + GAP);
    assert(k * 2_320_000 <= width - GAP < (k + 1) * 2_320_000) by (nonlinear_arith)
        requires
            k == (width - GAP) / (CARD_W + GAP),
            CARD_W + GAP == 2_320_000,
    ;
    let r = (n + cols - 1) / cols;
    assert(n <= r * cols < n + cols) by (nonlinear_arith)
        requires
            r == (n + cols - 1) / cols,
            cols >= 1,
            n >= 0,
    ;
}

/// The rows that are left out leave the room of their cards and of the
/// gaps between them: none for no row, and one pitch more for each.
pub proof fn law_spacer(k: int)
    requires
        0 < k,
    ensures
        spacer(0) == 0,
        spacer(1) == 1_580_000,
        spacer(k + 1) == spacer(k) + 1_740_000,
{
}

} // verus!
