//! What the library window shows: its bar, the cards that are drawn and
//! how, and whose thumbnails are there.

use vstd::prelude::*;
use crate::geom::{max_of, min_of};
use crate::grid::{
    columns,
    columns_of,
    drawn_rows,
    keep_window,
    rows_of,
    spacer,
    visible_rows,
    TALL,
    THUMB_KEEP_ROWS,
};
use crate::library::{lemma_place, paths_of, place_of, Library};
use crate::text::{lemma_texts_push, same, texts};

verus! {

/// A part of the window's bar.
#[derive(Clone, Copy, PartialEq, Eq, Structural, Debug)]
pub enum BarPart {
    /// How many are selected.
    Selected,
    Copy,
    Delete,
    Clear,
    /// How many captures there are.
    Count,
    Capture,
    Settings,
    Help,
}

/// What a frame of the grid draws.
#[derive(Clone, Copy, PartialEq, Eq, Debug)]
pub struct Page {
    /// The cards from `first` up to, not with, `end`.
    pub first: usize,
    pub end: usize,
    /// The spacers above and below them.
    pub top: i64,
    pub bottom: i64,
    /// The store answered, and there is nothing.
    pub empty: bool,
    /// The cards whose thumbnails are kept.
    pub keep: (usize, usize),
    /// They are others than before: decode what is missing.
    pub moved: bool,
    /// More thumbnails are there than they need.
    pub evict: bool,
}

/// How a card is drawn.
#[derive(Clone, Copy, PartialEq, Eq, Structural, Debug)]
pub struct CardLook {
    pub selected: bool,
    pub hovered: bool,
    pub pressed: bool,
    /// How far the circle is shown, in parts.
    pub circle: i64,
    /// A circle that is not shown lets clicks through to the card.
    pub clickable: bool,
}

/// How far an unselected card's circle is shown while others are.
pub const OFFERED: i64 = 850_000_000;

/// The first card behind the last row.
pub open spec fn page_end(last: int, cols: int, n: int) -> int {
    min_of((last + 1) * cols, n)
}

/// The cards whose thumbnails are kept, for the drawn rows.
pub open spec fn keep_of(first: int, last: int, cols: int, n: int) -> (int, int) {
    (
        max_of(first - THUMB_KEEP_ROWS, 0) * cols,
        min_of((last + 1 + THUMB_KEEP_ROWS) * cols, n),
    )
}

/// A drawn row starts with a card.
proof fn lemma_first_card(n: int, cols: int, row: int)
    requires
        n > 0,
        cols >= 1,
        0 <= row < rows_of(n, cols),
    ensures
        0 <= row * cols < n,
{
    assert(row * cols < n) by (nonlinear_arith)
        requires
            cols >= 1,
            row >= 0,
            row + 1 <= (n + cols - 1) / cols,
    ;
    assert(0 <= row * cols) by (nonlinear_arith)
        requires
            cols >= 1,
            row >= 0,
    ;
}

impl Library {
    /// The window's bar: for the selection where there is one.
    pub fn bar(&self) -> (r: Vec<BarPart>)
        ensures
            r@ == (if self.selected@.len() > 0 {
                seq![BarPart::Selected, BarPart::Copy, BarPart::Delete, BarPart::Clear]
            } else {
                seq![BarPart::Count, BarPart::Capture, BarPart::Settings, BarPart::Help]
            }),
    {
        if self.selected.len() > 0 {
            vec![BarPart::Selected, BarPart::Copy, BarPart::Delete, BarPart::Clear]
        } else {
            vec![BarPart::Count, BarPart::Capture, BarPart::Settings, BarPart::Help]
        }
    }

    /// A frame of the grid, in a window of this width, scrolled by
    /// `scroll` in a view of this height, while `cached` thumbnails are
    /// there.
    pub fn page(&mut self, width: i64, scroll: i64, view: i64, cached: usize) -> (r: Page)
        requires
            old(self).listing.entries@.len() <= 1_000_000_000,
            0 <= width <= TALL,
            -TALL <= scroll <= TALL,
            -TALL <= view <= TALL,
        ensures
            ({
                let n = old(self).listing.entries@.len() as int;
                let cols = columns_of(width as int);
                let rows = rows_of(n, cols);
                let (first, last) = drawn_rows(n, cols, scroll as int, view as int);
                let keep = keep_of(first, last, cols, n);
                &&& r.first == min_of(first * cols, n)
                &&& r.end == page_end(last, cols, n)
                &&& r.top == (if rows == 0 {
                    0
                } else {
                    spacer(first)
                })
                &&& r.bottom == (if rows == 0 {
                    0
                } else {
                    spacer(rows - last - 1)
                })
                &&& r.empty == (old(self).listing.listed is Some && n == 0)
                &&& r.keep.0 == keep.0 && r.keep.1 == keep.1
                &&& r.moved == (r.keep != old(self).thumb_keep)
                &&& r.evict == (r.moved && cached > r.keep.1 - r.keep.0)
            }),
            r.first <= r.end <= old(self).listing.entries@.len(),
            r.keep.0 <= r.first,
            r.end <= r.keep.1 <= old(self).listing.entries@.len(),
            *final(self) == (Library { thumb_keep: r.keep, ..*old(self) }),
    {
        let n: usize = self.listing.entries.len();
        let cols: usize = columns(width);
        let (first, last, top, bottom) = visible_rows(n, cols, scroll, view);
        proof {
            assert(rows_of(n as int, cols as int) <= n && (n > 0 ==> rows_of(
                n as int,
                cols as int,
            ) > 0)) by (nonlinear_arith)
                requires
                    rows_of(n as int, cols as int) == (n + cols - 1) / cols as int,
                    cols >= 1,
                    n >= 0,
            ;
            if n > 0 {
                lemma_first_card(n as int, cols as int, first as int);
            }
            assert(first * cols <= (last + 1) * cols <= (last + 1 + THUMB_KEEP_ROWS) * cols
                && max_of(first - THUMB_KEEP_ROWS, 0) * cols <= first * cols) by (nonlinear_arith)
                requires
                    first <= last,
                    cols >= 0,
                    0 <= max_of(first - THUMB_KEEP_ROWS, 0) <= first,
                    THUMB_KEEP_ROWS >= 0,
            ;
            assert((last + 1) * cols <= 1_000_000_001 * 1_000_000_000) by (nonlinear_arith)
                requires
                    0 <= last <= 1_000_000_000,
                    0 <= cols <= 1_000_000_000,
            ;
            assert(0 * cols == 0) by (nonlinear_arith);
        }
        let keep = keep_window(first, last, cols, n);
        let behind: u64 = (last as u64 + 1) * cols as u64;
        let end: usize = if behind < n as u64 {
            behind as usize
        } else {
            n
        };
        let (moved, evict) = self.keep_thumbs(keep, cached);
        Page {
            first: first * cols,
            end,
            top,
            bottom,
            empty: self.listing.listed.is_some() && n == 0,
            keep,
            moved,
            evict,
        }
    }

    /// How card `index` is drawn, whose selection and hover are this far,
    /// in parts.
    pub fn look(&self, index: usize, sel: i64, hover: i64) -> (r: CardLook)
        requires
            index < self.listing.entries@.len(),
        ensures
            ({
                let selected = texts(self.selected@).contains(
                    self.listing.entries@[index as int].path@,
                );
                let offered = if self.selected@.len() > 0 && !selected {
                    OFFERED as int
                } else {
                    0
                };
                &&& r.selected == selected
                &&& r.hovered == (self.hovered == Some(index))
                &&& r.pressed == (self.pressed == Some(index))
                &&& r.circle == max_of(max_of(sel as int, hover as int), offered)
                &&& r.clickable == (selected || r.circle > 0)
            }),
    {
        let selected = self.is_selected(self.listing.entries[index].path.as_str());
        let offered: i64 = if self.selected.len() > 0 && !selected {
            OFFERED
        } else {
            0
        };
        let most: i64 = if sel > hover {
            sel
        } else {
            hover
        };
        let circle: i64 = if most > offered {
            most
        } else {
            offered
        };
        CardLook {
            selected,
            hovered: match self.hovered {
                Some(h) => h == index,
                None => false,
            },
            pressed: match self.pressed {
                Some(p) => p == index,
                None => false,
            },
            circle,
            clickable: selected || circle > 0,
        }
    }
}

/// The paths from `lo` up to, not with, `hi` that are not there.
pub open spec fn missing_of(
    paths: Seq<Seq<char>>,
    cached: Seq<Seq<char>>,
    lo: int,
    hi: int,
) -> Seq<Seq<char>>
    decreases hi - lo,
{
    if lo < 0 || hi <= lo || hi > paths.len() {
        Seq::empty()
    } else if cached.contains(paths[hi - 1]) {
        missing_of(paths, cached, lo, hi - 1)
    } else {
        missing_of(paths, cached, lo, hi - 1).push(paths[hi - 1])
    }
}

/// The first `n` that are there but not wanted.
pub open spec fn stray_of(cached: Seq<Seq<char>>, wanted: Seq<Seq<char>>, n: int) -> Seq<Seq<char>>
    decreases n,
{
    if n <= 0 || n > cached.len() {
        Seq::empty()
    } else if wanted.contains(cached[n - 1]) {
        stray_of(cached, wanted, n - 1)
    } else {
        stray_of(cached, wanted, n - 1).push(cached[n - 1])
    }
}

impl Library {
    /// The captures of these cards whose thumbnail is still to be decoded.
    pub fn missing(&self, range: (usize, usize), cached: &Vec<String>) -> (r: Vec<String>)
        requires
            range.0 <= range.1 <= self.listing.entries@.len(),
        ensures
            texts(r@) == missing_of(
                paths_of(self.listing.entries@),
                texts(cached@),
                range.0 as int,
                range.1 as int,
            ),
    {
        let ghost paths = paths_of(self.listing.entries@);
        let mut out: Vec<String> = Vec::new();
        let mut i: usize = range.0;
        assert(texts(out@) =~= Seq::empty());
        while i < range.1
            invariant
                range.0 <= i <= range.1 <= self.listing.entries@.len(),
                paths == paths_of(self.listing.entries@),
                texts(out@) == missing_of(paths, texts(cached@), range.0 as int, i as int),
            decreases range.1 - i,
        {
            let path = self.listing.entries[i].path.as_str();
            proof {
                lemma_place(texts(cached@), path@, 0);
            }
            if place_of(cached, path).is_none() {
                let t = path.to_owned();
                proof {
                    lemma_texts_push(out@, t);
                }
                out.push(t);
            }
            i = i + 1;
        }
        out
    }

    /// The thumbnails that none of these cards shows.
    pub fn stray(&self, range: (usize, usize), cached: &Vec<String>) -> (r: Vec<String>)
        requires
            range.0 <= range.1 <= self.listing.entries@.len(),
        ensures
            texts(r@) == stray_of(
                texts(cached@),
                paths_of(self.listing.entries@).subrange(range.0 as int, range.1 as int),
                cached@.len() as int,
            ),
    {
        let ghost wanted = paths_of(self.listing.entries@).subrange(
            range.0 as int,
            range.1 as int,
        );
        let mut out: Vec<String> = Vec::new();
        let mut i: usize = 0;
        assert(texts(out@) =~= Seq::empty());
        while i < cached.len()
            invariant
                i <= cached@.len(),
                range.0 <= range.1 <= self.listing.entries@.len(),
                wanted == paths_of(self.listing.entries@).subrange(range.0 as int, range.1 as int),
                texts(out@) == stray_of(texts(cached@), wanted, i as int),
            decreases cached@.len() - i,
        {
            let t = cached[i].as_str();
            assert(texts(cached@)[i as int] == t@);
            if !self.shows(range, t) {
                let t = t.to_owned();
                proof {
                    lemma_texts_push(out@, t);
                }
                out.push(t);
            }
            i = i + 1;
        }
        out
    }

    fn shows(&self, range: (usize, usize), path: &str) -> (r: bool)
        requires
            range.0 <= range.1 <= self.listing.entries@.len(),
        ensures
            r == paths_of(self.listing.entries@).subrange(
                range.0 as int,
                range.1 as int,
            ).contains(path@),
    {
        let ghost wanted = paths_of(self.listing.entries@).subrange(
            range.0 as int,
            range.1 as int,
        );
        let mut i: usize = range.0;
        while i < range.1
            invariant
                range.0 <= i <= range.1 <= self.listing.entries@.len(),
                wanted == paths_of(self.listing.entries@).subrange(range.0 as int, range.1 as int),
                forall|k: int| 0 <= k < i - range.0 ==> #[trigger] wanted[k] != path@,
            decreases range.1 - i,
        {
            assert(wanted[i - range.0] == self.listing.entries@[i as int].path@);
            if same(self.listing.entries[i].path.as_str(), path) {
                return true;
            }
            i = i + 1;
        }
        false
    }
}

proof fn lemma_missing(
    paths: Seq<Seq<char>>,
    cached: Seq<Seq<char>>,
    lo: int,
    hi: int,
    p: Seq<char>,
)
    requires
        0 <= lo <= hi <= paths.len(),
    ensures
        missing_of(paths, cached, lo, hi).contains(p) == (paths.subrange(lo, hi).contains(p)
            && !cached.contains(p)),
    decreases hi - lo,
{
    if lo < hi {
        lemma_missing(paths, cached, lo, hi - 1, p);
        let less = missing_of(paths, cached, lo, hi - 1);
        let last = paths[hi - 1];
        assert(paths.subrange(lo, hi) =~= paths.subrange(lo, hi - 1).push(last));
        lemma_push_contains(paths.subrange(lo, hi - 1), last, p);
        lemma_push_contains(less, last, p);
    }
}

proof fn lemma_stray(cached: Seq<Seq<char>>, wanted: Seq<Seq<char>>, n: int, p: Seq<char>)
    requires
        0 <= n <= cached.len(),
    ensures
        stray_of(cached, wanted, n).contains(p) == (cached.take(n).contains(p) && !wanted.contains(
            p,
        )),
    decreases n,
{
    if n > 0 {
        lemma_stray(cached, wanted, n - 1, p);
        let last = cached[n - 1];
        assert(cached.take(n) =~= cached.take(n - 1).push(last));
        lemma_push_contains(cached.take(n - 1), last, p);
        lemma_push_contains(stray_of(cached, wanted, n - 1), last, p);
    }
}

proof fn lemma_push_contains(s: Seq<Seq<char>>, last: Seq<char>, p: Seq<char>)
    ensures
        s.push(last).contains(p) == (s.contains(p) || last == p),
{
    if s.contains(p) {
        let k = choose|k: int| 0 <= k < s.len() && s[k] == p;
        assert(s.push(last)[k] == p);
    }
    if last == p {
        assert(s.push(last)[s.len() as int] == p);
    }
}

/// Once the strays are dropped and what is missing is decoded, the
/// thumbnails of exactly the kept cards are there.
pub proof fn law_thumbs_kept(
    paths: Seq<Seq<char>>,
    cached: Seq<Seq<char>>,
    lo: int,
    hi: int,
    p: Seq<char>,
)
    requires
        0 <= lo <= hi <= paths.len(),
    ensures
        ({
            let wanted = paths.subrange(lo, hi);
            let stray = stray_of(cached, wanted, cached.len() as int);
            let missing = missing_of(paths, cached, lo, hi);
            wanted.contains(p) == ((cached.contains(p) && !stray.contains(p)) || missing.contains(
                p,
            ))
        }),
{
    let wanted = paths.subrange(lo, hi);
    lemma_missing(paths, cached, lo, hi, p);
    lemma_stray(cached, wanted, cached.len() as int, p);
    assert(cached.take(cached.len() as int) =~= cached);
}

/// The thumbnails are kept of every card that is drawn, and of eight rows
/// to each side of them.
pub proof fn law_keep(first: int, last: int, cols: int, n: int, i: int)
    requires
        0 <= first <= last,
        1 <= cols,
        0 <= i < n,
    ensures
        first * cols <= i < (last + 1) * cols ==> keep_of(first, last, cols, n).0 <= i < keep_of(
            first,
            last,
            cols,
            n,
        ).1,
        first >= 8 ==> keep_of(first, last, cols, n).0 == (first - 8) * cols,
        first < 8 ==> keep_of(first, last, cols, n).0 == 0,
        i < keep_of(first, last, cols, n).1 <==> i < (last + 9) * cols,
{
    let k = max_of(first - 8, 0);
    assert(k * cols <= first * cols) by (nonlinear_arith)
        requires
            k <= first,
            1 <= cols,
    ;
    assert((last + 1) * cols <= (last + 9) * cols) by (nonlinear_arith)
        requires
            1 <= cols,
    ;
    assert(0 * cols == 0) by (nonlinear_arith);
}

/// A page ends with the last card of its last row.
pub proof fn law_page(last: int, cols: int, n: int, i: int)
    requires
        0 <= last,
        1 <= cols,
        0 <= i < n,
    ensures
        i < page_end(last, cols, n) <==> i / cols <= last,
        page_end(last, cols, n) <= n,
{
    vstd::arithmetic::div_mod::lemma_fundamental_div_mod(i, cols);
    vstd::arithmetic::div_mod::lemma_mod_bound(i, cols);
    let q = i / cols;
    if q <= last {
        assert(cols * q + i % cols < (last + 1) * cols) by (nonlinear_arith)
            requires
                q <= last,
                i % cols < cols,
                1 <= cols,
        ;
    } else {
        assert(cols * q >= (last + 1) * cols) by (nonlinear_arith)
            requires
                q >= last + 1,
                1 <= cols,
        ;
    }
}

} // verus!
