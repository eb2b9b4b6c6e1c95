//! The library window: what is selected, what a click, a drag, a rubber
//! band and a key do, and which thumbnails are decoded.

use vstd::prelude::*;
use crate::geom::{least, max_of, min_of, most, Point, Rect, PX};
use crate::grid::{card_at, card_rect, columns, columns_of, CARD_W, TALL, THUMB_H};
use crate::listing::{kept_of, stale_of, alike, CaptureEntry, ListPass, Listing};
use crate::motion::Spring;
use crate::poise::Poise;
use crate::text::{decimal, lemma_texts_push, push_decimal, same, texts};

verus! {

/// A rubber band: where it was started and where it is.
#[derive(Clone, Copy, Debug, PartialEq, Eq, Structural)]
pub struct Band {
    pub from: Point,
    pub to: Point,
}

pub struct Library {
    pub listing: Listing,
    pub selected: Vec<String>,
    /// Where a range of cards starts.
    pub anchor: Option<usize>,
    pub hovered: Option<usize>,
    pub pressed: Option<usize>,
    /// The card that was pressed, and where.
    pub drag_start: Option<(usize, Point)>,
    pub drag_fired: bool,
    pub help: bool,
    pub status: Option<String>,
    pub band: Option<Band>,
    pub pass: ListPass,
    /// The cards whose thumbnails are kept.
    pub thumb_keep: (usize, usize),
    pub prefetching: bool,
    /// The newest range of cards that no decoding has covered yet.
    pub prefetch_want: Option<(usize, usize)>,
    pub poise: Poise,
}

/// A place that a pointer can have.
pub open spec fn pointed(p: Point) -> bool {
    -TALL <= p.x <= TALL && -TALL <= p.y <= TALL
}

impl Library {
    pub open spec fn wf(self, advance: int) -> bool {
        &&& advance > 0 && self.listing.wf(advance)
        &&& self.listing.entries@.len() <= 1_000_000_000
        &&& self.poise.wf()
        &&& self.drag_start matches Some(d) ==> pointed(d.1)
        &&& self.band matches Some(b) ==> pointed(b.from) && pointed(b.to)
    }

    /// A window before the store has answered.
    pub fn new() -> (r: Library)
        ensures
            forall|advance: int| advance > 0 ==> r.wf(advance),
            r.listing.listed is None && r.selected@.len() == 0,
            r.anchor is None && r.hovered is None && r.pressed is None && r.drag_start is None,
            !r.drag_fired && !r.help && r.status is None && r.band is None,
            r.pass == (ListPass { in_flight: false, again: false }),
            r.thumb_keep == (0usize, 0usize) && !r.prefetching && r.prefetch_want is None,
            r.poise.lifts@.len() == 0 && r.poise.rings@.len() == 0 && r.poise.last is None,
            r.poise.press == (Spring { value: 0, velocity: 0 }),
    {
        Library {
            listing: Listing::new(),
            selected: Vec::new(),
            anchor: None,
            hovered: None,
            pressed: None,
            drag_start: None,
            drag_fired: false,
            help: false,
            status: None,
            band: None,
            pass: ListPass::new(),
            thumb_keep: (0, 0),
            prefetching: false,
            prefetch_want: None,
            poise: Poise::new(),
        }
    }
}

/// The place of a text in a list, from `i` on.
pub open spec fn place_from(v: Seq<Seq<char>>, t: Seq<char>, i: int) -> Option<int>
    decreases v.len() - i,
{
    if i < 0 || i >= v.len() {
        None
    } else if v[i] == t {
        Some(i)
    } else {
        place_from(v, t, i + 1)
    }
}

/// The selection after `path` was toggled: taken out where it is, else
/// put at the end.
pub open spec fn toggled(sel: Seq<Seq<char>>, path: Seq<char>) -> Seq<Seq<char>> {
    match place_from(sel, path, 0) {
        Some(i) => sel.remove(i),
        None => sel.push(path),
    }
}

pub(crate) fn place_of(v: &Vec<String>, t: &str) -> (r: Option<usize>)
    ensures
        match place_from(texts(v@), t@, 0) {
            Some(i) => r matches Some(k) && k == i && i < v@.len(),
            None => r is None,
        },
{
    let mut i: usize = 0;
    while i < v.len()
        invariant
            i <= v@.len(),
            place_from(texts(v@), t@, 0) == place_from(texts(v@), t@, i as int),
        decreases v@.len() - i,
    {
        assert(texts(v@)[i as int] == v@[i as int]@);
        if same(v[i].as_str(), t) {
            return Some(i);
        }
        i = i + 1;
    }
    None
}

pub(crate) proof fn lemma_place(v: Seq<Seq<char>>, t: Seq<char>, i: int)
    requires
        0 <= i,
    ensures
        match place_from(v, t, i) {
            Some(k) => i <= k < v.len() && v[k] == t,
            None => forall|k: int| i <= k < v.len() ==> v[k] != t,
        },
    decreases v.len() - i,
{
    if i < v.len() && v[i] != t {
        lemma_place(v, t, i + 1);
    }
}

/// Toggling twice leaves a selection without repeats with the same paths:
/// each is selected just as before.
pub proof fn law_toggle_twice(sel: Seq<Seq<char>>, path: Seq<char>, other: Seq<char>)
    requires
        sel.no_duplicates(),
    ensures
        toggled(sel, path).no_duplicates(),
        toggled(sel, path).contains(path) == !sel.contains(path),
        other != path ==> toggled(sel, path).contains(other) == sel.contains(other),
        toggled(toggled(sel, path), path).contains(other) == sel.contains(other),
{
    lemma_toggle(sel, path, path);
    lemma_toggle(sel, path, other);
    lemma_toggle(toggled(sel, path), path, path);
    lemma_toggle(toggled(sel, path), path, other);
}

proof fn lemma_toggle(sel: Seq<Seq<char>>, path: Seq<char>, other: Seq<char>)
    requires
        sel.no_duplicates(),
    ensures
        toggled(sel, path).no_duplicates(),
        toggled(sel, path).contains(path) == !sel.contains(path),
        other != path ==> toggled(sel, path).contains(other) == sel.contains(other),
{
    lemma_place(sel, path, 0);
    let t = toggled(sel, path);
    match place_from(sel, path, 0) {
        Some(i) => {
            assert forall|k: int| 0 <= k < t.len() implies #[trigger] t[k] == (if k < i {
                sel[k]
            } else {
                sel[k + 1]
            }) by {}
            if sel.contains(other) && other != path {
                let k = choose|k: int| 0 <= k < sel.len() && sel[k] == other;
                if k < i {
                    assert(t[k] == other);
                } else {
                    assert(t[k - 1] == other);
                }
            }
        },
        None => {
            assert(t[sel.len() as int] == path);
            if sel.contains(other) {
                let k = choose|k: int| 0 <= k < sel.len() && sel[k] == other;
                assert(t[k] == other);
            }
        },
    }
}

/// The paths from the `i`th to the last but one of `hi`, each added where
/// it is not there yet.
pub open spec fn extended(
    sel: Seq<Seq<char>>,
    v: Seq<CaptureEntry>,
    i: int,
    hi: int,
) -> Seq<Seq<char>>
    decreases hi - i,
{
    if i < 0 || i >= hi || i >= v.len() {
        sel
    } else if sel.contains(v[i].path@) {
        extended(sel, v, i + 1, hi)
    } else {
        extended(sel.push(v[i].path@), v, i + 1, hi)
    }
}

/// The paths of a list of captures.
pub open spec fn paths_of(v: Seq<CaptureEntry>) -> Seq<Seq<char>> {
    Seq::new(v.len(), |i: int| v[i].path@)
}

/// What a click on a card does.
pub enum Click {
    Nothing,
    /// The selection changed.
    Selected,
    /// The capture opens in the editor, out of this rectangle.
    Open { path: String, from: Rect },
}

/// The rectangle the editor grows out of: a thumbnail round the click, on
/// the screen.
pub open spec fn morph_from(window: Point, at: Point) -> Rect {
    Rect {
        x: (window.x + at.x - CARD_W as int / 2) as i64,
        y: (window.y + at.y - THUMB_H as int / 2) as i64,
        w: CARD_W,
        h: THUMB_H,
    }
}

/// The rectangle the editor grows out of.
pub fn card_morph_rect(window: Point, at: Point) -> (r: Rect)
    requires
        pointed(window),
        pointed(at),
    ensures
        r == morph_from(window, at),
{
    Rect {
        x: window.x + at.x - CARD_W / 2,
        y: window.y + at.y - THUMB_H / 2,
        w: CARD_W,
        h: THUMB_H,
    }
}

impl Library {
    /// Select a capture, or no longer.
    pub fn toggle_select(&mut self, path: &str)
        ensures
            texts(final(self).selected@) == toggled(texts(old(self).selected@), path@),
            *final(self) == (Library { selected: final(self).selected, ..*old(self) }),
    {
        let ghost before = self.selected@;
        match place_of(&self.selected, path) {
            Some(i) => {
                self.selected.remove(i);
                assert(texts(self.selected@) =~= texts(before).remove(i as int));
            },
            None => {
                let p = path.to_owned();
                proof {
                    lemma_texts_push(self.selected@, p);
                }
                self.selected.push(p);
            },
        }
    }

    /// Is this capture selected?
    pub fn is_selected(&self, path: &str) -> (r: bool)
        ensures
            r == texts(self.selected@).contains(path@),
    {
        proof {
            lemma_place(texts(self.selected@), path@, 0);
        }
        place_of(&self.selected, path).is_some()
    }

    /// Select the cards from `lo` up to, not with, `hi`.
    fn select_range(&mut self, lo: usize, hi: usize)
        requires
            lo <= hi <= old(self).listing.entries@.len(),
        ensures
            texts(final(self).selected@) == extended(
                texts(old(self).selected@),
                old(self).listing.entries@,
                lo as int,
                hi as int,
            ),
            *final(self) == (Library { selected: final(self).selected, ..*old(self) }),
    {
        let mut i: usize = lo;
        while i < hi
            invariant
                lo <= i <= hi,
                hi <= self.listing.entries@.len(),
                *self == (Library { selected: self.selected, ..*old(self) }),
                extended(
                    texts(old(self).selected@),
                    old(self).listing.entries@,
                    lo as int,
                    hi as int,
                ) == extended(
                    texts(self.selected@),
                    self.listing.entries@,
                    i as int,
                    hi as int,
                ),
            decreases hi - i,
        {
            let here = self.is_selected(self.listing.entries[i].path.as_str());
            if !here {
                let p = self.listing.entries[i].path.as_str().to_owned();
                proof {
                    lemma_texts_push(self.selected@, p);
                }
                self.selected.push(p);
            }
            i = i + 1;
        }
    }

    /// A click on card `index`: with ctrl it is selected or no longer,
    /// with shift everything from the anchor to it is, and else it opens.
    pub fn click_card(&mut self, index: usize, ctrl: bool, shift: bool, window: Point, at: Point) -> (r:
        Click)
        requires
            pointed(window),
            pointed(at),
        ensures
            ({
                let v = old(self).listing.entries@;
                let sel = texts(old(self).selected@);
                if index >= v.len() {
                    r is Nothing && *final(self) == *old(self)
                } else if ctrl {
                    &&& r is Selected
                    &&& texts(final(self).selected@) == toggled(sel, v[index as int].path@)
                    &&& *final(self) == (Library {
                        selected: final(self).selected,
                        anchor: Some(index),
                        ..*old(self)
                    })
                } else if shift {
                    match old(self).anchor {
                        Some(a) => if a < v.len() {
                            &&& r is Selected
                            &&& texts(final(self).selected@) == extended(
                                sel,
                                v,
                                min_of(a as int, index as int),
                                max_of(a as int, index as int) + 1,
                            )
                            &&& *final(self) == (Library {
                                selected: final(self).selected,
                                ..*old(self)
                            })
                        } else {
                            r is Nothing && *final(self) == *old(self)
                        },
                        None => r is Nothing && *final(self) == *old(self),
                    }
                } else {
                    &&& r matches Click::Open { path, from } && path@ == v[index as int].path@
                        && from == morph_from(window, at)
                    &&& *final(self) == *old(self)
                }
            }),
    {
        if index >= self.listing.entries.len() {
            return Click::Nothing;
        }
        if ctrl {
            let p = self.listing.entries[index].path.as_str().to_owned();
            self.toggle_select(p.as_str());
            self.anchor = Some(index);
            return Click::Selected;
        }
        if shift {
            if let Some(a) = self.anchor {
                if a < self.listing.entries.len() {
                    let (lo, hi): (usize, usize) = if a <= index {
                        (a, index)
                    } else {
                        (index, a)
                    };
                    self.select_range(lo, hi + 1);
                    return Click::Selected;
                }
            }
            return Click::Nothing;
        }
        Click::Open {
            path: self.listing.entries[index].path.as_str().to_owned(),
            from: card_morph_rect(window, at),
        }
    }

    /// A click on a card's selection circle.
    pub fn click_circle(&mut self, index: usize, path: &str)
        ensures
            texts(final(self).selected@) == toggled(texts(old(self).selected@), path@),
            *final(self) == (Library {
                selected: final(self).selected,
                anchor: Some(index),
                ..*old(self)
            }),
    {
        self.toggle_select(path);
        self.anchor = Some(index);
    }

    /// The pointer came over card `index` or left it.
    pub fn hover(&mut self, index: usize, over: bool)
        ensures
            *final(self) == (Library {
                hovered: if over {
                    Some(index)
                } else if old(self).hovered == Some(index) {
                    None
                } else {
                    old(self).hovered
                },
                ..*old(self)
            }),
    {
        if over {
            self.hovered = Some(index);
        } else if let Some(h) = self.hovered {
            if h == index {
                self.hovered = None;
            }
        }
    }
}

/// The captures among the first `n` whose card meets the band.
pub open spec fn banded(
    v: Seq<CaptureEntry>,
    band: Rect,
    cols: int,
    scroll: int,
    n: int,
) -> Seq<Seq<char>>
    decreases n,
{
    if n <= 0 || n > v.len() {
        Seq::empty()
    } else if card_at(n - 1, cols, scroll).meets(band) {
        banded(v, band, cols, scroll, n - 1).push(v[n - 1].path@)
    } else {
        banded(v, band, cols, scroll, n - 1)
    }
}

/// The rectangle between two points.
pub open spec fn between(a: Point, b: Point) -> Rect {
    Rect {
        x: min_of(a.x as int, b.x as int) as i64,
        y: min_of(a.y as int, b.y as int) as i64,
        w: (max_of(a.x as int, b.x as int) - min_of(a.x as int, b.x as int)) as i64,
        h: (max_of(a.y as int, b.y as int) - min_of(a.y as int, b.y as int)) as i64,
    }
}

/// Is the band so short that it was a click?
pub open spec fn tiny(b: Band) -> bool {
    let dx = b.to.x - b.from.x;
    let dy = b.to.y - b.from.y;
    dx * dx + dy * dy < 16 * (PX * PX)
}

fn is_tiny(b: Band) -> (r: bool)
    requires
        pointed(b.from),
        pointed(b.to),
    ensures
        r == tiny(b),
{
    let dx: i128 = b.to.x as i128 - b.from.x as i128;
    let dy: i128 = b.to.y as i128 - b.from.y as i128;
    proof {
        let m: int = 2_000_000_000_000_000;
        assert(0 <= dx * dx <= m * m) by (nonlinear_arith)
            requires
                -m <= dx <= m,
        ;
        assert(0 <= dy * dy <= m * m) by (nonlinear_arith)
            requires
                -m <= dy <= m,
        ;
        assert(m * m == 4_000_000_000_000_000_000_000_000_000_000) by (nonlinear_arith)
            requires
                m == 2_000_000_000_000_000,
        ;
    }
    dx * dx + dy * dy < 1_600_000_000
}

/// The place of the first capture that is selected, from `i` on.
pub open spec fn first_selected(v: Seq<CaptureEntry>, sel: Seq<Seq<char>>, i: int) -> Option<usize>
    decreases v.len() - i,
{
    if i < 0 || i >= v.len() {
        None
    } else if sel.contains(v[i].path@) {
        Some(i as usize)
    } else {
        first_selected(v, sel, i + 1)
    }
}

impl Library {
    /// After a press at `p` on the grid: one that no card took starts a
    /// band.
    pub open spec fn banded(self, p: Point) -> Library {
        Library {
            band: if self.drag_start is None {
                Some(Band { from: p, to: p })
            } else {
                self.band
            },
            ..self
        }
    }

    /// A press on empty grid space starts a band.
    pub fn start_band(&mut self, p: Point)
        ensures
            *final(self) == old(self).banded(p),
    {
        if self.drag_start.is_none() {
            self.band = Some(Band { from: p, to: p });
        }
    }

    /// The band follows the pointer.
    pub fn stretch_band(&mut self, p: Point)
        ensures
            *final(self) == (Library {
                band: match old(self).band {
                    Some(b) => Some(Band { from: b.from, to: p }),
                    None => None,
                },
                ..*old(self)
            }),
    {
        if let Some(b) = self.band {
            self.band = Some(Band { from: b.from, to: p });
        }
    }

    fn band_paths(&self, r: Rect, cols: usize, scroll: i64) -> (out: Vec<String>)
        requires
            cols >= 1,
            -TALL <= scroll <= TALL,
            self.listing.entries@.len() <= 1_000_000_000,
            -TALL <= r.x <= TALL && -TALL <= r.y <= TALL,
            0 <= r.w <= 2 * TALL && 0 <= r.h <= 2 * TALL,
        ensures
            texts(out@) == banded(
                self.listing.entries@,
                r,
                cols as int,
                scroll as int,
                self.listing.entries@.len() as int,
            ),
    {
        let mut out: Vec<String> = Vec::new();
        let mut i: usize = 0;
        assert(texts(out@) =~= Seq::empty());
        while i < self.listing.entries.len()
            invariant
                cols >= 1,
                -TALL <= scroll <= TALL,
                self.listing.entries@.len() <= 1_000_000_000,
                -TALL <= r.x <= TALL && -TALL <= r.y <= TALL,
                0 <= r.w <= 2 * TALL && 0 <= r.h <= 2 * TALL,
                i <= self.listing.entries@.len(),
                texts(out@) == banded(
                    self.listing.entries@,
                    r,
                    cols as int,
                    scroll as int,
                    i as int,
                ),
            decreases self.listing.entries@.len() - i,
        {
            let c = card_rect(i, cols, scroll);
            let hit = c.x < r.x + r.w && c.x + c.w > r.x && c.y < r.y + r.h && c.y + c.h > r.y;
            if hit {
                let p = self.listing.entries[i].path.as_str().to_owned();
                proof {
                    lemma_texts_push(out@, p);
                }
                out.push(p);
            }
            i = i + 1;
        }
        out
    }

    fn first_place(&self) -> (r: Option<usize>)
        ensures
            r == first_selected(self.listing.entries@, texts(self.selected@), 0),
    {
        let mut i: usize = 0;
        while i < self.listing.entries.len()
            invariant
                i <= self.listing.entries@.len(),
                first_selected(self.listing.entries@, texts(self.selected@), 0) == first_selected(
                    self.listing.entries@,
                    texts(self.selected@),
                    i as int,
                ),
            decreases self.listing.entries@.len() - i,
        {
            if self.is_selected(self.listing.entries[i].path.as_str()) {
                return Some(i);
            }
            i = i + 1;
        }
        None
    }

    /// The band is let go. A short one was a click on empty space, which
    /// clears the selection; any other selects every card it meets.
    pub fn finish_band(&mut self, width: i64, scroll: i64)
        requires
            old(self).band matches Some(b) ==> pointed(b.from) && pointed(b.to),
            old(self).listing.entries@.len() <= 1_000_000_000,
            0 <= width <= TALL,
            -TALL <= scroll <= TALL,
        ensures
            match old(self).band {
                None => *final(self) == *old(self),
                Some(b) => {
                    let v = old(self).listing.entries@;
                    let sel = banded(
                        v,
                        between(b.from, b.to),
                        columns_of(width as int),
                        scroll as int,
                        v.len() as int,
                    );
                    &&& texts(final(self).selected@) == (if tiny(b) {
                        Seq::empty()
                    } else {
                        sel
                    })
                    &&& *final(self) == (Library {
                        band: None,
                        selected: final(self).selected,
                        anchor: if tiny(b) {
                            old(self).anchor
                        } else {
                            first_selected(v, sel, 0)
                        },
                        ..*old(self)
                    })
                },
            },
    {
        if let Some(b) = self.band {
            self.band = None;
            if is_tiny(b) {
                self.selected = Vec::new();
                assert(texts(self.selected@) =~= Seq::empty());
                return;
            }
            let (x0, x1): (i64, i64) = (least(b.from.x, b.to.x), most(b.from.x, b.to.x));
            let (y0, y1): (i64, i64) = (least(b.from.y, b.to.y), most(b.from.y, b.to.y));
            let r = Rect { x: x0, y: y0, w: x1 - x0, h: y1 - y0 };
            let sel = self.band_paths(r, columns(width), scroll);
            self.selected = sel;
            self.anchor = self.first_place();
        }
    }
}

/// What a key did.
#[derive(Clone, Copy, Debug, PartialEq, Eq, Structural)]
pub enum KeyDid {
    Nothing,
    Changed,
    /// The selection is to be deleted.
    Delete,
    /// The window is to close.
    Close,
}

/// What a key does: escape closes the help, clears the selection or
/// closes the window, in this order.
pub open spec fn key_does(key: Seq<char>, meta: bool, help: bool, selecting: bool) -> KeyDid {
    if key == "escape"@ {
        if help || selecting {
            KeyDid::Changed
        } else {
            KeyDid::Close
        }
    } else if key == "?"@ || key == "/"@ {
        KeyDid::Changed
    } else if (key == "delete"@ || key == "backspace"@) && selecting {
        KeyDid::Delete
    } else if key == "a"@ && meta {
        KeyDid::Changed
    } else {
        KeyDid::Nothing
    }
}

impl Library {
    fn select_all(&mut self)
        ensures
            texts(final(self).selected@) == paths_of(old(self).listing.entries@),
            *final(self) == (Library { selected: final(self).selected, ..*old(self) }),
    {
        let mut out: Vec<String> = Vec::new();
        let mut i: usize = 0;
        assert(texts(out@) =~= paths_of(self.listing.entries@).take(0));
        while i < self.listing.entries.len()
            invariant
                i <= self.listing.entries@.len(),
                texts(out@) == paths_of(self.listing.entries@).take(i as int),
                *self == *old(self),
            decreases self.listing.entries@.len() - i,
        {
            let p = self.listing.entries[i].path.as_str().to_owned();
            proof {
                lemma_texts_push(out@, p);
                let all = paths_of(self.listing.entries@);
                assert(all.take(i + 1) =~= all.take(i as int).push(all[i as int]));
            }
            out.push(p);
            i = i + 1;
        }
        assert(paths_of(self.listing.entries@).take(i as int) =~= paths_of(self.listing.entries@));
        self.selected = out;
    }

    /// A key went down.
    pub fn key_down(&mut self, key: &str, meta: bool) -> (r: KeyDid)
        ensures
            r == key_does(key@, meta, old(self).help, old(self).selected@.len() > 0),
            *final(self) == (Library {
                help: if key@ == "escape"@ {
                    false
                } else if key@ == "?"@ || key@ == "/"@ {
                    !old(self).help
                } else {
                    old(self).help
                },
                selected: final(self).selected,
                ..*old(self)
            }),
            texts(final(self).selected@) == (if key@ == "escape"@ && !old(self).help {
                Seq::empty()
            } else if key@ != "escape"@ && key@ != "?"@ && key@ != "/"@ && key@ == "a"@ && meta {
                paths_of(old(self).listing.entries@)
            } else {
                texts(old(self).selected@)
            }),
    {
        proof {
            reveal_strlit("a");
            reveal_strlit("delete");
            reveal_strlit("backspace");
        }
        let selecting = self.selected.len() > 0;
        if same(key, "escape") {
            if self.help {
                self.help = false;
                return KeyDid::Changed;
            }
            if selecting {
                self.selected = Vec::new();
                assert(texts(self.selected@) =~= Seq::empty());
                return KeyDid::Changed;
            }
            assert(texts(self.selected@) =~= Seq::empty());
            return KeyDid::Close;
        }
        if same(key, "?") || same(key, "/") {
            self.help = !self.help;
            return KeyDid::Changed;
        }
        if (same(key, "delete") || same(key, "backspace")) && selecting {
            assert("a"@.len() == 1 && "delete"@.len() == 6 && "backspace"@.len() == 9);
            return KeyDid::Delete;
        }
        if same(key, "a") && meta {
            self.select_all();
            return KeyDid::Changed;
        }
        KeyDid::Nothing
    }

    /// Take the selection out, to delete it.
    pub fn take_selection(&mut self) -> (paths: Vec<String>)
        ensures
            texts(paths@) == texts(old(self).selected@),
            *final(self) == (Library { selected: final(self).selected, ..*old(self) }),
            final(self).selected@.len() == 0,
    {
        let mut paths: Vec<String> = Vec::new();
        std::mem::swap(&mut paths, &mut self.selected);
        paths
    }

    /// After a press at `p` on card `index`.
    pub open spec fn held(self, index: usize, p: Point) -> Library {
        Library {
            drag_start: Some((index, p)),
            drag_fired: false,
            pressed: Some(index),
            ..self
        }
    }

    /// After the left button went up.
    pub open spec fn released(self) -> Library {
        Library { pressed: None, drag_start: None, ..self }
    }

    /// The left button went down on card `index`.
    pub fn press_card(&mut self, index: usize, p: Point)
        ensures
            *final(self) == old(self).held(index, p),
    {
        self.drag_start = Some((index, p));
        self.drag_fired = false;
        self.pressed = Some(index);
    }

    /// The left button went up.
    pub fn release_card(&mut self)
        ensures
            *final(self) == old(self).released(),
    {
        self.pressed = None;
        self.drag_start = None;
    }

    /// Is a move from the pressed card to `p` a drag: at least eight
    /// pixels, with the button held, and not begun yet?
    pub open spec fn drags(self, p: Point, held: bool) -> bool {
        &&& !self.drag_fired && held
        &&& self.drag_start matches Some(d) && (p.x - d.1.x) * (p.x - d.1.x) + (p.y - d.1.y) * (p.y
            - d.1.y) >= 64 * (PX * PX)
    }

    /// The pointer moved to `p` over a card. The paths of the files that
    /// are dragged come back: the selection, where the card is in it, else
    /// the card's own.
    pub fn drag_card(&mut self, p: Point, held: bool) -> (r: Option<Vec<String>>)
        requires
            pointed(p),
            old(self).drag_start matches Some(d) ==> pointed(d.1),
        ensures
            ({
                let v = old(self).listing.entries@;
                let up = if held {
                    *old(self)
                } else {
                    old(self).released()
                };
                if !old(self).drags(p, held) {
                    r is None && *final(self) == up
                } else {
                    let i = (old(self).drag_start->0).0;
                    if i >= v.len() {
                        &&& r is None
                        &&& *final(self) == (Library { drag_fired: true, drag_start: None, ..up })
                    } else {
                        let own = v[i as int].path@;
                        &&& *final(self) == (Library { drag_fired: true, ..up })
                        &&& r matches Some(paths) && texts(paths@) == (if texts(
                            old(self).selected@,
                        ).contains(own) {
                            texts(old(self).selected@)
                        } else {
                            seq![own]
                        })
                    }
                }
            }),
    {
        if !held {
            self.release_card();
            return None;
        }
        if self.drag_fired {
            return None;
        }
        let d = match self.drag_start {
            Some(d) => d,
            None => {
                return None;
            },
        };
        if !moved_far(d.1, p) {
            return None;
        }
        self.drag_fired = true;
        if d.0 >= self.listing.entries.len() {
            self.drag_start = None;
            return None;
        }
        let own = self.listing.entries[d.0].path.as_str().to_owned();
        if self.is_selected(own.as_str()) {
            Some(copy_texts(&self.selected))
        } else {
            let ghost path = own;
            let out: Vec<String> = vec![own];
            assert(texts(out@) =~= seq![path@]);
            Some(out)
        }
    }
}

/// A press on empty grid space starts a band, whatever cards were pressed
/// and let go before; a press that a card took starts none.
pub proof fn law_band_starts(lib: Library, p: Point, index: usize, at: Point)
    ensures
        lib.released().banded(p).band == Some(Band { from: p, to: p }),
        lib.held(index, at).banded(p) == lib.held(index, at),
{
}

fn moved_far(a: Point, b: Point) -> (r: bool)
    requires
        pointed(a),
        pointed(b),
    ensures
        r == ((b.x - a.x) * (b.x - a.x) + (b.y - a.y) * (b.y - a.y) >= 64 * (PX * PX)),
{
    let dx: i128 = b.x as i128 - a.x as i128;
    let dy: i128 = b.y as i128 - a.y as i128;
    proof {
        let m: int = 2_000_000_000_000_000;
        assert(0 <= dx * dx <= m * m) by (nonlinear_arith)
            requires
                -m <= dx <= m,
        ;
        assert(0 <= dy * dy <= m * m) by (nonlinear_arith)
            requires
                -m <= dy <= m,
        ;
        assert(m * m == 4_000_000_000_000_000_000_000_000_000_000) by (nonlinear_arith)
            requires
                m == 2_000_000_000_000_000,
        ;
    }
    dx * dx + dy * dy >= 6_400_000_000
}

/// The same texts, in a list of their own.
pub fn copy_texts(v: &Vec<String>) -> (r: Vec<String>)
    ensures
        texts(r@) == texts(v@),
{
    let mut r: Vec<String> = Vec::new();
    let mut i: usize = 0;
    assert(texts(r@) =~= texts(v@).take(0));
    while i < v.len()
        invariant
            i <= v@.len(),
            texts(r@) == texts(v@).take(i as int),
        decreases v@.len() - i,
    {
        let t = v[i].as_str().to_owned();
        proof {
            lemma_texts_push(r@, t);
            assert(texts(v@).take(i + 1) =~= texts(v@).take(i as int).push(texts(v@)[i as int]));
        }
        r.push(t);
        i = i + 1;
    }
    assert(texts(v@).take(i as int) =~= texts(v@));
    r
}

/// What the store's listing changed.
pub struct Refreshed {
    /// The captures whose thumbnail is out of date.
    pub stale: Vec<String>,
    /// The cards to decode, and whether a decoding starts for it.
    pub range: (usize, usize),
    pub decode: bool,
}

impl Library {
    /// A range of cards is to be decoded. One that is decoding takes it up
    /// when it is done; does another start?
    pub fn prefetch_thumbs(&mut self, range: (usize, usize)) -> (starts: bool)
        ensures
            starts == !old(self).prefetching,
            *final(self) == (Library {
                prefetching: true,
                prefetch_want: Some(range),
                ..*old(self)
            }),
    {
        let starts = !self.prefetching;
        self.prefetching = true;
        self.prefetch_want = Some(range);
        starts
    }

    /// The range a decoding takes up next, cut to the captures shown. None
    /// ends it.
    pub fn next_range(&mut self) -> (r: Option<(usize, usize)>)
        ensures
            match old(self).prefetch_want {
                Some(w) => {
                    let n = old(self).listing.entries@.len() as int;
                    &&& r matches Some(g) && g.0 == min_of(w.0 as int, n) && g.1 == min_of(
                        w.1 as int,
                        n,
                    )
                    &&& *final(self) == (Library { prefetch_want: None, ..*old(self) })
                },
                None => r is None && *final(self) == (Library { prefetching: false, ..*old(self) }),
            },
    {
        let n: usize = self.listing.entries.len();
        match self.prefetch_want {
            Some(w) => {
                self.prefetch_want = None;
                let a: usize = if w.0 < n {
                    w.0
                } else {
                    n
                };
                let b: usize = if w.1 < n {
                    w.1
                } else {
                    n
                };
                Some((a, b))
            },
            None => {
                self.prefetching = false;
                None
            },
        }
    }

    /// The drawn rows moved: the range of thumbnails to keep. Is there
    /// something to evict and decode, and does more stay than it keeps?
    pub fn keep_thumbs(&mut self, keep: (usize, usize), cached: usize) -> (r: (bool, bool))
        requires
            keep.0 <= keep.1,
        ensures
            r.0 == (keep != old(self).thumb_keep),
            r.1 == (r.0 && cached > keep.1 - keep.0),
            *final(self) == (Library { thumb_keep: keep, ..*old(self) }),
    {
        let moved = keep.0 != self.thumb_keep.0 || keep.1 != self.thumb_keep.1;
        self.thumb_keep = keep;
        (moved, moved && cached > keep.1 - keep.0)
    }

    /// A listing of the store is there: show it. None where it is what is
    /// shown.
    pub fn show(&mut self, fresh: Vec<CaptureEntry>, now: u64, advance: i64) -> (r: Option<Refreshed>)
        requires
            old(self).wf(advance as int),
            fresh@.len() <= 1_000_000_000,
        ensures
            final(self).wf(advance as int),
            if old(self).listing.listed is Some && alike(fresh@, old(self).listing.entries@) {
                r is None && final(self).listing == old(self).listing
                    && final(self).selected@ == old(self).selected@
            } else {
                &&& r matches Some(c) && texts(c.stale@) == stale_of(
                    old(self).listing.entries@,
                    fresh@,
                    fresh@.len() as int,
                ) && c.range == (if old(self).thumb_keep.0 < old(self).thumb_keep.1 {
                    old(self).thumb_keep
                } else {
                    (0usize, 48usize)
                }) && c.decode == !old(self).prefetching
                &&& final(self).listing.entries == fresh
                &&& texts(final(self).selected@) == kept_of(
                    texts(old(self).selected@),
                    fresh@,
                    old(self).selected@.len() as int,
                )
            },
            *final(self) == (Library {
                listing: final(self).listing,
                selected: final(self).selected,
                prefetching: old(self).prefetching || r is Some,
                prefetch_want: match r {
                    Some(c) => Some(c.range),
                    None => old(self).prefetch_want,
                },
                ..*old(self)
            }),
    {
        let stale = self.listing.set(fresh, &mut self.selected, now, advance);
        match stale {
            None => None,
            Some(stale) => {
                let range: (usize, usize) = if self.thumb_keep.0 < self.thumb_keep.1 {
                    self.thumb_keep
                } else {
                    (0, 48)
                };
                let decode = self.prefetch_thumbs(range);
                Some(Refreshed { stale, range, decode })
            },
        }
    }
}

/// Something counted, in words.
pub open spec fn counted(n: nat, what: Seq<char>) -> Seq<char> {
    decimal(n) + what
}

/// "3 selected", "3 copied", "3 delete(s) failed".
pub fn count_text(n: usize, what: &str) -> (r: String)
    ensures
        r@ == counted(n as nat, what@),
{
    let mut r: String = String::new();
    push_decimal(&mut r, n as u64);
    r.append(what);
    assert(r@ =~= counted(n as nat, what@));
    r
}

/// The selection's count.
pub fn selected_label(n: usize) -> (r: String)
    ensures
        r@ == counted(n as nat, " selected"@),
{
    count_text(n, " selected")
}

/// What copying the selection is told as.
pub fn copied_status(n: usize, result: Result<(), String>) -> (r: String)
    ensures
        match result {
            Ok(()) => r@ == counted(n as nat, " copied"@),
            Err(e) => r == e,
        },
{
    match result {
        Ok(()) => count_text(n, " copied"),
        Err(e) => e,
    }
}

/// What deleting the selection is told as: nothing where all went well.
pub fn deleted_status(failed: usize) -> (r: Option<String>)
    ensures
        match r {
            None => failed == 0,
            Some(t) => failed > 0 && t@ == counted(failed as nat, " delete(s) failed"@),
        },
{
    if failed > 0 {
        Some(count_text(failed, " delete(s) failed"))
    } else {
        None
    }
}

/// The line of an empty library.
pub fn empty_label(hotkey: &str) -> (r: String)
    ensures
        r@ == "No captures yet \u{2014} press "@ + hotkey@,
{
    "No captures yet \u{2014} press ".to_owned().concat(hotkey)
}

/// Selecting a range adds every capture of it, and nothing else; what was
/// selected stays.
pub proof fn law_extended(
    sel: Seq<Seq<char>>,
    v: Seq<CaptureEntry>,
    i: int,
    hi: int,
    path: Seq<char>,
)
    requires
        0 <= i <= hi <= v.len(),
    ensures
        extended(sel, v, i, hi).contains(path) == (sel.contains(path) || exists|k: int|
            i <= k < hi && (#[trigger] v[k]).path@ == path),
    decreases hi - i,
{
    if i < hi {
        let p = v[i].path@;
        let next = if sel.contains(p) {
            sel
        } else {
            sel.push(p)
        };
        law_extended(next, v, i + 1, hi, path);
        assert(next.contains(path) == (sel.contains(path) || p == path)) by {
            if !sel.contains(p) {
                assert(sel.push(p)[sel.len() as int] == p);
                if sel.contains(path) {
                    let j = choose|j: int| 0 <= j < sel.len() && sel[j] == path;
                    assert(sel.push(p)[j] == path);
                }
                if sel.push(p).contains(path) {
                    let j = choose|j: int| 0 <= j < sel.push(p).len() && sel.push(p)[j] == path;
                    if j < sel.len() {
                        assert(sel[j] == path);
                    }
                }
            }
        }
        if exists|k: int| i <= k < hi && (#[trigger] v[k]).path@ == path {
            let k = choose|k: int| i <= k < hi && (#[trigger] v[k]).path@ == path;
            if k > i {
                assert(i + 1 <= k < hi && v[k].path@ == path);
            }
        }
        if exists|k: int| i + 1 <= k < hi && (#[trigger] v[k]).path@ == path {
            let k = choose|k: int| i + 1 <= k < hi && (#[trigger] v[k]).path@ == path;
            assert(i <= k < hi && v[k].path@ == path);
        }
        if p == path {
            assert(i <= i < hi && v[i].path@ == path);
        }
    }
}

/// The rubber band selects the captures whose cards it meets, and no
/// others.
pub proof fn law_banded(
    v: Seq<CaptureEntry>,
    band: Rect,
    cols: int,
    scroll: int,
    n: int,
    path: Seq<char>,
)
    requires
        0 <= n <= v.len(),
    ensures
        banded(v, band, cols, scroll, n).contains(path) == (exists|k: int|
            0 <= k < n && (#[trigger] v[k]).path@ == path && card_at(k, cols, scroll).meets(band)),
    decreases n,
{
    if n > 0 {
        law_banded(v, band, cols, scroll, n - 1, path);
        let rest = banded(v, band, cols, scroll, n - 1);
        let all = banded(v, band, cols, scroll, n);
        let here = card_at(n - 1, cols, scroll).meets(band);
        if all.contains(path) {
            let j = choose|j: int| 0 <= j < all.len() && all[j] == path;
            if j < rest.len() {
                assert(rest[j] == path);
                let k = choose|k: int|
                    0 <= k < n - 1 && (#[trigger] v[k]).path@ == path && card_at(
                        k,
                        cols,
                        scroll,
                    ).meets(band);
                assert(0 <= k < n && v[k].path@ == path);
            } else {
                assert(here && v[n - 1].path@ == path);
            }
        }
        if exists|k: int|
            0 <= k < n && (#[trigger] v[k]).path@ == path && card_at(k, cols, scroll).meets(band) {
            let k = choose|k: int|
                0 <= k < n && (#[trigger] v[k]).path@ == path && card_at(k, cols, scroll).meets(band);
            if k < n - 1 {
                assert(0 <= k < n - 1 && v[k].path@ == path);
                let j = choose|j: int| 0 <= j < rest.len() && rest[j] == path;
                assert(all[j] == path);
            } else {
                assert(all[rest.len() as int] == path);
            }
        }
    }
}

/// The band is the rectangle between where it was started and where the
/// pointer is, whichever way.
pub proof fn law_band_between(a: Point, b: Point)
    requires
        pointed(a) && pointed(b),
    ensures
        between(a, b) == between(b, a),
        between(a, b).left() == min_of(a.x as int, b.x as int),
        between(a, b).right() == max_of(a.x as int, b.x as int),
        between(a, b).top() == min_of(a.y as int, b.y as int),
        between(a, b).bottom() == max_of(a.y as int, b.y as int),
{
}

/// Ranges start at the first capture of the selection.
pub proof fn law_first_selected(v: Seq<CaptureEntry>, sel: Seq<Seq<char>>, i: int, k: int)
    requires
        0 <= i,
        v.len() <= usize::MAX,
    ensures
        match first_selected(v, sel, i) {
            Some(j) => i <= j < v.len() && sel.contains(v[j as int].path@) && (i <= k < j ==> !sel.contains(
                v[k].path@,
            )),
            None => i <= k < v.len() ==> !sel.contains(v[k].path@),
        },
    decreases v.len() - i,
{
    if i < v.len() && !sel.contains(v[i].path@) {
        law_first_selected(v, sel, i + 1, k);
    }
}

/// What the keys do: escape closes the help or drops the selection, and
/// with neither the window; delete and backspace delete what is selected,
/// and nothing without a selection.
pub proof fn law_library_keys(meta: bool, help: bool, selecting: bool)
    ensures
        key_does("escape"@, meta, help, selecting) == (if help || selecting {
            KeyDid::Changed
        } else {
            KeyDid::Close
        }),
        key_does("delete"@, meta, help, true) == KeyDid::Delete,
        key_does("backspace"@, meta, help, true) == KeyDid::Delete,
        key_does("delete"@, meta, help, false) == KeyDid::Nothing,
        key_does("backspace"@, meta, help, false) == KeyDid::Nothing,
        key_does("a"@, true, help, selecting) == KeyDid::Changed,
        key_does("a"@, false, help, selecting) == KeyDid::Nothing,
        key_does("?"@, meta, help, selecting) == KeyDid::Changed,
{
    reveal_strlit("escape");
    reveal_strlit("?");
    reveal_strlit("/");
    reveal_strlit("delete");
    reveal_strlit("backspace");
    reveal_strlit("a");
    assert("escape"@.len() == 6 && "delete"@.len() == 6 && "backspace"@.len() == 9);
    assert("?"@.len() == 1 && "/"@.len() == 1 && "a"@.len() == 1);
    assert("escape"@[0] == 'e' && "delete"@[0] == 'd');
    assert("?"@[0] == '?' && "/"@[0] == '/' && "a"@[0] == 'a');
}

/// A card that opens grows out of a thumbnail with its middle under the
/// pointer.
pub proof fn law_morph_from(window: Point, at: Point)
    requires
        pointed(window) && pointed(at),
    ensures
        ({
            let r = morph_from(window, at);
            &&& r.left() + r.right() == 2 * (window.x + at.x)
            &&& r.top() + r.bottom() == 2 * (window.y + at.y)
            &&& r.w == CARD_W && r.h == THUMB_H
        }),
{
}

/// A press takes a card along once the pointer is eight pixels off, and
/// not before.
pub proof fn law_drags(lib: Library, index: usize, from: Point, p: Point)
    requires
        lib.drag_start == Some((index, from)),
        !lib.drag_fired,
    ensures
        p.x - from.x >= 8 * PX || from.x - p.x >= 8 * PX || p.y - from.y >= 8 * PX || from.y - p.y
            >= 8 * PX ==> lib.drags(p, true),
        -5 * PX <= p.x - from.x <= 5 * PX && -5 * PX <= p.y - from.y <= 5 * PX ==> !lib.drags(
            p,
            true,
        ),
        !lib.drags(p, false),
        !lib.held(index, p).drag_fired && lib.held(index, p).pressed == Some(index),
        lib.released().pressed is None && lib.released().drag_start is None,
{
    let (dx, dy) = (p.x - from.x, p.y - from.y);
    assert(dx * dx >= 0 && dy * dy >= 0) by (nonlinear_arith);
    if -5 * PX <= dx <= 5 * PX && -5 * PX <= dy <= 5 * PX {
        assert(dx * dx <= 25 * (PX * PX) && dy * dy <= 25 * (PX * PX)) by (nonlinear_arith)
            requires
                -5 * PX <= dx <= 5 * PX,
                -5 * PX <= dy <= 5 * PX,
                PX == 10_000,
        ;
    }
    if dx >= 8 * PX || dx <= -8 * PX {
        assert(dx * dx >= 64 * (PX * PX)) by (nonlinear_arith)
            requires
                dx >= 8 * PX || dx <= -8 * PX,
                PX == 10_000,
        ;
    }
    if dy >= 8 * PX || dy <= -8 * PX {
        assert(dy * dy >= 64 * (PX * PX)) by (nonlinear_arith)
            requires
                dy >= 8 * PX || dy <= -8 * PX,
                PX == 10_000,
        ;
    }
}

/// A band is no band while it ends within four pixels of its start,
/// whichever way it was drawn.
pub proof fn law_tiny(b: Band)
    ensures
        b.to.y == b.from.y ==> (tiny(b) <==> -40_000 < b.to.x - b.from.x < 40_000),
        b.to.x == b.from.x ==> (tiny(b) <==> -40_000 < b.to.y - b.from.y < 40_000),
        b.to.x - b.from.x >= 40_000 || b.from.x - b.to.x >= 40_000 ==> !tiny(b),
        b.to.y - b.from.y >= 40_000 || b.from.y - b.to.y >= 40_000 ==> !tiny(b),
        -28_000 <= b.to.x - b.from.x <= 28_000 && -28_000 <= b.to.y - b.from.y <= 28_000 ==> tiny(b),
{
    let dx = b.to.x - b.from.x;
    let dy = b.to.y - b.from.y;
    lemma_far(dx);
    lemma_far(dy);
}

proof fn lemma_far(d: int)
    ensures
        0 <= d * d,
        d == 0 ==> d * d == 0,
        d * d < 1_600_000_000 <==> -40_000 < d < 40_000,
        -28_000 <= d <= 28_000 ==> d * d <= 784_000_000,
{
    assert(0 <= d * d) by (nonlinear_arith);
    assert(d == 0 ==> d * d == 0) by (nonlinear_arith);
    assert(-40_000 < d < 40_000 ==> d * d < 1_600_000_000) by (nonlinear_arith);
    assert(d >= 40_000 ==> d * d >= 1_600_000_000) by (nonlinear_arith);
    assert(d <= -40_000 ==> d * d >= 1_600_000_000) by (nonlinear_arith);
    assert(-28_000 <= d <= 28_000 ==> d * d <= 784_000_000) by (nonlinear_arith);
}

/// A count is told by its number first, then what was counted.
pub proof fn law_counted(n: nat, what: Seq<char>)
    ensures
        counted(n, what).len() == decimal(n).len() + what.len(),
        counted(n, what).take(decimal(n).len() as int) == decimal(n),
        counted(n, what).skip(decimal(n).len() as int) == what,
{
    assert(counted(n, what).take(decimal(n).len() as int) =~= decimal(n));
    assert(counted(n, what).skip(decimal(n).len() as int) =~= what);
}

} // verus!
