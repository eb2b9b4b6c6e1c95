//! The notice: a card in the toast's corner that tells an outcome which
//! no other surface shows.

use vstd::prelude::*;
use crate::geom::{intersects, PX, Rect};
use crate::text::{chars, space, is_space, collect, trimmed, trim};

verus! {

/// The card's width.
pub const W: i64 = 3_800_000;

/// Its distance from the screen's edge, as for the toast.
pub const MARGIN: i64 = 120_000;

pub const PAD: i64 = 120_000;

/// The hairline inside its width and height.
pub const BORDER: i64 = 10_000;

pub const GLYPH: i64 = 180_000;

pub const BUTTON: i64 = 260_000;

pub const BUTTON_GAP: i64 = 40_000;

pub const GAP: i64 = 100_000;

pub const TITLE_LINE: i64 = 180_000;

pub const TITLE_GAP: i64 = 20_000;

pub const DETAIL_LINE: i64 = 160_000;

/// A longer detail ends in an ellipsis on its last line.
pub const MAX_LINES: usize = 3;

/// A failure stays at least this long.
pub const FAILURE_HOLD: u64 = 8000;

/// The first place from `i` on that is no white space.
pub open spec fn past_space(s: Seq<char>, i: int) -> int
    decreases s.len() - i,
{
    if i < 0 || i >= s.len() {
        s.len() as int
    } else if is_space(s[i]) {
        past_space(s, i + 1)
    } else {
        i
    }
}

/// The first white space from `i` on, or the text's end.
pub open spec fn word_end(s: Seq<char>, i: int) -> int
    decreases s.len() - i,
{
    if i < 0 || i >= s.len() {
        s.len() as int
    } else if is_space(s[i]) {
        i
    } else {
        word_end(s, i + 1)
    }
}

proof fn lemma_ends(s: Seq<char>, i: int)
    requires
        0 <= i <= s.len(),
    ensures
        i <= past_space(s, i) <= s.len(),
        i <= word_end(s, i) <= s.len(),
        past_space(s, i) < s.len() ==> !is_space(s[past_space(s, i)]),
        i < s.len() && !is_space(s[i]) ==> i < word_end(s, i),
    decreases s.len() - i,
{
    if i < s.len() {
        lemma_ends(s, i + 1);
    }
}

/// The words of a text from `i` on: what stands between white space.
pub open spec fn words_from(s: Seq<char>, i: int) -> Seq<Seq<char>>
    decreases s.len() - i,
    when 0 <= i <= s.len()
    via words_decrease
{
    let a = past_space(s, i);
    if a >= s.len() {
        Seq::empty()
    } else {
        let b = word_end(s, a);
        seq![s.subrange(a, b)] + words_from(s, b)
    }
}

#[via_fn]
proof fn words_decrease(s: Seq<char>, i: int) {
    lemma_ends(s, i);
    if past_space(s, i) < s.len() {
        lemma_ends(s, past_space(s, i));
    }
}

/// The words of a text.
pub open spec fn words(s: Seq<char>) -> Seq<Seq<char>> {
    words_from(s, 0)
}

/// Words with a blank between each two.
pub open spec fn spaced(ws: Seq<Seq<char>>) -> Seq<char>
    decreases ws.len(),
{
    if ws.len() == 0 {
        Seq::empty()
    } else if ws.len() == 1 {
        ws[0]
    } else {
        spaced(ws.drop_last()) + seq![' '] + ws.last()
    }
}

/// The end of white space.
fn skip_space(v: &Vec<char>, from: usize) -> (r: usize)
    requires
        from <= v@.len(),
    ensures
        r == past_space(v@, from as int),
        from <= r <= v@.len(),
{
    let mut i: usize = from;
    while i < v.len() && space(v[i])
        invariant
            from <= i <= v@.len(),
            past_space(v@, from as int) == past_space(v@, i as int),
        decreases v@.len() - i,
    {
        i = i + 1;
    }
    i
}

/// The end of a word.
fn skip_word(v: &Vec<char>, from: usize) -> (r: usize)
    requires
        from <= v@.len(),
    ensures
        r == word_end(v@, from as int),
        from <= r <= v@.len(),
{
    let mut i: usize = from;
    while i < v.len() && !space(v[i])
        invariant
            from <= i <= v@.len(),
            word_end(v@, from as int) == word_end(v@, i as int),
        decreases v@.len() - i,
    {
        i = i + 1;
    }
    i
}

/// An error as one paragraph: every run of white space is one blank.
pub fn one_paragraph(err: &str) -> (r: String)
    ensures
        r@ == spaced(words(err@)),
{
    let v = chars(err);
    let mut r: String = String::new();
    let mut i: usize = 0;
    let mut first = true;
    let ghost mut done: Seq<Seq<char>> = Seq::empty();
    proof {
        assert(done + words_from(v@, 0) =~= words(v@));
    }
    loop
        invariant
            v@ == err@,
            i <= v@.len(),
            done + words_from(v@, i as int) == words(v@),
            r@ == spaced(done),
            first == (done.len() == 0),
        ensures
            r@ == spaced(words(err@)),
        decreases v@.len() - i,
    {
        proof {
            lemma_ends(v@, i as int);
        }
        let a: usize = skip_space(&v, i);
        if a >= v.len() {
            proof {
                assert(done + words_from(v@, i as int) =~= done);
            }
            break;
        }
        proof {
            lemma_ends(v@, a as int);
        }
        let b: usize = skip_word(&v, a);
        let w = collect(&v, a, b);
        let ghost before = r@;
        if !first {
            r.push(' ');
        }
        r.append(w.as_str());
        proof {
            let more = done.push(w@);
            assert(done + words_from(v@, i as int) =~= more + words_from(v@, b as int));
            assert(more.drop_last() =~= done);
            if done.len() == 0 {
                assert(r@ =~= spaced(more));
            } else {
                assert(r@ =~= before + seq![' '] + w@);
            }
            done = more;
        }
        first = false;
        i = b;
    }
    r
}

/// How many more lines a word of `n` characters takes after the one it
/// starts on.
pub open spec fn breaks(n: int, cols: int) -> int {
    (n - 1) / cols
}

/// How much of its last line a word of `n` characters takes.
pub open spec fn tail(n: int, cols: int) -> int {
    (n - 1) % cols + 1
}

/// The lines that words from the `i`th on wrap to, after `lines` lines of
/// which the last holds `col` characters.
pub open spec fn wrap(ws: Seq<Seq<char>>, cols: int, i: int, lines: int, col: int) -> int
    decreases ws.len() - i,
{
    if i < 0 || i >= ws.len() {
        lines
    } else {
        let n = ws[i].len() as int;
        if col > 0 && col + 1 + n <= cols {
            wrap(ws, cols, i + 1, lines, col + 1 + n)
        } else {
            wrap(
                ws,
                cols,
                i + 1,
                lines + breaks(n, cols) + if col > 0 {
                    1int
                } else {
                    0
                },
                tail(n, cols),
            )
        }
    }
}

/// The lines a text wraps to at `cols` characters a line: greedily, at
/// white space, a word wider than a line broken across lines.
pub open spec fn lines_of(s: Seq<char>, cols: int) -> int {
    wrap(
        words(s),
        if cols < 1 {
            1
        } else {
            cols
        },
        0,
        1,
        0,
    )
}

/// Lines that a text wraps to at `cols` characters a line.
pub fn wrapped_lines(text: &str, cols: usize) -> (r: usize)
    ensures
        r == lines_of(text@, cols as int),
        1 <= r <= text@.len() + 1,
{
    let cols: usize = if cols < 1 {
        1
    } else {
        cols
    };
    let v = chars(text);
    assert(v@.len() == v.len());
    let ghost all = words(v@);
    let mut lines: usize = 1;
    let mut col: usize = 0;
    let mut i: usize = 0;
    let ghost mut k: int = 0;
    proof {
        assert(all.skip(0) =~= all);
    }
    loop
        invariant
            cols >= 1,
            v@ == text@,
            v@.len() <= usize::MAX,
            all == words(v@),
            i <= v@.len(),
            0 <= k <= all.len(),
            all.skip(k) == words_from(v@, i as int),
            wrap(all, cols as int, 0, 1, 0) == wrap(all, cols as int, k, lines as int, col as int),
            1 <= lines,
            col > 0 ==> lines <= i,
            col == 0 ==> lines == 1,
            col <= cols,
        ensures
            lines == wrap(all, cols as int, 0, 1, 0),
            1 <= lines <= v@.len() + 1,
        decreases v@.len() - i,
    {
        proof {
            lemma_ends(v@, i as int);
        }
        let a: usize = skip_space(&v, i);
        if a >= v.len() {
            proof {
                assert(all.skip(k).len() == 0);
            }
            break;
        }
        proof {
            lemma_ends(v@, a as int);
        }
        let b: usize = skip_word(&v, a);
        let n: usize = b - a;
        proof {
            let rest = words_from(v@, b as int);
            assert(all.skip(k) == seq![v@.subrange(a as int, b as int)] + rest);
            assert(all.skip(k).len() > 0);
            assert(all[k] == all.skip(k)[0]);
            assert(all[k].len() == n);
            assert(all.skip(k + 1) =~= all.skip(k).skip(1));
            assert(all.skip(k).skip(1) =~= rest);
        }
        if col > 0 && n < cols && col < cols - n {
            col = col + 1 + n;
        } else {
            let more: usize = (n - 1) / cols;
            proof {
                assert((n - 1) / cols as int <= n - 1) by (nonlinear_arith)
                    requires
                        n >= 1,
                        cols >= 1,
                ;
            }
            if col > 0 {
                lines = lines + 1;
            }
            lines = lines + more;
            col = (n - 1) % cols + 1;
            proof {
                assert((n - 1) % cols as int <= n - 1) by (nonlinear_arith)
                    requires
                        n >= 1,
                        cols >= 1,
                ;
                assert((n - 1) % (cols as int) < cols) by (nonlinear_arith)
                    requires
                        n >= 1,
                        cols >= 1,
                ;
            }
        }
        i = b;
        proof {
            k = k + 1;
        }
    }
    lines
}

/// A word: not empty and without white space.
pub open spec fn is_word(w: Seq<char>) -> bool {
    w.len() > 0 && forall|k: int| 0 <= k < w.len() ==> !is_space(#[trigger] w[k])
}

proof fn lemma_word_inside(s: Seq<char>, i: int)
    requires
        0 <= i <= s.len(),
    ensures
        forall|k: int| i <= k < word_end(s, i) ==> !is_space(#[trigger] s[k]),
    decreases s.len() - i,
{
    if i < s.len() && !is_space(s[i]) {
        lemma_word_inside(s, i + 1);
    }
}

proof fn lemma_words(s: Seq<char>, i: int)
    requires
        0 <= i <= s.len(),
    ensures
        forall|k: int| 0 <= k < words_from(s, i).len() ==> is_word(#[trigger] words_from(s, i)[k]),
    decreases s.len() - i,
{
    lemma_ends(s, i);
    let a = past_space(s, i);
    if a < s.len() {
        lemma_ends(s, a);
        lemma_word_inside(s, a);
        let b = word_end(s, a);
        lemma_words(s, b);
        let ws = words_from(s, i);
        assert forall|k: int| 0 <= k < ws.len() implies is_word(#[trigger] ws[k]) by {
            if k > 0 {
                assert(ws[k] == words_from(s, b)[k - 1]);
            } else {
                assert(ws[0] == s.subrange(a, b));
            }
        }
    }
}

/// A paragraph has the words of the text it was made of, with nothing but
/// single blanks between them, so it wraps to as many lines.
pub proof fn law_paragraph(s: Seq<char>, cols: int)
    ensures
        words(spaced(words(s))) == words(s),
        lines_of(spaced(words(s)), cols) == lines_of(s, cols),
{
    lemma_words(s, 0);
    let ws = words(s);
    if ws.len() == 0 {
        assert(words(spaced(ws)) =~= ws);
    } else {
        lemma_words_back(ws, ws.len() as int);
        assert(ws.skip(0) =~= ws);
        assert(ws.take(0).len() == 0);
    }
}

/// Where the blank before the `k`th word stands, or the text's start.
spec fn gap_of(ws: Seq<Seq<char>>, k: int) -> int {
    if k <= 0 {
        0
    } else {
        spaced(ws.take(k)).len() as int
    }
}

proof fn lemma_words_back(ws: Seq<Seq<char>>, left: int)
    requires
        0 <= left <= ws.len(),
        ws.len() > 0,
        forall|i: int| 0 <= i < ws.len() ==> is_word(#[trigger] ws[i]),
    ensures
        gap_of(ws, ws.len() - left) <= spaced(ws).len(),
        words_from(spaced(ws), gap_of(ws, ws.len() - left)) == ws.skip(ws.len() - left),
    decreases left,
{
    let s = spaced(ws);
    let k = ws.len() - left;
    let at = gap_of(ws, k);
    if left == 0 {
        assert(ws.take(k) =~= ws);
        assert(past_space(s, at) == s.len());
        assert(words_from(s, at) =~= Seq::<Seq<char>>::empty());
        assert(ws.skip(k) =~= Seq::<Seq<char>>::empty());
    } else {
        lemma_word_place(ws, k);
        lemma_words_back(ws, left - 1);
        let a = if k == 0 {
            0
        } else {
            at + 1
        };
        let e = a + ws[k].len();
        assert(s.subrange(a, e) =~= ws[k]);
        assert(s[a] == ws[k][0]);
        assert(is_word(ws[k]));
        assert(past_space(s, at) == a) by {
            if k > 0 {
                assert(is_space(s[at]));
                assert(past_space(s, at) == past_space(s, at + 1));
            }
        }
        assert forall|j: int| a <= j < e implies !is_space(#[trigger] s[j]) by {
            assert(s[j] == ws[k][j - a]);
        }
        lemma_end_of(s, a, e);
        assert(words_from(s, at) == seq![s.subrange(a, e)] + words_from(s, e));
        assert(ws.skip(k) =~= seq![ws[k]] + ws.skip(k + 1));
    }
}

/// A run without white space from `a` to `e` ends at `e`.
proof fn lemma_end_of(s: Seq<char>, a: int, e: int)
    requires
        0 <= a <= e <= s.len(),
        forall|k: int| a <= k < e ==> !is_space(#[trigger] s[k]),
        e < s.len() ==> is_space(s[e]),
    ensures
        word_end(s, a) == e,
    decreases e - a,
{
    if a < e {
        lemma_end_of(s, a + 1, e);
    }
}

/// The `k`th word stands after its blank, and a blank or the text's end
/// follows.
proof fn lemma_word_place(ws: Seq<Seq<char>>, k: int)
    requires
        0 <= k < ws.len(),
    ensures
        ({
            let s = spaced(ws);
            let at = gap_of(ws, k);
            let a = if k == 0 {
                0
            } else {
                at + 1
            };
            let e = a + ws[k].len();
            &&& 0 <= at && e <= s.len()
            &&& k > 0 ==> s[at] == ' '
            &&& s.subrange(a, e) == ws[k]
            &&& gap_of(ws, k + 1) == e
            &&& e < s.len() ==> s[e] == ' '
        }),
    decreases ws.len(),
{
    let s = spaced(ws);
    if k + 1 == ws.len() {
        assert(ws.take(k + 1) =~= ws);
        assert(ws.drop_last() =~= ws.take(k));
        let a = if k == 0 {
            0
        } else {
            gap_of(ws, k) + 1
        };
        assert(s.subrange(a, s.len() as int) =~= ws[k]);
    } else {
        let front = ws.drop_last();
        lemma_word_place(front, k);
        assert(front.take(k) =~= ws.take(k));
        assert(front.take(k + 1) =~= ws.take(k + 1));
        let f = spaced(front);
        let at = gap_of(ws, k);
        let a = if k == 0 {
            0
        } else {
            at + 1
        };
        let e = a + ws[k].len();
        assert(s =~= f + seq![' '] + ws.last());
        assert(s.subrange(a, e) =~= f.subrange(a, e));
        if k > 0 {
            assert(s[at] == f[at]);
        }
        if e < f.len() {
            assert(s[e] == f[e]);
        } else {
            assert(s[e] == ' ');
        }
    }
}

/// The width of the detail beside the glyph and this many buttons.
pub open spec fn text_room(buttons: int) -> int {
    let row = buttons * BUTTON + if buttons > 0 {
        (buttons - 1) * BUTTON_GAP
    } else {
        0
    };
    W - 2 * (BORDER + PAD) - GLYPH - GAP - row - GAP
}

/// The width of the detail beside the glyph and `buttons` buttons.
pub fn text_width(buttons: usize) -> (r: i64)
    requires
        buttons <= 1000,
    ensures
        r == text_room(buttons as int),
{
    let n: i64 = buttons as i64;
    let gaps: i64 = if n > 0 {
        (n - 1) * BUTTON_GAP
    } else {
        0
    };
    W - 2 * (BORDER + PAD) - GLYPH - GAP - (n * BUTTON + gaps) - GAP
}

/// The height of a card with this many lines of detail.
pub open spec fn height_of(lines: int) -> int {
    let text = if lines == 0 {
        TITLE_LINE as int
    } else {
        TITLE_LINE + TITLE_GAP + lines * DETAIL_LINE
    };
    2 * (BORDER + PAD) + if text > BUTTON {
        text
    } else {
        BUTTON as int
    }
}

/// The height of a card with `lines` lines of detail.
pub fn card_height(lines: usize) -> (r: i64)
    requires
        lines <= 1000,
    ensures
        r == height_of(lines as int),
{
    let text: i64 = if lines == 0 {
        TITLE_LINE
    } else {
        TITLE_LINE + TITLE_GAP + lines as i64 * DETAIL_LINE
    };
    2 * (BORDER + PAD) + if text > BUTTON {
        text
    } else {
        BUTTON
    }
}

/// Do two rectangles share any area?
pub fn overlaps(a: Rect, b: Rect) -> (r: bool)
    requires
        a.wf(),
        b.wf(),
    ensures
        r == a.meets(b),
{
    intersects(a, b)
}

/// The card in the bare corner of a screen.
pub open spec fn corner(screen: Rect, left: bool, top: bool, height: int) -> Rect {
    Rect {
        x: (if left {
            screen.x + MARGIN
        } else {
            screen.right() - MARGIN - W
        }) as i64,
        y: (if top {
            screen.y + MARGIN
        } else {
            screen.bottom() - MARGIN - height
        }) as i64,
        w: W,
        h: height as i64,
    }
}

/// The notice's window and its card. The window has `bleed` beside the
/// card for its shadow, and the margin at the screen's edge. Where the
/// corner would cover a live toast, the card stands `bleed` beyond it.
pub open spec fn placed(
    screen: Rect,
    left: bool,
    top: bool,
    height: int,
    bleed: int,
    toast: Option<Rect>,
) -> (Rect, Rect) {
    let at = corner(screen, left, top, height);
    let x = if left {
        screen.x as int
    } else {
        at.x - bleed
    };
    let bare = (
        Rect {
            x: x as i64,
            y: (if top {
                screen.y as int
            } else {
                at.y - bleed
            }) as i64,
            w: (W + bleed + MARGIN) as i64,
            h: (height + bleed + MARGIN) as i64,
        },
        at,
    );
    match toast {
        Some(t) => if at.meets(t) {
            let y = if top {
                t.bottom() + bleed
            } else {
                t.y - bleed - height
            };
            (
                Rect {
                    x: x as i64,
                    y: (y - bleed) as i64,
                    w: (W + bleed + MARGIN) as i64,
                    h: (height + 2 * bleed) as i64,
                },
                Rect { y: y as i64, ..at },
            )
        } else {
            bare
        },
        None => bare,
    }
}

/// A screen that a notice can stand on.
pub open spec fn screen_wf(r: Rect) -> bool {
    -ON <= r.x <= ON && -ON <= r.y <= ON && 0 <= r.w <= ON && 0 <= r.h <= ON
}

/// Screens lie within this.
pub const ON: i64 = 100_000_000_000_000;

/// The notice's window and its card, in the given corner of a screen.
pub fn place(screen: Rect, left: bool, top: bool, height: i64, bleed: i64, toast: Option<Rect>) -> (r: (
    Rect,
    Rect,
))
    requires
        screen_wf(screen),
        0 <= height <= ON,
        0 <= bleed <= ON,
        toast matches Some(t) ==> screen_wf(t),
    ensures
        r == placed(screen, left, top, height as int, bleed as int, toast),
{
    let wide: i64 = W + bleed + MARGIN;
    let ox: i64 = if left {
        screen.x
    } else {
        screen.x + screen.w - wide
    };
    let x: i64 = if left {
        ox + MARGIN
    } else {
        ox + bleed
    };
    let y: i64 = if top {
        screen.y + MARGIN
    } else {
        screen.y + screen.h - MARGIN - height
    };
    let card = Rect { x, y, w: W, h: height };
    let covered = match toast {
        Some(t) => overlaps(card, t),
        None => false,
    };
    if covered {
        if let Some(t) = toast {
            let y: i64 = if top {
                t.y + t.h + bleed
            } else {
                t.y - bleed - height
            };
            return (
                Rect { x: ox, y: y - bleed, w: wide, h: height + 2 * bleed },
                Rect { x, y, w: W, h: height },
            );
        }
    }
    let oy: i64 = if top {
        screen.y
    } else {
        y - bleed
    };
    (Rect { x: ox, y: oy, w: wide, h: height + bleed + MARGIN }, card)
}

/// A toast's card of this size at rest in the same corner.
pub open spec fn toast_corner(screen: Rect, left: bool, top: bool, w: int, h: int) -> Rect {
    Rect {
        x: (if left {
            screen.x + MARGIN
        } else {
            screen.right() - MARGIN - w
        }) as i64,
        y: (if top {
            screen.y + MARGIN
        } else {
            screen.bottom() - MARGIN - h
        }) as i64,
        w: w as i64,
        h: h as i64,
    }
}

/// The toast's window round its card.
pub open spec fn toast_room(t: Rect, left: bool, top: bool, bleed: int) -> Rect {
    Rect {
        x: (if left {
            t.x - MARGIN
        } else {
            t.x - bleed
        }) as i64,
        y: (if top {
            t.y - MARGIN
        } else {
            t.y - bleed
        }) as i64,
        w: (t.w + bleed + MARGIN) as i64,
        h: (t.h + bleed + MARGIN) as i64,
    }
}

/// A notice never covers a live toast: whatever the toast's rectangle, the
/// card shares no area with it. With the toast at rest in the same corner
/// neither window reaches into the other card, and the card stands `bleed`
/// beyond the toast, in its own column.
pub proof fn law_clear_of_toast(
    screen: Rect,
    left: bool,
    top: bool,
    height: int,
    bleed: int,
    w: int,
    h: int,
)
    requires
        screen_wf(screen),
        0 < height <= ON,
        0 <= bleed <= ON,
        0 < w <= ON,
        0 < h <= ON,
    ensures
        ({
            let t = toast_corner(screen, left, top, w, h);
            let (win, card) = placed(screen, left, top, height, bleed, Some(t));
            &&& !card.meets(t)
            &&& !win.meets(t)
            &&& !toast_room(t, left, top, bleed).meets(card)
            &&& card.x == corner(screen, left, top, height).x
            &&& if top {
                card.y - t.bottom() == bleed
            } else {
                t.y - card.bottom() == bleed
            }
        }),
{
}

/// A card shares no area with any live toast.
pub proof fn law_covers_nothing(
    screen: Rect,
    left: bool,
    top: bool,
    height: int,
    bleed: int,
    toast: Rect,
)
    requires
        screen_wf(screen),
        0 <= height <= ON,
        0 <= bleed <= ON,
        screen_wf(toast),
    ensures
        !placed(screen, left, top, height, bleed, Some(toast)).1.meets(toast),
{
}

/// A window holds its card and, off the screen's edge, the card's shadow
/// on every side.
pub proof fn law_holds_shadow(
    screen: Rect,
    left: bool,
    top: bool,
    height: int,
    bleed: int,
    toast: Option<Rect>,
)
    requires
        screen_wf(screen),
        0 <= height <= ON,
        0 <= bleed <= ON,
        toast matches Some(t) ==> screen_wf(t),
    ensures
        ({
            let (win, card) = placed(screen, left, top, height, bleed, toast);
            &&& card.x - win.x == bleed || (win.x == screen.x && card.x - win.x == MARGIN)
            &&& card.y - win.y == bleed || (win.y == screen.y && card.y - win.y == MARGIN)
            &&& win.right() - card.right() == bleed || (win.right() == screen.right() && win.right()
                - card.right() == MARGIN)
            &&& win.bottom() - card.bottom() == bleed || (win.bottom() == screen.bottom()
                && win.bottom() - card.bottom() == MARGIN)
        }),
{
}

/// The notice: what it tells and how it stays and leaves.
pub struct Notice {
    pub title: String,
    pub detail: String,
    /// The lines of detail the card has room for; none without a detail.
    pub lines: usize,
    pub file: Option<String>,
    pub failure: bool,
    pub card: Rect,
    /// The card's distance below its window's top edge.
    pub inset: i64,
    pub left: bool,
    pub hold: u64,
    pub opened: Option<u64>,
    /// When it started to leave, and whether by the fast fade.
    pub closing: Option<(u64, bool)>,
    pub hovered: bool,
    /// Counts the countdowns; only the latest one dismisses.
    pub armed: u64,
}

/// How long a notice stays.
pub open spec fn hold_of(duration: u64, failure: bool) -> u64 {
    if failure && duration < FAILURE_HOLD {
        FAILURE_HOLD
    } else {
        duration
    }
}

/// The lines of detail a card is sized for.
pub open spec fn detail_lines(detail: Seq<char>, buttons: int, advance: int) -> int {
    if trimmed(detail).len() == 0 {
        0
    } else {
        let n = lines_of(detail, text_room(buttons) / advance);
        if n < MAX_LINES {
            n
        } else {
            MAX_LINES as int
        }
    }
}

/// A notice for this screen, and its window. `advance` is the width of one
/// character of the detail.
pub fn open(
    title: String,
    detail: String,
    file: Option<String>,
    failure: bool,
    duration: u64,
    corner: (bool, bool),
    bleed: i64,
    advance: i64,
    screen: Option<Rect>,
    toast: Option<Rect>,
) -> (r: Result<(Notice, Rect), String>)
    requires
        0 < advance,
        0 <= bleed <= ON,
        screen matches Some(s) ==> screen_wf(s),
        toast matches Some(t) ==> screen_wf(t),
    ensures
        match (screen, r) {
            (Some(s), Ok((n, win))) => {
                let lines = detail_lines(
                    detail@,
                    if file is Some {
                        2
                    } else {
                        1
                    },
                    advance as int,
                );
                let (w, card) = placed(
                    s,
                    corner.0,
                    corner.1,
                    height_of(lines),
                    bleed as int,
                    toast,
                );
                &&& win == w && n.card == card && n.inset == card.y - w.y
                &&& n.lines == lines && n.title == title && n.detail == detail && n.file == file
                &&& n.failure == failure && n.left == corner.0 && n.hold == hold_of(
                    duration,
                    failure,
                )
                &&& n.opened is None && n.closing is None && !n.hovered && n.armed == 0
            },
            (None, Err(e)) => e@ == "no display"@,
            _ => false,
        },
{
    let screen = match screen {
        Some(s) => s,
        None => {
            return Err("no display".to_owned());
        },
    };
    let buttons: usize = if file.is_some() {
        2
    } else {
        1
    };
    let cols: usize = (text_width(buttons) / advance) as usize;
    let lines: usize = if trim(detail.as_str()).as_str().unicode_len() == 0 {
        0
    } else {
        let n: usize = wrapped_lines(detail.as_str(), cols);
        if n < MAX_LINES {
            n
        } else {
            MAX_LINES
        }
    };
    let height: i64 = card_height(lines);
    let (win, card) = place(screen, corner.0, corner.1, height, bleed, toast);
    let hold: u64 = if failure && duration < FAILURE_HOLD {
        FAILURE_HOLD
    } else {
        duration
    };
    Ok(
        (
            Notice {
                title,
                detail,
                lines,
                file,
                failure,
                card,
                inset: card.y - win.y,
                left: corner.0,
                hold,
                opened: None,
                closing: None,
                hovered: false,
                armed: 0,
            },
            win,
        ),
    )
}

impl Notice {
    /// The notice after a countdown was started, if it was.
    pub open spec fn counting(self) -> Notice {
        if self.closing is Some {
            self
        } else {
            Notice { armed: (self.armed + 1) as u64, ..self }
        }
    }

    /// The notice after it started to leave, unless it is leaving.
    pub open spec fn leaving(self, now: u64, quick: bool) -> Notice {
        if self.closing is Some {
            self
        } else {
            Notice { closing: Some((now, quick)), ..self }
        }
    }

    /// Start a countdown; its number comes back. A leaving notice has
    /// none.
    pub fn arm(&mut self) -> (n: Option<u64>)
        requires
            old(self).armed < u64::MAX,
        ensures
            *final(self) == old(self).counting(),
            n == (if old(self).closing is Some {
                None
            } else {
                Some((old(self).armed + 1) as u64)
            }),
    {
        if self.closing.is_some() {
            return None;
        }
        self.armed = self.armed + 1;
        Some(self.armed)
    }

    /// Countdown `n` ran out: under the pointer another one starts, which
    /// comes back; else the notice leaves. Only the latest one counts.
    pub fn due(&mut self, n: u64, now: u64) -> (again: Option<u64>)
        requires
            old(self).armed < u64::MAX,
        ensures
            if old(self).armed != n {
                again is None && *final(self) == *old(self)
            } else if old(self).hovered {
                &&& *final(self) == old(self).counting()
                &&& again == (if old(self).closing is Some {
                    None
                } else {
                    Some((old(self).armed + 1) as u64)
                })
            } else {
                again is None && *final(self) == old(self).leaving(now, false)
            },
    {
        if self.armed != n {
            return None;
        }
        if self.hovered {
            self.arm()
        } else {
            self.leave(now, false);
            None
        }
    }

    /// Start to leave, unless it does already.
    pub fn leave(&mut self, now: u64, quick: bool)
        ensures
            *final(self) == old(self).leaving(now, quick),
    {
        if self.closing.is_none() {
            self.closing = Some((now, quick));
        }
    }

    /// The pointer came over the card, or left it, which starts a
    /// countdown.
    pub fn hover(&mut self, over: bool) -> (n: Option<u64>)
        requires
            old(self).armed < u64::MAX,
        ensures
            ({
                let h = Notice { hovered: over, ..*old(self) };
                if over {
                    n is None && *final(self) == h
                } else {
                    &&& *final(self) == h.counting()
                    &&& n == (if old(self).closing is Some {
                        None
                    } else {
                        Some((old(self).armed + 1) as u64)
                    })
                }
            }),
    {
        self.hovered = over;
        if over {
            None
        } else {
            self.arm()
        }
    }

    /// A toast landed here: a notice under it leaves fast.
    pub fn yield_to(&mut self, toast: Rect, now: u64)
        requires
            old(self).card.wf(),
            toast.wf(),
        ensures
            *final(self) == (if old(self).card.meets(toast) {
                old(self).leaving(now, true)
            } else {
                *old(self)
            }),
    {
        if overlaps(self.card, toast) {
            self.leave(now, true);
        }
    }

    /// A frame at `now`: does the window go, and does another frame
    /// follow?
    pub fn frame(&mut self, now: u64, enter: u64, exit: u64, replace: u64) -> (r: (bool, bool))
        ensures
            ({
                let from = match old(self).opened {
                    Some(t) => t,
                    None => now,
                };
                let gone = old(self).closing matches Some(c) && now >= c.0 + (if c.1 {
                    replace
                } else {
                    exit
                });
                &&& r.0 == gone
                &&& r.1 == (now < from + enter || (old(self).closing is Some && !gone))
                &&& *final(self) == (Notice { opened: Some(from), ..*old(self) })
            }),
    {
        let from: u64 = match self.opened {
            Some(t) => t,
            None => now,
        };
        self.opened = Some(from);
        let entering = (now as u128) < from as u128 + enter as u128;
        match self.closing {
            Some(c) => {
                let long: u64 = if c.1 {
                    replace
                } else {
                    exit
                };
                let gone = now as u128 >= c.0 as u128 + long as u128;
                (gone, entering || !gone)
            },
            None => (false, entering),
        }
    }
}

/// A countdown that another one followed does nothing.
pub proof fn law_latest_notice_countdown(n: Notice, old_count: u64)
    requires
        n.closing is None,
        old_count <= n.armed < u64::MAX,
    ensures
        n.counting().armed != old_count,
{
}

/// A notice stands twelve pixels from the two edges of its corner, where no
/// toast is in its way.
pub proof fn law_notice_corner(screen: Rect, left: bool, top: bool, height: int, bleed: int)
    requires
        screen_wf(screen),
        0 <= height <= ON,
        0 <= bleed <= ON,
    ensures
        ({
            let card = placed(screen, left, top, height, bleed, None).1;
            &&& left ==> card.left() == screen.left() + 12 * PX
            &&& !left ==> card.right() == screen.right() - 12 * PX
            &&& top ==> card.top() == screen.top() + 12 * PX
            &&& !top ==> card.bottom() == screen.bottom() - 12 * PX
            &&& card.w == 380 * PX && card.h == height
        }),
{
}

/// What failed is shown for eight seconds or more, the rest as long as is
/// set.
pub proof fn law_hold(duration: u64, failure: bool)
    ensures
        !failure ==> hold_of(duration, failure) == duration,
        failure ==> hold_of(duration, failure) >= 8000 && hold_of(duration, failure) >= duration,
        duration >= 8000 ==> hold_of(duration, failure) == duration,
{
}

/// A card is as high as its text takes, and never less than its buttons;
/// more lines make it higher. It has three lines of detail at the most,
/// and none without a detail.
pub proof fn law_card_height(lines: int, detail: Seq<char>, buttons: int, advance: int)
    requires
        0 <= lines,
    ensures
        height_of(lines) >= 26 * PX + 26 * PX,
        height_of(lines + 1) >= height_of(lines),
        lines >= 1 ==> height_of(lines + 1) == height_of(lines) + 16 * PX,
        lines >= 1 ==> height_of(lines) == 26 * PX + 20 * PX + lines * (16 * PX),
        detail_lines(detail, buttons, advance) <= 3,
        trimmed(detail).len() == 0 ==> detail_lines(detail, buttons, advance) == 0,
        text_room(1) - text_room(2) == 30 * PX,
{
}

/// A notice starts to leave once.
pub proof fn law_leaving(n: Notice, now: u64, later: u64, quick: bool, again: bool)
    ensures
        n.closing is None ==> n.leaving(now, quick).closing == Some((now, quick)),
        n.leaving(now, quick).leaving(later, again) == n.leaving(now, quick),
        n.closing is Some ==> n.counting() == n,
{
}

/// A text that fits on one line takes one.
pub proof fn law_one_line(s: Seq<char>, cols: int)
    requires
        spaced(words(s)).len() <= cols,
    ensures
        lines_of(s, cols) == 1,
{
    let ws = words(s);
    lemma_words_real(s, 0);
    if ws.len() > 0 {
        lemma_spaced_grows(ws, 1, ws.len() as int);
        assert(ws.take(1) =~= seq![ws[0]]);
        assert(ws.take(ws.len() as int) =~= ws);
        assert(is_word(ws[0]));
        lemma_wraps_once(ws, cols, 0, 0);
    }
}

proof fn lemma_words_real(s: Seq<char>, i: int)
    requires
        0 <= i <= s.len(),
    ensures
        forall|k: int| 0 <= k < words_from(s, i).len() ==> is_word(#[trigger] words_from(s, i)[k]),
    decreases s.len() - i,
{
    let a = past_space(s, i);
    lemma_past(s, i);
    if a < s.len() {
        let b = word_end(s, a);
        lemma_end(s, a);
        lemma_words_real(s, b);
        let w = s.subrange(a, b);
        assert forall|k: int| 0 <= k < w.len() implies !is_space(#[trigger] w[k]) by {
            assert(w[k] == s[a + k]);
        }
        assert(words_from(s, i) == seq![w] + words_from(s, b));
        assert forall|k: int| 0 <= k < words_from(s, i).len() implies is_word(
            #[trigger] words_from(s, i)[k],
        ) by {
            if k > 0 {
                assert(words_from(s, i)[k] == words_from(s, b)[k - 1]);
            }
        }
    }
}

proof fn lemma_past(s: Seq<char>, i: int)
    requires
        0 <= i <= s.len(),
    ensures
        i <= past_space(s, i) <= s.len(),
        past_space(s, i) < s.len() ==> !is_space(s[past_space(s, i)]),
    decreases s.len() - i,
{
    if i < s.len() && is_space(s[i]) {
        lemma_past(s, i + 1);
    }
}

proof fn lemma_end(s: Seq<char>, i: int)
    requires
        0 <= i < s.len(),
        !is_space(s[i]),
    ensures
        i < word_end(s, i) <= s.len(),
        forall|k: int| i <= k < word_end(s, i) ==> !is_space(#[trigger] s[k]),
    decreases s.len() - i,
{
    if i + 1 < s.len() && !is_space(s[i + 1]) {
        lemma_end(s, i + 1);
    } else if i + 1 < s.len() {
        reveal_with_fuel(word_end, 2);
    } else {
        reveal_with_fuel(word_end, 2);
    }
}

proof fn lemma_spaced_grows(ws: Seq<Seq<char>>, a: int, b: int)
    requires
        0 <= a <= b <= ws.len(),
    ensures
        spaced(ws.take(a)).len() <= spaced(ws.take(b)).len(),
    decreases b - a,
{
    if a < b {
        lemma_spaced_grows(ws, a, b - 1);
        let t = ws.take(b);
        assert(t.drop_last() =~= ws.take(b - 1));
        if b == 1 {
            assert(ws.take(0).len() == 0);
        }
    }
}

proof fn lemma_wraps_once(ws: Seq<Seq<char>>, cols: int, i: int, col: int)
    requires
        0 <= i <= ws.len(),
        col == spaced(ws.take(i)).len(),
        spaced(ws.take(ws.len() as int)).len() <= cols,
        forall|k: int| 0 <= k < ws.len() ==> is_word(#[trigger] ws[k]),
        i > 0 ==> col > 0,
    ensures
        wrap(ws, if cols < 1 {
            1
        } else {
            cols
        }, i, 1, col) == 1,
    decreases ws.len() - i,
{
    if i < ws.len() {
        lemma_spaced_grows(ws, i + 1, ws.len() as int);
        let t = ws.take(i + 1);
        assert(t.drop_last() =~= ws.take(i) && t.last() == ws[i]);
        assert(is_word(ws[i]));
        let n = ws[i].len() as int;
        if i == 0 {
            assert(t[0] == ws[0]);
            assert(breaks(n, cols) == 0 && tail(n, cols) == n) by {
                assert((n - 1) / cols == 0 && (n - 1) % cols == n - 1) by (nonlinear_arith)
                    requires
                        0 <= n - 1 < cols,
                ;
            }
            lemma_wraps_once(ws, cols, 1, n);
        } else {
            lemma_wraps_once(ws, cols, i + 1, col + 1 + n);
        }
    }
}

} // verus!
