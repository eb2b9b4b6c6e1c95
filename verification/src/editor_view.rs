//! What the editor shows, and where: its window, the stage's parts and
//! the tool bar.

use vstd::prelude::*;
use crate::flight::WAY;
use crate::action::{close, rect_of, tight, Action, Mark, Tool};
use crate::editor::Editor;
use crate::geom::{clamp_of, least, max_of, min_of, most, Point, Rect};

verus! {

/// The editor window's size, where nothing makes it larger.
pub const WIN_W: i64 = 11_000_000;

pub const WIN_H: i64 = 7_200_000;

/// Where it opens on its monitor.
pub const INSET_X: i64 = 1_200_000;

pub const INSET_Y: i64 = 800_000;

/// Its least size.
pub const MIN_W: i64 = 6_400_000;

pub const MIN_H: i64 = 4_800_000;

/// How far it reaches past a card that sticks out.
pub const SPILL: i64 = 200_000;

/// The first monitor that has the point, its right and bottom edges
/// apart, from place `i` on.
pub open spec fn host_from(mons: Seq<Rect>, p: Point, i: int) -> Option<Rect>
    decreases mons.len() - i,
{
    if i < 0 || i >= mons.len() {
        None
    } else if mons[i].left() <= p.x < mons[i].right() && mons[i].top() <= p.y < mons[i].bottom() {
        Some(mons[i])
    } else {
        host_from(mons, p, i + 1)
    }
}

/// One side of the window on a monitor's side from `m0` to `m1`, round a
/// card's from `f0` to `f1`: it holds the card as far as the monitor
/// reaches, has its least length, and moves back onto the monitor where
/// that makes it pass the far edge.
pub open spec fn hosted_side(
    m0: int,
    m1: int,
    f0: int,
    f1: int,
    inset: int,
    len: int,
    least: int,
) -> (int, int) {
    let a = max_of(min_of(m0 + inset, f0), m0);
    let b = min_of(max_of(m0 + inset + len, f1), m1);
    let l = max_of(b - a, least);
    (max_of(min_of(a, m1 - l), m0), l)
}

/// The window on the card's own monitor.
pub open spec fn hosted(m: Rect, f: Rect) -> Rect {
    let (x, w) = hosted_side(
        m.left(),
        m.right(),
        f.left(),
        f.right(),
        INSET_X as int,
        WIN_W as int,
        MIN_W as int,
    );
    let (y, h) = hosted_side(
        m.top(),
        m.bottom(),
        f.top(),
        f.bottom(),
        INSET_Y as int,
        WIN_H as int,
        MIN_H as int,
    );
    rect_of(x, y, w, h)
}

fn host_side(m0: i64, m1: i64, f0: i64, f1: i64, inset: i64, len: i64, min: i64) -> (r: (i64, i64))
    requires
        -4 * crate::action::REACH <= m0 <= 4 * crate::action::REACH,
        -4 * crate::action::REACH <= m1 <= 4 * crate::action::REACH,
        -4 * crate::action::REACH <= f0 <= 4 * crate::action::REACH,
        -4 * crate::action::REACH <= f1 <= 4 * crate::action::REACH,
        0 <= inset <= 100_000_000,
        0 <= len <= 100_000_000,
        0 <= min <= 100_000_000,
    ensures
        r.0 == hosted_side(
            m0 as int,
            m1 as int,
            f0 as int,
            f1 as int,
            inset as int,
            len as int,
            min as int,
        ).0,
        r.1 == hosted_side(
            m0 as int,
            m1 as int,
            f0 as int,
            f1 as int,
            inset as int,
            len as int,
            min as int,
        ).1,
{
    let a: i64 = most(least(m0 + inset, f0), m0);
    let b: i64 = least(most(m0 + inset + len, f1), m1);
    let l: i64 = most(b - a, min);
    (most(least(a, m1 - l), m0), l)
}

/// One side of the window where no monitor has the card: it grows to hold
/// the card.
pub open spec fn grown_side(at: int, len: int, f: int, f_len: int) -> (int, int) {
    let at2 = min_of(at, f);
    let len2 = len + (at - at2);
    if f + f_len > at2 + len2 {
        (at2, f + f_len - at2 + SPILL)
    } else {
        (at2, len2)
    }
}

/// The window where no monitor has the card.
pub open spec fn roaming(f: Rect) -> Rect {
    let (x, w) = grown_side(INSET_X as int, WIN_W as int, f.left(), f.w as int);
    let (y, h) = grown_side(INSET_Y as int, WIN_H as int, f.top(), f.h as int);
    rect_of(x, y, w, h)
}

/// Where the editor's window opens: at `centered` where it grows out of
/// no card, else so that it holds the card.
pub open spec fn placed(from: Option<Rect>, centered: Point, mons: Seq<Rect>) -> Rect {
    match from {
        None => Rect { x: centered.x, y: centered.y, w: WIN_W, h: WIN_H },
        Some(f) => match host_from(mons, Point { x: f.x, y: f.y }, 0) {
            Some(m) => hosted(m, f),
            None => roaming(f),
        },
    }
}

fn grow_side(at: i64, len: i64, f: i64, f_len: i64) -> (r: (i64, i64))
    requires
        0 <= at <= 100_000_000,
        0 <= len <= 100_000_000,
        -4 * crate::action::REACH <= f <= 4 * crate::action::REACH,
        -4 * crate::action::REACH <= f + f_len <= 4 * crate::action::REACH,
    ensures
        r.0 == grown_side(at as int, len as int, f as int, f_len as int).0,
        r.1 == grown_side(at as int, len as int, f as int, f_len as int).1,
{
    let at2: i64 = least(at, f);
    let len2: i64 = len + (at - at2);
    if f + f_len > at2 + len2 {
        (at2, f + f_len - at2 + SPILL)
    } else {
        (at2, len2)
    }
}

/// Where the editor's window opens. `from` is the card it grows out of;
/// `centered` is where a window of its size is centered.
pub fn resolve_window_placement(from: Option<Rect>, centered: Point, mons: &Vec<Rect>) -> (r: Rect)
    requires
        from matches Some(f) ==> tight(f),
        forall|i: int| 0 <= i < mons@.len() ==> tight(#[trigger] mons@[i]),
    ensures
        r == placed(from, centered, mons@),
{
    match from {
        None => Rect { x: centered.x, y: centered.y, w: WIN_W, h: WIN_H },
        Some(f) => {
            let ghost p = Point { x: f.x, y: f.y };
            let mut i: usize = 0;
            while i < mons.len()
                invariant
                    i <= mons@.len(),
                    from == Some(f),
                    tight(f),
                    p == (Point { x: f.x, y: f.y }),
                    forall|i: int| 0 <= i < mons@.len() ==> tight(#[trigger] mons@[i]),
                    host_from(mons@, p, 0) == host_from(mons@, p, i as int),
                decreases mons@.len() - i,
            {
                let m = mons[i];
                assert(tight(mons@[i as int]));
                if f.x >= m.x && f.x < m.x + m.w && f.y >= m.y && f.y < m.y + m.h {
                    assert(host_from(mons@, p, 0) == Some(m));
                    let (x, w) = host_side(m.x, m.x + m.w, f.x, f.x + f.w, INSET_X, WIN_W, MIN_W);
                    let (y, h) = host_side(m.y, m.y + m.h, f.y, f.y + f.h, INSET_Y, WIN_H, MIN_H);
                    return Rect { x, y, w, h };
                }
                i = i + 1;
            }
            let (x, w) = grow_side(INSET_X, WIN_W, f.x, f.w);
            let (y, h) = grow_side(INSET_Y, WIN_H, f.y, f.h);
            Rect { x, y, w, h }
        },
    }
}

/// A window that opens on the card's monitor lies inside it, wherever the
/// monitor has room for the window's least size, and is no smaller than
/// that. It holds a card that lies on the monitor.
pub proof fn law_hosted_stays(m: Rect, f: Rect)
    requires
        tight(m),
        tight(f),
        m.left() <= f.left() < m.right(),
        m.top() <= f.top() < m.bottom(),
        m.w >= MIN_W,
        m.h >= MIN_H,
    ensures
        m.holds(hosted(m, f)),
        hosted(m, f).w >= MIN_W,
        hosted(m, f).h >= MIN_H,
        m.holds(f) ==> hosted(m, f).holds(f),
{
}

/// A window that opens on no monitor in particular holds its card.
pub proof fn law_roaming_holds(f: Rect)
    requires
        tight(f),
    ensures
        roaming(f).holds(f),
{
}

/// The parts of the image outside a crop rectangle: above, below, left
/// and right of it, those that are not empty.
pub open spec fn shades(r: Rect, iw: int, ih: int) -> Seq<Rect> {
    solid(
        seq![
            rect_of(0, 0, iw, r.top()),
            rect_of(0, r.bottom(), iw, ih - r.bottom()),
            rect_of(0, r.top(), r.left(), r.h as int),
            rect_of(r.right(), r.top(), iw - r.right(), r.h as int),
        ],
        4,
    )
}

/// Those of the first `n` that are not empty.
pub open spec fn solid(rs: Seq<Rect>, n: int) -> Seq<Rect>
    decreases n,
{
    if n <= 0 {
        Seq::empty()
    } else if rs[n - 1].w > 0 && rs[n - 1].h > 0 {
        solid(rs, n - 1).push(rs[n - 1])
    } else {
        solid(rs, n - 1)
    }
}

/// What is dimmed while a crop is pending, for an image of this size in
/// units.
pub fn crop_shades(r: Rect, iw: i64, ih: i64) -> (out: Vec<Rect>)
    requires
        tight(r),
        0 <= iw <= crate::action::PAGE,
        0 <= ih <= crate::action::PAGE,
    ensures
        out@ == shades(r, iw as int, ih as int),
{
    let right: i64 = r.x + r.w;
    let bottom: i64 = r.y + r.h;
    let above = Rect { x: 0, y: 0, w: iw, h: r.y };
    let below = Rect { x: 0, y: bottom, w: iw, h: ih - bottom };
    let before = Rect { x: 0, y: r.y, w: r.x, h: r.h };
    let behind = Rect { x: right, y: r.y, w: iw - right, h: r.h };
    let all: Vec<Rect> = vec![above, below, before, behind];
    let mut out: Vec<Rect> = Vec::new();
    let mut i: usize = 0;
    while i < all.len()
        invariant
            i <= all@.len(),
            out@ == solid(all@, i as int),
        decreases all@.len() - i,
    {
        let s = all[i];
        if s.w > 0 && s.h > 0 {
            out.push(s);
        }
        i = i + 1;
    }
    proof {
        let want = seq![
            rect_of(0, 0, iw as int, r.top()),
            rect_of(0, r.bottom(), iw as int, ih - r.bottom()),
            rect_of(0, r.top(), r.left(), r.h as int),
            rect_of(r.right(), r.top(), iw - r.right(), r.h as int),
        ];
        assert(all@ =~= want);
    }
    out
}

/// A point of the image is either in the crop rectangle or dimmed, and
/// never dimmed twice.
pub proof fn law_shades(r: Rect, iw: int, ih: int, x: int, y: int)
    requires
        0 <= r.x,
        0 <= r.y,
        0 <= r.w,
        0 <= r.h,
        r.right() <= iw <= crate::action::PAGE,
        r.bottom() <= ih <= crate::action::PAGE,
        0 <= x < iw,
        0 <= y < ih,
    ensures
        covering(shades(r, iw, ih), x, y, shades(r, iw, ih).len() as int) == (if r.left() <= x
            < r.right() && r.top() <= y < r.bottom() {
            0int
        } else {
            1
        }),
{
    let all = seq![
        rect_of(0, 0, iw, r.top()),
        rect_of(0, r.bottom(), iw, ih - r.bottom()),
        rect_of(0, r.top(), r.left(), r.h as int),
        rect_of(r.right(), r.top(), iw - r.right(), r.h as int),
    ];
    lemma_solid_covering(all, 4, x, y);
    reveal_with_fuel(covering, 5);
}

/// How many of the first `n` rectangles have the point, their right and
/// bottom edges apart.
pub open spec fn covering(rs: Seq<Rect>, x: int, y: int, n: int) -> int
    decreases n,
{
    if n <= 0 {
        0
    } else {
        let s = rs[n - 1];
        covering(rs, x, y, n - 1) + (if s.left() <= x < s.right() && s.top() <= y < s.bottom() {
            1int
        } else {
            0
        })
    }
}

proof fn lemma_covering_prefix(a: Seq<Rect>, b: Seq<Rect>, x: int, y: int, n: int)
    requires
        n <= a.len(),
        n <= b.len(),
        forall|i: int| 0 <= i < n ==> a[i] == b[i],
    ensures
        covering(a, x, y, n) == covering(b, x, y, n),
    decreases n,
{
    if n > 0 {
        lemma_covering_prefix(a, b, x, y, n - 1);
    }
}

proof fn lemma_solid_covering(rs: Seq<Rect>, n: int, x: int, y: int)
    requires
        0 <= n <= rs.len(),
    ensures
        covering(solid(rs, n), x, y, solid(rs, n).len() as int) == covering(rs, x, y, n),
    decreases n,
{
    if n > 0 {
        lemma_solid_covering(rs, n - 1, x, y);
        let before = solid(rs, n - 1);
        let after = solid(rs, n);
        if rs[n - 1].w > 0 && rs[n - 1].h > 0 {
            lemma_covering_prefix(before, after, x, y, before.len() as int);
        }
    }
}

/// What the stage shows over the image for one action, beside its shape.
#[derive(Clone, Copy, Debug, PartialEq, Eq, Structural)]
pub enum Item {
    Nothing,
    /// The blur's patch, in this rectangle.
    Patch(Rect),
    /// The text, its corner here.
    Text(Point),
    /// The counter's number, its corner here.
    Label(Point),
}

pub open spec fn item_of(m: Mark, patched: bool) -> Item {
    match m.tool {
        Tool::Blur => if patched {
            Item::Patch(m.blur_rect)
        } else {
            Item::Nothing
        },
        Tool::Text => if m.text is Some && m.points.len() > 0 {
            Item::Text(Point { x: m.points[0].x, y: (m.points[0].y - m.font_size) as i64 })
        } else {
            Item::Nothing
        },
        Tool::Counter => if m.points.len() > 0 {
            Item::Label(
                Point {
                    x: (m.points[0].x - m.step_label.len() * m.font_size * 3 / 10) as i64,
                    y: (m.points[0].y - m.font_size * 11 / 20) as i64,
                },
            )
        } else {
            Item::Nothing
        },
        _ => Item::Nothing,
    }
}

/// What the stage shows over the image for one action.
pub fn stage_item(a: &Action) -> (r: Item)
    requires
        a@.wf(),
    ensures
        r == item_of(a@, a.blur_patch is Some),
{
    if a.points.len() > 0 {
        assert(close(a@.points[0]));
    }
    match a.tool {
        Tool::Blur => {
            if a.blur_patch.is_some() {
                Item::Patch(a.blur_rect)
            } else {
                Item::Nothing
            }
        },
        Tool::Text => {
            if a.text.is_some() && a.points.len() > 0 {
                Item::Text(Point { x: a.points[0].x, y: a.points[0].y - a.font_size })
            } else {
                Item::Nothing
            }
        },
        Tool::Counter => {
            if a.points.len() > 0 {
                let n: usize = a.step_label.as_str().unicode_len();
                proof {
                    assert(0 <= n * a.font_size <= 100_000_000_000_000) by (nonlinear_arith)
                        requires
                            0 <= n <= 10_000_000,
                            0 <= a.font_size <= 10_000_000,
                    ;
                }
                let half: i64 = n as i64 * a.font_size * 3 / 10;
                Item::Label(
                    Point {
                        x: a.points[0].x - half,
                        y: a.points[0].y - a.font_size * 11 / 20,
                    },
                )
            } else {
                Item::Nothing
            }
        },
        _ => Item::Nothing,
    }
}

/// What the stage shows over the image for the first `n` actions, in
/// their order.
pub open spec fn items_of(actions: Seq<Action>, n: int) -> Seq<Item>
    decreases n,
{
    if n <= 0 {
        Seq::empty()
    } else {
        items_of(actions, n - 1).push(
            item_of(actions[n - 1]@, actions[n - 1].blur_patch is Some),
        )
    }
}

impl Editor {
    /// What the stage shows over the image, from the bottom up: the
    /// actions of the list, and above them the one being drawn.
    pub fn stage_items(&self) -> (r: Vec<Item>)
        requires
            self.wf(),
        ensures
            r@ == (match self.current {
                None => items_of(self.actions@, self.actions@.len() as int),
                Some(a) => items_of(self.actions@, self.actions@.len() as int).push(
                    item_of(a@, a.blur_patch is Some),
                ),
            }),
    {
        let mut out: Vec<Item> = Vec::new();
        let mut i: usize = 0;
        while i < self.actions.len()
            invariant
                self.wf(),
                i <= self.actions@.len(),
                out@ == items_of(self.actions@, i as int),
            decreases self.actions@.len() - i,
        {
            proof {
                crate::editor::lemma_settled_wf(self.list());
                assert(self.list()[i as int].wf());
            }
            out.push(stage_item(&self.actions[i]));
            i = i + 1;
        }
        if let Some(a) = &self.current {
            out.push(stage_item(a));
        }
        out
    }

    /// The outline of the selected action.
    pub fn selection_box(&self) -> (r: Option<Rect>)
        ensures
            r == (match self.selected {
                Some(i) => if i < self.actions@.len() {
                    self.actions@[i as int].bbox
                } else {
                    None
                },
                None => None,
            }),
    {
        match self.selected {
            Some(i) => if i < self.actions.len() {
                self.actions[i].bbox
            } else {
                None
            },
            None => None,
        }
    }
}

/// The edge of a crop rectangle's handle.
pub const HANDLE: i64 = 70_000;

/// The handle whose middle is here.
pub open spec fn handle_at(x: int, y: int) -> Rect {
    rect_of(x - HANDLE / 2, y - HANDLE / 2, HANDLE as int, HANDLE as int)
}

/// The handles on the corners of a crop rectangle as it is shown.
pub fn crop_handles(r: Rect) -> (out: Vec<Rect>)
    requires
        tight(r),
    ensures
        out@ == seq![
            handle_at(r.left(), r.top()),
            handle_at(r.right(), r.top()),
            handle_at(r.left(), r.bottom()),
            handle_at(r.right(), r.bottom()),
        ],
{
    let (x, y): (i64, i64) = (r.x - HANDLE / 2, r.y - HANDLE / 2);
    let out: Vec<Rect> = vec![
        Rect { x, y, w: HANDLE, h: HANDLE },
        Rect { x: x + r.w, y, w: HANDLE, h: HANDLE },
        Rect { x, y: y + r.h, w: HANDLE, h: HANDLE },
        Rect { x: x + r.w, y: y + r.h, w: HANDLE, h: HANDLE },
    ];
    out
}

/// The pointer's shape over the stage.
#[derive(Clone, Copy, Debug, PartialEq, Eq, Structural)]
pub enum Cursor {
    Arrow,
    Text,
    Cross,
}

/// An I-beam over text, an arrow to select, a cross to draw.
pub fn stage_cursor(tool: Tool) -> (r: Cursor)
    ensures
        r == (match tool {
            Tool::Text => Cursor::Text,
            Tool::Select => Cursor::Arrow,
            _ => Cursor::Cross,
        }),
{
    match tool {
        Tool::Text => Cursor::Text,
        Tool::Select => Cursor::Arrow,
        _ => Cursor::Cross,
    }
}

/// The text entry as it is shown `ms` milliseconds after the last key: a
/// caret stands behind it for the first 580 of every 1060.
pub fn entry_shown(buffer: &str, ms: u64) -> (r: String)
    ensures
        r@ == (if ms % 1060 < 580 {
            buffer@ + "▏"@
        } else {
            buffer@
        }),
{
    if ms % 1060 < 580 {
        buffer.to_owned().concat("▏")
    } else {
        buffer.to_owned()
    }
}

/// What the shape's kept triangles were made for: the scale, by its bits,
/// and how many points there were, the first and the last.
#[derive(Clone, Copy, Debug, PartialEq, Eq, Structural)]
pub struct PathKey {
    pub scale: u32,
    pub count: usize,
    pub first: Point,
    pub last: Point,
}

/// How the kept triangles of a shape are used.
#[derive(Clone, Copy, Debug, PartialEq, Eq, Structural)]
pub enum PathUse {
    /// The action has no shape of its own.
    Nothing,
    /// As they are.
    Stamp,
    /// With those of the segments from this point on behind them.
    Extend(usize),
    /// They are made anew.
    Build,
}

/// The key of an action's shape at a scale.
pub open spec fn key_of(m: Mark, scale: u32) -> PathKey {
    PathKey {
        scale,
        count: m.points.len() as usize,
        first: m.points[0],
        last: m.points[m.points.len() - 1],
    }
}

pub open spec fn path_use_of(m: Mark, scale: u32, kept: Option<PathKey>) -> PathUse {
    if m.tool is Blur || m.tool is Text || m.points.len() == 0 {
        PathUse::Nothing
    } else {
        match kept {
            None => PathUse::Build,
            Some(k) => if k == key_of(m, scale) {
                PathUse::Stamp
            } else if (m.tool is Pen || m.tool is Highlight) && k.scale == scale && k.first
                == m.points[0] && 2 <= k.count < m.points.len() {
                PathUse::Extend((k.count - 1) as usize)
            } else {
                PathUse::Build
            },
        }
    }
}

/// How the kept triangles of an action are used at a scale: as they are
/// where nothing changed, extended where a stroke grew, else made anew.
pub fn path_use(a: &Action, scale: u32, kept: Option<PathKey>) -> (r: PathUse)
    ensures
        r == path_use_of(a@, scale, kept),
{
    let n: usize = a.points.len();
    if a.tool == Tool::Blur || a.tool == Tool::Text || n == 0 {
        return PathUse::Nothing;
    }
    match kept {
        None => PathUse::Build,
        Some(k) => {
            let now = PathKey { scale, count: n, first: a.points[0], last: a.points[n - 1] };
            if k == now {
                PathUse::Stamp
            } else if (a.tool == Tool::Pen || a.tool == Tool::Highlight) && k.scale == scale
                && k.first == a.points[0] && k.count >= 2 && k.count < n {
                PathUse::Extend(k.count - 1)
            } else {
                PathUse::Build
            }
        },
    }
}

/// The markup colours, in the order of the swatches.
pub open spec fn palette() -> Seq<Seq<char>> {
    seq![
        "#f5f5f7"@,
        "#9c9ca2"@,
        "#6b6b71"@,
        "#3a3a3f"@,
        "#141416"@,
        "#ff453a"@,
        "#ff9f0a"@,
        "#ffd60a"@,
        "#30d158"@,
        "#0a84ff"@,
        "#bf5af2"@,
    ]
}

/// The markup colours, in the order of the swatches.
pub fn colors() -> (r: Vec<String>)
    ensures
        crate::text::texts(r@) == palette(),
{
    let r: Vec<String> = vec![
        "#f5f5f7".to_owned(),
        "#9c9ca2".to_owned(),
        "#6b6b71".to_owned(),
        "#3a3a3f".to_owned(),
        "#141416".to_owned(),
        "#ff453a".to_owned(),
        "#ff9f0a".to_owned(),
        "#ffd60a".to_owned(),
        "#30d158".to_owned(),
        "#0a84ff".to_owned(),
        "#bf5af2".to_owned(),
    ];
    assert(crate::text::texts(r@) =~= palette());
    r
}

/// The name of a tool in the side bar.
pub open spec fn tool_label(t: Tool) -> Seq<char> {
    match t {
        Tool::Select => "Select"@,
        Tool::Pen => "Pen"@,
        Tool::Line => "Line"@,
        Tool::Arrow => "Arrow"@,
        Tool::Ellipse => "Ellipse"@,
        Tool::Rect => "Rectangle"@,
        Tool::Text => "Text"@,
        Tool::Highlight => "Highlight"@,
        Tool::Blur => "Blur"@,
        Tool::Crop => "Crop"@,
        Tool::Counter => "Counter"@,
    }
}

/// The tools in the order of the side bar.
pub fn tools() -> (r: Vec<Tool>)
    ensures
        r@ == seq![
            Tool::Select,
            Tool::Pen,
            Tool::Line,
            Tool::Arrow,
            Tool::Ellipse,
            Tool::Rect,
            Tool::Text,
            Tool::Highlight,
            Tool::Blur,
            Tool::Crop,
            Tool::Counter,
        ],
{
    vec![
        Tool::Select,
        Tool::Pen,
        Tool::Line,
        Tool::Arrow,
        Tool::Ellipse,
        Tool::Rect,
        Tool::Text,
        Tool::Highlight,
        Tool::Blur,
        Tool::Crop,
        Tool::Counter,
    ]
}

/// The name of a tool in the side bar.
pub fn tool_name(t: Tool) -> (r: String)
    ensures
        r@ == tool_label(t),
{
    match t {
        Tool::Select => "Select".to_owned(),
        Tool::Pen => "Pen".to_owned(),
        Tool::Line => "Line".to_owned(),
        Tool::Arrow => "Arrow".to_owned(),
        Tool::Ellipse => "Ellipse".to_owned(),
        Tool::Rect => "Rectangle".to_owned(),
        Tool::Text => "Text".to_owned(),
        Tool::Highlight => "Highlight".to_owned(),
        Tool::Blur => "Blur".to_owned(),
        Tool::Crop => "Crop".to_owned(),
        Tool::Counter => "Counter".to_owned(),
    }
}

/// Frames the editor has drawn since a card handed over to it. The card
/// may leave with the second: by then the first is on the screen.
pub fn morph_frame(frames: u32) -> (r: (u32, bool))
    ensures
        r.0 == (if frames < u32::MAX {
            frames + 1
        } else {
            u32::MAX as int
        }),
        r.1 == (frames >= 1),
{
    let next: u32 = if frames < u32::MAX {
        frames + 1
    } else {
        frames
    };
    (next, next >= 2)
}

/// How far a part of the bars has faded in, that starts `after` the
/// image's growth and is there well before its end.
pub open spec fn faded(t: int, after: int) -> int {
    clamp_of((t - after) * 11 / 5, 0, WAY as int)
}

fn fade(t: i64, after: i64) -> (r: i64)
    requires
        0 <= t <= WAY,
        0 <= after <= WAY,
    ensures
        r == faded(t as int, after as int),
        0 <= r <= WAY,
{
    if t <= after {
        return 0;
    }
    let v: i64 = (t - after) * 11 / 5;
    if v < WAY {
        v
    } else {
        WAY
    }
}

/// How far the window's ground, the top bar and the side bar have faded
/// in, `t` of the way through the growth of the image out of its card.
pub fn bars_at(t: i64) -> (r: (i64, i64, i64))
    requires
        0 <= t <= WAY,
    ensures
        r.0 == faded(t as int, 0),
        r.1 == faded(t as int, 80_000_000),
        r.2 == faded(t as int, 180_000_000),
{
    (fade(t, 0), fade(t, 80_000_000), fade(t, 180_000_000))
}

/// The bars come in after each other, and are all there when the image
/// has grown.
pub proof fn law_bars_arrive(t: int)
    requires
        0 <= t <= WAY,
    ensures
        faded(t, 0) >= faded(t, 80_000_000) >= faded(t, 180_000_000),
        faded(WAY as int, 180_000_000) == WAY,
        faded(0, 0) == 0,
{
}

/// Each tool has its name.
pub proof fn law_tool_labels(t: Tool)
    ensures
        t is Select ==> tool_label(t) == "Select"@,
        t is Pen ==> tool_label(t) == "Pen"@,
        t is Line ==> tool_label(t) == "Line"@,
        t is Arrow ==> tool_label(t) == "Arrow"@,
        t is Ellipse ==> tool_label(t) == "Ellipse"@,
        t is Rect ==> tool_label(t) == "Rectangle"@,
        t is Text ==> tool_label(t) == "Text"@,
        t is Highlight ==> tool_label(t) == "Highlight"@,
        t is Blur ==> tool_label(t) == "Blur"@,
        t is Crop ==> tool_label(t) == "Crop"@,
        t is Counter ==> tool_label(t) == "Counter"@,
{
}

/// What is drawn live stands where it is painted: a text's corner on its
/// point, as high above it as the text is tall, and a counter's number
/// with its middle on the point.
pub proof fn law_items(m: Mark)
    requires
        m.wf(),
        m.points.len() > 0,
    ensures
        m.tool is Text && m.text is Some ==> item_of(m, false) == Item::Text(
            Point { x: m.points[0].x, y: (m.points[0].y - m.font_size) as i64 },
        ),
        m.tool is Counter ==> (item_of(m, false) matches Item::Label(p) && {
            let wide = m.step_label.len() * m.font_size * 3;
            &&& 10 * (m.points[0].x - p.x) <= wide < 10 * (m.points[0].x - p.x) + 10
            &&& 20 * (m.points[0].y - p.y) <= 11 * m.font_size < 20 * (m.points[0].y - p.y) + 20
        }),
        m.tool is Blur ==> item_of(m, true) == Item::Patch(m.blur_rect) && item_of(m, false)
            == Item::Nothing,
        m.tool is Pen || m.tool is Line || m.tool is Arrow || m.tool is Rect || m.tool is Ellipse
            || m.tool is Highlight ==> item_of(m, true) == Item::Nothing,
{
    let n = m.step_label.len() as int;
    let s = m.font_size as int;
    assert(close(m.points[0]));
    assert(0 <= n * s <= crate::action::MAX_TEXT * crate::action::MAX_FONT) by (nonlinear_arith)
        requires
            0 <= n <= crate::action::MAX_TEXT,
            0 <= s <= crate::action::MAX_FONT,
    ;
}

/// What was drawn before is used again only for the same points at the same
/// scale; more of a free stroke is drawn on behind it.
pub proof fn law_path_use(m: Mark, scale: u32, k: PathKey)
    requires
        0 < m.points.len() <= usize::MAX,
    ensures
        path_use_of(m, scale, Some(k)) is Stamp ==> k.scale == scale && k.count == m.points.len()
            && k.first == m.points[0] && k.last == m.points.last(),
        path_use_of(m, scale, Some(k)) is Extend ==> k.scale == scale && k.count < m.points.len()
            && k.first == m.points[0] && (m.tool is Pen || m.tool is Highlight)
            && path_use_of(m, scale, Some(k))->Extend_0 == k.count - 1,
        !(m.tool is Blur) && !(m.tool is Text) ==> path_use_of(m, scale, None) is Build,
{
}

/// An editor opens over the card that it grows out of: on the monitor that
/// the card's corner is on, and else round the card; without one, in the
/// middle.
pub proof fn law_placed(f: Rect, centered: Point, mons: Seq<Rect>, i: int)
    requires
        0 <= i < mons.len(),
    ensures
        placed(None, centered, mons).x == centered.x && placed(None, centered, mons).y == centered.y,
        mons[i].left() <= f.x < mons[i].right() && mons[i].top() <= f.y < mons[i].bottom() ==> exists|
            k: int,
        |
            0 <= k < mons.len() && placed(Some(f), centered, mons) == hosted(
                #[trigger] mons[k],
                f,
            ) && mons[k].left() <= f.x < mons[k].right() && mons[k].top() <= f.y < mons[k].bottom(),
{
    lemma_host(mons, Point { x: f.x, y: f.y }, 0, i);
}

proof fn lemma_host(mons: Seq<Rect>, p: Point, i: int, k: int)
    requires
        0 <= i,
    ensures
        match host_from(mons, p, i) {
            Some(m) => exists|j: int|
                0 <= j < mons.len() && #[trigger] mons[j] == m && m.left() <= p.x < m.right()
                    && m.top() <= p.y < m.bottom(),
            None => i <= k < mons.len() ==> !(mons[k].left() <= p.x < mons[k].right()
                && mons[k].top() <= p.y < mons[k].bottom()),
        },
    decreases mons.len() - i,
{
    if i < mons.len() {
        if mons[i].left() <= p.x < mons[i].right() && mons[i].top() <= p.y < mons[i].bottom() {
            assert(mons[i] == mons[i]);
        } else {
            lemma_host(mons, p, i + 1, k);
        }
    }
}

/// One side of the window that no monitor hosts holds the card, and all of
/// the room that it has without it.
pub proof fn law_grown(at: int, len: int, f: int, f_len: int)
    requires
        0 <= len,
        0 <= f_len,
    ensures
        ({
            let (a, l) = grown_side(at, len, f, f_len);
            &&& a <= at && at + len <= a + l
            &&& a <= f && f + f_len <= a + l
            &&& a == at || a == f
            &&& at <= f && f + f_len <= at + len ==> a == at && l == len
            &&& f + f_len > at + len ==> a + l == f + f_len + 200_000
            &&& f + f_len <= at + len ==> a + l == at + len
        }),
{
}

/// One side of the window on a monitor that is long enough for it stays
/// on the monitor and holds the part of the card that is there.
pub proof fn law_hosted(m0: int, m1: int, f0: int, f1: int, inset: int, len: int, least: int)
    requires
        m0 + least <= m1,
        m0 + inset <= m1,
        f0 <= f1,
        f0 < m1,
        m0 < f1,
        0 <= inset,
        0 <= len,
        0 <= least,
    ensures
        ({
            let (a, l) = hosted_side(m0, m1, f0, f1, inset, len, least);
            &&& m0 <= a && a + l <= m1
            &&& least <= l
            &&& m0 <= f0 ==> a <= f0
            &&& f1 <= m1 ==> f1 <= a + l
            &&& m0 + inset <= f0 && f1 <= m0 + inset + len && m0 + inset + len <= m1 && least
                <= len ==> a == m0 + inset && l == len
        }),
{
}

} // verus!
