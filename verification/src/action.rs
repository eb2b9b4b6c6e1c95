//! What the editor draws: tools, actions and their geometry.

use vstd::prelude::*;
use crate::canvas::Pixel;
use crate::geom::{clamp_of, clamped, least, max_of, min_of, most, Point, Rect, PX};
use crate::text::{chars, decimal, hex_of, push_decimal};

verus! {

#[derive(Clone, Copy, PartialEq, Eq, Structural, Debug)]
pub enum Tool {
    Select,
    Pen,
    Line,
    Arrow,
    Ellipse,
    Rect,
    Text,
    Highlight,
    Blur,
    Crop,
    Counter,
}

/// Whole-image transforms.
#[derive(Clone, Copy, PartialEq, Eq, Structural, Debug)]
pub enum Transform {
    Rot90,
    FlipH,
    FlipV,
}

/// A pixelated patch, as BGRA bytes.
pub struct Tile {
    pub w: u32,
    pub h: u32,
    pub bgra: Vec<u8>,
}

/// One committed mark on the image. Lengths are in units.
pub struct Action {
    pub tool: Tool,
    /// `#rrggbb`.
    pub color: String,
    pub width: i64,
    pub points: Vec<Point>,
    pub text: Option<String>,
    pub font_size: i64,
    /// A rectangle or an ellipse that paints its interior.
    pub filled: bool,
    /// A blur's pixels, from the last time it was replayed.
    pub blur_patch: Option<Tile>,
    pub blur_rect: Rect,
    /// A counter's number, and how it is written.
    pub step: u32,
    pub step_label: String,
    /// The bounding box, from when the action was committed or moved.
    pub bbox: Option<Rect>,
}

/// An action without the pixels it last showed.
pub struct Mark {
    pub tool: Tool,
    pub color: Seq<char>,
    pub width: i64,
    pub points: Seq<Point>,
    pub text: Option<Seq<char>>,
    pub font_size: i64,
    pub filled: bool,
    pub blur_rect: Rect,
    pub step: u32,
    pub step_label: Seq<char>,
    pub bbox: Option<Rect>,
}

impl View for Action {
    type V = Mark;

    open spec fn view(&self) -> Mark {
        Mark {
            tool: self.tool,
            color: self.color@,
            width: self.width,
            points: self.points@,
            text: match self.text {
                Some(t) => Some(t@),
                None => None,
            },
            font_size: self.font_size,
            filled: self.filled,
            blur_rect: self.blur_rect,
            step: self.step,
            step_label: self.step_label@,
            bbox: self.bbox,
        }
    }
}

/// What a patch shows: its size and its bytes.
pub struct Patch {
    pub w: u32,
    pub h: u32,
    pub bgra: Seq<u8>,
}

impl View for Tile {
    type V = Patch;

    open spec fn view(&self) -> Patch {
        Patch { w: self.w, h: self.h, bgra: self.bgra@ }
    }
}

/// The pixels that an action last showed.
pub open spec fn patch_of(a: Action) -> Option<Patch> {
    match a.blur_patch {
        Some(t) => Some(t@),
        None => None,
    }
}

/// What each action of a list last showed.
pub open spec fn patches(actions: Seq<Action>) -> Seq<Option<Patch>> {
    Seq::new(actions.len(), |i: int| patch_of(actions[i]))
}

/// They are the same action, with the same pixels.
pub open spec fn same_action(a: Action, b: Action) -> bool {
    a@ == b@ && patch_of(a) == patch_of(b)
}

/// The actions of a list, each without the pixels it last showed.
pub open spec fn marks(actions: Seq<Action>) -> Seq<Mark> {
    Seq::new(actions.len(), |i: int| actions[i]@)
}

/// Limits that keep every corner an action computes within reach.
pub const REACH: i64 = 250_000_000_000_000;

pub const MAX_FONT: i64 = 10_000_000;

pub const MAX_TEXT: usize = 10_000_000;

pub open spec fn close(p: Point) -> bool {
    -REACH <= p.x <= REACH && -REACH <= p.y <= REACH
}

pub open spec fn half_near(v: int) -> bool {
    -2 * REACH <= v <= 2 * REACH
}

/// Every corner lies within half of what a rectangle can reach.
pub open spec fn tight(r: Rect) -> bool {
    half_near(r.left()) && half_near(r.top()) && half_near(r.right()) && half_near(r.bottom())
}

impl Mark {
    pub open spec fn wf(self) -> bool {
        &&& self.color.len() >= 1
        &&& 0 <= self.width <= REACH
        &&& 0 <= self.font_size <= MAX_FONT
        &&& forall|i: int| 0 <= i < self.points.len() ==> close(#[trigger] self.points[i])
        &&& self.text matches Some(t) ==> t.len() <= MAX_TEXT
        &&& self.step_label.len() <= MAX_TEXT
        &&& tight(self.blur_rect)
        &&& self.bbox matches Some(b) ==> tight(b)
    }
}

/// No image is larger than this, in units.
pub const PAGE: i64 = 42_949_672_960_000;

/// Is the point one of an image?
pub open spec fn on_page(p: Point) -> bool {
    0 <= p.x <= PAGE && 0 <= p.y <= PAGE
}

/// `v` is not further than an image is wide from `from`.
pub open spec fn tied(v: int, from: int) -> bool {
    -2 * PAGE <= v - from <= 2 * PAGE
}

impl Mark {
    /// A counter's label is its number.
    pub open spec fn sane(self) -> bool {
        self.tool is Counter ==> self.step_label == decimal(self.step as nat)
    }

    /// Every part of the action is near its box.
    pub open spec fn leashed(self) -> bool {
        self.bbox matches Some(b) ==> {
            &&& forall|i: int|
                0 <= i < self.points.len() ==> tied((#[trigger] self.points[i]).x as int, b.left())
                    && tied(self.points[i].y as int, b.top())
            &&& self.tool is Blur ==> self.blur_rect == b
        }
    }

    /// What every committed action is: within reach, in a box, and its
    /// label in step with its number.
    pub open spec fn settled(self) -> bool {
        self.wf() && self.sane() && self.bbox is Some && self.leashed()
    }

    /// What an action being drawn is: within reach, with a point, and all
    /// its points on the image.
    pub open spec fn drawable(self) -> bool {
        &&& self.wf()
        &&& self.sane()
        &&& !(self.tool is Text)
        &&& self.points.len() >= 1
        &&& self.width <= 1000 * PX
        &&& forall|i: int| 0 <= i < self.points.len() ==> on_page(#[trigger] self.points[i])
    }
}

pub open spec fn all_settled(ms: Seq<Mark>) -> bool {
    forall|i: int| 0 <= i < ms.len() ==> (#[trigger] ms[i]).settled()
}

pub open spec fn all_wf(ms: Seq<Mark>) -> bool {
    forall|i: int| 0 <= i < ms.len() ==> (#[trigger] ms[i]).wf()
}

/// The least coordinate of the first `n` points.
pub open spec fn least_x(ps: Seq<Point>, n: int) -> int
    decreases n,
{
    if n <= 1 {
        ps[0].x as int
    } else {
        min_of(least_x(ps, n - 1), ps[n - 1].x as int)
    }
}

pub open spec fn least_y(ps: Seq<Point>, n: int) -> int
    decreases n,
{
    if n <= 1 {
        ps[0].y as int
    } else {
        min_of(least_y(ps, n - 1), ps[n - 1].y as int)
    }
}

pub open spec fn most_x(ps: Seq<Point>, n: int) -> int
    decreases n,
{
    if n <= 1 {
        ps[0].x as int
    } else {
        max_of(most_x(ps, n - 1), ps[n - 1].x as int)
    }
}

pub open spec fn most_y(ps: Seq<Point>, n: int) -> int
    decreases n,
{
    if n <= 1 {
        ps[0].y as int
    } else {
        max_of(most_y(ps, n - 1), ps[n - 1].y as int)
    }
}

/// A rectangle by its corner and size.
pub open spec fn rect_of(x: int, y: int, w: int, h: int) -> Rect {
    Rect { x: x as i64, y: y as i64, w: w as i64, h: h as i64 }
}

/// The width that `n` characters are taken to have, at `size`.
pub open spec fn text_width(n: int, size: int) -> int {
    n * size * 3 / 5
}

/// The bounding box of an action: an estimate from its font for text,
/// the disc of a counter, the rectangle of a blur, and otherwise the
/// points with half the stroke and two pixels around them.
pub open spec fn bbox_of(m: Mark) -> Option<Rect> {
    match m.tool {
        Tool::Text => if m.points.len() == 0 || m.text is None {
            None
        } else {
            let p = m.points[0];
            Some(
                rect_of(
                    p.x as int,
                    p.y - m.font_size,
                    max_of(text_width(m.text->0.len() as int, m.font_size as int), 8 * PX),
                    m.font_size * 5 / 4,
                ),
            )
        },
        Tool::Blur => Some(m.blur_rect),
        Tool::Counter => if m.points.len() == 0 {
            None
        } else {
            let p = m.points[0];
            let r = m.font_size * 9 / 10;
            Some(rect_of(p.x - r, p.y - r, 2 * r, 2 * r))
        },
        _ => if m.points.len() == 0 {
            None
        } else {
            let n = m.points.len() as int;
            let pad = m.width as int / 2 + 2 * PX;
            Some(
                rect_of(
                    least_x(m.points, n) - pad,
                    least_y(m.points, n) - pad,
                    most_x(m.points, n) - least_x(m.points, n) + 2 * pad,
                    most_y(m.points, n) - least_y(m.points, n) + 2 * pad,
                ),
            )
        },
    }
}

/// How long the sides of an arrow's head are.
pub open spec fn head_length(width: int) -> int {
    14 * PX + width
}

/// How far an action's paint can pass its bounding box: one font size for
/// text and counters; for an arrow the length of its head, and a pixel for
/// what rounding adds.
pub open spec fn reach_of(m: Mark) -> int {
    match m.tool {
        Tool::Text | Tool::Counter => m.font_size as int,
        Tool::Arrow => head_length(m.width as int) + PX,
        _ => 0,
    }
}

/// What an action can paint or sample: its bounding box, and around it
/// as far as its paint can pass the box. None: anywhere.
pub open spec fn footprint_of(m: Mark) -> Option<Rect> {
    match m.bbox {
        None => None,
        Some(b) => {
            let pad = reach_of(m);
            Some(rect_of(b.x - pad, b.y - pad, b.w + 2 * pad, b.h + 2 * pad))
        },
    }
}

/// The bounding box of one action, in units.
pub fn compute_bbox(action: &Action) -> (r: Option<Rect>)
    requires
        action@.wf(),
    ensures
        r == bbox_of(action@),
        r matches Some(b) ==> tight(b),
{
    match action.tool {
        Tool::Text => {
            if action.points.len() == 0 {
                return None;
            }
            match &action.text {
                None => None,
                Some(text) => {
                    let p = action.points[0];
                    let n: usize = text.as_str().unicode_len();
                    proof {
                        assert(0 <= n * action.font_size <= 100_000_000_000_000) by (nonlinear_arith)
                            requires
                                0 <= n <= 10_000_000,
                                0 <= action.font_size <= 10_000_000,
                        ;
                    }
                    let w: i64 = n as i64 * action.font_size * 3 / 5;
                    Some(
                        Rect {
                            x: p.x,
                            y: p.y - action.font_size,
                            w: most(w, 8 * PX),
                            h: action.font_size * 5 / 4,
                        },
                    )
                },
            }
        },
        Tool::Blur => Some(action.blur_rect),
        Tool::Counter => {
            if action.points.len() == 0 {
                return None;
            }
            let p = action.points[0];
            let r: i64 = action.font_size * 9 / 10;
            Some(Rect { x: p.x - r, y: p.y - r, w: 2 * r, h: 2 * r })
        },
        _ => {
            if action.points.len() == 0 {
                return None;
            }
            let (x0, y0, x1, y1) = extent(&action.points);
            let pad: i64 = action.width / 2 + 2 * PX;
            Some(
                Rect {
                    x: x0 - pad,
                    y: y0 - pad,
                    w: (x1 - x0) + 2 * pad,
                    h: (y1 - y0) + 2 * pad,
                },
            )
        },
    }
}

/// The least and the most of the points' coordinates.
pub fn extent(ps: &Vec<Point>) -> (r: (i64, i64, i64, i64))
    requires
        ps@.len() > 0,
        forall|i: int| 0 <= i < ps@.len() ==> close(#[trigger] ps@[i]),
    ensures
        r.0 == least_x(ps@, ps@.len() as int),
        r.1 == least_y(ps@, ps@.len() as int),
        r.2 == most_x(ps@, ps@.len() as int),
        r.3 == most_y(ps@, ps@.len() as int),
        -REACH <= r.0 <= r.2 <= REACH,
        -REACH <= r.1 <= r.3 <= REACH,
{
    let mut x0: i64 = ps[0].x;
    let mut y0: i64 = ps[0].y;
    let mut x1: i64 = ps[0].x;
    let mut y1: i64 = ps[0].y;
    let mut i: usize = 1;
    assert(close(ps@[0]));
    while i < ps.len()
        invariant
            1 <= i <= ps@.len(),
            forall|i: int| 0 <= i < ps@.len() ==> close(#[trigger] ps@[i]),
            x0 == least_x(ps@, i as int),
            y0 == least_y(ps@, i as int),
            x1 == most_x(ps@, i as int),
            y1 == most_y(ps@, i as int),
            -REACH <= x0 <= x1 <= REACH,
            -REACH <= y0 <= y1 <= REACH,
        decreases ps@.len() - i,
    {
        let p = ps[i];
        assert(close(ps@[i as int]));
        x0 = least(x0, p.x);
        y0 = least(y0, p.y);
        x1 = most(x1, p.x);
        y1 = most(y1, p.y);
        i = i + 1;
    }
    (x0, y0, x1, y1)
}

/// The rectangle an action can paint or sample. None: it could have
/// painted anywhere.
pub fn footprint(action: &Action) -> (r: Option<Rect>)
    requires
        action@.wf(),
    ensures
        r == footprint_of(action@),
        r matches Some(f) ==> f.wf(),
{
    match action.bbox {
        None => None,
        Some(b) => {
            let pad: i64 = match action.tool {
                Tool::Text | Tool::Counter => action.font_size,
                Tool::Arrow => 15 * PX + action.width,
                _ => 0,
            };
            Some(Rect { x: b.x - pad, y: b.y - pad, w: b.w + 2 * pad, h: b.h + 2 * pad })
        },
    }
}

/// The value of a hexadecimal digit.
pub open spec fn hex_digit(c: char) -> Option<int> {
    if '0' <= c <= '9' {
        Some(c as int - '0' as int)
    } else if 'a' <= c <= 'f' {
        Some(c as int - 'a' as int + 10)
    } else if 'A' <= c <= 'F' {
        Some(c as int - 'A' as int + 10)
    } else {
        None
    }
}

/// The number that the first `n` characters write in hexadecimal.
pub open spec fn hex_prefix(s: Seq<char>, n: int) -> Option<int>
    decreases n,
{
    if n <= 0 {
        Some(0)
    } else {
        match (hex_prefix(s, n - 1), hex_digit(s[n - 1])) {
            (Some(v), Some(d)) => Some(v * 16 + d),
            _ => None,
        }
    }
}

/// The 32-bit number that `s` writes in hexadecimal, with or without a
/// plus sign before it.
pub open spec fn hex_number(s: Seq<char>) -> Option<int> {
    let t = if s.len() > 0 && s[0] == '+' {
        s.skip(1)
    } else {
        s
    };
    match hex_prefix(t, t.len() as int) {
        Some(v) => if t.len() > 0 && v <= u32::MAX {
            Some(v)
        } else {
            None
        },
        None => None,
    }
}

/// The opaque colour of `#rrggbb`: white where the digits are no number.
pub open spec fn color_of(hex: Seq<char>) -> Pixel {
    let v = match hex_number(hex.skip(1)) {
        Some(v) => v,
        None => 0xffffff,
    };
    Pixel {
        r: ((v / 65536) % 256) as u8,
        g: ((v / 256) % 256) as u8,
        b: (v % 256) as u8,
        a: 255,
    }
}

fn digit_value(c: char) -> (r: Option<u32>)
    ensures
        match r {
            Some(d) => hex_digit(c) == Some(d as int) && d < 16,
            None => hex_digit(c) is None,
        },
{
    if '0' <= c && c <= '9' {
        Some(c as u32 - 48)
    } else if 'a' <= c && c <= 'f' {
        Some(c as u32 - 97 + 10)
    } else if 'A' <= c && c <= 'F' {
        Some(c as u32 - 65 + 10)
    } else {
        None
    }
}

/// Prefixes of a number too large, or of none, are no better.
proof fn lemma_hex_grows(s: Seq<char>, i: int, n: int)
    requires
        0 <= i <= n <= s.len(),
    ensures
        hex_prefix(s, i) is None ==> hex_prefix(s, n) is None,
        hex_prefix(s, i) matches Some(v) ==> v >= 0 && (hex_prefix(s, n) matches Some(u) ==> u
            >= v),
    decreases n,
{
    if n > 0 {
        if i < n {
            lemma_hex_grows(s, i, n - 1);
        } else {
            lemma_hex_grows(s, i - 1, n - 1);
        }
    }
}

/// The colour of `#rrggbb`, opaque.
pub fn hex_rgba(hex: &str) -> (r: Pixel)
    requires
        hex@.len() >= 1,
    ensures
        r == color_of(hex@),
{
    let cs = chars(hex);
    let from: usize = if cs.len() > 1 && cs[1] == '+' {
        2
    } else {
        1
    };
    let ghost t = if hex@.skip(1).len() > 0 && hex@.skip(1)[0] == '+' {
        hex@.skip(1).skip(1)
    } else {
        hex@.skip(1)
    };
    assert(t =~= hex@.skip(from as int));
    let mut v: u64 = 0;
    let mut ok = cs.len() > from;
    let mut i: usize = from;
    while ok && i < cs.len()
        invariant
            cs@ == hex@,
            from <= cs@.len(),
            from <= i <= cs@.len(),
            t == hex@.skip(from as int),
            ok ==> cs@.len() > from && v <= u32::MAX && hex_prefix(t, i - from) == Some(v as int),
            !ok ==> (cs@.len() == from || hex_prefix(t, t.len() as int) is None || hex_prefix(
                t,
                t.len() as int,
            )->0 > u32::MAX),
        decreases cs@.len() - i,
    {
        proof {
            lemma_hex_grows(t, i + 1 - from, t.len() as int);
            assert(t[i - from] == cs@[i as int]);
        }
        match digit_value(cs[i]) {
            Some(d) => {
                v = v * 16 + d as u64;
                if v > 0xffff_ffff {
                    ok = false;
                }
            },
            None => {
                ok = false;
            },
        }
        i = i + 1;
    }
    let v: u32 = if ok {
        v as u32
    } else {
        0xffffff
    };
    Pixel {
        r: ((v / 65536) % 256) as u8,
        g: ((v / 256) % 256) as u8,
        b: (v % 256) as u8,
        a: 255,
    }
}

impl Tile {
    pub fn copy(&self) -> (r: Tile)
        ensures
            r@ == self@,
    {
        let bgra = self.bgra.clone();
        assert(bgra@ =~= self.bgra@);
        Tile { w: self.w, h: self.h, bgra }
    }
}

impl Action {
    /// Another action that is the same.
    pub fn copy(&self) -> (r: Action)
        ensures
            r@ == self@,
            same_action(r, *self),
    {
        let points = self.points.clone();
        assert(points@ =~= self.points@);
        let text = match &self.text {
            Some(t) => Some(t.clone()),
            None => None,
        };
        let blur_patch = match &self.blur_patch {
            Some(t) => Some(t.copy()),
            None => None,
        };
        Action {
            tool: self.tool,
            color: self.color.clone(),
            width: self.width,
            points,
            text,
            font_size: self.font_size,
            filled: self.filled,
            blur_patch,
            blur_rect: self.blur_rect,
            step: self.step,
            step_label: self.step_label.clone(),
            bbox: self.bbox,
        }
    }
}

/// The stroke width of a `w` pixel wide image: three thousandths of it,
/// between 2 and 16 pixels.
pub open spec fn stroke_units(w: int) -> int {
    clamp_of(w * PX * 3 / 1000, 2 * PX, 16 * PX)
}

pub fn stroke_base(w: u32) -> (r: i64)
    ensures
        r == stroke_units(w as int),
        2 * PX <= r <= 16 * PX,
{
    clamped(w as i64 * PX * 3 / 1000, 2 * PX, 16 * PX)
}

/// The highlighter's width: 18 thousandths, between 16 and 64 pixels.
pub open spec fn highlight_units(w: int) -> int {
    clamp_of(w * PX * 18 / 1000, 16 * PX, 64 * PX)
}

pub fn highlight_width(w: u32) -> (r: i64)
    ensures
        r == highlight_units(w as int),
        16 * PX <= r <= 64 * PX,
{
    clamped(w as i64 * PX * 18 / 1000, 16 * PX, 64 * PX)
}

/// The text size: 16 thousandths, between 14 and 48 pixels.
pub open spec fn text_units(w: int) -> int {
    clamp_of(w * PX * 16 / 1000, 14 * PX, 48 * PX)
}

pub fn text_size(w: u32) -> (r: i64)
    ensures
        r == text_units(w as int),
        14 * PX <= r <= 48 * PX,
{
    clamped(w as i64 * PX * 16 / 1000, 14 * PX, 48 * PX)
}

/// A stroke width stop: six tenths of the base, the base, and eighteen
/// tenths of it.
pub open spec fn stop_units(base: int, stop: int) -> int {
    if stop == 0 {
        base * 6 / 10
    } else if stop == 1 {
        base
    } else {
        base * 18 / 10
    }
}

/// The width of a new stroke: the highlighter has its own.
pub open spec fn width_units(tool: Tool, w: int, stop: int) -> int {
    if tool is Highlight {
        highlight_units(w)
    } else {
        stop_units(stroke_units(w), stop)
    }
}

/// The action that starts at `p`, on a `w` pixel wide image.
pub open spec fn started(
    tool: Tool,
    color: Seq<char>,
    stop: int,
    fill: bool,
    w: int,
    step: u32,
    p: Point,
) -> Mark {
    Mark {
        tool,
        color,
        width: width_units(tool, w, stop) as i64,
        points: seq![p],
        text: None,
        font_size: text_units(w) as i64,
        filled: fill,
        blur_rect: rect_of(0, 0, 0, 0),
        step,
        step_label: decimal(step as nat),
        bbox: None,
    }
}

/// Start an action at `p`.
pub fn start_action(
    tool: Tool,
    color: &str,
    stop: u8,
    fill: bool,
    w: u32,
    step: u32,
    p: Point,
) -> (r: Action)
    requires
        stop < 3,
    ensures
        r@ == started(tool, color@, stop as int, fill, w as int, step, p),
        r.blur_patch is None,
{
    let base: i64 = stroke_base(w);
    let width: i64 = if tool == Tool::Highlight {
        highlight_width(w)
    } else if stop == 0 {
        base * 6 / 10
    } else if stop == 1 {
        base
    } else {
        base * 18 / 10
    };
    let mut label = String::new();
    push_decimal(&mut label, step as u64);
    let r = Action {
        tool,
        color: color.to_owned(),
        width,
        points: vec![p],
        text: None,
        font_size: text_size(w),
        filled: fill,
        blur_patch: None,
        blur_rect: Rect { x: 0, y: 0, w: 0, h: 0 },
        step,
        step_label: label,
        bbox: None,
    };
    assert(r.points@ =~= seq![p]);
    assert(r.step_label@ =~= decimal(step as nat));
    r
}

/// The text that was typed at `p`.
pub open spec fn lettering(color: Seq<char>, w: int, p: Point, text: Seq<char>) -> Mark {
    let m = Mark {
        tool: Tool::Text,
        color,
        width: stroke_units(w) as i64,
        points: seq![p],
        text: Some(text),
        font_size: text_units(w) as i64,
        filled: false,
        blur_rect: rect_of(0, 0, 0, 0),
        step: 0,
        step_label: "0"@,
        bbox: None,
    };
    Mark { bbox: bbox_of(m), ..m }
}

pub fn text_action(color: &str, w: u32, p: Point, text: String) -> (r: Action)
    requires
        close(p),
        color@.len() >= 1,
        text@.len() <= MAX_TEXT,
    ensures
        r@ == lettering(color@, w as int, p, text@),
        r@.wf(),
        r.blur_patch is None,
{
    let mut r = Action {
        tool: Tool::Text,
        color: color.to_owned(),
        width: stroke_base(w),
        points: vec![p],
        text: Some(text),
        font_size: text_size(w),
        filled: false,
        blur_patch: None,
        blur_rect: Rect { x: 0, y: 0, w: 0, h: 0 },
        step: 0,
        step_label: "0".to_owned(),
        bbox: None,
    };
    proof {
        reveal_strlit("0");
        assert(r.points@ =~= seq![p]);
    }
    r.bbox = compute_bbox(&r);
    r
}

/// The last of the first `n` actions whose box has `p`.
pub open spec fn topmost(ms: Seq<Mark>, p: Point, n: int) -> Option<int>
    decreases n,
{
    if n <= 0 {
        None
    } else if ms[n - 1].bbox matches Some(b) && b.has(p) {
        Some(n - 1)
    } else {
        topmost(ms, p, n - 1)
    }
}

pub proof fn lemma_topmost(ms: Seq<Mark>, p: Point, n: int)
    requires
        n <= ms.len(),
    ensures
        topmost(ms, p, n) matches Some(i) ==> 0 <= i < n && ms[i].bbox is Some,
    decreases n,
{
    if n > 0 {
        lemma_topmost(ms, p, n - 1);
    }
}

/// The index of the topmost action whose box has `p`.
pub fn hit_action(actions: &Vec<Action>, p: Point) -> (r: Option<usize>)
    requires
        all_wf(marks(actions@)),
    ensures
        match r {
            Some(i) => i < actions@.len() && topmost(
                marks(actions@),
                p,
                actions@.len() as int,
            ) == Some(i as int),
            None => topmost(marks(actions@), p, actions@.len() as int) is None,
        },
{
    let mut i: usize = actions.len();
    while i > 0
        invariant
            i <= actions@.len(),
            all_wf(marks(actions@)),
            topmost(marks(actions@), p, actions@.len() as int) == topmost(
                marks(actions@),
                p,
                i as int,
            ),
        decreases i,
    {
        i = i - 1;
        assert(marks(actions@)[i as int].wf());
        if let Some(b) = actions[i].bbox {
            if p.x >= b.x && p.x <= b.x + b.w && p.y >= b.y && p.y <= b.y + b.h {
                return Some(i);
            }
        }
    }
    None
}

/// The greatest number of a counter among the first `n` actions.
pub open spec fn top_step(ms: Seq<Mark>, n: int) -> int
    decreases n,
{
    if n <= 0 {
        0
    } else if ms[n - 1].tool is Counter {
        max_of(top_step(ms, n - 1), ms[n - 1].step as int)
    } else {
        top_step(ms, n - 1)
    }
}

/// The next counter number: one past the greatest.
pub fn next_step(actions: &Vec<Action>) -> (r: u32)
    requires
        top_step(marks(actions@), actions@.len() as int) < u32::MAX,
    ensures
        r == top_step(marks(actions@), actions@.len() as int) + 1,
{
    let ghost ms = marks(actions@);
    let mut top: u32 = 0;
    let mut i: usize = 0;
    while i < actions.len()
        invariant
            i <= actions@.len(),
            ms == marks(actions@),
            top == top_step(ms, i as int),
        decreases actions@.len() - i,
    {
        if actions[i].tool == Tool::Counter && actions[i].step > top {
            top = actions[i].step;
        }
        i = i + 1;
    }
    top + 1
}

/// A colour reads back as it is written: two hexadecimal digits for red,
/// for green and for blue, in this order, and opaque.
pub proof fn law_color_reads(r: u8, g: u8, b: u8)
    ensures
        color_of(seq!['#'] + hex_of(r) + hex_of(g) + hex_of(b)) == (Pixel { r, g, b, a: 255 }),
{
    let s = seq!['#'] + hex_of(r) + hex_of(g) + hex_of(b);
    let t = s.skip(1);
    let (x, y, z) = (hex_of(r), hex_of(g), hex_of(b));
    assert(t =~= x + y + z);
    assert(t[0] == x[0] && t[1] == x[1] && t[2] == y[0]);
    assert(t[3] == y[1] && t[4] == z[0] && t[5] == z[1]);
    lemma_byte_reads(r);
    lemma_byte_reads(g);
    lemma_byte_reads(b);
    lemma_six(
        t,
        r as int / 16,
        r as int % 16,
        g as int / 16,
        g as int % 16,
        b as int / 16,
        b as int % 16,
    );
    let v = r * 65536 + g * 256 + b;
    lemma_split(r as int, g as int, b as int);
    assert(hex_prefix(t, 6) == Some(v));
    assert(hex_number(t) == Some(v));
}

proof fn lemma_split(r: int, g: int, b: int)
    requires
        0 <= r < 256 && 0 <= g < 256 && 0 <= b < 256,
    ensures
        ({
            let v = r * 65536 + g * 256 + b;
            &&& v == (r / 16) * 1048576 + (r % 16) * 65536 + (g / 16) * 4096 + (g % 16) * 256 + (b
                / 16) * 16 + b % 16
            &&& (v / 65536) % 256 == r && (v / 256) % 256 == g && v % 256 == b
            &&& 0 <= v <= 0xffffff
        }),
{
    let v = r * 65536 + g * 256 + b;
    assert(r == (r / 16) * 16 + r % 16);
    assert(g == (g / 16) * 16 + g % 16);
    assert(b == (b / 16) * 16 + b % 16);
    assert(v / 65536 == r);
    assert(v / 256 == r * 256 + g);
}

proof fn lemma_byte_reads(b: u8)
    ensures
        hex_digit(hex_of(b)[0]) == Some(b as int / 16),
        hex_digit(hex_of(b)[1]) == Some(b as int % 16),
        hex_of(b).len() == 2,
        hex_of(b)[0] != '+',
{
}

proof fn lemma_six(t: Seq<char>, a: int, b: int, c: int, d: int, e: int, f: int)
    requires
        t.len() == 6,
        hex_digit(t[0]) == Some(a) && hex_digit(t[1]) == Some(b) && hex_digit(t[2]) == Some(c),
        hex_digit(t[3]) == Some(d) && hex_digit(t[4]) == Some(e) && hex_digit(t[5]) == Some(f),
    ensures
        hex_prefix(t, 6) == Some(
            a * 1048576 + b * 65536 + c * 4096 + d * 256 + e * 16 + f,
        ),
{
    assert(hex_prefix(t, 0) == Some(0int));
    assert(hex_prefix(t, 1) == Some(a));
    assert(hex_prefix(t, 2) == Some(a * 16 + b));
    assert(hex_prefix(t, 3) == Some((a * 16 + b) * 16 + c));
    assert(hex_prefix(t, 4) == Some(((a * 16 + b) * 16 + c) * 16 + d));
    assert(hex_prefix(t, 5) == Some((((a * 16 + b) * 16 + c) * 16 + d) * 16 + e));
}

/// Capital digits read as small ones; what is no colour reads as white.
pub proof fn law_color_else(s: Seq<char>, c: char)
    ensures
        'A' <= c <= 'F' ==> hex_digit(c) == hex_digit((c as u32 + 32) as char),
        hex_number(s.skip(1)) is None ==> color_of(s) == (Pixel { r: 255, g: 255, b: 255, a: 255 }),
{
}

/// The points' extent: no point lies outside it, and it is no larger than
/// that takes.
pub proof fn law_extent(ps: Seq<Point>, n: int, i: int)
    requires
        0 <= i < n <= ps.len(),
    ensures
        least_x(ps, n) <= ps[i].x <= most_x(ps, n),
        least_y(ps, n) <= ps[i].y <= most_y(ps, n),
        exists|j: int| 0 <= j < n && least_x(ps, n) == (#[trigger] ps[j]).x,
        exists|j: int| 0 <= j < n && most_x(ps, n) == (#[trigger] ps[j]).x,
        exists|j: int| 0 <= j < n && least_y(ps, n) == (#[trigger] ps[j]).y,
        exists|j: int| 0 <= j < n && most_y(ps, n) == (#[trigger] ps[j]).y,
    decreases n,
{
    if n > 1 {
        let k = if i < n - 1 {
            i
        } else {
            0
        };
        law_extent(ps, n - 1, k);
        let a = choose|j: int| 0 <= j < n - 1 && least_x(ps, n - 1) == (#[trigger] ps[j]).x;
        let b = choose|j: int| 0 <= j < n - 1 && most_x(ps, n - 1) == (#[trigger] ps[j]).x;
        let c = choose|j: int| 0 <= j < n - 1 && least_y(ps, n - 1) == (#[trigger] ps[j]).y;
        let d = choose|j: int| 0 <= j < n - 1 && most_y(ps, n - 1) == (#[trigger] ps[j]).y;
        assert(ps[a].x == least_x(ps, n - 1) && ps[b].x == most_x(ps, n - 1));
        assert(ps[c].y == least_y(ps, n - 1) && ps[d].y == most_y(ps, n - 1));
        assert(ps[n - 1] == ps[n - 1]);
    } else {
        assert(ps[0] == ps[0]);
    }
}

/// The box of a stroke or a shape leaves half its width and two pixels
/// round each of its points, and no more round the outermost.
pub proof fn law_box_of_stroke(m: Mark, i: int)
    requires
        m.wf(),
        0 <= i < m.points.len(),
        !(m.tool is Text) && !(m.tool is Blur) && !(m.tool is Counter),
    ensures
        bbox_of(m) matches Some(b) && {
            let pad = m.width as int / 2 + 2 * PX;
            &&& b.left() + pad <= m.points[i].x <= b.right() - pad
            &&& b.top() + pad <= m.points[i].y <= b.bottom() - pad
            &&& exists|j: int| 0 <= j < m.points.len() && b.left() + pad == (#[trigger] m.points[j]).x
            &&& exists|j: int| 0 <= j < m.points.len() && b.right() - pad == (#[trigger] m.points[j]).x
            &&& exists|j: int| 0 <= j < m.points.len() && b.top() + pad == (#[trigger] m.points[j]).y
            &&& exists|j: int| 0 <= j < m.points.len() && b.bottom() - pad == (#[trigger] m.points[j]).y
        },
{
    let n = m.points.len() as int;
    law_extent(m.points, n, i);
    let a = choose|j: int| 0 <= j < n && least_x(m.points, n) == (#[trigger] m.points[j]).x;
    let b = choose|j: int| 0 <= j < n && most_x(m.points, n) == (#[trigger] m.points[j]).x;
    let c = choose|j: int| 0 <= j < n && least_y(m.points, n) == (#[trigger] m.points[j]).y;
    let d = choose|j: int| 0 <= j < n && most_y(m.points, n) == (#[trigger] m.points[j]).y;
    assert(close(m.points[a]) && close(m.points[b]) && close(m.points[c]) && close(m.points[d]));
}

/// A counter's box is centred on its point; a text's starts at its point
/// and rises by the text's size above it, with a quarter of it below; a
/// blur's is the rectangle that it blurs.
pub proof fn law_box_of_titles(m: Mark)
    requires
        m.wf(),
        m.points.len() > 0,
        m.text is Some,
    ensures
        bbox_of(m) matches Some(b) && {
            let p = m.points[0];
            &&& m.tool is Counter ==> {
                &&& b.left() + b.right() == 2 * p.x && b.top() + b.bottom() == 2 * p.y
                &&& b.w == b.h && 5 * b.w <= 9 * m.font_size < 5 * b.w + 10
            }
            &&& m.tool is Text ==> {
                &&& b.left() == p.x && b.top() + m.font_size == p.y
                &&& 4 * b.bottom() <= 4 * p.y + m.font_size < 4 * b.bottom() + 4
                &&& b.w >= 8 * PX && 5 * b.w + 5 > 3 * (m.text->0.len() * m.font_size)
            }
            &&& m.tool is Blur ==> b == m.blur_rect
        },
{
    let n = m.text->0.len();
    let s = m.font_size;
    assert(0 <= n * s <= MAX_TEXT * MAX_FONT) by (nonlinear_arith)
        requires
            0 <= n <= MAX_TEXT,
            0 <= s <= MAX_FONT,
    ;
    assert(close(m.points[0]));
}

/// A footprint holds the action's box with the same room on every side:
/// none round a stroke, the text's size round letters, and the head's
/// length and a pixel round an arrow.
pub proof fn law_footprint(m: Mark)
    requires
        m.wf(),
        m.bbox is Some,
    ensures
        footprint_of(m) matches Some(f) && {
            let b = m.bbox->0;
            let room = b.left() - f.left();
            &&& b.top() - f.top() == room && f.right() - b.right() == room && f.bottom() - b.bottom()
                == room
            &&& m.tool is Text || m.tool is Counter ==> room == m.font_size
            &&& m.tool is Arrow ==> room == 15 * PX + m.width
            &&& !(m.tool is Text) && !(m.tool is Counter) && !(m.tool is Arrow) ==> f == b
        },
{
}

/// A press hits the last action whose box has the point: what was drawn
/// later lies on top.
pub proof fn law_hit_topmost(ms: Seq<Mark>, p: Point, n: int, k: int)
    requires
        0 <= n <= ms.len(),
    ensures
        match topmost(ms, p, n) {
            Some(i) => {
                &&& 0 <= i < n
                &&& ms[i].bbox matches Some(b) && b.left() <= p.x <= b.right() && b.top() <= p.y
                    <= b.bottom()
                &&& i < k < n ==> !(ms[k].bbox matches Some(b) && b.left() <= p.x <= b.right()
                    && b.top() <= p.y <= b.bottom())
            },
            None => 0 <= k < n ==> !(ms[k].bbox matches Some(b) && b.left() <= p.x <= b.right()
                && b.top() <= p.y <= b.bottom()),
        },
    decreases n,
{
    if n > 0 {
        law_hit_topmost(ms, p, n - 1, k);
    }
}

/// A new counter's number is one more than the greatest so far: more than
/// any counter's, and one where there is none.
pub proof fn law_next_step(ms: Seq<Mark>, n: int, i: int)
    requires
        0 <= n <= ms.len(),
    ensures
        0 <= i < n && ms[i].tool is Counter ==> ms[i].step < top_step(ms, n) + 1,
        top_step(ms, n) >= 0,
        top_step(ms, n) > 0 ==> exists|j: int|
            0 <= j < n && (#[trigger] ms[j]).tool is Counter && ms[j].step == top_step(ms, n),
    decreases n,
{
    if n > 0 {
        law_next_step(ms, n - 1, i);
        if top_step(ms, n) > 0 {
            if top_step(ms, n) == top_step(ms, n - 1) {
                let j = choose|j: int|
                    0 <= j < n - 1 && (#[trigger] ms[j]).tool is Counter && ms[j].step == top_step(
                        ms,
                        n - 1,
                    );
                assert(ms[j].tool is Counter && ms[j].step == top_step(ms, n));
            } else {
                assert(ms[n - 1].tool is Counter && ms[n - 1].step == top_step(ms, n));
            }
        }
    }
}

/// The sizes grow with the image between their bounds: three thousandths
/// of its width for a stroke, eighteen for the highlighter and sixteen for
/// text. The thin stop takes three fifths of the stroke, the bold one nine
/// fifths, and the middle one the stroke itself; the highlighter has no
/// stops.
pub proof fn law_sizes(w: int, tool: Tool, stop: int)
    requires
        0 <= w <= u32::MAX,
    ensures
        2 * PX <= stroke_units(w) <= 16 * PX,
        667 <= w <= 5333 ==> 1000 * stroke_units(w) == 3 * (w * PX),
        16 * PX <= highlight_units(w) <= 64 * PX,
        889 <= w <= 3555 ==> 1000 * highlight_units(w) == 18 * (w * PX),
        14 * PX <= text_units(w) <= 48 * PX,
        875 <= w <= 3000 ==> 1000 * text_units(w) == 16 * (w * PX),
        tool is Highlight ==> width_units(tool, w, stop) == highlight_units(w),
        !(tool is Highlight) ==> {
            let s = stroke_units(w);
            &&& 5 * width_units(tool, w, 0) <= 3 * s < 5 * width_units(tool, w, 0) + 5
            &&& width_units(tool, w, 1) == s
            &&& 5 * width_units(tool, w, 2) <= 9 * s < 5 * width_units(tool, w, 2) + 5
        },
{
}

/// What a press starts is of the tool, the colour and the fill that were
/// chosen, and lies where it was pressed.
pub proof fn law_started(
    tool: Tool,
    color: Seq<char>,
    stop: int,
    fill: bool,
    w: int,
    step: u32,
    p: Point,
)
    ensures
        ({
            let m = started(tool, color, stop, fill, w, step, p);
            &&& m.tool == tool && m.color == color && m.filled == fill
            &&& m.points.len() == 1 && m.points[0] == p
            &&& m.step == step && m.text is None
        }),
{
}

/// A text that is kept has the chosen colour, stands where it was typed
/// and says what was typed.
pub proof fn law_lettering(color: Seq<char>, w: int, p: Point, text: Seq<char>)
    ensures
        ({
            let m = lettering(color, w, p, text);
            &&& m.tool is Text && m.color == color && m.text == Some(text)
            &&& m.points.len() == 1 && m.points[0] == p
            &&& m.font_size == text_units(w) as i64
        }),
{
}

} // verus!
