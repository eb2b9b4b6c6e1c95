//! Opening a capture in the editor: which window, what it shows first and
//! how it grows out of its card.

use vstd::prelude::*;
use crate::codec::{png_dimensions, png_size};
use crate::editor::Editor;
use crate::editor_view::{bars_at, faded};
use crate::flight::{flight_rect, flown, progress, WAY};
use crate::geom::{floor_div, Point, Rect};
use crate::paths::{file_name, file_name_of, law_portable, platform, portable, Platform};
use crate::text::{collect, same};

verus! {

/// An open editor window: the file it is on, and whether it is fading
/// out.
pub struct Window {
    pub path: String,
    pub closing: bool,
}

/// The first window, from place `i` on, that is on this file and stays.
pub open spec fn holder(ws: Seq<Window>, path: Seq<char>, i: int) -> Option<int>
    decreases ws.len() - i,
{
    if i < 0 || i >= ws.len() {
        None
    } else if ws[i].path@ == path && !ws[i].closing {
        Some(i)
    } else {
        holder(ws, path, i + 1)
    }
}

/// The window to raise for a file, where one is on it already. Two editors
/// on one file would each save over the other's work.
pub fn raised(ws: &Vec<Window>, path: &str) -> (r: Option<usize>)
    ensures
        match holder(ws@, path@, 0) {
            Some(i) => r matches Some(k) && k == i,
            None => r is None,
        },
{
    let mut i: usize = 0;
    while i < ws.len()
        invariant
            i <= ws@.len(),
            holder(ws@, path@, 0) == holder(ws@, path@, i as int),
        decreases ws@.len() - i,
    {
        if same(ws[i].path.as_str(), path) && !ws[i].closing {
            return Some(i);
        }
        i = i + 1;
    }
    None
}

proof fn lemma_holder(ws: Seq<Window>, path: Seq<char>, i: int)
    requires
        0 <= i,
    ensures
        match holder(ws, path, i) {
            Some(k) => i <= k < ws.len() && ws[k].path@ == path && !ws[k].closing,
            None => forall|k: int|
                i <= k < ws.len() ==> !((#[trigger] ws[k]).path@ == path && !ws[k].closing),
        },
    decreases ws.len() - i,
{
    if i < ws.len() && !(ws[i].path@ == path && !ws[i].closing) {
        lemma_holder(ws, path, i + 1);
    }
}

/// No two staying windows are ever on one file: a window opens for a file
/// only where none is raised for it.
pub proof fn law_one_editor_per_file(ws: Seq<Window>, path: Seq<char>, new: Window)
    requires
        forall|a: int, b: int|
            0 <= a < b < ws.len() && !(#[trigger] ws[a]).closing && !(#[trigger] ws[b]).closing
                ==> ws[a].path@ != ws[b].path@,
        new.path@ == path,
        holder(ws, path, 0) is None,
    ensures
        ({
            let all = ws.push(new);
            forall|a: int, b: int|
                0 <= a < b < all.len() && !(#[trigger] all[a]).closing && !(
                #[trigger] all[b]).closing ==> all[a].path@ != all[b].path@
        }),
{
    lemma_holder(ws, path, 0);
}

/// What an editor is called whose path has no file name.
pub open spec fn name_of(path: Seq<char>, on: Platform) -> Seq<char> {
    if file_name_of(path, on).len() == 0 {
        "capture.png"@
    } else {
        file_name_of(path, on)
    }
}

/// The editor on a file whose first bytes are these, before it is decoded,
/// on a platform.
pub fn open_on(path: &str, header: &[u8], on: Platform) -> (r: Result<Editor, String>)
    ensures
        match png_size(header@) {
            Some(d) => r matches Ok(e) && e.fresh(name_of(path@, on), d.0, d.1),
            None => r matches Err(t) && t@ == "not a PNG: "@ + path@,
        },
{
    match png_dimensions(header) {
        None => Err("not a PNG: ".to_owned().concat(path)),
        Some(d) => {
            let v = file_name(path, on);
            let name: String = if v.len() == 0 {
                "capture.png".to_owned()
            } else {
                let n: usize = v.len();
                assert(v@.subrange(0, n as int) =~= v@);
                collect(&v, 0, n)
            };
            Ok(Editor::new(name, d.0, d.1))
        },
    }
}

/// The editor on a file whose first bytes are these, before it is decoded,
/// on the platform that the program was built for.
pub fn open_editor(path: &str, header: &[u8]) -> (r: Result<Editor, String>)
    ensures
        match png_size(header@) {
            Some(d) => r matches Ok(e) && (exists|on: Platform|
                e.fresh(#[trigger] name_of(path@, on), d.0, d.1)) && (portable(path@) ==> e.fresh(
                name_of(path@, Platform::Unix),
                d.0,
                d.1,
            )),
            None => r matches Err(t) && t@ == "not a PNG: "@ + path@,
        },
{
    let on = platform();
    let r = open_on(path, header, on);
    proof {
        if let Some(d) = png_size(header@) {
            assert(r->Ok_0.fresh(name_of(path@, on), d.0, d.1));
        }
        if portable(path@) {
            law_portable(path@, on);
        }
    }
    r
}

/// Where in its window an editor starts to grow, out of a card on the
/// screen.
pub fn morph_start(from: Option<Rect>, origin: Point) -> (r: Option<Rect>)
    requires
        from matches Some(f) ==> f.wf(),
        origin.wf(),
    ensures
        r == (match from {
            Some(f) => Some(
                Rect { x: (f.x - origin.x) as i64, y: (f.y - origin.y) as i64, w: f.w, h: f.h },
            ),
            None => None,
        }),
{
    match from {
        Some(f) => Some(Rect { x: f.x - origin.x, y: f.y - origin.y, w: f.w, h: f.h }),
        None => None,
    }
}

/// The corners of a card, and how much of that the stage sheds.
pub const CARD_RADIUS: i64 = 120_000;

pub const SHED: i64 = 60_000;

/// A frame of the window, in units and in parts.
#[derive(Clone, Copy, Debug, PartialEq, Eq, Structural)]
pub struct Grown {
    /// The image.
    pub stage: Rect,
    pub radius: i64,
    /// The ground, the top bar and the side bar.
    pub ground: i64,
    pub topbar: i64,
    pub sidebar: i64,
    /// It still grows.
    pub grows: bool,
}

/// The frame that is `t` of the way through the growth from a card to the
/// stage, its spring `e` parts of the way.
pub open spec fn grown_of(from: Rect, stage: Rect, t: int, e: int) -> Grown {
    Grown {
        stage: flown(from, stage, e),
        radius: (CARD_RADIUS - SHED * e / WAY as int) as i64,
        ground: faded(t, 0) as i64,
        topbar: faded(t, 80_000_000) as i64,
        sidebar: faded(t, 180_000_000) as i64,
        grows: t < WAY,
    }
}

/// A frame of the growth out of a card.
pub fn grown(from: Rect, stage: Rect, t: i64, e: i64) -> (r: Grown)
    requires
        from.wf(),
        stage.wf(),
        0 <= t <= WAY,
        progress(e),
    ensures
        r == grown_of(from, stage, t as int, e as int),
{
    let (ground, topbar, sidebar) = bars_at(t);
    let shed: i64 = floor_div(SHED as i128 * e as i128, WAY as i128) as i64;
    Grown {
        stage: flight_rect(from, stage, e),
        radius: CARD_RADIUS - shed,
        ground,
        topbar,
        sidebar,
        grows: t < WAY,
    }
}

/// The image starts as the card, with its corners and no bars round it,
/// and ends as the stage with all of them.
pub proof fn law_growth(from: Rect, stage: Rect)
    requires
        from.wf(),
        stage.wf(),
    ensures
        grown_of(from, stage, 0, 0) == (Grown {
            stage: from,
            radius: CARD_RADIUS,
            ground: 0,
            topbar: 0,
            sidebar: 0,
            grows: true,
        }),
        grown_of(from, stage, WAY as int, WAY as int) == (Grown {
            stage,
            radius: (CARD_RADIUS - SHED) as i64,
            ground: WAY,
            topbar: WAY,
            sidebar: WAY,
            grows: false,
        }),
{
    crate::flight::law_flight_ends(from, stage);
    assert(SHED * 0 == 0 && SHED * WAY / WAY as int == SHED) by (nonlinear_arith)
        requires
            WAY == 1_000_000_000,
            SHED == 60_000,
    ;
}

/// The editor that a file already has is the first window on its path that
/// is not leaving; where there is none, a new one opens.
pub proof fn law_raised(ws: Seq<Window>, path: Seq<char>, i: int, k: int)
    requires
        0 <= i,
    ensures
        match holder(ws, path, i) {
            Some(j) => i <= j < ws.len() && ws[j].path@ == path && !ws[j].closing && (i <= k < j ==> !(
            ws[k].path@ == path && !ws[k].closing)),
            None => i <= k < ws.len() ==> !(ws[k].path@ == path && !ws[k].closing),
        },
    decreases ws.len() - i,
{
    if i < ws.len() && !(ws[i].path@ == path && !ws[i].closing) {
        law_raised(ws, path, i + 1, k);
    }
}

/// An editor is named like its file, and a file without a name like any
/// capture.
pub proof fn law_named(path: Seq<char>, on: Platform)
    ensures
        name_of(path, on).len() > 0,
        file_name_of(path, on).len() > 0 ==> name_of(path, on) == file_name_of(path, on),
        file_name_of(path, on).len() == 0 ==> name_of(path, on) == "capture.png"@,
{
    reveal_strlit("capture.png");
    assert("capture.png"@.len() == 11);
}

} // verus!
