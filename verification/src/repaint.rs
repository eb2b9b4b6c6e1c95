//! A partial rebuild shows what a full one would.

use vstd::prelude::*;
use crate::action::{all_settled, all_wf, footprint_of, Mark};
use crate::editor::{
    lemma_edit_settled,
    lemma_settled_wf,
    plan_for,
    region_of,
    relisted,
    Plan,
};
use crate::history::{edit_wf, fits_forward, fits_inverse, forward, inverse, Past};
use crate::canvas::{sized, Picture, Pixel};
use crate::geom::Rect;
use crate::mosaic::{in_region, lemma_mosaic_local};
use crate::raster::{blur_box, paint, painted, Cover};
use crate::rebuild::{
    closed_under,
    closure_of,
    image_rect,
    numbered,
    pixels_of,
    planned,
    render,
    render_marked,
    renumbered,
    restored,
    seeded,
    unbounded,
};

verus! {

/// Can the action change pixel (x, y), or does it sample it?
pub open spec fn touches(m: Mark, ink: Cover, iw: int, ih: int, x: int, y: int) -> bool {
    if m.tool is Blur {
        match blur_box(m, iw, ih) {
            Some((bx, by, bw, bh)) => in_region(bx, by, bw, bh, x, y),
            None => false,
        }
    } else {
        exists|p: Pixel| #[trigger] painted(p, m, ink, x, y) != p
    }
}

pub open spec fn in_image(iw: int, ih: int, x: int, y: int) -> bool {
    0 <= x < iw && 0 <= y < ih
}

/// Every pixel of the image that the action touches lies inside `r`.
pub open spec fn fits(m: Mark, ink: Cover, r: Rect, iw: int, ih: int) -> bool {
    forall|x: int, y: int|
        in_image(iw, ih, x, y) && #[trigger] touches(m, ink, iw, ih, x, y) ==> r.holds_pixel(x, y)
}

/// The two pictures agree on the pixels in `s`.
pub open spec fn agree(
    p: Picture,
    q: Picture,
    s: spec_fn(int, int) -> bool,
    iw: int,
    ih: int,
) -> bool {
    forall|x: int, y: int|
        in_image(iw, ih, x, y) && #[trigger] s(x, y) ==> p[y][x] == q[y][x]
}

/// The pixels of a region.
pub open spec fn zone(r: Rect, iw: int, ih: int) -> spec_fn(int, int) -> bool {
    let (zx, zy, zw, zh) = pixels_of(r, iw, ih);
    |x: int, y: int| in_region(zx, zy, zw, zh, x, y)
}

/// The pixels that are not in the region.
pub open spec fn beyond(r: Rect, iw: int, ih: int) -> spec_fn(int, int) -> bool {
    let (zx, zy, zw, zh) = pixels_of(r, iw, ih);
    |x: int, y: int| !in_region(zx, zy, zw, zh, x, y)
}

proof fn lemma_paint_sized(pic: Picture, iw: int, ih: int, m: Mark, ink: Cover)
    requires
        sized(pic, iw, ih),
    ensures
        sized(paint(pic, iw, ih, m, ink), iw, ih),
{
}

/// An action whose pixels all lie in `s` makes the same of pictures that
/// agree there.
proof fn lemma_agree(
    p: Picture,
    q: Picture,
    s: spec_fn(int, int) -> bool,
    iw: int,
    ih: int,
    m: Mark,
    ink: Cover,
)
    requires
        sized(p, iw, ih),
        sized(q, iw, ih),
        agree(p, q, s, iw, ih),
        forall|x: int, y: int|
            in_image(iw, ih, x, y) && #[trigger] touches(m, ink, iw, ih, x, y) ==> s(x, y),
    ensures
        agree(paint(p, iw, ih, m, ink), paint(q, iw, ih, m, ink), s, iw, ih),
{
    let p2 = paint(p, iw, ih, m, ink);
    let q2 = paint(q, iw, ih, m, ink);
    assert forall|x: int, y: int|
        in_image(iw, ih, x, y) && #[trigger] s(x, y) implies p2[y][x] == q2[y][x] by {
        if m.tool is Blur {
            if let Some((bx, by, bw, bh)) = blur_box(m, iw, ih) {
                if in_region(bx, by, bw, bh, x, y) {
                    assert forall|a: int, b: int|
                        in_region(bx, by, bw, bh, a, b) implies #[trigger] p[b][a] == q[b][a] by {
                        assert(touches(m, ink, iw, ih, a, b));
                        assert(s(a, b));
                    }
                    lemma_mosaic_local(p, q, bx, by, bw, bh, x, y);
                }
            }
        }
    }
}

/// An action leaves the pixels that it does not touch.
proof fn lemma_keep(
    p: Picture,
    s: spec_fn(int, int) -> bool,
    iw: int,
    ih: int,
    m: Mark,
    ink: Cover,
)
    requires
        sized(p, iw, ih),
        forall|x: int, y: int|
            in_image(iw, ih, x, y) && #[trigger] touches(m, ink, iw, ih, x, y) ==> !s(x, y),
    ensures
        agree(paint(p, iw, ih, m, ink), p, s, iw, ih),
{
    let p2 = paint(p, iw, ih, m, ink);
    assert forall|x: int, y: int|
        in_image(iw, ih, x, y) && #[trigger] s(x, y) implies p2[y][x] == p[y][x] by {
        assert(!touches(m, ink, iw, ih, x, y));
        if !(m.tool is Blur) {
            assert(p2[y][x] == painted(p[y][x], m, ink, x, y));
        }
    }
}

proof fn lemma_render_sized(
    pic: Picture,
    iw: int,
    ih: int,
    ms: Seq<Mark>,
    inks: Seq<Cover>,
    n: int,
)
    requires
        sized(pic, iw, ih),
    ensures
        sized(render(pic, iw, ih, ms, inks, 0, n), iw, ih),
    decreases n,
{
    if n > 0 {
        lemma_render_sized(pic, iw, ih, ms, inks, n - 1);
        lemma_paint_sized(
            render(pic, iw, ih, ms, inks, 0, n - 1),
            iw,
            ih,
            ms[n - 1],
            inks[n - 1],
        );
    }
}

/// A pixel whose square lies in the region is one of its pixels.
proof fn lemma_zone_has(r: Rect, iw: int, ih: int, x: int, y: int)
    requires
        r.holds_pixel(x, y),
        in_image(iw, ih, x, y),
    ensures
        zone(r, iw, ih)(x, y),
        !beyond(r, iw, ih)(x, y),
{
}

/// A rectangle around one of the region's pixels overlaps the region.
proof fn lemma_zone_meets(r: Rect, f: Rect, iw: int, ih: int, x: int, y: int)
    requires
        zone(r, iw, ih)(x, y),
        in_image(iw, ih, x, y),
        f.holds_pixel(x, y),
    ensures
        f.meets(r),
{
}

proof fn lemma_holds_pixel(r: Rect, f: Rect, x: int, y: int)
    requires
        r.holds(f),
        f.holds_pixel(x, y),
    ensures
        r.holds_pixel(x, y),
{
}

/// Every pixel of the image lies in a region that holds the image.
proof fn lemma_image_in_zone(r: Rect, iw: int, ih: int, x: int, y: int)
    requires
        0 <= iw <= u32::MAX,
        0 <= ih <= u32::MAX,
        r.holds(image_rect(iw, ih)),
        in_image(iw, ih, x, y),
    ensures
        zone(r, iw, ih)(x, y),
{
    assert(image_rect(iw, ih).holds_pixel(x, y));
    lemma_holds_pixel(r, image_rect(iw, ih), x, y);
    lemma_zone_has(r, iw, ih, x, y);
}

/// What is marked stays inside a closed region and what is not stays
/// outside.
proof fn lemma_sides(
    ms: Seq<Mark>,
    inks: Seq<Cover>,
    seed: Rect,
    region: Rect,
    mark: Seq<bool>,
    iw: int,
    ih: int,
    i: int,
    x: int,
    y: int,
)
    requires
        0 <= iw <= u32::MAX,
        0 <= ih <= u32::MAX,
        0 <= i < ms.len(),
        closure_of(ms, seed, image_rect(iw, ih), region, mark),
        footprint_of(ms[i]) matches Some(f) ==> fits(ms[i], inks[i], f, iw, ih),
        in_image(iw, ih, x, y),
        touches(ms[i], inks[i], iw, ih, x, y),
    ensures
        zone(region, iw, ih)(x, y) == mark[i],
        beyond(region, iw, ih)(x, y) == !mark[i],
{
    if !mark[i] {
        let f = footprint_of(ms[i])->0;
        assert(footprint_of(ms[i]) is Some);
        assert(f.holds_pixel(x, y));
        if zone(region, iw, ih)(x, y) {
            lemma_zone_meets(region, f, iw, ih, x, y);
        }
    } else if unbounded(ms) {
        lemma_image_in_zone(region, iw, ih, x, y);
    } else {
        let f = footprint_of(ms[i])->0;
        assert(footprint_of(ms[i]) is Some);
        assert(f.holds_pixel(x, y));
        lemma_holds_pixel(region, f, x, y);
        lemma_zone_has(region, iw, ih, x, y);
    }
}

/// Where the pictures start out alike in the region, replaying the marked
/// actions shows there what replaying all of them shows, and leaves what
/// lies beyond.
proof fn lemma_replay(
    base: Picture,
    start: Picture,
    iw: int,
    ih: int,
    ms: Seq<Mark>,
    inks: Seq<Cover>,
    seed: Rect,
    region: Rect,
    mark: Seq<bool>,
    n: int,
)
    requires
        0 <= iw <= u32::MAX,
        0 <= ih <= u32::MAX,
        sized(base, iw, ih),
        sized(start, iw, ih),
        0 <= n <= ms.len(),
        closure_of(ms, seed, image_rect(iw, ih), region, mark),
        forall|i: int|
            0 <= i < ms.len() ==> (footprint_of(#[trigger] ms[i]) matches Some(f) ==> fits(
                ms[i],
                inks[i],
                f,
                iw,
                ih,
            )),
        agree(start, base, zone(region, iw, ih), iw, ih),
    ensures
        sized(render_marked(start, iw, ih, ms, inks, mark, n), iw, ih),
        agree(
            render_marked(start, iw, ih, ms, inks, mark, n),
            render(base, iw, ih, ms, inks, 0, n),
            zone(region, iw, ih),
            iw,
            ih,
        ),
        agree(
            render_marked(start, iw, ih, ms, inks, mark, n),
            start,
            beyond(region, iw, ih),
            iw,
            ih,
        ),
    decreases n,
{
    if n > 0 {
        lemma_replay(base, start, iw, ih, ms, inks, seed, region, mark, n - 1);
        let z = zone(region, iw, ih);
        let o = beyond(region, iw, ih);
        let k = n - 1;
        let d = render_marked(start, iw, ih, ms, inks, mark, k);
        let f = render(base, iw, ih, ms, inks, 0, k);
        let m = ms[k];
        let ink = inks[k];
        lemma_render_sized(base, iw, ih, ms, inks, k);
        assert forall|x: int, y: int|
            in_image(iw, ih, x, y) && #[trigger] touches(m, ink, iw, ih, x, y) implies z(x, y)
            == mark[k] && o(x, y) == !mark[k] by {
            lemma_sides(ms, inks, seed, region, mark, iw, ih, k, x, y);
        }
        if mark[k] {
            lemma_paint_sized(d, iw, ih, m, ink);
            lemma_agree(d, f, z, iw, ih, m, ink);
            lemma_keep(d, o, iw, ih, m, ink);
            let d2 = paint(d, iw, ih, m, ink);
            assert forall|x: int, y: int|
                in_image(iw, ih, x, y) && #[trigger] o(x, y) implies d2[y][x] == start[y][x] by {
                assert(d2[y][x] == d[y][x]);
            }
        } else {
            lemma_keep(f, z, iw, ih, m, ink);
            let f2 = paint(f, iw, ih, m, ink);
            assert forall|x: int, y: int|
                in_image(iw, ih, x, y) && #[trigger] z(x, y) implies d[y][x] == f2[y][x] by {
                assert(f2[y][x] == f[y][x]);
            }
        }
    }
}

/// A partial rebuild equals a full one: where a closed region was planned
/// for the actions, each action stays inside its footprint, and what is
/// shown is right beyond the region, carrying out the plan gives what
/// painting every action onto the base gives.
pub proof fn law_partial_rebuild(
    base: Picture,
    shown: Picture,
    iw: int,
    ih: int,
    ms: Seq<Mark>,
    inks: Seq<Cover>,
    seed: Rect,
    region: Rect,
    mark: Seq<bool>,
)
    requires
        0 <= iw <= u32::MAX,
        0 <= ih <= u32::MAX,
        sized(base, iw, ih),
        sized(shown, iw, ih),
        closure_of(ms, seed, image_rect(iw, ih), region, mark),
        forall|i: int|
            0 <= i < ms.len() ==> (footprint_of(#[trigger] ms[i]) matches Some(f) ==> fits(
                ms[i],
                inks[i],
                f,
                iw,
                ih,
            )),
        agree(
            shown,
            render(base, iw, ih, ms, inks, 0, ms.len() as int),
            beyond(region, iw, ih),
            iw,
            ih,
        ),
    ensures
        planned(base, shown, iw, ih, ms, inks, region, mark) == render(
            base,
            iw,
            ih,
            ms,
            inks,
            0,
            ms.len() as int,
        ),
{
    let n = ms.len() as int;
    let (zx, zy, zw, zh) = pixels_of(region, iw, ih);
    let z = zone(region, iw, ih);
    let o = beyond(region, iw, ih);
    let full = render(base, iw, ih, ms, inks, 0, n);
    lemma_render_sized(base, iw, ih, ms, inks, n);
    let got = planned(base, shown, iw, ih, ms, inks, region, mark);
    if zw > 0 && zh > 0 {
        let start = restored(base, shown, zx, zy, zw, zh);
        assert(sized(start, iw, ih));
        assert(agree(start, base, z, iw, ih));
        lemma_replay(base, start, iw, ih, ms, inks, seed, region, mark, n);
        assert forall|x: int, y: int| #[trigger]
            in_image(iw, ih, x, y) implies got[y][x] == full[y][x] by {
            if z(x, y) {
            } else {
                assert(o(x, y));
                assert(got[y][x] == start[y][x]);
            }
        }
    } else {
        assert forall|x: int, y: int| #[trigger]
            in_image(iw, ih, x, y) implies got[y][x] == full[y][x] by {
            assert(o(x, y));
        }
    }
    lemma_pictures(got, full, iw, ih);
}

proof fn lemma_pictures(p: Picture, q: Picture, iw: int, ih: int)
    requires
        sized(p, iw, ih),
        sized(q, iw, ih),
        forall|x: int, y: int| #[trigger] in_image(iw, ih, x, y) ==> p[y][x] == q[y][x],
    ensures
        p == q,
{
    assert forall|y: int| 0 <= y < ih implies p[y] == q[y] by {
        assert forall|x: int| 0 <= x < iw implies p[y][x] == q[y][x] by {
            assert(in_image(iw, ih, x, y));
        }
        assert(p[y] =~= q[y]);
    }
    assert(p =~= q);
}

/// What each action covers, where `ink` says it for any action.
pub open spec fn inked(ms: Seq<Mark>, ink: spec_fn(Mark) -> Cover) -> Seq<Cover> {
    Seq::new(ms.len(), |i: int| ink(ms[i]))
}

/// Every action stays inside its footprint.
pub open spec fn all_fit(ms: Seq<Mark>, ink: spec_fn(Mark) -> Cover, iw: int, ih: int) -> bool {
    forall|i: int|
        0 <= i < ms.len() ==> (footprint_of(#[trigger] ms[i]) matches Some(f) ==> fits(
            ms[i],
            ink(ms[i]),
            f,
            iw,
            ih,
        ))
}

/// The actions that are kept, of the first `n`.
pub open spec fn kept(ms: Seq<Mark>, keep: Seq<bool>, n: int) -> Seq<Mark>
    decreases n,
{
    if n <= 0 {
        Seq::empty()
    } else if keep[n - 1] {
        kept(ms, keep, n - 1).push(ms[n - 1])
    } else {
        kept(ms, keep, n - 1)
    }
}

/// Beyond a region, a list shows what those of its actions show that are
/// kept, if the others stay in the region.
proof fn lemma_kept(
    base: Picture,
    iw: int,
    ih: int,
    ms: Seq<Mark>,
    ink: spec_fn(Mark) -> Cover,
    keep: Seq<bool>,
    region: Rect,
    n: int,
)
    requires
        sized(base, iw, ih),
        0 <= n <= ms.len(),
        keep.len() == ms.len(),
        forall|i: int, x: int, y: int|
            0 <= i < ms.len() && in_image(iw, ih, x, y) && #[trigger] touches(
                ms[i],
                ink(ms[i]),
                iw,
                ih,
                x,
                y,
            ) ==> zone(region, iw, ih)(x, y) == !keep[i],
    ensures
        agree(
            render(base, iw, ih, ms, inked(ms, ink), 0, n),
            render(
                base,
                iw,
                ih,
                kept(ms, keep, n),
                inked(kept(ms, keep, n), ink),
                0,
                kept(ms, keep, n).len() as int,
            ),
            beyond(region, iw, ih),
            iw,
            ih,
        ),
    decreases n,
{
    if n > 0 {
        let k = n - 1;
        lemma_kept(base, iw, ih, ms, ink, keep, region, k);
        let o = beyond(region, iw, ih);
        let inks = inked(ms, ink);
        let before = kept(ms, keep, k);
        let after = kept(ms, keep, n);
        let p = render(base, iw, ih, ms, inks, 0, k);
        let q = render(base, iw, ih, before, inked(before, ink), 0, before.len() as int);
        lemma_render_sized(base, iw, ih, ms, inks, k);
        lemma_render_sized(base, iw, ih, before, inked(before, ink), before.len() as int);
        assert forall|x: int, y: int|
            in_image(iw, ih, x, y) && #[trigger] touches(
                ms[k],
                ink(ms[k]),
                iw,
                ih,
                x,
                y,
            ) implies o(x, y) == keep[k] by {
            assert(zone(region, iw, ih)(x, y) == !keep[k]);
        }
        if keep[k] {
            lemma_agree(p, q, o, iw, ih, ms[k], ink(ms[k]));
            lemma_render_prefix(
                base,
                iw,
                ih,
                before,
                inked(before, ink),
                after,
                inked(after, ink),
                before.len() as int,
            );
        } else {
            lemma_keep(p, o, iw, ih, ms[k], ink(ms[k]));
            let p2 = paint(p, iw, ih, ms[k], ink(ms[k]));
            assert forall|x: int, y: int|
                in_image(iw, ih, x, y) && #[trigger] o(x, y) implies p2[y][x] == q[y][x] by {
                assert(p2[y][x] == p[y][x]);
            }
        }
    }
}

proof fn lemma_render_prefix(
    base: Picture,
    iw: int,
    ih: int,
    ms: Seq<Mark>,
    inks: Seq<Cover>,
    ms2: Seq<Mark>,
    inks2: Seq<Cover>,
    n: int,
)
    requires
        0 <= n <= ms.len(),
        n <= ms2.len(),
        forall|i: int| 0 <= i < n ==> ms[i] == ms2[i] && inks[i] == inks2[i],
    ensures
        render(base, iw, ih, ms, inks, 0, n) == render(base, iw, ih, ms2, inks2, 0, n),
    decreases n,
{
    if n > 0 {
        lemma_render_prefix(base, iw, ih, ms, inks, ms2, inks2, n - 1);
    }
}

proof fn lemma_footprint_wf(m: Mark)
    requires
        m.wf(),
    ensures
        footprint_of(m) matches Some(f) ==> f.wf(),
{
}

/// The seed covers the edit's region and every counter that changes.
proof fn lemma_seeded(us: Seq<Mark>, region: Rect, n: int)
    requires
        all_wf(us),
        region.wf(),
        0 <= n <= us.len(),
    ensures
        seeded(us, region, n).wf(),
        seeded(us, region, n).holds(region),
        forall|i: int|
            0 <= i < n && numbered(us, i) != #[trigger] us[i] ==> (footprint_of(us[i]) matches Some(
                f,
            ) ==> seeded(us, region, n).holds(f)),
    decreases n,
{
    if n > 0 {
        lemma_seeded(us, region, n - 1);
        assert(us[n - 1].wf());
        lemma_footprint_wf(us[n - 1]);
    }
}

/// A change to the list of actions.
pub enum Change {
    /// An action was put at this place.
    Added(int),
    /// The action at this place was taken out.
    Removed(int),
    /// The action at this place was replaced.
    Moved(int),
}

/// `us` is `ms` after the change, and the actions that came or went stay
/// inside `region`.
pub open spec fn changed(
    ms: Seq<Mark>,
    us: Seq<Mark>,
    ink: spec_fn(Mark) -> Cover,
    change: Change,
    region: Rect,
    iw: int,
    ih: int,
) -> bool {
    match change {
        Change::Added(k) => 0 <= k <= ms.len() && us == ms.insert(k, us[k]) && fits(
            us[k],
            ink(us[k]),
            region,
            iw,
            ih,
        ),
        Change::Removed(k) => 0 <= k < ms.len() && us == ms.remove(k) && fits(
            ms[k],
            ink(ms[k]),
            region,
            iw,
            ih,
        ),
        Change::Moved(k) => 0 <= k < ms.len() && us.len() == ms.len() && us == ms.update(k, us[k])
            && fits(ms[k], ink(ms[k]), region, iw, ih) && fits(us[k], ink(us[k]), region, iw, ih),
    }
}

/// Where in `us` the action at place `i` of `ms` now stands.
spec fn place(change: Change, i: int) -> int {
    match change {
        Change::Added(k) => if i < k {
            i
        } else {
            i + 1
        },
        Change::Removed(k) => if i < k {
            i
        } else {
            i - 1
        },
        Change::Moved(_) => i,
    }
}

/// Is the action at place `i` of `ms` the one that the change is about?
spec fn edited(change: Change, i: int) -> bool {
    match change {
        Change::Added(_) => false,
        Change::Removed(k) => i == k,
        Change::Moved(k) => i == k,
    }
}

/// Of the actions before the change, those that show beyond the region.
spec fn keep_before(
    ms: Seq<Mark>,
    us: Seq<Mark>,
    mark: Seq<bool>,
    change: Change,
) -> Seq<bool> {
    Seq::new(
        ms.len(),
        |i: int|
            !edited(change, i) && !mark[place(change, i)] && renumbered(us)[place(change, i)]
                == us[place(change, i)],
    )
}

/// Of the actions after the change, those that show beyond the region.
spec fn keep_after(ms: Seq<Mark>, us: Seq<Mark>, mark: Seq<bool>, change: Change) -> Seq<bool> {
    Seq::new(
        us.len(),
        |j: int|
            !mark[j] && renumbered(us)[j] == us[j] && !(change is Moved && j == change->Moved_0)
                && !(change is Added && j == change->Added_0),
    )
}

proof fn lemma_kept_same(
    ms: Seq<Mark>,
    us: Seq<Mark>,
    mark: Seq<bool>,
    change: Change,
    n: int,
)
    requires
        mark.len() == us.len(),
        0 <= n <= ms.len(),
        match change {
            Change::Added(k) => 0 <= k <= ms.len() && us == ms.insert(k, us[k]),
            Change::Removed(k) => 0 <= k < ms.len() && us == ms.remove(k),
            Change::Moved(k) => 0 <= k < ms.len() && us.len() == ms.len() && us == ms.update(
                k,
                us[k],
            ),
        },
    ensures
        kept(ms, keep_before(ms, us, mark, change), n) == kept(
            renumbered(us),
            keep_after(ms, us, mark, change),
            (match change {
                Change::Added(k) => if n <= k {
                    n
                } else {
                    n + 1
                },
                Change::Removed(k) => if n <= k {
                    n
                } else {
                    n - 1
                },
                Change::Moved(_) => n,
            }),
        ),
    decreases n,
{
    if n > 0 {
        lemma_kept_same(ms, us, mark, change, n - 1);
        let i = n - 1;
        if !edited(change, i) {
            assert(us[place(change, i)] == ms[i]);
        }
        if let Change::Added(k) = change {
            if i == k {
                let vs = renumbered(us);
                let ka = keep_after(ms, us, mark, change);
                assert(kept(vs, ka, k + 1) == kept(vs, ka, k));
            }
        }
    }
}

/// A partial rebuild after an edit equals a full one: where an action was
/// added, removed or moved, its pixels before and after lie in the
/// region that is handed to the plan, and each action stays inside its
/// footprint, the plan turns what was shown into what painting the new
/// list, with its counters numbered, onto the base gives.
pub proof fn law_edit_rebuild(
    base: Picture,
    iw: int,
    ih: int,
    ms: Seq<Mark>,
    us: Seq<Mark>,
    ink: spec_fn(Mark) -> Cover,
    change: Change,
    region: Rect,
    closed: Rect,
    mark: Seq<bool>,
)
    requires
        0 <= iw <= u32::MAX,
        0 <= ih <= u32::MAX,
        sized(base, iw, ih),
        all_wf(us),
        region.wf(),
        changed(ms, us, ink, change, region, iw, ih),
        all_fit(ms, ink, iw, ih),
        all_fit(renumbered(us), ink, iw, ih),
        closure_of(
            renumbered(us),
            seeded(us, region, us.len() as int),
            image_rect(iw, ih),
            closed,
            mark,
        ),
    ensures
        planned(
            base,
            render(base, iw, ih, ms, inked(ms, ink), 0, ms.len() as int),
            iw,
            ih,
            renumbered(us),
            inked(renumbered(us), ink),
            closed,
            mark,
        ) == render(
            base,
            iw,
            ih,
            renumbered(us),
            inked(renumbered(us), ink),
            0,
            us.len() as int,
        ),
{
    let vs = renumbered(us);
    let z = zone(closed, iw, ih);
    let o = beyond(closed, iw, ih);
    let seed = seeded(us, region, us.len() as int);
    let shown = render(base, iw, ih, ms, inked(ms, ink), 0, ms.len() as int);
    let kb = keep_before(ms, us, mark, change);
    let ka = keep_after(ms, us, mark, change);
    let n = ms.len() as int;
    lemma_seeded(us, region, us.len() as int);
    // What lies in a part of the seed lies in the zone, whatever the plan.
    assert forall|r: Rect, x: int, y: int|
        #![trigger r.holds_pixel(x, y), seed.holds(r)]
        seed.holds(r) && r.holds_pixel(x, y) && in_image(iw, ih, x, y) implies z(x, y) by {
        if unbounded(vs) {
            lemma_image_in_zone(closed, iw, ih, x, y);
        } else {
            lemma_holds_pixel(seed, r, x, y);
            lemma_holds_pixel(closed, seed, x, y);
            lemma_zone_has(closed, iw, ih, x, y);
        }
    }
    assert(unbounded(vs) || closed.holds(seed));
    assert forall|j: int, x: int, y: int|
        0 <= j < vs.len() && in_image(iw, ih, x, y) && #[trigger] touches(
            vs[j],
            ink(vs[j]),
            iw,
            ih,
            x,
            y,
        ) implies z(x, y) == !ka[j] by {
        lemma_sides(vs, inked(vs, ink), seed, closed, mark, iw, ih, j, x, y);
        if vs[j] != us[j] {
            assert(numbered(us, j) != us[j]);
            if let Some(f) = footprint_of(us[j]) {
                assert(footprint_of(vs[j]) == Some(f));
                assert(f.holds_pixel(x, y));
            } else {
                assert(footprint_of(vs[j]) is None);
            }
        } else if (change is Moved && j == change->Moved_0) || (change is Added && j == change->Added_0) {
            assert(seed.holds(region) && region.holds_pixel(x, y));
        }
    }
    assert forall|i: int, x: int, y: int|
        0 <= i < ms.len() && in_image(iw, ih, x, y) && #[trigger] touches(
            ms[i],
            ink(ms[i]),
            iw,
            ih,
            x,
            y,
        ) implies z(x, y) == !kb[i] by {
        if edited(change, i) {
            assert(seed.holds(region) && region.holds_pixel(x, y));
        } else {
            let j = place(change, i);
            assert(us[j] == ms[i]);
            if vs[j] == us[j] {
                lemma_sides(vs, inked(vs, ink), seed, closed, mark, iw, ih, j, x, y);
            } else {
                assert(numbered(us, j) != us[j]);
                if let Some(f) = footprint_of(ms[i]) {
                    assert(f.holds_pixel(x, y));
                } else {
                    assert(footprint_of(vs[j]) is None);
                    lemma_image_in_zone(closed, iw, ih, x, y);
                }
            }
        }
    }
    lemma_kept(base, iw, ih, ms, ink, kb, closed, n);
    lemma_kept(base, iw, ih, vs, ink, ka, closed, vs.len() as int);
    lemma_kept_same(ms, us, mark, change, n);
    if change is Added && change->Added_0 == n {
        assert(kept(vs, ka, n) == kept(vs, ka, n + 1));
    }
    let rest = kept(ms, kb, n);
    let through = render(base, iw, ih, rest, inked(rest, ink), 0, rest.len() as int);
    let full = render(base, iw, ih, vs, inked(vs, ink), 0, vs.len() as int);
    assert forall|x: int, y: int|
        in_image(iw, ih, x, y) && #[trigger] o(x, y) implies shown[y][x] == full[y][x] by {
        assert(shown[y][x] == through[y][x]);
    }
    lemma_render_sized(base, iw, ih, ms, inked(ms, ink), n);
    law_partial_rebuild(base, shown, iw, ih, vs, inked(vs, ink), seed, closed, mark);
}

/// What holds the seed from one region and another region holds the seed
/// from that.
proof fn lemma_seed_held(us: Seq<Mark>, r: Rect, s: Rect, z: Rect, n: int)
    requires
        all_wf(us),
        r.wf(),
        s.wf(),
        0 <= n <= us.len(),
        z.holds(s),
    ensures
        z.holds(seeded(us, r, n)) ==> z.holds(seeded(us, s, n)),
        seeded(us, r, n).wf(),
        seeded(us, s, n).wf(),
    decreases n,
{
    if n > 0 {
        lemma_seed_held(us, r, s, z, n - 1);
        assert(us[n - 1].wf());
        lemma_footprint_wf(us[n - 1]);
    }
}

/// A partial rebuild equals a full one where only the box of the action
/// that came or went is handed to the plan: one that came stays inside its
/// footprint, and one that went, of which no footprint is left in the
/// list, inside its box.
pub proof fn law_box_rebuild(
    base: Picture,
    iw: int,
    ih: int,
    ms: Seq<Mark>,
    us: Seq<Mark>,
    ink: spec_fn(Mark) -> Cover,
    change: Change,
    closed: Rect,
    mark: Seq<bool>,
)
    requires
        0 <= iw <= u32::MAX,
        0 <= ih <= u32::MAX,
        sized(base, iw, ih),
        all_wf(us),
        all_fit(ms, ink, iw, ih),
        all_fit(renumbered(us), ink, iw, ih),
        match change {
            Change::Added(k) => {
                &&& 0 <= k <= ms.len() && us == ms.insert(k, us[k])
                &&& us[k].bbox matches Some(b) && b.w > 0 && b.h > 0
                &&& stays(us[k], ink(us[k]), iw, ih)
            },
            Change::Removed(k) => {
                &&& 0 <= k < ms.len() && us == ms.remove(k)
                &&& ms[k].bbox matches Some(b) && b.wf() && fits(ms[k], ink(ms[k]), b, iw, ih)
            },
            Change::Moved(_) => false,
        },
        closure_of(
            renumbered(us),
            seeded(us, box_of(ms, us, change), us.len() as int),
            image_rect(iw, ih),
            closed,
            mark,
        ),
    ensures
        planned(
            base,
            render(base, iw, ih, ms, inked(ms, ink), 0, ms.len() as int),
            iw,
            ih,
            renumbered(us),
            inked(renumbered(us), ink),
            closed,
            mark,
        ) == render(
            base,
            iw,
            ih,
            renumbered(us),
            inked(renumbered(us), ink),
            0,
            us.len() as int,
        ),
{
    let vs = renumbered(us);
    let n = us.len() as int;
    let b = box_of(ms, us, change);
    if let Change::Added(k) = change {
        let f = footprint_of(us[k])->0;
        assert(us[k].wf());
        lemma_footprint_wf(us[k]);
        assert(f.holds(b));
        assert(footprint_of(vs[k]) == Some(f));
        let seed = seeded(us, b, n);
        let wider = seeded(us, f, n);
        lemma_seeded(us, b, n);
        lemma_seeded(us, f, n);
        lemma_seed_held(us, f, b, wider, n);
        assert(wider.holds(seed));
        if !unbounded(vs) {
            assert(closed.holds(b));
            assert(f.meets(closed));
            assert(mark[k]);
            assert(closed.holds(f));
            lemma_seed_held(us, b, f, closed, n);
        }
        assert forall|z: Rect|
            #![trigger closed_under(z, vs)]
            closed_under(z, vs) && z.holds(wider) && (unbounded(vs) ==> z.holds(
                image_rect(iw, ih),
            )) implies z.holds(closed) && forall|i: int|
            0 <= i < vs.len() && mark[i] ==> (footprint_of(#[trigger] vs[i]) matches Some(g)
                ==> z.holds(g)) by {
            assert(z.holds(seed));
        }
        law_edit_rebuild(base, iw, ih, ms, us, ink, change, f, closed, mark);
    } else {
        law_edit_rebuild(base, iw, ih, ms, us, ink, change, b, closed, mark);
    }
}

/// The box of the action that came or went.
pub open spec fn box_of(ms: Seq<Mark>, us: Seq<Mark>, change: Change) -> Rect {
    match change {
        Change::Added(k) => us[k].bbox->0,
        Change::Removed(k) => ms[k].bbox->0,
        Change::Moved(k) => us[k].bbox->0,
    }
}

/// The action has a footprint and stays inside it.
pub open spec fn stays(m: Mark, ink: Cover, iw: int, ih: int) -> bool {
    footprint_of(m) matches Some(f) && fits(m, ink, f, iw, ih)
}

/// What an edit adds and takes stays inside its footprint.
pub open spec fn edit_fits(e: Past, ink: spec_fn(Mark) -> Cover, iw: int, ih: int) -> bool {
    match e {
        Past::Add(m) => stays(m, ink(m), iw, ih),
        Past::Remove(_, m) => stays(m, ink(m), iw, ih),
        Past::Move(_, a, b) => stays(a, ink(a), iw, ih) && stays(b, ink(b), iw, ih),
    }
}

proof fn lemma_fits_wider(m: Mark, ink: Cover, r: Rect, wider: Rect, iw: int, ih: int)
    requires
        fits(m, ink, r, iw, ih),
        wider.holds(r),
    ensures
        fits(m, ink, wider, iw, ih),
{
    assert forall|x: int, y: int|
        in_image(iw, ih, x, y) && #[trigger] touches(
            m,
            ink,
            iw,
            ih,
            x,
            y,
        ) implies wider.holds_pixel(x, y) by {
        lemma_holds_pixel(wider, r, x, y);
    }
}

/// Doing an edit, or taking it back, and repainting what its plan names
/// shows the new list: where the picture was that of the old list, each
/// action stays inside its footprint, and what the edit adds and takes
/// stays inside its box.
pub proof fn law_edit_shown(
    base: Picture,
    iw: int,
    ih: int,
    ms: Seq<Mark>,
    e: Past,
    back: bool,
    ink: spec_fn(Mark) -> Cover,
    plan: Plan,
)
    requires
        0 <= iw <= u32::MAX,
        0 <= ih <= u32::MAX,
        sized(base, iw, ih),
        all_settled(ms),
        edit_wf(e),
        back ==> fits_inverse(e, ms.len() as int) && (e matches Past::Add(m) ==> m == ms.last())
            && (e matches Past::Move(i, _, m) ==> m == ms[i]),
        !back ==> fits_forward(e, ms.len() as int) && (e matches Past::Remove(i, m) ==> m == ms[i])
            && (e matches Past::Move(i, m, _) ==> m == ms[i]),
        ({
            let us = if back {
                inverse(ms, e)
            } else {
                forward(ms, e)
            };
            &&& all_fit(ms, ink, iw, ih)
            &&& all_fit(renumbered(us), ink, iw, ih)
            &&& edit_fits(e, ink, iw, ih)
            &&& plan_for(us, region_of(e), iw, ih, plan)
        }),
    ensures
        ({
            let us = if back {
                inverse(ms, e)
            } else {
                forward(ms, e)
            };
            let vs = relisted(us, region_of(e));
            plan matches Plan::Dirty(closed, mark) && planned(
                base,
                render(base, iw, ih, ms, inked(ms, ink), 0, ms.len() as int),
                iw,
                ih,
                vs,
                inked(vs, ink),
                closed,
                mark@,
            ) == render(base, iw, ih, vs, inked(vs, ink), 0, vs.len() as int)
        }),
{
    let us = if back {
        inverse(ms, e)
    } else {
        forward(ms, e)
    };
    let region = region_of(e)->0;
    match e {
        Past::Add(m) => lemma_footprint_wf(m),
        Past::Remove(_, m) => lemma_footprint_wf(m),
        Past::Move(_, a, b) => {
            lemma_footprint_wf(a);
            lemma_footprint_wf(b);
        },
    }
    lemma_edit_settled(ms, e);
    lemma_settled_wf(us);
    let change = match e {
        Past::Add(_) => if back {
            Change::Removed(ms.len() - 1)
        } else {
            Change::Added(ms.len() as int)
        },
        Past::Remove(i, _) => if back {
            Change::Added(i)
        } else {
            Change::Removed(i)
        },
        Past::Move(i, _, _) => Change::Moved(i),
    };
    match e {
        Past::Add(m) => {
            if back {
                assert(us =~= ms.remove(ms.len() - 1));
            } else {
                assert(us =~= ms.insert(ms.len() as int, m));
            }
        },
        Past::Remove(i, m) => {},
        Past::Move(i, a, b) => {
            lemma_fits_wider(a, ink(a), footprint_of(a)->0, region, iw, ih);
            lemma_fits_wider(b, ink(b), footprint_of(b)->0, region, iw, ih);
            if back {
                assert(us =~= ms.update(i, a));
            } else {
                assert(us =~= ms.update(i, b));
            }
        },
    }
    if let Plan::Dirty(closed, mark) = plan {
        law_edit_rebuild(base, iw, ih, ms, us, ink, change, region, closed, mark@);
    }
}

} // verus!
