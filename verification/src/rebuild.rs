//! Rebuilding the shown image after an edit, in full or only where the
//! edit reached.

use vstd::prelude::*;
use crate::action::{all_wf, footprint, footprint_of, marks, rect_of, Action, Mark, Tool};
use crate::canvas::{Canvas, Picture};
use crate::geom::{ceil_of, ceil_px, intersects, least, max_of, min_of, most, union_rect, Rect, PX};
use crate::mosaic::in_region;
use crate::raster::{paint, refreshed, replay_one, Cover, Ink};
use crate::text::{decimal, push_decimal};

verus! {

/// What each action covers, in order.
pub open spec fn covers_of(inks: Seq<Ink>) -> Seq<Cover> {
    Seq::new(inks.len(), |i: int| inks[i]@)
}

pub open spec fn inks_wf(inks: Seq<Cover>) -> bool {
    forall|i: int| 0 <= i < inks.len() ==> (#[trigger] inks[i]).wf()
}

/// The `iw` by `ih` picture with the actions from `from` up to `n`
/// painted over it, in order.
pub open spec fn render(
    pic: Picture,
    iw: int,
    ih: int,
    ms: Seq<Mark>,
    inks: Seq<Cover>,
    from: int,
    n: int,
) -> Picture
    decreases n,
{
    if n <= from || n <= 0 {
        pic
    } else {
        paint(render(pic, iw, ih, ms, inks, from, n - 1), iw, ih, ms[n - 1], inks[n - 1])
    }
}

/// The picture with the marked ones of the first `n` actions painted
/// over it, in order.
pub open spec fn render_marked(
    pic: Picture,
    iw: int,
    ih: int,
    ms: Seq<Mark>,
    inks: Seq<Cover>,
    mark: Seq<bool>,
    n: int,
) -> Picture
    decreases n,
{
    if n <= 0 {
        pic
    } else {
        let q = render_marked(pic, iw, ih, ms, inks, mark, n - 1);
        if mark[n - 1] {
            paint(q, iw, ih, ms[n - 1], inks[n - 1])
        } else {
            q
        }
    }
}

/// Replay the actions from `skip` on, in order.
pub fn replay_actions(img: &mut Canvas, actions: &mut Vec<Action>, inks: &Vec<Ink>, skip: usize)
    requires
        old(img).wf(),
        all_wf(marks(old(actions)@)),
        inks_wf(covers_of(inks@)),
        inks@.len() == old(actions)@.len(),
    ensures
        final(img).wf(),
        final(img).width == old(img).width,
        final(img).height == old(img).height,
        final(img)@ == render(
            old(img)@,
            old(img).width as int,
            old(img).height as int,
            marks(old(actions)@),
            covers_of(inks@),
            skip as int,
            old(actions)@.len() as int,
        ),
        marks(final(actions)@) == marks(old(actions)@),
        forall|i: int|
            0 <= i < old(actions)@.len() ==> if i < skip {
                #[trigger] final(actions)@[i] == old(actions)@[i]
            } else {
                refreshed(
                    old(actions)@[i],
                    final(actions)@[i],
                    render(
                        old(img)@,
                        old(img).width as int,
                        old(img).height as int,
                        marks(old(actions)@),
                        covers_of(inks@),
                        skip as int,
                        i + 1,
                    ),
                    old(img).width as int,
                    old(img).height as int,
                )
            },
{
    let ghost first = actions@;
    let ghost ms = marks(actions@);
    let ghost cs = covers_of(inks@);
    let ghost iw = img.width as int;
    let ghost ih = img.height as int;
    let ghost pic = img@;
    let mut i: usize = skip;
    while i < actions.len()
        invariant
            skip <= i,
            i <= actions@.len() || i == skip,
            img.wf(),
            img.width == iw,
            img.height == ih,
            ms == marks(actions@),
            cs == covers_of(inks@),
            all_wf(ms),
            inks_wf(cs),
            inks@.len() == actions@.len(),
            actions@.len() == ms.len(),
            img@ == render(pic, iw, ih, ms, cs, skip as int, i as int),
            first.len() == actions@.len(),
            forall|j: int|
                0 <= j < actions@.len() ==> if skip <= j < i {
                    refreshed(
                        first[j],
                        #[trigger] actions@[j],
                        render(pic, iw, ih, ms, cs, skip as int, j + 1),
                        iw,
                        ih,
                    )
                } else {
                    actions@[j] == first[j]
                },
        decreases actions@.len() - i,
    {
        assert(ms[i as int].wf());
        assert(cs[i as int].wf());
        let ghost before = actions@;
        assert(before[i as int] == first[i as int]);
        replay_one(img, &mut actions[i], &inks[i]);
        proof {
            assert(actions@ =~= before.update(i as int, actions@[i as int]));
            assert(marks(actions@) =~= ms);
        }
        i = i + 1;
    }
    proof {
        if skip > ms.len() {
            assert(render(pic, iw, ih, ms, cs, skip as int, ms.len() as int) == pic);
        }
    }
}

/// Copy the region of `base` over `img`.
pub fn restore_region(base: &Canvas, img: &mut Canvas, x: u32, y: u32, w: u32, h: u32)
    requires
        base.wf(),
        old(img).wf(),
        base.width == old(img).width,
        base.height == old(img).height,
        x + w <= base.width,
        y + h <= base.height,
    ensures
        final(img).wf(),
        final(img).width == old(img).width,
        final(img).height == old(img).height,
        forall|px: int, py: int|
            old(img).has(px, py) ==> #[trigger] final(img).at(px, py) == (if in_region(
                x as int,
                y as int,
                w as int,
                h as int,
                px,
                py,
            ) {
                base.at(px, py)
            } else {
                old(img).at(px, py)
            }),
{
    let mut oy: u32 = 0;
    while oy < h
        invariant
            base.wf(),
            img.wf(),
            base.width == img.width,
            base.height == img.height,
            img.width == old(img).width,
            img.height == old(img).height,
            x + w <= base.width,
            y + h <= base.height,
            oy <= h,
            forall|px: int, py: int|
                old(img).has(px, py) ==> #[trigger] img.at(px, py) == (if in_region(
                    x as int,
                    y as int,
                    w as int,
                    oy as int,
                    px,
                    py,
                ) {
                    base.at(px, py)
                } else {
                    old(img).at(px, py)
                }),
        decreases h - oy,
    {
        let mut ox: u32 = 0;
        while ox < w
            invariant
                base.wf(),
                img.wf(),
                base.width == img.width,
                base.height == img.height,
                img.width == old(img).width,
                img.height == old(img).height,
                x + w <= base.width,
                y + h <= base.height,
                oy < h,
                ox <= w,
                forall|px: int, py: int|
                    old(img).has(px, py) ==> #[trigger] img.at(px, py) == (if in_region(
                        x as int,
                        y as int,
                        w as int,
                        oy as int,
                        px,
                        py,
                    ) || (py == y + oy && x <= px < x + ox) {
                        base.at(px, py)
                    } else {
                        old(img).at(px, py)
                    }),
            decreases w - ox,
        {
            let p = base.get(x + ox, y + oy);
            img.set(x + ox, y + oy, p);
            ox = ox + 1;
        }
        oy = oy + 1;
    }
}

/// The pixels of an `iw` by `ih` image that a region touches, as corner
/// and size.
pub open spec fn pixels_of(r: Rect, iw: int, ih: int) -> (int, int, int, int) {
    let x0 = min_of(max_of(r.left(), 0) / PX as int, iw);
    let y0 = min_of(max_of(r.top(), 0) / PX as int, ih);
    let x1 = min_of(max_of(ceil_of(r.right()), 0), iw);
    let y1 = min_of(max_of(ceil_of(r.bottom()), 0), ih);
    (x0, y0, x1 - x0, y1 - y0)
}

/// The region in whole pixels, cut to the image. None: it touches no
/// pixel.
pub fn clamp_region(r: Rect, iw: u32, ih: u32) -> (b: Option<(u32, u32, u32, u32)>)
    requires
        r.wf(),
    ensures
        ({
            let (x, y, w, h) = pixels_of(r, iw as int, ih as int);
            match b {
                Some(q) => w > 0 && h > 0 && q.0 == x && q.1 == y && q.2 == w && q.3 == h && x + w
                    <= iw && y + h <= ih,
                None => w <= 0 || h <= 0,
            }
        }),
{
    let x0: i64 = least(most(r.x, 0) / PX, iw as i64);
    let y0: i64 = least(most(r.y, 0) / PX, ih as i64);
    let x1: i64 = least(most(ceil_px(r.x + r.w), 0), iw as i64);
    let y1: i64 = least(most(ceil_px(r.y + r.h), 0), ih as i64);
    if x1 > x0 && y1 > y0 {
        Some((x0 as u32, y0 as u32, (x1 - x0) as u32, (y1 - y0) as u32))
    } else {
        None
    }
}

/// Every action that overlaps `z` lies inside it.
pub open spec fn closed_under(z: Rect, ms: Seq<Mark>) -> bool {
    forall|i: int|
        0 <= i < ms.len() ==> (footprint_of(#[trigger] ms[i]) matches Some(f) ==> f.meets(z)
            ==> z.holds(f))
}

/// Some action could have painted anywhere.
pub open spec fn unbounded(ms: Seq<Mark>) -> bool {
    exists|i: int| 0 <= i < ms.len() && footprint_of(#[trigger] ms[i]) is None
}

/// How many of the first `n` are not marked.
pub open spec fn open_marks(mark: Seq<bool>, n: int) -> nat
    decreases n,
{
    if n <= 0 {
        0
    } else {
        open_marks(mark, n - 1) + (if mark[n - 1] {
            0nat
        } else {
            1nat
        })
    }
}

proof fn lemma_open_marks(mark: Seq<bool>, i: int, n: int)
    requires
        0 <= i < mark.len(),
        0 <= n <= mark.len(),
        !mark[i],
    ensures
        open_marks(mark.update(i, true), n) == open_marks(mark, n) - (if i < n {
            1int
        } else {
            0
        }),
    decreases n,
{
    if n > 0 {
        lemma_open_marks(mark, i, n - 1);
    }
}

/// What `replay_closure` answers for: `region` is closed under the
/// actions and covers `seed`, or the whole image where an action has no
/// footprint; exactly what overlaps it is marked, in any case what has
/// no footprint; and no smaller closed region would do.
pub open spec fn closure_of(
    ms: Seq<Mark>,
    seed: Rect,
    image: Rect,
    region: Rect,
    mark: Seq<bool>,
) -> bool {
    &&& region.wf()
    &&& mark.len() == ms.len()
    &&& forall|i: int|
        0 <= i < ms.len() && !mark[i] ==> (footprint_of(#[trigger] ms[i]) matches Some(f)
            && !f.meets(region))
    &&& !unbounded(ms) ==> region.holds(seed) && forall|i: int|
        0 <= i < ms.len() && mark[i] ==> (footprint_of(#[trigger] ms[i]) matches Some(f)
            && f.meets(region) && region.holds(f))
    &&& unbounded(ms) ==> region.holds(image)
    &&& forall|z: Rect|
        #![trigger closed_under(z, ms)]
        closed_under(z, ms) && z.holds(seed) && (unbounded(ms) ==> z.holds(image)) ==> z.holds(
            region,
        ) && forall|i: int|
            0 <= i < ms.len() && mark[i] ==> (footprint_of(#[trigger] ms[i]) matches Some(f)
                ==> z.holds(f))
}

/// The image as a region.
pub open spec fn image_rect(iw: int, ih: int) -> Rect {
    rect_of(0, 0, iw * PX, ih * PX)
}

/// Grow `region` until it covers the footprint of every action that
/// overlaps it, and mark those actions. One without a footprint widens
/// the region to the whole image.
pub fn replay_closure(actions: &Vec<Action>, region: Rect, iw: u32, ih: u32) -> (r: (
    Rect,
    Vec<bool>,
))
    requires
        all_wf(marks(actions@)),
        region.wf(),
    ensures
        closure_of(marks(actions@), region, image_rect(iw as int, ih as int), r.0, r.1@),
{
    let ghost ms = marks(actions@);
    let ghost seed = region;
    let image = Rect { x: 0, y: 0, w: iw as i64 * PX, h: ih as i64 * PX };
    let n: usize = actions.len();
    let mut region = region;
    let mut mark: Vec<bool> = vec![false; n];
    let ghost mut wide = false;
    let mut grew = true;
    while grew
        invariant
            ms == marks(actions@),
            all_wf(ms),
            n == actions@.len(),
            image == image_rect(iw as int, ih as int),
            image.wf(),
            region.wf(),
            mark@.len() == n,
            wide ==> unbounded(ms) && region.holds(image),
            !wide ==> region.holds(seed) && forall|j: int|
                0 <= j < n && mark@[j] ==> (footprint_of(#[trigger] ms[j]) matches Some(f)
                    && f.meets(region) && region.holds(f)),
            forall|z: Rect|
                #![trigger closed_under(z, ms)]
                closed_under(z, ms) && z.holds(seed) && (unbounded(ms) ==> z.holds(image))
                    ==> z.holds(region) && forall|j: int|
                    0 <= j < n && mark@[j] ==> (footprint_of(#[trigger] ms[j]) matches Some(f)
                        ==> z.holds(f)),
            !grew ==> forall|j: int|
                0 <= j < n && !mark@[j] ==> (footprint_of(#[trigger] ms[j]) matches Some(f)
                    && !f.meets(region)),
        decreases open_marks(mark@, n as int), (if grew {
            1int
        } else {
            0int
        }),
    {
        grew = false;
        let ghost start = open_marks(mark@, n as int);
        let mut i: usize = 0;
        while i < n
            invariant
                ms == marks(actions@),
                all_wf(ms),
                n == actions@.len(),
                image == image_rect(iw as int, ih as int),
                image.wf(),
                region.wf(),
                mark@.len() == n,
                i <= n,
                wide ==> unbounded(ms) && region.holds(image),
                !wide ==> region.holds(seed) && forall|j: int|
                    0 <= j < n && mark@[j] ==> (footprint_of(#[trigger] ms[j]) matches Some(f)
                        && f.meets(region) && region.holds(f)),
                forall|z: Rect|
                    #![trigger closed_under(z, ms)]
                    closed_under(z, ms) && z.holds(seed) && (unbounded(ms) ==> z.holds(image))
                        ==> z.holds(region) && forall|j: int|
                        0 <= j < n && mark@[j] ==> (footprint_of(#[trigger] ms[j]) matches Some(f)
                            ==> z.holds(f)),
                !grew ==> forall|j: int|
                    0 <= j < i && !mark@[j] ==> (footprint_of(#[trigger] ms[j]) matches Some(f)
                        && !f.meets(region)),
                !grew ==> open_marks(mark@, n as int) == start,
                grew ==> open_marks(mark@, n as int) < start,
            decreases n - i,
        {
            if !mark[i] {
                assert(ms[i as int].wf());
                let ghost was = region;
                match footprint(&actions[i]) {
                    Some(f) => {
                        if intersects(f, region) {
                            proof {
                                lemma_open_marks(mark@, i as int, n as int);
                                assert forall|z: Rect|
                                    #![trigger closed_under(z, ms)]
                                    closed_under(z, ms) && z.holds(seed) && (unbounded(ms)
                                        ==> z.holds(image)) implies z.holds(was) && z.holds(f) by {
                                    assert(footprint_of(ms[i as int]) == Some(f));
                                    assert(f.meets(z));
                                }
                            }
                            mark.set(i, true);
                            if f.x < region.x || f.y < region.y || f.x + f.w > region.x + region.w
                                || f.y + f.h > region.y + region.h {
                                region = union_rect(region, f);
                            }
                            grew = true;
                        }
                    },
                    None => {
                        proof {
                            lemma_open_marks(mark@, i as int, n as int);
                            assert(footprint_of(ms[i as int]) is None);
                            wide = true;
                        }
                        mark.set(i, true);
                        region = image;
                        grew = true;
                    },
                }
            }
            i = i + 1;
        }
    }
    proof {
        if unbounded(ms) {
            let k = choose|k: int| 0 <= k < ms.len() && footprint_of(#[trigger] ms[k]) is None;
            assert(footprint_of(ms[k]) is None);
            assert(mark@[k]);
        }
    }
    (region, mark)
}

/// How many of the first `n` actions are counters.
pub open spec fn counters(ms: Seq<Mark>, n: int) -> int
    decreases n,
{
    if n <= 0 {
        0
    } else {
        counters(ms, n - 1) + (if ms[n - 1].tool is Counter {
            1int
        } else {
            0
        })
    }
}

/// Action `i` with the number its place gives it: counters are numbered
/// from 1 in the order of the list.
pub open spec fn numbered(ms: Seq<Mark>, i: int) -> Mark {
    let step = counters(ms, i + 1) as u32;
    if ms[i].tool is Counter && ms[i].step != step {
        Mark { step, step_label: decimal(step as nat), ..ms[i] }
    } else {
        ms[i]
    }
}

/// The list with every counter numbered by its place.
pub open spec fn renumbered(ms: Seq<Mark>) -> Seq<Mark> {
    Seq::new(ms.len(), |i: int| numbered(ms, i))
}

/// `region` joined with the footprints of those of the first `n` actions
/// whose number changes.
pub open spec fn seeded(ms: Seq<Mark>, region: Rect, n: int) -> Rect
    decreases n,
{
    if n <= 0 {
        region
    } else {
        let r = seeded(ms, region, n - 1);
        if numbered(ms, n - 1) != ms[n - 1] {
            match footprint_of(ms[n - 1]) {
                Some(f) => r.joined(f),
                None => r,
            }
        } else {
            r
        }
    }
}

pub proof fn lemma_counters(ms: Seq<Mark>, n: int)
    ensures
        0 <= counters(ms, n),
        n >= 0 ==> counters(ms, n) <= n,
    decreases n,
{
    if n > 0 {
        lemma_counters(ms, n - 1);
    }
}

pub proof fn lemma_decimal_len(n: nat)
    requires
        n <= u32::MAX,
    ensures
        1 <= decimal(n).len() <= 10,
{
    reveal_with_fuel(decimal, 11);
}

/// Plan a partial rebuild: number the counters by their place, add to
/// the region what the changed ones cover, and close it over every
/// action it touches.
pub fn dirty_plan(actions: &mut Vec<Action>, region: Rect, iw: u32, ih: u32) -> (r: (
    Rect,
    Vec<bool>,
))
    requires
        all_wf(marks(old(actions)@)),
        region.wf(),
        old(actions)@.len() <= u32::MAX,
    ensures
        marks(final(actions)@) == renumbered(marks(old(actions)@)),
        all_wf(marks(final(actions)@)),
        forall|i: int|
            0 <= i < old(actions)@.len() ==> (#[trigger] final(actions)@[i]).blur_patch == old(
                actions,
            )@[i].blur_patch,
        closure_of(
            marks(final(actions)@),
            seeded(marks(old(actions)@), region, old(actions)@.len() as int),
            image_rect(iw as int, ih as int),
            r.0,
            r.1@,
        ),
{
    let ghost first = actions@;
    let ghost ms = marks(actions@);
    let mut step: u32 = 0;
    let mut seed = region;
    let mut i: usize = 0;
    while i < actions.len()
        invariant
            i <= actions@.len(),
            actions@.len() == first.len(),
            ms == marks(first),
            all_wf(ms),
            ms.len() <= u32::MAX,
            step == counters(ms, i as int),
            step <= i,
            seed.wf(),
            seed == seeded(ms, region, i as int),
            forall|j: int|
                0 <= j < actions@.len() ==> (#[trigger] actions@[j])@ == (if j < i {
                    numbered(ms, j)
                } else {
                    ms[j]
                }) && actions@[j].blur_patch == first[j].blur_patch && actions@[j]@.wf(),
        decreases actions@.len() - i,
    {
        let ghost before = actions@;
        let ghost k = i as int;
        proof {
            lemma_counters(ms, i + 1);
            assert(ms[k].wf());
            assert(before[k]@ == ms[k]);
        }
        if actions[i].tool == Tool::Counter {
            step = step + 1;
            if actions[i].step != step {
                let mut label = String::new();
                push_decimal(&mut label, step as u64);
                proof {
                    lemma_decimal_len(step as nat);
                    assert(label@ =~= decimal(step as nat));
                }
                actions[i].step = step;
                actions[i].step_label = label;
                if let Some(f) = footprint(&actions[i]) {
                    seed = union_rect(seed, f);
                }
            }
        }
        proof {
            assert(actions@ =~= before.update(k, actions@[k]));
            assert(actions@[k]@ =~= numbered(ms, k));
        }
        i = i + 1;
    }
    proof {
        assert(marks(actions@) =~= renumbered(ms));
        assert(all_wf(marks(actions@)));
    }
    replay_closure(actions, seed, iw, ih)
}

/// `pic` with the region of `base` copied over it.
pub open spec fn restored(
    base: Picture,
    pic: Picture,
    x: int,
    y: int,
    w: int,
    h: int,
) -> Picture {
    Seq::new(
        pic.len(),
        |py: int|
            Seq::new(
                pic[py].len(),
                |px: int|
                    if in_region(x, y, w, h, px, py) {
                        base[py][px]
                    } else {
                        pic[py][px]
                    },
            ),
    )
}

/// What a plan makes of `pic`: the region is restored from `base` and
/// the marked actions are painted over. A region that touches no pixel
/// changes nothing.
pub open spec fn planned(
    base: Picture,
    pic: Picture,
    iw: int,
    ih: int,
    ms: Seq<Mark>,
    inks: Seq<Cover>,
    region: Rect,
    mark: Seq<bool>,
) -> Picture {
    let (x, y, w, h) = pixels_of(region, iw, ih);
    if w > 0 && h > 0 {
        render_marked(
            restored(base, pic, x, y, w, h),
            iw,
            ih,
            ms,
            inks,
            mark,
            ms.len() as int,
        )
    } else {
        pic
    }
}

/// Carry out a plan: restore the closed region from `base`, then replay
/// the marked actions in order.
pub fn apply_plan(
    base: &Canvas,
    img: &mut Canvas,
    actions: &mut Vec<Action>,
    inks: &Vec<Ink>,
    closed: Rect,
    mark: &Vec<bool>,
)
    requires
        base.wf(),
        old(img).wf(),
        base.width == old(img).width,
        base.height == old(img).height,
        all_wf(marks(old(actions)@)),
        inks_wf(covers_of(inks@)),
        inks@.len() == old(actions)@.len(),
        mark@.len() == old(actions)@.len(),
        closed.wf(),
    ensures
        final(img).wf(),
        final(img).width == old(img).width,
        final(img).height == old(img).height,
        final(img)@ == planned(
            base@,
            old(img)@,
            base.width as int,
            base.height as int,
            marks(old(actions)@),
            covers_of(inks@),
            closed,
            mark@,
        ),
        marks(final(actions)@) == marks(old(actions)@),
        ({
            let iw = base.width as int;
            let ih = base.height as int;
            let ms = marks(old(actions)@);
            let (x, y, w, h) = pixels_of(closed, iw, ih);
            let start = restored(base@, old(img)@, x, y, w, h);
            forall|i: int|
                0 <= i < old(actions)@.len() ==> if mark@[i] && w > 0 && h > 0 {
                    refreshed(
                        old(actions)@[i],
                        #[trigger] final(actions)@[i],
                        render_marked(start, iw, ih, ms, covers_of(inks@), mark@, i + 1),
                        iw,
                        ih,
                    )
                } else {
                    final(actions)@[i] == old(actions)@[i]
                }
        }),
{
    let ghost first = actions@;
    let ghost ms = marks(actions@);
    let ghost cs = covers_of(inks@);
    let ghost iw = img.width as int;
    let ghost ih = img.height as int;
    let ghost (gx, gy, gw, gh) = pixels_of(closed, iw, ih);
    let ghost start = restored(base@, img@, gx, gy, gw, gh);
    let r = clamp_region(closed, img.width, img.height);
    match r {
        None => {
            return;
        },
        Some((x, y, w, h)) => {
            restore_region(base, img, x, y, w, h);
            proof {
                old(img).lemma_sized();
                assert forall|px: int, py: int| img.has(px, py) implies #[trigger] img.at(px, py)
                    == start[py][px] by {
                    assert(old(img).has(px, py));
                }
                img.lemma_same(start);
            }
            let mut i: usize = 0;
            while i < actions.len()
                invariant
                    i <= actions@.len(),
                    actions@.len() == first.len(),
                    ms == marks(actions@),
                    ms == marks(first),
                    cs == covers_of(inks@),
                    all_wf(ms),
                    inks_wf(cs),
                    inks@.len() == actions@.len(),
                    mark@.len() == actions@.len(),
                    img.wf(),
                    img.width == iw,
                    img.height == ih,
                    img@ == render_marked(start, iw, ih, ms, cs, mark@, i as int),
                    forall|j: int|
                        0 <= j < first.len() ==> if mark@[j] && j < i {
                            refreshed(
                                first[j],
                                #[trigger] actions@[j],
                                render_marked(start, iw, ih, ms, cs, mark@, j + 1),
                                iw,
                                ih,
                            )
                        } else {
                            actions@[j] == first[j]
                        },
                decreases actions@.len() - i,
            {
                if mark[i] {
                    assert(ms[i as int].wf());
                    assert(cs[i as int].wf());
                    let ghost before = actions@;
                    assert(before[i as int] == first[i as int]);
                    replay_one(img, &mut actions[i], &inks[i]);
                    proof {
                        assert(actions@ =~= before.update(i as int, actions@[i as int]));
                        assert(marks(actions@) =~= ms);
                    }
                }
                i = i + 1;
            }
        },
    }
}

/// Later actions are painted over earlier ones: one more is painted over
/// all that was there, and with none there is the image alone.
pub proof fn law_render_stacks(
    pic: Picture,
    iw: int,
    ih: int,
    ms: Seq<Mark>,
    inks: Seq<Cover>,
    m: Mark,
    ink: Cover,
)
    requires
        ms.len() == inks.len(),
    ensures
        render(pic, iw, ih, Seq::empty(), Seq::empty(), 0, 0) == pic,
        render(pic, iw, ih, ms.push(m), inks.push(ink), 0, ms.len() as int + 1) == paint(
            render(pic, iw, ih, ms, inks, 0, ms.len() as int),
            iw,
            ih,
            m,
            ink,
        ),
{
    lemma_render_prefix(pic, iw, ih, ms.push(m), inks.push(ink), ms, inks, ms.len() as int);
}

proof fn lemma_render_prefix(
    pic: Picture,
    iw: int,
    ih: int,
    ms: Seq<Mark>,
    inks: Seq<Cover>,
    us: Seq<Mark>,
    jnks: Seq<Cover>,
    n: int,
)
    requires
        n <= ms.len() && n <= us.len() && n <= inks.len() && n <= jnks.len(),
        forall|i: int| 0 <= i < n ==> #[trigger] ms[i] == us[i],
        forall|i: int| 0 <= i < n ==> #[trigger] inks[i] == jnks[i],
    ensures
        render(pic, iw, ih, ms, inks, 0, n) == render(pic, iw, ih, us, jnks, 0, n),
    decreases n,
{
    if n > 0 {
        lemma_render_prefix(pic, iw, ih, ms, inks, us, jnks, n - 1);
        assert(ms[n - 1] == us[n - 1] && inks[n - 1] == jnks[n - 1]);
    }
}

/// The counters are numbered in their order from one on: the first is one,
/// and each is one more than the counter before it. Nothing else changes.
pub proof fn law_numbered(ms: Seq<Mark>, i: int, j: int)
    requires
        0 <= i < ms.len() <= u32::MAX,
        0 <= j < i,
    ensures
        !(ms[i].tool is Counter) ==> renumbered(ms)[i] == ms[i],
        ms[i].tool is Counter ==> renumbered(ms)[i] == (Mark {
            step: renumbered(ms)[i].step,
            step_label: renumbered(ms)[i].step_label,
            ..ms[i]
        }),
        ms[i].tool is Counter && (forall|k: int|
            0 <= k < i ==> !((#[trigger] ms[k]).tool is Counter)) ==> renumbered(ms)[i].step == 1,
        ms[i].tool is Counter && ms[j].tool is Counter && (forall|k: int|
            j < k < i ==> !((#[trigger] ms[k]).tool is Counter)) ==> renumbered(ms)[i].step
            == renumbered(ms)[j].step + 1,
{
    lemma_counters_between(ms, 0, i);
    lemma_counters_between(ms, j + 1, i);
    lemma_counters_bound(ms, i + 1);
    lemma_counters_bound(ms, j + 1);
}

proof fn lemma_counters_bound(ms: Seq<Mark>, n: int)
    requires
        0 <= n,
    ensures
        0 <= counters(ms, n) <= n,
    decreases n,
{
    if n > 0 {
        lemma_counters_bound(ms, n - 1);
    }
}

proof fn lemma_counters_between(ms: Seq<Mark>, a: int, b: int)
    requires
        0 <= a <= b,
    ensures
        (forall|k: int| a <= k < b ==> !((#[trigger] ms[k]).tool is Counter)) ==> counters(ms, a)
            == counters(ms, b),
    decreases b - a,
{
    if a < b && forall|k: int| a <= k < b ==> !((#[trigger] ms[k]).tool is Counter) {
        assert(!(ms[b - 1].tool is Counter));
        lemma_counters_between(ms, a, b - 1);
    }
}

/// The pixels of a rectangle are those of the image that lie in it, wholly
/// or in part.
pub proof fn law_pixels_of(r: Rect, iw: int, ih: int, x: int, y: int)
    requires
        0 <= x < iw && 0 <= y < ih,
        0 <= r.w && 0 <= r.h,
    ensures
        ({
            let (x0, y0, w, h) = pixels_of(r, iw, ih);
            let inside = (x + 1) * PX > r.left() && x * PX < r.right() && (y + 1) * PX > r.top()
                && y * PX < r.bottom();
            (x0 <= x < x0 + w && y0 <= y < y0 + h) == inside
        }),
{
}

/// Every pixel of the picture is opaque.
pub open spec fn solid(pic: Picture, iw: int, ih: int) -> bool {
    &&& crate::canvas::sized(pic, iw, ih)
    &&& forall|x: int, y: int| 0 <= x < iw && 0 <= y < ih ==> (#[trigger] pic[y][x]).a == 255
}

/// An opaque picture stays opaque under an action, a blur among them.
pub proof fn law_paint_solid(pic: Picture, iw: int, ih: int, m: Mark, ink: Cover)
    requires
        solid(pic, iw, ih),
        ink.wf(),
        crate::raster::tones_opaque(ink.tones),
    ensures
        solid(paint(pic, iw, ih, m, ink), iw, ih),
{
    let out = paint(pic, iw, ih, m, ink);
    assert forall|x: int, y: int| 0 <= x < iw && 0 <= y < ih implies (#[trigger] out[y][x]).a
        == 255 by {
        assert(pic[y][x].a == 255);
        if m.tool is Blur {
            if let Some((bx, by, bw, bh)) = crate::raster::blur_box(m, iw, ih) {
                if in_region(bx, by, bw, bh, x, y) {
                    let (cx, cy) = (
                        crate::mosaic::cell_of(x - bx, bw),
                        crate::mosaic::cell_of(y - by, bh),
                    );
                    crate::mosaic::lemma_cell_of(x - bx, bw);
                    crate::mosaic::lemma_cell_of(y - by, bh);
                    crate::mosaic::lemma_cell(cx, bw);
                    crate::mosaic::lemma_cell(cy, bh);
                    crate::mosaic::law_mean_between(
                        pic,
                        3,
                        bx + crate::mosaic::cell_start(cx, bw),
                        bx + crate::mosaic::cell_end(cx, bw),
                        by + crate::mosaic::cell_start(cy, bh),
                        by + crate::mosaic::cell_end(cy, bh),
                        255,
                        255,
                    );
                }
            }
        } else {
            crate::raster::law_paint_stays_opaque(pic[y][x], m, ink, x, y);
        }
    }
}

/// A screenshot stays opaque, whatever is drawn on it.
pub proof fn law_render_solid(
    pic: Picture,
    iw: int,
    ih: int,
    ms: Seq<Mark>,
    inks: Seq<Cover>,
    n: int,
)
    requires
        solid(pic, iw, ih),
        0 <= n <= ms.len(),
        ms.len() == inks.len(),
        inks_wf(inks),
        forall|i: int| 0 <= i < inks.len() ==> crate::raster::tones_opaque((#[trigger] inks[i]).tones),
    ensures
        solid(render(pic, iw, ih, ms, inks, 0, n), iw, ih),
    decreases n,
{
    if n > 0 {
        law_render_solid(pic, iw, ih, ms, inks, n - 1);
        assert(inks[n - 1].wf() && crate::raster::tones_opaque(inks[n - 1].tones));
        law_paint_solid(render(pic, iw, ih, ms, inks, 0, n - 1), iw, ih, ms[n - 1], inks[n - 1]);
    }
}

} // verus!
