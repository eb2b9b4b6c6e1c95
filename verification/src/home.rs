//! The home window: its entrance, and its tiles. Progress is in parts of
//! the whole way.

use vstd::prelude::*;
use crate::command::{Command, Order};
use crate::flight::WAY;
use crate::geom::{clamp_of, min_of, PX};
use crate::motion::{
    cubic,
    ease_out_cubic,
    frame_time,
    goal,
    goal_of,
    law_curves,
    law_spring_poised,
    part_of,
    share,
    since,
    Spring,
};

verus! {

/// The entrance, in milliseconds: the mark opens, then the content rises.
pub const LOADING: u64 = 810;

/// How much of the entrance the mark plays alone.
pub const REVEAL: i64 = 620_000_000;

/// Where in the entrance the mark's spring completes.
pub const MARK_END: i64 = 980_000_000;

/// The mark's edge at rest, and in the brand moment.
pub const MARK: i64 = 560_000;

pub const BRAND_MARK: i64 = 880_000;

/// How much smaller it is at rest.
pub const SHRINK: i64 = BRAND_MARK - MARK;

/// How far the mark at rest lies above the middle of its column: half of
/// what stands under it, a gap of 12 pixels, the wordmark's 28, a gap of 22
/// and the tiles' 104.
pub const MARK_RISE: i64 = 830_000;

/// How far an entrance is that was at `start` and runs for `elapsed` of
/// `total` milliseconds.
pub open spec fn loaded(start: int, elapsed: int, total: int) -> int {
    if total <= 0 {
        WAY as int
    } else {
        min_of(start + elapsed * WAY / total, WAY as int)
    }
}

/// How far the entrance is.
pub fn loading_progress(start: i64, elapsed: u64, total: u64) -> (r: i64)
    requires
        0 <= start <= WAY,
    ensures
        r == loaded(start as int, elapsed as int, total as int),
        start <= r <= WAY,
{
    if total == 0 {
        return WAY;
    }
    proof {
        let q = elapsed * WAY / total as int;
        assert(0 <= elapsed * WAY <= 0x1_0000_0000_0000_0000 * 1_000_000_000) by (nonlinear_arith)
            requires
                0 <= elapsed <= 0x1_0000_0000_0000_0000,
                WAY == 1_000_000_000,
        ;
        assert(0 <= q <= 0x1_0000_0000_0000_0000 * 1_000_000_000) by (nonlinear_arith)
            requires
                q == (elapsed * WAY) / total as int,
                0 <= elapsed * WAY <= 0x1_0000_0000_0000_0000 * 1_000_000_000,
                total >= 1,
        ;
    }
    let done: i128 = start as i128 + elapsed as i128 * WAY as i128 / total as i128;
    if done < WAY as i128 {
        done as i64
    } else {
        WAY
    }
}

/// How far the content is: none of the way before the reveal, all of it
/// when the entrance is done.
pub open spec fn revealed(t: int) -> int {
    clamp_of((t - REVEAL) * WAY / (WAY - REVEAL), 0, WAY as int)
}

/// How far the content is.
pub fn reveal_progress(t: i64) -> (r: i64)
    requires
        0 <= t <= WAY,
    ensures
        r == revealed(t as int),
        0 <= r <= WAY,
{
    if t <= REVEAL {
        proof {
            assert((t - REVEAL) * WAY / (WAY - REVEAL) <= 0) by (nonlinear_arith)
                requires
                    t <= REVEAL,
                    WAY == 1_000_000_000,
                    REVEAL == 620_000_000,
            ;
        }
        return 0;
    }
    let r: i64 = (t - REVEAL) * WAY / (WAY - REVEAL);
    r
}

/// The entrance ends: at either start it is done when its time is, and
/// then the content is too.
pub proof fn law_entrance_ends(start: int, elapsed: int, total: int)
    requires
        0 <= start <= WAY,
        0 < total <= elapsed,
    ensures
        loaded(start, elapsed, total) == WAY,
        revealed(WAY as int) == WAY,
        revealed(REVEAL as int) == 0,
{
    assert(elapsed * WAY / total >= WAY) by (nonlinear_arith)
        requires
            0 < total <= elapsed,
            WAY == 1_000_000_000,
    ;
    assert((WAY - REVEAL) * WAY / (WAY - REVEAL) == WAY) by (nonlinear_arith)
        requires
            WAY == 1_000_000_000,
            REVEAL == 620_000_000,
    ;
}

/// The content never goes back, and starts with the reveal.
pub proof fn law_reveal_grows(a: int, b: int)
    requires
        a <= b,
    ensures
        revealed(a) <= revealed(b),
        a <= REVEAL ==> revealed(a) == 0,
{
    assert((a - REVEAL) * WAY / (WAY - REVEAL) <= (b - REVEAL) * WAY / (WAY - REVEAL))
        by (nonlinear_arith)
        requires
            a <= b,
            WAY == 1_000_000_000,
            REVEAL == 620_000_000,
    ;
    assert(a <= REVEAL ==> (a - REVEAL) * WAY / (WAY - REVEAL) <= 0) by (nonlinear_arith)
        requires
            WAY == 1_000_000_000,
            REVEAL == 620_000_000,
    ;
}

/// The mark's edge and its drop below its rest at glide progress `m`.
pub open spec fn pose_of(m: int) -> (int, int) {
    (BRAND_MARK - SHRINK * m / WAY as int, MARK_RISE * (WAY - m) / WAY as int)
}

/// The mark's edge and its drop below its rest: from the brand moment,
/// centred, to its rest over the wordmark.
pub fn mark_pose(m: i64) -> (r: (i64, i64))
    requires
        0 <= m <= WAY,
    ensures
        r.0 == pose_of(m as int).0 && r.1 == pose_of(m as int).1,
        m == 0 ==> r == (BRAND_MARK, MARK_RISE),
        m == WAY ==> r == (MARK, 0i64),
{
    (BRAND_MARK - SHRINK * m / WAY, MARK_RISE * (WAY - m) / WAY)
}

/// How far the `i`th of the staggered parts is.
pub open spec fn staggered(content: int, i: int) -> int {
    clamp_of((content - i * 180_000_000) * 100 / 64, 0, WAY as int)
}

/// How far the `i`th of the staggered parts is: each starts a while after
/// the one before it.
pub fn stagger(content: i64, i: usize) -> (r: i64)
    requires
        0 <= content <= WAY,
        i <= 1000,
    ensures
        r == staggered(content as int, i as int),
        0 <= r <= WAY,
{
    let at: i64 = content - i as i64 * 180_000_000;
    if at <= 0 {
        return 0;
    }
    let r: i64 = at * 100 / 64;
    if r < WAY {
        r
    } else {
        WAY
    }
}

/// All tiles are in place when the content is.
pub proof fn law_tiles_arrive(i: int)
    requires
        0 <= i < 3,
    ensures
        staggered(WAY as int, i) == WAY,
        staggered(0, i) == 0,
{
}

/// What the window shows in a frame of the entrance, in parts.
#[derive(Clone, Copy, Debug, PartialEq, Eq)]
pub enum Scene {
    /// The mark alone, its spring this far.
    Brand { mark: i64 },
    /// The mark, the wordmark and the tiles, each this far in, and the
    /// gear in the corner.
    Content { mark: i64, tiles: (i64, i64, i64), gear: i64 },
}

/// How far the mark's spring is.
pub open spec fn marked(brand: bool, t: int) -> int {
    if brand {
        min_of(t * WAY / MARK_END as int, WAY as int)
    } else {
        WAY as int
    }
}

/// How far in the `i`th tile is when the entrance is this far.
pub open spec fn entered(t: int, i: int) -> int {
    cubic(staggered(revealed(t), i))
}

/// What the window shows when the entrance is this far.
pub open spec fn scene_of(brand: bool, t: int) -> Scene {
    if t < REVEAL {
        Scene::Brand { mark: marked(brand, t) as i64 }
    } else {
        Scene::Content {
            mark: marked(brand, t) as i64,
            tiles: (entered(t, 0) as i64, entered(t, 1) as i64, entered(t, 2) as i64),
            gear: entered(t, 2) as i64,
        }
    }
}

/// A window that does not play the brand moment shows its content from
/// the first frame on, with the mark at rest; when the entrance is done,
/// everything is in place.
pub proof fn law_scenes(brand: bool, elapsed: int, total: int)
    requires
        0 <= elapsed,
        0 < total,
    ensures
        scene_of(false, loaded(REVEAL as int, elapsed, total)) is Content,
        marked(false, loaded(REVEAL as int, elapsed, total)) == WAY,
        scene_of(brand, WAY as int) == (Scene::Content {
            mark: WAY,
            tiles: (WAY, WAY, WAY),
            gear: WAY,
        }),
{
    assert(elapsed * WAY / total >= 0) by (nonlinear_arith)
        requires
            0 <= elapsed,
            0 < total,
            WAY == 1_000_000_000,
    ;
    law_entrance_ends(REVEAL as int, total, total);
    law_tiles_arrive(0);
    law_tiles_arrive(1);
    law_tiles_arrive(2);
    law_curves(WAY as int);
    assert(WAY * WAY / MARK_END as int >= WAY) by (nonlinear_arith)
        requires
            WAY == 1_000_000_000,
            MARK_END == 980_000_000,
    ;
}

/// A tile of the home window.
#[derive(Clone, Copy, Debug, PartialEq, Eq, Structural)]
pub enum HomeTile {
    Capture,
    Record,
    Library,
}

/// The tiles, from the left.
pub open spec fn home_tiles() -> Seq<HomeTile> {
    seq![HomeTile::Capture, HomeTile::Record, HomeTile::Library]
}

pub open spec fn tile_text(t: HomeTile) -> Seq<char> {
    match t {
        HomeTile::Capture => "New Screenshot"@,
        HomeTile::Record => "Record Window"@,
        HomeTile::Library => "Library"@,
    }
}

/// The tiles, from the left, with their labels.
pub fn tiles() -> (r: Vec<(HomeTile, &'static str)>)
    ensures
        r@.len() == home_tiles().len(),
        forall|i: int|
            0 <= i < r@.len() ==> #[trigger] r@[i].0 == home_tiles()[i] && r@[i].1@ == tile_text(
                home_tiles()[i],
            ),
{
    vec![
        (HomeTile::Capture, "New Screenshot"),
        (HomeTile::Record, "Record Window"),
        (HomeTile::Library, "Library"),
    ]
}

/// What a tile orders.
pub open spec fn tile_order(t: HomeTile) -> Order {
    match t {
        HomeTile::Capture => Order::Capture,
        HomeTile::Record => Order::RecordToggle,
        HomeTile::Library => Order::Library,
    }
}

/// The command a tile runs.
pub fn tile_command(t: HomeTile) -> (r: Command)
    ensures
        r@ == tile_order(t),
{
    match t {
        HomeTile::Capture => Command::Capture,
        HomeTile::Record => Command::RecordToggle,
        HomeTile::Library => Command::Library,
    }
}

pub struct Home {
    pub opened: Option<u64>,
    /// This window plays the brand moment.
    pub brand: bool,
    pub hovered: Option<usize>,
    pub pressed: Option<usize>,
    /// Each tile's springs: its lift under the pointer, and the press.
    pub lifts: Vec<Spring>,
    pub sinks: Vec<Spring>,
    /// When the last frame was, in milliseconds.
    pub last_frame: Option<u64>,
}

/// How a tile is drawn.
#[derive(Clone, Copy, Debug, PartialEq, Eq, Structural)]
pub struct TileLook {
    /// How far below its place it is.
    pub drop: i64,
    pub shade: TileShade,
}

#[derive(Clone, Copy, Debug, PartialEq, Eq, Structural)]
pub enum TileShade {
    Rest,
    Hover,
    Press,
}

/// A tile that is this far in rises the last of twelve pixels, and sinks
/// one where it is pressed.
pub open spec fn tile_look_of(enter: int, squish: int, hovered: bool) -> TileLook {
    TileLook {
        drop: (share(12 * PX, WAY - cubic(enter)) + share(PX as int, squish)) as i64,
        shade: if squish > 50_000_000 {
            TileShade::Press
        } else if hovered {
            TileShade::Hover
        } else {
            TileShade::Rest
        },
    }
}

/// How a tile that is this far in, and pressed this far, is drawn.
pub fn tile_look(enter: i64, squish: i64, hovered: bool) -> (r: TileLook)
    requires
        0 <= enter <= WAY,
        -2 * WAY <= squish <= 2 * WAY,
    ensures
        r == tile_look_of(enter as int, squish as int, hovered),
{
    let left: i64 = WAY - ease_out_cubic(enter);
    proof {
        law_curves(enter as int);
    }
    TileLook {
        drop: part_of(12 * PX, left) + part_of(PX, squish),
        shade: if squish > 50_000_000 {
            TileShade::Press
        } else if hovered {
            TileShade::Hover
        } else {
            TileShade::Rest
        },
    }
}

impl Home {
    pub open spec fn wf(self) -> bool {
        &&& self.lifts@.len() == home_tiles().len() && self.sinks@.len() == home_tiles().len()
        &&& forall|i: int| 0 <= i < self.lifts@.len() ==> (#[trigger] self.lifts@[i]).poised()
        &&& forall|i: int| 0 <= i < self.sinks@.len() ==> (#[trigger] self.sinks@[i]).poised()
    }

    /// Is the pointer over tile `i`?
    pub open spec fn over(self, i: int) -> bool {
        self.hovered matches Some(h) && h == i
    }

    /// Is tile `i` pressed?
    pub open spec fn down(self, i: int) -> bool {
        self.pressed matches Some(p) && p == i
    }

    /// One of these springs of tile `i` still moves.
    pub open spec fn sways(self, i: int, lift: Spring, sink: Spring) -> bool {
        !lift.resting(goal(self.over(i)) as int) || !sink.resting(goal(self.down(i)) as int)
    }

    /// A spring of tile `i` still moves.
    pub open spec fn stirs(self, i: int) -> bool {
        self.sways(i, self.lifts@[i], self.sinks@[i])
    }

    /// Move the tiles' springs for a frame at `now` milliseconds, when the
    /// entrance is this far. True: the entrance or a spring still moves,
    /// and another frame is to follow.
    pub fn advance(&mut self, now: u64, t: i64) -> (live: bool)
        requires
            old(self).wf(),
        ensures
            final(self).wf(),
            *final(self) == (Home {
                lifts: final(self).lifts,
                sinks: final(self).sinks,
                last_frame: Some(now),
                ..*old(self)
            }),
            forall|i: int|
                0 <= i < home_tiles().len() ==> #[trigger] final(self).lifts@[i] == old(
                    self,
                ).lifts@[i].stepped(
                    goal(old(self).over(i)) as int,
                    since(old(self).last_frame, now),
                ),
            forall|i: int|
                0 <= i < home_tiles().len() ==> #[trigger] final(self).sinks@[i] == old(
                    self,
                ).sinks@[i].stepped(
                    goal(old(self).down(i)) as int,
                    since(old(self).last_frame, now),
                ),
            live == (t < WAY || exists|i: int|
                0 <= i < home_tiles().len() && #[trigger] final(self).stirs(i)),
    {
        let ghost first = *self;
        let dt: u64 = frame_time(self.last_frame, now);
        let mut live: bool = t < WAY;
        let mut lifts: Vec<Spring> = Vec::new();
        let mut sinks: Vec<Spring> = Vec::new();
        let mut i: usize = 0;
        while i < 3
            invariant
                *self == first,
                first.wf(),
                0 <= i <= 3,
                home_tiles().len() == 3,
                dt == since(first.last_frame, now),
                dt == 0 || dt >= 1000,
                lifts@.len() == i && sinks@.len() == i,
                forall|j: int|
                    0 <= j < i ==> #[trigger] lifts@[j] == first.lifts@[j].stepped(
                        goal(first.over(j)) as int,
                        dt as int,
                    ) && lifts@[j].poised(),
                forall|j: int|
                    0 <= j < i ==> #[trigger] sinks@[j] == first.sinks@[j].stepped(
                        goal(first.down(j)) as int,
                        dt as int,
                    ) && sinks@[j].poised(),
                t < WAY ==> live,
                live && t >= WAY ==> exists|j: int|
                    0 <= j < i && #[trigger] first.sways(j, lifts@[j], sinks@[j]),
                !live ==> forall|j: int|
                    0 <= j < i ==> !#[trigger] first.sways(j, lifts@[j], sinks@[j]),
            decreases 3 - i,
        {
            let up: i64 = goal_of(
                match self.hovered {
                    Some(h) => h == i,
                    None => false,
                },
            );
            let press: i64 = goal_of(
                match self.pressed {
                    Some(p) => p == i,
                    None => false,
                },
            );
            let mut lift = self.lifts[i];
            let mut sink = self.sinks[i];
            proof {
                assert(first.lifts@[i as int].poised() && first.sinks@[i as int].poised());
                law_spring_poised(lift, first.over(i as int), dt as int);
                law_spring_poised(sink, first.down(i as int), dt as int);
            }
            lift.to(up, dt);
            sink.to(press, dt);
            let ghost (l0, s0) = (lifts@, sinks@);
            let ghost was = live;
            lifts.push(lift);
            sinks.push(sink);
            if !lift.settled(up) || !sink.settled(press) {
                live = true;
            }
            proof {
                assert(lifts@[i as int] == lift && sinks@[i as int] == sink);
                assert(forall|j: int| 0 <= j < i ==> #[trigger] lifts@[j] == l0[j]);
                assert(forall|j: int| 0 <= j < i ==> #[trigger] sinks@[j] == s0[j]);
                if live && t >= WAY {
                    if was {
                        let j = choose|j: int|
                            0 <= j < i && #[trigger] first.sways(j, l0[j], s0[j]);
                        assert(first.sways(j, lifts@[j], sinks@[j]));
                    } else {
                        assert(first.sways(i as int, lifts@[i as int], sinks@[i as int]));
                    }
                }
                if !live {
                    assert forall|j: int| 0 <= j < i + 1 implies !#[trigger] first.sways(
                        j,
                        lifts@[j],
                        sinks@[j],
                    ) by {
                        if j < i {
                            assert(!first.sways(j, l0[j], s0[j]));
                        }
                    }
                }
            }
            i = i + 1;
        }
        self.lifts = lifts;
        self.sinks = sinks;
        self.last_frame = Some(now);
        proof {
            if live && !(t < WAY) {
                let j = choose|j: int|
                    0 <= j < 3 && #[trigger] first.sways(j, lifts@[j], sinks@[j]);
                assert(self.stirs(j));
            }
            if !live {
                assert forall|j: int| 0 <= j < 3 implies !#[trigger] self.stirs(j) by {
                    assert(!first.sways(j, lifts@[j], sinks@[j]));
                }
            }
        }
        live
    }


    /// A window that opens. The first one of the process plays the brand
    /// moment.
    pub fn new(brand_played: &mut bool) -> (r: Home)
        ensures
            r.wf(),
            r.opened is None && r.hovered is None && r.pressed is None && r.last_frame is None,
            forall|i: int|
                0 <= i < 3 ==> #[trigger] r.lifts@[i] == (Spring { value: 0, velocity: 0 }),
            forall|i: int|
                0 <= i < 3 ==> #[trigger] r.sinks@[i] == (Spring { value: 0, velocity: 0 }),
            r.brand == !*old(brand_played),
            *final(brand_played),
    {
        let brand = !*brand_played;
        *brand_played = true;
        Home {
            opened: None,
            brand,
            hovered: None,
            pressed: None,
            lifts: vec![Spring::new(), Spring::new(), Spring::new()],
            sinks: vec![Spring::new(), Spring::new(), Spring::new()],
            last_frame: None,
        }
    }

    /// How far the entrance is at `now`.
    pub open spec fn entrance(self, now: u64, total: u64) -> int {
        let from = match self.opened {
            Some(t) => t,
            None => now,
        };
        loaded(
            if self.brand {
                0
            } else {
                REVEAL as int
            },
            if now > from {
                now - from
            } else {
                0
            },
            total as int,
        )
    }

    /// A frame at `now`: how far the entrance is.
    pub fn frame(&mut self, now: u64, total: u64) -> (t: i64)
        ensures
            t == old(self).entrance(now, total),
            0 <= t <= WAY,
            *final(self) == (Home {
                opened: Some(
                    match old(self).opened {
                        Some(o) => o,
                        None => now,
                    },
                ),
                ..*old(self)
            }),
    {
        let from: u64 = match self.opened {
            Some(t) => t,
            None => now,
        };
        self.opened = Some(from);
        let start: i64 = if self.brand {
            0
        } else {
            REVEAL
        };
        let elapsed: u64 = if now > from {
            now - from
        } else {
            0
        };
        loading_progress(start, elapsed, total)
    }

    /// How far the mark's spring is at entrance progress `t`: at rest
    /// where the brand moment does not play.
    pub fn mark_progress(&self, t: i64) -> (r: i64)
        requires
            0 <= t <= WAY,
        ensures
            r == marked(self.brand, t as int),
            0 <= r <= WAY,
    {
        if !self.brand {
            return WAY;
        }
        let r: i64 = t * WAY / MARK_END;
        if r < WAY {
            r
        } else {
            WAY
        }
    }

    /// What a frame shows when the entrance is this far.
    pub fn scene(&self, t: i64) -> (r: Scene)
        requires
            0 <= t <= WAY,
        ensures
            r == scene_of(self.brand, t as int),
    {
        let mark: i64 = self.mark_progress(t);
        if t < REVEAL {
            return Scene::Brand { mark };
        }
        let content: i64 = reveal_progress(t);
        Scene::Content {
            mark,
            tiles: (
                ease_out_cubic(stagger(content, 0)),
                ease_out_cubic(stagger(content, 1)),
                ease_out_cubic(stagger(content, 2)),
            ),
            gear: ease_out_cubic(stagger(content, 2)),
        }
    }

    /// The mark's edge, its drop below its rest and how far it is shown,
    /// when the first tile is this far in: it glides from the brand
    /// moment, or fades in at its rest.
    pub fn mark_place(&self, first: i64) -> (r: (i64, i64, i64))
        requires
            0 <= first <= WAY,
        ensures
            r == (if self.brand {
                (pose_of(first as int).0 as i64, pose_of(first as int).1 as i64, WAY)
            } else {
                (MARK, 0i64, first)
            }),
    {
        if self.brand {
            let (size, drop) = mark_pose(first);
            (size, drop, WAY)
        } else {
            (MARK, 0, first)
        }
    }

    /// The pointer came over tile `i` or left it.
    pub fn hover(&mut self, i: usize, over: bool)
        ensures
            *final(self) == (Home {
                hovered: if over {
                    Some(i)
                } else if old(self).hovered == Some(i) {
                    None
                } else {
                    old(self).hovered
                },
                ..*old(self)
            }),
    {
        if over {
            self.hovered = Some(i);
        } else if let Some(h) = self.hovered {
            if h == i {
                self.hovered = None;
            }
        }
    }

    /// The button went down on tile `i`, or up.
    pub fn press(&mut self, i: Option<usize>)
        ensures
            *final(self) == (Home { pressed: i, ..*old(self) }),
    {
        self.pressed = i;
    }
}

/// The tiles are for a screenshot, a recording and the library, in this
/// order, and each does what it says.
pub proof fn law_tiles(t: HomeTile, c: Command)
    requires
        c@ == tile_order(t),
    ensures
        tile_text(t) == "New Screenshot"@ && c is Capture || tile_text(t) == "Record Window"@
            && c is RecordToggle || tile_text(t) == "Library"@ && c is Library,
        home_tiles()[0] is Capture && home_tiles()[1] is Record && home_tiles()[2] is Library,
        home_tiles().len() == 3,
{
}

/// A tile that is pressed looks so, and else whether the pointer is over
/// it; once it has entered and is let go it is at its place.
pub proof fn law_tile_look(squish: int, hovered: bool)
    ensures
        squish > 50_000_000 ==> tile_look_of(WAY as int, squish, hovered).shade is Press,
        squish <= 50_000_000 && hovered ==> tile_look_of(WAY as int, squish, hovered).shade is Hover,
        squish <= 50_000_000 && !hovered ==> tile_look_of(WAY as int, squish, hovered).shade is Rest,
        tile_look_of(WAY as int, 0, hovered).drop == 0,
        tile_look_of(0, 0, hovered).drop == 12 * PX,
{
    crate::motion::law_curves(0);
    crate::motion::law_curves(WAY as int);
    assert(0int * 1_000_000_000 == 0);
    assert((12 * PX) * (WAY as int) / WAY as int == 12 * PX) by (nonlinear_arith)
        requires
            WAY == 1_000_000_000,
            PX == 10_000,
    ;
}

/// The mark opens large and below its place; on its way it only shrinks
/// and rises, and it ends small and in place.
pub proof fn law_mark_settles(a: int, b: int)
    requires
        0 <= a <= b <= WAY,
    ensures
        pose_of(0) == (880_000int, 830_000int),
        pose_of(WAY as int) == (560_000int, 0int),
        560_000 <= pose_of(b).0 <= pose_of(a).0 <= 880_000,
        0 <= pose_of(b).1 <= pose_of(a).1 <= 830_000,
{
}

} // verus!
