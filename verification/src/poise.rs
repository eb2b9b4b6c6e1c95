//! The springs of the library's cards: each card's lift under the pointer,
//! its selection's ring, and the press.

use vstd::prelude::*;
use crate::flight::WAY;
use crate::library::Library;
use crate::motion::{frame_time, goal, goal_of, law_spring_poised, since, Spring};
use crate::text::texts;

verus! {

pub struct Poise {
    /// By card; None: at rest from the start.
    pub lifts: Vec<Option<Spring>>,
    pub rings: Vec<Option<Spring>>,
    pub press: Spring,
    /// When the last frame was, in milliseconds.
    pub last: Option<u64>,
}

/// A spring that is there has been drawn to and fro.
pub open spec fn loose(s: Option<Spring>) -> bool {
    s matches Some(s) ==> s.poised()
}

/// The spring of card `i`.
pub open spec fn spring_at(v: Seq<Option<Spring>>, i: int) -> Option<Spring> {
    if 0 <= i < v.len() {
        v[i]
    } else {
        None
    }
}

/// A card's lift after a frame: one that the pointer is over gets a
/// spring, and each spring moves.
pub open spec fn lifted(s: Option<Spring>, over: bool, dt: int) -> Option<Spring> {
    match s {
        Some(s) => Some(s.stepped(goal(over) as int, dt)),
        None => if over {
            Some((Spring { value: 0, velocity: 0 }).stepped(WAY as int, dt))
        } else {
            None
        },
    }
}

/// A card's ring after a frame: one that is selected gets a spring, and
/// each moves but for one that has gone back to where it started.
pub open spec fn ringed(s: Option<Spring>, selected: bool, dt: int) -> Option<Spring> {
    match s {
        Some(s) => if !selected && s.resting(0) && s.value == 0 {
            Some(s)
        } else {
            Some(s.stepped(goal(selected) as int, dt))
        },
        None => if selected {
            Some((Spring { value: 0, velocity: 0 }).stepped(WAY as int, dt))
        } else {
            None
        },
    }
}

/// The spring still moves.
pub open spec fn moves(s: Option<Spring>, on: bool) -> bool {
    s matches Some(s) && !s.resting(goal(on) as int)
}

/// How far a card's spring is.
pub open spec fn amount(s: Option<Spring>) -> i64 {
    match s {
        Some(s) => s.value,
        None => 0,
    }
}

impl Poise {
    pub open spec fn wf(self) -> bool {
        &&& forall|i: int| 0 <= i < self.lifts@.len() ==> loose(#[trigger] self.lifts@[i])
        &&& forall|i: int| 0 <= i < self.rings@.len() ==> loose(#[trigger] self.rings@[i])
        &&& self.press.poised()
    }

    /// Every card at rest.
    pub fn new() -> (r: Poise)
        ensures
            r.wf(),
            r.lifts@.len() == 0 && r.rings@.len() == 0,
            r.press == (Spring { value: 0, velocity: 0 }),
            r.last is None,
    {
        Poise { lifts: Vec::new(), rings: Vec::new(), press: Spring::new(), last: None }
    }
}

fn spring_of(v: &Vec<Option<Spring>>, i: usize) -> (r: Option<Spring>)
    ensures
        r == spring_at(v@, i as int),
{
    if i < v.len() {
        v[i]
    } else {
        None
    }
}

fn lift(s: Option<Spring>, over: bool, dt: u64) -> (r: (Option<Spring>, bool))
    requires
        loose(s),
        dt == 0 || dt >= 1000,
    ensures
        r.0 == lifted(s, over, dt as int),
        r.1 == moves(r.0, over),
        loose(r.0),
{
    let mut next = match s {
        Some(s) => s,
        None => if over {
            Spring::new()
        } else {
            return (None, false);
        },
    };
    let target: i64 = goal_of(over);
    proof {
        law_spring_poised(next, over, dt as int);
    }
    next.to(target, dt);
    (Some(next), !next.settled(target))
}

fn ring(s: Option<Spring>, selected: bool, dt: u64) -> (r: (Option<Spring>, bool))
    requires
        loose(s),
        dt == 0 || dt >= 1000,
    ensures
        r.0 == ringed(s, selected, dt as int),
        r.1 == moves(r.0, selected),
        loose(r.0),
{
    if let Some(s) = s {
        proof {
            law_spring_poised(s, selected, 0);
        }
        if !selected && s.settled(0) && s.value == 0 {
            return (Some(s), false);
        }
    }
    lift(s, selected, dt)
}

impl Library {
    /// Is the pointer over card `i`?
    pub open spec fn over(self, i: int) -> bool {
        self.hovered matches Some(h) && h == i
    }

    /// Is card `i` selected?
    pub open spec fn chosen(self, i: int) -> bool {
        texts(self.selected@).contains(self.listing.entries@[i].path@)
    }

    /// A spring of card `i` still moves.
    pub open spec fn stirs(self, i: int) -> bool {
        moves(self.poise.lifts@[i], self.over(i)) || moves(self.poise.rings@[i], self.chosen(i))
    }

    /// `next` is this window after a frame at `now` milliseconds: each
    /// card's springs have moved, and those of cards that are gone are
    /// gone.
    pub open spec fn advances(self, next: Library, now: u64) -> bool {
        let n = self.listing.entries@.len();
        let dt = since(self.poise.last, now);
        let to = next.poise;
        &&& next == (Library { poise: to, ..self })
        &&& to.last == Some(now)
        &&& to.lifts@.len() == n && to.rings@.len() == n
        &&& forall|i: int|
            0 <= i < n ==> #[trigger] to.lifts@[i] == lifted(
                spring_at(self.poise.lifts@, i),
                self.over(i),
                dt,
            )
        &&& forall|i: int|
            0 <= i < n ==> #[trigger] to.rings@[i] == ringed(
                spring_at(self.poise.rings@, i),
                self.chosen(i),
                dt,
            )
        &&& to.press == self.poise.press.stepped(goal(self.pressed is Some) as int, dt)
    }

    /// Move the cards' springs for a frame at `now` milliseconds. True:
    /// one still moves, and another frame is to follow.
    pub fn advance(&mut self, now: u64) -> (live: bool)
        requires
            old(self).poise.wf(),
        ensures
            final(self).poise.wf(),
            old(self).advances(*final(self), now),
            live == (!final(self).poise.press.resting(goal(final(self).pressed is Some) as int)
                || exists|i: int|
                0 <= i < final(self).listing.entries@.len() && #[trigger] final(self).stirs(i)),
    {
        let ghost first = *self;
        let dt: u64 = frame_time(self.poise.last, now);
        let n: usize = self.listing.entries.len();
        let mut lifts: Vec<Option<Spring>> = Vec::new();
        let mut rings: Vec<Option<Spring>> = Vec::new();
        let mut live: bool = false;
        let mut i: usize = 0;
        while i < n
            invariant
                *self == first,
                n == first.listing.entries@.len(),
                0 <= i <= n,
                first.poise.wf(),
                dt == since(first.poise.last, now),
                dt == 0 || dt >= 1000,
                lifts@.len() == i && rings@.len() == i,
                forall|j: int|
                    0 <= j < i ==> #[trigger] lifts@[j] == lifted(
                        spring_at(first.poise.lifts@, j),
                        first.over(j),
                        dt as int,
                    ) && loose(lifts@[j]),
                forall|j: int|
                    0 <= j < i ==> #[trigger] rings@[j] == ringed(
                        spring_at(first.poise.rings@, j),
                        first.chosen(j),
                        dt as int,
                    ) && loose(rings@[j]),
                live ==> exists|j: int|
                    0 <= j < i && (moves(#[trigger] lifts@[j], first.over(j)) || moves(
                        rings@[j],
                        first.chosen(j),
                    )),
                !live ==> forall|j: int|
                    0 <= j < i ==> !moves(#[trigger] lifts@[j], first.over(j)) && !moves(
                        rings@[j],
                        first.chosen(j),
                    ),
            decreases n - i,
        {
            let over = match self.hovered {
                Some(h) => h == i,
                None => false,
            };
            let selected = self.is_selected(self.listing.entries[i].path.as_str());
            let (a, p) = lift(spring_of(&self.poise.lifts, i), over, dt);
            let (b, q) = ring(spring_of(&self.poise.rings, i), selected, dt);
            let ghost (l0, r0) = (lifts@, rings@);
            let ghost was = live;
            lifts.push(a);
            rings.push(b);
            live = live || p || q;
            proof {
                assert(forall|j: int| 0 <= j < i ==> #[trigger] lifts@[j] == l0[j]);
                assert(forall|j: int| 0 <= j < i ==> #[trigger] rings@[j] == r0[j]);
                assert(lifts@[i as int] == a && rings@[i as int] == b);
                if was {
                    let j = choose|j: int|
                        0 <= j < i && (moves(#[trigger] l0[j], first.over(j)) || moves(
                            r0[j],
                            first.chosen(j),
                        ));
                    assert(lifts@[j] == l0[j] && rings@[j] == r0[j]);
                }
            }
            i = i + 1;
        }
        let target: i64 = goal_of(self.pressed.is_some());
        let mut press = self.poise.press;
        proof {
            law_spring_poised(press, self.pressed is Some, dt as int);
        }
        press.to(target, dt);
        let busy = !press.settled(target);
        self.poise = Poise { lifts, rings, press, last: Some(now) };
        proof {
            if live {
                let j = choose|j: int|
                    0 <= j < n && (moves(#[trigger] lifts@[j], first.over(j)) || moves(
                        rings@[j],
                        first.chosen(j),
                    ));
                assert(self.stirs(j));
            } else {
                assert forall|j: int| 0 <= j < n implies !#[trigger] self.stirs(j) by {
                    assert(!moves(lifts@[j], first.over(j)));
                }
            }
        }
        live || busy
    }

    /// How far card `index` is lifted, its ring is shown and it is
    /// pressed in, in parts.
    pub fn poses(&self, index: usize) -> (r: (i64, i64, i64))
        ensures
            r.0 == amount(spring_at(self.poise.lifts@, index as int)),
            r.1 == amount(spring_at(self.poise.rings@, index as int)),
            r.2 == (if self.pressed == Some(index) {
                self.poise.press.value
            } else {
                0
            }),
    {
        let (hover, sel): (i64, i64) = (
            match spring_of(&self.poise.lifts, index) {
                Some(s) => s.value,
                None => 0,
            },
            match spring_of(&self.poise.rings, index) {
                Some(s) => s.value,
                None => 0,
            },
        );
        let squish: i64 = match self.pressed {
            Some(p) => if p == index {
                self.poise.press.value
            } else {
                0
            },
            None => 0,
        };
        (hover, sel, squish)
    }
}

/// A window that nothing is done to stays still: with no pointer over a
/// card, nothing selected, nothing pressed and no springs yet, none moves
/// after a frame.
pub proof fn law_still_library(lib: Library, next: Library, now: u64)
    requires
        lib.advances(next, now),
        lib.hovered is None && lib.pressed is None,
        lib.selected@.len() == 0,
        lib.poise.press == (Spring { value: 0, velocity: 0 }),
        forall|i: int|
            0 <= i < lib.listing.entries@.len() ==> (#[trigger] spring_at(
                lib.poise.lifts@,
                i,
            )) is None && spring_at(lib.poise.rings@, i) is None,
    ensures
        forall|i: int| 0 <= i < lib.listing.entries@.len() ==> !#[trigger] next.stirs(i),
        next.poise.press.resting(0),
{
    crate::motion::law_spring_rests(0, since(lib.poise.last, now));
}

/// A card rises under the pointer and sinks back else; its ring grows while
/// it is selected and goes back else. The pointer is over the card that it
/// hovers, and over no other.
pub proof fn law_poise(lib: Library, s: Spring, i: usize, j: usize, dt: int)
    ensures
        lifted(Some(s), true, dt) == Some(s.stepped(WAY as int, dt)),
        lifted(Some(s), false, dt) == Some(s.stepped(0, dt)),
        lifted(None, false, dt) is None && ringed(None, false, dt) is None,
        lifted(None, true, dt) == lifted(Some(Spring { value: 0, velocity: 0 }), true, dt),
        ringed(Some(s), true, dt) == Some(s.stepped(WAY as int, dt)),
        s.value != 0 ==> ringed(Some(s), false, dt) == Some(s.stepped(0, dt)),
        ringed(None, true, dt) == ringed(Some(Spring { value: 0, velocity: 0 }), true, dt),
        lib.hovered == Some(i) ==> lib.over(j as int) == (i == j),
        lib.hovered is None ==> !lib.over(j as int),
        amount(Some(s)) == s.value && amount(None) == 0,
{
}

} // verus!
