//! The editor in its window: the pointer pans the view or works on the
//! image.

use vstd::prelude::*;
use crate::action::top_step;
use crate::editor::{Editor, Plan};
use crate::geom::{Point, PX};
use crate::raster::Ink;
use crate::view::{fit_of, law_point_shown, middle2, pixel_of, placed, window_wf, Pane, ZOOM};

verus! {

pub struct Desk {
    pub editor: Editor,
    pub view: Pane,
}

/// The point of the image that the point `p` of the window shows.
pub open spec fn image_point(v: Pane, p: Point, dims: (u32, u32), size: (i64, i64)) -> Point {
    let fit = fit_of(dims, size);
    Point {
        x: (PX * pixel_of(
            p.x as int,
            size.0 as int,
            v.pan.x as int,
            dims.0 as int,
            fit,
            v.zoom as int,
        )) as i64,
        y: (PX * pixel_of(
            p.y as int,
            size.1 as int,
            v.pan.y as int,
            dims.1 as int,
            fit,
            v.zoom as int,
        )) as i64,
    }
}

impl Desk {
    /// The editor knows of a pan while the view follows one.
    pub open spec fn wf(self) -> bool {
        &&& self.editor.wf()
        &&& self.view.wf()
        &&& self.editor.panning == (self.view.drag is Some)
        &&& self.editor.base_dims.0 > 0
        &&& self.editor.base_dims.1 > 0
    }

    /// This desk with the pan at `p`.
    pub open spec fn panned(self, p: Point) -> Desk {
        Desk {
            editor: Editor { panning: true, ..self.editor },
            view: Pane { drag: Some(p), ..self.view },
        }
    }

    /// This desk with no pan.
    pub open spec fn let_go(self) -> Desk {
        Desk {
            editor: Editor { panning: false, ..self.editor },
            view: Pane { drag: None, ..self.view },
        }
    }

    /// The middle button went down: pan.
    pub fn middle_down(&mut self, p: Point)
        requires
            old(self).wf(),
            placed(p),
        ensures
            final(self).wf(),
            *final(self) == old(self).panned(p),
    {
        self.view.start_pan(p);
        self.editor.panning = true;
    }

    /// The left button went down: pan while space is held, else press on
    /// the image.
    pub fn left_down(&mut self, p: Point, size: (i64, i64), ink: &Ink)
        requires
            old(self).wf(),
            placed(p),
            window_wf(size),
            old(self).editor.room(1),
            ink@.wf(),
            top_step(old(self).editor.list(), old(self).editor.actions@.len() as int) < u32::MAX,
        ensures
            final(self).wf(),
            old(self).editor.space_pan ==> *final(self) == old(self).panned(p),
            !old(self).editor.space_pan ==> final(self).view == old(self).view
                && old(self).editor.presses(
                final(self).editor,
                image_point(old(self).view, p, old(self).editor.base_dims, size),
                ink@,
            ),
    {
        if self.editor.space_pan {
            self.middle_down(p);
        } else {
            let q = self.view.to_image(p, self.editor.base_dims, size);
            self.editor.press(q, ink);
        }
    }

    /// The pointer moved: the view follows it in a pan, and what is in
    /// hand on the image else.
    pub fn moved(&mut self, p: Point, size: (i64, i64))
        requires
            old(self).wf(),
            placed(p),
            window_wf(size),
            if old(self).editor.panning {
                old(self).view.can_follow(p)
            } else {
                old(self).editor.can_drag(
                    image_point(old(self).view, p, old(self).editor.base_dims, size),
                )
            },
        ensures
            final(self).wf(),
            old(self).editor.panning ==> final(self).editor == old(self).editor
                && final(self).view == old(self).view.followed(p),
            !old(self).editor.panning ==> final(self).view == old(self).view
                && old(self).editor.drags(
                final(self).editor,
                image_point(old(self).view, p, old(self).editor.base_dims, size),
            ),
    {
        if !self.view.pan_to(p) {
            let q = self.view.to_image(p, self.editor.base_dims, size);
            self.editor.drag(q);
        }
    }

    /// The middle button went up.
    pub fn middle_up(&mut self)
        requires
            old(self).wf(),
        ensures
            final(self).wf(),
            *final(self) == old(self).let_go(),
    {
        self.view.drag = None;
        self.editor.panning = false;
    }

    /// The left button went up: a pan ends with it, and with nothing else.
    /// Else a move becomes an edit, and what to repaint for it comes back;
    /// what was being drawn is then to be committed.
    pub fn left_up(&mut self) -> (r: (bool, Option<Plan>))
        requires
            old(self).wf(),
        ensures
            final(self).wf(),
            r.0 == old(self).editor.panning,
            r.0 ==> r.1 is None && *final(self) == old(self).let_go(),
            !r.0 ==> final(self).view == old(self).view && old(self).editor.releases(
                final(self).editor,
                r.1,
            ),
    {
        if self.view.end_pan() {
            self.editor.panning = false;
            (true, None)
        } else {
            (false, self.editor.release_move())
        }
    }
}

/// Panning touches nothing but the view: whatever the image shows, and
/// whatever is in hand on it, is there again when the pan ends.
pub proof fn law_pan_keeps_editor(d: Desk, p: Point, q: Point)
    requires
        d.wf(),
        !d.editor.panning,
        placed(p),
        placed(q),
    ensures
        d.panned(p).wf(),
        d.panned(p).let_go().editor == d.editor,
        ({
            let moved = Desk {
                view: d.panned(p).view.followed(q),
                ..d.panned(p)
            };
            &&& moved.let_go().editor == d.editor
            &&& moved.let_go().view.zoom == d.view.zoom
            &&& moved.let_go().view.drag is None
        }),
{
}

/// The pixel under the pointer is found side by side: the one that is
/// shown that far right of the middle, and that far below it.
pub proof fn law_image_point(
    v: Pane,
    p: Point,
    q: Point,
    dims: (u32, u32),
    size: (i64, i64),
    kx: int,
    ky: int,
)
    requires
        v.zoom > 0,
        0 <= kx <= dims.0 && 0 <= ky <= dims.1,
        fit_of(dims, size).0 > 0 && fit_of(dims, size).1 > 0,
    ensures
        (2 * p.x - middle2(size.0 as int) - 2 * v.pan.x) * fit_of(dims, size).1 * ZOOM == (2 * kx
            - dims.0) * (fit_of(dims, size).0 * v.zoom) ==> image_point(v, p, dims, size).x == 10_000
            * kx,
        (2 * p.y - middle2(size.1 as int) - 2 * v.pan.y) * fit_of(dims, size).1 * ZOOM == (2 * ky
            - dims.1) * (fit_of(dims, size).0 * v.zoom) ==> image_point(v, p, dims, size).y == 10_000
            * ky,
        p.x == q.x ==> image_point(v, p, dims, size).x == image_point(v, q, dims, size).x,
        p.y == q.y ==> image_point(v, p, dims, size).y == image_point(v, q, dims, size).y,
{
    let fit = fit_of(dims, size);
    if (2 * p.x - middle2(size.0 as int) - 2 * v.pan.x) * fit.1 * ZOOM == (2 * kx - dims.0) * (fit.0
        * v.zoom) {
        law_point_shown(
            p.x as int,
            size.0 as int,
            v.pan.x as int,
            dims.0 as int,
            fit,
            v.zoom as int,
            kx,
        );
    }
    if (2 * p.y - middle2(size.1 as int) - 2 * v.pan.y) * fit.1 * ZOOM == (2 * ky - dims.1) * (fit.0
        * v.zoom) {
        law_point_shown(
            p.y as int,
            size.1 as int,
            v.pan.y as int,
            dims.1 as int,
            fit,
            v.zoom as int,
            ky,
        );
    }
}

} // verus!
