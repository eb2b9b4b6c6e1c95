//! The icons, and the cache of their shapes.

use vstd::prelude::*;

verus! {

/// A glyph of the interface.
#[derive(Clone, Copy, Debug, PartialEq, Eq, Structural)]
pub enum Icon {
    Pen,
    Line,
    Arrow,
    Ellipse,
    Rect,
    Text,
    Highlight,
    Blur,
    Undo,
    Redo,
    Trash,
    ChevronDown,
    Check,
    Copy,
    Close,
    Mic,
    Stroke1,
    Stroke2,
    Stroke3,
    Cursor,
    Crop,
    Viewfinder,
    Grid,
    Gear,
    Folder,
    Pin,
    Pause,
    MicOff,
    Counter,
    Record,
    Play,
    Alert,
}

/// The shapes that are kept.
pub const CACHED: usize = 256;

/// The shapes of icons by their kind and the bits of their size, the
/// oldest first.
pub struct IconCache<T> {
    pub items: Vec<(Icon, u32, T)>,
}

/// Is this the entry of an icon at this size?
pub open spec fn is_at<T>(e: (Icon, u32, T), kind: Icon, size: u32) -> bool {
    e.0 == kind && e.1 == size
}

/// The place of an icon at this size, from `i` on.
pub open spec fn found<T>(v: Seq<(Icon, u32, T)>, kind: Icon, size: u32, i: int) -> Option<int>
    decreases v.len() - i,
{
    if i < 0 || i >= v.len() {
        None
    } else if is_at(v[i], kind, size) {
        Some(i)
    } else {
        found(v, kind, size, i + 1)
    }
}

proof fn lemma_found<T>(v: Seq<(Icon, u32, T)>, kind: Icon, size: u32, i: int)
    requires
        0 <= i,
    ensures
        match found(v, kind, size, i) {
            Some(k) => i <= k < v.len() && is_at(v[k], kind, size) && forall|j: int|
                i <= j < k ==> !is_at(#[trigger] v[j], kind, size),
            None => forall|j: int| i <= j < v.len() ==> !is_at(#[trigger] v[j], kind, size),
        },
    decreases v.len() - i,
{
    if i < v.len() && !is_at(v[i], kind, size) {
        lemma_found(v, kind, size, i + 1);
    }
}

impl<T> IconCache<T> {
    /// No icon is there twice at one size, and there are not too many.
    pub open spec fn wf(self) -> bool {
        &&& self.items@.len() <= CACHED
        &&& forall|i: int, j: int|
            #![trigger self.items@[i], self.items@[j]]
            0 <= i < j < self.items@.len() ==> !is_at(
                self.items@[j],
                self.items@[i].0,
                self.items@[i].1,
            )
    }

    /// The shape of an icon at this size.
    pub open spec fn shape(self, kind: Icon, size: u32) -> Option<T> {
        match found(self.items@, kind, size, 0) {
            Some(k) => Some(self.items@[k].2),
            None => None,
        }
    }

    pub fn new() -> (r: IconCache<T>)
        ensures
            r.wf(),
            r.items@.len() == 0,
    {
        IconCache { items: Vec::new() }
    }

    fn place(&self, kind: Icon, size: u32) -> (r: Option<usize>)
        ensures
            match found(self.items@, kind, size, 0) {
                Some(k) => r matches Some(i) && i == k && k < self.items@.len(),
                None => r is None,
            },
    {
        let mut i: usize = 0;
        while i < self.items.len()
            invariant
                i <= self.items@.len(),
                found(self.items@, kind, size, 0) == found(self.items@, kind, size, i as int),
            decreases self.items@.len() - i,
        {
            let e = &self.items[i];
            if e.0 == kind && e.1 == size {
                return Some(i);
            }
            i = i + 1;
        }
        None
    }

    /// The shape of an icon at this size, if it is kept.
    pub fn cached_tris(&self, kind: Icon, size: u32) -> (r: Option<&T>)
        ensures
            match r {
                Some(t) => self.shape(kind, size) == Some(*t),
                None => self.shape(kind, size) is None,
            },
    {
        match self.place(kind, size) {
            Some(i) => Some(&self.items[i].2),
            None => None,
        }
    }

    /// The entries after a shape was kept: in place of its last one, or
    /// as the newest, which may drop the oldest.
    pub open spec fn kept(self, kind: Icon, size: u32, tris: T) -> Seq<(Icon, u32, T)> {
        match found(self.items@, kind, size, 0) {
            Some(k) => self.items@.update(k, (kind, size, tris)),
            None => {
                let v = self.items@.push((kind, size, tris));
                if v.len() > CACHED {
                    v.skip(1)
                } else {
                    v
                }
            },
        }
    }

    /// Keep a shape.
    pub fn store_tris(&mut self, kind: Icon, size: u32, tris: T)
        requires
            old(self).wf(),
        ensures
            final(self).wf(),
            final(self).items@ == old(self).kept(kind, size, tris),
            final(self).shape(kind, size) == Some(tris),
    {
        proof {
            lemma_found(self.items@, kind, size, 0);
        }
        match self.place(kind, size) {
            Some(i) => {
                self.items.set(i, (kind, size, tris));
                proof {
                    lemma_found(self.items@, kind, size, 0);
                    lemma_replaced(old(self).items@, i as int, (kind, size, tris));
                }
            },
            None => {
                self.items.push((kind, size, tris));
                let ghost grown = self.items@;
                proof {
                    assert forall|i: int, j: int|
                        #![trigger grown[i], grown[j]]
                        0 <= i < j < grown.len() implies !is_at(grown[j], grown[i].0, grown[i].1) by {
                        if j == grown.len() - 1 {
                            assert(!is_at(old(self).items@[i], kind, size));
                        } else {
                            assert(old(self).items@[i] == grown[i]);
                            assert(old(self).items@[j] == grown[j]);
                        }
                    }
                }
                if self.items.len() > CACHED {
                    self.items.remove(0);
                    proof {
                        assert(self.items@ =~= grown.skip(1));
                        assert forall|i: int, j: int|
                            #![trigger self.items@[i], self.items@[j]]
                            0 <= i < j < self.items@.len() implies !is_at(
                            self.items@[j],
                            self.items@[i].0,
                            self.items@[i].1,
                        ) by {
                            assert(self.items@[i] == grown[i + 1]);
                            assert(self.items@[j] == grown[j + 1]);
                        }
                    }
                }
                proof {
                    lemma_found(self.items@, kind, size, 0);
                    let last = self.items@.len() - 1;
                    assert(is_at(self.items@[last], kind, size));
                    let k = found(self.items@, kind, size, 0)->0;
                    if k < last {
                        assert(!is_at(self.items@[last], self.items@[k].0, self.items@[k].1));
                    }
                }
            },
        }
    }
}

proof fn lemma_replaced<T>(v: Seq<(Icon, u32, T)>, k: int, e: (Icon, u32, T))
    requires
        0 <= k < v.len(),
        is_at(v[k], e.0, e.1),
        found(v, e.0, e.1, 0) == Some(k),
        forall|i: int, j: int|
            #![trigger v[i], v[j]]
            0 <= i < j < v.len() ==> !is_at(v[j], v[i].0, v[i].1),
    ensures
        found(v.update(k, e), e.0, e.1, 0) == Some(k),
        forall|i: int, j: int|
            #![trigger v.update(k, e)[i], v.update(k, e)[j]]
            0 <= i < j < v.len() ==> !is_at(
                v.update(k, e)[j],
                v.update(k, e)[i].0,
                v.update(k, e)[i].1,
            ),
{
    let u = v.update(k, e);
    lemma_found(v, e.0, e.1, 0);
    lemma_found(u, e.0, e.1, 0);
    assert forall|i: int, j: int|
        #![trigger u[i], u[j]]
        0 <= i < j < v.len() implies !is_at(u[j], u[i].0, u[i].1) by {
        assert(!is_at(v[j], v[i].0, v[i].1));
    }
    let f = found(u, e.0, e.1, 0);
    assert(is_at(u[k], e.0, e.1));
    if f->0 < k {
        assert(is_at(u[f->0], e.0, e.1));
        assert(is_at(v[f->0], e.0, e.1));
    }
}

/// A shape that is kept is found again by its kind and its size, and by
/// no other.
pub proof fn law_shape<T>(c: IconCache<T>, i: int, kind: Icon, size: u32)
    requires
        c.wf(),
        0 <= i < c.items@.len(),
    ensures
        c.shape(c.items@[i].0, c.items@[i].1) == Some(c.items@[i].2),
        (forall|j: int|
            0 <= j < c.items@.len() ==> (#[trigger] c.items@[j]).0 != kind || c.items@[j].1 != size)
            <==> c.shape(kind, size) is None,
{
    lemma_found(c.items@, c.items@[i].0, c.items@[i].1, 0);
    lemma_found(c.items@, kind, size, 0);
    let k = found(c.items@, c.items@[i].0, c.items@[i].1, 0);
    assert(is_at(c.items@[i], c.items@[i].0, c.items@[i].1));
    if k is Some && k->0 < i {
        assert(is_at(c.items@[k->0], c.items@[i].0, c.items@[i].1));
        assert(!is_at(c.items@[i], c.items@[k->0].0, c.items@[k->0].1));
    }
}

} // verus!
