//! The captures the library shows, their labels, and when the store is
//! read again.

use vstd::prelude::*;
use crate::grid::CARD_W;
use crate::paths::{law_portable, platform, portable, stem_of, stem_on, Platform};
use crate::text::{
    chars,
    collect,
    decimal,
    lemma_texts_push,
    push_decimal,
    same,
    texts,
};

verus! {

/// The label row under a thumbnail: its inset and the space between the
/// name and the dimensions.
pub const LABEL_PAD: i64 = 20_000;

pub const LABEL_GAP: i64 = 60_000;

/// A capture of the store.
pub struct CaptureEntry {
    pub path: String,
    pub thumb: String,
    pub width: u32,
    pub height: u32,
    pub created_ms: i64,
}

/// Characters that fit on a label row; `advance` is the width of one.
pub open spec fn row_cols(advance: int) -> int {
    (CARD_W - 2 * LABEL_PAD - LABEL_GAP) / advance
}

/// Characters of a name that fit beside dimensions of this length.
pub open spec fn cols_beside(dims: int, advance: int) -> int {
    let left = row_cols(advance) - dims;
    if left < 1 {
        1
    } else {
        left
    }
}

/// Characters of a name that fit beside `dims` on a card's label row.
pub fn name_cols(dims: &str, advance: i64) -> (r: usize)
    requires
        advance > 0,
    ensures
        r == cols_beside(dims@.len() as int, advance as int),
{
    let row: usize = ((CARD_W - 2 * LABEL_PAD - LABEL_GAP) / advance) as usize;
    let n: usize = dims.unicode_len();
    if row > n {
        row - n
    } else {
        1
    }
}

/// A name in at most `cols` characters: one that is longer keeps its head
/// and its tail round an ellipsis.
pub open spec fn fitted(name: Seq<char>, cols: int) -> Seq<char> {
    if name.len() <= cols {
        name
    } else {
        let keep = if cols > 0 {
            cols - 1
        } else {
            0
        };
        let head = (keep + 1) / 2;
        name.take(head) + seq!['\u{2026}'] + name.skip(name.len() - (keep - head))
    }
}

/// `name` in at most `cols` characters.
pub fn fit_name(name: &str, cols: usize) -> (r: String)
    ensures
        r@ == fitted(name@, cols as int),
{
    let v = chars(name);
    let n: usize = v.len();
    if n <= cols {
        return name.to_owned();
    }
    let keep: usize = if cols > 0 {
        cols - 1
    } else {
        0
    };
    let head: usize = keep / 2 + keep % 2;
    let mut out: String = collect(&v, 0, head);
    out.push('\u{2026}');
    out.append(collect(&v, n - (keep - head), n).as_str());
    proof {
        assert(v@.subrange(0, head as int) =~= name@.take(head as int));
        assert(v@.subrange(n - (keep - head), n as int) =~= name@.skip(n - (keep - head)));
        assert(out@ =~= fitted(name@, cols as int));
    }
    out
}

/// A fitted name has no more characters than it may, but for the ellipsis
/// alone, and one that fits is left as it is.
pub proof fn law_fitted(name: Seq<char>, cols: int)
    requires
        0 <= cols,
    ensures
        fitted(name, cols).len() <= cols || fitted(name, cols).len() == 1,
        name.len() <= cols ==> fitted(name, cols) == name,
        name.len() > cols && cols >= 2 ==> fitted(name, cols)[0] == name[0],
        name.len() > cols && cols >= 3 ==> fitted(name, cols).last() == name.last(),
{
}

/// Names that differ only at the end stay apart.
pub proof fn law_names_stay_apart(a: Seq<char>, b: Seq<char>, cols: int)
    requires
        a.len() == b.len(),
        a.len() > 0,
        a.last() != b.last(),
        cols >= 3,
    ensures
        fitted(a, cols) != fitted(b, cols),
{
    law_fitted(a, cols);
    law_fitted(b, cols);
}

/// The dimensions of a capture.
pub open spec fn dims_of(w: u32, h: u32) -> Seq<char> {
    decimal(w as nat) + "\u{d7}"@ + decimal(h as nat)
}

/// A card's two labels: the name, fitted beside the dimensions, and the
/// dimensions.
pub open spec fn labels_of(e: CaptureEntry, advance: int, on: Platform) -> (Seq<char>, Seq<char>) {
    let dims = dims_of(e.width, e.height);
    (fitted(stem_of(e.path@, on), cols_beside(dims.len() as int, advance)), dims)
}

/// A card's two labels, on a platform.
pub fn name_on(e: &CaptureEntry, advance: i64, on: Platform) -> (r: (String, String))
    requires
        advance > 0,
    ensures
        (r.0@, r.1@) == labels_of(*e, advance as int, on),
{
    let mut dims: String = String::new();
    push_decimal(&mut dims, e.width as u64);
    dims.append("\u{d7}");
    push_decimal(&mut dims, e.height as u64);
    assert(dims@ =~= dims_of(e.width, e.height));
    let stem = stem_on(e.path.as_str(), on);
    let cols: usize = name_cols(dims.as_str(), advance);
    (fit_name(stem.as_str(), cols), dims)
}

/// A card's two labels, on the platform that the program was built for.
pub fn entry_name(e: &CaptureEntry, advance: i64) -> (r: (String, String))
    requires
        advance > 0,
    ensures
        exists|on: Platform| (r.0@, r.1@) == #[trigger] labels_of(*e, advance as int, on),
        portable(e.path@) ==> (r.0@, r.1@) == labels_of(*e, advance as int, Platform::Unix),
{
    let on = platform();
    let r = name_on(e, advance, on);
    proof {
        assert((r.0@, r.1@) == labels_of(*e, advance as int, on));
        if portable(e.path@) {
            law_portable(e.path@, on);
        }
    }
    r
}

/// A card's labels fit on their row, where the row has room for the
/// dimensions and one more character.
pub proof fn law_labels_fit(e: CaptureEntry, advance: int, on: Platform)
    requires
        advance > 0,
        dims_of(e.width, e.height).len() < row_cols(advance),
    ensures
        labels_of(e, advance, on).0.len() + labels_of(e, advance, on).1.len() <= row_cols(advance),
        (labels_of(e, advance, on).0.len() + labels_of(e, advance, on).1.len()) * advance + LABEL_GAP + 2
            * LABEL_PAD <= CARD_W,
{
    let dims = dims_of(e.width, e.height);
    law_fitted(stem_of(e.path@, on), cols_beside(dims.len() as int, advance));
    let n = labels_of(e, advance, on).0.len() + labels_of(e, advance, on).1.len();
    assert(n * advance <= CARD_W - 2 * LABEL_PAD - LABEL_GAP) by (nonlinear_arith)
        requires
            0 <= n <= (CARD_W - 2 * LABEL_PAD - LABEL_GAP) / advance,
            advance > 0,
    ;
}

/// The labels of a list of captures.
pub open spec fn all_labels(v: Seq<CaptureEntry>, advance: int, on: Platform) -> Seq<
    (Seq<char>, Seq<char>),
> {
    Seq::new(v.len(), |i: int| labels_of(v[i], advance, on))
}

/// Pairs of texts.
pub open spec fn pairs(v: Seq<(String, String)>) -> Seq<(Seq<char>, Seq<char>)> {
    Seq::new(v.len(), |i: int| (v[i].0@, v[i].1@))
}

/// How many captures there are, in words.
pub open spec fn count_of(n: nat) -> Seq<char> {
    if n == 1 {
        "1 capture"@
    } else {
        decimal(n) + " captures"@
    }
}

fn count_label(n: usize) -> (r: String)
    ensures
        r@ == count_of(n as nat),
{
    if n == 1 {
        "1 capture".to_owned()
    } else {
        let mut r: String = String::new();
        push_decimal(&mut r, n as u64);
        r.append(" captures");
        assert(r@ =~= count_of(n as nat));
        r
    }
}

/// The shown captures, newest first, with what is told of them.
pub struct Listing {
    pub entries: Vec<CaptureEntry>,
    /// Each capture's labels.
    pub names: Vec<(String, String)>,
    pub count: String,
    /// When the store first answered.
    pub listed: Option<u64>,
    /// How the captures' paths are written.
    pub on: Platform,
}

/// Are they the same capture, unchanged?
pub open spec fn same_entry(a: CaptureEntry, b: CaptureEntry) -> bool {
    a.path@ == b.path@ && a.created_ms == b.created_ms
}

/// Do two lists hold the same captures, unchanged?
pub open spec fn alike(a: Seq<CaptureEntry>, b: Seq<CaptureEntry>) -> bool {
    a.len() == b.len() && forall|i: int| 0 <= i < a.len() ==> #[trigger] same_entry(a[i], b[i])
}

/// When the capture at `path` was made, among the first `n`: the last one
/// of that path counts.
pub open spec fn made(v: Seq<CaptureEntry>, path: Seq<char>, n: int) -> Option<i64>
    decreases n,
{
    if n <= 0 || n > v.len() {
        None
    } else if v[n - 1].path@ == path {
        Some(v[n - 1].created_ms)
    } else {
        made(v, path, n - 1)
    }
}

/// Did this capture change under its path?
pub open spec fn is_stale(shown: Seq<CaptureEntry>, e: CaptureEntry) -> bool {
    made(shown, e.path@, shown.len() as int) matches Some(t) && t != e.created_ms
}

/// The paths of the first `n` captures that changed in place.
pub open spec fn stale_of(shown: Seq<CaptureEntry>, fresh: Seq<CaptureEntry>, n: int) -> Seq<
    Seq<char>,
>
    decreases n,
{
    if n <= 0 || n > fresh.len() {
        Seq::empty()
    } else if is_stale(shown, fresh[n - 1]) {
        stale_of(shown, fresh, n - 1).push(fresh[n - 1].path@)
    } else {
        stale_of(shown, fresh, n - 1)
    }
}

/// Is this path among the captures?
pub open spec fn lists(v: Seq<CaptureEntry>, path: Seq<char>) -> bool {
    exists|i: int| 0 <= i < v.len() && #[trigger] v[i].path@ == path
}

/// The first `n` selected paths that are still listed.
pub open spec fn kept_of(selected: Seq<Seq<char>>, fresh: Seq<CaptureEntry>, n: int) -> Seq<
    Seq<char>,
>
    decreases n,
{
    if n <= 0 || n > selected.len() {
        Seq::empty()
    } else if lists(fresh, selected[n - 1]) {
        kept_of(selected, fresh, n - 1).push(selected[n - 1])
    } else {
        kept_of(selected, fresh, n - 1)
    }
}

fn same_lists(a: &Vec<CaptureEntry>, b: &Vec<CaptureEntry>) -> (r: bool)
    ensures
        r == alike(a@, b@),
{
    if a.len() != b.len() {
        return false;
    }
    let mut i: usize = 0;
    while i < a.len()
        invariant
            i <= a@.len(),
            a@.len() == b@.len(),
            forall|j: int| 0 <= j < i ==> #[trigger] same_entry(a@[j], b@[j]),
        decreases a@.len() - i,
    {
        if !same(a[i].path.as_str(), b[i].path.as_str()) || a[i].created_ms != b[i].created_ms {
            assert(!same_entry(a@[i as int], b@[i as int]));
            return false;
        }
        assert(same_entry(a@[i as int], b@[i as int]));
        i = i + 1;
    }
    true
}

fn made_at(v: &Vec<CaptureEntry>, path: &str) -> (r: Option<i64>)
    ensures
        r == made(v@, path@, v@.len() as int),
{
    let mut i: usize = v.len();
    while i > 0
        invariant
            i <= v@.len(),
            made(v@, path@, v@.len() as int) == made(v@, path@, i as int),
        decreases i,
    {
        i = i - 1;
        if same(v[i].path.as_str(), path) {
            return Some(v[i].created_ms);
        }
    }
    None
}

/// Is this path among the captures?
pub fn has_path(v: &Vec<CaptureEntry>, path: &str) -> (r: bool)
    ensures
        r == lists(v@, path@),
{
    let mut i: usize = 0;
    while i < v.len()
        invariant
            i <= v@.len(),
            forall|j: int| 0 <= j < i ==> #[trigger] v@[j].path@ != path@,
        decreases v@.len() - i,
    {
        if same(v[i].path.as_str(), path) {
            assert(v@[i as int].path@ == path@);
            return true;
        }
        i = i + 1;
    }
    false
}

fn stale_paths(shown: &Vec<CaptureEntry>, fresh: &Vec<CaptureEntry>) -> (r: Vec<String>)
    ensures
        texts(r@) == stale_of(shown@, fresh@, fresh@.len() as int),
{
    let mut r: Vec<String> = Vec::new();
    let mut i: usize = 0;
    assert(texts(r@) =~= Seq::empty());
    while i < fresh.len()
        invariant
            i <= fresh@.len(),
            texts(r@) == stale_of(shown@, fresh@, i as int),
        decreases fresh@.len() - i,
    {
        let e = &fresh[i];
        let stale = match made_at(shown, e.path.as_str()) {
            Some(t) => t != e.created_ms,
            None => false,
        };
        if stale {
            let p = e.path.as_str().to_owned();
            proof {
                lemma_texts_push(r@, p);
            }
            r.push(p);
        }
        i = i + 1;
    }
    r
}

fn kept_paths(selected: &Vec<String>, fresh: &Vec<CaptureEntry>) -> (r: Vec<String>)
    ensures
        texts(r@) == kept_of(texts(selected@), fresh@, selected@.len() as int),
{
    let mut r: Vec<String> = Vec::new();
    let mut i: usize = 0;
    assert(texts(r@) =~= Seq::empty());
    while i < selected.len()
        invariant
            i <= selected@.len(),
            texts(r@) == kept_of(texts(selected@), fresh@, i as int),
        decreases selected@.len() - i,
    {
        assert(texts(selected@)[i as int] == selected@[i as int]@);
        if has_path(fresh, selected[i].as_str()) {
            let p = selected[i].as_str().to_owned();
            proof {
                lemma_texts_push(r@, p);
            }
            r.push(p);
        }
        i = i + 1;
    }
    r
}

fn label_all(v: &Vec<CaptureEntry>, advance: i64, on: Platform) -> (r: Vec<(String, String)>)
    requires
        advance > 0,
    ensures
        pairs(r@) == all_labels(v@, advance as int, on),
{
    let mut r: Vec<(String, String)> = Vec::new();
    let mut i: usize = 0;
    assert(pairs(r@) =~= all_labels(v@, advance as int, on).take(0));
    while i < v.len()
        invariant
            advance > 0,
            i <= v@.len(),
            pairs(r@) == all_labels(v@, advance as int, on).take(i as int),
        decreases v@.len() - i,
    {
        let l = name_on(&v[i], advance, on);
        let ghost before = r@;
        r.push(l);
        proof {
            assert(pairs(r@) =~= pairs(before).push((l.0@, l.1@)));
            assert(all_labels(v@, advance as int, on).take(i + 1) =~= all_labels(
                v@,
                advance as int,
                on,
            ).take(i as int).push(labels_of(v@[i as int], advance as int, on)));
        }
        i = i + 1;
    }
    assert(all_labels(v@, advance as int, on).take(i as int) =~= all_labels(v@, advance as int, on));
    r
}

impl Listing {
    /// What is told of the captures is of the captures shown.
    pub open spec fn wf(self, advance: int) -> bool {
        match self.listed {
            Some(_) => pairs(self.names@) == all_labels(self.entries@, advance, self.on) && self.count@
                == count_of(self.entries@.len()),
            None => self.entries@.len() == 0 && self.names@.len() == 0 && self.count@.len() == 0,
        }
    }

    pub fn new() -> (r: Listing)
        ensures
            r.listed is None && r.entries@.len() == 0 && r.names@.len() == 0,
            r.count@.len() == 0,
            forall|advance: int| r.wf(advance),
    {
        Listing {
            entries: Vec::new(),
            names: Vec::new(),
            count: String::new(),
            listed: None,
            on: platform(),
        }
    }

    /// Show `fresh`, and drop from `selected` each path that it does not
    /// list. The paths whose capture changed in place come back; None
    /// where `fresh` is what is shown.
    pub fn set(
        &mut self,
        fresh: Vec<CaptureEntry>,
        selected: &mut Vec<String>,
        now: u64,
        advance: i64,
    ) -> (stale: Option<Vec<String>>)
        requires
            advance > 0,
            old(self).wf(advance as int),
        ensures
            final(self).wf(advance as int),
            if old(self).listed is Some && alike(fresh@, old(self).entries@) {
                stale is None && *final(self) == *old(self) && final(selected)@ == old(selected)@
            } else {
                &&& stale matches Some(s) && texts(s@) == stale_of(
                    old(self).entries@,
                    fresh@,
                    fresh@.len() as int,
                )
                &&& final(self).entries == fresh
                &&& final(self).on == old(self).on
                &&& final(self).listed == (match old(self).listed {
                    Some(t) => Some(t),
                    None => Some(now),
                })
                &&& texts(final(selected)@) == kept_of(
                    texts(old(selected)@),
                    fresh@,
                    old(selected)@.len() as int,
                )
            },
    {
        if self.listed.is_some() && same_lists(&fresh, &self.entries) {
            return None;
        }
        let stale = stale_paths(&self.entries, &fresh);
        let kept = kept_paths(selected, &fresh);
        *selected = kept;
        self.names = label_all(&fresh, advance, self.on);
        self.count = count_label(fresh.len());
        self.entries = fresh;
        if self.listed.is_none() {
            self.listed = Some(now);
        }
        Some(stale)
    }
}

/// No selected path outlives its capture: what is kept is listed, in the
/// order it was selected.
pub proof fn law_selection_listed(selected: Seq<Seq<char>>, fresh: Seq<CaptureEntry>, n: int)
    requires
        0 <= n <= selected.len(),
    ensures
        forall|i: int|
            0 <= i < kept_of(selected, fresh, n).len() ==> lists(
                fresh,
                #[trigger] kept_of(selected, fresh, n)[i],
            ) && selected.contains(kept_of(selected, fresh, n)[i]),
    decreases n,
{
    if n > 0 {
        law_selection_listed(selected, fresh, n - 1);
        let k = kept_of(selected, fresh, n);
        let b = kept_of(selected, fresh, n - 1);
        assert forall|i: int| 0 <= i < k.len() implies lists(fresh, #[trigger] k[i])
            && selected.contains(k[i]) by {
            if i < b.len() {
                assert(k[i] == b[i]);
            } else {
                assert(selected[n - 1] == k[i]);
            }
        }
    }
}

/// When the store is read again: one pass at a time, and a write during a
/// pass is followed by one more.
#[derive(Clone, Copy, Debug, PartialEq, Eq, Structural)]
pub struct ListPass {
    pub in_flight: bool,
    pub again: bool,
}

impl ListPass {
    /// The state after a pass was asked for.
    pub open spec fn begun(self, after_write: bool) -> ListPass {
        ListPass { in_flight: true, again: self.again || (self.in_flight && after_write) }
    }

    pub fn new() -> (r: ListPass)
        ensures
            !r.in_flight && !r.again,
    {
        ListPass { in_flight: false, again: false }
    }

    /// Ask for a pass; does one start now? During another one a write
    /// queues one pass after it, and anything else is dropped.
    pub fn begin(&mut self, after_write: bool) -> (starts: bool)
        ensures
            starts == !old(self).in_flight,
            *final(self) == old(self).begun(after_write),
    {
        if self.in_flight {
            self.again = self.again || after_write;
            return false;
        }
        self.in_flight = true;
        true
    }

    /// The pass ended; is another one due?
    pub fn land(&mut self) -> (due: bool)
        ensures
            due == old(self).again,
            *final(self) == (ListPass { in_flight: false, again: false }),
    {
        self.in_flight = false;
        let due = self.again;
        self.again = false;
        due
    }
}

/// No write is missed: one that comes during a pass, whatever is asked for
/// after it, makes another pass due.
pub proof fn law_write_followed(p: ListPass, asked: bool)
    requires
        p.in_flight,
    ensures
        p.begun(true).again,
        p.begun(true).begun(asked).again,
{
}

/// A capture's size is its width and then its height.
pub proof fn law_dims(w: u32, h: u32)
    ensures
        ({
            let (a, b) = (decimal(w as nat), decimal(h as nat));
            let d = dims_of(w, h);
            &&& d.len() == a.len() + 1 + b.len()
            &&& d.take(a.len() as int) == a && d.skip(a.len() as int + 1) == b
            &&& d[a.len() as int] == '\u{d7}'
        }),
{
    reveal_strlit("\u{d7}");
    let (a, b) = (decimal(w as nat), decimal(h as nat));
    let d = dims_of(w, h);
    assert(d.take(a.len() as int) =~= a);
    assert(d.skip(a.len() as int + 1) =~= b);
}

/// What was selected and is still listed stays selected, in its order.
pub proof fn law_selection_kept(selected: Seq<Seq<char>>, fresh: Seq<CaptureEntry>, n: int, i: int)
    requires
        0 <= i < n <= selected.len(),
        lists(fresh, selected[i]),
    ensures
        kept_of(selected, fresh, n).contains(selected[i]),
        i == n - 1 ==> kept_of(selected, fresh, n).last() == selected[i],
        kept_of(selected, fresh, n).len() <= n,
    decreases n,
{
    let k = kept_of(selected, fresh, n);
    let r = kept_of(selected, fresh, n - 1);
    lemma_kept_len(selected, fresh, n);
    if i < n - 1 {
        law_selection_kept(selected, fresh, n - 1, i);
        let j = choose|j: int| 0 <= j < r.len() && r[j] == selected[i];
        assert(k[j] == selected[i]);
    } else {
        assert(k[r.len() as int] == selected[i]);
    }
}

proof fn lemma_kept_len(selected: Seq<Seq<char>>, fresh: Seq<CaptureEntry>, n: int)
    requires
        0 <= n,
    ensures
        kept_of(selected, fresh, n).len() <= n,
    decreases n,
{
    if n > 0 {
        lemma_kept_len(selected, fresh, n - 1);
    }
}

/// A thumbnail is made anew where its capture was listed with another time
/// before, and not for a capture that is new.
pub proof fn law_stale(shown: Seq<CaptureEntry>, e: CaptureEntry, i: int)
    ensures
        is_stale(shown, e) ==> lists(shown, e.path@),
        0 <= i < shown.len() && shown[i].path@ == e.path@ && (forall|j: int|
            0 <= j < shown.len() && j != i ==> (#[trigger] shown[j]).path@ != e.path@) ==> is_stale(
            shown,
            e,
        ) == (shown[i].created_ms != e.created_ms),
{
    lemma_made(shown, e.path@, shown.len() as int, i);
}

proof fn lemma_made(v: Seq<CaptureEntry>, path: Seq<char>, n: int, i: int)
    requires
        0 <= n <= v.len(),
    ensures
        made(v, path, n) is Some ==> lists(v, path),
        0 <= i < n && v[i].path@ == path && (forall|j: int|
            0 <= j < v.len() && j != i ==> (#[trigger] v[j]).path@ != path) ==> made(v, path, n)
            == Some(v[i].created_ms),
    decreases n,
{
    if n > 0 {
        if v[n - 1].path@ == path {
            assert(v[n - 1].path@ == path);
        } else {
            lemma_made(v, path, n - 1, i);
        }
    }
}

/// Only the very same captures, in the same order, leave the list as it is.
pub proof fn law_alike(a: Seq<CaptureEntry>, b: Seq<CaptureEntry>, i: int)
    requires
        alike(a, b),
        0 <= i < a.len(),
    ensures
        a.len() == b.len() && a[i].path@ == b[i].path@ && a[i].created_ms == b[i].created_ms,
{
    assert(same_entry(a[i], b[i]));
}

/// One capture is told in the singular, and no or more in the plural.
pub proof fn law_count(n: nat)
    ensures
        n == 1 <==> count_of(n).last() != 's',
        n != 1 ==> count_of(n).take(decimal(n).len() as int) == decimal(n) && count_of(n).skip(
            decimal(n).len() as int,
        ) == " captures"@,
        n == 1 ==> count_of(n) == "1 capture"@,
{
    reveal_strlit("1 capture");
    reveal_strlit(" captures");
    assert("1 capture"@.len() == 9 && " captures"@.len() == 9);
    assert("1 capture"@.last() == 'e' && " captures"@.last() == 's');
    if n != 1 {
        assert(count_of(n).take(decimal(n).len() as int) =~= decimal(n));
        assert(count_of(n).skip(decimal(n).len() as int) =~= " captures"@);
    }
}

/// The time a capture was made is that of the last entry with its path.
pub proof fn law_made(v: Seq<CaptureEntry>, path: Seq<char>, n: int, i: int)
    requires
        0 <= i < n <= v.len(),
    ensures
        v[i].path@ == path && (forall|j: int| i < j < n ==> (#[trigger] v[j]).path@ != path)
            ==> made(v, path, n) == Some(v[i].created_ms),
        made(v, path, n) is None ==> v[i].path@ != path,
    decreases n,
{
    if i < n - 1 {
        law_made(v, path, n - 1, i);
    }
}

/// A name has the room beside the dimensions, and never less than one
/// letter.
pub proof fn law_cols_beside(dims: int, advance: int)
    ensures
        1 <= cols_beside(dims, advance),
        dims < row_cols(advance) ==> cols_beside(dims, advance) + dims == row_cols(advance),
        dims >= row_cols(advance) ==> cols_beside(dims, advance) == 1,
{
}

} // verus!
