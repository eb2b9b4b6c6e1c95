//! The editor's bars and menus: what they show and what their buttons do.

use vstd::prelude::*;
use crate::action::{Tool, Transform};
use crate::editor::Editor;
use crate::editor_view::{colors, palette, tools};
use crate::raster::Ink;
use crate::text::{decimal, push_decimal, same, texts};

verus! {

/// A row of the side bar; `true` where it is the one in use.
#[derive(Clone, Copy, PartialEq, Eq, Structural, Debug)]
pub enum Side {
    Tool(Tool, bool),
    Rule,
    /// A stroke width stop.
    Stroke(u8, bool),
    Fill(bool),
    /// A colour, by its place among the swatches.
    Swatch(usize, bool),
}

/// The side bar: the tools, the stroke widths, the fill, the colours.
pub open spec fn sidebar_of(e: Editor) -> Seq<Side> {
    seq![
        Side::Tool(Tool::Select, e.tool is Select),
        Side::Tool(Tool::Pen, e.tool is Pen),
        Side::Tool(Tool::Line, e.tool is Line),
        Side::Tool(Tool::Arrow, e.tool is Arrow),
        Side::Tool(Tool::Ellipse, e.tool is Ellipse),
        Side::Tool(Tool::Rect, e.tool is Rect),
        Side::Tool(Tool::Text, e.tool is Text),
        Side::Tool(Tool::Highlight, e.tool is Highlight),
        Side::Tool(Tool::Blur, e.tool is Blur),
        Side::Tool(Tool::Crop, e.tool is Crop),
        Side::Tool(Tool::Counter, e.tool is Counter),
        Side::Rule,
        Side::Stroke(0, e.stroke == 0),
        Side::Stroke(1, e.stroke == 1),
        Side::Stroke(2, e.stroke == 2),
        Side::Fill(e.fill),
        Side::Rule,
    ] + Seq::new(palette().len(), |i: int| Side::Swatch(i as usize, e.color@ == palette()[i]))
}

impl Editor {
    /// The rows of the side bar.
    pub fn sidebar(&self) -> (r: Vec<Side>)
        ensures
            r@ == sidebar_of(*self),
    {
        let mut out: Vec<Side> = Vec::new();
        let ts = tools();
        let mut i: usize = 0;
        while i < ts.len()
            invariant
                i <= ts@.len(),
                out@.len() == i,
                forall|k: int|
                    0 <= k < i ==> #[trigger] out@[k] == Side::Tool(ts@[k], ts@[k] == self.tool),
            decreases ts@.len() - i,
        {
            out.push(Side::Tool(ts[i], ts[i] == self.tool));
            i = i + 1;
        }
        out.push(Side::Rule);
        out.push(Side::Stroke(0, self.stroke == 0));
        out.push(Side::Stroke(1, self.stroke == 1));
        out.push(Side::Stroke(2, self.stroke == 2));
        out.push(Side::Fill(self.fill));
        out.push(Side::Rule);
        let ghost head = out@;
        let cs = colors();
        let mut j: usize = 0;
        while j < cs.len()
            invariant
                j <= cs@.len(),
                texts(cs@) == palette(),
                head.len() == 17,
                out@.len() == 17 + j,
                forall|k: int| 0 <= k < 17 ==> #[trigger] out@[k] == head[k],
                forall|k: int|
                    0 <= k < j ==> #[trigger] out@[17 + k] == Side::Swatch(
                        k as usize,
                        self.color@ == palette()[k],
                    ),
            decreases cs@.len() - j,
        {
            let on: bool = same(self.color.as_str(), cs[j].as_str());
            assert(texts(cs@)[j as int] == cs@[j as int]@);
            out.push(Side::Swatch(j, on));
            j = j + 1;
        }
        proof {
            let want = sidebar_of(*self);
            assert(palette().len() == 11);
            assert forall|k: int| 0 <= k < 28 implies #[trigger] out@[k] == want[k] by {
                if k >= 17 {
                    assert(out@[17 + (k - 17)] == out@[k]);
                } else {
                    assert(out@[k] == head[k]);
                }
            }
            assert(out@ =~= want);
        }
        out
    }

    /// What a press on a row of the side bar makes of the editor, but for
    /// what was typed, which a change of tools keeps.
    pub open spec fn sided(self, s: Side) -> Editor {
        match s {
            Side::Tool(t, _) => Editor { tool: t, text_entry: None, ..self },
            Side::Rule => self,
            Side::Stroke(n, _) => Editor { stroke: n, ..self },
            Side::Fill(_) => Editor { fill: !self.fill, ..self },
            Side::Swatch(_, _) => self,
        }
    }

    /// A row of the side bar was pressed.
    pub fn side_pressed(&mut self, s: Side, ink: &Ink)
        requires
            old(self).wf(),
            old(self).room(1),
            ink@.wf(),
            s matches Side::Stroke(n, _) ==> n < 3,
            s matches Side::Swatch(i, _) ==> i < palette().len(),
        ensures
            final(self).wf(),
            s is Tool ==> {
                &&& old(self).adds(*final(self), old(self).typed(), ink@)
                &&& *final(self) == (Editor {
                    actions: final(self).actions,
                    undos: final(self).undos,
                    redos: final(self).redos,
                    composite: final(self).composite,
                    ..old(self).sided(s)
                })
            },
            s matches Side::Swatch(i, _) ==> {
                &&& final(self).color@ == palette()[i as int]
                &&& *final(self) == (Editor { color: final(self).color, ..*old(self) })
            },
            !(s is Tool) && !(s is Swatch) ==> *final(self) == old(self).sided(s),
    {
        match s {
            Side::Tool(t, _) => self.set_tool(t, ink),
            Side::Rule => {},
            Side::Stroke(n, _) => {
                self.stroke = n;
            },
            Side::Fill(_) => {
                self.fill = !self.fill;
            },
            Side::Swatch(i, _) => {
                let mut cs = colors();
                proof {
                    assert(texts(cs@)[i as int] == cs@[i as int]@);
                    lemma_palette(i as int);
                }
                let c = cs.swap_remove(i);
                self.color = c;
            },
        }
    }

    /// The copy button was pressed: its menu opens, or closes.
    pub fn toggle_copy_menu(&mut self)
        ensures
            *final(self) == (Editor { copy_menu: !old(self).copy_menu, ..*old(self) }),
    {
        self.copy_menu = !self.copy_menu;
    }

    /// The help button was pressed.
    pub fn toggle_help(&mut self)
        ensures
            *final(self) == (Editor { help: !old(self).help, ..*old(self) }),
    {
        self.help = !self.help;
    }

    /// A row of the copy menu was chosen: the menu closes. None: there is
    /// no such row.
    pub fn copy_variant(&mut self, variant: &str) -> (r: Option<Copying>)
        ensures
            *final(self) == (Editor { copy_menu: false, ..*old(self) }),
            r == copying_of(variant@),
    {
        self.copy_menu = false;
        if same(variant, "image") {
            Some(Copying::Image)
        } else if same(variant, "file") {
            Some(Copying::File)
        } else if same(variant, "path") {
            Some(Copying::Path)
        } else {
            None
        }
    }

    /// Something was copied, or not: the status line says so.
    pub fn copied(&mut self, result: Result<(), String>)
        ensures
            *final(self) == (Editor { status: final(self).status, ..*old(self) }),
            final(self).status matches Some(t) && t@ == (match result {
                Ok(_) => "Copied"@,
                Err(e) => e@,
            }),
    {
        self.status = Some(
            match result {
                Ok(_) => "Copied".to_owned(),
                Err(e) => e,
            },
        );
    }

    /// The text in the image was read and copied, or not.
    pub fn text_copied(&mut self, result: Result<String, String>)
        ensures
            *final(self) == (Editor { status: final(self).status, ..*old(self) }),
            final(self).status matches Some(t) && t@ == (match result {
                Ok(s) => "Copied "@ + decimal(s@.len()) + " characters"@,
                Err(e) => e@,
            }),
    {
        self.status = Some(
            match result {
                Ok(s) => {
                    let mut t = "Copied ".to_owned();
                    let n: usize = s.as_str().unicode_len();
                    push_decimal(&mut t, n as u64);
                    t.append(" characters");
                    t
                },
                Err(e) => e,
            },
        );
    }
}

proof fn lemma_palette(i: int)
    requires
        0 <= i < palette().len(),
    ensures
        palette()[i].len() >= 1,
{
    reveal_strlit("#f5f5f7");
    reveal_strlit("#9c9ca2");
    reveal_strlit("#6b6b71");
    reveal_strlit("#3a3a3f");
    reveal_strlit("#141416");
    reveal_strlit("#ff453a");
    reveal_strlit("#ff9f0a");
    reveal_strlit("#ffd60a");
    reveal_strlit("#30d158");
    reveal_strlit("#0a84ff");
    reveal_strlit("#bf5af2");
}

/// A button of the title bar.
#[derive(Clone, Copy, PartialEq, Eq, Structural, Debug)]
pub enum Top {
    Undo,
    Redo,
    Clear,
    Discard,
    CopyText,
    /// The copy menu.
    Copy,
    Apply(Transform),
    Done,
    Help,
}

pub open spec fn top_label(t: Top) -> Option<Seq<char>> {
    match t {
        Top::Undo | Top::Redo | Top::Clear => None,
        Top::Discard => Some("Discard"@),
        Top::CopyText => Some("Copy text"@),
        Top::Copy => Some("Copy"@),
        Top::Apply(Transform::Rot90) => Some("Rotate"@),
        Top::Apply(Transform::FlipH) => Some("Flip"@),
        Top::Apply(Transform::FlipV) => Some("Flip V"@),
        Top::Done => Some("Done"@),
        Top::Help => Some("?"@),
    }
}

/// What stands on a button of the title bar. None: an icon.
pub fn top_text(t: Top) -> (r: Option<String>)
    ensures
        match top_label(t) {
            None => r is None,
            Some(l) => r matches Some(s) && s@ == l,
        },
{
    match t {
        Top::Undo => None,
        Top::Redo => None,
        Top::Clear => None,
        Top::Discard => Some("Discard".to_owned()),
        Top::CopyText => Some("Copy text".to_owned()),
        Top::Copy => Some("Copy".to_owned()),
        Top::Apply(Transform::Rot90) => Some("Rotate".to_owned()),
        Top::Apply(Transform::FlipH) => Some("Flip".to_owned()),
        Top::Apply(Transform::FlipV) => Some("Flip V".to_owned()),
        Top::Done => Some("Done".to_owned()),
        Top::Help => Some("?".to_owned()),
    }
}

/// The buttons of the title bar: those beside the title, and those at its
/// end.
pub fn topbar() -> (r: (Vec<Top>, Vec<Top>))
    ensures
        r.0@ == seq![Top::Undo, Top::Redo, Top::Clear],
        r.1@ == seq![
            Top::Discard,
            Top::CopyText,
            Top::Copy,
            Top::Apply(Transform::Rot90),
            Top::Apply(Transform::FlipH),
            Top::Apply(Transform::FlipV),
            Top::Done,
            Top::Help,
        ],
{
    (
        vec![Top::Undo, Top::Redo, Top::Clear],
        vec![
            Top::Discard,
            Top::CopyText,
            Top::Copy,
            Top::Apply(Transform::Rot90),
            Top::Apply(Transform::FlipH),
            Top::Apply(Transform::FlipV),
            Top::Done,
            Top::Help,
        ],
    )
}

/// What the copy menu copies.
#[derive(Clone, Copy, PartialEq, Eq, Structural, Debug)]
pub enum Copying {
    Image,
    File,
    Path,
}

pub open spec fn copying_of(variant: Seq<char>) -> Option<Copying> {
    if variant == "image"@ {
        Some(Copying::Image)
    } else if variant == "file"@ {
        Some(Copying::File)
    } else if variant == "path"@ {
        Some(Copying::Path)
    } else {
        None
    }
}

/// The copy menu: the variant and the label of each row.
pub fn copy_rows() -> (r: Vec<(String, String)>)
    ensures
        r@.len() == 3,
        (r@[0].0@, r@[0].1@) == ("image"@, "Copy Image"@),
        (r@[1].0@, r@[1].1@) == ("file"@, "Copy File"@),
        (r@[2].0@, r@[2].1@) == ("path"@, "Copy Path"@),
{
    vec![
        ("image".to_owned(), "Copy Image".to_owned()),
        ("file".to_owned(), "Copy File".to_owned()),
        ("path".to_owned(), "Copy Path".to_owned()),
    ]
}

/// The notice shown when a saved edit did not land, once the editor has
/// gone: its title and what went wrong. `copied` tells of the clipboard,
/// which only a saved image reaches.
pub fn save_notice(saved: Result<(), String>, copied: Result<(), String>) -> (r: Option<
    (String, String),
>)
    ensures
        r is None <==> saved is Ok && copied is Ok,
        saved matches Err(e) ==> r is Some && (r->0).0@ == "Save failed"@ && (r->0).1@ == e@,
        saved is Ok ==> (copied matches Err(e) ==> r is Some && (r->0).0@ == "Copy failed"@
            && (r->0).1@ == e@),
{
    match saved {
        Err(e) => Some(("Save failed".to_owned(), e)),
        Ok(_) => match copied {
            Err(e) => Some(("Copy failed".to_owned(), e)),
            Ok(_) => None,
        },
    }
}

/// The side bar lights what is in use: the tool, the stroke, the filling
/// and the colour, and nothing else.
pub proof fn law_sidebar(e: Editor, i: int)
    requires
        0 <= i < sidebar_of(e).len(),
    ensures
        sidebar_of(e).len() == 28,
        match sidebar_of(e)[i] {
            Side::Tool(t, on) => on == (e.tool == t),
            Side::Stroke(n, on) => on == (e.stroke == n),
            Side::Fill(on) => on == e.fill,
            Side::Swatch(k, on) => k < palette().len() && on == (e.color@ == palette()[k as int]),
            Side::Rule => true,
        },
{
}

/// A part of the side bar sets what it shows, and leaves the rest.
pub proof fn law_sided(e: Editor, s: Side)
    ensures
        match s {
            Side::Tool(t, _) => e.sided(s).tool == t && e.sided(s).stroke == e.stroke
                && e.sided(s).fill == e.fill,
            Side::Stroke(n, _) => e.sided(s) == (Editor { stroke: n, ..e }),
            Side::Fill(_) => e.sided(s) == (Editor { fill: !e.fill, ..e }),
            _ => e.sided(s) == e,
        },
        e.sided(s).color == e.color && e.sided(s).actions == e.actions,
{
}

/// The buttons say what they do.
pub proof fn law_top_labels(t: Top)
    ensures
        t == Top::Apply(Transform::Rot90) ==> top_label(t) == Some("Rotate"@),
        t == Top::Apply(Transform::FlipH) ==> top_label(t) == Some("Flip"@),
        t == Top::Apply(Transform::FlipV) ==> top_label(t) == Some("Flip V"@),
        t is Discard ==> top_label(t) == Some("Discard"@),
        t is Done ==> top_label(t) == Some("Done"@),
        t is Copy ==> top_label(t) == Some("Copy"@),
        t is CopyText ==> top_label(t) == Some("Copy text"@),
{
}

/// Each row of the copy menu copies what it names.
pub proof fn law_copying(variant: Seq<char>)
    ensures
        variant == "image"@ ==> copying_of(variant) == Some(Copying::Image),
        variant == "file"@ ==> copying_of(variant) == Some(Copying::File),
        variant == "path"@ ==> copying_of(variant) == Some(Copying::Path),
        variant != "image"@ && variant != "file"@ && variant != "path"@ ==> copying_of(variant) is None,
{
    reveal_strlit("image");
    reveal_strlit("file");
    reveal_strlit("path");
    assert("image"@.len() == 5 && "file"@.len() == 4 && "path"@.len() == 4);
    assert("file"@[0] == 'f' && "path"@[0] == 'p');
}

} // verus!
