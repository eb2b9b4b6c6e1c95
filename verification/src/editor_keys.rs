//! The editor's keyboard.

use vstd::prelude::*;
use crate::action::{Tool, MAX_TEXT};
use crate::editor::{Editor, TextEntry};
use crate::text::{chars, collect, same};

verus! {

/// A key that went down.
pub struct Key {
    pub key: String,
    pub control: bool,
    pub platform: bool,
    pub shift: bool,
    /// What the key types.
    pub typed: Option<String>,
}

/// What a key asks for beyond the editor's own state.
#[derive(Clone, Copy, Debug, PartialEq, Eq, Structural)]
pub enum Deed {
    Nothing,
    /// End the text entry: keep it, or drop it.
    CommitText(bool),
    /// The caret starts its blinking over.
    Typed,
    Discard,
    ApplyCrop,
    Finish,
    Delete,
    Undo,
    Redo,
    SetTool(Tool),
    ZoomFit,
    ZoomIn,
    ZoomOut,
}

/// The tool that a letter picks.
pub open spec fn tool_key(k: Seq<char>) -> Option<Tool> {
    if k == "v"@ {
        Some(Tool::Select)
    } else if k == "p"@ {
        Some(Tool::Pen)
    } else if k == "l"@ {
        Some(Tool::Line)
    } else if k == "a"@ {
        Some(Tool::Arrow)
    } else if k == "e"@ {
        Some(Tool::Ellipse)
    } else if k == "r"@ {
        Some(Tool::Rect)
    } else if k == "t"@ {
        Some(Tool::Text)
    } else if k == "h"@ {
        Some(Tool::Highlight)
    } else if k == "b"@ {
        Some(Tool::Blur)
    } else if k == "c"@ {
        Some(Tool::Crop)
    } else if k == "n"@ {
        Some(Tool::Counter)
    } else {
        None
    }
}

fn tool_for(k: &str) -> (r: Option<Tool>)
    ensures
        r == tool_key(k@),
{
    if same(k, "v") {
        Some(Tool::Select)
    } else if same(k, "p") {
        Some(Tool::Pen)
    } else if same(k, "l") {
        Some(Tool::Line)
    } else if same(k, "a") {
        Some(Tool::Arrow)
    } else if same(k, "e") {
        Some(Tool::Ellipse)
    } else if same(k, "r") {
        Some(Tool::Rect)
    } else if same(k, "t") {
        Some(Tool::Text)
    } else if same(k, "h") {
        Some(Tool::Highlight)
    } else if same(k, "b") {
        Some(Tool::Blur)
    } else if same(k, "c") {
        Some(Tool::Crop)
    } else if same(k, "n") {
        Some(Tool::Counter)
    } else {
        None
    }
}

/// What a key does while text is typed: the deed, and the text after it.
pub open spec fn typing(k: Key, buffer: Seq<char>) -> (Deed, Seq<char>) {
    if k.key@ == "enter"@ {
        (Deed::CommitText(true), buffer)
    } else if k.key@ == "escape"@ {
        (Deed::CommitText(false), buffer)
    } else if k.key@ == "backspace"@ {
        (
            Deed::Nothing,
            if buffer.len() > 0 {
                buffer.drop_last()
            } else {
                buffer
            },
        )
    } else if !k.control && !k.platform && k.typed is Some {
        (Deed::Typed, buffer + k.typed->0@)
    } else {
        (Deed::Nothing, buffer)
    }
}

impl Editor {
    /// What a key does while no text is typed: the editor after it, and
    /// what else it asks for.
    pub open spec fn keyed(self, k: Key) -> (Editor, Deed) {
        let key = k.key@;
        let meta = k.control || k.platform;
        if key == "escape"@ {
            self.escaped()
        } else if key == "enter"@ {
            (
                self,
                if self.crop_rect is Some {
                    Deed::ApplyCrop
                } else {
                    Deed::Finish
                },
            )
        } else if key == "delete"@ || key == "backspace"@ {
            (self, Deed::Delete)
        } else if meta && key == "z"@ {
            (
                self,
                if k.shift {
                    Deed::Redo
                } else {
                    Deed::Undo
                },
            )
        } else if meta && key == "y"@ {
            (self, Deed::Redo)
        } else if meta && key == "s"@ {
            (self, Deed::Finish)
        } else if key == "?"@ || key == "/"@ {
            (Editor { help: !self.help, ..self }, Deed::Nothing)
        } else if tool_key(key) is Some {
            (self, Deed::SetTool(tool_key(key)->0))
        } else {
            self.plainly(key)
        }
    }

    /// What escape does: it closes what is open, the sheet first, and
    /// with nothing open it discards.
    pub open spec fn escaped(self) -> (Editor, Deed) {
        if self.help {
            (Editor { help: false, ..self }, Deed::Nothing)
        } else if self.copy_menu {
            (Editor { copy_menu: false, ..self }, Deed::Nothing)
        } else if self.crop_rect is Some {
            (Editor { crop_rect: None, ..self }, Deed::Nothing)
        } else if self.selected is Some {
            (Editor { selected: None, ..self }, Deed::Nothing)
        } else {
            (self, Deed::Discard)
        }
    }

    /// What the keys for fill, stroke, zoom and pan do.
    pub open spec fn plainly(self, key: Seq<char>) -> (Editor, Deed) {
        if key == "f"@ {
            (Editor { fill: !self.fill, ..self }, Deed::Nothing)
        } else if key == "1"@ {
            (Editor { stroke: 0, ..self }, Deed::Nothing)
        } else if key == "2"@ {
            (Editor { stroke: 1, ..self }, Deed::Nothing)
        } else if key == "3"@ {
            (Editor { stroke: 2, ..self }, Deed::Nothing)
        } else if key == "0"@ {
            (self, Deed::ZoomFit)
        } else if key == "="@ || key == "+"@ {
            (self, Deed::ZoomIn)
        } else if key == "-"@ {
            (self, Deed::ZoomOut)
        } else if key == "space"@ {
            (Editor { space_pan: true, ..self }, Deed::Nothing)
        } else {
            (self, Deed::Nothing)
        }
    }

    /// A key went down.
    pub fn handle_key_down(&mut self, k: &Key) -> (deed: Deed)
        requires
            old(self).wf(),
            old(self).text_entry matches Some(t) ==> (k.typed matches Some(c) ==> t.buffer@.len()
                + c@.len() <= MAX_TEXT),
        ensures
            final(self).wf(),
            match old(self).text_entry {
                Some(t) => {
                    &&& deed == typing(*k, t.buffer@).0
                    &&& *final(self) == (Editor {
                        text_entry: final(self).text_entry,
                        ..*old(self)
                    })
                    &&& final(self).text_entry matches Some(u)
                    &&& u.point == t.point
                    &&& u.buffer@ == typing(*k, t.buffer@).1
                },
                None => (*final(self), deed) == old(self).keyed(*k),
            },
    {
        let key = k.key.as_str();
        if self.text_entry.is_some() {
            let taken = self.text_entry.take();
            if let Some(t) = taken {
                let (entry, deed) = type_key(k, t);
                self.text_entry = Some(entry);
                return deed;
            }
        }
        let meta = k.control || k.platform;
        if same(key, "escape") {
            return self.escape();
        }
        if same(key, "enter") {
            return if self.crop_rect.is_some() {
                Deed::ApplyCrop
            } else {
                Deed::Finish
            };
        }
        if same(key, "delete") || same(key, "backspace") {
            return Deed::Delete;
        }
        if meta {
            if same(key, "z") {
                return if k.shift {
                    Deed::Redo
                } else {
                    Deed::Undo
                };
            }
            if same(key, "y") {
                return Deed::Redo;
            }
            if same(key, "s") {
                return Deed::Finish;
            }
        }
        if same(key, "?") || same(key, "/") {
            self.help = !self.help;
            return Deed::Nothing;
        }
        if let Some(tool) = tool_for(key) {
            return Deed::SetTool(tool);
        }
        self.plain_key(key)
    }

    fn escape(&mut self) -> (deed: Deed)
        requires
            old(self).wf(),
        ensures
            final(self).wf(),
            (*final(self), deed) == old(self).escaped(),
    {
        if self.help {
            self.help = false;
        } else if self.copy_menu {
            self.copy_menu = false;
        } else if self.crop_rect.is_some() {
            self.crop_rect = None;
        } else if self.selected.is_some() {
            self.selected = None;
        } else {
            return Deed::Discard;
        }
        Deed::Nothing
    }

    /// The keys that are left: fill, stroke, zoom and pan.
    fn plain_key(&mut self, key: &str) -> (deed: Deed)
        requires
            old(self).wf(),
        ensures
            final(self).wf(),
            (*final(self), deed) == old(self).plainly(key@),
    {
        if same(key, "f") {
            self.fill = !self.fill;
            Deed::Nothing
        } else if same(key, "1") {
            self.stroke = 0;
            Deed::Nothing
        } else if same(key, "2") {
            self.stroke = 1;
            Deed::Nothing
        } else if same(key, "3") {
            self.stroke = 2;
            Deed::Nothing
        } else if same(key, "0") {
            Deed::ZoomFit
        } else if same(key, "=") || same(key, "+") {
            Deed::ZoomIn
        } else if same(key, "-") {
            Deed::ZoomOut
        } else if same(key, "space") {
            self.space_pan = true;
            Deed::Nothing
        } else {
            Deed::Nothing
        }
    }

    /// A key went up.
    pub fn handle_key_up(&mut self, key: &str)
        requires
            old(self).wf(),
        ensures
            final(self).wf(),
            *final(self) == (Editor {
                space_pan: old(self).space_pan && key@ != "space"@,
                ..*old(self)
            }),
    {
        if same(key, "space") {
            self.space_pan = false;
        }
    }
}

fn type_key(k: &Key, t: TextEntry) -> (r: (TextEntry, Deed))
    requires
        k.typed matches Some(c) ==> t.buffer@.len() + c@.len() <= MAX_TEXT,
        t.buffer@.len() <= MAX_TEXT,
    ensures
        r.1 == typing(*k, t.buffer@).0,
        r.0.point == t.point,
        r.0.buffer@ == typing(*k, t.buffer@).1,
        r.0.buffer@.len() <= MAX_TEXT,
{
    let key = k.key.as_str();
    if same(key, "enter") {
        return (t, Deed::CommitText(true));
    }
    if same(key, "escape") {
        return (t, Deed::CommitText(false));
    }
    if same(key, "backspace") {
        let cs = chars(t.buffer.as_str());
        if cs.len() > 0 {
            let buffer = collect(&cs, 0, cs.len() - 1);
            assert(buffer@ =~= t.buffer@.drop_last());
            return (TextEntry { point: t.point, buffer }, Deed::Nothing);
        }
        return (t, Deed::Nothing);
    }
    if !k.control && !k.platform {
        if let Some(c) = &k.typed {
            let buffer = t.buffer.clone().concat(c.as_str());
            return (TextEntry { point: t.point, buffer }, Deed::Typed);
        }
    }
    (t, Deed::Nothing)
}

/// Each tool has its letter.
pub proof fn law_tool_keys(k: Seq<char>)
    requires
        k.len() == 1,
    ensures
        k[0] == 'v' ==> tool_key(k) == Some(Tool::Select),
        k[0] == 'p' ==> tool_key(k) == Some(Tool::Pen),
        k[0] == 'l' ==> tool_key(k) == Some(Tool::Line),
        k[0] == 'a' ==> tool_key(k) == Some(Tool::Arrow),
        k[0] == 'e' ==> tool_key(k) == Some(Tool::Ellipse),
        k[0] == 'r' ==> tool_key(k) == Some(Tool::Rect),
        k[0] == 't' ==> tool_key(k) == Some(Tool::Text),
        k[0] == 'h' ==> tool_key(k) == Some(Tool::Highlight),
        k[0] == 'b' ==> tool_key(k) == Some(Tool::Blur),
        k[0] == 'c' ==> tool_key(k) == Some(Tool::Crop),
        k[0] == 'n' ==> tool_key(k) == Some(Tool::Counter),
        tool_key(k) is Some ==> 'a' <= k[0] <= 'z',
{
    reveal_strlit("v");
    reveal_strlit("p");
    reveal_strlit("l");
    reveal_strlit("a");
    reveal_strlit("e");
    reveal_strlit("r");
    reveal_strlit("t");
    reveal_strlit("h");
    reveal_strlit("b");
    reveal_strlit("c");
    reveal_strlit("n");
    assert(k =~= seq![k[0]]);
    assert("v"@ =~= seq!['v'] && "p"@ =~= seq!['p'] && "l"@ =~= seq!['l'] && "a"@ =~= seq!['a']);
    assert("e"@ =~= seq!['e'] && "r"@ =~= seq!['r'] && "t"@ =~= seq!['t'] && "h"@ =~= seq!['h']);
    assert("b"@ =~= seq!['b'] && "c"@ =~= seq!['c'] && "n"@ =~= seq!['n']);
    assert(forall|c: char, d: char| c != d ==> seq![c] != seq![d]) by {
        assert forall|c: char, d: char| c != d implies seq![c] != seq![d] by {
            assert(seq![c][0] == c && seq![d][0] == d);
        }
    }
}

/// Control or the platform's key with a letter: Z takes back, with Shift
/// it brings again, as Y does, and S is done. Delete and backspace delete.
/// Enter applies a crop where there is one, and is else done. None of them
/// changes the editor by itself.
pub proof fn law_shortcuts(e: Editor, k: Key)
    ensures
        (k.control || k.platform) && k.key@ == "z"@ && !k.shift ==> e.keyed(k) == (e, Deed::Undo),
        (k.control || k.platform) && k.key@ == "z"@ && k.shift ==> e.keyed(k) == (e, Deed::Redo),
        (k.control || k.platform) && k.key@ == "y"@ ==> e.keyed(k) == (e, Deed::Redo),
        (k.control || k.platform) && k.key@ == "s"@ ==> e.keyed(k) == (e, Deed::Finish),
        k.key@ == "delete"@ || k.key@ == "backspace"@ ==> e.keyed(k) == (e, Deed::Delete),
        k.key@ == "enter"@ && e.crop_rect is Some ==> e.keyed(k) == (e, Deed::ApplyCrop),
        k.key@ == "enter"@ && e.crop_rect is None ==> e.keyed(k) == (e, Deed::Finish),
{
    reveal_strlit("escape");
    reveal_strlit("enter");
    reveal_strlit("delete");
    reveal_strlit("backspace");
    reveal_strlit("z");
    reveal_strlit("y");
    reveal_strlit("s");
    assert("escape"@.len() == 6 && "enter"@.len() == 5);
    assert("delete"@.len() == 6 && "backspace"@.len() == 9);
    assert("z"@.len() == 1 && "y"@.len() == 1 && "s"@.len() == 1);
    assert("escape"@[0] == 'e' && "delete"@[0] == 'd');
    assert("z"@[0] == 'z' && "y"@[0] == 'y' && "s"@[0] == 's');
}

/// Escape undoes one thing at a time, the help first, then the menu, the
/// crop and the selection, and only with none of them open does it give
/// the edit up.
pub proof fn law_escape(e: Editor)
    ensures
        ({
            let (n, deed) = e.escaped();
            &&& n == (Editor {
                help: n.help,
                copy_menu: n.copy_menu,
                crop_rect: n.crop_rect,
                selected: n.selected,
                ..e
            })
            &&& (deed is Discard) == (!e.help && !e.copy_menu && e.crop_rect is None
                && e.selected is None)
            &&& !(deed is Discard) ==> deed is Nothing
            &&& !n.help
            &&& e.help ==> n == (Editor { help: false, ..e })
            &&& !e.help && e.copy_menu ==> n == (Editor { copy_menu: false, ..e })
            &&& !e.help && !e.copy_menu && e.crop_rect is Some ==> n == (Editor {
                crop_rect: None,
                ..e
            })
            &&& !e.help && !e.copy_menu && e.crop_rect is None ==> n == (Editor {
                selected: None,
                ..e
            })
        }),
{
}

/// The digits pick the stroke in their order, F turns the filling over,
/// zero shows all of the image, plus enlarges it and minus shrinks it, and
/// space pans while it is held.
pub proof fn law_plain_keys(e: Editor, k: Seq<char>)
    requires
        k.len() == 1,
    ensures
        k[0] == '1' ==> e.plainly(k) == (Editor { stroke: 0, ..e }, Deed::Nothing),
        k[0] == '2' ==> e.plainly(k) == (Editor { stroke: 1, ..e }, Deed::Nothing),
        k[0] == '3' ==> e.plainly(k) == (Editor { stroke: 2, ..e }, Deed::Nothing),
        k[0] == 'f' ==> e.plainly(k) == (Editor { fill: !e.fill, ..e }, Deed::Nothing),
        k[0] == '0' ==> e.plainly(k) == (e, Deed::ZoomFit),
        k[0] == '=' || k[0] == '+' ==> e.plainly(k) == (e, Deed::ZoomIn),
        k[0] == '-' ==> e.plainly(k) == (e, Deed::ZoomOut),
{
    reveal_strlit("f");
    reveal_strlit("1");
    reveal_strlit("2");
    reveal_strlit("3");
    reveal_strlit("0");
    reveal_strlit("=");
    reveal_strlit("+");
    reveal_strlit("-");
    assert(k =~= seq![k[0]]);
    assert("f"@ =~= seq!['f'] && "1"@ =~= seq!['1'] && "2"@ =~= seq!['2'] && "3"@ =~= seq!['3']);
    assert("0"@ =~= seq!['0'] && "="@ =~= seq!['='] && "+"@ =~= seq!['+'] && "-"@ =~= seq!['-']);
    assert("f"@[0] == 'f' && "1"@[0] == '1' && "2"@[0] == '2' && "3"@[0] == '3');
    assert("0"@[0] == '0' && "="@[0] == '=' && "+"@[0] == '+' && "-"@[0] == '-');
}

/// In a text, enter keeps it, escape drops it, backspace takes its last
/// character, and what a key types comes behind it.
pub proof fn law_typing(k: Key, buffer: Seq<char>)
    ensures
        k.key@ == "enter"@ ==> typing(k, buffer) == (Deed::CommitText(true), buffer),
        k.key@ == "escape"@ ==> typing(k, buffer) == (Deed::CommitText(false), buffer),
        k.key@ == "backspace"@ && buffer.len() > 0 ==> typing(k, buffer) == (
            Deed::Nothing,
            buffer.take(buffer.len() - 1),
        ),
        k.key@ != "enter"@ && k.key@ != "escape"@ && k.key@ != "backspace"@ && !k.control
            && !k.platform && k.typed is Some ==> typing(k, buffer).1 == buffer + k.typed->0@,
        k.key@ != "backspace"@ && (k.control || k.platform) ==> typing(k, buffer).1 == buffer,
{
    reveal_strlit("enter");
    reveal_strlit("escape");
    reveal_strlit("backspace");
    assert("escape"@.len() == 6 && "enter"@.len() == 5 && "backspace"@.len() == 9);
    if buffer.len() > 0 {
        assert(buffer.drop_last() =~= buffer.take(buffer.len() - 1));
    }
}

} // verus!
