//! The preview windows a developer can open by name.
use vstd::prelude::*;
use crate::text::{
    chars_of, lowercase_text, owned, push_text, string_of, text_eq, to_lowercase, trim_chars,
    trim_spec,
};

verus! {

broadcast use vstd::string::group_string_axioms;

/// A window that can be opened for preview.
#[derive(Debug, Clone, Copy, PartialEq, Eq, Hash, Structural)]
pub enum PreviewKind {
    Skills,
    NewSave,
    Saves,
    Settings,
    Console,
    FpsGraph,
    Quit,
}

/// The names the preview windows are opened by, in the order they are
/// listed.
pub open spec fn known_names_spec() -> Seq<Seq<char>> {
    seq!["skills"@, "new_save"@, "saves"@, "settings"@, "console"@, "fps_graph"@, "quit"@]
}

/// The window a name opens, if any.
pub open spec fn preview_for(key: Seq<char>) -> Option<PreviewKind> {
    if key == "skills"@ {
        Some(PreviewKind::Skills)
    } else if key == "new_save"@ {
        Some(PreviewKind::NewSave)
    } else if key == "saves"@ {
        Some(PreviewKind::Saves)
    } else if key == "settings"@ {
        Some(PreviewKind::Settings)
    } else if key == "console"@ {
        Some(PreviewKind::Console)
    } else if key == "fps_graph"@ {
        Some(PreviewKind::FpsGraph)
    } else if key == "quit"@ {
        Some(PreviewKind::Quit)
    } else {
        None
    }
}

/// The key a requested name is looked up by: trimmed, then lowercased.
pub open spec fn preview_key(name: Seq<char>) -> Seq<char> {
    lowercase_text(trim_spec(name))
}

/// The message for a name that opens no window.
pub open spec fn unknown_preview_message(key: Seq<char>) -> Seq<char> {
    "Unknown UI '"@ + key + "'. Known: skills, new_save, saves, settings, console, fps_graph, quit"@
}

/// The names the preview windows are opened by.
pub fn known_names() -> (r: Vec<String>)
    ensures
        r@.map_values(|s: String| s@) == known_names_spec(),
{
    let r = vec![
        owned("skills"),
        owned("new_save"),
        owned("saves"),
        owned("settings"),
        owned("console"),
        owned("fps_graph"),
        owned("quit"),
    ];
    assert(r@.map_values(|s: String| s@) =~= known_names_spec());
    r
}

/// The window a requested name opens: the name is trimmed and lowercased,
/// then matched against the known names.
pub fn preview_kind(name: &str) -> (r: Result<PreviewKind, String>)
    ensures
        match preview_for(preview_key(name@)) {
            Some(k) => r == Ok::<PreviewKind, String>(k),
            None => r is Err && r->Err_0@ == unknown_preview_message(preview_key(name@)),
        },
{
    let trimmed = string_of(&trim_chars(&chars_of(name)));
    let key = to_lowercase(trimmed.as_str());
    let k = key.as_str();
    proof {
        reveal_strlit("skills");
        reveal_strlit("new_save");
        reveal_strlit("saves");
        reveal_strlit("settings");
        reveal_strlit("console");
        reveal_strlit("fps_graph");
        reveal_strlit("quit");
    }
    if text_eq(k, "skills") {
        Ok(PreviewKind::Skills)
    } else if text_eq(k, "new_save") {
        Ok(PreviewKind::NewSave)
    } else if text_eq(k, "saves") {
        Ok(PreviewKind::Saves)
    } else if text_eq(k, "settings") {
        Ok(PreviewKind::Settings)
    } else if text_eq(k, "console") {
        Ok(PreviewKind::Console)
    } else if text_eq(k, "fps_graph") {
        Ok(PreviewKind::FpsGraph)
    } else if text_eq(k, "quit") {
        Ok(PreviewKind::Quit)
    } else {
        let mut message = owned("Unknown UI '");
        push_text(&mut message, k);
        push_text(&mut message, "'. Known: skills, new_save, saves, settings, console, fps_graph, quit");
        Err(message)
    }
}

/// A preview window that has been opened: which one, whether it is still
/// open, and whether it is maximized.
#[derive(Debug, Clone, Copy, PartialEq, Eq, Structural)]
pub struct PreviewWindowState {
    pub kind: PreviewKind,
    pub open: bool,
    pub maximized: bool,
}

/// The preview windows opened so far, at most one of each kind.
pub struct UiPreviewManager {
    windows: Vec<PreviewWindowState>,
}

/// No kind of window occurs twice.
pub open spec fn kinds_distinct(ws: Seq<PreviewWindowState>) -> bool {
    forall|i: int, j: int| 0 <= i < j < ws.len() ==> (#[trigger] ws[i]).kind != (#[trigger] ws[j]).kind
}

/// The windows after the one of kind `k` is opened: an existing window of
/// that kind keeps its state and is marked open; otherwise a new open,
/// unmaximized window is added.
pub open spec fn opened(ws: Seq<PreviewWindowState>, k: PreviewKind) -> Seq<PreviewWindowState> {
    if exists|i: int| 0 <= i < ws.len() && (#[trigger] ws[i]).kind == k {
        let i = choose|i: int| 0 <= i < ws.len() && (#[trigger] ws[i]).kind == k;
        ws.update(i, PreviewWindowState { kind: k, open: true, maximized: ws[i].maximized })
    } else {
        ws.push(PreviewWindowState { kind: k, open: true, maximized: false })
    }
}

/// The windows that are still open, in their order.
pub open spec fn open_windows(ws: Seq<PreviewWindowState>) -> Seq<PreviewWindowState> {
    ws.filter(|w: PreviewWindowState| w.open)
}

proof fn lemma_open_windows_step(ws: Seq<PreviewWindowState>, i: int)
    requires
        0 <= i < ws.len(),
    ensures
        open_windows(ws.take(i + 1)) == if ws[i].open {
            open_windows(ws.take(i)).push(ws[i])
        } else {
            open_windows(ws.take(i))
        },
{
    reveal_with_fuel(Seq::filter, 1);
    assert(ws.take(i + 1).drop_last() =~= ws.take(i));
    assert(ws.take(i + 1).last() == ws[i]);
}

impl UiPreviewManager {
    /// The windows, in the order they were first opened.
    pub closed spec fn window_seq(&self) -> Seq<PreviewWindowState> {
        self.windows@
    }

    /// The registry's invariant: no kind of window occurs twice.
    pub open spec fn wf(&self) -> bool {
        kinds_distinct(self.window_seq())
    }

    /// A registry with no windows.
    pub fn new() -> (r: Self)
        ensures
            r.wf(),
            r.window_seq() == Seq::<PreviewWindowState>::empty(),
    {
        UiPreviewManager { windows: Vec::new() }
    }

    /// The names the preview windows are opened by.
    pub fn known_names() -> (r: Vec<String>)
        ensures
            r@.map_values(|s: String| s@) == known_names_spec(),
    {
        known_names()
    }

    /// The windows, in the order they were first opened.
    pub fn windows(&self) -> (r: &Vec<PreviewWindowState>)
        ensures
            r@ == self.window_seq(),
    {
        &self.windows
    }

    /// The position of the window of kind `k`, if there is one.
    fn position(&self, k: PreviewKind) -> (r: Option<usize>)
        ensures
            match r {
                Some(i) => i < self.window_seq().len() && self.window_seq()[i as int].kind == k,
                None => forall|i: int| 0 <= i < self.window_seq().len() ==> (#[trigger] self.window_seq()[i]).kind != k,
            },
    {
        let mut i: usize = 0;
        while i < self.windows.len()
            invariant
                i <= self.windows.len(),
                forall|j: int| 0 <= j < i ==> (#[trigger] self.windows@[j]).kind != k,
            decreases self.windows.len() - i,
        {
            if self.windows[i].kind == k {
                return Some(i);
            }
            i += 1;
        }
        None
    }

    /// Opens the preview window a name asks for (trimmed, lowercased),
    /// creating it when it does not exist yet and otherwise keeping its state
    /// and marking it open. An unknown name changes nothing and is answered
    /// with the message that lists the known names.
    pub fn open_preview(&mut self, name: &str) -> (r: Result<(), String>)
        requires
            old(self).wf(),
        ensures
            final(self).wf(),
            match preview_for(preview_key(name@)) {
                Some(k) => r is Ok && final(self).window_seq() == opened(old(self).window_seq(), k),
                None => r is Err && r->Err_0@ == unknown_preview_message(preview_key(name@))
                    && final(self).window_seq() == old(self).window_seq(),
            },
    {
        let k = match preview_kind(name) {
            Ok(k) => k,
            Err(e) => {
                return Err(e);
            },
        };
        let ghost ws = self.windows@;
        match self.position(k) {
            Some(i) => {
                let w = self.windows[i];
                self.windows.set(i, PreviewWindowState { kind: k, open: true, maximized: w.maximized });
                proof {
                    let c = choose|j: int| 0 <= j < ws.len() && (#[trigger] ws[j]).kind == k;
                    assert(ws[i as int].kind == k);
                    assert(c == i as int);
                    assert(self.windows@ =~= opened(ws, k));
                }
            },
            None => {
                self.windows.push(PreviewWindowState { kind: k, open: true, maximized: false });
                assert(self.windows@ =~= opened(ws, k));
            },
        }
        Ok(())
    }

    /// Marks the window of kind `k`, if there is one, closed.
    pub fn close(&mut self, k: PreviewKind)
        requires
            old(self).wf(),
        ensures
            final(self).wf(),
            final(self).window_seq().len() == old(self).window_seq().len(),
            forall|i: int| 0 <= i < old(self).window_seq().len() ==> #[trigger] final(self).window_seq()[i] == (
                if old(self).window_seq()[i].kind == k {
                    PreviewWindowState { kind: k, open: false, maximized: old(self).window_seq()[i].maximized }
                } else {
                    old(self).window_seq()[i]
                }),
    {
        if let Some(i) = self.position(k) {
            let w = self.windows[i];
            self.windows.set(i, PreviewWindowState { kind: k, open: false, maximized: w.maximized });
        }
    }

    /// Switches the window of kind `k`, if there is one, between maximized
    /// and normal size.
    pub fn toggle_maximized(&mut self, k: PreviewKind)
        requires
            old(self).wf(),
        ensures
            final(self).wf(),
            final(self).window_seq().len() == old(self).window_seq().len(),
            forall|i: int| 0 <= i < old(self).window_seq().len() ==> #[trigger] final(self).window_seq()[i] == (
                if old(self).window_seq()[i].kind == k {
                    PreviewWindowState { kind: k, open: old(self).window_seq()[i].open, maximized: !old(self).window_seq()[i].maximized }
                } else {
                    old(self).window_seq()[i]
                }),
    {
        if let Some(i) = self.position(k) {
            let w = self.windows[i];
            self.windows.set(i, PreviewWindowState { kind: k, open: w.open, maximized: !w.maximized });
        }
    }

    /// Removes the windows that have been closed, keeping the order of the
    /// others.
    pub fn remove_closed(&mut self)
        requires
            old(self).wf(),
        ensures
            final(self).wf(),
            final(self).window_seq() == open_windows(old(self).window_seq()),
    {
        let ghost ws = self.windows@;
        let mut kept: Vec<PreviewWindowState> = Vec::new();
        let ghost mut idx: Seq<int> = Seq::empty();
        let mut i: usize = 0;
        while i < self.windows.len()
            invariant
                i <= self.windows.len(),
                self.windows@ == ws,
                kinds_distinct(ws),
                kept@ == open_windows(ws.take(i as int)),
                idx.len() == kept@.len(),
                forall|a: int| 0 <= a < idx.len() ==> 0 <= #[trigger] idx[a] < i && kept@[a] == ws[idx[a]],
                forall|a: int, c: int| 0 <= a < c < idx.len() ==> #[trigger] idx[a] < #[trigger] idx[c],
            decreases self.windows.len() - i,
        {
            let w = self.windows[i];
            proof {
                lemma_open_windows_step(ws, i as int);
            }
            if w.open {
                kept.push(w);
                proof {
                    idx = idx.push(i as int);
                }
            }
            i += 1;
        }
        assert(ws.take(ws.len() as int) =~= ws);
        assert forall|a: int, c: int| 0 <= a < c < kept@.len() implies (#[trigger] kept@[a]).kind != (
        #[trigger] kept@[c]).kind by {
            assert(idx[a] < idx[c]);
        }
        self.windows = kept;
    }

    /// Whether the window of kind `k` exists and is open.
    pub fn is_open(&self, k: PreviewKind) -> (r: bool)
        requires
            self.wf(),
        ensures
            r <==> exists|i: int| 0 <= i < self.window_seq().len() && (#[trigger] self.window_seq()[i]).kind == k
                && self.window_seq()[i].open,
    {
        match self.position(k) {
            Some(i) => {
                assert(self.window_seq()[i as int] == self.windows@[i as int]);
                self.windows[i].open
            },
            None => false,
        }
    }
}

} // verus!
