//! The key and mouse bindings: which action a key press or a mouse event
//! asks for in each state of the browser.
use vstd::prelude::*;

use crate::app::{App, InputMode};
use crate::files::texts;
use crate::paths::{last_index_of, lemma_last_index_of_bounds};
use crate::text::{chars_of, trim, trimmed};

verus! {

/// A key press, as far as the bindings tell keys apart.
#[derive(Debug, Clone, Copy, PartialEq, Eq, Structural)]
pub enum Key {
    Char(char),
    Enter,
    Esc,
    Up,
    Down,
    Left,
    Right,
    Backspace,
    Delete,
    Other,
}

/// What a key press asks for.
#[derive(Debug, Clone, Copy, PartialEq, Eq, Structural)]
pub enum Intent {
    /// Close the error message.
    ClearError,
    ToggleHelp,
    /// Close the details.
    CloseDetails,
    /// Delete what is marked or highlighted, then close the confirmation.
    ConfirmDelete,
    /// Close the confirmation without deleting.
    CancelDelete,
    Quit,
    Next,
    Previous,
    EnterSelected,
    GoUp,
    ToggleSelection,
    EnterRename,
    TriggerDeleteConfirm,
    EnterMkdir,
    Download,
    Screenshot,
    EnterSearch,
    ToggleDetails,
    /// Mark every `.tns` document shown.
    SelectDocuments,
    ClearSelection,
    /// Edit the highlighted file on the host.
    Edit,
    ExitSearch,
    SubmitMkdir,
    SubmitRename,
    /// Stop typing, without confirming.
    EndTyping,
    /// Hand the key to the text input.
    Type,
    Ignore,
}

/// The bindings in normal mode, with no popup open.
pub open spec fn normal_intent(key: Key) -> Intent {
    match key {
        Key::Char('q') | Key::Esc => Intent::Quit,
        Key::Down | Key::Char('j') => Intent::Next,
        Key::Up | Key::Char('k') => Intent::Previous,
        Key::Enter | Key::Right | Key::Char('l') => Intent::EnterSelected,
        Key::Backspace | Key::Left | Key::Char('h') => Intent::GoUp,
        Key::Char(' ') => Intent::ToggleSelection,
        Key::Char('r') => Intent::EnterRename,
        Key::Char('?') => Intent::ToggleHelp,
        Key::Delete => Intent::TriggerDeleteConfirm,
        Key::Char('n') => Intent::EnterMkdir,
        Key::Char('d') => Intent::Download,
        Key::Char('s') => Intent::Screenshot,
        Key::Char('/') => Intent::EnterSearch,
        Key::Char('i') => Intent::ToggleDetails,
        Key::Char('a') => Intent::SelectDocuments,
        Key::Char('c') => Intent::ClearSelection,
        Key::Char('e') => Intent::Edit,
        _ => Intent::Ignore,
    }
}

/// What `key` asks for in `app`: an open error message, help, details or
/// delete confirmation takes the key first, in that order; else it goes
/// by the input mode.
pub open spec fn intent_of(app: App, key: Key) -> Intent {
    if app.error_message is Some {
        match key {
            Key::Esc | Key::Enter | Key::Char(' ') => Intent::ClearError,
            _ => Intent::Ignore,
        }
    } else if app.show_help {
        match key {
            Key::Esc | Key::Char('?') | Key::Char('q') => Intent::ToggleHelp,
            _ => Intent::Ignore,
        }
    } else if app.show_details {
        match key {
            Key::Esc | Key::Char('i') | Key::Char('q') => Intent::CloseDetails,
            _ => Intent::Ignore,
        }
    } else if app.show_confirm_delete {
        match key {
            Key::Char('y') | Key::Enter => Intent::ConfirmDelete,
            Key::Char('n') | Key::Esc => Intent::CancelDelete,
            _ => Intent::Ignore,
        }
    } else {
        match app.input_mode {
            InputMode::Normal => normal_intent(key),
            mode => match key {
                Key::Enter => match mode {
                    InputMode::Editing => Intent::ExitSearch,
                    InputMode::Mkdir => Intent::SubmitMkdir,
                    _ => Intent::SubmitRename,
                },
                Key::Esc => Intent::EndTyping,
                _ => Intent::Type,
            },
        }
    }
}

fn normal_key(key: Key) -> (i: Intent)
    ensures
        i == normal_intent(key),
{
    match key {
        Key::Char('q') | Key::Esc => Intent::Quit,
        Key::Down | Key::Char('j') => Intent::Next,
        Key::Up | Key::Char('k') => Intent::Previous,
        Key::Enter | Key::Right | Key::Char('l') => Intent::EnterSelected,
        Key::Backspace | Key::Left | Key::Char('h') => Intent::GoUp,
        Key::Char(' ') => Intent::ToggleSelection,
        Key::Char('r') => Intent::EnterRename,
        Key::Char('?') => Intent::ToggleHelp,
        Key::Delete => Intent::TriggerDeleteConfirm,
        Key::Char('n') => Intent::EnterMkdir,
        Key::Char('d') => Intent::Download,
        Key::Char('s') => Intent::Screenshot,
        Key::Char('/') => Intent::EnterSearch,
        Key::Char('i') => Intent::ToggleDetails,
        Key::Char('a') => Intent::SelectDocuments,
        Key::Char('c') => Intent::ClearSelection,
        Key::Char('e') => Intent::Edit,
        _ => Intent::Ignore,
    }
}

/// What a mouse event is.
#[derive(Debug, Clone, Copy, PartialEq, Eq, Structural)]
pub enum MouseKind {
    LeftDown,
    /// A press of another button.
    OtherDown,
    ScrollUp,
    ScrollDown,
    Moved,
    Other,
}

/// A mouse event and the cell it happened at.
#[derive(Debug, Clone, Copy, PartialEq, Eq, Structural)]
pub struct MouseInput {
    pub kind: MouseKind,
    pub column: u16,
    pub row: u16,
}

/// What a mouse event asks for.
#[derive(Debug, Clone, Copy, PartialEq, Eq, Structural)]
pub enum MouseIntent {
    ToggleHelp,
    Next,
    Previous,
    EnterSelected,
    /// Highlight this row.
    Highlight(usize),
    Ignore,
}

/// The first screen row of the file table's rows.
pub const TABLE_AREA_TOP: u16 = 6;

/// The width of the sidebar: the table lies to its right.
pub const SIDEBAR_WIDTH: u16 = 30;

/// The number of table rows a hover can reach.
pub const HOVER_ROWS: u16 = 50;

/// What mouse event `m` asks for in `app`: with help open any press closes
/// it; scrolling moves the highlight; a left press on the table opens the
/// highlighted entry; hovering over a row of the table highlights it.
pub open spec fn mouse_intent_of(app: App, m: MouseInput) -> MouseIntent {
    if app.show_help {
        match m.kind {
            MouseKind::LeftDown | MouseKind::OtherDown => MouseIntent::ToggleHelp,
            _ => MouseIntent::Ignore,
        }
    } else {
        match m.kind {
            MouseKind::ScrollDown => MouseIntent::Next,
            MouseKind::ScrollUp => MouseIntent::Previous,
            MouseKind::LeftDown => if m.column > SIDEBAR_WIDTH {
                MouseIntent::EnterSelected
            } else {
                MouseIntent::Ignore
            },
            MouseKind::Moved => {
                let visual = m.row - TABLE_AREA_TOP;
                let row_index = app.table_state.offset + visual;
                if m.row >= TABLE_AREA_TOP && m.column > SIDEBAR_WIDTH && visual < HOVER_ROWS
                    && row_index < app.filtered_indices@.len() {
                    MouseIntent::Highlight(row_index as usize)
                } else {
                    MouseIntent::Ignore
                }
            },
            _ => MouseIntent::Ignore,
        }
    }
}

impl App {
    /// What `key` asks for (see `intent_of`).
    pub fn key_intent(&self, key: Key) -> (i: Intent)
        ensures
            i == intent_of(*self, key),
    {
        if self.error_message.is_some() {
            match key {
                Key::Esc | Key::Enter | Key::Char(' ') => Intent::ClearError,
                _ => Intent::Ignore,
            }
        } else if self.show_help {
            match key {
                Key::Esc | Key::Char('?') | Key::Char('q') => Intent::ToggleHelp,
                _ => Intent::Ignore,
            }
        } else if self.show_details {
            match key {
                Key::Esc | Key::Char('i') | Key::Char('q') => Intent::CloseDetails,
                _ => Intent::Ignore,
            }
        } else if self.show_confirm_delete {
            match key {
                Key::Char('y') | Key::Enter => Intent::ConfirmDelete,
                Key::Char('n') | Key::Esc => Intent::CancelDelete,
                _ => Intent::Ignore,
            }
        } else {
            match self.input_mode {
                InputMode::Normal => normal_key(key),
                InputMode::Editing => match key {
                    Key::Enter => Intent::ExitSearch,
                    Key::Esc => Intent::EndTyping,
                    _ => Intent::Type,
                },
                InputMode::Mkdir => match key {
                    Key::Enter => Intent::SubmitMkdir,
                    Key::Esc => Intent::EndTyping,
                    _ => Intent::Type,
                },
                InputMode::Rename => match key {
                    Key::Enter => Intent::SubmitRename,
                    Key::Esc => Intent::EndTyping,
                    _ => Intent::Type,
                },
            }
        }
    }

    /// What mouse event `m` asks for (see `mouse_intent_of`).
    pub fn mouse_intent(&self, m: MouseInput) -> (i: MouseIntent)
        ensures
            i == mouse_intent_of(*self, m),
    {
        if self.show_help {
            return match m.kind {
                MouseKind::LeftDown | MouseKind::OtherDown => MouseIntent::ToggleHelp,
                _ => MouseIntent::Ignore,
            };
        }
        match m.kind {
            MouseKind::ScrollDown => MouseIntent::Next,
            MouseKind::ScrollUp => MouseIntent::Previous,
            MouseKind::LeftDown => if m.column > SIDEBAR_WIDTH {
                MouseIntent::EnterSelected
            } else {
                MouseIntent::Ignore
            },
            MouseKind::Moved => {
                if m.row >= TABLE_AREA_TOP && m.column > SIDEBAR_WIDTH {
                    let visual = (m.row - TABLE_AREA_TOP) as usize;
                    let n = self.filtered_indices.len();
                    if visual < HOVER_ROWS as usize && visual < n && self.table_state.offset < n
                        - visual {
                        MouseIntent::Highlight(self.table_state.offset + visual)
                    } else {
                        MouseIntent::Ignore
                    }
                } else {
                    MouseIntent::Ignore
                }
            },
            _ => MouseIntent::Ignore,
        }
    }
}

/// The lines of `s`: the runs between its `\n` characters.
pub open spec fn lines_of(s: Seq<char>) -> Seq<Seq<char>>
    decreases s.len(),
{
    let k = last_index_of(s, '\n');
    if k < 0 {
        seq![s]
    } else {
        proof {
            lemma_last_index_of_bounds(s, '\n');
        }
        lines_of(s.take(k)).push(s.skip(k + 1))
    }
}

/// The non-empty members of `ss`, in order.
pub open spec fn non_empty(ss: Seq<Seq<char>>) -> Seq<Seq<char>>
    decreases ss.len(),
{
    if ss.len() == 0 {
        Seq::empty()
    } else if ss[0].len() > 0 {
        seq![ss[0]] + non_empty(ss.drop_first())
    } else {
        non_empty(ss.drop_first())
    }
}

/// The paths in pasted text: its lines, trimmed, the empty ones left out.
pub open spec fn pasted_paths_of(s: Seq<char>) -> Seq<Seq<char>> {
    non_empty(lines_of(s).map_values(|l: Seq<char>| trimmed(l)))
}

proof fn lemma_non_empty_concat(a: Seq<Seq<char>>, b: Seq<Seq<char>>)
    ensures
        non_empty(a + b) == non_empty(a) + non_empty(b),
    decreases a.len(),
{
    if a.len() == 0 {
        assert(a + b =~= b);
    } else {
        lemma_non_empty_concat(a.drop_first(), b);
        assert((a + b).drop_first() =~= a.drop_first() + b);
        assert((a + b)[0] == a[0]);
        if a[0].len() > 0 {
            assert(seq![a[0]] + (non_empty(a.drop_first()) + non_empty(b)) =~= (seq![a[0]]
                + non_empty(a.drop_first())) + non_empty(b));
        }
    }
}

proof fn lemma_non_empty_single(x: Seq<char>)
    ensures
        non_empty(seq![x]) == (if x.len() > 0 {
            seq![x]
        } else {
            Seq::<Seq<char>>::empty()
        }),
{
    assert(seq![x].drop_first() =~= Seq::<Seq<char>>::empty());
    assert(non_empty(Seq::<Seq<char>>::empty()) == Seq::<Seq<char>>::empty());
    if x.len() > 0 {
        assert(seq![x] + Seq::<Seq<char>>::empty() =~= seq![x]);
    }
}

proof fn lemma_last_newline(s: Seq<char>, a: int, e: int)
    requires
        0 <= a <= e <= s.len(),
        forall|j: int| a <= j < e ==> s[j] != '\n',
        a == 0 || s[a - 1] == '\n',
    ensures
        last_index_of(s.take(e), '\n') == a - 1,
    decreases e,
{
    let t = s.take(e);
    if e == a {
        if a > 0 {
            assert(t.last() == s[a - 1]);
        }
    } else {
        assert(t.last() == s[e - 1]);
        assert(t.drop_last() =~= s.take(e - 1));
        lemma_last_newline(s, a, e - 1);
    }
}

/// The paths in pasted text (see `pasted_paths_of`).
pub fn pasted_paths(data: &str) -> (r: Vec<String>)
    ensures
        texts(r@) == pasted_paths_of(data@),
{
    let cs = chars_of(data);
    let ghost s = data@;
    let mut out: Vec<String> = Vec::new();
    let ghost mut done: Seq<Seq<char>> = Seq::empty();
    let mut en: usize = cs.len();
    let mut i: usize = cs.len();
    assert(s.take(s.len() as int) =~= s);
    while i > 0
        invariant
            cs@ == s,
            s == data@,
            i <= en <= s.len(),
            forall|j: int| i <= j < en ==> s[j] != '\n',
            lines_of(s) == lines_of(s.take(en as int)) + done,
            texts(out@) == non_empty(done.map_values(|l: Seq<char>| trimmed(l))),
        decreases i,
    {
        if cs[i - 1] == '\n' {
            proof {
                lemma_last_newline(s, i as int, en as int);
                let t = s.take(en as int);
                assert(t.take(i - 1) =~= s.take(i - 1));
                assert(t.skip(i as int) =~= s.subrange(i as int, en as int));
            }
            let piece = trim(data.substring_char(i, en));
            let ghost seg = s.subrange(i as int, en as int);
            proof {
                let m = |l: Seq<char>| trimmed(l);
                assert((seq![seg] + done).map_values(m) =~= seq![trimmed(seg)] + done.map_values(m));
                lemma_non_empty_concat(seq![trimmed(seg)], done.map_values(m));
                lemma_non_empty_single(trimmed(seg));
                assert((lines_of(s.take(i - 1)).push(seg)) + done =~= lines_of(s.take(i - 1)) + (
                seq![seg] + done));
                done = seq![seg] + done;
            }
            if piece.as_str().is_empty() {
            } else {
                let ghost before = out@;
                out.insert(0, piece);
                assert(texts(out@) =~= seq![trimmed(seg)] + texts(before));
            }
            en = i - 1;
        }
        i = i - 1;
    }
    proof {
        lemma_last_newline(s, 0, en as int);
    }
    let piece = trim(data.substring_char(0, en));
    let ghost seg = s.take(en as int);
    proof {
        assert(lines_of(s.take(en as int)) =~= seq![seg]);
        let m = |l: Seq<char>| trimmed(l);
        assert((seq![seg] + done).map_values(m) =~= seq![trimmed(seg)] + done.map_values(m));
        lemma_non_empty_concat(seq![trimmed(seg)], done.map_values(m));
        lemma_non_empty_single(trimmed(seg));
        assert(s.subrange(0, en as int) =~= seg);
    }
    if piece.as_str().is_empty() {
    } else {
        let ghost before = out@;
        out.insert(0, piece);
        assert(texts(out@) =~= seq![trimmed(seg)] + texts(before));
    }
    out
}

} // verus!
