//! The browser's state and what each user action and device event does to
//! it. Work on the calculator, the terminal and the file system is left to
//! the caller: where an action needs it, a method returns what is to be
//! done, and another method takes in the outcome.
use vstd::prelude::*;
use std::collections::HashSet;

use crate::config::Config;
use crate::device::{DeviceEvent, DeviceId, DeviceInfo};
use crate::files::{
    EntryType, FileInfo, FileView, any_named, dir_names, directory_names, files_view,
    has_entry_named, in_browser_order, sort_files, texts, tied,
};
use crate::paths::{child_path, child_path_of, extension, extension_of, up_path, up_path_of};
use crate::text::{
    chars_of, concat, contains_chars, ends_with_chars, has_infix, has_suffix, lowercase_of, same_text,
    to_lowercase, trim, trimmed,
};

verus! {

broadcast use vstd::std_specs::hash::group_hash_axioms;

/// What the text input at the bottom is being used for.
#[derive(Debug, Clone, Copy, PartialEq, Eq, Structural)]
pub enum InputMode {
    Normal,
    Editing,
    Mkdir,
    Rename,
}

/// The highlighted row of the file table and the first row shown.
#[derive(Debug, Clone, Copy, PartialEq, Eq)]
pub struct TableState {
    pub selected: Option<usize>,
    pub offset: usize,
}

impl TableState {
    /// Highlights row `index` (none: no row, and the view goes back to the
    /// top).
    pub fn select(&mut self, index: Option<usize>)
        ensures
            final(self).selected == index,
            final(self).offset == (if index is None { 0 } else { old(self).offset }),
    {
        self.selected = index;
        if index.is_none() {
            self.offset = 0;
        }
    }

    /// The highlighted row.
    pub fn selected(&self) -> (r: Option<usize>)
        ensures
            r == self.selected,
    {
        self.selected
    }

    /// The first row shown.
    pub fn offset(&self) -> (r: usize)
        ensures
            r == self.offset,
    {
        self.offset
    }
}

/// The number of messages the log keeps.
pub const LOG_CAPACITY: usize = 5;

/// The log after `msg` is added: the oldest message goes once the log is
/// full.
pub open spec fn push_log(logs: Seq<Seq<char>>, msg: Seq<char>) -> Seq<Seq<char>> {
    (if logs.len() >= LOG_CAPACITY { logs.drop_first() } else { logs }).push(msg)
}

/// The row of a file with name `name` shows for the lower-cased query `q`.
pub open spec fn shown_for(name: Seq<char>, q: Seq<char>) -> bool {
    q.len() == 0 || has_infix(lowercase_of(name), q)
}

/// The indices, in increasing order, of the first `n` entries that show
/// for the lower-cased query `q`.
pub open spec fn shown_indices(files: Seq<FileView>, q: Seq<char>, n: int) -> Seq<usize>
    decreases n,
{
    if n <= 0 {
        Seq::empty()
    } else if shown_for(files[n - 1].name, q) {
        shown_indices(files, q, n - 1).push((n - 1) as usize)
    } else {
        shown_indices(files, q, n - 1)
    }
}

/// The rows shown for the text `input` typed as a filter: the entries whose
/// lower-cased name contains the lower-cased text.
pub open spec fn filter_rows(files: Seq<FileView>, input: Seq<char>) -> Seq<usize> {
    shown_indices(files, lowercase_of(input), files.len() as int)
}

/// The index of the first entry named `name`, or -1.
pub open spec fn first_named(s: Seq<FileView>, name: Seq<char>) -> int
    decreases s.len(),
{
    if s.len() == 0 {
        -1
    } else {
        let k = first_named(s.drop_last(), name);
        if k >= 0 {
            k
        } else if s.last().name == name {
            s.len() - 1
        } else {
            -1
        }
    }
}

/// The table state after moving down among `n` rows: the row below the
/// highlighted one, the first after the last (or where none is
/// highlighted); unchanged when no row shows.
pub open spec fn row_after(t: TableState, n: nat) -> TableState {
    if n == 0 {
        t
    } else {
        TableState {
            selected: Some(
                match t.selected {
                    Some(i) => if i >= n - 1 {
                        0usize
                    } else {
                        (i + 1) as usize
                    },
                    None => 0usize,
                },
            ),
            offset: t.offset,
        }
    }
}

/// The table state after moving up among `n` rows: the row above the
/// highlighted one, the last before the first; the first where none is
/// highlighted; unchanged when no row shows.
pub open spec fn row_before(t: TableState, n: nat) -> TableState {
    if n == 0 {
        t
    } else {
        TableState {
            selected: Some(
                match t.selected {
                    Some(i) => if i == 0 {
                        (n - 1) as usize
                    } else {
                        (i - 1) as usize
                    },
                    None => 0usize,
                },
            ),
            offset: t.offset,
        }
    }
}

/// The marks after toggling the entry of the highlighted row (where that
/// row shows).
pub open spec fn marks_toggled(app: App) -> Set<usize> {
    match app.table_state.selected {
        Some(i) => if i < app.filtered_indices@.len() {
            let r = app.filtered_indices@[i as int];
            if app.selected_indices@.contains(r) {
                app.selected_indices@.remove(r)
            } else {
                app.selected_indices@.insert(r)
            }
        } else {
            app.selected_indices@
        },
        None => app.selected_indices@,
    }
}

/// The entries after a size computed for `name` in view `generation_id`
/// comes in: the first entry of that name takes the size, where the view
/// is the current one; else nothing changes.
pub open spec fn entries_with_size(app: App, name: Seq<char>, size: u64, generation_id: usize) -> Seq<
    FileView,
> {
    let k = first_named(app.entries(), name);
    if generation_id == app.current_view_id && k >= 0 {
        app.entries().update(k, FileView { size, ..app.entries()[k] })
    } else {
        app.entries()
    }
}

/// The browser: what is shown, selected and typed, and the state of the
/// connection and of transfers.
pub struct App {
    pub should_quit: bool,
    pub config: Config,
    pub connected_device: Option<DeviceInfo>,
    pub current_path: String,
    pub all_files: Vec<FileInfo>,
    pub filtered_indices: Vec<usize>,
    pub table_state: TableState,
    pub selected_indices: HashSet<usize>,
    pub logs: Vec<String>,
    pub input_mode: InputMode,
    /// The first line of the text input.
    pub input_line: String,
    pub show_help: bool,
    pub show_confirm_delete: bool,
    pub show_details: bool,
    pub error_message: Option<String>,
    pub is_transferring: bool,
    pub current_view_id: usize,
    pub ndless_installed: bool,
}

impl App {
    /// The state's parts agree: the log holds at most its capacity, the
    /// rows shown are entries in increasing order, and the marked entries
    /// exist.
    pub open spec fn wf(&self) -> bool {
        &&& self.logs@.len() <= LOG_CAPACITY
        &&& self.rows_ok()
        &&& forall|i: usize| #[trigger]
            self.selected_indices@.contains(i) ==> (i as int) < self.all_files@.len()
        &&& self.connected_device is None ==> self.all_files@.len() == 0
            && self.selected_indices@.is_empty()
    }

    /// The rows shown are entries, in increasing order.
    pub open spec fn rows_ok(&self) -> bool {
        &&& forall|k: int|
            0 <= k < self.filtered_indices@.len() ==> #[trigger] self.filtered_indices@[k]
                < self.all_files@.len()
        &&& forall|a: int, b: int|
            0 <= a < b < self.filtered_indices@.len() ==> #[trigger] self.filtered_indices@[a]
                < #[trigger] self.filtered_indices@[b]
    }

    /// The log's messages.
    pub open spec fn log_texts(&self) -> Seq<Seq<char>> {
        texts(self.logs@)
    }

    /// The entries of the current directory.
    pub open spec fn entries(&self) -> Seq<FileView> {
        files_view(self.all_files@)
    }

    /// The entry under the highlighted row, where there is one.
    pub open spec fn cursor_entry(&self) -> Option<int> {
        match self.table_state.selected {
            Some(i) => if i < self.filtered_indices@.len() && self.filtered_indices@[i as int]
                < self.all_files@.len() {
                Some(self.filtered_indices@[i as int] as int)
            } else {
                None
            },
            None => None,
        }
    }

    /// A browser at the root directory, with nothing connected.
    pub fn new(config: Config) -> (app: App)
        ensures
            app.wf(),
            !app.should_quit,
            app.config == config,
            app.connected_device is None,
            app.current_path@ == seq!['/'],
            app.all_files@.len() == 0,
            app.filtered_indices@.len() == 0,
            app.table_state == (TableState { selected: Some(0), offset: 0 }),
            app.selected_indices@.is_empty(),
            app.logs@.len() == 0,
            app.input_mode == InputMode::Normal,
            app.input_line@.len() == 0,
            !app.show_help,
            !app.show_confirm_delete,
            !app.show_details,
            app.error_message is None,
            !app.is_transferring,
            app.current_view_id == 0,
            !app.ndless_installed,
    {
        let root = "/";
        proof {
            reveal_strlit("/");
            assert(root@ =~= seq!['/']);
        }
        App {
            should_quit: false,
            config,
            connected_device: None,
            current_path: String::from_str(root),
            all_files: Vec::new(),
            filtered_indices: Vec::new(),
            table_state: TableState { selected: Some(0), offset: 0 },
            selected_indices: HashSet::new(),
            logs: Vec::new(),
            input_mode: InputMode::Normal,
            input_line: String::new(),
            show_help: false,
            show_confirm_delete: false,
            show_details: false,
            error_message: None,
            is_transferring: false,
            current_view_id: 0,
            ndless_installed: false,
        }
    }

    /// Adds `msg` to the log; the oldest message goes once the log is full.
    pub fn log(&mut self, msg: &str)
        ensures
            final(self).log_texts() == push_log(old(self).log_texts(), msg@),
            *final(self) == (App { logs: final(self).logs, ..*old(self) }),
            old(self).logs@.len() <= LOG_CAPACITY ==> final(self).logs@.len() <= LOG_CAPACITY,
            old(self).wf() ==> final(self).wf(),
    {
        let ghost before = self.logs@;
        if self.logs.len() >= LOG_CAPACITY {
            self.logs.remove(0);
            assert(texts(self.logs@) =~= texts(before).drop_first());
        }
        let ghost mid = self.logs@;
        self.logs.push(String::from_str(msg));
        assert(texts(self.logs@) =~= texts(mid).push(msg@));
    }

    /// Shows `msg` as an error, and logs it.
    pub fn set_error(&mut self, msg: String)
        ensures
            final(self).log_texts() == push_log(old(self).log_texts(), "ERROR: "@ + msg@),
            final(self).error_message == Some(msg),
            *final(self) == (App {
                logs: final(self).logs,
                error_message: final(self).error_message,
                ..*old(self)
            }),
            old(self).wf() ==> final(self).wf(),
    {
        let line = concat("ERROR: ", msg.as_str());
        self.log(line.as_str());
        self.error_message = Some(msg);
    }

    /// Opens or closes the details of the highlighted entry, while a
    /// calculator is connected and a row is highlighted.
    pub fn toggle_details(&mut self)
        ensures
            final(self).show_details == (if old(self).connected_device is Some
                && old(self).table_state.selected is Some {
                !old(self).show_details
            } else {
                old(self).show_details
            }),
            *final(self) == (App { show_details: final(self).show_details, ..*old(self) }),
            old(self).wf() ==> final(self).wf(),
    {
        if self.connected_device.is_some() && self.table_state.selected().is_some() {
            self.show_details = !self.show_details;
        }
    }

    /// Opens or closes the help.
    pub fn toggle_help(&mut self)
        ensures
            *final(self) == (App { show_help: !old(self).show_help, ..*old(self) }),
            old(self).wf() ==> final(self).wf(),
    {
        self.show_help = !self.show_help;
    }

    /// Asks for confirmation before deleting, while a calculator is
    /// connected and something is marked or highlighted.
    pub fn trigger_delete_confirm(&mut self)
        ensures
            final(self).show_confirm_delete == (old(self).show_confirm_delete || (
            old(self).connected_device is Some && (!old(self).selected_indices@.is_empty()
                || old(self).table_state.selected is Some))),
            *final(self) == (App {
                show_confirm_delete: final(self).show_confirm_delete,
                ..*old(self)
            }),
            old(self).wf() ==> final(self).wf(),
    {
        if self.connected_device.is_none() {
            return;
        }
        if !self.selected_indices.is_empty() || self.table_state.selected().is_some() {
            self.show_confirm_delete = true;
        }
    }

    /// Recomputes the rows shown from the filter text, and highlights the
    /// first (none where no row shows).
    pub fn apply_filter(&mut self)
        ensures
            final(self).filtered_indices@ == filter_rows(old(self).entries(), old(self).input_line@),
            final(self).table_state.selected == (if final(self).filtered_indices@.len() == 0 {
                None
            } else {
                Some(0usize)
            }),
            final(self).table_state.offset == (if final(self).filtered_indices@.len() == 0 {
                0
            } else {
                old(self).table_state.offset
            }),
            *final(self) == (App {
                filtered_indices: final(self).filtered_indices,
                table_state: final(self).table_state,
                ..*old(self)
            }),
            final(self).rows_ok(),
            old(self).wf() ==> final(self).wf(),
    {
        self.filtered_indices.clear();
        let query_s = to_lowercase(self.input_line.as_str());
        let query = chars_of(query_s.as_str());
        let ghost files = self.entries();
        let ghost q = query@;
        let mut i: usize = 0;
        while i < self.all_files.len()
            invariant
                files == self.entries(),
                *self == (App { filtered_indices: self.filtered_indices, ..*old(self) }),
                q == query@,
                q == lowercase_of(self.input_line@),
                i <= self.all_files@.len(),
                self.filtered_indices@ == shown_indices(files, q, i as int),
                forall|k: int|
                    0 <= k < self.filtered_indices@.len() ==> #[trigger] self.filtered_indices@[k]
                        < i,
                forall|a: int, b: int|
                    0 <= a < b < self.filtered_indices@.len() ==> #[trigger] self.filtered_indices@[a]
                        < #[trigger] self.filtered_indices@[b],
            decreases self.all_files@.len() - i,
        {
            let shows = if query.len() == 0 {
                true
            } else {
                let name_l = to_lowercase(self.all_files[i].name());
                let name_c = chars_of(name_l.as_str());
                contains_chars(&name_c, &query)
            };
            assert(files[i as int] == self.all_files@[i as int]@);
            if shows {
                self.filtered_indices.push(i);
            }
            i = i + 1;
        }
        if self.filtered_indices.is_empty() {
            self.table_state.select(None);
        } else {
            self.table_state.select(Some(0));
        }
    }

    /// Moves the highlight one row down, wrapping to the first row.
    pub fn next(&mut self)
        ensures
            final(self).table_state == row_after(
                old(self).table_state,
                old(self).filtered_indices@.len(),
            ),
            *final(self) == (App { table_state: final(self).table_state, ..*old(self) }),
            old(self).wf() ==> final(self).wf(),
    {
        let n = self.filtered_indices.len();
        if n == 0 {
            return;
        }
        let i = match self.table_state.selected() {
            Some(i) => if i >= n - 1 {
                0
            } else {
                i + 1
            },
            None => 0,
        };
        self.table_state.select(Some(i));
    }

    /// Moves the highlight one row up, wrapping to the last row.
    pub fn previous(&mut self)
        ensures
            final(self).table_state == row_before(
                old(self).table_state,
                old(self).filtered_indices@.len(),
            ),
            *final(self) == (App { table_state: final(self).table_state, ..*old(self) }),
            old(self).wf() ==> final(self).wf(),
    {
        let n = self.filtered_indices.len();
        if n == 0 {
            return;
        }
        let i = match self.table_state.selected() {
            Some(i) => if i == 0 {
                n - 1
            } else {
                i - 1
            },
            None => 0,
        };
        self.table_state.select(Some(i));
    }

    /// Marks the entry under the highlight, or unmarks it where it was
    /// marked.
    pub fn toggle_selection(&mut self)
        ensures
            final(self).selected_indices@ == marks_toggled(*old(self)),
            *final(self) == (App { selected_indices: final(self).selected_indices, ..*old(self) }),
            old(self).wf() ==> final(self).wf(),
    {
        if let Some(i) = self.table_state.selected() {
            if i < self.filtered_indices.len() {
                let real_idx = self.filtered_indices[i];
                if self.selected_indices.contains(&real_idx) {
                    self.selected_indices.remove(&real_idx);
                } else {
                    self.selected_indices.insert(real_idx);
                }
            }
        }
    }

    /// Unmarks every entry.
    pub fn clear_selection(&mut self)
        ensures
            final(self).selected_indices@.is_empty(),
            *final(self) == (App { selected_indices: final(self).selected_indices, ..*old(self) }),
            old(self).wf() ==> final(self).wf(),
    {
        self.selected_indices.clear();
    }
}

/// What the caller does after a device event.
#[derive(Debug, Clone, Copy, PartialEq, Eq, Structural)]
pub enum EventAction {
    Nothing,
    /// Open the calculator at this place, then hand the outcome to
    /// `connect_finished`.
    Connect(DeviceId),
    /// Close the session with the calculator.
    Disconnect,
}

/// What a tick found.
#[derive(Debug, Clone)]
pub enum Tick {
    Idle,
    /// The transfer is over: set its progress back to 0, and where a path
    /// is given, list it and hand the listing to `load_file_list`.
    TransferDone(Option<String>),
}

/// What `refresh_file_list` does to `before`, giving `after` and `r`:
/// without a calculator the lists are emptied; with one, a new view begins,
/// no row shows until the listing of the current directory (which `r`
/// asks for) comes in.
pub open spec fn refreshed(before: App, after: App, r: Option<String>) -> bool {
    if before.connected_device is None {
        &&& r is None
        &&& after.all_files@.len() == 0
        &&& after.filtered_indices@.len() == 0
        &&& after == (App {
            all_files: after.all_files,
            filtered_indices: after.filtered_indices,
            ..before
        })
    } else {
        &&& r is Some
        &&& r->0@ == before.current_path@
        &&& after.filtered_indices@.len() == 0
        &&& after == (App {
            current_view_id: (before.current_view_id + 1) as usize,
            filtered_indices: after.filtered_indices,
            table_state: TableState { selected: None, offset: 0 },
            ..before
        })
    }
}

/// A refresh can begin a new view.
pub open spec fn can_refresh(app: App) -> bool {
    app.connected_device is Some ==> app.current_view_id < usize::MAX
}

/// The indices below `n` that are in `set`, in increasing order.
pub open spec fn members_below(set: Set<usize>, n: int) -> Seq<usize>
    decreases n,
{
    if n <= 0 {
        Seq::empty()
    } else if set.contains((n - 1) as usize) {
        members_below(set, n - 1).push((n - 1) as usize)
    } else {
        members_below(set, n - 1)
    }
}

/// A file to fetch from the calculator.
#[derive(Debug, Clone)]
pub struct DownloadItem {
    pub remote_path: String,
    pub size: u64,
    pub name: String,
}

/// Files to send to the calculator, into `remote_dir`.
#[derive(Debug, Clone)]
pub struct UploadJob {
    pub remote_dir: String,
    pub local_paths: Vec<String>,
}

/// A file to edit on the host: fetch it, open it, send it back.
#[derive(Debug, Clone)]
pub struct EditPlan {
    pub remote_path: String,
    pub size: u64,
    pub name: String,
    pub extension: String,
}

/// The outcome of confirming a new name.
#[derive(Debug, Clone)]
pub enum RenameStep {
    /// No name was given: back to normal input, nothing else.
    Cancelled,
    /// Rename the entry at the first path to the second, then hand the
    /// outcome to `finish_rename`.
    Rename(String, String),
    /// No entry was highlighted: the view was refreshed; list this path,
    /// where given.
    Refreshed(Option<String>),
}

impl App {
    /// Begins a new view of the current directory. Without a calculator the
    /// lists are emptied and nothing is to be listed; with one, the path to
    /// list is returned, and the listing goes to `load_file_list`.
    pub fn refresh_file_list(&mut self) -> (r: Option<String>)
        requires
            can_refresh(*old(self)),
        ensures
            refreshed(*old(self), *final(self), r),
            old(self).wf() ==> final(self).wf(),
    {
        if self.connected_device.is_none() {
            self.all_files.clear();
            self.filtered_indices.clear();
            return None;
        }
        self.current_view_id = self.current_view_id + 1;
        self.filtered_indices.clear();
        self.table_state.select(None);
        Some(self.current_path.clone())
    }

    /// Takes in the listing of the current directory. Listed entries are
    /// put in the browser's order and filtered, and the names of the
    /// directories among them are returned (their sizes are to be
    /// computed). A failed listing is shown as an error and empties the
    /// view. Either way no entry stays marked.
    pub fn load_file_list(&mut self, listing: Result<Vec<FileInfo>, String>) -> (dirs: Vec<String>)
        requires
            old(self).connected_device is Some,
        ensures
            final(self).selected_indices@.is_empty(),
            final(self).table_state.selected == (if final(self).filtered_indices@.len() == 0 {
                None
            } else {
                Some(0usize)
            }),
            final(self).table_state.offset == (if final(self).filtered_indices@.len() == 0 {
                0
            } else {
                old(self).table_state.offset
            }),
            listing matches Ok(files) ==> {
                &&& final(self).all_files@.to_multiset() == files@.to_multiset()
                &&& in_browser_order(final(self).entries())
                &&& forall|k: FileView| #[trigger] tied(final(self).all_files@, k) == tied(files@, k)
                &&& final(self).filtered_indices@ == filter_rows(
                    final(self).entries(),
                    old(self).input_line@,
                )
                &&& texts(dirs@) == dir_names(final(self).entries())
                &&& *final(self) == (App {
                    all_files: final(self).all_files,
                    filtered_indices: final(self).filtered_indices,
                    table_state: final(self).table_state,
                    selected_indices: final(self).selected_indices,
                    ..*old(self)
                })
            },
            listing matches Err(e) ==> {
                &&& final(self).log_texts() == push_log(
                    old(self).log_texts(),
                    "ERROR: "@ + "Error FS: "@ + e@,
                )
                &&& final(self).error_message is Some
                &&& final(self).error_message->0@ == "Error FS: "@ + e@
                &&& final(self).all_files@.len() == 0
                &&& final(self).filtered_indices@.len() == 0
                &&& dirs@.len() == 0
                &&& *final(self) == (App {
                    all_files: final(self).all_files,
                    filtered_indices: final(self).filtered_indices,
                    table_state: final(self).table_state,
                    selected_indices: final(self).selected_indices,
                    logs: final(self).logs,
                    error_message: final(self).error_message,
                    ..*old(self)
                })
            },
            old(self).wf() ==> final(self).wf(),
    {
        let dirs = match listing {
            Ok(files) => {
                let sorted = sort_files(files);
                let dirs = directory_names(&sorted);
                self.all_files = sorted;
                self.apply_filter();
                dirs
            },
            Err(e) => {
                let msg = concat("Error FS: ", e.as_str());
                proof {
                    assert(("ERROR: "@ + msg@) =~= ("ERROR: "@ + "Error FS: "@ + e@));
                }
                self.set_error(msg);
                self.all_files.clear();
                self.filtered_indices.clear();
                Vec::new()
            },
        };
        self.selected_indices.clear();
        if self.filtered_indices.is_empty() {
            self.table_state.select(None);
        } else {
            self.table_state.select(Some(0));
        }
        dirs
    }

    /// Gives the entry named `name` the size computed for it, where the
    /// computation belongs to the current view (`generation_id`) and such
    /// an entry exists (the first of that name).
    pub fn apply_dir_size(&mut self, name: &str, size: u64, generation_id: usize)
        ensures
            final(self).entries() == entries_with_size(*old(self), name@, size, generation_id),
            final(self).all_files@.len() == old(self).all_files@.len(),
            *final(self) == (App { all_files: final(self).all_files, ..*old(self) }),
            old(self).wf() ==> final(self).wf(),
    {
        if generation_id != self.current_view_id {
            return;
        }
        let ghost files = self.entries();
        let mut i: usize = 0;
        while i < self.all_files.len()
            invariant
                files == self.entries(),
                *self == *old(self),
                generation_id == old(self).current_view_id,
                i <= self.all_files@.len(),
                first_named(files.take(i as int), name@) == -1,
            decreases self.all_files@.len() - i,
        {
            proof {
                let t = files.take(i + 1);
                assert(t.drop_last() =~= files.take(i as int));
                assert(t.last() == self.all_files@[i as int]@);
            }
            if same_text(self.all_files[i].name(), name) {
                proof {
                    lemma_first_named_prefix(files, name@, i as int);
                }
                let mut f = self.all_files[i].duplicate();
                f.set_size(size);
                self.all_files.set(i, f);
                assert(self.entries() =~= files.update(
                    i as int,
                    FileView { size, ..files[i as int] },
                ));
                return;
            }
            i = i + 1;
        }
        proof {
            assert(files.take(files.len() as int) =~= files);
        }
    }

    /// Handles an event from the hot-plug monitor or the size computation.
    /// An arrival is logged and asks for the calculator to be opened. A
    /// departure is logged and clears the view (a new view begins, so that
    /// late size results are ignored). A computed size goes to
    /// `apply_dir_size`.
    pub fn handle_event(&mut self, event: DeviceEvent) -> (a: EventAction)
        requires
            event is Disconnected ==> old(self).current_view_id < usize::MAX,
        ensures
            event matches DeviceEvent::Connected(meta) ==> {
                &&& a == EventAction::Connect(meta.id)
                &&& final(self).log_texts() == push_log(
                    old(self).log_texts(),
                    "USB: Detectado ("@ + meta.name@ + ")"@,
                )
                &&& *final(self) == (App { logs: final(self).logs, ..*old(self) })
            },
            event is Disconnected ==> {
                &&& a == EventAction::Disconnect
                &&& final(self).log_texts() == push_log(
                    old(self).log_texts(),
                    "USB: Desconectado"@,
                )
                &&& final(self).all_files@.len() == 0
                &&& final(self).filtered_indices@.len() == 0
                &&& final(self).selected_indices@.is_empty()
                &&& *final(self) == (App {
                    logs: final(self).logs,
                    connected_device: None,
                    all_files: final(self).all_files,
                    filtered_indices: final(self).filtered_indices,
                    selected_indices: final(self).selected_indices,
                    show_confirm_delete: false,
                    is_transferring: false,
                    current_view_id: (old(self).current_view_id + 1) as usize,
                    ..*old(self)
                })
            },
            event matches DeviceEvent::DirSizeComputed { name, size, generation_id } ==> {
                &&& a == EventAction::Nothing
                &&& final(self).entries() == entries_with_size(
                    *old(self),
                    name@,
                    size,
                    generation_id,
                )
                &&& *final(self) == (App { all_files: final(self).all_files, ..*old(self) })
            },
            old(self).wf() ==> final(self).wf(),
    {
        match event {
            DeviceEvent::Connected(meta) => {
                let mut msg = concat("USB: Detectado (", meta.name.as_str());
                msg.append(")");
                self.log(msg.as_str());
                EventAction::Connect(meta.id)
            },
            DeviceEvent::Disconnected => {
                self.log("USB: Desconectado");
                self.connected_device = None;
                self.all_files.clear();
                self.filtered_indices.clear();
                self.selected_indices.clear();
                self.show_confirm_delete = false;
                self.is_transferring = false;
                self.current_view_id = self.current_view_id + 1;
                EventAction::Disconnect
            },
            DeviceEvent::DirSizeComputed { name, size, generation_id } => {
                self.apply_dir_size(name.as_str(), size, generation_id);
                EventAction::Nothing
            },
        }
    }

    /// Takes in the outcome of opening the calculator: on success it becomes
    /// the connected device and true is returned (the caller then lists the
    /// root for `detect_ndless`, and refreshes); a failure is logged.
    pub fn connect_finished(&mut self, result: Result<DeviceInfo, String>) -> (ok: bool)
        ensures
            ok == result is Ok,
            result matches Ok(info) ==> {
                &&& final(self).log_texts() == push_log(
                    old(self).log_texts(),
                    "USB: Conectado a "@ + info.name@,
                )
                &&& *final(self) == (App {
                    logs: final(self).logs,
                    connected_device: Some(info),
                    ..*old(self)
                })
            },
            result matches Err(e) ==> {
                &&& final(self).log_texts() == push_log(old(self).log_texts(), "ERROR: "@ + e@)
                &&& *final(self) == (App { logs: final(self).logs, ..*old(self) })
            },
            old(self).wf() ==> final(self).wf(),
    {
        match result {
            Ok(info) => {
                let msg = concat("USB: Conectado a ", info.name.as_str());
                self.connected_device = Some(info);
                self.log(msg.as_str());
                true
            },
            Err(e) => {
                let msg = concat("ERROR: ", e.as_str());
                self.log(msg.as_str());
                false
            },
        }
    }

    /// Takes in the listing of the root directory: Ndless counts as
    /// installed where the root holds an entry named `ndless`. A failed
    /// listing changes nothing.
    pub fn detect_ndless(&mut self, root: Result<Vec<FileInfo>, String>)
        ensures
            root matches Ok(files) ==> *final(self) == (App {
                ndless_installed: has_entry_named(
                    files_view(files@),
                    seq!['n', 'd', 'l', 'e', 's', 's'],
                ),
                ..*old(self)
            }),
            root is Err ==> *final(self) == *old(self),
            old(self).wf() ==> final(self).wf(),
    {
        if let Ok(files) = root {
            let ndless = "ndless";
            proof {
                reveal_strlit("ndless");
                assert(ndless@ =~= seq!['n', 'd', 'l', 'e', 's', 's']);
            }
            self.ndless_installed = any_named(&files, ndless);
        }
    }

    /// Ends a finished transfer: once one is under way and its progress
    /// has reached 100, it is over and the view is refreshed.
    pub fn on_tick(&mut self, progress: usize) -> (t: Tick)
        requires
            old(self).is_transferring && progress >= 100 ==> can_refresh(*old(self)),
        ensures
            !(old(self).is_transferring && progress >= 100) ==> t is Idle && *final(self)
                == *old(self),
            old(self).is_transferring && progress >= 100 ==> (t matches Tick::TransferDone(r)
                && refreshed(App { is_transferring: false, ..*old(self) }, *final(self), r)),
            old(self).wf() ==> final(self).wf(),
    {
        if self.is_transferring && progress >= 100 {
            self.is_transferring = false;
            let r = self.refresh_file_list();
            Tick::TransferDone(r)
        } else {
            Tick::Idle
        }
    }
}

impl App {
    /// The facts about the file under the highlight, where it is a file:
    /// its path, its size and its name.
    pub open spec fn selected_file(&self) -> Option<(Seq<char>, u64, Seq<char>)> {
        match self.cursor_entry() {
            Some(k) => {
                let f = self.entries()[k];
                if f.entry_type == EntryType::Directory {
                    None
                } else {
                    Some((child_path_of(self.current_path@, f.name), f.size, f.name))
                }
            },
            None => None,
        }
    }

    /// The entries an action on "the selection" applies to: the marked
    /// ones in increasing order where any is marked, else the one under the
    /// highlight.
    pub open spec fn action_targets(&self) -> Seq<usize> {
        if !self.selected_indices@.is_empty() {
            members_below(self.selected_indices@, self.all_files@.len() as int)
        } else {
            match self.cursor_entry() {
                Some(k) => seq![k as usize],
                None => Seq::empty(),
            }
        }
    }

    /// The paths of the entries an action on the selection applies to.
    pub open spec fn target_paths(&self) -> Seq<Seq<char>> {
        self.action_targets().map_values(
            |k: usize| child_path_of(self.current_path@, self.entries()[k as int].name),
        )
    }

    /// Whether a download starts: a calculator is connected, no transfer is
    /// under way, and some entry is marked or some row highlighted.
    pub open spec fn download_starts(&self) -> bool {
        &&& self.connected_device is Some
        &&& !self.is_transferring
        &&& (!self.selected_indices@.is_empty() || (self.table_state.selected is Some
            && self.table_state.selected->0 < self.filtered_indices@.len()))
    }

    /// The index into the entries of the highlighted row, where there is
    /// one.
    pub fn cursor(&self) -> (r: Option<usize>)
        ensures
            r matches Some(k) ==> self.cursor_entry() == Some(k as int),
            r is None ==> self.cursor_entry() is None,
    {
        match self.table_state.selected() {
            Some(i) => if i < self.filtered_indices.len() && self.filtered_indices[i]
                < self.all_files.len() {
                Some(self.filtered_indices[i])
            } else {
                None
            },
            None => None,
        }
    }

    /// Starts typing a filter.
    pub fn enter_search(&mut self)
        ensures
            final(self).input_line@.len() == 0,
            *final(self) == (App {
                input_mode: InputMode::Editing,
                input_line: final(self).input_line,
                ..*old(self)
            }),
            old(self).wf() ==> final(self).wf(),
    {
        self.input_mode = InputMode::Editing;
        self.input_line = String::new();
    }

    /// Stops typing the filter, and applies it.
    pub fn exit_search(&mut self)
        ensures
            final(self).filtered_indices@ == filter_rows(old(self).entries(), old(self).input_line@),
            final(self).table_state.selected == (if final(self).filtered_indices@.len() == 0 {
                None
            } else {
                Some(0usize)
            }),
            final(self).table_state.offset == (if final(self).filtered_indices@.len() == 0 {
                0
            } else {
                old(self).table_state.offset
            }),
            *final(self) == (App {
                input_mode: InputMode::Normal,
                filtered_indices: final(self).filtered_indices,
                table_state: final(self).table_state,
                ..*old(self)
            }),
            old(self).wf() ==> final(self).wf(),
    {
        self.input_mode = InputMode::Normal;
        self.apply_filter();
    }

    /// Replaces the text typed so far; while it is a filter, the rows shown
    /// follow it.
    pub fn set_input(&mut self, line: String)
        ensures
            old(self).input_mode != InputMode::Editing ==> *final(self) == (App {
                input_line: line,
                ..*old(self)
            }),
            old(self).input_mode == InputMode::Editing ==> {
                &&& final(self).filtered_indices@ == filter_rows(old(self).entries(), line@)
                &&& final(self).table_state.selected == (if final(self).filtered_indices@.len()
                    == 0 {
                    None
                } else {
                    Some(0usize)
                })
                &&& final(self).table_state.offset == (if final(self).filtered_indices@.len()
                    == 0 {
                    0
                } else {
                    old(self).table_state.offset
                })
                &&& *final(self) == (App {
                    input_line: line,
                    filtered_indices: final(self).filtered_indices,
                    table_state: final(self).table_state,
                    ..*old(self)
                })
            },
            old(self).wf() ==> final(self).wf(),
    {
        self.input_line = line;
        if self.input_mode == InputMode::Editing {
            self.apply_filter();
        }
    }

    /// Starts typing the name of a new directory.
    pub fn enter_mkdir(&mut self)
        ensures
            final(self).input_line@.len() == 0,
            *final(self) == (App {
                input_mode: InputMode::Mkdir,
                input_line: final(self).input_line,
                ..*old(self)
            }),
            old(self).wf() ==> final(self).wf(),
    {
        self.input_mode = InputMode::Mkdir;
        self.input_line = String::new();
    }

    /// Confirms the new directory's name (the text typed, trimmed). With no
    /// name, typing ends and nothing else happens; else the path to create
    /// and the name are returned, for `finish_mkdir`.
    pub fn submit_mkdir(&mut self) -> (r: Option<(String, String)>)
        ensures
            trimmed(old(self).input_line@).len() == 0 ==> r is None && *final(self) == (App {
                input_mode: InputMode::Normal,
                ..*old(self)
            }),
            trimmed(old(self).input_line@).len() > 0 ==> (r matches Some(t) && t.0@ == child_path_of(
                old(self).current_path@,
                trimmed(old(self).input_line@),
            ) && t.1@ == trimmed(old(self).input_line@) && *final(self) == *old(self)),
            old(self).wf() ==> final(self).wf(),
    {
        let name = trim(self.input_line.as_str());
        if name.as_str().is_empty() {
            self.input_mode = InputMode::Normal;
            return None;
        }
        let path = child_path(self.current_path.as_str(), name.as_str());
        Some((path, name))
    }

    /// Takes in the outcome of creating directory `name`: it is logged,
    /// typing ends, and the view is refreshed.
    pub fn finish_mkdir(&mut self, name: &str, result: Result<(), String>) -> (r: Option<String>)
        requires
            can_refresh(*old(self)),
        ensures
            ({
                let msg = match result {
                    Ok(_) => "Carpeta creada: "@ + name@,
                    Err(e) => "Error mkdir: "@ + e@,
                };
                &&& final(self).log_texts() == push_log(old(self).log_texts(), msg)
                &&& refreshed(
                    App { logs: final(self).logs, input_mode: InputMode::Normal, ..*old(self) },
                    *final(self),
                    r,
                )
            }),
            old(self).wf() ==> final(self).wf(),
    {
        match result {
            Ok(_) => {
                let msg = concat("Carpeta creada: ", name);
                self.log(msg.as_str());
            },
            Err(e) => {
                let msg = concat("Error mkdir: ", e.as_str());
                self.log(msg.as_str());
            },
        }
        self.input_mode = InputMode::Normal;
        let ghost mid = *self;
        let r = self.refresh_file_list();
        assert(refreshed(mid, *self, r));
        r
    }

    /// Starts typing a new name for the entry under the highlight, with its
    /// present name as the text; nothing happens where no entry is
    /// highlighted.
    pub fn enter_rename(&mut self)
        ensures
            old(self).cursor_entry() is None ==> *final(self) == *old(self),
            old(self).cursor_entry() matches Some(k) ==> final(self).input_line@ == old(
                self,
            ).entries()[k].name && *final(self) == (App {
                input_mode: InputMode::Rename,
                input_line: final(self).input_line,
                ..*old(self)
            }),
            old(self).wf() ==> final(self).wf(),
    {
        if let Some(k) = self.cursor() {
            let name = String::from_str(self.all_files[k].name());
            assert(self.all_files@[k as int]@ == self.entries()[k as int]);
            self.input_line = name;
            self.input_mode = InputMode::Rename;
        }
    }

    /// Confirms the new name (the text typed, trimmed). With no name,
    /// typing ends; with an entry under the highlight, its old and new
    /// paths are returned, for `finish_rename`; else typing ends and the
    /// view is refreshed.
    pub fn submit_rename(&mut self) -> (r: RenameStep)
        requires
            trimmed(old(self).input_line@).len() > 0 && old(self).cursor_entry() is None
                ==> can_refresh(*old(self)),
        ensures
            ({
                let new_name = trimmed(old(self).input_line@);
                if new_name.len() == 0 {
                    r is Cancelled && *final(self) == (App {
                        input_mode: InputMode::Normal,
                        ..*old(self)
                    })
                } else {
                    match old(self).cursor_entry() {
                        Some(k) => r matches RenameStep::Rename(from, to) && from@
                            == child_path_of(old(self).current_path@, old(self).entries()[k].name)
                            && to@ == child_path_of(old(self).current_path@, new_name)
                            && *final(self) == *old(self),
                        None => r matches RenameStep::Refreshed(q) && refreshed(
                            App { input_mode: InputMode::Normal, ..*old(self) },
                            *final(self),
                            q,
                        ),
                    }
                }
            }),
            old(self).wf() ==> final(self).wf(),
    {
        let new_name = trim(self.input_line.as_str());
        if new_name.as_str().is_empty() {
            self.input_mode = InputMode::Normal;
            return RenameStep::Cancelled;
        }
        match self.cursor() {
            Some(k) => {
                assert(self.all_files@[k as int]@ == self.entries()[k as int]);
                let from = child_path(self.current_path.as_str(), self.all_files[k].name());
                let to = child_path(self.current_path.as_str(), new_name.as_str());
                RenameStep::Rename(from, to)
            },
            None => {
                self.input_mode = InputMode::Normal;
                let q = self.refresh_file_list();
                RenameStep::Refreshed(q)
            },
        }
    }

    /// Takes in the outcome of a rename: a failure is shown as an error, a
    /// success logged; typing ends and the view is refreshed.
    pub fn finish_rename(&mut self, result: Result<(), String>) -> (r: Option<String>)
        requires
            can_refresh(*old(self)),
        ensures
            match result {
                Ok(_) => final(self).log_texts() == push_log(
                    old(self).log_texts(),
                    "Renombrado exitoso."@,
                ),
                Err(e) => final(self).log_texts() == push_log(
                    old(self).log_texts(),
                    "ERROR: "@ + "Renombrar falló: "@ + e@,
                ) && final(self).error_message is Some && final(self).error_message->0@
                    == "Renombrar falló: "@ + e@,
            },
            refreshed(
                App {
                    logs: final(self).logs,
                    error_message: if result is Ok {
                        old(self).error_message
                    } else {
                        final(self).error_message
                    },
                    input_mode: InputMode::Normal,
                    ..*old(self)
                },
                *final(self),
                r,
            ),
            old(self).wf() ==> final(self).wf(),
    {
        match result {
            Ok(_) => {
                self.log("Renombrado exitoso.");
            },
            Err(e) => {
                let msg = concat("Renombrar falló: ", e.as_str());
                proof {
                    assert(("ERROR: "@ + msg@) =~= ("ERROR: "@ + "Renombrar falló: "@ + e@));
                }
                self.set_error(msg);
            },
        }
        self.input_mode = InputMode::Normal;
        let ghost mid = *self;
        let r = self.refresh_file_list();
        assert(refreshed(mid, *self, r));
        r
    }

    /// Opens the directory under the highlight: it becomes the current
    /// path, typing ends and the view is refreshed. Nothing happens where no
    /// directory is highlighted.
    pub fn enter_selected(&mut self) -> (r: Option<String>)
        requires
            match old(self).cursor_entry() {
                Some(k) => old(self).entries()[k].entry_type == EntryType::Directory ==> can_refresh(
                    *old(self),
                ),
                None => true,
            },
        ensures
            match old(self).cursor_entry() {
                Some(k) => if old(self).entries()[k].entry_type == EntryType::Directory {
                    &&& final(self).current_path@ == child_path_of(
                        old(self).current_path@,
                        old(self).entries()[k].name,
                    )
                    &&& refreshed(
                        App {
                            current_path: final(self).current_path,
                            input_mode: InputMode::Normal,
                            ..*old(self)
                        },
                        *final(self),
                        r,
                    )
                } else {
                    r is None && *final(self) == *old(self)
                },
                None => r is None && *final(self) == *old(self),
            },
            old(self).wf() ==> final(self).wf(),
    {
        if let Some(k) = self.cursor() {
            assert(self.all_files@[k as int]@ == self.entries()[k as int]);
            if self.all_files[k].is_dir() {
                let p = child_path(self.current_path.as_str(), self.all_files[k].name());
                self.current_path = p;
                self.input_mode = InputMode::Normal;
                return self.refresh_file_list();
            }
        }
        None
    }

    /// Goes to the parent directory (see `up_path_of`): it becomes the
    /// current path, typing ends and the view is refreshed. Nothing happens
    /// at the root, nor where the path has no parent.
    pub fn go_up(&mut self) -> (r: Option<String>)
        requires
            up_path_of(old(self).current_path@) is Some ==> can_refresh(*old(self)),
        ensures
            match up_path_of(old(self).current_path@) {
                Some(q) => final(self).current_path@ == q && refreshed(
                    App {
                        current_path: final(self).current_path,
                        input_mode: InputMode::Normal,
                        ..*old(self)
                    },
                    *final(self),
                    r,
                ),
                None => r is None && *final(self) == *old(self),
            },
            old(self).wf() ==> final(self).wf(),
    {
        match up_path(self.current_path.as_str()) {
            Some(p) => {
                self.current_path = p;
                self.input_mode = InputMode::Normal;
                self.refresh_file_list()
            },
            None => None,
        }
    }

    /// Marks every shown entry whose name ends with `ext`, neither being
    /// told apart by case, and logs it.
    pub fn select_all_by_ext(&mut self, ext: &str)
        ensures
            final(self).selected_indices@ == old(self).selected_indices@.union(
                Set::new(|i: usize| ext_match(*old(self), ext@, i)),
            ),
            final(self).log_texts() == push_log(
                old(self).log_texts(),
                "Seleccionados todos los "@ + lowercase_of(ext@),
            ),
            *final(self) == (App {
                selected_indices: final(self).selected_indices,
                logs: final(self).logs,
                ..*old(self)
            }),
            old(self).wf() ==> final(self).wf(),
    {
        let ext_l = to_lowercase(ext);
        let ext_c = chars_of(ext_l.as_str());
        let mut j: usize = 0;
        while j < self.filtered_indices.len()
            invariant
                *self == (App { selected_indices: self.selected_indices, ..*old(self) }),
                ext_c@ == lowercase_of(ext@),
                j <= self.filtered_indices@.len(),
                self.selected_indices@ == old(self).selected_indices@.union(
                    Set::new(
                        |i: usize|
                            ext_match(*old(self), ext@, i) && self.filtered_indices@.take(
                                j as int,
                            ).contains(i),
                    ),
                ),
            decreases self.filtered_indices@.len() - j,
        {
            let idx = self.filtered_indices[j];
            let mut hit = false;
            if idx < self.all_files.len() {
                let name_l = to_lowercase(self.all_files[idx].name());
                let name_c = chars_of(name_l.as_str());
                assert(self.all_files@[idx as int]@ == self.entries()[idx as int]);
                assert(self.entries() == old(self).entries());
                hit = ends_with_chars(&name_c, &ext_c);
            }
            if hit {
                self.selected_indices.insert(idx);
            }
            proof {
                let f = self.filtered_indices@;
                assert(f.contains(idx)) by {
                    assert(f[j as int] == idx);
                }
                assert(hit == ext_match(*old(self), ext@, idx));
                assert forall|i: usize|
                    f.take(j + 1).contains(i) == (f.take(j as int).contains(i) || i == idx) by {
                    if f.take(j as int).contains(i) {
                        let t = choose|t: int| 0 <= t < j && #[trigger] f.take(j as int)[t] == i;
                        assert(f.take(j + 1)[t] == i);
                    }
                    if i == idx {
                        assert(f.take(j + 1)[j as int] == i);
                    }
                    if f.take(j + 1).contains(i) {
                        let t = choose|t: int| 0 <= t < j + 1 && #[trigger] f.take(j + 1)[t] == i;
                        if t < j {
                            assert(f.take(j as int)[t] == i);
                        }
                    }
                }
                assert(self.selected_indices@ =~= old(self).selected_indices@.union(
                    Set::new(|i: usize| ext_match(*old(self), ext@, i) && f.take(j + 1).contains(i)),
                ));
            }
            j = j + 1;
        }
        proof {
            assert(self.filtered_indices@.take(self.filtered_indices@.len() as int)
                =~= self.filtered_indices@);
            assert(self.selected_indices@ =~= old(self).selected_indices@.union(
                Set::new(|i: usize| ext_match(*old(self), ext@, i)),
            ));
        }
        let msg = concat("Seleccionados todos los ", ext_l.as_str());
        self.log(msg.as_str());
    }

    /// The path, size and name of the file under the highlight; none where
    /// no row is highlighted or it is a directory.
    pub fn get_selected_file_info(&self) -> (r: Option<(String, u64, String)>)
        ensures
            r matches Some(t) ==> self.selected_file() == Some((t.0@, t.1, t.2@)),
            r is None ==> self.selected_file() is None,
    {
        let k = match self.cursor() {
            Some(k) => k,
            None => return None,
        };
        assert(self.all_files@[k as int]@ == self.entries()[k as int]);
        let file = &self.all_files[k];
        if file.is_dir() {
            return None;
        }
        let name = String::from_str(file.name());
        let path = child_path(self.current_path.as_str(), name.as_str());
        Some((path, file.size(), name))
    }

    /// The entries an action on the selection applies to (see
    /// `action_targets`).
    pub fn targets(&self) -> (r: Vec<usize>)
        ensures
            r@ == self.action_targets(),
    {
        let mut r: Vec<usize> = Vec::new();
        if !self.selected_indices.is_empty() {
            let mut k: usize = 0;
            while k < self.all_files.len()
                invariant
                    k <= self.all_files@.len(),
                    r@ == members_below(self.selected_indices@, k as int),
                decreases self.all_files@.len() - k,
            {
                if self.selected_indices.contains(&k) {
                    r.push(k);
                }
                k = k + 1;
            }
        } else if let Some(k) = self.cursor() {
            r.push(k);
            assert(r@ =~= seq![k]);
        }
        r
    }

    /// The paths of the entries to delete: none (nothing happens) without a
    /// calculator; else those of `target_paths`, each to be deleted and
    /// handed to `record_deletion`, after which the view is refreshed.
    pub fn delete_selected_items(&self) -> (r: Option<Vec<String>>)
        ensures
            self.connected_device is None ==> r is None,
            self.connected_device is Some ==> r is Some && texts(r->0@) == self.target_paths(),
    {
        if self.connected_device.is_none() {
            return None;
        }
        let ts = self.targets();
        let mut paths: Vec<String> = Vec::new();
        let mut j: usize = 0;
        while j < ts.len()
            invariant
                self.connected_device is Some,
                ts@ == self.action_targets(),
                j <= ts@.len(),
                texts(paths@) == self.target_paths().take(j as int),
            decreases ts@.len() - j,
        {
            let k = ts[j];
            proof {
                if !self.selected_indices@.is_empty() {
                    members_below_bounded(self.selected_indices@, self.all_files@.len() as int);
                    assert((members_below(self.selected_indices@, self.all_files@.len() as int)[
                    j as int] as int) < self.all_files@.len());
                }
            }
            assert(self.all_files@[k as int]@ == self.entries()[k as int]);
            let p = child_path(self.current_path.as_str(), self.all_files[k].name());
            let ghost before = paths@;
            paths.push(p);
            proof {
                assert(self.target_paths()[j as int] == p@);
                assert(texts(paths@) =~= texts(before).push(p@));
                assert(self.target_paths().take(j + 1) =~= self.target_paths().take(
                    j as int,
                ).push(p@));
            }
            j = j + 1;
        }
        assert(self.target_paths().take(ts@.len() as int) =~= self.target_paths());
        Some(paths)
    }

    /// Takes in the outcome of deleting `path`: a failure is shown as an
    /// error, a success logged.
    pub fn record_deletion(&mut self, path: &str, result: Result<(), String>)
        ensures
            result is Ok ==> final(self).log_texts() == push_log(
                old(self).log_texts(),
                "Borrado: "@ + path@,
            ) && *final(self) == (App { logs: final(self).logs, ..*old(self) }),
            result matches Err(e) ==> {
                let m = "Borrado falló ("@ + path@ + "): "@ + e@;
                &&& final(self).log_texts() == push_log(old(self).log_texts(), "ERROR: "@ + m)
                &&& final(self).error_message is Some
                &&& final(self).error_message->0@ == m
                &&& *final(self) == (App {
                    logs: final(self).logs,
                    error_message: final(self).error_message,
                    ..*old(self)
                })
            },
            old(self).wf() ==> final(self).wf(),
    {
        match result {
            Ok(_) => {
                let msg = concat("Borrado: ", path);
                self.log(msg.as_str());
            },
            Err(e) => {
                let mut msg = concat("Borrado falló (", path);
                msg.append("): ");
                msg.append(e.as_str());
                self.set_error(msg);
            },
        }
    }
}

/// `item` describes entry `k` of `app` for a download: its path, its
/// size and its name.
pub open spec fn describes(item: DownloadItem, app: App, k: usize) -> bool {
    &&& item.remote_path@ == child_path_of(app.current_path@, app.entries()[k as int].name)
    &&& item.size == app.entries()[k as int].size
    &&& item.name@ == app.entries()[k as int].name
}

/// The name of the file a screenshot taken at `timestamp` is saved as.
pub open spec fn screenshot_name(timestamp: Seq<char>) -> Seq<char> {
    "nspire_screenshot_"@ + timestamp + ".png"@
}

/// The advice logged before editing a file with extension `ext`.
pub open spec fn edit_notice(ext: Seq<char>) -> Option<Seq<char>> {
    if ext == "py"@ {
        Some("AVISO: MicroPython detectado. Solo módulos ti_* permitidos."@)
    } else if ext == "lua"@ {
        Some("AVISO: Nspire Lua detectado. API de eventos activa."@)
    } else if ext == "c"@ || ext == "h"@ || ext == "cpp"@ {
        Some("AVISO: Código C/C++. Requiere Ndless SDK para generar .tns."@)
    } else {
        None
    }
}

/// The extension a file is edited under: its own, or `txt`.
pub open spec fn edit_extension(name: Seq<char>) -> Seq<char> {
    match extension_of(name) {
        Some(e) => e,
        None => "txt"@,
    }
}

impl App {
    /// Starts a download of the entries an action on the selection applies
    /// to, where `download_starts`: the transfer is then under way, and for
    /// each target its path, size and name are returned (the caller fetches
    /// them into the download directory). Else nothing happens.
    pub fn download_selected_items(&mut self) -> (r: Option<Vec<DownloadItem>>)
        ensures
            !old(self).download_starts() ==> r is None && *final(self) == *old(self),
            old(self).download_starts() ==> {
                &&& r is Some
                &&& r->0@.len() == old(self).action_targets().len()
                &&& forall|t: int|
                    0 <= t < r->0@.len() ==> describes(
                        #[trigger] r->0@[t],
                        *old(self),
                        old(self).action_targets()[t],
                    )
                &&& *final(self) == (App { is_transferring: true, ..*old(self) })
            },
            old(self).wf() ==> final(self).wf(),
    {
        if self.connected_device.is_none() || self.is_transferring {
            return None;
        }
        let starts = !self.selected_indices.is_empty() || match self.table_state.selected() {
            Some(i) => i < self.filtered_indices.len(),
            None => false,
        };
        if !starts {
            return None;
        }
        let ts = self.targets();
        let mut items: Vec<DownloadItem> = Vec::new();
        let mut j: usize = 0;
        while j < ts.len()
            invariant
                ts@ == self.action_targets(),
                j <= ts@.len(),
                items@.len() == j,
                forall|t: int| 0 <= t < j ==> describes(#[trigger] items@[t], *self, ts@[t]),
            decreases ts@.len() - j,
        {
            let k = ts[j];
            proof {
                if !self.selected_indices@.is_empty() {
                    members_below_bounded(self.selected_indices@, self.all_files@.len() as int);
                    assert((members_below(self.selected_indices@, self.all_files@.len() as int)[
                    j as int] as int) < self.all_files@.len());
                }
            }
            assert(self.all_files@[k as int]@ == self.entries()[k as int]);
            let name = String::from_str(self.all_files[k].name());
            let remote_path = child_path(self.current_path.as_str(), name.as_str());
            let item = DownloadItem { remote_path, size: self.all_files[k].size(), name };
            items.push(item);
            j = j + 1;
        }
        self.is_transferring = true;
        Some(items)
    }

    /// Starts sending the files at `paths` (each trimmed) into the current
    /// directory, where a calculator is connected and no transfer is under
    /// way; the transfer is then under way. Else nothing happens.
    pub fn upload_files(&mut self, paths: Vec<String>) -> (r: Option<UploadJob>)
        ensures
            (old(self).connected_device is None || old(self).is_transferring) ==> r is None
                && *final(self) == *old(self),
            (old(self).connected_device is Some && !old(self).is_transferring) ==> {
                &&& r is Some
                &&& r->0.remote_dir@ == old(self).current_path@
                &&& texts(r->0.local_paths@) == paths@.map_values(|p: String| trimmed(p@))
                &&& *final(self) == (App { is_transferring: true, ..*old(self) })
            },
            old(self).wf() ==> final(self).wf(),
    {
        if self.connected_device.is_none() || self.is_transferring {
            return None;
        }
        let mut local_paths: Vec<String> = Vec::new();
        let mut j: usize = 0;
        while j < paths.len()
            invariant
                j <= paths@.len(),
                texts(local_paths@) == paths@.map_values(|p: String| trimmed(p@)).take(
                    j as int,
                ),
            decreases paths@.len() - j,
        {
            let t = trim(paths[j].as_str());
            let ghost before = local_paths@;
            local_paths.push(t);
            assert(texts(local_paths@) =~= texts(before).push(t@));
            assert(texts(local_paths@) =~= paths@.map_values(|p: String| trimmed(p@)).take(
                j + 1,
            ));
            j = j + 1;
        }
        assert(paths@.map_values(|p: String| trimmed(p@)).take(paths@.len() as int)
            =~= paths@.map_values(|p: String| trimmed(p@)));
        self.is_transferring = true;
        Some(UploadJob { remote_dir: self.current_path.clone(), local_paths })
    }

    /// The name to save a screenshot taken at `timestamp` under (in the
    /// download directory); none without a calculator.
    pub fn take_screenshot(&self, timestamp: &str) -> (r: Option<String>)
        ensures
            self.connected_device is None ==> r is None,
            self.connected_device is Some ==> r is Some && r->0@ == screenshot_name(timestamp@),
    {
        if self.connected_device.is_none() {
            return None;
        }
        let mut n = concat("nspire_screenshot_", timestamp);
        n.append(".png");
        Some(n)
    }

    /// Takes in the outcome of saving a screenshot at `shown_path` (the
    /// path as it is to be shown): it is logged.
    pub fn record_screenshot(&mut self, shown_path: &str, result: Result<(), String>)
        ensures
            final(self).log_texts() == push_log(
                old(self).log_texts(),
                match result {
                    Ok(_) => "Captura guardada: "@ + shown_path@,
                    Err(e) => "Error captura: "@ + e@,
                },
            ),
            *final(self) == (App { logs: final(self).logs, ..*old(self) }),
            old(self).wf() ==> final(self).wf(),
    {
        match result {
            Ok(_) => {
                let msg = concat("Captura guardada: ", shown_path);
                self.log(msg.as_str());
            },
            Err(e) => {
                let msg = concat("Error captura: ", e.as_str());
                self.log(msg.as_str());
            },
        }
    }

    /// Starts editing the file under the highlight on the host. A `.tns`
    /// document (told apart by case-insensitive suffix) is refused with an
    /// error; else advice for its kind of script, then its name, are logged,
    /// and its path, size, name and extension are returned (the caller
    /// fetches it, opens the editor, and hands the outcome of sending it
    /// back to `finish_edit`). Nothing happens where no file is
    /// highlighted.
    pub fn edit_selected(&mut self) -> (r: Option<EditPlan>)
        ensures
            match old(self).selected_file() {
                None => r is None && *final(self) == *old(self),
                Some((path, size, name)) => if has_suffix(lowercase_of(name), ".tns"@) {
                    &&& r is None
                    &&& final(self).log_texts() == push_log(
                        old(self).log_texts(),
                        "ERROR: "@ + "No se pueden editar archivos binarios .tns directamente."@,
                    )
                    &&& final(self).error_message is Some
                    &&& final(self).error_message->0@
                        == "No se pueden editar archivos binarios .tns directamente."@
                    &&& *final(self) == (App {
                        logs: final(self).logs,
                        error_message: final(self).error_message,
                        ..*old(self)
                    })
                } else {
                    let ext = edit_extension(name);
                    let with_notice = match edit_notice(ext) {
                        Some(n) => push_log(old(self).log_texts(), n),
                        None => old(self).log_texts(),
                    };
                    &&& r is Some
                    &&& r->0.remote_path@ == path
                    &&& r->0.size == size
                    &&& r->0.name@ == name
                    &&& r->0.extension@ == ext
                    &&& final(self).log_texts() == push_log(with_notice, "Editando: "@ + name)
                    &&& *final(self) == (App { logs: final(self).logs, ..*old(self) })
                },
            },
            old(self).wf() ==> final(self).wf(),
    {
        let (remote_path, size, name) = match self.get_selected_file_info() {
            Some(t) => t,
            None => return None,
        };
        let lower = to_lowercase(name.as_str());
        let lower_c = chars_of(lower.as_str());
        let tns = chars_of(".tns");
        if ends_with_chars(&lower_c, &tns) {
            self.set_error(String::from_str("No se pueden editar archivos binarios .tns directamente."));
            return None;
        }
        let extension = match extension(name.as_str()) {
            Some(e) => e,
            None => String::from_str("txt"),
        };
        let e = extension.as_str();
        if same_text(e, "py") {
            self.log("AVISO: MicroPython detectado. Solo módulos ti_* permitidos.");
        } else if same_text(e, "lua") {
            self.log("AVISO: Nspire Lua detectado. API de eventos activa.");
        } else if same_text(e, "c") || same_text(e, "h") || same_text(e, "cpp") {
            self.log("AVISO: Código C/C++. Requiere Ndless SDK para generar .tns.");
        }
        let msg = concat("Editando: ", name.as_str());
        self.log(msg.as_str());
        Some(EditPlan { remote_path, size, name, extension })
    }

    /// Takes in a failed fetch of the file to edit: shown as an error.
    pub fn edit_download_failed(&mut self, e: String)
        ensures
            final(self).log_texts() == push_log(
                old(self).log_texts(),
                "ERROR: "@ + "Fallo descarga para edición: "@ + e@,
            ),
            final(self).error_message is Some,
            final(self).error_message->0@ == "Fallo descarga para edición: "@ + e@,
            *final(self) == (App {
                logs: final(self).logs,
                error_message: final(self).error_message,
                ..*old(self)
            }),
            old(self).wf() ==> final(self).wf(),
    {
        let msg = concat("Fallo descarga para edición: ", e.as_str());
        assert(("ERROR: "@ + msg@) =~= ("ERROR: "@ + "Fallo descarga para edición: "@ + e@));
        self.set_error(msg);
    }

    /// Takes in the outcome of sending an edited file back: a failure is
    /// shown as an error, a success logged; then the view is refreshed.
    pub fn finish_edit(&mut self, result: Result<(), String>) -> (r: Option<String>)
        requires
            can_refresh(*old(self)),
        ensures
            match result {
                Ok(_) => final(self).log_texts() == push_log(
                    old(self).log_texts(),
                    "Cambios guardados en la calculadora."@,
                ),
                Err(e) => final(self).log_texts() == push_log(
                    old(self).log_texts(),
                    "ERROR: "@ + "Error al subir cambios: "@ + e@,
                ) && final(self).error_message is Some && final(self).error_message->0@
                    == "Error al subir cambios: "@ + e@,
            },
            refreshed(
                App {
                    logs: final(self).logs,
                    error_message: if result is Ok {
                        old(self).error_message
                    } else {
                        final(self).error_message
                    },
                    ..*old(self)
                },
                *final(self),
                r,
            ),
            old(self).wf() ==> final(self).wf(),
    {
        match result {
            Ok(_) => {
                self.log("Cambios guardados en la calculadora.");
            },
            Err(e) => {
                let msg = concat("Error al subir cambios: ", e.as_str());
                assert(("ERROR: "@ + msg@) =~= ("ERROR: "@ + "Error al subir cambios: "@ + e@));
                self.set_error(msg);
            },
        }
        let ghost mid = *self;
        let r = self.refresh_file_list();
        assert(refreshed(mid, *self, r));
        r
    }
}

/// Entry `i` is shown and its name ends with `ext`, neither being told
/// apart by case.
pub open spec fn ext_match(app: App, ext: Seq<char>, i: usize) -> bool {
    &&& app.filtered_indices@.contains(i)
    &&& (i as int) < app.all_files@.len()
    &&& has_suffix(lowercase_of(app.entries()[i as int].name), lowercase_of(ext))
}

/// Every member listed is in the set and below the bound.
pub proof fn members_below_bounded(set: Set<usize>, n: int)
    ensures
        forall|t: int|
            0 <= t < members_below(set, n).len() ==> (#[trigger] members_below(set, n)[t] as int)
                < n && set.contains(members_below(set, n)[t]),
    decreases n,
{
    if n > 0 {
        members_below_bounded(set, n - 1);
        let prev = members_below(set, n - 1);
        let cur = members_below(set, n);
        assert forall|t: int| 0 <= t < cur.len() implies (#[trigger] cur[t] as int) < n
            && set.contains(cur[t]) by {
            if t < prev.len() {
                assert(cur[t] == prev[t]);
            }
        }
    }
}

proof fn lemma_first_named_prefix(s: Seq<FileView>, name: Seq<char>, i: int)
    requires
        0 <= i < s.len(),
        first_named(s.take(i), name) == -1,
        s[i].name == name,
    ensures
        first_named(s, name) == i,
    decreases s.len(),
{
    if i == s.len() - 1 {
        assert(s.drop_last() =~= s.take(i));
    } else {
        assert(s.drop_last().take(i) =~= s.take(i));
        lemma_first_named_prefix(s.drop_last(), name, i);
    }
}

} // verus!
