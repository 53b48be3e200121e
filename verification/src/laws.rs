//! Properties of the browser that span several operations.
use vstd::prelude::*;

use crate::app::{
    App, InputMode, LOG_CAPACITY, TableState, can_refresh, entries_with_size, ext_match,
    filter_rows, first_named, members_below,
    marks_toggled, push_log, refreshed, row_after, row_before, shown_for, shown_indices,
};
use crate::device::{DirSizeWalk, file_bytes, subdir_paths_rev};
use crate::files::{EntryType, FileView, in_browser_order, listed_before, name_le};
use crate::paths::{
    body_parts, child_path_of, components_of, cut_end, head_len, lemma_piece_start_bounds,
    piece_start, trimmed_end, up_path_of,
};
use crate::input::{
    HOVER_ROWS, Intent, Key, MouseInput, MouseIntent, MouseKind, SIDEBAR_WIDTH, TABLE_AREA_TOP,
    intent_of, lines_of, mouse_intent_of, non_empty, pasted_paths_of,
};
use crate::text::{has_suffix, lowercase_of, trimmed};
use crate::view::{FooterHint, ScriptKind, bar_of, footer_hint_of, script_kind_of};

verus! {

/// Moving the highlight down and then up (or up and then down) brings it
/// back to the row it was on.
pub proof fn law_down_then_up(t: TableState, n: nat)
    requires
        0 < n <= usize::MAX,
        t.selected is Some,
        t.selected->0 < n,
    ensures
        row_before(row_after(t, n), n) == t,
        row_after(row_before(t, n), n) == t,
{
}

/// Marking the highlighted entry twice leaves the marks as they were.
pub proof fn law_toggle_twice(a: App, b: App)
    requires
        b == (App { selected_indices: b.selected_indices, ..a }),
        b.selected_indices@ == marks_toggled(a),
    ensures
        marks_toggled(b) == a.selected_indices@,
{
    if let Some(i) = a.table_state.selected {
        if i < a.filtered_indices@.len() {
            let r = a.filtered_indices@[i as int];
            if a.selected_indices@.contains(r) {
                assert(a.selected_indices@.remove(r).insert(r) =~= a.selected_indices@);
            } else {
                assert(a.selected_indices@.insert(r).remove(r) =~= a.selected_indices@);
            }
        }
    }
}

/// Toggling changes the marks only at the entry shown on the highlighted
/// row `i` (`filtered_indices[i]`, not the row number itself): that entry's mark
/// flips and every other index keeps its mark. Where no row is highlighted,
/// or the highlighted row does not show, the marks stay as they are.
pub proof fn law_toggle_marks_highlighted_entry(a: App, i: usize, j: usize)
    ensures
        a.table_state.selected == Some(i) && i < a.filtered_indices@.len() ==> {
            let r = a.filtered_indices@[i as int];
            &&& marks_toggled(a).contains(r) == !a.selected_indices@.contains(r)
            &&& j != r ==> (marks_toggled(a).contains(j) == a.selected_indices@.contains(j))
        },
        a.table_state.selected is None ==> marks_toggled(a) == a.selected_indices@,
        a.table_state.selected == Some(i) && i >= a.filtered_indices@.len() ==> marks_toggled(a)
            == a.selected_indices@,
{
}

/// `p` is the root, or an absolute path whose last piece names an entry:
/// it ends neither in `/` nor in `/.`.
pub open spec fn ends_in_entry(p: Seq<char>) -> bool {
    ||| p == seq!['/']
    ||| {
        &&& p.len() >= 2
        &&& p[0] == '/'
        &&& p.last() != '/'
        &&& !(p.last() == '.' && p[p.len() - 2] == '/')
    }
}

/// Going up from a directory entered from `dir` leads back to `dir`, for a
/// name that is not empty, holds no `/` and is not `.`, and a directory
/// that is the root or ends in the name of an entry.
pub proof fn law_up_undoes_enter(dir: Seq<char>, name: Seq<char>)
    requires
        ends_in_entry(dir),
        name.len() > 0,
        name != seq!['.'],
        forall|j: int| 0 <= j < name.len() ==> name[j] != '/',
    ensures
        up_path_of(child_path_of(dir, name)) == Some(dir),
{
    let c = child_path_of(dir, name);
    let l = c.len() as int;
    assert(head_len(c) == 1);
    if dir == seq!['/'] {
        assert(c =~= seq!['/'] + name);
        lemma_piece_start_bounds(c, 1, l);
        let s = piece_start(c, 1, l);
        if s > 1 {
            assert(c[s - 1] == name[s - 2]);
        }
        assert(c.subrange(1, l) =~= name);
        assert(trimmed_end(c, 1, l) == l);
        assert(cut_end(c, 1, l) == 1);
        assert(c.take(1) =~= dir);
        assert(c != seq!['/']) by {
            assert(c.len() != 1);
        }
    } else {
        let d = dir.len() as int;
        assert(c =~= dir + seq!['/'] + name);
        assert(c[d] == '/');
        lemma_piece_start_bounds(c, 1, l);
        let s = piece_start(c, 1, l);
        if s <= d {
            assert(c[d] != '/');
        }
        if s > d + 1 {
            assert(c[s - 1] == name[s - d - 2]);
        }
        assert(c.subrange(d + 1, l) =~= name);
        assert(trimmed_end(c, 1, l) == l);
        assert(cut_end(c, 1, l) == d);
        assert(c[d - 1] == dir.last());
        assert(piece_start(c, 1, d) == piece_start(c, 1, d - 1));
        lemma_piece_start_bounds(c, 1, d - 1);
        let t = piece_start(c, 1, d);
        let piece = c.subrange(t, d);
        assert(piece.len() > 0);
        if piece == seq!['.'] {
            assert(t == d - 1);
            assert(piece[0] == c[d - 1]);
            if t > 1 {
                assert(c[d - 2] == '/');
            }
            assert(dir[d - 2] == c[d - 2]);
        }
        assert(trimmed_end(c, 1, d) == d);
        assert(c.take(d) =~= dir);
        assert(c != seq!['/']) by {
            assert(c.len() != 1);
        }
    }
}

/// Opening the highlighted directory and then going up returns to the
/// directory one was in, with typing ended: `b` is the state that opening
/// entry `k` of `a` leaves, and `c` the state that going up from `b`
/// leaves, as `enter_selected` and `go_up` state them.
pub proof fn law_go_up_after_enter(
    a: App,
    k: int,
    b: App,
    r: Option<String>,
    c: App,
    s: Option<String>,
)
    requires
        ends_in_entry(a.current_path@),
        a.cursor_entry() == Some(k),
        a.entries()[k].entry_type == EntryType::Directory,
        a.entries()[k].name.len() > 0,
        a.entries()[k].name != seq!['.'],
        forall|j: int| 0 <= j < a.entries()[k].name.len() ==> a.entries()[k].name[j] != '/',
        b.current_path@ == child_path_of(a.current_path@, a.entries()[k].name),
        refreshed(App { current_path: b.current_path, input_mode: InputMode::Normal, ..a }, b, r),
        match up_path_of(b.current_path@) {
            Some(q) => c.current_path@ == q && refreshed(
                App { current_path: c.current_path, input_mode: InputMode::Normal, ..b },
                c,
                s,
            ),
            None => c == b,
        },
    ensures
        c.current_path@ == a.current_path@,
        c.input_mode == InputMode::Normal,
{
    law_up_undoes_enter(a.current_path@, a.entries()[k].name);
}

proof fn lemma_plain_name_parts(b: Seq<char>)
    requires
        b.len() > 0,
        b != seq!['.'],
        b != seq!['.', '.'],
        forall|j: int| 0 <= j < b.len() ==> b[j] != '/',
    ensures
        components_of(b) == seq![(3int, b)],
{
    let l = b.len() as int;
    assert(head_len(b) == 0) by {
        if b[0] == '.' && b.len() == 1 {
            assert(b =~= seq!['.']);
        }
    };
    lemma_piece_start_bounds(b, 0, l);
    let s = piece_start(b, 0, l);
    if s > 0 {
        assert(b[s - 1] == '/');
    }
    assert(b.subrange(0, l) =~= b);
    assert(body_parts(b, 0, 0) == Seq::<(int, Seq<char>)>::empty());
    assert(Seq::<(int, Seq<char>)>::empty() + Seq::<(int, Seq<char>)>::empty().push((3int, b))
        =~= seq![(3int, b)]);
}

/// Entries named `.` and `..` are listed before every other name (one that
/// is not empty and holds no `/`), `.` before `..`.
pub proof fn law_dot_entries_first(b: Seq<char>)
    requires
        b.len() > 0,
        b != seq!['.'],
        b != seq!['.', '.'],
        forall|j: int| 0 <= j < b.len() ==> b[j] != '/',
    ensures
        name_le(seq!['.'], seq!['.', '.']) && !name_le(seq!['.', '.'], seq!['.']),
        name_le(seq!['.'], b) && !name_le(b, seq!['.']),
        name_le(seq!['.', '.'], b) && !name_le(b, seq!['.', '.']),
{
    lemma_plain_name_parts(b);
    let one = seq!['.'];
    let two = seq!['.', '.'];
    assert(head_len(one) == 1);
    assert(components_of(one) =~= seq![(1int, Seq::<char>::empty())]);
    assert(head_len(two) == 0);
    lemma_piece_start_bounds(two, 0, 2);
    if piece_start(two, 0, 2) > 0 {
        assert(two[piece_start(two, 0, 2) - 1] == '/');
    }
    assert(two.subrange(0, 2) =~= two);
    assert(body_parts(two, 0, 0) == Seq::<(int, Seq<char>)>::empty());
    assert(components_of(two) =~= seq![(2int, Seq::<char>::empty())]);
}

/// After a refresh that begins a new view, a size computed for the view
/// before it changes no entry.
pub proof fn law_refresh_discards_stale_sizes(
    a: App,
    b: App,
    r: Option<String>,
    name: Seq<char>,
    size: u64,
)
    requires
        can_refresh(a),
        a.connected_device is Some,
        refreshed(a, b, r),
    ensures
        entries_with_size(b, name, size, a.current_view_id) == b.entries(),
{
}

/// The log never holds more than its capacity, and its newest message is
/// the last one added.
pub proof fn law_log_bounded(logs: Seq<Seq<char>>, msg: Seq<char>)
    requires
        logs.len() <= LOG_CAPACITY,
    ensures
        push_log(logs, msg).len() <= LOG_CAPACITY,
        push_log(logs, msg).last() == msg,
        logs.len() < LOG_CAPACITY ==> push_log(logs, msg) == logs.push(msg),
{
}

proof fn lemma_shown_indices_all(files: Seq<FileView>, q: Seq<char>, n: int)
    requires
        files.len() <= usize::MAX,
        q.len() == 0,
        0 <= n <= files.len(),
    ensures
        shown_indices(files, q, n) == Seq::new(n as nat, |i: int| i as usize),
    decreases n,
{
    if n > 0 {
        lemma_shown_indices_all(files, q, n - 1);
        assert(Seq::new((n - 1) as nat, |i: int| i as usize).push((n - 1) as usize) =~= Seq::new(
            n as nat,
            |i: int| i as usize,
        ));
    } else {
        assert(Seq::new(0nat, |i: int| i as usize) =~= Seq::<usize>::empty());
    }
}

/// With no filter text every entry shows, in order.
pub proof fn law_no_filter_shows_all(files: Seq<FileView>, input: Seq<char>)
    requires
        files.len() <= usize::MAX,
        lowercase_of(input).len() == 0,
    ensures
        filter_rows(files, input) == Seq::new(files.len(), |i: int| i as usize),
{
    lemma_shown_indices_all(files, lowercase_of(input), files.len() as int);
}

proof fn lemma_shown_indices_member(files: Seq<FileView>, q: Seq<char>, n: int, i: int)
    requires
        files.len() <= usize::MAX,
        0 <= n <= files.len(),
        0 <= i < files.len(),
    ensures
        shown_indices(files, q, n).contains(i as usize) <==> (i < n && shown_for(
            files[i].name,
            q,
        )),
    decreases n,
{
    if n > 0 {
        lemma_shown_indices_member(files, q, n - 1, i);
        let prev = shown_indices(files, q, n - 1);
        lemma_shown_indices_below(files, q, n - 1);
        if shown_for(files[n - 1].name, q) {
            let cur = prev.push((n - 1) as usize);
            if cur.contains(i as usize) {
                let t = choose|t: int| 0 <= t < cur.len() && cur[t] == i as usize;
                if t < prev.len() {
                    assert(prev[t] == i as usize);
                }
            }
            if i == n - 1 {
                assert(cur[prev.len() as int] == i as usize);
            }
            if prev.contains(i as usize) {
                let t = choose|t: int| 0 <= t < prev.len() && prev[t] == i as usize;
                assert(cur[t] == i as usize);
            }
        } else {
            if prev.contains(i as usize) {
                let t = choose|t: int| 0 <= t < prev.len() && prev[t] == i as usize;
                assert((prev[t] as int) < n - 1);
            }
        }
    }
}

proof fn lemma_shown_indices_below(files: Seq<FileView>, q: Seq<char>, n: int)
    requires
        files.len() <= usize::MAX,
        0 <= n <= files.len(),
    ensures
        forall|t: int|
            0 <= t < shown_indices(files, q, n).len() ==> (#[trigger] shown_indices(files, q, n)[t]
                as int) < n,
    decreases n,
{
    if n > 0 {
        lemma_shown_indices_below(files, q, n - 1);
        let prev = shown_indices(files, q, n - 1);
        let cur = shown_indices(files, q, n);
        assert forall|t: int| 0 <= t < cur.len() implies (#[trigger] cur[t] as int) < n by {
            if t < prev.len() {
                assert(cur[t] == prev[t]);
            }
        }
    }
}

/// An entry shows under a filter exactly when the filter text is empty or
/// its lower-cased whole name holds the lower-cased filter text as a
/// contiguous run.
pub proof fn law_filter_exact(files: Seq<FileView>, input: Seq<char>, i: int)
    requires
        files.len() <= usize::MAX,
        0 <= i < files.len(),
    ensures
        filter_rows(files, input).contains(i as usize) <==> shown_for(
            files[i].name,
            lowercase_of(input),
        ),
        filter_rows(files, input).contains(i as usize) <==> (lowercase_of(input).len() == 0
            || exists|k: int|
            0 <= k && k + lowercase_of(input).len() <= lowercase_of(files[i].name).len()
                && #[trigger] lowercase_of(files[i].name).subrange(
                k,
                k + lowercase_of(input).len(),
            ) == lowercase_of(input)),
{
    lemma_shown_indices_member(files, lowercase_of(input), files.len() as int, i);
}

/// Marking by extension marks only rows that show, and marks each shown
/// entry whose lower-cased name ends with the lower-cased extension.
pub proof fn law_select_by_ext_marks_shown_rows(a: App, ext: Seq<char>, i: usize)
    ensures
        ext_match(a, ext, i) ==> a.filtered_indices@.contains(i),
        a.filtered_indices@.contains(i) && (i as int) < a.all_files@.len() && has_suffix(
            lowercase_of(a.entries()[i as int].name),
            lowercase_of(ext),
        ) ==> ext_match(a, ext, i),
        ext_match(a, ext, i) ==> has_suffix(
            lowercase_of(a.entries()[i as int].name),
            lowercase_of(ext),
        ),
{
}

/// With the delete confirmation open (and no error, help or details over
/// it), `y` confirms as Enter does, only `n` and Esc cancel, and any other
/// key does nothing.
pub proof fn law_delete_confirmation_keys(app: App, key: Key)
    requires
        app.error_message is None,
        !app.show_help,
        !app.show_details,
        app.show_confirm_delete,
    ensures
        intent_of(app, Key::Char('y')) == Intent::ConfirmDelete,
        intent_of(app, Key::Char('y')) == intent_of(app, Key::Enter),
        intent_of(app, key) == Intent::CancelDelete <==> (key == Key::Char('n') || key
            == Key::Esc),
        intent_of(app, key) == Intent::ConfirmDelete <==> (key == Key::Char('y') || key
            == Key::Enter),
        key != Key::Char('y') && key != Key::Enter && key != Key::Char('n') && key != Key::Esc
            ==> intent_of(app, key) == Intent::Ignore,
{
}

/// Hovering over the table highlights the row drawn under the pointer: the
/// first row shown (`offset`) plus the pointer's row within the table,
/// wherever that row exists; a hover never highlights another row.
pub proof fn law_hover_highlights_row_under_pointer(app: App, m: MouseInput)
    requires
        !app.show_help,
    ensures
        ({
            &&& m.kind == MouseKind::Moved
            &&& m.row >= TABLE_AREA_TOP
            &&& m.column > SIDEBAR_WIDTH
            &&& m.row - TABLE_AREA_TOP < HOVER_ROWS
            &&& app.table_state.offset + (m.row - TABLE_AREA_TOP) < app.filtered_indices@.len()
        }) ==> mouse_intent_of(app, m) == MouseIntent::Highlight(
            (app.table_state.offset + (m.row - TABLE_AREA_TOP)) as usize,
        ),
        mouse_intent_of(app, m) matches MouseIntent::Highlight(k) ==> {
            &&& m.kind == MouseKind::Moved
            &&& m.row >= TABLE_AREA_TOP
            &&& k == app.table_state.offset + (m.row - TABLE_AREA_TOP)
            &&& k < app.filtered_indices@.len()
        },
{
    assert(app.filtered_indices@.len() == app.filtered_indices.len());
}

/// In the browser's order no file comes before a directory.
pub proof fn law_directories_first(s: Seq<FileView>, i: int, j: int)
    requires
        in_browser_order(s),
        0 <= i < j < s.len(),
        s[j].entry_type == EntryType::Directory,
    ensures
        s[i].entry_type == EntryType::Directory,
{
    assert(listed_before(s[i], s[j]));
}

/// The sizes `sz` agree with the listings `fs` (by path; a path without a
/// listing cannot be read): a readable directory's size is the bytes of
/// its files plus the sizes of its subdirectories, an unreadable one's is
/// 0. For a finite tree of directories exactly one such `sz` exists: the
/// bytes below each directory.
pub open spec fn sizes_fit(
    fs: Map<Seq<char>, Seq<FileView>>,
    sz: spec_fn(Seq<char>) -> int,
) -> bool {
    forall|p: Seq<char>|
        #[trigger] sz(p) == if fs.contains_key(p) {
            file_bytes(fs[p]) + subdir_sizes(p, fs[p], sz)
        } else {
            0
        }
}

/// The sizes of the subdirectories among the entries `v` of `dir`.
pub open spec fn subdir_sizes(dir: Seq<char>, v: Seq<FileView>, sz: spec_fn(Seq<char>) -> int) -> int
    decreases v.len(),
{
    if v.len() == 0 {
        0
    } else {
        subdir_sizes(dir, v.drop_last(), sz) + if v.last().entry_type == EntryType::Directory {
            sz(child_path_of(dir, v.last().name))
        } else {
            0
        }
    }
}

/// The sizes of the paths still to be listed.
pub open spec fn pending_size(ps: Seq<Seq<char>>, sz: spec_fn(Seq<char>) -> int) -> int
    decreases ps.len(),
{
    if ps.len() == 0 {
        0
    } else {
        pending_size(ps.drop_last(), sz) + sz(ps.last())
    }
}

proof fn lemma_pending_size_concat(a: Seq<Seq<char>>, b: Seq<Seq<char>>, sz: spec_fn(Seq<char>) -> int)
    ensures
        pending_size(a + b, sz) == pending_size(a, sz) + pending_size(b, sz),
    decreases b.len(),
{
    if b.len() == 0 {
        assert(a + b =~= a);
    } else {
        assert((a + b).drop_last() =~= a + b.drop_last());
        assert((a + b).last() == b.last());
        lemma_pending_size_concat(a, b.drop_last(), sz);
    }
}

proof fn lemma_subdir_paths_size(dir: Seq<char>, v: Seq<FileView>, sz: spec_fn(Seq<char>) -> int)
    ensures
        pending_size(subdir_paths_rev(dir, v), sz) == subdir_sizes(dir, v, sz),
    decreases v.len(),
{
    if v.len() > 0 {
        lemma_subdir_paths_size(dir, v.drop_last(), sz);
        if v.last().entry_type == EntryType::Directory {
            let c = child_path_of(dir, v.last().name);
            let rest = subdir_paths_rev(dir, v.drop_last());
            lemma_pending_size_concat(seq![c], rest, sz);
            assert(seq![c].drop_last() =~= Seq::<Seq<char>>::empty());
            assert(pending_size(Seq::<Seq<char>>::empty(), sz) == 0);
            assert(pending_size(seq![c], sz) == sz(c));
        }
    }
}

/// One step of a directory-size walk (taking the next path off the stack,
/// then recording its listing, or nothing where it cannot be read) keeps
/// the bytes counted plus the sizes still pending unchanged. A walk starts
/// with the root alone pending and nothing counted, so when no path is
/// pending its count is the size of the root.
pub proof fn law_walk_conserves(
    fs: Map<Seq<char>, Seq<FileView>>,
    sz: spec_fn(Seq<char>) -> int,
    before: DirSizeWalk,
    after: DirSizeWalk,
)
    requires
        sizes_fit(fs, sz),
        before.pending().len() > 0,
        fs.contains_key(before.pending().last()) ==> {
            let p = before.pending().last();
            &&& after.pending() == before.pending().drop_last() + subdir_paths_rev(p, fs[p])
            &&& after.total() == before.total() + file_bytes(fs[p])
        },
        !fs.contains_key(before.pending().last()) ==> after.pending() == before.pending().drop_last()
            && after.total() == before.total(),
    ensures
        after.total() + pending_size(after.pending(), sz) == before.total() + pending_size(
            before.pending(),
            sz,
        ),
{
    let p = before.pending().last();
    assert(sz(p) == if fs.contains_key(p) {
        file_bytes(fs[p]) + subdir_sizes(p, fs[p], sz)
    } else {
        0
    });
    if fs.contains_key(p) {
        lemma_pending_size_concat(before.pending().drop_last(), subdir_paths_rev(p, fs[p]), sz);
        lemma_subdir_paths_size(p, fs[p], sz);
    }
}

proof fn lemma_non_empty_members(ss: Seq<Seq<char>>)
    ensures
        forall|i: int| 0 <= i < non_empty(ss).len() ==> (#[trigger] non_empty(ss)[i]).len() > 0,
    decreases ss.len(),
{
    if ss.len() > 0 {
        lemma_non_empty_members(ss.drop_first());
        let rest = non_empty(ss.drop_first());
        if ss[0].len() > 0 {
            assert forall|i: int| 0 <= i < non_empty(ss).len() implies (#[trigger] non_empty(
                ss,
            )[i]).len() > 0 by {
                if i > 0 {
                    assert(non_empty(ss)[i] == rest[i - 1]);
                }
            }
        }
    }
}

/// No path taken from pasted text is empty.
pub proof fn law_pasted_paths_non_empty(s: Seq<char>, i: int)
    requires
        0 <= i < pasted_paths_of(s).len(),
    ensures
        pasted_paths_of(s)[i].len() > 0,
{
    lemma_non_empty_members(lines_of(s).map_values(|l: Seq<char>| trimmed(l)));
}


/// Moving down goes to the next row, and from the last row to the first;
/// moving up goes to the row before, and from the first row to the last;
/// with no row highlighted either goes to the first. The first row shown
/// stays, and nothing moves when no row shows.
pub proof fn law_highlight_moves(t: TableState, n: nat, i: usize)
    requires
        n <= usize::MAX,
    ensures
        n == 0 ==> row_after(t, n) == t && row_before(t, n) == t,
        n > 0 ==> row_after(t, n).offset == t.offset && row_before(t, n).offset == t.offset,
        n > 0 && t.selected is None ==> row_after(t, n).selected == Some(0usize)
            && row_before(t, n).selected == Some(0usize),
        n > 0 && t.selected == Some(i) && i + 1 < n ==> row_after(t, n).selected == Some(
            (i + 1) as usize,
        ),
        n > 0 && t.selected == Some(i) && i + 1 == n ==> row_after(t, n).selected == Some(0usize),
        n > 0 && t.selected == Some(i) && 0 < i < n ==> row_before(t, n).selected == Some(
            (i - 1) as usize,
        ),
        n > 0 && t.selected == Some(0usize) ==> row_before(t, n).selected == Some((n - 1) as usize),
{
}

/// In normal mode, with nothing open over the table, the keys do what the
/// key list promises.
pub proof fn law_normal_keys(app: App)
    requires
        app.error_message is None,
        !app.show_help,
        !app.show_details,
        !app.show_confirm_delete,
        app.input_mode == InputMode::Normal,
    ensures
        intent_of(app, Key::Up) == Intent::Previous && intent_of(app, Key::Char('k'))
            == Intent::Previous,
        intent_of(app, Key::Down) == Intent::Next && intent_of(app, Key::Char('j')) == Intent::Next,
        intent_of(app, Key::Enter) == Intent::EnterSelected && intent_of(app, Key::Char('l'))
            == Intent::EnterSelected,
        intent_of(app, Key::Backspace) == Intent::GoUp && intent_of(app, Key::Char('h'))
            == Intent::GoUp,
        intent_of(app, Key::Char('/')) == Intent::EnterSearch,
        intent_of(app, Key::Char('e')) == Intent::Edit,
        intent_of(app, Key::Char('d')) == Intent::Download,
        intent_of(app, Key::Char('n')) == Intent::EnterMkdir,
        intent_of(app, Key::Char('r')) == Intent::EnterRename,
        intent_of(app, Key::Delete) == Intent::TriggerDeleteConfirm,
        intent_of(app, Key::Char('i')) == Intent::ToggleDetails,
        intent_of(app, Key::Char('a')) == Intent::SelectDocuments,
        intent_of(app, Key::Char('c')) == Intent::ClearSelection,
        intent_of(app, Key::Char('s')) == Intent::Screenshot,
        intent_of(app, Key::Char('q')) == Intent::Quit && intent_of(app, Key::Esc) == Intent::Quit,
        intent_of(app, Key::Char(' ')) == Intent::ToggleSelection,
{
}

proof fn lemma_members_below_exact(set: Set<usize>, n: int)
    requires
        0 <= n <= usize::MAX + 1,
    ensures
        forall|i: usize| #[trigger]
            members_below(set, n).contains(i) <==> (set.contains(i) && (i as int) < n),
        forall|a: int, b: int|
            0 <= a < b < members_below(set, n).len() ==> (#[trigger] members_below(set, n)[a] as int)
                < (#[trigger] members_below(set, n)[b] as int),
        forall|t: int|
            0 <= t < members_below(set, n).len() ==> (#[trigger] members_below(set, n)[t] as int)
                < n,
    decreases n,
{
    if n > 0 {
        lemma_members_below_exact(set, n - 1);
        let prev = members_below(set, n - 1);
        let cur = members_below(set, n);
        if set.contains((n - 1) as usize) {
            assert(cur == prev.push((n - 1) as usize));
            assert forall|i: usize| #[trigger]
                cur.contains(i) <==> (set.contains(i) && (i as int) < n) by {
                if cur.contains(i) {
                    let t = choose|t: int| 0 <= t < cur.len() && cur[t] == i;
                    if t < prev.len() {
                        assert(prev[t] == i);
                        assert(prev.contains(i));
                    } else {
                        assert(cur[t] == (n - 1) as usize);
                    }
                }
                if set.contains(i) && (i as int) < n {
                    if (i as int) < n - 1 {
                        assert(prev.contains(i));
                        let t = choose|t: int| 0 <= t < prev.len() && prev[t] == i;
                        assert(cur[t] == prev[t]);
                    } else {
                        assert(cur[prev.len() as int] == i);
                    }
                }
            }
            assert forall|a: int, b: int| 0 <= a < b < cur.len() implies (#[trigger] cur[a] as int)
                < (#[trigger] cur[b] as int) by {
                assert(cur[a] == prev[a]);
                if b < prev.len() {
                    assert(cur[b] == prev[b]);
                }
            }
            assert forall|t: int| 0 <= t < cur.len() implies (#[trigger] cur[t] as int) < n by {
                if t < prev.len() {
                    assert(cur[t] == prev[t]);
                }
            }
        } else {
            assert forall|i: usize| #[trigger]
                cur.contains(i) <==> (set.contains(i) && (i as int) < n) by {
                if set.contains(i) && (i as int) < n {
                    assert((i as int) != n - 1);
                }
            }
        }
    }
}

/// Deleting or downloading applies to the marked entries where any is
/// marked (each marked entry once, in increasing order), else to the entry
/// under the highlight, and to nothing where there is none.
pub proof fn law_action_targets(app: App, i: usize)
    ensures
        !app.selected_indices@.is_empty() ==> (app.action_targets().contains(i) <==> (
        app.selected_indices@.contains(i) && (i as int) < app.all_files@.len())),
        !app.selected_indices@.is_empty() ==> forall|a: int, b: int|
            0 <= a < b < app.action_targets().len() ==> (#[trigger] app.action_targets()[a] as int)
                < (#[trigger] app.action_targets()[b] as int),
        app.selected_indices@.is_empty() ==> app.action_targets() == match app.cursor_entry() {
            Some(k) => seq![k as usize],
            None => Seq::<usize>::empty(),
        },
        app.selected_indices@.is_empty() && app.table_state.selected == Some(i) && i
            < app.filtered_indices@.len() && app.filtered_indices@[i as int] < app.all_files@.len()
            ==> app.action_targets() == seq![app.filtered_indices@[i as int]],
{
    assert(app.all_files@.len() == app.all_files.len());
    lemma_members_below_exact(app.selected_indices@, app.all_files@.len() as int);
}

/// A size computed for a directory lands on the first entry of that name,
/// and only in the view it was computed for: that entry takes the size,
/// every other entry and every field but the size stay as they were.
pub proof fn law_size_lands_on_named_entry(
    app: App,
    name: Seq<char>,
    size: u64,
    generation_id: usize,
    j: int,
)
    requires
        0 <= j < app.entries().len(),
    ensures
        entries_with_size(app, name, size, generation_id).len() == app.entries().len(),
        generation_id != app.current_view_id ==> entries_with_size(app, name, size, generation_id)
            == app.entries(),
        ({
            let e = entries_with_size(app, name, size, generation_id)[j];
            &&& e.name == app.entries()[j].name
            &&& e.entry_type == app.entries()[j].entry_type
            &&& e.size != app.entries()[j].size ==> e.size == size && app.entries()[j].name == name
                && generation_id == app.current_view_id
                && forall|t: int| 0 <= t < j ==> app.entries()[t].name != name
        }),
        generation_id == app.current_view_id && app.entries()[j].name == name && (forall|t: int|
            0 <= t < j ==> app.entries()[t].name != name) ==> entries_with_size(
            app,
            name,
            size,
            generation_id,
        )[j].size == size,
{
    lemma_first_named_exact(app.entries(), name);
}

proof fn lemma_first_named_exact(s: Seq<FileView>, name: Seq<char>)
    ensures
        -1 <= first_named(s, name) < s.len(),
        first_named(s, name) >= 0 ==> s[first_named(s, name)].name == name,
        forall|t: int| 0 <= t < s.len() && t < first_named(s, name) ==> s[t].name != name,
        first_named(s, name) == -1 ==> forall|t: int| 0 <= t < s.len() ==> s[t].name != name,
    decreases s.len(),
{
    if s.len() > 0 {
        let p = s.drop_last();
        lemma_first_named_exact(p, name);
        assert forall|t: int| 0 <= t < p.len() implies p[t] == s[t] by {}
    }
}

/// The progress bar has ten cells: a `#` for each full tenth of the
/// percentage, then `-` for the rest.
pub proof fn law_progress_bar_cells(percent: nat, i: int)
    requires
        percent <= 100,
        0 <= i < 10,
    ensures
        bar_of(percent).len() == 10,
        bar_of(percent)[i] == if i < percent / 10 {
            '#'
        } else {
            '-'
        },
{
}


/// The footer suggests opening a highlighted directory, pulling a
/// highlighted document or compiled Lua script (`.tns`, `.luax`, in any
/// case), marking any other highlighted file, and nothing where no entry is
/// highlighted.
pub proof fn law_footer_hint(app: App)
    ensures
        app.cursor_entry() is None <==> footer_hint_of(app) == FooterHint::Nothing,
        app.cursor_entry() matches Some(k) ==> (footer_hint_of(app) == FooterHint::Open
            <==> app.entries()[k].entry_type == EntryType::Directory),
        app.cursor_entry() matches Some(k) ==> (footer_hint_of(app) == FooterHint::Pull <==> (
        app.entries()[k].entry_type == EntryType::File && (has_suffix(
            lowercase_of(app.entries()[k].name),
            ".tns"@,
        ) || has_suffix(lowercase_of(app.entries()[k].name), ".luax"@)))),
{
}

/// A file's details go by the suffix of its name: `.tns` is a document,
/// `.py` Python, `.lua` Lua, `.c`, `.h` and `.cpp` native code, anything
/// else plain.
pub proof fn law_script_kind(name: Seq<char>)
    ensures
        has_suffix(name, ".tns"@) ==> script_kind_of(name) == ScriptKind::Document,
        script_kind_of(name) == ScriptKind::Python ==> has_suffix(name, ".py"@),
        !has_suffix(name, ".tns"@) && has_suffix(name, ".py"@) ==> script_kind_of(name)
            == ScriptKind::Python,
        script_kind_of(name) == ScriptKind::Lua ==> has_suffix(name, ".lua"@),
        script_kind_of(name) == ScriptKind::Native ==> (has_suffix(name, ".c"@) || has_suffix(
            name,
            ".h"@,
        ) || has_suffix(name, ".cpp"@)),
        script_kind_of(name) == ScriptKind::Plain <==> !(has_suffix(name, ".tns"@) || has_suffix(
            name,
            ".py"@,
        ) || has_suffix(name, ".lua"@) || has_suffix(name, ".c"@) || has_suffix(name, ".h"@)
            || has_suffix(name, ".cpp"@)),
{
}

} // verus!
