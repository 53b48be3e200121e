//! Directory entries as the browser shows them, and the order it lists
//! them in: directories first, then by name.
use vstd::prelude::*;

use crate::paths::{components, components_of, parts_view};
use crate::text::{chars_of, same_chars, same_text};

verus! {

broadcast use vstd::seq_lib::group_to_multiset_ensures;

/// Whether a directory entry is a file or a directory.
#[derive(Clone, Copy, Debug, PartialEq, Eq, Structural)]
pub enum EntryType {
    File,
    Directory,
}

/// One entry of a directory listing.
#[derive(Clone, Debug)]
pub struct FileInfo {
    name: String,
    size: u64,
    entry_type: EntryType,
}

/// What a `FileInfo` holds.
pub struct FileView {
    pub name: Seq<char>,
    pub size: u64,
    pub entry_type: EntryType,
}

impl View for FileInfo {
    type V = FileView;

    closed spec fn view(&self) -> FileView {
        FileView { name: self.name@, size: self.size, entry_type: self.entry_type }
    }
}

impl FileInfo {
    /// An entry with the given name, size in bytes and type.
    pub fn new(name: String, size: u64, entry_type: EntryType) -> (r: FileInfo)
        ensures
            r@ == (FileView { name: name@, size, entry_type }),
    {
        FileInfo { name, size, entry_type }
    }

    /// The entry's name.
    pub fn name(&self) -> (r: &str)
        ensures
            r@ == self@.name,
    {
        self.name.as_str()
    }

    /// The entry's size in bytes (for a directory, what was last computed
    /// for it).
    pub fn size(&self) -> (r: u64)
        ensures
            r == self@.size,
    {
        self.size
    }

    /// Whether the entry is a file or a directory.
    pub fn entry_type(&self) -> (r: EntryType)
        ensures
            r == self@.entry_type,
    {
        self.entry_type
    }

    /// Replaces the entry's size.
    pub fn set_size(&mut self, size: u64)
        ensures
            final(self)@ == (FileView { size, ..old(self)@ }),
    {
        self.size = size;
    }

    /// Whether the entry is a directory.
    pub fn is_dir(&self) -> (r: bool)
        ensures
            r == (self@.entry_type == EntryType::Directory),
    {
        match self.entry_type {
            EntryType::Directory => true,
            EntryType::File => false,
        }
    }

    /// A copy of the entry.
    pub fn duplicate(&self) -> (r: FileInfo)
        ensures
            r@ == self@,
    {
        FileInfo { name: self.name.clone(), size: self.size, entry_type: self.entry_type }
    }
}

/// What a sequence of entries holds.
pub open spec fn files_view(v: Seq<FileInfo>) -> Seq<FileView> {
    v.map_values(|f: FileInfo| f@)
}

/// Lexicographic order of texts by code point (the order of their UTF-8
/// bytes): `a` may come before `b`.
pub open spec fn text_le(a: Seq<char>, b: Seq<char>) -> bool
    decreases a.len(),
{
    if a.len() == 0 {
        true
    } else if b.len() == 0 {
        false
    } else if a[0] != b[0] {
        (a[0] as int) < (b[0] as int)
    } else {
        text_le(a.drop_first(), b.drop_first())
    }
}

/// The order of path components: by kind (root, then `.`, then `..`, then
/// names), names by `text_le`.
pub open spec fn part_le(a: (int, Seq<char>), b: (int, Seq<char>)) -> bool {
    a.0 < b.0 || (a.0 == b.0 && text_le(a.1, b.1))
}

/// Lexicographic order of sequences of path components.
pub open spec fn parts_le(a: Seq<(int, Seq<char>)>, b: Seq<(int, Seq<char>)>) -> bool
    decreases a.len(),
{
    if a.len() == 0 {
        true
    } else if b.len() == 0 {
        false
    } else if a[0] != b[0] {
        part_le(a[0], b[0])
    } else {
        parts_le(a.drop_first(), b.drop_first())
    }
}

/// The order of names as paths are compared: component by component, so
/// that `.` and `..` come before every other name, and `a/` ties with `a`.
/// `a` may come before `b`.
pub open spec fn name_le(a: Seq<char>, b: Seq<char>) -> bool {
    parts_le(components_of(a), components_of(b))
}

/// The browser's order: directories before files, and within each group
/// by name. `x` may be listed before `y`.
pub open spec fn listed_before(x: FileView, y: FileView) -> bool {
    let xd = x.entry_type == EntryType::Directory;
    let yd = y.entry_type == EntryType::Directory;
    (xd && !yd) || (xd == yd && name_le(x.name, y.name))
}

/// The entries are in the browser's order.
pub open spec fn in_browser_order(s: Seq<FileView>) -> bool {
    forall|i: int, j: int| 0 <= i < j < s.len() ==> listed_before(#[trigger] s[i], #[trigger] s[j])
}

pub proof fn lemma_text_le_total(a: Seq<char>, b: Seq<char>)
    ensures
        text_le(a, b) || text_le(b, a),
    decreases a.len(),
{
    if a.len() > 0 && b.len() > 0 && a[0] == b[0] {
        lemma_text_le_total(a.drop_first(), b.drop_first());
    } else if a.len() > 0 && b.len() > 0 {
        assert((a[0] as int) != (b[0] as int));
    }
}

pub proof fn lemma_text_le_transitive(a: Seq<char>, b: Seq<char>, c: Seq<char>)
    requires
        text_le(a, b),
        text_le(b, c),
    ensures
        text_le(a, c),
    decreases a.len(),
{
    if a.len() > 0 && b.len() > 0 && c.len() > 0 {
        if a[0] == b[0] && b[0] == c[0] {
            lemma_text_le_transitive(a.drop_first(), b.drop_first(), c.drop_first());
        }
    }
}

pub proof fn lemma_text_le_antisymmetric(a: Seq<char>, b: Seq<char>)
    requires
        text_le(a, b),
        text_le(b, a),
    ensures
        a == b,
    decreases a.len(),
{
    if a.len() > 0 && b.len() > 0 {
        if a[0] == b[0] {
            lemma_text_le_antisymmetric(a.drop_first(), b.drop_first());
            assert(a =~= seq![a[0]] + a.drop_first());
            assert(b =~= seq![b[0]] + b.drop_first());
        } else {
            assert((a[0] as int) != (b[0] as int));
        }
    } else {
        assert(a =~= b);
    }
}

proof fn lemma_part_le_antisymmetric(a: (int, Seq<char>), b: (int, Seq<char>))
    requires
        part_le(a, b),
        part_le(b, a),
    ensures
        a == b,
{
    lemma_text_le_antisymmetric(a.1, b.1);
}

pub proof fn lemma_parts_le_total(a: Seq<(int, Seq<char>)>, b: Seq<(int, Seq<char>)>)
    ensures
        parts_le(a, b) || parts_le(b, a),
    decreases a.len(),
{
    if a.len() > 0 && b.len() > 0 {
        if a[0] == b[0] {
            lemma_parts_le_total(a.drop_first(), b.drop_first());
        } else {
            lemma_text_le_total(a[0].1, b[0].1);
        }
    }
}

pub proof fn lemma_parts_le_transitive(
    a: Seq<(int, Seq<char>)>,
    b: Seq<(int, Seq<char>)>,
    c: Seq<(int, Seq<char>)>,
)
    requires
        parts_le(a, b),
        parts_le(b, c),
    ensures
        parts_le(a, c),
    decreases a.len(),
{
    if a.len() > 0 && b.len() > 0 && c.len() > 0 {
        if a[0] == b[0] && b[0] == c[0] {
            lemma_parts_le_transitive(a.drop_first(), b.drop_first(), c.drop_first());
        } else if a[0] != b[0] && b[0] != c[0] {
            if a[0].0 == b[0].0 && b[0].0 == c[0].0 {
                lemma_text_le_transitive(a[0].1, b[0].1, c[0].1);
            }
            if a[0] == c[0] {
                lemma_part_le_antisymmetric(a[0], b[0]);
            }
        }
    }
}

proof fn lemma_parts_le_reflexive(a: Seq<(int, Seq<char>)>)
    ensures
        parts_le(a, a),
    decreases a.len(),
{
    if a.len() > 0 {
        lemma_parts_le_reflexive(a.drop_first());
    }
}

pub proof fn lemma_listed_before_total(x: FileView, y: FileView)
    ensures
        listed_before(x, y) || listed_before(y, x),
{
    lemma_parts_le_total(components_of(x.name), components_of(y.name));
}

pub proof fn lemma_listed_before_transitive(x: FileView, y: FileView, z: FileView)
    requires
        listed_before(x, y),
        listed_before(y, z),
    ensures
        listed_before(x, z),
{
    let xd = x.entry_type == EntryType::Directory;
    let yd = y.entry_type == EntryType::Directory;
    let zd = z.entry_type == EntryType::Directory;
    if xd == yd && yd == zd {
        lemma_parts_le_transitive(
            components_of(x.name),
            components_of(y.name),
            components_of(z.name),
        );
    }
}

/// Whether text `a` may come before text `b` (by code point).
pub fn text_le_exec(a: &Vec<char>, b: &Vec<char>) -> (r: bool)
    ensures
        r == text_le(a@, b@),
{
    let mut i: usize = 0;
    assert(a@.skip(0) =~= a@ && b@.skip(0) =~= b@);
    while i < a.len() && i < b.len() && a[i] == b[i]
        invariant
            i <= a@.len(),
            i <= b@.len(),
            text_le(a@, b@) == text_le(a@.skip(i as int), b@.skip(i as int)),
        decreases a@.len() - i,
    {
        proof {
            let sa = a@.skip(i as int);
            let sb = b@.skip(i as int);
            assert(sa[0] == sb[0]);
            assert(sa.drop_first() =~= a@.skip(i + 1));
            assert(sb.drop_first() =~= b@.skip(i + 1));
        }
        i = i + 1;
    }
    let sa = Ghost(a@.skip(i as int));
    let sb = Ghost(b@.skip(i as int));
    if i == a.len() {
        assert(sa@.len() == 0);
        true
    } else if i == b.len() {
        assert(sb@.len() == 0);
        false
    } else {
        assert(sa@[0] == a@[i as int] && sb@[0] == b@[i as int]);
        assert(a@[i as int] != b@[i as int]);
        a[i] < b[i]
    }
}

/// Whether component `x` may come before component `y`.
fn part_le_exec(x: &(u8, Vec<char>), y: &(u8, Vec<char>)) -> (r: bool)
    ensures
        r == part_le((x.0 as int, x.1@), (y.0 as int, y.1@)),
{
    x.0 < y.0 || (x.0 == y.0 && text_le_exec(&x.1, &y.1))
}

/// Whether the components in `a` may come before those in `b`.
fn parts_le_exec(a: &Vec<(u8, Vec<char>)>, b: &Vec<(u8, Vec<char>)>) -> (r: bool)
    ensures
        r == parts_le(parts_view(a@), parts_view(b@)),
{
    let ghost av = parts_view(a@);
    let ghost bv = parts_view(b@);
    let mut i: usize = 0;
    assert(av.skip(0) =~= av && bv.skip(0) =~= bv);
    while i < a.len() && i < b.len() && a[i].0 == b[i].0 && same_chars(&a[i].1, &b[i].1)
        invariant
            av == parts_view(a@),
            bv == parts_view(b@),
            i <= a@.len(),
            i <= b@.len(),
            parts_le(av, bv) == parts_le(av.skip(i as int), bv.skip(i as int)),
        decreases a@.len() - i,
    {
        proof {
            let sa = av.skip(i as int);
            let sb = bv.skip(i as int);
            assert(sa[0] == av[i as int] && sb[0] == bv[i as int]);
            assert(sa[0] == sb[0]);
            assert(sa.drop_first() =~= av.skip(i + 1));
            assert(sb.drop_first() =~= bv.skip(i + 1));
        }
        i = i + 1;
    }
    let ghost sa = av.skip(i as int);
    let ghost sb = bv.skip(i as int);
    if i == a.len() {
        assert(sa.len() == 0);
        true
    } else if i == b.len() {
        assert(sb.len() == 0);
        false
    } else {
        assert(sa[0] == av[i as int] && sb[0] == bv[i as int]);
        assert(av[i as int] == (a@[i as int].0 as int, a@[i as int].1@));
        assert(bv[i as int] == (b@[i as int].0 as int, b@[i as int].1@));
        assert(sa[0] != sb[0]);
        part_le_exec(&a[i], &b[i])
    }
}

/// Whether entry `x` may be listed before entry `y`.
pub fn listed_before_exec(x: &FileInfo, y: &FileInfo) -> (r: bool)
    ensures
        r == listed_before(x@, y@),
{
    let xd = x.is_dir();
    let yd = y.is_dir();
    if xd && !yd {
        true
    } else if xd != yd {
        false
    } else {
        let xn = chars_of(x.name());
        let yn = chars_of(y.name());
        let xp = components(&xn);
        let yp = components(&yn);
        parts_le_exec(&xp, &yp)
    }
}

/// Entries `x` and `y` tie in the browser's order: same type, and names
/// with the same components.
pub open spec fn ties_with(x: FileView, y: FileView) -> bool {
    x.entry_type == y.entry_type && components_of(x.name) == components_of(y.name)
}

/// The entries of `s` that tie with `k`, in order.
pub open spec fn tied(s: Seq<FileInfo>, k: FileView) -> Seq<FileInfo>
    decreases s.len(),
{
    if s.len() == 0 {
        Seq::empty()
    } else if ties_with(s.last()@, k) {
        tied(s.drop_last(), k).push(s.last())
    } else {
        tied(s.drop_last(), k)
    }
}

proof fn lemma_tied_concat(a: Seq<FileInfo>, b: Seq<FileInfo>, k: FileView)
    ensures
        tied(a + b, k) == tied(a, k) + tied(b, k),
    decreases b.len(),
{
    if b.len() == 0 {
        assert(a + b =~= a);
        assert(tied(a, k) + Seq::<FileInfo>::empty() =~= tied(a, k));
    } else {
        assert((a + b).drop_last() =~= a + b.drop_last());
        assert((a + b).last() == b.last());
        lemma_tied_concat(a, b.drop_last(), k);
        if ties_with(b.last()@, k) {
            assert(tied(a, k) + tied(b.drop_last(), k).push(b.last()) =~= (tied(a, k) + tied(
                b.drop_last(),
                k,
            )).push(b.last()));
        }
    }
}

proof fn lemma_tied_none(b: Seq<FileInfo>, k: FileView)
    requires
        forall|j: int| 0 <= j < b.len() ==> !ties_with(#[trigger] b[j]@, k),
    ensures
        tied(b, k) == Seq::<FileInfo>::empty(),
    decreases b.len(),
{
    if b.len() > 0 {
        assert(!ties_with(b[b.len() - 1]@, k));
        lemma_tied_none(b.drop_last(), k);
    }
}

/// Puts entries in the browser's order: directories first, then by name
/// (compared as paths, see `name_le`). The result holds the same entries,
/// and entries that tie keep their order.
pub fn sort_files(files: Vec<FileInfo>) -> (r: Vec<FileInfo>)
    ensures
        in_browser_order(files_view(r@)),
        r@.to_multiset() == files@.to_multiset(),
        r@.len() == files@.len(),
        forall|k: FileView| #[trigger] tied(r@, k) == tied(files@, k),
{
    let mut rest = files;
    let ghost orig = rest@;
    let mut out: Vec<FileInfo> = Vec::new();
    let ghost mut taken: Seq<FileInfo> = Seq::empty();
    while rest.len() > 0
        invariant
            taken + rest@ == orig,
            out@.to_multiset() == taken.to_multiset(),
            in_browser_order(files_view(out@)),
            forall|k: FileView| #[trigger] tied(out@, k) == tied(taken, k),
        decreases rest@.len(),
    {
        let x = rest.remove(0);
        let ghost old_taken = taken;
        proof {
            assert(taken.push(x) + rest@ =~= orig);
            taken = taken.push(x);
        }
        // find the slot after every entry that may come before x
        let mut k: usize = out.len();
        while k > 0 && !listed_before_exec(&out[k - 1], &x)
            invariant
                k <= out@.len(),
                in_browser_order(files_view(out@)),
                forall|key: FileView| #[trigger] tied(out@, key) == tied(old_taken, key),
                forall|j: int| k <= j < out@.len() ==> !listed_before(#[trigger] out@[j]@, x@),
            decreases k,
        {
            k = k - 1;
        }
        let ghost before = out@;
        out.insert(k, x);
        proof {
            let fv = files_view(out@);
            assert(out@ == before.insert(k as int, x));
            vstd::seq_lib::to_multiset_insert(before, k as int, x);
            assert forall|i: int, j: int| 0 <= i < j < fv.len() implies listed_before(
                #[trigger] fv[i],
                #[trigger] fv[j],
            ) by {
                let bv = files_view(before);
                if j < k {
                    assert(fv[i] == bv[i] && fv[j] == bv[j]);
                } else if j == k {
                    assert(fv[j] == x@);
                    assert(fv[i] == bv[i]);
                    assert(k > 0);
                    assert(listed_before(bv[k - 1], x@));
                    if i < k - 1 {
                        lemma_listed_before_transitive(bv[i], bv[k - 1], x@);
                    }
                } else if i < k {
                    assert(fv[i] == bv[i] && fv[j] == bv[j - 1]);
                } else if i == k {
                    assert(fv[i] == x@ && fv[j] == bv[j - 1]);
                    assert(!listed_before(before[j - 1]@, x@));
                    lemma_listed_before_total(x@, bv[j - 1]);
                } else {
                    assert(fv[i] == bv[i - 1] && fv[j] == bv[j - 1]);
                }
            }
            let head = before.take(k as int);
            let tail = before.skip(k as int);
            assert(before =~= head + tail);
            assert(out@ =~= head + seq![x] + tail);
            assert(taken.drop_last() =~= old_taken);
            assert forall|key: FileView| #[trigger] tied(out@, key) == tied(taken, key) by {
                assert(tied(before, key) == tied(old_taken, key));
                assert(taken.last() == x);
                lemma_tied_concat(head, tail, key);
                lemma_tied_concat(head + seq![x], tail, key);
                lemma_tied_concat(head, seq![x], key);
                assert(seq![x].drop_last() =~= Seq::<FileInfo>::empty());
                assert(seq![x].last() == x);
                assert(tied(Seq::<FileInfo>::empty(), key) == Seq::<FileInfo>::empty());
                assert(tied(seq![x], key) == if ties_with(x@, key) {
                    seq![x]
                } else {
                    Seq::<FileInfo>::empty()
                }) by {
                    if ties_with(x@, key) {
                        assert(Seq::<FileInfo>::empty().push(x) =~= seq![x]);
                    }
                }
                assert(tied(taken, key) == if ties_with(x@, key) {
                    tied(old_taken, key).push(x)
                } else {
                    tied(old_taken, key)
                });
                assert(tied(out@, key) == tied(head, key) + tied(seq![x], key) + tied(tail, key));
                assert(tied(before, key) == tied(head, key) + tied(tail, key));
                if ties_with(x@, key) {
                    assert forall|j: int| 0 <= j < tail.len() implies !ties_with(
                        #[trigger] tail[j]@,
                        key,
                    ) by {
                        assert(tail[j] == before[k + j]);
                        if ties_with(tail[j]@, key) {
                            lemma_parts_le_reflexive(components_of(x@.name));
                            assert(listed_before(before[k + j]@, x@));
                        }
                    }
                    lemma_tied_none(tail, key);
                    assert(tied(head, key) + seq![x] + Seq::<FileInfo>::empty() =~= tied(
                        head,
                        key,
                    ).push(x));
                    assert(tied(head, key) + Seq::<FileInfo>::empty() =~= tied(head, key));
                } else {
                    assert(tied(head, key) + Seq::<FileInfo>::empty() =~= tied(head, key));
                }
            }
        }
    }
    proof {
        assert(taken =~= orig);
        assert(out@.to_multiset().len() == out@.len());
        assert(orig.to_multiset().len() == orig.len());
    }
    out
}

/// The names of the directories among `s`, in order.
pub open spec fn dir_names(s: Seq<FileView>) -> Seq<Seq<char>>
    decreases s.len(),
{
    if s.len() == 0 {
        Seq::empty()
    } else if s.last().entry_type == EntryType::Directory {
        dir_names(s.drop_last()).push(s.last().name)
    } else {
        dir_names(s.drop_last())
    }
}

/// The characters of each string.
pub open spec fn texts(v: Seq<String>) -> Seq<Seq<char>> {
    v.map_values(|s: String| s@)
}

/// The names of the directories among `files`, in order.
pub fn directory_names(files: &Vec<FileInfo>) -> (r: Vec<String>)
    ensures
        texts(r@) == dir_names(files_view(files@)),
{
    let mut r: Vec<String> = Vec::new();
    let mut i: usize = 0;
    while i < files.len()
        invariant
            i <= files@.len(),
            texts(r@) == dir_names(files_view(files@.take(i as int))),
        decreases files@.len() - i,
    {
        let ghost pre = files_view(files@.take(i as int));
        let ghost post = files_view(files@.take(i + 1));
        assert(post.drop_last() =~= pre);
        assert(post.last() == files@[i as int]@);
        if files[i].is_dir() {
            r.push(files[i].name.clone());
            assert(texts(r@) =~= texts(r@.drop_last()).push(files@[i as int]@.name));
        }
        i = i + 1;
    }
    assert(files@.take(files@.len() as int) =~= files@);
    r
}

/// Some entry is named `name`.
pub open spec fn has_entry_named(s: Seq<FileView>, name: Seq<char>) -> bool {
    exists|i: int| 0 <= i < s.len() && #[trigger] s[i].name == name
}

/// Whether some entry of `files` is named `name`.
pub fn any_named(files: &Vec<FileInfo>, name: &str) -> (r: bool)
    ensures
        r == has_entry_named(files_view(files@), name@),
{
    let mut i: usize = 0;
    while i < files.len()
        invariant
            i <= files@.len(),
            forall|k: int| 0 <= k < i ==> files@[k]@.name != name@,
        decreases files@.len() - i,
    {
        if same_text(files[i].name(), name) {
            assert(files_view(files@)[i as int].name == name@);
            return true;
        }
        i = i + 1;
    }
    assert forall|k: int| 0 <= k < files_view(files@).len() implies #[trigger] files_view(
        files@,
    )[k].name != name@ by {
        assert(files_view(files@)[k] == files@[k]@);
    }
    false
}

} // verus!
