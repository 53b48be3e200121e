//! What the device side reports: calculator identity, hot-plug and
//! background events, and the bookkeeping of a directory-size walk.
use vstd::prelude::*;

use crate::files::{EntryType, FileInfo, FileView, files_view, texts};
use crate::paths::{child_path, child_path_of};

verus! {

/// Where a USB device sits: its bus number and address on that bus.
#[derive(Debug, Clone, Copy, Hash, PartialEq, Eq, Structural)]
pub struct DeviceId {
    pub bus: u8,
    pub address: u8,
}

/// A device as the hot-plug monitor first reports it.
#[derive(Debug, Clone)]
pub struct DeviceMetadata {
    pub id: DeviceId,
    pub name: String,
}

/// What the hot-plug monitor and the background size computation report.
#[derive(Debug, Clone)]
pub enum DeviceEvent {
    Connected(DeviceMetadata),
    Disconnected,
    DirSizeComputed { name: String, size: u64, generation_id: usize },
}

/// The charge state the calculator reports.
#[derive(Debug, Clone, Copy, PartialEq, Eq, Structural)]
pub enum Battery {
    Powered,
    Low,
    Normal,
    Unknown(u8),
}

/// What the application keeps of a connected calculator's information.
#[derive(Debug, Clone)]
pub struct DeviceInfo {
    /// The name of the calculator.
    pub name: String,
    /// The operating system version, as the calculator's library prints it.
    pub version: String,
    pub battery: Battery,
    pub free_storage: u64,
    pub total_storage: u64,
}

/// The name under which a freshly plugged calculator is announced.
pub open spec fn announced_name() -> Seq<char> {
    seq!['T', 'I', '-', 'N', 's', 'p', 'i', 'r', 'e']
}

/// The event announcing a calculator that arrived at `bus`/`address`.
pub fn arrival_event(bus: u8, address: u8) -> (e: DeviceEvent)
    ensures
        e matches DeviceEvent::Connected(m) && m.id == (DeviceId { bus, address })
            && m.name@ == announced_name(),
{
    let name = "TI-Nspire";
    proof {
        reveal_strlit("TI-Nspire");
        assert(name@ =~= announced_name());
    }
    DeviceEvent::Connected(DeviceMetadata { id: DeviceId { bus, address }, name: String::from_str(name) })
}

/// The event announcing that the calculator left.
pub fn departure_event() -> (e: DeviceEvent)
    ensures
        e is Disconnected,
{
    DeviceEvent::Disconnected
}

/// How a screenshot's pixels are stored in the saved image.
#[derive(Debug, Clone, Copy, PartialEq, Eq, Structural)]
pub enum PixelFormat {
    Rgb8,
    L8,
}

/// The image format for a screenshot taken at `bpp` bits per pixel:
/// colour for 16 bits, grey levels otherwise.
pub fn screenshot_format(bpp: u8) -> (f: PixelFormat)
    ensures
        f == (if bpp == 16 { PixelFormat::Rgb8 } else { PixelFormat::L8 }),
{
    if bpp == 16 {
        PixelFormat::Rgb8
    } else {
        PixelFormat::L8
    }
}

/// The bytes of the files (not directories) among `s`.
pub open spec fn file_bytes(s: Seq<FileView>) -> int
    decreases s.len(),
{
    if s.len() == 0 {
        0
    } else {
        file_bytes(s.drop_last()) + if s.last().entry_type == EntryType::Directory {
            0int
        } else {
            s.last().size as int
        }
    }
}

/// The paths, inside `dir`, of the directories among `s`, last first: the
/// order in which a stack hands them out again first to last.
pub open spec fn subdir_paths_rev(dir: Seq<char>, s: Seq<FileView>) -> Seq<Seq<char>>
    decreases s.len(),
{
    if s.len() == 0 {
        Seq::empty()
    } else if s.last().entry_type == EntryType::Directory {
        seq![child_path_of(dir, s.last().name)] + subdir_paths_rev(dir, s.drop_last())
    } else {
        subdir_paths_rev(dir, s.drop_last())
    }
}

/// The walk that adds up the bytes below a directory. It keeps the paths
/// still to be listed (a stack, so that directories are visited depth
/// first, each in listing order) and the bytes of the files seen so far.
pub struct DirSizeWalk {
    pending: Vec<String>,
    total: u64,
}

impl DirSizeWalk {
    /// The paths still to be listed; the last is listed next.
    pub closed spec fn pending(&self) -> Seq<Seq<char>> {
        texts(self.pending@)
    }

    /// The bytes of the files seen so far.
    pub closed spec fn total(&self) -> u64 {
        self.total
    }

    /// A walk that starts at `root`.
    pub fn new(root: String) -> (w: DirSizeWalk)
        ensures
            w.pending() == seq![root@],
            w.total() == 0,
    {
        let mut pending: Vec<String> = Vec::new();
        pending.push(root);
        let w = DirSizeWalk { pending, total: 0 };
        assert(w.pending() =~= seq![w.pending@[0]@]);
        w
    }

    /// The next path to list, taken off the stack; none when the walk is
    /// over.
    pub fn next_path(&mut self) -> (r: Option<String>)
        ensures
            old(self).pending().len() == 0 ==> r is None && final(self).pending() == old(
                self,
            ).pending(),
            old(self).pending().len() > 0 ==> (r matches Some(p) && p@ == old(self).pending().last()
                && final(self).pending() == old(self).pending().drop_last()),
            final(self).total() == old(self).total(),
    {
        let r = self.pending.pop();
        proof {
            if r is Some {
                assert(self.pending() =~= old(self).pending().drop_last());
            }
        }
        r
    }

    /// Takes in the listing of `dir` (none where it could not be read): the
    /// bytes of its files are added, and the paths of its directories are
    /// put on the stack. Returns false, and changes nothing, where the sum
    /// would not fit in 64 bits.
    #[verifier::loop_isolation(false)]
    pub fn record_listing(&mut self, dir: &str, listing: Option<Vec<FileInfo>>) -> (ok: bool)
        ensures
            listing is None ==> ok && *final(self) == *old(self),
            listing matches Some(entries) ==> {
                let v = files_view(entries@);
                &&& ok == (old(self).total() + file_bytes(v) <= u64::MAX)
                &&& ok ==> final(self).total() == old(self).total() + file_bytes(v)
                    && final(self).pending() == old(self).pending() + subdir_paths_rev(dir@, v)
                &&& !ok ==> *final(self) == *old(self)
            },
    {
        match listing {
            None => true,
            Some(entries) => {
                let ghost v = files_view(entries@);
                // first the bytes, checked
                let mut sum: u64 = self.total;
                let mut i: usize = 0;
                while i < entries.len()
                    invariant
                        v == files_view(entries@),
                        i <= entries@.len(),
                        sum == self.total + file_bytes(v.take(i as int)),
                    decreases entries@.len() - i,
                {
                    proof {
                        assert(v.take(i + 1).drop_last() =~= v.take(i as int));
                        assert(v.take(i + 1).last() == entries@[i as int]@);
                    }
                    if !entries[i].is_dir() {
                        let s = entries[i].size();
                        if s > u64::MAX - sum {
                            proof {
                                lemma_file_bytes_prefix_le(v, i + 1);
                            }
                            return false;
                        }
                        sum = sum + s;
                    }
                    i = i + 1;
                }
                assert(v.take(v.len() as int) =~= v);
                // then the subdirectories, last first
                let mut j: usize = entries.len();
                let ghost base = self.pending();
                while j > 0
                    invariant
                        v == files_view(entries@),
                        j <= entries@.len(),
                        self.pending() == base + subdir_paths_rev(dir@, v.skip(j as int)),
                        self.total == old(self).total,
                    decreases j,
                {
                    let ghost before = self.pending@;
                    proof {
                        lemma_subdir_paths_rev_skip(dir@, v, j - 1);
                    }
                    if entries[j - 1].is_dir() {
                        let p = child_path(dir, entries[j - 1].name());
                        self.pending.push(p);
                        proof {
                            assert(texts(self.pending@) =~= texts(before).push(p@));
                            assert(v[j - 1] == entries@[j - 1]@);
                        }
                    }
                    j = j - 1;
                }
                assert(v.skip(0) =~= v);
                self.total = sum;
                true
            },
        }
    }

    /// Whether every path has been listed.
    pub fn is_done(&self) -> (r: bool)
        ensures
            r == (self.pending().len() == 0),
    {
        self.pending.len() == 0
    }

    /// The bytes of the files seen so far.
    pub fn bytes(&self) -> (r: u64)
        ensures
            r == self.total(),
    {
        self.total
    }
}

proof fn lemma_file_bytes_prefix_le(v: Seq<FileView>, i: int)
    requires
        0 <= i <= v.len(),
    ensures
        file_bytes(v.take(i)) <= file_bytes(v),
        0 <= file_bytes(v.take(i)),
    decreases v.len(),
{
    if i == v.len() {
        assert(v.take(i) =~= v);
        lemma_file_bytes_nonneg(v);
    } else {
        lemma_file_bytes_prefix_le(v.drop_last(), i);
        assert(v.drop_last().take(i) =~= v.take(i));
    }
}

proof fn lemma_file_bytes_nonneg(v: Seq<FileView>)
    ensures
        0 <= file_bytes(v),
    decreases v.len(),
{
    if v.len() > 0 {
        lemma_file_bytes_nonneg(v.drop_last());
    }
}

proof fn lemma_subdir_paths_rev_skip(dir: Seq<char>, v: Seq<FileView>, j: int)
    requires
        0 <= j < v.len(),
    ensures
        subdir_paths_rev(dir, v.skip(j)) == (if v[j].entry_type == EntryType::Directory {
            subdir_paths_rev(dir, v.skip(j + 1)).push(child_path_of(dir, v[j].name))
        } else {
            subdir_paths_rev(dir, v.skip(j + 1))
        }),
    decreases v.len() - j,
{
    let s = v.skip(j);
    if j == v.len() - 1 {
        assert(s.drop_last().len() == 0);
        assert(v.skip(j + 1).len() == 0);
        assert(s.last() == v[j]);
        assert(subdir_paths_rev(dir, s.drop_last()) =~= Seq::<Seq<char>>::empty());
        if v[j].entry_type == EntryType::Directory {
            assert(subdir_paths_rev(dir, s) =~= seq![child_path_of(dir, v[j].name)]);
        }
    } else {
        let w = v.drop_last();
        lemma_subdir_paths_rev_skip(dir, w, j);
        assert(w.skip(j) =~= s.drop_last());
        assert(w.skip(j + 1) =~= v.skip(j + 1).drop_last());
        assert(s.last() == v.last());
        assert(v.skip(j + 1).last() == v.last());
        assert(w[j] == v[j]);
        if v.last().entry_type == EntryType::Directory {
            let c = child_path_of(dir, v.last().name);
            if v[j].entry_type == EntryType::Directory {
                assert(seq![c] + subdir_paths_rev(dir, w.skip(j + 1)).push(
                    child_path_of(dir, v[j].name),
                ) =~= (seq![c] + subdir_paths_rev(dir, w.skip(j + 1))).push(
                    child_path_of(dir, v[j].name),
                ));
            }
        }
    }
}

} // verus!
