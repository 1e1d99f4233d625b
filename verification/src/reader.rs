//! What a driver has to provide, so the skeleton stops needing to know which
//! filesystem it is hosting.
//!
//! [`FsReader::Node`] is an associated type. Whatever a reader needs to carry
//! between "I resolved this path" and "now read from it" goes in there, and the
//! skeleton never looks inside it.
//!
//! Reading and writing are separate traits because the drivers are: one mounts
//! a read-only format, another writes to the device. One trait would force the
//! read-only driver to implement mutating methods that it could only answer
//! with an error.

use std::sync::Arc;

use vstd::prelude::*;
use vstd::string::*;

use crate::device;
use crate::device::BlockSource;
use crate::text;
use crate::translate::FileAttr;
use crate::translate::NodeKind;
use crate::translate::Timestamp;

verus! {

/// Errors the skeleton can act on without knowing the filesystem.
///
/// A driver maps its reader's errors into this small set and keeps the detail
/// in [`FsError::Other`] for the log.
#[derive(Debug)]
pub enum FsError {
    /// No such path.
    NotFound,
    /// The path exists but is not the kind of thing the caller wanted:
    /// reading a directory as a file, or the reverse.
    NotExpectedKind,
    /// The volume is mounted read-only, or the operation would write to
    /// a format this driver only reads.
    ReadOnly,
    /// The image is malformed. Distinct from [`FsError::Other`] because it
    /// says the volume is at fault rather than the request.
    Corrupt(String),
    /// Underlying device I/O failed.
    Io(std::io::Error),
    /// Anything else, carrying the driver's own message. The skeleton
    /// turns this into a generic failure status and logs the text.
    Other(String),
}

impl FsError {
    /// The text of the error. `cause` is the text of the I/O error, where there
    /// is one.
    pub open spec fn text(&self, cause: Seq<char>) -> Seq<char> {
        match self {
            FsError::NotFound => "no such file or directory"@,
            FsError::NotExpectedKind => "not the expected kind of file"@,
            FsError::ReadOnly => "read-only"@,
            FsError::Corrupt(why) => "corrupt filesystem: "@ + why@,
            FsError::Io(_) => "io error: "@ + cause,
            FsError::Other(why) => why@,
        }
    }

    /// The text of the error, with the text that `std` gives an I/O error.
    pub fn to_string(&self) -> (s: String)
        ensures
            !(self is Io) ==> s@ == self.text(Seq::empty()),
            self is Io ==> exists|cause: Seq<char>| #[trigger]
                device::shown_as(self->Io_0, cause) && s@ == self.text(cause),
    {
        match self {
            FsError::NotFound => "no such file or directory".to_owned(),
            FsError::NotExpectedKind => "not the expected kind of file".to_owned(),
            FsError::ReadOnly => "read-only".to_owned(),
            FsError::Corrupt(why) => text::joined("corrupt filesystem: ", why.as_str()),
            FsError::Io(e) => {
                let cause: String = device::io_error_text(e);
                let s = text::joined("io error: ", cause.as_str());
                assert(device::shown_as(self->Io_0, cause@) && s@ == self.text(cause@));
                s
            },
            FsError::Other(why) => why.as_str().to_owned(),
        }
    }
}

impl From<std::io::Error> for FsError {
    fn from(e: std::io::Error) -> (r: Self) {
        FsError::Io(e)
    }
}

impl vstd::std_specs::convert::FromSpecImpl<std::io::Error> for FsError {
    open spec fn obeys_from_spec() -> bool {
        true
    }

    open spec fn from_spec(e: std::io::Error) -> Self {
        FsError::Io(e)
    }
}

/// Result alias for the trait methods below.
pub type FsResult<T> = Result<T, FsError>;

/// One entry of a directory listing: exactly a name and the attributes, which
/// is what a WinFsp listing is filled from.
pub struct DirEntry {
    /// Entry name, not a path. `.` and `..` are the reader's to give or leave
    /// out; see [`complete_listing`].
    pub name: String,
    /// What the entry is and how big, already converted.
    pub attr: FileAttr,
}

/// Read access to a mounted volume.
///
/// The skeleton owns one of these per mount and calls it from WinFsp's
/// callbacks, which come from a thread pool: several may be in flight at once.
pub trait FsReader: Send + Sync + 'static {
    /// Whatever this reader needs to carry from a resolved path to a
    /// subsequent read. The skeleton treats it as opaque: it holds one per open
    /// handle and hands it back.
    type Node: Send + Sync;

    /// Mount the volume on `device`.
    ///
    /// `writable` asks for a read-write mount. A reader whose format this
    /// driver only reads should ignore it rather than fail the mount; the
    /// skeleton checks writability separately.
    fn mount(device: Arc<dyn BlockSource>, writable: bool) -> FsResult<Self> where Self: Sized;

    /// Resolve a Unix-style absolute path to a node.
    ///
    /// The path arrives already converted from the Windows form by
    /// [`crate::translate::winpath_to_unix`].
    fn lookup(&self, path: &str) -> FsResult<Self::Node>;

    /// Everything WinFsp needs to describe `node`.
    fn attr(&self, node: &Self::Node) -> FileAttr;

    /// Read up to `buf.len()` bytes from `offset`, returning how many
    /// were filled.
    ///
    /// A short return means end of file, not an error.
    fn read_file(&self, node: &Self::Node, offset: u64, buf: &mut [u8]) -> (r: FsResult<usize>)
        ensures
            final(buf)@.len() == old(buf)@.len(),
            r matches Ok(n) ==> n <= old(buf)@.len(),
    ;

    /// List a directory.
    ///
    /// Whether `.` and `..` appear is the reader's choice; the skeleton
    /// synthesises whichever are missing, because WinFsp requires both at the
    /// head of a listing and not every format stores them. See
    /// [`complete_listing`].
    fn read_dir(&self, node: &Self::Node) -> FsResult<Vec<DirEntry>>;

    /// The target of a symbolic link, as stored, which may be relative.
    fn readlink(&self, node: &Self::Node) -> FsResult<String>;

    /// Volume label, if the format records one.
    fn volume_label(&self) -> (r: Option<String>)
        default_ensures
            r is None,
    {
        None
    }

    /// Total and free bytes, for WinFsp's volume info.
    ///
    /// A read-only format reports free space of zero.
    fn volume_size(&self) -> (u64, u64);
}

/// Write access, for the drivers whose reader has a write path.
///
/// Separate from [`FsReader`] so a read-only driver simply does not implement
/// it. Implementing it says that the reader can write at all;
/// [`FsWriter::is_writable`] says that this mount may.
pub trait FsWriter: FsReader {
    /// The answers that [`FsWriter::is_writable`] can give. A writer that states
    /// nothing allows both.
    open spec fn permission(&self, granted: bool) -> bool {
        true
    }

    /// Whether this mount was opened for writing. There is no default, so that
    /// the question cannot be answered by accident.
    fn is_writable(&self) -> (r: bool)
        ensures
            self.permission(r),
    ;

    /// Write `data` at `offset`, returning how many bytes were stored.
    fn write_file(&self, node: &Self::Node, offset: u64, data: &[u8]) -> (r: FsResult<usize>)
        ensures
            r matches Ok(n) ==> n <= data@.len(),
    ;

    /// Change a file's length, growing with zeroes or discarding the
    /// tail.
    fn set_size(&self, node: &Self::Node, size: u64) -> FsResult<()>;

    /// Create a file or directory at `path` and return its node.
    fn create(&self, path: &str, kind: NodeKind, perms: u16) -> FsResult<Self::Node>;

    /// Remove a file, symlink or empty directory.
    fn remove(&self, path: &str) -> FsResult<()>;

    /// Move `from` to `to` within the same volume.
    fn rename(&self, from: &str, to: &str) -> FsResult<()>;

    /// Apply whichever of these are `Some`, leaving the rest alone.
    fn set_attr(
        &self,
        node: &Self::Node,
        perms: Option<u16>,
        mtime: Option<Timestamp>,
        atime: Option<Timestamp>,
    ) -> FsResult<()>;

    /// Push pending writes to the device.
    fn flush(&self) -> FsResult<()>;
}

/// What a [`DirEntry`] says.
pub struct DirEntryView {
    pub name: Seq<char>,
    pub attr: FileAttr,
}

impl View for DirEntry {
    type V = DirEntryView;

    open spec fn view(&self) -> DirEntryView {
        DirEntryView { name: self.name@, attr: self.attr }
    }
}

/// What a directory listing says.
pub open spec fn entry_views(entries: Seq<DirEntry>) -> Seq<DirEntryView> {
    entries.map_values(|e: DirEntry| e@)
}

/// The attributes of the first entry with this name.
pub open spec fn first_named(entries: Seq<DirEntryView>, name: Seq<char>) -> Option<FileAttr>
    decreases entries.len(),
{
    if entries.len() == 0 {
        None
    } else {
        match first_named(entries.drop_last(), name) {
            Some(attr) => Some(attr),
            None => if entries.last().name == name {
                Some(entries.last().attr)
            } else {
                None
            },
        }
    }
}

/// The entry with this name: with the attributes that the listing gives it, or
/// with `attr` where the listing lacks it.
pub open spec fn entry_or(
    entries: Seq<DirEntryView>,
    name: Seq<char>,
    attr: FileAttr,
) -> DirEntryView {
    match first_named(entries, name) {
        Some(given) => DirEntryView { name, attr: given },
        None => DirEntryView { name, attr },
    }
}

/// `.` or `..`.
pub open spec fn is_dots(name: Seq<char>) -> bool {
    name == "."@ || name == ".."@
}

/// The entries other than `.` and `..`, in order.
pub open spec fn without_dots(entries: Seq<DirEntryView>) -> Seq<DirEntryView>
    decreases entries.len(),
{
    if entries.len() == 0 {
        Seq::empty()
    } else if is_dots(entries.last().name) {
        without_dots(entries.drop_last())
    } else {
        without_dots(entries.drop_last()).push(entries.last())
    }
}

/// A listing as WinFsp requires it: `.` and `..` at its head, once each, then
/// the other entries in their order.
pub open spec fn completed(
    entries: Seq<DirEntryView>,
    dir: FileAttr,
    parent: FileAttr,
) -> Seq<DirEntryView> {
    seq![entry_or(entries, "."@, dir), entry_or(entries, ".."@, parent)] + without_dots(entries)
}

/// Complete a directory listing for WinFsp: `.` and `..` come first, once each,
/// and the other entries follow in their order. Whichever of the two the reader
/// left out is synthesised from the attributes of the directory and of its
/// parent.
pub fn complete_listing(entries: Vec<DirEntry>, dir: FileAttr, parent: FileAttr) -> (out: Vec<
    DirEntry,
>)
    ensures
        entry_views(out@) == completed(entry_views(entries@), dir, parent),
{
    let ghost all = entry_views(entries@);
    let one: String = ".".to_owned();
    let two: String = "..".to_owned();
    proof {
        reveal_strlit(".");
        reveal_strlit("..");
        assert("."@.len() != ".."@.len());
    }
    let mut own: Option<FileAttr> = None;
    let mut above: Option<FileAttr> = None;
    let mut rest: Vec<DirEntry> = Vec::new();
    assert(entry_views(rest@) =~= without_dots(all.take(0)));
    for e in it: entries
        invariant
            it.seq() == entries@,
            all == entry_views(entries@),
            one@ == "."@,
            two@ == ".."@,
            "."@ != ".."@,
            own == first_named(all.take(it.index() as int), "."@),
            above == first_named(all.take(it.index() as int), ".."@),
            entry_views(rest@) == without_dots(all.take(it.index() as int)),
    {
        let ghost i = it.index() as int;
        let ghost before = rest@;
        assert(all.take(i + 1).drop_last() =~= all.take(i));
        assert(all.take(i + 1).last() == e@);
        if e.name == one {
            if own.is_none() {
                own = Some(e.attr);
            }
        } else if e.name == two {
            if above.is_none() {
                above = Some(e.attr);
            }
        } else {
            rest.push(e);
            assert(entry_views(rest@) =~= entry_views(before).push(e@));
        }
    }
    assert(all.take(all.len() as int) =~= all);
    let mut out: Vec<DirEntry> = Vec::new();
    out.push(DirEntry { name: one, attr: own.unwrap_or(dir) });
    out.push(DirEntry { name: two, attr: above.unwrap_or(parent) });
    let ghost head = entry_views(out@);
    let ghost tail = rest@;
    out.append(&mut rest);
    assert(entry_views(out@) =~= head + entry_views(tail));
    assert(entry_views(out@) =~= completed(all, dir, parent));
    out
}

proof fn lemma_without_dots(entries: Seq<DirEntryView>)
    ensures
        without_dots(entries).len() <= entries.len(),
        forall|i: int|
            0 <= i < without_dots(entries).len() ==> !is_dots(
                (#[trigger] without_dots(entries)[i]).name,
            ),
        forall|e: DirEntryView| #[trigger]
            without_dots(entries).contains(e) <==> entries.contains(e) && !is_dots(e.name),
    decreases entries.len(),
{
    if entries.len() > 0 {
        let front = entries.drop_last();
        lemma_without_dots(front);
        assert(entries =~= front.push(entries.last()));
        assert forall|e: DirEntryView| #[trigger]
            without_dots(entries).contains(e) <==> entries.contains(e) && !is_dots(e.name) by {
            let kept = without_dots(front);
            if entries.contains(e) && e != entries.last() {
                let k = choose|k: int| 0 <= k < entries.len() && entries[k] == e;
                assert(front[k] == e);
                assert(front.contains(e));
            }
            if front.contains(e) {
                let k = choose|k: int| 0 <= k < front.len() && front[k] == e;
                assert(entries[k] == e);
            }
            assert(entries[entries.len() - 1] == entries.last());
            if kept.contains(e) {
                let k = choose|k: int| 0 <= k < kept.len() && kept[k] == e;
                assert(without_dots(entries)[k] == e);
            }
            if without_dots(entries).contains(e) && !is_dots(entries.last().name) {
                let k = choose|k: int|
                    0 <= k < without_dots(entries).len() && without_dots(entries)[k] == e;
                if k < kept.len() {
                    assert(kept[k] == e);
                    assert(kept.contains(e));
                } else {
                    assert(e == entries.last());
                }
            }
            if e == entries.last() && !is_dots(e.name) {
                assert(without_dots(entries)[kept.len() as int] == e);
            }
        }
    }
}

/// A completed listing starts with `.` and `..`, has each only there, and holds
/// every other entry of the listing and nothing else.
pub proof fn completed_listing_has_dots_first(
    entries: Seq<DirEntryView>,
    dir: FileAttr,
    parent: FileAttr,
)
    ensures
        ({
            let out = completed(entries, dir, parent);
            &&& 2 <= out.len() <= entries.len() + 2
            &&& out[0].name == "."@
            &&& out[1].name == ".."@
            &&& forall|i: int| 2 <= i < out.len() ==> !is_dots((#[trigger] out[i]).name)
            &&& out.skip(2) == without_dots(entries)
            &&& forall|e: DirEntryView|
                !is_dots(e.name) ==> (#[trigger] out.contains(e) <==> entries.contains(e))
        }),
{
    let out = completed(entries, dir, parent);
    let kept = without_dots(entries);
    lemma_without_dots(entries);
    assert forall|i: int| 2 <= i < out.len() implies !is_dots((#[trigger] out[i]).name) by {
        assert(out[i] == kept[i - 2]);
    }
    assert(out.skip(2) =~= kept);
    assert forall|e: DirEntryView| !is_dots(e.name) implies (#[trigger] out.contains(e)
        <==> entries.contains(e)) by {
        if out.contains(e) {
            let k = choose|k: int| 0 <= k < out.len() && out[k] == e;
            assert(kept[k - 2] == e);
            assert(kept.contains(e));
        }
        if entries.contains(e) {
            assert(kept.contains(e));
            let k = choose|k: int| 0 <= k < kept.len() && kept[k] == e;
            assert(out[k + 2] == e);
        }
    }
}

proof fn lemma_first_named_after(
    head: Seq<DirEntryView>,
    tail: Seq<DirEntryView>,
    name: Seq<char>,
)
    requires
        forall|i: int| 0 <= i < tail.len() ==> (#[trigger] tail[i]).name != name,
    ensures
        first_named(head + tail, name) == first_named(head, name),
    decreases tail.len(),
{
    if tail.len() == 0 {
        assert(head + tail =~= head);
    } else {
        lemma_first_named_after(head, tail.drop_last(), name);
        assert((head + tail).drop_last() =~= head + tail.drop_last());
        assert((head + tail).last() == tail.last());
    }
}

proof fn lemma_without_dots_after(head: Seq<DirEntryView>, tail: Seq<DirEntryView>)
    requires
        forall|i: int| 0 <= i < tail.len() ==> !is_dots((#[trigger] tail[i]).name),
    ensures
        without_dots(head + tail) == without_dots(head) + tail,
    decreases tail.len(),
{
    if tail.len() == 0 {
        assert(head + tail =~= head);
        assert(without_dots(head) + tail =~= without_dots(head));
    } else {
        lemma_without_dots_after(head, tail.drop_last());
        assert((head + tail).drop_last() =~= head + tail.drop_last());
        assert((head + tail).last() == tail.last());
        assert(without_dots(head) + tail =~= (without_dots(head) + tail.drop_last()).push(
            tail.last(),
        ));
    }
}

/// A listing that is complete stays as it is, whatever attributes are offered:
/// what the reader gives is never replaced.
pub proof fn completing_is_idempotent(
    entries: Seq<DirEntryView>,
    dir: FileAttr,
    parent: FileAttr,
    dir2: FileAttr,
    parent2: FileAttr,
)
    ensures
        completed(completed(entries, dir, parent), dir2, parent2) == completed(
            entries,
            dir,
            parent,
        ),
{
    reveal_strlit(".");
    reveal_strlit("..");
    assert("."@.len() != ".."@.len());
    let out = completed(entries, dir, parent);
    let one = entry_or(entries, "."@, dir);
    let two = entry_or(entries, ".."@, parent);
    let head = seq![one, two];
    let kept = without_dots(entries);
    lemma_without_dots(entries);
    lemma_first_named_after(head, kept, "."@);
    lemma_first_named_after(head, kept, ".."@);
    lemma_without_dots_after(head, kept);
    assert(head.drop_last() =~= seq![one]);
    assert(seq![one].drop_last() =~= Seq::empty());
    reveal_with_fuel(first_named, 3);
    reveal_with_fuel(without_dots, 3);
    assert(completed(out, dir2, parent2) =~= out);
}

/// The writer itself if writing is permitted, else [`FsError::ReadOnly`].
pub fn permitted<W: FsWriter>(fs: &W, granted: bool) -> (r: FsResult<&W>)
    ensures
        r == if granted {
            Ok(fs)
        } else {
            Err(FsError::ReadOnly)
        },
{
    if granted {
        Ok(fs)
    } else {
        Err(FsError::ReadOnly)
    }
}

/// The single point at which a mount's permission is checked before its
/// capability is used: the writer itself if the mount says that it was opened
/// for writing, else [`FsError::ReadOnly`].
pub fn writable<W: FsWriter>(fs: &W) -> (r: FsResult<&W>)
    ensures
        fs.permission(r is Ok),
        r == if r is Ok {
            Ok(fs)
        } else {
            Err(FsError::ReadOnly)
        },
{
    permitted(fs, fs.is_writable())
}

/// What an entry says is what its fields hold, and a listing says what its
/// entries do, one by one.
pub proof fn entry_views_are_the_fields(entries: Seq<DirEntry>, i: int)
    requires
        0 <= i < entries.len(),
    ensures
        entry_views(entries).len() == entries.len(),
        entry_views(entries)[i].name == entries[i].name@,
        entry_views(entries)[i].attr == entries[i].attr,
{
}

/// The first entry with a name is the one that counts: its attributes are found
/// if there is one, and nothing is if there is none.
pub proof fn the_first_entry_with_a_name_is_found(
    entries: Seq<DirEntryView>,
    name: Seq<char>,
    i: int,
)
    requires
        0 <= i < entries.len(),
        entries[i].name == name,
        forall|j: int| 0 <= j < i ==> (#[trigger] entries[j]).name != name,
    ensures
        first_named(entries, name) == Some(entries[i].attr),
    decreases entries.len(),
{
    if i < entries.len() - 1 {
        the_first_entry_with_a_name_is_found(entries.drop_last(), name, i);
    } else {
        lemma_first_named_after(Seq::empty(), entries.drop_last(), name);
        assert(Seq::<DirEntryView>::empty() + entries.drop_last() =~= entries.drop_last());
    }
}

/// How many entries in front of `n` are neither `.` nor `..`.
pub open spec fn others_before(entries: Seq<DirEntry>, n: nat) -> nat
    decreases n,
{
    if n == 0 {
        0
    } else if entries[n - 1].name@ == seq!['.'] || entries[n - 1].name@ == seq!['.', '.'] {
        others_before(entries, (n - 1) as nat)
    } else {
        others_before(entries, (n - 1) as nat) + 1
    }
}

proof fn lemma_others_before(entries: Seq<DirEntry>, n: nat)
    requires
        n <= entries.len(),
    ensures
        without_dots(entry_views(entries).take(n as int)).len() == others_before(entries, n),
        forall|i: nat|
            i < n && !is_dots(entries[i as int].name@) ==> #[trigger] others_before(entries, i)
                < others_before(entries, n) && without_dots(
                entry_views(entries).take(n as int),
            )[others_before(entries, i) as int] == entries[i as int]@,
    decreases n,
{
    lemma_dots();
    let all = entry_views(entries);
    if n > 0 {
        let m = (n - 1) as nat;
        lemma_others_before(entries, m);
        assert(all.take(n as int).drop_last() =~= all.take(m as int));
        assert(all.take(n as int).last() == entries[m as int]@);
    }
}

proof fn lemma_dots()
    ensures
        "."@ == seq!['.'],
        ".."@ == seq!['.', '.'],
{
    reveal_strlit(".");
    reveal_strlit("..");
    assert("."@ =~= seq!['.']);
    assert(".."@ =~= seq!['.', '.']);
}

/// A completed listing, entry by entry: first `.`, then `..`, then every other
/// entry with its own attributes, behind as many others as there are in front of
/// it in the listing, and nothing more. Where the listing has no `.` or `..`, the
/// attributes are those of the directory and of its parent; where it has one,
/// the first one's own.
pub proof fn completed_listing_is_exact(
    entries: Vec<DirEntry>,
    dir: FileAttr,
    parent: FileAttr,
    out: Vec<DirEntry>,
    i: int,
)
    requires
        call_ensures(complete_listing, (entries, dir, parent), out),
    ensures
        out@.len() == 2 + others_before(entries@, entries@.len()),
        out@[0].name@ == seq!['.'],
        out@[1].name@ == seq!['.', '.'],
        0 <= i < entries@.len() && entries@[i].name@ != seq!['.'] && entries@[i].name@ != seq![
            '.',
            '.',
        ] ==> {
            let at = 2 + others_before(entries@, i as nat);
            &&& at < out@.len()
            &&& out@[at as int].name@ == entries@[i].name@
            &&& out@[at as int].attr == entries@[i].attr
        },
        0 <= i < entries@.len() && entries@[i].name@ == seq!['.'] && (forall|j: int|
            0 <= j < i ==> (#[trigger] entries@[j]).name@ != seq!['.']) ==> out@[0].attr
            == entries@[i].attr,
        0 <= i < entries@.len() && entries@[i].name@ == seq!['.', '.'] && (forall|j: int|
            0 <= j < i ==> (#[trigger] entries@[j]).name@ != seq!['.', '.']) ==> out@[1].attr
            == entries@[i].attr,
        (forall|j: int| 0 <= j < entries@.len() ==> (#[trigger] entries@[j]).name@ != seq!['.'])
            ==> out@[0].attr == dir,
        (forall|j: int|
            0 <= j < entries@.len() ==> (#[trigger] entries@[j]).name@ != seq!['.', '.'])
            ==> out@[1].attr == parent,
{
    lemma_dots();
    let all = entry_views(entries@);
    let outs = entry_views(out@);
    assert(outs.len() == out@.len());
    assert(all.take(all.len() as int) =~= all);
    lemma_others_before(entries@, entries@.len());
    entry_views_are_the_fields(out@, 0);
    entry_views_are_the_fields(out@, 1);
    if 0 <= i < entries@.len() {
        if !is_dots(entries@[i].name@) {
            let at = others_before(entries@, i as nat);
            assert(others_before(entries@, i as nat) < others_before(entries@, entries@.len()));
            assert(without_dots(all)[at as int] == entries@[i]@);
            entry_views_are_the_fields(out@, 2 + at as int);
            assert(outs[2 + at as int] == without_dots(all)[at as int]);
        }
        if entries@[i].name@ == seq!['.'] && (forall|j: int|
            0 <= j < i ==> (#[trigger] entries@[j]).name@ != seq!['.']) {
            assert forall|j: int| 0 <= j < i implies (#[trigger] all[j]).name != seq!['.'] by {
                assert(entries@[j].name@ != seq!['.']);
            }
            the_first_entry_with_a_name_is_found(all, seq!['.'], i);
        }
        if entries@[i].name@ == seq!['.', '.'] && (forall|j: int|
            0 <= j < i ==> (#[trigger] entries@[j]).name@ != seq!['.', '.']) {
            assert forall|j: int| 0 <= j < i implies (#[trigger] all[j]).name != seq![
                '.',
                '.',
            ] by {
                assert(entries@[j].name@ != seq!['.', '.']);
            }
            the_first_entry_with_a_name_is_found(all, seq!['.', '.'], i);
        }
    }
    if forall|j: int| 0 <= j < entries@.len() ==> (#[trigger] entries@[j]).name@ != seq!['.'] {
        assert forall|j: int| 0 <= j < all.len() implies (#[trigger] all[j]).name != seq!['.'] by {
            assert(entries@[j].name@ != seq!['.']);
        }
        lemma_first_named_after(Seq::empty(), all, seq!['.']);
        assert(Seq::<DirEntryView>::empty() + all =~= all);
    }
    if forall|j: int|
        0 <= j < entries@.len() ==> (#[trigger] entries@[j]).name@ != seq!['.', '.'] {
        assert forall|j: int| 0 <= j < all.len() implies (#[trigger] all[j]).name != seq![
            '.',
            '.',
        ] by {
            assert(entries@[j].name@ != seq!['.', '.']);
        }
        lemma_first_named_after(Seq::empty(), all, seq!['.', '.']);
        assert(Seq::<DirEntryView>::empty() + all =~= all);
    }
}

/// The words of the errors: fixed where the error carries none, the driver's own
/// where it does, and those of the I/O error behind "io error: ".
pub proof fn error_words_carry_the_message(e: FsError, s: String)
    requires
        call_ensures(FsError::to_string, (&e,), s),
    ensures
        e is NotFound ==> s@ == "no such file or directory"@,
        e is NotExpectedKind ==> s@ == "not the expected kind of file"@,
        e is ReadOnly ==> s@ == "read-only"@,
        e matches FsError::Corrupt(why) ==> s@ == "corrupt filesystem: "@ + why@,
        e matches FsError::Other(why) ==> s@ == why@,
        e matches FsError::Io(io) ==> exists|cause: Seq<char>| #[trigger]
            device::shown_as(io, cause) && s@ == "io error: "@ + cause,
{
    if e is Io {
        let cause = choose|cause: Seq<char>| #[trigger]
            device::shown_as(e->Io_0, cause) && s@ == e.text(cause);
        assert(device::shown_as(e->Io_0, cause) && s@ == "io error: "@ + cause);
    }
}

/// Writing takes permission: with it the writer is handed out, without it the
/// error is that the mount is read-only.
pub proof fn writing_takes_permission<W: FsWriter>(fs: &W, granted: bool, r: FsResult<&W>)
    requires
        call_ensures(permitted::<W>, (fs, granted), r),
    ensures
        granted ==> r is Ok && r->Ok_0 == fs,
        !granted ==> r is Err && r->Err_0 is ReadOnly,
{
}

/// A mount is written to only if it says that it may be, and then through itself.
pub proof fn writers_are_asked_for_permission<W: FsWriter>(fs: &W, r: FsResult<&W>)
    requires
        call_ensures(writable::<W>, (fs,), r),
    ensures
        r is Ok ==> fs.permission(true) && r->Ok_0 == fs,
        r is Err ==> fs.permission(false) && r->Err_0 is ReadOnly,
{
}

/// An I/O error is kept whole.
pub proof fn io_errors_are_kept(e: std::io::Error, r: FsError)
    requires
        call_ensures(FsError::from, (e,), r),
    ensures
        r is Io,
        r->Io_0 == e,
{
}

} // verus!
