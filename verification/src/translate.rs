//! Conversions between POSIX filesystem values and their Windows
//! equivalents: timestamps, paths, file attributes.
//!
//! None of this is filesystem knowledge. It is Windows knowledge, identical
//! whether ext4, XFS or EROFS is underneath.

use vstd::prelude::*;

pub mod attr;

verus! {

/// Seconds between the FILETIME epoch (1601-01-01) and the Unix epoch
/// (1970-01-01): 369 years, 89 of them leap.
pub const FILETIME_EPOCH_OFFSET_SEC: u64 = 11_644_473_600;

/// 100-nanosecond ticks per second: FILETIME's unit.
pub const FILETIME_TICKS_PER_SEC: u64 = 10_000_000;

/// The number of 100-nanosecond ticks from 1601-01-01 to `secs` seconds and
/// `nsec` nanoseconds after 1970-01-01. Whole seconds before 1601 count as
/// 1601; nanoseconds are rounded down to ticks.
pub open spec fn ticks(secs: int, nsec: int) -> int {
    let since_1601 = FILETIME_EPOCH_OFFSET_SEC + secs;
    (if since_1601 < 0 {
        0
    } else {
        since_1601
    }) * FILETIME_TICKS_PER_SEC + nsec / 100
}

/// The FILETIME of a Unix time: its ticks, clamped to the end of
/// representable time.
pub open spec fn filetime(secs: int, nsec: int) -> int {
    if ticks(secs, nsec) > u64::MAX {
        u64::MAX as int
    } else {
        ticks(secs, nsec)
    }
}

/// `whole` seconds after 1601 in ticks, plus `nsec`, saturating.
fn saturating_ticks(whole: u64, nsec: u32) -> (r: u64)
    ensures
        r == if whole * FILETIME_TICKS_PER_SEC + nsec / 100 > u64::MAX {
            u64::MAX as int
        } else {
            whole * FILETIME_TICKS_PER_SEC + nsec / 100
        },
{
    match whole.checked_mul(FILETIME_TICKS_PER_SEC) {
        Some(t) => t.saturating_add(nsec as u64 / 100),
        None => u64::MAX,
    }
}

/// Convert a Unix timestamp to a Windows FILETIME (100-ns intervals since
/// 1601-01-01).
///
/// Takes `u64` seconds deliberately: several filesystems store 64-bit
/// timestamps, and a `u32` parameter would silently truncate them.
///
/// Saturating rather than wrapping: a timestamp far enough in the future to
/// overflow is clamped to the end of representable time. `nsec` is rounded
/// down, the direction that never reports a file as newer than it is.
pub fn unix_to_filetime(secs: u64, nsec: u32) -> (r: u64)
    ensures
        r == filetime(secs as int, nsec as int),
{
    match FILETIME_EPOCH_OFFSET_SEC.checked_add(secs) {
        Some(whole) => saturating_ticks(whole, nsec),
        None => u64::MAX,
    }
}

/// `\foo\bar` -> `/foo/bar`, and an empty path to `/`.
pub open spec fn unix_path(path: Seq<char>) -> Seq<char> {
    if path.len() == 0 {
        seq!['/']
    } else {
        path.map_values(
            |c: char|
                if c == '\\' {
                    '/'
                } else {
                    c
                },
        )
    }
}

/// Convert a path as WinFsp hands it in to the Unix form that readers want:
/// every backslash becomes a slash, and the empty path, which is how WinFsp
/// names the root directory, becomes `/`.
pub fn winpath_to_unix(path: &str) -> (r: String)
    ensures
        r@ == unix_path(path@),
{
    let mut out = String::new();
    if path.is_empty() {
        out.push('/');
        assert(out@ =~= unix_path(path@));
        return out;
    }
    for c in it: path.chars()
        invariant
            it.seq() == path@,
            path@.len() > 0,
            out@ == unix_path(path@).take(it.index() as int),
    {
        if c == '\\' {
            out.push('/');
        } else {
            out.push(c);
        }
        assert(out@ =~= unix_path(path@).take(it.index() + 1));
    }
    assert(out@ =~= unix_path(path@));
    out
}

/// What kind of node an entry is.
///
/// Explicit, rather than derived from a mode's type bits: filesystems disagree
/// about whether a mode carries a type at all, so the caller, who knows its own
/// filesystem's convention, says what the thing is.
#[derive(Debug, Clone, Copy, PartialEq, Eq, Structural)]
pub enum NodeKind {
    File,
    Dir,
    Symlink,
    /// Device nodes, FIFOs, sockets. Windows has no representation for
    /// these; they are surfaced as files so a listing can still show
    /// them rather than failing.
    Other,
}

/// A timestamp normalised across filesystems: signed 64-bit seconds since
/// 1970, and nanoseconds.
#[derive(Debug, Clone, Copy, PartialEq, Eq, Structural)]
pub struct Timestamp {
    pub secs: i64,
    pub nsec: u32,
}

impl Timestamp {
    /// Convert to a Windows FILETIME.
    ///
    /// A time before 1970 is representable in FILETIME, which counts from
    /// 1601, so it is converted rather than clamped to the Unix epoch.
    pub fn to_filetime(self) -> (r: u64)
        ensures
            r == filetime(self.secs as int, self.nsec as int),
    {
        if self.secs < 0 {
            if self.secs <= -(FILETIME_EPOCH_OFFSET_SEC as i64) {
                return saturating_ticks(0, self.nsec);
            }
            let before: u64 = (-self.secs) as u64;
            return saturating_ticks(FILETIME_EPOCH_OFFSET_SEC - before, self.nsec);
        }
        unix_to_filetime(self.secs as u64, self.nsec)
    }
}

/// Convert a Windows FILETIME to a Unix timestamp. `None` is only the zero
/// FILETIME, WinFsp's "leave unchanged"; a time before 1970 has negative
/// seconds.
pub fn filetime_to_unix(filetime: u64) -> (r: Option<Timestamp>)
    ensures
        r is None <==> filetime == 0,
        r matches Some(t) ==> {
            &&& t.secs == filetime as int / FILETIME_TICKS_PER_SEC as int
                - FILETIME_EPOCH_OFFSET_SEC
            &&& t.nsec == filetime as int % FILETIME_TICKS_PER_SEC as int * 100
        },
{
    if filetime == 0 {
        return None;
    }
    Some(
        Timestamp {
            secs: (filetime / FILETIME_TICKS_PER_SEC) as i64 - FILETIME_EPOCH_OFFSET_SEC as i64,
            nsec: (filetime % FILETIME_TICKS_PER_SEC) as u32 * 100,
        },
    )
}

/// One entry's attributes, normalised.
///
/// Times that the filesystem does not record are `None` rather than zero: zero
/// is a real time, 1970-01-01.
#[derive(Debug, Clone, Copy)]
pub struct FileAttr {
    pub kind: NodeKind,
    /// Permission bits only, no type nibble. See [`NodeKind`].
    pub perms: u16,
    pub size: u64,
    pub inode: u64,
    pub link_count: u32,
    pub mtime: Timestamp,
    /// `None` where the filesystem does not record it. Callers should
    /// fall back to `mtime`, which every filesystem here has.
    pub atime: Option<Timestamp>,
    pub ctime: Option<Timestamp>,
    pub crtime: Option<Timestamp>,
}

/// A time if it is recorded, else the modification time.
pub open spec fn time_or(time: Option<Timestamp>, mtime: Timestamp) -> Timestamp {
    match time {
        Some(t) => t,
        None => mtime,
    }
}

impl FileAttr {
    /// Access time if recorded, else the modification time.
    pub fn atime_or_mtime(&self) -> (t: Timestamp)
        ensures
            t == time_or(self.atime, self.mtime),
    {
        self.atime.unwrap_or(self.mtime)
    }

    /// Status-change time if recorded, else the modification time.
    pub fn ctime_or_mtime(&self) -> (t: Timestamp)
        ensures
            t == time_or(self.ctime, self.mtime),
    {
        self.ctime.unwrap_or(self.mtime)
    }

    /// Creation time if recorded, else the modification time.
    pub fn crtime_or_mtime(&self) -> (t: Timestamp)
        ensures
            t == time_or(self.crtime, self.mtime),
    {
        self.crtime.unwrap_or(self.mtime)
    }
}

/// Any write bit: owner, group or other.
pub const ANY_WRITE: u16 = 0o222;

/// The attribute bit for a kind of node.
pub open spec fn kind_attribute(kind: NodeKind) -> u32 {
    match kind {
        NodeKind::Dir => attr::DIRECTORY,
        NodeKind::Symlink => attr::REPARSE_POINT,
        NodeKind::File | NodeKind::Other => attr::ARCHIVE,
    }
}

/// Nothing may be written: the volume is read-only, or no write bit is set.
pub open spec fn is_read_only(perms: u16, volume_read_only: bool) -> bool {
    volume_read_only || perms & ANY_WRITE == 0
}

/// Translate a normalised entry into a Windows file-attribute bitmap.
///
/// `volume_read_only` is separate from the permission bits because a file can
/// be writable while the volume is mounted read-only, and Windows must be told
/// the effective answer.
///
/// A symlink is a reparse point and not also a directory, even when it points
/// at one: WinFsp resolves it and asks again.
pub fn attributes_for(kind: NodeKind, perms: u16, volume_read_only: bool) -> (a: u32)
    ensures
        a == kind_attribute(kind) | (if is_read_only(perms, volume_read_only) {
            attr::READONLY
        } else {
            0u32
        }),
{
    let mut a: u32 = match kind {
        NodeKind::Dir => attr::DIRECTORY,
        NodeKind::Symlink => attr::REPARSE_POINT,
        NodeKind::File | NodeKind::Other => attr::ARCHIVE,
    };
    let ghost bit: u32 = a;
    assert(bit | 0u32 == bit) by (bit_vector);
    if volume_read_only || (perms & ANY_WRITE) == 0 {
        a = a | attr::READONLY;
    }
    a
}

/// Later times have later FILETIMEs, up to the end of representable time, where
/// they are equal; no timestamp wraps round. Times that both lie before the
/// second second of 1601 all count as its first, so among those only the
/// nanoseconds order.
pub proof fn filetime_is_monotone(a: Timestamp, b: Timestamp)
    requires
        a.nsec < 1_000_000_000,
        b.nsec < 1_000_000_000,
        a.secs < b.secs || (a.secs == b.secs && a.nsec <= b.nsec),
        FILETIME_EPOCH_OFFSET_SEC + b.secs > 0 || a.nsec / 100 <= b.nsec / 100,
    ensures
        filetime(a.secs as int, a.nsec as int) <= filetime(b.secs as int, b.nsec as int),
        a.secs < b.secs && 0 <= FILETIME_EPOCH_OFFSET_SEC + a.secs && ticks(
            b.secs as int,
            b.nsec as int,
        ) <= u64::MAX ==> filetime(a.secs as int, a.nsec as int) < filetime(
            b.secs as int,
            b.nsec as int,
        ),
{
}

/// A FILETIME never reports a file as newer than it is: from 1601 on, its
/// 100-nanosecond ticks do not exceed the time they stand for, and fall short of
/// it by less than one tick unless the time is beyond what a FILETIME can hold.
pub proof fn filetime_rounds_down(t: Timestamp)
    requires
        0 <= FILETIME_EPOCH_OFFSET_SEC + t.secs,
    ensures
        ({
            let exact = (FILETIME_EPOCH_OFFSET_SEC + t.secs) * 1_000_000_000 + t.nsec;
            let shown = filetime(t.secs as int, t.nsec as int) * 100;
            &&& shown <= exact
            &&& ticks(t.secs as int, t.nsec as int) <= u64::MAX ==> exact - shown < 100
        }),
{
}

/// Whole seconds before 1970 count back from the Unix epoch, tick for tick, as
/// far as 1601.
pub proof fn times_before_1970_count_back(secs: int)
    requires
        0 <= secs <= FILETIME_EPOCH_OFFSET_SEC,
    ensures
        filetime(-secs, 0) == filetime(0, 0) - secs * FILETIME_TICKS_PER_SEC,
{
}

/// The timestamp that [`filetime_to_unix`] makes of a FILETIME converts back to
/// that FILETIME.
pub proof fn filetime_survives_round_trip(ft: u64, t: Timestamp)
    requires
        t.secs == ft as int / FILETIME_TICKS_PER_SEC as int - FILETIME_EPOCH_OFFSET_SEC,
        t.nsec == ft as int % FILETIME_TICKS_PER_SEC as int * 100,
    ensures
        filetime(t.secs as int, t.nsec as int) == ft,
{
}

/// A timestamp in FILETIME's range comes back from its FILETIME with the same
/// seconds, and with the nanoseconds rounded down to the tick.
pub proof fn timestamp_survives_round_trip(t: Timestamp)
    requires
        t.nsec < 1_000_000_000,
        0 <= FILETIME_EPOCH_OFFSET_SEC + t.secs,
        ticks(t.secs as int, t.nsec as int) <= u64::MAX,
    ensures
        ({
            let ft = filetime(t.secs as int, t.nsec as int);
            &&& ft / FILETIME_TICKS_PER_SEC as int - FILETIME_EPOCH_OFFSET_SEC == t.secs
            &&& ft % FILETIME_TICKS_PER_SEC as int * 100 == t.nsec - t.nsec % 100
        }),
{
}

/// A converted path holds no backslash, is never empty, and converting it again
/// changes nothing.
pub proof fn unix_path_is_normal(path: Seq<char>)
    ensures
        !unix_path(path).contains('\\'),
        unix_path(path).len() >= 1,
        path.len() > 0 ==> unix_path(path).len() == path.len(),
        unix_path(unix_path(path)) == unix_path(path),
{
    assert(unix_path(unix_path(path)) =~= unix_path(path));
}

/// What an attribute bitmap says, bit by bit: exactly one kind bit, decided by
/// the node's kind alone; the read-only bit exactly when nothing may be written;
/// `NORMAL`, which means "no other attributes", never beside another bit.
pub proof fn attributes_say_kind_and_access(
    kind: NodeKind,
    perms: u16,
    volume_read_only: bool,
    a: u32,
)
    requires
        a == kind_attribute(kind) | (if is_read_only(perms, volume_read_only) {
            attr::READONLY
        } else {
            0u32
        }),
    ensures
        a & attr::DIRECTORY != 0 <==> kind == NodeKind::Dir,
        a & attr::REPARSE_POINT != 0 <==> kind == NodeKind::Symlink,
        a & attr::ARCHIVE != 0 <==> kind == NodeKind::File || kind == NodeKind::Other,
        a & attr::READONLY != 0 <==> is_read_only(perms, volume_read_only),
        a & attr::NORMAL == 0,
        volume_read_only ==> a & attr::READONLY != 0,
{
    assert(0x10u32 | 0 == 0x10 && 0x10u32 | 1 == 0x11 && 0x400u32 | 0 == 0x400 && 0x400u32 | 1
        == 0x401 && 0x20u32 | 0 == 0x20 && 0x20u32 | 1 == 0x21) by (bit_vector);
    assert(a == 0x10 || a == 0x11 || a == 0x400 || a == 0x401 || a == 0x20 || a == 0x21 ==> {
        &&& (a & 0x10 != 0 <==> a == 0x10 || a == 0x11)
        &&& (a & 0x400 != 0 <==> a == 0x400 || a == 0x401)
        &&& (a & 0x20 != 0 <==> a == 0x20 || a == 0x21)
        &&& (a & 0x1 != 0 <==> a == 0x11 || a == 0x401 || a == 0x21)
        &&& a & 0x80 == 0
    }) by (bit_vector);
}

/// A converted path has, at every index, a slash where WinFsp's has a backslash
/// and WinFsp's own character everywhere else. Only the empty path changes its
/// length.
pub proof fn only_backslashes_change(path: &str, r: String, i: int)
    requires
        call_ensures(winpath_to_unix, (path,), r),
    ensures
        path@.len() == 0 ==> r@ == seq!['/'],
        path@.len() > 0 ==> r@.len() == path@.len(),
        0 <= i < path@.len() && path@[i] == '\\' ==> r@[i] == '/',
        0 <= i < path@.len() && path@[i] != '\\' ==> r@[i] == path@[i],
{
}

/// A time that the filesystem records is reported as it is, whatever the other
/// times are; only where it records none is the modification time.
pub proof fn recorded_times_are_reported(
    a: FileAttr,
    access: Timestamp,
    change: Timestamp,
    creation: Timestamp,
)
    requires
        call_ensures(FileAttr::atime_or_mtime, (&a,), access),
        call_ensures(FileAttr::ctime_or_mtime, (&a,), change),
        call_ensures(FileAttr::crtime_or_mtime, (&a,), creation),
    ensures
        a.atime is Some ==> access.secs == a.atime->0.secs && access.nsec == a.atime->0.nsec,
        a.atime is None ==> access == a.mtime,
        a.ctime is Some ==> change.secs == a.ctime->0.secs && change.nsec == a.ctime->0.nsec,
        a.ctime is None ==> change == a.mtime,
        a.crtime is Some ==> creation.secs == a.crtime->0.secs && creation.nsec
            == a.crtime->0.nsec,
        a.crtime is None ==> creation == a.mtime,
{
}

/// A FILETIME counts 100-nanosecond ticks from 1601: 11644473600 seconds before
/// the Unix epoch, ten million ticks to the second, one to each full hundred
/// nanoseconds. It stays at its largest value once it cannot count on.
pub proof fn filetime_counts_from_1601(secs: u64, nsec: u32, r: u64)
    requires
        call_ensures(unix_to_filetime, (secs, nsec), r),
    ensures
        ({
            let exact = (11_644_473_600 + secs) * 10_000_000 + nsec / 100;
            &&& exact <= u64::MAX ==> r == exact
            &&& exact > u64::MAX ==> r == u64::MAX
        }),
{
}

/// The same for signed times: down to 1601 they count back; what lies before
/// keeps only its ticks within the second.
pub proof fn signed_filetime_counts_from_1601(t: Timestamp, r: u64)
    requires
        call_ensures(Timestamp::to_filetime, (t,), r),
    ensures
        ({
            let exact = (11_644_473_600 + t.secs) * 10_000_000 + t.nsec / 100;
            &&& t.secs >= -11_644_473_600 && exact <= u64::MAX ==> r == exact
            &&& t.secs >= -11_644_473_600 && exact > u64::MAX ==> r == u64::MAX
            &&& t.secs < -11_644_473_600 ==> r == t.nsec / 100
        }),
{
}

/// A second more is ten million ticks more, and a hundred nanoseconds more one
/// tick, as long as there are FILETIMEs to count with.
pub proof fn ticks_are_even(a: Timestamp, b: Timestamp, c: Timestamp, ra: u64, rb: u64, rc: u64)
    requires
        a.secs >= -11_644_473_600,
        b.secs == a.secs + 1 && b.nsec == a.nsec,
        c.secs == a.secs && c.nsec == a.nsec + 100,
        call_ensures(Timestamp::to_filetime, (a,), ra),
        call_ensures(Timestamp::to_filetime, (b,), rb),
        call_ensures(Timestamp::to_filetime, (c,), rc),
    ensures
        rb < u64::MAX ==> rb == ra + 10_000_000,
        rc < u64::MAX ==> rc == ra + 1,
{
}

/// Converting to Unix time and back gives the FILETIME again; a FILETIME has no
/// Unix time only if it is zero.
pub proof fn unix_time_gives_back_the_filetime(ft: u64, t: Option<Timestamp>, back: u64)
    requires
        call_ensures(filetime_to_unix, (ft,), t),
        t is Some ==> call_ensures(Timestamp::to_filetime, (t->0,), back),
    ensures
        t is None <==> ft == 0,
        t is Some ==> back == ft && t->0.nsec < 1_000_000_000 && t->0.nsec % 100 == 0,
{
}

/// What Windows is told of a file, in its own bits: `0x10` for a directory,
/// `0x400` for a symbolic link, `0x20` for anything else, and `0x1` beside it
/// exactly if the volume is read-only or none of the permissions' three write
/// bits is set.
pub proof fn attribute_bits_are_exact(kind: NodeKind, perms: u16, read_only: bool, a: u32)
    requires
        call_ensures(attributes_for, (kind, perms, read_only), a),
    ensures
        ({
            let base: int = if kind == NodeKind::Dir {
                0x10
            } else if kind == NodeKind::Symlink {
                0x400
            } else {
                0x20
            };
            let locked = read_only || (perms / 0o200 % 2 == 0 && perms / 0o020 % 2 == 0 && perms
                / 0o002 % 2 == 0);
            a == if locked {
                base + 1
            } else {
                base
            }
        }),
{
    assert(perms & 0o222 == 0 <==> (perms / 0o200 % 2 == 0 && perms / 0o020 % 2 == 0 && perms
        / 0o002 % 2 == 0)) by (bit_vector);
    assert(0x10u32 | 0 == 0x10 && 0x10u32 | 1 == 0x11 && 0x400u32 | 0 == 0x400 && 0x400u32 | 1
        == 0x401 && 0x20u32 | 0 == 0x20 && 0x20u32 | 1 == 0x21) by (bit_vector);
}

} // verus!
