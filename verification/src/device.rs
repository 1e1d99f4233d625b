//! Block-source abstraction and the arithmetic of raw-device I/O.
//!
//! [`BlockSource`] is a small `read_at(offset, buf)` + `size()` trait. What a
//! file-backed implementation has to decide stands here too: the sector size
//! to align to, the aligned window a read has to cover, how a transfer goes
//! on after a partial read or write, and what is refused on a read-only
//! handle. Opening files and calling the operating system is left to the
//! implementation.

use vstd::arithmetic::div_mod::*;
use vstd::arithmetic::mul::*;
use vstd::arithmetic::power2::*;
use vstd::prelude::*;
use vstd::string::*;

verus! {

/// The I/O error that an operating-system call or a source reports. Its
/// contents are opaque here: it is carried to the caller.
#[verifier::external_type_specification]
#[verifier::external_body]
pub struct ExIoError(std::io::Error);

/// The kinds of I/O error that this library makes itself.
#[derive(Debug, Clone, Copy, PartialEq, Eq, Structural)]
pub enum Fault {
    /// There is nothing to carry the operation out on.
    NotConnected,
    /// The handle was not opened for the operation.
    PermissionDenied,
    /// A read ended before the buffer was full.
    UnexpectedEof,
    /// A write stopped before the buffer was stored.
    WriteZero,
}

/// The error that `std::io::Error::new` makes of a kind and a message.
pub uninterp spec fn io_error_of(fault: Fault, message: Seq<char>) -> std::io::Error;

/// Calls `std::io::Error::new` with the `std::io::ErrorKind` of the same name
/// as `fault`. The error is the one that the kind and the message determine.
#[verifier::external_body]
fn io_error(fault: Fault, message: &'static str) -> (e: std::io::Error)
    ensures
        e == io_error_of(fault, message@),
{
    let kind = match fault {
        Fault::NotConnected => std::io::ErrorKind::NotConnected,
        Fault::PermissionDenied => std::io::ErrorKind::PermissionDenied,
        Fault::UnexpectedEof => std::io::ErrorKind::UnexpectedEof,
        Fault::WriteZero => std::io::ErrorKind::WriteZero,
    };
    std::io::Error::new(kind, message)
}

/// `text` is what `Display` for `std::io::Error` shows for `e`. The words are
/// the operating system's for an error that came from it.
pub open spec fn shown_as(e: std::io::Error, text: Seq<char>) -> bool {
    exists|s: String| #[trigger]
        to_string_from_display_ensures::<std::io::Error>(&e, s) && s@ == text
}

/// The text that `Display` shows for an I/O error.
pub fn io_error_text(e: &std::io::Error) -> (s: String)
    ensures
        shown_as(*e, s@),
{
    let s: String = e.to_string();
    assert(to_string_from_display_ensures::<std::io::Error>(e, s));
    s
}

/// Random-access read source. `Send + Sync` so it can sit behind an `Arc`
/// shared between threads.
///
/// `write_at` and `flush` are optional: a read-only source keeps the
/// defaults, which refuse every write and flush nothing.
pub trait BlockSource: Send + Sync {
    /// The outcomes that a read of `len` bytes at `offset` can have: the bytes
    /// that fill the buffer, or an error. A source need not answer the same
    /// request twice in the same way. One that states nothing allows every
    /// outcome.
    open spec fn read_outcome(
        &self,
        offset: u64,
        len: nat,
        outcome: Result<Seq<u8>, std::io::Error>,
    ) -> bool {
        true
    }

    /// Fill `buf` from `offset`.
    fn read_at(&self, offset: u64, buf: &mut [u8]) -> (r: Result<(), std::io::Error>)
        ensures
            final(buf)@.len() == old(buf)@.len(),
            r is Ok ==> self.read_outcome(offset, old(buf)@.len(), Ok(final(buf)@)),
            r matches Err(e) ==> self.read_outcome(offset, old(buf)@.len(), Err(e)),
    ;

    /// Size of the source in bytes.
    fn size(&self) -> u64;

    /// Write `buf` at `offset`. By default every write is refused as
    /// not connected, so a writer fed a read-only source fails fast instead of
    /// corrupting.
    fn write_at(&self, _offset: u64, _buf: &[u8]) -> (r: Result<(), std::io::Error>)
        default_ensures
            r == Err::<(), std::io::Error>(
                io_error_of(Fault::NotConnected, "write_at: BlockSource is read-only"@),
            ),
    {
        Err(io_error(Fault::NotConnected, "write_at: BlockSource is read-only"))
    }

    /// Flush buffered writes to the underlying device. By default there is
    /// nothing to flush.
    fn flush(&self) -> (r: Result<(), std::io::Error>)
        default_ensures
            r is Ok,
    {
        Ok(())
    }
}

/// A power of two.
pub open spec fn is_power_of_two(n: int) -> bool {
    exists|k: nat| n == #[trigger] pow2(k)
}

/// The I/O alignment in bytes for a device whose geometry query answered
/// `bytes_per_sector`, or did not answer at all.
///
/// A handle without a disk geometry is a regular file: no constraint, `1`.
/// Only power-of-two sector sizes are accepted; anything else a device claims
/// is taken as the classic 512.
pub fn sector_alignment(bytes_per_sector: Option<u32>) -> (sector: u64)
    ensures
        bytes_per_sector is None ==> sector == 1,
        bytes_per_sector matches Some(b) ==> sector == if is_power_of_two(b as int) {
            b as int
        } else {
            512
        },
        is_power_of_two(sector as int),
        sector > 0,
{
    proof {
        lemma2_to64();
        assert(1 == pow2(0));
        assert(512 == pow2(9));
    }
    match bytes_per_sector {
        None => 1,
        Some(b) => {
            if b == 0 {
                proof {
                    assert forall|k: nat| 0 != #[trigger] pow2(k) by {
                        lemma_pow2_pos(k);
                    }
                }
                return 512;
            }
            proof {
                lemma_single_bit_is_power_of_two(b);
            }
            if b & (b - 1) != 0 {
                512
            } else {
                b as u64
            }
        },
    }
}

/// A non-zero word is a power of two exactly when it shares no bit with its
/// predecessor.
proof fn lemma_single_bit_is_power_of_two(b: u32)
    requires
        b != 0,
    ensures
        is_power_of_two(b as int) <==> b & (b - 1) as u32 == 0,
{
    lemma2_to64();
    let low: u32 = (b - 1) as u32;
    assert(b & low == 0 <==> (b == 0x1 || b == 0x2 || b == 0x4 || b == 0x8 || b == 0x10 || b == 0x20
        || b == 0x40 || b == 0x80 || b == 0x100 || b == 0x200 || b == 0x400 || b == 0x800
        || b == 0x1000 || b == 0x2000 || b == 0x4000 || b == 0x8000 || b == 0x1_0000 || b
        == 0x2_0000 || b == 0x4_0000 || b == 0x8_0000 || b == 0x10_0000 || b == 0x20_0000 || b
        == 0x40_0000 || b == 0x80_0000 || b == 0x100_0000 || b == 0x200_0000 || b == 0x400_0000
        || b == 0x800_0000 || b == 0x1000_0000 || b == 0x2000_0000 || b == 0x4000_0000 || b
        == 0x8000_0000)) by (bit_vector)
        requires
            b != 0,
            low == b - 1,
    ;
    if is_power_of_two(b as int) {
        let k = choose|k: nat| b == #[trigger] pow2(k);
        if k >= 32 {
            if k > 32 {
                lemma_pow2_strictly_increases(32, k);
            }
            assert(false);
        }
    }
}

/// The size that a file's metadata already gives. `None` asks the caller to
/// query the device: raw devices report no length, or zero.
pub fn size_from_metadata(len: Option<u64>) -> (size: Option<u64>)
    ensures
        size == if len is Some && len->0 > 0 {
            len
        } else {
            None
        },
{
    match len {
        Some(n) => if n > 0 {
            Some(n)
        } else {
            None
        },
        None => None,
    }
}

/// The largest multiple of `unit` that is at most `n`.
pub open spec fn round_down(n: int, unit: int) -> int {
    n - n % unit
}

/// The smallest multiple of `unit` that is at least `n`.
pub open spec fn round_up(n: int, unit: int) -> int {
    round_down(n + unit - 1, unit)
}

/// A sector-aligned range of the device that covers a requested range.
#[derive(Debug, Clone, Copy, PartialEq, Eq, Structural)]
pub struct ReadWindow {
    /// First byte to read from the device.
    pub offset: u64,
    /// Number of bytes to read.
    pub len: u64,
    /// Where the requested range begins inside the window.
    pub skip: u64,
    /// The window is the requested range itself: no scratch buffer needed.
    pub direct: bool,
}

/// The window to read for `len` bytes at `offset` on a device that only takes
/// reads whose offset and length are multiples of `sector`: the offset rounded
/// down and the end rounded up. `None` when the range, rounded up, does not end
/// inside 64-bit addresses.
pub fn plan_read(offset: u64, len: u64, sector: u64) -> (window: Option<ReadWindow>)
    requires
        sector > 0,
    ensures
        window is Some <==> offset + len + sector - 1 <= u64::MAX,
        window matches Some(w) ==> {
            &&& w.offset == round_down(offset as int, sector as int)
            &&& w.offset + w.len == round_up(offset + len, sector as int)
            &&& w.skip == offset - w.offset
            &&& w.direct <==> sector == 1 || (w.offset == offset && w.len == len)
        },
{
    let last: u64 = match offset.checked_add(len) {
        Some(end) => match end.checked_add(sector - 1) {
            Some(last) => last,
            None => {
                return None;
            },
        },
        None => {
            return None;
        },
    };
    proof {
        lemma_window_covers(offset as int, len as int, sector as int);
    }
    let start: u64 = offset - offset % sector;
    let end: u64 = last - last % sector;
    let covered: u64 = end - start;
    Some(
        ReadWindow {
            offset: start,
            len: covered,
            skip: offset - start,
            direct: sector == 1 || (start == offset && covered == len),
        },
    )
}

proof fn lemma_window_covers(offset: int, len: int, sector: int)
    requires
        0 <= offset,
        0 <= len,
        sector > 0,
    ensures
        0 <= round_down(offset, sector) <= offset,
        offset - round_down(offset, sector) < sector,
        offset + len <= round_up(offset + len, sector) < offset + len + sector,
{
    lemma_mod_bound(offset, sector);
    lemma_mod_decreases(offset as nat, sector as nat);
    lemma_mod_bound(offset + len + sector - 1, sector);
}

/// Rounding gives multiples of the unit.
proof fn lemma_rounded_is_multiple(n: int, unit: int)
    requires
        unit > 0,
    ensures
        round_down(n, unit) % unit == 0,
{
    lemma_fundamental_div_mod(n, unit);
    lemma_mod_multiples_basic(n / unit, unit);
    lemma_mul_is_commutative(n / unit, unit);
}

/// What a sector-aligned device is asked for: the window of a read starts and
/// ends on sector boundaries, covers the requested range, and exceeds it by
/// less than one sector at either end.
pub proof fn window_is_aligned_and_tight(offset: u64, len: u64, sector: u64, w: ReadWindow)
    requires
        sector > 0,
        w.offset == round_down(offset as int, sector as int),
        w.offset + w.len == round_up(offset + len, sector as int),
    ensures
        w.offset % sector == 0,
        w.len % sector == 0,
        w.offset <= offset,
        offset + len <= w.offset + w.len,
        offset - w.offset < sector,
        (w.offset + w.len) - (offset + len) < sector,
{
    lemma_window_covers(offset as int, len as int, sector as int);
    lemma_rounded_is_multiple(offset as int, sector as int);
    lemma_rounded_is_multiple(offset + len + sector - 1, sector as int);
    lemma_mod_equivalence(w.offset + w.len, w.offset as int, sector as int);
}

/// Reading the window and copying the requested range out of it gives the same
/// bytes as reading the range from the device directly.
pub proof fn window_read_is_exact(device: Seq<u8>, offset: u64, len: u64, w: ReadWindow)
    requires
        w.offset <= offset,
        w.skip == offset - w.offset,
        offset + len <= w.offset + w.len <= device.len(),
    ensures
        device.subrange(w.offset as int, w.offset + w.len).subrange(
            w.skip as int,
            w.skip + len,
        ) == device.subrange(offset as int, offset + len),
{
    assert(device.subrange(w.offset as int, w.offset + w.len).subrange(
        w.skip as int,
        w.skip + len,
    ) =~= device.subrange(offset as int, offset + len));
}

/// Copy the part of `scratch` that starts at `skip` into `buf`, filling it.
pub fn copy_window(scratch: &[u8], skip: usize, buf: &mut [u8])
    requires
        skip + old(buf)@.len() <= scratch@.len(),
    ensures
        final(buf)@ == scratch@.subrange(skip as int, skip + old(buf)@.len()),
{
    let n: usize = buf.len();
    let mut i: usize = 0;
    while i < n
        invariant
            i <= n,
            n == buf@.len(),
            n == old(buf)@.len(),
            skip + n <= scratch.len(),
            forall|j: int| 0 <= j < i ==> buf@[j] == scratch@[skip + j],
        decreases n - i,
    {
        buf[i] = scratch[skip + i];
        i = i + 1;
    }
    assert(buf@ =~= scratch@.subrange(skip as int, skip + old(buf)@.len()));
}

/// Writing is refused on a handle that was opened read-only.
pub fn check_writable(writable: bool) -> (r: Result<(), std::io::Error>)
    ensures
        writable ==> r is Ok,
        !writable ==> r == Err::<(), std::io::Error>(
            io_error_of(Fault::PermissionDenied, "FileSource opened read-only"@),
        ),
{
    if writable {
        Ok(())
    } else {
        Err(io_error(Fault::PermissionDenied, "FileSource opened read-only"))
    }
}

/// Which way a [`Transfer`] moves bytes.
#[derive(Debug, Clone, Copy, PartialEq, Eq, Structural)]
pub enum Direction {
    Read,
    Write,
}

/// A whole-buffer transfer that the operating system may serve in pieces.
///
/// The caller asks [`Transfer::next_request`] where to go on, issues that
/// read or write, and reports how many bytes moved to [`Transfer::advance`].
pub struct Transfer {
    direction: Direction,
    offset: u64,
    len: usize,
    done: usize,
}

/// What a [`Transfer`] stands for: `done` of `len` bytes at `offset` have
/// moved.
pub struct TransferView {
    pub direction: Direction,
    pub offset: int,
    pub len: int,
    pub done: int,
}

impl View for Transfer {
    type V = TransferView;

    closed spec fn view(&self) -> TransferView {
        TransferView {
            direction: self.direction,
            offset: self.offset as int,
            len: self.len as int,
            done: self.done as int,
        }
    }
}

impl TransferView {
    /// Where the next piece starts, on the device and in the buffer; `None` once
    /// the whole buffer has moved.
    pub open spec fn request(self) -> Option<(int, int)> {
        if self.done == self.len {
            None
        } else {
            Some((self.offset + self.done, self.done))
        }
    }

    /// After a piece of `n` bytes.
    pub open spec fn moved(self, n: int) -> TransferView {
        TransferView { done: self.done + n, ..self }
    }

    /// After the first `n` of these pieces.
    pub open spec fn after(self, pieces: Seq<nat>, n: nat) -> TransferView
        decreases n,
    {
        if n == 0 {
            self
        } else {
            self.after(pieces, (n - 1) as nat).moved(pieces[n - 1] as int)
        }
    }

    /// Each of the pieces was due when it came, moved something, and moved no
    /// more than was asked for.
    pub open spec fn serves(self, pieces: Seq<nat>) -> bool {
        forall|i: nat|
            i < pieces.len() ==> {
                let before = #[trigger] self.after(pieces, i);
                before.request() is Some && 0 < pieces[i as int] <= before.len - before.done
            }
    }

    /// Byte `b` of the buffer lies in piece `i`.
    pub open spec fn holds(self, pieces: Seq<nat>, i: nat, b: int) -> bool {
        let start = self.after(pieces, i).done;
        start <= b < start + pieces[i as int]
    }

    /// The bytes of `device` at the requested places, the first `n` pieces one
    /// behind the other.
    pub open spec fn gathered(self, device: Seq<u8>, pieces: Seq<nat>, n: nat) -> Seq<u8>
        decreases n,
    {
        if n == 0 {
            Seq::empty()
        } else {
            let at = self.offset + self.after(pieces, (n - 1) as nat).done;
            self.gathered(device, pieces, (n - 1) as nat) + device.subrange(
                at,
                at + pieces[n - 1],
            )
        }
    }
}

/// The error that ends a transfer whose next piece moved nothing.
pub open spec fn stalled(direction: Direction) -> std::io::Error {
    match direction {
        Direction::Read => io_error_of(Fault::UnexpectedEof, "short read"@),
        Direction::Write => io_error_of(Fault::WriteZero, "short write"@),
    }
}

impl Transfer {
    /// No more than the buffer has moved, and the range has 64-bit addresses.
    #[verifier::type_invariant]
    spec fn inv(&self) -> bool {
        self.done <= self.len && self.offset + self.len <= u64::MAX
    }

    /// Begin moving `len` bytes at `offset`.
    pub fn new(direction: Direction, offset: u64, len: usize) -> (t: Transfer)
        requires
            offset + len <= u64::MAX,
        ensures
            t@ == (TransferView { direction, offset: offset as int, len: len as int, done: 0 }),
    {
        Transfer { direction, offset, len, done: 0 }
    }

    /// The device offset and the buffer index where the next piece starts;
    /// `None` once the whole buffer has moved.
    pub fn next_request(&self) -> (r: Option<(u64, usize)>)
        ensures
            r is None <==> self@.request() is None,
            r matches Some(at) ==> self@.request() == Some((at.0 as int, at.1 as int)),
    {
        proof {
            use_type_invariant(self);
        }
        if self.done < self.len {
            Some((self.offset + self.done as u64, self.done))
        } else {
            None
        }
    }

    /// Account for a piece of `n` bytes. A piece of nothing before the end is
    /// a short transfer: an error, with the progress unchanged.
    pub fn advance(&mut self, n: usize) -> (r: Result<(), std::io::Error>)
        requires
            old(self)@.request() is Some,
            n <= old(self)@.len - old(self)@.done,
        ensures
            final(self)@ == old(self)@.moved(n as int),
            n > 0 ==> r is Ok,
            n == 0 ==> r == Err::<(), std::io::Error>(stalled(old(self)@.direction)),
    {
        proof {
            use_type_invariant(&*self);
        }
        if n == 0 {
            match self.direction {
                Direction::Read => {
                    return Err(io_error(Fault::UnexpectedEof, "short read"));
                },
                Direction::Write => {
                    return Err(io_error(Fault::WriteZero, "short write"));
                },
            }
        }
        self.done = self.done + n;
        Ok(())
    }
}

proof fn lemma_after(v: TransferView, pieces: Seq<nat>, n: nat)
    requires
        v.done == 0,
        v.len >= 0,
        v.serves(pieces),
        n <= pieces.len(),
    ensures
        v.after(pieces, n).offset == v.offset,
        v.after(pieces, n).len == v.len,
        n <= v.after(pieces, n).done <= v.len,
    decreases n,
{
    if n > 0 {
        let m = (n - 1) as nat;
        lemma_after(v, pieces, m);
        assert(v.after(pieces, m).request() is Some);
    }
}

proof fn lemma_progress_grows(v: TransferView, pieces: Seq<nat>, i: nat, j: nat)
    requires
        i < j <= pieces.len(),
    ensures
        v.after(pieces, i).done + pieces[i as int] <= v.after(pieces, j).done,
    decreases j - i,
{
    if i + 1 < j {
        lemma_progress_grows(v, pieces, i, (j - 1) as nat);
    }
}

proof fn lemma_piece_found(v: TransferView, pieces: Seq<nat>, n: nat, b: int) -> (i: nat)
    requires
        v.done == 0,
        n <= pieces.len(),
        0 <= b < v.after(pieces, n).done,
    ensures
        i < n,
        v.holds(pieces, i, b),
    decreases n,
{
    let m = (n - 1) as nat;
    if b < v.after(pieces, m).done {
        lemma_piece_found(v, pieces, m, b)
    } else {
        m
    }
}

/// The pieces of a transfer follow on one another: the first starts at the
/// beginning of the range, each later one where the last ended, on the device
/// and in the buffer, and none reaches beyond the end.
pub proof fn pieces_follow_on_one_another(v: TransferView, pieces: Seq<nat>, i: nat)
    requires
        v.done == 0,
        v.len >= 0,
        v.serves(pieces),
        i < pieces.len(),
    ensures
        v.after(pieces, 0).request() == Some((v.offset, 0int)),
        ({
            let at = v.after(pieces, i).request()->0;
            let next = v.after(pieces, i + 1).request();
            &&& v.after(pieces, i).request() is Some
            &&& at.1 + pieces[i as int] <= v.len
            &&& i + 1 < pieces.len() ==> next == Some(
                (at.0 + pieces[i as int], at.1 + pieces[i as int]),
            )
        }),
{
    lemma_after(v, pieces, i);
    lemma_after(v, pieces, i + 1);
    assert(v.after(pieces, 0).request() is Some);
    assert(v.after(pieces, i).request() is Some);
    if i + 1 < pieces.len() {
        assert(v.after(pieces, i + 1).request() is Some);
    }
}

proof fn lemma_gathered(v: TransferView, device: Seq<u8>, pieces: Seq<nat>, n: nat)
    requires
        v.done == 0,
        0 <= v.offset,
        0 <= v.len,
        v.offset + v.len <= device.len(),
        v.serves(pieces),
        n <= pieces.len(),
    ensures
        v.gathered(device, pieces, n) == device.subrange(
            v.offset,
            v.offset + v.after(pieces, n).done,
        ),
    decreases n,
{
    lemma_after(v, pieces, n);
    if n == 0 {
        assert(v.gathered(device, pieces, n) =~= device.subrange(v.offset, v.offset));
    } else {
        let m = (n - 1) as nat;
        lemma_gathered(v, device, pieces, m);
        lemma_after(v, pieces, m);
        assert(v.gathered(device, pieces, n) =~= device.subrange(
            v.offset,
            v.offset + v.after(pieces, n).done,
        ));
    }
}

/// A finished transfer has moved the whole range, once and in order: byte `b`
/// of the buffer lies in exactly one of its pieces, and the pieces, one behind
/// the other, are the range of the device that was asked for. There are no more
/// pieces than bytes.
pub proof fn finished_transfer_covers_the_range(
    v: TransferView,
    device: Seq<u8>,
    pieces: Seq<nat>,
    b: int,
)
    requires
        v.done == 0,
        0 <= v.offset,
        0 <= v.len,
        v.offset + v.len <= device.len(),
        v.serves(pieces),
        v.after(pieces, pieces.len()).request() is None,
    ensures
        pieces.len() <= v.len,
        0 <= b < v.len ==> exists|i: nat| i < pieces.len() && #[trigger] v.holds(pieces, i, b),
        forall|i: nat, j: nat|
            i < pieces.len() && j < pieces.len() && #[trigger] v.holds(pieces, i, b)
                && #[trigger] v.holds(pieces, j, b) ==> i == j,
        v.gathered(device, pieces, pieces.len()) == device.subrange(v.offset, v.offset + v.len),
{
    let n = pieces.len();
    lemma_after(v, pieces, n);
    lemma_gathered(v, device, pieces, n);
    if 0 <= b < v.len {
        let i = lemma_piece_found(v, pieces, n, b);
        assert(v.holds(pieces, i, b));
    }
    assert forall|i: nat, j: nat|
        i < pieces.len() && j < pieces.len() && #[trigger] v.holds(pieces, i, b)
            && #[trigger] v.holds(pieces, j, b) implies i == j by {
        if i < j {
            lemma_progress_grows(v, pieces, i, j);
        } else if j < i {
            lemma_progress_grows(v, pieces, j, i);
        }
    }
}

/// The sector size that a device claims is kept exactly if it is a power of two,
/// and taken as 512 otherwise; what has no sectors has no constraint.
pub proof fn sector_size_is_a_power_of_two(claimed: Option<u32>, sector: u64, k: nat)
    requires
        call_ensures(sector_alignment, (claimed,), sector),
    ensures
        claimed is None ==> sector == 1,
        claimed is Some && claimed->0 == pow2(k) ==> sector == claimed->0,
        claimed is Some ==> sector == claimed->0 || sector == 512,
        exists|j: nat| sector == #[trigger] pow2(j),
{
    if claimed is Some && claimed->0 == pow2(k) {
        assert(is_power_of_two(claimed->0 as int));
    }
    assert(is_power_of_two(sector as int));
}

/// A planned read starts and ends on sector boundaries, covers the range, and is
/// no larger than that takes. It needs no scratch buffer exactly if nothing had
/// to be rounded, or there is nothing to align to.
pub proof fn planned_read_covers_the_range(
    offset: u64,
    len: u64,
    sector: u64,
    plan: Option<ReadWindow>,
)
    requires
        sector > 0,
        call_ensures(plan_read, (offset, len, sector), plan),
    ensures
        plan is None <==> offset + len + sector > 0x1_0000_0000_0000_0000,
        plan matches Some(w) ==> {
            let end = w.offset + w.len;
            &&& w.offset as int % sector as int == 0
            &&& end % sector as int == 0
            &&& w.offset <= offset < w.offset + sector
            &&& offset + len <= end < offset + len + sector
            &&& w.skip == offset - w.offset
            &&& w.direct <==> sector == 1 || (offset == w.offset && len == w.len)
        },
{
    if plan is Some {
        lemma_window_covers(offset as int, len as int, sector as int);
        lemma_rounded_is_multiple(offset as int, sector as int);
        lemma_rounded_is_multiple(offset + len + sector - 1, sector as int);
    }
}

/// Rounding down and up gives the nearest multiple below and above.
pub proof fn rounding_gives_the_nearest_multiple(n: int, unit: int)
    requires
        unit > 0,
    ensures
        round_down(n, unit) % unit == 0,
        n - unit < round_down(n, unit) <= n,
        round_up(n, unit) % unit == 0,
        n <= round_up(n, unit) < n + unit,
{
    lemma_rounded_is_multiple(n, unit);
    lemma_rounded_is_multiple(n + unit - 1, unit);
    lemma_mod_bound(n, unit);
    lemma_mod_bound(n + unit - 1, unit);
}

/// A positive length is the size; none, and zero, say nothing about it.
pub proof fn positive_lengths_are_sizes(len: Option<u64>, size: Option<u64>)
    requires
        call_ensures(size_from_metadata, (len,), size),
    ensures
        len matches Some(n) ==> (n > 0 ==> size == Some(n)) && (n == 0 ==> size is None),
        len is None ==> size is None,
{
}

/// Writing is possible exactly on a handle that was opened for it.
pub proof fn only_writable_handles_are_written_to(
    writable: bool,
    r: Result<(), std::io::Error>,
)
    requires
        call_ensures(check_writable, (writable,), r),
    ensures
        r is Ok <==> writable,
        r matches Err(e) ==> e == io_error_of(
            Fault::PermissionDenied,
            "FileSource opened read-only"@,
        ),
{
}

/// A read that stops is an unexpected end, a write that stops has written zero.
pub proof fn stalled_transfers_say_which_way_they_went()
    ensures
        stalled(Direction::Read) == io_error_of(Fault::UnexpectedEof, "short read"@),
        stalled(Direction::Write) == io_error_of(Fault::WriteZero, "short write"@),
{
}

/// A transfer starts with nothing moved: unless it is empty, its first piece is
/// due at its offset and at the front of the buffer.
pub proof fn transfers_start_at_their_offset(
    direction: Direction,
    offset: u64,
    len: usize,
    t: Transfer,
    first: Option<(u64, usize)>,
)
    requires
        offset + len <= u64::MAX,
        call_ensures(Transfer::new, (direction, offset, len), t),
        call_ensures(Transfer::next_request, (&t,), first),
    ensures
        len > 0 ==> first == Some((offset, 0usize)),
        len == 0 ==> first is None,
        t@.direction == direction,
        t@.len == len,
{
}

/// After a piece, the next is due as much further on, on the device and in the
/// buffer alike; nothing is due once as much has moved as there is to move.
pub proof fn pieces_advance_the_request(v: TransferView, n: int)
    requires
        0 <= v.done < v.len,
        0 <= n <= v.len - v.done,
    ensures
        v.request() is Some,
        v.moved(n).request() is None <==> v.done + n == v.len,
        v.moved(n).request() matches Some(at) ==> v.request() matches Some(before) && at.0
            == before.0 + n && at.1 == before.1 + n,
        v.moved(n).len == v.len,
        v.moved(n).offset == v.offset,
        v.moved(n).direction == v.direction,
{
}

} // verus!
