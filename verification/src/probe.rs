//! Helpers that the foreground watcher and the service variant share:
//! drive-letter selection, device paths in device-change broadcasts, and
//! probing a disk for the consumer's filesystem.

use vstd::prelude::*;

use crate::device::BlockSource;
use crate::utf16;
use crate::FsBackend;

verus! {

/// Drive `A` plus `i` has its bit set in the mask of drives in use.
pub open spec fn drive_in_use(in_use: u32, i: u32) -> bool {
    (in_use >> i) & 1 == 1
}

/// The letter of drive `A` plus `i`.
pub open spec fn drive_letter(i: u32) -> char {
    ('A' as int + i) as char
}

/// The letter of the first drive from `A` plus `i` to `Z` that is not in use.
pub open spec fn first_free(in_use: u32, i: u32) -> Option<char>
    decreases 26 - i,
{
    if i >= 26 {
        None
    } else if !drive_in_use(in_use, i) {
        Some(drive_letter(i))
    } else {
        first_free(in_use, (i + 1) as u32)
    }
}

/// Pick the lowest free drive letter in `E..=Z`, given the mask of drives in
/// use (bit 0 is `A`). `None` if none is free.
///
/// Skips `A..=D`, which users expect to belong to floppy, system and CD-ROM
/// drives.
pub fn pick_drive_letter(in_use: u32) -> (r: Option<char>)
    ensures
        r == first_free(in_use, 4),
{
    let mut i: u32 = 4;
    while i < 26
        invariant
            4 <= i <= 26,
            first_free(in_use, i) == first_free(in_use, 4),
        decreases 26 - i,
    {
        let shifted: u32 = in_use >> i;
        assert(shifted & 1 == 0 || shifted & 1 == 1) by (bit_vector);
        if shifted & 1 == 0 {
            return Some((0x41u8 + i as u8) as char);
        }
        i = i + 1;
    }
    None
}

/// Bytes in front of `dbcc_name` in a `DEV_BROADCAST_DEVICEINTERFACE_W`:
/// `dbcc_size`, `dbcc_devicetype` and `dbcc_reserved` (4 each) and
/// `dbcc_classguid` (16).
pub const DBCC_NAME_OFFSET: usize = 28;

/// The device path in a `DEV_BROADCAST_DEVICEINTERFACE_W`, given as the
/// `dbcc_size` bytes that it takes up: UTF-16 up to the first NUL. `None` if the
/// broadcast holds no name, or one that is not well-formed UTF-16.
pub open spec fn broadcast_name(broadcast: Seq<u8>) -> Option<Seq<char>> {
    let name = utf16::before_nul(utf16::units_of(broadcast.skip(28)));
    if broadcast.len() > 28 && utf16::is_well_formed(name) {
        Some(utf16::lossy_text(name))
    } else {
        None
    }
}

/// Pull the device path out of a `DEV_BROADCAST_DEVICEINTERFACE_W`, given as the
/// `dbcc_size` bytes that it takes up.
pub fn device_interface_name(broadcast: &[u8]) -> (r: Option<String>)
    ensures
        r is Some <==> broadcast_name(broadcast@) is Some,
        r matches Some(s) ==> broadcast_name(broadcast@) == Some(s@),
{
    if broadcast.len() <= DBCC_NAME_OFFSET {
        return None;
    }
    let field: &[u8] = &broadcast[DBCC_NAME_OFFSET..broadcast.len()];
    assert(field@ =~= broadcast@.skip(28));
    let units: Vec<u16> = utf16::read_until_nul(field);
    utf16::decode_strict(units.as_slice())
}

/// Bytes that are read for a probe. Covers 512-byte and 4Kn devices and any
/// superblock magic.
pub const PROBE_LEN: usize = 4096;

/// Read a window at `offset` of `src` and run `B::detect` on it. What cannot be
/// read is not the consumer's filesystem.
pub fn probe_at_offset<B: FsBackend, S: BlockSource + ?Sized>(src: &S, offset: u64) -> (found: bool)
    ensures
        ({
            ||| !found && exists|e: std::io::Error| #[trigger]
                src.read_outcome(offset, 4096, Err(e))
            ||| exists|bytes: Seq<u8>|
                bytes.len() == 4096 && #[trigger] src.read_outcome(offset, 4096, Ok(bytes))
                    && B::verdict(bytes, found)
        }),
{
    let mut buf: Vec<u8> = vec![0u8; PROBE_LEN];
    match src.read_at(offset, buf.as_mut_slice()) {
        Ok(()) => {},
        Err(e) => {
            assert(src.read_outcome(offset, 4096, Err(e)));
            return false;
        },
    }
    assert(src.read_outcome(offset, 4096, Ok(buf@)));
    B::detect(buf.as_slice())
}

proof fn lemma_first_free_is_lowest(in_use: u32, i: u32)
    requires
        i <= 26,
    ensures
        first_free(in_use, i) is None <==> forall|j: u32| i <= j < 26 ==> drive_in_use(in_use, j),
        first_free(in_use, i) matches Some(c) ==> exists|k: u32|
            {
                &&& i <= k < 26
                &&& c == drive_letter(k)
                &&& !(#[trigger] drive_in_use(in_use, k))
                &&& forall|j: u32| i <= j < k ==> drive_in_use(in_use, j)
            },
    decreases 26 - i,
{
    if i < 26 {
        if drive_in_use(in_use, i) {
            lemma_first_free_is_lowest(in_use, (i + 1) as u32);
            if first_free(in_use, i) is Some {
                let k = choose|k: u32|
                    {
                        &&& i + 1 <= k < 26
                        &&& first_free(in_use, i)->0 == drive_letter(k)
                        &&& !(#[trigger] drive_in_use(in_use, k))
                        &&& forall|j: u32| i + 1 <= j < k ==> drive_in_use(in_use, j)
                    };
                assert(forall|j: u32| i <= j < k ==> drive_in_use(in_use, j));
            }
        }
    }
}

/// The letter picked is free, lies in `E..=Z`, and every letter between `E` and
/// it is in use; there is none exactly when all of `E..=Z` are in use.
pub proof fn picked_letter_is_lowest_free(in_use: u32)
    ensures
        first_free(in_use, 4) is None <==> forall|j: u32| 4 <= j < 26 ==> drive_in_use(in_use, j),
        first_free(in_use, 4) matches Some(c) ==> exists|k: u32|
            {
                &&& 4 <= k < 26
                &&& c == drive_letter(k)
                &&& 'E' <= c <= 'Z'
                &&& !(#[trigger] drive_in_use(in_use, k))
                &&& forall|j: u32| 4 <= j < k ==> drive_in_use(in_use, j)
            },
{
    lemma_first_free_is_lowest(in_use, 4);
}

/// A device path without NUL characters survives a broadcast: encoded behind the
/// fixed fields and NUL-terminated, it is read back.
pub proof fn broadcast_gives_back_the_path(broadcast: Seq<u8>, path: Seq<char>, tail: Seq<u16>)
    requires
        broadcast.len() > 28,
        !path.contains('\0'),
        utf16::units_of(broadcast.skip(28)) == utf16::encode(path).push(0) + tail,
    ensures
        broadcast_name(broadcast) == Some(path),
{
    utf16::terminator_delimits_text(path, tail);
    utf16::decode_undoes_encode(path);
}

/// The letter that is picked, letter by letter: it lies in `E..=Z`, its bit in
/// the mask is clear, and the bits of all letters from `E` up to it are set.
/// There is none exactly if the bits of all of `E..=Z` are set. Bit 0 is `A`.
pub proof fn picked_letter_is_the_first_clear_bit(in_use: u32, r: Option<char>, j: u32)
    requires
        call_ensures(pick_drive_letter, (in_use,), r),
    ensures
        r matches Some(c) ==> {
            let k = (c as int - 'A' as int) as u32;
            &&& 'E' <= c <= 'Z'
            &&& (in_use >> k) & 1 == 0
            &&& 4 <= j < k ==> (in_use >> j) & 1 == 1
        },
        r is None && 4 <= j < 26 ==> (in_use >> j) & 1 == 1,
        (forall|k: u32| 4 <= k < 26 ==> #[trigger] (in_use >> k) & 1 == 1) ==> r is None,
{
    picked_letter_is_lowest_free(in_use);
    if r is None && 4 <= j < 26 {
        assert(drive_in_use(in_use, j));
    }
    if let Some(c) = r {
        let k = choose|k: u32|
            {
                &&& 4 <= k < 26
                &&& c == drive_letter(k)
                &&& 'E' <= c <= 'Z'
                &&& !(#[trigger] drive_in_use(in_use, k))
                &&& forall|j: u32| 4 <= j < k ==> drive_in_use(in_use, j)
            };
        assert((c as int - 'A' as int) as u32 == k);
        let bit: u32 = in_use >> k;
        assert(bit & 1 == 0 || bit & 1 == 1) by (bit_vector);
        if 4 <= j < k {
            assert(drive_in_use(in_use, j));
        }
    }
}

proof fn lemma_name_units(broadcast: Seq<u8>, units: Seq<u16>)
    requires
        broadcast.len() >= 28 + 2 * units.len(),
        forall|k: int|
            0 <= k < units.len() ==> #[trigger] units[k] == broadcast[28 + 2 * k] + 0x100
                * broadcast[29 + 2 * k],
    ensures
        ({
            let all = utf16::units_of(broadcast.skip(28));
            all == units + all.skip(units.len() as int)
        }),
{
    let field = broadcast.skip(28);
    let all = utf16::units_of(field);
    utf16::units_are_byte_pairs(field, 0);
    assert forall|k: int| 0 <= k < units.len() implies #[trigger] units[k] == all[k] by {
        utf16::units_are_byte_pairs(field, k);
        assert(field[2 * k] == broadcast[28 + 2 * k]);
        assert(field[2 * k + 1] == broadcast[29 + 2 * k]);
    }
    assert(all =~= units + all.skip(units.len() as int));
}

/// A broadcast gives exactly the path whose UTF-16LE bytes stand behind its 28
/// bytes of fixed fields, however long the path is and whatever follows its
/// terminator.
pub proof fn whole_path_is_read_from_the_bytes(
    broadcast: &[u8],
    path: Seq<char>,
    r: Option<String>,
)
    requires
        call_ensures(device_interface_name, (broadcast,), r),
        !path.contains('\0'),
        ({
            let units = utf16::encode(path);
            let end = 28 + 2 * units.len() as int;
            &&& end + 2 <= broadcast@.len()
            &&& forall|k: int|
                0 <= k < units.len() ==> #[trigger] units[k] == broadcast@[28 + 2 * k] + 0x100
                    * broadcast@[29 + 2 * k]
            &&& broadcast@[end] == 0
            &&& broadcast@[end + 1] == 0
        }),
    ensures
        r is Some,
        r->0@ == path,
{
    let units = utf16::encode(path);
    let field = broadcast@.skip(28);
    let all = utf16::units_of(field);
    let n = units.len() as int;
    lemma_name_units(broadcast@, units);
    utf16::units_are_byte_pairs(field, n);
    assert(field[2 * n] == broadcast@[28 + 2 * n]);
    assert(field[2 * n + 1] == broadcast@[28 + 2 * n + 1]);
    assert(all.skip(n)[0] == 0);
    assert(all =~= units.push(0) + all.skip(n + 1));
    broadcast_gives_back_the_path(broadcast@, path, all.skip(n + 1));
}

/// A path that fills its broadcast needs no terminator: it ends with the
/// broadcast.
pub proof fn path_may_end_with_the_broadcast(broadcast: &[u8], path: Seq<char>, r: Option<String>)
    requires
        call_ensures(device_interface_name, (broadcast,), r),
        !path.contains('\0'),
        path.len() > 0,
        ({
            let units = utf16::encode(path);
            &&& 28 + 2 * units.len() <= broadcast@.len() < 28 + 2 * units.len() + 2
            &&& forall|k: int|
                0 <= k < units.len() ==> #[trigger] units[k] == broadcast@[28 + 2 * k] + 0x100
                    * broadcast@[29 + 2 * k]
        }),
    ensures
        r is Some,
        r->0@ == path,
{
    let units = utf16::encode(path);
    let field = broadcast@.skip(28);
    let all = utf16::units_of(field);
    lemma_name_units(broadcast@, units);
    utf16::units_are_byte_pairs(field, 0);
    utf16::encodings_concatenate(seq![path[0]], path.skip(1));
    utf16::characters_take_one_unit_or_a_pair(path[0]);
    assert(path =~= seq![path[0]] + path.skip(1));
    assert(all =~= units + Seq::empty());
    utf16::text_stands_before_nul(path, Seq::empty());
    assert(utf16::encode(path) + utf16::before_nul(Seq::empty()) =~= units);
    utf16::decode_undoes_encode(path);
}

/// A broadcast of at most 28 bytes names nothing. A longer one names a path
/// exactly if the units in front of the first NUL are the encoding of one.
pub proof fn what_is_not_a_path_is_refused(broadcast: &[u8], r: Option<String>, n: int)
    requires
        call_ensures(device_interface_name, (broadcast,), r),
        0 <= n,
        28 + 2 * n + 1 < broadcast@.len() ==> broadcast@[28 + 2 * n] == 0 && broadcast@[28 + 2 * n
            + 1] == 0,
        28 + 2 * n <= broadcast@.len(),
        forall|k: int|
            0 <= k < n ==> #[trigger] broadcast@[28 + 2 * k] != 0 || broadcast@[29 + 2 * k] != 0,
    ensures
        broadcast@.len() <= 28 ==> r is None,
        ({
            let units = Seq::new(
                n as nat,
                |k: int| (broadcast@[28 + 2 * k] + 0x100 * broadcast@[29 + 2 * k]) as u16,
            );
            broadcast@.len() > 28 ==> (r is Some <==> exists|path: Seq<char>| #[trigger]
                utf16::encode(path) == units)
        }),
{
    let field = broadcast@.skip(28);
    let all = utf16::units_of(field);
    let units = Seq::new(
        n as nat,
        |k: int| (broadcast@[28 + 2 * k] + 0x100 * broadcast@[29 + 2 * k]) as u16,
    );
    if broadcast@.len() > 28 {
        lemma_name_units(broadcast@, units);
        utf16::units_are_byte_pairs(field, n);
        utf16::before_nul_is_the_longest_beginning(all);
        let m = utf16::before_nul(all).len() as int;
        if m < n {
            assert(all[m] == units[m]);
            assert(broadcast@[28 + 2 * m] != 0 || broadcast@[29 + 2 * m] != 0);
        }
        if m > n {
            assert(field[2 * n] == broadcast@[28 + 2 * n]);
            assert(field[2 * n + 1] == broadcast@[28 + 2 * n + 1]);
            assert(utf16::before_nul(all)[n] == all[n]);
        }
        assert(utf16::before_nul(all) =~= units);
        utf16::well_formed_units_are_encodings(units);
    }
}

/// On a disk that reads as `disk` and cannot be read beyond its end, a probe
/// shows the consumer exactly the 4096 bytes at its offset; where they are not
/// there, it finds nothing.
pub proof fn probe_shows_the_bytes_at_its_offset<B: FsBackend, S: BlockSource>(
    src: &S,
    disk: Seq<u8>,
    offset: u64,
    found: bool,
)
    requires
        crate::partition::reads_as(src, disk),
        call_ensures(probe_at_offset::<B, S>, (src, offset), found),
    ensures
        offset + 4096 <= disk.len() ==> B::verdict(
            disk.subrange(offset as int, offset + 4096),
            found,
        ),
        offset + 4096 > disk.len() ==> !found,
{
}

} // verus!
