//! MBR + GPT partition table parsing.
//!
//! [`list_from_source`] reads the first sectors of a [`BlockSource`] and parses
//! what it finds; the parsing itself works on plain bytes. The sector size is
//! fixed at 512.

use vstd::prelude::*;
use vstd::string::*;

use crate::device;
use crate::device::BlockSource;
use crate::le;
use crate::text;
use crate::utf16;

verus! {

/// Bytes per sector.
pub const SECTOR: u64 = 512;

/// Where the MBR keeps its `0x55 0xAA` signature.
pub const MBR_SIG_OFF: usize = 510;

/// Where the MBR keeps its four 16-byte partition slots.
pub const MBR_PART_OFF: usize = 446;

/// The GPT header signature, "EFI PART".
pub const GPT_SIG: [u8; 8] = [0x45, 0x46, 0x49, 0x20, 0x50, 0x41, 0x52, 0x54];

// Type GUIDs as on-disk bytes (mixed-endian: the first 4, the next 2 and the
// next 2 bytes are little-endian, the final 8 stand as written).
/// `0FC63DAF-8483-4772-8E79-3D69D8477DE4`
pub const GUID_LINUX_FS: [u8; 16] = [
    0xAF, 0x3D, 0xC6, 0x0F, 0x83, 0x84, 0x72, 0x47, 0x8E, 0x79, 0x3D, 0x69, 0xD8, 0x47, 0x7D, 0xE4,
];

/// `C12A7328-F81F-11D2-BA4B-00A0C93EC93B`
pub const GUID_EFI_SYSTEM: [u8; 16] = [
    0x28, 0x73, 0x2A, 0xC1, 0x1F, 0xF8, 0xD2, 0x11, 0xBA, 0x4B, 0x00, 0xA0, 0xC9, 0x3E, 0xC9, 0x3B,
];

/// `EBD0A0A2-B9E5-4433-87C0-68B6B72699C7`
pub const GUID_MS_BASIC: [u8; 16] = [
    0xA2, 0xA0, 0xD0, 0xEB, 0xE5, 0xB9, 0x33, 0x44, 0x87, 0xC0, 0x68, 0xB6, 0xB7, 0x26, 0x99, 0xC7,
];

/// `0657FD6D-A4AB-43C4-84E5-0933C84B4F4F`
pub const GUID_LINUX_SWAP: [u8; 16] = [
    0x6D, 0xFD, 0x57, 0x06, 0xAB, 0xA4, 0xC4, 0x43, 0x84, 0xE5, 0x09, 0x33, 0xC8, 0x4B, 0x4F, 0x4F,
];

/// One partition entry, normalised across MBR and GPT.
#[derive(Debug, Clone, PartialEq, Eq)]
pub struct Partition {
    /// First LBA of the partition (sector index, sector size = 512).
    pub start_lba: u64,
    /// Length in sectors.
    pub num_sectors: u64,
    /// Short human-readable kind: `GPT:linux`, `GPT:efi`, `GPT:msbasic`,
    /// `GPT:swap`, `GPT:<hex-guid>`, `MBR:0x83` etc.
    pub kind: String,
    /// GPT only: the UTF-16LE-decoded partition name. `None` for MBR, and where
    /// the name is empty.
    pub name: Option<String>,
}

/// What a [`Partition`] says.
pub struct PartitionView {
    pub start_lba: int,
    pub num_sectors: int,
    pub kind: Seq<char>,
    pub name: Option<Seq<char>>,
}

impl View for Partition {
    type V = PartitionView;

    open spec fn view(&self) -> PartitionView {
        PartitionView {
            start_lba: self.start_lba as int,
            num_sectors: self.num_sectors as int,
            kind: self.kind@,
            name: match self.name {
                Some(n) => Some(n@),
                None => None,
            },
        }
    }
}

/// What a list of partitions says.
pub open spec fn views(parts: Seq<Partition>) -> Seq<PartitionView> {
    parts.map_values(|p: Partition| p@)
}

/// Why a partition table could not be listed.
#[derive(Debug)]
pub enum PartitionError {
    /// Sector 0 could not be read.
    ReadMbr(std::io::Error),
    /// Sector 0 does not end in `0x55 0xAA`: not a partitioned device.
    NoMbrSignature,
    /// The GPT header sector could not be read.
    ReadGptHeader(std::io::Error),
    /// The GPT header does not start with "EFI PART".
    GptSignatureMissing,
    /// The GPT header size is not in `92..=512`.
    GptHeaderSize(u32),
    /// The GPT entry size is not in `128..=4096`.
    GptEntrySize(u32),
    /// There are more than 4096 GPT entries.
    GptEntryCount(u32),
    /// The GPT entry array starts beyond 64-bit byte addresses.
    GptEntryArrayLba(u64),
    /// The GPT entry array could not be read.
    ReadGptEntries(std::io::Error),
    /// A GPT entry spans all 2^64 sectors, more than a length can say.
    GptPartitionLength,
}

impl PartitionError {
    /// What was being done when the listing failed, or, where there is nothing
    /// behind it, what went wrong. This alone is the text of the error.
    pub open spec fn context(&self) -> Seq<char> {
        match self {
            PartitionError::ReadMbr(_) => "reading MBR sector"@,
            PartitionError::NoMbrSignature =>
                "no MBR signature at offset 510 — not a partitioned device"@,
            _ => "parsing GPT"@,
        }
    }

    /// What went wrong, where [`PartitionError::context`] does not say it.
    /// `cause` is the text of the I/O error, where there is one.
    pub open spec fn detail(&self, cause: Seq<char>) -> Option<Seq<char>> {
        match self {
            PartitionError::ReadMbr(_) => Some(cause),
            PartitionError::NoMbrSignature => None,
            PartitionError::ReadGptHeader(_) => Some("reading GPT header sector: "@ + cause),
            PartitionError::GptSignatureMissing => Some(
                "GPT header signature missing (expected \"EFI PART\")"@,
            ),
            PartitionError::GptHeaderSize(n) => Some(
                "implausible GPT header size: "@ + text::decimal(*n as nat),
            ),
            PartitionError::GptEntrySize(n) => Some(
                "implausible GPT entry size: "@ + text::decimal(*n as nat),
            ),
            PartitionError::GptEntryCount(n) => Some(
                "implausible GPT entry count: "@ + text::decimal(*n as nat),
            ),
            PartitionError::GptEntryArrayLba(n) => Some(
                "implausible GPT entry array LBA: "@ + text::decimal(*n as nat),
            ),
            PartitionError::ReadGptEntries(_) => Some("reading GPT entries: "@ + cause),
            PartitionError::GptPartitionLength => Some("implausible GPT partition length"@),
        }
    }

    /// The whole chain, for a log: what was being done, then what went wrong.
    pub open spec fn chain(&self, cause: Seq<char>) -> Seq<char> {
        match self.detail(cause) {
            Some(detail) => self.context() + ": "@ + detail,
            None => self.context(),
        }
    }

    /// The I/O error behind this one, if any.
    pub open spec fn io_cause(&self) -> Option<std::io::Error> {
        match self {
            PartitionError::ReadMbr(e) => Some(*e),
            PartitionError::ReadGptHeader(e) => Some(*e),
            PartitionError::ReadGptEntries(e) => Some(*e),
            _ => None,
        }
    }

    /// The text of the error: its outermost words only, never those of what lies
    /// behind it.
    pub fn to_string(&self) -> (s: String)
        ensures
            s@ == self.context(),
    {
        match self {
            PartitionError::ReadMbr(_) => "reading MBR sector".to_owned(),
            PartitionError::NoMbrSignature =>
                "no MBR signature at offset 510 — not a partitioned device".to_owned(),
            _ => "parsing GPT".to_owned(),
        }
    }

    /// What went wrong, where the text of the error does not say it, with the
    /// text that `std` gives the I/O error behind it.
    pub fn detail_text(&self) -> (d: Option<String>)
        ensures
            d is Some <==> self.detail(Seq::empty()) is Some,
            self.io_cause() is None ==> (d matches Some(s) ==> self.detail(Seq::empty()) == Some(
                s@,
            )),
            self.io_cause() is Some ==> exists|cause: Seq<char>| #[trigger]
                device::shown_as(self.io_cause()->0, cause) && d is Some && self.detail(cause)
                    == Some(d->0@),
    {
        match self {
            PartitionError::ReadMbr(e) => {
                let s: String = device::io_error_text(e);
                assert(device::shown_as(self.io_cause()->0, s@) && self.detail(s@) == Some(s@));
                Some(s)
            },
            PartitionError::NoMbrSignature => None,
            PartitionError::ReadGptHeader(e) => {
                let cause: String = device::io_error_text(e);
                let s: String = text::joined("reading GPT header sector: ", cause.as_str());
                assert(device::shown_as(self.io_cause()->0, cause@) && self.detail(cause@) == Some(
                    s@,
                ));
                Some(s)
            },
            PartitionError::GptSignatureMissing => Some(
                "GPT header signature missing (expected \"EFI PART\")".to_owned(),
            ),
            PartitionError::GptHeaderSize(n) => Some(
                text::joined(
                    "implausible GPT header size: ",
                    text::decimal_string(*n as u64).as_str(),
                ),
            ),
            PartitionError::GptEntrySize(n) => Some(
                text::joined(
                    "implausible GPT entry size: ",
                    text::decimal_string(*n as u64).as_str(),
                ),
            ),
            PartitionError::GptEntryCount(n) => Some(
                text::joined(
                    "implausible GPT entry count: ",
                    text::decimal_string(*n as u64).as_str(),
                ),
            ),
            PartitionError::GptEntryArrayLba(n) => Some(
                text::joined(
                    "implausible GPT entry array LBA: ",
                    text::decimal_string(*n).as_str(),
                ),
            ),
            PartitionError::ReadGptEntries(e) => {
                let cause: String = device::io_error_text(e);
                let s: String = text::joined("reading GPT entries: ", cause.as_str());
                assert(device::shown_as(self.io_cause()->0, cause@) && self.detail(cause@) == Some(
                    s@,
                ));
                Some(s)
            },
            PartitionError::GptPartitionLength => Some(
                "implausible GPT partition length".to_owned(),
            ),
        }
    }

    /// The whole chain, for a log, with the text that `std` gives the I/O error
    /// behind it.
    pub fn chain_text(&self) -> (s: String)
        ensures
            self.io_cause() is None ==> s@ == self.chain(Seq::empty()),
            self.io_cause() is Some ==> exists|cause: Seq<char>| #[trigger]
                device::shown_as(self.io_cause()->0, cause) && s@ == self.chain(cause),
    {
        let mut s: String = self.to_string();
        match self.detail_text() {
            Some(detail) => {
                s.append(": ");
                s.append(detail.as_str());
                proof {
                    if self.io_cause() is Some {
                        let cause = choose|cause: Seq<char>| #[trigger]
                            device::shown_as(self.io_cause()->0, cause) && self.detail(cause)
                                == Some(detail@);
                        assert(device::shown_as(self.io_cause()->0, cause) && s@ == self.chain(
                            cause,
                        ));
                    }
                }
            },
            None => {},
        }
        s
    }
}

/// `phrase` stands in `text`.
pub open spec fn stands_in(text: Seq<char>, phrase: Seq<char>) -> bool {
    exists|i: int|
        0 <= i <= text.len() - phrase.len() && #[trigger] text.subrange(i, i + phrase.len())
            == phrase
}

/// An error says "no MBR signature" exactly if it is the one about the missing
/// signature: no other error's text holds the phrase, whatever lies behind it.
pub proof fn only_the_missing_signature_says_so(e: PartitionError)
    ensures
        stands_in(e.context(), "no MBR signature"@) <==> e is NoMbrSignature,
{
    let phrase = "no MBR signature"@;
    let text = e.context();
    reveal_strlit("no MBR signature");
    reveal_strlit("reading MBR sector");
    reveal_strlit("no MBR signature at offset 510 — not a partitioned device");
    reveal_strlit("parsing GPT");
    if e is NoMbrSignature {
        assert(text.subrange(0, 0int + phrase.len()) =~= phrase);
    } else if stands_in(text, phrase) {
        let i = choose|i: int|
            0 <= i <= text.len() - phrase.len() && #[trigger] text.subrange(i, i + phrase.len())
                == phrase;
        assert(text.subrange(i, i + phrase.len())[0] == text[i]);
        assert(phrase[0] == 'n');
    }
}

/// The `Some` values of `f(0)`, ..., `f(n - 1)`, in order.
pub open spec fn collect_some<T>(f: spec_fn(int) -> Option<T>, n: nat) -> Seq<T>
    decreases n,
{
    if n == 0 {
        Seq::empty()
    } else {
        let before = collect_some(f, (n - 1) as nat);
        match f(n - 1) {
            Some(x) => before.push(x),
            None => before,
        }
    }
}

/// Sector 0 ends in the MBR signature.
pub open spec fn has_mbr_signature(mbr: Seq<u8>) -> bool {
    mbr[510] == 0x55 && mbr[511] == 0xAA
}

/// Where MBR slot `i` starts.
pub open spec fn slot_at(i: int) -> int {
    446 + 16 * i
}

/// Some MBR slot has type `0xEE`: the disk carries a GPT.
pub open spec fn is_protective(mbr: Seq<u8>) -> bool {
    exists|i: int| 0 <= i < 4 && mbr[#[trigger] slot_at(i) + 4] == 0xEE
}

/// The partition in MBR slot `i`. A slot without a type or without a length
/// is empty.
pub open spec fn mbr_slot(mbr: Seq<u8>, i: int) -> Option<PartitionView> {
    let at = slot_at(i);
    if mbr[at + 4] == 0 || le::le_u32(mbr, at + 12) == 0 {
        None
    } else {
        Some(
            PartitionView {
                start_lba: le::le_u32(mbr, at + 8),
                num_sectors: le::le_u32(mbr, at + 12),
                kind: "MBR:0x"@ + text::hex_byte(mbr[at + 4], false),
                name: None,
            },
        )
    }
}

/// The partitions of a plain MBR: its used slots, in slot order.
pub open spec fn mbr_partitions(mbr: Seq<u8>) -> Seq<PartitionView> {
    collect_some(|i: int| mbr_slot(mbr, i), 4)
}

/// The canonical 8-4-4-4-12 form of a type GUID in its on-disk layout.
pub open spec fn guid_text(g: Seq<u8>) -> Seq<char> {
    text::hex_bytes(seq![g[3], g[2], g[1], g[0]], true) + "-"@ + text::hex_bytes(
        seq![g[5], g[4]],
        true,
    ) + "-"@ + text::hex_bytes(seq![g[7], g[6]], true) + "-"@ + text::hex_bytes(
        seq![g[8], g[9]],
        true,
    ) + "-"@ + text::hex_bytes(seq![g[10], g[11], g[12], g[13], g[14], g[15]], true)
}

/// The kind of a GPT partition: a short name for the known type GUIDs, the
/// GUID itself for all others.
pub open spec fn gpt_kind(g: Seq<u8>) -> Seq<char> {
    if g == GUID_LINUX_FS@ {
        "GPT:linux"@
    } else if g == GUID_EFI_SYSTEM@ {
        "GPT:efi"@
    } else if g == GUID_MS_BASIC@ {
        "GPT:msbasic"@
    } else if g == GUID_LINUX_SWAP@ {
        "GPT:swap"@
    } else {
        "GPT:"@ + guid_text(g)
    }
}

/// The text of a NUL-padded UTF-16LE name field: the decoded characters, in
/// order. A surrogate that is not part of a pair stands for no character and is
/// left out.
pub open spec fn name_text(field: Seq<u8>) -> Seq<char> {
    let chars = utf16::decode(utf16::before_nul(utf16::units_of(field)));
    collect_some(|i: int| chars[i], chars.len())
}

/// What the GPT header says about the entry array.
#[derive(Debug, Clone, Copy, PartialEq, Eq, Structural)]
pub struct GptHeader {
    /// First LBA of the entry array.
    pub part_array_lba: u64,
    /// Number of entries.
    pub n_entries: u32,
    /// Bytes per entry.
    pub entry_size: u32,
}

impl GptHeader {
    /// The sizes that a header may claim.
    pub open spec fn wf(&self) -> bool {
        &&& 128 <= self.entry_size <= 4096
        &&& self.n_entries <= 4096
    }

    /// Bytes in the entry array.
    pub open spec fn array_len(&self) -> int {
        self.n_entries * self.entry_size
    }
}

/// What a GPT header sector says, or the first of the checks that it fails:
/// signature, header size, entry size, entry count.
pub open spec fn gpt_header(hdr: Seq<u8>) -> Result<GptHeader, PartitionError> {
    let header_size = le::le_u32(hdr, 12);
    let n_entries = le::le_u32(hdr, 80);
    let entry_size = le::le_u32(hdr, 84);
    if hdr.subrange(0, 8) != GPT_SIG@ {
        Err(PartitionError::GptSignatureMissing)
    } else if !(92 <= header_size <= 512) {
        Err(PartitionError::GptHeaderSize(header_size as u32))
    } else if !(128 <= entry_size <= 4096) {
        Err(PartitionError::GptEntrySize(entry_size as u32))
    } else if n_entries > 4096 {
        Err(PartitionError::GptEntryCount(n_entries as u32))
    } else {
        Ok(
            GptHeader {
                part_array_lba: le::le_u64(hdr, 72) as u64,
                n_entries: n_entries as u32,
                entry_size: entry_size as u32,
            },
        )
    }
}

/// Entry `i` of a GPT entry array.
pub open spec fn entry_bytes(buf: Seq<u8>, h: GptHeader, i: int) -> Seq<u8> {
    buf.subrange(i * h.entry_size, (i + 1) * h.entry_size)
}

/// A GPT entry is in use: its type is not the zero GUID and it does not end
/// before it starts.
pub open spec fn entry_used(e: Seq<u8>) -> bool {
    &&& e.subrange(0, 16) != Seq::new(16, |k: int| 0u8)
    &&& le::le_u64(e, 40) >= le::le_u64(e, 32)
}

/// The number of sectors of a GPT entry; the last LBA belongs to it.
pub open spec fn entry_sectors(e: Seq<u8>) -> int {
    le::le_u64(e, 40) - le::le_u64(e, 32) + 1
}

/// The partition of a GPT entry.
pub open spec fn gpt_entry(e: Seq<u8>) -> Option<PartitionView> {
    if entry_used(e) {
        let name = name_text(e.subrange(56, 128));
        Some(
            PartitionView {
                start_lba: le::le_u64(e, 32),
                num_sectors: entry_sectors(e),
                kind: gpt_kind(e.subrange(0, 16)),
                name: if name.len() == 0 {
                    None
                } else {
                    Some(name)
                },
            },
        )
    } else {
        None
    }
}

/// The partitions of a GPT entry array: its used entries, in order.
pub open spec fn gpt_partitions(buf: Seq<u8>, h: GptHeader) -> Seq<PartitionView> {
    collect_some(|i: int| gpt_entry(entry_bytes(buf, h, i)), h.n_entries as nat)
}

/// Some used entry is longer than a 64-bit sector count can say.
pub open spec fn has_oversized_entry(buf: Seq<u8>, h: GptHeader) -> bool {
    exists|i: int|
        0 <= i < h.n_entries && entry_used(#[trigger] entry_bytes(buf, h, i)) && entry_sectors(
            entry_bytes(buf, h, i),
        ) > u64::MAX
}

/// Whether a slot of the MBR has the GPT protective type `0xEE`.
pub fn has_gpt_protective(mbr: &[u8; 512]) -> (r: bool)
    ensures
        r == is_protective(mbr@),
{
    let mut i: usize = 0;
    while i < 4
        invariant
            i <= 4,
            forall|j: int| 0 <= j < i ==> mbr@[#[trigger] slot_at(j) + 4] != 0xEE,
        decreases 4 - i,
    {
        let off: usize = MBR_PART_OFF + i * 16;
        assert(off == slot_at(i as int));
        if mbr[off + 4] == 0xEE {
            return true;
        }
        i = i + 1;
    }
    false
}

/// List the used slots of a plain MBR.
pub fn parse_mbr(mbr: &[u8; 512]) -> (out: Vec<Partition>)
    ensures
        views(out@) == mbr_partitions(mbr@),
{
    let ghost slot = |i: int| mbr_slot(mbr@, i);
    let mut out: Vec<Partition> = Vec::new();
    let mut i: usize = 0;
    assert(views(out@) =~= collect_some(slot, 0));
    while i < 4
        invariant
            i <= 4,
            slot == (|i: int| mbr_slot(mbr@, i)),
            views(out@) == collect_some(slot, i as nat),
        decreases 4 - i,
    {
        let off: usize = MBR_PART_OFF + i * 16;
        assert(off == slot_at(i as int));
        let kind_byte: u8 = mbr[off + 4];
        let lba: u32 = le::read_u32(mbr, off + 8);
        let len: u32 = le::read_u32(mbr, off + 12);
        let ghost before = out@;
        if kind_byte != 0 && len != 0 {
            let mut kind = "MBR:0x".to_owned();
            text::push_hex_byte(&mut kind, kind_byte, false);
            out.push(
                Partition {
                    start_lba: lba as u64,
                    num_sectors: len as u64,
                    kind,
                    name: None,
                },
            );
            assert(slot(i as int) == Some(out@.last()@));
            assert(views(out@) =~= views(before).push(out@.last()@));
        }
        assert(views(out@) =~= collect_some(slot, (i + 1) as nat));
        i = i + 1;
    }
    out
}

/// Whether two byte strings are the same.
fn same_bytes(a: &[u8], b: &[u8]) -> (r: bool)
    ensures
        r == (a@ == b@),
{
    if a.len() != b.len() {
        return false;
    }
    let mut i: usize = 0;
    while i < a.len()
        invariant
            i <= a.len(),
            a.len() == b.len(),
            forall|j: int| 0 <= j < i ==> a@[j] == b@[j],
        decreases a.len() - i,
    {
        if a[i] != b[i] {
            return false;
        }
        i = i + 1;
    }
    assert(a@ =~= b@);
    true
}

/// Write a type GUID in its canonical 8-4-4-4-12 form, accounting for the
/// mixed-endian on-disk layout.
pub fn format_guid(g: &[u8; 16]) -> (s: String)
    ensures
        s@ == guid_text(g@),
{
    let mut s = String::new();
    text::push_hex_bytes(&mut s, &[g[3], g[2], g[1], g[0]], true);
    s.append("-");
    text::push_hex_bytes(&mut s, &[g[5], g[4]], true);
    s.append("-");
    text::push_hex_bytes(&mut s, &[g[7], g[6]], true);
    s.append("-");
    text::push_hex_bytes(&mut s, &[g[8], g[9]], true);
    s.append("-");
    text::push_hex_bytes(&mut s, &[g[10], g[11], g[12], g[13], g[14], g[15]], true);
    assert(s@ =~= guid_text(g@));
    s
}

/// Name the kind of partition that a GPT type GUID stands for.
pub fn classify_gpt_guid(g: &[u8; 16]) -> (s: String)
    ensures
        s@ == gpt_kind(g@),
{
    if same_bytes(g, &GUID_LINUX_FS) {
        "GPT:linux".to_owned()
    } else if same_bytes(g, &GUID_EFI_SYSTEM) {
        "GPT:efi".to_owned()
    } else if same_bytes(g, &GUID_MS_BASIC) {
        "GPT:msbasic".to_owned()
    } else if same_bytes(g, &GUID_LINUX_SWAP) {
        "GPT:swap".to_owned()
    } else {
        text::joined("GPT:", format_guid(g).as_str())
    }
}

/// Decode a NUL-padded UTF-16LE name field. A surrogate that is not part of a
/// pair is left out.
pub fn decode_utf16le(field: &[u8]) -> (s: String)
    ensures
        s@ == name_text(field@),
{
    let units: Vec<u16> = utf16::read_until_nul(field);
    let chars: Vec<Option<char>> = utf16::decode_units(units.as_slice());
    let ghost f = |i: int| chars@[i];
    let mut out = String::new();
    let mut i: usize = 0;
    assert(out@ =~= collect_some(f, 0));
    while i < chars.len()
        invariant
            i <= chars.len(),
            f == (|i: int| chars@[i]),
            out@ == collect_some(f, i as nat),
        decreases chars.len() - i,
    {
        if let Some(c) = chars[i] {
            out.push(c);
        }
        assert(out@ =~= collect_some(f, (i + 1) as nat));
        i = i + 1;
    }
    out
}

/// Parse a GPT header sector.
pub fn parse_gpt_header(hdr: &[u8; 512]) -> (r: Result<GptHeader, PartitionError>)
    ensures
        r == gpt_header(hdr@),
        r matches Ok(h) ==> h.wf(),
{
    let sig: &[u8] = &hdr[0..8];
    if !same_bytes(sig, &GPT_SIG) {
        return Err(PartitionError::GptSignatureMissing);
    }
    let header_size: u32 = le::read_u32(hdr, 12);
    if header_size < 92 || header_size > 512 {
        return Err(PartitionError::GptHeaderSize(header_size));
    }
    let part_array_lba: u64 = le::read_u64(hdr, 72);
    let n_entries: u32 = le::read_u32(hdr, 80);
    let entry_size: u32 = le::read_u32(hdr, 84);
    if entry_size < 128 || entry_size > 4096 {
        return Err(PartitionError::GptEntrySize(entry_size));
    }
    if n_entries > 4096 {
        return Err(PartitionError::GptEntryCount(n_entries));
    }
    Ok(GptHeader { part_array_lba, n_entries, entry_size })
}

/// Parse one GPT entry. `Ok(None)` is an entry that is not in use.
fn parse_gpt_entry(e: &[u8]) -> (r: Result<Option<Partition>, PartitionError>)
    requires
        e@.len() >= 128,
    ensures
        r is Err <==> entry_used(e@) && entry_sectors(e@) > u64::MAX,
        r matches Err(err) ==> err == PartitionError::GptPartitionLength,
        r matches Ok(None) ==> gpt_entry(e@) is None,
        r matches Ok(Some(p)) ==> gpt_entry(e@) == Some(p@),
{
    let type_guid: [u8; 16] = [
        e[0], e[1], e[2], e[3], e[4], e[5], e[6], e[7], e[8], e[9], e[10], e[11], e[12], e[13],
        e[14], e[15],
    ];
    assert(type_guid@ =~= e@.subrange(0, 16));
    let zero: [u8; 16] = [0u8; 16];
    assert(zero@ =~= Seq::new(16, |k: int| 0u8));
    if same_bytes(&type_guid, &zero) {
        return Ok(None);
    }
    let start: u64 = le::read_u64(e, 32);
    let end: u64 = le::read_u64(e, 40);
    if end < start {
        return Ok(None);
    }
    if end - start == u64::MAX {
        return Err(PartitionError::GptPartitionLength);
    }
    let name: String = decode_utf16le(&e[56..128]);
    let kind: String = classify_gpt_guid(&type_guid);
    let name: Option<String> = if name.as_str().is_empty() {
        None
    } else {
        Some(name)
    };
    Ok(Some(Partition { start_lba: start, num_sectors: end - start + 1, kind, name }))
}

/// Parse a GPT entry array: list the used entries in order.
pub fn parse_gpt_entries(buf: &[u8], h: GptHeader) -> (r: Result<Vec<Partition>, PartitionError>)
    requires
        h.wf(),
        buf@.len() == h.array_len(),
    ensures
        r is Err <==> has_oversized_entry(buf@, h),
        r matches Err(err) ==> err == PartitionError::GptPartitionLength,
        r matches Ok(out) ==> views(out@) == gpt_partitions(buf@, h),
{
    let ghost entry = |i: int| gpt_entry(entry_bytes(buf@, h, i));
    let size: usize = h.entry_size as usize;
    let n: usize = h.n_entries as usize;
    let mut out: Vec<Partition> = Vec::new();
    let mut i: usize = 0;
    assert(views(out@) =~= collect_some(entry, 0));
    while i < n
        invariant
            i <= n,
            h.wf(),
            size == h.entry_size,
            n == h.n_entries,
            buf@.len() == h.array_len(),
            entry == (|i: int| gpt_entry(entry_bytes(buf@, h, i))),
            views(out@) == collect_some(entry, i as nat),
            forall|j: int|
                0 <= j < i ==> !(entry_used(#[trigger] entry_bytes(buf@, h, j)) && entry_sectors(
                    entry_bytes(buf@, h, j),
                ) > u64::MAX),
        decreases n - i,
    {
        proof {
            lemma_entry_in_array(i as int, n as int, size as int);
        }
        let e: &[u8] = &buf[i * size..(i + 1) * size];
        assert(e@ =~= entry_bytes(buf@, h, i as int));
        let ghost before = out@;
        match parse_gpt_entry(e) {
            Err(err) => {
                return Err(err);
            },
            Ok(None) => {},
            Ok(Some(p)) => {
                out.push(p);
                assert(views(out@) =~= views(before).push(p@));
            },
        }
        assert(views(out@) =~= collect_some(entry, (i + 1) as nat));
        i = i + 1;
    }
    Ok(out)
}

proof fn lemma_entry_in_array(i: int, n: int, size: int)
    requires
        0 <= i < n <= 4096,
        128 <= size <= 4096,
    ensures
        0 <= i * size,
        (i + 1) * size == i * size + size,
        (i + 1) * size <= n * size,
        n * size <= 4096 * 4096,
{
    assert(0 <= i * size && (i + 1) * size == i * size + size && (i + 1) * size <= n * size && n
        * size <= 4096 * 4096) by (nonlinear_arith)
        requires
            0 <= i < n <= 4096,
            128 <= size <= 4096,
    ;
}

/// An entry array that a header may claim is at most 16 MiB.
proof fn lemma_array_len(h: GptHeader)
    requires
        h.wf(),
    ensures
        0 <= h.array_len() <= 4096 * 4096,
{
    let n = h.n_entries as int;
    let size = h.entry_size as int;
    assert(0 <= n * size <= 4096 * 4096) by (nonlinear_arith)
        requires
            0 <= n <= 4096,
            0 <= size <= 4096,
    ;
}

/// The ways in which listing a GPT can come out, given what the source's reads
/// can give: the header sector is read first, then the entry array that it
/// points to.
pub open spec fn gpt_listing<S: BlockSource + ?Sized>(
    src: &S,
    r: Result<Seq<PartitionView>, PartitionError>,
) -> bool {
    ||| exists|e: std::io::Error| #[trigger]
        src.read_outcome(512, 512, Err(e)) && r == Err::<Seq<PartitionView>, PartitionError>(
            PartitionError::ReadGptHeader(e),
        )
    ||| exists|hdr: Seq<u8>|
        hdr.len() == 512 && #[trigger] src.read_outcome(512, 512, Ok(hdr)) && match gpt_header(hdr) {
            Err(e) => r == Err::<Seq<PartitionView>, PartitionError>(e),
            Ok(h) => gpt_array_listing(src, h, r),
        }
}

/// The ways in which listing the entry array of a GPT can come out.
pub open spec fn gpt_array_listing<S: BlockSource + ?Sized>(
    src: &S,
    h: GptHeader,
    r: Result<Seq<PartitionView>, PartitionError>,
) -> bool {
    let at = h.part_array_lba * 512;
    let len = h.array_len() as nat;
    if at > u64::MAX {
        r == Err::<Seq<PartitionView>, PartitionError>(
            PartitionError::GptEntryArrayLba(h.part_array_lba),
        )
    } else {
        ||| exists|e: std::io::Error| #[trigger]
            src.read_outcome(at as u64, len, Err(e)) && r == Err::<
                Seq<PartitionView>,
                PartitionError,
            >(PartitionError::ReadGptEntries(e))
        ||| exists|buf: Seq<u8>|
            buf.len() == len && #[trigger] src.read_outcome(at as u64, len, Ok(buf)) && r == if has_oversized_entry(
                buf,
                h,
            ) {
                Err(PartitionError::GptPartitionLength)
            } else {
                Ok(gpt_partitions(buf, h))
            }
    }
}

/// The ways in which listing a partition table can come out, given what the
/// source's reads can give: sector 0 is read first; without its signature there
/// is no table, with a protective slot the GPT is listed, else the slots are.
pub open spec fn listing<S: BlockSource + ?Sized>(
    src: &S,
    r: Result<Seq<PartitionView>, PartitionError>,
) -> bool {
    ||| exists|e: std::io::Error| #[trigger]
        src.read_outcome(0, 512, Err(e)) && r == Err::<Seq<PartitionView>, PartitionError>(
            PartitionError::ReadMbr(e),
        )
    ||| exists|mbr: Seq<u8>|
        mbr.len() == 512 && #[trigger] src.read_outcome(0, 512, Ok(mbr)) && if !has_mbr_signature(
            mbr,
        ) {
            r == Err::<Seq<PartitionView>, PartitionError>(PartitionError::NoMbrSignature)
        } else if is_protective(mbr) {
            gpt_listing(src, r)
        } else {
            r == Ok::<Seq<PartitionView>, PartitionError>(mbr_partitions(mbr))
        }
}

/// What a listing says: the partitions, or the error.
pub open spec fn result_view(
    r: Result<Vec<Partition>, PartitionError>,
) -> Result<Seq<PartitionView>, PartitionError> {
    match r {
        Ok(parts) => Ok(views(parts@)),
        Err(e) => Err(e),
    }
}

/// List the partitions of the GPT on `src`.
pub fn parse_gpt<S: BlockSource + ?Sized>(src: &S) -> (r: Result<Vec<Partition>, PartitionError>)
    ensures
        gpt_listing(src, result_view(r)),
{
    let mut hdr: [u8; 512] = [0u8; 512];
    match src.read_at(SECTOR, &mut hdr) {
        Ok(()) => {},
        Err(e) => {
            return Err(PartitionError::ReadGptHeader(e));
        },
    }
    assert(src.read_outcome(512, 512, Ok(hdr@)));
    let h: GptHeader = match parse_gpt_header(&hdr) {
        Ok(h) => h,
        Err(e) => {
            return Err(e);
        },
    };
    let at: u64 = match h.part_array_lba.checked_mul(SECTOR) {
        Some(at) => at,
        None => {
            assert(gpt_array_listing(src, h, Err(PartitionError::GptEntryArrayLba(h.part_array_lba))));
            return Err(PartitionError::GptEntryArrayLba(h.part_array_lba));
        },
    };
    proof {
        lemma_array_len(h);
    }
    let total: usize = h.n_entries as usize * h.entry_size as usize;
    let mut buf: Vec<u8> = vec![0u8; total];
    match src.read_at(at, buf.as_mut_slice()) {
        Ok(()) => {},
        Err(e) => {
            assert(src.read_outcome(at, h.array_len() as nat, Err(e)));
            assert(gpt_array_listing(src, h, Err(PartitionError::ReadGptEntries(e))));
            return Err(PartitionError::ReadGptEntries(e));
        },
    }
    assert(src.read_outcome(at, h.array_len() as nat, Ok(buf@)));
    let r = parse_gpt_entries(buf.as_slice(), h);
    assert(gpt_array_listing(src, h, result_view(r)));
    r
}

/// Parse the partition table from any [`BlockSource`]. Detects GPT (via a
/// `0xEE` protective MBR entry) and falls back to plain MBR.
pub fn list_from_source<S: BlockSource + ?Sized>(
    src: &S,
) -> (r: Result<Vec<Partition>, PartitionError>)
    ensures
        listing(src, result_view(r)),
{
    let mut mbr: [u8; 512] = [0u8; 512];
    match src.read_at(0, &mut mbr) {
        Ok(()) => {},
        Err(e) => {
            return Err(PartitionError::ReadMbr(e));
        },
    }
    assert(src.read_outcome(0, 512, Ok(mbr@)));
    if mbr[MBR_SIG_OFF] != 0x55 || mbr[MBR_SIG_OFF + 1] != 0xAA {
        return Err(PartitionError::NoMbrSignature);
    }
    if has_gpt_protective(&mbr) {
        let r = parse_gpt(src);
        assert(listing(src, result_view(r)));
        r
    } else {
        let parts = parse_mbr(&mbr);
        assert(listing(src, Ok(views(parts@))));
        Ok(parts)
    }
}

/// [`collect_some`] holds exactly the values that are there.
proof fn lemma_collect_some_is_exact<T>(f: spec_fn(int) -> Option<T>, n: nat)
    ensures
        collect_some(f, n).len() <= n,
        forall|i: int| 0 <= i < n && (#[trigger] f(i)) is Some ==> collect_some(f, n).contains(
            f(i)->0,
        ),
        forall|x: T| #[trigger]
            collect_some(f, n).contains(x) ==> exists|i: int| 0 <= i < n && #[trigger] f(i) == Some(x),
    decreases n,
{
    if n > 0 {
        let m = (n - 1) as nat;
        lemma_collect_some_is_exact(f, m);
        let before = collect_some(f, m);
        let now = collect_some(f, n);
        assert forall|i: int| 0 <= i < n && (#[trigger] f(i)) is Some implies now.contains(
            f(i)->0,
        ) by {
            if i < m {
                assert(before.contains(f(i)->0));
                let k = choose|k: int| 0 <= k < before.len() && before[k] == f(i)->0;
                assert(now[k] == f(i)->0);
            } else {
                assert(now[now.len() - 1] == f(i)->0);
            }
        }
        assert forall|x: T| #[trigger] now.contains(x) implies exists|i: int|
            0 <= i < n && #[trigger] f(i) == Some(x) by {
            let k = choose|k: int| 0 <= k < now.len() && now[k] == x;
            if k < before.len() {
                assert(before[k] == x);
                assert(before.contains(x));
            } else {
                assert(f(m as int) == Some(x));
            }
        }
    }
}

/// A plain MBR lists at most four partitions: every used slot and nothing else.
pub proof fn mbr_listing_is_exact(mbr: Seq<u8>)
    ensures
        mbr_partitions(mbr).len() <= 4,
        forall|i: int|
            0 <= i < 4 && (#[trigger] mbr_slot(mbr, i)) is Some ==> mbr_partitions(mbr).contains(
                mbr_slot(mbr, i)->0,
            ),
        forall|p: PartitionView| #[trigger]
            mbr_partitions(mbr).contains(p) ==> exists|i: int|
                0 <= i < 4 && #[trigger] mbr_slot(mbr, i) == Some(p),
{
    let f = |i: int| mbr_slot(mbr, i);
    lemma_collect_some_is_exact(f, 4);
    assert forall|i: int| 0 <= i < 4 && (#[trigger] mbr_slot(mbr, i)) is Some implies mbr_partitions(
        mbr,
    ).contains(mbr_slot(mbr, i)->0) by {
        assert(f(i) is Some);
    }
    assert forall|p: PartitionView| #[trigger] mbr_partitions(mbr).contains(p) implies exists|i: int|
        0 <= i < 4 && #[trigger] mbr_slot(mbr, i) == Some(p) by {
        let i = choose|i: int| 0 <= i < 4 && #[trigger] f(i) == Some(p);
        assert(mbr_slot(mbr, i) == Some(p));
    }
}

/// A GPT lists every used entry of its array and nothing else.
pub proof fn gpt_listing_is_exact(buf: Seq<u8>, h: GptHeader)
    ensures
        gpt_partitions(buf, h).len() <= h.n_entries,
        forall|i: int|
            0 <= i < h.n_entries && entry_used(#[trigger] entry_bytes(buf, h, i))
                ==> gpt_partitions(buf, h).contains(gpt_entry(entry_bytes(buf, h, i))->0),
        forall|p: PartitionView| #[trigger]
            gpt_partitions(buf, h).contains(p) ==> exists|i: int|
                0 <= i < h.n_entries && gpt_entry(#[trigger] entry_bytes(buf, h, i)) == Some(p),
{
    let f = |i: int| gpt_entry(entry_bytes(buf, h, i));
    lemma_collect_some_is_exact(f, h.n_entries as nat);
    assert forall|i: int|
        0 <= i < h.n_entries && entry_used(
            #[trigger] entry_bytes(buf, h, i),
        ) implies gpt_partitions(buf, h).contains(gpt_entry(entry_bytes(buf, h, i))->0) by {
        assert(f(i) is Some);
    }
    assert forall|p: PartitionView| #[trigger]
        gpt_partitions(buf, h).contains(p) implies exists|i: int|
        0 <= i < h.n_entries && gpt_entry(#[trigger] entry_bytes(buf, h, i)) == Some(p) by {
        let i = choose|i: int| 0 <= i < h.n_entries && #[trigger] f(i) == Some(p);
        assert(gpt_entry(entry_bytes(buf, h, i)) == Some(p));
    }
}

/// Where sector 0 is read, the listing fails with "no MBR signature" exactly if
/// the sector lacks the signature, whatever the later reads give.
pub proof fn missing_signature_is_reported<S: BlockSource + ?Sized>(
    src: &S,
    mbr: Seq<u8>,
    r: Result<Seq<PartitionView>, PartitionError>,
)
    requires
        forall|outcome: Result<Seq<u8>, std::io::Error>| #[trigger]
            src.read_outcome(0, 512, outcome) ==> outcome == Ok::<Seq<u8>, std::io::Error>(mbr),
        listing(src, r),
    ensures
        !has_mbr_signature(mbr) <==> r is Err && stands_in(
            r->Err_0.context(),
            "no MBR signature"@,
        ),
{
    if r is Err {
        only_the_missing_signature_says_so(r->Err_0);
    }
}

proof fn lemma_collect_all<T>(f: spec_fn(int) -> Option<T>, s: Seq<T>)
    requires
        forall|i: int| 0 <= i < s.len() ==> #[trigger] f(i) == Some(s[i]),
    ensures
        collect_some(f, s.len()) == s,
    decreases s.len(),
{
    if s.len() > 0 {
        let front = s.drop_last();
        lemma_collect_all(f, front);
        assert(f(s.len() - 1) == Some(s.last()));
        assert(s =~= front.push(s.last()));
    } else {
        assert(collect_some(f, 0) =~= s);
    }
}

/// A partition name without NUL characters is read back from its field, whether
/// it fills the field or ends at a NUL; no character is lost, whatever plane it
/// lies in.
pub proof fn name_is_read_back(field: Seq<u8>, name: Seq<char>, tail: Seq<u16>)
    requires
        !name.contains('\0'),
        tail.len() > 0 ==> tail[0] == 0,
        utf16::units_of(field) == utf16::encode(name) + tail,
    ensures
        name_text(field) == name,
{
    utf16::text_stands_before_nul(name, tail);
    assert(utf16::encode(name) + utf16::before_nul(tail) =~= utf16::encode(name));
    utf16::decode_undoes_encode(name);
    let chars = utf16::decode(utf16::encode(name));
    lemma_collect_all(|i: int| chars[i], name);
}

/// A source that answers equal reads equally has one partition listing.
pub proof fn listing_is_a_function_of_the_reads<S: BlockSource + ?Sized>(
    src: &S,
    a: Result<Seq<PartitionView>, PartitionError>,
    b: Result<Seq<PartitionView>, PartitionError>,
)
    requires
        forall|
            offset: u64,
            len: nat,
            x: Result<Seq<u8>, std::io::Error>,
            y: Result<Seq<u8>, std::io::Error>,
        |
            #[trigger] src.read_outcome(offset, len, x) && #[trigger] src.read_outcome(
                offset,
                len,
                y,
            ) ==> x == y,
        listing(src, a),
        listing(src, b),
    ensures
        a == b,
{
}

/// The canonical text of a GUID: 36 characters, with dashes after the 8th,
/// 12th, 16th and 20th digit.
pub proof fn guid_text_is_canonical(g: Seq<u8>)
    requires
        g.len() == 16,
    ensures
        guid_text(g).len() == 36,
        guid_text(g)[8] == '-',
        guid_text(g)[13] == '-',
        guid_text(g)[18] == '-',
        guid_text(g)[23] == '-',
{
    reveal_strlit("-");
    lemma_guid_groups(g);
}

/// The five groups of digits of a GUID's text.
proof fn lemma_guid_groups(g: Seq<u8>)
    requires
        g.len() == 16,
    ensures
        guid_text(g).len() == 36,
        guid_text(g).subrange(0, 8) == text::hex_bytes(seq![g[3], g[2], g[1], g[0]], true),
        guid_text(g).subrange(9, 13) == text::hex_bytes(seq![g[5], g[4]], true),
        guid_text(g).subrange(14, 18) == text::hex_bytes(seq![g[7], g[6]], true),
        guid_text(g).subrange(19, 23) == text::hex_bytes(seq![g[8], g[9]], true),
        guid_text(g).subrange(24, 36) == text::hex_bytes(
            seq![g[10], g[11], g[12], g[13], g[14], g[15]],
            true,
        ),
        guid_text(g)[8] == "-"@[0],
        guid_text(g)[13] == "-"@[0],
        guid_text(g)[18] == "-"@[0],
        guid_text(g)[23] == "-"@[0],
{
    reveal_strlit("-");
    text::hex_bytes_len(seq![g[3], g[2], g[1], g[0]], true);
    text::hex_bytes_len(seq![g[5], g[4]], true);
    text::hex_bytes_len(seq![g[7], g[6]], true);
    text::hex_bytes_len(seq![g[8], g[9]], true);
    text::hex_bytes_len(seq![g[10], g[11], g[12], g[13], g[14], g[15]], true);
    let t = guid_text(g);
    assert(t.subrange(0, 8) =~= text::hex_bytes(seq![g[3], g[2], g[1], g[0]], true));
    assert(t.subrange(9, 13) =~= text::hex_bytes(seq![g[5], g[4]], true));
    assert(t.subrange(14, 18) =~= text::hex_bytes(seq![g[7], g[6]], true));
    assert(t.subrange(19, 23) =~= text::hex_bytes(seq![g[8], g[9]], true));
    assert(t.subrange(24, 36) =~= text::hex_bytes(
        seq![g[10], g[11], g[12], g[13], g[14], g[15]],
        true,
    ));
}

/// The text of a GUID identifies it.
pub proof fn guid_text_is_injective(a: Seq<u8>, b: Seq<u8>)
    requires
        a.len() == 16,
        b.len() == 16,
        guid_text(a) == guid_text(b),
    ensures
        a == b,
{
    lemma_guid_groups(a);
    lemma_guid_groups(b);
    let a1 = seq![a[3], a[2], a[1], a[0]];
    let b1 = seq![b[3], b[2], b[1], b[0]];
    let a2 = seq![a[5], a[4]];
    let b2 = seq![b[5], b[4]];
    let a3 = seq![a[7], a[6]];
    let b3 = seq![b[7], b[6]];
    let a4 = seq![a[8], a[9]];
    let b4 = seq![b[8], b[9]];
    let a5 = seq![a[10], a[11], a[12], a[13], a[14], a[15]];
    let b5 = seq![b[10], b[11], b[12], b[13], b[14], b[15]];
    text::hex_bytes_is_injective(a1, b1, true);
    text::hex_bytes_is_injective(a2, b2, true);
    text::hex_bytes_is_injective(a3, b3, true);
    text::hex_bytes_is_injective(a4, b4, true);
    text::hex_bytes_is_injective(a5, b5, true);
    assert(a1[0] == b1[0] && a1[1] == b1[1] && a1[2] == b1[2] && a1[3] == b1[3]);
    assert(a2[0] == b2[0] && a2[1] == b2[1]);
    assert(a3[0] == b3[0] && a3[1] == b3[1]);
    assert(a4[0] == b4[0] && a4[1] == b4[1]);
    assert(a5[0] == b5[0] && a5[1] == b5[1] && a5[2] == b5[2] && a5[3] == b5[3] && a5[4] == b5[4]
        && a5[5] == b5[5]);
    assert(a =~= b);
}

/// A GPT partition's kind identifies its type GUID: no two types share a kind.
pub proof fn gpt_kind_identifies_the_type(a: Seq<u8>, b: Seq<u8>)
    requires
        a.len() == 16,
        b.len() == 16,
        gpt_kind(a) == gpt_kind(b),
    ensures
        a == b,
{
    reveal_strlit("GPT:");
    reveal_strlit("GPT:linux");
    reveal_strlit("GPT:efi");
    reveal_strlit("GPT:msbasic");
    reveal_strlit("GPT:swap");
    lemma_guid_groups(a);
    lemma_guid_groups(b);
    assert(gpt_kind(a).len() == gpt_kind(b).len());
    if gpt_kind(a).len() == 40 {
        assert(gpt_kind(a).skip(4) =~= guid_text(a));
        assert(gpt_kind(b).skip(4) =~= guid_text(b));
        guid_text_is_injective(a, b);
    }
}

/// The source reads as `disk`, and what lies beyond its end cannot be read.
pub open spec fn reads_as<S: BlockSource + ?Sized>(src: &S, disk: Seq<u8>) -> bool {
    forall|offset: u64, len: nat, outcome: Result<Seq<u8>, std::io::Error>| #[trigger]
        src.read_outcome(offset, len, outcome) ==> if offset + len <= disk.len() {
            outcome == Ok::<Seq<u8>, std::io::Error>(disk.subrange(offset as int, offset + len))
        } else {
            outcome is Err
        }
}

/// How many of `0`, ..., `n - 1` have a property.
pub open spec fn how_many(has: spec_fn(int) -> bool, n: nat) -> nat
    decreases n,
{
    if n == 0 {
        0
    } else if has(n - 1) {
        how_many(has, (n - 1) as nat) + 1
    } else {
        how_many(has, (n - 1) as nat)
    }
}

/// Collecting keeps what is there, all of it and in order: the value at `i`
/// stands behind as many others as there are in front of `i`.
pub proof fn collecting_keeps_order<T>(f: spec_fn(int) -> Option<T>, n: nat, i: int)
    requires
        0 <= i < n,
    ensures
        collect_some(f, n).len() == how_many(|k: int| f(k) is Some, n),
        how_many(|k: int| f(k) is Some, i as nat) <= collect_some(f, n).len(),
        f(i) is Some ==> {
            let at = how_many(|k: int| f(k) is Some, i as nat) as int;
            at < collect_some(f, n).len() && Some(collect_some(f, n)[at]) == f(i)
        },
    decreases n,
{
    let has = |k: int| f(k) is Some;
    let m = (n - 1) as nat;
    assert(collect_some(f, 0).len() == 0);
    assert(how_many(has, 0) == 0);
    if i < m {
        collecting_keeps_order(f, m, i);
    } else if m > 0 {
        collecting_keeps_order(f, m, 0);
    }
}

proof fn lemma_how_many_agree(a: spec_fn(int) -> bool, b: spec_fn(int) -> bool, n: nat)
    requires
        forall|k: int| 0 <= k < n ==> #[trigger] a(k) == b(k),
    ensures
        how_many(a, n) == how_many(b, n),
    decreases n,
{
    if n > 0 {
        assert(a(n - 1) == b(n - 1));
        lemma_how_many_agree(a, b, (n - 1) as nat);
    }
}

/// What a partition says is what its fields hold, and a list says what its
/// partitions do, one by one.
pub proof fn views_are_the_fields(parts: Seq<Partition>, i: int)
    requires
        0 <= i < parts.len(),
    ensures
        views(parts).len() == parts.len(),
        views(parts)[i].start_lba == parts[i].start_lba,
        views(parts)[i].num_sectors == parts[i].num_sectors,
        views(parts)[i].kind == parts[i].kind@,
        views(parts)[i].name is Some <==> parts[i].name is Some,
        parts[i].name is Some ==> views(parts)[i].name == Some(parts[i].name->0@),
{
}

/// Slot `i` of an MBR is used: the type byte is not zero, and not all four bytes
/// of the length are.
pub open spec fn slot_is_used(mbr: Seq<u8>, i: int) -> bool {
    mbr[450 + 16 * i] != 0 && !(mbr[458 + 16 * i] == 0 && mbr[459 + 16 * i] == 0 && mbr[460 + 16
        * i] == 0 && mbr[461 + 16 * i] == 0)
}

/// A plain MBR is listed slot by slot: each used slot gives one partition,
/// behind those of the used slots in front of it, with the first sector at bytes
/// 454 to 457 of the first slot, the number of sectors behind it, and the type
/// byte at 450 in two hexadecimal digits; each further slot stands 16 bytes
/// later. Unused slots give none.
pub proof fn mbr_slots_are_listed_in_order(mbr: &[u8; 512], out: Vec<Partition>, i: int)
    requires
        call_ensures(parse_mbr, (mbr,), out),
        0 <= i < 4,
    ensures
        ({
            let used = |k: int| slot_is_used(mbr@, k);
            let b = mbr@.skip(446 + 16 * i);
            let digits = "0123456789abcdef"@;
            &&& out@.len() == how_many(used, 4)
            &&& slot_is_used(mbr@, i) ==> {
                let p = out@[how_many(used, i as nat) as int];
                &&& how_many(used, i as nat) < out@.len()
                &&& p.start_lba == b[8] + 0x100 * b[9] + 0x1_0000 * b[10] + 0x100_0000 * b[11]
                &&& p.num_sectors == b[12] + 0x100 * b[13] + 0x1_0000 * b[14] + 0x100_0000 * b[15]
                &&& p.kind@ == "MBR:0x"@ + seq![digits[b[4] as int / 16], digits[b[4] as int % 16]]
                &&& p.name is None
            }
        }),
{
    let f = |k: int| mbr_slot(mbr@, k);
    let has = |k: int| f(k) is Some;
    let used = |k: int| slot_is_used(mbr@, k);
    assert forall|k: int| 0 <= k < 4 implies #[trigger] has(k) == used(k) by {
        le::later_bytes_count_more(mbr@, 446 + 16 * k + 12);
    }
    lemma_how_many_agree(has, used, 4);
    lemma_how_many_agree(has, used, i as nat);
    collecting_keeps_order(f, 4, i);
    assert(views(out@).len() == out@.len());
    if slot_is_used(mbr@, i) {
        let at = how_many(used, i as nat) as int;
        assert(has(i) == used(i));
        views_are_the_fields(out@, at);
        le::later_bytes_count_more(mbr@, 446 + 16 * i + 12);
        le::later_bytes_count_more(mbr@, 446 + 16 * i + 8);
        text::hex_byte_spells_the_byte(mbr@[446 + 16 * i + 4], false);
    }
}

/// A disk carries a GPT exactly if the type byte of one of its four MBR slots is
/// `0xEE`, and a table at all exactly if sector 0 ends in `0x55 0xAA`.
pub proof fn protective_type_in_any_slot(mbr: &[u8; 512], r: bool)
    requires
        call_ensures(has_gpt_protective, (mbr,), r),
    ensures
        r <==> mbr@[450] == 0xEE || mbr@[466] == 0xEE || mbr@[482] == 0xEE || mbr@[498] == 0xEE,
        has_mbr_signature(mbr@) <==> mbr@[510] == 0x55 && mbr@[511] == 0xAA,
{
    assert(slot_at(0) + 4 == 450 && slot_at(1) + 4 == 466 && slot_at(2) + 4 == 482 && slot_at(3)
        + 4 == 498);
    if is_protective(mbr@) {
        let i = choose|i: int| 0 <= i < 4 && mbr@[#[trigger] slot_at(i) + 4] == 0xEE;
        assert(i == 0 || i == 1 || i == 2 || i == 3);
    }
}

/// A header sector is read by its signature, its sizes and its entry count
/// alone, whatever its other bytes are. It starts with the letters "EFI PART";
/// the header size is in `92..=512`, the entry size in `128..=4096`, and there
/// are at most 4096 entries. Then the LBA of the array, the number of entries
/// and their size are those at bytes 72, 80 and 84. Otherwise the first of the
/// four that is not so is the error.
pub proof fn header_is_read_by_its_fields(
    hdr: &[u8; 512],
    r: Result<GptHeader, PartitionError>,
)
    requires
        call_ensures(parse_gpt_header, (hdr,), r),
    ensures
        ({
            let b = hdr@;
            let signed = b[0] == 0x45 && b[1] == 0x46 && b[2] == 0x49 && b[3] == 0x20 && b[4]
                == 0x50 && b[5] == 0x41 && b[6] == 0x52 && b[7] == 0x54;
            let header_size = b[12] + 0x100 * b[13] + 0x1_0000 * b[14] + 0x100_0000 * b[15];
            let n_entries = b[80] + 0x100 * b[81] + 0x1_0000 * b[82] + 0x100_0000 * b[83];
            let entry_size = b[84] + 0x100 * b[85] + 0x1_0000 * b[86] + 0x100_0000 * b[87];
            let sized = 92 <= header_size <= 512;
            let divided = 128 <= entry_size <= 4096;
            &&& r is Ok <==> signed && sized && divided && n_entries <= 4096
            &&& r matches Ok(h) ==> {
                &&& h.n_entries == n_entries
                &&& h.entry_size == entry_size
                &&& h.part_array_lba == b[72] + 0x100 * b[73] + 0x1_0000 * b[74] + 0x100_0000 * b[75]
                    + 0x1_0000_0000 * b[76] + 0x100_0000_0000 * b[77] + 0x1_0000_0000_0000 * b[78]
                    + 0x100_0000_0000_0000 * b[79]
            }
            &&& r matches Err(e) ==> {
                &&& e is GptSignatureMissing <==> !signed
                &&& e is GptHeaderSize <==> signed && !sized
                &&& e is GptEntrySize <==> signed && sized && !divided
                &&& e is GptEntryCount <==> signed && sized && divided
                &&& e matches PartitionError::GptHeaderSize(n) ==> n == header_size
                &&& e matches PartitionError::GptEntrySize(n) ==> n == entry_size
                &&& e matches PartitionError::GptEntryCount(n) ==> n == n_entries
            }
        }),
{
    let b = hdr@;
    le::later_bytes_count_more(b, 12);
    le::later_bytes_count_more(b, 72);
    le::later_bytes_count_more(b, 80);
    le::later_bytes_count_more(b, 84);
    let first = b.subrange(0, 8);
    let letters: Seq<u8> = seq![0x45, 0x46, 0x49, 0x20, 0x50, 0x41, 0x52, 0x54];
    assert(GPT_SIG@ =~= letters);
    assert(first[0] == b[0] && first[1] == b[1] && first[2] == b[2] && first[3] == b[3] && first[4]
        == b[4] && first[5] == b[5] && first[6] == b[6] && first[7] == b[7]);
    if b[0] == 0x45 && b[1] == 0x46 && b[2] == 0x49 && b[3] == 0x20 && b[4] == 0x50 && b[5] == 0x41
        && b[6] == 0x52 && b[7] == 0x54 {
        assert(first =~= letters);
    } else {
        assert(letters[0] == 0x45 && letters[1] == 0x46 && letters[2] == 0x49 && letters[3] == 0x20
            && letters[4] == 0x50 && letters[5] == 0x41 && letters[6] == 0x52 && letters[7]
            == 0x54);
    }
}

/// Two header sectors that agree in the signature, the header size and the
/// fields about the entry array are read alike.
pub proof fn other_header_bytes_do_not_matter(
    a: &[u8; 512],
    b: &[u8; 512],
    ra: Result<GptHeader, PartitionError>,
    rb: Result<GptHeader, PartitionError>,
)
    requires
        call_ensures(parse_gpt_header, (a,), ra),
        call_ensures(parse_gpt_header, (b,), rb),
        forall|i: int|
            0 <= i < 8 || 12 <= i < 16 || 72 <= i < 88 ==> #[trigger] a@[i] == b@[i],
    ensures
        ra == rb,
{
    assert(a@.subrange(0, 8) =~= b@.subrange(0, 8));
    le::later_bytes_count_more(a@, 12);
    le::later_bytes_count_more(b@, 12);
    le::later_bytes_count_more(a@, 72);
    le::later_bytes_count_more(b@, 72);
    le::later_bytes_count_more(a@, 80);
    le::later_bytes_count_more(b@, 80);
    le::later_bytes_count_more(a@, 84);
    le::later_bytes_count_more(b@, 84);
}

/// Entry `i` of a GPT entry array is used: its type GUID is not all zeros, and
/// its last sector does not lie before its first.
pub open spec fn entry_is_used(buf: Seq<u8>, size: int, i: int) -> bool {
    &&& exists|k: int| i * size <= k < i * size + 16 && #[trigger] buf[k] != 0
    &&& le::le_u64(buf, i * size + 32) <= le::le_u64(buf, i * size + 40)
}

proof fn lemma_entry(buf: Seq<u8>, h: GptHeader, i: int)
    requires
        h.wf(),
        buf.len() == h.n_entries * h.entry_size,
        0 <= i < h.n_entries,
    ensures
        ({
            let at = i * h.entry_size;
            let e = entry_bytes(buf, h, i);
            &&& 0 <= at
            &&& at + h.entry_size <= buf.len()
            &&& e == buf.subrange(at, at + h.entry_size)
            &&& entry_used(e) <==> entry_is_used(buf, h.entry_size as int, i)
            &&& le::le_u64(e, 32) == le::le_u64(buf, at + 32)
            &&& le::le_u64(e, 40) == le::le_u64(buf, at + 40)
            &&& e.subrange(0, 16) == buf.subrange(at, at + 16)
            &&& e.subrange(56, 128) == buf.subrange(at + 56, at + 128)
        }),
{
    let size = h.entry_size as int;
    let at = i * size;
    lemma_entry_in_array(i, h.n_entries as int, size);
    let e = entry_bytes(buf, h, i);
    le::later_bytes_count_more(e, 32);
    le::later_bytes_count_more(e, 40);
    le::later_bytes_count_more(buf, at + 32);
    le::later_bytes_count_more(buf, at + 40);
    assert(e.subrange(0, 16) =~= buf.subrange(at, at + 16));
    assert(e.subrange(56, 128) =~= buf.subrange(at + 56, at + 128));
    let ty = buf.subrange(at, at + 16);
    let zero = Seq::new(16, |k: int| 0u8);
    if ty == zero {
        assert forall|k: int| at <= k < at + 16 implies #[trigger] buf[k] == 0 by {
            assert(ty[k - at] == zero[k - at]);
        }
    } else {
        if forall|k: int| at <= k < at + 16 ==> #[trigger] buf[k] == 0 {
            assert forall|k: int| 0 <= k < 16 implies #[trigger] ty[k] == zero[k] by {
                assert(buf[at + k] == 0);
            }
            assert(ty =~= zero);
        }
    }
}

/// A GPT entry array is listed entry by entry: each used entry gives one
/// partition, behind those of the used entries in front of it. Its type GUID
/// stands at its first 16 bytes, its first and last sector at bytes 32 and 40,
/// its name at bytes 56 to 127. Unused entries give none, and the listing fails
/// exactly if a used entry spans all 2^64 sectors.
pub proof fn gpt_entries_are_listed_in_order(
    buf: &[u8],
    h: GptHeader,
    r: Result<Vec<Partition>, PartitionError>,
    i: int,
)
    requires
        h.wf(),
        buf@.len() == h.n_entries * h.entry_size,
        call_ensures(parse_gpt_entries, (buf, h), r),
        0 <= i < h.n_entries,
    ensures
        ({
            let size = h.entry_size as int;
            let at = i * size;
            let used = |k: int| entry_is_used(buf@, size, k);
            let first = le::le_u64(buf@, at + 32);
            let last = le::le_u64(buf@, at + 40);
            &&& r matches Err(e) ==> e is GptPartitionLength
            &&& entry_is_used(buf@, size, i) && first == 0 && last == u64::MAX ==> r is Err
            &&& r matches Ok(out) ==> {
                &&& out@.len() == how_many(used, h.n_entries as nat)
                &&& entry_is_used(buf@, size, i) ==> {
                    let p = out@[how_many(used, i as nat) as int];
                    &&& how_many(used, i as nat) < out@.len()
                    &&& p.start_lba == first
                    &&& p.start_lba + p.num_sectors - 1 == last
                    &&& p.kind@ == gpt_kind(buf@.subrange(at, at + 16))
                    &&& p.name is None <==> name_text(buf@.subrange(at + 56, at + 128)).len() == 0
                    &&& p.name matches Some(name) ==> name@ == name_text(
                        buf@.subrange(at + 56, at + 128),
                    )
                }
            }
        }),
{
    let size = h.entry_size as int;
    let f = |k: int| gpt_entry(entry_bytes(buf@, h, k));
    let has = |k: int| f(k) is Some;
    let used = |k: int| entry_is_used(buf@, size, k);
    assert(h.array_len() == h.n_entries * h.entry_size);
    assert forall|k: int| 0 <= k < h.n_entries implies #[trigger] has(k) == used(k) by {
        lemma_entry(buf@, h, k);
    }
    lemma_how_many_agree(has, used, h.n_entries as nat);
    lemma_how_many_agree(has, used, i as nat);
    lemma_entry(buf@, h, i);
    collecting_keeps_order(f, h.n_entries as nat, i);
    let e = entry_bytes(buf@, h, i);
    assert(has(i) == used(i));
    if let Ok(out) = r {
        assert(views(out@).len() == out@.len());
        if used(i) {
            let at = how_many(used, i as nat) as int;
            views_are_the_fields(out@, at);
            assert(Some(views(out@)[at]) == f(i));
        }
    }
}

/// The listing of an entry array fails only if a used entry spans all 2^64
/// sectors.
pub proof fn gpt_entries_fail_only_when_too_long(
    buf: &[u8],
    h: GptHeader,
    r: Result<Vec<Partition>, PartitionError>,
)
    requires
        h.wf(),
        buf@.len() == h.n_entries * h.entry_size,
        call_ensures(parse_gpt_entries, (buf, h), r),
        r is Err,
    ensures
        exists|i: int|
            0 <= i < h.n_entries && #[trigger] entry_is_used(buf@, h.entry_size as int, i)
                && le::le_u64(buf@, i * h.entry_size + 32) == 0 && le::le_u64(
                buf@,
                i * h.entry_size + 40,
            ) == u64::MAX,
{
    assert(h.array_len() == h.n_entries * h.entry_size);
    let i = choose|i: int|
        0 <= i < h.n_entries && entry_used(#[trigger] entry_bytes(buf@, h, i)) && entry_sectors(
            entry_bytes(buf@, h, i),
        ) > u64::MAX;
    lemma_entry(buf@, h, i);
    le::later_bytes_count_more(buf@, i * h.entry_size + 32);
    le::later_bytes_count_more(buf@, i * h.entry_size + 40);
    assert(entry_is_used(buf@, h.entry_size as int, i));
}

proof fn lemma_group_digits(t: Seq<char>, start: int, group: Seq<u8>, j: int)
    requires
        0 <= start,
        start + 2 * group.len() <= t.len(),
        t.subrange(start, start + 2 * group.len()) == text::hex_bytes(group, true),
        0 <= j < group.len(),
    ensures
        t[start + 2 * j] == "0123456789ABCDEF"@[group[j] as int / 16],
        t[start + 2 * j + 1] == "0123456789ABCDEF"@[group[j] as int % 16],
{
    let digits = t.subrange(start, start + 2 * group.len());
    text::hex_bytes_spell_each_byte(group, true, j);
    assert(digits[2 * j] == t[start + 2 * j]);
    assert(digits[2 * j + 1] == t[start + 2 * j + 1]);
}

/// A GUID's text, digit by digit: the first three groups with their bytes
/// reversed, the last two as they stand.
#[verifier::spinoff_prover]
#[verifier::rlimit(60)]
pub proof fn guid_text_spells_each_byte(g: &[u8; 16], s: String, k: int)
    requires
        call_ensures(format_guid, (g,), s),
        0 <= k < 16,
    ensures
        ({
            let digits = "0123456789ABCDEF"@;
            let at: int = if k < 4 {
                2 * (3 - k)
            } else if k < 6 {
                9 + 2 * (5 - k)
            } else if k < 8 {
                14 + 2 * (7 - k)
            } else if k < 10 {
                19 + 2 * (k - 8)
            } else {
                24 + 2 * (k - 10)
            };
            &&& s@.len() == 36
            &&& s@[at] == digits[g@[k] as int / 16]
            &&& s@[at + 1] == digits[g@[k] as int % 16]
            &&& s@[8] == '-' && s@[13] == '-' && s@[18] == '-' && s@[23] == '-'
        }),
{
    let b = g@;
    guid_text_is_canonical(b);
    lemma_guid_groups(b);
    if k < 4 {
        lemma_group_digits(guid_text(b), 0, seq![b[3], b[2], b[1], b[0]], 3 - k);
    } else if k < 6 {
        lemma_group_digits(guid_text(b), 9, seq![b[5], b[4]], 5 - k);
    } else if k < 8 {
        lemma_group_digits(guid_text(b), 14, seq![b[7], b[6]], 7 - k);
    } else if k < 10 {
        lemma_group_digits(guid_text(b), 19, seq![b[8], b[9]], k - 8);
    } else {
        lemma_group_digits(
            guid_text(b),
            24,
            seq![b[10], b[11], b[12], b[13], b[14], b[15]],
            k - 10,
        );
    }
}

/// Four type GUIDs have short names: those of a Linux filesystem, an EFI system
/// partition, a Microsoft basic data partition and Linux swap. Every other is
/// named by its own text.
pub proof fn known_types_have_short_names(g: &[u8; 16], kind: String, guid: String)
    requires
        call_ensures(classify_gpt_guid, (g,), kind),
        call_ensures(format_guid, (g,), guid),
    ensures
        ({
            let linux: Seq<u8> = seq![
                0xAF, 0x3D, 0xC6, 0x0F, 0x83, 0x84, 0x72, 0x47, 0x8E, 0x79, 0x3D, 0x69, 0xD8, 0x47,
                0x7D, 0xE4,
            ];
            let efi: Seq<u8> = seq![
                0x28, 0x73, 0x2A, 0xC1, 0x1F, 0xF8, 0xD2, 0x11, 0xBA, 0x4B, 0x00, 0xA0, 0xC9, 0x3E,
                0xC9, 0x3B,
            ];
            let basic: Seq<u8> = seq![
                0xA2, 0xA0, 0xD0, 0xEB, 0xE5, 0xB9, 0x33, 0x44, 0x87, 0xC0, 0x68, 0xB6, 0xB7, 0x26,
                0x99, 0xC7,
            ];
            let swap: Seq<u8> = seq![
                0x6D, 0xFD, 0x57, 0x06, 0xAB, 0xA4, 0xC4, 0x43, 0x84, 0xE5, 0x09, 0x33, 0xC8, 0x4B,
                0x4F, 0x4F,
            ];
            &&& g@ == linux ==> kind@ == "GPT:linux"@
            &&& g@ == efi ==> kind@ == "GPT:efi"@
            &&& g@ == basic ==> kind@ == "GPT:msbasic"@
            &&& g@ == swap ==> kind@ == "GPT:swap"@
            &&& g@ != linux && g@ != efi && g@ != basic && g@ != swap ==> kind@ == "GPT:"@ + guid@
        }),
{
    let linux: Seq<u8> = seq![
        0xAF, 0x3D, 0xC6, 0x0F, 0x83, 0x84, 0x72, 0x47, 0x8E, 0x79, 0x3D, 0x69, 0xD8, 0x47, 0x7D,
        0xE4,
    ];
    let efi: Seq<u8> = seq![
        0x28, 0x73, 0x2A, 0xC1, 0x1F, 0xF8, 0xD2, 0x11, 0xBA, 0x4B, 0x00, 0xA0, 0xC9, 0x3E, 0xC9,
        0x3B,
    ];
    let basic: Seq<u8> = seq![
        0xA2, 0xA0, 0xD0, 0xEB, 0xE5, 0xB9, 0x33, 0x44, 0x87, 0xC0, 0x68, 0xB6, 0xB7, 0x26, 0x99,
        0xC7,
    ];
    let swap: Seq<u8> = seq![
        0x6D, 0xFD, 0x57, 0x06, 0xAB, 0xA4, 0xC4, 0x43, 0x84, 0xE5, 0x09, 0x33, 0xC8, 0x4B, 0x4F,
        0x4F,
    ];
    assert(GUID_LINUX_FS@ =~= linux);
    assert(GUID_EFI_SYSTEM@ =~= efi);
    assert(GUID_MS_BASIC@ =~= basic);
    assert(GUID_LINUX_SWAP@ =~= swap);
    assert(linux[0] == 0xAF && efi[0] == 0x28 && basic[0] == 0xA2 && swap[0] == 0x6D);
}

/// A name is read back from the UTF-16LE bytes of its field, whether they fill
/// the field or a NUL ends them.
pub proof fn name_is_read_from_the_bytes(field: &[u8], name: Seq<char>, s: String)
    requires
        call_ensures(decode_utf16le, (field,), s),
        !name.contains('\0'),
        ({
            let units = utf16::encode(name);
            let end = 2 * units.len() as int;
            &&& end <= field@.len()
            &&& forall|k: int|
                0 <= k < units.len() ==> #[trigger] units[k] == field@[2 * k] + 0x100 * field@[2 * k
                    + 1]
            &&& end + 1 < field@.len() ==> field@[end] == 0 && field@[end + 1] == 0
        }),
    ensures
        s@ == name,
{
    let units = utf16::encode(name);
    let all = utf16::units_of(field@);
    let n = units.len() as int;
    let tail = all.skip(n);
    utf16::units_are_byte_pairs(field@, n);
    assert forall|k: int| 0 <= k < n implies #[trigger] units[k] == all[k] by {
        utf16::units_are_byte_pairs(field@, k);
    }
    assert(all =~= units + tail);
    assert(tail.len() > 0 ==> tail[0] == all[n]);
    name_is_read_back(field@, name, tail);
}

/// A name keeps every character that decodes, in order, and nothing else.
pub proof fn names_keep_what_decodes(field: &[u8], s: String, i: int)
    requires
        call_ensures(decode_utf16le, (field,), s),
    ensures
        ({
            let chars = utf16::decode(utf16::before_nul(utf16::units_of(field@)));
            let decoded = |k: int| chars[k] is Some;
            &&& s@.len() == how_many(decoded, chars.len())
            &&& 0 <= i < chars.len() && chars[i] is Some ==> {
                let at = how_many(decoded, i as nat) as int;
                at < s@.len() && Some(s@[at]) == chars[i]
            }
        }),
{
    let chars = utf16::decode(utf16::before_nul(utf16::units_of(field@)));
    let f = |k: int| chars[k];
    let has = |k: int| f(k) is Some;
    let decoded = |k: int| chars[k] is Some;
    lemma_how_many_agree(has, decoded, chars.len());
    if chars.len() > 0 {
        collecting_keeps_order(f, chars.len(), 0);
    }
    if 0 <= i < chars.len() {
        lemma_how_many_agree(has, decoded, i as nat);
        collecting_keeps_order(f, chars.len(), i);
    }
}

/// The listing of a disk, by the bytes on it. A disk shorter than a sector
/// cannot be listed. Sector 0 ends in `0x55 0xAA`, or there is no table. Unless
/// one of its slots has type `0xEE`, the disk lists what its slots list. With
/// such a slot, it lists what the entry array lists to which the header in sector
/// 1 points, at the header's LBA times 512; it fails where header or array
/// cannot be read, and where they cannot be parsed.
pub proof fn disk_is_listed_by_its_bytes<S: BlockSource>(
    src: &S,
    disk: Seq<u8>,
    r: Result<Vec<Partition>, PartitionError>,
)
    requires
        reads_as(src, disk),
        call_ensures(list_from_source::<S>, (src,), r),
    ensures
        ({
            let signed = disk[510] == 0x55 && disk[511] == 0xAA;
            let protective = disk[450] == 0xEE || disk[466] == 0xEE || disk[482] == 0xEE
                || disk[498] == 0xEE;
            &&& disk.len() < 512 ==> r is Err && r->Err_0 is ReadMbr
            &&& disk.len() >= 512 && !signed ==> r is Err && r->Err_0 is NoMbrSignature
            &&& disk.len() >= 512 && signed && !protective ==> r is Ok && views(r->Ok_0@)
                == mbr_partitions(disk.take(512))
            &&& 512 <= disk.len() < 1024 && signed && protective ==> r is Err
                && r->Err_0 is ReadGptHeader
            &&& disk.len() >= 1024 && signed && protective ==> match gpt_header(
                disk.subrange(512, 1024),
            ) {
                Err(e) => r == Err::<Vec<Partition>, PartitionError>(e),
                Ok(h) => {
                    let at = 512 * h.part_array_lba;
                    let end = at + h.n_entries * h.entry_size;
                    let array = disk.subrange(at, end);
                    &&& at > u64::MAX ==> r == Err::<Vec<Partition>, PartitionError>(
                        PartitionError::GptEntryArrayLba(h.part_array_lba),
                    )
                    &&& at <= u64::MAX && end > disk.len() ==> r is Err && r->Err_0 is ReadGptEntries
                    &&& at <= u64::MAX && end <= disk.len() && has_oversized_entry(array, h)
                        ==> r is Err && r->Err_0 is GptPartitionLength
                    &&& at <= u64::MAX && end <= disk.len() && !has_oversized_entry(array, h)
                        ==> r is Ok && views(r->Ok_0@) == gpt_partitions(array, h)
                },
            }
        }),
{
    assert(slot_at(0) + 4 == 450 && slot_at(1) + 4 == 466 && slot_at(2) + 4 == 482 && slot_at(3)
        + 4 == 498);
    let v = result_view(r);
    assert(listing(src, v));
    if disk.len() >= 512 {
        let mbr = disk.take(512);
        assert(disk.subrange(0, 512) =~= mbr);
        assert(mbr[450] == disk[450] && mbr[466] == disk[466] && mbr[482] == disk[482] && mbr[498]
            == disk[498]);
        assert(is_protective(mbr) <==> mbr[450] == 0xEE || mbr[466] == 0xEE || mbr[482] == 0xEE
            || mbr[498] == 0xEE) by {
            if is_protective(mbr) {
                let i = choose|i: int| 0 <= i < 4 && mbr[#[trigger] slot_at(i) + 4] == 0xEE;
                assert(i == 0 || i == 1 || i == 2 || i == 3);
            }
        }
        if has_mbr_signature(mbr) && is_protective(mbr) {
            assert(gpt_listing(src, v));
            if disk.len() >= 1024 {
                let hdr = disk.subrange(512, 1024);
                if let Ok(h) = gpt_header(hdr) {
                    assert(gpt_array_listing(src, h, v));
                    assert(128 <= h.entry_size <= 4096 && h.n_entries <= 4096) by {
                        le::later_bytes_count_more(hdr, 80);
                        le::later_bytes_count_more(hdr, 84);
                    }
                    lemma_array_len(h);
                }
            }
        }
    }
}

/// The words of the errors: the number that is refused stands behind what it was
/// taken for.
pub proof fn errors_name_what_they_refuse(n: u32, lba: u64, cause: Seq<char>)
    ensures
        PartitionError::GptHeaderSize(n).detail(cause) == Some(
            "implausible GPT header size: "@ + text::decimal(n as nat),
        ),
        PartitionError::GptEntrySize(n).detail(cause) == Some(
            "implausible GPT entry size: "@ + text::decimal(n as nat),
        ),
        PartitionError::GptEntryCount(n).detail(cause) == Some(
            "implausible GPT entry count: "@ + text::decimal(n as nat),
        ),
        PartitionError::GptEntryArrayLba(lba).detail(cause) == Some(
            "implausible GPT entry array LBA: "@ + text::decimal(lba as nat),
        ),
        PartitionError::GptSignatureMissing.detail(cause) == Some(
            "GPT header signature missing (expected \"EFI PART\")"@,
        ),
        PartitionError::GptPartitionLength.detail(cause) == Some(
            "implausible GPT partition length"@,
        ),
{
}

/// An error's text is its outermost words; its chain starts with them and goes on
/// with what lies behind, down to the words of an I/O error.
pub proof fn chains_start_with_the_text(e: PartitionError, s: String, cause: Seq<char>)
    requires
        call_ensures(PartitionError::to_string, (&e,), s),
    ensures
        e is ReadMbr ==> s@ == "reading MBR sector"@ && e.chain(cause) == s@ + ": "@ + cause,
        e is ReadGptHeader ==> e.chain(cause) == s@ + ": "@ + ("reading GPT header sector: "@
            + cause),
        e is ReadGptEntries ==> e.chain(cause) == s@ + ": "@ + ("reading GPT entries: "@ + cause),
        e is NoMbrSignature ==> s@ == "no MBR signature at offset 510 — not a partitioned device"@
            && e.chain(cause) == s@,
        !(e is ReadMbr) && !(e is NoMbrSignature) ==> s@ == "parsing GPT"@,
        s@.len() <= e.chain(cause).len(),
        e.chain(cause).take(s@.len() as int) == s@,
{
    assert(e.chain(cause).take(s@.len() as int) =~= s@);
}

/// The chain of an error that a failed read is behind ends in the words that are
/// shown for that read's own error; every other chain ends in what was refused.
pub proof fn chains_end_with_the_cause(e: PartitionError, s: String, n: u32)
    requires
        call_ensures(PartitionError::chain_text, (&e,), s),
    ensures
        e matches PartitionError::ReadMbr(io) ==> exists|cause: Seq<char>| #[trigger]
            device::shown_as(io, cause) && s@ == "reading MBR sector"@ + ": "@ + cause,
        e matches PartitionError::ReadGptHeader(io) ==> exists|cause: Seq<char>| #[trigger]
            device::shown_as(io, cause) && s@ == "parsing GPT"@ + ": "@ + (
            "reading GPT header sector: "@ + cause),
        e matches PartitionError::ReadGptEntries(io) ==> exists|cause: Seq<char>| #[trigger]
            device::shown_as(io, cause) && s@ == "parsing GPT"@ + ": "@ + ("reading GPT entries: "@
                + cause),
        e == PartitionError::GptHeaderSize(n) ==> s@ == "parsing GPT"@ + ": "@ + (
        "implausible GPT header size: "@ + text::decimal(n as nat)),
        e == PartitionError::GptEntrySize(n) ==> s@ == "parsing GPT"@ + ": "@ + (
        "implausible GPT entry size: "@ + text::decimal(n as nat)),
        e == PartitionError::GptEntryCount(n) ==> s@ == "parsing GPT"@ + ": "@ + (
        "implausible GPT entry count: "@ + text::decimal(n as nat)),
{
    if e is ReadMbr {
        let io = e->ReadMbr_0;
        let cause = choose|cause: Seq<char>| #[trigger]
            device::shown_as(io, cause) && s@ == e.chain(cause);
        assert(device::shown_as(io, cause) && s@ == "reading MBR sector"@ + ": "@ + cause);
    } else if e is ReadGptHeader {
        let io = e->ReadGptHeader_0;
        let cause = choose|cause: Seq<char>| #[trigger]
            device::shown_as(io, cause) && s@ == e.chain(cause);
        assert(device::shown_as(io, cause) && s@ == "parsing GPT"@ + ": "@ + (
        "reading GPT header sector: "@ + cause));
    } else if e is ReadGptEntries {
        let io = e->ReadGptEntries_0;
        let cause = choose|cause: Seq<char>| #[trigger]
            device::shown_as(io, cause) && s@ == e.chain(cause);
        assert(device::shown_as(io, cause) && s@ == "parsing GPT"@ + ": "@ + (
        "reading GPT entries: "@ + cause));
    }
}

} // verus!
