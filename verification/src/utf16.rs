//! UTF-16 text as Windows hands it out and takes it in.

use vstd::prelude::*;
use vstd::string::*;

use crate::le;

verus! {

/// The first half of a surrogate pair.
pub open spec fn is_high(u: u16) -> bool {
    0xD800 <= u <= 0xDBFF
}

/// The second half of a surrogate pair.
pub open spec fn is_low(u: u16) -> bool {
    0xDC00 <= u <= 0xDFFF
}

/// The code units of little-endian bytes; an odd last byte is left out.
pub open spec fn units_of(bytes: Seq<u8>) -> Seq<u16> {
    Seq::new(bytes.len() / 2, |k: int| le::le_u16(bytes, 2 * k) as u16)
}

/// The code units in front of the first NUL, or all of them.
pub open spec fn before_nul(units: Seq<u16>) -> Seq<u16>
    decreases units.len(),
{
    if units.len() == 0 || units[0] == 0 {
        Seq::empty()
    } else {
        seq![units[0]] + before_nul(units.drop_first())
    }
}

/// The character that a surrogate pair stands for.
pub open spec fn pair_char(high: u16, low: u16) -> char {
    (0x1_0000 + 0x400 * (high - 0xD800) + (low - 0xDC00)) as char
}

/// UTF-16 decoding: one item per character, `None` for each surrogate that is
/// not part of a pair.
pub open spec fn decode(units: Seq<u16>) -> Seq<Option<char>>
    decreases units.len(),
{
    if units.len() == 0 {
        Seq::empty()
    } else if !is_high(units[0]) && !is_low(units[0]) {
        seq![Some(units[0] as char)] + decode(units.skip(1))
    } else if is_high(units[0]) && units.len() > 1 && is_low(units[1]) {
        seq![Some(pair_char(units[0], units[1]))] + decode(units.skip(2))
    } else {
        seq![None] + decode(units.skip(1))
    }
}

/// Every surrogate in `units` is part of a pair.
pub open spec fn is_well_formed(units: Seq<u16>) -> bool {
    !decode(units).contains(None)
}

/// The decoded text, with `U+FFFD` in place of each unpaired surrogate.
pub open spec fn lossy_text(units: Seq<u16>) -> Seq<char> {
    decode(units).map_values(
        |c: Option<char>|
            match c {
                Some(c) => c,
                None => '\u{FFFD}',
            },
    )
}

/// The code units of a character.
pub open spec fn char_units(c: char) -> Seq<u16> {
    if c as int <= 0xFFFF {
        seq![c as u16]
    } else {
        seq![
            (0xD800 + (c as int - 0x1_0000) / 0x400) as u16,
            (0xDC00 + (c as int - 0x1_0000) % 0x400) as u16,
        ]
    }
}

/// UTF-16 encoding.
pub open spec fn encode(text: Seq<char>) -> Seq<u16>
    decreases text.len(),
{
    if text.len() == 0 {
        Seq::empty()
    } else {
        char_units(text[0]) + encode(text.skip(1))
    }
}

/// Read the little-endian code units in `bytes` up to the first NUL.
pub fn read_until_nul(bytes: &[u8]) -> (units: Vec<u16>)
    ensures
        units@ == before_nul(units_of(bytes@)),
{
    let ghost all = units_of(bytes@);
    let n: usize = bytes.len() / 2;
    let mut units: Vec<u16> = Vec::new();
    let mut i: usize = 0;
    assert(all.skip(0) =~= all);
    assert(units@ + before_nul(all) =~= before_nul(all));
    while i < n
        invariant
            i <= n,
            n == bytes.len() / 2,
            all == units_of(bytes@),
            units@ + before_nul(all.skip(i as int)) == before_nul(all),
        decreases n - i,
    {
        let unit: u16 = le::read_u16(bytes, 2 * i);
        assert(all.skip(i as int)[0] == unit);
        if unit == 0 {
            assert(units@ =~= before_nul(all));
            return units;
        }
        let ghost before = units@;
        units.push(unit);
        assert(all.skip(i as int).drop_first() =~= all.skip(i + 1));
        assert(before + (seq![unit] + before_nul(all.skip(i + 1))) =~= units@ + before_nul(
            all.skip(i + 1),
        ));
        i = i + 1;
    }
    assert(units@ =~= before_nul(all));
    units
}

/// Decode UTF-16, one item per character.
pub fn decode_units(units: &[u16]) -> (out: Vec<Option<char>>)
    ensures
        out@ == decode(units@),
{
    let mut out: Vec<Option<char>> = Vec::new();
    let mut i: usize = 0;
    assert(units@.skip(0) =~= units@);
    assert(out@ + decode(units@) =~= decode(units@));
    while i < units.len()
        invariant
            i <= units.len(),
            out@ + decode(units@.skip(i as int)) == decode(units@),
        decreases units.len() - i,
    {
        let ghost before = out@;
        let ghost rest = units@.skip(i as int);
        let u: u16 = units[i];
        assert(rest[0] == u);
        if u < 0xD800 || u > 0xDFFF {
            out.push(char::from_u32(u as u32));
            assert(out@ =~= before + seq![Some(u as char)]);
            assert(rest.skip(1) =~= units@.skip(i + 1));
            i = i + 1;
        } else if u <= 0xDBFF && i + 1 < units.len() && units[i + 1] >= 0xDC00 && units[i + 1]
            <= 0xDFFF {
            let low: u16 = units[i + 1];
            assert(rest[1] == low);
            let code: u32 = 0x1_0000 + 0x400 * (u as u32 - 0xD800) + (low as u32 - 0xDC00);
            out.push(char::from_u32(code));
            assert(out@ =~= before + seq![Some(pair_char(u, low))]);
            assert(rest.skip(2) =~= units@.skip(i + 2));
            i = i + 2;
        } else {
            out.push(None);
            assert(out@ =~= before + seq![None::<char>]);
            assert(rest.skip(1) =~= units@.skip(i + 1));
            i = i + 1;
        }
        assert(out@ + decode(units@.skip(i as int)) =~= before + decode(rest));
    }
    assert(out@ =~= decode(units@));
    out
}

/// Decode UTF-16; `None` if a surrogate is not part of a pair.
pub fn decode_strict(units: &[u16]) -> (text: Option<String>)
    ensures
        text is Some <==> is_well_formed(units@),
        text matches Some(t) ==> t@ == lossy_text(units@),
{
    let chars: Vec<Option<char>> = decode_units(units);
    let mut text = String::new();
    let mut i: usize = 0;
    while i < chars.len()
        invariant
            i <= chars.len(),
            chars@ == decode(units@),
            text@ == lossy_text(units@).take(i as int),
            forall|j: int| 0 <= j < i ==> chars@[j] is Some,
        decreases chars.len() - i,
    {
        match chars[i] {
            Some(c) => {
                text.push(c);
                assert(text@ =~= lossy_text(units@).take(i + 1));
            },
            None => {
                assert(chars@[i as int] == None::<char>);
                return None;
            },
        }
        i = i + 1;
    }
    assert(text@ =~= lossy_text(units@));
    Some(text)
}

/// Decode UTF-16, with `U+FFFD` in place of each unpaired surrogate.
pub fn decode_lossy(units: &[u16]) -> (text: String)
    ensures
        text@ == lossy_text(units@),
{
    let chars: Vec<Option<char>> = decode_units(units);
    let mut text = String::new();
    let mut i: usize = 0;
    while i < chars.len()
        invariant
            i <= chars.len(),
            chars@ == decode(units@),
            text@ == lossy_text(units@).take(i as int),
        decreases chars.len() - i,
    {
        match chars[i] {
            Some(c) => text.push(c),
            None => text.push('\u{FFFD}'),
        }
        assert(text@ =~= lossy_text(units@).take(i + 1));
        i = i + 1;
    }
    assert(text@ =~= lossy_text(units@));
    text
}

/// `text` as NUL-terminated UTF-16, the form Windows takes strings in.
pub fn wide_z(text: &str) -> (units: Vec<u16>)
    ensures
        units@ == encode(text@).push(0),
{
    let n: usize = text.unicode_len();
    let mut units: Vec<u16> = Vec::new();
    let mut i: usize = 0;
    assert(text@.skip(0) =~= text@);
    assert(units@ + encode(text@) =~= encode(text@));
    while i < n
        invariant
            i <= n,
            n == text@.len(),
            units@ + encode(text@.skip(i as int)) == encode(text@),
        decreases n - i,
    {
        let ghost before = units@;
        let ghost rest = text@.skip(i as int);
        let c: char = text.get_char(i);
        assert(rest[0] == c);
        let code: u32 = c as u32;
        if code <= 0xFFFF {
            units.push(code as u16);
        } else {
            units.push((0xD800 + (code - 0x1_0000) / 0x400) as u16);
            units.push((0xDC00 + (code - 0x1_0000) % 0x400) as u16);
        }
        assert(units@ =~= before + char_units(c));
        assert(rest.skip(1) =~= text@.skip(i + 1));
        assert(units@ + encode(text@.skip(i + 1)) =~= before + encode(rest));
        i = i + 1;
    }
    assert(units@ =~= encode(text@));
    units.push(0);
    units
}

proof fn lemma_decode_char(c: char, rest: Seq<u16>)
    ensures
        decode(char_units(c) + rest) == seq![Some(c)] + decode(rest),
{
    let units = char_units(c) + rest;
    if c as int <= 0xFFFF {
        assert(units.skip(1) =~= rest);
    } else {
        assert(units.skip(2) =~= rest);
    }
}

proof fn lemma_char_units_hold_no_nul(c: char)
    requires
        c != '\0',
    ensures
        char_units(c)[0] != 0,
        char_units(c).len() == 2 ==> char_units(c)[1] != 0,
{
}

/// Decoding gives back what was encoded: each character of the text, in order.
pub proof fn decode_undoes_encode(text: Seq<char>)
    ensures
        decode(encode(text)) == text.map_values(|c: char| Some(c)),
        is_well_formed(encode(text)),
        lossy_text(encode(text)) == text,
    decreases text.len(),
{
    let some = text.map_values(|c: char| Some(c));
    if text.len() == 0 {
        assert(decode(encode(text)) =~= some);
    } else {
        decode_undoes_encode(text.skip(1));
        lemma_decode_char(text[0], encode(text.skip(1)));
        assert(decode(encode(text)) =~= some);
    }
    assert(lossy_text(encode(text)) =~= text);
}

/// The encoding of a text that does not end in a NUL does not either.
pub proof fn last_unit_is_not_nul(text: Seq<char>)
    requires
        text.len() > 0,
        text.last() != '\0',
    ensures
        encode(text).len() > 0,
        encode(text).last() != 0,
    decreases text.len(),
{
    let first = char_units(text[0]);
    let rest = text.skip(1);
    if text.len() == 1 {
        lemma_char_units_hold_no_nul(text[0]);
        assert(encode(text) =~= first);
    } else {
        assert(rest.last() == text.last());
        last_unit_is_not_nul(rest);
        assert(encode(text).last() == encode(rest).last());
    }
}

/// A text without NUL characters stands whole in front of the first NUL.
pub proof fn text_stands_before_nul(text: Seq<char>, tail: Seq<u16>)
    requires
        !text.contains('\0'),
    ensures
        before_nul(encode(text) + tail) == encode(text) + before_nul(tail),
    decreases text.len(),
{
    let units = encode(text) + tail;
    if text.len() == 0 {
        assert(units =~= tail);
        assert(encode(text) + before_nul(tail) =~= before_nul(tail));
    } else {
        assert(text[0] != '\0');
        assert(!text.skip(1).contains('\0')) by {
            if text.skip(1).contains('\0') {
                let j = choose|j: int| 0 <= j < text.skip(1).len() && text.skip(1)[j] == '\0';
                assert(text[j + 1] == '\0');
            }
        }
        text_stands_before_nul(text.skip(1), tail);
        let rest = encode(text.skip(1)) + tail;
        let first = char_units(text[0]);
        assert(units =~= first + rest);
        lemma_char_units_hold_no_nul(text[0]);
        assert(units[0] == first[0]);
        if first.len() == 1 {
            assert(units.drop_first() =~= rest);
        } else {
            assert(units.drop_first()[0] == first[1]);
            assert(units.drop_first().drop_first() =~= rest);
        }
        reveal_with_fuel(before_nul, 2);
        assert(before_nul(units) =~= first + before_nul(rest));
        assert(encode(text) + before_nul(tail) =~= first + (encode(text.skip(1)) + before_nul(tail)));
    }
}

/// A text without NUL characters survives the NUL-terminated form: the units
/// in front of the terminator are its encoding.
pub proof fn terminator_delimits_text(text: Seq<char>, tail: Seq<u16>)
    requires
        !text.contains('\0'),
    ensures
        before_nul(encode(text).push(0) + tail) == encode(text),
{
    let end = seq![0u16] + tail;
    text_stands_before_nul(text, end);
    assert(encode(text).push(0) + tail =~= encode(text) + end);
    assert(encode(text) + before_nul(end) =~= encode(text));
}

/// The code units of `n` bytes are `n / 2` many, and unit `k` is the
/// little-endian number in bytes `2 * k` and `2 * k + 1`.
pub proof fn units_are_byte_pairs(bytes: Seq<u8>, k: int)
    ensures
        units_of(bytes).len() == bytes.len() / 2,
        0 <= k < bytes.len() / 2 ==> units_of(bytes)[k] == bytes[2 * k] + 0x100 * bytes[2 * k + 1],
{
}

/// What stands in front of the first NUL: the longest beginning without one.
pub proof fn before_nul_is_the_longest_beginning(units: Seq<u16>)
    ensures
        ({
            let n = before_nul(units).len();
            &&& n <= units.len()
            &&& before_nul(units) == units.take(n as int)
            &&& !before_nul(units).contains(0)
            &&& n < units.len() ==> units[n as int] == 0
        }),
    decreases units.len(),
{
    if units.len() > 0 && units[0] != 0 {
        let rest = units.drop_first();
        before_nul_is_the_longest_beginning(rest);
        let n = before_nul(units).len() as int;
        assert(before_nul(units) =~= units.take(n));
        assert forall|i: int| 0 <= i < n implies before_nul(units)[i] != 0 by {
            if i > 0 {
                assert(before_nul(rest)[i - 1] != 0);
            }
        }
    } else {
        assert(before_nul(units) =~= units.take(0));
    }
}

/// Reading up to the first NUL gives every unit in front of it and no other,
/// however many there are: unit `k` from bytes `2 * k` and `2 * k + 1`.
pub proof fn every_unit_before_the_nul_is_read(bytes: &[u8], units: Vec<u16>, k: int)
    requires
        call_ensures(read_until_nul, (bytes,), units),
    ensures
        2 * units@.len() <= bytes@.len(),
        0 <= k < units@.len() ==> units@[k] != 0 && units@[k] == bytes@[2 * k] + 0x100 * bytes@[2
            * k + 1],
        2 * units@.len() + 1 < bytes@.len() ==> {
            let end = 2 * units@.len() as int;
            bytes@[end] == 0 && bytes@[end + 1] == 0
        },
{
    before_nul_is_the_longest_beginning(units_of(bytes@));
    units_are_byte_pairs(bytes@, units@.len() as int);
    units_are_byte_pairs(bytes@, k);
    if 0 <= k < units@.len() {
        assert(before_nul(units_of(bytes@))[k] == units_of(bytes@)[k]);
    }
}

/// A character up to `U+FFFF` is its own code unit; any other is a surrogate
/// pair, whose halves hold the upper and the lower ten bits of its distance from
/// `U+10000`.
pub proof fn characters_take_one_unit_or_a_pair(c: char)
    ensures
        c as int <= 0xFFFF ==> encode(seq![c]).len() == 1 && encode(seq![c])[0] == c as int,
        c as int > 0xFFFF ==> {
            &&& encode(seq![c]).len() == 2
            &&& 0xD800 <= encode(seq![c])[0] <= 0xDBFF
            &&& 0xDC00 <= encode(seq![c])[1] <= 0xDFFF
            &&& c as int == 0x1_0000 + 0x400 * (encode(seq![c])[0] - 0xD800) + (encode(seq![c])[1]
                - 0xDC00)
        },
{
    assert(seq![c].skip(1) =~= Seq::empty());
    reveal_with_fuel(encode, 2);
    assert(encode(seq![c]) =~= char_units(c));
}

/// Texts are encoded character by character: the encoding of two texts, one
/// behind the other, is that of the one behind that of the other.
pub proof fn encodings_concatenate(a: Seq<char>, b: Seq<char>)
    ensures
        encode(a + b) == encode(a) + encode(b),
        encode(Seq::<char>::empty()).len() == 0,
    decreases a.len(),
{
    if a.len() == 0 {
        assert(a + b =~= b);
        assert(encode(a) + encode(b) =~= encode(b));
    } else {
        encodings_concatenate(a.skip(1), b);
        assert((a + b).skip(1) =~= a.skip(1) + b);
        assert(encode(a + b) =~= encode(a) + encode(b));
    }
}

proof fn lemma_decode_after_text(text: Seq<char>, rest: Seq<u16>)
    ensures
        decode(encode(text) + rest) == text.map_values(|c: char| Some(c)) + decode(rest),
    decreases text.len(),
{
    let some = text.map_values(|c: char| Some(c));
    if text.len() == 0 {
        assert(encode(text) + rest =~= rest);
        assert(some + decode(rest) =~= decode(rest));
    } else {
        lemma_decode_after_text(text.skip(1), rest);
        lemma_decode_char(text[0], encode(text.skip(1)) + rest);
        assert(encode(text) + rest =~= char_units(text[0]) + (encode(text.skip(1)) + rest));
        assert(some + decode(rest) =~= seq![Some(text[0])] + (text.skip(1).map_values(
            |c: char| Some(c),
        ) + decode(rest)));
    }
}

/// A surrogate that is not part of a pair is one undecodable item, and changes
/// nothing of the text around it: what stands in front is decoded, and what
/// stands behind is decoded as if it stood alone.
pub proof fn unpaired_surrogate_stands_alone(text: Seq<char>, unit: u16, rest: Seq<u16>)
    requires
        0xD800 <= unit <= 0xDFFF,
        unit <= 0xDBFF ==> rest.len() == 0 || !(0xDC00 <= rest[0] <= 0xDFFF),
    ensures
        decode(encode(text) + (seq![unit] + rest)) == text.map_values(|c: char| Some(c)) + (seq![
            None::<char>,
        ] + decode(rest)),
{
    lemma_decode_after_text(text, seq![unit] + rest);
    assert((seq![unit] + rest).skip(1) =~= rest);
}

/// The lossy text has one character per decoded item: the item's own, or the
/// replacement character where there is none.
pub proof fn lossy_text_replaces_only_what_does_not_decode(units: Seq<u16>, i: int)
    requires
        0 <= i < decode(units).len(),
    ensures
        lossy_text(units).len() == decode(units).len(),
        decode(units)[i] is Some ==> lossy_text(units)[i] == decode(units)[i]->0,
        decode(units)[i] is None ==> lossy_text(units)[i] as int == 0xFFFD,
{
}

/// Units are well-formed exactly if they are the encoding of a text, which is
/// then the text that they decode to.
pub proof fn well_formed_units_are_encodings(units: Seq<u16>)
    ensures
        is_well_formed(units) <==> exists|text: Seq<char>| #[trigger] encode(text) == units,
        is_well_formed(units) ==> encode(lossy_text(units)) == units,
{
    if is_well_formed(units) {
        lemma_encode_undoes_decode(units);
    }
    if exists|text: Seq<char>| #[trigger] encode(text) == units {
        let text = choose|text: Seq<char>| #[trigger] encode(text) == units;
        decode_undoes_encode(text);
    }
}

proof fn lemma_encode_undoes_decode(units: Seq<u16>)
    requires
        is_well_formed(units),
    ensures
        encode(lossy_text(units)) == units,
    decreases units.len(),
{
    if units.len() > 0 {
        let all = decode(units);
        assert(all[0] is Some) by {
            assert(all.len() > 0);
            if all[0] is None {
                assert(all.contains(None));
            }
        }
        let n: int = if !is_high(units[0]) && !is_low(units[0]) {
            1
        } else {
            2
        };
        let rest = units.skip(n);
        assert(all =~= seq![all[0]] + decode(rest));
        assert(is_well_formed(rest)) by {
            if decode(rest).contains(None) {
                let k = choose|k: int| 0 <= k < decode(rest).len() && decode(rest)[k] is None;
                assert(all[k + 1] is None);
            }
        }
        lemma_encode_undoes_decode(rest);
        let text = lossy_text(units);
        assert(text.skip(1) =~= lossy_text(rest));
        assert(char_units(text[0]) =~= units.take(n));
        assert(encode(text) =~= units);
    } else {
        assert(encode(lossy_text(units)) =~= units);
    }
}

/// Text survives the way to Windows and back: the NUL-terminated units of a text
/// end in a NUL, and without it they decode to the text, strictly and lossily.
pub proof fn wide_text_is_read_back(
    text: &str,
    units: Vec<u16>,
    front: &[u16],
    strict: Option<String>,
    lossy: String,
)
    requires
        call_ensures(wide_z, (text,), units),
        front@ == units@.drop_last(),
        call_ensures(decode_strict, (front,), strict),
        call_ensures(decode_lossy, (front,), lossy),
    ensures
        units@.len() > 0,
        units@.last() == 0,
        front@ == encode(text@),
        strict is Some && strict->0@ == text@,
        lossy@ == text@,
{
    assert(units@.drop_last() =~= encode(text@));
    decode_undoes_encode(text@);
}

/// Strict decoding succeeds exactly on the encodings of texts, and gives the
/// text; lossy decoding never fails and agrees with it there.
pub proof fn strict_decoding_inverts_encoding(units: &[u16], strict: Option<String>, lossy: String)
    requires
        call_ensures(decode_strict, (units,), strict),
        call_ensures(decode_lossy, (units,), lossy),
    ensures
        strict is Some <==> exists|text: Seq<char>| #[trigger] encode(text) == units@,
        strict matches Some(s) ==> encode(s@) == units@ && lossy@ == s@,
{
    well_formed_units_are_encodings(units@);
}

} // verus!
