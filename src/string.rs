//! Unreal string encodings and the CityHash-based name hashes.

use vstd::prelude::*;
use vstd::string::*;
use vstd::utf8::*;
use crate::bytes::{be_bytes, le_bytes, le_value, lemma_le_bytes_len, push_all, push_be, push_le, push_u32, push_u64, push_u8, push_zeros, read_u32};

verus! {

/// `FNameHash::AlgorithmId`, written before the first name hash of a block.
pub const NAME_HASH_ALGORITHM: u64 = 0xC1640000;

/// What `str::to_lowercase` makes of a sequence of characters.
pub uninterp spec fn lowercase_of(s: Seq<char>) -> Seq<char>;

/// CityHash64 of a byte sequence, as the `cityhasher` crate computes it.
pub uninterp spec fn city_hash64(b: Seq<u8>) -> u64;

/// Relies on `str::to_lowercase`: the result depends on the characters alone.
#[verifier::external_body]
fn to_lowercase(s: &str) -> (r: String)
    ensures
        r@ == lowercase_of(s@),
{
    s.to_lowercase()
}

/// Relies on `cityhasher::hash::<u64>`: CityHash64 of the bytes, a function of
/// the bytes alone.
#[verifier::external_body]
fn cityhash64(b: &[u8]) -> (r: u64)
    ensures
        r == city_hash64(b@),
{
    cityhasher::hash::<u64>(b)
}

/// Relies on `String::from_utf8`: it succeeds exactly on valid UTF-8 and then
/// holds the decoded characters.
#[verifier::external_body]
fn utf8_to_string(b: Vec<u8>) -> (r: Option<String>)
    ensures
        r is Some <==> valid_utf8(b@),
        r is Some ==> r->0@ == decode_utf8(b@),
{
    String::from_utf8(b).ok()
}

/// UTF-16 code units of one character.
pub open spec fn char_utf16(c: char) -> Seq<u16> {
    let v = c as u32;
    if v < 0x10000 {
        seq![v as u16]
    } else {
        let w = (v - 0x10000) as u32;
        seq![(0xD800 + (w >> 10)) as u16, (0xDC00 + (w & 0x3ff)) as u16]
    }
}

/// UTF-16 code units of a character sequence.
pub open spec fn utf16_units(s: Seq<char>) -> Seq<u16>
    decreases s.len(),
{
    if s.len() == 0 {
        Seq::empty()
    } else {
        utf16_units(s.drop_last()) + char_utf16(s.last())
    }
}

/// Code units laid out little-endian, two bytes each.
pub open spec fn units_le_bytes(u: Seq<u16>) -> Seq<u8>
    decreases u.len(),
{
    if u.len() == 0 {
        Seq::empty()
    } else {
        units_le_bytes(u.drop_last()) + le_bytes(u.last() as u64, 2)
    }
}

/// `Hash16`: CityHash64 over the UTF-16 little-endian bytes of the lowercased text.
pub open spec fn hash16_of(s: Seq<char>) -> u64 {
    city_hash64(units_le_bytes(utf16_units(lowercase_of(s))))
}

/// `Hash8`: CityHash64 over the UTF-8 bytes of the lowercased text.
pub open spec fn hash8_of(s: Seq<char>) -> u64 {
    city_hash64(encode_utf8(lowercase_of(s)))
}

/// The UTF-16 code units of `s`.
pub fn encode_utf16(s: &str) -> (r: Vec<u16>)
    ensures
        r@ == utf16_units(s@),
{
    let n = s.unicode_len();
    let mut out: Vec<u16> = Vec::new();
    let mut i: usize = 0;
    while i < n
        invariant
            n == s@.len(),
            i <= n,
            out@ == utf16_units(s@.subrange(0, i as int)),
        decreases n - i,
    {
        let c = s.get_char(i);
        let v = c as u32;
        if v < 0x10000 {
            out.push(v as u16);
        } else {
            let w: u32 = v - 0x10000;
            assert(w >> 10 < 0x400 && w & 0x3ff < 0x400) by (bit_vector)
                requires w < 0x100000;
            out.push((0xD800 + (w >> 10)) as u16);
            out.push((0xDC00 + (w & 0x3ff)) as u16);
        }
        let ghost pre = s@.subrange(0, i as int);
        i = i + 1;
        assert(s@.subrange(0, i as int).drop_last() =~= pre);
        assert(out@ =~= utf16_units(s@.subrange(0, i as int)));
    }
    assert(s@.subrange(0, n as int) =~= s@);
    out
}

/// Code units laid out as little-endian bytes.
pub fn units_to_le_bytes(u: &Vec<u16>) -> (r: Vec<u8>)
    ensures
        r@ == units_le_bytes(u@),
{
    let mut out: Vec<u8> = Vec::new();
    let mut i: usize = 0;
    while i < u.len()
        invariant
            i <= u@.len(),
            out@ == units_le_bytes(u@.subrange(0, i as int)),
        decreases u@.len() - i,
    {
        push_le(&mut out, u[i] as u64, 2);
        let ghost pre = u@.subrange(0, i as int);
        i = i + 1;
        assert(u@.subrange(0, i as int).drop_last() =~= pre);
    }
    assert(u@.subrange(0, u@.len() as int) =~= u@);
    out
}

/// CityHash64 over the UTF-8 bytes of the lowercased text (`Hash8`).
pub struct Hasher;

impl Hasher {
    pub fn get_cityhash64(bytes: &str) -> (r: u64)
        ensures
            r == hash8_of(bytes@),
    {
        let low = to_lowercase(bytes);
        cityhash64(low.as_str().as_bytes())
    }
}

/// CityHash64 over the UTF-16 little-endian bytes of the lowercased text
/// (`Hash16`), the hash of chunk ids, package ids and the container id.
pub struct Hasher16;

impl Hasher16 {
    pub fn get_cityhash64(bytes: &str) -> (r: u64)
        ensures
            r == hash16_of(bytes@),
    {
        let low = to_lowercase(bytes);
        let units = encode_utf16(low.as_str());
        let le = units_to_le_bytes(&units);
        cityhash64(le.as_slice())
    }
}

/// `u32 length_including_null`, the UTF-8 bytes, then a NUL.
pub open spec fn fstring32_bytes(s: Seq<char>) -> Seq<u8> {
    le_bytes((encode_utf8(s).len() + 1) as u64, 4) + encode_utf8(s) + seq![0u8]
}

/// Length-prefixed text with a terminating NUL (TOC string pool, mount point).
pub struct FString32NoHash;

impl FString32NoHash {
    pub fn to_buffer(rstr: &str, out: &mut Vec<u8>)
        requires
            rstr.spec_bytes().len() < u32::MAX,
        ensures
            final(out)@ == old(out)@ + fstring32_bytes(rstr@),
    {
        let b = rstr.as_bytes();
        push_u32(out, (b.len() + 1) as u32);
        push_all(out, b);
        push_u8(out, 0);
        assert(final(out)@ =~= old(out)@ + fstring32_bytes(rstr@));
    }

    /// Serialized size: the prefix, the bytes and the NUL.
    pub fn get_expected_length(value: &str) -> (r: u64)
        requires
            value.spec_bytes().len() < u32::MAX,
        ensures
            r == fstring32_bytes(value@).len(),
    {
        proof { lemma_le_bytes_len((value.spec_bytes().len() + 1) as u64, 4); }
        value.len() as u64 + 5
    }
}

/// Name-map entry of a PAK package summary: text then a `u32` hash.
pub struct FString32;

/// Name-map entry of an IO package: a big-endian `u16` length and the bytes,
/// with its hash in a separate block.
pub struct FString16;

/// The text block of a short string at `pos`: `(text bytes, position after it)`.
pub open spec fn fstring16_text_at(b: Seq<u8>, pos: int) -> Option<(Seq<u8>, int)> {
    if pos + 2 > b.len() {
        None
    } else {
        let len = b[pos] as int * 256 + b[pos + 1] as int;
        if pos + 2 + len > b.len() {
            None
        } else {
            Some((b.subrange(pos + 2, pos + 2 + len), pos + 2 + len))
        }
    }
}

impl FString16 {
    /// The name-map hash of the text: `Hash16`.
    pub fn check_hash(rstr: &str) -> (r: u64)
        ensures
            r == hash16_of(rstr@),
    {
        Hasher16::get_cityhash64(rstr)
    }

    /// Reads the text block of one name at `pos`. `None` where it runs past
    /// the end or is not UTF-8.
    pub fn from_buffer_text(b: &[u8], pos: usize) -> (r: Option<(String, usize)>)
        ensures
            r is Some <==> (fstring16_text_at(b@, pos as int) is Some
                && valid_utf8((fstring16_text_at(b@, pos as int)->0).0)),
            r is Some ==> (r->0).0@ == decode_utf8((fstring16_text_at(b@, pos as int)->0).0)
                && (r->0).1 == (fstring16_text_at(b@, pos as int)->0).1,
    {
        if pos > b.len() || b.len() - pos < 2 {
            return None;
        }
        let len: usize = b[pos] as usize * 256 + b[pos + 1] as usize;
        if b.len() - pos - 2 < len {
            return None;
        }
        let start = pos + 2;
        let end = start + len;
        let mut text: Vec<u8> = Vec::new();
        let mut i: usize = start;
        while i < end
            invariant
                start == pos + 2,
                end == start + len,
                end <= b.len(),
                start <= i <= end,
                text@ == b@.subrange(start as int, i as int),
            decreases end - i,
        {
            text.push(b[i]);
            i = i + 1;
            assert(text@ =~= b@.subrange(start as int, i as int));
        }
        match utf8_to_string(text) {
            Some(s) => Some((s, end)),
            None => None,
        }
    }
}

/// A name reference: index into the name map and an extra (instance) number.
#[derive(Clone, Copy, Debug)]
pub struct FMappedName(pub u32, pub u32);

impl FMappedName {
    pub fn get_name_index(&self) -> (r: u32)
        ensures
            r == self.0,
    {
        self.0
    }

    pub fn get_extra_index(&self) -> (r: u32)
        ensures
            r == self.1,
    {
        self.1
    }

    /// Unpacks the name index from the low and the extra index from the high half.
    pub fn from_u64(value: u64) -> (r: Self)
        ensures
            r.0 == value as u32,
            r.1 == (value >> 32) as u32,
    {
        FMappedName(value as u32, (value >> 32) as u32)
    }

    /// Packs the two indices little-endian into one word.
    pub fn to_u64(&self) -> (r: u64)
        ensures
            r == self.0 as u64 + self.1 as u64 * 0x1_0000_0000,
    {
        let lo = self.0 as u64;
        let hi = self.1 as u64;
        let r = lo | (hi << 32);
        assert(lo | (hi << 32) == lo + hi * 0x1_0000_0000) by (bit_vector)
            requires lo < 0x1_0000_0000, hi < 0x1_0000_0000;
        r
    }
}

/// Packing a mapped name into a word and unpacking it gives it back.
pub proof fn lemma_mapped_name_round_trip(a: u32, b: u32)
    ensures
        ((a as u64 + b as u64 * 0x1_0000_0000) as u64) as u32 == a,
        (((a as u64 + b as u64 * 0x1_0000_0000) as u64) >> 32) as u32 == b,
{
    let lo = a as u64;
    let hi = b as u64;
    assert(((lo + hi * 0x1_0000_0000) as u64) as u32 == lo as u32
        && (((lo + hi * 0x1_0000_0000) as u64) >> 32) as u32 == hi as u32) by (bit_vector)
        requires lo < 0x1_0000_0000, hi < 0x1_0000_0000;
}

/// A length-prefixed string at `pos`: `u32` length counting the NUL, the
/// text, the NUL; `(text bytes, position after the NUL)`. A zero length is
/// refused.
pub open spec fn fstring32_text_at(b: Seq<u8>, pos: int) -> Option<(Seq<u8>, int)> {
    if pos < 0 || pos + 4 > b.len() {
        None
    } else {
        let n = le_value(b.subrange(pos, pos + 4));
        if n == 0 || pos + 4 + n > b.len() {
            None
        } else {
            Some((b.subrange(pos + 4, pos + 3 + n), pos + 4 + n))
        }
    }
}

impl FString32NoHash {
    /// Reads a length-prefixed string at `pos`; `None` where it is empty,
    /// runs past the end or is not UTF-8.
    pub fn from_buffer(b: &[u8], pos: usize) -> (r: Option<(String, usize)>)
        ensures
            r is Some <==> (fstring32_text_at(b@, pos as int) is Some && valid_utf8(
                (fstring32_text_at(b@, pos as int)->0).0,
            )),
            r is Some ==> (r->0).0@ == decode_utf8((fstring32_text_at(b@, pos as int)->0).0) && (r->0).1
                == (fstring32_text_at(b@, pos as int)->0).1,
    {
        let n = match read_u32(b, pos) {
            Some(v) => v as usize,
            None => return None,
        };
        if n == 0 || n > b.len() - pos - 4 {
            return None;
        }
        let start = pos + 4;
        let end = start + n - 1;
        let mut text: Vec<u8> = Vec::new();
        let mut i: usize = start;
        while i < end
            invariant
                start == pos + 4,
                end == start + n - 1,
                end < b.len(),
                start <= i <= end,
                text@ == b@.subrange(start as int, i as int),
            decreases end - i,
        {
            text.push(b[i]);
            i = i + 1;
            assert(text@ =~= b@.subrange(start as int, i as int));
        }
        match utf8_to_string(text) {
            Some(s) => Some((s, end + 1)),
            None => None,
        }
    }
}

impl FString32 {
    /// Reads a name-map entry of a PAK package: the string, then a `u32`
    /// hash that is skipped. `None` where either is missing or the text is
    /// empty or not UTF-8.
    pub fn from_buffer(b: &[u8], pos: usize) -> (r: Option<(String, usize)>)
        ensures
            r is Some <==> (fstring32_text_at(b@, pos as int) is Some && valid_utf8(
                (fstring32_text_at(b@, pos as int)->0).0,
            ) && (fstring32_text_at(b@, pos as int)->0).1 + 4 <= b@.len()),
            r is Some ==> (r->0).0@ == decode_utf8((fstring32_text_at(b@, pos as int)->0).0) && (r->0).1
                == (fstring32_text_at(b@, pos as int)->0).1 + 4,
    {
        match FString32NoHash::from_buffer(b, pos) {
            Some((s, next)) => if next <= b.len() && b.len() - next >= 4 {
                Some((s, next + 4))
            } else {
                None
            },
            None => None,
        }
    }
}

/// Text block of a short string: big-endian `u16` length, then the bytes.
pub open spec fn fstring16_text_bytes(s: Seq<char>) -> Seq<u8> {
    be_bytes(encode_utf8(s).len() as u64, 2) + encode_utf8(s)
}

/// Zero bytes that bring `len` up to a multiple of 8.
pub open spec fn pad_to_8(len: nat) -> nat {
    if len % 8 == 0 { 0 } else { (8 - len % 8) as nat }
}

/// The name map of an IO package written after `start` bytes: every text
/// block, zero fill to an 8-byte boundary, the algorithm id, then `Hash16`
/// of every name.
pub open spec fn name_map_bytes(start: nat, names: Seq<Seq<char>>) -> Seq<u8> {
    let text = flat_names(names);
    text + Seq::new(pad_to_8(start + text.len()), |i: int| 0u8) + le_bytes(NAME_HASH_ALGORITHM, 8) + flat_hashes(
        names,
    )
}

pub open spec fn flat_names(names: Seq<Seq<char>>) -> Seq<u8>
    decreases names.len(),
{
    if names.len() == 0 {
        Seq::empty()
    } else {
        flat_names(names.drop_last()) + fstring16_text_bytes(names.last())
    }
}

pub open spec fn flat_hashes(names: Seq<Seq<char>>) -> Seq<u8>
    decreases names.len(),
{
    if names.len() == 0 {
        Seq::empty()
    } else {
        flat_hashes(names.drop_last()) + le_bytes(hash16_of(names.last()), 8)
    }
}

impl FString16 {
    /// Writes the text block of one name.
    pub fn to_buffer_text(rstr: &str, out: &mut Vec<u8>)
        requires
            rstr.spec_bytes().len() <= u16::MAX,
        ensures
            final(out)@ == old(out)@ + fstring16_text_bytes(rstr@),
    {
        let b = rstr.as_bytes();
        push_be(out, b.len() as u64, 2);
        push_all(out, b);
        assert(final(out)@ =~= old(out)@ + fstring16_text_bytes(rstr@));
    }

    /// Writes the hash block entry of one name: its `Hash16`.
    pub fn to_buffer_hash(rstr: &str, out: &mut Vec<u8>)
        ensures
            final(out)@ == old(out)@ + le_bytes(hash16_of(rstr@), 8),
    {
        push_u64(out, Hasher16::get_cityhash64(rstr));
    }

    /// Zero-fills to an 8-byte boundary, then writes the algorithm id that
    /// starts the hash block.
    pub fn to_buffer_alignment(out: &mut Vec<u8>)
        ensures
            final(out)@ == old(out)@ + Seq::new(pad_to_8(old(out)@.len()), |i: int| 0u8) + le_bytes(
                NAME_HASH_ALGORITHM,
                8,
            ),
    {
        let rem = out.len() % 8;
        let pad: usize = if rem == 0 { 0 } else { 8 - rem };
        push_zeros(out, pad);
        push_u64(out, NAME_HASH_ALGORITHM);
    }

    /// Writes a whole name map: the text blocks, the alignment and algorithm
    /// id, then the hashes. `None` leaves `out` as it was where a name is
    /// longer than its `u16` length.
    pub fn write_name_map(names: &Vec<String>, out: &mut Vec<u8>) -> (r: bool)
        ensures
            r ==> final(out)@ == old(out)@ + name_map_bytes(old(out)@.len(), names@.map_values(|s: String| s@)),
            !r ==> final(out)@ == old(out)@,
            r <==> forall|k: int| 0 <= k < names@.len() ==> encode_utf8((#[trigger] names@[k])@).len() <= u16::MAX,
    {
        let ghost nv = names@.map_values(|s: String| s@);
        let mut k: usize = 0;
        while k < names.len()
            invariant
                k <= names@.len(),
                forall|j: int| 0 <= j < k ==> encode_utf8((#[trigger] names@[j])@).len() <= u16::MAX,
            decreases names@.len() - k,
        {
            if names[k].as_str().as_bytes().len() > 0xFFFF {
                return false;
            }
            k = k + 1;
        }
        let ghost start = out@;
        let mut k: usize = 0;
        while k < names.len()
            invariant
                k <= names@.len(),
                nv == names@.map_values(|s: String| s@),
                forall|j: int| 0 <= j < names@.len() ==> encode_utf8((#[trigger] names@[j])@).len() <= u16::MAX,
                out@ == start + flat_names(nv.subrange(0, k as int)),
            decreases names@.len() - k,
        {
            FString16::to_buffer_text(names[k].as_str(), out);
            assert(nv.subrange(0, k + 1).drop_last() =~= nv.subrange(0, k as int));
            k = k + 1;
        }
        assert(nv.subrange(0, nv.len() as int) =~= nv);
        FString16::to_buffer_alignment(out);
        let ghost mid = out@;
        let mut k: usize = 0;
        while k < names.len()
            invariant
                k <= names@.len(),
                nv == names@.map_values(|s: String| s@),
                out@ == mid + flat_hashes(nv.subrange(0, k as int)),
            decreases names@.len() - k,
        {
            FString16::to_buffer_hash(names[k].as_str(), out);
            assert(nv.subrange(0, k + 1).drop_last() =~= nv.subrange(0, k as int));
            k = k + 1;
        }
        assert(out@ =~= start + name_map_bytes(start.len(), nv));
        true
    }
}

} // verus!
