//! Byte-level helpers shared by the parsers and builders.

use vstd::prelude::*;
use vstd::slice::slice_subrange;

verus! {

/// Whether `length` bytes from `index` on lie inside `data_len` bytes.
pub fn span_has_range(data_len: usize, index: usize, length: usize) -> (r: bool)
    ensures
        r == (index + length <= data_len),
{
    index <= data_len && length <= data_len - index
}

/// The big-endian 16-bit number at `i`.
pub open spec fn be16(s: Seq<u8>, i: int) -> int {
    s[i] as int * 256 + s[i + 1] as int
}

/// The little-endian 16-bit number at `i`.
pub open spec fn le16(s: Seq<u8>, i: int) -> int {
    s[i + 1] as int * 256 + s[i] as int
}

/// The big-endian 32-bit number at `i`.
pub open spec fn be32(s: Seq<u8>, i: int) -> int {
    be16(s, i) * 65536 + be16(s, i + 2)
}

/// The little-endian 32-bit number at `i`.
pub open spec fn le32(s: Seq<u8>, i: int) -> int {
    le16(s, i + 2) * 65536 + le16(s, i)
}

/// The four bytes of `v`, most significant first.
pub open spec fn be32_bytes(v: int) -> Seq<u8> {
    seq![
        (v / 16777216 % 256) as u8,
        (v / 65536 % 256) as u8,
        (v / 256 % 256) as u8,
        (v % 256) as u8,
    ]
}

/// The four bytes of `v`, least significant first.
pub open spec fn le32_bytes(v: int) -> Seq<u8> {
    seq![
        (v % 256) as u8,
        (v / 256 % 256) as u8,
        (v / 65536 % 256) as u8,
        (v / 16777216 % 256) as u8,
    ]
}

/// Reading back the four big-endian bytes of a 32-bit number gives the number.
pub proof fn lemma_be32_roundtrip(v: int)
    requires
        0 <= v < 0x1_0000_0000,
    ensures
        be32(be32_bytes(v), 0) == v,
{
    assert(v / 16777216 % 256 == v / 16777216);
    assert(v / 65536 == (v / 16777216) * 256 + v / 65536 % 256);
    assert(v / 256 == (v / 65536) * 256 + v / 256 % 256);
}

pub fn read_be16(data: &[u8], i: usize) -> (r: u16)
    requires
        i + 2 <= data.len(),
    ensures
        r == be16(data@, i as int),
{
    (data[i] as u16) * 256 + (data[i + 1] as u16)
}

pub fn read_le16(data: &[u8], i: usize) -> (r: u16)
    requires
        i + 2 <= data.len(),
    ensures
        r == le16(data@, i as int),
{
    (data[i + 1] as u16) * 256 + (data[i] as u16)
}

pub fn read_be32(data: &[u8], i: usize) -> (r: u32)
    requires
        i + 4 <= data.len(),
    ensures
        r == be32(data@, i as int),
{
    (read_be16(data, i) as u32) * 65536 + (read_be16(data, i + 2) as u32)
}

pub fn read_le32(data: &[u8], i: usize) -> (r: u32)
    requires
        i + 4 <= data.len(),
    ensures
        r == le32(data@, i as int),
{
    (read_le16(data, i + 2) as u32) * 65536 + (read_le16(data, i) as u32)
}

/// Appends `v` to `out`, most significant byte first.
pub fn push_be32(out: &mut Vec<u8>, v: u32)
    ensures
        final(out)@ == old(out)@ + be32_bytes(v as int),
{
    out.push((v / 16777216 % 256) as u8);
    out.push((v / 65536 % 256) as u8);
    out.push((v / 256 % 256) as u8);
    out.push((v % 256) as u8);
    assert(out@ =~= old(out)@ + be32_bytes(v as int));
}

/// Appends `v` to `out`, least significant byte first.
pub fn push_le32(out: &mut Vec<u8>, v: u32)
    ensures
        final(out)@ == old(out)@ + le32_bytes(v as int),
{
    out.push((v % 256) as u8);
    out.push((v / 256 % 256) as u8);
    out.push((v / 65536 % 256) as u8);
    out.push((v / 16777216 % 256) as u8);
    assert(out@ =~= old(out)@ + le32_bytes(v as int));
}

/// Appends all of `data` to `out`.
pub fn append(out: &mut Vec<u8>, data: &[u8])
    ensures
        final(out)@ == old(out)@ + data@,
{
    out.extend_from_slice(data);
    assert(out@ =~= old(out)@ + data@);
}

/// Appends the bytes of `data` from `from` up to `to` to `out`.
pub fn append_range(out: &mut Vec<u8>, data: &[u8], from: usize, to: usize)
    requires
        from <= to <= data@.len(),
    ensures
        final(out)@ == old(out)@ + data@.subrange(from as int, to as int),
{
    append(out, slice_subrange(data, from, to));
}

/// A copy of the bytes of `data` from `from` up to `to`.
pub fn copy_range(data: &[u8], from: usize, to: usize) -> (r: Vec<u8>)
    requires
        from <= to <= data@.len(),
    ensures
        r@ == data@.subrange(from as int, to as int),
{
    let mut r: Vec<u8> = Vec::new();
    append_range(&mut r, data, from, to);
    assert(r@ =~= data@.subrange(from as int, to as int));
    r
}

/// Overwrites `bytes.len()` bytes of `out` from `at` on.
pub fn overwrite(out: &mut Vec<u8>, at: usize, bytes: &[u8])
    requires
        at + bytes@.len() <= old(out)@.len(),
    ensures
        final(out)@ == overwritten(old(out)@, at as int, bytes@),
{
    let ghost before: Seq<u8> = out@;
    let mut i: usize = 0;
    while i < bytes.len()
        invariant
            i <= bytes@.len(),
            at + bytes@.len() <= out.len(),
            out@.len() == before.len(),
            out@ =~= overwritten(before, at as int, bytes@.take(i as int)),
        decreases bytes@.len() - i,
    {
        out.set(at + i, bytes[i]);
        i += 1;
    }
    assert(bytes@.take(i as int) =~= bytes@);
}

/// `s` with `bytes` laid over it from `at` on.
pub open spec fn overwritten(s: Seq<u8>, at: int, bytes: Seq<u8>) -> Seq<u8> {
    Seq::new(
        s.len(),
        |i: int|
            if at <= i < at + bytes.len() {
                bytes[i - at]
            } else {
                s[i]
            },
    )
}

/// Whether two byte strings are equal.
pub fn bytes_equal(a: &[u8], b: &[u8]) -> (r: bool)
    ensures
        r == (a@ == b@),
{
    if a.len() != b.len() {
        return false;
    }
    let mut i: usize = 0;
    while i < a.len()
        invariant
            i <= a@.len(),
            a@.len() == b@.len(),
            a@.take(i as int) =~= b@.take(i as int),
        decreases a@.len() - i,
    {
        if a[i] != b[i] {
            assert(a@[i as int] != b@[i as int]);
            return false;
        }
        i += 1;
        assert(a@.take(i as int) =~= b@.take(i as int));
    }
    assert(a@.take(i as int) =~= a@);
    assert(b@.take(i as int) =~= b@);
    true
}

/// Whether `sig` stands in `s` at position `i`.
pub open spec fn occurs_at(s: Seq<u8>, sig: Seq<u8>, i: int) -> bool {
    0 <= i && i + sig.len() <= s.len() && s.subrange(i, i + sig.len()) == sig
}

/// Whether `sig` stands in `data` at position `at`.
pub fn matches_at(data: &[u8], sig: &[u8], at: usize) -> (r: bool)
    ensures
        r == occurs_at(data@, sig@, at as int),
{
    if at > data.len() || sig.len() > data.len() - at {
        return false;
    }
    bytes_equal(slice_subrange(data, at, at + sig.len()), sig)
}

/// `r` is the first position of `sig` in `s` that is no smaller than `from`.
pub open spec fn is_first_match(s: Seq<u8>, sig: Seq<u8>, from: int, r: Option<usize>) -> bool {
    match r {
        Some(i) => {
            &&& from <= i
            &&& occurs_at(s, sig, i as int)
            &&& forall|j: int| from <= j < i ==> !occurs_at(s, sig, j)
        },
        None => forall|j: int| from <= j ==> !occurs_at(s, sig, j),
    }
}

/// The first position of `sig` in `s` from `from` on.
pub open spec fn first_match(s: Seq<u8>, sig: Seq<u8>, from: int) -> Option<int>
    decreases s.len() + 1 - from,
{
    if from + sig.len() > s.len() || from > s.len() {
        None
    } else if occurs_at(s, sig, from) {
        Some(from)
    } else {
        first_match(s, sig, from + 1)
    }
}

/// A first match is where the search from the beginning ends.
pub proof fn lemma_first_match(s: Seq<u8>, sig: Seq<u8>, from: int, r: Option<usize>)
    requires
        0 <= from,
        is_first_match(s, sig, from, r),
    ensures
        first_match(s, sig, from) == match r {
            Some(i) => Some(i as int),
            None => None,
        },
    decreases s.len() + 1 - from,
{
    if from + sig.len() <= s.len() && from <= s.len() && !occurs_at(s, sig, from) {
        lemma_first_match(s, sig, from + 1, r);
    }
}

/// The first position of `sig` in `data`; an empty `sig` is found nowhere.
pub fn search_sig(data: &[u8], sig: &[u8]) -> (r: Option<usize>)
    ensures
        sig@.len() == 0 ==> r == None::<usize>,
        sig@.len() > 0 ==> is_first_match(data@, sig@, 0, r),
{
    if sig.len() == 0 || data.len() < sig.len() {
        return None;
    }
    let last: usize = data.len() - sig.len();
    let mut i: usize = 0;
    while i <= last
        invariant
            sig@.len() > 0,
            last == data@.len() - sig@.len(),
            last < usize::MAX,
            i <= last + 1,
            forall|j: int| 0 <= j < i ==> !occurs_at(data@, sig@, j),
        decreases last + 1 - i,
    {
        if matches_at(data, sig, i) {
            return Some(i);
        }
        i += 1;
    }
    None
}

} // verus!
