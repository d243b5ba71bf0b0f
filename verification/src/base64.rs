//! Canonical base64, as the XMP segment of a Bluesky image holds it.

use crate::common::append;
use crate::runtime::JdvrifError;
use vstd::prelude::*;

verus! {

pub const BASE64_PAD: u8 = 0x3D;

/// The character of a 6-bit value.
pub open spec fn base64_char(v: int) -> u8 {
    if v < 26 {
        (0x41 + v) as u8
    } else if v < 52 {
        (0x61 + v - 26) as u8
    } else if v < 62 {
        (0x30 + v - 52) as u8
    } else if v == 62 {
        0x2B
    } else {
        0x2F
    }
}

/// The four characters of one, two or three bytes.
pub open spec fn base64_quartet(b: Seq<u8>) -> Seq<u8> {
    let b0 = b[0] as int;
    let b1 = if b.len() > 1 {
        b[1] as int
    } else {
        0
    };
    let b2 = if b.len() > 2 {
        b[2] as int
    } else {
        0
    };
    seq![
        base64_char(b0 / 4),
        base64_char(b0 % 4 * 16 + b1 / 16),
        if b.len() > 1 {
            base64_char(b1 % 16 * 4 + b2 / 64)
        } else {
            BASE64_PAD
        },
        if b.len() > 2 {
            base64_char(b2 % 64)
        } else {
            BASE64_PAD
        },
    ]
}

/// The base64 text of a byte string.
pub open spec fn base64_encode(b: Seq<u8>) -> Seq<u8>
    decreases b.len(),
{
    if b.len() == 0 {
        Seq::empty()
    } else if b.len() <= 3 {
        base64_quartet(b)
    } else {
        base64_quartet(b.take(3)) + base64_encode(b.skip(3))
    }
}

/// The 6-bit value of a character, where it has one.
pub open spec fn base64_value(c: u8) -> Option<u8> {
    if 0x41 <= c <= 0x5A {
        Some((c - 0x41) as u8)
    } else if 0x61 <= c <= 0x7A {
        Some((c - 0x61 + 26) as u8)
    } else if 0x30 <= c <= 0x39 {
        Some((c - 0x30 + 52) as u8)
    } else if c == 0x2B {
        Some(62)
    } else if c == 0x2F {
        Some(63)
    } else {
        None
    }
}

proof fn lemma_base64_char(v: int)
    requires
        0 <= v < 64,
    ensures
        base64_value(base64_char(v)) == Some(v as u8),
        base64_char(v) != BASE64_PAD,
{
}

proof fn lemma_base64_value(c: u8)
    ensures
        base64_value(c) matches Some(v) ==> v < 64 && base64_char(v as int) == c,
        base64_value(BASE64_PAD) is None,
{
}

pub fn decode_base64_char(c: u8) -> (r: Option<u8>)
    ensures
        r == base64_value(c),
{
    if 0x41 <= c && c <= 0x5A {
        Some(c - 0x41)
    } else if 0x61 <= c && c <= 0x7A {
        Some(c - 0x61 + 26)
    } else if 0x30 <= c && c <= 0x39 {
        Some(c - 0x30 + 52)
    } else if c == 0x2B {
        Some(62)
    } else if c == 0x2F {
        Some(63)
    } else {
        None
    }
}

/// The bytes that four characters stand for, where they are the canonical text
/// of one, two or three bytes.
#[verifier::rlimit(60)]
#[verifier::spinoff_prover]
fn decode_quartet(c0: u8, c1: u8, c2: u8, c3: u8) -> (r: Option<Vec<u8>>)
    ensures
        match r {
            Some(b) => 1 <= b@.len() <= 3 && base64_quartet(b@) == seq![c0, c1, c2, c3],
            None => forall|b: Seq<u8>|
                1 <= b.len() <= 3 ==> #[trigger] base64_quartet(b) != seq![c0, c1, c2, c3],
        },
{
    let ghost q: Seq<u8> = seq![c0, c1, c2, c3];
    proof {
        lemma_base64_value(c0);
        lemma_base64_value(c1);
        lemma_base64_value(c2);
        lemma_base64_value(c3);
        assert forall|b: Seq<u8>| 1 <= b.len() <= 3 && #[trigger] base64_quartet(b) == q implies {
            let b0 = b[0] as int;
            let b1 = if b.len() > 1 {
                b[1] as int
            } else {
                0
            };
            let b2 = if b.len() > 2 {
                b[2] as int
            } else {
                0
            };
            &&& base64_value(c0) == Some((b0 / 4) as u8)
            &&& base64_value(c1) == Some((b0 % 4 * 16 + b1 / 16) as u8)
            &&& b.len() == 1 ==> c2 == BASE64_PAD && c3 == BASE64_PAD
            &&& b.len() > 1 ==> base64_value(c2) == Some((b1 % 16 * 4 + b2 / 64) as u8) && c2
                != BASE64_PAD
            &&& b.len() == 2 ==> c3 == BASE64_PAD
            &&& b.len() == 3 ==> base64_value(c3) == Some((b2 % 64) as u8) && c3 != BASE64_PAD
        } by {
            let b0 = b[0] as int;
            let b1 = if b.len() > 1 {
                b[1] as int
            } else {
                0
            };
            let b2 = if b.len() > 2 {
                b[2] as int
            } else {
                0
            };
            assert(q[0] == c0 && q[1] == c1 && q[2] == c2 && q[3] == c3);
            lemma_base64_char(b0 / 4);
            lemma_base64_char(b0 % 4 * 16 + b1 / 16);
            lemma_base64_char(b1 % 16 * 4 + b2 / 64);
            lemma_base64_char(b2 % 64);
        }
    }
    let p2: bool = c2 == BASE64_PAD;
    let p3: bool = c3 == BASE64_PAD;
    if p2 && !p3 {
        return None;
    }
    let v0: u8 = match decode_base64_char(c0) {
        Some(v) => v,
        None => {
            return None;
        },
    };
    let v1: u8 = match decode_base64_char(c1) {
        Some(v) => v,
        None => {
            return None;
        },
    };
    let v2: u8 = if p2 {
        0
    } else {
        match decode_base64_char(c2) {
            Some(v) => v,
            None => {
                return None;
            },
        }
    };
    let v3: u8 = if p3 {
        0
    } else {
        match decode_base64_char(c3) {
            Some(v) => v,
            None => {
                return None;
            },
        }
    };
    if (p2 && v1 % 16 != 0) || (!p2 && p3 && v2 % 4 != 0) {
        return None;
    }
    let mut out: Vec<u8> = Vec::new();
    out.push(v0 * 4 + v1 / 16);
    if !p2 {
        out.push(v1 % 16 * 16 + v2 / 4);
    }
    if !p3 {
        out.push(v2 % 4 * 64 + v3);
    }
    assert(base64_quartet(out@) =~= q);
    Some(out)
}

/// The position of the first `delimiter` in `s`, or its length.
pub open spec fn delimiter_index(s: Seq<u8>, delimiter: u8) -> int
    decreases s.len(),
{
    if s.len() == 0 || s[0] == delimiter {
        0
    } else {
        1 + delimiter_index(s.skip(1), delimiter)
    }
}

proof fn lemma_delimiter_index(s: Seq<u8>, delimiter: u8, i: int)
    requires
        0 <= i <= s.len(),
        forall|j: int| 0 <= j < i ==> s[j] != delimiter,
        i < s.len() ==> s[i] == delimiter,
    ensures
        delimiter_index(s, delimiter) == i,
    decreases i,
{
    if i > 0 {
        let t = s.skip(1);
        assert forall|j: int| 0 <= j < i - 1 implies t[j] != delimiter by {
            assert(t[j] == s[j + 1]);
        }
        lemma_delimiter_index(t, delimiter, i - 1);
    }
}

proof fn lemma_encode_len(b: Seq<u8>)
    ensures
        base64_encode(b).len() == (b.len() + 2) / 3 * 4,
    decreases b.len(),
{
    if b.len() > 3 {
        lemma_encode_len(b.skip(3));
    }
}

/// Whole triples can be split off the front of a text.
proof fn lemma_encode_split(b: Seq<u8>, k: int)
    requires
        0 <= k,
        3 * k <= b.len(),
    ensures
        base64_encode(b) == base64_encode(b.take(3 * k)) + base64_encode(b.skip(3 * k)),
    decreases k,
{
    if k == 0 {
        assert(b.take(0) =~= Seq::<u8>::empty());
        assert(b.skip(0) =~= b);
        assert(base64_encode(b) =~= base64_encode(b.take(0)) + base64_encode(b.skip(0)));
    } else {
        let rest = b.skip(3);
        lemma_encode_split(rest, k - 1);
        let head = b.take(3 * k);
        assert(rest.take(3 * (k - 1)) =~= head.skip(3));
        assert(rest.skip(3 * (k - 1)) =~= b.skip(3 * k));
        assert(head.take(3) =~= b.take(3));
        if b.len() <= 3 {
            assert(b.take(3) =~= b);
            assert(rest =~= Seq::<u8>::empty());
            assert(head =~= b);
            assert(b.skip(3 * k) =~= Seq::<u8>::empty());
            assert(base64_encode(b) =~= base64_encode(head) + base64_encode(b.skip(3 * k)));
        } else if head.len() <= 3 {
            assert(head =~= b.take(3));
            assert(head.skip(3) =~= Seq::<u8>::empty());
            assert(base64_encode(b) =~= base64_encode(head) + base64_encode(b.skip(3 * k)));
        } else {
            assert(base64_encode(b) =~= base64_encode(head) + base64_encode(b.skip(3 * k)));
        }
    }
}

/// Different byte strings have different texts: a base64 text can be decoded in
/// one way only.
pub proof fn law_base64_decodes_uniquely(a: Seq<u8>, b: Seq<u8>)
    requires
        base64_encode(a) == base64_encode(b),
    ensures
        a == b,
    decreases a.len(),
{
    lemma_encode_len(a);
    lemma_encode_len(b);
    if a.len() == 0 {
        assert(a =~= b);
    } else {
        let ta = if a.len() <= 3 {
            a
        } else {
            a.take(3)
        };
        let tb = if b.len() <= 3 {
            b
        } else {
            b.take(3)
        };
        assert(base64_quartet(ta) =~= base64_encode(a).take(4));
        assert(base64_quartet(tb) =~= base64_encode(b).take(4));
        lemma_quartet_unique(ta, tb);
        if a.len() > 3 {
            assert(base64_encode(a).skip(4) =~= base64_encode(a.skip(3)));
            assert(base64_encode(b).skip(4) =~= base64_encode(b.skip(3)));
            law_base64_decodes_uniquely(a.skip(3), b.skip(3));
            assert(a =~= a.take(3) + a.skip(3));
            assert(b =~= b.take(3) + b.skip(3));
        }
    }
}

proof fn lemma_quartet_unique(a: Seq<u8>, b: Seq<u8>)
    requires
        1 <= a.len() <= 3,
        1 <= b.len() <= 3,
        base64_quartet(a) == base64_quartet(b),
    ensures
        a == b,
{
    let qa = base64_quartet(a);
    let qb = base64_quartet(b);
    let a1 = if a.len() > 1 {
        a[1] as int
    } else {
        0
    };
    let a2 = if a.len() > 2 {
        a[2] as int
    } else {
        0
    };
    let b1 = if b.len() > 1 {
        b[1] as int
    } else {
        0
    };
    let b2 = if b.len() > 2 {
        b[2] as int
    } else {
        0
    };
    assert(qa[0] == qb[0] && qa[1] == qb[1] && qa[2] == qb[2] && qa[3] == qb[3]);
    lemma_base64_char(a[0] as int / 4);
    lemma_base64_char(b[0] as int / 4);
    lemma_base64_char(a[0] as int % 4 * 16 + a1 / 16);
    lemma_base64_char(b[0] as int % 4 * 16 + b1 / 16);
    lemma_base64_char(a1 % 16 * 4 + a2 / 64);
    lemma_base64_char(b1 % 16 * 4 + b2 / 64);
    lemma_base64_char(a2 % 64);
    lemma_base64_char(b2 % 64);
    assert(a =~= b);
}

/// The part of a file that is searched for the delimiter.
pub open spec fn base64_region(file: Seq<u8>, offset: int, max_bytes: int) -> Seq<u8> {
    if offset >= file.len() {
        Seq::empty()
    } else if max_bytes < file.len() - offset {
        file.subrange(offset, offset + max_bytes)
    } else {
        file.skip(offset)
    }
}

/// The text from `offset` up to the delimiter is the canonical base64 of `out`,
/// with the delimiter no further than `max_bytes` away.
pub open spec fn is_base64_before(
    file: Seq<u8>,
    offset: int,
    delimiter: u8,
    max_bytes: int,
    out: Seq<u8>,
) -> bool {
    let region = base64_region(file, offset, max_bytes);
    let n = delimiter_index(region, delimiter);
    n < region.len() && region.take(n) == base64_encode(out)
}

/// The byte string of the given length whose canonical base64 stands from
/// `offset` up to the delimiter.
pub open spec fn base64_before(
    file: Seq<u8>,
    offset: int,
    delimiter: u8,
    max_bytes: int,
    length: int,
) -> Option<Seq<u8>> {
    if exists|out: Seq<u8>|
        out.len() == length && is_base64_before(file, offset, delimiter, max_bytes, out) {
        Some(
            choose|out: Seq<u8>|
                out.len() == length && is_base64_before(file, offset, delimiter, max_bytes, out),
        )
    } else {
        None
    }
}

/// Decodes base64 up to a delimiter. It succeeds exactly on the canonical text
/// of a byte string of the expected size.
pub fn decode_base64_until_delimiter(
    file: &[u8],
    offset: usize,
    delimiter: u8,
    max_bytes: usize,
    expected_decoded_size: usize,
) -> (r: Result<Vec<u8>, JdvrifError>)
    ensures
        match r {
            Ok(out) => {
                &&& out@.len() == expected_decoded_size
                &&& is_base64_before(
                    file@,
                    offset as int,
                    delimiter,
                    max_bytes as int,
                    out@,
                )
                &&& base64_before(
                    file@,
                    offset as int,
                    delimiter,
                    max_bytes as int,
                    expected_decoded_size as int,
                ) == Some(out@)
            },
            Err(e) => e is CorruptFile && base64_before(
                file@,
                offset as int,
                delimiter,
                max_bytes as int,
                expected_decoded_size as int,
            ) is None,
        },
{
    let ghost region: Seq<u8> = base64_region(file@, offset as int, max_bytes as int);
    let ghost n: int = delimiter_index(region, delimiter);
    let avail: usize = if offset >= file.len() {
        0
    } else if max_bytes < file.len() - offset {
        max_bytes
    } else {
        file.len() - offset
    };
    assert(avail == region.len());
    let mut end: usize = 0;
    while end < avail && file[offset + end] != delimiter
        invariant
            end <= avail,
            avail == region.len(),
            region == base64_region(file@, offset as int, max_bytes as int),
            offset + avail <= file.len() || avail == 0,
            forall|j: int| 0 <= j < end ==> region[j] != delimiter,
        decreases avail - end,
    {
        end += 1;
    }
    proof {
        lemma_delimiter_index(region, delimiter, end as int);
    }
    if end == avail {
        return Err(JdvrifError::CorruptFile);
    }
    let ghost text: Seq<u8> = region.take(end as int);
    let mut out: Vec<u8> = Vec::new();
    let mut at: usize = 0;
    let mut saw_padding: bool = false;
    assert(text.take(0) =~= base64_encode(Seq::<u8>::empty()));
    while at < end
        invariant
            at <= end < avail,
            avail == region.len(),
            offset + avail <= file.len(),
            region == base64_region(file@, offset as int, max_bytes as int),
            n == end,
            n == delimiter_index(region, delimiter),
            text == region.take(end as int),
            text.take(at as int) == base64_encode(out@),
            out@.len() <= expected_decoded_size,
            !saw_padding ==> out@.len() % 3 == 0,
            saw_padding ==> out@.len() % 3 != 0,
        decreases end - at,
    {
        proof {
            lemma_encode_len(out@);
        }
        let ghost done: Seq<u8> = out@;
        if saw_padding || end - at < 4 {
            proof {
                assert forall|b: Seq<u8>| base64_encode(b) != text by {
                    lemma_refuse_early(b, text, done, at as int);
                }
            }
            return Err(JdvrifError::CorruptFile);
        }
        let i: usize = offset + at;
        let ghost q: Seq<u8> = seq![file@[i as int], file@[i + 1], file@[i + 2], file@[i + 3]];
        assert(text.subrange(at as int, at + 4) =~= q);
        let piece: Vec<u8> = match decode_quartet(file[i], file[i + 1], file[i + 2], file[i + 3]) {
            Some(piece) => piece,
            None => {
                proof {
                    assert forall|b: Seq<u8>| base64_encode(b) == text implies false by {
                        let t = lemma_quartet_at(b, text, done, at as int);
                    }
                }
                return Err(JdvrifError::CorruptFile);
            },
        };
        if piece.len() > expected_decoded_size - out.len() {
            proof {
                assert forall|b: Seq<u8>| base64_encode(b) == text implies b.len()
                    != expected_decoded_size by {
                    let t = lemma_quartet_at(b, text, done, at as int);
                    lemma_quartet_unique(t, piece@);
                }
            }
            return Err(JdvrifError::CorruptFile);
        }
        proof {
            lemma_encode_append(done, piece@);
            assert(text.take(at + 4) =~= text.take(at as int) + q);
        }
        append(&mut out, &piece);
        saw_padding = piece.len() < 3;
        at += 4;
    }
    assert(text.take(at as int) =~= text);
    if out.len() != expected_decoded_size {
        proof {
            assert forall|b: Seq<u8>| base64_encode(b) == text implies b.len()
                != expected_decoded_size by {
                law_base64_decodes_uniquely(b, out@);
            }
        }
        return Err(JdvrifError::CorruptFile);
    }
    proof {
        let found = base64_before(
            file@,
            offset as int,
            delimiter,
            max_bytes as int,
            expected_decoded_size as int,
        );
        assert(is_base64_before(file@, offset as int, delimiter, max_bytes as int, out@));
        law_base64_decodes_uniquely(found->0, out@);
    }
    Ok(out)
}

proof fn lemma_encode_append(done: Seq<u8>, piece: Seq<u8>)
    requires
        done.len() % 3 == 0,
        1 <= piece.len() <= 3,
    ensures
        base64_encode(done + piece) == base64_encode(done) + base64_quartet(piece),
{
    let k = done.len() as int / 3;
    lemma_encode_split(done + piece, k);
    assert((done + piece).take(3 * k) =~= done);
    assert((done + piece).skip(3 * k) =~= piece);
}

/// Nothing can follow a padded quartet, and no quartet is cut short.
proof fn lemma_refuse_early(b: Seq<u8>, text: Seq<u8>, done: Seq<u8>, at: int)
    requires
        0 <= at < text.len(),
        text.take(at) == base64_encode(done),
        done.len() % 3 != 0 || text.len() - at < 4,
    ensures
        base64_encode(b) != text,
{
    lemma_encode_len(b);
    lemma_encode_len(done);
    if base64_encode(b) == text && done.len() % 3 != 0 {
        // The padded quartet ends the text of `done`, but not that of `b`.
        let k = (done.len() as int + 2) / 3;
        assert(at == 4 * k);
        assert(3 * k <= b.len());
        lemma_encode_split(b, k);
        lemma_encode_len(b.take(3 * k));
        assert(base64_encode(b.take(3 * k)) =~= text.take(at));
        law_base64_decodes_uniquely(b.take(3 * k), done);
    }
}

/// The quartet that follows whole triples belongs to the bytes that follow them.
proof fn lemma_quartet_at(b: Seq<u8>, text: Seq<u8>, done: Seq<u8>, at: int) -> (t: Seq<u8>)
    requires
        base64_encode(b) == text,
        0 <= at,
        at + 4 <= text.len(),
        done.len() % 3 == 0,
        text.take(at) == base64_encode(done),
    ensures
        1 <= t.len() <= 3,
        base64_quartet(t) == text.subrange(at, at + 4),
        done.len() + t.len() <= b.len(),
{
    lemma_encode_len(b);
    lemma_encode_len(done);
    let k = done.len() as int / 3;
    assert(at == 4 * k);
    lemma_encode_split(b, k);
    lemma_encode_len(b.take(3 * k));
    let rest = b.skip(3 * k);
    assert(rest.len() > 0);
    let t = if rest.len() <= 3 {
        rest
    } else {
        rest.take(3)
    };
    assert(base64_encode(rest).take(4) =~= base64_quartet(t));
    assert(text.subrange(at, at + 4) =~= base64_encode(rest).take(4));
    t
}

} // verus!
