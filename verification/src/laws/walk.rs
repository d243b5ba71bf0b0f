//! The walk over the markers of an image, fill bytes and lone markers included.

use super::cover::begins_frame;
use super::extraction::number_at;
use crate::jpeg_preprocess::{
    empty_inspection, empty_prescan, exif_orientation, inspect_from, inspect_segment, inspection,
    is_sof, lemma_marker_step, marker_step, prescan, prescan_from, prescan_segment, skip_fill,
    stands_alone, Inspection, JpegPrescan, MarkerStep, EXIF_SIG,
};
use vstd::prelude::*;

verus! {

/// Markers without a segment: zero, one, the restart markers, the beginning and the end
/// of the image.
pub open spec fn is_lone(marker: u8) -> bool {
    marker == 0x00 || marker == 0x01 || 0xD0 <= marker <= 0xD9
}

/// From `s` on there are fill bytes up to the marker at `m`, which does not begin the
/// image data; the next marker is looked for from `next` on, behind the segment where
/// there is one.
pub open spec fn is_step(jpg: Seq<u8>, s: int, m: int, next: int) -> bool {
    &&& 0 <= s <= m < jpg.len()
    &&& s + 4 <= jpg.len()
    &&& forall|j: int| s <= j < m ==> #[trigger] jpg[j] == 0xFF
    &&& jpg[m] != 0xFF
    &&& jpg[m] != 0xDA
    &&& if is_lone(jpg[m]) {
        next == m + 1
    } else {
        &&& m + 3 <= jpg.len()
        &&& number_at(jpg, m + 1) >= 2
        &&& next == m + 1 + number_at(jpg, m + 1)
        &&& next <= jpg.len()
    }
}

/// The walk over an image: where it looks, and the markers that it meets.
pub open spec fn is_walk(jpg: Seq<u8>, starts: Seq<int>, marks: Seq<int>) -> bool {
    &&& jpg.len() >= 4
    &&& jpg[0] == 0xFF
    &&& jpg[1] == 0xD8
    &&& starts.len() == marks.len() + 1
    &&& starts[0] == 2
    &&& forall|i: int|
        0 <= i < marks.len() ==> #[trigger] is_step(jpg, starts[i], marks[i], starts[i + 1])
}

proof fn lemma_fill(jpg: Seq<u8>, s: int, m: int)
    requires
        0 <= s <= m < jpg.len(),
        forall|j: int| s <= j < m ==> #[trigger] jpg[j] == 0xFF,
        jpg[m] != 0xFF,
    ensures
        skip_fill(jpg, s) == m,
    decreases m - s,
{
    if s < m {
        assert(jpg[s] == 0xFF);
        lemma_fill(jpg, s + 1, m);
    }
}

proof fn lemma_is_step(jpg: Seq<u8>, s: int, m: int, next: int, need: int)
    requires
        is_step(jpg, s, m, next),
        0 < need <= 4,
    ensures
        is_lone(jpg[m]) ==> marker_step(jpg, s, need) == (MarkerStep::Alone { next }),
        !is_lone(jpg[m]) ==> marker_step(jpg, s, need) == (MarkerStep::Segment {
            marker: jpg[m],
            at: m,
            payload: m + 3,
            end: next,
        }),
{
    lemma_fill(jpg, s, m);
}

proof fn lemma_offset_is_kept(jpg: Seq<u8>, pos: int, known: Inspection)
    requires
        known.offset != 0 || pos > 32767,
    ensures
        inspect_from(jpg, pos, known) matches Some(found) ==> found.offset == known.offset,
    decreases jpg.len() - pos,
{
    if pos >= 0 {
        lemma_marker_step(jpg, pos, 2);
        match marker_step(jpg, pos, 2) {
            MarkerStep::Alone { next } => lemma_offset_is_kept(jpg, next, known),
            MarkerStep::Segment { marker, at, payload, end } => {
                match inspect_segment(jpg, known, marker, at, payload, end) {
                    None => {},
                    Some(more) => lemma_offset_is_kept(jpg, end, more),
                }
            },
            _ => {},
        }
    }
}

proof fn lemma_first_table_of_the_walk(
    jpg: Seq<u8>,
    starts: Seq<int>,
    marks: Seq<int>,
    i: int,
    known: Inspection,
)
    requires
        is_walk(jpg, starts, marks),
        0 <= i < marks.len(),
        starts[i] >= 2,
        forall|k: int| 0 <= k < marks.len() - 1 ==> jpg[#[trigger] marks[k]] != 0xDB,
        jpg[marks[marks.len() - 1]] == 0xDB,
        known.offset == 0,
    ensures
        inspect_from(jpg, starts[i], known) matches Some(found) ==> found.offset == if marks[
        marks.len() - 1] <= 32767 {
            marks[marks.len() - 1] - 1
        } else {
            0
        },
    decreases marks.len() - i,
{
    let s = starts[i];
    let m = marks[i];
    let next = starts[i + 1];
    assert(is_step(jpg, starts[i], marks[i], starts[i + 1]));
    lemma_is_step(jpg, s, m, next, 2);
    if is_lone(jpg[m]) {
        lemma_first_table_of_the_walk(jpg, starts, marks, i + 1, known);
    } else {
        match inspect_segment(jpg, known, jpg[m], m, m + 3, next) {
            None => {},
            Some(more) => {
                if i == marks.len() - 1 {
                    lemma_offset_is_kept(jpg, next, more);
                } else {
                    lemma_first_table_of_the_walk(jpg, starts, marks, i + 1, more);
                }
            },
        }
    }
}

/// An image whose headers can be read is cut in front of the first quantization table
/// that the walk over its markers meets; where that lies beyond the first 32 KiB, it is
/// not cut at all.
pub proof fn law_cut_at_the_first_table_of_the_walk(
    jpg: Seq<u8>,
    starts: Seq<int>,
    marks: Seq<int>,
)
    requires
        is_walk(jpg, starts, marks),
        marks.len() > 0,
        jpg[marks[marks.len() - 1]] == 0xDB,
        forall|k: int| 0 <= k < marks.len() - 1 ==> jpg[#[trigger] marks[k]] != 0xDB,
        inspection(jpg).width != 0,
    ensures
        inspection(jpg).offset == if marks[marks.len() - 1] <= 32767 {
            marks[marks.len() - 1] - 1
        } else {
            0
        },
{
    lemma_first_table_of_the_walk(jpg, starts, marks, 0, empty_inspection());
    let k = marks.len() - 1;
    assert(is_step(jpg, starts[k], marks[k], starts[k + 1]));
    lemma_walk_goes_on(jpg, starts, marks, k);
}

proof fn lemma_walk_goes_on(jpg: Seq<u8>, starts: Seq<int>, marks: Seq<int>, i: int)
    requires
        is_walk(jpg, starts, marks),
        0 <= i < starts.len(),
    ensures
        starts[i] >= 2,
    decreases i,
{
    if i > 0 {
        lemma_walk_goes_on(jpg, starts, marks, i - 1);
        assert(is_step(jpg, starts[i - 1], marks[i - 1], starts[i - 1 + 1]));
    }
}

/// A frame header stands behind the marker at `m`: it has a width, and room for the
/// components that it announces.
pub open spec fn has_frame(jpg: Seq<u8>, m: int) -> bool {
    &&& begins_frame(jpg[m])
    &&& number_at(jpg, m + 1) >= 8
    &&& number_at(jpg, m + 6) > 0
    &&& 1 <= jpg[m + 8] <= (number_at(jpg, m + 1) - 8) / 3
}

/// An EXIF segment stands behind the marker at `m`, within the first 4 KiB: it begins
/// with "Exif" and two zeros.
pub open spec fn has_exif(jpg: Seq<u8>, m: int) -> bool {
    &&& jpg[m] == 0xE1
    &&& m + 1 <= 4096
    &&& number_at(jpg, m + 1) >= 8
    &&& jpg[m + 3] == 0x45
    &&& jpg[m + 4] == 0x78
    &&& jpg[m + 5] == 0x69
    &&& jpg[m + 6] == 0x66
    &&& jpg[m + 7] == 0x00
    &&& jpg[m + 8] == 0x00
}

/// The headers end here: with the file, or where the image data begin.
pub open spec fn ends_headers(jpg: Seq<u8>, at: int) -> bool {
    at + 4 > jpg.len() || jpg[at] == 0xFF && jpg[at + 1] == 0xDA
}

/// The orientation that the only EXIF segment, number `x`, gives; none without one.
pub open spec fn orientation_of(
    jpg: Seq<u8>,
    starts: Seq<int>,
    marks: Seq<int>,
    x: Option<int>,
) -> Option<u16> {
    match x {
        Some(k) => exif_orientation(jpg.subrange(marks[k] + 9, starts[k + 1])),
        None => None,
    }
}

proof fn lemma_exif_signature(jpg: Seq<u8>, m: int, next: int)
    requires
        0 <= m,
        m + 9 <= jpg.len(),
    ensures
        crate::common::occurs_at(jpg, EXIF_SIG@, m + 3) <==> jpg[m + 3] == 0x45 && jpg[m + 4]
            == 0x78 && jpg[m + 5] == 0x69 && jpg[m + 6] == 0x66 && jpg[m + 7] == 0x00 && jpg[m + 8]
            == 0x00,
{
    let sig: [u8; 6] = EXIF_SIG;
    let part = jpg.subrange(m + 3, m + 9);
    assert(sig@ =~= seq![0x45u8, 0x78u8, 0x69u8, 0x66u8, 0x00u8, 0x00u8]);
    assert(part[0] == jpg[m + 3] && part[1] == jpg[m + 4] && part[2] == jpg[m + 5] && part[3]
        == jpg[m + 6] && part[4] == jpg[m + 7] && part[5] == jpg[m + 8]);
    assert(sig@[0] == 0x45 && sig@[1] == 0x78 && sig@[2] == 0x69 && sig@[3] == 0x66 && sig@[4] == 0
        && sig@[5] == 0);
    if jpg[m + 3] == 0x45 && jpg[m + 4] == 0x78 && jpg[m + 5] == 0x69 && jpg[m + 6] == 0x66
        && jpg[m + 7] == 0x00 && jpg[m + 8] == 0x00 {
        assert(part =~= sig@);
    }
}

proof fn lemma_cover_headers(
    jpg: Seq<u8>,
    starts: Seq<int>,
    marks: Seq<int>,
    f: int,
    x: Option<int>,
    i: int,
    known: JpegPrescan,
)
    requires
        is_walk(jpg, starts, marks),
        ends_headers(jpg, starts[starts.len() - 1]),
        0 <= f < marks.len(),
        has_frame(jpg, marks[f]),
        forall|k: int| 0 <= k < f ==> !begins_frame(jpg[#[trigger] marks[k]]),
        x matches Some(k) ==> 0 <= k < marks.len() && has_exif(jpg, marks[k]),
        forall|k: int|
            0 <= k < marks.len() && x != Some(k) ==> !has_exif(jpg, #[trigger] marks[k]),
        0 <= i <= marks.len(),
        i <= f ==> known.width == 0 && known.height == 0 && known.components == 0,
        i > f ==> known.width == number_at(jpg, marks[f] + 6) && known.height == number_at(
            jpg,
            marks[f] + 4,
        ) && known.components == jpg[marks[f] + 8],
        known.orientation == (if x is Some && i > x->0 {
            orientation_of(jpg, starts, marks, x)
        } else {
            None
        }),
    ensures
        prescan_from(jpg, starts[i], known) matches Some(scan) && scan.width == number_at(
            jpg,
            marks[f] + 6,
        ) && scan.height == number_at(jpg, marks[f] + 4) && scan.components == jpg[marks[f] + 8]
            && scan.orientation == orientation_of(jpg, starts, marks, x),
    decreases marks.len() - i,
{
    lemma_walk_goes_on(jpg, starts, marks, i);
    let s = starts[i];
    if i == marks.len() {
        if s + 4 <= jpg.len() {
            assert(skip_fill(jpg, s + 1) == s + 1);
            assert(skip_fill(jpg, s) == s + 1);
        }
        assert(marker_step(jpg, s, 4) is End);
    } else {
        let m = marks[i];
        let next = starts[i + 1];
        assert(is_step(jpg, starts[i], marks[i], starts[i + 1]));
        lemma_is_step(jpg, s, m, next, 4);
        assert(is_sof(jpg[m]) == begins_frame(jpg[m]));
        if is_lone(jpg[m]) {
            lemma_cover_headers(jpg, starts, marks, f, x, i + 1, known);
        } else {
            if jpg[m] == 0xE1 && number_at(jpg, m + 1) >= 8 {
                lemma_exif_signature(jpg, m, next);
            }
            let scan = prescan_segment(jpg, known, jpg[m], m, m + 3, next);
            assert(scan is Some);
            if !(scan->0.width != 0 && scan->0.orientation is Some) {
                lemma_cover_headers(jpg, starts, marks, f, x, i + 1, scan->0);
            }
        }
    }
}

/// A cover with whole headers is read: it has the dimensions and components of its
/// first frame header, and the orientation of its EXIF segment, where it has one.
pub proof fn law_cover_headers(
    jpg: Seq<u8>,
    starts: Seq<int>,
    marks: Seq<int>,
    f: int,
    x: Option<int>,
)
    requires
        is_walk(jpg, starts, marks),
        ends_headers(jpg, starts[starts.len() - 1]),
        0 <= f < marks.len(),
        has_frame(jpg, marks[f]),
        forall|k: int| 0 <= k < f ==> !begins_frame(jpg[#[trigger] marks[k]]),
        x matches Some(k) ==> 0 <= k < marks.len() && has_exif(jpg, marks[k]),
        forall|k: int|
            0 <= k < marks.len() && x != Some(k) ==> !has_exif(jpg, #[trigger] marks[k]),
    ensures
        prescan(jpg) matches Some(scan) && scan.width == number_at(jpg, marks[f] + 6)
            && scan.height == number_at(jpg, marks[f] + 4) && scan.components == jpg[marks[f] + 8]
            && scan.orientation == orientation_of(jpg, starts, marks, x),
{
    lemma_cover_headers(jpg, starts, marks, f, x, 0, empty_prescan());
}

/// A segment that reaches beyond the file, or is shorter than its own length field,
/// makes the headers unreadable.
pub proof fn law_broken_segments(jpg: Seq<u8>, m: int)
    requires
        jpg.len() >= 6,
        jpg[0] == 0xFF,
        jpg[1] == 0xD8,
        2 <= m,
        m + 3 <= jpg.len(),
        forall|j: int| 2 <= j < m ==> #[trigger] jpg[j] == 0xFF,
        jpg[m] != 0xFF,
        jpg[m] != 0xDA,
        !is_lone(jpg[m]),
        number_at(jpg, m + 1) < 2 || m + 1 + number_at(jpg, m + 1) > jpg.len(),
    ensures
        prescan(jpg) is None,
        inspection(jpg).width == 0,
        inspection(jpg).offset == 0,
        inspection(jpg).quality is None,
{
    lemma_fill(jpg, 2, m);
    assert(!stands_alone(jpg[m]));
}

} // verus!
