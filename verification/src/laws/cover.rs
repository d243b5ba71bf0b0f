//! Cover images by their headers, and what is made of them.

use super::extraction::number_at;
use crate::jpeg_preprocess::{
    cover_error, cover_transform, empty_inspection, empty_prescan, exif_orientation,
    inspect_from, inspect_segment, inspection, lemma_marker_step, marker_step,
    orientation_in_entries, prescan, prescan_from, prescan_segment, quality_of_sum, skip_fill,
    stands_alone, sum8, tiff16, tiff32, transform_op, transformed_error, Inspection, JpegPrescan,
    MarkerStep, dqt_tables,
};
use crate::runtime::JdvrifError;
use vstd::prelude::*;

verus! {

/// A segment with this marker stands at `s` and ends in front of `end`.
pub open spec fn segment_at(jpg: Seq<u8>, s: int, marker: u8, end: int) -> bool {
    &&& 0 <= s
    &&& s + 4 <= end <= jpg.len()
    &&& jpg[s] == 0xFF
    &&& jpg[s + 1] == marker
    &&& end == s + 2 + number_at(jpg, s + 2)
}

/// Markers that a segment follows: not fill, not a marker that stands alone, and
/// not the beginning of the image data.
pub open spec fn begins_segment(marker: u8) -> bool {
    !(marker == 0x00 || marker == 0x01 || 0xD0 <= marker <= 0xDA || marker == 0xFF)
}

/// The marker of a frame header: 0xC0 to 0xCF, but for the three that are not.
pub open spec fn begins_frame(marker: u8) -> bool {
    0xC0 <= marker <= 0xCF && marker != 0xC4 && marker != 0xC8 && marker != 0xCC
}

/// The image begins with these segments, one behind the other: each ends where the
/// next begins.
pub open spec fn has_segments(jpg: Seq<u8>, starts: Seq<int>) -> bool {
    &&& jpg.len() >= 4
    &&& jpg[0] == 0xFF
    &&& jpg[1] == 0xD8
    &&& starts.len() >= 1
    &&& starts[0] == 2
    &&& forall|i: int|
        0 <= i < starts.len() - 1 ==> {
            &&& #[trigger] segment_at(jpg, starts[i], jpg[starts[i] + 1], starts[i + 1])
            &&& begins_segment(jpg[starts[i] + 1])
        }
}

proof fn lemma_step(jpg: Seq<u8>, s: int, end: int, need: int)
    requires
        segment_at(jpg, s, jpg[s + 1], end),
        begins_segment(jpg[s + 1]),
        0 < need <= 4,
    ensures
        marker_step(jpg, s, need) == (MarkerStep::Segment {
            marker: jpg[s + 1],
            at: s + 1,
            payload: s + 4,
            end,
        }),
{
    assert(skip_fill(jpg, s + 1) == s + 1);
    assert(skip_fill(jpg, s) == s + 1);
    assert(!stands_alone(jpg[s + 1]));
}

proof fn lemma_offset_stays(jpg: Seq<u8>, pos: int, known: Inspection)
    requires
        known.offset != 0,
    ensures
        inspect_from(jpg, pos, known) matches Some(found) ==> found.offset == known.offset,
    decreases jpg.len() - pos,
{
    if pos >= 0 {
        lemma_marker_step(jpg, pos, 2);
        match marker_step(jpg, pos, 2) {
            MarkerStep::Alone { next } => lemma_offset_stays(jpg, next, known),
            MarkerStep::Segment { marker, at, payload, end } => {
                match inspect_segment(jpg, known, marker, at, payload, end) {
                    None => {},
                    Some(more) => lemma_offset_stays(jpg, end, more),
                }
            },
            _ => {},
        }
    }
}

proof fn lemma_first_table(jpg: Seq<u8>, starts: Seq<int>, i: int, known: Inspection)
    requires
        has_segments(jpg, starts),
        starts.len() >= 2,
        0 <= i < starts.len() - 1,
        forall|m: int|
            0 <= m < starts.len() - 2 ==> jpg[#[trigger] starts[m] + 1] != 0xDB,
        jpg[starts[starts.len() - 2] + 1] == 0xDB,
        starts[starts.len() - 2] <= 32766,
        known.offset == 0,
    ensures
        inspect_from(jpg, starts[i], known) matches Some(found) ==> found.offset
            == starts[starts.len() - 2],
    decreases starts.len() - i,
{
    let s = starts[i];
    let end = starts[i + 1];
    assert(segment_at(jpg, starts[i], jpg[starts[i] + 1], starts[i + 1]));
    lemma_step(jpg, s, end, 2);
    match inspect_segment(jpg, known, jpg[s + 1], s + 1, s + 4, end) {
        None => {},
        Some(more) => {
            if i == starts.len() - 2 {
                assert(s >= 2) by {
                    lemma_starts(jpg, starts, i);
                }
                lemma_offset_stays(jpg, end, more);
            } else {
                lemma_first_table(jpg, starts, i + 1, more);
            }
        },
    }
}

proof fn lemma_starts(jpg: Seq<u8>, starts: Seq<int>, i: int)
    requires
        has_segments(jpg, starts),
        0 <= i < starts.len(),
    ensures
        starts[i] >= 2,
    decreases i,
{
    if i > 0 {
        lemma_starts(jpg, starts, i - 1);
        assert(segment_at(jpg, starts[i - 1], jpg[starts[i - 1] + 1], starts[i - 1 + 1]));
    }
}

/// A usable transformed image is cut at the first of its quantization tables, and
/// at no later one: the segment at which the cut stands is a table, and no segment
/// in front of it is. So every table that the image has is kept.
pub proof fn law_cut_at_the_first_table(jpg: Seq<u8>, starts: Seq<int>, for_bluesky: bool)
    requires
        has_segments(jpg, starts),
        starts.len() >= 2,
        jpg[starts[starts.len() - 2] + 1] == 0xDB,
        forall|m: int|
            0 <= m < starts.len() - 2 ==> jpg[#[trigger] starts[m] + 1] != 0xDB,
        starts[starts.len() - 2] <= 32766,
        transformed_error(jpg, for_bluesky) is None,
    ensures
        inspection(jpg).offset == starts[starts.len() - 2],
{
    lemma_first_table(jpg, starts, 0, empty_inspection());
    lemma_starts(jpg, starts, starts.len() - 2);
}

/// Where the cut stands, a quantization table begins: its marker follows the fill
/// byte there.
pub proof fn law_cut_at_a_table(jpg: Seq<u8>)
    requires
        inspection(jpg).offset != 0,
    ensures
        0 < inspection(jpg).offset <= 32766,
        inspection(jpg).offset + 1 < jpg.len(),
        jpg[inspection(jpg).offset + 1] == 0xDB,
{
    lemma_cut_at_a_table(jpg, 2, empty_inspection());
}

proof fn lemma_cut_at_a_table(jpg: Seq<u8>, pos: int, known: Inspection)
    requires
        pos >= 2,
        known.offset == 0 || 0 < known.offset <= 32766 && known.offset + 1 < jpg.len()
            && jpg[known.offset + 1] == 0xDB,
    ensures
        inspect_from(jpg, pos, known) matches Some(found) ==> found.offset == 0 || 0 < found.offset
            <= 32766 && found.offset + 1 < jpg.len() && jpg[found.offset + 1] == 0xDB,
    decreases jpg.len() - pos,
{
    lemma_marker_step(jpg, pos, 2);
    match marker_step(jpg, pos, 2) {
        MarkerStep::Alone { next } => lemma_cut_at_a_table(jpg, next, known),
        MarkerStep::Segment { marker, at, payload, end } => {
            match inspect_segment(jpg, known, marker, at, payload, end) {
                None => {},
                Some(more) => lemma_cut_at_a_table(jpg, end, more),
            }
        },
        _ => {},
    }
}

/// The segments of an image up to its image data: quantization tables of 64 entries
/// of one byte, one to a segment, one frame header at segment `f` and whatever else.
pub open spec fn is_plain_image(jpg: Seq<u8>, starts: Seq<int>, f: int) -> bool {
    &&& has_segments(jpg, starts)
    &&& starts.last() + 2 <= jpg.len()
    &&& jpg[starts.last()] == 0xFF
    &&& jpg[starts.last() + 1] == 0xDA
    &&& 0 <= f < starts.len() - 1
    &&& begins_frame(jpg[starts[f] + 1])
    &&& number_at(jpg, starts[f] + 2) >= 11
    &&& 1 <= jpg[starts[f] + 9] <= (number_at(jpg, starts[f] + 2) - 8) / 3
    &&& forall|i: int|
        0 <= i < starts.len() - 1 && i != f ==> !begins_frame(jpg[#[trigger] starts[i] + 1])
    &&& forall|i: int|
        0 <= i < starts.len() - 1 && jpg[#[trigger] starts[i] + 1] == 0xDB ==> number_at(
            jpg,
            starts[i] + 2,
        ) == 67 && jpg[starts[i] + 4] < 4
}

/// What is known after the first `i` segments of a plain image.
spec fn seen_of(jpg: Seq<u8>, starts: Seq<int>, f: int, i: int, known: Inspection) -> bool {
    &&& known.tables.len() == 4
    &&& i <= f ==> known.selected is None && known.width == 0 && known.height == 0
    &&& i > f ==> {
        &&& known.selected == Some(jpg[starts[f] + 12] as int)
        &&& known.width == number_at(jpg, starts[f] + 7)
        &&& known.height == number_at(jpg, starts[f] + 5)
    }
}

proof fn lemma_plain_image(
    jpg: Seq<u8>,
    starts: Seq<int>,
    f: int,
    t: int,
    i: int,
    known: Inspection,
)
    requires
        is_plain_image(jpg, starts, f),
        0 <= i < starts.len(),
        seen_of(jpg, starts, f, i, known),
        0 <= t < starts.len() - 1,
        jpg[starts[t] + 1] == 0xDB,
        forall|m: int|
            t < m < starts.len() - 1 && jpg[#[trigger] starts[m] + 1] == 0xDB ==> jpg[starts[m]
                + 4] != jpg[starts[t] + 4],
        i > t ==> known.tables[jpg[starts[t] + 4] as int] == Some(
            quality_of_sum(sum8(jpg, starts[t] + 5, 64)) as i32,
        ),
    ensures
        inspect_from(jpg, starts[i], known) matches Some(found) && seen_of(
            jpg,
            starts,
            f,
            starts.len() - 1,
            found,
        ) && found.tables[jpg[starts[t] + 4] as int] == Some(
            quality_of_sum(sum8(jpg, starts[t] + 5, 64)) as i32,
        ),
    decreases starts.len() - i,
{
    let s = starts[i];
    lemma_starts(jpg, starts, i);
    if i == starts.len() - 1 {
        assert(skip_fill(jpg, s + 1) == s + 1);
        assert(skip_fill(jpg, s) == s + 1);
        assert(marker_step(jpg, s, 2) is End);
    } else {
        let end = starts[i + 1];
        assert(segment_at(jpg, starts[i], jpg[starts[i] + 1], starts[i + 1]));
        lemma_step(jpg, s, end, 2);
        let marker = jpg[s + 1];
        if marker == 0xDB {
            assert(end == s + 69);
            let id = jpg[s + 4] as int;
            let after = known.tables.update(id, Some(quality_of_sum(sum8(jpg, s + 5, 64)) as i32));
            assert(jpg[s + 4] / 16 == 0 && jpg[s + 4] as int % 16 == id);
            assert(dqt_tables(jpg, s + 69, end, after) == Some(after));
            assert(dqt_tables(jpg, s + 4, end, known.tables) == Some(after));
        }
        match inspect_segment(jpg, known, marker, s + 1, s + 4, end) {
            None => {
                assert(false);
            },
            Some(more) => {
                lemma_plain_image(jpg, starts, f, t, i + 1, more);
            },
        }
    }
}

/// Of a plain image, the inspection gives the dimensions that its frame header
/// records, and the quality of the table that its first component selects: the last
/// table that was defined under that number.
pub proof fn law_inspection_reads_the_frame(jpg: Seq<u8>, starts: Seq<int>, f: int, t: int)
    requires
        is_plain_image(jpg, starts, f),
        0 <= t < starts.len() - 1,
        jpg[starts[t] + 1] == 0xDB,
        jpg[starts[t] + 4] == jpg[starts[f] + 12],
        forall|m: int|
            t < m < starts.len() - 1 && jpg[#[trigger] starts[m] + 1] == 0xDB ==> jpg[starts[m]
                + 4] != jpg[starts[t] + 4],
    ensures
        inspection(jpg).width == number_at(jpg, starts[f] + 7),
        inspection(jpg).height == number_at(jpg, starts[f] + 5),
        inspection(jpg).quality == Some(quality_of_sum(sum8(jpg, starts[t] + 5, 64)) as i32),
{
    lemma_plain_image(jpg, starts, f, t, 0, empty_inspection());
}

proof fn lemma_dimensions_stay(jpg: Seq<u8>, pos: int, known: JpegPrescan)
    requires
        known.width != 0,
    ensures
        prescan_from(jpg, pos, known) matches Some(scan) ==> scan.width == known.width
            && scan.height == known.height && scan.components == known.components,
    decreases jpg.len() - pos,
{
    if pos >= 0 {
        lemma_marker_step(jpg, pos, 4);
        match marker_step(jpg, pos, 4) {
            MarkerStep::Alone { next } => lemma_dimensions_stay(jpg, next, known),
            MarkerStep::Segment { marker, at, payload, end } => {
                match prescan_segment(jpg, known, marker, at, payload, end) {
                    None => {},
                    Some(scan) => lemma_dimensions_stay(jpg, end, scan),
                }
            },
            _ => {},
        }
    }
}

proof fn lemma_first_frame(jpg: Seq<u8>, starts: Seq<int>, i: int, known: JpegPrescan)
    requires
        has_segments(jpg, starts),
        starts.len() >= 2,
        0 <= i < starts.len() - 1,
        begins_frame(jpg[starts[starts.len() - 2] + 1]),
        number_at(jpg, starts[starts.len() - 2] + 2) >= 8,
        number_at(jpg, starts[starts.len() - 2] + 7) > 0,
        forall|m: int|
            0 <= m < starts.len() - 2 ==> !begins_frame(jpg[#[trigger] starts[m] + 1]),
        known.width == 0,
    ensures
        prescan_from(jpg, starts[i], known) matches Some(scan) ==> {
            let s = starts[starts.len() - 2];
            &&& scan.width == number_at(jpg, s + 7)
            &&& scan.height == number_at(jpg, s + 5)
            &&& scan.components == jpg[s + 9]
        },
    decreases starts.len() - i,
{
    let s = starts[i];
    let end = starts[i + 1];
    assert(segment_at(jpg, starts[i], jpg[starts[i] + 1], starts[i + 1]));
    lemma_step(jpg, s, end, 4);
    match prescan_segment(jpg, known, jpg[s + 1], s + 1, s + 4, end) {
        None => {},
        Some(scan) => {
            if i == starts.len() - 2 {
                lemma_dimensions_stay(jpg, end, scan);
            } else {
                lemma_first_frame(jpg, starts, i + 1, scan);
            }
        },
    }
}

/// A cover whose headers can be read has the dimensions and components that its
/// first frame header records.
pub proof fn law_prescan_reads_the_first_frame(jpg: Seq<u8>, starts: Seq<int>)
    requires
        has_segments(jpg, starts),
        starts.len() >= 2,
        begins_frame(jpg[starts[starts.len() - 2] + 1]),
        number_at(jpg, starts[starts.len() - 2] + 2) >= 8,
        number_at(jpg, starts[starts.len() - 2] + 7) > 0,
        forall|m: int|
            0 <= m < starts.len() - 2 ==> !begins_frame(jpg[#[trigger] starts[m] + 1]),
    ensures
        prescan(jpg) matches Some(scan) ==> {
            let s = starts[starts.len() - 2];
            &&& scan.width == number_at(jpg, s + 7)
            &&& scan.height == number_at(jpg, s + 5)
            &&& scan.components == jpg[s + 9]
        },
{
    lemma_first_frame(jpg, starts, 0, empty_prescan());
}

/// Two bytes of a TIFF structure as a number, in its byte order.
pub open spec fn tiff_number(tiff: Seq<u8>, i: int, little_endian: bool) -> int {
    if little_endian {
        tiff[i] + 256 * tiff[i + 1]
    } else {
        256 * tiff[i] + tiff[i + 1]
    }
}

/// A TIFF structure: its byte order, the number 42, and a first directory at `d`.
pub open spec fn is_tiff(tiff: Seq<u8>, little_endian: bool, d: int) -> bool {
    &&& tiff.len() >= 8
    &&& if little_endian {
        tiff[0] == 0x49 && tiff[1] == 0x49
    } else {
        tiff[0] == 0x4D && tiff[1] == 0x4D
    }
    &&& tiff_number(tiff, 2, little_endian) == 42
    &&& if little_endian {
        d == tiff_number(tiff, 4, true) + 65536 * tiff_number(tiff, 6, true)
    } else {
        d == 65536 * tiff_number(tiff, 4, false) + tiff_number(tiff, 6, false)
    }
}

proof fn lemma_entries(tiff: Seq<u8>, pos: int, count: nat, little_endian: bool, k: int)
    requires
        0 <= pos,
        0 <= k < count,
        pos + 12 * k + 12 <= tiff.len(),
        tiff_number(tiff, pos + 12 * k, little_endian) == 0x112,
        forall|m: int|
            0 <= m < k ==> #[trigger] tiff_number(tiff, pos + 12 * m, little_endian) != 0x112,
    ensures
        orientation_in_entries(tiff, pos, count, little_endian) == Some(
            tiff_number(tiff, pos + 12 * k + 8, little_endian) as u16,
        ),
    decreases count,
{
    if k > 0 {
        assert(tiff_number(tiff, pos + 12 * 0, little_endian) != 0x112);
        assert forall|m: int| 0 <= m < k - 1 implies #[trigger] tiff_number(
            tiff,
            (pos + 12) + 12 * m,
            little_endian,
        ) != 0x112 by {
            assert(tiff_number(tiff, pos + 12 * (m + 1), little_endian) != 0x112);
        }
        lemma_entries(tiff, pos + 12, (count - 1) as nat, little_endian, k - 1);
    }
}

/// The orientation of an image is the value of the first entry of its directory
/// that has the tag 0x0112, in either byte order.
pub proof fn law_orientation_is_its_entry(tiff: Seq<u8>, little_endian: bool, d: int, k: int)
    requires
        is_tiff(tiff, little_endian, d),
        0 <= d,
        0 <= k,
        d + 2 + 12 * k + 12 <= tiff.len(),
        k < tiff_number(tiff, d, little_endian),
        tiff_number(tiff, d + 2 + 12 * k, little_endian) == 0x112,
        forall|m: int|
            0 <= m < k ==> #[trigger] tiff_number(tiff, d + 2 + 12 * m, little_endian) != 0x112,
    ensures
        exif_orientation(tiff) == Some(
            tiff_number(tiff, d + 2 + 12 * k + 8, little_endian) as u16,
        ),
{
    assert(tiff16(tiff, 2, little_endian) == 42);
    assert(tiff32(tiff, 4, little_endian) == d);
    assert(tiff16(tiff, d, little_endian) == tiff_number(tiff, d, little_endian));
    lemma_entries(tiff, d + 2, tiff_number(tiff, d, little_endian) as nat, little_endian, k);
}

proof fn lemma_no_entry(tiff: Seq<u8>, pos: int, count: nat, little_endian: bool)
    requires
        0 <= pos,
        forall|m: int|
            0 <= m < count && pos + 12 * m + 12 <= tiff.len() ==> #[trigger] tiff_number(
                tiff,
                pos + 12 * m,
                little_endian,
            ) != 0x112,
    ensures
        orientation_in_entries(tiff, pos, count, little_endian) is None,
    decreases count,
{
    if count > 0 && pos + 12 <= tiff.len() {
        assert(tiff_number(tiff, pos + 12 * 0, little_endian) != 0x112);
        assert forall|m: int|
            0 <= m < count - 1 && (pos + 12) + 12 * m + 12 <= tiff.len() implies #[trigger] tiff_number(
            tiff,
            (pos + 12) + 12 * m,
            little_endian,
        ) != 0x112 by {
            assert(tiff_number(tiff, pos + 12 * (m + 1), little_endian) != 0x112);
        }
        lemma_no_entry(tiff, pos + 12, (count - 1) as nat, little_endian);
    }
}

/// There is no orientation without a byte order, the number 42, a directory in reach, and
/// an entry with the tag among those that are there in full.
pub proof fn law_no_orientation(tiff: Seq<u8>, little_endian: bool, d: int)
    ensures
        tiff.len() < 8 ==> exif_orientation(tiff) is None,
        !(tiff[0] == 0x49 && tiff[1] == 0x49) && !(tiff[0] == 0x4D && tiff[1] == 0x4D)
            ==> exif_orientation(tiff) is None,
        tiff[0] == 0x49 && tiff[1] == 0x49 && tiff_number(tiff, 2, true) != 42
            ==> exif_orientation(tiff) is None,
        tiff[0] == 0x4D && tiff[1] == 0x4D && tiff_number(tiff, 2, false) != 42
            ==> exif_orientation(tiff) is None,
        is_tiff(tiff, little_endian, d) && d + 2 > tiff.len() ==> exif_orientation(tiff) is None,
        is_tiff(tiff, little_endian, d) && 0 <= d && (forall|m: int|
            0 <= m < tiff_number(tiff, d, little_endian) && d + 2 + 12 * m + 12 <= tiff.len()
                ==> #[trigger] tiff_number(tiff, d + 2 + 12 * m, little_endian) != 0x112)
            ==> exif_orientation(tiff) is None,
{
    assert(tiff16(tiff, 2, true) == tiff_number(tiff, 2, true));
    assert(tiff16(tiff, 2, false) == tiff_number(tiff, 2, false));
    if is_tiff(tiff, little_endian, d) {
        assert(tiff32(tiff, 4, little_endian) == d);
        assert(tiff16(tiff, d, little_endian) == tiff_number(tiff, d, little_endian));
        if 0 <= d && (forall|m: int|
            0 <= m < tiff_number(tiff, d, little_endian) && d + 2 + 12 * m + 12 <= tiff.len()
                ==> #[trigger] tiff_number(tiff, d + 2 + 12 * m, little_endian) != 0x112) {
            lemma_no_entry(
                tiff,
                d + 2,
                tiff_number(tiff, d, little_endian) as nat,
                little_endian,
            );
        }
    }
}

/// The transforms that undo the orientations, by the numbers that TurboJPEG has for
/// them: mirrored, turned around, flipped, transposed, a quarter turned, transposed
/// the other way, three quarters turned.
pub proof fn law_transforms(orientation: u16)
    ensures
        transform_op(orientation) == (if orientation == 2 {
            1int
        } else if orientation == 3 {
            6
        } else if orientation == 4 {
            2
        } else if orientation == 5 {
            3
        } else if orientation == 6 {
            5
        } else if orientation == 7 {
            4
        } else if orientation == 8 {
            7
        } else {
            0
        }),
{
}

/// A cover can be used exactly when it is from 400 to 4096 pixels wide and high and
/// has one component or three, and is refused for the first of these that fails.
pub proof fn law_usable_covers(jpg: Seq<u8>)
    requires
        jpg.len() > 0,
        prescan(jpg) is Some,
        prescan(jpg)->0.width > 0,
        prescan(jpg)->0.height > 0,
    ensures
        ({
            let w = prescan(jpg)->0.width;
            let h = prescan(jpg)->0.height;
            let c = prescan(jpg)->0.components;
            &&& cover_error(jpg) is None <==> 400 <= w <= 4096 && 400 <= h <= 4096 && (c == 1 || c
                == 3)
            &&& (cover_error(jpg) matches Some(e) && e is CoverTooSmall) <==> w < 400 || h < 400
            &&& (cover_error(jpg) matches Some(e) && e is CoverDimensions) <==> w >= 400 && h
                >= 400 && (w > 4096 || h > 4096)
        }),
{
    let w = prescan(jpg)->0.width;
    let h = prescan(jpg)->0.height;
    if w <= 4096 && h <= 4096 {
        assert(w * h <= 4096 * 4096) by (nonlinear_arith)
            requires
                0 < w <= 4096,
                0 < h <= 4096,
        ;
    }
}

/// A cover without readable headers, or without dimensions, is refused as such.
pub proof fn law_unreadable_covers(jpg: Seq<u8>)
    ensures
        jpg.len() == 0 <==> cover_error(jpg) == Some(JdvrifError::CoverEmpty),
        jpg.len() > 0 && (prescan(jpg) is None || prescan(jpg)->0.width == 0
            || prescan(jpg)->0.height == 0) ==> cover_error(jpg) == Some(JdvrifError::CoverHeader),
        jpg.len() >= 2 && !(jpg[0] == 0xFF && jpg[1] == 0xD8) ==> prescan(jpg) is None,
{
}

/// A cover is put through the transform that undoes its orientation, and through none
/// without one.
pub proof fn law_transform_of_the_orientation(jpg: Seq<u8>, progressive: bool)
    ensures
        prescan(jpg)->0.orientation matches Some(orientation) ==> cover_transform(
            jpg,
            progressive,
        ).op == transform_op(orientation),
        prescan(jpg)->0.orientation is None ==> cover_transform(jpg, progressive).op == 0,
{
}

/// The metadata of a cover is dropped and its incomplete blocks are trimmed,
/// whatever the mode; a progressive image is asked for in addition.
pub proof fn law_transform_options(jpg: Seq<u8>)
    ensures
        cover_transform(jpg, false).options == 66,
        cover_transform(jpg, true).options == 98,
        cover_transform(jpg, true).op == cover_transform(jpg, false).op,
{
}

/// A transformed image can be used exactly when it is at least 400 pixels wide and
/// high, of a quality up to 97, has its tables in reach, and is no larger than 4 MiB
/// from there on, or 2,000,000 bytes for Bluesky.
pub proof fn law_usable_transformed_images(jpg: Seq<u8>, for_bluesky: bool)
    requires
        inspection(jpg).width > 0,
        inspection(jpg).height > 0,
    ensures
        ({
            let info = inspection(jpg);
            let rest = jpg.len() - info.offset;
            &&& transformed_error(jpg, for_bluesky) is None <==> info.width >= 400 && info.height
                >= 400 && (info.quality matches Some(q) && q <= 97) && 0 < info.offset
                < jpg.len() && rest <= 4194304 && (for_bluesky ==> rest <= 2000000)
            &&& (transformed_error(jpg, for_bluesky) matches Some(e) && e is CoverQuality)
                <==> info.width >= 400 && info.height >= 400 && (info.quality matches Some(q) && q
                > 97)
        }),
{
}

} // verus!
