//! Inspecting a cover image and choosing how it is prepared.

use crate::common::{
    be16, copy_range, le16, le32, be32, matches_at, occurs_at, read_be16, read_be32, read_le16,
    read_le32, span_has_range,
};
use crate::constants::MAX_IMAGE_SIZE_BLUESKY;
use crate::runtime::JdvrifError;
use vstd::prelude::*;
use vstd::slice::slice_subrange;

verus! {

pub const PROGRESSIVE_SOURCE_LIMIT: usize = 2 * 1024 * 1024;

pub const MAX_OPTIMIZED_IMAGE_SIZE: usize = 4 * 1024 * 1024;

pub const EXIF_SEARCH_LIMIT: usize = 4096;

pub const EXIF_HEADER_SIZE: usize = 6;

pub const TIFF_HEADER_SIZE: usize = 8;

pub const IFD_ENTRY_SIZE: usize = 12;

pub const DQT_SEARCH_LIMIT: usize = 32768;

pub const DQT_8BIT_TABLE_SIZE: usize = 64;

pub const DQT_16BIT_TABLE_SIZE: usize = 128;

pub const MIN_COVER_DIMENSION: i32 = 400;

pub const MAX_COVER_DIMENSION: i32 = 4096;

pub const MAX_COVER_PIXELS: u64 = 40_000_000;

pub const MAX_ALLOWED_QUALITY: i32 = 97;

pub const TAG_ORIENTATION: u16 = 0x0112;

pub const EXIF_SIG: [u8; 6] = [0x45, 0x78, 0x69, 0x66, 0x00, 0x00];

/// The sums of the standard luminance table scaled to each quality.
pub const STD_LUMINANCE_SUMS: [i32; 101] = [
    0, 16320, 16315, 15946, 15277, 14655, 14073, 13623, 13230, 12859, 12560, 12240, 11861, 11456,
    11081, 10714, 10360, 10027, 9679, 9368, 9056, 8680, 8331, 7995, 7668, 7376, 7084, 6823, 6562,
    6345, 6125, 5939, 5756, 5571, 5421, 5240, 5086, 4976, 4829, 4719, 4616, 4463, 4393, 4280, 4166,
    4092, 3980, 3909, 3835, 3755, 3688, 3621, 3541, 3467, 3396, 3323, 3247, 3170, 3096, 3021, 2952,
    2874, 2804, 2727, 2657, 2583, 2509, 2437, 2362, 2290, 2211, 2136, 2068, 1996, 1915, 1858, 1773,
    1692, 1620, 1552, 1477, 1398, 1326, 1251, 1179, 1109, 1031, 961, 884, 814, 736, 667, 592, 518,
    441, 369, 292, 221, 151, 86, 64,
];

pub const TJXOP_NONE: i32 = 0;

pub const TJXOP_HFLIP: i32 = 1;

pub const TJXOP_VFLIP: i32 = 2;

pub const TJXOP_TRANSPOSE: i32 = 3;

pub const TJXOP_TRANSVERSE: i32 = 4;

pub const TJXOP_ROT90: i32 = 5;

pub const TJXOP_ROT180: i32 = 6;

pub const TJXOP_ROT270: i32 = 7;

pub const TJXOPT_TRIM: i32 = 2;

pub const TJXOPT_PROGRESSIVE: i32 = 32;

pub const TJXOPT_COPYNONE: i32 = 64;

/// Markers that stand alone, without a length behind them.
pub open spec fn stands_alone(marker: u8) -> bool {
    marker == 0x01 || 0xD0 <= marker <= 0xD9
}

pub fn marker_has_no_length(marker: u8) -> (r: bool)
    ensures
        r == stands_alone(marker),
{
    marker == 0x01 || marker == 0xD8 || marker == 0xD9 || (0xD0 <= marker && marker <= 0xD7)
}

/// Markers that begin a frame header.
pub open spec fn is_sof(marker: u8) -> bool {
    0xC0 <= marker <= 0xCF && marker != 0xC4 && marker != 0xC8 && marker != 0xCC
}

pub fn is_sof_marker(marker: u8) -> (r: bool)
    ensures
        r == is_sof(marker),
{
    0xC0 <= marker && marker <= 0xCF && marker != 0xC4 && marker != 0xC8 && marker != 0xCC
}

/// Where the segment whose length stands at `length_offset` ends.
pub open spec fn segment_end(jpg: Seq<u8>, length_offset: int) -> Option<int> {
    if length_offset + 2 > jpg.len() || be16(jpg, length_offset) < 2 || length_offset + be16(
        jpg,
        length_offset,
    ) > jpg.len() {
        None
    } else {
        Some(length_offset + be16(jpg, length_offset))
    }
}

pub fn jpeg_segment_end_from_length_offset(jpg: &[u8], length_offset: usize) -> (r: Option<usize>)
    ensures
        match segment_end(jpg@, length_offset as int) {
            Some(end) => r is Some && r->0 == end,
            None => r is None,
        },
{
    if !span_has_range(jpg.len(), length_offset, 2) {
        return None;
    }
    let segment_length: usize = read_be16(jpg, length_offset) as usize;
    if segment_length < 2 || !span_has_range(jpg.len(), length_offset, segment_length) {
        return None;
    }
    Some(length_offset + segment_length)
}

/// The first byte from `pos` on that is not fill.
pub open spec fn skip_fill(jpg: Seq<u8>, pos: int) -> int
    decreases jpg.len() - pos,
{
    if 0 <= pos < jpg.len() && jpg[pos] == 0xFF {
        skip_fill(jpg, pos + 1)
    } else {
        pos
    }
}

proof fn lemma_skip_fill(jpg: Seq<u8>, pos: int)
    ensures
        pos <= skip_fill(jpg, pos),
        pos <= jpg.len() ==> skip_fill(jpg, pos) <= jpg.len(),
    decreases jpg.len() - pos,
{
    if 0 <= pos < jpg.len() && jpg[pos] == 0xFF {
        lemma_skip_fill(jpg, pos + 1);
    }
}

/// What the walk over the markers meets next.
pub ghost enum MarkerStep {
    /// No more segments: the file or the headers end.
    End,
    /// A segment that does not fit into the file.
    Broken,
    /// A marker without a segment; the walk goes on behind it.
    Alone { next: int },
    /// A segment, with the position of its marker and the bounds of its payload.
    Segment { marker: u8, at: int, payload: int, end: int },
}

/// What the walk meets from `pos` on, where it wants at least `need` bytes.
pub open spec fn marker_step(jpg: Seq<u8>, pos: int, need: int) -> MarkerStep {
    let at = skip_fill(jpg, pos);
    if pos + need > jpg.len() || at >= jpg.len() || jpg[at] == 0xDA {
        MarkerStep::End
    } else if jpg[at] == 0x00 || stands_alone(jpg[at]) {
        MarkerStep::Alone { next: at + 1 }
    } else {
        match segment_end(jpg, at + 1) {
            None => MarkerStep::Broken,
            Some(end) => MarkerStep::Segment { marker: jpg[at], at, payload: at + 3, end },
        }
    }
}

/// The walk moves forward.
pub proof fn lemma_marker_step(jpg: Seq<u8>, pos: int, need: int)
    requires
        0 <= pos,
    ensures
        marker_step(jpg, pos, need) matches MarkerStep::Alone { next } ==> pos < next <= jpg.len(),
        marker_step(jpg, pos, need) matches MarkerStep::Segment { at, payload, end, .. } ==> pos
            <= at && payload == at + 3 && payload <= end <= jpg.len(),
{
    lemma_skip_fill(jpg, pos);
}

/// What the walk meets next, as values.
pub enum WalkStep {
    End,
    Broken,
    Alone { next: usize },
    Segment { marker: u8, at: usize, payload: usize, end: usize },
}

impl WalkStep {
    pub open spec fn is_step(self, step: MarkerStep) -> bool {
        match self {
            WalkStep::End => step is End,
            WalkStep::Broken => step is Broken,
            WalkStep::Alone { next } => step == (MarkerStep::Alone { next: next as int }),
            WalkStep::Segment { marker, at, payload, end } => step == (MarkerStep::Segment {
                marker,
                at: at as int,
                payload: payload as int,
                end: end as int,
            }),
        }
    }
}

fn walk_markers(jpg: &[u8], from: usize, need: usize) -> (r: WalkStep)
    requires
        0 < need,
    ensures
        r.is_step(marker_step(jpg@, from as int, need as int)),
{
    if !span_has_range(jpg.len(), from, need) {
        return WalkStep::End;
    }
    let mut pos: usize = from;
    while pos < jpg.len() && jpg[pos] == 0xFF
        invariant
            from <= pos <= jpg.len(),
            skip_fill(jpg@, pos as int) == skip_fill(jpg@, from as int),
        decreases jpg@.len() - pos,
    {
        pos += 1;
    }
    if pos >= jpg.len() {
        return WalkStep::End;
    }
    let marker: u8 = jpg[pos];
    if marker == 0x00 || marker_has_no_length(marker) {
        return WalkStep::Alone { next: pos + 1 };
    }
    if marker == 0xDA {
        return WalkStep::End;
    }
    match jpeg_segment_end_from_length_offset(jpg, pos + 1) {
        None => WalkStep::Broken,
        Some(end) => WalkStep::Segment { marker, at: pos, payload: pos + 3, end },
    }
}

/// A 16-bit field of a TIFF structure.
pub open spec fn tiff16(tiff: Seq<u8>, i: int, little_endian: bool) -> int {
    if little_endian {
        le16(tiff, i)
    } else {
        be16(tiff, i)
    }
}

/// A 32-bit field of a TIFF structure.
pub open spec fn tiff32(tiff: Seq<u8>, i: int, little_endian: bool) -> int {
    if little_endian {
        le32(tiff, i)
    } else {
        be32(tiff, i)
    }
}

pub fn read_tiff_u16(tiff: &[u8], offset: usize, little_endian: bool) -> (r: Option<u16>)
    ensures
        offset + 2 > tiff@.len() ==> r is None,
        offset + 2 <= tiff@.len() ==> r is Some && r->0 == tiff16(
            tiff@,
            offset as int,
            little_endian,
        ),
{
    if !span_has_range(tiff.len(), offset, 2) {
        return None;
    }
    Some(
        if little_endian {
            read_le16(tiff, offset)
        } else {
            read_be16(tiff, offset)
        },
    )
}

pub fn read_tiff_u32(tiff: &[u8], offset: usize, little_endian: bool) -> (r: Option<u32>)
    ensures
        offset + 4 > tiff@.len() ==> r is None,
        offset + 4 <= tiff@.len() ==> r is Some && r->0 == tiff32(
            tiff@,
            offset as int,
            little_endian,
        ),
{
    if !span_has_range(tiff.len(), offset, 4) {
        return None;
    }
    Some(
        if little_endian {
            read_le32(tiff, offset)
        } else {
            read_be32(tiff, offset)
        },
    )
}

/// The orientation among `count` directory entries from `pos` on.
pub open spec fn orientation_in_entries(
    tiff: Seq<u8>,
    pos: int,
    count: nat,
    little_endian: bool,
) -> Option<u16>
    decreases count,
{
    if count == 0 || pos + IFD_ENTRY_SIZE > tiff.len() {
        None
    } else if tiff16(tiff, pos, little_endian) == TAG_ORIENTATION {
        Some(tiff16(tiff, pos + 8, little_endian) as u16)
    } else {
        orientation_in_entries(tiff, pos + IFD_ENTRY_SIZE, (count - 1) as nat, little_endian)
    }
}

/// The orientation that the first directory of a TIFF structure records.
pub open spec fn exif_orientation(tiff: Seq<u8>) -> Option<u16> {
    if tiff.len() < TIFF_HEADER_SIZE {
        None
    } else if !(tiff[0] == 0x49 && tiff[1] == 0x49) && !(tiff[0] == 0x4D && tiff[1] == 0x4D) {
        None
    } else {
        let little_endian = tiff[0] == 0x49;
        let directory = tiff32(tiff, 4, little_endian);
        if tiff16(tiff, 2, little_endian) != 0x002A || directory + 2 > tiff.len() {
            None
        } else {
            orientation_in_entries(
                tiff,
                directory + 2,
                tiff16(tiff, directory, little_endian) as nat,
                little_endian,
            )
        }
    }
}

pub fn exif_orientation_from_tiff(tiff: &[u8]) -> (r: Option<u16>)
    ensures
        r == exif_orientation(tiff@),
{
    if tiff.len() < TIFF_HEADER_SIZE {
        return None;
    }
    let little_endian: bool = if tiff[0] == 0x49 && tiff[1] == 0x49 {
        true
    } else if tiff[0] == 0x4D && tiff[1] == 0x4D {
        false
    } else {
        return None;
    };
    match read_tiff_u16(tiff, 2, little_endian) {
        Some(magic) => {
            if magic != 0x002A {
                return None;
            }
        },
        None => {
            return None;
        },
    }
    let ifd_offset: usize = match read_tiff_u32(tiff, 4, little_endian) {
        Some(v) => v as usize,
        None => {
            return None;
        },
    };
    let entry_count: u16 = match read_tiff_u16(tiff, ifd_offset, little_endian) {
        Some(v) => v,
        None => {
            return None;
        },
    };
    let mut entry_pos: usize = ifd_offset + 2;
    let mut left: u16 = entry_count;
    while left > 0
        invariant
            entry_pos <= tiff.len(),
            exif_orientation(tiff@) == orientation_in_entries(
                tiff@,
                entry_pos as int,
                left as nat,
                little_endian,
            ),
        decreases left,
    {
        if !span_has_range(tiff.len(), entry_pos, IFD_ENTRY_SIZE) {
            return None;
        }
        match read_tiff_u16(tiff, entry_pos, little_endian) {
            Some(tag_id) => {
                if tag_id == TAG_ORIENTATION {
                    return read_tiff_u16(tiff, entry_pos + 8, little_endian);
                }
            },
            None => {
                return None;
            },
        }
        entry_pos += IFD_ENTRY_SIZE;
        left -= 1;
    }
    None
}

/// What the headers of a cover image say of it.
#[derive(Clone, Copy, PartialEq, Eq, Structural, Debug)]
pub struct JpegPrescan {
    pub width: i32,
    pub height: i32,
    pub components: i32,
    pub orientation: Option<u16>,
}

/// Before any header has been seen.
pub open spec fn empty_prescan() -> JpegPrescan {
    JpegPrescan { width: 0, height: 0, components: 0, orientation: None }
}

/// What one segment adds to what is known: the first frame header its
/// dimensions, an early EXIF segment its orientation. A frame header with a
/// wrong number of components makes the image useless.
pub open spec fn prescan_segment(
    jpg: Seq<u8>,
    known: JpegPrescan,
    marker: u8,
    at: int,
    payload: int,
    end: int,
) -> Option<JpegPrescan> {
    let size = end - payload;
    if is_sof(marker) && size >= 6 && known.width == 0 {
        let components = jpg[payload + 5] as int;
        if components == 0 || components > (size - 6) / 3 {
            None
        } else {
            Some(
                JpegPrescan {
                    width: be16(jpg, payload + 3) as i32,
                    height: be16(jpg, payload + 1) as i32,
                    components: components as i32,
                    orientation: known.orientation,
                },
            )
        }
    } else if marker == 0xE1 && at + 1 <= EXIF_SEARCH_LIMIT && size >= EXIF_HEADER_SIZE
        && occurs_at(jpg, EXIF_SIG@, payload) {
        Some(
            JpegPrescan {
                orientation: exif_orientation(jpg.subrange(payload + EXIF_HEADER_SIZE, end)),
                ..known
            },
        )
    } else {
        Some(known)
    }
}

/// What the walk from `pos` on adds to what is known. It stops once dimensions
/// and orientation are known.
pub open spec fn prescan_from(jpg: Seq<u8>, pos: int, known: JpegPrescan) -> Option<JpegPrescan>
    decreases jpg.len() - pos,
{
    if pos < 0 {
        None
    } else {
        proof {
            lemma_marker_step(jpg, pos, 4);
        }
        match marker_step(jpg, pos, 4) {
            MarkerStep::End => Some(known),
            MarkerStep::Broken => None,
            MarkerStep::Alone { next } => prescan_from(jpg, next, known),
            MarkerStep::Segment { marker, at, payload, end } => match prescan_segment(
                jpg,
                known,
                marker,
                at,
                payload,
                end,
            ) {
                None => None,
                Some(scan) => if scan.width != 0 && scan.orientation is Some {
                    Some(scan)
                } else {
                    prescan_from(jpg, end, scan)
                },
            },
        }
    }
}

/// Whether the bytes begin as a JPEG file does.
pub open spec fn begins_as_jpeg(jpg: Seq<u8>) -> bool {
    jpg.len() >= 4 && jpg[0] == 0xFF && jpg[1] == 0xD8
}

/// What the headers of a cover image say of it.
pub open spec fn prescan(jpg: Seq<u8>) -> Option<JpegPrescan> {
    if begins_as_jpeg(jpg) {
        prescan_from(jpg, 2, empty_prescan())
    } else {
        None
    }
}

pub fn jpeg_prescan(jpg: &[u8]) -> (r: Option<JpegPrescan>)
    ensures
        r == prescan(jpg@),
{
    if jpg.len() < 4 || jpg[0] != 0xFF || jpg[1] != 0xD8 {
        return None;
    }
    let mut out = JpegPrescan { width: 0, height: 0, components: 0, orientation: None };
    let mut pos: usize = 2;
    loop
        invariant
            begins_as_jpeg(jpg@),
            pos <= jpg.len(),
            prescan(jpg@) == prescan_from(jpg@, pos as int, out),
        decreases jpg@.len() - pos,
    {
        proof {
            lemma_marker_step(jpg@, pos as int, 4);
        }
        match walk_markers(jpg, pos, 4) {
            WalkStep::End => {
                return Some(out);
            },
            WalkStep::Broken => {
                return None;
            },
            WalkStep::Alone { next } => {
                pos = next;
            },
            WalkStep::Segment { marker, at, payload, end } => {
                let payload_size: usize = end - payload;
                if is_sof_marker(marker) && payload_size >= 6 && out.width == 0 {
                    let components: usize = jpg[payload + 5] as usize;
                    if components == 0 || components > (payload_size - 6) / 3 {
                        return None;
                    }
                    out = JpegPrescan {
                        width: read_be16(jpg, payload + 3) as i32,
                        height: read_be16(jpg, payload + 1) as i32,
                        components: components as i32,
                        orientation: out.orientation,
                    };
                } else if marker == 0xE1 && at + 1 <= EXIF_SEARCH_LIMIT && payload_size
                    >= EXIF_HEADER_SIZE && matches_at(jpg, &EXIF_SIG, payload) {
                    out.orientation = exif_orientation_from_tiff(
                        slice_subrange(jpg, payload + EXIF_HEADER_SIZE, end),
                    );
                }
                if out.width != 0 && out.orientation.is_some() {
                    return Some(out);
                }
                pos = end;
            },
        }
    }
}

/// The lossless transform that undoes an EXIF orientation.
pub open spec fn transform_op(orientation: u16) -> i32 {
    if orientation == 2 {
        TJXOP_HFLIP
    } else if orientation == 3 {
        TJXOP_ROT180
    } else if orientation == 4 {
        TJXOP_VFLIP
    } else if orientation == 5 {
        TJXOP_TRANSPOSE
    } else if orientation == 6 {
        TJXOP_ROT90
    } else if orientation == 7 {
        TJXOP_TRANSVERSE
    } else if orientation == 8 {
        TJXOP_ROT270
    } else {
        TJXOP_NONE
    }
}

pub fn get_transform_op(orientation: u16) -> (r: i32)
    ensures
        r == transform_op(orientation),
{
    match orientation {
        2 => TJXOP_HFLIP,
        3 => TJXOP_ROT180,
        4 => TJXOP_VFLIP,
        5 => TJXOP_TRANSPOSE,
        6 => TJXOP_ROT90,
        7 => TJXOP_TRANSVERSE,
        8 => TJXOP_ROT270,
        _ => TJXOP_NONE,
    }
}

/// The standard sum of a quality.
pub open spec fn std_sum(q: int) -> int {
    STD_LUMINANCE_SUMS[q] as int
}

/// The lowest quality from `q` on whose standard sum is no larger than `sum`.
pub open spec fn first_sum_reached(sum: int, q: int) -> int
    decreases 100 - q,
{
    if q >= 100 || sum >= std_sum(q) {
        q
    } else {
        first_sum_reached(sum, q + 1)
    }
}

/// The quality whose standard table a luminance table with this sum comes
/// closest to.
pub open spec fn quality_of_sum(sum: int) -> int {
    if sum <= 64 {
        100
    } else if sum >= 16320 {
        1
    } else {
        let q = first_sum_reached(sum, 1);
        if q > 1 && std_sum(q - 1) - sum < sum - std_sum(q) {
            q - 1
        } else {
            q
        }
    }
}

proof fn lemma_sums_decrease(i: int, j: int)
    requires
        1 <= i <= j <= 100,
    ensures
        std_sum(i) >= std_sum(j),
        i < j ==> std_sum(i) > std_sum(j),
    decreases j - i,
{
    if i < j {
        lemma_sums_decrease(i + 1, j);
        assert(forall|k: int| 1 <= k < 100 ==> STD_LUMINANCE_SUMS[k] > #[trigger] STD_LUMINANCE_SUMS[
            k + 1]);
        assert(STD_LUMINANCE_SUMS[i] > STD_LUMINANCE_SUMS[i + 1]);
    }
}

proof fn lemma_first_sum_reached(sum: int, q: int)
    requires
        1 <= q <= 100,
        sum >= 64,
    ensures
        q <= first_sum_reached(sum, q) <= 100,
        sum >= std_sum(first_sum_reached(sum, q)),
        forall|i: int| q <= i < first_sum_reached(sum, q) ==> sum < #[trigger] std_sum(i),
    decreases 100 - q,
{
    if q < 100 && sum < std_sum(q) {
        lemma_first_sum_reached(sum, q + 1);
    }
}

/// How far a sum is from the standard sum of a quality.
pub open spec fn sum_distance(sum: int, q: int) -> int {
    if sum >= std_sum(q) {
        sum - std_sum(q)
    } else {
        std_sum(q) - sum
    }
}

/// The estimated quality is one whose standard sum is nearest, and the higher
/// one of two that are equally near.
pub proof fn law_quality_is_nearest(sum: int, q: int)
    requires
        1 <= q <= 100,
    ensures
        1 <= quality_of_sum(sum) <= 100,
        sum_distance(sum, quality_of_sum(sum)) <= sum_distance(sum, q),
        sum_distance(sum, quality_of_sum(sum)) == sum_distance(sum, q) ==> q <= quality_of_sum(sum),
{
    lemma_sums_decrease(q, 100);
    lemma_sums_decrease(1, q);
    assert(std_sum(100) == 64);
    assert(std_sum(1) == 16320);
    if 64 < sum < 16320 {
        lemma_first_sum_reached(sum, 1);
        let f = first_sum_reached(sum, 1);
        if q < f {
            lemma_sums_decrease(q, f - 1);
            assert(sum < std_sum(q));
            assert(sum < std_sum(f - 1));
        } else {
            lemma_sums_decrease(f, q);
            if f > 1 {
                assert(sum < std_sum(f - 1));
            }
        }
    }
}

pub fn quality_from_luminance_sum(sum: i32) -> (r: i32)
    ensures
        r == quality_of_sum(sum as int),
        1 <= r <= 100,
{
    proof {
        law_quality_is_nearest(sum as int, 1);
    }
    if sum <= 64 {
        return 100;
    }
    if sum >= 16320 {
        return 1;
    }
    let mut q: usize = 1;
    while q < 100 && sum < STD_LUMINANCE_SUMS[q]
        invariant
            1 <= q <= 100,
            first_sum_reached(sum as int, q as int) == first_sum_reached(sum as int, 1),
        decreases 100 - q,
    {
        q += 1;
    }
    proof {
        lemma_first_sum_reached(sum as int, 1);
        lemma_sums_decrease(q as int, 100);
        if q > 1 {
            lemma_sums_decrease(1, q - 1);
            assert(sum < std_sum(q - 1));
        }
        assert(std_sum(100) == 64 && std_sum(1) == 16320);
    }
    if q > 1 {
        let diff_current: i32 = sum - STD_LUMINANCE_SUMS[q];
        let diff_prev: i32 = STD_LUMINANCE_SUMS[q - 1] - sum;
        if diff_prev < diff_current {
            return (q - 1) as i32;
        }
    }
    q as i32
}

/// The sum of `n` 8-bit table entries from `pos` on.
pub open spec fn sum8(jpg: Seq<u8>, pos: int, n: nat) -> int
    decreases n,
{
    if n == 0 {
        0
    } else {
        sum8(jpg, pos, (n - 1) as nat) + jpg[pos + n - 1]
    }
}

/// The sum of `n` 16-bit table entries from `pos` on.
pub open spec fn sum16(jpg: Seq<u8>, pos: int, n: nat) -> int
    decreases n,
{
    if n == 0 {
        0
    } else {
        sum16(jpg, pos, (n - 1) as nat) + be16(jpg, pos + 2 * (n - 1))
    }
}

fn table_sum(jpg: &[u8], pos: usize, wide: bool) -> (r: i32)
    requires
        pos + (if wide {
            128int
        } else {
            64
        }) <= jpg.len(),
    ensures
        r == if wide {
            sum16(jpg@, pos as int, 64)
        } else {
            sum8(jpg@, pos as int, 64)
        },
{
    let mut sum: i32 = 0;
    let mut i: usize = 0;
    while i < 64
        invariant
            i <= 64,
            pos + (if wide {
                128int
            } else {
                64
            }) <= jpg.len(),
            0 <= sum <= i * 65535,
            sum == if wide {
                sum16(jpg@, pos as int, i as nat)
            } else {
                sum8(jpg@, pos as int, i as nat)
            },
        decreases 64 - i,
    {
        if wide {
            sum += read_be16(jpg, pos + 2 * i) as i32;
        } else {
            sum += jpg[pos + i] as i32;
        }
        i += 1;
    }
    sum
}

/// The qualities of the tables of a DQT segment from `pos` up to `end`, entered
/// over those that are known.
pub open spec fn dqt_tables(
    jpg: Seq<u8>,
    pos: int,
    end: int,
    known: Seq<Option<i32>>,
) -> Option<Seq<Option<i32>>>
    decreases end - pos,
{
    if pos >= end {
        Some(known)
    } else {
        let wide = jpg[pos] / 16 == 1;
        let id = jpg[pos] as int % 16;
        let size = if wide {
            DQT_16BIT_TABLE_SIZE as int
        } else {
            DQT_8BIT_TABLE_SIZE as int
        };
        if jpg[pos] / 16 > 1 || id >= 4 || pos + 1 + size > end {
            None
        } else {
            let sum = if wide {
                sum16(jpg, pos + 1, 64)
            } else {
                sum8(jpg, pos + 1, 64)
            };
            dqt_tables(
                jpg,
                pos + 1 + size,
                end,
                known.update(id, Some(quality_of_sum(sum) as i32)),
            )
        }
    }
}

fn read_dqt_tables(jpg: &[u8], from: usize, end: usize, tables: &mut Vec<Option<i32>>) -> (r: bool)
    requires
        from <= end <= jpg.len(),
        old(tables)@.len() == 4,
    ensures
        final(tables)@.len() == 4,
        match dqt_tables(jpg@, from as int, end as int, old(tables)@) {
            Some(after) => r && final(tables)@ == after,
            None => !r,
        },
{
    let mut pos: usize = from;
    while pos < end
        invariant
            pos <= end <= jpg.len(),
            tables@.len() == 4,
            dqt_tables(jpg@, from as int, end as int, old(tables)@) == dqt_tables(
                jpg@,
                pos as int,
                end as int,
                tables@,
            ),
        decreases end - pos,
    {
        let header: u8 = jpg[pos];
        let precision: u8 = header / 16;
        let table_id: usize = (header % 16) as usize;
        if precision > 1 || table_id >= 4 {
            return false;
        }
        let table_size: usize = if precision == 0 {
            DQT_8BIT_TABLE_SIZE
        } else {
            DQT_16BIT_TABLE_SIZE
        };
        if table_size > end - pos - 1 {
            return false;
        }
        let sum: i32 = table_sum(jpg, pos + 1, precision == 1);
        tables.set(table_id, Some(quality_from_luminance_sum(sum)));
        pos = pos + 1 + table_size;
    }
    true
}

/// What the headers of a transformed image say of it.
#[derive(Clone, Copy, PartialEq, Eq, Structural, Debug)]
pub struct TransformedJpegInfo {
    /// Where the first quantization table segment begins; zero for none.
    pub offset: usize,
    pub width: i32,
    pub height: i32,
    /// The quality of the table that the first component uses.
    pub quality: Option<i32>,
}

/// What is known while the headers are walked.
#[verifier::ext_equal]
pub ghost struct Inspection {
    pub offset: int,
    pub width: int,
    pub height: int,
    pub tables: Seq<Option<i32>>,
    pub selected: Option<int>,
}

pub open spec fn empty_inspection() -> Inspection {
    Inspection {
        offset: 0,
        width: 0,
        height: 0,
        tables: seq![None, None, None, None],
        selected: None,
    }
}

/// What one segment adds to what is known; a malformed table or frame header
/// makes the image useless.
pub open spec fn inspect_segment(
    jpg: Seq<u8>,
    known: Inspection,
    marker: u8,
    at: int,
    payload: int,
    end: int,
) -> Option<Inspection> {
    let size = end - payload;
    if marker == 0xDB {
        let offset = if known.offset == 0 && at - 1 <= DQT_SEARCH_LIMIT - 2 {
            at - 1
        } else {
            known.offset
        };
        match dqt_tables(jpg, payload, end, known.tables) {
            None => None,
            Some(tables) => Some(Inspection { offset, tables, ..known }),
        }
    } else if is_sof(marker) {
        if size < 9 || jpg[payload + 5] == 0 || jpg[payload + 5] > (size - 6) / 3 {
            None
        } else {
            Some(
                Inspection {
                    width: be16(jpg, payload + 3),
                    height: be16(jpg, payload + 1),
                    selected: Some(jpg[payload + 8] as int),
                    ..known
                },
            )
        }
    } else {
        Some(known)
    }
}

/// What the walk from `pos` on adds to what is known.
pub open spec fn inspect_from(jpg: Seq<u8>, pos: int, known: Inspection) -> Option<Inspection>
    decreases jpg.len() - pos,
{
    if pos < 0 {
        None
    } else {
        proof {
            lemma_marker_step(jpg, pos, 2);
        }
        match marker_step(jpg, pos, 2) {
            MarkerStep::End => Some(known),
            MarkerStep::Broken => None,
            MarkerStep::Alone { next } => inspect_from(jpg, next, known),
            MarkerStep::Segment { marker, at, payload, end } => match inspect_segment(
                jpg,
                known,
                marker,
                at,
                payload,
                end,
            ) {
                None => None,
                Some(more) => inspect_from(jpg, end, more),
            },
        }
    }
}

/// What the headers of a transformed image say of it; nothing where they cannot
/// be read.
pub open spec fn inspection(jpg: Seq<u8>) -> TransformedJpegInfo {
    let nothing = TransformedJpegInfo { offset: 0, width: 0, height: 0, quality: None };
    if !begins_as_jpeg(jpg) {
        nothing
    } else {
        match inspect_from(jpg, 2, empty_inspection()) {
            None => nothing,
            Some(found) => TransformedJpegInfo {
                offset: found.offset as usize,
                width: found.width as i32,
                height: found.height as i32,
                quality: match found.selected {
                    Some(id) => if id < 4 {
                        found.tables[id]
                    } else {
                        None
                    },
                    None => None,
                },
            },
        }
    }
}

pub fn inspect_transformed_jpeg(jpg: &[u8]) -> (r: TransformedJpegInfo)
    ensures
        r == inspection(jpg@),
{
    let nothing = TransformedJpegInfo { offset: 0, width: 0, height: 0, quality: None };
    if jpg.len() < 4 || jpg[0] != 0xFF || jpg[1] != 0xD8 {
        return nothing;
    }
    let mut offset: usize = 0;
    let mut width: i32 = 0;
    let mut height: i32 = 0;
    let mut tables: Vec<Option<i32>> = Vec::new();
    tables.push(None);
    tables.push(None);
    tables.push(None);
    tables.push(None);
    let mut selected: Option<usize> = None;
    let mut pos: usize = 2;
    assert(tables@ =~= empty_inspection().tables);
    loop
        invariant
            begins_as_jpeg(jpg@),
            nothing == (TransformedJpegInfo { offset: 0, width: 0, height: 0, quality: None }),
            2 <= pos <= jpg.len(),
            tables@.len() == 4,
            inspect_from(jpg@, 2, empty_inspection()) == inspect_from(
                jpg@,
                pos as int,
                Inspection {
                    offset: offset as int,
                    width: width as int,
                    height: height as int,
                    tables: tables@,
                    selected: match selected {
                        Some(id) => Some(id as int),
                        None => None,
                    },
                },
            ),
        decreases jpg@.len() - pos,
    {
        proof {
            lemma_marker_step(jpg@, pos as int, 2);
        }
        match walk_markers(jpg, pos, 2) {
            WalkStep::End => {
                let quality: Option<i32> = match selected {
                    Some(id) => if id < 4 {
                        tables[id]
                    } else {
                        None
                    },
                    None => None,
                };
                return TransformedJpegInfo { offset, width, height, quality };
            },
            WalkStep::Broken => {
                return nothing;
            },
            WalkStep::Alone { next } => {
                pos = next;
            },
            WalkStep::Segment { marker, at, payload, end } => {
                let payload_size: usize = end - payload;
                if marker == 0xDB {
                    let marker_offset: usize = at - 1;
                    if offset == 0 && marker_offset <= DQT_SEARCH_LIMIT - 2 {
                        offset = marker_offset;
                    }
                    if !read_dqt_tables(jpg, payload, end, &mut tables) {
                        return nothing;
                    }
                } else if is_sof_marker(marker) {
                    if payload_size < 9 {
                        return nothing;
                    }
                    let components: usize = jpg[payload + 5] as usize;
                    if components == 0 || components > (payload_size - 6) / 3 {
                        return nothing;
                    }
                    height = read_be16(jpg, payload + 1) as i32;
                    width = read_be16(jpg, payload + 3) as i32;
                    selected = Some(jpg[payload + 8] as usize);
                }
                pos = end;
            },
        }
    }
}

/// The lossless transform that a cover image is to be put through.
#[derive(Clone, Copy, PartialEq, Eq, Structural, Debug)]
pub struct CoverTransform {
    pub op: i32,
    pub options: i32,
}

/// Why a cover image cannot be used, by its own headers.
pub open spec fn cover_error(jpg: Seq<u8>) -> Option<JdvrifError> {
    if jpg.len() == 0 {
        Some(JdvrifError::CoverEmpty)
    } else {
        match prescan(jpg) {
            None => Some(JdvrifError::CoverHeader),
            Some(scan) => {
                let width = scan.width as usize;
                let height = scan.height as usize;
                if scan.width == 0 || scan.height == 0 {
                    Some(JdvrifError::CoverHeader)
                } else if scan.width < MIN_COVER_DIMENSION || scan.height < MIN_COVER_DIMENSION {
                    Some(JdvrifError::CoverTooSmall { width, height })
                } else if scan.width > MAX_COVER_DIMENSION || scan.height > MAX_COVER_DIMENSION
                    || scan.width * scan.height > MAX_COVER_PIXELS {
                    Some(JdvrifError::CoverDimensions { width, height })
                } else if scan.components != 1 && scan.components != 3 {
                    Some(JdvrifError::CoverColorSpace { components: scan.components as usize })
                } else {
                    None
                }
            },
        }
    }
}

/// The transform that a usable cover image is to be put through: its orientation
/// undone, its metadata dropped, incomplete blocks trimmed.
pub open spec fn cover_transform(jpg: Seq<u8>, progressive: bool) -> CoverTransform {
    CoverTransform {
        op: match prescan(jpg)->0.orientation {
            Some(orientation) => transform_op(orientation),
            None => TJXOP_NONE,
        },
        options: (TJXOPT_COPYNONE + TJXOPT_TRIM + if progressive {
            TJXOPT_PROGRESSIVE as int
        } else {
            0
        }) as i32,
    }
}

proof fn lemma_prescan_range(jpg: Seq<u8>, pos: int, known: JpegPrescan)
    requires
        0 <= known.width <= 65535,
        0 <= known.height <= 65535,
        0 <= known.components <= 255,
    ensures
        prescan_from(jpg, pos, known) matches Some(scan) ==> 0 <= scan.width <= 65535 && 0
            <= scan.height <= 65535 && 0 <= scan.components <= 255,
    decreases jpg.len() - pos,
{
    if pos >= 0 {
        lemma_marker_step(jpg, pos, 4);
        match marker_step(jpg, pos, 4) {
            MarkerStep::Alone { next } => lemma_prescan_range(jpg, next, known),
            MarkerStep::Segment { marker, at, payload, end } => {
                match prescan_segment(jpg, known, marker, at, payload, end) {
                    None => {},
                    Some(scan) => {
                        lemma_prescan_range(jpg, end, scan);
                    },
                }
            },
            _ => {},
        }
    }
}

/// Checks a cover image as it was read, and chooses the transform to put it
/// through. The image has to be of the size that it was announced with. Small
/// payloads without a platform option go into a progressive image.
pub fn plan_cover_transform(
    image: &[u8],
    expected_image_size: usize,
    source_data_size: usize,
    has_no_option: bool,
) -> (r: Result<CoverTransform, JdvrifError>)
    ensures
        r == (if image@.len() != expected_image_size {
            Err(JdvrifError::CoverChanged)
        } else {
            match cover_error(image@) {
                Some(e) => Err(e),
                None => Ok(
                    cover_transform(
                        image@,
                        source_data_size < PROGRESSIVE_SOURCE_LIMIT && has_no_option,
                    ),
                ),
            }
        }),
        r matches Ok(transform) ==> transform.options == (if source_data_size < 2097152
            && has_no_option {
            98int
        } else {
            66
        }),
{
    if image.len() != expected_image_size {
        return Err(JdvrifError::CoverChanged);
    }
    if image.len() == 0 {
        return Err(JdvrifError::CoverEmpty);
    }
    let scan: JpegPrescan = match jpeg_prescan(image) {
        Some(scan) => scan,
        None => {
            return Err(JdvrifError::CoverHeader);
        },
    };
    proof {
        lemma_prescan_range(image@, 2, empty_prescan());
    }
    if scan.width == 0 || scan.height == 0 {
        return Err(JdvrifError::CoverHeader);
    }
    let width: usize = scan.width as usize;
    let height: usize = scan.height as usize;
    if scan.width < MIN_COVER_DIMENSION || scan.height < MIN_COVER_DIMENSION {
        return Err(JdvrifError::CoverTooSmall { width, height });
    }
    assert(0 <= scan.width * scan.height <= 65535 * 65535) by (nonlinear_arith)
        requires
            0 <= scan.width <= 65535,
            0 <= scan.height <= 65535,
    ;
    let pixel_count: u64 = (scan.width as u64) * (scan.height as u64);
    if scan.width > MAX_COVER_DIMENSION || scan.height > MAX_COVER_DIMENSION || pixel_count
        > MAX_COVER_PIXELS {
        return Err(JdvrifError::CoverDimensions { width, height });
    }
    if scan.components != 1 && scan.components != 3 {
        return Err(JdvrifError::CoverColorSpace { components: scan.components as usize });
    }
    let is_progressive: bool = source_data_size < PROGRESSIVE_SOURCE_LIMIT && has_no_option;
    let op: i32 = match scan.orientation {
        Some(orientation) => get_transform_op(orientation),
        None => TJXOP_NONE,
    };
    let options: i32 = TJXOPT_COPYNONE + TJXOPT_TRIM + if is_progressive {
        TJXOPT_PROGRESSIVE
    } else {
        0
    };
    Ok(CoverTransform { op, options })
}

/// Why a transformed image cannot be used.
pub open spec fn transformed_error(jpg: Seq<u8>, for_bluesky: bool) -> Option<JdvrifError> {
    let info = inspection(jpg);
    let width = info.width as usize;
    let height = info.height as usize;
    if info.width == 0 || info.height == 0 {
        Some(JdvrifError::TransformedHeader)
    } else if info.width < MIN_COVER_DIMENSION || info.height < MIN_COVER_DIMENSION {
        Some(JdvrifError::TransformedTooSmall { width, height })
    } else if info.quality is None {
        Some(JdvrifError::QuantizationTableMissing)
    } else if info.quality->0 > MAX_ALLOWED_QUALITY {
        Some(JdvrifError::CoverQuality { quality: info.quality->0 as usize })
    } else if info.offset == 0 || info.offset >= jpg.len() {
        Some(JdvrifError::NoDqtSegment)
    } else if jpg.len() - info.offset > MAX_OPTIMIZED_IMAGE_SIZE {
        Some(JdvrifError::CoverTooLarge)
    } else if for_bluesky && jpg.len() - info.offset > MAX_IMAGE_SIZE_BLUESKY {
        Some(JdvrifError::CoverTooLargeBluesky)
    } else {
        None
    }
}

/// Checks the transformed cover image and cuts off what stands in front of its
/// quantization tables, which the embedded segments replace.
pub fn prepare_cover_image_for_conceal(transformed: &[u8], has_bluesky_option: bool) -> (r: Result<
    Vec<u8>,
    JdvrifError,
>)
    ensures
        match transformed_error(transformed@, has_bluesky_option) {
            Some(e) => r == Err::<Vec<u8>, JdvrifError>(e),
            None => r is Ok && r->Ok_0@ == transformed@.skip(
                inspection(transformed@).offset as int,
            ),
        },
        r is Ok ==> 0 < r->Ok_0@.len() <= 4194304,
        r is Ok && has_bluesky_option ==> r->Ok_0@.len() <= 2000000,
{
    let info: TransformedJpegInfo = inspect_transformed_jpeg(transformed);
    if info.width == 0 || info.height == 0 {
        return Err(JdvrifError::TransformedHeader);
    }
    if info.width < MIN_COVER_DIMENSION || info.height < MIN_COVER_DIMENSION {
        return Err(
            JdvrifError::TransformedTooSmall {
                width: info.width as usize,
                height: info.height as usize,
            },
        );
    }
    match info.quality {
        None => {
            return Err(JdvrifError::QuantizationTableMissing);
        },
        Some(quality) => {
            if quality > MAX_ALLOWED_QUALITY {
                return Err(JdvrifError::CoverQuality { quality: quality as usize });
            }
        },
    }
    if info.offset == 0 || info.offset >= transformed.len() {
        return Err(JdvrifError::NoDqtSegment);
    }
    let size: usize = transformed.len() - info.offset;
    if size > MAX_OPTIMIZED_IMAGE_SIZE {
        return Err(JdvrifError::CoverTooLarge);
    }
    if has_bluesky_option && size > MAX_IMAGE_SIZE_BLUESKY {
        return Err(JdvrifError::CoverTooLargeBluesky);
    }
    let out: Vec<u8> = copy_range(transformed, info.offset, transformed.len());
    assert(out@ =~= transformed@.skip(info.offset as int));
    Ok(out)
}

/// Exactly the orientations from two to eight call for a transform, and no two of
/// them for the same one.
pub proof fn law_orientations(a: u16, b: u16)
    ensures
        transform_op(a) == TJXOP_NONE <==> !(2 <= a <= 8),
        2 <= a <= 8 && 2 <= b <= 8 && transform_op(a) == transform_op(b) ==> a == b,
{
}

} // verus!
