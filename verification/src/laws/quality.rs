//! The quality of a cover, from the numbers in its quantization tables.

use super::extraction::number_at;
use crate::jpeg_preprocess::{
    dqt_tables, quality_of_sum, std_sum, sum16, sum8, law_quality_is_nearest,
};
use vstd::prelude::*;

verus! {

/// An entry of a table, scaled by so many hundredths, from 1 to 255.
pub open spec fn scaled(entry: int, scale: int) -> int {
    let v = (entry * scale + 50) / 100;
    if v < 1 {
        1
    } else if v > 255 {
        255
    } else {
        v
    }
}

/// The sum of the luminance table that the JPEG standard recommends, row by row, with
/// each entry scaled.
pub open spec fn scaled_table_sum(s: int) -> int {
    let r0 = scaled(16, s) + scaled(11, s) + scaled(10, s) + scaled(16, s) + scaled(24, s) + scaled(40, s) + scaled(51, s) + scaled(61, s);
    let r1 = scaled(12, s) + scaled(12, s) + scaled(14, s) + scaled(19, s) + scaled(26, s) + scaled(58, s) + scaled(60, s) + scaled(55, s);
    let r2 = scaled(14, s) + scaled(13, s) + scaled(16, s) + scaled(24, s) + scaled(40, s) + scaled(57, s) + scaled(69, s) + scaled(56, s);
    let r3 = scaled(14, s) + scaled(17, s) + scaled(22, s) + scaled(29, s) + scaled(51, s) + scaled(87, s) + scaled(80, s) + scaled(62, s);
    let r4 = scaled(18, s) + scaled(22, s) + scaled(37, s) + scaled(56, s) + scaled(68, s) + scaled(109, s) + scaled(103, s) + scaled(77, s);
    let r5 = scaled(24, s) + scaled(35, s) + scaled(55, s) + scaled(64, s) + scaled(81, s) + scaled(104, s) + scaled(113, s) + scaled(92, s);
    let r6 = scaled(49, s) + scaled(64, s) + scaled(78, s) + scaled(87, s) + scaled(103, s) + scaled(121, s) + scaled(120, s) + scaled(101, s);
    let r7 = scaled(72, s) + scaled(92, s) + scaled(95, s) + scaled(98, s) + scaled(112, s) + scaled(100, s) + scaled(103, s) + scaled(99, s);
    r0 + r1 + r2 + r3 + r4 + r5 + r6 + r7
}

/// The scale of a quality, in hundredths.
pub open spec fn quality_scale(q: int) -> int {
    if q < 50 {
        5000int / q
    } else {
        200 - 2 * q
    }
}

#[verifier::spinoff_prover]
#[verifier::rlimit(60)]
proof fn lemma_sums_1(q: int)
    requires
        1 <= q < 6,
    ensures
        std_sum(q) == scaled_table_sum(quality_scale(q)),
{
    if q == 1 {
        assert(scaled_table_sum(5000) == 16320);
    }
    if q == 2 {
        assert(scaled_table_sum(2500) == 16315);
    }
    if q == 3 {
        assert(scaled_table_sum(1666) == 15946);
    }
    if q == 4 {
        assert(scaled_table_sum(1250) == 15277);
    }
    if q == 5 {
        assert(scaled_table_sum(1000) == 14655);
    }
}

#[verifier::spinoff_prover]
#[verifier::rlimit(60)]
proof fn lemma_sums_6(q: int)
    requires
        6 <= q < 11,
    ensures
        std_sum(q) == scaled_table_sum(quality_scale(q)),
{
    if q == 6 {
        assert(scaled_table_sum(833) == 14073);
    }
    if q == 7 {
        assert(scaled_table_sum(714) == 13623);
    }
    if q == 8 {
        assert(scaled_table_sum(625) == 13230);
    }
    if q == 9 {
        assert(scaled_table_sum(555) == 12859);
    }
    if q == 10 {
        assert(scaled_table_sum(500) == 12560);
    }
}

#[verifier::spinoff_prover]
#[verifier::rlimit(60)]
proof fn lemma_sums_11(q: int)
    requires
        11 <= q < 16,
    ensures
        std_sum(q) == scaled_table_sum(quality_scale(q)),
{
    if q == 11 {
        assert(scaled_table_sum(454) == 12240);
    }
    if q == 12 {
        assert(scaled_table_sum(416) == 11861);
    }
    if q == 13 {
        assert(scaled_table_sum(384) == 11456);
    }
    if q == 14 {
        assert(scaled_table_sum(357) == 11081);
    }
    if q == 15 {
        assert(scaled_table_sum(333) == 10714);
    }
}

#[verifier::spinoff_prover]
#[verifier::rlimit(60)]
proof fn lemma_sums_16(q: int)
    requires
        16 <= q < 21,
    ensures
        std_sum(q) == scaled_table_sum(quality_scale(q)),
{
    if q == 16 {
        assert(scaled_table_sum(312) == 10360);
    }
    if q == 17 {
        assert(scaled_table_sum(294) == 10027);
    }
    if q == 18 {
        assert(scaled_table_sum(277) == 9679);
    }
    if q == 19 {
        assert(scaled_table_sum(263) == 9368);
    }
    if q == 20 {
        assert(scaled_table_sum(250) == 9056);
    }
}

#[verifier::spinoff_prover]
#[verifier::rlimit(60)]
proof fn lemma_sums_21(q: int)
    requires
        21 <= q < 26,
    ensures
        std_sum(q) == scaled_table_sum(quality_scale(q)),
{
    if q == 21 {
        assert(scaled_table_sum(238) == 8680);
    }
    if q == 22 {
        assert(scaled_table_sum(227) == 8331);
    }
    if q == 23 {
        assert(scaled_table_sum(217) == 7995);
    }
    if q == 24 {
        assert(scaled_table_sum(208) == 7668);
    }
    if q == 25 {
        assert(scaled_table_sum(200) == 7376);
    }
}

#[verifier::spinoff_prover]
#[verifier::rlimit(60)]
proof fn lemma_sums_26(q: int)
    requires
        26 <= q < 31,
    ensures
        std_sum(q) == scaled_table_sum(quality_scale(q)),
{
    if q == 26 {
        assert(scaled_table_sum(192) == 7084);
    }
    if q == 27 {
        assert(scaled_table_sum(185) == 6823);
    }
    if q == 28 {
        assert(scaled_table_sum(178) == 6562);
    }
    if q == 29 {
        assert(scaled_table_sum(172) == 6345);
    }
    if q == 30 {
        assert(scaled_table_sum(166) == 6125);
    }
}

#[verifier::spinoff_prover]
#[verifier::rlimit(60)]
proof fn lemma_sums_31(q: int)
    requires
        31 <= q < 36,
    ensures
        std_sum(q) == scaled_table_sum(quality_scale(q)),
{
    if q == 31 {
        assert(scaled_table_sum(161) == 5939);
    }
    if q == 32 {
        assert(scaled_table_sum(156) == 5756);
    }
    if q == 33 {
        assert(scaled_table_sum(151) == 5571);
    }
    if q == 34 {
        assert(scaled_table_sum(147) == 5421);
    }
    if q == 35 {
        assert(scaled_table_sum(142) == 5240);
    }
}

#[verifier::spinoff_prover]
#[verifier::rlimit(60)]
proof fn lemma_sums_36(q: int)
    requires
        36 <= q < 41,
    ensures
        std_sum(q) == scaled_table_sum(quality_scale(q)),
{
    if q == 36 {
        assert(scaled_table_sum(138) == 5086);
    }
    if q == 37 {
        assert(scaled_table_sum(135) == 4976);
    }
    if q == 38 {
        assert(scaled_table_sum(131) == 4829);
    }
    if q == 39 {
        assert(scaled_table_sum(128) == 4719);
    }
    if q == 40 {
        assert(scaled_table_sum(125) == 4616);
    }
}

#[verifier::spinoff_prover]
#[verifier::rlimit(60)]
proof fn lemma_sums_41(q: int)
    requires
        41 <= q < 46,
    ensures
        std_sum(q) == scaled_table_sum(quality_scale(q)),
{
    if q == 41 {
        assert(scaled_table_sum(121) == 4463);
    }
    if q == 42 {
        assert(scaled_table_sum(119) == 4393);
    }
    if q == 43 {
        assert(scaled_table_sum(116) == 4280);
    }
    if q == 44 {
        assert(scaled_table_sum(113) == 4166);
    }
    if q == 45 {
        assert(scaled_table_sum(111) == 4092);
    }
}

#[verifier::spinoff_prover]
#[verifier::rlimit(60)]
proof fn lemma_sums_46(q: int)
    requires
        46 <= q < 51,
    ensures
        std_sum(q) == scaled_table_sum(quality_scale(q)),
{
    if q == 46 {
        assert(scaled_table_sum(108) == 3980);
    }
    if q == 47 {
        assert(scaled_table_sum(106) == 3909);
    }
    if q == 48 {
        assert(scaled_table_sum(104) == 3835);
    }
    if q == 49 {
        assert(scaled_table_sum(102) == 3755);
    }
    if q == 50 {
        assert(scaled_table_sum(100) == 3688);
    }
}

#[verifier::spinoff_prover]
#[verifier::rlimit(60)]
proof fn lemma_sums_51(q: int)
    requires
        51 <= q < 56,
    ensures
        std_sum(q) == scaled_table_sum(quality_scale(q)),
{
    if q == 51 {
        assert(scaled_table_sum(98) == 3621);
    }
    if q == 52 {
        assert(scaled_table_sum(96) == 3541);
    }
    if q == 53 {
        assert(scaled_table_sum(94) == 3467);
    }
    if q == 54 {
        assert(scaled_table_sum(92) == 3396);
    }
    if q == 55 {
        assert(scaled_table_sum(90) == 3323);
    }
}

#[verifier::spinoff_prover]
#[verifier::rlimit(60)]
proof fn lemma_sums_56(q: int)
    requires
        56 <= q < 61,
    ensures
        std_sum(q) == scaled_table_sum(quality_scale(q)),
{
    if q == 56 {
        assert(scaled_table_sum(88) == 3247);
    }
    if q == 57 {
        assert(scaled_table_sum(86) == 3170);
    }
    if q == 58 {
        assert(scaled_table_sum(84) == 3096);
    }
    if q == 59 {
        assert(scaled_table_sum(82) == 3021);
    }
    if q == 60 {
        assert(scaled_table_sum(80) == 2952);
    }
}

#[verifier::spinoff_prover]
#[verifier::rlimit(60)]
proof fn lemma_sums_61(q: int)
    requires
        61 <= q < 66,
    ensures
        std_sum(q) == scaled_table_sum(quality_scale(q)),
{
    if q == 61 {
        assert(scaled_table_sum(78) == 2874);
    }
    if q == 62 {
        assert(scaled_table_sum(76) == 2804);
    }
    if q == 63 {
        assert(scaled_table_sum(74) == 2727);
    }
    if q == 64 {
        assert(scaled_table_sum(72) == 2657);
    }
    if q == 65 {
        assert(scaled_table_sum(70) == 2583);
    }
}

#[verifier::spinoff_prover]
#[verifier::rlimit(60)]
proof fn lemma_sums_66(q: int)
    requires
        66 <= q < 71,
    ensures
        std_sum(q) == scaled_table_sum(quality_scale(q)),
{
    if q == 66 {
        assert(scaled_table_sum(68) == 2509);
    }
    if q == 67 {
        assert(scaled_table_sum(66) == 2437);
    }
    if q == 68 {
        assert(scaled_table_sum(64) == 2362);
    }
    if q == 69 {
        assert(scaled_table_sum(62) == 2290);
    }
    if q == 70 {
        assert(scaled_table_sum(60) == 2211);
    }
}

#[verifier::spinoff_prover]
#[verifier::rlimit(60)]
proof fn lemma_sums_71(q: int)
    requires
        71 <= q < 76,
    ensures
        std_sum(q) == scaled_table_sum(quality_scale(q)),
{
    if q == 71 {
        assert(scaled_table_sum(58) == 2136);
    }
    if q == 72 {
        assert(scaled_table_sum(56) == 2068);
    }
    if q == 73 {
        assert(scaled_table_sum(54) == 1996);
    }
    if q == 74 {
        assert(scaled_table_sum(52) == 1915);
    }
    if q == 75 {
        assert(scaled_table_sum(50) == 1858);
    }
}

#[verifier::spinoff_prover]
#[verifier::rlimit(60)]
proof fn lemma_sums_76(q: int)
    requires
        76 <= q < 81,
    ensures
        std_sum(q) == scaled_table_sum(quality_scale(q)),
{
    if q == 76 {
        assert(scaled_table_sum(48) == 1773);
    }
    if q == 77 {
        assert(scaled_table_sum(46) == 1692);
    }
    if q == 78 {
        assert(scaled_table_sum(44) == 1620);
    }
    if q == 79 {
        assert(scaled_table_sum(42) == 1552);
    }
    if q == 80 {
        assert(scaled_table_sum(40) == 1477);
    }
}

#[verifier::spinoff_prover]
#[verifier::rlimit(60)]
proof fn lemma_sums_81(q: int)
    requires
        81 <= q < 86,
    ensures
        std_sum(q) == scaled_table_sum(quality_scale(q)),
{
    if q == 81 {
        assert(scaled_table_sum(38) == 1398);
    }
    if q == 82 {
        assert(scaled_table_sum(36) == 1326);
    }
    if q == 83 {
        assert(scaled_table_sum(34) == 1251);
    }
    if q == 84 {
        assert(scaled_table_sum(32) == 1179);
    }
    if q == 85 {
        assert(scaled_table_sum(30) == 1109);
    }
}

#[verifier::spinoff_prover]
#[verifier::rlimit(60)]
proof fn lemma_sums_86(q: int)
    requires
        86 <= q < 91,
    ensures
        std_sum(q) == scaled_table_sum(quality_scale(q)),
{
    if q == 86 {
        assert(scaled_table_sum(28) == 1031);
    }
    if q == 87 {
        assert(scaled_table_sum(26) == 961);
    }
    if q == 88 {
        assert(scaled_table_sum(24) == 884);
    }
    if q == 89 {
        assert(scaled_table_sum(22) == 814);
    }
    if q == 90 {
        assert(scaled_table_sum(20) == 736);
    }
}

#[verifier::spinoff_prover]
#[verifier::rlimit(60)]
proof fn lemma_sums_91(q: int)
    requires
        91 <= q < 96,
    ensures
        std_sum(q) == scaled_table_sum(quality_scale(q)),
{
    if q == 91 {
        assert(scaled_table_sum(18) == 667);
    }
    if q == 92 {
        assert(scaled_table_sum(16) == 592);
    }
    if q == 93 {
        assert(scaled_table_sum(14) == 518);
    }
    if q == 94 {
        assert(scaled_table_sum(12) == 441);
    }
    if q == 95 {
        assert(scaled_table_sum(10) == 369);
    }
}

#[verifier::spinoff_prover]
#[verifier::rlimit(60)]
proof fn lemma_sums_96(q: int)
    requires
        96 <= q < 101,
    ensures
        std_sum(q) == scaled_table_sum(quality_scale(q)),
{
    if q == 96 {
        assert(scaled_table_sum(8) == 292);
    }
    if q == 97 {
        assert(scaled_table_sum(6) == 221);
    }
    if q == 98 {
        assert(scaled_table_sum(4) == 151);
    }
    if q == 99 {
        assert(scaled_table_sum(2) == 86);
    }
    if q == 100 {
        assert(scaled_table_sum(0) == 64);
    }
}

/// The standard sum of a quality is the sum of the recommended table scaled to it.
pub proof fn law_standard_sums(q: int)
    requires
        1 <= q <= 100,
    ensures
        std_sum(q) == scaled_table_sum(quality_scale(q)),
{
    if q < 6 {
        lemma_sums_1(q);
    } else if q < 11 {
        lemma_sums_6(q);
    } else if q < 16 {
        lemma_sums_11(q);
    } else if q < 21 {
        lemma_sums_16(q);
    } else if q < 26 {
        lemma_sums_21(q);
    } else if q < 31 {
        lemma_sums_26(q);
    } else if q < 36 {
        lemma_sums_31(q);
    } else if q < 41 {
        lemma_sums_36(q);
    } else if q < 46 {
        lemma_sums_41(q);
    } else if q < 51 {
        lemma_sums_46(q);
    } else if q < 56 {
        lemma_sums_51(q);
    } else if q < 61 {
        lemma_sums_56(q);
    } else if q < 66 {
        lemma_sums_61(q);
    } else if q < 71 {
        lemma_sums_66(q);
    } else if q < 76 {
        lemma_sums_71(q);
    } else if q < 81 {
        lemma_sums_76(q);
    } else if q < 86 {
        lemma_sums_81(q);
    } else if q < 91 {
        lemma_sums_86(q);
    } else if q < 96 {
        lemma_sums_91(q);
    } else {
        lemma_sums_96(q);
    }
}

/// How far two numbers are apart.
pub open spec fn apart(a: int, b: int) -> int {
    if a >= b {
        a - b
    } else {
        b - a
    }
}

/// The quality of a table with this sum is one whose scaled table comes nearest to it,
/// and the higher one of two that are equally near.
pub proof fn law_quality_of_a_table(sum: int, q: int)
    requires
        1 <= q <= 100,
    ensures
        ({
            let best = quality_of_sum(sum);
            let here = apart(sum, scaled_table_sum(quality_scale(best)));
            let there = apart(sum, scaled_table_sum(quality_scale(q)));
            &&& 1 <= best <= 100
            &&& here <= there
            &&& here == there ==> q <= best
        }),
{
    law_quality_is_nearest(sum, q);
    law_standard_sums(q);
    law_standard_sums(quality_of_sum(sum));
}

/// A table of entries of one byte, or of two, is summed entry by entry.
pub proof fn law_table_sums(jpg: Seq<u8>, pos: int, n: nat)
    ensures
        sum8(jpg, pos, 0) == 0,
        sum8(jpg, pos, n + 1) == sum8(jpg, pos, n) + jpg[pos + n],
        sum16(jpg, pos, 0) == 0,
        sum16(jpg, pos, n + 1) == sum16(jpg, pos, n) + number_at(jpg, pos + 2 * n),
{
}

/// The tables of a segment follow one another: a byte with the width and the number of
/// the table, then its 64 entries of one byte or two. Each table is entered under its
/// number with its quality.
pub proof fn law_tables_follow_one_another(
    jpg: Seq<u8>,
    pos: int,
    end: int,
    known: Seq<Option<i32>>,
)
    requires
        pos < end,
    ensures
        jpg[pos] < 4 && pos + 65 <= end ==> dqt_tables(jpg, pos, end, known) == dqt_tables(
            jpg,
            pos + 65,
            end,
            known.update(jpg[pos] as int, Some(quality_of_sum(sum8(jpg, pos + 1, 64)) as i32)),
        ),
        16 <= jpg[pos] < 20 && pos + 129 <= end ==> dqt_tables(jpg, pos, end, known)
            == dqt_tables(
            jpg,
            pos + 129,
            end,
            known.update(jpg[pos] - 16, Some(quality_of_sum(sum16(jpg, pos + 1, 64)) as i32)),
        ),
        dqt_tables(jpg, end, end, known) == Some(known),
        !(jpg[pos] < 4 && pos + 65 <= end) && !(16 <= jpg[pos] < 20 && pos + 129 <= end)
            ==> dqt_tables(jpg, pos, end, known) is None,
{
    let b = jpg[pos];
    assert(b < 16 ==> b / 16 == 0 && b as int % 16 == b);
    assert(16 <= b < 32 ==> b / 16 == 1 && b as int % 16 == b - 16);
    assert(b >= 32 ==> b / 16 >= 2);
}

} // verus!
