//! The CRC-8 of bootloader packets.

use vstd::prelude::*;

verus! {

/// The checksum after a byte, indexed by the checksum before it XOR the byte.
pub const CRC8_TABLE: [u8; 256] = [
    0xea, 0xd4, 0x96, 0xa8, 0x12, 0x2c, 0x6e, 0x50, 0x7f, 0x41, 0x03, 0x3d, 0x87, 0xb9, 0xfb, 0xc5,
    0xa5, 0x9b, 0xd9, 0xe7, 0x5d, 0x63, 0x21, 0x1f, 0x30, 0x0e, 0x4c, 0x72, 0xc8, 0xf6, 0xb4, 0x8a,
    0x74, 0x4a, 0x08, 0x36, 0x8c, 0xb2, 0xf0, 0xce, 0xe1, 0xdf, 0x9d, 0xa3, 0x19, 0x27, 0x65, 0x5b,
    0x3b, 0x05, 0x47, 0x79, 0xc3, 0xfd, 0xbf, 0x81, 0xae, 0x90, 0xd2, 0xec, 0x56, 0x68, 0x2a, 0x14,
    0xb3, 0x8d, 0xcf, 0xf1, 0x4b, 0x75, 0x37, 0x09, 0x26, 0x18, 0x5a, 0x64, 0xde, 0xe0, 0xa2, 0x9c,
    0xfc, 0xc2, 0x80, 0xbe, 0x04, 0x3a, 0x78, 0x46, 0x69, 0x57, 0x15, 0x2b, 0x91, 0xaf, 0xed, 0xd3,
    0x2d, 0x13, 0x51, 0x6f, 0xd5, 0xeb, 0xa9, 0x97, 0xb8, 0x86, 0xc4, 0xfa, 0x40, 0x7e, 0x3c, 0x02,
    0x62, 0x5c, 0x1e, 0x20, 0x9a, 0xa4, 0xe6, 0xd8, 0xf7, 0xc9, 0x8b, 0xb5, 0x0f, 0x31, 0x73, 0x4d,
    0x58, 0x66, 0x24, 0x1a, 0xa0, 0x9e, 0xdc, 0xe2, 0xcd, 0xf3, 0xb1, 0x8f, 0x35, 0x0b, 0x49, 0x77,
    0x17, 0x29, 0x6b, 0x55, 0xef, 0xd1, 0x93, 0xad, 0x82, 0xbc, 0xfe, 0xc0, 0x7a, 0x44, 0x06, 0x38,
    0xc6, 0xf8, 0xba, 0x84, 0x3e, 0x00, 0x42, 0x7c, 0x53, 0x6d, 0x2f, 0x11, 0xab, 0x95, 0xd7, 0xe9,
    0x89, 0xb7, 0xf5, 0xcb, 0x71, 0x4f, 0x0d, 0x33, 0x1c, 0x22, 0x60, 0x5e, 0xe4, 0xda, 0x98, 0xa6,
    0x01, 0x3f, 0x7d, 0x43, 0xf9, 0xc7, 0x85, 0xbb, 0x94, 0xaa, 0xe8, 0xd6, 0x6c, 0x52, 0x10, 0x2e,
    0x4e, 0x70, 0x32, 0x0c, 0xb6, 0x88, 0xca, 0xf4, 0xdb, 0xe5, 0xa7, 0x99, 0x23, 0x1d, 0x5f, 0x61,
    0x9f, 0xa1, 0xe3, 0xdd, 0x67, 0x59, 0x1b, 0x25, 0x0a, 0x34, 0x76, 0x48, 0xf2, 0xcc, 0x8e, 0xb0,
    0xd0, 0xee, 0xac, 0x92, 0x28, 0x16, 0x54, 0x6a, 0x45, 0x7b, 0x39, 0x07, 0xbd, 0x83, 0xc1, 0xff,
];

/// The inverse of [`CRC8_TABLE`].
#[allow(dead_code)]
const CRC8_INVERSE: [u8; 256] = [
    0xa5, 0xc0, 0x6f, 0x0a, 0x54, 0x31, 0x9e, 0xfb, 0x22, 0x47, 0xe8, 0x8d, 0xd3, 0xb6, 0x19, 0x7c,
    0xce, 0xab, 0x04, 0x61, 0x3f, 0x5a, 0xf5, 0x90, 0x49, 0x2c, 0x83, 0xe6, 0xb8, 0xdd, 0x72, 0x17,
    0x73, 0x16, 0xb9, 0xdc, 0x82, 0xe7, 0x48, 0x2d, 0xf4, 0x91, 0x3e, 0x5b, 0x05, 0x60, 0xcf, 0xaa,
    0x18, 0x7d, 0xd2, 0xb7, 0xe9, 0x8c, 0x23, 0x46, 0x9f, 0xfa, 0x55, 0x30, 0x6e, 0x0b, 0xa4, 0xc1,
    0x6c, 0x09, 0xa6, 0xc3, 0x9d, 0xf8, 0x57, 0x32, 0xeb, 0x8e, 0x21, 0x44, 0x1a, 0x7f, 0xd0, 0xb5,
    0x07, 0x62, 0xcd, 0xa8, 0xf6, 0x93, 0x3c, 0x59, 0x80, 0xe5, 0x4a, 0x2f, 0x71, 0x14, 0xbb, 0xde,
    0xba, 0xdf, 0x70, 0x15, 0x4b, 0x2e, 0x81, 0xe4, 0x3d, 0x58, 0xf7, 0x92, 0xcc, 0xa9, 0x06, 0x63,
    0xd1, 0xb4, 0x1b, 0x7e, 0x20, 0x45, 0xea, 0x8f, 0x56, 0x33, 0x9c, 0xf9, 0xa7, 0xc2, 0x6d, 0x08,
    0x52, 0x37, 0x98, 0xfd, 0xa3, 0xc6, 0x69, 0x0c, 0xd5, 0xb0, 0x1f, 0x7a, 0x24, 0x41, 0xee, 0x8b,
    0x39, 0x5c, 0xf3, 0x96, 0xc8, 0xad, 0x02, 0x67, 0xbe, 0xdb, 0x74, 0x11, 0x4f, 0x2a, 0x85, 0xe0,
    0x84, 0xe1, 0x4e, 0x2b, 0x75, 0x10, 0xbf, 0xda, 0x03, 0x66, 0xc9, 0xac, 0xf2, 0x97, 0x38, 0x5d,
    0xef, 0x8a, 0x25, 0x40, 0x1e, 0x7b, 0xd4, 0xb1, 0x68, 0x0d, 0xa2, 0xc7, 0x99, 0xfc, 0x53, 0x36,
    0x9b, 0xfe, 0x51, 0x34, 0x6a, 0x0f, 0xa0, 0xc5, 0x1c, 0x79, 0xd6, 0xb3, 0xed, 0x88, 0x27, 0x42,
    0xf0, 0x95, 0x3a, 0x5f, 0x01, 0x64, 0xcb, 0xae, 0x77, 0x12, 0xbd, 0xd8, 0x86, 0xe3, 0x4c, 0x29,
    0x4d, 0x28, 0x87, 0xe2, 0xbc, 0xd9, 0x76, 0x13, 0xca, 0xaf, 0x00, 0x65, 0x3b, 0x5e, 0xf1, 0x94,
    0x26, 0x43, 0xec, 0x89, 0xd7, 0xb2, 0x1d, 0x78, 0xa1, 0xc4, 0x6b, 0x0e, 0x50, 0x35, 0x9a, 0xff,
];

/// The checksum of `data`: from 0 on, one table step per byte.
pub open spec fn crc8_of(data: Seq<u8>) -> u8
    decreases data.len(),
{
    if data.len() == 0 {
        0
    } else {
        CRC8_TABLE@[(crc8_of(data.drop_last()) ^ data.last()) as int]
    }
}

pub fn crc8(data: &[u8]) -> (crc: u8)
    ensures
        crc == crc8_of(data@),
{
    let mut crc: u8 = 0;
    let mut i: usize = 0;
    while i < data.len()
        invariant
            i <= data@.len(),
            crc == crc8_of(data@.take(i as int)),
        decreases data@.len() - i,
    {
        assert(data@.take(i + 1).drop_last() =~= data@.take(i as int));
        crc = CRC8_TABLE[(crc ^ data[i]) as usize];
        i = i + 1;
    }
    assert(data@.take(data@.len() as int) =~= data@);
    crc
}

/// The table is a permutation of the bytes.
proof fn lemma_table_inverse(i: int)
    requires
        0 <= i < 256,
    ensures
        CRC8_INVERSE@[CRC8_TABLE@[i] as int] == i,
{
}

/// From two different checksums, the same bytes lead to different checksums.
proof fn lemma_difference_survives(a: Seq<u8>, b: Seq<u8>, i: int)
    requires
        0 <= i < a.len() == b.len(),
        a.take(i) == b.take(i),
        a[i] != b[i],
        a.skip(i + 1) == b.skip(i + 1),
    ensures
        crc8_of(a) != crc8_of(b),
    decreases a.len(),
{
    let ca = crc8_of(a.drop_last());
    let cb = crc8_of(b.drop_last());
    let da = a.last();
    let db = b.last();
    if i == a.len() - 1 {
        assert(a.drop_last() =~= a.take(i));
        assert(b.drop_last() =~= b.take(i));
        assert(da != db ==> ca ^ da != ca ^ db) by (bit_vector);
    } else {
        assert(a.drop_last().take(i) =~= a.take(i));
        assert(b.drop_last().take(i) =~= b.take(i));
        assert(a.drop_last().skip(i + 1) =~= a.skip(i + 1).drop_last());
        assert(b.drop_last().skip(i + 1) =~= b.skip(i + 1).drop_last());
        assert(da == a.skip(i + 1).last());
        assert(db == b.skip(i + 1).last());
        lemma_difference_survives(a.drop_last(), b.drop_last(), i);
        assert(ca != cb ==> ca ^ da != cb ^ da) by (bit_vector);
    }
    lemma_table_inverse((ca ^ da) as int);
    lemma_table_inverse((cb ^ db) as int);
}

/// Changing one byte, to any other value, changes the checksum.
pub proof fn law_one_changed_byte_is_detected(data: Seq<u8>, i: int, byte: u8)
    requires
        0 <= i < data.len(),
        byte != data[i],
    ensures
        crc8_of(data.update(i, byte)) != crc8_of(data),
{
    let other = data.update(i, byte);
    assert(data.take(i) =~= other.take(i));
    assert(data.skip(i + 1) =~= other.skip(i + 1));
    lemma_difference_survives(data, other, i);
}

/// A byte after eight steps of the shift register with the feedback 0x65, started
/// at 0xEA: each bit of the byte adds what it has been shifted to.
#[verifier::opaque]
spec fn shifted(b: u8) -> u8 {
    0xEAu8 ^ (if b & 1 != 0 {
        0x3Eu8
    } else {
        0
    }) ^ (if b & 2 != 0 {
        0x7Cu8
    } else {
        0
    }) ^ (if b & 4 != 0 {
        0xF8u8
    } else {
        0
    }) ^ (if b & 8 != 0 {
        0x95u8
    } else {
        0
    }) ^ (if b & 16 != 0 {
        0x4Fu8
    } else {
        0
    }) ^ (if b & 32 != 0 {
        0x9Eu8
    } else {
        0
    }) ^ (if b & 64 != 0 {
        0x59u8
    } else {
        0
    }) ^ (if b & 128 != 0 {
        0xB2u8
    } else {
        0
    })
}

proof fn lemma_shifted_table()
    ensures
        forall|b: u8| CRC8_TABLE@[b as int] == #[trigger] shifted(b),
{
    assert(shifted(0) == 0xea && shifted(1) == 0xd4 && shifted(2) == 0x96 && shifted(3) == 0xa8
        && shifted(4) == 0x12 && shifted(5) == 0x2c && shifted(6) == 0x6e && shifted(7) == 0x50
        && shifted(8) == 0x7f && shifted(9) == 0x41 && shifted(10) == 0x03 && shifted(11) == 0x3d
        && shifted(12) == 0x87 && shifted(13) == 0xb9 && shifted(14) == 0xfb && shifted(15) == 0xc5
        && shifted(16) == 0xa5 && shifted(17) == 0x9b && shifted(18) == 0xd9 && shifted(19) == 0xe7
        && shifted(20) == 0x5d && shifted(21) == 0x63 && shifted(22) == 0x21 && shifted(23) == 0x1f
        && shifted(24) == 0x30 && shifted(25) == 0x0e && shifted(26) == 0x4c && shifted(27) == 0x72
        && shifted(28) == 0xc8 && shifted(29) == 0xf6 && shifted(30) == 0xb4 && shifted(31) == 0x8a
        && shifted(32) == 0x74 && shifted(33) == 0x4a && shifted(34) == 0x08 && shifted(35) == 0x36
        && shifted(36) == 0x8c && shifted(37) == 0xb2 && shifted(38) == 0xf0 && shifted(39) == 0xce
        && shifted(40) == 0xe1 && shifted(41) == 0xdf && shifted(42) == 0x9d && shifted(43) == 0xa3
        && shifted(44) == 0x19 && shifted(45) == 0x27 && shifted(46) == 0x65 && shifted(47) == 0x5b
        && shifted(48) == 0x3b && shifted(49) == 0x05 && shifted(50) == 0x47 && shifted(51) == 0x79
        && shifted(52) == 0xc3 && shifted(53) == 0xfd && shifted(54) == 0xbf && shifted(55) == 0x81
        && shifted(56) == 0xae && shifted(57) == 0x90 && shifted(58) == 0xd2 && shifted(59) == 0xec
        && shifted(60) == 0x56 && shifted(61) == 0x68 && shifted(62) == 0x2a && shifted(63) == 0x14) by (bit_vector);
    assert(shifted(64) == 0xb3 && shifted(65) == 0x8d && shifted(66) == 0xcf && shifted(67) == 0xf1
        && shifted(68) == 0x4b && shifted(69) == 0x75 && shifted(70) == 0x37 && shifted(71) == 0x09
        && shifted(72) == 0x26 && shifted(73) == 0x18 && shifted(74) == 0x5a && shifted(75) == 0x64
        && shifted(76) == 0xde && shifted(77) == 0xe0 && shifted(78) == 0xa2 && shifted(79) == 0x9c
        && shifted(80) == 0xfc && shifted(81) == 0xc2 && shifted(82) == 0x80 && shifted(83) == 0xbe
        && shifted(84) == 0x04 && shifted(85) == 0x3a && shifted(86) == 0x78 && shifted(87) == 0x46
        && shifted(88) == 0x69 && shifted(89) == 0x57 && shifted(90) == 0x15 && shifted(91) == 0x2b
        && shifted(92) == 0x91 && shifted(93) == 0xaf && shifted(94) == 0xed && shifted(95) == 0xd3
        && shifted(96) == 0x2d && shifted(97) == 0x13 && shifted(98) == 0x51 && shifted(99) == 0x6f
        && shifted(100) == 0xd5 && shifted(101) == 0xeb && shifted(102) == 0xa9 && shifted(103) == 0x97
        && shifted(104) == 0xb8 && shifted(105) == 0x86 && shifted(106) == 0xc4 && shifted(107) == 0xfa
        && shifted(108) == 0x40 && shifted(109) == 0x7e && shifted(110) == 0x3c && shifted(111) == 0x02
        && shifted(112) == 0x62 && shifted(113) == 0x5c && shifted(114) == 0x1e && shifted(115) == 0x20
        && shifted(116) == 0x9a && shifted(117) == 0xa4 && shifted(118) == 0xe6 && shifted(119) == 0xd8
        && shifted(120) == 0xf7 && shifted(121) == 0xc9 && shifted(122) == 0x8b && shifted(123) == 0xb5
        && shifted(124) == 0x0f && shifted(125) == 0x31 && shifted(126) == 0x73 && shifted(127) == 0x4d) by (bit_vector);
    assert(shifted(128) == 0x58 && shifted(129) == 0x66 && shifted(130) == 0x24 && shifted(131) == 0x1a
        && shifted(132) == 0xa0 && shifted(133) == 0x9e && shifted(134) == 0xdc && shifted(135) == 0xe2
        && shifted(136) == 0xcd && shifted(137) == 0xf3 && shifted(138) == 0xb1 && shifted(139) == 0x8f
        && shifted(140) == 0x35 && shifted(141) == 0x0b && shifted(142) == 0x49 && shifted(143) == 0x77
        && shifted(144) == 0x17 && shifted(145) == 0x29 && shifted(146) == 0x6b && shifted(147) == 0x55
        && shifted(148) == 0xef && shifted(149) == 0xd1 && shifted(150) == 0x93 && shifted(151) == 0xad
        && shifted(152) == 0x82 && shifted(153) == 0xbc && shifted(154) == 0xfe && shifted(155) == 0xc0
        && shifted(156) == 0x7a && shifted(157) == 0x44 && shifted(158) == 0x06 && shifted(159) == 0x38
        && shifted(160) == 0xc6 && shifted(161) == 0xf8 && shifted(162) == 0xba && shifted(163) == 0x84
        && shifted(164) == 0x3e && shifted(165) == 0x00 && shifted(166) == 0x42 && shifted(167) == 0x7c
        && shifted(168) == 0x53 && shifted(169) == 0x6d && shifted(170) == 0x2f && shifted(171) == 0x11
        && shifted(172) == 0xab && shifted(173) == 0x95 && shifted(174) == 0xd7 && shifted(175) == 0xe9
        && shifted(176) == 0x89 && shifted(177) == 0xb7 && shifted(178) == 0xf5 && shifted(179) == 0xcb
        && shifted(180) == 0x71 && shifted(181) == 0x4f && shifted(182) == 0x0d && shifted(183) == 0x33
        && shifted(184) == 0x1c && shifted(185) == 0x22 && shifted(186) == 0x60 && shifted(187) == 0x5e
        && shifted(188) == 0xe4 && shifted(189) == 0xda && shifted(190) == 0x98 && shifted(191) == 0xa6) by (bit_vector);
    assert(shifted(192) == 0x01 && shifted(193) == 0x3f && shifted(194) == 0x7d && shifted(195) == 0x43
        && shifted(196) == 0xf9 && shifted(197) == 0xc7 && shifted(198) == 0x85 && shifted(199) == 0xbb
        && shifted(200) == 0x94 && shifted(201) == 0xaa && shifted(202) == 0xe8 && shifted(203) == 0xd6
        && shifted(204) == 0x6c && shifted(205) == 0x52 && shifted(206) == 0x10 && shifted(207) == 0x2e
        && shifted(208) == 0x4e && shifted(209) == 0x70 && shifted(210) == 0x32 && shifted(211) == 0x0c
        && shifted(212) == 0xb6 && shifted(213) == 0x88 && shifted(214) == 0xca && shifted(215) == 0xf4
        && shifted(216) == 0xdb && shifted(217) == 0xe5 && shifted(218) == 0xa7 && shifted(219) == 0x99
        && shifted(220) == 0x23 && shifted(221) == 0x1d && shifted(222) == 0x5f && shifted(223) == 0x61
        && shifted(224) == 0x9f && shifted(225) == 0xa1 && shifted(226) == 0xe3 && shifted(227) == 0xdd
        && shifted(228) == 0x67 && shifted(229) == 0x59 && shifted(230) == 0x1b && shifted(231) == 0x25
        && shifted(232) == 0x0a && shifted(233) == 0x34 && shifted(234) == 0x76 && shifted(235) == 0x48
        && shifted(236) == 0xf2 && shifted(237) == 0xcc && shifted(238) == 0x8e && shifted(239) == 0xb0
        && shifted(240) == 0xd0 && shifted(241) == 0xee && shifted(242) == 0xac && shifted(243) == 0x92
        && shifted(244) == 0x28 && shifted(245) == 0x16 && shifted(246) == 0x54 && shifted(247) == 0x6a
        && shifted(248) == 0x45 && shifted(249) == 0x7b && shifted(250) == 0x39 && shifted(251) == 0x07
        && shifted(252) == 0xbd && shifted(253) == 0x83 && shifted(254) == 0xc1 && shifted(255) == 0xff) by (bit_vector);
}

/// The table tabulates a shift register. What a byte adds to a checksum does not
/// depend on the other bytes, so of three entries the fourth follows; and twice the
/// byte adds the same, shifted on by one bit with the feedback 0x65.
pub proof fn law_table_is_a_shift_register(a: u8, b: u8)
    ensures
        CRC8_TABLE@[0] == 0xEA,
        CRC8_TABLE@[1] == 0xD4,
        CRC8_TABLE@[(a ^ b) as int] == CRC8_TABLE@[a as int] ^ CRC8_TABLE@[b as int]
            ^ CRC8_TABLE@[0],
        a < 128 ==> ({
            let once = CRC8_TABLE@[a as int] ^ 0xEA;
            let twice = CRC8_TABLE@[2 * a as int] ^ 0xEA;
            twice == (once << 1) ^ (if once & 0x80 != 0 {
                0x65u8
            } else {
                0
            })
        }),
{
    lemma_shifted_table();
    assert(shifted(a ^ b) == shifted(a) ^ shifted(b) ^ shifted(0)) by (bit_vector);
    assert(CRC8_TABLE@[a as int] == shifted(a));
    assert(CRC8_TABLE@[(a ^ b) as int] == shifted(a ^ b));
    assert(CRC8_TABLE@[b as int] == shifted(b));
    assert(CRC8_TABLE@[0u8 as int] == shifted(0));
    if a < 128 {
        let d = (2 * a) as u8;
        assert(CRC8_TABLE@[d as int] == shifted(d));
        assert(a < 128 && d == 2 * a ==> shifted(d) ^ 0xEA == ((shifted(a) ^ 0xEA) << 1) ^ (if (
        shifted(a) ^ 0xEA) & 0x80 != 0 {
            0x65u8
        } else {
            0
        })) by (bit_vector);
    }
}

/// The checksum of nothing is zero, and each further byte is mixed into the checksum
/// so far before it is looked up.
pub proof fn law_checksum_takes_bytes_in_turn(data: Seq<u8>, byte: u8)
    ensures
        crc8_of(Seq::empty()) == 0,
        crc8_of(data.push(byte)) == CRC8_TABLE@[(crc8_of(data) ^ byte) as int],
{
    assert(data.push(byte).drop_last() =~= data);
}

} // verus!
