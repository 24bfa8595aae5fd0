//! Reading the device's diagnostics.

use vstd::prelude::*;

use crate::le::{read_u16, read_u32};

verus! {

// ---- Audio codec ----

/// What the firmware reports about the audio codec, the speaker amplifier and the
/// last upload. Some bytes are shared: the meaning that counts depends on what the
/// firmware was doing.
#[derive(Clone, Copy, Debug, PartialEq, Eq, Structural)]
pub struct CodecReport {
    pub init_ok: bool,
    pub i2c_errors: u8,
    pub devid_ab: u8,
    pub devid_cd: u8,
    pub devid_e: u8,
    pub pll_lock_status: u8,
    pub clock_ctl: u8,
    pub pwr_ctl1: u8,
    pub hp_ctl: u8,
    pub tas_p0_r2: u8,
    pub tas_spk_vol: u8,
    pub tas_amp_ctl: u8,
    pub tas_dac: u8,
    pub stage: u8,
    pub i2s_ret: i8,
    pub audio_running: bool,
    pub live_pll_lock: u8,
    pub live_vol: u8,
    pub live_amp: u8,
    pub live_dac: u8,
    pub live_dac_vol: u8,
    pub live_left_vol: u8,
    pub live_clk: u8,
    pub osc_switch: u8,
    pub hp_ctl_now: u8,
    pub cur_block: u32,
    pub read_us: u32,
    pub ain1: u16,
    pub upload_fail: u8,
}

/// A byte as a signed number.
pub open spec fn signed(b: u8) -> int {
    if b < 128 {
        b as int
    } else {
        b - 256
    }
}

impl CodecReport {
    pub open spec fn reads(self, d: Seq<u8>) -> bool {
        &&& self.init_ok == (d[0] != 0)
        &&& self.devid_ab == d[1]
        &&& self.devid_cd == d[2]
        &&& self.devid_e == d[3]
        &&& self.pll_lock_status == d[4]
        &&& self.clock_ctl == d[5]
        &&& self.pwr_ctl1 == d[6]
        &&& self.hp_ctl == d[7]
        &&& self.tas_p0_r2 == d[8]
        &&& self.tas_spk_vol == d[9]
        &&& self.tas_amp_ctl == d[10]
        &&& self.tas_dac == d[11]
        &&& self.i2c_errors == d[12]
        &&& self.audio_running == (d[13] != 0)
        &&& self.live_pll_lock == d[14]
        &&& self.live_vol == d[15]
        &&& self.live_amp == d[16]
        &&& self.live_dac == d[17]
        &&& self.live_dac_vol == d[18]
        &&& self.live_left_vol == d[19]
        &&& self.live_clk == d[20]
        &&& self.stage == d[21]
        &&& self.i2s_ret == signed(d[22])
        &&& self.osc_switch == d[23]
        &&& self.hp_ctl_now == d[24]
        &&& self.cur_block == crate::le::u32_value(d.subrange(23, 27))
        &&& self.read_us == crate::le::u32_value(d.subrange(27, 31))
        &&& self.upload_fail == d[28]
        &&& self.ain1 == crate::le::u16_value(d.subrange(29, 31))
    }

    pub fn from_bytes(d: &[u8; 32]) -> (r: CodecReport)
        ensures
            r.reads(d@),
    {
        CodecReport {
            init_ok: d[0] != 0,
            i2c_errors: d[12],
            devid_ab: d[1],
            devid_cd: d[2],
            devid_e: d[3],
            pll_lock_status: d[4],
            clock_ctl: d[5],
            pwr_ctl1: d[6],
            hp_ctl: d[7],
            tas_p0_r2: d[8],
            tas_spk_vol: d[9],
            tas_amp_ctl: d[10],
            tas_dac: d[11],
            stage: d[21],
            i2s_ret: if d[22] < 128 {
                d[22] as i8
            } else {
                (d[22] as i16 - 256) as i8
            },
            audio_running: d[13] != 0,
            live_pll_lock: d[14],
            live_vol: d[15],
            live_amp: d[16],
            live_dac: d[17],
            live_dac_vol: d[18],
            live_left_vol: d[19],
            live_clk: d[20],
            osc_switch: d[23],
            hp_ctl_now: d[24],
            cur_block: read_u32(d, 23),
            read_us: read_u32(d, 27),
            ain1: read_u16(d, 29),
            upload_fail: d[28],
        }
    }

    /// The first two bytes of the codec's id are those of a CS42L42.
    pub fn devid_ok(&self) -> (r: (bool, bool))
        ensures
            r.0 == (self.devid_ab == 0x42),
            r.1 == (self.devid_cd == 0xA4),
    {
        (self.devid_ab == 0x42, self.devid_cd == 0xA4)
    }

    /// The codec's clock was locked at its start, and is so now.
    pub fn pll_locked(&self) -> (r: (bool, bool))
        ensures
            r.0 == (self.pll_lock_status % 2 == 1),
            r.1 == (self.live_pll_lock % 2 == 1),
    {
        (self.pll_lock_status % 2 == 1, self.live_pll_lock % 2 == 1)
    }

    /// The codec runs on the clock that it is fed.
    pub fn osc_switched(&self) -> (r: bool)
        ensures
            r == (self.osc_switch == 0x02),
    {
        self.osc_switch == 0x02
    }

    pub open spec fn fail_text(self) -> Seq<char> {
        if self.upload_fail == 0 {
            "none"@
        } else if self.upload_fail == 1 {
            "USB-READ-TIMEOUT"@
        } else if self.upload_fail == 2 {
            "WRITE-FAIL"@
        } else {
            "?"@
        }
    }

    /// Why the last upload failed.
    pub fn upload_failure(&self) -> (text: &'static str)
        ensures
            text@ == self.fail_text(),
    {
        match self.upload_fail {
            0 => "none",
            1 => "USB-READ-TIMEOUT",
            2 => "WRITE-FAIL",
            _ => "?",
        }
    }
}

/// "yes" or "NO", as a report words it.
pub fn yes_no(b: bool) -> (text: &'static str)
    ensures
        text@ == (if b {
            "yes"@
        } else {
            "NO"@
        }),
{
    if b {
        "yes"
    } else {
        "NO"
    }
}

// ---- eMMC register ----

/// Fields of the eMMC's EXT_CSD register.
#[derive(Clone, Copy, Debug, PartialEq, Eq, Structural)]
pub struct ExtCsd {
    pub sec_count: u32,
    pub cache_ctrl: u8,
    pub wr_rel_param: u8,
    pub wr_rel_set: u8,
    pub cache_size_kib: u32,
    pub bus_width: u8,
    pub hs_timing: u8,
    pub device_type: u8,
    pub sec_feature_support: u8,
    pub trim_mult: u8,
}

impl ExtCsd {
    pub open spec fn reads(self, e: Seq<u8>) -> bool {
        &&& self.sec_count == crate::le::u32_value(e.subrange(212, 216))
        &&& self.cache_ctrl == e[33]
        &&& self.wr_rel_param == e[166]
        &&& self.wr_rel_set == e[167]
        &&& self.cache_size_kib == crate::le::u32_value(e.subrange(168, 172))
        &&& self.bus_width == e[183]
        &&& self.hs_timing == e[185]
        &&& self.device_type == e[196]
        &&& self.sec_feature_support == e[231]
        &&& self.trim_mult == e[232]
    }

    pub fn from_register(e: &[u8; 512]) -> (r: ExtCsd)
        ensures
            r.reads(e@),
    {
        ExtCsd {
            sec_count: read_u32(e, 212),
            cache_ctrl: e[33],
            wr_rel_param: e[166],
            wr_rel_set: e[167],
            cache_size_kib: read_u32(e, 168),
            bus_width: e[183],
            hs_timing: e[185],
            device_type: e[196],
            sec_feature_support: e[231],
            trim_mult: e[232],
        }
    }

    pub fn cache_on(&self) -> (r: bool)
        ensures
            r == (self.cache_ctrl % 2 == 1),
    {
        self.cache_ctrl % 2 == 1
    }

    /// The bit that says whether reliable writes follow the newer definition.
    pub fn en_rel_wr(&self) -> (bit: u8)
        ensures
            bit == self.wr_rel_param / 4 % 2,
    {
        self.wr_rel_param / 4 % 2
    }

    /// The bit that says whether the host can set which areas are written reliably.
    pub fn hs_ctrl_rel(&self) -> (bit: u8)
        ensures
            bit == self.wr_rel_param % 2,
    {
        self.wr_rel_param % 2
    }

    pub fn reliable_writes_on(&self) -> (r: bool)
        ensures
            r == (self.wr_rel_set % 2 == 1),
    {
        self.wr_rel_set % 2 == 1
    }

    /// Size of the cache in bytes, where 32 bits can hold it.
    pub fn cache_bytes(&self) -> (r: Option<u32>)
        ensures
            self.cache_size_kib * 1024 <= u32::MAX ==> r == Some(
                (self.cache_size_kib * 1024) as u32,
            ),
            self.cache_size_kib * 1024 > u32::MAX ==> r is None,
    {
        self.cache_size_kib.checked_mul(1024)
    }
}

// ---- Blocks ----

/// How many bytes of `bytes` are `b`.
pub open spec fn occurrences(bytes: Seq<u8>, b: u8) -> int
    decreases bytes.len(),
{
    if bytes.len() == 0 {
        0
    } else if bytes.last() == b {
        occurrences(bytes.drop_last(), b) + 1
    } else {
        occurrences(bytes.drop_last(), b)
    }
}

/// The sum of all bytes.
pub open spec fn total(bytes: Seq<u8>) -> int
    decreases bytes.len(),
{
    if bytes.len() == 0 {
        0
    } else {
        total(bytes.drop_last()) + bytes.last()
    }
}

/// Counts over a run of bytes.
#[derive(Clone, Copy, Debug, PartialEq, Eq, Structural)]
pub struct ByteStats {
    pub zeros: usize,
    pub ffs: usize,
    pub nonzero: usize,
    pub sum: u32,
}

impl ByteStats {
    pub open spec fn counts(self, bytes: Seq<u8>) -> bool {
        &&& self.zeros == occurrences(bytes, 0)
        &&& self.ffs == occurrences(bytes, 0xFF)
        &&& self.nonzero == bytes.len() - occurrences(bytes, 0)
        &&& self.sum == total(bytes)
    }

    /// Counts over the bytes of `block` from `from` up to `to`.
    fn over(block: &[u8; 512], from: usize, to: usize) -> (s: ByteStats)
        requires
            from <= to <= 512,
        ensures
            s.counts(block@.subrange(from as int, to as int)),
    {
        let mut s: ByteStats = ByteStats { zeros: 0, ffs: 0, nonzero: 0, sum: 0 };
        let mut i: usize = from;
        while i < to
            invariant
                from <= i <= to <= 512,
                s.counts(block@.subrange(from as int, i as int)),
                s.zeros <= i - from,
                s.ffs <= i - from,
                s.nonzero <= i - from,
                s.sum <= 255 * (i - from),
            decreases to - i,
        {
            let b: u8 = block[i];
            if b == 0 {
                s.zeros = s.zeros + 1;
            } else {
                s.nonzero = s.nonzero + 1;
            }
            if b == 0xFF {
                s.ffs = s.ffs + 1;
            }
            s.sum = s.sum + b as u32;
            proof {
                let next = block@.subrange(from as int, i + 1);
                assert(next.drop_last() =~= block@.subrange(from as int, i as int));
                assert(next.last() == b);
            }
            i = i + 1;
        }
        s
    }

    pub fn of_block(block: &[u8; 512]) -> (s: ByteStats)
        ensures
            s.counts(block@),
    {
        assert(block@.subrange(0, 512) =~= block@);
        ByteStats::over(block, 0, 512)
    }

    /// Counts over the part of a block that holds one stem.
    pub fn of_stem(block: &[u8; 512], stem: usize) -> (s: ByteStats)
        requires
            stem < 4,
        ensures
            s.counts(block@.subrange(128 * stem, 128 * stem + 128)),
    {
        ByteStats::over(block, 128 * stem, 128 * stem + 128)
    }
}

/// The counts of a block's four stems make up those of the block.
pub proof fn law_stems_make_the_block(block: Seq<u8>, b: u8)
    requires
        block.len() == 512,
    ensures
        occurrences(block, b) == occurrences(block.subrange(0, 128), b) + occurrences(
            block.subrange(128, 256),
            b,
        ) + occurrences(block.subrange(256, 384), b) + occurrences(block.subrange(384, 512), b),
        total(block) == total(block.subrange(0, 128)) + total(block.subrange(128, 256)) + total(
            block.subrange(256, 384),
        ) + total(block.subrange(384, 512)),
{
    lemma_halves(block.subrange(0, 128), block.subrange(128, 256), b);
    lemma_halves(block.subrange(0, 256), block.subrange(256, 384), b);
    lemma_halves(block.subrange(0, 384), block.subrange(384, 512), b);
    assert(block.subrange(0, 128) + block.subrange(128, 256) =~= block.subrange(0, 256));
    assert(block.subrange(0, 256) + block.subrange(256, 384) =~= block.subrange(0, 384));
    assert(block.subrange(0, 384) + block.subrange(384, 512) =~= block);
}

proof fn lemma_halves(x: Seq<u8>, y: Seq<u8>, b: u8)
    ensures
        occurrences(x + y, b) == occurrences(x, b) + occurrences(y, b),
        total(x + y) == total(x) + total(y),
    decreases y.len(),
{
    if y.len() == 0 {
        assert(x + y =~= x);
    } else {
        lemma_halves(x, y.drop_last(), b);
        assert((x + y).drop_last() =~= x + y.drop_last());
    }
}

// ---- Write tests ----

pub open spec fn probe_text(r: u8) -> Seq<char> {
    if r == 0 {
        "WRITE-FAIL"@
    } else if r == 1 {
        "readback-fail"@
    } else if r == 2 {
        "MISMATCH"@
    } else if r == 3 {
        "ok"@
    } else {
        "?"@
    }
}

/// What a write probe found.
pub fn probe_verdict(r: u8) -> (text: &'static str)
    ensures
        text@ == probe_text(r),
{
    match r {
        0 => "WRITE-FAIL",
        1 => "readback-fail",
        2 => "MISMATCH",
        3 => "ok",
        _ => "?",
    }
}

/// The reply to a stress test in which no block failed.
pub const NO_FAILURE: u32 = 0xFFFF_FFFF;

/// Address of the first block that a stress test writes.
pub const STRESS_START: u32 = 9;

/// How a stress test ended.
#[derive(Clone, Copy, Debug, PartialEq, Eq, Structural)]
pub enum StressOutcome {
    AllWritten,
    /// The first failure, counted from the first block written, and its address.
    FirstFailure { index: u32, block: u32 },
}

pub fn stress_outcome(first_failure: u32) -> (r: StressOutcome)
    requires
        first_failure == NO_FAILURE || first_failure + STRESS_START <= u32::MAX,
    ensures
        first_failure == NO_FAILURE ==> r is AllWritten,
        first_failure != NO_FAILURE ==> (r matches StressOutcome::FirstFailure { index, block }
            && index == first_failure && block == first_failure + STRESS_START),
{
    if first_failure == NO_FAILURE {
        StressOutcome::AllWritten
    } else {
        StressOutcome::FirstFailure {
            index: first_failure,
            block: first_failure + STRESS_START,
        }
    }
}

// ---- Confirmation ----

/// Unicode's white space.
pub open spec fn white_space(c: char) -> bool {
    ||| '\u{9}' <= c <= '\u{D}'
    ||| c == ' '
    ||| c == '\u{85}'
    ||| c == '\u{A0}'
    ||| c == '\u{1680}'
    ||| '\u{2000}' <= c <= '\u{200A}'
    ||| c == '\u{2028}'
    ||| c == '\u{2029}'
    ||| c == '\u{202F}'
    ||| c == '\u{205F}'
    ||| c == '\u{3000}'
}

/// `text` without the white space at its ends.
pub open spec fn trimmed(text: Seq<char>) -> Seq<char>
    decreases text.len(),
{
    if text.len() > 0 && white_space(text.first()) {
        trimmed(text.drop_first())
    } else if text.len() > 0 && white_space(text.last()) {
        trimmed(text.drop_last())
    } else {
        text
    }
}

/// `str::trim`, which removes the characters with Unicode's property White_Space
/// from both ends.
#[verifier::external_body]
fn trim(text: &str) -> (r: String)
    ensures
        r@ == trimmed(text@),
{
    text.trim().to_string()
}

/// Whether an answer confirms that the disk may be formatted.
pub fn confirms_format(line: &str) -> (r: bool)
    ensures
        r == (trimmed(line@) == "yes"@),
{
    trim(line) == "yes".to_string()
}

/// Each byte of the codec's report goes to the fields that it belongs to. A byte
/// taken as signed differs from it by a multiple of 256.
pub proof fn law_codec_report_fields(r: CodecReport, d: Seq<u8>)
    requires
        d.len() == 32,
    ensures
        r.reads(d) <==> {
            &&& (r.init_ok, r.audio_running) == (d[0] != 0, d[13] != 0)
            &&& seq![
                r.devid_ab,
                r.devid_cd,
                r.devid_e,
                r.pll_lock_status,
                r.clock_ctl,
                r.pwr_ctl1,
                r.hp_ctl,
                r.tas_p0_r2,
                r.tas_spk_vol,
                r.tas_amp_ctl,
                r.tas_dac,
                r.i2c_errors,
            ] == d.subrange(1, 13)
            &&& seq![
                r.live_pll_lock,
                r.live_vol,
                r.live_amp,
                r.live_dac,
                r.live_dac_vol,
                r.live_left_vol,
                r.live_clk,
                r.stage,
            ] == d.subrange(14, 22)
            &&& (r.i2s_ret - d[22]) % 256 == 0
            &&& (r.osc_switch, r.hp_ctl_now, r.upload_fail) == (d[23], d[24], d[28])
            &&& r.cur_block == d[23] + 256 * d[24] + 65536 * d[25] + 16777216 * d[26]
            &&& r.read_us == d[27] + 256 * d[28] + 65536 * d[29] + 16777216 * d[30]
            &&& r.ain1 == d[29] + 256 * d[30]
        },
{
    let a = seq![
        r.devid_ab,
        r.devid_cd,
        r.devid_e,
        r.pll_lock_status,
        r.clock_ctl,
        r.pwr_ctl1,
        r.hp_ctl,
        r.tas_p0_r2,
        r.tas_spk_vol,
        r.tas_amp_ctl,
        r.tas_dac,
        r.i2c_errors,
    ];
    let b = seq![
        r.live_pll_lock,
        r.live_vol,
        r.live_amp,
        r.live_dac,
        r.live_dac_vol,
        r.live_left_vol,
        r.live_clk,
        r.stage,
    ];
    crate::le::law_bytes_are_weighed(0, d.subrange(29, 31), d.subrange(23, 27));
    crate::le::law_bytes_are_weighed(0, d.subrange(29, 31), d.subrange(27, 31));
    if r.reads(d) {
        assert(a =~= d.subrange(1, 13));
        assert(b =~= d.subrange(14, 22));
    }
    if a == d.subrange(1, 13) && b == d.subrange(14, 22) {
        assert forall|i: int| 0 <= i < 12 implies #[trigger] a[i] == d[i + 1] by {
            assert(d.subrange(1, 13)[i] == d[i + 1]);
        }
        assert forall|i: int| 0 <= i < 8 implies #[trigger] b[i] == d[i + 14] by {
            assert(d.subrange(14, 22)[i] == d[i + 14]);
        }
        assert(a[0] == d[1] && a[1] == d[2] && a[2] == d[3] && a[3] == d[4] && a[4] == d[5]);
        assert(a[5] == d[6] && a[6] == d[7] && a[7] == d[8] && a[8] == d[9] && a[9] == d[10]);
        assert(a[10] == d[11] && a[11] == d[12]);
        assert(b[0] == d[14] && b[1] == d[15] && b[2] == d[16] && b[3] == d[17] && b[4] == d[18]);
        assert(b[5] == d[19] && b[6] == d[20] && b[7] == d[21]);
    }
}

/// Fields of the EXT_CSD register stand where the eMMC standard puts them.
pub proof fn law_ext_csd_fields(r: ExtCsd, e: Seq<u8>)
    requires
        e.len() == 512,
    ensures
        r.reads(e) <==> {
            &&& r.sec_count == e[212] + 256 * e[213] + 65536 * e[214] + 16777216 * e[215]
            &&& r.cache_size_kib == e[168] + 256 * e[169] + 65536 * e[170] + 16777216 * e[171]
            &&& (r.cache_ctrl, r.wr_rel_param, r.wr_rel_set) == (e[33], e[166], e[167])
            &&& (r.bus_width, r.hs_timing, r.device_type) == (e[183], e[185], e[196])
            &&& (r.sec_feature_support, r.trim_mult) == (e[231], e[232])
        },
{
    crate::le::law_bytes_are_weighed(0, seq![0u8, 0], e.subrange(212, 216));
    crate::le::law_bytes_are_weighed(0, seq![0u8, 0], e.subrange(168, 172));
}

/// Counting and adding up go byte by byte, and do not depend on the order of the
/// bytes: the counts are those of the bytes as a multiset.
pub proof fn law_every_byte_counts_once(bytes: Seq<u8>, b: u8)
    ensures
        occurrences(bytes, b) == bytes.to_multiset().count(b),
        total(bytes) == bytes.fold_left(0, |sum: int, x: u8| sum + x),
    decreases bytes.len(),
{
    bytes.to_multiset_ensures();
    if bytes.len() > 0 {
        let rest = bytes.drop_last();
        law_every_byte_counts_once(rest, b);
        rest.to_multiset_ensures();
        assert(rest.push(bytes.last()) =~= bytes);
    }
}

/// The counts of a run of bytes fit together: every byte is zero or not.
pub proof fn law_counts_fit_together(s: ByteStats, bytes: Seq<u8>)
    requires
        s.counts(bytes),
    ensures
        s.zeros == occurrences(bytes, 0),
        s.ffs == occurrences(bytes, 255),
        s.zeros + s.nonzero == bytes.len(),
        s.sum == total(bytes),
{
}

/// What is trimmed starts and ends with no white space, and nothing but white space
/// is gone from either side.
pub proof fn law_trimming_takes_white_space_only(text: Seq<char>)
    ensures
        trimmed(text).len() > 0 ==> !white_space(trimmed(text).first()) && !white_space(
            trimmed(text).last(),
        ),
        exists|i: int, j: int|
            #![trigger text.subrange(i, j)]
            0 <= i <= j <= text.len() && trimmed(text) == text.subrange(i, j) && (forall|k: int|
                0 <= k < i || j <= k < text.len() ==> white_space(#[trigger] text[k])),
    decreases text.len(),
{
    if text.len() > 0 && white_space(text.first()) {
        let rest = text.drop_first();
        law_trimming_takes_white_space_only(rest);
        let (i, j) = choose|i: int, j: int|
            #![trigger rest.subrange(i, j)]
            0 <= i <= j <= rest.len() && trimmed(rest) == rest.subrange(i, j) && (forall|k: int|
                0 <= k < i || j <= k < rest.len() ==> white_space(#[trigger] rest[k]));
        assert(text.subrange(i + 1, j + 1) =~= rest.subrange(i, j));
        assert forall|k: int| 0 <= k < i + 1 || j + 1 <= k < text.len() implies white_space(
            #[trigger] text[k],
        ) by {
            if k > 0 {
                assert(rest[k - 1] == text[k]);
            }
        }
    } else if text.len() > 0 && white_space(text.last()) {
        let rest = text.drop_last();
        law_trimming_takes_white_space_only(rest);
        let (i, j) = choose|i: int, j: int|
            #![trigger rest.subrange(i, j)]
            0 <= i <= j <= rest.len() && trimmed(rest) == rest.subrange(i, j) && (forall|k: int|
                0 <= k < i || j <= k < rest.len() ==> white_space(#[trigger] rest[k]));
        assert(text.subrange(i, j) =~= rest.subrange(i, j));
        assert forall|k: int| 0 <= k < i || j <= k < text.len() implies white_space(
            #[trigger] text[k],
        ) by {
            if k < text.len() - 1 {
                assert(rest[k] == text[k]);
            }
        }
    } else {
        assert(text.subrange(0, text.len() as int) =~= text);
    }
}

/// The words for verdicts and failures.
pub proof fn law_verdict_words(r: u8, report: CodecReport)
    ensures
        probe_text(0) == "WRITE-FAIL"@,
        probe_text(1) == "readback-fail"@,
        probe_text(2) == "MISMATCH"@,
        probe_text(3) == "ok"@,
        r > 3 ==> probe_text(r) == "?"@,
        report.upload_fail == 0 ==> report.fail_text() == "none"@,
        report.upload_fail == 1 ==> report.fail_text() == "USB-READ-TIMEOUT"@,
        report.upload_fail == 2 ==> report.fail_text() == "WRITE-FAIL"@,
        report.upload_fail > 2 ==> report.fail_text() == "?"@,
{
}

} // verus!
