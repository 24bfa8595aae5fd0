use rome::diag::{
    confirms_format, probe_verdict, stress_outcome, yes_no, ByteStats, CodecReport, ExtCsd,
    StressOutcome,
};

#[test]
fn codec_report_fields() {
    let d: [u8; 32] = std::array::from_fn(|i| i as u8);
    let r = CodecReport::from_bytes(&d);
    assert!(!r.init_ok);
    assert_eq!((r.devid_ab, r.devid_cd, r.devid_e), (1, 2, 3));
    assert_eq!((r.pll_lock_status, r.clock_ctl, r.pwr_ctl1, r.hp_ctl), (4, 5, 6, 7));
    assert_eq!((r.tas_p0_r2, r.tas_spk_vol, r.tas_amp_ctl, r.tas_dac), (8, 9, 10, 11));
    assert_eq!((r.i2c_errors, r.audio_running, r.live_pll_lock), (12, true, 14));
    assert_eq!((r.live_vol, r.live_amp, r.live_dac), (15, 16, 17));
    assert_eq!((r.live_dac_vol, r.live_left_vol, r.live_clk), (18, 19, 20));
    assert_eq!((r.stage, r.i2s_ret, r.osc_switch, r.hp_ctl_now), (21, 22, 23, 24));
    assert_eq!(r.cur_block, u32::from_le_bytes([23, 24, 25, 26]));
    assert_eq!(r.read_us, u32::from_le_bytes([27, 28, 29, 30]));
    assert_eq!((r.ain1, r.upload_fail), (u16::from_le_bytes([29, 30]), 28));
    assert_eq!(r.upload_failure(), "?");
}

#[test]
fn codec_report_verdicts() {
    let mut d = [0u8; 32];
    d[0] = 9;
    d[1] = 0x42;
    d[2] = 0xA4;
    d[4] = 3;
    d[14] = 2;
    d[22] = 0xEA;
    d[23] = 2;
    let r = CodecReport::from_bytes(&d);
    assert!(r.init_ok);
    assert_eq!(r.devid_ok(), (true, true));
    assert_eq!(r.pll_locked(), (true, false));
    assert_eq!(r.i2s_ret, -22);
    assert!(r.osc_switched());
    assert_eq!(r.upload_failure(), "none");
    d[28] = 1;
    assert_eq!(CodecReport::from_bytes(&d).upload_failure(), "USB-READ-TIMEOUT");
    d[28] = 2;
    assert_eq!(CodecReport::from_bytes(&d).upload_failure(), "WRITE-FAIL");
}

#[test]
fn yes_and_no() {
    assert_eq!((yes_no(true), yes_no(false)), ("yes", "NO"));
}

#[test]
fn ext_csd_fields() {
    let mut e = [0u8; 512];
    e[33] = 1;
    e[166] = 0x05;
    e[167] = 0x1F;
    e[168..172].copy_from_slice(&512u32.to_le_bytes());
    e[183] = 2;
    e[185] = 1;
    e[196] = 0x57;
    e[212..216].copy_from_slice(&15_269_888u32.to_le_bytes());
    e[231] = 0x55;
    e[232] = 6;
    let r = ExtCsd::from_register(&e);
    assert_eq!((r.sec_count, r.cache_size_kib), (15_269_888, 512));
    assert_eq!((r.bus_width, r.hs_timing, r.device_type), (2, 1, 0x57));
    assert_eq!((r.sec_feature_support, r.trim_mult), (0x55, 6));
    assert!(r.cache_on() && r.reliable_writes_on());
    assert_eq!((r.en_rel_wr(), r.hs_ctrl_rel()), (1, 1));
    assert_eq!(r.cache_bytes(), Some(524_288));
    e[170] = 0x40;
    assert_eq!(ExtCsd::from_register(&e).cache_bytes(), None);
    e[166] = 0x02;
    assert_eq!(ExtCsd::from_register(&e).en_rel_wr(), 0);
    assert_eq!(ExtCsd::from_register(&e).hs_ctrl_rel(), 0);
}

#[test]
fn block_statistics() {
    let mut b = [0u8; 512];
    b[0] = 0xFF;
    b[127] = 1;
    b[128] = 2;
    b[511] = 0xFF;
    let all = ByteStats::of_block(&b);
    assert_eq!((all.zeros, all.ffs, all.nonzero, all.sum), (508, 2, 4, 513));
    let stems: Vec<ByteStats> = (0..4).map(|s| ByteStats::of_stem(&b, s)).collect();
    assert_eq!((stems[0].nonzero, stems[0].sum), (2, 256));
    assert_eq!((stems[1].nonzero, stems[1].sum), (1, 2));
    assert_eq!((stems[2].nonzero, stems[2].zeros), (0, 128));
    assert_eq!(stems.iter().map(|s| s.sum).sum::<u32>(), all.sum);
    assert_eq!(stems.iter().map(|s| s.zeros).sum::<usize>(), all.zeros);
    let full = ByteStats::of_block(&[0xFF; 512]);
    assert_eq!((full.ffs, full.sum), (512, 130_560));
}

#[test]
fn probe_verdicts() {
    let texts: Vec<&str> = (0..5).map(probe_verdict).collect();
    assert_eq!(texts, ["WRITE-FAIL", "readback-fail", "MISMATCH", "ok", "?"]);
}

#[test]
fn stress_outcomes() {
    assert_eq!(stress_outcome(0xFFFF_FFFF), StressOutcome::AllWritten);
    assert_eq!(stress_outcome(0), StressOutcome::FirstFailure { index: 0, block: 9 });
    assert_eq!(
        stress_outcome(18_784),
        StressOutcome::FirstFailure { index: 18_784, block: 18_793 }
    );
}

#[test]
fn only_yes_confirms() {
    assert!(confirms_format("yes\n"));
    assert!(confirms_format("\u{3000} \tyes\r\n"));
    assert!(!confirms_format("y e s"));
    assert!(!confirms_format("YES\n"));
    assert!(!confirms_format("yes please"));
    assert!(!confirms_format("\u{200B}yes"));
    assert!(!confirms_format(""));
}

#[test]
fn all_white_space_is_trimmed() {
    let spaces = [
        '\u{9}', '\u{A}', '\u{B}', '\u{C}', '\u{D}', ' ', '\u{85}', '\u{A0}', '\u{1680}',
        '\u{2000}', '\u{2001}', '\u{2002}', '\u{2003}', '\u{2004}', '\u{2005}', '\u{2006}',
        '\u{2007}', '\u{2008}', '\u{2009}', '\u{200A}', '\u{2028}', '\u{2029}', '\u{202F}',
        '\u{205F}', '\u{3000}',
    ];
    for c in (0..=0x10FFFF).filter_map(char::from_u32) {
        assert_eq!(confirms_format(&format!("{c}yes")), spaces.contains(&c));
        assert_eq!(confirms_format(&format!("yes{c}")), spaces.contains(&c));
    }
}
