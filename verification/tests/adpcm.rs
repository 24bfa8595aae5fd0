use rome::adpcm::{
    decode_block_peaks, encode_8ch, encode_block_8ch, BlockPeaks, Channel, CHANNELS,
};

fn fresh() -> [Channel; CHANNELS] {
    std::array::from_fn(|_| Channel::default())
}

/// Left sides climb by 100 a sample, right sides fall by 50.
fn ramps(n: i16) -> [Vec<i16>; CHANNELS] {
    std::array::from_fn(|ch| {
        (0..n).map(|k| if ch % 2 == 0 { k * 100 } else { -k * 50 }).collect()
    })
}

#[test]
fn block_is_512_bytes() {
    let empty = vec![0i16; 0];
    let ch: [&[i16]; CHANNELS] = std::array::from_fn(|_| empty.as_slice());
    let mut states: [Channel; CHANNELS] = std::array::from_fn(|_| Channel::default());
    let b = encode_block_8ch(&ch, &mut states);
    assert_eq!(b.len(), 512);
}

#[test]
fn encode_8ch_block_count() {
    let pcm: Vec<i16> = vec![0i16; 128];
    let channels: [Vec<i16>; CHANNELS] = std::array::from_fn(|_| pcm.clone());
    assert_eq!(encode_8ch(&channels).len(), 1);
    let pcm2: Vec<i16> = vec![0i16; 129];
    let channels2: [Vec<i16>; CHANNELS] = std::array::from_fn(|_| pcm2.clone());
    assert_eq!(encode_8ch(&channels2).len(), 2);
}

#[test]
fn samples_encode_to_known_nibbles() {
    let mut c = Channel::default();
    let expected = [
        (1000i16, 7u8, 11, 8),
        (-1000, 15, -19, 16),
        (0, 2, 2, 15),
        (32767, 7, 58, 23),
        (-32768, 15, -65, 31),
    ];
    for (sample, nibble, predictor, step_index) in expected {
        assert_eq!(c.encode(sample), nibble);
        assert_eq!((c.predictor, c.step_index), (predictor, step_index));
    }
}

#[test]
fn predictor_is_clamped() {
    let mut c = Channel { predictor: 32000, step_index: 88 };
    c.encode(32767);
    assert_eq!((c.predictor, c.step_index), (32767, 87));
    let mut d = Channel { predictor: -32000, step_index: 88 };
    assert_eq!(d.decode(15), -32768);
    assert_eq!(d.step_index, 88);
}

#[test]
fn decoding_ignores_high_bits() {
    let mut a = Channel::default();
    let mut b = Channel::default();
    assert_eq!(a.decode(0x07), b.decode(0xF7));
    assert_eq!(a.predictor, 11);
}

#[test]
fn decoder_follows_encoder() {
    let mut encoder = Channel::default();
    let mut decoder = Channel::default();
    for sample in [0i16, 5, 900, -900, 12000, -32768, 32767, 1, 0, 0] {
        let nibble = encoder.encode(sample);
        assert_eq!(decoder.decode(nibble), encoder.predictor);
        assert_eq!(decoder.step_index, encoder.step_index);
    }
}

#[test]
fn block_layout_is_channel_by_channel() {
    let pcm = ramps(128);
    let slices: [&[i16]; CHANNELS] = std::array::from_fn(|ch| pcm[ch].as_slice());
    let mut states = fresh();
    let block = encode_block_8ch(&slices, &mut states);
    assert_eq!(block[..8], [112, 119, 103, 17, 33, 33, 35, 50]);
    assert_eq!(block[63], 67);
    assert_eq!(block[64..68], [240, 255, 157, 170]);
    assert_eq!(block[..128], block[384..]);
    assert_eq!((states[0].predictor, states[0].step_index), (12701, 29));
    assert_eq!((states[1].predictor, states[1].step_index), (-6354, 22));
}

#[test]
fn block_peaks_of_a_ramp() {
    let pcm = ramps(128);
    let blocks = encode_8ch(&pcm);
    let mut states = fresh();
    let peaks: BlockPeaks = decode_block_peaks(&blocks[0], &mut states);
    assert_eq!((peaks.left, peaks.right), (25402, 12708));
    assert_eq!((states[6].predictor, states[6].step_index), (12701, 29));
}

#[test]
fn silence_has_no_peaks() {
    let mut states = fresh();
    let peaks = decode_block_peaks(&[0u8; 512], &mut states);
    assert_eq!((peaks.left, peaks.right), (0, 0));
}

#[test]
fn stream_decodes_to_encoder_states() {
    let pcm = ramps(300);
    let blocks = encode_8ch(&pcm);
    assert_eq!(blocks.len(), 3);
    let mut encoder = Channel::default();
    for k in 0..384usize {
        encoder.encode(pcm[2].get(k).copied().unwrap_or(0));
    }
    let mut states = fresh();
    for block in &blocks {
        decode_block_peaks(block, &mut states);
    }
    assert_eq!(states[2].predictor, encoder.predictor);
    assert_eq!(states[2].step_index, encoder.step_index);
}

#[test]
fn near_samples_are_tracked() {
    let mut c = Channel { predictor: 500, step_index: 40 };
    let nibble = c.encode(800);
    assert!(nibble < 16);
    assert!((c.predictor - 800).abs() <= 337 / 8 + 2);
}

#[test]
fn empty_input_gives_no_blocks() {
    let channels: [Vec<i16>; CHANNELS] = std::array::from_fn(|_| Vec::new());
    assert_eq!(encode_8ch(&channels).len(), 0);
}

#[test]
fn longer_channels_are_left_out() {
    let short: [Vec<i16>; CHANNELS] = ramps(100);
    let mut long = ramps(100);
    long[5].extend([7i16; 500]);
    assert_eq!(encode_8ch(&short), encode_8ch(&long));
}
