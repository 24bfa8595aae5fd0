//! IMA-ADPCM codec for the 8-channel SP1F block format.
//!
//! A block is 512 bytes and carries 128 samples of each of 8 channels:
//! channel `ch` owns the bytes `64 * ch .. 64 * ch + 64`, two samples per byte,
//! the earlier one in the low nibble. Channels `2 * s` and `2 * s + 1` are the
//! left and right side of stem `s`.
//!
//! The codec state of a channel carries over from block to block and starts at
//! predictor 0, step index 0.

use vstd::prelude::*;

verus! {

/// Quantiser step sizes, indexed by the step index of a channel.
pub const STEP_TABLE: [i32; 89] = [
    7, 8, 9, 10, 11, 12, 13, 14, 16, 17, 19, 21, 23, 25, 28, 31, 34, 37, 41,
    45, 50, 55, 60, 66, 73, 80, 88, 97, 107, 118, 130, 143, 157, 173, 190,
    209, 230, 253, 279, 307, 337, 371, 408, 449, 494, 544, 598, 658, 724, 796,
    876, 963, 1060, 1166, 1282, 1411, 1552, 1707, 1878, 2066, 2272, 2499, 2749,
    3024, 3327, 3660, 4026, 4428, 4871, 5358, 5894, 6484, 7132, 7845, 8630,
    9493, 10442, 11487, 12635, 13899, 15289, 16818, 18500, 20350, 22385, 24623,
    27086, 29794, 32767,
];

/// How far each nibble moves the step index.
pub const INDEX_TABLE: [i32; 16] = [
    -1, -1, -1, -1, 2, 4, 6, 8,
    -1, -1, -1, -1, 2, 4, 6, 8,
];

pub const SAMPLES_PER_BLOCK: usize = 128;
pub const BLOCK_SIZE: usize = 512;
pub const CHANNELS: usize = 8;

/// Codec state of one channel.
#[derive(Clone, Copy, Debug)]
pub struct Channel {
    pub predictor: i32,
    pub step_index: i32,
}

/// Mathematical model of [`Channel`].
pub ghost struct ChannelModel {
    pub predictor: int,
    pub step_index: int,
}

impl View for Channel {
    type V = ChannelModel;

    open spec fn view(&self) -> ChannelModel {
        ChannelModel { predictor: self.predictor as int, step_index: self.step_index as int }
    }
}

pub open spec fn clamp_int(x: int, lo: int, hi: int) -> int {
    if x < lo {
        lo
    } else if x > hi {
        hi
    } else {
        x
    }
}

/// The binary digit of weight `weight` is set in `bits`.
pub open spec fn digit(bits: int, weight: int) -> bool {
    (bits / weight) % 2 == 1
}

/// The change of the predictor, without its sign, that a nibble stands for:
/// an eighth of the step, plus the step, its half and its quarter as the three
/// low bits of the nibble say.
pub open spec fn delta(step: int, nibble: int) -> int {
    step / 8 + (if digit(nibble, 4) { step } else { 0 })
        + (if digit(nibble, 2) { step / 2 } else { 0 })
        + (if digit(nibble, 1) { step / 4 } else { 0 })
}

/// The three magnitude bits for a distance `mag`: the step, its half and its
/// quarter are subtracted in turn from what is left, as long as they fit.
pub open spec fn magnitude_bits(mag: int, step: int) -> int {
    let rest4 = if mag >= step { mag - step } else { mag };
    let rest2 = if rest4 >= step / 2 { rest4 - step / 2 } else { rest4 };
    (if mag >= step { 4int } else { 0 }) + (if rest4 >= step / 2 { 2int } else { 0 })
        + (if rest2 >= step / 4 { 1int } else { 0 })
}

/// Absolute value in 32-bit arithmetic: `i32::MIN` stays as it is.
pub open spec fn wrapped_abs(x: int) -> int {
    if x < 0 && x != i32::MIN {
        -x
    } else {
        x
    }
}

impl ChannelModel {
    /// The state that every stream starts from.
    pub open spec fn start() -> ChannelModel {
        ChannelModel { predictor: 0, step_index: 0 }
    }

    /// The predictor is a 16-bit sample and the step index is in the table.
    pub open spec fn wf(self) -> bool {
        &&& -32768 <= self.predictor <= 32767
        &&& 0 <= self.step_index <= 88
    }

    /// The distance to `sample` fits in 32 bits and the step index is in the table.
    pub open spec fn accepts(self, sample: i16) -> bool {
        &&& 0 <= self.step_index <= 88
        &&& i32::MIN <= sample - self.predictor <= i32::MAX
    }

    pub open spec fn step(self) -> int {
        STEP_TABLE@[self.step_index] as int
    }

    /// The nibble that `sample` is encoded as: bit 3 is the sign of its distance
    /// from the predictor, the rest its magnitude.
    pub open spec fn nibble(self, sample: i16) -> int {
        let diff = sample - self.predictor;
        (if diff < 0 { 8int } else { 0 }) + magnitude_bits(wrapped_abs(diff), self.step())
    }

    /// The state after a nibble, in the encoder and in the decoder alike.
    pub open spec fn decoded(self, nibble: int) -> ChannelModel {
        let d = delta(self.step(), nibble);
        ChannelModel {
            predictor: clamp_int(
                if digit(nibble, 8) { self.predictor - d } else { self.predictor + d },
                -32768,
                32767,
            ),
            step_index: clamp_int(self.step_index + INDEX_TABLE@[nibble], 0, 88),
        }
    }

    /// The state after encoding one sample.
    pub open spec fn encoded(self, sample: i16) -> ChannelModel {
        self.decoded(self.nibble(sample))
    }

    /// The state after encoding the first `n` of `samples`.
    pub open spec fn after(self, samples: Seq<i16>, n: int) -> ChannelModel
        decreases n,
    {
        if n <= 0 {
            self
        } else {
            self.after(samples, n - 1).encoded(samples[n - 1])
        }
    }

    /// The nibble of `samples[i]` when `samples` is encoded from this state on.
    pub open spec fn nibble_at(self, samples: Seq<i16>, i: int) -> int {
        self.after(samples, i).nibble(samples[i])
    }
}

proof fn lemma_step_bounds(i: int)
    requires
        0 <= i <= 88,
    ensures
        7 <= STEP_TABLE@[i] <= 32767,
{
}

proof fn lemma_index_bounds(i: int)
    requires
        0 <= i < 16,
    ensures
        -1 <= INDEX_TABLE@[i] <= 8,
{
}

proof fn lemma_nibble_range(c: ChannelModel, sample: i16)
    ensures
        0 <= c.nibble(sample) < 16,
{
}

impl Default for Channel {
    fn default() -> (c: Channel)
        ensures
            c@ == ChannelModel::start(),
    {
        Channel { predictor: 0, step_index: 0 }
    }
}

fn clamp(x: i32, lo: i32, hi: i32) -> (r: i32)
    ensures
        r == clamp_int(x as int, lo as int, hi as int),
{
    if x < lo {
        lo
    } else if x > hi {
        hi
    } else {
        x
    }
}

/// `x` without its sign, in 32 bits.
fn abs_wrapped(x: i32) -> (r: i32)
    ensures
        r == wrapped_abs(x as int),
{
    if x < 0 && x != i32::MIN {
        -x
    } else {
        x
    }
}

impl Channel {
    /// Encodes one sample to its nibble and moves the state on.
    pub fn encode(&mut self, sample: i16) -> (nibble: u8)
        requires
            old(self)@.accepts(sample),
        ensures
            nibble == old(self)@.nibble(sample),
            nibble < 16,
            final(self)@ == old(self)@.encoded(sample),
            final(self)@.wf(),
    {
        proof {
            lemma_step_bounds(self.step_index as int);
            lemma_nibble_range(self@, sample);
            lemma_index_bounds(self@.nibble(sample));
        }
        let step: i32 = STEP_TABLE[self.step_index as usize];
        let diff: i32 = sample as i32 - self.predictor;

        let mut nibble: u8 = if diff < 0 { 8 } else { 0 };
        let mut rest: i32 = abs_wrapped(diff);
        let mut diffq: i32 = step / 8;
        if rest >= step {
            nibble = nibble + 4;
            rest = rest - step;
            diffq = diffq + step;
        }
        if rest >= step / 2 {
            nibble = nibble + 2;
            rest = rest - step / 2;
            diffq = diffq + step / 2;
        }
        if rest >= step / 4 {
            nibble = nibble + 1;
            diffq = diffq + step / 4;
        }
        assert(nibble == old(self)@.nibble(sample));
        assert(diffq == delta(step as int, nibble as int));
        assert(digit(nibble as int, 8) == (diff < 0));

        let moved: i32 = if diff < 0 { self.predictor - diffq } else { self.predictor + diffq };
        self.predictor = clamp(moved, -32768, 32767);
        self.step_index = clamp(self.step_index + INDEX_TABLE[nibble as usize], 0, 88);
        nibble
    }

    /// Moves the state on by one nibble and returns the sample it stands for.
    /// Only the low four bits of `nibble` count.
    pub fn decode(&mut self, nibble: u8) -> (sample: i32)
        requires
            old(self)@.wf(),
        ensures
            final(self)@ == old(self)@.decoded(nibble as int % 16),
            final(self)@.wf(),
            sample == final(self)@.predictor,
    {
        let n: u8 = nibble % 16;
        proof {
            lemma_step_bounds(self.step_index as int);
            lemma_index_bounds(n as int);
        }
        let step: i32 = STEP_TABLE[self.step_index as usize];
        let mut d: i32 = step / 8;
        if (n / 4) % 2 == 1 {
            d = d + step;
        }
        if (n / 2) % 2 == 1 {
            d = d + step / 2;
        }
        if n % 2 == 1 {
            d = d + step / 4;
        }
        let moved: i32 = if n / 8 == 1 { self.predictor - d } else { self.predictor + d };
        self.predictor = clamp(moved, -32768, 32767);
        self.step_index = clamp(self.step_index + INDEX_TABLE[n as usize], 0, 88);
        self.predictor
    }
}

/// `samples` cut or zero-padded to `n` samples.
pub open spec fn fitted(samples: Seq<i16>, n: int) -> Seq<i16> {
    Seq::new(n as nat, |i: int| if i < samples.len() { samples[i] } else { 0i16 })
}

/// The byte that holds samples `2 * b` and `2 * b + 1`, the earlier one in the
/// low nibble.
pub open spec fn packed_byte(c: ChannelModel, samples: Seq<i16>, b: int) -> u8 {
    (c.nibble_at(samples, 2 * b) + 16 * c.nibble_at(samples, 2 * b + 1)) as u8
}

/// The block that encodes 128 samples of each channel, from the given states on.
pub open spec fn encoded_block(states: Seq<ChannelModel>, inputs: Seq<Seq<i16>>) -> Seq<u8> {
    Seq::new(512, |j: int| packed_byte(states[j / 64], inputs[j / 64], j % 64))
}

/// The models of a row of channels.
pub open spec fn models(states: Seq<Channel>) -> Seq<ChannelModel> {
    states.map_values(|c: Channel| c@)
}

fn sample_or_zero(samples: &[i16], i: usize) -> (s: i16)
    ensures
        s == (if i < samples@.len() { samples@[i as int] } else { 0i16 }),
{
    if i < samples.len() {
        samples[i]
    } else {
        0
    }
}

proof fn lemma_after_wf(c: ChannelModel, samples: Seq<i16>, n: int)
    requires
        samples.len() > 0,
        c.accepts(samples[0]),
        1 <= n <= samples.len(),
    ensures
        c.after(samples, n).wf(),
    decreases n,
{
    if n > 1 {
        lemma_after_wf(c, samples, n - 1);
    } else {
        assert(c.after(samples, 0) == c);
    }
    let prev = c.after(samples, n - 1);
    assert(prev.accepts(samples[n - 1]));
    lemma_step_bounds(prev.step_index);
    lemma_nibble_range(prev, samples[n - 1]);
    lemma_index_bounds(prev.nibble(samples[n - 1]));
}

/// Encodes the samples of one channel into its 64 bytes of a block.
fn encode_channel(samples: &[i16], state: &mut Channel, block: &mut [u8; 512], ch: usize)
    requires
        ch < 8,
        old(state)@.accepts(fitted(samples@, 128)[0]),
    ensures
        final(state)@ == old(state)@.after(fitted(samples@, 128), 128),
        forall|j: int|
            0 <= j < 512 ==> #[trigger] final(block)@[j] == if j / 64 == ch {
                packed_byte(old(state)@, fitted(samples@, 128), j % 64)
            } else {
                old(block)@[j]
            },
{
    let ghost start = state@;
    let ghost input = fitted(samples@, 128);
    let ghost before = block@;
    let base: usize = ch * 64;
    let mut b: usize = 0;
    while b < 64
        invariant
            b <= 64,
            ch < 8,
            base == ch * 64,
            input == fitted(samples@, 128),
            start.accepts(input[0]),
            state@ == start.after(input, 2 * b),
            before.len() == 512,
            block@.len() == 512,
            forall|j: int|
                0 <= j < 512 ==> #[trigger] block@[j] == if base <= j < base + b {
                    packed_byte(start, input, j - base)
                } else {
                    before[j]
                },
        decreases 64 - b,
    {
        proof {
            if b > 0 {
                lemma_after_wf(start, input, 2 * b);
            }
        }
        let s0: i16 = sample_or_zero(samples, b * 2);
        let s1: i16 = sample_or_zero(samples, b * 2 + 1);
        let n0: u8 = state.encode(s0);
        let n1: u8 = state.encode(s1);
        assert(start.after(input, 2 * b + 1) == start.after(input, 2 * b as int).encoded(s0));
        assert(n0 == start.nibble_at(input, 2 * b as int));
        assert(n1 == start.nibble_at(input, 2 * b + 1));
        assert(start.after(input, 2 * (b + 1)) == start.after(input, 2 * b + 1).encoded(s1));
        block[base + b] = n1 * 16 + n0;
        b = b + 1;
    }
}

/// Encodes one block from up to 128 samples of each channel; shorter slices are
/// zero-padded, longer ones cut. The states carry over to the next call.
pub fn encode_block_8ch(channels: &[&[i16]; CHANNELS], states: &mut [Channel; CHANNELS]) -> (block:
    [u8; BLOCK_SIZE])
    requires
        forall|ch: int|
            0 <= ch < 8 ==> (#[trigger] old(states)@[ch])@.accepts(
                fitted(channels@[ch]@, 128)[0],
            ),
    ensures
        block@ == encoded_block(
            models(old(states)@),
            Seq::new(8, |ch: int| fitted(channels@[ch]@, 128)),
        ),
        forall|ch: int|
            0 <= ch < 8 ==> (#[trigger] final(states)@[ch])@ == old(states)@[ch]@.after(
                fitted(channels@[ch]@, 128),
                128,
            ),
        forall|ch: int| 0 <= ch < 8 ==> (#[trigger] final(states)@[ch])@.wf(),
{
    let ghost start = states@;
    let mut block: [u8; 512] = [0u8; 512];
    let mut ch: usize = 0;
    while ch < 8
        invariant
            ch <= 8,
            start.len() == 8,
            forall|c: int|
                0 <= c < 8 ==> (#[trigger] start[c])@.accepts(fitted(channels@[c]@, 128)[0]),
            forall|c: int| ch <= c < 8 ==> #[trigger] states@[c] == start[c],
            forall|c: int|
                0 <= c < ch ==> (#[trigger] states@[c])@ == start[c]@.after(
                    fitted(channels@[c]@, 128),
                    128,
                ),
            forall|j: int|
                0 <= j < 64 * ch ==> #[trigger] block@[j] == packed_byte(
                    start[j / 64]@,
                    fitted(channels@[j / 64]@, 128),
                    j % 64,
                ),
        decreases 8 - ch,
    {
        assert(states@[ch as int] == start[ch as int]);
        encode_channel(channels[ch], &mut states[ch], &mut block, ch);
        ch = ch + 1;
    }
    assert forall|c: int| 0 <= c < 8 implies (#[trigger] states@[c])@.wf() by {
        lemma_after_wf(start[c]@, fitted(channels@[c]@, 128), 128);
    }
    block
}

/// How many blocks `frames` samples per channel fill, the last one padded.
pub open spec fn blocks_for(frames: int) -> int {
    (frames + 127) / 128
}

/// What is encoded of one channel: its first `frames` samples, zero-padded to
/// whole blocks.
pub open spec fn channel_stream(samples: Seq<i16>, frames: int) -> Seq<i16> {
    fitted(samples.take(frames), 128 * blocks_for(frames))
}

/// Block `k` of the encoding of the given streams, each from the start state on.
pub open spec fn stream_block(streams: Seq<Seq<i16>>, k: int) -> Seq<u8> {
    Seq::new(
        512,
        |j: int| packed_byte(ChannelModel::start(), streams[j / 64], 64 * k + j % 64),
    )
}

/// Encoding a window of a longer stream from the state reached there gives the
/// states and nibbles of the longer stream.
proof fn lemma_window(c: ChannelModel, whole: Seq<i16>, window: Seq<i16>, at: int, n: int)
    requires
        0 <= at,
        0 <= n <= window.len(),
        at + window.len() <= whole.len(),
        forall|i: int| 0 <= i < window.len() ==> #[trigger] window[i] == whole[at + i],
    ensures
        c.after(whole, at).after(window, n) == c.after(whole, at + n),
        n < window.len() ==> c.after(whole, at).nibble_at(window, n) == c.nibble_at(whole, at + n),
    decreases n,
{
    if n > 0 {
        lemma_window(c, whole, window, at, n - 1);
        assert(window[n - 1] == whole[at + n - 1]);
    }
    if n < window.len() {
        assert(window[n] == whole[at + n]);
    }
}

/// Encodes 8 channels of samples into blocks. The first channel sets the length;
/// the others are at least as long, and what they hold beyond it is left out.
pub fn encode_8ch(channel_pcm: &[Vec<i16>; CHANNELS]) -> (blocks: Vec<[u8; BLOCK_SIZE]>)
    requires
        forall|ch: int|
            0 <= ch < 8 ==> (#[trigger] channel_pcm@[ch])@.len() >= channel_pcm@[0]@.len(),
    ensures
        blocks@.len() == blocks_for(channel_pcm@[0]@.len() as int),
        forall|k: int|
            0 <= k < blocks@.len() ==> (#[trigger] blocks@[k])@ == stream_block(
                Seq::new(
                    8,
                    |ch: int|
                        channel_stream(channel_pcm@[ch]@, channel_pcm@[0]@.len() as int),
                ),
                k,
            ),
{
    let frames: usize = channel_pcm[0].len();
    let block_count: usize = frames / 128 + if frames % 128 == 0 { 0usize } else { 1usize };
    let ghost streams = Seq::new(8, |ch: int| channel_stream(channel_pcm@[ch]@, frames as int));
    let mut states: [Channel; 8] = [
        Channel::default(),
        Channel::default(),
        Channel::default(),
        Channel::default(),
        Channel::default(),
        Channel::default(),
        Channel::default(),
        Channel::default(),
    ];
    let mut blocks: Vec<[u8; 512]> = Vec::with_capacity(block_count);
    let mut b: usize = 0;
    while b < block_count
        invariant
            b <= block_count,
            block_count == blocks_for(frames as int),
            frames == channel_pcm@[0]@.len(),
            forall|ch: int| 0 <= ch < 8 ==> (#[trigger] channel_pcm@[ch])@.len() >= frames,
            streams == Seq::new(
                8,
                |ch: int| channel_stream(channel_pcm@[ch]@, frames as int),
            ),
            forall|ch: int|
                0 <= ch < 8 ==> (#[trigger] states@[ch])@ == ChannelModel::start().after(
                    streams[ch],
                    128 * b,
                ),
            forall|ch: int| 0 <= ch < 8 ==> (#[trigger] states@[ch])@.wf(),
            blocks@.len() == b,
            forall|k: int|
                0 <= k < b ==> (#[trigger] blocks@[k])@ == stream_block(streams, k),
        decreases block_count - b,
    {
        let start: usize = b * 128;
        let end: usize = if frames - start < 128 { frames } else { start + 128 };
        let slices: [&[i16]; 8] = [
            &channel_pcm[0][start..end],
            &channel_pcm[1][start..end],
            &channel_pcm[2][start..end],
            &channel_pcm[3][start..end],
            &channel_pcm[4][start..end],
            &channel_pcm[5][start..end],
            &channel_pcm[6][start..end],
            &channel_pcm[7][start..end],
        ];
        let ghost before = states@;
        let block: [u8; 512] = encode_block_8ch(&slices, &mut states);
        proof {
            let inputs = Seq::new(8, |ch: int| fitted(slices@[ch]@, 128));
            assert forall|ch: int| 0 <= ch < 8 implies (#[trigger] inputs[ch]).len() == 128
                && forall|i: int|
                0 <= i < 128 ==> #[trigger] inputs[ch][i] == streams[ch][128 * b + i] by {}
            assert forall|ch: int, i: int| 0 <= ch < 8 && 0 <= i < 128 implies
                before[ch]@.nibble_at(inputs[ch], i) == #[trigger] ChannelModel::start().nibble_at(
                streams[ch],
                128 * b + i,
            ) by {
                lemma_window(ChannelModel::start(), streams[ch], inputs[ch], 128 * b, i);
            }
            assert(block@ =~= stream_block(streams, b as int)) by {
                assert forall|j: int| 0 <= j < 512 implies #[trigger] block@[j] == stream_block(
                    streams,
                    b as int,
                )[j] by {
                    let ch = j / 64;
                    let i = j % 64;
                    assert(128 * b + 2 * i == 2 * (64 * b + i));
                    assert(128 * b + (2 * i + 1) == 2 * (64 * b + i) + 1);
                    assert(before[ch]@.nibble_at(inputs[ch], 2 * i)
                        == ChannelModel::start().nibble_at(streams[ch], 128 * b + 2 * i));
                    assert(before[ch]@.nibble_at(inputs[ch], 2 * i + 1)
                        == ChannelModel::start().nibble_at(streams[ch], 128 * b + (2 * i + 1)));
                }
            }
            assert forall|ch: int| 0 <= ch < 8 implies (#[trigger] states@[ch])@
                == ChannelModel::start().after(streams[ch], 128 * (b + 1)) by {
                lemma_window(ChannelModel::start(), streams[ch], inputs[ch], 128 * b, 128);
            }
        }
        blocks.push(block);
        b = b + 1;
    }
    blocks
}

/// Nibble `i` of channel `ch` in a block.
pub open spec fn block_nibble(block: Seq<u8>, ch: int, i: int) -> int {
    let byte = block[64 * ch + i / 2] as int;
    if i % 2 == 1 {
        byte / 16
    } else {
        byte % 16
    }
}

impl ChannelModel {
    /// The state after decoding the first `n` nibbles of channel `ch` in `block`.
    pub open spec fn after_block(self, block: Seq<u8>, ch: int, n: int) -> ChannelModel
        decreases n,
    {
        if n <= 0 {
            self
        } else {
            self.after_block(block, ch, n - 1).decoded(block_nibble(block, ch, n - 1))
        }
    }
}

/// Sample `i` of a block with the four stems summed, on the left (`side` 0) or
/// the right (`side` 1).
pub open spec fn mixed(states: Seq<ChannelModel>, block: Seq<u8>, side: int, i: int) -> int {
    states[side].after_block(block, side, i + 1).predictor + states[2 + side].after_block(
        block,
        2 + side,
        i + 1,
    ).predictor + states[4 + side].after_block(block, 4 + side, i + 1).predictor
        + states[6 + side].after_block(block, 6 + side, i + 1).predictor
}

/// The magnitude of half of `x`, halved towards negative infinity.
pub open spec fn half_magnitude(x: int) -> int {
    if x / 2 < 0 {
        -(x / 2)
    } else {
        x / 2
    }
}

/// The greatest half magnitude among the first `n` mixed samples of a side.
pub open spec fn peak(states: Seq<ChannelModel>, block: Seq<u8>, side: int, n: int) -> int
    decreases n,
{
    if n <= 0 {
        0
    } else {
        let before = peak(states, block, side, n - 1);
        let here = half_magnitude(mixed(states, block, side, n - 1));
        if here > before {
            here
        } else {
            before
        }
    }
}

/// Loudest mixed sample of a block on each side.
#[derive(Clone, Copy, Debug, PartialEq, Eq, Structural)]
pub struct BlockPeaks {
    pub left: i32,
    pub right: i32,
}

fn half_abs(x: i32) -> (r: i32)
    requires
        -0x10_0000 <= x <= 0x10_0000,
    ensures
        r == half_magnitude(x as int),
{
    if x < 0 {
        (1 - x) / 2
    } else {
        x / 2
    }
}

/// Decodes nibble `i` of channel `ch`.
fn decode_at(
    block: &[u8; 512],
    state: &mut Channel,
    ch: usize,
    i: usize,
    Ghost(start): Ghost<ChannelModel>,
) -> (sample: i32)
    requires
        ch < 8,
        i < 128,
        old(state)@.wf(),
        old(state)@ == start.after_block(block@, ch as int, i as int),
    ensures
        final(state)@.wf(),
        final(state)@ == start.after_block(block@, ch as int, i + 1),
        sample == final(state)@.predictor,
{
    let byte: u8 = block[ch * 64 + i / 2];
    let nibble: u8 = if i % 2 == 1 { byte / 16 } else { byte % 16 };
    state.decode(nibble)
}

/// Decodes one block and returns how loud the mix of the four stems gets. The
/// states carry over to the next call.
pub fn decode_block_peaks(block: &[u8; BLOCK_SIZE], states: &mut [Channel; CHANNELS]) -> (peaks:
    BlockPeaks)
    requires
        forall|ch: int| 0 <= ch < 8 ==> (#[trigger] old(states)@[ch])@.wf(),
    ensures
        forall|ch: int|
            0 <= ch < 8 ==> (#[trigger] final(states)@[ch])@ == old(states)@[ch]@.after_block(
                block@,
                ch,
                128,
            ),
        forall|ch: int| 0 <= ch < 8 ==> (#[trigger] final(states)@[ch])@.wf(),
        peaks.left == peak(models(old(states)@), block@, 0, 128),
        peaks.right == peak(models(old(states)@), block@, 1, 128),
{
    let ghost start = models(states@);
    let mut left: i32 = 0;
    let mut right: i32 = 0;
    let mut i: usize = 0;
    while i < 128
        invariant
            i <= 128,
            start.len() == 8,
            forall|ch: int|
                0 <= ch < 8 ==> (#[trigger] states@[ch])@ == start[ch].after_block(
                    block@,
                    ch,
                    i as int,
                ),
            forall|ch: int| 0 <= ch < 8 ==> (#[trigger] states@[ch])@.wf(),
            left == peak(start, block@, 0, i as int),
            right == peak(start, block@, 1, i as int),
        decreases 128 - i,
    {
        let mut l: i32 = 0;
        let mut r: i32 = 0;
        let mut stem: usize = 0;
        while stem < 4
            invariant
                i < 128,
                stem <= 4,
                start.len() == 8,
                forall|ch: int|
                    0 <= ch < 2 * stem ==> (#[trigger] states@[ch])@ == start[ch].after_block(
                        block@,
                        ch,
                        i + 1,
                    ),
                forall|ch: int|
                    2 * stem <= ch < 8 ==> (#[trigger] states@[ch])@ == start[ch].after_block(
                        block@,
                        ch,
                        i as int,
                    ),
                forall|ch: int| 0 <= ch < 8 ==> (#[trigger] states@[ch])@.wf(),
                -32768 * stem <= l <= 32768 * stem,
                -32768 * stem <= r <= 32768 * stem,
                l == (if stem >= 1 { states@[0]@.predictor } else { 0 }) + (if stem >= 2 {
                    states@[2]@.predictor
                } else {
                    0
                }) + (if stem >= 3 { states@[4]@.predictor } else { 0 }) + (if stem >= 4 {
                    states@[6]@.predictor
                } else {
                    0
                }),
                r == (if stem >= 1 { states@[1]@.predictor } else { 0 }) + (if stem >= 2 {
                    states@[3]@.predictor
                } else {
                    0
                }) + (if stem >= 3 { states@[5]@.predictor } else { 0 }) + (if stem >= 4 {
                    states@[7]@.predictor
                } else {
                    0
                }),
            decreases 4 - stem,
        {
            let cl: usize = stem * 2;
            let cr: usize = stem * 2 + 1;
            assert(states@[cl as int]@ == start[cl as int].after_block(
                block@,
                cl as int,
                i as int,
            ));
            assert(states@[cr as int]@ == start[cr as int].after_block(
                block@,
                cr as int,
                i as int,
            ));
            let dl: i32 = decode_at(block, &mut states[cl], cl, i, Ghost(start[cl as int]));
            let dr: i32 = decode_at(block, &mut states[cr], cr, i, Ghost(start[cr as int]));
            l = l + dl;
            r = r + dr;
            stem = stem + 1;
        }
        assert(l == mixed(start, block@, 0, i as int));
        assert(r == mixed(start, block@, 1, i as int));
        let hl: i32 = half_abs(l);
        let hr: i32 = half_abs(r);
        if hl > left {
            left = hl;
        }
        if hr > right {
            right = hr;
        }
        i = i + 1;
    }
    BlockPeaks { left, right }
}

/// The state of channel `ch` after decoding the first `k` of `blocks`.
pub open spec fn after_blocks(
    c: ChannelModel,
    blocks: Seq<Seq<u8>>,
    ch: int,
    k: int,
) -> ChannelModel
    decreases k,
{
    if k <= 0 {
        c
    } else {
        after_blocks(c, blocks, ch, k - 1).after_block(blocks[k - 1], ch, 128)
    }
}

/// The two nibbles of a packed byte can be told apart again.
proof fn lemma_unpack(c: ChannelModel, samples: Seq<i16>, b: int)
    ensures
        packed_byte(c, samples, b) as int % 16 == c.nibble_at(samples, 2 * b),
        packed_byte(c, samples, b) as int / 16 == c.nibble_at(samples, 2 * b + 1),
{
    lemma_nibble_range(c.after(samples, 2 * b), samples[2 * b]);
    lemma_nibble_range(c.after(samples, 2 * b + 1), samples[2 * b + 1]);
}

/// Decoding follows encoding: a decoder that starts a block in the state in
/// which the encoder started it is, after every sample, in the state in which the
/// encoder was after that sample.
pub proof fn law_decoder_follows_encoder(
    states: Seq<ChannelModel>,
    inputs: Seq<Seq<i16>>,
    ch: int,
    n: int,
)
    requires
        0 <= ch < 8,
        0 <= n <= 128,
    ensures
        states[ch].after_block(encoded_block(states, inputs), ch, n) == states[ch].after(
            inputs[ch],
            n,
        ),
    decreases n,
{
    if n > 0 {
        law_decoder_follows_encoder(states, inputs, ch, n - 1);
        let i = n - 1;
        let j = 64 * ch + i / 2;
        assert(j / 64 == ch && j % 64 == i / 2);
        lemma_unpack(states[ch], inputs[ch], i / 2);
        if i % 2 == 1 {
            assert(2 * (i / 2) + 1 == i);
        } else {
            assert(2 * (i / 2) == i);
        }
    }
}

/// Byte `i` of a channel in block `k` of a stream is the byte of the block's own
/// samples, encoded from the state reached before the block.
proof fn lemma_stream_byte(stream: Seq<i16>, window: Seq<i16>, k: int, i: int)
    requires
        0 <= k,
        0 <= i < 64,
        128 * k + 128 <= stream.len(),
        window == stream.subrange(128 * k, 128 * k + 128),
    ensures
        packed_byte(ChannelModel::start().after(stream, 128 * k), window, i) == packed_byte(
            ChannelModel::start(),
            stream,
            64 * k + i,
        ),
{
    lemma_window(ChannelModel::start(), stream, window, 128 * k, 2 * i);
    lemma_window(ChannelModel::start(), stream, window, 128 * k, 2 * i + 1);
    assert(2 * (64 * k + i) == 128 * k + 2 * i);
}

/// A whole stream decodes: a decoder that starts at predictor 0, step index 0 and
/// decodes the blocks of a stream in order is, after block `k`, in the state in
/// which the encoder was after the samples of the first `k` blocks.
#[verifier::rlimit(30)]
pub proof fn law_stream_decodes(streams: Seq<Seq<i16>>, blocks: Seq<Seq<u8>>, ch: int, k: int)
    requires
        0 <= ch < 8,
        0 <= k <= blocks.len(),
        forall|i: int| 0 <= i < k ==> #[trigger] blocks[i] == stream_block(streams, i),
        streams[ch].len() >= 128 * k,
    ensures
        after_blocks(ChannelModel::start(), blocks, ch, k) == ChannelModel::start().after(
            streams[ch],
            128 * k,
        ),
    decreases k,
{
    if k > 0 {
        law_stream_decodes(streams, blocks, ch, k - 1);
        let at = 128 * (k - 1);
        let c = ChannelModel::start().after(streams[ch], at);
        let window = streams[ch].subrange(at, at + 128);
        let states = Seq::new(8, |i: int| c);
        let inputs = Seq::new(8, |i: int| window);
        law_decoder_follows_encoder(states, inputs, ch, 128);
        lemma_window(ChannelModel::start(), streams[ch], window, at, 128);
        let own = encoded_block(states, inputs);
        let sent = stream_block(streams, k - 1);
        assert forall|i: int| 0 <= i < 64 implies own[64 * ch + i] == #[trigger] sent[64 * ch
            + i] by {
            lemma_stream_byte(streams[ch], window, k - 1, i);
            assert((64 * ch + i) / 64 == ch && (64 * ch + i) % 64 == i);
        }
        assert(blocks[k - 1] == sent);
        lemma_same_bytes(c, own, sent, ch, 128);
    }
}

/// Decoding a channel reads only the channel's own bytes.
proof fn lemma_same_bytes(c: ChannelModel, a: Seq<u8>, b: Seq<u8>, ch: int, n: int)
    requires
        n <= 128,
        forall|i: int| 0 <= i < 64 ==> a[64 * ch + i] == #[trigger] b[64 * ch + i],
    ensures
        c.after_block(a, ch, n) == c.after_block(b, ch, n),
    decreases n,
{
    if n > 0 {
        lemma_same_bytes(c, a, b, ch, n - 1);
        assert(a[64 * ch + (n - 1) / 2] == b[64 * ch + (n - 1) / 2]);
    }
}

/// The codec tracks its input: where a sample is less than two steps away from the
/// predictor, the decoded sample is off by no more than an eighth of a step and
/// a rounding of two.
pub proof fn law_encoding_tracks(c: ChannelModel, sample: i16)
    requires
        c.wf(),
        -2 * c.step() < sample - c.predictor < 2 * c.step(),
    ensures
        -(c.step() / 8 + 2) <= sample - c.encoded(sample).predictor <= c.step() / 8 + 2,
{
    lemma_step_bounds(c.step_index);
    let step = c.step();
    let n = c.nibble(sample);
    let mag = wrapped_abs(sample - c.predictor);
    let bits = magnitude_bits(mag, step);
    assert(0 <= bits < 8);
    assert(digit(n, 8) == (sample - c.predictor < 0));
    assert(digit(n, 4) == (mag >= step));
    assert(delta(step, n) == delta(step, bits));
    assert(-(step / 8 + 2) <= mag - delta(step, bits) <= step / 8 + 2);
}

// ---- What the parts of the codec are for ----

/// The steps grow by a tenth each, rounded down, and rounding errors do not add up:
/// the third step on is still that close to what three tenths make of it. The first
/// eight steps are too small for that and grow by one; the last is the greatest
/// sample.
pub proof fn law_steps_grow_by_a_tenth(i: int)
    ensures
        STEP_TABLE@.len() == 89,
        0 <= i < 8 ==> STEP_TABLE@[i] == 7 + i,
        STEP_TABLE@[8] == 16,
        STEP_TABLE@[13] == 25,
        STEP_TABLE@[88] == 32767,
        8 <= i < 87 ==> -7 <= 10 * STEP_TABLE@[i + 1] - 11 * STEP_TABLE@[i] <= 8,
        8 <= i < 86 ==> -86 <= 100 * STEP_TABLE@[i + 2] - 121 * STEP_TABLE@[i] <= 96,
        8 <= i < 85 ==> -846 <= 1000 * STEP_TABLE@[i + 3] - 1331 * STEP_TABLE@[i] <= 1081,
{
}

/// A sample is encoded by the sign of its distance from the predictor and by the
/// greatest of eight levels that does not exceed the distance. The levels are the
/// sums of the step, its half and its quarter.
pub proof fn law_nibble_is_the_greatest_level(c: ChannelModel, sample: i16)
    requires
        0 <= c.step_index <= 88,
        sample - c.predictor != i32::MIN,
    ensures
        ({
            let step = STEP_TABLE@[c.step_index] as int;
            let level = |m: int|
                (if m / 4 == 1 {
                    step
                } else {
                    0
                }) + (if m / 2 % 2 == 1 {
                    step / 2
                } else {
                    0
                }) + (if m % 2 == 1 {
                    step / 4
                } else {
                    0
                });
            let distance = if sample < c.predictor {
                c.predictor - sample
            } else {
                sample - c.predictor
            };
            let m = c.nibble(sample) % 8;
            &&& 0 <= c.nibble(sample) < 16
            &&& c.nibble(sample) >= 8 <==> sample < c.predictor
            &&& level(m) <= distance
            &&& m == 7 || distance < level(m + 1)
        }),
{
    lemma_step_bounds(c.step_index);
}

/// A nibble moves the predictor by an eighth of the step and its level, up or down
/// as its sign says and no further than a sample can go. Small levels make the step
/// index fall by one, great ones make it rise by two for each level, within the table.
pub proof fn law_nibble_moves_the_state(c: ChannelModel, n: int)
    requires
        0 <= c.step_index <= 88,
        0 <= n < 16,
    ensures
        ({
            let step = STEP_TABLE@[c.step_index] as int;
            let m = n % 8;
            let d = step / 8 + (if m / 4 == 1 {
                step
            } else {
                0
            }) + (if m / 2 % 2 == 1 {
                step / 2
            } else {
                0
            }) + (if m % 2 == 1 {
                step / 4
            } else {
                0
            });
            let to = if n >= 8 {
                c.predictor - d
            } else {
                c.predictor + d
            };
            let index = if m < 4 {
                c.step_index - 1
            } else {
                c.step_index + 2 * (m - 3)
            };
            let after = c.decoded(n);
            &&& after.wf()
            &&& -32768 <= to <= 32767 ==> after.predictor == to
            &&& to < -32768 ==> after.predictor == -32768
            &&& to > 32767 ==> after.predictor == 32767
            &&& 0 <= index <= 88 ==> after.step_index == index
            &&& index < 0 ==> after.step_index == 0
            &&& index > 88 ==> after.step_index == 88
        }),
{
    lemma_step_bounds(c.step_index);
}

/// The encoder starts at predictor 0 and step index 0, takes the samples in turn and
/// moves as a decoder of its nibbles would.
pub proof fn law_samples_are_encoded_in_turn(c: ChannelModel, samples: Seq<i16>, n: int)
    requires
        0 <= n < samples.len(),
    ensures
        ChannelModel::start().predictor == 0,
        ChannelModel::start().step_index == 0,
        c.after(samples, 0) == c,
        c.after(samples, n + 1) == c.after(samples, n).decoded(
            c.after(samples, n).nibble(samples[n]),
        ),
        c.nibble_at(samples, n) == c.after(samples, n).nibble(samples[n]),
{
}

/// The model of a channel says what the channel says.
pub proof fn law_channel_model(c: Channel, states: Seq<Channel>, i: int)
    requires
        0 <= i < states.len(),
    ensures
        c@.predictor == c.predictor,
        c@.step_index == c.step_index,
        models(states).len() == states.len(),
        models(states)[i] == states[i]@,
{
}

/// What is fitted keeps its samples, and silence follows them.
pub proof fn law_fitting_keeps_samples(samples: Seq<i16>, n: int, i: int)
    requires
        0 <= i < n,
    ensures
        fitted(samples, n).len() == n,
        i < samples.len() ==> fitted(samples, n)[i] == samples[i],
        i >= samples.len() ==> fitted(samples, n)[i] == 0,
{
}

/// What is encoded of a channel is its samples, each at its place, and then silence
/// up to the end of the last block.
pub proof fn law_channel_is_encoded_whole(samples: Seq<i16>, frames: int, i: int)
    requires
        0 <= frames <= samples.len(),
        0 <= i < 128 * blocks_for(frames),
    ensures
        channel_stream(samples, frames).len() == 128 * blocks_for(frames),
        i < frames ==> channel_stream(samples, frames)[i] == samples[i],
        i >= frames ==> channel_stream(samples, frames)[i] == 0,
{
}

/// The blocks hold all samples, and none of them is without a sample.
pub proof fn law_blocks_hold_all_samples(frames: int)
    requires
        0 <= frames,
    ensures
        128 * (blocks_for(frames) - 1) < frames <= 128 * blocks_for(frames),
{
}

/// Block `k` of a stream holds samples `128 * k` to `128 * k + 127` of each channel,
/// in 64 bytes of its own: two samples to a byte, the earlier one in the low nibble.
pub proof fn law_stream_block_layout(streams: Seq<Seq<i16>>, k: int, ch: int, b: int)
    requires
        0 <= k,
        0 <= ch < 8,
        0 <= b < 64,
    ensures
        stream_block(streams, k).len() == 512,
        ({
            let byte = stream_block(streams, k)[64 * ch + b] as int;
            let at = 128 * k + 2 * b;
            let c = ChannelModel::start();
            &&& byte % 16 == c.after(streams[ch], at).nibble(streams[ch][at])
            &&& byte / 16 == c.after(streams[ch], at + 1).nibble(streams[ch][at + 1])
        }),
{
    assert((64 * ch + b) / 64 == ch && (64 * ch + b) % 64 == b);
    assert(2 * (64 * k + b) == 128 * k + 2 * b);
    lemma_unpack(ChannelModel::start(), streams[ch], 64 * k + b);
}

/// A single block has the same layout, each channel going on from its own state.
pub proof fn law_block_layout(
    states: Seq<ChannelModel>,
    inputs: Seq<Seq<i16>>,
    ch: int,
    b: int,
)
    requires
        0 <= ch < 8,
        0 <= b < 64,
    ensures
        encoded_block(states, inputs).len() == 512,
        ({
            let byte = encoded_block(states, inputs)[64 * ch + b] as int;
            let c = states[ch];
            &&& byte % 16 == c.after(inputs[ch], 2 * b).nibble(inputs[ch][2 * b])
            &&& byte / 16 == c.after(inputs[ch], 2 * b + 1).nibble(inputs[ch][2 * b + 1])
        }),
{
    assert((64 * ch + b) / 64 == ch && (64 * ch + b) % 64 == b);
    lemma_unpack(states[ch], inputs[ch], b);
}

/// Decoding takes the nibbles of a channel in turn: those of a byte make it up again,
/// the earlier one as its low digit.
pub proof fn law_nibbles_are_decoded_in_turn(
    c: ChannelModel,
    block: Seq<u8>,
    ch: int,
    b: int,
    n: int,
)
    requires
        block.len() == 512,
        0 <= ch < 8,
        0 <= b < 64,
        0 <= n < 128,
    ensures
        0 <= block_nibble(block, ch, 2 * b) < 16,
        0 <= block_nibble(block, ch, 2 * b + 1) < 16,
        block[64 * ch + b] == block_nibble(block, ch, 2 * b) + 16 * block_nibble(
            block,
            ch,
            2 * b + 1,
        ),
        c.after_block(block, ch, 0) == c,
        c.after_block(block, ch, n + 1) == c.after_block(block, ch, n).decoded(
            block_nibble(block, ch, n),
        ),
{
}

/// Blocks are decoded in turn.
pub proof fn law_blocks_are_decoded_in_turn(
    c: ChannelModel,
    blocks: Seq<Seq<u8>>,
    ch: int,
    k: int,
)
    requires
        0 <= k < blocks.len(),
    ensures
        after_blocks(c, blocks, ch, 0) == c,
        after_blocks(c, blocks, ch, k + 1) == after_blocks(c, blocks, ch, k).after_block(
            blocks[k],
            ch,
            128,
        ),
{
}

/// The mix on one side is the sum of what the four stems have there at that moment:
/// adding up the stems one by one gives it.
pub proof fn law_mix_is_the_sum_of_stems(
    states: Seq<ChannelModel>,
    block: Seq<u8>,
    side: int,
    i: int,
)
    requires
        0 <= side < 2,
        0 <= i < 128,
    ensures
        mixed(states, block, side, i) == Seq::new(
            4,
            |stem: int| states[2 * stem + side].after_block(block, 2 * stem + side, i + 1).predictor,
        ).fold_left(0, |sum: int, p: int| sum + p),
{
    let parts = Seq::new(
        4,
        |stem: int| states[2 * stem + side].after_block(block, 2 * stem + side, i + 1).predictor,
    );
    let plus = |sum: int, p: int| sum + p;
    reveal_with_fuel(Seq::fold_left, 5);
    assert(parts.drop_last().drop_last().drop_last().drop_last().len() == 0);
}

/// Half of a sample without its sign, an odd one halved downwards.
pub proof fn law_halves(x: int)
    ensures
        half_magnitude(x) >= 0,
        x >= 0 ==> 2 * half_magnitude(x) <= x < 2 * half_magnitude(x) + 2,
        x < 0 ==> 2 * half_magnitude(x) - 2 < -x <= 2 * half_magnitude(x),
{
}

/// The peak is a maximum: no sample among the first `n` exceeds it, and one reaches
/// it.
pub proof fn law_peak_is_the_maximum(states: Seq<ChannelModel>, block: Seq<u8>, side: int, n: int)
    ensures
        n <= 0 ==> peak(states, block, side, n) == 0,
        forall|i: int|
            0 <= i < n ==> half_magnitude(#[trigger] mixed(states, block, side, i)) <= peak(
                states,
                block,
                side,
                n,
            ),
        n > 0 ==> exists|i: int|
            0 <= i < n && half_magnitude(#[trigger] mixed(states, block, side, i)) == peak(
                states,
                block,
                side,
                n,
            ),
    decreases n,
{
    if n > 0 {
        law_peak_is_the_maximum(states, block, side, n - 1);
        let here = half_magnitude(mixed(states, block, side, n - 1));
        let before = peak(states, block, side, n - 1);
        if here > before || n == 1 {
            assert(half_magnitude(mixed(states, block, side, n - 1)) == peak(states, block, side, n));
        } else {
            let i = choose|i: int|
                0 <= i < n - 1 && half_magnitude(#[trigger] mixed(states, block, side, i)) == before;
            assert(half_magnitude(mixed(states, block, side, i)) == peak(states, block, side, n));
        }
    }
}

/// Any state can be decoded from that a decoder can reach, and any sample encoded
/// whose distance from the predictor 32 bits can hold.
pub proof fn law_usable_states(c: ChannelModel, sample: i16)
    ensures
        c.wf() <==> -32768 <= c.predictor <= 32767 && 0 <= c.step_index <= 88,
        c.accepts(sample) <==> 0 <= c.step_index <= 88 && -0x8000_0000 <= sample - c.predictor
            <= 0x7FFF_FFFF,
        c.wf() ==> c.accepts(sample),
        ChannelModel::start().wf(),
{
}

} // verus!
