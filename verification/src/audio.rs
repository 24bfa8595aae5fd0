//! Turning decoded audio into the eight channels of a song.

use vstd::arithmetic::div_mod::lemma_fundamental_div_mod_converse;
use vstd::prelude::*;

verus! {

// ---- Reading a file packet by packet ----

/// What came of asking a file for its next packet.
#[derive(Clone, Copy, Debug, PartialEq, Eq, Structural)]
pub enum PacketRead {
    /// A packet of a track.
    Packet { track_id: u32 },
    EndOfFile,
    /// The list of tracks has changed.
    ResetRequired,
    Failed,
}

/// What came of decoding a packet.
#[derive(Clone, Copy, Debug, PartialEq, Eq, Structural)]
pub enum PacketDecode {
    Decoded,
    IoError,
    /// The packet is damaged.
    DecodeError,
    Failed,
}

/// How to go on with a file.
#[derive(Clone, Copy, Debug, PartialEq, Eq, Structural)]
pub enum Verdict {
    /// Use what came.
    Take,
    /// Go on with the next packet.
    Skip,
    /// The file is over.
    Stop,
    /// Give the file up.
    Fail,
}

/// Only packets of the chosen track count, and the end of the file is its regular
/// end.
pub fn after_read(read: PacketRead, track_id: u32) -> (v: Verdict)
    ensures
        v == (match read {
            PacketRead::Packet { track_id: id } => if id == track_id {
                Verdict::Take
            } else {
                Verdict::Skip
            },
            PacketRead::EndOfFile => Verdict::Stop,
            PacketRead::ResetRequired => Verdict::Skip,
            PacketRead::Failed => Verdict::Fail,
        }),
{
    match read {
        PacketRead::Packet { track_id: id } => {
            if id == track_id {
                Verdict::Take
            } else {
                Verdict::Skip
            }
        },
        PacketRead::EndOfFile => Verdict::Stop,
        PacketRead::ResetRequired => Verdict::Skip,
        PacketRead::Failed => Verdict::Fail,
    }
}

/// Damaged packets are passed over, and what can no longer be read ends the file.
pub fn after_decode(decode: PacketDecode) -> (v: Verdict)
    ensures
        v == (match decode {
            PacketDecode::Decoded => Verdict::Take,
            PacketDecode::IoError => Verdict::Stop,
            PacketDecode::DecodeError => Verdict::Skip,
            PacketDecode::Failed => Verdict::Fail,
        }),
{
    match decode {
        PacketDecode::Decoded => Verdict::Take,
        PacketDecode::IoError => Verdict::Stop,
        PacketDecode::DecodeError => Verdict::Skip,
        PacketDecode::Failed => Verdict::Fail,
    }
}

// ---- Stereo tracks ----

/// Number of frames in `len` samples, a shorter last one included.
pub open spec fn frame_count(len: int, width: int) -> int {
    if len % width == 0 {
        len / width
    } else {
        len / width + 1
    }
}

/// Every frame of `len` samples holds what is read of it: two samples, or one where
/// frames are that narrow.
pub open spec fn frames_whole(len: int, width: int) -> bool {
    width >= 2 ==> len % width != 1
}

/// Sample `which` of each of the first `n` frames.
pub open spec fn picked(samples: Seq<i16>, width: int, which: int, n: int) -> Seq<i16> {
    Seq::new(n as nat, |f: int| samples[f * width + which])
}

/// The first sample of each frame.
pub open spec fn left_of(samples: Seq<i16>, width: int) -> Seq<i16> {
    picked(samples, width, 0, frame_count(samples.len() as int, width))
}

/// The second sample of each frame, or its only one.
pub open spec fn right_of(samples: Seq<i16>, width: int) -> Seq<i16> {
    let which = if width >= 2 {
        1int
    } else {
        0
    };
    picked(samples, width, which, frame_count(samples.len() as int, width))
}

/// Two channels of sound.
#[derive(Debug)]
pub struct StereoTrack {
    pub left: Vec<i16>,
    pub right: Vec<i16>,
}

proof fn lemma_frame_count(len: int, width: int, f: int)
    requires
        width >= 1,
        f >= 0,
        f * width < len <= f * width + width,
    ensures
        frame_count(len, width) == f + 1,
        width >= 2 && len == f * width + 1 ==> len % width == 1,
{
    if len == f * width + width {
        assert((f + 1) * width == f * width + width) by (nonlinear_arith);
        lemma_fundamental_div_mod_converse(len, width, f + 1, 0);
    } else {
        lemma_fundamental_div_mod_converse(len, width, f, len - f * width);
    }
}

impl StereoTrack {
    pub open spec fn wf(self) -> bool {
        self.left@.len() == self.right@.len()
    }

    pub fn new() -> (t: StereoTrack)
        ensures
            t.wf(),
            t.left@ == Seq::<i16>::empty(),
            t.right@ == Seq::<i16>::empty(),
    {
        StereoTrack { left: Vec::new(), right: Vec::new() }
    }

    /// The track has been extended by interleaved samples.
    pub open spec fn extended(self, before: StereoTrack, samples: Seq<i16>, width: int) -> bool {
        &&& self.left@ == before.left@ + left_of(samples, width)
        &&& self.right@ == before.right@ + right_of(samples, width)
    }

    /// Appends interleaved samples, `width` to a frame. Of wider frames, only the
    /// first two samples count; narrower ones give their sample to both sides.
    pub fn push_interleaved(&mut self, samples: &[i16], width: usize)
        requires
            width >= 1,
            frames_whole(samples@.len() as int, width as int),
        ensures
            final(self).extended(*old(self), samples@, width as int),
            old(self).wf() ==> final(self).wf(),
    {
        let len: usize = samples.len();
        let second: usize = if width >= 2 {
            1
        } else {
            0
        };
        let mut at: usize = 0;
        let ghost mut f: int = 0;
        proof {
            lemma_fundamental_div_mod_converse(0, width as int, 0, 0);
            assert(old(self).left@ + picked(samples@, width as int, 0, 0) =~= old(self).left@);
            assert(old(self).right@ + picked(samples@, width as int, second as int, 0)
                =~= old(self).right@);
        }
        while at < len
            invariant
                width >= 1,
                len == samples@.len(),
                second == (if width >= 2 {
                    1int
                } else {
                    0
                }),
                frames_whole(len as int, width as int),
                0 <= f,
                at <= len,
                at < len ==> at == f * width,
                at == len ==> f == frame_count(len as int, width as int),
                self.left@ == old(self).left@ + picked(samples@, width as int, 0, f),
                self.right@ == old(self).right@ + picked(samples@, width as int, second as int, f),
            decreases len - at,
        {
            proof {
                if len - at <= width {
                    lemma_frame_count(len as int, width as int, f);
                }
                assert((f + 1) * width == f * width + width) by (nonlinear_arith);
            }
            self.left.push(samples[at]);
            self.right.push(samples[at + second]);
            assert(picked(samples@, width as int, 0, f + 1) =~= picked(
                samples@,
                width as int,
                0,
                f,
            ).push(samples@[at as int]));
            assert(picked(samples@, width as int, second as int, f + 1) =~= picked(
                samples@,
                width as int,
                second as int,
                f,
            ).push(samples@[at + second]));
            if len - at <= width {
                at = len;
            } else {
                at = at + width;
            }
            proof {
                f = f + 1;
            }
        }
    }
}

/// A file held no sound.
#[derive(Clone, Copy, Debug, PartialEq, Eq, Structural)]
pub struct NoSamples;

impl StereoTrack {
    /// Ends a file: it must have held some sound.
    pub fn finish(self) -> (r: Result<StereoTrack, NoSamples>)
        ensures
            self.left@.len() == 0 ==> r is Err,
            self.left@.len() > 0 ==> r == Ok::<StereoTrack, NoSamples>(self),
    {
        if self.left.len() == 0 {
            Err(NoSamples)
        } else {
            Ok(self)
        }
    }
}

// ---- Decoded packets ----

#[verifier::external_type_specification]
#[verifier::external_body]
pub struct ExAudioBufferRef<'a>(symphonia::core::audio::AudioBufferRef<'a>);

/// The samples of a decoded packet as 16-bit numbers, frame by frame.
pub uninterp spec fn interleaved_samples(
    decoded: symphonia::core::audio::AudioBufferRef<'_>,
) -> Seq<i16>;

/// How many channels a decoded packet has.
pub uninterp spec fn channel_count(decoded: symphonia::core::audio::AudioBufferRef<'_>) -> nat;

/// For how many frames a decoded packet was made.
pub uninterp spec fn frame_limit(decoded: symphonia::core::audio::AudioBufferRef<'_>) -> nat;

/// `AudioBufferRef::spec`, of which it gives the number of channels.
#[verifier::external_body]
fn channels_of(decoded: &symphonia::core::audio::AudioBufferRef<'_>) -> (n: usize)
    ensures
        n == channel_count(*decoded),
{
    decoded.spec().channels.count()
}

/// `AudioBufferRef::capacity`, the number of frames that the packet was made for.
#[verifier::external_body]
fn frame_limit_of(decoded: &symphonia::core::audio::AudioBufferRef<'_>) -> (n: usize)
    ensures
        n == frame_limit(*decoded),
{
    decoded.capacity()
}

/// `SampleBuffer::copy_interleaved_ref` into a new `SampleBuffer` of the packet's
/// size: the packet's samples, converted to 16 bits and ordered frame by frame, all
/// frames of the packet's number of channels. A packet without channels, or with
/// several channels and no room for a frame, cannot be copied.
#[verifier::external_body]
fn interleave(decoded: symphonia::core::audio::AudioBufferRef<'_>) -> (samples: Vec<i16>)
    requires
        copyable(decoded),
    ensures
        samples@ == interleaved_samples(decoded),
        samples@.len() % channel_count(decoded) == 0,
{
    let spec = *decoded.spec();
    let mut buf = symphonia::core::audio::SampleBuffer::<i16>::new(decoded.capacity() as u64, spec);
    buf.copy_interleaved_ref(decoded);
    buf.samples().to_vec()
}

pub open spec fn copyable(decoded: symphonia::core::audio::AudioBufferRef<'_>) -> bool {
    &&& channel_count(decoded) > 0
    &&& frame_limit(decoded) > 0 || channel_count(decoded) == 1
}

/// A decoded packet has no place for samples.
#[derive(Clone, Copy, Debug, PartialEq, Eq, Structural)]
pub struct NoRoom;

impl StereoTrack {
    /// Appends a decoded packet, whose frames are as wide as it has channels.
    pub fn push_decoded(
        &mut self,
        decoded: symphonia::core::audio::AudioBufferRef<'_>,
    ) -> (r: Result<(), NoRoom>)
        ensures
            r is Ok <==> copyable(decoded),
            r is Ok ==> final(self).extended(
                *old(self),
                interleaved_samples(decoded),
                channel_count(decoded) as int,
            ),
            r is Err ==> *final(self) == *old(self),
            old(self).wf() ==> final(self).wf(),
    {
        let channels: usize = channels_of(&decoded);
        if channels == 0 || (frame_limit_of(&decoded) == 0 && channels != 1) {
            return Err(NoRoom);
        }
        let samples: Vec<i16> = interleave(decoded);
        self.push_interleaved(samples.as_slice(), channels);
        Ok(())
    }
}

// ---- Channels of a song ----

/// The larger of two lengths.
pub open spec fn longer(a: int, b: int) -> int {
    if a >= b {
        a
    } else {
        b
    }
}

/// Length of the longest left side among the first `n` tracks.
pub open spec fn length_of(stems: Seq<StereoTrack>, n: int) -> int
    decreases n,
{
    if n <= 0 {
        0
    } else {
        longer(length_of(stems, n - 1), stems[n - 1].left@.len() as int)
    }
}

fn fit(mut samples: Vec<i16>, n: usize) -> (r: Vec<i16>)
    ensures
        r@ == crate::adpcm::fitted(samples@, n as int),
{
    let ghost before = samples@;
    samples.resize(n, 0);
    proof {
        if n > before.len() {
            assert forall|i: int| 0 <= i < before.len() implies samples@[i] == before[i] by {
                assert(samples@.subrange(0, before.len() as int)[i] == before[i]);
            }
        }
    }
    assert(samples@ =~= crate::adpcm::fitted(before, n as int));
    samples
}

fn max_len(a: usize, b: usize) -> (m: usize)
    ensures
        m == longer(a as int, b as int),
{
    if a >= b {
        a
    } else {
        b
    }
}

/// The channels of a song: the left and the right side of each of four stems, padded
/// with silence to the longest left side. A right side that outlasts the left sides
/// of its own and the earlier stems is cut to them.
pub open spec fn song_channel(stems: Seq<StereoTrack>, ch: int) -> Seq<i16> {
    let stem = stems[ch / 2];
    if ch % 2 == 0 {
        crate::adpcm::fitted(stem.left@, length_of(stems, 4))
    } else {
        crate::adpcm::fitted(
            crate::adpcm::fitted(stem.right@, length_of(stems, ch / 2 + 1)),
            length_of(stems, 4),
        )
    }
}

pub fn song_channels(
    stem1: StereoTrack,
    stem2: StereoTrack,
    stem3: StereoTrack,
    stem4: StereoTrack,
) -> (channels: [Vec<i16>; 8])
    ensures
        forall|ch: int|
            0 <= ch < 8 ==> (#[trigger] channels@[ch])@ == song_channel(
                seq![stem1, stem2, stem3, stem4],
                ch,
            ),
{
    let ghost stems = seq![stem1, stem2, stem3, stem4];
    let len1: usize = stem1.left.len();
    let len2: usize = max_len(len1, stem2.left.len());
    let len3: usize = max_len(len2, stem3.left.len());
    let len4: usize = max_len(len3, stem4.left.len());
    proof {
        reveal_with_fuel(length_of, 5);
    }
    [
        fit(stem1.left, len4),
        fit(fit(stem1.right, len1), len4),
        fit(stem2.left, len4),
        fit(fit(stem2.right, len2), len4),
        fit(stem3.left, len4),
        fit(fit(stem3.right, len3), len4),
        fit(stem4.left, len4),
        fit(fit(stem4.right, len4), len4),
    ]
}

// ---- Laws ----

/// A mono file sounds the same on both sides.
pub proof fn law_mono_is_doubled(samples: Seq<i16>)
    ensures
        left_of(samples, 1) == samples,
        right_of(samples, 1) == samples,
{
    assert(left_of(samples, 1) =~= samples);
}

/// A stereo file keeps its two sides: its frames are put together again from them.
pub proof fn law_stereo_is_kept(samples: Seq<i16>, i: int)
    requires
        frames_whole(samples.len() as int, 2),
        0 <= i < samples.len(),
    ensures
        samples[i] == if i % 2 == 0 {
            left_of(samples, 2)[i / 2]
        } else {
            right_of(samples, 2)[i / 2]
        },
{
    assert(samples[i / 2 * 2 + i % 2] == samples[i]);
}

/// Of a file with more channels, the first two are its sides.
pub proof fn law_wide_frames_give_two_channels(samples: Seq<i16>, width: int, f: int)
    requires
        width >= 2,
        0 <= f < frame_count(samples.len() as int, width),
    ensures
        left_of(samples, width)[f] == samples[f * width],
        right_of(samples, width)[f] == samples[f * width + 1],
{
}

/// Both sides of a file get one sample for every frame.
pub proof fn law_sides_are_equally_long(samples: Seq<i16>, width: int)
    requires
        width >= 1,
    ensures
        left_of(samples, width).len() == right_of(samples, width).len() == frame_count(
            samples.len() as int,
            width,
        ),
{
    vstd::arithmetic::div_mod::lemma_div_pos_is_pos(samples.len() as int, width);
}

/// It does not matter how a file is cut into packets, as long as none is cut inside
/// a frame.
pub proof fn law_packets_join(first: Seq<i16>, second: Seq<i16>, width: int)
    requires
        width >= 1,
        first.len() as int % width == 0,
        frames_whole(second.len() as int, width),
    ensures
        left_of(first + second, width) == left_of(first, width) + left_of(second, width),
        right_of(first + second, width) == right_of(first, width) + right_of(second, width),
{
    lemma_join(first, second, width, 0);
    if width >= 2 {
        lemma_join(first, second, width, 1);
    }
}

proof fn lemma_in_frame(len: int, width: int, which: int, f: int)
    requires
        width >= 1,
        frames_whole(len, width),
        0 <= which < width,
        which <= 1,
        0 <= f < frame_count(len, width),
    ensures
        0 <= f * width + which < len,
{
    let q = len / width;
    vstd::arithmetic::div_mod::lemma_fundamental_div_mod(len, width);
    vstd::arithmetic::div_mod::lemma_mod_bound(len, width);
    assert(0 <= f * width) by (nonlinear_arith)
        requires
            f >= 0,
            width >= 1,
    ;
    assert(q * width == width * q) by (nonlinear_arith);
    if f < q {
        assert(f * width + width <= q * width) by (nonlinear_arith)
            requires
                f + 1 <= q,
                width >= 1,
        ;
    }
}

proof fn lemma_join(first: Seq<i16>, second: Seq<i16>, width: int, which: int)
    requires
        width >= 1,
        first.len() as int % width == 0,
        frames_whole(second.len() as int, width),
        0 <= which < width,
        which <= 1,
    ensures
        picked(
            first + second,
            width,
            which,
            frame_count((first + second).len() as int, width),
        ) == picked(first, width, which, frame_count(first.len() as int, width)) + picked(
            second,
            width,
            which,
            frame_count(second.len() as int, width),
        ),
{
    let len = second.len() as int;
    let n = first.len() as int / width;
    let m = frame_count(len, width);
    vstd::arithmetic::div_mod::lemma_fundamental_div_mod(first.len() as int, width);
    vstd::arithmetic::div_mod::lemma_fundamental_div_mod(len, width);
    vstd::arithmetic::div_mod::lemma_mod_bound(len, width);
    vstd::arithmetic::div_mod::lemma_div_pos_is_pos(first.len() as int, width);
    vstd::arithmetic::div_mod::lemma_div_pos_is_pos(len, width);
    assert(width * n + width * (len / width) == (n + len / width) * width) by (nonlinear_arith);
    lemma_fundamental_div_mod_converse(
        first.len() + len,
        width,
        n + len / width,
        len % width,
    );
    let whole = picked(first + second, width, which, n + m);
    let parts = picked(first, width, which, n) + picked(second, width, which, m);
    assert forall|f: int| 0 <= f < n + m implies whole[f] == parts[f] by {
        if f < n {
            lemma_in_frame(first.len() as int, width, which, f);
        } else {
            lemma_in_frame(len, width, which, f - n);
            assert((f - n) * width == f * width - width * n) by (nonlinear_arith);
        }
    }
    assert(whole =~= parts);
}

/// Channels made from tracks whose sides are equally long hold each side whole, are
/// all as long as the longest track, and so can be encoded.
pub proof fn law_channels_hold_stems(stems: Seq<StereoTrack>, ch: int)
    requires
        stems.len() == 4,
        forall|k: int| 0 <= k < 4 ==> (#[trigger] stems[k]).wf(),
        0 <= ch < 8,
    ensures
        song_channel(stems, ch).len() == length_of(stems, 4),
        song_channel(stems, ch) == crate::adpcm::fitted(
            if ch % 2 == 0 {
                stems[ch / 2].left@
            } else {
                stems[ch / 2].right@
            },
            length_of(stems, 4),
        ),
        stems[ch / 2].left@.len() <= length_of(stems, 4),
{
    reveal_with_fuel(length_of, 5);
    let k = ch / 2;
    assert(stems[k].wf());
    assert(length_of(stems, k + 1) >= stems[k].left@.len());
    assert(length_of(stems, 4) >= length_of(stems, k + 1));
    assert(song_channel(stems, ch) =~= crate::adpcm::fitted(
        if ch % 2 == 0 {
            stems[k].left@
        } else {
            stems[k].right@
        },
        length_of(stems, 4),
    ));
}

/// There are just as many frames as it takes to hold all samples.
pub proof fn law_frames_hold_all_samples(len: int, width: int)
    requires
        0 <= len,
        1 <= width,
    ensures
        width * (frame_count(len, width) - 1) < len <= width * frame_count(len, width),
{
    let q = len / width;
    vstd::arithmetic::div_mod::lemma_fundamental_div_mod(len, width);
    vstd::arithmetic::div_mod::lemma_mod_bound(len, width);
    assert(width * (q + 1) == width * q + width) by (nonlinear_arith);
    assert(width * (q - 1) == width * q - width) by (nonlinear_arith);
}

/// A packet leaves what came before it as it is, and its own sides follow.
pub proof fn law_packets_follow_each_other(
    before: StereoTrack,
    after: StereoTrack,
    samples: Seq<i16>,
    width: int,
)
    requires
        after.extended(before, samples, width),
    ensures
        before.left@.is_prefix_of(after.left@),
        before.right@.is_prefix_of(after.right@),
        after.left@.skip(before.left@.len() as int) == left_of(samples, width),
        after.right@.skip(before.right@.len() as int) == right_of(samples, width),
{
    assert(after.left@.skip(before.left@.len() as int) =~= left_of(samples, width));
    assert(after.right@.skip(before.right@.len() as int) =~= right_of(samples, width));
    assert(after.left@.subrange(0, before.left@.len() as int) =~= before.left@);
    assert(after.right@.subrange(0, before.right@.len() as int) =~= before.right@);
}

/// Packets can be used that have channels, and room for a frame or a single channel;
/// frames can be used that do not end behind their first sample, unless they are
/// that narrow.
pub proof fn law_usable_packets(
    decoded: symphonia::core::audio::AudioBufferRef<'_>,
    len: int,
    width: int,
)
    ensures
        copyable(decoded) <==> channel_count(decoded) == 1 || (channel_count(decoded) > 1
            && frame_limit(decoded) > 0),
        frames_whole(len, width) <==> width < 2 || len % width != 1,
{
}

/// The length of a song is that of its longest left side: none is longer, and one is
/// that long.
pub proof fn law_song_is_as_long_as_its_longest_stem(stems: Seq<StereoTrack>, n: int)
    ensures
        n <= 0 ==> length_of(stems, n) == 0,
        forall|k: int| 0 <= k < n ==> (#[trigger] stems[k]).left@.len() <= length_of(stems, n),
        n > 0 ==> exists|k: int|
            0 <= k < n && (#[trigger] stems[k]).left@.len() == length_of(stems, n),
    decreases n,
{
    if n > 0 {
        law_song_is_as_long_as_its_longest_stem(stems, n - 1);
        let before = length_of(stems, n - 1);
        if n == 1 || stems[n - 1].left@.len() > before {
            assert(stems[n - 1].left@.len() == length_of(stems, n));
        } else {
            let k = choose|k: int|
                0 <= k < n - 1 && (#[trigger] stems[k]).left@.len() == before;
            assert(stems[k].left@.len() == length_of(stems, n));
        }
    }
}

/// Sample `i` of a channel is sample `i` of its side of its stem. Silence follows a
/// side, and a right side ends where the longest left side so far does.
pub proof fn law_channels_keep_samples_in_place(stems: Seq<StereoTrack>, stem: int, i: int)
    requires
        stems.len() == 4,
        0 <= stem < 4,
        0 <= i < length_of(stems, 4),
    ensures
        ({
            let (left, right) = (stems[stem].left@, stems[stem].right@);
            let l = song_channel(stems, 2 * stem);
            let r = song_channel(stems, 2 * stem + 1);
            let limit = length_of(stems, stem + 1);
            &&& l.len() == length_of(stems, 4)
            &&& r.len() == length_of(stems, 4)
            &&& i < left.len() ==> l[i] == left[i]
            &&& i >= left.len() ==> l[i] == 0
            &&& i < right.len() && i < limit ==> r[i] == right[i]
            &&& i >= right.len() || i >= limit ==> r[i] == 0
        }),
{
    reveal_with_fuel(length_of, 5);
    assert((2 * stem) / 2 == stem && (2 * stem) % 2 == 0);
    assert((2 * stem + 1) / 2 == stem && (2 * stem + 1) % 2 == 1);
}

} // verus!
