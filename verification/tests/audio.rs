use rome::adpcm::encode_8ch;
use rome::audio::{
    after_decode, after_read, song_channels, NoRoom, NoSamples, PacketDecode, PacketRead,
    StereoTrack, Verdict,
};

type Buffer<S> = symphonia::core::audio::AudioBuffer<S>;
type Channels = symphonia::core::audio::Channels;
type Decoded<'a> = symphonia::core::audio::AudioBufferRef<'a>;

fn buffer<S: symphonia::core::sample::Sample>(frames: u64, channels: Channels) -> Buffer<S> {
    Buffer::new(frames, symphonia::core::audio::SignalSpec::new(48000, channels))
}

fn fill<S: symphonia::core::sample::Sample>(buf: &mut Buffer<S>, frames: &[&[S]]) {
    symphonia::core::audio::Signal::render_reserved(buf, Some(frames.len()));
    for (f, frame) in frames.iter().enumerate() {
        for (ch, sample) in frame.iter().enumerate() {
            symphonia::core::audio::Signal::chan_mut(buf, ch)[f] = *sample;
        }
    }
}

fn decoded(buf: &Buffer<i16>) -> Decoded<'_> {
    symphonia::core::audio::AsAudioBufferRef::as_audio_buffer_ref(buf)
}

fn packet(channels: Channels, frames: &[&[i16]]) -> Buffer<i16> {
    let mut buf = buffer(8, channels);
    fill(&mut buf, frames);
    buf
}

fn stereo() -> Channels {
    Channels::FRONT_LEFT | Channels::FRONT_RIGHT
}

fn track(left: &[i16], right: &[i16]) -> StereoTrack {
    StereoTrack { left: left.to_vec(), right: right.to_vec() }
}

#[test]
fn packets_of_the_track_are_taken() {
    assert_eq!(after_read(PacketRead::Packet { track_id: 3 }, 3), Verdict::Take);
    assert_eq!(after_read(PacketRead::Packet { track_id: 2 }, 3), Verdict::Skip);
    assert_eq!(after_read(PacketRead::EndOfFile, 3), Verdict::Stop);
    assert_eq!(after_read(PacketRead::ResetRequired, 3), Verdict::Skip);
    assert_eq!(after_read(PacketRead::Failed, 3), Verdict::Fail);
}

#[test]
fn damaged_packets_are_skipped() {
    assert_eq!(after_decode(PacketDecode::Decoded), Verdict::Take);
    assert_eq!(after_decode(PacketDecode::IoError), Verdict::Stop);
    assert_eq!(after_decode(PacketDecode::DecodeError), Verdict::Skip);
    assert_eq!(after_decode(PacketDecode::Failed), Verdict::Fail);
}

#[test]
fn frames_are_taken_apart() {
    let mut t = StereoTrack::new();
    t.push_interleaved(&[1, 2, 3, 4, 5, 6], 2);
    assert_eq!((&t.left[..], &t.right[..]), (&[1i16, 3, 5][..], &[2i16, 4, 6][..]));
    t.push_interleaved(&[7, 8], 1);
    assert_eq!(t.left, [1, 3, 5, 7, 8]);
    assert_eq!(t.right, [2, 4, 6, 7, 8]);
}

#[test]
fn wide_frames_keep_two_channels() {
    let mut t = StereoTrack::new();
    t.push_interleaved(&[1, 2, 3, 4, 5, 6, 7, 8], 3);
    assert_eq!(t.left, [1, 4, 7]);
    assert_eq!(t.right, [2, 5, 8]);
    t.push_interleaved(&[], 3);
    assert_eq!(t.left.len(), 3);
}

#[test]
fn packets_join() {
    let mut parts = StereoTrack::new();
    parts.push_interleaved(&[1, 2, 3, 4], 2);
    parts.push_interleaved(&[5, 6], 2);
    let mut whole = StereoTrack::new();
    whole.push_interleaved(&[1, 2, 3, 4, 5, 6], 2);
    assert_eq!(parts.left, whole.left);
    assert_eq!(parts.right, whole.right);
}

#[test]
fn decoded_packets_are_interleaved() {
    let buf = packet(stereo(), &[&[1, -1], &[2, -2], &[3, -3]]);
    let mut t = StereoTrack::new();
    assert_eq!(t.push_decoded(decoded(&buf)), Ok(()));
    assert_eq!(t.left, [1, 2, 3]);
    assert_eq!(t.right, [-1, -2, -3]);
}

#[test]
fn decoded_samples_become_16_bits() {
    let mut buf: Buffer<f32> = buffer(4, Channels::FRONT_LEFT);
    fill(&mut buf, &[&[0.5], &[-1.0]]);
    let floats = symphonia::core::audio::AsAudioBufferRef::as_audio_buffer_ref(&buf);
    let mut t = StereoTrack::new();
    assert_eq!(t.push_decoded(floats), Ok(()));
    assert_eq!(t.left, [16384, -32768]);
    assert_eq!(t.right, t.left);
}

#[test]
fn packets_without_room_are_refused() {
    let mut t = track(&[9], &[9]);
    let unused: Buffer<i16> = Buffer::unused();
    assert_eq!(t.push_decoded(decoded(&unused)), Err(NoRoom));
    let flat: Buffer<i16> = buffer(0, stereo());
    assert_eq!(t.push_decoded(decoded(&flat)), Err(NoRoom));
    let mono: Buffer<i16> = buffer(0, Channels::FRONT_LEFT);
    assert_eq!(t.push_decoded(decoded(&mono)), Ok(()));
    assert_eq!((t.left, t.right), (vec![9], vec![9]));
}

#[test]
fn mono_packets_go_to_both_sides() {
    let buf = packet(Channels::FRONT_LEFT, &[&[1], &[2], &[3]]);
    let mut t = StereoTrack::new();
    assert_eq!(t.push_decoded(decoded(&buf)), Ok(()));
    assert_eq!((t.left, t.right), (vec![1, 2, 3], vec![1, 2, 3]));
}

#[test]
fn wide_packets_give_their_first_two_channels() {
    let buf = packet(stereo() | Channels::FRONT_CENTRE, &[&[1, 2, 3], &[4, 5, 6]]);
    let mut t = track(&[9], &[8]);
    assert_eq!(t.push_decoded(decoded(&buf)), Ok(()));
    assert_eq!((t.left, t.right), (vec![9, 1, 4], vec![8, 2, 5]));
}

#[test]
fn files_must_hold_sound() {
    assert!(matches!(StereoTrack::new().finish(), Err(NoSamples)));
    assert_eq!(track(&[1], &[2]).finish().unwrap().right, [2]);
}

#[test]
fn stems_are_padded_to_the_longest() {
    let channels = song_channels(
        track(&[1, 2], &[3, 4]),
        track(&[5], &[6]),
        track(&[7, 8, 9], &[10, 11, 12]),
        track(&[], &[]),
    );
    assert_eq!(channels[0], [1, 2, 0]);
    assert_eq!(channels[1], [3, 4, 0]);
    assert_eq!(channels[2], [5, 0, 0]);
    assert_eq!(channels[3], [6, 0, 0]);
    assert_eq!(channels[4], [7, 8, 9]);
    assert_eq!(channels[5], [10, 11, 12]);
    assert_eq!(channels[6], [0, 0, 0]);
    assert_eq!(channels[7], [0, 0, 0]);
    assert_eq!(encode_8ch(&channels).len(), 1);
}

#[test]
fn long_right_sides_are_cut() {
    let channels = song_channels(
        track(&[1], &[2, 3]),
        track(&[4, 5], &[6, 7]),
        track(&[], &[]),
        track(&[], &[]),
    );
    assert_eq!(channels[1], [2, 0]);
    assert_eq!(channels[3], [6, 7]);
}
