use rome::upload::{song_name, song_stream, Action, Event, NameTooLong, Phase, Upload};

#[test]
fn names_have_up_to_23_characters() {
    let field = song_name("my song").unwrap();
    assert_eq!(&field[..7], b"my song");
    assert_eq!(field[7..], [0; 17]);
    assert!(song_name("12345678901234567890123").is_ok());
    assert_eq!(song_name("123456789012345678901234"), Err(NameTooLong));
    assert!(song_name(&"\u{20ac}".repeat(23)).is_ok());
    assert_eq!(song_name(&"\u{20ac}".repeat(24)), Err(NameTooLong));
}

#[test]
fn long_characters_are_cut_to_the_field() {
    let name = "\u{e9}".repeat(12);
    let field = song_name(&name).unwrap();
    assert_eq!(field[..23], name.as_bytes()[..23]);
    assert_eq!(field[23], 0);
}

#[test]
fn levels_follow_the_audio() {
    let stream = song_stream(&[[1; 512], [2; 512]], &[[3; 512]]);
    assert_eq!(stream, [[1; 512], [2; 512], [3; 512]]);
}

fn begun(audio: usize, total: usize) -> (Upload, Action) {
    let mut u = Upload::new(audio, total);
    assert_eq!(u.step(Event::Done), Action::Ping);
    assert_eq!(u.step(Event::Done), Action::Begin { nblocks: audio as u32 });
    let first = u.step(Event::Began { index: 7 });
    (u, first)
}

#[test]
fn batches_cover_the_stream() {
    let (mut u, mut action) = begun(190, 200);
    let mut ranges = Vec::new();
    while let Action::Send { from, to } = action {
        ranges.push((from, to));
        action = u.step(Event::Done);
    }
    assert_eq!(ranges, [(0, 96), (96, 192), (192, 200)]);
    assert_eq!(action, Action::Commit);
    assert_eq!(u.step(Event::Done), Action::Finish { index: 7 });
    assert_eq!(u.phase, Phase::Done);
}

#[test]
fn whole_batches_leave_no_rest() {
    let (mut u, first) = begun(96, 96);
    assert_eq!(first, Action::Send { from: 0, to: 96 });
    assert_eq!(u.step(Event::Done), Action::Commit);
}

#[test]
fn empty_stream_is_committed() {
    let (_, first) = begun(0, 0);
    assert_eq!(first, Action::Commit);
}

#[test]
fn failing_batch_is_reported() {
    let (mut u, _) = begun(150, 150);
    assert_eq!(u.step(Event::Done), Action::Send { from: 96, to: 150 });
    assert_eq!(u.step(Event::Failed), Action::AbortBatch { from: 96, to: 150 });
    assert_eq!((u.phase, u.sent), (Phase::Failed, 96));
}

#[test]
fn failures_stop_the_upload() {
    let mut u = Upload::new(1, 1);
    assert_eq!(u.step(Event::Failed), Action::Abort);
    assert_eq!(u.phase, Phase::Failed);
    let mut u = Upload::new(1, 1);
    u.step(Event::Done);
    assert_eq!(u.step(Event::Failed), Action::Abort);
    let mut u = Upload::new(1, 1);
    u.step(Event::Done);
    u.step(Event::Done);
    assert_eq!(u.step(Event::Failed), Action::Abort);
    let (mut u, _) = begun(1, 1);
    u.step(Event::Done);
    assert_eq!(u.step(Event::Failed), Action::Abort);
}
