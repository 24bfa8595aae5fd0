use rome::flash::{
    check_firmware, in_transfer_mode, reply_counter, Action, Event, FirmwareError, FlashError,
    FlashSession, Phase,
};
use rome::packet::{build_packet, parse_response, Response};

fn reply(cmd: u8, payload: &[u8]) -> Event {
    Event::Replied(Response { cmd, payload: payload.to_vec(), crc_ok: true })
}

fn damaged(cmd: u8) -> Event {
    Event::Replied(Response { cmd, payload: Vec::new(), crc_ok: false })
}

fn request(action: Action) -> (u64, Vec<u8>, u64) {
    match action {
        Action::Request { delay_ms, packet, timeout_ms } => (delay_ms, packet, timeout_ms),
        other => panic!("{:?}", other),
    }
}

fn sent(action: Action) -> (Vec<u8>, u64) {
    match action {
        Action::Send { packet, pause_ms } => (packet, pause_ms),
        other => panic!("{:?}", other),
    }
}

fn error(action: Action) -> FlashError {
    match action {
        Action::Abort(e) => e,
        other => panic!("{:?}", other),
    }
}

fn firmware(n: usize) -> Vec<u8> {
    (0..n).map(|i| (i % 251) as u8).collect()
}

/// A session whose device is in the bootloader and has been told to erase.
fn erasing(fw: &[u8]) -> FlashSession {
    let mut s = FlashSession::new(fw.len()).unwrap();
    s.step(fw, Event::Opened);
    s.step(fw, reply(0x53, &[1, 0, 0, 0]));
    s
}

/// Acknowledges all chunks; the bytes they hold, and the action after them.
fn write_all(s: &mut FlashSession, fw: &[u8], first: Action) -> (Vec<u8>, Vec<u64>, Action) {
    let mut data = Vec::new();
    let mut pauses = Vec::new();
    let mut action = first;
    loop {
        match action {
            Action::Send { packet, pause_ms } => {
                let r = parse_response(&packet).expect("parse failed");
                assert!(r.crc_ok);
                assert_eq!(r.cmd, 0x45);
                let n = (pauses.len() + 1) as u32;
                assert_eq!(r.payload[..4], n.to_le_bytes());
                let page = (data.len() + r.payload.len() - 8 - 1) / 4096;
                assert_eq!(data.len() / 4096, page);
                let addr = 0x0002_0000 + data.len() as u32;
                assert_eq!(r.payload[4..8], addr.to_le_bytes());
                data.extend_from_slice(&r.payload[8..]);
                pauses.push(pause_ms);
                action = s.step(fw, Event::Sent);
            }
            other => return (data, pauses, other),
        }
    }
}

#[test]
fn firmware_sizes() {
    assert_eq!(check_firmware(0), Err(FirmwareError::Empty));
    assert_eq!(check_firmware(1), Ok(1));
    assert_eq!(check_firmware(4096), Ok(1));
    assert_eq!(check_firmware(4097), Ok(2));
    assert_eq!(check_firmware(0xDF000), Ok(223));
    assert_eq!(check_firmware(0xDF001), Err(FirmwareError::TooLarge));
    assert!(matches!(FlashSession::new(0), Err(FirmwareError::Empty)));
}

#[test]
fn transfer_mode_is_told_by_its_digits() {
    assert!(in_transfer_mode(&[1, 0, 5, 1, 0]));
    assert!(in_transfer_mode(&[105, 10]));
    assert!(in_transfer_mode(&[10, 5, 10]));
    assert!(!in_transfer_mode(&[]));
    assert!(!in_transfer_mode(&[1, 0, 5, 1]));
    assert!(!in_transfer_mode(&[1, 0, 5, 1, 0, 0]));
}

#[test]
fn counters_need_four_bytes() {
    assert_eq!(reply_counter(&[1, 2, 3]), None);
    assert_eq!(reply_counter(&[1, 2, 0, 0, 9]), Some(513));
}

#[test]
fn whole_session() {
    let fw = firmware(5000);
    let mut s = FlashSession::new(fw.len()).unwrap();
    let status = request(s.step(&fw, Event::Opened));
    assert_eq!(status, (0, build_packet(0x52, &[], 1), 3000));
    let erase = request(s.step(&fw, reply(0x53, &[1, 0, 0, 0])));
    assert_eq!(erase, (0, build_packet(0x46, &[], 2), 5000));
    assert_eq!(s.progress(), Some(2));
    let first = s.step(&fw, reply(0x47, &[]));
    assert_eq!(s.page_progress(), Some((1, 2)));
    assert_eq!(s.totals(), (2, 22));
    let (data, pauses, next) = write_all(&mut s, &fw, first);
    assert_eq!(data, fw);
    assert_eq!(pauses.len(), 18 + 4);
    assert_eq!((pauses[0], pauses[17], pauses[18], pauses[19]), (5, 5, 100, 5));
    assert_eq!(s.progress(), Some(92));
    let commit = request(next);
    assert_eq!(commit, (150, build_packet(0x48, &[0x21, 0, 0, 0], 25), 5000));
    let finalize = request(s.step(&fw, reply(0x49, &[5, 6, 0, 0])));
    assert_eq!(finalize, (0, build_packet(0x48, &[5, 6, 0, 0], 26), 5000));
    assert_eq!(s.progress(), Some(96));
    let leave = request(s.step(&fw, reply(0x49, &[])));
    assert_eq!(leave, (0, build_packet(0x50, &[], 27), 3000));
    assert!(matches!(s.step(&fw, Event::NoReply), Action::Finish));
    assert_eq!((s.phase, s.progress()), (Phase::Done, Some(100)));
}

#[test]
fn last_write_is_at_ninety_percent() {
    let fw = firmware(241);
    let mut s = erasing(&fw);
    s.step(&fw, reply(0x47, &[]));
    assert_eq!(s.progress(), Some(47));
    s.step(&fw, Event::Sent);
    assert_eq!(s.progress(), Some(90));
    assert_eq!(s.page_progress(), Some((1, 1)));
}

#[test]
fn counter_defaults_to_the_chunks() {
    let fw = firmware(300);
    let mut s = erasing(&fw);
    let first = s.step(&fw, reply(0x47, &[]));
    let (_, pauses, _) = write_all(&mut s, &fw, first);
    assert_eq!(pauses.len(), 2);
    let finalize = request(s.step(&fw, reply(0x49, &[1, 2, 3])));
    assert_eq!(finalize.1, build_packet(0x48, &[2, 0, 0, 0], 6));
}

#[test]
fn full_size_session_ends() {
    let fw = firmware(0xDF000);
    let mut s = erasing(&fw);
    let first = s.step(&fw, reply(0x47, &[]));
    let (data, pauses, _) = write_all(&mut s, &fw, first);
    assert_eq!(data, fw);
    assert_eq!(pauses.len(), 223 * 18);
}

#[test]
fn transfer_mode_is_left_first() {
    let fw = firmware(10);
    let mut s = FlashSession::new(fw.len()).unwrap();
    s.step(&fw, Event::Opened);
    let reset = sent(s.step(&fw, reply(0x53, &[1, 0, 5, 1, 0])));
    assert_eq!(reset, (build_packet(0x51, &[], 2), 0));
    assert!(matches!(s.step(&fw, Event::IoFailed), Action::Reopen { wait_ms: 200 }));
    for _ in 0..19 {
        assert!(matches!(s.step(&fw, Event::OpenFailed), Action::Reopen { wait_ms: 200 }));
    }
    let erase = request(s.step(&fw, Event::Opened));
    assert_eq!(erase.1, build_packet(0x46, &[], 3));
}

#[test]
fn device_that_stays_away_is_given_up() {
    let fw = firmware(10);
    let mut s = FlashSession::new(fw.len()).unwrap();
    s.step(&fw, Event::Opened);
    s.step(&fw, reply(0x53, &[105, 10]));
    s.step(&fw, Event::Sent);
    for _ in 0..19 {
        s.step(&fw, Event::OpenFailed);
    }
    assert_eq!(error(s.step(&fw, Event::OpenFailed)), FlashError::NotReenumerated);
    assert_eq!(s.phase, Phase::Failed);
}

#[test]
fn opening_and_status_errors() {
    let fw = firmware(10);
    let start = || FlashSession::new(10).unwrap();
    assert_eq!(error(start().step(&fw, Event::OpenFailed)), FlashError::Open);
    let after_open = |event: Event| {
        let mut s = start();
        s.step(&fw, Event::Opened);
        error(s.step(&fw, event))
    };
    assert_eq!(after_open(Event::NoReply), FlashError::NoStatusReply);
    assert_eq!(after_open(Event::IoFailed), FlashError::Io);
    let bad = FlashError::BadStatus { cmd: 0x47, crc_ok: true };
    assert_eq!(after_open(reply(0x47, &[])), bad);
    let bad = FlashError::BadStatus { cmd: 0x53, crc_ok: false };
    assert_eq!(after_open(damaged(0x53)), bad);
}

#[test]
fn erase_errors() {
    let fw = firmware(10);
    let after = |event: Event| error(erasing(&fw).step(&fw, event));
    assert_eq!(after(Event::NoReply), FlashError::NoEraseReply);
    assert_eq!(after(damaged(0x47)), FlashError::EraseFailed { cmd: 0x47, crc_ok: false });
    assert_eq!(after(reply(0x53, &[])), FlashError::EraseFailed { cmd: 0x53, crc_ok: true });
    let mut s = erasing(&fw);
    s.step(&fw, reply(0x47, &[]));
    assert_eq!(error(s.step(&fw, Event::IoFailed)), FlashError::Io);
}

#[test]
fn commit_and_finalize_errors() {
    let fw = firmware(10);
    let committing = || {
        let mut s = erasing(&fw);
        s.step(&fw, reply(0x47, &[]));
        s.step(&fw, Event::Sent);
        s
    };
    let after = |event: Event| error(committing().step(&fw, event));
    assert_eq!(after(Event::NoReply), FlashError::NoCommitReply);
    assert_eq!(after(damaged(0x49)), FlashError::CommitFailed { cmd: 0x49, crc_ok: false });
    assert_eq!(after(Event::IoFailed), FlashError::Io);
    let last = |event: Event| {
        let mut s = committing();
        s.step(&fw, reply(0x49, &[]));
        error(s.step(&fw, event))
    };
    assert_eq!(last(Event::NoReply), FlashError::NoFinalizeReply);
    assert_eq!(last(damaged(0x49)), FlashError::FinalizeCrc);
    assert_eq!(last(reply(0x48, &[])), FlashError::FinalizeUnexpected { cmd: 0x48 });
}
