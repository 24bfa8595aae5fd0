use rome::proto::{
    accept_reply, begin_timeout, block_reply, catalog_reply, codec_reply, device_error,
    end_timeout, multiblock_request, probe_reply, request_header, song_begin_reply,
    stress_reply, Command, Outgoing, ReadQueue, ReplyError, ReplyReader,
    ShortReply, WriteStalled, CMD_CATALOG_READ, CMD_PING, CMD_WRITE_STRESS,
};

fn sent(c: Command) -> Vec<u8> {
    let (head, payload) = c.send();
    [head.to_vec(), payload].concat()
}

fn device_text(r: Result<Vec<u8>, ReplyError>) -> String {
    match r {
        Err(ReplyError::Device(text)) => text,
        other => panic!("{:?}", other),
    }
}

#[test]
fn requests_are_header_and_payload() {
    assert_eq!(sent(Command::Ping), [0x01, 0, 0, 0, 0]);
    assert_eq!(sent(Command::DiskInfo), [0x02, 0, 0, 0, 0]);
    assert_eq!(sent(Command::DiskFormat), [0x03, 0, 0, 0, 0]);
    assert_eq!(sent(Command::SongCommit), [0x06, 0, 0, 0, 0]);
    assert_eq!(sent(Command::SongRemove { idx: 0x0102 }), [0x07, 2, 0, 0, 0, 2, 1]);
    assert_eq!(sent(Command::CatalogRead), [0x08, 0, 0, 0, 0]);
    assert_eq!(sent(Command::ExtcsdDump), [0x0A, 0, 0, 0, 0]);
    assert_eq!(sent(Command::CodecDiag), [0x0B, 0, 0, 0, 0]);
    assert_eq!(sent(Command::ReadBlock { addr: 300 }), [0x0C, 4, 0, 0, 0, 44, 1, 0, 0]);
    assert_eq!(sent(Command::WriteProbe { addr: 1 }), [0x0D, 4, 0, 0, 0, 1, 0, 0, 0]);
    assert_eq!(sent(Command::WriteStress { count: 2 }), [0x0E, 4, 0, 0, 0, 2, 0, 0, 0]);
}

#[test]
fn song_requests() {
    let mut name = [0u8; 24];
    name[..2].copy_from_slice(b"hi");
    let begin = sent(Command::SongBegin { name, nblocks: 0x0001_0203 });
    assert_eq!(begin.len(), 33);
    assert_eq!(begin[..8], [0x04, 28, 0, 0, 0, b'h', b'i', 0]);
    assert_eq!(begin[29..], [3, 2, 1, 0]);
    let block = sent(Command::SongBlock { block: [7; 512] });
    assert_eq!(block.len(), 517);
    assert_eq!(block[..6], [0x05, 0, 2, 0, 0, 7]);
}

#[test]
fn headers_read_back() {
    let h = request_header(0x42, 0x0102_0304);
    assert_eq!(h, [0x42, 4, 3, 2, 1]);
    assert_eq!(u32::from_le_bytes([h[1], h[2], h[3], h[4]]), 0x0102_0304);
}

#[test]
fn different_commands_differ() {
    let commands = [
        Command::Ping,
        Command::ReadBlock { addr: 1 },
        Command::ReadBlock { addr: 256 },
        Command::WriteProbe { addr: 1 },
        Command::SongRemove { idx: 1 },
    ];
    for (i, a) in commands.iter().enumerate() {
        for (j, b) in commands.iter().enumerate() {
            assert_eq!(sent(*a) == sent(*b), i == j);
        }
    }
}

#[test]
fn multiblock_layout() {
    assert!(multiblock_request(&[]).is_none());
    let buf = multiblock_request(&[[1; 512], [2; 512], [3; 512]]).unwrap();
    assert_eq!(buf.len(), 7 + 3 * 512);
    assert_eq!(buf[..8], [0x09, 2, 0, 0, 0, 3, 0, 1]);
    assert_eq!(buf[7 + 512..7 + 1024], [2; 512]);
    let many = multiblock_request(&vec![[0; 512]; 300]).unwrap();
    assert_eq!(many[5..7], [44, 1]);
}

#[test]
fn writing_goes_on_where_it_stopped() {
    let data = [1u8, 2, 3, 4, 5];
    let mut o = Outgoing::new(&data);
    assert_eq!(o.rest(), Some(&data[..]));
    assert_eq!(o.wrote(2), Ok(()));
    assert_eq!(o.rest(), Some(&data[2..]));
    assert_eq!(o.wrote(0), Err(WriteStalled));
    assert_eq!(o.rest(), Some(&data[2..]));
    assert_eq!(o.wrote(3), Ok(()));
    assert_eq!(o.rest(), None);
    assert_eq!(Outgoing::new(&[]).rest(), None);
}

#[test]
fn replies_survive_any_cutting() {
    let stream = [0u8, 3, 0, 0, 0, 10, 11, 12, 0xFF, 0, 0, 0, 0, 99];
    for cut in 0..=stream.len() {
        let mut queue = ReadQueue::new();
        let mut first = ReplyReader::new();
        queue.extend(&stream[..cut]);
        assert_eq!(first.read(&mut queue), cut >= 8);
        queue.extend(&stream[cut..]);
        assert!(first.read(&mut queue));
        assert_eq!(first.head, [0, 3, 0, 0, 0]);
        assert_eq!(first.finish().unwrap(), [10, 11, 12]);
        let mut second = ReplyReader::new();
        assert!(second.read(&mut queue));
        assert_eq!(device_text(second.finish()), "ERR");
        assert_eq!(queue.rbuf, [99]);
    }
}

#[test]
fn reply_status_decides() {
    assert_eq!(accept_reply(0, vec![1, 2]).unwrap(), [1, 2]);
    assert_eq!(device_text(accept_reply(0xFF, b"disk full".to_vec())), "disk full");
    assert_eq!(device_text(accept_reply(0xFF, vec![b'a', 0xFF])), "a\u{FFFD}");
    assert_eq!(device_text(accept_reply(0xFF, vec![])), "ERR");
    assert!(matches!(accept_reply(0x7F, vec![]), Err(ReplyError::UnexpectedStatus(0x7F))));
}

#[test]
fn device_errors_have_a_reason() {
    assert!(matches!(device_error(String::new()), ReplyError::Device(t) if t == "ERR"));
    assert!(matches!(device_error("x".to_string()), ReplyError::Device(t) if t == "x"));
}

#[test]
fn block_replies() {
    let mut data = vec![5u8; 600];
    data[511] = 6;
    let block = block_reply(&data).unwrap();
    assert_eq!((block[0], block[511]), (5, 6));
    assert_eq!(block_reply(&data[..511]), Err(ShortReply { got: 511 }));
    assert_eq!(codec_reply(&data[..40]), Ok([5; 32]));
    assert_eq!(codec_reply(&data[..31]), Err(ShortReply { got: 31 }));
}

#[test]
fn number_replies() {
    assert_eq!(probe_reply(&[3, 4]), Ok(3));
    assert_eq!(probe_reply(&[]), Err(ShortReply { got: 0 }));
    assert_eq!(stress_reply(&[1, 2, 0, 0, 9]), Ok(513));
    assert_eq!(stress_reply(&[1, 2, 0]), Err(ShortReply { got: 3 }));
    assert_eq!(song_begin_reply(&[1, 2, 9]), Ok(513));
    assert_eq!(song_begin_reply(&[1]), Err(ShortReply { got: 1 }));
}

#[test]
fn catalog_replies() {
    assert_eq!(catalog_reply(vec![1; 4097]), Ok(vec![1; 4097]));
    assert_eq!(catalog_reply(vec![1; 4095]), Err(ShortReply { got: 4095 }));
}

#[test]
fn timeouts_of_commands() {
    assert_eq!(begin_timeout(10, CMD_PING), 10);
    assert_eq!(begin_timeout(30, CMD_PING), 30);
    assert_eq!(begin_timeout(10, CMD_WRITE_STRESS), 300);
    assert_eq!(begin_timeout(10, CMD_CATALOG_READ), 30);
    assert_eq!(end_timeout(30, CMD_PING, true), 30);
    assert_eq!(end_timeout(10, CMD_WRITE_STRESS, false), 10);
    assert_eq!(end_timeout(10, CMD_CATALOG_READ, true), 10);
    assert_eq!(end_timeout(10, CMD_CATALOG_READ, false), 30);
}
