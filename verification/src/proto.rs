//! The command protocol of the running firmware.
//!
//! A request is a command byte, the length of its payload and the payload. A reply
//! is a status byte, the length of its payload and the payload. Lengths are 32-bit
//! little-endian.

use std::collections::VecDeque;

use vstd::prelude::*;

use crate::le::{read_u16, read_u32, u16_bytes, u32_bytes};

verus! {

pub const CMD_PING: u8 = 0x01;
pub const CMD_DISK_INFO: u8 = 0x02;
pub const CMD_DISK_FORMAT: u8 = 0x03;
pub const CMD_SONG_BEGIN: u8 = 0x04;
pub const CMD_SONG_BLOCK: u8 = 0x05;
pub const CMD_SONG_COMMIT: u8 = 0x06;
pub const CMD_SONG_REMOVE: u8 = 0x07;
pub const CMD_CATALOG_READ: u8 = 0x08;
pub const CMD_SONG_MULTIBLOCK: u8 = 0x09;
pub const CMD_EXTCSD_DUMP: u8 = 0x0A;
pub const CMD_CODEC_DIAG: u8 = 0x0B;
pub const CMD_READ_BLOCK: u8 = 0x0C;
pub const CMD_WRITE_PROBE: u8 = 0x0D;
pub const CMD_WRITE_STRESS: u8 = 0x0E;

pub const STATUS_OK: u8 = 0x00;
pub const STATUS_ERR: u8 = 0xFF;

// ---- Requests ----

/// The bytes before the payload of a request. Of the length, the low-order 32 bits
/// count.
pub open spec fn header(cmd: u8, payload_len: int) -> Seq<u8> {
    seq![cmd] + crate::le::u32_le(payload_len)
}

pub fn request_header(cmd: u8, payload_len: usize) -> (h: [u8; 5])
    ensures
        h@ == header(cmd, payload_len as int),
{
    let len: u32 = (payload_len as u64 % 0x1_0000_0000) as u32;
    let b: [u8; 4] = u32_bytes(len);
    let h: [u8; 5] = [cmd, b[0], b[1], b[2], b[3]];
    proof {
        lemma_low_bits(payload_len as int);
    }
    assert(h@ =~= header(cmd, payload_len as int));
    h
}

proof fn lemma_low_bits(x: int)
    requires
        0 <= x,
    ensures
        crate::le::u32_le(x % 0x1_0000_0000) == crate::le::u32_le(x),
{
    let q = x / 0x1_0000_0000;
    let r = x % 0x1_0000_0000;
    assert(x == q * 0x1_0000_0000 + r);
    assert(x / 0x100 == q * 0x100_0000 + r / 0x100);
    assert(x / 0x1_0000 == q * 0x1_0000 + r / 0x1_0000);
    assert(x / 0x100_0000 == q * 0x100 + r / 0x100_0000);
    assert(crate::le::u32_le(r) =~= crate::le::u32_le(x));
}

/// A command with its arguments.
#[derive(Clone, Copy, Debug)]
pub enum Command {
    Ping,
    DiskInfo,
    DiskFormat,
    SongBegin { name: [u8; 24], nblocks: u32 },
    SongBlock { block: [u8; 512] },
    SongCommit,
    SongRemove { idx: u16 },
    CatalogRead,
    ExtcsdDump,
    CodecDiag,
    ReadBlock { addr: u32 },
    WriteProbe { addr: u32 },
    WriteStress { count: u32 },
}

impl Command {
    pub open spec fn cmd(self) -> u8 {
        match self {
            Command::Ping => CMD_PING,
            Command::DiskInfo => CMD_DISK_INFO,
            Command::DiskFormat => CMD_DISK_FORMAT,
            Command::SongBegin { .. } => CMD_SONG_BEGIN,
            Command::SongBlock { .. } => CMD_SONG_BLOCK,
            Command::SongCommit => CMD_SONG_COMMIT,
            Command::SongRemove { .. } => CMD_SONG_REMOVE,
            Command::CatalogRead => CMD_CATALOG_READ,
            Command::ExtcsdDump => CMD_EXTCSD_DUMP,
            Command::CodecDiag => CMD_CODEC_DIAG,
            Command::ReadBlock { .. } => CMD_READ_BLOCK,
            Command::WriteProbe { .. } => CMD_WRITE_PROBE,
            Command::WriteStress { .. } => CMD_WRITE_STRESS,
        }
    }

    pub open spec fn args(self) -> Seq<u8> {
        match self {
            Command::SongBegin { name, nblocks } => name@ + crate::le::u32_le(nblocks as int),
            Command::SongBlock { block } => block@,
            Command::SongRemove { idx } => crate::le::u16_le(idx as int),
            Command::ReadBlock { addr } => crate::le::u32_le(addr as int),
            Command::WriteProbe { addr } => crate::le::u32_le(addr as int),
            Command::WriteStress { count } => crate::le::u32_le(count as int),
            _ => Seq::empty(),
        }
    }

    /// Everything that is sent for the command.
    pub open spec fn request(self) -> Seq<u8> {
        header(self.cmd(), self.args().len() as int) + self.args()
    }

    pub fn code(&self) -> (cmd: u8)
        ensures
            cmd == self.cmd(),
    {
        match self {
            Command::Ping => CMD_PING,
            Command::DiskInfo => CMD_DISK_INFO,
            Command::DiskFormat => CMD_DISK_FORMAT,
            Command::SongBegin { .. } => CMD_SONG_BEGIN,
            Command::SongBlock { .. } => CMD_SONG_BLOCK,
            Command::SongCommit => CMD_SONG_COMMIT,
            Command::SongRemove { .. } => CMD_SONG_REMOVE,
            Command::CatalogRead => CMD_CATALOG_READ,
            Command::ExtcsdDump => CMD_EXTCSD_DUMP,
            Command::CodecDiag => CMD_CODEC_DIAG,
            Command::ReadBlock { .. } => CMD_READ_BLOCK,
            Command::WriteProbe { .. } => CMD_WRITE_PROBE,
            Command::WriteStress { .. } => CMD_WRITE_STRESS,
        }
    }

    pub fn payload(&self) -> (payload: Vec<u8>)
        ensures
            payload@ == self.args(),
    {
        let mut payload: Vec<u8> = Vec::new();
        match self {
            Command::SongBegin { name, nblocks } => {
                payload.extend_from_slice(name);
                payload.extend_from_slice(&u32_bytes(*nblocks));
            },
            Command::SongBlock { block } => {
                payload.extend_from_slice(block);
            },
            Command::SongRemove { idx } => {
                payload.extend_from_slice(&u16_bytes(*idx));
            },
            Command::ReadBlock { addr } => {
                payload.extend_from_slice(&u32_bytes(*addr));
            },
            Command::WriteProbe { addr } => {
                payload.extend_from_slice(&u32_bytes(*addr));
            },
            Command::WriteStress { count } => {
                payload.extend_from_slice(&u32_bytes(*count));
            },
            _ => {},
        }
        assert(payload@ =~= self.args());
        payload
    }

    /// The bytes to send: the header, and the payload, which is sent after it where
    /// there is any.
    pub fn send(&self) -> (r: ([u8; 5], Vec<u8>))
        ensures
            r.0@ == header(self.cmd(), self.args().len() as int),
            r.1@ == self.args(),
            r.0@ + r.1@ == self.request(),
    {
        let payload: Vec<u8> = self.payload();
        (request_header(self.code(), payload.len()), payload)
    }
}

/// The bytes of all blocks, one after the other.
pub open spec fn joined(blocks: Seq<[u8; 512]>) -> Seq<u8>
    decreases blocks.len(),
{
    if blocks.len() == 0 {
        Seq::empty()
    } else {
        joined(blocks.drop_last()) + blocks.last()@
    }
}

/// A request that writes several blocks: its payload is the number of blocks, and
/// the blocks follow the request. Of the number, the low-order 16 bits count.
pub open spec fn multiblock(blocks: Seq<[u8; 512]>) -> Seq<u8> {
    header(CMD_SONG_MULTIBLOCK, 2) + crate::le::u16_le(blocks.len() as int) + joined(blocks)
}

/// Builds the request that writes `blocks`, in one piece; nothing is sent for no
/// blocks.
pub fn multiblock_request(blocks: &[[u8; 512]]) -> (r: Option<Vec<u8>>)
    ensures
        blocks@.len() == 0 ==> r is None,
        blocks@.len() > 0 ==> (r matches Some(buf) && buf@ == multiblock(blocks@)),
{
    if blocks.len() == 0 {
        return None;
    }
    let count: u16 = (blocks.len() as u64 % 0x1_0000) as u16;
    let mut buf: Vec<u8> = Vec::new();
    buf.extend_from_slice(&request_header(CMD_SONG_MULTIBLOCK, 2));
    buf.extend_from_slice(&u16_bytes(count));
    let ghost head = header(CMD_SONG_MULTIBLOCK, 2) + crate::le::u16_le(blocks@.len() as int);
    proof {
        let n = blocks@.len() as int;
        assert(n / 0x100 % 0x100 == n % 0x1_0000 / 0x100);
        assert(crate::le::u16_le(count as int) =~= crate::le::u16_le(n));
    }
    assert(buf@ =~= head + joined(blocks@.take(0)));
    let mut i: usize = 0;
    while i < blocks.len()
        invariant
            i <= blocks@.len(),
            buf@ == head + joined(blocks@.take(i as int)),
        decreases blocks@.len() - i,
    {
        let ghost before = buf@;
        buf.extend_from_slice(&blocks[i]);
        assert(buf@ =~= before + blocks@[i as int]@);
        assert(blocks@.take(i + 1).drop_last() =~= blocks@.take(i as int));
        assert(buf@ =~= head + joined(blocks@.take(i + 1)));
        i = i + 1;
    }
    assert(blocks@.take(blocks@.len() as int) =~= blocks@);
    Some(buf)
}

// ---- Writing to the device ----

/// Data on its way to the device.
#[derive(Debug)]
pub struct Outgoing<'a> {
    pub data: &'a [u8],
    /// How much has been written.
    pub off: usize,
}

/// A write took no bytes.
#[derive(Clone, Copy, Debug, PartialEq, Eq, Structural)]
pub struct WriteStalled;

impl<'a> Outgoing<'a> {
    pub open spec fn wf(self) -> bool {
        self.off <= self.data@.len()
    }

    /// What has not been written.
    pub open spec fn left(self) -> Seq<u8> {
        self.data@.skip(self.off as int)
    }

    pub fn new(data: &'a [u8]) -> (o: Outgoing<'a>)
        ensures
            o.wf(),
            o.data@ == data@,
            o.left() == data@,
    {
        let o = Outgoing { data, off: 0 };
        assert(o.left() =~= data@);
        o
    }

    /// What to write next; nothing when all is written.
    pub fn rest(&self) -> (r: Option<&'a [u8]>)
        requires
            self.wf(),
        ensures
            self.left().len() == 0 ==> r is None,
            self.left().len() > 0 ==> (r matches Some(rest) && rest@ == self.left()),
    {
        if self.off < self.data.len() {
            let rest: &'a [u8] = vstd::slice::slice_subrange(self.data, self.off, self.data.len());
            assert(rest@ =~= self.left());
            Some(rest)
        } else {
            None
        }
    }

    /// Moves past the first `n` bytes of what was to be written. A write that took
    /// nothing is an error.
    pub fn wrote(&mut self, n: usize) -> (r: Result<(), WriteStalled>)
        requires
            old(self).wf(),
            n <= old(self).left().len(),
        ensures
            final(self).wf(),
            final(self).data == old(self).data,
            r is Err <==> n == 0,
            final(self).left() == old(self).left().skip(n as int),
    {
        proof {
            assert(self.data@.skip(self.off as int).skip(n as int) =~= self.data@.skip(
                self.off + n,
            ));
        }
        if n == 0 {
            return Err(WriteStalled);
        }
        assert(self.off + n <= self.data.len());
        self.off = self.off + n;
        Ok(())
    }
}

// ---- Reading from the device ----

/// The status and the payload of the reply at the front of `bytes`, and how many
/// bytes it takes; nothing where it is not complete.
pub open spec fn first_reply(bytes: Seq<u8>) -> Option<(u8, Seq<u8>, int)> {
    let len = crate::le::u32_value(bytes.subrange(1, 5));
    if bytes.len() < 5 || bytes.len() < 5 + len {
        None
    } else {
        Some((bytes[0], bytes.subrange(5, 5 + len), 5 + len))
    }
}

/// Bytes that were received and not yet read.
#[derive(Debug)]
pub struct ReadQueue {
    pub rbuf: VecDeque<u8>,
}

impl View for ReadQueue {
    type V = Seq<u8>;

    open spec fn view(&self) -> Seq<u8> {
        self.rbuf@
    }
}

impl ReadQueue {
    pub fn new() -> (q: ReadQueue)
        ensures
            q@ == Seq::<u8>::empty(),
    {
        ReadQueue { rbuf: VecDeque::new() }
    }

    /// Adds received bytes.
    pub fn extend(&mut self, received: &[u8])
        ensures
            final(self)@ == old(self)@ + received@,
    {
        assert(self@ =~= old(self)@ + received@.take(0));
        let mut i: usize = 0;
        while i < received.len()
            invariant
                i <= received@.len(),
                self@ == old(self)@ + received@.take(i as int),
            decreases received@.len() - i,
        {
            self.rbuf.push_back(received[i]);
            assert(received@.take(i + 1) =~= received@.take(i as int).push(received@[i as int]));
            assert(self@ =~= old(self)@ + received@.take(i + 1));
            i = i + 1;
        }
        assert(received@.take(received@.len() as int) =~= received@);
    }

    /// Moves bytes to `out` until it holds `want` or there are none left.
    fn read_into(&mut self, out: &mut Vec<u8>, want: usize)
        requires
            old(out)@.len() <= want,
        ensures
            final(out)@ + final(self)@ == old(out)@ + old(self)@,
            old(out)@.len() <= final(out)@.len() <= want,
            final(out)@.len() == want || final(self)@.len() == 0,
    {
        while out.len() < want
            invariant
                out@ + self@ == old(out)@ + old(self)@,
                old(out)@.len() <= out@.len() <= want,
            decreases self@.len(),
        {
            let ghost queue = self@;
            let ghost taken = out@;
            match self.rbuf.pop_front() {
                Some(b) => {
                    out.push(b);
                    assert(out@ + self@ =~= taken + queue);
                },
                None => {
                    return;
                },
            }
        }
    }
}

/// A reply as far as it has been read.
#[derive(Debug)]
pub struct ReplyReader {
    pub head: Vec<u8>,
    pub payload: Vec<u8>,
}

impl ReplyReader {
    pub open spec fn wf(self) -> bool {
        &&& self.head@.len() <= 5
        &&& self.head@.len() < 5 ==> self.payload@.len() == 0
        &&& self.head@.len() == 5 ==> self.payload@.len() <= crate::le::u32_value(
            self.head@.subrange(1, 5),
        )
    }

    /// The bytes that have been read.
    pub open spec fn taken(self) -> Seq<u8> {
        self.head@ + self.payload@
    }

    pub fn new() -> (r: ReplyReader)
        ensures
            r.wf(),
            r.taken() == Seq::<u8>::empty(),
    {
        let r = ReplyReader { head: Vec::new(), payload: Vec::new() };
        assert(r.taken() =~= Seq::<u8>::empty());
        r
    }

    /// Reads on from `queue`, and says whether the reply is complete. Where it is
    /// not, all of the queue has been read, and more has to be received.
    pub fn read(&mut self, queue: &mut ReadQueue) -> (complete: bool)
        requires
            old(self).wf(),
        ensures
            final(self).wf(),
            final(self).taken() + final(queue)@ == old(self).taken() + old(queue)@,
            complete == (first_reply(old(self).taken() + old(queue)@) is Some),
            !complete ==> final(queue)@.len() == 0,
            complete ==> ({
                let reply = first_reply(old(self).taken() + old(queue)@)->0;
                &&& final(self).head@.len() == 5
                &&& final(self).head@[0] == reply.0
                &&& final(self).payload@ == reply.1
                &&& final(self).taken().len() == reply.2
            }),
    {
        let ghost all = self.taken() + queue@;
        if self.head.len() < 5 {
            assert(self.head@ + queue@ =~= all);
            queue.read_into(&mut self.head, 5);
            assert(self.taken() + queue@ =~= all);
            if self.head.len() < 5 {
                assert(all.len() < 5);
                return false;
            }
        }
        assert(all.subrange(1, 5) =~= self.head@.subrange(1, 5));
        let len: usize = read_u32(self.head.as_slice(), 1) as usize;
        assert(self.payload@ + queue@ =~= all.skip(5));
        queue.read_into(&mut self.payload, len);
        assert(self.head@ + (self.payload@ + queue@) =~= self.taken() + queue@);
        assert(all.take(5) + all.skip(5) =~= all);
        assert(all.take(5) =~= self.head@);
        assert(self.taken() + queue@ == all);
        proof {
            if self.payload@.len() == len {
                assert(all.subrange(5, 5 + len) =~= self.payload@);
            }
        }
        self.payload.len() == len
    }

    /// What comes of the reply, once it is complete.
    pub fn finish(self) -> (r: Result<Vec<u8>, ReplyError>)
        requires
            self.head@.len() == 5,
        ensures
            accepted(self.head@[0], self.payload, r),
    {
        accept_reply(self.head[0], self.payload)
    }
}

#[derive(Debug)]
pub enum ReplyError {
    /// The device refused the command and says why.
    Device(String),
    UnexpectedStatus(u8),
}

/// `String::from_utf8_lossy`: the text of bytes, with replacement characters where
/// they are no UTF-8.
pub uninterp spec fn utf8_lossy(bytes: Seq<u8>) -> Seq<char>;

/// `String::from_utf8_lossy`, whose result depends on the bytes alone and is their
/// text where they are valid UTF-8. Which characters stand for other bytes is left
/// to its name.
#[verifier::external_body]
fn lossy_text(bytes: &[u8]) -> (text: String)
    ensures
        text@ == utf8_lossy(bytes@),
        vstd::utf8::valid_utf8(bytes@) ==> text@ == vstd::utf8::decode_utf8(bytes@),
{
    String::from_utf8_lossy(bytes).to_string()
}

/// What is shown of a device's reason: a stand-in where it gives none.
pub open spec fn device_reason(text: Seq<char>) -> Seq<char> {
    if text.len() == 0 {
        "ERR"@
    } else {
        text
    }
}

/// The error for a refused command with the reason `text`.
pub fn device_error(text: String) -> (e: ReplyError)
    ensures
        e matches ReplyError::Device(reason) && reason@ == device_reason(text@),
{
    if text.as_str().is_empty() {
        ReplyError::Device("ERR".to_string())
    } else {
        ReplyError::Device(text)
    }
}

/// What comes of a reply: its payload, if its status is good. A refusal gives its
/// reason as text.
pub open spec fn accepted(
    status: u8,
    payload: Vec<u8>,
    r: Result<Vec<u8>, ReplyError>,
) -> bool {
    if status == STATUS_OK {
        r == Ok::<Vec<u8>, ReplyError>(payload)
    } else if status == STATUS_ERR {
        &&& r matches Err(ReplyError::Device(reason))
        &&& reason@ == device_reason(utf8_lossy(payload@))
        &&& vstd::utf8::valid_utf8(payload@) ==> reason@ == device_reason(
            vstd::utf8::decode_utf8(payload@),
        )
    } else {
        r == Err::<Vec<u8>, ReplyError>(ReplyError::UnexpectedStatus(status))
    }
}

pub fn accept_reply(status: u8, payload: Vec<u8>) -> (r: Result<Vec<u8>, ReplyError>)
    ensures
        accepted(status, payload, r),
{
    if status == STATUS_ERR {
        return Err(device_error(lossy_text(payload.as_slice())));
    }
    if status != STATUS_OK {
        return Err(ReplyError::UnexpectedStatus(status));
    }
    Ok(payload)
}

/// A reply's payload is too short: how long it is.
#[derive(Clone, Copy, Debug, PartialEq, Eq, Structural)]
pub struct ShortReply {
    pub got: usize,
}

/// The block that a reply starts with.
pub fn block_reply(data: &[u8]) -> (r: Result<[u8; 512], ShortReply>)
    ensures
        data@.len() < 512 ==> (r matches Err(e) && e.got == data@.len()),
        data@.len() >= 512 ==> (r matches Ok(block) && block@ == data@.take(512)),
{
    if data.len() < 512 {
        return Err(ShortReply { got: data.len() });
    }
    let mut block: [u8; 512] = [0u8; 512];
    let mut i: usize = 0;
    while i < 512
        invariant
            i <= 512,
            data@.len() >= 512,
            forall|j: int| 0 <= j < i ==> #[trigger] block@[j] == data@[j],
        decreases 512 - i,
    {
        block[i] = data[i];
        i = i + 1;
    }
    assert(block@ =~= data@.take(512));
    Ok(block)
}

/// The 32 diagnostic bytes that a reply to [`CMD_CODEC_DIAG`] starts with.
pub fn codec_reply(data: &[u8]) -> (r: Result<[u8; 32], ShortReply>)
    ensures
        data@.len() < 32 ==> (r matches Err(e) && e.got == data@.len()),
        data@.len() >= 32 ==> (r matches Ok(diag) && diag@ == data@.take(32)),
{
    if data.len() < 32 {
        return Err(ShortReply { got: data.len() });
    }
    let mut diag: [u8; 32] = [0u8; 32];
    let mut i: usize = 0;
    while i < 32
        invariant
            i <= 32,
            data@.len() >= 32,
            forall|j: int| 0 <= j < i ==> #[trigger] diag@[j] == data@[j],
        decreases 32 - i,
    {
        diag[i] = data[i];
        i = i + 1;
    }
    assert(diag@ =~= data@.take(32));
    Ok(diag)
}

/// The verdict in a reply to [`CMD_WRITE_PROBE`].
pub fn probe_reply(data: &[u8]) -> (r: Result<u8, ShortReply>)
    ensures
        data@.len() == 0 ==> (r matches Err(e) && e.got == 0),
        data@.len() > 0 ==> r == Ok::<_, ShortReply>(data@[0]),
{
    if data.len() == 0 {
        Err(ShortReply { got: 0 })
    } else {
        Ok(data[0])
    }
}

/// The block index in a reply to [`CMD_WRITE_STRESS`].
pub fn stress_reply(data: &[u8]) -> (r: Result<u32, ShortReply>)
    ensures
        data@.len() < 4 ==> (r matches Err(e) && e.got == data@.len()),
        data@.len() >= 4 ==> (r matches Ok(x) && x == crate::le::u32_value(data@.take(4))),
{
    if data.len() < 4 {
        Err(ShortReply { got: data.len() })
    } else {
        assert(data@.subrange(0, 4) =~= data@.take(4));
        Ok(read_u32(data, 0))
    }
}

/// The catalog index in a reply to [`CMD_SONG_BEGIN`].
pub fn song_begin_reply(data: &[u8]) -> (r: Result<u16, ShortReply>)
    ensures
        data@.len() < 2 ==> (r matches Err(e) && e.got == data@.len()),
        data@.len() >= 2 ==> (r matches Ok(x) && x == crate::le::u16_value(data@.take(2))),
{
    if data.len() < 2 {
        Err(ShortReply { got: data.len() })
    } else {
        assert(data@.subrange(0, 2) =~= data@.take(2));
        Ok(read_u16(data, 0))
    }
}

/// The catalog in a reply to [`CMD_CATALOG_READ`].
pub fn catalog_reply(data: Vec<u8>) -> (r: Result<Vec<u8>, ShortReply>)
    ensures
        data@.len() < 4096 ==> (r matches Err(e) && e.got == data@.len()),
        data@.len() >= 4096 ==> r == Ok::<_, ShortReply>(data),
{
    if data.len() < 4096 {
        Err(ShortReply { got: data.len() })
    } else {
        Ok(data)
    }
}

// ---- Timeouts ----

pub const DEFAULT_TIMEOUT_SECS: u64 = 10;

/// How long to wait while a command runs, given how long was waited before it: some
/// commands take the device longer.
pub open spec fn timeout_during(current: u64, cmd: u8) -> u64 {
    if cmd == CMD_WRITE_STRESS {
        300
    } else if cmd == CMD_CATALOG_READ {
        30
    } else {
        current
    }
}

/// How long to wait once a command is over. A failed catalog read leaves its longer
/// timeout standing.
pub open spec fn timeout_after(current: u64, cmd: u8, ok: bool) -> u64 {
    if cmd == CMD_WRITE_STRESS || (cmd == CMD_CATALOG_READ && ok) {
        DEFAULT_TIMEOUT_SECS
    } else {
        timeout_during(current, cmd)
    }
}

pub fn begin_timeout(current: u64, cmd: u8) -> (secs: u64)
    ensures
        secs == timeout_during(current, cmd),
{
    if cmd == CMD_WRITE_STRESS {
        300
    } else if cmd == CMD_CATALOG_READ {
        30
    } else {
        current
    }
}

pub fn end_timeout(current: u64, cmd: u8, ok: bool) -> (secs: u64)
    ensures
        secs == timeout_after(current, cmd, ok),
{
    if cmd == CMD_WRITE_STRESS || (cmd == CMD_CATALOG_READ && ok) {
        DEFAULT_TIMEOUT_SECS
    } else {
        begin_timeout(current, cmd)
    }
}

// ---- Laws ----

/// A header can be read again: its first byte is the command, the rest the length.
pub proof fn law_header_reads_back(cmd: u8, payload_len: u32)
    ensures
        header(cmd, payload_len as int).len() == 5,
        header(cmd, payload_len as int)[0] == cmd,
        crate::le::u32_value(header(cmd, payload_len as int).subrange(1, 5)) == payload_len,
{
    let h = header(cmd, payload_len as int);
    assert(h.subrange(1, 5) =~= crate::le::u32_le(payload_len as int));
    crate::le::law_integers_read_back(0, payload_len);
}

/// Every command puts the default timeout back, except a catalog read that fails.
pub proof fn law_timeout_is_restored(cmd: u8, ok: bool)
    ensures
        timeout_after(DEFAULT_TIMEOUT_SECS, cmd, ok) == DEFAULT_TIMEOUT_SECS <==> (cmd
            != CMD_CATALOG_READ || ok),
{
}

/// Different commands are sent as different bytes.
pub proof fn law_requests_differ(a: Command, b: Command)
    requires
        a.request() == b.request(),
    ensures
        a == b,
{
    let (ra, rb) = (a.request(), b.request());
    assert(ra[0] == a.cmd() && rb[0] == b.cmd());
    assert(ra.skip(5) =~= a.args());
    assert(rb.skip(5) =~= b.args());
    match (a, b) {
        (
            Command::SongBegin { name: n1, nblocks: c1 },
            Command::SongBegin { name: n2, nblocks: c2 },
        ) => {
            assert(a.args().take(24) =~= n1@);
            assert(b.args().take(24) =~= n2@);
            assert(a.args().skip(24) =~= crate::le::u32_le(c1 as int));
            assert(b.args().skip(24) =~= crate::le::u32_le(c2 as int));
            assert(n1 =~= n2);
            crate::le::law_integers_read_back(0, c1);
            crate::le::law_integers_read_back(0, c2);
        },
        (Command::SongBlock { block: x }, Command::SongBlock { block: y }) => {
            assert(x =~= y);
        },
        (Command::SongRemove { idx: x }, Command::SongRemove { idx: y }) => {
            crate::le::law_integers_read_back(x, 0);
            crate::le::law_integers_read_back(y, 0);
        },
        (Command::ReadBlock { addr: x }, Command::ReadBlock { addr: y }) => {
            crate::le::law_integers_read_back(0, x);
            crate::le::law_integers_read_back(0, y);
        },
        (Command::WriteProbe { addr: x }, Command::WriteProbe { addr: y }) => {
            crate::le::law_integers_read_back(0, x);
            crate::le::law_integers_read_back(0, y);
        },
        (Command::WriteStress { count: x }, Command::WriteStress { count: y }) => {
            crate::le::law_integers_read_back(0, x);
            crate::le::law_integers_read_back(0, y);
        },
        _ => {},
    }
}

/// A reply is read back as it was sent, whatever follows it.
pub proof fn law_reply_reads_back(status: u8, payload: Seq<u8>, rest: Seq<u8>)
    requires
        payload.len() <= u32::MAX,
    ensures
        first_reply(header(status, payload.len() as int) + payload + rest) == Some(
            (status, payload, 5 + payload.len() as int),
        ),
{
    let bytes = header(status, payload.len() as int) + payload + rest;
    law_header_reads_back(status, payload.len() as u32);
    assert(bytes.subrange(1, 5) =~= header(status, payload.len() as int).subrange(1, 5));
    assert(bytes.subrange(5, 5 + payload.len() as int) =~= payload);
}

/// Once a reply is complete, receiving more changes nothing about it.
pub proof fn law_reply_is_stable(bytes: Seq<u8>, more: Seq<u8>)
    requires
        first_reply(bytes) is Some,
    ensures
        first_reply(bytes + more) == first_reply(bytes),
{
    let len = crate::le::u32_value(bytes.subrange(1, 5));
    assert((bytes + more).subrange(1, 5) =~= bytes.subrange(1, 5));
    assert((bytes + more).subrange(5, 5 + len) =~= bytes.subrange(5, 5 + len));
}

/// In a request that writes blocks, block `k` stands at its place.
pub proof fn law_multiblock_layout(blocks: Seq<[u8; 512]>, k: int)
    requires
        0 <= k < blocks.len(),
    ensures
        multiblock(blocks).len() == 7 + 512 * blocks.len(),
        multiblock(blocks).subrange(7 + 512 * k, 7 + 512 * k + 512) == blocks[k]@,
{
    lemma_joined(blocks, k);
    assert(multiblock(blocks).subrange(7 + 512 * k, 7 + 512 * k + 512) =~= joined(blocks).subrange(
        512 * k,
        512 * k + 512,
    ));
}

proof fn lemma_joined(blocks: Seq<[u8; 512]>, k: int)
    requires
        0 <= k < blocks.len(),
    ensures
        joined(blocks).len() == 512 * blocks.len(),
        joined(blocks).subrange(512 * k, 512 * k + 512) == blocks[k]@,
    decreases blocks.len(),
{
    let before = blocks.drop_last();
    assert(before.len() == 0 ==> joined(before).len() == 0);
    if before.len() > 0 {
        lemma_joined(before, if k < before.len() { k } else { 0 });
    }
    if k < before.len() {
        assert(joined(blocks).subrange(512 * k, 512 * k + 512) =~= joined(before).subrange(
            512 * k,
            512 * k + 512,
        ));
    } else {
        assert(joined(blocks).subrange(512 * k, 512 * k + 512) =~= blocks.last()@);
    }
}

/// What is sent for each command: its code, the length of its arguments in four
/// bytes, and the arguments.
pub proof fn law_requests(c: Command)
    ensures
        ({
            let r = c.request();
            let plain = |code: u8| seq![code, 0u8, 0, 0, 0];
            let wide = |code: u8, x: u32| seq![code, 4u8, 0, 0, 0] + crate::le::u32_le(x as int);
            match c {
                Command::Ping => r == plain(0x01),
                Command::DiskInfo => r == plain(0x02),
                Command::DiskFormat => r == plain(0x03),
                Command::SongBegin { name, nblocks } => r == seq![0x04u8, 28, 0, 0, 0] + name@
                    + crate::le::u32_le(nblocks as int),
                Command::SongBlock { block } => r == seq![0x05u8, 0, 2, 0, 0] + block@,
                Command::SongCommit => r == plain(0x06),
                Command::SongRemove { idx } => r == seq![0x07u8, 2, 0, 0, 0] + crate::le::u16_le(
                    idx as int,
                ),
                Command::CatalogRead => r == plain(0x08),
                Command::ExtcsdDump => r == plain(0x0A),
                Command::CodecDiag => r == plain(0x0B),
                Command::ReadBlock { addr } => r == wide(0x0C, addr),
                Command::WriteProbe { addr } => r == wide(0x0D, addr),
                Command::WriteStress { count } => r == wide(0x0E, count),
            }
        }),
        c.request()[0] == c.cmd(),
        c.request().skip(5) == c.args(),
{
    assert(c.request().skip(5) =~= c.args());
    match c {
        Command::SongBegin { name, nblocks } => {
            assert(c.request() =~= seq![0x04u8, 28, 0, 0, 0] + name@ + crate::le::u32_le(
                nblocks as int,
            ));
        },
        Command::SongBlock { block } => {
            assert(c.request() =~= seq![0x05u8, 0, 2, 0, 0] + block@);
        },
        Command::SongRemove { idx } => {
            assert(c.request() =~= seq![0x07u8, 2, 0, 0, 0] + crate::le::u16_le(idx as int));
        },
        Command::ReadBlock { addr: x }
        | Command::WriteProbe { addr: x }
        | Command::WriteStress { count: x } => {
            assert(c.request() =~= seq![c.cmd(), 4u8, 0, 0, 0] + crate::le::u32_le(x as int));
        },
        _ => {
            assert(c.request() =~= seq![c.cmd(), 0u8, 0, 0, 0]);
        },
    }
}

/// A header is a byte and four bytes that weigh up to the length.
pub proof fn law_header_layout(cmd: u8, payload_len: int)
    requires
        0 <= payload_len,
    ensures
        ({
            let h = header(cmd, payload_len);
            &&& h.len() == 5
            &&& h[0] == cmd
            &&& h[1] + 256 * h[2] + 65536 * h[3] + 16777216 * h[4] == payload_len
                % 0x1_0000_0000
        }),
{
    crate::le::law_bytes_are_weighed(payload_len, seq![0u8, 0], seq![0u8, 0, 0, 0]);
}

/// A request that writes blocks starts with its code, the length of the count, and
/// the count.
pub proof fn law_multiblock_head(blocks: Seq<[u8; 512]>)
    ensures
        multiblock(blocks).take(5) == seq![0x09u8, 2, 0, 0, 0],
        multiblock(blocks)[5] + 256 * multiblock(blocks)[6] == blocks.len() % 0x1_0000,
{
    crate::le::law_bytes_are_weighed(blocks.len() as int, seq![0u8, 0], seq![0u8, 0, 0, 0]);
    assert(multiblock(blocks).take(5) =~= seq![0x09u8, 2, 0, 0, 0]);
}

/// A reply is complete as soon as its status, its length and as many bytes as that
/// have come; its payload is those bytes.
pub proof fn law_reply_goes_by_its_length(bytes: Seq<u8>)
    ensures
        bytes.len() < 5 ==> first_reply(bytes) is None,
        bytes.len() >= 5 ==> ({
            let len = bytes[1] + 256 * bytes[2] + 65536 * bytes[3] + 16777216 * bytes[4];
            &&& first_reply(bytes) is Some <==> bytes.len() >= 5 + len
            &&& first_reply(bytes) matches Some(reply) ==> reply.0 == bytes[0] && reply.1
                == bytes.skip(5).take(len) && reply.2 == 5 + len
        }),
{
    if bytes.len() >= 5 {
        let four = bytes.subrange(1, 5);
        crate::le::law_bytes_are_weighed(0, seq![0u8, 0], four);
        let len = crate::le::u32_value(four);
        if bytes.len() >= 5 + len {
            assert(bytes.subrange(5, 5 + len) =~= bytes.skip(5).take(len));
        }
    }
}

/// A status of 0 is success and one of 255 a refusal; any other is unexpected and
/// reported. A refusal without a reason is worded "ERR", one with a reason by it.
pub proof fn law_status_decides(
    status: u8,
    payload: Vec<u8>,
    text: Seq<char>,
    r: Result<Vec<u8>, ReplyError>,
)
    requires
        accepted(status, payload, r),
    ensures
        r is Ok <==> status == 0x00,
        r matches Ok(data) ==> data@ == payload@,
        r matches Err(ReplyError::UnexpectedStatus(s)) ==> s == status && s != 0xFF,
        r matches Err(ReplyError::Device(reason)) ==> status == 0xFF && reason@.len() > 0,
        status == 0xFF && payload@.len() == 0 ==> (r matches Err(ReplyError::Device(reason))
            && reason@ == "ERR"@),
        status == 0xFF && text.len() > 0 && payload@ == vstd::utf8::encode_utf8(text) ==> (
        r matches Err(ReplyError::Device(reason)) && reason@ == text),
{
    reveal_strlit("ERR");
    if payload@.len() == 0 {
        assert(payload@ =~= Seq::empty());
    }
    if payload@ == vstd::utf8::encode_utf8(text) {
        vstd::utf8::encode_utf8_valid_utf8(text);
        vstd::utf8::encode_utf8_decode_utf8(text);
    }
}

/// A stress test is given five minutes and a catalog read half of one; other commands
/// change nothing.
pub proof fn law_timeouts(current: u64, cmd: u8, ok: bool)
    ensures
        timeout_during(current, 0x0E) == 300,
        timeout_during(current, 0x08) == 30,
        timeout_after(current, 0x0E, ok) == 10,
        timeout_after(current, 0x08, true) == 10,
        timeout_after(current, 0x08, false) == 30,
        cmd != 0x0E && cmd != 0x08 ==> timeout_during(current, cmd) == current && timeout_after(
            current,
            cmd,
            ok,
        ) == current,
{
}

/// What has been written and what is left make up the data.
pub proof fn law_nothing_is_left_out(out: Outgoing<'_>)
    requires
        out.wf(),
    ensures
        out.data@.take(out.off as int) + out.left() == out.data@,
        out.left().len() == out.data@.len() - out.off,
{
    assert(out.data@.take(out.off as int) + out.left() =~= out.data@);
}

/// What a reader has taken is the header and the payload, one behind the other.
pub proof fn law_reader_keeps_what_it_took(reader: ReplyReader)
    ensures
        reader.taken().len() == reader.head@.len() + reader.payload@.len(),
        reader.taken().take(reader.head@.len() as int) == reader.head@,
        reader.taken().skip(reader.head@.len() as int) == reader.payload@,
{
    assert(reader.taken().take(reader.head@.len() as int) =~= reader.head@);
    assert(reader.taken().skip(reader.head@.len() as int) =~= reader.payload@);
}

/// The model of a queue is its bytes, and a reader or an outgoing message may stand
/// anywhere in what it reads or sends.
pub proof fn law_states_of_a_transfer(
    queue: ReadQueue,
    out: Outgoing<'_>,
    reader: ReplyReader,
    status: u8,
    payload: Seq<u8>,
    n: int,
)
    requires
        payload.len() <= u32::MAX,
        0 <= n <= 5 + payload.len(),
        reader.head@.len() == (if n < 5 {
            n
        } else {
            5
        }),
        reader.taken() == (header(status, payload.len() as int) + payload).take(n),
    ensures
        queue@ == queue.rbuf@,
        out.wf() <==> out.off <= out.data@.len(),
        reader.wf(),
{
    let all = header(status, payload.len() as int) + payload;
    law_header_reads_back(status, payload.len() as u32);
    assert(reader.taken().len() == n);
    assert(reader.payload@.len() == n - reader.head@.len());
    if n >= 5 {
        assert(reader.head@ =~= reader.taken().take(5));
        assert(reader.head@.subrange(1, 5) =~= header(status, payload.len() as int).subrange(1, 5));
    }
}

} // verus!
