//! Flashing firmware through the bootloader.
//!
//! A [`FlashSession`] decides what to do next; its caller performs each
//! [`Action`] on the serial port and reports the outcome as an [`Event`].

use vstd::prelude::*;

use crate::le::{read_u32, u32_bytes};
use crate::packet::{build_packet, Response};

verus! {

pub const FW_PAGE_SIZE: usize = 4096;
pub const FW_CHUNK_SIZE: usize = 240;
/// First flash address that firmware is written to.
pub const FLASH_START: u32 = 0x0002_0000;
/// First flash address behind the firmware area.
pub const FLASH_END: u32 = 0x000F_F000;
/// Number of the flash page at [`FLASH_START`].
pub const FIRST_PAGE: u32 = 0x20;
/// Size of the firmware area.
pub const MAX_FIRMWARE: usize = 0xDF000;

// Commands, and the replies that confirm them.
pub const CMD_STATUS: u8 = 0x52;
pub const REPLY_STATUS: u8 = 0x53;
pub const CMD_RESET: u8 = 0x51;
pub const CMD_ERASE: u8 = 0x46;
pub const REPLY_ERASE: u8 = 0x47;
pub const CMD_WRITE: u8 = 0x45;
pub const CMD_COMMIT: u8 = 0x48;
pub const REPLY_COMMIT: u8 = 0x49;
pub const CMD_LEAVE: u8 = 0x50;

/// How often the port is tried after a reset.
pub const REOPEN_TRIES: u8 = 20;

// ---- Pages and chunks ----

/// `a / b`, rounded up.
pub open spec fn ceil_div(a: int, b: int) -> int {
    (a + b - 1) / b
}

pub open spec fn page_count(size: int) -> int {
    ceil_div(size, 4096)
}

/// Chunks of a whole page: 17 of 240 bytes and one of 16.
pub open spec fn chunks_per_page() -> int {
    18
}

/// How many chunks firmware of `size` bytes is sent in. No chunk crosses a page.
pub open spec fn chunk_count(size: int) -> int {
    size / 4096 * chunks_per_page() + ceil_div(size % 4096, 240)
}

/// Page of chunk `k`, counted from the first page of the firmware.
pub open spec fn chunk_page(k: int) -> int {
    k / chunks_per_page()
}

/// Where chunk `k` starts within its page.
pub open spec fn chunk_offset(k: int) -> int {
    k % chunks_per_page() * 240
}

/// Where chunk `k` starts in the firmware.
pub open spec fn chunk_start(k: int) -> int {
    chunk_page(k) * 4096 + chunk_offset(k)
}

/// Where chunk `k` ends in the firmware: after 240 bytes, at the end of the page or
/// at the end of the firmware, whichever comes first.
pub open spec fn chunk_end(size: int, k: int) -> int {
    let page_end = (chunk_page(k) + 1) * 4096;
    let end = if chunk_start(k) + 240 < page_end { chunk_start(k) + 240 } else { page_end };
    if end < size {
        end
    } else {
        size
    }
}

/// Payload of the packet that writes chunk `k`: the number of the chunk, from 1 on,
/// its flash address and its bytes.
pub open spec fn chunk_payload(fw: Seq<u8>, k: int) -> Seq<u8> {
    crate::le::u32_le(k + 1) + crate::le::u32_le(FLASH_START + chunk_start(k)) + fw.subrange(
        chunk_start(k),
        chunk_end(fw.len() as int, k),
    )
}

/// Milliseconds to wait behind chunk `k`: longer at the start of each page but the
/// first.
pub open spec fn chunk_pause(k: int) -> int {
    if chunk_offset(k) == 0 && chunk_page(k) > 0 {
        100
    } else {
        5
    }
}

/// Chunk `k` lies within the firmware, within a page and within the firmware area,
/// holds between 1 and 240 bytes, and starts where the chunk before it ends; the
/// last one ends the firmware.
pub proof fn law_chunks_tile(size: int, k: int)
    requires
        0 < size <= MAX_FIRMWARE,
        0 <= k < chunk_count(size),
    ensures
        chunk_start(0) == 0,
        0 <= chunk_start(k) < chunk_end(size, k) <= size,
        chunk_end(size, k) - chunk_start(k) <= 240,
        chunk_start(k) / 4096 == (chunk_end(size, k) - 1) / 4096,
        chunk_start(k) / 4096 < page_count(size),
        FLASH_START <= FLASH_START + chunk_start(k),
        FLASH_START + chunk_end(size, k) <= FLASH_END,
        chunk_end(size, k) == if k + 1 < chunk_count(size) { chunk_start(k + 1) } else { size },
{
    let full = size / 4096;
    let tail = size % 4096;
    assert(size == full * 4096 + tail);
    let page = k / 18;
    let i = k % 18;
    assert(k == page * 18 + i);
    if page < full {
        assert((page + 1) * 4096 <= full * 4096);
    } else {
        assert(page == full);
        assert(i < ceil_div(tail, 240));
    }
    if i < 17 {
        assert((k + 1) / 18 == page && (k + 1) % 18 == i + 1);
    } else {
        assert((k + 1) / 18 == page + 1 && (k + 1) % 18 == 0);
    }
}

// ---- Firmware size ----

#[derive(Clone, Copy, Debug, PartialEq, Eq, Structural)]
pub enum FirmwareError {
    Empty,
    TooLarge,
}

/// Number of flash pages that firmware of `size` bytes takes, if it can be flashed.
pub fn check_firmware(size: usize) -> (r: Result<usize, FirmwareError>)
    ensures
        r == (if size == 0 {
            Err::<usize, FirmwareError>(FirmwareError::Empty)
        } else if size > FLASH_END - FLASH_START {
            Err(FirmwareError::TooLarge)
        } else {
            Ok(page_count(size as int) as usize)
        }),
        r matches Ok(pages) ==> pages == page_count(size as int),
{
    if size == 0 {
        Err(FirmwareError::Empty)
    } else if size > MAX_FIRMWARE {
        Err(FirmwareError::TooLarge)
    } else {
        Ok(pages_of(size))
    }
}

fn pages_of(size: usize) -> (pages: usize)
    requires
        size <= MAX_FIRMWARE,
    ensures
        pages == page_count(size as int),
{
    (size + 4095) / 4096
}

fn chunks_of(size: usize) -> (chunks: usize)
    requires
        size <= MAX_FIRMWARE,
    ensures
        chunks == chunk_count(size as int),
        chunks <= 4014,
{
    size / 4096 * 18 + (size % 4096 + 239) / 240
}

// ---- Transfer mode ----

/// The decimal digits of a byte, without leading zeros.
pub open spec fn decimal_digits(b: u8) -> Seq<u8> {
    if b < 10 {
        seq![b]
    } else if b < 100 {
        seq![(b / 10) as u8, (b % 10) as u8]
    } else {
        seq![(b / 100) as u8, (b / 10 % 10) as u8, (b % 10) as u8]
    }
}

/// The digits of all bytes, one after the other.
pub open spec fn decimal_text(bytes: Seq<u8>) -> Seq<u8>
    decreases bytes.len(),
{
    if bytes.len() == 0 {
        Seq::empty()
    } else {
        decimal_text(bytes.drop_last()) + decimal_digits(bytes.last())
    }
}

/// A device in transfer mode answers a status request with bytes whose decimal
/// digits, written one after the other, read 10510.
pub open spec fn says_transfer_mode(payload: Seq<u8>) -> bool {
    decimal_text(payload) == seq![1u8, 0u8, 5u8, 1u8, 0u8]
}

pub fn in_transfer_mode(payload: &[u8]) -> (r: bool)
    ensures
        r == says_transfer_mode(payload@),
{
    let mut digits: Vec<u8> = Vec::new();
    let mut i: usize = 0;
    while i < payload.len()
        invariant
            i <= payload@.len(),
            digits@ == decimal_text(payload@.take(i as int)),
        decreases payload@.len() - i,
    {
        let b: u8 = payload[i];
        let ghost before = digits@;
        assert(payload@.take(i + 1).drop_last() =~= payload@.take(i as int));
        if b >= 100 {
            digits.push(b / 100);
        }
        if b >= 10 {
            digits.push(b / 10 % 10);
        }
        digits.push(b % 10);
        assert(digits@ =~= before + decimal_digits(b));
        i = i + 1;
    }
    assert(payload@.take(payload@.len() as int) =~= payload@);
    let r: bool = digits.len() == 5 && digits[0] == 1 && digits[1] == 0 && digits[2] == 5
        && digits[3] == 1 && digits[4] == 0;
    assert(r ==> digits@ =~= seq![1u8, 0u8, 5u8, 1u8, 0u8]);
    r
}

// ---- Session ----

/// Why flashing stopped.
#[derive(Clone, Copy, Debug, PartialEq, Eq, Structural)]
pub enum FlashError {
    /// The port could not be opened.
    Open,
    /// Reading from or writing to the port failed.
    Io,
    NoStatusReply,
    BadStatus { cmd: u8, crc_ok: bool },
    /// The device did not come back after a reset.
    NotReenumerated,
    NoEraseReply,
    EraseFailed { cmd: u8, crc_ok: bool },
    NoCommitReply,
    CommitFailed { cmd: u8, crc_ok: bool },
    NoFinalizeReply,
    FinalizeCrc,
    FinalizeUnexpected { cmd: u8 },
}

/// How far a session has come.
#[derive(Clone, Copy, Debug, PartialEq, Eq, Structural)]
pub enum Phase {
    /// The port is being opened.
    Opening,
    /// The device was asked for its status.
    Status,
    /// The device was told to leave transfer mode.
    Resetting,
    /// The port is being opened again, for the `tries`th time.
    Reopening { tries: u8 },
    Erasing,
    /// The first `sent` chunks have been handed out, the last of them just now.
    Writing { sent: usize },
    Committing,
    Finalizing,
    /// The device was told to restart.
    Leaving,
    Done,
    Failed,
}

/// What became of the last action.
#[derive(Debug)]
pub enum Event {
    Opened,
    OpenFailed,
    /// The frame that answered a request.
    Replied(Response),
    /// No frame came in time, or none that could be read.
    NoReply,
    Sent,
    /// Reading or writing failed.
    IoFailed,
}

/// What to do next.
#[derive(Debug)]
pub enum Action {
    /// After `delay_ms`, drop what has been received, write `packet` and wait
    /// `timeout_ms` for a frame.
    Request { delay_ms: u64, packet: Vec<u8>, timeout_ms: u64 },
    /// Write `packet`, then wait `pause_ms`.
    Send { packet: Vec<u8>, pause_ms: u64 },
    /// Close the port, wait `wait_ms` and open it again.
    Reopen { wait_ms: u64 },
    Finish,
    Abort(FlashError),
}

/// Mathematical model of [`Event`].
#[verifier::ext_equal]
pub ghost enum EventModel {
    Opened,
    OpenFailed,
    Replied(crate::packet::ResponseModel),
    NoReply,
    Sent,
    IoFailed,
}

/// Mathematical model of [`Action`].
#[verifier::ext_equal]
pub ghost enum ActionModel {
    Request { delay_ms: int, packet: Seq<u8>, timeout_ms: int },
    Send { packet: Seq<u8>, pause_ms: int },
    Reopen { wait_ms: int },
    Finish,
    Abort(FlashError),
}

impl View for Event {
    type V = EventModel;

    open spec fn view(&self) -> EventModel {
        match *self {
            Event::Opened => EventModel::Opened,
            Event::OpenFailed => EventModel::OpenFailed,
            Event::Replied(r) => EventModel::Replied(r@),
            Event::NoReply => EventModel::NoReply,
            Event::Sent => EventModel::Sent,
            Event::IoFailed => EventModel::IoFailed,
        }
    }
}

impl View for Action {
    type V = ActionModel;

    open spec fn view(&self) -> ActionModel {
        match *self {
            Action::Request { delay_ms, packet, timeout_ms } => ActionModel::Request {
                delay_ms: delay_ms as int,
                packet: packet@,
                timeout_ms: timeout_ms as int,
            },
            Action::Send { packet, pause_ms } => ActionModel::Send {
                packet: packet@,
                pause_ms: pause_ms as int,
            },
            Action::Reopen { wait_ms } => ActionModel::Reopen { wait_ms: wait_ms as int },
            Action::Finish => ActionModel::Finish,
            Action::Abort(e) => ActionModel::Abort(e),
        }
    }
}

/// One firmware transfer. A new session awaits the opening of the port.
#[derive(Clone, Copy, Debug)]
pub struct FlashSession {
    /// Size of the firmware.
    pub fw_len: usize,
    /// Sequence number of the next packet.
    pub seq: u8,
    pub phase: Phase,
}

/// A session, and what it does next.
pub ghost struct Next {
    pub session: FlashSession,
    pub action: ActionModel,
}

pub open spec fn next_of(session: FlashSession, action: Action) -> Next {
    Next { session, action: action@ }
}

pub open spec fn next_seq(seq: u8) -> u8 {
    if seq == 255 {
        0
    } else {
        (seq + 1) as u8
    }
}

impl FlashSession {
    pub open spec fn wf(self) -> bool {
        &&& 0 < self.fw_len <= MAX_FIRMWARE
        &&& self.phase matches Phase::Writing { sent } ==> 1 <= sent <= self.chunks()
        &&& self.phase matches Phase::Reopening { tries } ==> 1 <= tries <= REOPEN_TRIES
    }

    pub open spec fn chunks(self) -> int {
        chunk_count(self.fw_len as int)
    }

    pub open spec fn started(fw_len: usize) -> FlashSession {
        FlashSession { fw_len, seq: 1, phase: Phase::Opening }
    }

    /// The outcomes that the last action can have.
    pub open spec fn awaits(self, event: EventModel) -> bool {
        match self.phase {
            Phase::Opening | Phase::Reopening { .. } => event is Opened || event is OpenFailed,
            Phase::Resetting | Phase::Writing { .. } => event is Sent || event is IoFailed,
            Phase::Done | Phase::Failed => false,
            _ => event is Replied || event is NoReply || event is IoFailed,
        }
    }

    /// Gives up.
    pub open spec fn aborted(self, e: FlashError) -> Next {
        Next {
            session: FlashSession { phase: Phase::Failed, ..self },
            action: ActionModel::Abort(e),
        }
    }

    /// Sends a request and goes on to `phase`.
    pub open spec fn requested(
        self,
        phase: Phase,
        delay_ms: int,
        cmd: u8,
        payload: Seq<u8>,
        timeout_ms: int,
    ) -> Next {
        Next {
            session: FlashSession { phase, seq: next_seq(self.seq), ..self },
            action: ActionModel::Request {
                delay_ms,
                packet: crate::packet::packet(cmd, payload, self.seq),
                timeout_ms,
            },
        }
    }

    /// Sends a packet that gets no reply and goes on to `phase`.
    pub open spec fn sent_out(
        self,
        phase: Phase,
        cmd: u8,
        payload: Seq<u8>,
        pause_ms: int,
    ) -> Next {
        Next {
            session: FlashSession { phase, seq: next_seq(self.seq), ..self },
            action: ActionModel::Send {
                packet: crate::packet::packet(cmd, payload, self.seq),
                pause_ms,
            },
        }
    }

    pub open spec fn erasing(self) -> Next {
        self.requested(Phase::Erasing, 0, CMD_ERASE, Seq::empty(), 5000)
    }

    pub open spec fn writing(self, fw: Seq<u8>, k: int) -> Next {
        self.sent_out(
            Phase::Writing { sent: (k + 1) as usize },
            CMD_WRITE,
            chunk_payload(fw, k),
            chunk_pause(k),
        )
    }

    pub open spec fn reopening(self, tries: int) -> Next {
        Next {
            session: FlashSession { phase: Phase::Reopening { tries: tries as u8 }, ..self },
            action: ActionModel::Reopen { wait_ms: 200 },
        }
    }

    /// Number of the last flash page that the firmware takes.
    pub open spec fn last_page(self) -> int {
        FIRST_PAGE + page_count(self.fw_len as int) - 1
    }

    /// The counter in the reply to a commit: its first four bytes, or the number of
    /// chunks where there are fewer.
    pub open spec fn commit_counter(self, payload: Seq<u8>) -> int {
        if payload.len() >= 4 {
            crate::le::u32_value(payload.take(4))
        } else {
            self.chunks()
        }
    }

    /// What an event leads to.
    pub open spec fn next(self, fw: Seq<u8>, event: EventModel) -> Next {
        match self.phase {
            Phase::Opening => match event {
                EventModel::Opened => self.requested(
                    Phase::Status,
                    0,
                    CMD_STATUS,
                    Seq::empty(),
                    3000,
                ),
                _ => self.aborted(FlashError::Open),
            },
            Phase::Status => match event {
                EventModel::Replied(r) => if !r.crc_ok || r.cmd != REPLY_STATUS {
                    self.aborted(FlashError::BadStatus { cmd: r.cmd, crc_ok: r.crc_ok })
                } else if says_transfer_mode(r.payload) {
                    self.sent_out(Phase::Resetting, CMD_RESET, Seq::empty(), 0)
                } else {
                    self.erasing()
                },
                EventModel::NoReply => self.aborted(FlashError::NoStatusReply),
                _ => self.aborted(FlashError::Io),
            },
            Phase::Resetting => self.reopening(1),
            Phase::Reopening { tries } => match event {
                EventModel::Opened => self.erasing(),
                _ => if tries < REOPEN_TRIES {
                    self.reopening(tries + 1)
                } else {
                    self.aborted(FlashError::NotReenumerated)
                },
            },
            Phase::Erasing => match event {
                EventModel::Replied(r) => if !r.crc_ok || r.cmd != REPLY_ERASE {
                    self.aborted(FlashError::EraseFailed { cmd: r.cmd, crc_ok: r.crc_ok })
                } else {
                    self.writing(fw, 0)
                },
                EventModel::NoReply => self.aborted(FlashError::NoEraseReply),
                _ => self.aborted(FlashError::Io),
            },
            Phase::Writing { sent } => match event {
                EventModel::Sent => if sent < self.chunks() {
                    self.writing(fw, sent as int)
                } else {
                    self.requested(
                        Phase::Committing,
                        150,
                        CMD_COMMIT,
                        crate::le::u32_le(self.last_page()),
                        5000,
                    )
                },
                _ => self.aborted(FlashError::Io),
            },
            Phase::Committing => match event {
                EventModel::Replied(r) => if !r.crc_ok || r.cmd != REPLY_COMMIT {
                    self.aborted(FlashError::CommitFailed { cmd: r.cmd, crc_ok: r.crc_ok })
                } else {
                    self.requested(
                        Phase::Finalizing,
                        0,
                        CMD_COMMIT,
                        crate::le::u32_le(self.commit_counter(r.payload)),
                        5000,
                    )
                },
                EventModel::NoReply => self.aborted(FlashError::NoCommitReply),
                _ => self.aborted(FlashError::Io),
            },
            Phase::Finalizing => match event {
                EventModel::Replied(r) => if !r.crc_ok {
                    self.aborted(FlashError::FinalizeCrc)
                } else if r.cmd != REPLY_COMMIT {
                    self.aborted(FlashError::FinalizeUnexpected { cmd: r.cmd })
                } else {
                    self.requested(Phase::Leaving, 0, CMD_LEAVE, Seq::empty(), 3000)
                },
                EventModel::NoReply => self.aborted(FlashError::NoFinalizeReply),
                _ => self.aborted(FlashError::Io),
            },
            _ => Next {
                session: FlashSession { phase: Phase::Done, ..self },
                action: ActionModel::Finish,
            },
        }
    }
}

/// The first four bytes of a reply as a number, if there are as many.
pub fn reply_counter(payload: &[u8]) -> (r: Option<u32>)
    ensures
        payload@.len() < 4 ==> r is None,
        payload@.len() >= 4 ==> (r matches Some(x) && x == crate::le::u32_value(payload@.take(4))),
{
    if payload.len() >= 4 {
        assert(payload@.subrange(0, 4) =~= payload@.take(4));
        Some(read_u32(payload, 0))
    } else {
        None
    }
}

impl FlashSession {
    /// Starts a session for firmware of `fw_len` bytes.
    pub fn new(fw_len: usize) -> (r: Result<FlashSession, FirmwareError>)
        ensures
            fw_len == 0 ==> r == Err::<FlashSession, _>(FirmwareError::Empty),
            fw_len > FLASH_END - FLASH_START ==> r == Err::<FlashSession, _>(
                FirmwareError::TooLarge,
            ),
            0 < fw_len <= FLASH_END - FLASH_START ==> r == Ok::<_, FirmwareError>(
                FlashSession::started(fw_len),
            ) && FlashSession::started(fw_len).wf(),
    {
        match check_firmware(fw_len) {
            Err(e) => Err(e),
            Ok(_) => Ok(FlashSession { fw_len, seq: 1, phase: Phase::Opening }),
        }
    }

    fn abort(&mut self, e: FlashError) -> (action: Action)
        ensures
            next_of(*final(self), action) == old(self).aborted(e),
    {
        self.phase = Phase::Failed;
        Action::Abort(e)
    }

    fn request(&mut self, phase: Phase, delay_ms: u64, cmd: u8, payload: &[u8], timeout_ms: u64)
        -> (action: Action)
        ensures
            next_of(*final(self), action) == old(self).requested(
                phase,
                delay_ms as int,
                cmd,
                payload@,
                timeout_ms as int,
            ),
    {
        let packet: Vec<u8> = build_packet(cmd, payload, self.seq);
        self.seq = self.seq.wrapping_add(1);
        self.phase = phase;
        Action::Request { delay_ms, packet, timeout_ms }
    }

    fn send(&mut self, phase: Phase, cmd: u8, payload: &[u8], pause_ms: u64) -> (action: Action)
        ensures
            next_of(*final(self), action) == old(self).sent_out(
                phase,
                cmd,
                payload@,
                pause_ms as int,
            ),
    {
        let packet: Vec<u8> = build_packet(cmd, payload, self.seq);
        self.seq = self.seq.wrapping_add(1);
        self.phase = phase;
        Action::Send { packet, pause_ms }
    }

    fn erase(&mut self) -> (action: Action)
        ensures
            next_of(*final(self), action) == old(self).erasing(),
    {
        let nothing: [u8; 0] = [];
        assert(nothing@ =~= Seq::empty());
        self.request(Phase::Erasing, 0, CMD_ERASE, &nothing, 5000)
    }

    fn reopen(&mut self, tries: u8) -> (action: Action)
        ensures
            next_of(*final(self), action) == old(self).reopening(tries as int),
    {
        self.phase = Phase::Reopening { tries };
        Action::Reopen { wait_ms: 200 }
    }

    /// Hands out chunk `k`.
    fn write(&mut self, fw: &[u8], k: usize) -> (action: Action)
        requires
            old(self).wf(),
            fw@.len() == old(self).fw_len,
            k < old(self).chunks(),
        ensures
            next_of(*final(self), action) == old(self).writing(fw@, k as int),
    {
        proof {
            law_chunks_tile(self.fw_len as int, k as int);
        }
        let page: usize = k / 18;
        let offset: usize = k % 18 * 240;
        let start: usize = page * 4096 + offset;
        let page_end: usize = (page + 1) * 4096;
        let full: usize = if start + 240 < page_end { start + 240 } else { page_end };
        let end: usize = if full < fw.len() { full } else { fw.len() };
        let mut payload: Vec<u8> = Vec::new();
        payload.extend_from_slice(&u32_bytes((k + 1) as u32));
        payload.extend_from_slice(&u32_bytes(FLASH_START + start as u32));
        payload.extend_from_slice(&fw[start..end]);
        assert(payload@ =~= chunk_payload(fw@, k as int));
        let pause_ms: u64 = if offset == 0 && page > 0 { 100 } else { 5 };
        self.send(Phase::Writing { sent: k + 1 }, CMD_WRITE, payload.as_slice(), pause_ms)
    }

    /// Takes in what became of the last action and says what to do next.
    pub fn step(&mut self, fw: &[u8], event: Event) -> (action: Action)
        requires
            old(self).wf(),
            fw@.len() == old(self).fw_len,
            old(self).awaits(event@),
        ensures
            final(self).wf(),
            next_of(*final(self), action) == old(self).next(fw@, event@),
    {
        let nothing: [u8; 0] = [];
        assert(nothing@ =~= Seq::empty());
        let total: usize = chunks_of(self.fw_len);
        proof {
            law_chunk_count_positive(self.fw_len as int);
        }
        match self.phase {
            Phase::Opening => match event {
                Event::Opened => self.request(Phase::Status, 0, CMD_STATUS, &nothing, 3000),
                _ => self.abort(FlashError::Open),
            },
            Phase::Status => match event {
                Event::Replied(r) => if !r.crc_ok || r.cmd != REPLY_STATUS {
                    self.abort(FlashError::BadStatus { cmd: r.cmd, crc_ok: r.crc_ok })
                } else if in_transfer_mode(r.payload.as_slice()) {
                    self.send(Phase::Resetting, CMD_RESET, &nothing, 0)
                } else {
                    self.erase()
                },
                Event::NoReply => self.abort(FlashError::NoStatusReply),
                _ => self.abort(FlashError::Io),
            },
            Phase::Resetting => self.reopen(1),
            Phase::Reopening { tries } => match event {
                Event::Opened => self.erase(),
                _ => if tries < REOPEN_TRIES {
                    self.reopen(tries + 1)
                } else {
                    self.abort(FlashError::NotReenumerated)
                },
            },
            Phase::Erasing => match event {
                Event::Replied(r) => if !r.crc_ok || r.cmd != REPLY_ERASE {
                    self.abort(FlashError::EraseFailed { cmd: r.cmd, crc_ok: r.crc_ok })
                } else {
                    self.write(fw, 0)
                },
                Event::NoReply => self.abort(FlashError::NoEraseReply),
                _ => self.abort(FlashError::Io),
            },
            Phase::Writing { sent } => match event {
                Event::Sent => if sent < total {
                    self.write(fw, sent)
                } else {
                    let last_page: u32 = FIRST_PAGE + pages_of(self.fw_len) as u32 - 1;
                    self.request(Phase::Committing, 150, CMD_COMMIT, &u32_bytes(last_page), 5000)
                },
                _ => self.abort(FlashError::Io),
            },
            Phase::Committing => match event {
                Event::Replied(r) => if !r.crc_ok || r.cmd != REPLY_COMMIT {
                    self.abort(FlashError::CommitFailed { cmd: r.cmd, crc_ok: r.crc_ok })
                } else {
                    let counter: u32 = match reply_counter(r.payload.as_slice()) {
                        Some(c) => c,
                        None => total as u32,
                    };
                    self.request(Phase::Finalizing, 0, CMD_COMMIT, &u32_bytes(counter), 5000)
                },
                Event::NoReply => self.abort(FlashError::NoCommitReply),
                _ => self.abort(FlashError::Io),
            },
            Phase::Finalizing => match event {
                Event::Replied(r) => if !r.crc_ok {
                    self.abort(FlashError::FinalizeCrc)
                } else if r.cmd != REPLY_COMMIT {
                    self.abort(FlashError::FinalizeUnexpected { cmd: r.cmd })
                } else {
                    self.request(Phase::Leaving, 0, CMD_LEAVE, &nothing, 3000)
                },
                Event::NoReply => self.abort(FlashError::NoFinalizeReply),
                _ => self.abort(FlashError::Io),
            },
            _ => {
                self.phase = Phase::Done;
                Action::Finish
            },
        }
    }
}

/// Firmware that is not empty is sent in at least one chunk.
pub proof fn law_chunk_count_positive(size: int)
    requires
        0 < size,
    ensures
        chunk_count(size) >= 1,
{
}

impl FlashSession {
    /// How much of the work is done, in percent; nothing once it has failed.
    pub open spec fn percent(self) -> Option<int> {
        match self.phase {
            Phase::Erasing => Some(2),
            Phase::Writing { sent } => Some(5 + sent * 85 / self.chunks()),
            Phase::Committing => Some(92),
            Phase::Finalizing | Phase::Leaving => Some(96),
            Phase::Done => Some(100),
            Phase::Failed => None,
            _ => Some(0),
        }
    }

    /// What a progress bar shows, if it is to be moved.
    pub fn progress(&self) -> (r: Option<u64>)
        requires
            self.wf(),
        ensures
            r is Some <==> self.percent() is Some,
            r matches Some(p) ==> Some(p as int) == self.percent(),
    {
        match self.phase {
            Phase::Erasing => Some(2),
            Phase::Writing { sent } => {
                let total: usize = chunks_of(self.fw_len);
                proof {
                    law_chunk_count_positive(self.fw_len as int);
                }
                Some(5 + (sent * 85 / total) as u64)
            },
            Phase::Committing => Some(92),
            Phase::Finalizing | Phase::Leaving => Some(96),
            Phase::Done => Some(100),
            Phase::Failed => None,
            _ => Some(0),
        }
    }

    /// The page being written, from 1 on, and the number of pages.
    pub fn page_progress(&self) -> (r: Option<(usize, usize)>)
        requires
            self.wf(),
        ensures
            r == match self.phase {
                Phase::Writing { sent } => Some(
                    (
                        (chunk_page(sent - 1) + 1) as usize,
                        page_count(self.fw_len as int) as usize,
                    ),
                ),
                _ => None,
            },
            r matches Some((page, pages)) ==> 1 <= page <= pages == page_count(self.fw_len as int),
    {
        match self.phase {
            Phase::Writing { sent } => {
                proof {
                    law_chunks_tile(self.fw_len as int, sent - 1);
                }
                Some(((sent - 1) / 18 + 1, pages_of(self.fw_len)))
            },
            _ => None,
        }
    }

    /// How many pages and chunks the firmware takes.
    pub fn totals(&self) -> (r: (usize, usize))
        requires
            self.wf(),
        ensures
            r.0 == page_count(self.fw_len as int),
            r.1 == self.chunks(),
    {
        (pages_of(self.fw_len), chunks_of(self.fw_len))
    }

    /// The session after a row of events.
    pub open spec fn run(self, fw: Seq<u8>, events: Seq<EventModel>) -> FlashSession
        decreases events.len(),
    {
        if events.len() == 0 {
            self
        } else {
            self.run(fw, events.drop_last()).next(fw, events.last()).session
        }
    }

    /// Every event is one that the session awaits when it comes.
    pub open spec fn runs(self, fw: Seq<u8>, events: Seq<EventModel>) -> bool
        decreases events.len(),
    {
        events.len() == 0 || self.runs(fw, events.drop_last()) && self.run(
            fw,
            events.drop_last(),
        ).awaits(events.last())
    }

    /// The firmware bytes that the last packet holds, if it is a write packet.
    pub open spec fn chunk_in_flight(self, fw: Seq<u8>) -> Seq<u8> {
        match self.phase {
            Phase::Writing { sent } => fw.subrange(
                chunk_start(sent - 1),
                chunk_end(fw.len() as int, sent - 1),
            ),
            _ => Seq::empty(),
        }
    }

    /// The firmware bytes that all write packets of a run hold, in the order in
    /// which the packets are sent.
    pub open spec fn flashed(self, fw: Seq<u8>, events: Seq<EventModel>) -> Seq<u8>
        decreases events.len(),
    {
        if events.len() == 0 {
            Seq::empty()
        } else {
            self.flashed(fw, events.drop_last()) + self.run(fw, events).chunk_in_flight(fw)
        }
    }

    /// At most how many more events a session takes in.
    pub open spec fn steps_left(self) -> int {
        match self.phase {
            Phase::Opening => self.chunks() + 27,
            Phase::Status => self.chunks() + 26,
            Phase::Resetting => self.chunks() + 25,
            Phase::Reopening { tries } => self.chunks() + 25 - tries,
            Phase::Erasing => self.chunks() + 4,
            Phase::Writing { sent } => self.chunks() - sent + 4,
            Phase::Committing => 3,
            Phase::Finalizing => 2,
            Phase::Leaving => 1,
            Phase::Done | Phase::Failed => 0,
        }
    }

    /// How much of `fw` has been flashed when a session is where it is.
    spec fn flashed_so_far(self, fw: Seq<u8>, data: Seq<u8>) -> bool {
        match self.phase {
            Phase::Writing { sent } => data == fw.take(chunk_end(fw.len() as int, sent - 1)),
            Phase::Committing | Phase::Finalizing | Phase::Leaving | Phase::Done => data == fw,
            Phase::Failed => data.is_prefix_of(fw),
            _ => data == Seq::<u8>::empty(),
        }
    }
}

/// A session ends, whatever the device answers: every event brings it closer to its
/// end, and it has ended when there are no steps left.
pub proof fn law_session_ends(session: FlashSession, fw: Seq<u8>, event: EventModel)
    requires
        session.wf(),
        fw.len() == session.fw_len,
        session.awaits(event),
    ensures
        session.next(fw, event).session.wf(),
        0 <= session.next(fw, event).session.steps_left() < session.steps_left(),
        session.next(fw, event).session.steps_left() == 0 <==> (session.next(
            fw,
            event,
        ).session.phase is Done || session.next(fw, event).session.phase is Failed),
{
    law_chunk_count_positive(session.fw_len as int);
    assert(session.chunks() <= 4014);
}

/// The progress shown never goes back.
pub proof fn law_progress_grows(session: FlashSession, fw: Seq<u8>, event: EventModel)
    requires
        session.wf(),
        fw.len() == session.fw_len,
        session.awaits(event),
    ensures
        session.next(fw, event).session.percent() matches Some(after) ==> (session.percent()
            matches Some(before) && before <= after <= 100),
{
    law_chunk_count_positive(session.fw_len as int);
    let total = session.chunks();
    assert(total <= 4014);
    if let Phase::Writing { sent } = session.phase {
        assert(sent * 85 / total <= 85) by (nonlinear_arith)
            requires
                0 < total,
                sent <= total,
        ;
        assert(sent * 85 / total <= (sent + 1) * 85 / total) by (nonlinear_arith)
            requires
                0 < total,
        ;
        assert(sent < total ==> (sent + 1) * 85 / total <= 85) by (nonlinear_arith)
            requires
                0 < total,
        ;
    }
    assert(85int / total <= 85) by (nonlinear_arith)
        requires
            0 < total,
    ;
    assert(0 <= 85int / total) by (nonlinear_arith)
        requires
            0 < total,
    ;
}

/// One event moves the flashed part of the firmware on as it moves the session on.
#[verifier::rlimit(30)]
proof fn lemma_step_flashes(session: FlashSession, fw: Seq<u8>, event: EventModel, data: Seq<u8>)
    requires
        session.wf(),
        fw.len() == session.fw_len,
        session.awaits(event),
        session.flashed_so_far(fw, data),
    ensures
        session.next(fw, event).session.flashed_so_far(
            fw,
            data + session.next(fw, event).session.chunk_in_flight(fw),
        ),
{
    let size = fw.len() as int;
    let next = session.next(fw, event).session;
    law_chunk_count_positive(size);
    let after = data + next.chunk_in_flight(fw);
    if let Phase::Writing { sent } = session.phase {
        law_chunks_tile(size, sent - 1);
        assert(fw.take(size) =~= fw);
    }
    if let Phase::Writing { sent } = next.phase {
        law_chunks_tile(size, sent - 1);
        assert(data == fw.take(chunk_start(sent - 1))) by {
            if session.phase is Erasing {
                assert(fw.take(0) =~= Seq::empty());
            }
        }
        assert(after =~= fw.take(chunk_end(size, sent - 1)));
    } else {
        assert(after =~= data);
    }
}

proof fn lemma_run(fw: Seq<u8>, events: Seq<EventModel>)
    requires
        0 < fw.len() <= MAX_FIRMWARE,
        FlashSession::started(fw.len() as usize).runs(fw, events),
    ensures
        FlashSession::started(fw.len() as usize).run(fw, events).wf(),
        FlashSession::started(fw.len() as usize).run(fw, events).fw_len == fw.len(),
        FlashSession::started(fw.len() as usize).run(fw, events).steps_left() + events.len()
            <= chunk_count(fw.len() as int) + 27,
        FlashSession::started(fw.len() as usize).run(fw, events).flashed_so_far(
            fw,
            FlashSession::started(fw.len() as usize).flashed(fw, events),
        ),
    decreases events.len(),
{
    let start = FlashSession::started(fw.len() as usize);
    if events.len() > 0 {
        let before = events.drop_last();
        lemma_run(fw, before);
        let session = start.run(fw, before);
        law_session_ends(session, fw, events.last());
        lemma_step_flashes(session, fw, events.last(), start.flashed(fw, before));
    }
}

/// A session that finishes has sent the whole firmware, each byte once and in
/// order; one that does not has sent a part of it from the start on.
pub proof fn law_finished_means_flashed(fw: Seq<u8>, events: Seq<EventModel>)
    requires
        0 < fw.len() <= MAX_FIRMWARE,
        FlashSession::started(fw.len() as usize).runs(fw, events),
    ensures
        FlashSession::started(fw.len() as usize).run(fw, events).phase is Done
            ==> FlashSession::started(fw.len() as usize).flashed(fw, events) == fw,
        FlashSession::started(fw.len() as usize).flashed(fw, events).is_prefix_of(fw),
{
    lemma_run(fw, events);
}

/// No run is longer than the chunks of the firmware and 27 events more.
pub proof fn law_runs_are_bounded(fw: Seq<u8>, events: Seq<EventModel>)
    requires
        0 < fw.len() <= MAX_FIRMWARE,
        FlashSession::started(fw.len() as usize).runs(fw, events),
    ensures
        events.len() <= chunk_count(fw.len() as int) + 27,
{
    lemma_run(fw, events);
    let s = FlashSession::started(fw.len() as usize).run(fw, events);
    law_chunk_count_positive(s.fw_len as int);
}

/// The device answered with `cmd` and a right checksum.
pub open spec fn confirmed(event: EventModel, cmd: u8) -> bool {
    event matches EventModel::Replied(r) && r.crc_ok && r.cmd == cmd
}

impl FlashSession {
    /// The event lets the session go on: the port is there, packets get out and
    /// requests are confirmed. Whether the device takes the order to reset or to
    /// restart does not matter, and the port may be missing after a reset until
    /// the last try.
    pub open spec fn goes_on(self, event: EventModel) -> bool {
        match self.phase {
            Phase::Opening => event is Opened,
            Phase::Reopening { tries } => event is Opened || tries < REOPEN_TRIES,
            Phase::Status => confirmed(event, REPLY_STATUS),
            Phase::Erasing => confirmed(event, REPLY_ERASE),
            Phase::Writing { .. } => event is Sent,
            Phase::Committing | Phase::Finalizing => confirmed(event, REPLY_COMMIT),
            _ => true,
        }
    }
}

/// A session fails at the first event that does not let it go on, and at no other.
pub proof fn law_failure_is_exact(session: FlashSession, fw: Seq<u8>, event: EventModel)
    requires
        session.wf(),
        session.awaits(event),
    ensures
        session.next(fw, event).session.phase is Failed <==> !session.goes_on(event),
        session.next(fw, event).action is Abort <==> !session.goes_on(event),
{
}

/// Nothing is written before the device has confirmed the erasure.
pub proof fn law_write_needs_erase(session: FlashSession, fw: Seq<u8>, event: EventModel)
    requires
        session.wf(),
        session.awaits(event),
        session.next(fw, event).session.phase is Writing,
    ensures
        session.phase is Writing || (session.phase is Erasing && confirmed(event, REPLY_ERASE)),
{
}

/// A session only finishes through a commit and a finalisation that the device has
/// confirmed, and only commits when every chunk is sent.
pub proof fn law_finish_needs_confirmation(session: FlashSession, fw: Seq<u8>, event: EventModel)
    requires
        session.wf(),
        session.awaits(event),
    ensures
        session.next(fw, event).session.phase is Committing ==> event is Sent && session.phase == (
        Phase::Writing { sent: session.chunks() as usize }),
        session.next(fw, event).session.phase is Finalizing ==> session.phase is Committing
            && confirmed(event, REPLY_COMMIT),
        session.next(fw, event).session.phase is Leaving ==> session.phase is Finalizing
            && confirmed(event, REPLY_COMMIT),
        session.next(fw, event).session.phase is Done ==> session.phase is Leaving,
{
}

/// The packet can be read on the other side: it parses back with a right checksum,
/// and its only zero ends it.
#[verifier::opaque]
pub open spec fn readable(packet: Seq<u8>) -> bool {
    &&& crate::packet::parsed_response(packet) matches Some(r) && r.crc_ok
    &&& forall|i: int|
        0 <= i < packet.len() ==> (#[trigger] packet[i] == 0 <==> i == packet.len() - 1)
}

proof fn lemma_readable(cmd: u8, payload: Seq<u8>, seq: u8)
    requires
        payload.len() <= 248,
    ensures
        readable(crate::packet::packet(cmd, payload, seq)),
{
    reveal(readable);
    crate::packet::law_short_packet_parses_back(cmd, payload, seq);
}

proof fn lemma_chunk_readable(fw: Seq<u8>, k: int, seq: u8)
    requires
        0 < fw.len() <= MAX_FIRMWARE,
        0 <= k < chunk_count(fw.len() as int),
    ensures
        readable(crate::packet::packet(CMD_WRITE, chunk_payload(fw, k), seq)),
{
    law_chunks_tile(fw.len() as int, k);
    assert(chunk_payload(fw, k).len() == 8 + chunk_end(fw.len() as int, k) - chunk_start(k));
    lemma_readable(CMD_WRITE, chunk_payload(fw, k), seq);
}

/// The packet of an action, if it has one, is readable.
pub open spec fn sends_readably(action: ActionModel) -> bool {
    match action {
        ActionModel::Request { packet, .. } => readable(packet),
        ActionModel::Send { packet, .. } => readable(packet),
        _ => true,
    }
}

proof fn lemma_request_readable(
    session: FlashSession,
    phase: Phase,
    delay_ms: int,
    cmd: u8,
    payload: Seq<u8>,
    timeout_ms: int,
)
    requires
        payload.len() <= 248,
    ensures
        sends_readably(session.requested(phase, delay_ms, cmd, payload, timeout_ms).action),
{
    lemma_readable(cmd, payload, session.seq);
}

proof fn lemma_write_readable(session: FlashSession, fw: Seq<u8>, k: int)
    requires
        0 < fw.len() <= MAX_FIRMWARE,
        0 <= k < chunk_count(fw.len() as int),
    ensures
        sends_readably(session.writing(fw, k).action),
{
    lemma_chunk_readable(fw, k, session.seq);
}

#[verifier::spinoff_prover]
proof fn lemma_opening_readable(session: FlashSession, fw: Seq<u8>, event: EventModel)
    requires
        session.wf(),
        fw.len() == session.fw_len,
        session.awaits(event),
        session.phase is Opening || session.phase is Reopening,
    ensures
        sends_readably(session.next(fw, event).action),
{
    let none = Seq::<u8>::empty();
    lemma_request_readable(session, Phase::Status, 0, CMD_STATUS, none, 3000);
    lemma_request_readable(session, Phase::Erasing, 0, CMD_ERASE, none, 5000);
}

#[verifier::spinoff_prover]
proof fn lemma_status_readable(session: FlashSession, fw: Seq<u8>, event: EventModel)
    requires
        session.wf(),
        fw.len() == session.fw_len,
        session.awaits(event),
        session.phase is Status,
    ensures
        sends_readably(session.next(fw, event).action),
{
    let none = Seq::<u8>::empty();
    lemma_readable(CMD_RESET, none, session.seq);
    lemma_request_readable(session, Phase::Erasing, 0, CMD_ERASE, none, 5000);
}

#[verifier::spinoff_prover]
proof fn lemma_writing_readable(session: FlashSession, fw: Seq<u8>, event: EventModel)
    requires
        session.wf(),
        fw.len() == session.fw_len,
        session.awaits(event),
        session.phase is Erasing || session.phase is Writing,
    ensures
        sends_readably(session.next(fw, event).action),
{
    law_chunk_count_positive(fw.len() as int);
    let page = crate::le::u32_le(session.last_page());
    lemma_request_readable(session, Phase::Committing, 150, CMD_COMMIT, page, 5000);
    match session.phase {
        Phase::Writing { sent } if sent < session.chunks() => {
            lemma_write_readable(session, fw, sent as int);
        },
        _ => {
            lemma_write_readable(session, fw, 0);
        },
    }
}

#[verifier::spinoff_prover]
proof fn lemma_committing_readable(session: FlashSession, fw: Seq<u8>, event: EventModel)
    requires
        session.phase is Committing,
        session.awaits(event),
    ensures
        sends_readably(session.next(fw, event).action),
{
    if let EventModel::Replied(r) = event {
        let counter = crate::le::u32_le(session.commit_counter(r.payload));
        assert(counter.len() == 4);
        if r.crc_ok && r.cmd == REPLY_COMMIT {
            lemma_request_readable(session, Phase::Finalizing, 0, CMD_COMMIT, counter, 5000);
        }
    }
}

#[verifier::spinoff_prover]
proof fn lemma_finalizing_readable(session: FlashSession, fw: Seq<u8>, event: EventModel)
    requires
        session.phase is Finalizing,
        session.awaits(event),
    ensures
        sends_readably(session.next(fw, event).action),
{
    lemma_request_readable(session, Phase::Leaving, 0, CMD_LEAVE, Seq::empty(), 3000);
}

/// Every packet of a session can be read by the device.
pub proof fn law_packets_are_readable(session: FlashSession, fw: Seq<u8>, event: EventModel)
    requires
        session.wf(),
        fw.len() == session.fw_len,
        session.awaits(event),
    ensures
        sends_readably(session.next(fw, event).action),
{
    match session.phase {
        Phase::Opening | Phase::Reopening { .. } => lemma_opening_readable(session, fw, event),
        Phase::Status => lemma_status_readable(session, fw, event),
        Phase::Erasing | Phase::Writing { .. } => lemma_writing_readable(session, fw, event),
        Phase::Committing => lemma_committing_readable(session, fw, event),
        Phase::Finalizing => lemma_finalizing_readable(session, fw, event),
        _ => {},
    }
}

// ---- What is said on the wire ----

/// The packet says `cmd` with `payload` to whoever parses it, with a right checksum
/// and under the sequence number `seq`.
#[verifier::opaque]
pub open spec fn says(packet: Seq<u8>, seq: u8, cmd: u8, payload: Seq<u8>) -> bool {
    &&& crate::packet::parsed_response(packet) == Some(
        crate::packet::ResponseModel { cmd, payload, crc_ok: true },
    )
    &&& crate::cobs::cobs_data(packet)[1] == seq
}

proof fn lemma_says(cmd: u8, payload: Seq<u8>, seq: u8)
    requires
        payload.len() <= 248,
    ensures
        says(crate::packet::packet(cmd, payload, seq), seq, cmd, payload),
{
    reveal(says);
    crate::packet::law_short_packet_parses_back(cmd, payload, seq);
    crate::packet::law_packet_layout(cmd, payload, seq);
}

/// An action requests an answer to `cmd` with `payload`, sent after `delay_ms`, within
/// `timeout_ms`.
pub open spec fn asks(
    action: ActionModel,
    seq: u8,
    delay_ms: int,
    cmd: u8,
    payload: Seq<u8>,
    timeout_ms: int,
) -> bool {
    match action {
        ActionModel::Request { delay_ms: d, packet, timeout_ms: t } => {
            &&& d == delay_ms
            &&& t == timeout_ms
            &&& says(packet, seq, cmd, payload)
        },
        _ => false,
    }
}

/// An action sends `cmd` with `payload` and then waits for `pause_ms`.
pub open spec fn tells(
    action: ActionModel,
    seq: u8,
    cmd: u8,
    payload: Seq<u8>,
    pause_ms: int,
) -> bool {
    match action {
        ActionModel::Send { packet, pause_ms: p } => p == pause_ms && says(
            packet,
            seq,
            cmd,
            payload,
        ),
        _ => false,
    }
}

proof fn lemma_asks(
    session: FlashSession,
    phase: Phase,
    delay_ms: int,
    cmd: u8,
    payload: Seq<u8>,
    timeout_ms: int,
)
    requires
        payload.len() <= 248,
    ensures
        asks(
            session.requested(phase, delay_ms, cmd, payload, timeout_ms).action,
            session.seq,
            delay_ms,
            cmd,
            payload,
            timeout_ms,
        ),
{
    lemma_says(cmd, payload, session.seq);
}

proof fn lemma_tells(
    session: FlashSession,
    phase: Phase,
    cmd: u8,
    payload: Seq<u8>,
    pause_ms: int,
)
    requires
        payload.len() <= 248,
    ensures
        tells(
            session.sent_out(phase, cmd, payload, pause_ms).action,
            session.seq,
            cmd,
            payload,
            pause_ms,
        ),
{
    lemma_says(cmd, payload, session.seq);
}

/// Every packet takes the next sequence number, from 1 on and from 255 to 0.
pub proof fn law_packets_are_numbered(session: FlashSession, fw: Seq<u8>, event: EventModel)
    requires
        session.wf(),
        session.awaits(event),
    ensures
        FlashSession::started(session.fw_len).seq == 1,
        ({
            let next = session.next(fw, event);
            let packet = next.action is Request || next.action is Send;
            &&& packet ==> next.session.seq == (session.seq + 1) % 256
            &&& !packet ==> next.session.seq == session.seq
        }),
{
}

/// A new session knows the size of its firmware and opens the port. An open port is
/// asked for its status (0x52); where it does not open, the session gives up.
pub proof fn law_session_opens_the_port(session: FlashSession, fw: Seq<u8>, event: EventModel)
    requires
        session.phase is Opening,
        session.awaits(event),
    ensures
        FlashSession::started(session.fw_len).fw_len == session.fw_len,
        FlashSession::started(session.fw_len).phase is Opening,
        event is Opened ==> asks(
            session.next(fw, event).action,
            session.seq,
            0,
            0x52,
            Seq::empty(),
            3000,
        ),
        event is Opened ==> session.next(fw, event).session.phase is Status,
        !(event is Opened) ==> session.next(fw, event).action == ActionModel::Abort(
            FlashError::Open,
        ),
{
    lemma_asks(session, Phase::Status, 0, CMD_STATUS, Seq::empty(), 3000);
}

/// A status (0x53) in transfer mode is answered by a reset (0x51), any other by an
/// erase (0x46).
pub proof fn law_status_is_answered(session: FlashSession, fw: Seq<u8>, event: EventModel)
    requires
        session.phase is Status,
        session.awaits(event),
    ensures
        ({
            let next = session.next(fw, event);
            match event {
                EventModel::Replied(r) => if r.crc_ok && r.cmd == 0x53 {
                    if decimal_text(r.payload) == seq![1u8, 0, 5, 1, 0] {
                        next.session.phase is Resetting && tells(
                            next.action,
                            session.seq,
                            0x51,
                            Seq::empty(),
                            0,
                        )
                    } else {
                        next.session.phase is Erasing && asks(
                            next.action,
                            session.seq,
                            0,
                            0x46,
                            Seq::empty(),
                            5000,
                        )
                    }
                } else {
                    next.action == ActionModel::Abort(
                        FlashError::BadStatus { cmd: r.cmd, crc_ok: r.crc_ok },
                    )
                },
                EventModel::NoReply => next.action == ActionModel::Abort(
                    FlashError::NoStatusReply,
                ),
                _ => next.action == ActionModel::Abort(FlashError::Io),
            }
        }),
{
    lemma_tells(session, Phase::Resetting, CMD_RESET, Seq::empty(), 0);
    lemma_asks(session, Phase::Erasing, 0, CMD_ERASE, Seq::empty(), 5000);
}

/// After a reset the port is opened again, every 200 ms and up to 20 times. When it is
/// there, the device is erased (0x46).
pub proof fn law_port_is_opened_again(session: FlashSession, fw: Seq<u8>, event: EventModel)
    requires
        session.wf(),
        session.phase is Resetting || session.phase is Reopening,
        session.awaits(event),
    ensures
        ({
            let next = session.next(fw, event);
            let waits = next.action == (ActionModel::Reopen { wait_ms: 200 });
            match session.phase {
                Phase::Reopening { tries } => if event is Opened {
                    next.session.phase is Erasing && asks(
                        next.action,
                        session.seq,
                        0,
                        0x46,
                        Seq::empty(),
                        5000,
                    )
                } else if tries < 20 {
                    waits && next.session.phase == (Phase::Reopening { tries: (tries + 1) as u8 })
                } else {
                    next.action == ActionModel::Abort(FlashError::NotReenumerated)
                },
                _ => waits && next.session.phase == (Phase::Reopening { tries: 1 }),
            }
        }),
{
    lemma_asks(session, Phase::Erasing, 0, CMD_ERASE, Seq::empty(), 5000);
}

/// A confirmed erase (0x47) is followed by the first chunk.
pub proof fn law_erase_is_followed_by_writing(
    session: FlashSession,
    fw: Seq<u8>,
    event: EventModel,
)
    requires
        session.phase is Erasing,
        session.awaits(event),
    ensures
        ({
            let next = session.next(fw, event);
            match event {
                EventModel::Replied(r) => if r.crc_ok && r.cmd == 0x47 {
                    next.session.phase == (Phase::Writing { sent: 1 })
                } else {
                    next.action == ActionModel::Abort(
                        FlashError::EraseFailed { cmd: r.cmd, crc_ok: r.crc_ok },
                    )
                },
                EventModel::NoReply => next.action == ActionModel::Abort(FlashError::NoEraseReply),
                _ => next.action == ActionModel::Abort(FlashError::Io),
            }
        }),
{
}

/// When all chunks are sent, they are committed (0x48) with the number of the last
/// flash page.
pub proof fn law_all_chunks_are_committed(session: FlashSession, fw: Seq<u8>, event: EventModel)
    requires
        session.wf(),
        session.phase is Writing,
        session.awaits(event),
    ensures
        ({
            let next = session.next(fw, event);
            let sent = session.phase->sent;
            let page = 0x20 + (session.fw_len + 4095) / 4096 - 1;
            &&& event is Sent && sent < session.chunks() ==> next.session.phase == (
            Phase::Writing { sent: (sent + 1) as usize })
            &&& event is Sent && sent == session.chunks() ==> {
                &&& next.session.phase is Committing
                &&& asks(next.action, session.seq, 150, 0x48, crate::le::u32_le(page), 5000)
            }
            &&& !(event is Sent) ==> next.action == ActionModel::Abort(FlashError::Io)
        }),
{
    lemma_asks(
        session,
        Phase::Committing,
        150,
        CMD_COMMIT,
        crate::le::u32_le(session.last_page()),
        5000,
    );
}

/// The counter with which a commit is finalized, as bytes.
proof fn lemma_counter_bytes(session: FlashSession, payload: Seq<u8>)
    ensures
        crate::le::u32_le(session.commit_counter(payload)) == (if payload.len() >= 4 {
            payload.take(4)
        } else {
            crate::le::u32_le(chunk_count(session.fw_len as int))
        }),
        crate::le::u32_le(session.commit_counter(payload)).len() == 4,
{
    if payload.len() >= 4 {
        crate::le::law_bytes_write_back(seq![0u8, 0], payload.take(4));
    }
}

#[verifier::spinoff_prover]
proof fn lemma_finalize_asks(session: FlashSession, payload: Seq<u8>)
    ensures
        asks(
            session.requested(
                Phase::Finalizing,
                0,
                CMD_COMMIT,
                crate::le::u32_le(session.commit_counter(payload)),
                5000,
            ).action,
            session.seq,
            0,
            0x48,
            if payload.len() >= 4 {
                payload.take(4)
            } else {
                crate::le::u32_le(chunk_count(session.fw_len as int))
            },
            5000,
        ),
{
    let counter = crate::le::u32_le(session.commit_counter(payload));
    lemma_counter_bytes(session, payload);
    lemma_asks(session, Phase::Finalizing, 0, CMD_COMMIT, counter, 5000);
}

/// A confirmed commit (0x49) is finalized (0x48) with the counter that the device
/// gave, byte for byte, or with the number of chunks where it gave none.
#[verifier::spinoff_prover]
pub proof fn law_commit_is_finalized(session: FlashSession, fw: Seq<u8>, event: EventModel)
    requires
        session.phase is Committing,
        session.awaits(event),
    ensures
        ({
            let next = session.next(fw, event);
            match event {
                EventModel::Replied(r) => if r.crc_ok && r.cmd == 0x49 {
                    next.session.phase is Finalizing && asks(
                        next.action,
                        session.seq,
                        0,
                        0x48,
                        if r.payload.len() >= 4 {
                            r.payload.take(4)
                        } else {
                            crate::le::u32_le(chunk_count(session.fw_len as int))
                        },
                        5000,
                    )
                } else {
                    next.action == ActionModel::Abort(
                        FlashError::CommitFailed { cmd: r.cmd, crc_ok: r.crc_ok },
                    )
                },
                EventModel::NoReply => next.action == ActionModel::Abort(
                    FlashError::NoCommitReply,
                ),
                _ => next.action == ActionModel::Abort(FlashError::Io),
            }
        }),
{
    if let EventModel::Replied(r) = event {
        lemma_finalize_asks(session, r.payload);
    }
}

/// A confirmed finalisation (0x49) is followed by the order to restart (0x50), and
/// the session finishes whatever comes of that.
pub proof fn law_device_is_restarted(session: FlashSession, fw: Seq<u8>, event: EventModel)
    requires
        session.phase is Finalizing || session.phase is Leaving,
        session.awaits(event),
    ensures
        ({
            let next = session.next(fw, event);
            match (session.phase, event) {
                (Phase::Leaving, _) => next.session.phase is Done && next.action is Finish,
                (_, EventModel::Replied(r)) => if !r.crc_ok {
                    next.action == ActionModel::Abort(FlashError::FinalizeCrc)
                } else if r.cmd != 0x49 {
                    next.action == ActionModel::Abort(
                        FlashError::FinalizeUnexpected { cmd: r.cmd },
                    )
                } else {
                    next.session.phase is Leaving && asks(
                        next.action,
                        session.seq,
                        0,
                        0x50,
                        Seq::empty(),
                        3000,
                    )
                },
                (_, EventModel::NoReply) => next.action == ActionModel::Abort(
                    FlashError::NoFinalizeReply,
                ),
                _ => next.action == ActionModel::Abort(FlashError::Io),
            }
        }),
{
    lemma_asks(session, Phase::Leaving, 0, CMD_LEAVE, Seq::empty(), 3000);
}

// ---- What is written ----

/// What the action's packet, if it parses as a write (0x45), says.
pub open spec fn write_payload(action: ActionModel) -> Option<Seq<u8>> {
    match action {
        ActionModel::Send { packet, .. } => match crate::packet::parsed_response(packet) {
            Some(r) => if r.cmd == 0x45 {
                Some(r.payload)
            } else {
                None
            },
            None => None,
        },
        _ => None,
    }
}

impl FlashSession {
    /// The data of all write packets of a run, each read from the packet itself, in
    /// the order in which the packets are sent.
    pub open spec fn written(self, fw: Seq<u8>, events: Seq<EventModel>) -> Seq<u8>
        decreases events.len(),
    {
        if events.len() == 0 {
            Seq::empty()
        } else {
            let before = events.drop_last();
            let action = self.run(fw, before).next(fw, events.last()).action;
            self.written(fw, before) + match write_payload(action) {
                Some(payload) => payload.skip(8),
                None => Seq::empty(),
            }
        }
    }

    /// How many write packets a run sends.
    pub open spec fn writes(self, fw: Seq<u8>, events: Seq<EventModel>) -> int
        decreases events.len(),
    {
        if events.len() == 0 {
            0
        } else {
            let before = events.drop_last();
            let action = self.run(fw, before).next(fw, events.last()).action;
            self.writes(fw, before) + if write_payload(action) is Some {
                1int
            } else {
                0
            }
        }
    }

    /// How many write packets a session has sent when it is where it is.
    spec fn writes_so_far(self) -> int {
        match self.phase {
            Phase::Writing { sent } => sent as int,
            _ => 0,
        }
    }
}

proof fn lemma_write_payload(packet: Seq<u8>, seq: u8, cmd: u8, payload: Seq<u8>, pause_ms: int)
    requires
        says(packet, seq, cmd, payload),
    ensures
        write_payload(ActionModel::Send { packet, pause_ms }) == (if cmd == 0x45 {
            Some(payload)
        } else {
            None
        }),
{
    reveal(says);
}

/// A session that goes on to the chunk after `k` sends its payload, and nothing else
/// is a write packet.
#[verifier::spinoff_prover]
#[verifier::rlimit(30)]
proof fn lemma_written_by(session: FlashSession, fw: Seq<u8>, event: EventModel)
    requires
        session.wf(),
        fw.len() == session.fw_len,
        session.awaits(event),
    ensures
        ({
            let next = session.next(fw, event);
            match next.session.phase {
                Phase::Writing { sent } => write_payload(next.action) == Some(
                    chunk_payload(fw, sent - 1),
                ) && sent == session.writes_so_far() + 1,
                _ => write_payload(next.action) is None,
            }
        }),
{
    let next = session.next(fw, event);
    match session.phase {
        Phase::Status => {
            lemma_says(CMD_RESET, Seq::empty(), session.seq);
            lemma_write_payload(
                crate::packet::packet(CMD_RESET, Seq::empty(), session.seq),
                session.seq,
                CMD_RESET,
                Seq::empty(),
                0,
            );
        },
        Phase::Erasing => {
            law_chunk_count_positive(fw.len() as int);
            lemma_chunk_said(fw, 0, session.seq);
        },
        Phase::Writing { sent } => {
            if sent < session.chunks() {
                lemma_chunk_said(fw, sent as int, session.seq);
            }
        },
        _ => {},
    }
}

proof fn lemma_chunk_said(fw: Seq<u8>, k: int, seq: u8)
    requires
        0 < fw.len() <= MAX_FIRMWARE,
        0 <= k < chunk_count(fw.len() as int),
    ensures
        write_payload(
            ActionModel::Send {
                packet: crate::packet::packet(CMD_WRITE, chunk_payload(fw, k), seq),
                pause_ms: chunk_pause(k),
            },
        ) == Some(chunk_payload(fw, k)),
        k + 1 <= usize::MAX,
{
    law_chunks_tile(fw.len() as int, k);
    let payload = chunk_payload(fw, k);
    assert(payload.len() == 8 + chunk_end(fw.len() as int, k) - chunk_start(k));
    lemma_says(CMD_WRITE, payload, seq);
    lemma_write_payload(
        crate::packet::packet(CMD_WRITE, payload, seq),
        seq,
        CMD_WRITE,
        payload,
        chunk_pause(k),
    );
    assert(chunk_count(fw.len() as int) <= 4014);
}

proof fn lemma_chunk_data(fw: Seq<u8>, k: int)
    requires
        0 < fw.len() <= MAX_FIRMWARE,
        0 <= k < chunk_count(fw.len() as int),
    ensures
        8 < chunk_payload(fw, k).len() <= 248,
        chunk_payload(fw, k).take(4) == crate::le::u32_le(k + 1),
        chunk_payload(fw, k).subrange(4, 8) == crate::le::u32_le(FLASH_START + chunk_start(k)),
        chunk_payload(fw, k).skip(8) == fw.subrange(
            chunk_start(k),
            chunk_end(fw.len() as int, k),
        ),
{
    law_chunks_tile(fw.len() as int, k);
    let payload = chunk_payload(fw, k);
    assert(payload.take(4) =~= crate::le::u32_le(k + 1));
    assert(payload.subrange(4, 8) =~= crate::le::u32_le(FLASH_START + chunk_start(k)));
    assert(payload.skip(8) =~= fw.subrange(chunk_start(k), chunk_end(fw.len() as int, k)));
}

proof fn lemma_written(fw: Seq<u8>, events: Seq<EventModel>)
    requires
        0 < fw.len() <= MAX_FIRMWARE,
        FlashSession::started(fw.len() as usize).runs(fw, events),
    ensures
        ({
            let start = FlashSession::started(fw.len() as usize);
            let session = start.run(fw, events);
            &&& start.written(fw, events) == start.flashed(fw, events)
            &&& session.phase is Writing ==> start.writes(fw, events) == session.writes_so_far()
            &&& (session.phase is Opening || session.phase is Status || session.phase is Resetting
                || session.phase is Reopening || session.phase is Erasing) ==> start.writes(
                fw,
                events,
            ) == 0
        }),
    decreases events.len(),
{
    let start = FlashSession::started(fw.len() as usize);
    if events.len() > 0 {
        let before = events.drop_last();
        lemma_written(fw, before);
        lemma_run(fw, before);
        lemma_run(fw, events);
        let session = start.run(fw, before);
        lemma_written_by(session, fw, events.last());
        let next = session.next(fw, events.last()).session;
        if let Phase::Writing { sent } = next.phase {
            lemma_chunk_data(fw, sent - 1);
        }
    }
}

/// The firmware arrives: what the write packets of a finished session say, read from
/// the packets as the device reads them, is the firmware, each byte once, unchanged
/// and in order.
pub proof fn law_firmware_is_in_the_packets(fw: Seq<u8>, events: Seq<EventModel>)
    requires
        0 < fw.len() <= MAX_FIRMWARE,
        FlashSession::started(fw.len() as usize).runs(fw, events),
    ensures
        FlashSession::started(fw.len() as usize).run(fw, events).phase is Done
            ==> FlashSession::started(fw.len() as usize).written(fw, events) == fw,
        FlashSession::started(fw.len() as usize).written(fw, events).is_prefix_of(fw),
{
    lemma_written(fw, events);
    law_finished_means_flashed(fw, events);
}

/// The next chunk starts where what has been flashed ends.
#[verifier::spinoff_prover]
proof fn lemma_chunk_place(session: FlashSession, fw: Seq<u8>, event: EventModel, data: Seq<u8>)
    requires
        session.wf(),
        fw.len() == session.fw_len,
        session.awaits(event),
        session.flashed_so_far(fw, data),
        session.next(fw, event).session.phase is Writing,
    ensures
        ({
            let k = session.next(fw, event).session.phase->sent - 1;
            &&& 0 <= k < chunk_count(fw.len() as int)
            &&& chunk_start(k) == data.len()
            &&& session.phase is Erasing ==> k == 0
            &&& session.phase matches Phase::Writing { sent } ==> k == sent
            &&& session.phase is Erasing || session.phase is Writing
        }),
{
    let size = fw.len() as int;
    law_chunk_count_positive(size);
    law_chunks_tile(size, 0);
    if let Phase::Writing { sent } = session.phase {
        law_chunks_tile(size, sent - 1);
    }
}

/// Each write packet says which one it is, counted from 1, and where its data goes:
/// behind the data of the packets before it, from the start of the firmware area on.
#[verifier::spinoff_prover]
pub proof fn law_writes_are_numbered_and_addressed(
    fw: Seq<u8>,
    events: Seq<EventModel>,
    event: EventModel,
)
    requires
        0 < fw.len() <= MAX_FIRMWARE,
        FlashSession::started(fw.len() as usize).runs(fw, events),
        FlashSession::started(fw.len() as usize).run(fw, events).awaits(event),
    ensures
        ({
            let start = FlashSession::started(fw.len() as usize);
            let action = start.run(fw, events).next(fw, event).action;
            write_payload(action) matches Some(p) ==> {
                &&& 8 < p.len() <= 248
                &&& p.take(4) == crate::le::u32_le(start.writes(fw, events) + 1)
                &&& p.subrange(4, 8) == crate::le::u32_le(
                    0x0002_0000 + start.written(fw, events).len() as int,
                )
            }
        }),
{
    let start = FlashSession::started(fw.len() as usize);
    let session = start.run(fw, events);
    lemma_run(fw, events);
    lemma_written(fw, events);
    lemma_written_by(session, fw, event);
    if let Phase::Writing { sent } = session.next(fw, event).session.phase {
        lemma_chunk_place(session, fw, event, start.written(fw, events));
        lemma_chunk_data(fw, sent - 1);
    }
}

/// Chunks are as long as they can be: 240 bytes, unless the page or the firmware ends
/// before. After the first chunk of a page, but for the first page, the device is
/// given 100 ms, after any other 5.
pub proof fn law_chunks_are_full(size: int, k: int)
    requires
        0 < size <= MAX_FIRMWARE,
        0 <= k < chunk_count(size),
    ensures
        ({
            let (start, end) = (chunk_start(k), chunk_end(size, k));
            &&& end - start == 240 || end % 4096 == 0 || end == size
            &&& chunk_page(k) == start / 4096
            &&& chunk_pause(k) == if start % 4096 == 0 && start > 0 {
                100int
            } else {
                5
            }
        }),
{
    law_chunks_tile(size, k);
    let (page, i) = (k / 18, k % 18);
    assert(chunk_start(k) == page * 4096 + i * 240);
}

/// A write packet is followed by the pause of its chunk.
pub proof fn law_device_is_given_time(session: FlashSession, fw: Seq<u8>, event: EventModel)
    requires
        session.awaits(event),
    ensures
        session.next(fw, event).session.phase matches Phase::Writing { sent } ==> (session.next(
            fw,
            event,
        ).action matches ActionModel::Send { pause_ms, .. } && pause_ms == chunk_pause(sent - 1)),
{
}

/// There are just as many pages as the firmware takes.
pub proof fn law_pages_hold_the_firmware(size: int)
    requires
        0 <= size,
    ensures
        4096 * (page_count(size) - 1) < size <= 4096 * page_count(size),
{
}

/// The digits of a byte are its decimal digits, the first of several not zero, and
/// those of several bytes follow each other.
pub proof fn law_digits_are_decimal(bytes: Seq<u8>, b: u8)
    ensures
        ({
            let d = decimal_digits(b);
            &&& 1 <= d.len() <= 3
            &&& forall|i: int| 0 <= i < d.len() ==> #[trigger] d[i] < 10
            &&& d.len() > 1 ==> d[0] > 0
            &&& d.len() == 1 ==> b == d[0]
            &&& d.len() == 2 ==> b == 10 * d[0] + d[1]
            &&& d.len() == 3 ==> b == 100 * d[0] + 10 * d[1] + d[2]
        }),
        decimal_text(Seq::empty()) == Seq::<u8>::empty(),
        decimal_text(bytes.push(b)) == decimal_text(bytes) + decimal_digits(b),
        says_transfer_mode(bytes) <==> decimal_text(bytes) == seq![1u8, 0, 5, 1, 0],
{
    assert(bytes.push(b).drop_last() =~= bytes);
}

/// Progress starts at nothing, is at 2 percent while erasing, goes from 5 to 90 with
/// the chunks sent, rounded down, and ends over 92 and 96 at 100.
pub proof fn law_progress_follows_the_chunks(session: FlashSession)
    requires
        session.wf(),
    ensures
        match session.phase {
            Phase::Erasing => session.percent() == Some(2int),
            Phase::Writing { sent } => session.percent() matches Some(p) && (p - 5)
                * session.chunks() <= 85 * sent < (p - 4) * session.chunks(),
            Phase::Committing => session.percent() == Some(92int),
            Phase::Finalizing | Phase::Leaving => session.percent() == Some(96int),
            Phase::Done => session.percent() == Some(100int),
            Phase::Failed => session.percent() is None,
            _ => session.percent() == Some(0int),
        },
{
    if let Phase::Writing { sent } = session.phase {
        law_chunk_count_positive(session.fw_len as int);
        let total = session.chunks();
        let x = sent * 85;
        vstd::arithmetic::div_mod::lemma_fundamental_div_mod(x as int, total);
        vstd::arithmetic::div_mod::lemma_mod_bound(x as int, total);
        let q = x as int / total;
        assert(total * q == q * total) by (nonlinear_arith);
        assert((q + 1) * total == q * total + total) by (nonlinear_arith);
    }
}

/// The models of events and actions say what these say.
pub proof fn law_models_of_events_and_actions(
    session: FlashSession,
    event: Event,
    action: Action,
)
    ensures
        next_of(session, action).session == session,
        next_of(session, action).action == action@,
        match event {
            Event::Opened => event@ is Opened,
            Event::OpenFailed => event@ is OpenFailed,
            Event::Replied(r) => event@ == EventModel::Replied(r@),
            Event::NoReply => event@ is NoReply,
            Event::Sent => event@ is Sent,
            Event::IoFailed => event@ is IoFailed,
        },
        match action {
            Action::Request { delay_ms, packet, timeout_ms } => action@ matches
                ActionModel::Request { delay_ms: d, packet: p, timeout_ms: t } && d == delay_ms
                && p == packet@ && t == timeout_ms,
            Action::Send { packet, pause_ms } => action@ matches ActionModel::Send {
                packet: p,
                pause_ms: m,
            } && p == packet@ && m == pause_ms,
            Action::Reopen { wait_ms } => action@ matches ActionModel::Reopen { wait_ms: w } && w
                == wait_ms,
            Action::Finish => action@ is Finish,
            Action::Abort(e) => action@ == ActionModel::Abort(e),
        },
{
}

/// Whatever can come of an action is awaited: a port opens or not, a packet gets out
/// or not, and a request is answered, is not, or fails.
pub proof fn law_every_outcome_is_awaited(session: FlashSession, event: EventModel)
    ensures
        session.awaits(event) <==> match event {
            EventModel::Opened | EventModel::OpenFailed => session.phase is Opening
                || session.phase is Reopening,
            EventModel::Sent => session.phase is Resetting || session.phase is Writing,
            EventModel::Replied(_) | EventModel::NoReply => session.phase is Status
                || session.phase is Erasing || session.phase is Committing
                || session.phase is Finalizing || session.phase is Leaving,
            EventModel::IoFailed => !(session.phase is Opening || session.phase is Reopening
                || session.phase is Done || session.phase is Failed),
        },
{
}

} // verus!
