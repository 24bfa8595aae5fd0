//! Cutting frames out of the bytes that a serial port delivers.

use vstd::prelude::*;

use crate::bytes::run_length;

verus! {

/// Longest time that a single read waits for bytes.
pub const READ_SLICE_NS: u64 = 50_000_000;

/// Bytes that were received and not yet taken out as frames.
#[derive(Debug)]
pub struct FrameBuffer {
    pub bytes: Vec<u8>,
}

impl View for FrameBuffer {
    type V = Seq<u8>;

    open spec fn view(&self) -> Seq<u8> {
        self.bytes@
    }
}

/// What to do while waiting for a frame.
#[derive(Debug)]
pub enum Poll {
    /// A frame is there, with the zero that ends it.
    Frame(Vec<u8>),
    /// The time is up.
    TimedOut,
    /// Read from the port for at most this long, add what came and poll again.
    Read { timeout_ns: u64 },
}

/// How many bytes the first frame in `bytes` takes, the zero that ends it included;
/// nothing where no frame has ended yet.
pub open spec fn first_frame_len(bytes: Seq<u8>) -> Option<int> {
    if crate::bytes::run_len(bytes) < bytes.len() {
        Some(crate::bytes::run_len(bytes) + 1)
    } else {
        None
    }
}

impl FrameBuffer {
    pub fn new() -> (b: FrameBuffer)
        ensures
            b@ == Seq::<u8>::empty(),
    {
        FrameBuffer { bytes: Vec::new() }
    }

    /// Drops everything.
    pub fn drain(&mut self)
        ensures
            final(self)@ == Seq::<u8>::empty(),
    {
        self.bytes.clear();
    }

    /// Adds received bytes.
    pub fn extend(&mut self, received: &[u8])
        ensures
            final(self)@ == old(self)@ + received@,
    {
        self.bytes.extend_from_slice(received);
        assert(self@ =~= old(self)@ + received@);
    }

    /// Takes out the first frame, if one has ended.
    pub fn take_frame(&mut self) -> (r: Option<Vec<u8>>)
        ensures
            match first_frame_len(old(self)@) {
                Some(n) => {
                    &&& r matches Some(frame)
                    &&& frame@ == old(self)@.take(n)
                    &&& final(self)@ == old(self)@.skip(n)
                },
                None => r is None && final(self)@ == old(self)@,
            },
    {
        let ghost before = self@;
        let pos: usize = run_length(self.bytes.as_slice());
        if pos == self.bytes.len() {
            return None;
        }
        let mut frame: Vec<u8> = self.bytes.split_off(pos + 1);
        core::mem::swap(&mut frame, &mut self.bytes);
        assert(frame@ =~= before.take(pos + 1));
        assert(self@ =~= before.skip(pos + 1));
        Some(frame)
    }

    /// Decides what to do with `remaining_ns` left to wait.
    pub fn poll(&mut self, remaining_ns: u64) -> (r: Poll)
        ensures
            match first_frame_len(old(self)@) {
                Some(n) => {
                    &&& r matches Poll::Frame(frame)
                    &&& frame@ == old(self)@.take(n)
                    &&& final(self)@ == old(self)@.skip(n)
                },
                None => {
                    &&& final(self)@ == old(self)@
                    &&& remaining_ns == 0 ==> r is TimedOut
                    &&& remaining_ns > 0 ==> (r matches Poll::Read { timeout_ns } && timeout_ns == (
                    if remaining_ns < READ_SLICE_NS { remaining_ns } else { READ_SLICE_NS }))
                },
            },
    {
        match self.take_frame() {
            Some(frame) => Poll::Frame(frame),
            None => if remaining_ns == 0 {
                Poll::TimedOut
            } else {
                Poll::Read {
                    timeout_ns: if remaining_ns < READ_SLICE_NS {
                        remaining_ns
                    } else {
                        READ_SLICE_NS
                    },
                }
            },
        }
    }
}

/// A frame is cut out whole: the first frame in bytes that start with an encoded
/// frame is that frame, whatever follows it.
pub proof fn law_frame_is_cut_out(data: Seq<u8>, following: Seq<u8>)
    requires
        forall|i: int, j: int|
            #[trigger] crate::cobs::is_piece(data, i, j) ==> (j - i + 1) % 256 != 0,
    ensures
        first_frame_len(crate::cobs::cobs_frame(data) + following) == Some(
            crate::cobs::cobs_frame(data).len() as int,
        ),
        (crate::cobs::cobs_frame(data) + following).take(
            crate::cobs::cobs_frame(data).len() as int,
        ) == crate::cobs::cobs_frame(data),
{
    let frame = crate::cobs::cobs_frame(data);
    let all = frame + following;
    let n = frame.len() - 1;
    assert forall|i: int| 0 <= i < n implies #[trigger] all[i] != 0 by {
        crate::cobs::law_zero_ends_frame(data, i);
    }
    crate::bytes::lemma_run_is(all, n);
    assert(all.take(frame.len() as int) =~= frame);
}

/// The first frame ends with the first zero; there is none exactly where no zero has
/// come yet.
pub proof fn law_frame_ends_at_first_zero(bytes: Seq<u8>)
    ensures
        match first_frame_len(bytes) {
            Some(n) => {
                &&& 0 < n <= bytes.len()
                &&& bytes[n - 1] == 0
                &&& forall|i: int| 0 <= i < n - 1 ==> #[trigger] bytes[i] != 0
            },
            None => forall|i: int| 0 <= i < bytes.len() ==> #[trigger] bytes[i] != 0,
        },
{
    crate::bytes::lemma_run(bytes);
}

/// The model of a buffer is its bytes.
pub proof fn law_buffer_model(buffer: FrameBuffer)
    ensures
        buffer@ == buffer.bytes@,
{
}

} // verus!
