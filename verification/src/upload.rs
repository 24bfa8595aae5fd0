//! Uploading a song.

use vstd::prelude::*;

use crate::disk::SongEntry;

verus! {

/// Longest song name, in characters.
pub const MAX_NAME: usize = 23;

/// How many blocks are sent at a time.
pub const BATCH: usize = 96;

/// A song name has too many characters.
#[derive(Clone, Copy, Debug, PartialEq, Eq, Structural)]
pub struct NameTooLong;

/// The catalog field for a song name. Of a name whose characters take more bytes than
/// the field has, it holds the first ones.
pub fn song_name(name: &str) -> (r: Result<[u8; 24], NameTooLong>)
    ensures
        name@.len() > MAX_NAME ==> r is Err,
        name@.len() <= MAX_NAME ==> (r matches Ok(field) && field@ == crate::disk::name_field(
            name@,
        )),
{
    if name.unicode_len() > MAX_NAME {
        return Err(NameTooLong);
    }
    let mut entry: SongEntry = SongEntry::default();
    entry.set_name(name);
    Ok(entry.name)
}

fn append(stream: &mut Vec<[u8; 512]>, blocks: &[[u8; 512]])
    ensures
        final(stream)@ == old(stream)@ + blocks@,
{
    assert(stream@ =~= old(stream)@ + blocks@.take(0));
    let mut i: usize = 0;
    while i < blocks.len()
        invariant
            i <= blocks@.len(),
            stream@ == old(stream)@ + blocks@.take(i as int),
        decreases blocks@.len() - i,
    {
        stream.push(blocks[i]);
        assert(blocks@.take(i + 1) =~= blocks@.take(i as int).push(blocks@[i as int]));
        i = i + 1;
    }
    assert(blocks@.take(blocks@.len() as int) =~= blocks@);
}

/// What is sent of a song: its audio, then its levels.
pub fn song_stream(audio: &[[u8; 512]], levels: &[[u8; 512]]) -> (stream: Vec<[u8; 512]>)
    ensures
        stream@ == audio@ + levels@,
{
    let mut stream: Vec<[u8; 512]> = Vec::new();
    append(&mut stream, audio);
    append(&mut stream, levels);
    assert(stream@ =~= audio@ + levels@);
    stream
}

/// Where an upload stands.
#[derive(Clone, Copy, Debug, PartialEq, Eq, Structural)]
pub enum Phase {
    /// Waits for the device to be opened.
    Opening,
    Pinging,
    Beginning,
    /// Waits for the blocks before `to` to be acknowledged.
    Sending { to: usize },
    Committing,
    Done,
    Failed,
}

/// What came of an action.
#[derive(Clone, Copy, Debug, PartialEq, Eq, Structural)]
pub enum Event {
    /// It worked.
    Done,
    /// The song has been begun, under this catalog index.
    Began { index: u16 },
    Failed,
}

/// What to do next.
#[derive(Clone, Copy, Debug, PartialEq, Eq, Structural)]
pub enum Action {
    Ping,
    /// Begin a song with so many blocks of audio.
    Begin { nblocks: u32 },
    /// Send the blocks of the stream from `from` up to `to`.
    Send { from: usize, to: usize },
    Commit,
    /// The song is there.
    Finish { index: u16 },
    /// Report the error of the last action.
    Abort,
    /// Report it, and that it struck the blocks from `from` up to `to`, with all
    /// blocks before them sent.
    AbortBatch { from: usize, to: usize },
}

/// An upload: from what came of the last action, it says what to do next.
#[derive(Clone, Copy, Debug, PartialEq, Eq, Structural)]
pub struct Upload {
    /// How many blocks are audio.
    pub audio: usize,
    /// How many blocks there are to send.
    pub total: usize,
    /// How many blocks have been acknowledged.
    pub sent: usize,
    pub index: u16,
    pub phase: Phase,
}

/// Where the batch ends that starts at `from`.
pub open spec fn batch_end(total: int, from: int) -> int {
    if from + BATCH <= total {
        from + BATCH
    } else {
        total
    }
}

impl Upload {
    pub open spec fn wf(self) -> bool {
        &&& self.audio <= self.total
        &&& self.sent <= self.total
        &&& (self.phase is Opening || self.phase is Pinging || self.phase is Beginning)
            ==> self.sent == 0
        &&& self.phase matches Phase::Sending { to } ==> self.sent < self.total && to == batch_end(
            self.total as int,
            self.sent as int,
        )
        &&& (self.phase is Committing || self.phase is Done) ==> self.sent == self.total
    }

    pub open spec fn started(audio: usize, total: usize) -> Upload {
        Upload { audio, total, sent: 0, index: 0, phase: Phase::Opening }
    }

    /// The outcomes that the last action can have.
    pub open spec fn awaits(self, event: Event) -> bool {
        match self.phase {
            Phase::Beginning => event is Began || event is Failed,
            Phase::Done | Phase::Failed => false,
            _ => event is Done || event is Failed,
        }
    }

    pub open spec fn at(self, phase: Phase) -> Upload {
        Upload { phase, ..self }
    }

    /// Goes on to the next batch, or commits when there is none.
    pub open spec fn sending(self) -> (Upload, Action) {
        if self.sent < self.total {
            let to = batch_end(self.total as int, self.sent as int) as usize;
            (self.at(Phase::Sending { to }), Action::Send { from: self.sent, to })
        } else {
            (self.at(Phase::Committing), Action::Commit)
        }
    }

    pub open spec fn next(self, event: Event) -> (Upload, Action) {
        match (self.phase, event) {
            (Phase::Sending { to }, Event::Failed) => (
                self.at(Phase::Failed),
                Action::AbortBatch { from: self.sent, to },
            ),
            (_, Event::Failed) => (self.at(Phase::Failed), Action::Abort),
            (Phase::Opening, _) => (self.at(Phase::Pinging), Action::Ping),
            (Phase::Pinging, _) => (
                self.at(Phase::Beginning),
                Action::Begin { nblocks: (self.audio as int % 0x1_0000_0000) as u32 },
            ),
            (Phase::Beginning, Event::Began { index }) => Upload { index, ..self }.sending(),
            (Phase::Sending { to }, _) => Upload { sent: to, ..self }.sending(),
            (Phase::Committing, _) => (
                self.at(Phase::Done),
                Action::Finish { index: self.index },
            ),
            _ => (self, Action::Abort),
        }
    }

    pub fn new(audio: usize, total: usize) -> (u: Upload)
        requires
            audio <= total,
        ensures
            u.wf(),
            u == Upload::started(audio, total),
    {
        Upload { audio, total, sent: 0, index: 0, phase: Phase::Opening }
    }

    fn send(&mut self) -> (action: Action)
        requires
            old(self).sent <= old(self).total,
        ensures
            (*final(self), action) == old(self).sending(),
    {
        if self.sent < self.total {
            let to: usize = if self.total - self.sent >= BATCH {
                self.sent + BATCH
            } else {
                self.total
            };
            self.phase = Phase::Sending { to };
            Action::Send { from: self.sent, to }
        } else {
            self.phase = Phase::Committing;
            Action::Commit
        }
    }

    fn abort(&mut self) -> (action: Action)
        ensures
            *final(self) == old(self).at(Phase::Failed),
            action == Action::Abort,
    {
        self.phase = Phase::Failed;
        Action::Abort
    }

    pub fn step(&mut self, event: Event) -> (action: Action)
        requires
            old(self).wf(),
            old(self).awaits(event),
        ensures
            final(self).wf(),
            (*final(self), action) == old(self).next(event),
    {
        match (self.phase, event) {
            (Phase::Sending { to }, Event::Failed) => {
                let from: usize = self.sent;
                self.phase = Phase::Failed;
                Action::AbortBatch { from, to }
            },
            (_, Event::Failed) => self.abort(),
            (Phase::Opening, _) => {
                self.phase = Phase::Pinging;
                Action::Ping
            },
            (Phase::Pinging, _) => {
                self.phase = Phase::Beginning;
                Action::Begin { nblocks: (self.audio as u64 % 0x1_0000_0000) as u32 }
            },
            (Phase::Beginning, Event::Began { index }) => {
                self.index = index;
                self.send()
            },
            (Phase::Sending { to }, _) => {
                self.sent = to;
                self.send()
            },
            (Phase::Committing, _) => {
                self.phase = Phase::Done;
                Action::Finish { index: self.index }
            },
            _ => Action::Abort,
        }
    }

    /// The upload after a row of events.
    pub open spec fn run(self, events: Seq<Event>) -> Upload
        decreases events.len(),
    {
        if events.len() == 0 {
            self
        } else {
            self.run(events.drop_last()).next(events.last()).0
        }
    }

    /// Every event is one that the upload awaits when it comes.
    pub open spec fn runs(self, events: Seq<Event>) -> bool
        decreases events.len(),
    {
        events.len() == 0 || self.runs(events.drop_last()) && self.run(
            events.drop_last(),
        ).awaits(events.last())
    }

    /// The action that the last event of a run led to.
    pub open spec fn last_action(self, events: Seq<Event>) -> Option<Action> {
        if events.len() == 0 {
            None
        } else {
            Some(self.run(events.drop_last()).next(events.last()).1)
        }
    }

    /// The blocks that all acknowledged batches of a run hold, in the order in which
    /// they are sent: those that an action asks for count when the next event says
    /// that it worked.
    pub open spec fn delivered(self, stream: Seq<[u8; 512]>, events: Seq<Event>) -> Seq<[u8; 512]>
        decreases events.len(),
    {
        if events.len() == 0 {
            Seq::empty()
        } else {
            let batch = match self.last_action(events.drop_last()) {
                Some(Action::Send { from, to }) if events.last() is Done => stream.subrange(
                    from as int,
                    to as int,
                ),
                _ => Seq::empty(),
            };
            self.delivered(stream, events.drop_last()) + batch
        }
    }

    /// At most how many more events an upload takes in.
    pub open spec fn steps_left(self) -> int {
        let batches = self.total - self.sent;
        match self.phase {
            Phase::Opening => batches + 4,
            Phase::Pinging => batches + 3,
            Phase::Beginning => batches + 2,
            Phase::Sending { .. } => batches + 1,
            Phase::Committing => 1,
            Phase::Done | Phase::Failed => 0,
        }
    }
}

/// A batch is never empty and never larger than the device takes at once, and stays
/// inside the stream.
pub proof fn law_batches_fit(upload: Upload, event: Event)
    requires
        upload.wf(),
        upload.awaits(event),
    ensures
        upload.next(event).1 matches Action::Send { from, to } ==> from < to <= upload.total && to
            - from <= BATCH && from == upload.next(event).0.sent,
{
}

/// An upload ends, whatever the device answers.
pub proof fn law_upload_ends(upload: Upload, event: Event)
    requires
        upload.wf(),
        upload.awaits(event),
    ensures
        upload.next(event).0.wf(),
        0 <= upload.next(event).0.steps_left() < upload.steps_left(),
        upload.next(event).0.steps_left() == 0 <==> (upload.next(event).1 is Finish || upload.next(
            event,
        ).1 is Abort || upload.next(event).1 is AbortBatch),
{
}

proof fn lemma_run(audio: usize, stream: Seq<[u8; 512]>, events: Seq<Event>)
    requires
        audio <= stream.len() <= usize::MAX,
        Upload::started(audio, stream.len() as usize).runs(events),
    ensures
        ({
            let start = Upload::started(audio, stream.len() as usize);
            let u = start.run(events);
            &&& u.wf()
            &&& u.total == stream.len()
            &&& u.audio == audio
            &&& start.delivered(stream, events) == stream.take(u.sent as int)
            &&& match start.last_action(events) {
                Some(Action::Send { from, to }) => u.phase == (Phase::Sending { to }) && from
                    == u.sent,
                _ => !(u.phase is Sending),
            }
        }),
    decreases events.len(),
{
    let start = Upload::started(audio, stream.len() as usize);
    if events.len() == 0 {
        assert(stream.take(0) =~= Seq::empty());
    } else {
        let before = events.drop_last();
        lemma_run(audio, stream, before);
        let u = start.run(before);
        let sent = u.next(events.last()).0.sent as int;
        assert(start.delivered(stream, events) =~= stream.take(sent));
    }
}

/// An upload that finishes has delivered every block of the song, each once and in
/// order. At any time, it has delivered the part of the song that it counts as sent.
pub proof fn law_finished_means_delivered(
    audio: usize,
    stream: Seq<[u8; 512]>,
    events: Seq<Event>,
)
    requires
        audio <= stream.len() <= usize::MAX,
        Upload::started(audio, stream.len() as usize).runs(events),
    ensures
        ({
            let start = Upload::started(audio, stream.len() as usize);
            &&& start.run(events).phase is Done ==> start.delivered(stream, events) == stream
            &&& start.delivered(stream, events) == stream.take(start.run(events).sent as int)
        }),
{
    lemma_run(audio, stream, events);
    assert(stream.take(stream.len() as int) =~= stream);
}

/// The count that is announced is that of the audio blocks: the levels behind them do
/// not count, and only what 32 bits cannot hold is lost.
pub proof fn law_audio_is_announced(upload: Upload, event: Event)
    requires
        upload.wf(),
        upload.awaits(event),
    ensures
        upload.next(event).1 matches Action::Begin { nblocks } ==> {
            &&& upload.audio <= u32::MAX ==> nblocks == upload.audio
            &&& (upload.audio - nblocks) % 0x1_0000_0000 == 0
            &&& upload.phase is Pinging
        },
        upload.phase is Pinging && event is Done ==> upload.next(event).1 is Begin,
{
}

/// A batch starts where the last one ended and is full, unless it ends the stream.
pub proof fn law_batches_are_full(upload: Upload, event: Event)
    requires
        upload.wf(),
        upload.awaits(event),
    ensures
        upload.next(event).1 matches Action::Send { from, to } ==> {
            &&& upload.phase is Beginning ==> from == 0
            &&& upload.phase matches Phase::Sending { to: last } ==> from == last
            &&& upload.phase is Beginning || upload.phase is Sending
            &&& to == from + 96 || (to == upload.total && to < from + 96)
        },
{
}

/// A song is committed when nothing is left to send, and finished under the index
/// that the device gave it at the beginning.
pub proof fn law_upload_is_finished_in_order(upload: Upload, event: Event)
    requires
        upload.wf(),
        upload.awaits(event),
    ensures
        upload.phase is Opening && event is Done ==> upload.next(event).1 is Ping,
        upload.phase matches Phase::Sending { to } ==> event is Done ==> (upload.next(event).1
            is Commit <==> to == upload.total),
        upload.phase is Beginning && event is Began ==> (upload.next(event).1 is Commit
            <==> upload.total == 0),
        upload.next(event).1 is Commit ==> upload.next(event).0.sent == upload.total,
        upload.phase is Committing && event is Done ==> upload.next(event).1 == (Action::Finish {
            index: upload.index,
        }),
        event matches Event::Began { index } ==> upload.next(event).0.index == index,
        !(event is Began) ==> upload.next(event).0.index == upload.index,
        upload.next(event).0.audio == upload.audio && upload.next(event).0.total == upload.total,
{
}

/// Whatever fails ends the upload; a batch that fails is reported with the blocks
/// that it was to send.
pub proof fn law_failure_is_reported(upload: Upload, event: Event)
    requires
        upload.wf(),
        upload.awaits(event),
    ensures
        event is Failed <==> upload.next(event).0.phase is Failed,
        event is Failed ==> upload.next(event).0.sent == upload.sent,
        event is Failed ==> match upload.phase {
            Phase::Sending { to } => upload.next(event).1 == (Action::AbortBatch {
                from: upload.sent,
                to,
            }),
            _ => upload.next(event).1 is Abort,
        },
{
}

/// An upload starts with nothing sent and with the counts it is given.
pub proof fn law_upload_starts_empty(audio: usize, total: usize)
    ensures
        Upload::started(audio, total).audio == audio,
        Upload::started(audio, total).total == total,
        Upload::started(audio, total).sent == 0,
        Upload::started(audio, total).phase is Opening,
{
}

/// Whatever can come of an action is awaited, until the upload is over.
pub proof fn law_every_outcome_is_awaited(upload: Upload, event: Event)
    ensures
        upload.awaits(event) <==> !(upload.phase is Done || upload.phase is Failed) && match event {
            Event::Failed => true,
            Event::Began { .. } => upload.phase is Beginning,
            Event::Done => !(upload.phase is Beginning),
        },
{
}

/// An upload waits for the outcome of the action that it has asked for.
pub proof fn law_phase_follows_the_action(upload: Upload, event: Event)
    requires
        upload.wf(),
        upload.awaits(event),
    ensures
        match upload.next(event).1 {
            Action::Ping => upload.next(event).0.phase is Pinging,
            Action::Begin { .. } => upload.next(event).0.phase is Beginning,
            Action::Send { to, .. } => upload.next(event).0.phase == (Phase::Sending { to }),
            Action::Commit => upload.next(event).0.phase is Committing,
            Action::Finish { .. } => upload.next(event).0.phase is Done,
            Action::Abort | Action::AbortBatch { .. } => upload.next(event).0.phase is Failed,
        },
{
}

} // verus!
