//! The sending side of a transfer: one session that pushes the chunks of one file.
//!
//! Like the receiving side, the session is a state machine that is fed events and
//! answers with the messages to send. Staging the file, that is reading, cutting and
//! digesting it, is the host's part; the session learns the outcome as an event.

use vstd::prelude::*;
use crate::entry::same_text;
use crate::error::{Cause, ErrorKind};
use crate::message::{message_views, nothing, one, Message, MessageView};
use crate::parsers::{Address, AddressView, Malformation};
use crate::ranges::{are_well_formed, well_formed};
use crate::session::{elapsed, has_elapsed, Config, Origin};
use crate::store::{entry_of, ContentStore, StoreView};
use crate::value::copy_bytes;

verus! {

/// Where a sending session stands.
#[derive(Copy, Clone, Debug, PartialEq, Eq)]
pub enum SenderState {
    /// The file is being staged.
    Staging,
    /// Chunks are being sent.
    Pushing,
    /// Every chunk asked for has been sent; the peer's verdict is awaited.
    AwaitingAck,
    /// The peer holds the file.
    Complete,
    /// The session was given up.
    Failed(ErrorKind),
}

/// What a sending session is fed.
#[derive(Debug, PartialEq)]
pub enum SenderEvent {
    /// A message arrived, at the given time.
    Inbound(Message, u64),
    /// A message announced a form and did not complete it; the address says whom it
    /// was meant for.
    Malformed(Address, Malformation),
    /// The clock shows the given time.
    Tick(u64),
    /// The file is staged: its hash, the number of its chunks, its permission bits,
    /// and the time.
    Staged(String, u32, Option<u32>, u64),
    /// The content store could not read or write.
    Fault,
    /// This side gives the transfer up.
    Cancel,
}

/// The mathematical model of a [`SenderEvent`].
pub enum SenderEventView {
    Inbound(MessageView, u64),
    Malformed(AddressView, Malformation),
    Tick(u64),
    Staged(Seq<char>, u32, Option<u32>, u64),
    Fault,
    Cancel,
}

impl View for SenderEvent {
    type V = SenderEventView;

    open spec fn view(&self) -> SenderEventView {
        match self {
            SenderEvent::Inbound(message, now) => SenderEventView::Inbound(message@, *now),
            SenderEvent::Malformed(address, reason) => SenderEventView::Malformed(address@, *reason),
            SenderEvent::Tick(now) => SenderEventView::Tick(*now),
            SenderEvent::Staged(hash, n, mode, now) => SenderEventView::Staged(
                hash@,
                *n,
                *mode,
                *now,
            ),
            SenderEvent::Fault => SenderEventView::Fault,
            SenderEvent::Cancel => SenderEventView::Cancel,
        }
    }
}

/// One sending session.
pub struct Sender {
    channel_id: u64,
    origin: Origin,
    source_path: String,
    target_path: String,
    hash: Option<String>,
    num_chunks: u32,
    mode: Option<u32>,
    state: SenderState,
    queue: Vec<(u32, u32)>,
    waiting: Vec<(u32, u32)>,
    rounds: u32,
    io_faults: u32,
    last_activity: u64,
    last_chunk: Option<u64>,
}

/// The mathematical model of a [`Sender`].
pub struct SenderView {
    /// The channel of the session; never 0.
    pub channel_id: u64,
    /// How the session came about: an export of this side, or an import of the peer.
    pub origin: Origin,
    /// Where the file to send stands on this side.
    pub source_path: Seq<char>,
    /// Where the peer is to save an exported file.
    pub target_path: Seq<char>,
    /// The hash of the file, once it is staged.
    pub hash: Option<Seq<char>>,
    /// The number of chunks of the file, once it is staged.
    pub num_chunks: u32,
    /// The permission bits of the file, where they are known.
    pub mode: Option<u32>,
    /// Where the session stands.
    pub state: SenderState,
    /// The ranges of chunks still to send in this push; the next chunk to go is the
    /// first of the first range.
    pub queue: Seq<(u32, u32)>,
    /// The ranges that the peer asked for while a push was under way.
    pub waiting: Seq<(u32, u32)>,
    /// How often the file has been announced again for want of an answer.
    pub rounds: u32,
    /// How often the content store has failed.
    pub io_faults: u32,
    /// When the session last made progress.
    pub last_activity: u64,
    /// When the last chunk went out.
    pub last_chunk: Option<u64>,
}

/// What a step of a sending session leaves behind: the session and the messages to send.
pub type SenderStep = (SenderView, Seq<MessageView>);

impl SenderView {
    /// The session is over.
    pub open spec fn terminal(self) -> bool {
        self.state is Complete || self.state is Failed
    }

    /// The channel is never 0; the hash is known while the transfer runs; the ranges to
    /// send lie within the file, and a push has something to send.
    pub open spec fn wf(self) -> bool {
        &&& self.channel_id != 0
        &&& (self.state is Pushing || self.state is AwaitingAck) ==> self.hash is Some
        &&& well_formed(self.queue, self.num_chunks)
        &&& well_formed(self.waiting, self.num_chunks)
        &&& self.state is Pushing ==> self.queue.len() > 0
    }

    /// Whether a message with this address is meant for this session: it names the
    /// channel or the hash of the session.
    pub open spec fn concerned(self, address: AddressView) -> bool {
        match address {
            AddressView::Channel(channel_id) => channel_id == self.channel_id,
            AddressView::Hash(hash) => self.hash == Some(hash),
            AddressView::Nobody => false,
        }
    }

    /// Nothing happens.
    pub open spec fn stay(self) -> SenderStep {
        (self, Seq::empty())
    }

    /// The session is given up: the peer is told why, once.
    pub open spec fn abort(self, cause: Cause) -> SenderStep {
        (
            SenderView { state: SenderState::Failed(cause.spec_kind()), ..self },
            seq![MessageView::Failure(self.channel_id, cause.text())],
        )
    }

    /// The content store failed: the session bears with it as often as the limits say,
    /// and gives up then.
    pub open spec fn fault(self, config: Config) -> SenderStep {
        if self.io_faults >= config.max_io_retries {
            self.abort(Cause::IoFault)
        } else {
            (SenderView { io_faults: (self.io_faults + 1) as u32, ..self }, Seq::empty())
        }
    }

    /// The message that opens the transfer once the file is staged.
    pub open spec fn opening(self) -> MessageView {
        match self.origin {
            Origin::Export => MessageView::ReqReceive(
                self.channel_id,
                self.hash.unwrap(),
                self.target_path,
                self.mode,
            ),
            Origin::Import => MessageView::SuccessTransmit(
                self.channel_id,
                self.hash.unwrap(),
                self.num_chunks,
                self.mode,
            ),
        }
    }

    /// The file is staged: the transfer is opened, and every chunk is queued.
    pub open spec fn staged(self, hash: Seq<char>, n: u32, mode: Option<u32>, now: u64)
        -> SenderStep {
        if !(self.state is Staging) {
            self.stay()
        } else {
            let next = SenderView {
                hash: Some(hash),
                num_chunks: n,
                mode,
                state: if n > 0 {
                    SenderState::Pushing
                } else {
                    SenderState::AwaitingAck
                },
                queue: if n > 0 {
                    seq![(0u32, (n - 1) as u32)]
                } else {
                    Seq::empty()
                },
                waiting: Seq::empty(),
                last_activity: now,
                ..self
            };
            (next, seq![next.opening()])
        }
    }

    /// The queue after the first chunk of its first range has gone out.
    pub open spec fn advanced(queue: Seq<(u32, u32)>) -> Seq<(u32, u32)> {
        if queue[0].0 == queue[0].1 {
            queue.drop_first()
        } else {
            queue.update(0, ((queue[0].0 + 1) as u32, queue[0].1))
        }
    }

    /// The next chunk goes out. When the queue runs empty, the ranges that the peer asked
    /// for meanwhile are queued; when there are none, the peer's verdict is awaited. Where
    /// the chunk is not in the store, the store has failed.
    pub open spec fn push(self, store: StoreView, config: Config, now: u64) -> SenderStep {
        let hash = self.hash.unwrap();
        let index = self.queue[0].0;
        let chunks = entry_of(store, hash).chunks;
        if !chunks.contains_key(index) {
            self.fault(config)
        } else {
            let rest = Self::advanced(self.queue);
            let sent = seq![MessageView::ReceiveChunk(hash, index, chunks[index])];
            if rest.len() > 0 {
                (
                    SenderView {
                        queue: rest,
                        last_activity: now,
                        last_chunk: Some(now),
                        ..self
                    },
                    sent,
                )
            } else if self.waiting.len() > 0 {
                (
                    SenderView {
                        queue: self.waiting,
                        waiting: Seq::empty(),
                        last_activity: now,
                        last_chunk: Some(now),
                        ..self
                    },
                    sent,
                )
            } else {
                (
                    SenderView {
                        state: SenderState::AwaitingAck,
                        queue: rest,
                        last_activity: now,
                        last_chunk: Some(now),
                        ..self
                    },
                    sent,
                )
            }
        }
    }

    /// Whether the next chunk is due.
    pub open spec fn due(self, config: Config, now: u64) -> bool {
        match self.last_chunk {
            Some(last) => elapsed(now, last, config.chunk_interval),
            None => true,
        }
    }

    /// The clock shows `now`.
    pub open spec fn tick(self, store: StoreView, config: Config, now: u64) -> SenderStep {
        match self.state {
            SenderState::Pushing => if self.due(config, now) {
                self.push(store, config, now)
            } else {
                self.stay()
            },
            SenderState::AwaitingAck => if !elapsed(now, self.last_activity, config.idle_timeout) {
                self.stay()
            } else if self.rounds >= config.max_rounds {
                self.abort(Cause::Timeout)
            } else {
                (
                    SenderView { rounds: (self.rounds + 1) as u32, last_activity: now, ..self },
                    seq![MessageView::Metadata(self.hash.unwrap(), self.num_chunks)],
                )
            },
            _ => self.stay(),
        }
    }

    /// The peer asks for ranges of chunks. An empty list asks for nothing; a list that
    /// is out of order, or reaches beyond the file, breaks the rules. While a push is
    /// under way, the ranges wait for its end.
    pub open spec fn asked(self, ranges: Seq<(u32, u32)>, now: u64) -> SenderStep {
        if !well_formed(ranges, self.num_chunks) {
            self.abort(Cause::ProtocolViolation)
        } else if ranges.len() == 0 {
            self.stay()
        } else if self.state is Pushing {
            (SenderView { waiting: ranges, ..self }, Seq::empty())
        } else {
            (
                SenderView {
                    state: SenderState::Pushing,
                    queue: ranges,
                    last_activity: now,
                    ..self
                },
                Seq::empty(),
            )
        }
    }

    /// A message arrives.
    pub open spec fn inbound(self, message: MessageView, now: u64) -> SenderStep {
        let open = self.state is Pushing || self.state is AwaitingAck;
        match message {
            MessageView::Failure(channel_id, _) => if channel_id == self.channel_id {
                (
                    SenderView { state: SenderState::Failed(ErrorKind::PeerFailure), ..self },
                    Seq::empty(),
                )
            } else {
                self.stay()
            },
            MessageView::ACK(hash) => if open && self.hash == Some(hash) {
                (SenderView { state: SenderState::Complete, ..self }, Seq::empty())
            } else {
                self.stay()
            },
            MessageView::NAK(hash, ranges) => if open && self.hash == Some(hash) {
                self.asked(
                    match ranges {
                        Some(list) => list,
                        None => Seq::empty(),
                    },
                    now,
                )
            } else {
                self.stay()
            },
            MessageView::Sync(hash) => if open && self.hash == Some(hash) {
                (self, seq![MessageView::Metadata(hash, self.num_chunks)])
            } else {
                self.stay()
            },
            _ => self.stay(),
        }
    }

    /// One step of the session: a session that is over stays as it is and sends nothing.
    pub open spec fn step(self, store: StoreView, config: Config, event: SenderEventView)
        -> SenderStep {
        if self.terminal() {
            self.stay()
        } else {
            match event {
                SenderEventView::Inbound(message, now) => self.inbound(message, now),
                SenderEventView::Malformed(address, reason) => if self.concerned(address) {
                    self.abort(Cause::BadMessage(reason))
                } else {
                    self.stay()
                },
                SenderEventView::Tick(now) => self.tick(store, config, now),
                SenderEventView::Staged(hash, n, mode, now) => self.staged(hash, n, mode, now),
                SenderEventView::Fault => self.fault(config),
                SenderEventView::Cancel => self.abort(Cause::Canceled),
            }
        }
    }
}

impl View for Sender {
    type V = SenderView;

    closed spec fn view(&self) -> SenderView {
        SenderView {
            channel_id: self.channel_id,
            origin: self.origin,
            source_path: self.source_path@,
            target_path: self.target_path@,
            hash: match self.hash {
                Some(hash) => Some(hash@),
                None => None,
            },
            num_chunks: self.num_chunks,
            mode: self.mode,
            state: self.state,
            queue: self.queue@,
            waiting: self.waiting@,
            rounds: self.rounds,
            io_faults: self.io_faults,
            last_activity: self.last_activity,
            last_chunk: self.last_chunk,
        }
    }
}

impl Sender {
    /// Opens the session for an export of this side: the file at `source_path` is to be
    /// staged, and the peer is then asked to save it under `target_path`. Channel 0 is
    /// reserved and turned down.
    pub fn export(channel_id: u64, source_path: String, target_path: String, now: u64) -> (r:
        Result<Sender, ErrorKind>)
        ensures
            match r {
                Ok(sender) => channel_id != 0 && sender@ == Self::opened(
                    channel_id,
                    Origin::Export,
                    source_path@,
                    target_path@,
                    now,
                ) && sender@.wf(),
                Err(e) => channel_id == 0 && e == ErrorKind::ProtocolViolation,
            },
    {
        if channel_id == 0 {
            return Err(ErrorKind::ProtocolViolation);
        }
        Ok(
            Sender {
                channel_id,
                origin: Origin::Export,
                source_path,
                target_path,
                hash: None,
                num_chunks: 0,
                mode: None,
                state: SenderState::Staging,
                queue: Vec::new(),
                waiting: Vec::new(),
                rounds: 0,
                io_faults: 0,
                last_activity: now,
                last_chunk: None,
            },
        )
    }

    /// Opens the session for an import that the peer asked for: the file at
    /// `source_path` is to be staged. Channel 0 is reserved and turned down.
    pub fn serve(channel_id: u64, source_path: String, now: u64) -> (r: Result<Sender, ErrorKind>)
        ensures
            match r {
                Ok(sender) => channel_id != 0 && sender@ == Self::opened(
                    channel_id,
                    Origin::Import,
                    source_path@,
                    Seq::empty(),
                    now,
                ) && sender@.wf(),
                Err(e) => channel_id == 0 && e == ErrorKind::ProtocolViolation,
            },
    {
        if channel_id == 0 {
            return Err(ErrorKind::ProtocolViolation);
        }
        Ok(
            Sender {
                channel_id,
                origin: Origin::Import,
                source_path,
                target_path: String::new(),
                hash: None,
                num_chunks: 0,
                mode: None,
                state: SenderState::Staging,
                queue: Vec::new(),
                waiting: Vec::new(),
                rounds: 0,
                io_faults: 0,
                last_activity: now,
                last_chunk: None,
            },
        )
    }

    /// A session at its start: the file is being staged.
    pub open spec fn opened(
        channel_id: u64,
        origin: Origin,
        source_path: Seq<char>,
        target_path: Seq<char>,
        now: u64,
    ) -> SenderView {
        SenderView {
            channel_id,
            origin,
            source_path,
            target_path,
            hash: None,
            num_chunks: 0,
            mode: None,
            state: SenderState::Staging,
            queue: Seq::empty(),
            waiting: Seq::empty(),
            rounds: 0,
            io_faults: 0,
            last_activity: now,
            last_chunk: None,
        }
    }

    /// Where the file to send stands on this side.
    pub fn source_path(&self) -> (r: &String)
        ensures
            r@ == self@.source_path,
    {
        &self.source_path
    }

    /// Where the peer is to save an exported file.
    pub fn target_path(&self) -> (r: &String)
        ensures
            r@ == self@.target_path,
    {
        &self.target_path
    }

    /// Where the session stands.
    pub fn state(&self) -> (r: SenderState)
        ensures
            r == self@.state,
    {
        self.state
    }

    /// The channel of the session.
    pub fn channel_id(&self) -> (r: u64)
        ensures
            r == self@.channel_id,
    {
        self.channel_id
    }

    /// Whether the session is over.
    pub fn is_terminal(&self) -> (r: bool)
        ensures
            r == self@.terminal(),
    {
        match self.state {
            SenderState::Complete => true,
            SenderState::Failed(_) => true,
            _ => false,
        }
    }

    /// Whether chunks are going out or the peer's verdict is awaited.
    fn is_open(&self) -> (r: bool)
        ensures
            r == (self@.state is Pushing || self@.state is AwaitingAck),
    {
        match self.state {
            SenderState::Pushing => true,
            SenderState::AwaitingAck => true,
            _ => false,
        }
    }

    /// Whether `hash` is the hash of this session.
    fn is_for(&self, hash: &String) -> (r: bool)
        ensures
            r == (self@.hash == Some(hash@)),
    {
        match &self.hash {
            Some(own) => same_text(own.as_str(), hash.as_str()),
            None => false,
        }
    }

    /// Whether a message with this address is meant for this session.
    fn is_concerned(&self, address: &Address) -> (r: bool)
        ensures
            r == self@.concerned(address@),
    {
        match address {
            Address::Channel(channel_id) => *channel_id == self.channel_id,
            Address::Hash(hash) => self.is_for(hash),
            Address::Nobody => false,
        }
    }

    /// A copy of the hash of the session.
    fn own_hash(&self) -> (r: String)
        requires
            self@.hash is Some,
        ensures
            Some(r@) == self@.hash,
    {
        match &self.hash {
            Some(own) => own.clone(),
            None => String::new(),
        }
    }

    fn abort(&mut self, cause: Cause) -> (r: Vec<Message>)
        requires
            old(self)@.wf(),
            !old(self)@.terminal(),
        ensures
            final(self)@.wf(),
            (final(self)@, message_views(r@)) == old(self)@.abort(cause),
    {
        self.state = SenderState::Failed(cause.kind());
        one(Message::Failure(self.channel_id, cause.reason()))
    }

    fn fault(&mut self, config: &Config) -> (r: Vec<Message>)
        requires
            old(self)@.wf(),
            !old(self)@.terminal(),
        ensures
            final(self)@.wf(),
            (final(self)@, message_views(r@)) == old(self)@.fault(*config),
    {
        if self.io_faults >= config.max_io_retries {
            self.abort(Cause::IoFault)
        } else {
            self.io_faults = self.io_faults + 1;
            nothing()
        }
    }

    fn staged(&mut self, hash: String, n: u32, mode: Option<u32>, now: u64) -> (r: Vec<Message>)
        requires
            old(self)@.wf(),
            !old(self)@.terminal(),
        ensures
            final(self)@.wf(),
            (final(self)@, message_views(r@)) == old(self)@.staged(hash@, n, mode, now),
    {
        match self.state {
            SenderState::Staging => {},
            _ => {
                return nothing();
            },
        }
        let opening = match self.origin {
            Origin::Export => Message::ReqReceive(
                self.channel_id,
                hash.clone(),
                self.target_path.clone(),
                mode,
            ),
            Origin::Import => Message::SuccessTransmit(self.channel_id, hash.clone(), n, mode),
        };
        self.hash = Some(hash);
        self.num_chunks = n;
        self.mode = mode;
        self.last_activity = now;
        let mut queue: Vec<(u32, u32)> = Vec::new();
        if n > 0 {
            queue.push((0, n - 1));
            self.state = SenderState::Pushing;
        } else {
            self.state = SenderState::AwaitingAck;
        }
        proof {
            assert(queue@ =~= if n > 0 {
                seq![(0u32, (n - 1) as u32)]
            } else {
                Seq::empty()
            });
        }
        self.queue = queue;
        self.waiting = Vec::new();
        one(opening)
    }

    fn push(&mut self, store: &ContentStore, config: &Config, now: u64) -> (r: Vec<Message>)
        requires
            old(self)@.wf(),
            old(self)@.state is Pushing,
            store.wf(),
        ensures
            final(self)@.wf(),
            (final(self)@, message_views(r@)) == old(self)@.push(store@, *config, now),
    {
        let hash = self.own_hash();
        let (first, last) = self.queue[0];
        let data = match store.chunk(hash.as_str(), first) {
            Some(bytes) => copy_bytes(bytes),
            None => {
                return self.fault(config);
            },
        };
        let ghost before = self.queue@;
        if first == last {
            self.queue.remove(0);
            proof {
                assert(self.queue@ =~= before.drop_first());
            }
        } else {
            self.queue.set(0, (first + 1, last));
        }
        proof {
            let rest = SenderView::advanced(before);
            assert(self.queue@ == rest);
            assert(well_formed(rest, self.num_chunks)) by {
                if first == last {
                    assert forall|k: int| 0 <= k < rest.len() implies (#[trigger] rest[k]).0
                        <= rest[k].1 < self.num_chunks by {
                        assert(rest[k] == before[k + 1]);
                    }
                    assert forall|j: int, k: int| 0 <= j < k < rest.len() implies (
                    #[trigger] rest[j]).1 < (#[trigger] rest[k]).0 by {
                        assert(rest[j] == before[j + 1]);
                        assert(rest[k] == before[k + 1]);
                    }
                } else {
                    assert forall|k: int| 0 <= k < rest.len() implies (#[trigger] rest[k]).0
                        <= rest[k].1 < self.num_chunks by {
                        if k > 0 {
                            assert(rest[k] == before[k]);
                        }
                    }
                    assert forall|j: int, k: int| 0 <= j < k < rest.len() implies (
                    #[trigger] rest[j]).1 < (#[trigger] rest[k]).0 by {
                        assert(rest[k] == before[k]);
                        assert(rest[j].1 == before[j].1);
                    }
                }
            }
        }
        self.last_activity = now;
        self.last_chunk = Some(now);
        if self.queue.len() == 0 {
            if self.waiting.len() > 0 {
                std::mem::swap(&mut self.queue, &mut self.waiting);
                proof {
                    assert(self.waiting@ =~= Seq::<(u32, u32)>::empty());
                }
            } else {
                self.state = SenderState::AwaitingAck;
            }
        }
        one(Message::ReceiveChunk(hash, first, data))
    }

    fn tick(&mut self, store: &ContentStore, config: &Config, now: u64) -> (r: Vec<Message>)
        requires
            old(self)@.wf(),
            !old(self)@.terminal(),
            store.wf(),
        ensures
            final(self)@.wf(),
            (final(self)@, message_views(r@)) == old(self)@.tick(store@, *config, now),
    {
        match self.state {
            SenderState::Pushing => {
                let due = match self.last_chunk {
                    Some(last) => has_elapsed(now, last, config.chunk_interval),
                    None => true,
                };
                if due {
                    self.push(store, config, now)
                } else {
                    nothing()
                }
            },
            SenderState::AwaitingAck => {
                if !has_elapsed(now, self.last_activity, config.idle_timeout) {
                    nothing()
                } else if self.rounds >= config.max_rounds {
                    self.abort(Cause::Timeout)
                } else {
                    self.rounds = self.rounds + 1;
                    self.last_activity = now;
                    one(Message::Metadata(self.own_hash(), self.num_chunks))
                }
            },
            _ => nothing(),
        }
    }

    fn asked(&mut self, ranges: Vec<(u32, u32)>, now: u64) -> (r: Vec<Message>)
        requires
            old(self)@.wf(),
            old(self)@.state is Pushing || old(self)@.state is AwaitingAck,
        ensures
            final(self)@.wf(),
            (final(self)@, message_views(r@)) == old(self)@.asked(ranges@, now),
    {
        if !are_well_formed(&ranges, self.num_chunks) {
            return self.abort(Cause::ProtocolViolation);
        }
        if ranges.len() == 0 {
            return nothing();
        }
        match self.state {
            SenderState::Pushing => {
                self.waiting = ranges;
            },
            _ => {
                self.state = SenderState::Pushing;
                self.queue = ranges;
                self.last_activity = now;
            },
        }
        nothing()
    }

    fn inbound(&mut self, message: Message, now: u64) -> (r: Vec<Message>)
        requires
            old(self)@.wf(),
            !old(self)@.terminal(),
        ensures
            final(self)@.wf(),
            (final(self)@, message_views(r@)) == old(self)@.inbound(message@, now),
    {
        let open = self.is_open();
        match message {
            Message::Failure(channel_id, _) => {
                if channel_id == self.channel_id {
                    self.state = SenderState::Failed(ErrorKind::PeerFailure);
                }
                nothing()
            },
            Message::ACK(hash) => {
                if open && self.is_for(&hash) {
                    self.state = SenderState::Complete;
                }
                nothing()
            },
            Message::NAK(hash, ranges) => {
                if open && self.is_for(&hash) {
                    match ranges {
                        Some(list) => self.asked(list, now),
                        None => self.asked(Vec::new(), now),
                    }
                } else {
                    nothing()
                }
            },
            Message::Sync(hash) => {
                if open && self.is_for(&hash) {
                    one(Message::Metadata(hash, self.num_chunks))
                } else {
                    nothing()
                }
            },
            _ => nothing(),
        }
    }

    /// Takes one event and answers with the messages to send.
    ///
    /// A session that is over ignores every event.
    pub fn step(&mut self, store: &ContentStore, config: &Config, event: SenderEvent) -> (r: Vec<
        Message,
    >)
        requires
            old(self)@.wf(),
            store.wf(),
        ensures
            final(self)@.wf(),
            (final(self)@, message_views(r@)) == old(self)@.step(store@, *config, event@),
    {
        if self.is_terminal() {
            return nothing();
        }
        match event {
            SenderEvent::Inbound(message, now) => self.inbound(message, now),
            SenderEvent::Malformed(address, reason) => {
                if self.is_concerned(&address) {
                    self.abort(Cause::BadMessage(reason))
                } else {
                    nothing()
                }
            },
            SenderEvent::Tick(now) => self.tick(store, config, now),
            SenderEvent::Staged(hash, n, mode, now) => self.staged(hash, n, mode, now),
            SenderEvent::Fault => self.fault(config),
            SenderEvent::Cancel => self.abort(Cause::Canceled),
        }
    }
}

/// A session that is over stays as it is and sends nothing.
pub proof fn lemma_sender_terminal_is_final(
    session: SenderView,
    store: StoreView,
    config: Config,
    event: SenderEventView,
)
    requires
        session.terminal(),
    ensures
        session.step(store, config, event) == (session, Seq::<MessageView>::empty()),
{
}

/// A sending session completes on the peer's ACK for its hash and in no other way.
pub proof fn lemma_sender_completes_on_ack(
    session: SenderView,
    store: StoreView,
    config: Config,
    event: SenderEventView,
)
    requires
        !(session.state is Complete),
        session.step(store, config, event).0.state is Complete,
    ensures
        session.state is Pushing || session.state is AwaitingAck,
        event matches SenderEventView::Inbound(MessageView::ACK(hash), _) && session.hash == Some(
            hash,
        ),
{
}

/// A session that gives up tells the peer so exactly once: the step into failure sends
/// one failure report on the channel and nothing else, unless it was the peer that
/// reported the failure.
pub proof fn lemma_sender_abort_reports_once(
    session: SenderView,
    store: StoreView,
    config: Config,
    event: SenderEventView,
)
    requires
        !session.terminal(),
        session.step(store, config, event).0.state matches SenderState::Failed(kind) && kind
            != ErrorKind::PeerFailure,
    ensures
        session.step(store, config, event).1.len() == 1,
        session.step(store, config, event).1[0] matches MessageView::Failure(channel_id, _)
            && channel_id == session.channel_id,
{
}

/// A chunk goes out only from a push, one at a time, and it is the first chunk of the
/// queue, read from the store under the session's hash.
pub proof fn lemma_chunks_come_from_the_queue(
    session: SenderView,
    store: StoreView,
    config: Config,
    event: SenderEventView,
    k: int,
)
    requires
        session.wf(),
        0 <= k < session.step(store, config, event).1.len(),
        session.step(store, config, event).1[k] is ReceiveChunk,
    ensures
        session.state is Pushing,
        event is Tick,
        session.step(store, config, event).1 == seq![
            MessageView::ReceiveChunk(
                session.hash.unwrap(),
                session.queue[0].0,
                entry_of(store, session.hash.unwrap()).chunks[session.queue[0].0],
            ),
        ],
{
}

/// Within one push the chunk indices ascend: what is left of the queue after a chunk
/// has gone out lies above that chunk.
pub proof fn lemma_push_ascends(session: SenderView, store: StoreView, config: Config, now: u64)
    requires
        session.wf(),
        session.state is Pushing,
        SenderView::advanced(session.queue).len() > 0,
        entry_of(store, session.hash.unwrap()).chunks.contains_key(session.queue[0].0),
    ensures
        session.push(store, config, now).0.queue == SenderView::advanced(session.queue),
        forall|k: int|
            0 <= k < session.push(store, config, now).0.queue.len() ==> session.queue[0].0 < (
            #[trigger] session.push(store, config, now).0.queue[k]).0,
{
    let rest = SenderView::advanced(session.queue);
    assert forall|k: int| 0 <= k < rest.len() implies session.queue[0].0 < (#[trigger] rest[k]).0 by {
        if session.queue[0].0 == session.queue[0].1 {
            assert(rest[k] == session.queue[k + 1]);
        } else if k > 0 {
            assert(rest[k] == session.queue[k]);
        }
    }
}

/// What the peer asks for while its verdict is awaited is what the next push sends: the
/// ranges of the NAK, in the order in which they came.
pub proof fn lemma_retransmission_follows_the_nak(
    session: SenderView,
    hash: Seq<char>,
    ranges: Seq<(u32, u32)>,
    now: u64,
)
    requires
        session.state is AwaitingAck,
        session.hash == Some(hash),
        well_formed(ranges, session.num_chunks),
        ranges.len() > 0,
    ensures
        session.inbound(MessageView::NAK(hash, Some(ranges)), now).0.state is Pushing,
        session.inbound(MessageView::NAK(hash, Some(ranges)), now).0.queue == ranges,
        session.inbound(MessageView::NAK(hash, Some(ranges)), now).1.len() == 0,
{
}

/// A NAK that arrives during a push leaves the push as it is: the ranges wait, and the
/// chunks queued go out first.
pub proof fn lemma_nak_waits_for_the_push(
    session: SenderView,
    hash: Seq<char>,
    ranges: Seq<(u32, u32)>,
    now: u64,
)
    requires
        session.state is Pushing,
        session.hash == Some(hash),
        well_formed(ranges, session.num_chunks),
        ranges.len() > 0,
    ensures
        session.inbound(MessageView::NAK(hash, Some(ranges)), now).0 == (SenderView {
            waiting: ranges,
            ..session
        }),
        session.inbound(MessageView::NAK(hash, Some(ranges)), now).1.len() == 0,
{
}

/// Whatever a sending session sends is recognized, once it has crossed the wire, as
/// the message that was sent.
pub proof fn lemma_sender_is_understood(
    session: SenderView,
    store: StoreView,
    config: Config,
    event: SenderEventView,
    k: int,
)
    requires
        0 <= k < session.step(store, config, event).1.len(),
    ensures
        crate::parsers::message_shape(session.step(store, config, event).1[k].wire()) == Ok::<
            MessageView,
            crate::parsers::ParseError,
        >(session.step(store, config, event).1[k]),
{
    let sent = session.step(store, config, event).1[k];
    assert(sent.plain());
    crate::parsers::lemma_recognition_inverts_wire(sent);
}

/// A session stays on its channel.
pub proof fn lemma_sender_keeps_its_channel(
    session: SenderView,
    store: StoreView,
    config: Config,
    event: SenderEventView,
)
    ensures
        session.step(store, config, event).0.channel_id == session.channel_id,
{
}

} // verus!
