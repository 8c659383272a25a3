//! The receiving side of a transfer: one session that takes the chunks of one file.
//!
//! A session is a state machine. It is fed what arrives on its channel, the ticks of a
//! clock and the digest of the file once all chunks are in; it answers with the
//! messages to send. Reading the wire, keeping time and computing digests are the
//! host's part.

use vstd::prelude::*;
use crate::entry::same_text;
use crate::error::{Cause, ErrorKind, StoreError};
use crate::message::{message_views, nothing, one, two, Message, MessageView};
use crate::parsers::{Address, AddressView, Malformation};
use crate::ranges::gaps;
use crate::session::{elapsed, has_elapsed, Config, Origin};
use crate::store::{entry_of, ContentStore, StoreView};

verus! {

/// Where a receiving session stands.
#[derive(Copy, Clone, Debug, PartialEq, Eq)]
pub enum ReceiverState {
    /// The transfer is announced or asked for; the number of chunks is awaited.
    AwaitingMetadata,
    /// Chunks are coming in.
    Receiving,
    /// Every chunk is in; the digest of the file is awaited.
    Verifying,
    /// The file is in and verified.
    Complete,
    /// The session was given up.
    Failed(ErrorKind),
    /// Nothing came in after the transfer was announced or asked for.
    Timeout,
}

/// What a receiving session is fed.
#[derive(Debug, PartialEq)]
pub enum ReceiverEvent {
    /// A message arrived, at the given time.
    Inbound(Message, u64),
    /// A message announced a form and did not complete it; the address says whom it
    /// was meant for.
    Malformed(Address, Malformation),
    /// The clock shows the given time.
    Tick(u64),
    /// The digest of the file, computed over the chunks in the store.
    Digest(String),
    /// The content store could not read or write.
    Fault,
    /// This side gives the transfer up.
    Cancel,
}

/// The mathematical model of a [`ReceiverEvent`].
pub enum ReceiverEventView {
    Inbound(MessageView, u64),
    Malformed(AddressView, Malformation),
    Tick(u64),
    Digest(Seq<char>),
    Fault,
    Cancel,
}

impl View for ReceiverEvent {
    type V = ReceiverEventView;

    open spec fn view(&self) -> ReceiverEventView {
        match self {
            ReceiverEvent::Inbound(message, now) => ReceiverEventView::Inbound(message@, *now),
            ReceiverEvent::Malformed(address, reason) => ReceiverEventView::Malformed(
                address@,
                *reason,
            ),
            ReceiverEvent::Tick(now) => ReceiverEventView::Tick(*now),
            ReceiverEvent::Digest(digest) => ReceiverEventView::Digest(digest@),
            ReceiverEvent::Fault => ReceiverEventView::Fault,
            ReceiverEvent::Cancel => ReceiverEventView::Cancel,
        }
    }
}

/// One receiving session.
pub struct Receiver {
    channel_id: u64,
    origin: Origin,
    hash: Option<String>,
    target_path: String,
    mode: Option<u32>,
    num_chunks: Option<u32>,
    state: ReceiverState,
    naks_sent: u32,
    io_faults: u32,
    last_activity: u64,
}

/// The mathematical model of a [`Receiver`].
pub struct ReceiverView {
    /// The channel of the session; never 0.
    pub channel_id: u64,
    /// How the session came about.
    pub origin: Origin,
    /// The hash of the file, once it is known.
    pub hash: Option<Seq<char>>,
    /// Where the file is to be saved once it is in.
    pub target_path: Seq<char>,
    /// The permission bits of the file, where they are known.
    pub mode: Option<u32>,
    /// The number of chunks of the file, once it is known.
    pub num_chunks: Option<u32>,
    /// Where the session stands.
    pub state: ReceiverState,
    /// How often missing chunks have been asked for.
    pub naks_sent: u32,
    /// How often the content store has failed.
    pub io_faults: u32,
    /// When the session last made progress.
    pub last_activity: u64,
}

/// What a step of a receiving session leaves behind: the session, the store and the
/// messages to send.
pub type ReceiverStep = (ReceiverView, StoreView, Seq<MessageView>);

impl ReceiverView {
    /// The session is over.
    pub open spec fn terminal(self) -> bool {
        self.state is Complete || self.state is Failed || self.state is Timeout
    }

    /// The channel is never 0. A session knows its hash, unless it waits for the answer
    /// to an import request, and it knows the number of chunks when it verifies.
    pub open spec fn wf(self) -> bool {
        &&& self.channel_id != 0
        &&& (self.state is Receiving || self.state is Verifying) ==> self.hash is Some
        &&& self.origin is Export ==> self.hash is Some
        &&& self.state is Verifying ==> self.num_chunks is Some
    }

    /// Whether a message with this address is meant for this session: it names the
    /// channel or the hash of the session.
    pub open spec fn concerned(self, address: AddressView) -> bool {
        match address {
            AddressView::Channel(channel_id) => channel_id == self.channel_id,
            AddressView::Hash(hash) => self.hash == Some(hash),
            AddressView::Nobody => false,
        }
    }

    /// Nothing happens.
    pub open spec fn stay(self, store: StoreView) -> ReceiverStep {
        (self, store, Seq::empty())
    }

    /// The session is given up: the peer is told why, once.
    pub open spec fn abort(self, store: StoreView, cause: Cause) -> ReceiverStep {
        (
            ReceiverView { state: ReceiverState::Failed(cause.spec_kind()), ..self },
            store,
            seq![MessageView::Failure(self.channel_id, cause.text())],
        )
    }

    /// The content store failed: the session bears with it as often as the limits say,
    /// and gives up then.
    pub open spec fn fault(self, store: StoreView, config: Config) -> ReceiverStep {
        if self.io_faults >= config.max_io_retries {
            self.abort(store, Cause::IoFault)
        } else {
            (ReceiverView { io_faults: (self.io_faults + 1) as u32, ..self }, store, Seq::empty())
        }
    }

    /// Something was stored for the file: the session receives, or verifies where no
    /// chunk is missing any more.
    pub open spec fn settle(self, store: StoreView, now: u64) -> ReceiverStep {
        let entry = entry_of(store, self.hash.unwrap());
        (
            ReceiverView {
                state: if entry.complete() {
                    ReceiverState::Verifying
                } else {
                    ReceiverState::Receiving
                },
                num_chunks: entry.num_chunks,
                last_activity: now,
                ..self
            },
            store,
            Seq::empty(),
        )
    }

    /// The number of chunks is announced. The first announcement starts the wait for
    /// chunks; a later one leaves the time of the last progress as it is, so that
    /// announcements alone do not keep a session from asking for what it misses.
    pub open spec fn announce(self, store: StoreView, n: u32, now: u64) -> ReceiverStep {
        let hash = self.hash.unwrap();
        match entry_of(store, hash).describe(n, self.mode) {
            Ok(entry) => self.settle(
                store.insert(hash, entry),
                if self.state is AwaitingMetadata {
                    now
                } else {
                    self.last_activity
                },
            ),
            Err(_) => self.abort(store, Cause::ProtocolViolation),
        }
    }

    /// A chunk of the file arrives. One whose index is out of range is dropped.
    pub open spec fn take_chunk(self, store: StoreView, index: u32, data: Seq<u8>, now: u64)
        -> ReceiverStep {
        let hash = self.hash.unwrap();
        match entry_of(store, hash).put(index, data) {
            Ok(entry) => self.settle(store.insert(hash, entry), now),
            Err(StoreError::IndexOutOfRange) => self.stay(store),
            Err(_) => self.abort(store, Cause::HashCollision),
        }
    }

    /// A message arrives.
    pub open spec fn inbound(self, store: StoreView, message: MessageView, now: u64)
        -> ReceiverStep {
        let open = self.state is AwaitingMetadata || self.state is Receiving;
        match message {
            MessageView::Failure(channel_id, _) => if channel_id == self.channel_id {
                (
                    ReceiverView { state: ReceiverState::Failed(ErrorKind::PeerFailure), ..self },
                    store,
                    Seq::empty(),
                )
            } else {
                self.stay(store)
            },
            MessageView::SuccessTransmit(channel_id, hash, n, mode) => if channel_id
                == self.channel_id && self.origin is Import && self.state is AwaitingMetadata
                && self.hash is None {
                (ReceiverView { hash: Some(hash), mode, ..self }).announce(store, n, now)
            } else {
                self.stay(store)
            },
            MessageView::Metadata(hash, n) => if open && self.hash == Some(hash) {
                self.announce(store, n, now)
            } else {
                self.stay(store)
            },
            MessageView::ReceiveChunk(hash, index, data) => if open && self.hash == Some(hash) {
                self.take_chunk(store, index, data, now)
            } else {
                self.stay(store)
            },
            _ => self.stay(store),
        }
    }

    /// The clock shows `now`.
    pub open spec fn tick(self, store: StoreView, config: Config, now: u64) -> ReceiverStep {
        if !elapsed(now, self.last_activity, config.idle_timeout) {
            self.stay(store)
        } else {
            match self.state {
                ReceiverState::AwaitingMetadata => (
                    ReceiverView { state: ReceiverState::Timeout, ..self },
                    store,
                    Seq::empty(),
                ),
                ReceiverState::Receiving => if self.naks_sent >= config.max_naks {
                    self.abort(store, Cause::Timeout)
                } else {
                    let hash = self.hash.unwrap();
                    (
                        ReceiverView {
                            naks_sent: (self.naks_sent + 1) as u32,
                            last_activity: now,
                            ..self
                        },
                        store,
                        seq![
                            match self.num_chunks {
                                Some(n) => MessageView::NAK(
                                    hash,
                                    Some(gaps(entry_of(store, hash).have(), 0, n)),
                                ),
                                None => MessageView::Sync(hash),
                            },
                        ],
                    )
                },
                _ => self.stay(store),
            }
        }
    }

    /// The report that ends a transfer on the receiving side.
    pub open spec fn success(self) -> MessageView {
        match self.origin {
            Origin::Export => MessageView::SuccessReceive(self.channel_id),
            Origin::Import => MessageView::SuccessTransmit(
                self.channel_id,
                self.hash.unwrap(),
                self.num_chunks.unwrap(),
                self.mode,
            ),
        }
    }

    /// The digest of the file arrives. Where a chunk has gone from the store meanwhile,
    /// the store has failed.
    pub open spec fn digest(self, store: StoreView, config: Config, digest: Seq<char>)
        -> ReceiverStep {
        if !(self.state is Verifying) {
            self.stay(store)
        } else {
            let hash = self.hash.unwrap();
            match entry_of(store, hash).check(hash, digest) {
                Ok(()) => (
                    ReceiverView { state: ReceiverState::Complete, ..self },
                    store,
                    seq![self.success(), MessageView::ACK(hash)],
                ),
                Err(StoreError::HashMismatch) => self.abort(store, Cause::HashMismatch),
                Err(_) => self.fault(store, config),
            }
        }
    }

    /// One step of the session: a session that is over stays as it is and sends nothing.
    pub open spec fn step(self, store: StoreView, config: Config, event: ReceiverEventView)
        -> ReceiverStep {
        if self.terminal() {
            self.stay(store)
        } else {
            match event {
                ReceiverEventView::Inbound(message, now) => self.inbound(store, message, now),
                ReceiverEventView::Malformed(address, reason) => if self.concerned(address) {
                    self.abort(store, Cause::BadMessage(reason))
                } else {
                    self.stay(store)
                },
                ReceiverEventView::Tick(now) => self.tick(store, config, now),
                ReceiverEventView::Digest(digest) => self.digest(store, config, digest),
                ReceiverEventView::Fault => self.fault(store, config),
                ReceiverEventView::Cancel => self.abort(store, Cause::Canceled),
            }
        }
    }
}

impl View for Receiver {
    type V = ReceiverView;

    closed spec fn view(&self) -> ReceiverView {
        ReceiverView {
            channel_id: self.channel_id,
            origin: self.origin,
            hash: match self.hash {
                Some(hash) => Some(hash@),
                None => None,
            },
            target_path: self.target_path@,
            mode: self.mode,
            num_chunks: self.num_chunks,
            state: self.state,
            naks_sent: self.naks_sent,
            io_faults: self.io_faults,
            last_activity: self.last_activity,
        }
    }
}

impl Receiver {
    /// A session at its start: the number of chunks is awaited.
    pub open spec fn opened(
        channel_id: u64,
        origin: Origin,
        hash: Option<Seq<char>>,
        target_path: Seq<char>,
        mode: Option<u32>,
        now: u64,
    ) -> ReceiverView {
        ReceiverView {
            channel_id,
            origin,
            hash,
            target_path,
            mode,
            num_chunks: None,
            state: ReceiverState::AwaitingMetadata,
            naks_sent: 0,
            io_faults: 0,
            last_activity: now,
        }
    }

    /// Opens the session for an export that the peer announced: the hash is known, the
    /// number of chunks is asked for, and the file is to be saved under `target_path`.
    /// Channel 0 is reserved and turned down.
    pub fn accept(
        channel_id: u64,
        hash: String,
        target_path: String,
        mode: Option<u32>,
        now: u64,
    ) -> (r: Result<(Receiver, Vec<Message>), ErrorKind>)
        ensures
            match r {
                Ok((receiver, out)) => channel_id != 0 && receiver@ == Self::opened(
                    channel_id,
                    Origin::Export,
                    Some(hash@),
                    target_path@,
                    mode,
                    now,
                ) && receiver@.wf() && message_views(out@) == seq![MessageView::Sync(hash@)],
                Err(e) => channel_id == 0 && e == ErrorKind::ProtocolViolation,
            },
    {
        if channel_id == 0 {
            return Err(ErrorKind::ProtocolViolation);
        }
        let out = one(Message::Sync(hash.clone()));
        let receiver = Receiver {
            channel_id,
            origin: Origin::Export,
            hash: Some(hash),
            target_path,
            mode,
            num_chunks: None,
            state: ReceiverState::AwaitingMetadata,
            naks_sent: 0,
            io_faults: 0,
            last_activity: now,
        };
        Ok((receiver, out))
    }

    /// Opens the session for an import: the peer is asked to send the file at
    /// `source_path`, which is to be saved under `target_path`. Channel 0 is reserved and
    /// turned down.
    pub fn request(channel_id: u64, source_path: String, target_path: String, now: u64) -> (r:
        Result<(Receiver, Vec<Message>), ErrorKind>)
        ensures
            match r {
                Ok((receiver, out)) => channel_id != 0 && receiver@ == Self::opened(
                    channel_id,
                    Origin::Import,
                    None,
                    target_path@,
                    None,
                    now,
                ) && receiver@.wf() && message_views(out@) == seq![
                    MessageView::ReqTransmit(channel_id, source_path@),
                ],
                Err(e) => channel_id == 0 && e == ErrorKind::ProtocolViolation,
            },
    {
        if channel_id == 0 {
            return Err(ErrorKind::ProtocolViolation);
        }
        let out = one(Message::ReqTransmit(channel_id, source_path));
        let receiver = Receiver {
            channel_id,
            origin: Origin::Import,
            hash: None,
            target_path,
            mode: None,
            num_chunks: None,
            state: ReceiverState::AwaitingMetadata,
            naks_sent: 0,
            io_faults: 0,
            last_activity: now,
        };
        Ok((receiver, out))
    }

    /// Where the file is to be saved once it is in.
    pub fn target_path(&self) -> (r: &String)
        ensures
            r@ == self@.target_path,
    {
        &self.target_path
    }

    /// Where the session stands.
    pub fn state(&self) -> (r: ReceiverState)
        ensures
            r == self@.state,
    {
        self.state
    }

    /// The channel of the session.
    pub fn channel_id(&self) -> (r: u64)
        ensures
            r == self@.channel_id,
    {
        self.channel_id
    }

    /// The hash of the file, once it is known.
    pub fn hash(&self) -> (r: Option<&String>)
        ensures
            match r {
                Some(hash) => self@.hash == Some(hash@),
                None => self@.hash is None,
            },
    {
        match &self.hash {
            Some(hash) => Some(hash),
            None => None,
        }
    }

    /// The number of chunks of the file, once it is known.
    pub fn num_chunks(&self) -> (r: Option<u32>)
        ensures
            r == self@.num_chunks,
    {
        self.num_chunks
    }

    /// The permission bits of the file, where they are known.
    pub fn mode(&self) -> (r: Option<u32>)
        ensures
            r == self@.mode,
    {
        self.mode
    }

    /// Whether the session is over.
    pub fn is_terminal(&self) -> (r: bool)
        ensures
            r == self@.terminal(),
    {
        match self.state {
            ReceiverState::Complete => true,
            ReceiverState::Failed(_) => true,
            ReceiverState::Timeout => true,
            _ => false,
        }
    }

    /// Whether `hash` is the hash of this session.
    fn is_for(&self, hash: &String) -> (r: bool)
        ensures
            r == (self@.hash == Some(hash@)),
    {
        match &self.hash {
            Some(own) => same_text(own.as_str(), hash.as_str()),
            None => false,
        }
    }

    /// Whether a message with this address is meant for this session.
    fn is_concerned(&self, address: &Address) -> (r: bool)
        ensures
            r == self@.concerned(address@),
    {
        match address {
            Address::Channel(channel_id) => *channel_id == self.channel_id,
            Address::Hash(hash) => self.is_for(hash),
            Address::Nobody => false,
        }
    }

    /// A copy of the hash of the session.
    fn own_hash(&self) -> (r: String)
        requires
            self@.hash is Some,
        ensures
            Some(r@) == self@.hash,
    {
        match &self.hash {
            Some(own) => own.clone(),
            None => String::new(),
        }
    }

    fn abort(&mut self, cause: Cause) -> (r: Vec<Message>)
        requires
            old(self)@.wf(),
        ensures
            final(self)@.wf(),
            forall|store: StoreView|
                (final(self)@, store, message_views(r@)) == #[trigger] old(self)@.abort(store, cause),
    {
        self.state = ReceiverState::Failed(cause.kind());
        one(Message::Failure(self.channel_id, cause.reason()))
    }

    fn fault(&mut self, config: &Config) -> (r: Vec<Message>)
        requires
            old(self)@.wf(),
        ensures
            final(self)@.wf(),
            forall|store: StoreView|
                (final(self)@, store, message_views(r@)) == #[trigger] old(self)@.fault(
                    store,
                    *config,
                ),
    {
        if self.io_faults >= config.max_io_retries {
            self.abort(Cause::IoFault)
        } else {
            self.io_faults = self.io_faults + 1;
            nothing()
        }
    }

    fn settle(&mut self, store: &ContentStore, now: u64) -> (r: Vec<Message>)
        requires
            old(self)@.wf(),
            old(self)@.hash is Some,
            store.wf(),
        ensures
            final(self)@.wf(),
            (final(self)@, store@, message_views(r@)) == old(self)@.settle(store@, now),
    {
        let hash = self.own_hash();
        self.num_chunks = store.num_chunks(hash.as_str());
        self.last_activity = now;
        if store.is_complete(hash.as_str()) {
            self.state = ReceiverState::Verifying;
        } else {
            self.state = ReceiverState::Receiving;
        }
        nothing()
    }

    fn announce(&mut self, store: &mut ContentStore, n: u32, now: u64) -> (r: Vec<Message>)
        requires
            old(self)@.wf(),
            old(self)@.hash is Some,
            old(store).wf(),
        ensures
            final(self)@.wf(),
            final(store).wf(),
            (final(self)@, final(store)@, message_views(r@)) == old(self)@.announce(
                old(store)@,
                n,
                now,
            ),
    {
        let hash = self.own_hash();
        let since = match self.state {
            ReceiverState::AwaitingMetadata => now,
            _ => self.last_activity,
        };
        match store.describe(hash.as_str(), n, self.mode) {
            Ok(()) => self.settle(store, since),
            Err(_) => self.abort(Cause::ProtocolViolation),
        }
    }

    fn take_chunk(&mut self, store: &mut ContentStore, index: u32, data: Vec<u8>, now: u64) -> (r:
        Vec<Message>)
        requires
            old(self)@.wf(),
            old(self)@.hash is Some,
            old(store).wf(),
        ensures
            final(self)@.wf(),
            final(store).wf(),
            (final(self)@, final(store)@, message_views(r@)) == old(self)@.take_chunk(
                old(store)@,
                index,
                data@,
                now,
            ),
    {
        let hash = self.own_hash();
        match store.put_chunk(hash.as_str(), index, data) {
            Ok(()) => self.settle(store, now),
            Err(StoreError::IndexOutOfRange) => nothing(),
            Err(_) => self.abort(Cause::HashCollision),
        }
    }

    fn inbound(&mut self, store: &mut ContentStore, message: Message, now: u64) -> (r: Vec<
        Message,
    >)
        requires
            old(self)@.wf(),
            !old(self)@.terminal(),
            old(store).wf(),
        ensures
            final(self)@.wf(),
            final(store).wf(),
            (final(self)@, final(store)@, message_views(r@)) == old(self)@.inbound(
                old(store)@,
                message@,
                now,
            ),
    {
        let open = match self.state {
            ReceiverState::AwaitingMetadata => true,
            ReceiverState::Receiving => true,
            _ => false,
        };
        match message {
            Message::Failure(channel_id, _) => {
                if channel_id == self.channel_id {
                    self.state = ReceiverState::Failed(ErrorKind::PeerFailure);
                }
                nothing()
            },
            Message::SuccessTransmit(channel_id, hash, n, mode) => {
                let awaited = match self.state {
                    ReceiverState::AwaitingMetadata => true,
                    _ => false,
                };
                let imported = match self.origin {
                    Origin::Import => true,
                    Origin::Export => false,
                };
                if channel_id == self.channel_id && imported && awaited && self.hash.is_none() {
                    self.hash = Some(hash);
                    self.mode = mode;
                    self.announce(store, n, now)
                } else {
                    nothing()
                }
            },
            Message::Metadata(hash, n) => {
                if open && self.is_for(&hash) {
                    self.announce(store, n, now)
                } else {
                    nothing()
                }
            },
            Message::ReceiveChunk(hash, index, data) => {
                if open && self.is_for(&hash) {
                    self.take_chunk(store, index, data, now)
                } else {
                    nothing()
                }
            },
            _ => nothing(),
        }
    }

    fn tick(&mut self, store: &ContentStore, config: &Config, now: u64) -> (r: Vec<Message>)
        requires
            old(self)@.wf(),
            !old(self)@.terminal(),
            store.wf(),
        ensures
            final(self)@.wf(),
            (final(self)@, store@, message_views(r@)) == old(self)@.tick(store@, *config, now),
    {
        if !has_elapsed(now, self.last_activity, config.idle_timeout) {
            return nothing();
        }
        match self.state {
            ReceiverState::AwaitingMetadata => {
                self.state = ReceiverState::Timeout;
                nothing()
            },
            ReceiverState::Receiving => {
                if self.naks_sent >= config.max_naks {
                    self.abort(Cause::Timeout)
                } else {
                    let hash = self.own_hash();
                    let ask = match self.num_chunks {
                        Some(n) => {
                            let ranges = store.missing_ranges(hash.as_str(), n);
                            Message::NAK(hash, Some(ranges))
                        },
                        None => Message::Sync(hash),
                    };
                    self.naks_sent = self.naks_sent + 1;
                    self.last_activity = now;
                    one(ask)
                }
            },
            _ => nothing(),
        }
    }

    fn digest(&mut self, store: &ContentStore, config: &Config, digest: String) -> (r: Vec<
        Message,
    >)
        requires
            old(self)@.wf(),
            !old(self)@.terminal(),
            store.wf(),
        ensures
            final(self)@.wf(),
            (final(self)@, store@, message_views(r@)) == old(self)@.digest(
                store@,
                *config,
                digest@,
            ),
    {
        match self.state {
            ReceiverState::Verifying => {},
            _ => {
                return nothing();
            },
        }
        let hash = self.own_hash();
        match store.check(hash.as_str(), digest.as_str()) {
            Ok(()) => {
                proof {
                    assert(entry_of(store@, hash@).complete());
                }
                let success = match self.origin {
                    Origin::Export => Message::SuccessReceive(self.channel_id),
                    Origin::Import => Message::SuccessTransmit(
                        self.channel_id,
                        hash.clone(),
                        match self.num_chunks {
                            Some(n) => n,
                            None => 0,
                        },
                        self.mode,
                    ),
                };
                self.state = ReceiverState::Complete;
                two(success, Message::ACK(hash))
            },
            Err(StoreError::HashMismatch) => self.abort(Cause::HashMismatch),
            Err(_) => self.fault(config),
        }
    }

    /// Takes one event and answers with the messages to send.
    ///
    /// A session that is over ignores every event.
    pub fn step(&mut self, store: &mut ContentStore, config: &Config, event: ReceiverEvent) -> (r:
        Vec<Message>)
        requires
            old(self)@.wf(),
            old(store).wf(),
        ensures
            final(self)@.wf(),
            final(store).wf(),
            (final(self)@, final(store)@, message_views(r@)) == old(self)@.step(
                old(store)@,
                *config,
                event@,
            ),
    {
        if self.is_terminal() {
            return nothing();
        }
        match event {
            ReceiverEvent::Inbound(message, now) => self.inbound(store, message, now),
            ReceiverEvent::Malformed(address, reason) => {
                if self.is_concerned(&address) {
                    self.abort(Cause::BadMessage(reason))
                } else {
                    nothing()
                }
            },
            ReceiverEvent::Tick(now) => self.tick(store, config, now),
            ReceiverEvent::Digest(digest) => self.digest(store, config, digest),
            ReceiverEvent::Fault => self.fault(config),
            ReceiverEvent::Cancel => self.abort(Cause::Canceled),
        }
    }
}

/// A session that is over stays as it is, leaves the store alone and sends nothing.
pub proof fn lemma_receiver_terminal_is_final(
    session: ReceiverView,
    store: StoreView,
    config: Config,
    event: ReceiverEventView,
)
    requires
        session.terminal(),
    ensures
        session.step(store, config, event) == (session, store, Seq::<MessageView>::empty()),
{
}

/// No spurious completion: an ACK, like the report of success, is sent only in the step
/// that takes the session from verifying to complete. That step is the answer to a
/// digest that equals the hash, every chunk of the file is present then, and the two
/// messages are all that is sent.
pub proof fn lemma_ack_only_on_completion(
    session: ReceiverView,
    store: StoreView,
    config: Config,
    event: ReceiverEventView,
    k: int,
)
    requires
        0 <= k < session.step(store, config, event).2.len(),
        session.step(store, config, event).2[k] is ACK || session.step(
            store,
            config,
            event,
        ).2[k] is SuccessReceive || session.step(store, config, event).2[k] is SuccessTransmit,
    ensures
        session.state is Verifying,
        session.step(store, config, event).0.state is Complete,
        session.step(store, config, event).1 == store,
        event == ReceiverEventView::Digest(session.hash.unwrap()),
        entry_of(store, session.hash.unwrap()).complete(),
        session.step(store, config, event).2 == seq![
            session.success(),
            MessageView::ACK(session.hash.unwrap()),
        ],
{
}

/// A session becomes complete in no other way than by the step from verifying.
pub proof fn lemma_completion_comes_from_verifying(
    session: ReceiverView,
    store: StoreView,
    config: Config,
    event: ReceiverEventView,
)
    requires
        !(session.state is Complete),
        session.step(store, config, event).0.state is Complete,
    ensures
        session.state is Verifying,
        event == ReceiverEventView::Digest(session.hash.unwrap()),
        entry_of(session.step(store, config, event).1, session.hash.unwrap()).complete(),
{
}

/// After a completed transfer no chunk is missing: the list of missing ranges of the
/// file is empty.
pub proof fn lemma_nothing_missing_when_complete(
    session: ReceiverView,
    store: StoreView,
    config: Config,
    event: ReceiverEventView,
)
    requires
        !(session.state is Complete),
        session.step(store, config, event).0.state is Complete,
    ensures
        gaps(
            entry_of(session.step(store, config, event).1, session.hash.unwrap()).have(),
            0,
            entry_of(session.step(store, config, event).1, session.hash.unwrap()).num_chunks.unwrap(),
        ) == Seq::<(u32, u32)>::empty(),
{
    lemma_completion_comes_from_verifying(session, store, config, event);
    let entry = entry_of(store, session.hash.unwrap());
    crate::entry::lemma_complete_lacks_nothing(entry);
    assert(gaps(entry.have(), 0, entry.num_chunks.unwrap()) =~= Seq::<(u32, u32)>::empty());
}

/// Hash fidelity: a session that verifies completes on a digest exactly when every
/// chunk of the file is present and the digest is the hash. Where every chunk is
/// present and the digest is another, the session fails with a hash mismatch.
pub proof fn lemma_digest_decides(
    session: ReceiverView,
    store: StoreView,
    config: Config,
    digest: Seq<char>,
)
    requires
        session.wf(),
        session.state is Verifying,
    ensures
        session.step(store, config, ReceiverEventView::Digest(digest)).0.state is Complete <==> (
        entry_of(store, session.hash.unwrap()).complete() && digest == session.hash.unwrap()),
        entry_of(store, session.hash.unwrap()).complete() && digest != session.hash.unwrap()
            ==> session.step(store, config, ReceiverEventView::Digest(digest)).0.state
            == ReceiverState::Failed(ErrorKind::HashMismatch),
{
}

/// A session that gives up tells the peer so exactly once: the step into failure sends
/// one failure report on the channel and nothing else, unless it was the peer that
/// reported the failure.
pub proof fn lemma_receiver_abort_reports_once(
    session: ReceiverView,
    store: StoreView,
    config: Config,
    event: ReceiverEventView,
)
    requires
        !session.terminal(),
        session.step(store, config, event).0.state matches ReceiverState::Failed(kind) && kind
            != ErrorKind::PeerFailure,
    ensures
        session.step(store, config, event).2.len() == 1,
        session.step(store, config, event).2[0] matches MessageView::Failure(channel_id, _)
            && channel_id == session.channel_id,
{
}

/// A chunk whose index is not below the number of chunks is dropped: nothing changes
/// and nothing is sent.
pub proof fn lemma_chunk_out_of_range_is_dropped(
    session: ReceiverView,
    store: StoreView,
    config: Config,
    hash: Seq<char>,
    index: u32,
    data: Seq<u8>,
    now: u64,
)
    requires
        entry_of(store, hash).num_chunks matches Some(n) && index >= n,
    ensures
        session.step(
            store,
            config,
            ReceiverEventView::Inbound(MessageView::ReceiveChunk(hash, index, data), now),
        ) == (session, store, Seq::<MessageView>::empty()),
{
}

/// Whatever a receiving session sends is recognized, once it has crossed the wire, as
/// the message that was sent.
pub proof fn lemma_receiver_is_understood(
    session: ReceiverView,
    store: StoreView,
    config: Config,
    event: ReceiverEventView,
    k: int,
)
    requires
        0 <= k < session.step(store, config, event).2.len(),
    ensures
        crate::parsers::message_shape(session.step(store, config, event).2[k].wire()) == Ok::<
            MessageView,
            crate::parsers::ParseError,
        >(session.step(store, config, event).2[k]),
{
    let sent = session.step(store, config, event).2[k];
    assert(sent.plain());
    crate::parsers::lemma_recognition_inverts_wire(sent);
}

/// The ranges that a receiving session asks for are ranges that a sender accepts: they
/// lie within the file, ascend and do not overlap.
pub proof fn lemma_nak_is_well_formed(
    session: ReceiverView,
    store: StoreView,
    config: Config,
    event: ReceiverEventView,
    k: int,
)
    requires
        session.wf(),
        0 <= k < session.step(store, config, event).2.len(),
        session.step(store, config, event).2[k] is NAK,
    ensures
        session.num_chunks is Some,
        session.step(store, config, event).2[k] matches MessageView::NAK(hash, Some(ranges))
            && session.hash == Some(hash) && ranges == gaps(
            entry_of(store, hash).have(),
            0,
            session.num_chunks.unwrap(),
        ) && crate::ranges::well_formed(ranges, session.num_chunks.unwrap())
            && crate::ranges::coalesced(ranges),
{
    let n = session.num_chunks.unwrap();
    crate::ranges::lemma_gaps_ordered(entry_of(store, session.hash.unwrap()).have(), 0, n);
}

/// A session stays on its channel.
pub proof fn lemma_receiver_keeps_its_channel(
    session: ReceiverView,
    store: StoreView,
    config: Config,
    event: ReceiverEventView,
)
    ensures
        session.step(store, config, event).0.channel_id == session.channel_id,
{
}

} // verus!
