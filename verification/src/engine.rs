//! The sessions of one peer, side by side: every channel has its own session, and what
//! comes in is handed to the sessions that it concerns.
//!
//! Messages that open a transfer name their channel and make a new session. All other
//! traffic is offered to every session; a session takes what carries its channel or its
//! hash and ignores the rest. Sessions that are over are taken out one by one, each with
//! its result.

use vstd::prelude::*;
use crate::error::{Cause, ErrorKind};
use crate::message::{message_views, nothing, one, Message, MessageView};
use crate::parsers::{Address, AddressView, Malformation};
use crate::receiver::{
    Receiver, ReceiverEvent, ReceiverEventView, ReceiverState, ReceiverView,
};
use crate::sender::{Sender, SenderEvent, SenderEventView, SenderState, SenderView};
use crate::session::{Config, Origin};
use crate::store::{ContentStore, StoreView};

verus! {

/// What a session of either side is fed.
#[derive(Debug, PartialEq)]
pub enum Event {
    /// A message arrived, at the given time.
    Inbound(Message, u64),
    /// A message announced a form and did not complete it; the address says whom it
    /// was meant for.
    Malformed(Address, Malformation),
    /// The clock shows the given time.
    Tick(u64),
    /// The file of a sending session is staged: its hash, the number of its chunks, its
    /// permission bits, and the time.
    Staged(String, u32, Option<u32>, u64),
    /// The digest of the file of a receiving session, computed over the chunks in the
    /// store.
    Digest(String),
    /// The content store could not read or write.
    Fault,
    /// This side gives the transfer up.
    Cancel,
}

/// The mathematical model of an [`Event`].
pub enum EventView {
    Inbound(MessageView, u64),
    Malformed(AddressView, Malformation),
    Tick(u64),
    Staged(Seq<char>, u32, Option<u32>, u64),
    Digest(Seq<char>),
    Fault,
    Cancel,
}

impl View for Event {
    type V = EventView;

    open spec fn view(&self) -> EventView {
        match self {
            Event::Inbound(message, now) => EventView::Inbound(message@, *now),
            Event::Malformed(address, reason) => EventView::Malformed(address@, *reason),
            Event::Tick(now) => EventView::Tick(*now),
            Event::Staged(hash, n, mode, now) => EventView::Staged(hash@, *n, *mode, *now),
            Event::Digest(digest) => EventView::Digest(digest@),
            Event::Fault => EventView::Fault,
            Event::Cancel => EventView::Cancel,
        }
    }
}

impl Clone for Event {
    fn clone(&self) -> (r: Event)
        ensures
            r@ == self@,
    {
        match self {
            Event::Inbound(message, now) => Event::Inbound(message.clone(), *now),
            Event::Malformed(address, reason) => Event::Malformed(address.clone(), *reason),
            Event::Tick(now) => Event::Tick(*now),
            Event::Staged(hash, n, mode, now) => Event::Staged(hash.clone(), *n, *mode, *now),
            Event::Digest(digest) => Event::Digest(digest.clone()),
            Event::Fault => Event::Fault,
            Event::Cancel => Event::Cancel,
        }
    }
}

/// How a session ended.
#[derive(Copy, Clone, Debug, PartialEq, Eq)]
pub enum Outcome {
    /// The file went across.
    Complete,
    /// The session was given up.
    Failed(ErrorKind),
    /// Nothing came in after the transfer was announced or asked for.
    Timeout,
}

/// One session, of either side.
pub enum Session {
    /// A session that takes a file.
    Receiving(Receiver),
    /// A session that pushes a file.
    Sending(Sender),
}

/// The mathematical model of a [`Session`].
pub enum SessionView {
    Receiving(ReceiverView),
    Sending(SenderView),
}

/// What a step leaves behind: the session or sessions, the store and the messages to
/// send.
pub type Step<S> = (S, StoreView, Seq<MessageView>);

impl SessionView {
    /// The channel of the session.
    pub open spec fn channel_id(self) -> u64 {
        match self {
            SessionView::Receiving(session) => session.channel_id,
            SessionView::Sending(session) => session.channel_id,
        }
    }

    /// The session is sound.
    pub open spec fn wf(self) -> bool {
        match self {
            SessionView::Receiving(session) => session.wf(),
            SessionView::Sending(session) => session.wf(),
        }
    }

    /// How the session ended, where it is over.
    pub open spec fn outcome(self) -> Option<Outcome> {
        match self {
            SessionView::Receiving(session) => match session.state {
                ReceiverState::Complete => Some(Outcome::Complete),
                ReceiverState::Failed(kind) => Some(Outcome::Failed(kind)),
                ReceiverState::Timeout => Some(Outcome::Timeout),
                _ => None,
            },
            SessionView::Sending(session) => match session.state {
                SenderState::Complete => Some(Outcome::Complete),
                SenderState::Failed(kind) => Some(Outcome::Failed(kind)),
                _ => None,
            },
        }
    }

    /// One step of the session. A digest means nothing to a sending session, and the
    /// news that a file is staged nothing to a receiving one.
    pub open spec fn step(self, store: StoreView, config: Config, event: EventView) -> Step<
        SessionView,
    > {
        match self {
            SessionView::Receiving(session) => {
                let fed = match event {
                    EventView::Inbound(message, now) => Some(
                        ReceiverEventView::Inbound(message, now),
                    ),
                    EventView::Malformed(address, reason) => Some(
                        ReceiverEventView::Malformed(address, reason),
                    ),
                    EventView::Tick(now) => Some(ReceiverEventView::Tick(now)),
                    EventView::Staged(_, _, _, _) => None,
                    EventView::Digest(digest) => Some(ReceiverEventView::Digest(digest)),
                    EventView::Fault => Some(ReceiverEventView::Fault),
                    EventView::Cancel => Some(ReceiverEventView::Cancel),
                };
                match fed {
                    Some(e) => {
                        let (next, after, out) = session.step(store, config, e);
                        (SessionView::Receiving(next), after, out)
                    },
                    None => (self, store, Seq::empty()),
                }
            },
            SessionView::Sending(session) => {
                let fed = match event {
                    EventView::Inbound(message, now) => Some(SenderEventView::Inbound(message, now)),
                    EventView::Malformed(address, reason) => Some(
                        SenderEventView::Malformed(address, reason),
                    ),
                    EventView::Tick(now) => Some(SenderEventView::Tick(now)),
                    EventView::Staged(hash, n, mode, now) => Some(
                        SenderEventView::Staged(hash, n, mode, now),
                    ),
                    EventView::Digest(_) => None,
                    EventView::Fault => Some(SenderEventView::Fault),
                    EventView::Cancel => Some(SenderEventView::Cancel),
                };
                match fed {
                    Some(e) => {
                        let (next, out) = session.step(store, config, e);
                        (SessionView::Sending(next), store, out)
                    },
                    None => (self, store, Seq::empty()),
                }
            },
        }
    }
}

impl View for Session {
    type V = SessionView;

    open spec fn view(&self) -> SessionView {
        match self {
            Session::Receiving(session) => SessionView::Receiving(session@),
            Session::Sending(session) => SessionView::Sending(session@),
        }
    }
}

impl Session {
    /// The channel of the session.
    pub fn channel_id(&self) -> (r: u64)
        ensures
            r == self@.channel_id(),
    {
        match self {
            Session::Receiving(session) => session.channel_id(),
            Session::Sending(session) => session.channel_id(),
        }
    }

    /// How the session ended, where it is over.
    pub fn outcome(&self) -> (r: Option<Outcome>)
        ensures
            r == self@.outcome(),
    {
        match self {
            Session::Receiving(session) => match session.state() {
                ReceiverState::Complete => Some(Outcome::Complete),
                ReceiverState::Failed(kind) => Some(Outcome::Failed(kind)),
                ReceiverState::Timeout => Some(Outcome::Timeout),
                _ => None,
            },
            Session::Sending(session) => match session.state() {
                SenderState::Complete => Some(Outcome::Complete),
                SenderState::Failed(kind) => Some(Outcome::Failed(kind)),
                _ => None,
            },
        }
    }

    /// Takes one event and answers with the messages to send.
    pub fn step(&mut self, store: &mut ContentStore, config: &Config, event: Event) -> (r: Vec<
        Message,
    >)
        requires
            old(self)@.wf(),
            old(store).wf(),
        ensures
            final(self)@.wf(),
            final(store).wf(),
            final(self)@.channel_id() == old(self)@.channel_id(),
            (final(self)@, final(store)@, message_views(r@)) == old(self)@.step(
                old(store)@,
                *config,
                event@,
            ),
    {
        match self {
            Session::Receiving(session) => {
                let fed = match event {
                    Event::Inbound(message, now) => ReceiverEvent::Inbound(message, now),
                    Event::Malformed(address, reason) => ReceiverEvent::Malformed(address, reason),
                    Event::Tick(now) => ReceiverEvent::Tick(now),
                    Event::Staged(_, _, _, _) => {
                        return nothing();
                    },
                    Event::Digest(digest) => ReceiverEvent::Digest(digest),
                    Event::Fault => ReceiverEvent::Fault,
                    Event::Cancel => ReceiverEvent::Cancel,
                };
                proof {
                    crate::receiver::lemma_receiver_keeps_its_channel(
                        session@,
                        store@,
                        *config,
                        fed@,
                    );
                }
                session.step(store, config, fed)
            },
            Session::Sending(session) => {
                let fed = match event {
                    Event::Inbound(message, now) => SenderEvent::Inbound(message, now),
                    Event::Malformed(address, reason) => SenderEvent::Malformed(address, reason),
                    Event::Tick(now) => SenderEvent::Tick(now),
                    Event::Staged(hash, n, mode, now) => SenderEvent::Staged(hash, n, mode, now),
                    Event::Digest(_) => {
                        return nothing();
                    },
                    Event::Fault => SenderEvent::Fault,
                    Event::Cancel => SenderEvent::Cancel,
                };
                proof {
                    crate::sender::lemma_sender_keeps_its_channel(session@, store@, *config, fed@);
                }
                session.step(store, config, fed)
            },
        }
    }
}

/// The models of a list of sessions, in order.
pub open spec fn session_views(sessions: Seq<Session>) -> Seq<SessionView> {
    sessions.map_values(|s: Session| s@)
}

/// Where the session of `channel_id` stands in the list: the first place with that
/// channel, or the length of the list where there is none.
pub open spec fn place_of(sessions: Seq<SessionView>, channel_id: u64) -> int
    decreases sessions.len(),
{
    if sessions.len() == 0 {
        0
    } else if sessions[0].channel_id() == channel_id {
        0
    } else {
        1 + place_of(sessions.drop_first(), channel_id)
    }
}

/// Where the first session that is over stands in the list, or the length of the list
/// where none is over.
pub open spec fn first_finished(sessions: Seq<SessionView>) -> int
    decreases sessions.len(),
{
    if sessions.len() == 0 {
        0
    } else if sessions[0].outcome() is Some {
        0
    } else {
        1 + first_finished(sessions.drop_first())
    }
}

/// Every session in turn is offered the event; each works on the store that the one
/// before it left, and what they send is sent in their order.
pub open spec fn offer_all(
    sessions: Seq<SessionView>,
    store: StoreView,
    config: Config,
    event: EventView,
) -> Step<Seq<SessionView>>
    decreases sessions.len(),
{
    if sessions.len() == 0 {
        (sessions, store, Seq::empty())
    } else {
        let (front, between, first) = offer_all(sessions.drop_last(), store, config, event);
        let (last, after, second) = sessions.last().step(between, config, event);
        (front.push(last), after, first + second)
    }
}

/// The session of `channel_id` is handed the event; where there is no such session,
/// nothing happens.
pub open spec fn hand_one(
    sessions: Seq<SessionView>,
    store: StoreView,
    config: Config,
    channel_id: u64,
    event: EventView,
) -> Step<Seq<SessionView>> {
    let k = place_of(sessions, channel_id);
    if k < sessions.len() {
        let (next, after, out) = sessions[k].step(store, config, event);
        (sessions.update(k, next), after, out)
    } else {
        (sessions, store, Seq::empty())
    }
}

/// The mathematical model of an [`Engine`].
pub struct EngineView {
    /// The limits that the sessions keep.
    pub config: Config,
    /// The sessions that are open, in the order in which they were opened.
    pub sessions: Seq<SessionView>,
}

impl EngineView {
    /// Every session is sound, and no two sessions share a channel.
    pub open spec fn wf(self) -> bool {
        &&& forall|i: int| 0 <= i < self.sessions.len() ==> (#[trigger] self.sessions[i]).wf()
        &&& forall|i: int, j: int|
            0 <= i < j < self.sessions.len() ==> (#[trigger] self.sessions[i]).channel_id() != (
            #[trigger] self.sessions[j]).channel_id()
    }

    /// Whether a session is open on the channel.
    pub open spec fn in_use(self, channel_id: u64) -> bool {
        place_of(self.sessions, channel_id) < self.sessions.len()
    }

    /// Whether a new session may take the channel: channel 0 is reserved, and a channel
    /// carries one session at a time.
    pub open spec fn admits(self, channel_id: u64) -> bool {
        channel_id != 0 && !self.in_use(channel_id)
    }

    /// This side opens an export on the channel: the engine afterwards, or the reason
    /// why the channel may not be taken.
    pub open spec fn open_export(
        self,
        channel_id: u64,
        source_path: Seq<char>,
        target_path: Seq<char>,
        now: u64,
    ) -> Result<EngineView, ErrorKind> {
        if self.admits(channel_id) {
            Ok(
                EngineView {
                    sessions: self.sessions.push(
                        SessionView::Sending(
                            Sender::opened(
                                channel_id,
                                Origin::Export,
                                source_path,
                                target_path,
                                now,
                            ),
                        ),
                    ),
                    ..self
                },
            )
        } else {
            Err(ErrorKind::ProtocolViolation)
        }
    }

    /// This side opens an import on the channel: the engine afterwards, or the reason
    /// why the channel may not be taken.
    pub open spec fn open_import(self, channel_id: u64, target_path: Seq<char>, now: u64)
        -> Result<EngineView, ErrorKind> {
        if self.admits(channel_id) {
            Ok(
                EngineView {
                    sessions: self.sessions.push(
                        SessionView::Receiving(
                            Receiver::opened(
                                channel_id,
                                Origin::Import,
                                None,
                                target_path,
                                None,
                                now,
                            ),
                        ),
                    ),
                    ..self
                },
            )
        } else {
            Err(ErrorKind::ProtocolViolation)
        }
    }

    /// The first session that is over is taken out: the engine afterwards, the channel
    /// of the session and how it ended; `None` where no session is over.
    pub open spec fn finished(self) -> Option<(EngineView, u64, Outcome)> {
        let k = first_finished(self.sessions);
        if k < self.sessions.len() {
            Some(
                (
                    EngineView { sessions: self.sessions.remove(k), ..self },
                    self.sessions[k].channel_id(),
                    self.sessions[k].outcome().unwrap(),
                ),
            )
        } else {
            None
        }
    }

    /// The answer to a request that may not take its channel.
    pub open spec fn refusal(channel_id: u64) -> Seq<MessageView> {
        seq![MessageView::Failure(channel_id, Cause::ProtocolViolation.text())]
    }

    /// A message arrives. A request opens a session on its channel, which keeps the path
    /// that the request names, or is refused where the channel may not be taken;
    /// everything else is offered to every session.
    pub open spec fn inbound(self, store: StoreView, message: MessageView, now: u64) -> Step<
        EngineView,
    > {
        match message {
            MessageView::ReqReceive(channel_id, hash, path, mode) => if self.admits(channel_id) {
                (
                    EngineView {
                        sessions: self.sessions.push(
                            SessionView::Receiving(
                                Receiver::opened(
                                    channel_id,
                                    Origin::Export,
                                    Some(hash),
                                    path,
                                    mode,
                                    now,
                                ),
                            ),
                        ),
                        ..self
                    },
                    store,
                    seq![MessageView::Sync(hash)],
                )
            } else {
                (self, store, Self::refusal(channel_id))
            },
            MessageView::ReqTransmit(channel_id, path) => if self.admits(channel_id) {
                (
                    EngineView {
                        sessions: self.sessions.push(
                            SessionView::Sending(
                                Sender::opened(
                                    channel_id,
                                    Origin::Import,
                                    path,
                                    Seq::empty(),
                                    now,
                                ),
                            ),
                        ),
                        ..self
                    },
                    store,
                    Seq::empty(),
                )
            } else {
                (self, store, Self::refusal(channel_id))
            },
            _ => {
                let (sessions, after, out) = offer_all(
                    self.sessions,
                    store,
                    self.config,
                    EventView::Inbound(message, now),
                );
                (EngineView { sessions, ..self }, after, out)
            },
        }
    }
}

/// The place of a channel is the place of the one session on it.
pub proof fn lemma_place_of(sessions: Seq<SessionView>, channel_id: u64)
    ensures
        0 <= place_of(sessions, channel_id) <= sessions.len(),
        place_of(sessions, channel_id) < sessions.len() ==> sessions[place_of(
            sessions,
            channel_id,
        )].channel_id() == channel_id,
        forall|i: int|
            0 <= i < place_of(sessions, channel_id) ==> (#[trigger] sessions[i]).channel_id()
                != channel_id,
    decreases sessions.len(),
{
    if sessions.len() > 0 && sessions[0].channel_id() != channel_id {
        let rest = sessions.drop_first();
        lemma_place_of(rest, channel_id);
        let k = place_of(rest, channel_id);
        assert forall|i: int| 0 <= i < 1 + k implies (#[trigger] sessions[i]).channel_id()
            != channel_id by {
            if i > 0 {
                assert(sessions[i] == rest[i - 1]);
            }
        }
        if k < rest.len() {
            assert(sessions[1 + k] == rest[k]);
        }
    }
}

/// Offering an event to the sessions leaves each on its channel and sound, and there
/// are as many as before.
pub proof fn lemma_offer_all(
    sessions: Seq<SessionView>,
    store: StoreView,
    config: Config,
    event: EventView,
)
    ensures
        offer_all(sessions, store, config, event).0.len() == sessions.len(),
        forall|i: int|
            0 <= i < sessions.len() ==> (#[trigger] offer_all(
                sessions,
                store,
                config,
                event,
            ).0[i]).channel_id() == sessions[i].channel_id(),
    decreases sessions.len(),
{
    if sessions.len() > 0 {
        let front = sessions.drop_last();
        lemma_offer_all(front, store, config, event);
        let (stepped, between, first) = offer_all(front, store, config, event);
        match sessions.last() {
            SessionView::Receiving(session) => {
                match event {
                    EventView::Inbound(message, now) => {
                        crate::receiver::lemma_receiver_keeps_its_channel(
                            session,
                            between,
                            config,
                            ReceiverEventView::Inbound(message, now),
                        );
                    },
                    EventView::Malformed(address, reason) => {},
                    EventView::Tick(now) => {},
                    EventView::Staged(_, _, _, _) => {},
                    EventView::Digest(digest) => {},
                    EventView::Fault => {},
                    EventView::Cancel => {},
                }
            },
            SessionView::Sending(session) => {
                match event {
                    EventView::Inbound(message, now) => {
                        crate::sender::lemma_sender_keeps_its_channel(
                            session,
                            between,
                            config,
                            SenderEventView::Inbound(message, now),
                        );
                    },
                    EventView::Tick(now) => {
                        crate::sender::lemma_sender_keeps_its_channel(
                            session,
                            between,
                            config,
                            SenderEventView::Tick(now),
                        );
                    },
                    _ => {},
                }
            },
        }
        let all = offer_all(sessions, store, config, event).0;
        assert forall|i: int| 0 <= i < sessions.len() implies (#[trigger] all[i]).channel_id()
            == sessions[i].channel_id() by {
            if i < front.len() {
                assert(all[i] == stepped[i]);
                assert(front[i] == sessions[i]);
            }
        }
    }
}

/// The sessions of one peer.
pub struct Engine {
    config: Config,
    sessions: Vec<Session>,
}

impl View for Engine {
    type V = EngineView;

    closed spec fn view(&self) -> EngineView {
        EngineView { config: self.config, sessions: session_views(self.sessions@) }
    }
}

impl Engine {
    /// An engine without sessions.
    pub fn new(config: Config) -> (r: Engine)
        ensures
            r@ == (EngineView { config, sessions: Seq::empty() }),
            r@.wf(),
    {
        let engine = Engine { config, sessions: Vec::new() };
        proof {
            assert(session_views(engine.sessions@) =~= Seq::<SessionView>::empty());
        }
        engine
    }

    /// The limits that the sessions keep.
    pub fn config(&self) -> (r: Config)
        ensures
            r == self@.config,
    {
        self.config
    }

    /// The sessions that are open, in the order in which they were opened.
    pub fn sessions(&self) -> (r: &Vec<Session>)
        ensures
            session_views(r@) == self@.sessions,
    {
        &self.sessions
    }

    /// Where the session of `channel_id` stands in the list.
    fn place(&self, channel_id: u64) -> (k: usize)
        ensures
            k == place_of(self@.sessions, channel_id),
            k <= self.sessions@.len(),
    {
        let ghost all = self@.sessions;
        let mut k: usize = 0;
        proof {
            assert(all.subrange(0, all.len() as int) =~= all);
        }
        while k < self.sessions.len()
            invariant
                k <= self.sessions@.len(),
                all == session_views(self.sessions@),
                place_of(all, channel_id) == k + place_of(
                    all.subrange(k as int, all.len() as int),
                    channel_id,
                ),
            decreases self.sessions.len() - k,
        {
            let ghost rest = all.subrange(k as int, all.len() as int);
            proof {
                assert(rest[0] == self.sessions@[k as int]@);
                assert(rest.drop_first() =~= all.subrange(k + 1, all.len() as int));
            }
            if self.sessions[k].channel_id() == channel_id {
                return k;
            }
            k += 1;
        }
        k
    }

    /// Whether a session is open on the channel.
    pub fn in_use(&self, channel_id: u64) -> (r: bool)
        ensures
            r == self@.in_use(channel_id),
    {
        self.place(channel_id) < self.sessions.len()
    }
}

/// Adding a session on a channel that is free keeps the sessions apart.
proof fn lemma_added(engine: EngineView, session: SessionView)
    requires
        engine.wf(),
        session.wf(),
        engine.admits(session.channel_id()),
    ensures
        (EngineView { sessions: engine.sessions.push(session), ..engine }).wf(),
{
    lemma_place_of(engine.sessions, session.channel_id());
    let all = engine.sessions.push(session);
    assert forall|i: int, j: int| 0 <= i < j < all.len() implies (#[trigger] all[i]).channel_id()
        != (#[trigger] all[j]).channel_id() by {
        assert(all[i] == engine.sessions[i]);
        if j < engine.sessions.len() {
            assert(all[j] == engine.sessions[j]);
        }
    }
    assert forall|i: int| 0 <= i < all.len() implies (#[trigger] all[i]).wf() by {
        if i < engine.sessions.len() {
            assert(all[i] == engine.sessions[i]);
        }
    }
}

impl Engine {
    /// Adds a session.
    fn add(&mut self, session: Session)
        requires
            old(self)@.wf(),
            session@.wf(),
            old(self)@.admits(session@.channel_id()),
        ensures
            final(self)@.wf(),
            final(self)@ == (EngineView {
                sessions: old(self)@.sessions.push(session@),
                ..old(self)@
            }),
    {
        proof {
            lemma_added(self@, session@);
        }
        let ghost before = self.sessions@;
        self.sessions.push(session);
        proof {
            assert(session_views(self.sessions@) =~= session_views(before).push(session@));
        }
    }

    /// Opens a session for an export of this side: the file at `source_path` is to go to
    /// the peer's `target_path`. When the file is staged, the session is to be handed
    /// [`Event::Staged`].
    pub fn open_export(
        &mut self,
        channel_id: u64,
        source_path: String,
        target_path: String,
        now: u64,
    ) -> (r: Result<(), ErrorKind>)
        requires
            old(self)@.wf(),
        ensures
            final(self)@.wf(),
            match old(self)@.open_export(channel_id, source_path@, target_path@, now) {
                Ok(engine) => r is Ok && final(self)@ == engine,
                Err(e) => r == Err::<(), ErrorKind>(e) && final(self)@ == old(self)@,
            },
    {
        if self.in_use(channel_id) {
            return Err(ErrorKind::ProtocolViolation);
        }
        match Sender::export(channel_id, source_path, target_path, now) {
            Ok(session) => {
                self.add(Session::Sending(session));
                Ok(())
            },
            Err(e) => Err(e),
        }
    }

    /// Opens a session for an import, of the peer's file at `source_path` to
    /// `target_path` on this side, and answers with the request to send to the peer.
    pub fn open_import(
        &mut self,
        channel_id: u64,
        source_path: String,
        target_path: String,
        now: u64,
    ) -> (r: Result<Vec<Message>, ErrorKind>)
        requires
            old(self)@.wf(),
        ensures
            final(self)@.wf(),
            match old(self)@.open_import(channel_id, target_path@, now) {
                Ok(engine) => r matches Ok(out) && final(self)@ == engine && message_views(out@)
                    == seq![MessageView::ReqTransmit(channel_id, source_path@)],
                Err(e) => r matches Err(got) && got == e && final(self)@ == old(self)@,
            },
    {
        if self.in_use(channel_id) {
            return Err(ErrorKind::ProtocolViolation);
        }
        match Receiver::request(channel_id, source_path, target_path, now) {
            Ok((session, out)) => {
                self.add(Session::Receiving(session));
                Ok(out)
            },
            Err(e) => Err(e),
        }
    }

    /// Offers an event to every session and answers with the messages to send.
    pub fn offer(&mut self, store: &mut ContentStore, event: Event) -> (r: Vec<Message>)
        requires
            old(self)@.wf(),
            old(store).wf(),
        ensures
            final(self)@.wf(),
            final(store).wf(),
            final(self)@.config == old(self)@.config,
            (final(self)@.sessions, final(store)@, message_views(r@)) == offer_all(
                old(self)@.sessions,
                old(store)@,
                old(self)@.config,
                event@,
            ),
    {
        let config = self.config;
        let ghost before = self@.sessions;
        let ghost first_store = store@;
        let mut out: Vec<Message> = Vec::new();
        let mut i: usize = 0;
        proof {
            assert(before.subrange(0, 0) =~= Seq::<SessionView>::empty());
            assert(session_views(self.sessions@).subrange(0, 0) =~= Seq::<SessionView>::empty());
            assert(message_views(out@) =~= Seq::<MessageView>::empty());
            assert forall|j: int| 0 <= j < before.len() implies (#[trigger] self.sessions@[j])@
                == before[j] by {}
        }
        while i < self.sessions.len()
            invariant
                i <= self.sessions@.len(),
                self.config == config,
                before.len() == self.sessions@.len(),
                store.wf(),
                old(self)@.wf(),
                before == old(self)@.sessions,
                forall|j: int|
                    i <= j < before.len() ==> (#[trigger] self.sessions@[j])@ == before[j],
                forall|j: int|
                    0 <= j < before.len() ==> (#[trigger] self.sessions@[j])@.wf()
                        && self.sessions@[j]@.channel_id() == before[j].channel_id(),
                (session_views(self.sessions@).subrange(0, i as int), store@, message_views(out@))
                    == offer_all(before.subrange(0, i as int), first_store, config, event@),
            decreases self.sessions.len() - i,
        {
            let ghost sessions_before = self.sessions@;
            let ghost store_before = store@;
            let ghost out_before = out@;
            let mut sent = self.sessions[i].step(store, &config, event.clone());
            proof {
                let prefix = before.subrange(0, i + 1);
                assert(prefix.drop_last() =~= before.subrange(0, i as int));
                assert(prefix.last() == before[i as int]);
                assert(session_views(self.sessions@).subrange(0, i + 1) =~= session_views(
                    sessions_before,
                ).subrange(0, i as int).push(self.sessions@[i as int]@));
                assert(message_views(out_before + sent@) =~= message_views(out_before)
                    + message_views(sent@));
            }
            out.append(&mut sent);
            i += 1;
        }
        proof {
            assert(before.subrange(0, before.len() as int) =~= before);
            assert(session_views(self.sessions@).subrange(0, i as int) =~= session_views(
                self.sessions@,
            ));
            let all = self@.sessions;
            assert forall|a: int, b: int| 0 <= a < b < all.len() implies (#[trigger] all[a]).channel_id()
                != (#[trigger] all[b]).channel_id() by {
                assert(all[a] == self.sessions@[a]@);
                assert(all[b] == self.sessions@[b]@);
                assert(before[a].channel_id() != before[b].channel_id());
            }
            assert forall|a: int| 0 <= a < all.len() implies (#[trigger] all[a]).wf() by {
                assert(all[a] == self.sessions@[a]@);
            }
        }
        out
    }

    /// Hands an event to the session of `channel_id` and answers with the messages to
    /// send. Where no session is open on the channel, nothing happens.
    pub fn hand(&mut self, store: &mut ContentStore, channel_id: u64, event: Event) -> (r: Vec<
        Message,
    >)
        requires
            old(self)@.wf(),
            old(store).wf(),
        ensures
            final(self)@.wf(),
            final(store).wf(),
            final(self)@.config == old(self)@.config,
            (final(self)@.sessions, final(store)@, message_views(r@)) == hand_one(
                old(self)@.sessions,
                old(store)@,
                old(self)@.config,
                channel_id,
                event@,
            ),
    {
        let config = self.config;
        let k = self.place(channel_id);
        if k >= self.sessions.len() {
            return nothing();
        }
        let ghost before = self.sessions@;
        proof {
            lemma_place_of(self@.sessions, channel_id);
            assert(self@.sessions[k as int] == self.sessions@[k as int]@);
        }
        let out = self.sessions[k].step(store, &config, event);
        proof {
            let all = self@.sessions;
            assert(all =~= session_views(before).update(k as int, self.sessions@[k as int]@));
            assert forall|a: int, b: int| 0 <= a < b < all.len() implies (#[trigger] all[a]).channel_id()
                != (#[trigger] all[b]).channel_id() by {
                assert(session_views(before)[a].channel_id() != session_views(
                    before,
                )[b].channel_id());
            }
            assert forall|a: int| 0 <= a < all.len() implies (#[trigger] all[a]).wf() by {
                if a != k {
                    assert(all[a] == session_views(before)[a]);
                }
            }
        }
        out
    }

    /// Takes a message that arrived and answers with the messages to send.
    ///
    /// An export that the peer announces and an import that it asks for open a session
    /// on their channel; on channel 0, or on a channel that is taken, they are refused
    /// with a failure report. Every other message is offered to every session.
    pub fn inbound(&mut self, store: &mut ContentStore, message: Message, now: u64) -> (r: Vec<
        Message,
    >)
        requires
            old(self)@.wf(),
            old(store).wf(),
        ensures
            final(self)@.wf(),
            final(store).wf(),
            (final(self)@, final(store)@, message_views(r@)) == old(self)@.inbound(
                old(store)@,
                message@,
                now,
            ),
    {
        match message {
            Message::ReqReceive(channel_id, hash, path, mode) => {
                if self.in_use(channel_id) {
                    return one(Message::Failure(channel_id, Cause::ProtocolViolation.reason()));
                }
                match Receiver::accept(channel_id, hash, path, mode, now) {
                    Ok((session, out)) => {
                        self.add(Session::Receiving(session));
                        out
                    },
                    Err(_) => one(Message::Failure(channel_id, Cause::ProtocolViolation.reason())),
                }
            },
            Message::ReqTransmit(channel_id, path) => {
                if self.in_use(channel_id) {
                    return one(Message::Failure(channel_id, Cause::ProtocolViolation.reason()));
                }
                match Sender::serve(channel_id, path, now) {
                    Ok(session) => {
                        self.add(Session::Sending(session));
                        nothing()
                    },
                    Err(_) => one(Message::Failure(channel_id, Cause::ProtocolViolation.reason())),
                }
            },
            other => self.offer(store, Event::Inbound(other, now)),
        }
    }

    /// Tells every session the time and answers with the messages to send.
    pub fn tick(&mut self, store: &mut ContentStore, now: u64) -> (r: Vec<Message>)
        requires
            old(self)@.wf(),
            old(store).wf(),
        ensures
            final(self)@.wf(),
            final(store).wf(),
            final(self)@.config == old(self)@.config,
            (final(self)@.sessions, final(store)@, message_views(r@)) == offer_all(
                old(self)@.sessions,
                old(store)@,
                old(self)@.config,
                EventView::Tick(now),
            ),
    {
        self.offer(store, Event::Tick(now))
    }

    /// Takes out the first session that is over, and says on which channel it was and
    /// how it ended. What the store holds for its file stays.
    pub fn take_finished(&mut self) -> (r: Option<(u64, Outcome)>)
        requires
            old(self)@.wf(),
        ensures
            final(self)@.wf(),
            match old(self)@.finished() {
                Some((engine, channel_id, outcome)) => r == Some((channel_id, outcome))
                    && final(self)@ == engine,
                None => r is None && final(self)@ == old(self)@,
            },
    {
        let ghost all = self@.sessions;
        let mut k: usize = 0;
        proof {
            assert(all.subrange(0, all.len() as int) =~= all);
        }
        while k < self.sessions.len()
            invariant
                k <= self.sessions@.len(),
                *self == *old(self),
                old(self)@.wf(),
                all == old(self)@.sessions,
                all == session_views(self.sessions@),
                first_finished(all) == k + first_finished(
                    all.subrange(k as int, all.len() as int),
                ),
            decreases self.sessions.len() - k,
        {
            let ghost rest = all.subrange(k as int, all.len() as int);
            proof {
                assert(rest[0] == self.sessions@[k as int]@);
                assert(rest.drop_first() =~= all.subrange(k + 1, all.len() as int));
            }
            match self.sessions[k].outcome() {
                Some(outcome) => {
                    let channel_id = self.sessions[k].channel_id();
                    let ghost before = self.sessions@;
                    self.sessions.remove(k);
                    proof {
                        let left = self@.sessions;
                        assert(left =~= all.remove(k as int));
                        assert forall|a: int, b: int| 0 <= a < b < left.len() implies (
                        #[trigger] left[a]).channel_id() != (#[trigger] left[b]).channel_id() by {
                            let x = if a < k { a } else { a + 1 };
                            let y = if b < k { b } else { b + 1 };
                            assert(left[a] == all[x]);
                            assert(left[b] == all[y]);
                        }
                        assert forall|a: int| 0 <= a < left.len() implies (#[trigger] left[a]).wf() by {
                            let x = if a < k { a } else { a + 1 };
                            assert(left[a] == all[x]);
                        }
                    }
                    return Some((channel_id, outcome));
                },
                None => {},
            }
            k += 1;
        }
        None
    }
}

/// Channels are independent: what is handed to one session leaves every other session
/// as it was.
pub proof fn lemma_channels_are_independent(
    engine: EngineView,
    store: StoreView,
    channel_id: u64,
    event: EventView,
    i: int,
)
    requires
        engine.wf(),
        0 <= i < engine.sessions.len(),
        engine.sessions[i].channel_id() != channel_id,
    ensures
        hand_one(engine.sessions, store, engine.config, channel_id, event).0.len()
            == engine.sessions.len(),
        hand_one(engine.sessions, store, engine.config, channel_id, event).0[i]
            == engine.sessions[i],
{
    lemma_place_of(engine.sessions, channel_id);
}

} // verus!
