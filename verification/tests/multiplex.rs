use cubesat_protocols::engine::{Engine, Event, Outcome, Session};
use cubesat_protocols::error::ErrorKind;
use cubesat_protocols::message::Message;
use cubesat_protocols::parsers::{Address, Malformation};
use cubesat_protocols::receiver::ReceiverState;
use cubesat_protocols::sender::SenderState;
use cubesat_protocols::session::Config;
use cubesat_protocols::store::ContentStore;
use cubesat_protocols::wire::{from_bytes, to_bytes, WireError};

fn config() -> Config {
    Config { idle_timeout: 10, chunk_interval: 0, max_naks: 2, max_rounds: 2, max_io_retries: 0 }
}

fn s(text: &str) -> String {
    text.to_string()
}

fn none() -> Vec<Message> {
    Vec::new()
}

/// One side of a link: an engine with its store.
struct Side {
    engine: Engine,
    store: ContentStore,
}

impl Side {
    fn new() -> Side {
        Side { engine: Engine::new(config()), store: ContentStore::new() }
    }

    /// Takes datagrams and returns the datagrams to send back.
    fn take(&mut self, datagrams: Vec<Vec<u8>>, now: u64) -> Vec<Vec<u8>> {
        let mut out = Vec::new();
        for bytes in datagrams {
            let sent = match from_bytes(&bytes) {
                Ok(message) => self.engine.inbound(&mut self.store, message, now),
                Err(WireError::Malformed(address, reason)) => {
                    self.engine.offer(&mut self.store, Event::Malformed(address, reason))
                }
                Err(_) => Vec::new(),
            };
            out.extend(sent.iter().map(|m| to_bytes(m)));
            out.extend(self.verify());
        }
        out
    }

    /// Hands every session that verifies the digest of its file; here the hash of a file
    /// is its first byte in hex, or "00" for the empty file.
    fn verify(&mut self) -> Vec<Vec<u8>> {
        let mut due = Vec::new();
        for session in self.engine.sessions() {
            if let Session::Receiving(receiver) = session {
                if receiver.state() == ReceiverState::Verifying {
                    let data = self.store.contents(receiver.hash().unwrap()).unwrap();
                    due.push((receiver.channel_id(), digest(&data)));
                }
            }
        }
        let mut out = Vec::new();
        for (channel_id, digest) in due {
            let sent = self.engine.hand(&mut self.store, channel_id, Event::Digest(digest));
            out.extend(sent.iter().map(|m| to_bytes(m)));
        }
        out
    }

    fn tick(&mut self, now: u64) -> Vec<Vec<u8>> {
        let sent = self.engine.tick(&mut self.store, now);
        sent.iter().map(|m| to_bytes(m)).collect()
    }
}

fn digest(data: &[u8]) -> String {
    format!("{:02x}", data.first().copied().unwrap_or(0))
}

#[test]
fn two_engines_move_a_file() {
    let data: Vec<u8> = (0x20..0x2b).collect();
    let hash = digest(&data);
    let mut ground = Side::new();
    let mut craft = Side::new();

    assert_eq!(ground.engine.open_export(100, s("/src"), s("/t"), 0), Ok(()));
    assert_eq!(ground.store.stage(&hash, &data, Some(0o600), 4), Ok(3));
    let opening = ground.engine.hand(
        &mut ground.store,
        100,
        Event::Staged(hash.clone(), 3, Some(0o600), 0),
    );
    assert_eq!(opening, vec![Message::ReqReceive(100, hash.clone(), s("/t"), Some(0o600))]);

    let mut up: Vec<Vec<u8>> = opening.iter().map(|m| to_bytes(m)).collect();
    let mut now = 1;
    let mut rounds = 0;
    while !up.is_empty() || rounds < 6 {
        let down = craft.take(std::mem::take(&mut up), now);
        up = ground.take(down, now);
        up.extend(ground.tick(now));
        now += 1;
        rounds += 1;
    }
    assert_eq!(craft.store.contents(&hash), Some(data));
    assert_eq!(craft.engine.take_finished(), Some((100, Outcome::Complete)));
    assert_eq!(craft.engine.take_finished(), None);
    assert_eq!(ground.engine.take_finished(), Some((100, Outcome::Complete)));
    assert_eq!(ground.engine.take_finished(), None);
    assert!(!ground.engine.in_use(100));
    // the store keeps the file after the session has gone
    assert!(craft.store.is_complete(&hash));
}

#[test]
fn an_import_runs_between_two_engines() {
    let data: Vec<u8> = vec![0x41; 9];
    let hash = digest(&data);
    let mut ground = Side::new();
    let mut craft = Side::new();

    let request = ground.engine.open_import(200, s("/src"), s("/dst"), 0).unwrap();
    assert_eq!(request, vec![Message::ReqTransmit(200, s("/src"))]);
    let up: Vec<Vec<u8>> = request.iter().map(|m| to_bytes(m)).collect();
    assert_eq!(craft.take(up, 1), Vec::<Vec<u8>>::new());
    assert!(craft.engine.in_use(200));
    // the session tells what to stage
    match &craft.engine.sessions()[0] {
        Session::Sending(sender) => {
            assert_eq!(sender.state(), SenderState::Staging);
            assert_eq!(sender.source_path(), "/src");
        }
        Session::Receiving(_) => panic!("a sender was expected"),
    }
    // and the one that asked, where to save
    match &ground.engine.sessions()[0] {
        Session::Receiving(receiver) => assert_eq!(receiver.target_path(), "/dst"),
        Session::Sending(_) => panic!("a receiver was expected"),
    }
    assert_eq!(craft.store.stage(&hash, &data, Some(0o644), 2), Ok(5));
    let reply =
        craft.engine.hand(&mut craft.store, 200, Event::Staged(hash.clone(), 5, Some(0o644), 1));
    assert_eq!(reply, vec![Message::SuccessTransmit(200, hash.clone(), 5, Some(0o644))]);

    let mut down: Vec<Vec<u8>> = reply.iter().map(|m| to_bytes(m)).collect();
    for now in 2..12 {
        let up = ground.take(std::mem::take(&mut down), now);
        down = craft.take(up, now);
        down.extend(craft.tick(now));
    }
    assert_eq!(ground.store.contents(&hash), Some(data));
    assert_eq!(ground.engine.take_finished(), Some((200, Outcome::Complete)));
    assert_eq!(craft.engine.take_finished(), Some((200, Outcome::Complete)));
}

#[test]
fn a_channel_carries_one_session() {
    let mut side = Side::new();
    assert_eq!(side.engine.config(), config());
    assert_eq!(side.engine.open_export(0, s("/src"), s("/t"), 0), Err(ErrorKind::ProtocolViolation));
    assert_eq!(
        side.engine.open_import(0, s("/src"), s("/dst"), 0),
        Err(ErrorKind::ProtocolViolation)
    );
    assert_eq!(side.engine.open_export(7, s("/src"), s("/t"), 0), Ok(()));
    assert!(side.engine.in_use(7));
    assert!(!side.engine.in_use(8));
    assert_eq!(side.engine.open_export(7, s("/src"), s("/u"), 0), Err(ErrorKind::ProtocolViolation));
    assert_eq!(
        side.engine.open_import(7, s("/src"), s("/dst"), 0),
        Err(ErrorKind::ProtocolViolation)
    );
    assert_eq!(
        side.engine.inbound(&mut side.store, Message::ReqReceive(7, s("h"), s("/t"), None), 1),
        vec![Message::Failure(7, s("protocol violation"))]
    );
    assert_eq!(
        side.engine.inbound(&mut side.store, Message::ReqTransmit(7, s("/src")), 1),
        vec![Message::Failure(7, s("protocol violation"))]
    );
    assert_eq!(
        side.engine.inbound(&mut side.store, Message::ReqReceive(0, s("h"), s("/t"), None), 1),
        vec![Message::Failure(0, s("protocol violation"))]
    );
    assert_eq!(
        side.engine.inbound(&mut side.store, Message::ReqTransmit(0, s("/src")), 1),
        vec![Message::Failure(0, s("protocol violation"))]
    );
    assert_eq!(side.engine.sessions().len(), 1);
    assert_eq!(
        side.engine.inbound(&mut side.store, Message::ReqReceive(8, s("h"), s("/t"), None), 1),
        vec![Message::Sync(s("h"))]
    );
    assert_eq!(side.engine.sessions().len(), 2);
    assert_eq!(side.engine.sessions()[1].channel_id(), 8);
    match &side.engine.sessions()[1] {
        Session::Receiving(receiver) => assert_eq!(receiver.target_path(), "/t"),
        Session::Sending(_) => panic!("a receiver was expected"),
    }
    assert_eq!(side.engine.sessions()[1].outcome(), None);
}

#[test]
fn channels_do_not_disturb_each_other() {
    let mut side = Side::new();
    side.engine.inbound(&mut side.store, Message::ReqReceive(1, s("a"), s("/a"), None), 0);
    side.engine.inbound(&mut side.store, Message::ReqReceive(2, s("b"), s("/b"), None), 0);
    side.engine.inbound(&mut side.store, Message::Metadata(s("a"), 1), 1);
    side.engine.inbound(&mut side.store, Message::Metadata(s("b"), 2), 1);
    assert_eq!(
        side.engine.inbound(&mut side.store, Message::ReceiveChunk(s("b"), 1, vec![1]), 2),
        none()
    );
    assert_eq!(side.store.have_chunks("a"), Vec::<u32>::new());
    assert_eq!(side.store.have_chunks("b"), vec![1]);
    // a failure on one channel ends that session alone
    assert_eq!(
        side.engine.inbound(&mut side.store, Message::Failure(1, s("gone")), 3),
        none()
    );
    assert_eq!(
        side.engine.sessions()[0].outcome(),
        Some(Outcome::Failed(ErrorKind::PeerFailure))
    );
    assert_eq!(side.engine.sessions()[1].outcome(), None);
    // cancelling a channel that is not open does nothing
    assert_eq!(side.engine.hand(&mut side.store, 3, Event::Cancel), none());
    assert_eq!(
        side.engine.hand(&mut side.store, 2, Event::Cancel),
        vec![Message::Failure(2, s("canceled"))]
    );
    assert_eq!(
        side.engine.take_finished(),
        Some((1, Outcome::Failed(ErrorKind::PeerFailure)))
    );
    assert_eq!(side.engine.take_finished(), Some((2, Outcome::Failed(ErrorKind::Canceled))));
    assert_eq!(side.engine.take_finished(), None);
    assert_eq!(side.engine.sessions().len(), 0);
}

#[test]
fn a_malformed_message_ends_the_session_it_was_meant_for() {
    let mut side = Side::new();
    side.engine.inbound(&mut side.store, Message::ReqReceive(1, s("a"), s("/a"), None), 0);
    side.engine.inbound(&mut side.store, Message::ReqReceive(2, s("h"), s("/b"), None), 0);
    // [ "h", 2, 42 ]
    let bytes = vec![0x83, 0x61, b'h', 0x02, 0x18, 42];
    let back = side.take(vec![bytes], 1);
    assert_eq!(back, vec![to_bytes(&Message::Failure(2, s("bad chunk")))]);
    assert_eq!(side.engine.sessions()[0].outcome(), None);
    assert_eq!(
        side.engine.sessions()[1].outcome(),
        Some(Outcome::Failed(ErrorKind::Malformed))
    );
    // [ 1, false ]
    let back = side.take(vec![vec![0x82, 0x01, 0xf4]], 2);
    assert_eq!(back, vec![to_bytes(&Message::Failure(1, s("bad message")))]);
    assert_eq!(
        side.engine.offer(
            &mut side.store,
            Event::Malformed(Address::Nobody, Malformation::NotAnArray)
        ),
        none()
    );
    assert_eq!(side.engine.take_finished(), Some((1, Outcome::Failed(ErrorKind::Malformed))));
}

#[test]
fn every_session_hears_the_clock() {
    let mut side = Side::new();
    side.engine.inbound(&mut side.store, Message::ReqReceive(1, s("a"), s("/a"), None), 0);
    side.engine.inbound(&mut side.store, Message::ReqReceive(2, s("b"), s("/b"), None), 5);
    side.engine.inbound(&mut side.store, Message::Metadata(s("b"), 2), 5);
    assert_eq!(side.engine.tick(&mut side.store, 9), none());
    // the first session has waited long enough for its metadata; the second has not
    assert_eq!(side.engine.tick(&mut side.store, 10), none());
    assert_eq!(side.engine.sessions()[0].outcome(), Some(Outcome::Timeout));
    assert_eq!(side.engine.sessions()[1].outcome(), None);
    assert_eq!(
        side.engine.tick(&mut side.store, 15),
        vec![Message::NAK(s("b"), Some(vec![(0, 1)]))]
    );
    assert_eq!(side.engine.take_finished(), Some((1, Outcome::Timeout)));
}
