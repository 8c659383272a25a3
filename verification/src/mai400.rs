//! Framing for the serial link to the MAI-400 attitude control board.
//!
//! Commands to the board are 40 bytes long. Messages from the board start with a
//! two-byte sync word, low byte first; whatever follows is read in blocks until at
//! least 200 bytes have come in.

use vstd::prelude::*;
use crate::little_endian::first_u16;

verus! {

/// Length of every command to the board, in bytes.
pub const COMMAND_LEN: usize = 40;

/// Number of bytes asked for when a sync word is awaited.
pub const SYNC_LEN: usize = 2;

/// Number of bytes asked for by each read that follows a sync word.
pub const BLOCK_LEN: usize = 46;

/// Number of bytes after the sync word at which a message is handed out.
pub const BODY_LEN: usize = 200;

/// What can go wrong on the link.
#[derive(Copy, Clone, Debug, PartialEq, Eq)]
pub enum MAIError {
    /// A command is not `COMMAND_LEN` bytes long.
    BadCommandLen,
    /// The serial port could not be opened or set up.
    SerialError,
    /// Reading from or writing to the serial port failed.
    IoError,
}

/// The result of an operation on the link.
pub type MAIResult<T> = Result<T, MAIError>;

/// A byte stream to and from the board.
///
/// What a stream answers depends on the device behind it. A stream may say which
/// answers it can give, by `may_write` and `may_read`; one that says nothing can give
/// any answer. Of a stream that is not known, nothing is known of these two but that
/// its answers meet them.
pub trait Stream {
    /// Whether `answer` is an answer that this stream can give to a write of `data`.
    open spec fn may_write(&self, data: Seq<u8>, answer: MAIResult<()>) -> bool {
        true
    }

    /// Whether `answer` is an answer that this stream can give to a read.
    open spec fn may_read(&self, answer: MAIResult<Vec<u8>>) -> bool {
        true
    }

    /// Writes raw bytes to the stream.
    fn write(&self, data: &[u8]) -> (r: MAIResult<()>)
        ensures
            self.may_write(data@, r),
    ;

    /// Reads raw bytes from the stream: the next message from the board.
    fn read(&self) -> (r: MAIResult<Vec<u8>>)
        ensures
            self.may_read(r),
    ;
}

/// A connection to the board over some stream.
pub struct Connection {
    /// The stream to the board; behind a `Box` so that any stream can stand here.
    pub stream: Box<dyn Stream>,
}

/// Whether `data` has the length of a command.
pub fn check_command(data: &[u8]) -> (r: MAIResult<()>)
    ensures
        r == if data@.len() == COMMAND_LEN {
            Ok::<(), MAIError>(())
        } else {
            Err::<(), MAIError>(MAIError::BadCommandLen)
        },
{
    if data.len() != COMMAND_LEN {
        Err(MAIError::BadCommandLen)
    } else {
        Ok(())
    }
}

impl Connection {
    /// Makes a connection out of a stream.
    pub fn new(stream: Box<dyn Stream>) -> (r: Connection)
        ensures
            r == (Connection { stream }),
    {
        Connection { stream }
    }

    /// Writes a command to the board. A command of the wrong length is turned down and
    /// nothing is written.
    pub fn write(&self, data: &[u8]) -> (r: MAIResult<()>)
        ensures
            data@.len() != COMMAND_LEN ==> r == Err::<(), MAIError>(MAIError::BadCommandLen),
            data@.len() == COMMAND_LEN ==> self.stream.may_write(data@, r),
    {
        match check_command(data) {
            Ok(()) => self.stream.write(data),
            Err(e) => Err(e),
        }
    }

    /// Waits for the next message from the board and returns it.
    pub fn read(&self) -> (r: MAIResult<Vec<u8>>)
        ensures
            self.stream.may_read(r),
    {
        self.stream.read()
    }
}

/// What the serial port answered to the last read that a [`FrameReader`] asked for.
#[derive(Debug, PartialEq, Eq)]
pub enum ReadEvent {
    /// The bytes that came in; fewer than asked for, where no more were ready.
    Bytes(Vec<u8>),
    /// Nothing came in before the time ran out.
    TimedOut,
    /// The port reported another error.
    Failed,
}

/// What a [`FrameReader`] wants done next.
#[derive(Debug, PartialEq, Eq)]
pub enum ReadAction {
    /// Read up to `SYNC_LEN` bytes, with a short timeout.
    ReadSync,
    /// Read up to `BLOCK_LEN` bytes.
    ReadBlock,
    /// The message is complete: hand it out.
    Deliver(Vec<u8>),
    /// Give up with `MAIError::IoError`.
    Abort,
}

/// The mathematical model of a [`ReadEvent`].
pub enum ReadEventView {
    Bytes(Seq<u8>),
    TimedOut,
    Failed,
}

/// The mathematical model of a [`ReadAction`].
pub enum ReadActionView {
    ReadSync,
    ReadBlock,
    Deliver(Seq<u8>),
    Abort,
}

impl View for ReadEvent {
    type V = ReadEventView;

    open spec fn view(&self) -> ReadEventView {
        match self {
            ReadEvent::Bytes(b) => ReadEventView::Bytes(b@),
            ReadEvent::TimedOut => ReadEventView::TimedOut,
            ReadEvent::Failed => ReadEventView::Failed,
        }
    }
}

impl View for ReadAction {
    type V = ReadActionView;

    open spec fn view(&self) -> ReadActionView {
        match self {
            ReadAction::ReadSync => ReadActionView::ReadSync,
            ReadAction::ReadBlock => ReadActionView::ReadBlock,
            ReadAction::Deliver(m) => ReadActionView::Deliver(m@),
            ReadAction::Abort => ReadActionView::Abort,
        }
    }
}

/// Decides, read by read, how one message from the board is put together.
///
/// The reader hunts for the sync word; once it has come in, blocks are added to the
/// message until `BODY_LEN` bytes have followed the sync word.
pub struct FrameReader {
    sync: u16,
    collected: Option<Vec<u8>>,
}

/// The mathematical model of a [`FrameReader`].
pub struct FrameReaderView {
    /// The sync word that opens a message.
    pub sync: u16,
    /// The message so far, sync word included; `None` while the sync word is awaited.
    pub collected: Option<Seq<u8>>,
}

/// Whether two bytes spell the sync word, low byte first.
pub open spec fn spells(bytes: Seq<u8>, sync: u16) -> bool {
    bytes.len() >= 2 && sync == bytes[0] as int + 256 * bytes[1] as int
}

impl FrameReaderView {
    /// A message under way starts with the sync word and is not yet complete.
    pub open spec fn wf(self) -> bool {
        match self.collected {
            Some(message) => spells(message, self.sync) && message.len() < SYNC_LEN + BODY_LEN,
            None => true,
        }
    }

    /// Whether `event` can be the answer to the read that this reader asked for last: a
    /// block holds at most `BLOCK_LEN` bytes.
    pub open spec fn admits(self, event: ReadEventView) -> bool {
        self.collected is Some ==> (event matches ReadEventView::Bytes(block) ==> block.len()
            <= BLOCK_LEN)
    }

    /// The reader after `event`, and what it wants done next.
    pub open spec fn step(self, event: ReadEventView) -> (FrameReaderView, ReadActionView) {
        let hunting = FrameReaderView { sync: self.sync, collected: None };
        match self.collected {
            None => match event {
                ReadEventView::Bytes(bytes) => if bytes.len() == SYNC_LEN && spells(
                    bytes,
                    self.sync,
                ) {
                    (
                        FrameReaderView { sync: self.sync, collected: Some(bytes) },
                        ReadActionView::ReadBlock,
                    )
                } else {
                    (hunting, ReadActionView::ReadSync)
                },
                ReadEventView::TimedOut => (hunting, ReadActionView::ReadSync),
                ReadEventView::Failed => (hunting, ReadActionView::Abort),
            },
            Some(message) => match event {
                ReadEventView::Bytes(block) => if message.len() + block.len() >= SYNC_LEN
                    + BODY_LEN {
                    (hunting, ReadActionView::Deliver(message + block))
                } else {
                    (
                        FrameReaderView { sync: self.sync, collected: Some(message + block) },
                        ReadActionView::ReadBlock,
                    )
                },
                _ => (self, ReadActionView::ReadBlock),
            },
        }
    }
}

impl View for FrameReader {
    type V = FrameReaderView;

    closed spec fn view(&self) -> FrameReaderView {
        FrameReaderView {
            sync: self.sync,
            collected: match self.collected {
                Some(message) => Some(message@),
                None => None,
            },
        }
    }
}

impl FrameReader {
    /// A reader that hunts for `sync`. The first thing to do is `ReadAction::ReadSync`.
    pub fn new(sync: u16) -> (r: FrameReader)
        ensures
            r@ == (FrameReaderView { sync, collected: None }),
            r@.wf(),
    {
        FrameReader { sync, collected: None }
    }

    /// Takes the answer to the last read and says what to do next.
    pub fn step(&mut self, event: ReadEvent) -> (r: ReadAction)
        requires
            old(self)@.wf(),
            old(self)@.admits(event@),
        ensures
            (final(self)@, r@) == old(self)@.step(event@),
            final(self)@.wf(),
            r matches ReadAction::Deliver(message) ==> spells(message@, old(self)@.sync)
                && message@.len() >= SYNC_LEN + BODY_LEN,
    {
        let collected = self.collected.take();
        match collected {
            None => match event {
                ReadEvent::Bytes(bytes) => {
                    if bytes.len() == SYNC_LEN && first_u16(bytes.as_slice()) == self.sync {
                        self.collected = Some(bytes);
                        ReadAction::ReadBlock
                    } else {
                        ReadAction::ReadSync
                    }
                },
                ReadEvent::TimedOut => ReadAction::ReadSync,
                ReadEvent::Failed => ReadAction::Abort,
            },
            Some(mut message) => match event {
                ReadEvent::Bytes(mut block) => {
                    let ghost before = message@;
                    message.append(&mut block);
                    if message.len() >= SYNC_LEN + BODY_LEN {
                        ReadAction::Deliver(message)
                    } else {
                        self.collected = Some(message);
                        ReadAction::ReadBlock
                    }
                },
                _ => {
                    self.collected = Some(message);
                    ReadAction::ReadBlock
                },
            },
        }
    }
}

} // verus!
