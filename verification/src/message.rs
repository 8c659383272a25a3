//! The messages of the file-transfer protocol and their form on the wire.

use vstd::prelude::*;
use crate::value::{copy_bytes, lemma_views, views, DataItem, ItemView};

verus! {

broadcast use lemma_views;

/// One message of the file-transfer protocol.
///
/// A channel id names one transfer session between two peers; a hash names the
/// content of one file; chunks are addressed by their zero-based index.
#[derive(Debug, PartialEq)]
pub enum Message {
    /// Asks whether the peer holds the file of this hash.
    Sync(String),
    /// Announces the hash of a file and the number of its chunks.
    Metadata(String, u32),
    /// Carries one chunk: hash, chunk index, data.
    ReceiveChunk(String, u32, Vec<u8>),
    /// Confirms that every chunk of the file of this hash has arrived.
    ACK(String),
    /// Lists the chunks of the file of this hash that are still missing, as
    /// inclusive pairs of first and last index.
    NAK(String, Option<Vec<(u32, u32)>>),
    /// Announces an export: channel id, hash, target path, file mode.
    ReqReceive(u64, String, String, Option<u32>),
    /// Asks for an import: channel id, source path.
    ReqTransmit(u64, String),
    /// Reports that an export has been received in full: channel id.
    SuccessReceive(u64),
    /// Answers an import request: channel id, hash, number of chunks, file mode.
    SuccessTransmit(u64, String, u32, Option<u32>),
    /// Ends a channel with a reason: channel id, reason.
    Failure(u64, String),
}

/// The mathematical model of a [`Message`].
pub enum MessageView {
    Sync(Seq<char>),
    Metadata(Seq<char>, u32),
    ReceiveChunk(Seq<char>, u32, Seq<u8>),
    ACK(Seq<char>),
    NAK(Seq<char>, Option<Seq<(u32, u32)>>),
    ReqReceive(u64, Seq<char>, Seq<char>, Option<u32>),
    ReqTransmit(u64, Seq<char>),
    SuccessReceive(u64),
    SuccessTransmit(u64, Seq<char>, u32, Option<u32>),
    Failure(u64, Seq<char>),
}

impl View for Message {
    type V = MessageView;

    open spec fn view(&self) -> MessageView {
        match self {
            Message::Sync(hash) => MessageView::Sync(hash@),
            Message::Metadata(hash, num_chunks) => MessageView::Metadata(hash@, *num_chunks),
            Message::ReceiveChunk(hash, index, data) => MessageView::ReceiveChunk(
                hash@,
                *index,
                data@,
            ),
            Message::ACK(hash) => MessageView::ACK(hash@),
            Message::NAK(hash, ranges) => MessageView::NAK(
                hash@,
                match ranges {
                    Some(pairs) => Some(pairs@),
                    None => None,
                },
            ),
            Message::ReqReceive(channel_id, hash, path, mode) => MessageView::ReqReceive(
                *channel_id,
                hash@,
                path@,
                *mode,
            ),
            Message::ReqTransmit(channel_id, path) => MessageView::ReqTransmit(*channel_id, path@),
            Message::SuccessReceive(channel_id) => MessageView::SuccessReceive(*channel_id),
            Message::SuccessTransmit(channel_id, hash, num_chunks, mode) => {
                MessageView::SuccessTransmit(*channel_id, hash@, *num_chunks, *mode)
            },
            Message::Failure(channel_id, reason) => MessageView::Failure(*channel_id, reason@),
        }
    }
}

/// The trailing file mode of a request or reply: one integer when it is known, nothing
/// otherwise.
pub open spec fn mode_items(mode: Option<u32>) -> Seq<ItemView> {
    match mode {
        Some(bits) => seq![ItemView::U64(bits as u64)],
        None => Seq::empty(),
    }
}

/// The chunk ranges of a NAK laid out flat: first and last index of each pair in turn.
pub open spec fn range_items(ranges: Seq<(u32, u32)>) -> Seq<ItemView> {
    Seq::new(
        2 * ranges.len(),
        |i: int|
            if i % 2 == 0 {
                ItemView::U64(ranges[i / 2].0 as u64)
            } else {
                ItemView::U64(ranges[i / 2].1 as u64)
            },
    )
}

impl MessageView {
    /// The items of the array that carries this message.
    pub open spec fn wire_items(self) -> Seq<ItemView> {
        match self {
            MessageView::Sync(hash) => seq![ItemView::Text(hash)],
            MessageView::Metadata(hash, num_chunks) => seq![
                ItemView::Text(hash),
                ItemView::U64(num_chunks as u64),
            ],
            MessageView::ReceiveChunk(hash, index, data) => seq![
                ItemView::Text(hash),
                ItemView::U64(index as u64),
                ItemView::Bytes(data),
            ],
            MessageView::ACK(hash) => seq![ItemView::Text(hash), ItemView::Bool(true)],
            MessageView::NAK(hash, ranges) => seq![ItemView::Text(hash), ItemView::Bool(false)]
                + match ranges {
                Some(pairs) => range_items(pairs),
                None => Seq::empty(),
            },
            MessageView::ReqReceive(channel_id, hash, path, mode) => seq![
                ItemView::U64(channel_id),
                ItemView::Text("export"@),
                ItemView::Text(hash),
                ItemView::Text(path),
            ] + mode_items(mode),
            MessageView::ReqTransmit(channel_id, path) => seq![
                ItemView::U64(channel_id),
                ItemView::Text("import"@),
                ItemView::Text(path),
            ],
            MessageView::SuccessReceive(channel_id) => seq![
                ItemView::U64(channel_id),
                ItemView::Bool(true),
            ],
            MessageView::SuccessTransmit(channel_id, hash, num_chunks, mode) => seq![
                ItemView::U64(channel_id),
                ItemView::Bool(true),
                ItemView::Text(hash),
                ItemView::U64(num_chunks as u64),
            ] + mode_items(mode),
            MessageView::Failure(channel_id, reason) => seq![
                ItemView::U64(channel_id),
                ItemView::Bool(false),
                ItemView::Text(reason),
            ],
        }
    }

    /// Whether the wire form says all that this message says: a NAK without a list of
    /// ranges travels as a NAK with the empty list.
    pub open spec fn plain(self) -> bool {
        !(self matches MessageView::NAK(_, None))
    }

    /// The value tree that carries this message: one array.
    pub open spec fn wire(self) -> ItemView {
        ItemView::Array(self.wire_items())
    }
}

/// Copies a list of ranges.
fn copy_ranges(ranges: &Vec<(u32, u32)>) -> (r: Vec<(u32, u32)>)
    ensures
        r@ == ranges@,
{
    let mut out: Vec<(u32, u32)> = Vec::new();
    let mut i: usize = 0;
    while i < ranges.len()
        invariant
            i <= ranges.len(),
            out@ == ranges@.subrange(0, i as int),
        decreases ranges.len() - i,
    {
        out.push(ranges[i]);
        proof {
            assert(out@ =~= ranges@.subrange(0, i + 1));
        }
        i += 1;
    }
    proof {
        assert(ranges@.subrange(0, i as int) =~= ranges@);
    }
    out
}

impl Clone for Message {
    fn clone(&self) -> (r: Message)
        ensures
            r@ == self@,
    {
        match self {
            Message::Sync(hash) => Message::Sync(hash.clone()),
            Message::Metadata(hash, num_chunks) => Message::Metadata(hash.clone(), *num_chunks),
            Message::ReceiveChunk(hash, index, data) => Message::ReceiveChunk(
                hash.clone(),
                *index,
                copy_bytes(data),
            ),
            Message::ACK(hash) => Message::ACK(hash.clone()),
            Message::NAK(hash, ranges) => Message::NAK(
                hash.clone(),
                match ranges {
                    Some(pairs) => Some(copy_ranges(pairs)),
                    None => None,
                },
            ),
            Message::ReqReceive(channel_id, hash, path, mode) => Message::ReqReceive(
                *channel_id,
                hash.clone(),
                path.clone(),
                *mode,
            ),
            Message::ReqTransmit(channel_id, path) => Message::ReqTransmit(
                *channel_id,
                path.clone(),
            ),
            Message::SuccessReceive(channel_id) => Message::SuccessReceive(*channel_id),
            Message::SuccessTransmit(channel_id, hash, num_chunks, mode) => {
                Message::SuccessTransmit(*channel_id, hash.clone(), *num_chunks, *mode)
            },
            Message::Failure(channel_id, reason) => Message::Failure(*channel_id, reason.clone()),
        }
    }
}

/// Appends the flat form of `ranges` to `items`.
fn push_ranges(items: &mut Vec<DataItem>, ranges: &Vec<(u32, u32)>)
    ensures
        views(final(items)@) == views(old(items)@) + range_items(ranges@),
{
    let ghost before = views(items@);
    let mut k: usize = 0;
    while k < ranges.len()
        invariant
            k <= ranges.len(),
            views(items@) == before + range_items(ranges@.subrange(0, k as int)),
        decreases ranges.len() - k,
    {
        let (first, last) = ranges[k];
        let ghost so_far = views(items@);
        items.push(DataItem::U64(first as u64));
        items.push(DataItem::U64(last as u64));
        proof {
            let next = ranges@.subrange(0, k + 1);
            let prev = ranges@.subrange(0, k as int);
            let pair = seq![ItemView::U64(first as u64), ItemView::U64(last as u64)];
            assert(views(items@) =~= so_far + pair);
            assert(range_items(next) =~= range_items(prev) + pair) by {
                assert forall|i: int| 0 <= i < 2 * next.len() implies #[trigger] range_items(
                    next,
                )[i] == (range_items(prev) + pair)[i] by {
                    if i < 2 * prev.len() {
                        assert(next[i / 2] == prev[i / 2]);
                    } else {
                        assert(i / 2 == k);
                        assert(next[i / 2] == ranges@[k as int]);
                    }
                }
            }
            assert(so_far + pair =~= before + (range_items(prev) + pair));
        }
        k += 1;
    }
    proof {
        assert(ranges@.subrange(0, k as int) =~= ranges@);
    }
}

impl Message {
    /// Builds the value tree that carries this message.
    pub fn to_item(&self) -> (r: DataItem)
        ensures
            r@ == self@.wire(),
    {
        let mut items: Vec<DataItem> = Vec::new();
        proof {
            assert(views(items@) =~= Seq::<ItemView>::empty());
        }
        match self {
            Message::Sync(hash) => {
                items.push(DataItem::Text(hash.clone()));
            },
            Message::Metadata(hash, num_chunks) => {
                items.push(DataItem::Text(hash.clone()));
                items.push(DataItem::U64(*num_chunks as u64));
            },
            Message::ReceiveChunk(hash, index, data) => {
                items.push(DataItem::Text(hash.clone()));
                items.push(DataItem::U64(*index as u64));
                items.push(DataItem::Bytes(copy_bytes(data)));
            },
            Message::ACK(hash) => {
                items.push(DataItem::Text(hash.clone()));
                items.push(DataItem::Bool(true));
            },
            Message::NAK(hash, ranges) => {
                items.push(DataItem::Text(hash.clone()));
                items.push(DataItem::Bool(false));
                match ranges {
                    Some(pairs) => {
                        push_ranges(&mut items, pairs);
                    },
                    None => {},
                }
            },
            Message::ReqReceive(channel_id, hash, path, mode) => {
                items.push(DataItem::U64(*channel_id));
                items.push(DataItem::Text("export".to_owned()));
                items.push(DataItem::Text(hash.clone()));
                items.push(DataItem::Text(path.clone()));
                match mode {
                    Some(bits) => {
                        items.push(DataItem::U64(*bits as u64));
                    },
                    None => {},
                }
            },
            Message::ReqTransmit(channel_id, path) => {
                items.push(DataItem::U64(*channel_id));
                items.push(DataItem::Text("import".to_owned()));
                items.push(DataItem::Text(path.clone()));
            },
            Message::SuccessReceive(channel_id) => {
                items.push(DataItem::U64(*channel_id));
                items.push(DataItem::Bool(true));
            },
            Message::SuccessTransmit(channel_id, hash, num_chunks, mode) => {
                items.push(DataItem::U64(*channel_id));
                items.push(DataItem::Bool(true));
                items.push(DataItem::Text(hash.clone()));
                items.push(DataItem::U64(*num_chunks as u64));
                match mode {
                    Some(bits) => {
                        items.push(DataItem::U64(*bits as u64));
                    },
                    None => {},
                }
            },
            Message::Failure(channel_id, reason) => {
                items.push(DataItem::U64(*channel_id));
                items.push(DataItem::Bool(false));
                items.push(DataItem::Text(reason.clone()));
            },
        }
        proof {
            assert(views(items@) =~= self@.wire_items());
        }
        DataItem::Array(items)
    }
}

/// The models of a run of messages, in order.
pub open spec fn message_views(messages: Seq<Message>) -> Seq<MessageView> {
    messages.map_values(|m: Message| m@)
}

/// No message to send.
pub(crate) fn nothing() -> (r: Vec<Message>)
    ensures
        message_views(r@) == Seq::<MessageView>::empty(),
{
    let out: Vec<Message> = Vec::new();
    proof {
        assert(message_views(out@) =~= Seq::<MessageView>::empty());
    }
    out
}

/// One message to send.
pub(crate) fn one(message: Message) -> (r: Vec<Message>)
    ensures
        message_views(r@) == seq![message@],
{
    let mut out: Vec<Message> = Vec::new();
    out.push(message);
    proof {
        assert(message_views(out@) =~= seq![message@]);
    }
    out
}

/// Two messages to send, in this order.
pub(crate) fn two(first: Message, second: Message) -> (r: Vec<Message>)
    ensures
        message_views(r@) == seq![first@, second@],
{
    let mut out: Vec<Message> = Vec::new();
    out.push(first);
    out.push(second);
    proof {
        assert(message_views(out@) =~= seq![first@, second@]);
    }
    out
}

} // verus!
