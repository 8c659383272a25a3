//! Recognition of protocol messages in decoded value trees.
//!
//! Every message travels as one array. Each message form has a recognizer that
//! answers with the message, with "not this form", or with the reason why an
//! array that announces the form does not complete it. [`parse_message`] asks
//! the recognizers in a fixed order and takes the first message found.

use vstd::prelude::*;
use crate::message::{Message, MessageView};
use crate::value::{copy_bytes, lemma_views, views, DataItem, ItemView};

verus! {

broadcast use lemma_views;

/// Why an array that announces a message form does not complete it.
#[derive(Debug, PartialEq, Eq, Clone, Copy)]
pub enum Malformation {
    /// The value is no array.
    NotAnArray,
    /// The array is empty.
    NoContents,
    /// An export request ends before its hash.
    ExportNoHash,
    /// The hash of an export request is no string.
    ExportInvalidHash,
    /// An export request ends before its path.
    ExportNoPath,
    /// The path of an export request is no string.
    ExportInvalidPath,
    /// An import request ends before its path.
    ImportNoPath,
    /// The path of an import request is no string.
    ImportInvalidPath,
    /// The hash of a transmit reply is no string.
    SuccessInvalidHash,
    /// A transmit reply ends before its number of chunks.
    SuccessNoNumChunks,
    /// The number of chunks of a transmit reply is no unsigned integer.
    SuccessInvalidNumChunks,
    /// A failure report ends before its reason.
    FailureNoError,
    /// The reason of a failure report is no string.
    FailureInvalidError,
    /// A chunk index of a NAK is no unsigned integer.
    NakInvalidIndex,
    /// The chunk indices of a NAK do not pair up.
    NakUnpairedIndex,
    /// The data of a chunk is no byte string.
    ChunkInvalidData,
}

/// Why no message came out of a value tree.
#[derive(Debug, PartialEq, Eq, Clone, Copy)]
pub enum ParseError {
    /// The array has none of the known forms.
    Unknown,
    /// The array announces a form and does not complete it.
    MalformedShape(Malformation),
}

impl Malformation {
    /// The wording of this reason.
    pub open spec fn text(self) -> Seq<char> {
        match self {
            Malformation::NotAnArray => "Unable to parse message: Data not an array"@,
            Malformation::NoContents => "Unable to parse message: No contents"@,
            Malformation::ExportNoHash => "Unable to parse export message: No hash param"@,
            Malformation::ExportInvalidHash => "Unable to parse export message: Invalid hash param"@,
            Malformation::ExportNoPath => "Unable to parse export message: No path param"@,
            Malformation::ExportInvalidPath => "Unable to parse export message: Invalid path param"@,
            Malformation::ImportNoPath => "Unable to parse import message: No path param"@,
            Malformation::ImportInvalidPath => "Unable to parse import message: Invalid path param"@,
            Malformation::SuccessInvalidHash => "Unable to parse success message: Invalid hash param"@,
            Malformation::SuccessNoNumChunks => "Unable to parse success message: No num_chunks param"@,
            Malformation::SuccessInvalidNumChunks => "Unable to parse success message: Invalid num_chunks param"@,
            Malformation::FailureNoError => "Unable to parse failure message: No error param"@,
            Malformation::FailureInvalidError => "Unable to parse failure message: Invalid error param"@,
            Malformation::NakInvalidIndex => "Unable to parse nak message: Invalid chunk index"@,
            Malformation::NakUnpairedIndex => "Unable to parse nak message: Unpaired chunk index"@,
            Malformation::ChunkInvalidData => "Unable to parse chunk message: Invalid data format"@,
        }
    }

    /// Writes this reason out.
    pub fn message(&self) -> (r: String)
        ensures
            r@ == self.text(),
    {
        match self {
            Malformation::NotAnArray => "Unable to parse message: Data not an array".to_owned(),
            Malformation::NoContents => "Unable to parse message: No contents".to_owned(),
            Malformation::ExportNoHash => "Unable to parse export message: No hash param".to_owned(),
            Malformation::ExportInvalidHash => "Unable to parse export message: Invalid hash param".to_owned(),
            Malformation::ExportNoPath => "Unable to parse export message: No path param".to_owned(),
            Malformation::ExportInvalidPath => "Unable to parse export message: Invalid path param".to_owned(),
            Malformation::ImportNoPath => "Unable to parse import message: No path param".to_owned(),
            Malformation::ImportInvalidPath => "Unable to parse import message: Invalid path param".to_owned(),
            Malformation::SuccessInvalidHash => "Unable to parse success message: Invalid hash param".to_owned(),
            Malformation::SuccessNoNumChunks => "Unable to parse success message: No num_chunks param".to_owned(),
            Malformation::SuccessInvalidNumChunks => "Unable to parse success message: Invalid num_chunks param".to_owned(),
            Malformation::FailureNoError => "Unable to parse failure message: No error param".to_owned(),
            Malformation::FailureInvalidError => "Unable to parse failure message: Invalid error param".to_owned(),
            Malformation::NakInvalidIndex => "Unable to parse nak message: Invalid chunk index".to_owned(),
            Malformation::NakUnpairedIndex => "Unable to parse nak message: Unpaired chunk index".to_owned(),
            Malformation::ChunkInvalidData => "Unable to parse chunk message: Invalid data format".to_owned(),
        }
    }
}

impl ParseError {
    /// The wording of this error.
    pub open spec fn text(self) -> Seq<char> {
        match self {
            ParseError::Unknown => "No message found"@,
            ParseError::MalformedShape(reason) => reason.text(),
        }
    }

    /// Writes this error out.
    pub fn message(&self) -> (r: String)
        ensures
            r@ == self.text(),
    {
        match self {
            ParseError::Unknown => "No message found".to_owned(),
            ParseError::MalformedShape(reason) => reason.message(),
        }
    }
}

/// What one recognizer makes of a value tree, over models.
pub type Outcome = Result<Option<MessageView>, Malformation>;

/// The items of a message array: every recognizer asks for a non-empty array first.
pub open spec fn elements(v: ItemView) -> Result<Seq<ItemView>, Malformation> {
    match v {
        ItemView::Array(items) => if items.len() == 0 {
            Err(Malformation::NoContents)
        } else {
            Ok(items)
        },
        _ => Err(Malformation::NotAnArray),
    }
}

/// A count, an index or a file mode travels as a 64-bit integer; its low 32 bits are kept.
pub open spec fn narrow(n: u64) -> u32 {
    (n % 0x1_0000_0000) as u32
}

/// The optional trailing integer at position `at`.
pub open spec fn optional_number(items: Seq<ItemView>, at: int) -> Option<u32> {
    if at < items.len() && items[at] is U64 {
        Some(narrow(items[at]->U64_0))
    } else {
        None
    }
}

/// The array starts with a channel id followed by the string `word`.
pub open spec fn opens_with_word(items: Seq<ItemView>, word: Seq<char>) -> bool {
    items.len() >= 2 && items[0] is U64 && items[1] == ItemView::Text(word)
}

/// The array starts with a channel id followed by the boolean `flag`.
pub open spec fn opens_with_channel_flag(items: Seq<ItemView>, flag: bool) -> bool {
    items.len() >= 2 && items[0] is U64 && items[1] == ItemView::Bool(flag)
}

/// The array starts with a hash followed by the boolean `flag`.
pub open spec fn opens_with_hash_flag(items: Seq<ItemView>, flag: bool) -> bool {
    items.len() >= 2 && items[0] is Text && items[1] == ItemView::Bool(flag)
}

/// Export request: channel id, `"export"`, hash, path and, optionally, the file mode.
pub open spec fn export_shape(v: ItemView) -> Outcome {
    match elements(v) {
        Err(reason) => Err(reason),
        Ok(items) => if !opens_with_word(items, "export"@) {
            Ok(None)
        } else if items.len() < 3 {
            Err(Malformation::ExportNoHash)
        } else if !(items[2] is Text) {
            Err(Malformation::ExportInvalidHash)
        } else if items.len() < 4 {
            Err(Malformation::ExportNoPath)
        } else if !(items[3] is Text) {
            Err(Malformation::ExportInvalidPath)
        } else {
            Ok(
                Some(
                    MessageView::ReqReceive(
                        items[0]->U64_0,
                        items[2]->Text_0,
                        items[3]->Text_0,
                        optional_number(items, 4),
                    ),
                ),
            )
        },
    }
}

/// Import request: channel id, `"import"`, path.
pub open spec fn import_shape(v: ItemView) -> Outcome {
    match elements(v) {
        Err(reason) => Err(reason),
        Ok(items) => if !opens_with_word(items, "import"@) {
            Ok(None)
        } else if items.len() < 3 {
            Err(Malformation::ImportNoPath)
        } else if !(items[2] is Text) {
            Err(Malformation::ImportInvalidPath)
        } else {
            Ok(Some(MessageView::ReqTransmit(items[0]->U64_0, items[2]->Text_0)))
        },
    }
}

/// Receipt of an export: channel id and `true`, nothing more.
pub open spec fn success_receive_shape(v: ItemView) -> Outcome {
    match elements(v) {
        Err(reason) => Err(reason),
        Ok(items) => if opens_with_channel_flag(items, true) && items.len() == 2 {
            Ok(Some(MessageView::SuccessReceive(items[0]->U64_0)))
        } else {
            Ok(None)
        },
    }
}

/// Reply to an import: channel id, `true`, hash, number of chunks and, optionally, the
/// file mode.
pub open spec fn success_transmit_shape(v: ItemView) -> Outcome {
    match elements(v) {
        Err(reason) => Err(reason),
        Ok(items) => if !(opens_with_channel_flag(items, true) && items.len() >= 3) {
            Ok(None)
        } else if !(items[2] is Text) {
            Err(Malformation::SuccessInvalidHash)
        } else if items.len() < 4 {
            Err(Malformation::SuccessNoNumChunks)
        } else if !(items[3] is U64) {
            Err(Malformation::SuccessInvalidNumChunks)
        } else {
            Ok(
                Some(
                    MessageView::SuccessTransmit(
                        items[0]->U64_0,
                        items[2]->Text_0,
                        narrow(items[3]->U64_0),
                        optional_number(items, 4),
                    ),
                ),
            )
        },
    }
}

/// Failure report: channel id, `false`, reason.
pub open spec fn bad_op_shape(v: ItemView) -> Outcome {
    match elements(v) {
        Err(reason) => Err(reason),
        Ok(items) => if !opens_with_channel_flag(items, false) {
            Ok(None)
        } else if items.len() < 3 {
            Err(Malformation::FailureNoError)
        } else if !(items[2] is Text) {
            Err(Malformation::FailureInvalidError)
        } else {
            Ok(Some(MessageView::Failure(items[0]->U64_0, items[2]->Text_0)))
        },
    }
}

/// ACK: hash and `true`; whatever follows is ignored.
pub open spec fn ack_shape(v: ItemView) -> Outcome {
    match elements(v) {
        Err(reason) => Err(reason),
        Ok(items) => if opens_with_hash_flag(items, true) {
            Ok(Some(MessageView::ACK(items[0]->Text_0)))
        } else {
            Ok(None)
        },
    }
}

/// Every item from position `from` on is an unsigned integer.
pub open spec fn all_numbers(items: Seq<ItemView>, from: int) -> bool {
    forall|i: int| from <= i < items.len() ==> (#[trigger] items[i]) is U64
}

/// The items from position `from` on, read as pairs of chunk indices.
pub open spec fn paired(items: Seq<ItemView>, from: int) -> Seq<(u32, u32)> {
    Seq::new(
        ((items.len() - from) / 2) as nat,
        |k: int| (narrow(items[from + 2 * k]->U64_0), narrow(items[from + 2 * k + 1]->U64_0)),
    )
}

/// NAK: hash, `false`, then pairs of first and last missing chunk index.
pub open spec fn nak_shape(v: ItemView) -> Outcome {
    match elements(v) {
        Err(reason) => Err(reason),
        Ok(items) => if !opens_with_hash_flag(items, false) {
            Ok(None)
        } else if !all_numbers(items, 2) {
            Err(Malformation::NakInvalidIndex)
        } else if items.len() % 2 != 0 {
            Err(Malformation::NakUnpairedIndex)
        } else {
            Ok(Some(MessageView::NAK(items[0]->Text_0, Some(paired(items, 2)))))
        },
    }
}

/// Chunk: hash, chunk index, data.
pub open spec fn chunk_shape(v: ItemView) -> Outcome {
    match elements(v) {
        Err(reason) => Err(reason),
        Ok(items) => if !(items.len() >= 3 && items[0] is Text && items[1] is U64) {
            Ok(None)
        } else if !(items[2] is Bytes) {
            Err(Malformation::ChunkInvalidData)
        } else {
            Ok(
                Some(
                    MessageView::ReceiveChunk(
                        items[0]->Text_0,
                        narrow(items[1]->U64_0),
                        items[2]->Bytes_0,
                    ),
                ),
            )
        },
    }
}

/// Sync: a hash alone. Metadata: a hash and the number of chunks, nothing more.
pub open spec fn sync_shape(v: ItemView) -> Outcome {
    match elements(v) {
        Err(reason) => Err(reason),
        Ok(items) => if !(items[0] is Text) {
            Ok(None)
        } else if items.len() == 1 {
            Ok(Some(MessageView::Sync(items[0]->Text_0)))
        } else if items.len() == 2 && items[1] is U64 {
            Ok(Some(MessageView::Metadata(items[0]->Text_0, narrow(items[1]->U64_0))))
        } else {
            Ok(None)
        },
    }
}

/// Whom a message array is meant for, as far as its first item tells: the session of a
/// channel, or the sessions that transfer the file of a hash.
#[derive(Debug, PartialEq, Eq)]
pub enum Address {
    /// The array starts with a channel id.
    Channel(u64),
    /// The array starts with a hash.
    Hash(String),
    /// The value is no array, or the array starts with neither.
    Nobody,
}

/// The mathematical model of an [`Address`].
pub enum AddressView {
    Channel(u64),
    Hash(Seq<char>),
    Nobody,
}

impl View for Address {
    type V = AddressView;

    open spec fn view(&self) -> AddressView {
        match self {
            Address::Channel(channel_id) => AddressView::Channel(*channel_id),
            Address::Hash(hash) => AddressView::Hash(hash@),
            Address::Nobody => AddressView::Nobody,
        }
    }
}

impl Clone for Address {
    fn clone(&self) -> (r: Address)
        ensures
            r@ == self@,
    {
        match self {
            Address::Channel(channel_id) => Address::Channel(*channel_id),
            Address::Hash(hash) => Address::Hash(hash.clone()),
            Address::Nobody => Address::Nobody,
        }
    }
}

/// Whom a value tree is meant for.
pub open spec fn addressee(v: ItemView) -> AddressView {
    match v {
        ItemView::Array(items) => if items.len() == 0 {
            AddressView::Nobody
        } else {
            match items[0] {
                ItemView::U64(channel_id) => AddressView::Channel(channel_id),
                ItemView::Text(hash) => AddressView::Hash(hash),
                _ => AddressView::Nobody,
            }
        },
        _ => AddressView::Nobody,
    }
}

/// The first of two outcomes that is not "not this form".
pub open spec fn or_else(first: Outcome, next: Outcome) -> Outcome {
    match first {
        Ok(None) => next,
        _ => first,
    }
}

/// The outcome of asking the recognizers in their fixed order.
pub open spec fn first_match(v: ItemView) -> Outcome {
    or_else(
        export_shape(v),
        or_else(
            import_shape(v),
            or_else(
                success_receive_shape(v),
                or_else(
                    success_transmit_shape(v),
                    or_else(
                        bad_op_shape(v),
                        or_else(
                            ack_shape(v),
                            or_else(nak_shape(v), or_else(chunk_shape(v), sync_shape(v))),
                        ),
                    ),
                ),
            ),
        ),
    )
}

/// The message that a value tree carries.
pub open spec fn message_shape(v: ItemView) -> Result<MessageView, ParseError> {
    match first_match(v) {
        Ok(Some(m)) => Ok(m),
        Ok(None) => Err(ParseError::Unknown),
        Err(reason) => Err(ParseError::MalformedShape(reason)),
    }
}

/// A recognizer's answer `r` is the one that `want` describes.
pub open spec fn answers(r: Result<Option<Message>, Malformation>, want: Outcome) -> bool {
    match want {
        Ok(Some(m)) => r matches Ok(Some(found)) && found@ == m,
        Ok(None) => r matches Ok(None),
        Err(reason) => r matches Err(e) && e == reason,
    }
}

/// A recognizer's answer `r`, with its error written out, is the one that `want` describes.
pub open spec fn tells(r: Result<Option<Message>, String>, want: Outcome) -> bool {
    match want {
        Ok(Some(m)) => r matches Ok(Some(found)) && found@ == m,
        Ok(None) => r matches Ok(None),
        Err(reason) => r matches Err(e) && e@ == reason.text(),
    }
}

/// The items of a message array.
fn items_of(message: &DataItem) -> (r: Result<&Vec<DataItem>, Malformation>)
    ensures
        match r {
            Ok(items) => elements(message@) == Ok::<Seq<ItemView>, Malformation>(views(items@)),
            Err(reason) => elements(message@) == Err::<Seq<ItemView>, Malformation>(reason),
        },
{
    match message {
        DataItem::Array(items) => {
            if items.len() == 0 {
                Err(Malformation::NoContents)
            } else {
                Ok(items)
            }
        },
        _ => Err(Malformation::NotAnArray),
    }
}

/// Keeps the low 32 bits of an integer that travelled in 64.
fn narrowed(n: u64) -> (r: u32)
    ensures
        r == narrow(n),
{
    (n % 0x1_0000_0000) as u32
}

/// The optional trailing integer at position `at`.
fn number_at(items: &Vec<DataItem>, at: usize) -> (r: Option<u32>)
    ensures
        r == optional_number(views(items@), at as int),
{
    if at < items.len() {
        match &items[at] {
            DataItem::U64(n) => Some(narrowed(*n)),
            _ => None,
        }
    } else {
        None
    }
}

/// Whether `item` is the string `word`.
fn is_word(item: &DataItem, word: &str) -> (r: bool)
    ensures
        r == (item@ == ItemView::Text(word@)),
{
    match item {
        DataItem::Text(s) => {
            let wanted = word.to_owned();
            *s == wanted
        },
        _ => false,
    }
}

/// Whether `item` is the boolean `flag`.
fn is_flag(item: &DataItem, flag: bool) -> (r: bool)
    ensures
        r == (item@ == ItemView::Bool(flag)),
{
    match item {
        DataItem::Bool(b) => *b == flag,
        _ => false,
    }
}

/// Finds whom a value tree is meant for. This works on arrays that carry no message
/// too, so that the session concerned can be told of a malformed message.
pub fn address_of(message: &DataItem) -> (r: Address)
    ensures
        r@ == addressee(message@),
{
    match message {
        DataItem::Array(items) => {
            proof {
                assert(message@ == ItemView::Array(views(items@)));
            }
            if items.len() == 0 {
                Address::Nobody
            } else {
                proof {
                    assert(views(items@)[0] == items@[0]@);
                }
                match &items[0] {
                    DataItem::U64(channel_id) => Address::Channel(*channel_id),
                    DataItem::Text(hash) => Address::Hash(hash.clone()),
                    _ => Address::Nobody,
                }
            }
        },
        _ => Address::Nobody,
    }
}

/// Recognizes an export request.
pub fn recognize_export_request(message: &DataItem) -> (r: Result<Option<Message>, Malformation>)
    ensures
        answers(r, export_shape(message@)),
{
    let items = match items_of(message) {
        Ok(items) => items,
        Err(reason) => {
            return Err(reason);
        },
    };
    if items.len() < 2 {
        return Ok(None);
    }
    let channel_id = match &items[0] {
        DataItem::U64(n) => *n,
        _ => {
            return Ok(None);
        },
    };
    if !is_word(&items[1], "export") {
        return Ok(None);
    }
    if items.len() < 3 {
        return Err(Malformation::ExportNoHash);
    }
    let hash = match &items[2] {
        DataItem::Text(s) => s.clone(),
        _ => {
            return Err(Malformation::ExportInvalidHash);
        },
    };
    if items.len() < 4 {
        return Err(Malformation::ExportNoPath);
    }
    let path = match &items[3] {
        DataItem::Text(s) => s.clone(),
        _ => {
            return Err(Malformation::ExportInvalidPath);
        },
    };
    let mode = number_at(items, 4);
    Ok(Some(Message::ReqReceive(channel_id, hash, path, mode)))
}

/// Recognizes an import request.
pub fn recognize_import_request(message: &DataItem) -> (r: Result<Option<Message>, Malformation>)
    ensures
        answers(r, import_shape(message@)),
{
    let items = match items_of(message) {
        Ok(items) => items,
        Err(reason) => {
            return Err(reason);
        },
    };
    if items.len() < 2 {
        return Ok(None);
    }
    let channel_id = match &items[0] {
        DataItem::U64(n) => *n,
        _ => {
            return Ok(None);
        },
    };
    if !is_word(&items[1], "import") {
        return Ok(None);
    }
    if items.len() < 3 {
        return Err(Malformation::ImportNoPath);
    }
    let path = match &items[2] {
        DataItem::Text(s) => s.clone(),
        _ => {
            return Err(Malformation::ImportInvalidPath);
        },
    };
    Ok(Some(Message::ReqTransmit(channel_id, path)))
}

/// Recognizes the receipt of an export.
pub fn recognize_success_receive(message: &DataItem) -> (r: Result<Option<Message>, Malformation>)
    ensures
        answers(r, success_receive_shape(message@)),
{
    let items = match items_of(message) {
        Ok(items) => items,
        Err(reason) => {
            return Err(reason);
        },
    };
    if items.len() != 2 {
        return Ok(None);
    }
    let channel_id = match &items[0] {
        DataItem::U64(n) => *n,
        _ => {
            return Ok(None);
        },
    };
    if !is_flag(&items[1], true) {
        return Ok(None);
    }
    Ok(Some(Message::SuccessReceive(channel_id)))
}

/// Recognizes the reply to an import.
pub fn recognize_success_transmit(message: &DataItem) -> (r: Result<Option<Message>, Malformation>)
    ensures
        answers(r, success_transmit_shape(message@)),
{
    let items = match items_of(message) {
        Ok(items) => items,
        Err(reason) => {
            return Err(reason);
        },
    };
    if items.len() < 3 {
        return Ok(None);
    }
    let channel_id = match &items[0] {
        DataItem::U64(n) => *n,
        _ => {
            return Ok(None);
        },
    };
    if !is_flag(&items[1], true) {
        return Ok(None);
    }
    let hash = match &items[2] {
        DataItem::Text(s) => s.clone(),
        _ => {
            return Err(Malformation::SuccessInvalidHash);
        },
    };
    if items.len() < 4 {
        return Err(Malformation::SuccessNoNumChunks);
    }
    let num_chunks = match &items[3] {
        DataItem::U64(n) => narrowed(*n),
        _ => {
            return Err(Malformation::SuccessInvalidNumChunks);
        },
    };
    let mode = number_at(items, 4);
    Ok(Some(Message::SuccessTransmit(channel_id, hash, num_chunks, mode)))
}

/// Recognizes a failure report.
pub fn recognize_bad_op(message: &DataItem) -> (r: Result<Option<Message>, Malformation>)
    ensures
        answers(r, bad_op_shape(message@)),
{
    let items = match items_of(message) {
        Ok(items) => items,
        Err(reason) => {
            return Err(reason);
        },
    };
    if items.len() < 2 {
        return Ok(None);
    }
    let channel_id = match &items[0] {
        DataItem::U64(n) => *n,
        _ => {
            return Ok(None);
        },
    };
    if !is_flag(&items[1], false) {
        return Ok(None);
    }
    if items.len() < 3 {
        return Err(Malformation::FailureNoError);
    }
    let error = match &items[2] {
        DataItem::Text(s) => s.clone(),
        _ => {
            return Err(Malformation::FailureInvalidError);
        },
    };
    Ok(Some(Message::Failure(channel_id, error)))
}

/// Recognizes an ACK.
pub fn recognize_ack(message: &DataItem) -> (r: Result<Option<Message>, Malformation>)
    ensures
        answers(r, ack_shape(message@)),
{
    let items = match items_of(message) {
        Ok(items) => items,
        Err(reason) => {
            return Err(reason);
        },
    };
    if items.len() < 2 {
        return Ok(None);
    }
    let hash = match &items[0] {
        DataItem::Text(s) => s.clone(),
        _ => {
            return Ok(None);
        },
    };
    if !is_flag(&items[1], true) {
        return Ok(None);
    }
    Ok(Some(Message::ACK(hash)))
}

/// Recognizes a NAK.
pub fn recognize_nak(message: &DataItem) -> (r: Result<Option<Message>, Malformation>)
    ensures
        answers(r, nak_shape(message@)),
{
    let items = match items_of(message) {
        Ok(items) => items,
        Err(reason) => {
            return Err(reason);
        },
    };
    if items.len() < 2 {
        return Ok(None);
    }
    let hash = match &items[0] {
        DataItem::Text(s) => s.clone(),
        _ => {
            return Ok(None);
        },
    };
    if !is_flag(&items[1], false) {
        return Ok(None);
    }
    let ghost all = views(items@);
    let mut at: usize = 2;
    while at < items.len()
        invariant
            2 <= at <= items.len(),
            all == views(items@),
            elements(message@) == Ok::<Seq<ItemView>, Malformation>(all),
            opens_with_hash_flag(all, false),
            forall|i: int| 2 <= i < at ==> (#[trigger] all[i]) is U64,
        decreases items.len() - at,
    {
        match &items[at] {
            DataItem::U64(_) => {},
            _ => {
                proof {
                    assert(!(all[at as int] is U64));
                    assert(!all_numbers(all, 2));
                }
                return Err(Malformation::NakInvalidIndex);
            },
        }
        at += 1;
    }
    if items.len() % 2 != 0 {
        return Err(Malformation::NakUnpairedIndex);
    }
    let mut ranges: Vec<(u32, u32)> = Vec::new();
    let mut at: usize = 2;
    while at < items.len()
        invariant
            2 <= at <= items.len(),
            at % 2 == 0,
            items.len() % 2 == 0,
            all == views(items@),
            all_numbers(all, 2),
            ranges@.len() == (at - 2) / 2,
            forall|k: int| 0 <= k < ranges@.len() ==> ranges@[k] == paired(all, 2)[k],
        decreases items.len() - at,
    {
        let first = match &items[at] {
            DataItem::U64(n) => narrowed(*n),
            _ => 0,
        };
        let last = match &items[at + 1] {
            DataItem::U64(n) => narrowed(*n),
            _ => 0,
        };
        proof {
            assert(all[at as int] is U64);
            assert(all[at + 1] is U64);
            let k = (at - 2) / 2;
            assert(2 + 2 * k == at);
        }
        ranges.push((first, last));
        at += 2;
    }
    proof {
        assert(ranges@ =~= paired(all, 2));
    }
    Ok(Some(Message::NAK(hash, Some(ranges))))
}

/// Recognizes a chunk.
pub fn recognize_chunk(message: &DataItem) -> (r: Result<Option<Message>, Malformation>)
    ensures
        answers(r, chunk_shape(message@)),
{
    let items = match items_of(message) {
        Ok(items) => items,
        Err(reason) => {
            return Err(reason);
        },
    };
    if items.len() < 3 {
        return Ok(None);
    }
    let hash = match &items[0] {
        DataItem::Text(s) => s.clone(),
        _ => {
            return Ok(None);
        },
    };
    let index = match &items[1] {
        DataItem::U64(n) => narrowed(*n),
        _ => {
            return Ok(None);
        },
    };
    match &items[2] {
        DataItem::Bytes(data) => Ok(Some(Message::ReceiveChunk(hash, index, copy_bytes(data)))),
        _ => Err(Malformation::ChunkInvalidData),
    }
}

/// Recognizes a sync request or a metadata announcement.
pub fn recognize_sync(message: &DataItem) -> (r: Result<Option<Message>, Malformation>)
    ensures
        answers(r, sync_shape(message@)),
{
    let items = match items_of(message) {
        Ok(items) => items,
        Err(reason) => {
            return Err(reason);
        },
    };
    let hash = match &items[0] {
        DataItem::Text(s) => s.clone(),
        _ => {
            return Ok(None);
        },
    };
    if items.len() == 1 {
        return Ok(Some(Message::Sync(hash)));
    }
    if items.len() == 2 {
        match &items[1] {
            DataItem::U64(n) => {
                return Ok(Some(Message::Metadata(hash, narrowed(*n))));
            },
            _ => {},
        }
    }
    Ok(None)
}

/// Finds the message that a value tree carries: the recognizers are asked in a fixed
/// order, and the first message or the first malformation ends the search.
pub fn recognize(message: &DataItem) -> (r: Result<Message, ParseError>)
    ensures
        match message_shape(message@) {
            Ok(m) => r matches Ok(found) && found@ == m,
            Err(e) => r matches Err(got) && got == e,
        },
{
    match recognize_export_request(message) {
        Ok(Some(found)) => {
            return Ok(found);
        },
        Ok(None) => {},
        Err(reason) => {
            return Err(ParseError::MalformedShape(reason));
        },
    }
    match recognize_import_request(message) {
        Ok(Some(found)) => {
            return Ok(found);
        },
        Ok(None) => {},
        Err(reason) => {
            return Err(ParseError::MalformedShape(reason));
        },
    }
    match recognize_success_receive(message) {
        Ok(Some(found)) => {
            return Ok(found);
        },
        Ok(None) => {},
        Err(reason) => {
            return Err(ParseError::MalformedShape(reason));
        },
    }
    match recognize_success_transmit(message) {
        Ok(Some(found)) => {
            return Ok(found);
        },
        Ok(None) => {},
        Err(reason) => {
            return Err(ParseError::MalformedShape(reason));
        },
    }
    match recognize_bad_op(message) {
        Ok(Some(found)) => {
            return Ok(found);
        },
        Ok(None) => {},
        Err(reason) => {
            return Err(ParseError::MalformedShape(reason));
        },
    }
    match recognize_ack(message) {
        Ok(Some(found)) => {
            return Ok(found);
        },
        Ok(None) => {},
        Err(reason) => {
            return Err(ParseError::MalformedShape(reason));
        },
    }
    match recognize_nak(message) {
        Ok(Some(found)) => {
            return Ok(found);
        },
        Ok(None) => {},
        Err(reason) => {
            return Err(ParseError::MalformedShape(reason));
        },
    }
    match recognize_chunk(message) {
        Ok(Some(found)) => {
            return Ok(found);
        },
        Ok(None) => {},
        Err(reason) => {
            return Err(ParseError::MalformedShape(reason));
        },
    }
    match recognize_sync(message) {
        Ok(Some(found)) => Ok(found),
        Ok(None) => Err(ParseError::Unknown),
        Err(reason) => Err(ParseError::MalformedShape(reason)),
    }
}

/// Writes the reason of a recognizer's answer out.
fn worded(answer: Result<Option<Message>, Malformation>) -> (r: Result<Option<Message>, String>)
    ensures
        forall|want: Outcome| answers(answer, want) ==> tells(r, want),
{
    match answer {
        Ok(found) => Ok(found),
        Err(reason) => Err(reason.message()),
    }
}

/// Parses a message of any form.
///
/// The result is the message that the array carries; `"No message found"` for an array
/// of no known form; the wording of the malformation otherwise.
pub fn parse_message(message: DataItem) -> (r: Result<Message, String>)
    ensures
        match message_shape(message@) {
            Ok(m) => r matches Ok(found) && found@ == m,
            Err(e) => r matches Err(text) && text@ == e.text(),
        },
{
    match recognize(&message) {
        Ok(found) => Ok(found),
        Err(e) => Err(e.message()),
    }
}

/// Parses an export request: `[channel_id, "export", hash, path, mode?]`.
pub fn parse_export_request(message: DataItem) -> (r: Result<Option<Message>, String>)
    ensures
        tells(r, export_shape(message@)),
{
    worded(recognize_export_request(&message))
}

/// Parses an import request: `[channel_id, "import", path]`.
pub fn parse_import_request(message: DataItem) -> (r: Result<Option<Message>, String>)
    ensures
        tells(r, import_shape(message@)),
{
    worded(recognize_import_request(&message))
}

/// Parses the receipt of an export: `[channel_id, true]`.
pub fn parse_success_receive(message: DataItem) -> (r: Result<Option<Message>, String>)
    ensures
        tells(r, success_receive_shape(message@)),
{
    worded(recognize_success_receive(&message))
}

/// Parses the reply to an import: `[channel_id, true, hash, num_chunks, mode?]`.
pub fn parse_success_transmit(message: DataItem) -> (r: Result<Option<Message>, String>)
    ensures
        tells(r, success_transmit_shape(message@)),
{
    worded(recognize_success_transmit(&message))
}

/// Parses a failure report: `[channel_id, false, reason]`.
pub fn parse_bad_op(message: DataItem) -> (r: Result<Option<Message>, String>)
    ensures
        tells(r, bad_op_shape(message@)),
{
    worded(recognize_bad_op(&message))
}

/// Parses an ACK: `[hash, true, ...]`.
pub fn parse_ack(message: DataItem) -> (r: Result<Option<Message>, String>)
    ensures
        tells(r, ack_shape(message@)),
{
    worded(recognize_ack(&message))
}

/// Parses a NAK: `[hash, false, first, last, first, last, ...]`.
pub fn parse_nak(message: DataItem) -> (r: Result<Option<Message>, String>)
    ensures
        tells(r, nak_shape(message@)),
{
    worded(recognize_nak(&message))
}

/// Parses a chunk: `[hash, index, data]`.
pub fn parse_chunk(message: DataItem) -> (r: Result<Option<Message>, String>)
    ensures
        tells(r, chunk_shape(message@)),
{
    worded(recognize_chunk(&message))
}

/// Parses a sync request `[hash]` or a metadata announcement `[hash, num_chunks]`.
pub fn parse_sync(message: DataItem) -> (r: Result<Option<Message>, String>)
    ensures
        tells(r, sync_shape(message@)),
{
    worded(recognize_sync(&message))
}

/// The low 32 bits of a widened 32-bit number are the number.
proof fn lemma_narrow_widened(n: u32)
    ensures
        narrow(n as u64) == n,
{
}

/// The two request words differ.
proof fn lemma_request_words_differ()
    ensures
        "export"@ != "import"@,
{
    reveal_strlit("export");
    reveal_strlit("import");
    assert("export"@[0] != "import"@[0]);
}

/// Reading the flat form of a list of ranges in pairs gives the list back.
proof fn lemma_pairs_of_flat_ranges(head: Seq<ItemView>, ranges: Seq<(u32, u32)>)
    requires
        head.len() == 2,
    ensures
        all_numbers(head + crate::message::range_items(ranges), 2),
        (head + crate::message::range_items(ranges)).len() % 2 == 0,
        paired(head + crate::message::range_items(ranges), 2) == ranges,
{
    let flat = crate::message::range_items(ranges);
    let items = head + flat;
    assert forall|i: int| 2 <= i < items.len() implies (#[trigger] items[i]) is U64 by {
        assert(items[i] == flat[i - 2]);
    }
    assert forall|k: int| 0 <= k < ranges.len() implies paired(items, 2)[k] == ranges[k] by {
        assert(items[2 + 2 * k] == flat[2 * k]);
        assert(items[2 + 2 * k + 1] == flat[2 * k + 1]);
        assert((2 * k) / 2 == k && (2 * k) % 2 == 0);
        assert((2 * k + 1) / 2 == k && (2 * k + 1) % 2 == 1);
        lemma_narrow_widened(ranges[k].0);
        lemma_narrow_widened(ranges[k].1);
    }
    assert(paired(items, 2) =~= ranges);
}

/// Recognition inverts the wire form: the value tree that carries a message is
/// recognized, by the first recognizer that matches, as that same message. A NAK
/// without a list of ranges is the one message that the wire form does not tell
/// apart from another, the NAK with the empty list.
pub proof fn lemma_recognition_inverts_wire(m: MessageView)
    requires
        m.plain(),
    ensures
        message_shape(m.wire()) == Ok::<MessageView, ParseError>(m),
{
    let items = m.wire_items();
    lemma_request_words_differ();
    match m {
        MessageView::Sync(hash) => {},
        MessageView::Metadata(hash, num_chunks) => {
            lemma_narrow_widened(num_chunks);
        },
        MessageView::ReceiveChunk(hash, index, data) => {
            lemma_narrow_widened(index);
        },
        MessageView::ACK(hash) => {},
        MessageView::NAK(hash, ranges) => {
            let head = seq![ItemView::Text(hash), ItemView::Bool(false)];
            lemma_pairs_of_flat_ranges(head, ranges->Some_0);
            assert(items[0] == head[0]);
            assert(items[1] == head[1]);
        },
        MessageView::ReqReceive(channel_id, hash, path, mode) => {
            match mode {
                Some(bits) => {
                    lemma_narrow_widened(bits);
                    assert(items[4] == ItemView::U64(bits as u64));
                },
                None => {},
            }
        },
        MessageView::ReqTransmit(channel_id, path) => {},
        MessageView::SuccessReceive(channel_id) => {},
        MessageView::SuccessTransmit(channel_id, hash, num_chunks, mode) => {
            lemma_narrow_widened(num_chunks);
            match mode {
                Some(bits) => {
                    lemma_narrow_widened(bits);
                    assert(items[4] == ItemView::U64(bits as u64));
                },
                None => {},
            }
        },
        MessageView::Failure(channel_id, reason) => {},
    }
}

} // verus!
