//! Messages as bytes: the value tree of a message, encoded, and back.

use vstd::prelude::*;
use crate::codec::{cbor_encoding, decode, decoding, encode, CodecError};
use crate::message::{range_items, Message, MessageView};
use crate::parsers::{
    address_of, addressee, message_shape, recognize, Address, AddressView, Malformation, ParseError,
};
use crate::value::ItemView;

verus! {

/// Why no message came out of a byte string.
#[derive(Debug, PartialEq, Eq)]
pub enum WireError {
    /// The bytes do not decode.
    Codec(CodecError),
    /// The bytes decode to a value tree of no known form.
    Unknown,
    /// The bytes decode to an array that announces a form and does not complete it;
    /// the address says whom the message was meant for.
    Malformed(Address, Malformation),
}

/// The mathematical model of a [`WireError`].
pub enum WireErrorView {
    Codec(CodecError),
    Unknown,
    Malformed(AddressView, Malformation),
}

impl View for WireError {
    type V = WireErrorView;

    open spec fn view(&self) -> WireErrorView {
        match self {
            WireError::Codec(e) => WireErrorView::Codec(*e),
            WireError::Unknown => WireErrorView::Unknown,
            WireError::Malformed(address, reason) => WireErrorView::Malformed(address@, *reason),
        }
    }
}

/// The message that a byte string carries.
pub open spec fn parsed(bytes: Seq<u8>) -> Result<MessageView, WireErrorView> {
    match decoding(bytes) {
        Err(e) => Err(WireErrorView::Codec(e)),
        Ok(tree) => match message_shape(tree) {
            Ok(message) => Ok(message),
            Err(ParseError::Unknown) => Err(WireErrorView::Unknown),
            Err(ParseError::MalformedShape(reason)) => Err(
                WireErrorView::Malformed(addressee(tree), reason),
            ),
        },
    }
}

/// The value tree of a message holds no map and no float, so it can be encoded.
pub proof fn lemma_wire_is_encodable(message: MessageView)
    ensures
        message.wire().encodable(),
{
    let items = message.wire_items();
    assert forall|i: int| 0 <= i < items.len() implies (#[trigger] items[i]).canonical() && (
    #[trigger] items[i]).float_free() by {
        match message {
            MessageView::NAK(hash, Some(ranges)) => {
                if i >= 2 {
                    assert(items[i] == range_items(ranges)[i - 2]);
                }
            },
            _ => {},
        }
    }
    assert(message.wire() == ItemView::Array(items));
}

/// Reads one message from the bytes of a datagram.
pub fn from_bytes(bytes: &[u8]) -> (r: Result<Message, WireError>)
    ensures
        match parsed(bytes@) {
            Ok(message) => r matches Ok(found) && found@ == message,
            Err(e) => r matches Err(got) && got@ == e,
        },
{
    match decode(bytes) {
        Err(e) => Err(WireError::Codec(e)),
        Ok(tree) => match recognize(&tree) {
            Ok(message) => Ok(message),
            Err(ParseError::Unknown) => Err(WireError::Unknown),
            Err(ParseError::MalformedShape(reason)) => Err(
                WireError::Malformed(address_of(&tree), reason),
            ),
        },
    }
}

/// Writes one message as the bytes of a datagram. Equal messages give equal bytes.
pub fn to_bytes(message: &Message) -> (r: Vec<u8>)
    ensures
        r@ == cbor_encoding(message@.wire()),
{
    proof {
        lemma_wire_is_encodable(message@);
    }
    match encode(&message.to_item()) {
        Ok(bytes) => bytes,
        Err(_) => vstd::pervasive::unreached(),
    }
}

} // verus!
