//! Encoding of value trees to bytes and back.
//!
//! The wire encoding is CBOR, and the `serde_cbor` crate does the work. This
//! module hands it bytes and trees and says, in its contracts, which of its
//! answers the callers see.
//!
//! Two things it decides itself. Bytes that wrap a value in more than `MAX_TAGS`
//! semantic tags are turned down before the decoder sees them, because the decoder
//! follows tags without counting them. And floats are out of the library's reach: a
//! decoded float is a mark without a value, and a tree with such a mark is not
//! encoded.

use serde_cbor::Value;
use vstd::prelude::*;
use crate::value::{lemma_entry_views, lemma_views, DataItem, ItemView};

verus! {

broadcast use {lemma_views, lemma_entry_views};

/// `serde_cbor::Value`, the value tree of the outside crate; nothing is known of what
/// one holds but through [`cbor_tree`].
#[verifier::external_type_specification]
#[verifier::external_body]
pub struct ExCborValue(serde_cbor::Value);

/// `serde_cbor::error::Error`; nothing is read from it.
#[verifier::external_type_specification]
#[verifier::external_body]
pub struct ExCborError(serde_cbor::error::Error);

/// The tree that a `serde_cbor::Value` holds: its variants one for one, a map as its
/// entries in the order in which the map hands them out, a float as a mark without its
/// value.
pub uninterp spec fn cbor_tree(tree: serde_cbor::Value) -> ItemView;

/// What `serde_cbor::de::from_slice` makes of a byte string: the decoded tree, or `None`
/// where it reports an error.
pub uninterp spec fn cbor_decoding(bytes: Seq<u8>) -> Option<ItemView>;

/// The bytes that `serde_cbor::ser::to_vec` makes of a tree without floats.
pub uninterp spec fn cbor_encoding(tree: ItemView) -> Seq<u8>;

/// Why a byte string or a tree was turned down.
#[derive(Debug, PartialEq, Eq, Clone, Copy)]
pub enum CodecError {
    /// The bytes are not the encoding of one value: they are cut short, hold a code that
    /// is not assigned, go on after the value has ended, or wrap a value in more than
    /// `MAX_TAGS` semantic tags.
    Malformed,
    /// The tree holds a float, or a map whose keys are out of order, occur twice or are
    /// no keys.
    Unsupported,
}

/// Whether byte string `a` comes before byte string `b`: at the first place where they
/// differ `a` has the lower byte, or `a` ends there and `b` goes on.
pub open spec fn bytes_before(a: Seq<u8>, b: Seq<u8>) -> bool {
    exists|k: int|
        0 <= k <= a.len() && k < b.len() && #[trigger] a.subrange(0, k) == b.subrange(0, k) && (k
            == a.len() || a[k] < b[k])
}

/// The place of a map key among the kinds of keys: integers come first, then byte
/// strings, strings, booleans and null. Other values are no keys.
pub open spec fn key_rank(key: ItemView) -> int {
    match key {
        ItemView::I64(_) => 0,
        ItemView::Bytes(_) => 1,
        ItemView::Text(_) => 2,
        ItemView::Bool(_) => 3,
        ItemView::Null => 4,
        _ => -1,
    }
}

/// Whether map key `a` comes before map key `b`: by kind first; within a kind, integers
/// by value, byte strings and the UTF-8 bytes of strings byte by byte, `false` before
/// `true`.
pub open spec fn key_before(a: ItemView, b: ItemView) -> bool {
    key_rank(a) < key_rank(b) || match (a, b) {
        (ItemView::I64(x), ItemView::I64(y)) => x < y,
        (ItemView::Bytes(x), ItemView::Bytes(y)) => bytes_before(x, y),
        (ItemView::Text(x), ItemView::Text(y)) => bytes_before(
            vstd::utf8::encode_utf8(x),
            vstd::utf8::encode_utf8(y),
        ),
        (ItemView::Bool(x), ItemView::Bool(y)) => !x && y,
        _ => false,
    }
}

impl ItemView {
    /// Every map in the tree has keys that are signed integers, byte strings, strings,
    /// booleans or null, each once and in ascending order.
    pub open spec fn canonical(self) -> bool
        decreases self,
    {
        match self {
            ItemView::Array(items) => forall|i: int|
                0 <= i < items.len() ==> (#[trigger] items[i]).canonical(),
            ItemView::Object(entries) => {
                &&& forall|i: int|
                    0 <= i < entries.len() ==> key_rank((#[trigger] entries[i]).0) >= 0
                        && entries[i].1.canonical()
                &&& forall|i: int|
                    0 <= i < entries.len() - 1 ==> key_before(
                        (#[trigger] entries[i]).0,
                        entries[i + 1].0,
                    )
            },
            _ => true,
        }
    }

    /// No float occurs in the tree.
    pub open spec fn float_free(self) -> bool
        decreases self,
    {
        match self {
            ItemView::Array(items) => forall|i: int|
                0 <= i < items.len() ==> (#[trigger] items[i]).float_free(),
            ItemView::Object(entries) => forall|i: int|
                0 <= i < entries.len() ==> (#[trigger] entries[i]).0.float_free()
                    && entries[i].1.float_free(),
            ItemView::Float => false,
            _ => true,
        }
    }

    /// The tree can be encoded: it holds no float, and its maps are in order.
    pub open spec fn encodable(self) -> bool {
        self.canonical() && self.float_free()
    }
}

/// How many semantic tags may wrap one value, each inside the one before.
pub const MAX_TAGS: usize = 4;

/// Whether a head byte opens a semantic tag.
pub open spec fn is_tag(head: u8) -> bool {
    0xc0 <= head <= 0xdb
}

/// Whether a head byte opens a byte string or a text string of stated length.
pub open spec fn is_string(head: u8) -> bool {
    0x40 <= head <= 0x5b || 0x60 <= head <= 0x7b
}

/// How many bytes follow a head byte as its argument: the low five bits of the head say
/// so.
pub open spec fn argument_len(head: u8) -> int {
    let info = head % 32;
    if info == 24 {
        1
    } else if info == 25 {
        2
    } else if info == 26 {
        4
    } else if info == 27 {
        8
    } else {
        0
    }
}

/// The argument of the head at `at`: the low five bits of the head byte where they are
/// below 24, the bytes that follow otherwise, most significant first.
pub open spec fn argument(bytes: Seq<u8>, at: int) -> int {
    let info = bytes[at] % 32;
    if info == 24 {
        bytes[at + 1] as int
    } else if info == 25 {
        bytes[at + 1] * 256 + bytes[at + 2]
    } else if info == 26 {
        ((bytes[at + 1] * 256 + bytes[at + 2]) * 256 + bytes[at + 3]) * 256 + bytes[at + 4]
    } else if info == 27 {
        ((((((bytes[at + 1] * 256 + bytes[at + 2]) * 256 + bytes[at + 3]) * 256 + bytes[at + 4])
            * 256 + bytes[at + 5]) * 256 + bytes[at + 6]) * 256 + bytes[at + 7]) * 256 + bytes[at
            + 8]
    } else {
        info as int
    }
}

/// An argument is not negative.
pub proof fn lemma_argument_is_no_less_than_zero(bytes: Seq<u8>, at: int)
    requires
        0 <= at,
        at + 1 + argument_len(bytes[at]) <= bytes.len(),
    ensures
        argument(bytes, at) >= 0,
{
}

/// Where the head after the one at `at` stands: behind the head and its argument, and
/// behind the content of a string, which is as long as the argument says. The items of
/// an array, a map or a tag follow their head at once.
pub open spec fn next_head(bytes: Seq<u8>, at: int) -> int {
    at + 1 + argument_len(bytes[at]) + if is_string(bytes[at]) {
        argument(bytes, at)
    } else {
        0
    }
}

/// Whether on the walk from head to head, from `at` to the end of the bytes, no more
/// than `MAX_TAGS` tags stand in a row, where `run` tags stand right before `at`. The
/// walk ends where a head is cut short.
pub open spec fn tags_bounded_from(bytes: Seq<u8>, at: int, run: int) -> bool
    decreases bytes.len() - at,
{
    if at < 0 || at >= bytes.len() || at + 1 + argument_len(bytes[at]) > bytes.len() {
        true
    } else if is_tag(bytes[at]) {
        run < MAX_TAGS && tags_bounded_from(bytes, next_head(bytes, at), run + 1)
    } else {
        proof {
            lemma_argument_is_no_less_than_zero(bytes, at);
        }
        next_head(bytes, at) >= bytes.len() || tags_bounded_from(bytes, next_head(bytes, at), 0)
    }
}

/// Whether no value in the bytes is wrapped in more than `MAX_TAGS` semantic tags, as
/// far as a walk from head to head tells.
pub open spec fn tags_bounded(bytes: Seq<u8>) -> bool {
    tags_bounded_from(bytes, 0, 0)
}

/// Whether no value in the bytes is wrapped in more than `MAX_TAGS` semantic tags.
pub fn are_tags_bounded(bytes: &[u8]) -> (r: bool)
    ensures
        r == tags_bounded(bytes@),
{
    let len = bytes.len();
    let mut at: usize = 0;
    let mut run: usize = 0;
    while at < len
        invariant
            len == bytes@.len(),
            at <= len,
            run <= MAX_TAGS,
            tags_bounded(bytes@) == tags_bounded_from(bytes@, at as int, run as int),
        decreases len - at,
    {
        let head = bytes[at];
        let info = head % 32;
        let follows: usize = if info == 24 {
            1
        } else if info == 25 {
            2
        } else if info == 26 {
            4
        } else if info == 27 {
            8
        } else {
            0
        };
        let rest = len - at - 1;
        if rest < follows {
            return true;
        }
        if 0xc0 <= head && head <= 0xdb {
            if run >= MAX_TAGS {
                return false;
            }
            run += 1;
            at = at + 1 + follows;
        } else {
            let stated = (0x40 <= head && head <= 0x5b) || (0x60 <= head && head <= 0x7b);
            let content: u64 = if !stated {
                0
            } else if info == 24 {
                bytes[at + 1] as u64
            } else if info == 25 {
                bytes[at + 1] as u64 * 256 + bytes[at + 2] as u64
            } else if info == 26 {
                ((bytes[at + 1] as u64 * 256 + bytes[at + 2] as u64) * 256 + bytes[at + 3] as u64)
                    * 256 + bytes[at + 4] as u64
            } else if info == 27 {
                ((((((bytes[at + 1] as u64 * 256 + bytes[at + 2] as u64) * 256 + bytes[at
                    + 3] as u64) * 256 + bytes[at + 4] as u64) * 256 + bytes[at + 5] as u64) * 256
                    + bytes[at + 6] as u64) * 256 + bytes[at + 7] as u64) * 256 + bytes[at
                    + 8] as u64
            } else {
                info as u64
            };
            let room = rest - follows;
            if content >= room as u64 {
                proof {
                    assert(content == argument(bytes@, at as int) || !is_string(head));
                    assert(next_head(bytes@, at as int) >= len);
                }
                return true;
            }
            run = 0;
            at = at + 1 + follows + content as usize;
        }
    }
    true
}

/// `serde_cbor::de::from_slice`, read as a `serde_cbor::Value`. Its result is named, not
/// described: `Ok` with the tree that `cbor_decoding` gives for these bytes, `Err` where
/// that is `None`.
///
/// The decoder reads a tagged value by a call of itself that its limit on nesting does
/// not count, so a long run of tags would exhaust the stack. It reads head after head
/// in the order of the bytes, skipping the content of strings; bytes in which no more
/// than `MAX_TAGS` tags stand in a row on that walk keep it within `MAX_TAGS` such
/// calls for each of the at most 128 levels of arrays and maps that it admits.
#[verifier::external_body]
fn cbor_from_slice(bytes: &[u8]) -> (r: Result<serde_cbor::Value, serde_cbor::error::Error>)
    requires
        tags_bounded(bytes@),
    ensures
        match r {
            Ok(tree) => cbor_decoding(bytes@) == Some(cbor_tree(tree)),
            Err(_) => cbor_decoding(bytes@) is None,
        },
{
    serde_cbor::de::from_slice::<serde_cbor::Value>(bytes)
}

/// `serde_cbor::ser::to_vec` on a `serde_cbor::Value` without floats. It succeeds: the
/// serializer fails only where its writer does, and a vector takes every write. The
/// bytes are named, not described. Floats are left out because the bytes of a float
/// would depend on its value, which the tree does not keep.
#[verifier::external_body]
fn cbor_to_vec(tree: &serde_cbor::Value) -> (r: Result<Vec<u8>, serde_cbor::error::Error>)
    requires
        cbor_tree(*tree).float_free(),
    ensures
        match r {
            Ok(bytes) => bytes@ == cbor_encoding(cbor_tree(*tree)),
            Err(_) => false,
        },
{
    serde_cbor::ser::to_vec(tree)
}

/// Moves a `serde_cbor::Value` into a tree of the library, variant by variant. Map keys
/// pass through `serde_cbor`'s conversion of a key to a value, which gives a signed
/// integer, a byte string, a string, a boolean or null; the map hands its entries out in
/// the order of its keys, each key once.
#[verifier::external_body]
fn lift(tree: serde_cbor::Value) -> (r: DataItem)
    ensures
        r@ == cbor_tree(tree),
        r@.canonical(),
{
    match tree {
        Value::U64(n) => DataItem::U64(n),
        Value::I64(n) => DataItem::I64(n),
        Value::Bytes(b) => DataItem::Bytes(b),
        Value::String(s) => DataItem::Text(s),
        Value::Array(a) => DataItem::Array(a.into_iter().map(lift).collect()),
        Value::Object(m) => DataItem::Object(
            m.into_iter().map(|(k, v)| (lift(k.into()), lift(v))).collect(),
        ),
        Value::F64(_) => DataItem::Float,
        Value::Bool(b) => DataItem::Bool(b),
        Value::Null => DataItem::Null,
    }
}

/// Builds the `serde_cbor::Value` that holds a tree of the library, variant by variant.
/// A map whose keys ascend, each once, is held as it is; keys that are no keys make
/// `serde_cbor` panic, and keys out of order would be put in order: both are left out.
/// So are floats, whose value the tree does not keep; the arm for them is never taken.
#[verifier::external_body]
fn lower(item: &DataItem) -> (r: serde_cbor::Value)
    requires
        item@.canonical(),
        item@.float_free(),
    ensures
        cbor_tree(r) == item@,
{
    match item {
        DataItem::U64(n) => Value::U64(*n),
        DataItem::I64(n) => Value::I64(*n),
        DataItem::Bytes(b) => Value::Bytes(b.clone()),
        DataItem::Text(s) => Value::String(s.clone()),
        DataItem::Array(a) => Value::Array(a.iter().map(lower).collect()),
        DataItem::Object(m) => Value::Object(
            m.iter().map(|(k, v)| (lower(k).into(), lower(v))).collect(),
        ),
        DataItem::Bool(b) => Value::Bool(*b),
        DataItem::Null | DataItem::Float => Value::Null,
    }
}

/// Whether byte string `a` comes before byte string `b`.
fn is_bytes_before(a: &[u8], b: &[u8]) -> (r: bool)
    ensures
        r == bytes_before(a@, b@),
{
    let mut i: usize = 0;
    while i < a.len() && i < b.len()
        invariant
            i <= a.len(),
            i <= b.len(),
            a@.subrange(0, i as int) == b@.subrange(0, i as int),
        decreases a.len() - i,
    {
        if a[i] != b[i] {
            proof {
                if a[i as int] > b[i as int] {
                    assert forall|k: int|
                        0 <= k <= a@.len() && k < b@.len() && #[trigger] a@.subrange(0, k)
                            == b@.subrange(0, k) implies !(k == a@.len() || a@[k] < b@[k]) by {
                        if k > i {
                            assert(a@.subrange(0, k)[i as int] == a@[i as int]);
                            assert(b@.subrange(0, k)[i as int] == b@[i as int]);
                        } else if k < i {
                            assert(a@.subrange(0, i as int)[k] == a@[k]);
                            assert(b@.subrange(0, i as int)[k] == b@[k]);
                        }
                    }
                }
            }
            return a[i] < b[i];
        }
        proof {
            assert(a@.subrange(0, i + 1) =~= a@.subrange(0, i as int).push(a@[i as int]));
            assert(b@.subrange(0, i + 1) =~= b@.subrange(0, i as int).push(b@[i as int]));
        }
        i += 1;
    }
    proof {
        if !(a@.len() < b@.len()) {
            assert forall|k: int|
                0 <= k <= a@.len() && k < b@.len() && #[trigger] a@.subrange(0, k) == b@.subrange(
                    0,
                    k,
                ) implies !(k == a@.len() || a@[k] < b@[k]) by {
                assert(a@.subrange(0, i as int)[k] == a@[k]);
                assert(b@.subrange(0, i as int)[k] == b@[k]);
            }
        }
    }
    a.len() < b.len()
}

/// The place of a map key among the kinds of keys, or 5 for what is no key.
fn rank_of(key: &DataItem) -> (r: u8)
    ensures
        r <= 5,
        r < 5 ==> r == key_rank(key@),
        r == 5 ==> key_rank(key@) < 0,
{
    match key {
        DataItem::I64(_) => 0,
        DataItem::Bytes(_) => 1,
        DataItem::Text(_) => 2,
        DataItem::Bool(_) => 3,
        DataItem::Null => 4,
        _ => 5,
    }
}

/// Whether map key `a` comes before map key `b`.
fn is_key_before(a: &DataItem, b: &DataItem) -> (r: bool)
    requires
        key_rank(a@) >= 0,
        key_rank(b@) >= 0,
    ensures
        r == key_before(a@, b@),
{
    let left = rank_of(a);
    let right = rank_of(b);
    if left != right {
        return left < right;
    }
    match (a, b) {
        (DataItem::I64(x), DataItem::I64(y)) => *x < *y,
        (DataItem::Bytes(x), DataItem::Bytes(y)) => is_bytes_before(x.as_slice(), y.as_slice()),
        (DataItem::Text(x), DataItem::Text(y)) => is_bytes_before(
            x.as_str().as_bytes(),
            y.as_str().as_bytes(),
        ),
        (DataItem::Bool(x), DataItem::Bool(y)) => !*x && *y,
        _ => false,
    }
}

impl DataItem {
    /// Whether every map in this tree has keys that are signed integers, byte strings,
    /// strings, booleans or null, each once and in ascending order.
    pub fn is_canonical(&self) -> (r: bool)
        ensures
            r == self@.canonical(),
        decreases self,
    {
        match self {
            DataItem::Array(items) => {
                let ghost all = crate::value::views(items@);
                let mut i: usize = 0;
                while i < items.len()
                    invariant
                        i <= items.len(),
                        all == crate::value::views(items@),
                        self@ == ItemView::Array(all),
                        *self == DataItem::Array(*items),
                        forall|k: int| 0 <= k < i ==> (#[trigger] all[k]).canonical(),
                    decreases items.len() - i,
                {
                    proof {
                        assert(self->Array_0 == *items);
                    }
                    if !items[i].is_canonical() {
                        proof {
                            assert(!all[i as int].canonical());
                            assert(self@->Array_0 == all);
                            assert(!self@.canonical());
                        }
                        return false;
                    }
                    i += 1;
                }
                true
            },
            DataItem::Object(entries) => {
                let ghost all = crate::value::entry_views(entries@);
                let mut i: usize = 0;
                while i < entries.len()
                    invariant
                        i <= entries.len(),
                        all == crate::value::entry_views(entries@),
                        self@ == ItemView::Object(all),
                        *self == DataItem::Object(*entries),
                        forall|k: int|
                            0 <= k < i ==> key_rank((#[trigger] all[k]).0) >= 0
                                && all[k].1.canonical(),
                        forall|k: int|
                            0 <= k < i - 1 ==> key_before((#[trigger] all[k]).0, all[k + 1].0),
                    decreases entries.len() - i,
                {
                    proof {
                        assert(self->Object_0 == *entries);
                    }
                    if rank_of(&entries[i].0) == 5 {
                        proof {
                            assert(key_rank(all[i as int].0) < 0);
                            assert(self@->Object_0 == all);
                            assert(!self@.canonical());
                        }
                        return false;
                    }
                    if !entries[i].1.is_canonical() {
                        proof {
                            assert(!all[i as int].1.canonical());
                            assert(self@->Object_0 == all);
                            assert(!self@.canonical());
                        }
                        return false;
                    }
                    if i > 0 {
                        proof {
                            assert(all[i - 1].0 == entries@[i - 1].0@);
                            assert(all[i as int].0 == entries@[i as int].0@);
                        }
                        if !is_key_before(&entries[i - 1].0, &entries[i].0) {
                            proof {
                                assert(!key_before(all[i - 1].0, all[i - 1 + 1].0));
                                assert(self@->Object_0 == all);
                                assert(!self@.canonical());
                            }
                            return false;
                        }
                    }
                    i += 1;
                }
                true
            },
            _ => true,
        }
    }
}

impl DataItem {
    /// Whether no float occurs in this tree.
    pub fn is_float_free(&self) -> (r: bool)
        ensures
            r == self@.float_free(),
        decreases self,
    {
        match self {
            DataItem::Array(items) => {
                let ghost all = crate::value::views(items@);
                let mut i: usize = 0;
                while i < items.len()
                    invariant
                        i <= items.len(),
                        all == crate::value::views(items@),
                        self@ == ItemView::Array(all),
                        *self == DataItem::Array(*items),
                        forall|k: int| 0 <= k < i ==> (#[trigger] all[k]).float_free(),
                    decreases items.len() - i,
                {
                    proof {
                        assert(self->Array_0 == *items);
                    }
                    if !items[i].is_float_free() {
                        proof {
                            assert(!all[i as int].float_free());
                            assert(self@->Array_0 == all);
                            assert(!self@.float_free());
                        }
                        return false;
                    }
                    i += 1;
                }
                true
            },
            DataItem::Object(entries) => {
                let ghost all = crate::value::entry_views(entries@);
                let mut i: usize = 0;
                while i < entries.len()
                    invariant
                        i <= entries.len(),
                        all == crate::value::entry_views(entries@),
                        self@ == ItemView::Object(all),
                        *self == DataItem::Object(*entries),
                        forall|k: int|
                            0 <= k < i ==> (#[trigger] all[k]).0.float_free()
                                && all[k].1.float_free(),
                    decreases entries.len() - i,
                {
                    proof {
                        assert(self->Object_0 == *entries);
                    }
                    if !entries[i].0.is_float_free() || !entries[i].1.is_float_free() {
                        proof {
                            assert(!(all[i as int].0.float_free() && all[i as int].1.float_free()));
                            assert(self@->Object_0 == all);
                            assert(!self@.float_free());
                        }
                        return false;
                    }
                    i += 1;
                }
                true
            },
            DataItem::Float => false,
            _ => true,
        }
    }
}

/// What [`decode`] returns for a byte string.
pub open spec fn decoding(bytes: Seq<u8>) -> Result<ItemView, CodecError> {
    if !tags_bounded(bytes) {
        Err(CodecError::Malformed)
    } else {
        match cbor_decoding(bytes) {
            Some(tree) => Ok(tree),
            None => Err(CodecError::Malformed),
        }
    }
}

/// Decodes one value from its encoding.
///
/// The bytes must hold one complete value and nothing after it, and no value in them
/// may be wrapped in more than `MAX_TAGS` semantic tags. The maps of what comes out
/// are in order.
pub fn decode(bytes: &[u8]) -> (r: Result<DataItem, CodecError>)
    ensures
        match decoding(bytes@) {
            Ok(tree) => r matches Ok(item) && item@ == tree && item@.canonical(),
            Err(e) => r == Err::<DataItem, CodecError>(e),
        },
{
    if !are_tags_bounded(bytes) {
        return Err(CodecError::Malformed);
    }
    match cbor_from_slice(bytes) {
        Ok(tree) => Ok(lift(tree)),
        Err(_) => Err(CodecError::Malformed),
    }
}

/// What [`encode`] returns for a tree.
pub open spec fn encoding(tree: ItemView) -> Result<Seq<u8>, CodecError> {
    if tree.encodable() {
        Ok(cbor_encoding(tree))
    } else {
        Err(CodecError::Unsupported)
    }
}

/// Encodes one value. Equal trees give equal bytes, and every tree that can be encoded
/// is encoded.
pub fn encode(item: &DataItem) -> (r: Result<Vec<u8>, CodecError>)
    ensures
        match encoding(item@) {
            Ok(bytes) => r matches Ok(out) && out@ == bytes,
            Err(e) => r == Err::<Vec<u8>, CodecError>(e),
        },
{
    if !item.is_canonical() || !item.is_float_free() {
        return Err(CodecError::Unsupported);
    }
    let tree = lower(item);
    match cbor_to_vec(&tree) {
        Ok(bytes) => Ok(bytes),
        Err(_) => vstd::pervasive::unreached(),
    }
}

} // verus!
