//! The self-describing value tree that protocol messages are carried in.

use vstd::prelude::*;

verus! {

/// A value of the wire encoding.
#[derive(Debug, PartialEq)]
pub enum DataItem {
    /// An unsigned integer.
    U64(u64),
    /// A signed integer.
    I64(i64),
    /// A byte string.
    Bytes(Vec<u8>),
    /// A UTF-8 string.
    Text(String),
    /// A list of values.
    Array(Vec<DataItem>),
    /// A map, as its entries in key order.
    Object(Vec<(DataItem, DataItem)>),
    /// A floating-point number. This library does not work with floats: it marks the
    /// place of one and does not keep its value.
    Float,
    /// A boolean.
    Bool(bool),
    /// The absence of a value.
    Null,
}

/// The mathematical model of a [`DataItem`].
pub enum ItemView {
    U64(u64),
    I64(i64),
    Bytes(Seq<u8>),
    Text(Seq<char>),
    Array(Seq<ItemView>),
    Object(Seq<(ItemView, ItemView)>),
    Float,
    Bool(bool),
    Null,
}

/// The model of one value.
pub open spec fn model(item: DataItem) -> ItemView
    decreases item,
{
    match item {
        DataItem::U64(n) => ItemView::U64(n),
        DataItem::I64(n) => ItemView::I64(n),
        DataItem::Bytes(b) => ItemView::Bytes(b@),
        DataItem::Text(s) => ItemView::Text(s@),
        DataItem::Array(items) => ItemView::Array(views(items@)),
        DataItem::Object(entries) => ItemView::Object(entry_views(entries@)),
        DataItem::Float => ItemView::Float,
        DataItem::Bool(b) => ItemView::Bool(b),
        DataItem::Null => ItemView::Null,
    }
}

/// The models of a sequence of values, in order.
pub open spec fn views(items: Seq<DataItem>) -> Seq<ItemView>
    decreases items,
{
    if items.len() == 0 {
        Seq::empty()
    } else {
        views(items.drop_last()).push(model(items.last()))
    }
}

/// The models of a sequence of map entries, in order.
pub open spec fn entry_views(entries: Seq<(DataItem, DataItem)>) -> Seq<(ItemView, ItemView)>
    decreases entries,
{
    if entries.len() == 0 {
        Seq::empty()
    } else {
        entry_views(entries.drop_last()).push(
            (model(entries.last().0), model(entries.last().1)),
        )
    }
}

impl View for DataItem {
    type V = ItemView;

    open spec fn view(&self) -> ItemView {
        model(*self)
    }
}

/// `views` works item by item.
pub broadcast proof fn lemma_views(items: Seq<DataItem>)
    ensures
        (#[trigger] views(items)).len() == items.len(),
        forall|i: int| 0 <= i < items.len() ==> views(items)[i] == items[i]@,
    decreases items.len(),
{
    if items.len() > 0 {
        lemma_views(items.drop_last());
    }
}

/// `entry_views` works entry by entry.
pub broadcast proof fn lemma_entry_views(entries: Seq<(DataItem, DataItem)>)
    ensures
        (#[trigger] entry_views(entries)).len() == entries.len(),
        forall|i: int|
            0 <= i < entries.len() ==> entry_views(entries)[i] == (entries[i].0@, entries[i].1@),
    decreases entries.len(),
{
    if entries.len() > 0 {
        lemma_entry_views(entries.drop_last());
    }
}

impl Clone for DataItem {
    fn clone(&self) -> (r: DataItem)
        ensures
            r@ == self@,
    {
        self.duplicate()
    }
}

impl DataItem {
    /// A copy of this tree.
    pub fn duplicate(&self) -> (r: DataItem)
        ensures
            r@ == self@,
        decreases self,
    {
        match self {
            DataItem::U64(n) => DataItem::U64(*n),
            DataItem::I64(n) => DataItem::I64(*n),
            DataItem::Bytes(b) => DataItem::Bytes(copy_bytes(b)),
            DataItem::Text(s) => DataItem::Text(s.clone()),
            DataItem::Array(items) => {
                let mut out: Vec<DataItem> = Vec::new();
                let mut i: usize = 0;
                while i < items.len()
                    invariant
                        i <= items.len(),
                        *self == DataItem::Array(*items),
                        out@.len() == i,
                        forall|k: int| 0 <= k < i ==> (#[trigger] out@[k])@ == items@[k]@,
                    decreases items.len() - i,
                {
                    proof {
                        assert(self->Array_0 == *items);
                    }
                    out.push(items[i].duplicate());
                    i += 1;
                }
                proof {
                    lemma_views(out@);
                    lemma_views(items@);
                    assert(views(out@) =~= views(items@));
                }
                DataItem::Array(out)
            },
            DataItem::Object(entries) => {
                let mut out: Vec<(DataItem, DataItem)> = Vec::new();
                let mut i: usize = 0;
                while i < entries.len()
                    invariant
                        i <= entries.len(),
                        *self == DataItem::Object(*entries),
                        out@.len() == i,
                        forall|k: int|
                            0 <= k < i ==> (#[trigger] out@[k]).0@ == entries@[k].0@ && out@[k].1@
                                == entries@[k].1@,
                    decreases entries.len() - i,
                {
                    proof {
                        assert(self->Object_0 == *entries);
                    }
                    let key = entries[i].0.duplicate();
                    let value = entries[i].1.duplicate();
                    out.push((key, value));
                    i += 1;
                }
                proof {
                    lemma_entry_views(out@);
                    lemma_entry_views(entries@);
                    assert(entry_views(out@) =~= entry_views(entries@));
                }
                DataItem::Object(out)
            },
            DataItem::Float => DataItem::Float,
            DataItem::Bool(b) => DataItem::Bool(*b),
            DataItem::Null => DataItem::Null,
        }
    }
}

/// Copies a byte string.
pub fn copy_bytes(bytes: &Vec<u8>) -> (r: Vec<u8>)
    ensures
        r@ == bytes@,
{
    let mut out: Vec<u8> = Vec::new();
    let mut i: usize = 0;
    while i < bytes.len()
        invariant
            i <= bytes.len(),
            out@ == bytes@.subrange(0, i as int),
        decreases bytes.len() - i,
    {
        out.push(bytes[i]);
        proof {
            assert(out@ =~= bytes@.subrange(0, i + 1));
        }
        i += 1;
    }
    proof {
        assert(bytes@.subrange(0, i as int) =~= bytes@);
    }
    out
}

} // verus!
