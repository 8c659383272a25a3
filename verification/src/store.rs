//! The content store: the chunks of every file that is staged or being received, under
//! the file's hash.

use vstd::prelude::*;
use crate::entry::{chunk_count, same_text, staged, EntryView, FileEntry};
use crate::error::StoreError;
use crate::ranges::gaps;

verus! {

/// The mathematical model of a [`ContentStore`]: what is stored under each hash.
pub type StoreView = Map<Seq<char>, EntryView>;

/// What the store holds under `hash`: nothing at all, where the hash is not known.
pub open spec fn entry_of(store: StoreView, hash: Seq<char>) -> EntryView {
    if store.contains_key(hash) {
        store[hash]
    } else {
        EntryView::fresh()
    }
}

/// Staging a file under `hash`: the store afterwards and the number of chunks of the
/// file, or why the file is turned down. A hash that is staged already with as many
/// chunks is left as it is.
pub open spec fn stage_outcome(
    store: StoreView,
    hash: Seq<char>,
    data: Seq<u8>,
    size: nat,
    mode: Option<u32>,
) -> Result<(StoreView, u32), StoreError> {
    let count = chunk_count(data.len(), size);
    if count > u32::MAX {
        Err(StoreError::TooLarge)
    } else if !store.contains_key(hash) {
        Ok((store.insert(hash, staged(data, size, mode)), count as u32))
    } else if store[hash].num_chunks == Some(count as u32) {
        Ok((store, count as u32))
    } else {
        Err(StoreError::CountChanged)
    }
}

/// The map that a list of entries stands for.
pub open spec fn store_map(entries: Seq<(String, FileEntry)>) -> StoreView
    decreases entries.len(),
{
    if entries.len() == 0 {
        Map::empty()
    } else {
        store_map(entries.drop_last()).insert(entries.last().0@, entries.last().1@)
    }
}

/// No hash occurs twice in the list.
pub open spec fn distinct_hashes(entries: Seq<(String, FileEntry)>) -> bool {
    forall|j: int, k: int|
        0 <= j < k < entries.len() ==> (#[trigger] entries[j]).0@ != (#[trigger] entries[k]).0@
}

/// The map of a list holds the listed hashes, each with its entry.
pub proof fn lemma_store_map(entries: Seq<(String, FileEntry)>)
    requires
        distinct_hashes(entries),
    ensures
        forall|h: Seq<char>|
            #[trigger] store_map(entries).contains_key(h) <==> exists|k: int|
                0 <= k < entries.len() && (#[trigger] entries[k]).0@ == h,
        forall|k: int|
            0 <= k < entries.len() ==> store_map(entries)[(#[trigger] entries[k]).0@]
                == entries[k].1@,
    decreases entries.len(),
{
    if entries.len() > 0 {
        let front = entries.drop_last();
        assert(distinct_hashes(front)) by {
            assert forall|j: int, k: int| 0 <= j < k < front.len() implies (#[trigger] front[j]).0@
                != (#[trigger] front[k]).0@ by {
                assert(front[j] == entries[j] && front[k] == entries[k]);
            }
        }
        lemma_store_map(front);
        assert forall|h: Seq<char>| #[trigger] store_map(entries).contains_key(h) implies exists|
            k: int,
        | 0 <= k < entries.len() && (#[trigger] entries[k]).0@ == h by {
            if h == entries.last().0@ {
                assert(entries[entries.len() - 1].0@ == h);
            } else {
                assert(store_map(front).contains_key(h));
                let k = choose|k: int| 0 <= k < front.len() && (#[trigger] front[k]).0@ == h;
                assert(front[k] == entries[k]);
                assert(entries[k].0@ == h);
            }
        }
        assert forall|h: Seq<char>|
            (exists|k: int|
                0 <= k < entries.len() && (#[trigger] entries[k]).0@ == h) implies #[trigger] store_map(
            entries,
        ).contains_key(h) by {
            let k = choose|k: int| 0 <= k < entries.len() && (#[trigger] entries[k]).0@ == h;
            if k < front.len() {
                assert(front[k] == entries[k]);
                assert(front[k].0@ == h);
                assert(store_map(front).contains_key(h));
            }
        }
        assert forall|k: int| 0 <= k < entries.len() implies store_map(entries)[(
        #[trigger] entries[k]).0@] == entries[k].1@ by {
            if k < front.len() {
                assert(front[k] == entries[k]);
                assert(entries[k].0@ != entries[entries.len() - 1].0@);
            }
        }
    }
}

/// Replacing the entry of one listed hash replaces it in the map.
proof fn lemma_updated(
    before: Seq<(String, FileEntry)>,
    after: Seq<(String, FileEntry)>,
    k: int,
)
    requires
        distinct_hashes(before),
        0 <= k < before.len(),
        after.len() == before.len(),
        after[k].0 == before[k].0,
        forall|j: int| 0 <= j < before.len() && j != k ==> after[j] == before[j],
    ensures
        distinct_hashes(after),
        store_map(after) == store_map(before).insert(before[k].0@, after[k].1@),
{
    assert forall|i: int, j: int| 0 <= i < j < after.len() implies (#[trigger] after[i]).0@ != (
    #[trigger] after[j]).0@ by {
        assert(after[i].0@ == before[i].0@);
        assert(after[j].0@ == before[j].0@);
    }
    lemma_store_map(before);
    lemma_store_map(after);
    let want = store_map(before).insert(before[k].0@, after[k].1@);
    assert forall|h: Seq<char>| store_map(after).contains_key(h) <==> want.contains_key(h) by {
        if store_map(after).contains_key(h) {
            let j = choose|j: int| 0 <= j < after.len() && (#[trigger] after[j]).0@ == h;
            assert(before[j].0@ == h);
        }
        if want.contains_key(h) && h != before[k].0@ {
            let j = choose|j: int| 0 <= j < before.len() && (#[trigger] before[j]).0@ == h;
            assert(after[j].0@ == h);
        }
        if h == before[k].0@ {
            assert(after[k].0@ == h);
        }
    }
    assert forall|h: Seq<char>| store_map(after).contains_key(h) implies store_map(after)[h]
        == want[h] by {
        let j = choose|j: int| 0 <= j < after.len() && (#[trigger] after[j]).0@ == h;
        if j != k {
            assert(before[j].0@ == h);
            assert(before[j].0@ != before[k].0@);
        }
    }
    assert(store_map(after) =~= want);
}

/// The chunks of every file, under the file's hash.
pub struct ContentStore {
    entries: Vec<(String, FileEntry)>,
}

impl View for ContentStore {
    type V = StoreView;

    closed spec fn view(&self) -> StoreView {
        store_map(self.entries@)
    }
}

impl ContentStore {
    /// No hash is listed twice, and every entry is well formed.
    pub closed spec fn wf(&self) -> bool {
        &&& distinct_hashes(self.entries@)
        &&& forall|k: int| 0 <= k < self.entries@.len() ==> (#[trigger] self.entries@[k]).1.wf()
    }

    /// Every entry of a well-formed store has a well-formed model.
    pub proof fn lemma_wf(&self)
        requires
            self.wf(),
        ensures
            forall|h: Seq<char>| self@.contains_key(h) ==> (#[trigger] self@[h]).wf(),
            forall|h: Seq<char>| (#[trigger] entry_of(self@, h)).wf(),
    {
        lemma_store_map(self.entries@);
        assert forall|h: Seq<char>| self@.contains_key(h) implies (#[trigger] self@[h]).wf() by {
            let k = choose|k: int|
                0 <= k < self.entries@.len() && (#[trigger] self.entries@[k]).0@ == h;
            self.entries@[k].1.lemma_wf();
        }
    }

    /// A store that holds nothing.
    pub fn new() -> (r: ContentStore)
        ensures
            r@ == Map::<Seq<char>, EntryView>::empty(),
            r.wf(),
    {
        ContentStore { entries: Vec::new() }
    }

    /// Where the entry of `hash` is listed.
    fn position(&self, hash: &str) -> (r: Option<usize>)
        requires
            self.wf(),
        ensures
            match r {
                Some(k) => k < self.entries@.len() && self.entries@[k as int].0@ == hash@
                    && self@.contains_key(hash@) && self@[hash@] == self.entries@[k as int].1@,
                None => !self@.contains_key(hash@),
            },
    {
        let mut k: usize = 0;
        while k < self.entries.len()
            invariant
                k <= self.entries@.len(),
                self.wf(),
                forall|j: int| 0 <= j < k ==> (#[trigger] self.entries@[j]).0@ != hash@,
            decreases self.entries.len() - k,
        {
            if same_text(self.entries[k].0.as_str(), hash) {
                proof {
                    lemma_store_map(self.entries@);
                }
                return Some(k);
            }
            k += 1;
        }
        proof {
            lemma_store_map(self.entries@);
        }
        None
    }

    /// The entry of `hash`, where the hash is known.
    pub fn entry(&self, hash: &str) -> (r: Option<&FileEntry>)
        requires
            self.wf(),
        ensures
            match r {
                Some(entry) => self@.contains_key(hash@) && entry@ == self@[hash@] && entry.wf(),
                None => !self@.contains_key(hash@),
            },
    {
        match self.position(hash) {
            Some(k) => Some(&self.entries[k].1),
            None => None,
        }
    }

    /// Makes sure that `hash` is listed, and says where.
    fn open_entry(&mut self, hash: &str) -> (k: usize)
        requires
            old(self).wf(),
        ensures
            final(self).wf(),
            k < final(self).entries@.len(),
            final(self).entries@[k as int].0@ == hash@,
            final(self).entries@[k as int].1@ == entry_of(old(self)@, hash@),
            final(self)@ == old(self)@.insert(hash@, entry_of(old(self)@, hash@)),
    {
        match self.position(hash) {
            Some(k) => {
                proof {
                    assert(self@ =~= old(self)@.insert(hash@, entry_of(old(self)@, hash@)));
                }
                k
            },
            None => {
                let ghost before = self.entries@;
                proof {
                    lemma_store_map(before);
                }
                self.entries.push((hash.to_owned(), FileEntry::new()));
                proof {
                    assert(self.entries@.drop_last() =~= before);
                    assert(distinct_hashes(self.entries@)) by {
                        assert forall|i: int, j: int| 0 <= i < j < self.entries@.len() implies (
                        #[trigger] self.entries@[i]).0@ != (#[trigger] self.entries@[j]).0@ by {
                            assert(self.entries@[i] == before[i]);
                            if j < before.len() {
                                assert(self.entries@[j] == before[j]);
                            }
                        }
                    }
                    assert forall|i: int| 0 <= i < self.entries@.len() implies (
                    #[trigger] self.entries@[i]).1.wf() by {
                        if i < before.len() {
                            assert(self.entries@[i] == before[i]);
                        }
                    }
                }
                self.entries.len() - 1
            },
        }
    }

    /// Stores `bytes` as chunk `index` of the file `hash`.
    ///
    /// A chunk that is stored already with the same bytes is left as it is; with other
    /// bytes the new ones are turned down. So is an index at or beyond the announced
    /// number of chunks.
    pub fn put_chunk(&mut self, hash: &str, index: u32, bytes: Vec<u8>) -> (r: Result<
        (),
        StoreError,
    >)
        requires
            old(self).wf(),
        ensures
            final(self).wf(),
            match entry_of(old(self)@, hash@).put(index, bytes@) {
                Ok(entry) => r is Ok && final(self)@ == old(self)@.insert(hash@, entry),
                Err(e) => r == Err::<(), StoreError>(e) && final(self)@ == old(self)@,
            },
    {
        let k = self.open_entry(hash);
        proof {
            if !old(self)@.contains_key(hash@) {
                assert(EntryView::fresh().put(index, bytes@) is Ok);
            } else {
                assert(old(self)@.insert(hash@, entry_of(old(self)@, hash@)) =~= old(self)@);
            }
        }
        let ghost mid = self.entries@;
        let r = self.entries[k].1.put_chunk(index, bytes);
        proof {
            lemma_updated(mid, self.entries@, k as int);
        }
        r
    }

    /// Records that the file `hash` has `n` chunks and the permission bits `mode`.
    ///
    /// A number that is recorded already stays; another one replaces it only while no
    /// chunk of the file is stored.
    pub fn describe(&mut self, hash: &str, n: u32, mode: Option<u32>) -> (r: Result<
        (),
        StoreError,
    >)
        requires
            old(self).wf(),
        ensures
            final(self).wf(),
            match entry_of(old(self)@, hash@).describe(n, mode) {
                Ok(entry) => r is Ok && final(self)@ == old(self)@.insert(hash@, entry),
                Err(e) => r == Err::<(), StoreError>(e) && final(self)@ == old(self)@,
            },
    {
        let k = self.open_entry(hash);
        proof {
            if !old(self)@.contains_key(hash@) {
                assert(EntryView::fresh().describe(n, mode) is Ok);
            } else {
                assert(old(self)@.insert(hash@, entry_of(old(self)@, hash@)) =~= old(self)@);
            }
        }
        let ghost mid = self.entries@;
        let r = self.entries[k].1.describe(n, mode);
        proof {
            lemma_updated(mid, self.entries@, k as int);
        }
        r
    }

    /// The indices of the chunks of `hash` that count as present, each once.
    pub fn have_chunks(&self, hash: &str) -> (r: Vec<u32>)
        requires
            self.wf(),
        ensures
            r@.to_set() == entry_of(self@, hash@).have(),
            r@.no_duplicates(),
    {
        match self.entry(hash) {
            Some(entry) => entry.have_chunks(),
            None => {
                let none: Vec<u32> = Vec::new();
                proof {
                    assert(none@.to_set() =~= Set::<u32>::empty());
                }
                none
            },
        }
    }

    /// Whether chunk `index` of `hash` counts as present.
    pub fn holds(&self, hash: &str, index: u32) -> (r: bool)
        requires
            self.wf(),
        ensures
            r == entry_of(self@, hash@).have().contains(index),
    {
        match self.entry(hash) {
            Some(entry) => entry.holds(index),
            None => false,
        }
    }

    /// The bytes of chunk `index` of `hash`, where it is stored.
    pub fn chunk(&self, hash: &str, index: u32) -> (r: Option<&Vec<u8>>)
        requires
            self.wf(),
        ensures
            match r {
                Some(bytes) => entry_of(self@, hash@).chunks.contains_key(index) && bytes@
                    == entry_of(self@, hash@).chunks[index],
                None => !entry_of(self@, hash@).chunks.contains_key(index),
            },
    {
        match self.entry(hash) {
            Some(entry) => entry.chunk(index),
            None => None,
        }
    }

    /// Whether every chunk of `hash` is present.
    pub fn is_complete(&self, hash: &str) -> (r: bool)
        requires
            self.wf(),
        ensures
            r == entry_of(self@, hash@).complete(),
    {
        match self.entry(hash) {
            Some(entry) => entry.is_complete(),
            None => false,
        }
    }

    /// The runs of chunks of `hash` that are absent from a file of `num_chunks` chunks:
    /// the complement of the chunks present, in ascending order and coalesced.
    pub fn missing_ranges(&self, hash: &str, num_chunks: u32) -> (r: Vec<(u32, u32)>)
        requires
            self.wf(),
        ensures
            r@ == gaps(entry_of(self@, hash@).have(), 0, num_chunks),
    {
        match self.entry(hash) {
            Some(entry) => entry.missing_ranges(num_chunks),
            None => {
                let nothing = FileEntry::new();
                nothing.missing_ranges(num_chunks)
            },
        }
    }

    /// The file `hash`, where every chunk of it is present.
    pub fn contents(&self, hash: &str) -> (r: Option<Vec<u8>>)
        requires
            self.wf(),
        ensures
            match r {
                Some(data) => entry_of(self@, hash@).complete() && data@ == entry_of(
                    self@,
                    hash@,
                ).contents(),
                None => !entry_of(self@, hash@).complete(),
            },
    {
        match self.entry(hash) {
            Some(entry) => entry.contents(),
            None => None,
        }
    }

    /// Checks that the file `hash` can be put together. The caller hands in `digest`, the
    /// digest of [`contents`](Self::contents).
    pub fn check(&self, hash: &str, digest: &str) -> (r: Result<(), StoreError>)
        requires
            self.wf(),
        ensures
            r == entry_of(self@, hash@).check(hash@, digest@),
    {
        match self.entry(hash) {
            Some(entry) => entry.check(hash, digest),
            None => Err(StoreError::MissingChunk),
        }
    }

    /// The number of chunks of `hash`, once it has been announced.
    pub fn num_chunks(&self, hash: &str) -> (r: Option<u32>)
        requires
            self.wf(),
        ensures
            r == entry_of(self@, hash@).num_chunks,
    {
        match self.entry(hash) {
            Some(entry) => entry.num_chunks(),
            None => None,
        }
    }

    /// Puts the file `hash` together. The caller hands in `digest`, the digest of
    /// [`contents`](Self::contents); the file comes out only where every chunk is
    /// present and the digest is the hash.
    pub fn assemble(&self, hash: &str, digest: &str) -> (r: Result<Vec<u8>, StoreError>)
        requires
            self.wf(),
        ensures
            match entry_of(self@, hash@).assemble(hash@, digest@) {
                Ok(data) => r matches Ok(out) && out@ == data,
                Err(e) => r == Err::<Vec<u8>, StoreError>(e),
            },
    {
        match self.entry(hash) {
            Some(entry) => entry.assemble(hash, digest),
            None => Err(StoreError::MissingChunk),
        }
    }

    /// Stages a file: cuts `data` into chunks of `chunk_size` bytes and stores them
    /// under `hash`, the digest of `data`, with the permission bits `mode`. Returns the
    /// number of chunks.
    ///
    /// Where the hash is staged already with as many chunks, nothing is written.
    pub fn stage(&mut self, hash: &str, data: &[u8], mode: Option<u32>, chunk_size: u32) -> (r:
        Result<u32, StoreError>)
        requires
            old(self).wf(),
            chunk_size > 0,
        ensures
            final(self).wf(),
            match stage_outcome(old(self)@, hash@, data@, chunk_size as nat, mode) {
                Ok((store, num_chunks)) => r == Ok::<u32, StoreError>(num_chunks) && final(self)@
                    == store,
                Err(e) => r == Err::<u32, StoreError>(e) && final(self)@ == old(self)@,
            },
    {
        let entry = match FileEntry::split(data, chunk_size, mode) {
            Ok(entry) => entry,
            Err(e) => {
                return Err(e);
            },
        };
        let num_chunks = match entry.num_chunks() {
            Some(n) => n,
            None => 0,
        };
        match self.position(hash) {
            Some(k) => {
                match self.entries[k].1.num_chunks() {
                    Some(n) => {
                        if n == num_chunks {
                            return Ok(num_chunks);
                        }
                    },
                    None => {},
                }
                Err(StoreError::CountChanged)
            },
            None => {
                let ghost before = self.entries@;
                proof {
                    lemma_store_map(before);
                }
                self.entries.push((hash.to_owned(), entry));
                proof {
                    assert(self.entries@.drop_last() =~= before);
                    assert(distinct_hashes(self.entries@)) by {
                        assert forall|i: int, j: int| 0 <= i < j < self.entries@.len() implies (
                        #[trigger] self.entries@[i]).0@ != (#[trigger] self.entries@[j]).0@ by {
                            assert(self.entries@[i] == before[i]);
                            if j < before.len() {
                                assert(self.entries@[j] == before[j]);
                            }
                        }
                    }
                    assert forall|i: int| 0 <= i < self.entries@.len() implies (
                    #[trigger] self.entries@[i]).1.wf() by {
                        if i < before.len() {
                            assert(self.entries@[i] == before[i]);
                        }
                    }
                }
                Ok(num_chunks)
            },
        }
    }
}

} // verus!
