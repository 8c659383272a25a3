//! The chunks of one file, as the content store keeps them under the file's hash.

use vstd::prelude::*;
use crate::error::StoreError;
use crate::ranges::{gaps, lemma_run_end, run_end};
use crate::value::copy_bytes;

verus! {

/// The mathematical model of a [`FileEntry`].
pub struct EntryView {
    /// The number of chunks of the file, once it has been announced.
    pub num_chunks: Option<u32>,
    /// The permission bits of the file, where they are known.
    pub mode: Option<u32>,
    /// The chunks that are stored, by index.
    pub chunks: Map<u32, Seq<u8>>,
}

/// Chunks `0..n` one after the other.
pub open spec fn joined(chunks: Map<u32, Seq<u8>>, n: nat) -> Seq<u8>
    decreases n,
{
    if n == 0 {
        Seq::empty()
    } else {
        joined(chunks, (n - 1) as nat) + chunks[(n - 1) as u32]
    }
}

impl EntryView {
    /// An entry of which nothing is known and nothing stored.
    pub open spec fn fresh() -> EntryView {
        EntryView { num_chunks: None, mode: None, chunks: Map::empty() }
    }

    /// No chunk is stored at or beyond the announced number of chunks.
    pub open spec fn wf(self) -> bool {
        self.num_chunks matches Some(n) ==> forall|i: u32|
            self.chunks.contains_key(i) ==> i < n
    }

    /// The indices of the chunks that count as present: those stored, once the number of
    /// chunks is known; none before.
    pub open spec fn have(self) -> Set<u32> {
        match self.num_chunks {
            Some(_) => self.chunks.dom(),
            None => Set::empty(),
        }
    }

    /// Every chunk of the file is present.
    pub open spec fn complete(self) -> bool {
        self.num_chunks matches Some(n) && forall|i: u32| i < n ==> self.chunks.contains_key(i)
    }

    /// Storing `bytes` as chunk `index`: the entry afterwards, or why the chunk is turned
    /// down.
    pub open spec fn put(self, index: u32, bytes: Seq<u8>) -> Result<EntryView, StoreError> {
        if self.num_chunks matches Some(n) && index >= n {
            Err(StoreError::IndexOutOfRange)
        } else if self.chunks.contains_key(index) {
            if self.chunks[index] == bytes {
                Ok(self)
            } else {
                Err(StoreError::HashCollision)
            }
        } else {
            Ok(EntryView { chunks: self.chunks.insert(index, bytes), ..self })
        }
    }

    /// Recording that the file has `n` chunks and the permission bits `mode`: the entry
    /// afterwards, or why the announcement is turned down.
    pub open spec fn describe(self, n: u32, mode: Option<u32>) -> Result<EntryView, StoreError> {
        match self.num_chunks {
            Some(m) => if m == n {
                Ok(self)
            } else if self.chunks.dom() =~= Set::empty() {
                Ok(EntryView { num_chunks: Some(n), mode, ..self })
            } else {
                Err(StoreError::CountChanged)
            },
            None => if forall|i: u32| self.chunks.contains_key(i) ==> i < n {
                Ok(EntryView { num_chunks: Some(n), mode, ..self })
            } else {
                Err(StoreError::IndexOutOfRange)
            },
        }
    }

    /// The file that the chunks make up.
    pub open spec fn contents(self) -> Seq<u8>
        recommends
            self.complete(),
    {
        joined(self.chunks, self.num_chunks.unwrap() as nat)
    }

    /// Whether the file can be put together under the name `hash`, where `digest` is the
    /// digest of [`contents`](Self::contents): every chunk must be present, and the
    /// digest must be the hash.
    pub open spec fn check(self, hash: Seq<char>, digest: Seq<char>) -> Result<(), StoreError> {
        if !self.complete() {
            Err(StoreError::MissingChunk)
        } else if digest != hash {
            Err(StoreError::HashMismatch)
        } else {
            Ok(())
        }
    }

    /// Putting the file together under the name `hash`, where `digest` is the digest of
    /// [`contents`](Self::contents): the file, or why there is none.
    pub open spec fn assemble(self, hash: Seq<char>, digest: Seq<char>) -> Result<
        Seq<u8>,
        StoreError,
    > {
        match self.check(hash, digest) {
            Ok(()) => Ok(self.contents()),
            Err(e) => Err(e),
        }
    }
}

/// The map that a list of stored chunks stands for.
pub open spec fn chunk_map(stored: Seq<(u32, Vec<u8>)>) -> Map<u32, Seq<u8>>
    decreases stored.len(),
{
    if stored.len() == 0 {
        Map::empty()
    } else {
        chunk_map(stored.drop_last()).insert(stored.last().0, stored.last().1@)
    }
}

/// No index occurs twice in the list.
pub open spec fn distinct(stored: Seq<(u32, Vec<u8>)>) -> bool {
    forall|j: int, k: int|
        0 <= j < k < stored.len() ==> (#[trigger] stored[j]).0 != (#[trigger] stored[k]).0
}

/// The map of a list holds the listed indices, each with its bytes.
pub proof fn lemma_chunk_map(stored: Seq<(u32, Vec<u8>)>)
    requires
        distinct(stored),
    ensures
        forall|i: u32|
            #[trigger] chunk_map(stored).contains_key(i) <==> exists|k: int|
                0 <= k < stored.len() && (#[trigger] stored[k]).0 == i,
        forall|k: int|
            0 <= k < stored.len() ==> chunk_map(stored)[(#[trigger] stored[k]).0] == stored[k].1@,
    decreases stored.len(),
{
    if stored.len() > 0 {
        let front = stored.drop_last();
        assert(distinct(front)) by {
            assert forall|j: int, k: int| 0 <= j < k < front.len() implies (#[trigger] front[j]).0
                != (#[trigger] front[k]).0 by {
                assert(front[j] == stored[j] && front[k] == stored[k]);
            }
        }
        lemma_chunk_map(front);
        assert forall|i: u32| #[trigger] chunk_map(stored).contains_key(i) implies exists|k: int|
            0 <= k < stored.len() && (#[trigger] stored[k]).0 == i by {
            if i == stored.last().0 {
                assert(stored[stored.len() - 1].0 == i);
            } else {
                assert(chunk_map(front).contains_key(i));
                let k = choose|k: int| 0 <= k < front.len() && (#[trigger] front[k]).0 == i;
                assert(front[k] == stored[k]);
                assert(stored[k].0 == i);
            }
        }
        assert forall|i: u32|
            (exists|k: int|
                0 <= k < stored.len() && (#[trigger] stored[k]).0 == i) implies #[trigger] chunk_map(
            stored,
        ).contains_key(i) by {
            let k = choose|k: int| 0 <= k < stored.len() && (#[trigger] stored[k]).0 == i;
            if k < front.len() {
                assert(front[k] == stored[k]);
                assert(front[k].0 == i);
                assert(chunk_map(front).contains_key(i));
            }
        }
        assert forall|k: int| 0 <= k < stored.len() implies chunk_map(stored)[(
        #[trigger] stored[k]).0] == stored[k].1@ by {
            if k < front.len() {
                assert(front[k] == stored[k]);
                assert(stored[k].0 != stored[stored.len() - 1].0);
            }
        }
    }
}

/// The chunks of one file: which of them are stored, and what is known of the file.
pub struct FileEntry {
    num_chunks: Option<u32>,
    mode: Option<u32>,
    chunks: Vec<(u32, Vec<u8>)>,
}

impl View for FileEntry {
    type V = EntryView;

    closed spec fn view(&self) -> EntryView {
        EntryView { num_chunks: self.num_chunks, mode: self.mode, chunks: chunk_map(self.chunks@) }
    }
}

/// Whether two byte strings are equal.
fn same_bytes(a: &Vec<u8>, b: &Vec<u8>) -> (r: bool)
    ensures
        r == (a@ == b@),
{
    if a.len() != b.len() {
        return false;
    }
    let mut i: usize = 0;
    while i < a.len()
        invariant
            i <= a.len(),
            a.len() == b.len(),
            forall|k: int| 0 <= k < i ==> a@[k] == b@[k],
        decreases a.len() - i,
    {
        if a[i] != b[i] {
            return false;
        }
        i += 1;
    }
    proof {
        assert(a@ =~= b@);
    }
    true
}

impl FileEntry {
    /// No index is stored twice, and none at or beyond the announced number of chunks.
    pub closed spec fn wf(&self) -> bool {
        &&& distinct(self.chunks@)
        &&& self.num_chunks matches Some(n) ==> forall|k: int|
            0 <= k < self.chunks@.len() ==> (#[trigger] self.chunks@[k]).0 < n
    }

    /// The model of a well-formed entry is well formed.
    pub proof fn lemma_wf(&self)
        requires
            self.wf(),
        ensures
            self@.wf(),
    {
        lemma_chunk_map(self.chunks@);
    }

    /// An entry of which nothing is known and nothing stored.
    pub fn new() -> (r: FileEntry)
        ensures
            r@ == EntryView::fresh(),
            r.wf(),
    {
        FileEntry { num_chunks: None, mode: None, chunks: Vec::new() }
    }

    /// The number of chunks of the file, once it has been announced.
    pub fn num_chunks(&self) -> (r: Option<u32>)
        ensures
            r == self@.num_chunks,
    {
        self.num_chunks
    }

    /// The permission bits of the file, where they are known.
    pub fn mode(&self) -> (r: Option<u32>)
        ensures
            r == self@.mode,
    {
        self.mode
    }

    /// Where chunk `index` is stored.
    fn position(&self, index: u32) -> (r: Option<usize>)
        requires
            self.wf(),
        ensures
            match r {
                Some(k) => k < self.chunks@.len() && self.chunks@[k as int].0 == index
                    && self@.chunks.contains_key(index) && self@.chunks[index]
                    == self.chunks@[k as int].1@,
                None => !self@.chunks.contains_key(index),
            },
    {
        let mut k: usize = 0;
        while k < self.chunks.len()
            invariant
                k <= self.chunks@.len(),
                self.wf(),
                forall|j: int| 0 <= j < k ==> (#[trigger] self.chunks@[j]).0 != index,
            decreases self.chunks.len() - k,
        {
            if self.chunks[k].0 == index {
                proof {
                    lemma_chunk_map(self.chunks@);
                }
                return Some(k);
            }
            k += 1;
        }
        proof {
            lemma_chunk_map(self.chunks@);
        }
        None
    }

    /// The bytes of chunk `index`, where it is stored.
    pub fn chunk(&self, index: u32) -> (r: Option<&Vec<u8>>)
        requires
            self.wf(),
        ensures
            match r {
                Some(bytes) => self@.chunks.contains_key(index) && bytes@ == self@.chunks[index],
                None => !self@.chunks.contains_key(index),
            },
    {
        match self.position(index) {
            Some(k) => Some(&self.chunks[k].1),
            None => None,
        }
    }

    /// Whether chunk `index` counts as present.
    pub fn holds(&self, index: u32) -> (r: bool)
        requires
            self.wf(),
        ensures
            r == self@.have().contains(index),
    {
        match self.num_chunks {
            Some(_) => self.position(index).is_some(),
            None => false,
        }
    }

    /// Stores `bytes` as chunk `index`.
    ///
    /// A chunk that is stored already with the same bytes is left as it is; with other
    /// bytes the new ones are turned down. So is an index at or beyond the announced
    /// number of chunks.
    pub fn put_chunk(&mut self, index: u32, bytes: Vec<u8>) -> (r: Result<(), StoreError>)
        requires
            old(self).wf(),
        ensures
            match old(self)@.put(index, bytes@) {
                Ok(entry) => r is Ok && final(self)@ == entry,
                Err(e) => r == Err::<(), StoreError>(e) && final(self)@ == old(self)@,
            },
            final(self).wf(),
    {
        proof {
            lemma_chunk_map(self.chunks@);
        }
        match self.num_chunks {
            Some(n) => {
                if index >= n {
                    return Err(StoreError::IndexOutOfRange);
                }
            },
            None => {},
        }
        match self.position(index) {
            Some(k) => {
                if same_bytes(&self.chunks[k].1, &bytes) {
                    Ok(())
                } else {
                    Err(StoreError::HashCollision)
                }
            },
            None => {
                let ghost before = self.chunks@;
                self.chunks.push((index, bytes));
                proof {
                    assert(self.chunks@.drop_last() =~= before);
                    lemma_chunk_map(self.chunks@);
                }
                Ok(())
            },
        }
    }

    /// Records that the file has `n` chunks and the permission bits `mode`.
    ///
    /// A number that is recorded already stays; another one replaces it only while no
    /// chunk is stored.
    pub fn describe(&mut self, n: u32, mode: Option<u32>) -> (r: Result<(), StoreError>)
        requires
            old(self).wf(),
        ensures
            match old(self)@.describe(n, mode) {
                Ok(entry) => r is Ok && final(self)@ == entry,
                Err(e) => r == Err::<(), StoreError>(e) && final(self)@ == old(self)@,
            },
            final(self).wf(),
    {
        proof {
            lemma_chunk_map(self.chunks@);
        }
        match self.num_chunks {
            Some(m) => {
                if m == n {
                    Ok(())
                } else if self.chunks.len() == 0 {
                    self.num_chunks = Some(n);
                    self.mode = mode;
                    Ok(())
                } else {
                    proof {
                        assert(self@.chunks.contains_key(self.chunks@[0].0));
                    }
                    Err(StoreError::CountChanged)
                }
            },
            None => {
                let mut k: usize = 0;
                while k < self.chunks.len()
                    invariant
                        k <= self.chunks@.len(),
                        *self == *old(self),
                        self.wf(),
                        self.num_chunks is None,
                        forall|j: int| 0 <= j < k ==> (#[trigger] self.chunks@[j]).0 < n,
                    decreases self.chunks.len() - k,
                {
                    if self.chunks[k].0 >= n {
                        proof {
                            lemma_chunk_map(self.chunks@);
                            assert(self@.chunks.contains_key(self.chunks@[k as int].0));
                        }
                        return Err(StoreError::IndexOutOfRange);
                    }
                    k += 1;
                }
                proof {
                    lemma_chunk_map(self.chunks@);
                }
                self.num_chunks = Some(n);
                self.mode = mode;
                Ok(())
            },
        }
    }
}

/// Appends a byte string to another.
fn append_bytes(out: &mut Vec<u8>, bytes: &Vec<u8>)
    ensures
        final(out)@ == old(out)@ + bytes@,
{
    let mut i: usize = 0;
    while i < bytes.len()
        invariant
            i <= bytes.len(),
            out@ == old(out)@ + bytes@.subrange(0, i as int),
        decreases bytes.len() - i,
    {
        out.push(bytes[i]);
        proof {
            assert(out@ =~= old(out)@ + bytes@.subrange(0, i + 1));
        }
        i += 1;
    }
    proof {
        assert(bytes@.subrange(0, i as int) =~= bytes@);
    }
}

/// Whether two strings are equal.
pub fn same_text(a: &str, b: &str) -> (r: bool)
    ensures
        r == (a@ == b@),
{
    let left = a.to_owned();
    let right = b.to_owned();
    left == right
}

impl FileEntry {
    /// The indices of the chunks that count as present, each once.
    pub fn have_chunks(&self) -> (r: Vec<u32>)
        requires
            self.wf(),
        ensures
            r@.to_set() == self@.have(),
            r@.no_duplicates(),
    {
        let mut out: Vec<u32> = Vec::new();
        if self.num_chunks.is_none() {
            proof {
                assert(out@.to_set() =~= Set::<u32>::empty());
            }
            return out;
        }
        let mut k: usize = 0;
        while k < self.chunks.len()
            invariant
                k <= self.chunks@.len(),
                self.wf(),
                out@.len() == k,
                forall|j: int| 0 <= j < k ==> out@[j] == (#[trigger] self.chunks@[j]).0,
            decreases self.chunks.len() - k,
        {
            out.push(self.chunks[k].0);
            k += 1;
        }
        proof {
            lemma_chunk_map(self.chunks@);
            assert forall|i: u32| out@.to_set().contains(i) <==> self@.have().contains(i) by {
                if out@.to_set().contains(i) {
                    let j = choose|j: int| 0 <= j < out@.len() && out@[j] == i;
                    assert(self.chunks@[j].0 == i);
                }
                if self@.have().contains(i) {
                    let j = choose|j: int|
                        0 <= j < self.chunks@.len() && (#[trigger] self.chunks@[j]).0 == i;
                    assert(out@[j] == i);
                }
            }
            assert(out@.to_set() =~= self@.have());
            assert forall|a: int, b: int| 0 <= a < out@.len() && 0 <= b < out@.len() && a
                != b implies out@[a] != out@[b] by {
                if a < b {
                    assert(self.chunks@[a].0 != self.chunks@[b].0);
                } else {
                    assert(self.chunks@[b].0 != self.chunks@[a].0);
                }
            }
        }
        out
    }

    /// Whether every chunk of the file is present.
    pub fn is_complete(&self) -> (r: bool)
        requires
            self.wf(),
        ensures
            r == self@.complete(),
    {
        let n = match self.num_chunks {
            Some(n) => n,
            None => {
                return false;
            },
        };
        let mut i: u32 = 0;
        while i < n
            invariant
                i <= n,
                self.wf(),
                self.num_chunks == Some(n),
                forall|j: u32| j < i ==> self@.chunks.contains_key(j),
            decreases n - i,
        {
            if !self.holds(i) {
                return false;
            }
            i += 1;
        }
        true
    }

    /// The runs of chunks that are absent from a file of `num_chunks` chunks: the
    /// complement of the chunks present, in ascending order and coalesced.
    pub fn missing_ranges(&self, num_chunks: u32) -> (r: Vec<(u32, u32)>)
        requires
            self.wf(),
        ensures
            r@ == gaps(self@.have(), 0, num_chunks),
    {
        let ghost held = self@.have();
        let mut out: Vec<(u32, u32)> = Vec::new();
        let mut i: u32 = 0;
        while i < num_chunks
            invariant
                i <= num_chunks,
                self.wf(),
                held == self@.have(),
                out@ + gaps(held, i, num_chunks) == gaps(held, 0, num_chunks),
            decreases num_chunks - i,
        {
            if self.holds(i) {
                i += 1;
            } else {
                let mut j: u32 = i + 1;
                while j < num_chunks && !self.holds(j)
                    invariant
                        i < j <= num_chunks,
                        self.wf(),
                        held == self@.have(),
                        run_end(held, j, num_chunks) == run_end(held, (i + 1) as u32, num_chunks),
                    decreases num_chunks - j,
                {
                    j += 1;
                }
                proof {
                    assert(run_end(held, j, num_chunks) == j);
                    let rest = gaps(held, j, num_chunks);
                    assert(gaps(held, i, num_chunks) == seq![(i, (j - 1) as u32)] + rest);
                    assert(out@.push((i, (j - 1) as u32)) + rest =~= out@ + (seq![
                        (i, (j - 1) as u32),
                    ] + rest));
                }
                out.push((i, j - 1));
                i = j;
            }
        }
        proof {
            assert(out@ + Seq::<(u32, u32)>::empty() =~= out@);
        }
        out
    }

    /// The file that the chunks make up, where every chunk is present.
    pub fn contents(&self) -> (r: Option<Vec<u8>>)
        requires
            self.wf(),
        ensures
            match r {
                Some(data) => self@.complete() && data@ == self@.contents(),
                None => !self@.complete(),
            },
    {
        let n = match self.num_chunks {
            Some(n) => n,
            None => {
                return None;
            },
        };
        let mut out: Vec<u8> = Vec::new();
        let mut i: u32 = 0;
        while i < n
            invariant
                i <= n,
                self.wf(),
                self.num_chunks == Some(n),
                forall|j: u32| j < i ==> self@.chunks.contains_key(j),
                out@ == joined(self@.chunks, i as nat),
            decreases n - i,
        {
            match self.chunk(i) {
                Some(bytes) => {
                    append_bytes(&mut out, bytes);
                },
                None => {
                    return None;
                },
            }
            i += 1;
        }
        Some(out)
    }

    /// Checks that the file can be put together under the name `hash`. The caller hands
    /// in `digest`, the digest of [`contents`](Self::contents).
    pub fn check(&self, hash: &str, digest: &str) -> (r: Result<(), StoreError>)
        requires
            self.wf(),
        ensures
            r == self@.check(hash@, digest@),
    {
        if !self.is_complete() {
            Err(StoreError::MissingChunk)
        } else if same_text(hash, digest) {
            Ok(())
        } else {
            Err(StoreError::HashMismatch)
        }
    }

    /// Puts the file together under the name `hash`. The caller hands in `digest`, the
    /// digest of [`contents`](Self::contents); the file comes out only where every chunk
    /// is present and the digest is the hash.
    pub fn assemble(&self, hash: &str, digest: &str) -> (r: Result<Vec<u8>, StoreError>)
        requires
            self.wf(),
        ensures
            match self@.assemble(hash@, digest@) {
                Ok(data) => r matches Ok(out) && out@ == data,
                Err(e) => r == Err::<Vec<u8>, StoreError>(e),
            },
    {
        match self.contents() {
            None => Err(StoreError::MissingChunk),
            Some(data) => {
                if same_text(hash, digest) {
                    Ok(data)
                } else {
                    Err(StoreError::HashMismatch)
                }
            },
        }
    }
}

/// The number of chunks of `size` bytes that a file of `len` bytes takes: `len / size`,
/// rounded up.
pub open spec fn chunk_count(len: nat, size: nat) -> nat {
    if len == 0 {
        0
    } else {
        ((len - 1) / (size as int) + 1) as nat
    }
}

/// Where chunk `i` of a file of `len` bytes ends: a chunk is `size` bytes long, the last
/// one as long as what is left.
pub open spec fn chunk_end(len: nat, size: nat, i: nat) -> nat {
    if (i + 1) * size <= len {
        (i + 1) * size
    } else {
        len
    }
}

/// Chunk `i` of a file.
pub open spec fn chunk_at(data: Seq<u8>, size: nat, i: nat) -> Seq<u8> {
    data.subrange((i * size) as int, chunk_end(data.len(), size, i) as int)
}

/// A file cut into chunks of `size` bytes.
pub open spec fn split(data: Seq<u8>, size: nat) -> Map<u32, Seq<u8>> {
    Map::new(
        |i: u32| i < chunk_count(data.len(), size),
        |i: u32| chunk_at(data, size, i as nat),
    )
}

/// The entry of a file that has been staged whole.
pub open spec fn staged(data: Seq<u8>, size: nat, mode: Option<u32>) -> EntryView {
    EntryView {
        num_chunks: Some(chunk_count(data.len(), size) as u32),
        mode,
        chunks: split(data, size),
    }
}

/// Every chunk before the last is full, and the last one starts inside the file.
pub proof fn lemma_chunk_bounds(len: nat, size: nat, i: nat)
    requires
        size > 0,
        i < chunk_count(len, size),
    ensures
        i * size < len,
        i * size < chunk_end(len, size, i) <= len,
        i + 1 < chunk_count(len, size) ==> chunk_end(len, size, i) == (i + 1) * size,
        i + 1 == chunk_count(len, size) ==> chunk_end(len, size, i) == len,
{
    let q = (len - 1) / (size as int);
    assert(q * size <= len - 1 < (q + 1) * size) by (nonlinear_arith)
        requires
            q == (len - 1) / (size as int),
            size > 0,
            len >= 1,
    ;
    assert(i * size <= q * size) by (nonlinear_arith)
        requires
            i <= q,
            size > 0,
    ;
    assert((i + 1) * size == i * size + size) by (nonlinear_arith);
    if i + 1 < chunk_count(len, size) {
        assert((i + 1) * size <= q * size) by (nonlinear_arith)
            requires
                i + 1 <= q,
                size > 0,
        ;
    }
}

/// The chunks of a staged file, one after the other, are the file.
pub proof fn lemma_staged_contents(data: Seq<u8>, size: nat, mode: Option<u32>)
    requires
        size > 0,
        chunk_count(data.len(), size) <= u32::MAX,
    ensures
        staged(data, size, mode).complete(),
        staged(data, size, mode).wf(),
        staged(data, size, mode).contents() == data,
{
    let count = chunk_count(data.len(), size);
    let chunks = split(data, size);
    lemma_joined_prefix(data, size, count);
    if count > 0 {
        lemma_chunk_bounds(data.len(), size, (count - 1) as nat);
        assert(data.subrange(0, data.len() as int) =~= data);
    } else {
        assert(data =~= Seq::<u8>::empty());
    }
}

/// The first `k` chunks of a file, one after the other, are the file up to the end of
/// chunk `k - 1`.
proof fn lemma_joined_prefix(data: Seq<u8>, size: nat, k: nat)
    requires
        size > 0,
        k <= chunk_count(data.len(), size) <= u32::MAX,
    ensures
        k == 0 ==> joined(split(data, size), k) == Seq::<u8>::empty(),
        k > 0 ==> joined(split(data, size), k) == data.subrange(
            0,
            chunk_end(data.len(), size, (k - 1) as nat) as int,
        ),
    decreases k,
{
    if k > 0 {
        let i = (k - 1) as nat;
        lemma_joined_prefix(data, size, i);
        lemma_chunk_bounds(data.len(), size, i);
        let end = chunk_end(data.len(), size, i) as int;
        assert(split(data, size)[i as u32] == data.subrange((i * size) as int, end));
        if i > 0 {
            lemma_chunk_bounds(data.len(), size, (i - 1) as nat);
            assert(data.subrange(0, (i * size) as int) + data.subrange((i * size) as int, end)
                =~= data.subrange(0, end));
        } else {
            assert(i * size == 0) by (nonlinear_arith)
                requires
                    i == 0,
            ;
            assert(Seq::<u8>::empty() + data.subrange(0, end) =~= data.subrange(0, end));
        }
    }
}

impl FileEntry {
    /// Cuts a file into chunks of `chunk_size` bytes: the entry under which the file is
    /// staged.
    pub fn split(data: &[u8], chunk_size: u32, mode: Option<u32>) -> (r: Result<
        FileEntry,
        StoreError,
    >)
        requires
            chunk_size > 0,
        ensures
            match r {
                Ok(entry) => chunk_count(data@.len(), chunk_size as nat) <= u32::MAX && entry@
                    == staged(data@, chunk_size as nat, mode) && entry.wf(),
                Err(e) => chunk_count(data@.len(), chunk_size as nat) > u32::MAX && e
                    == StoreError::TooLarge,
            },
    {
        let len = data.len();
        let size = chunk_size as usize;
        let count: usize = if len == 0 {
            0
        } else {
            (len - 1) / size + 1
        };
        if count > 0xffff_ffff {
            return Err(StoreError::TooLarge);
        }
        let total = count as u32;
        let mut chunks: Vec<(u32, Vec<u8>)> = Vec::new();
        let mut i: u32 = 0;
        let mut start: usize = 0;
        while i < total
            invariant
                i <= total,
                total == chunk_count(data@.len(), size as nat),
                size == chunk_size,
                size > 0,
                len == data@.len(),
                i < total ==> start == i * size,
                chunks@.len() == i,
                forall|j: int|
                    0 <= j < i ==> (#[trigger] chunks@[j]).0 == j && chunks@[j].1@ == chunk_at(
                        data@,
                        size as nat,
                        j as nat,
                    ),
            decreases total - i,
        {
            proof {
                lemma_chunk_bounds(len as nat, size as nat, i as nat);
                assert((i + 1) * size == i * size + size) by (nonlinear_arith);
            }
            let end: usize = if len - start > size {
                start + size
            } else {
                len
            };
            let mut bytes: Vec<u8> = Vec::new();
            let mut at: usize = start;
            while at < end
                invariant
                    start <= at <= end <= len,
                    len == data@.len(),
                    bytes@ == data@.subrange(start as int, at as int),
                decreases end - at,
            {
                bytes.push(data[at]);
                proof {
                    assert(bytes@ =~= data@.subrange(start as int, at + 1));
                }
                at += 1;
            }
            chunks.push((i, bytes));
            i += 1;
            start = end;
        }
        let entry = FileEntry { num_chunks: Some(total), mode, chunks };
        proof {
            lemma_chunk_map(entry.chunks@);
            assert forall|k: u32| #[trigger]
                entry@.chunks.contains_key(k) <==> split(data@, size as nat).contains_key(k) by {
                if k < total {
                    assert(entry.chunks@[k as int].0 == k);
                }
            }
            assert forall|k: u32| #[trigger] entry@.chunks.contains_key(k) implies entry@.chunks[k]
                == split(data@, size as nat)[k] by {
                assert(entry.chunks@[k as int].0 == k);
            }
            assert(entry@.chunks =~= split(data@, size as nat));
        }
        Ok(entry)
    }
}

/// The entry after a run of chunks has been offered to it, one after the other: a chunk
/// that is turned down leaves the entry as it was.
pub open spec fn put_all(entry: EntryView, puts: Seq<(u32, Seq<u8>)>) -> EntryView
    decreases puts.len(),
{
    if puts.len() == 0 {
        entry
    } else {
        let before = put_all(entry, puts.drop_last());
        match before.put(puts.last().0, puts.last().1) {
            Ok(after) => after,
            Err(_) => before,
        }
    }
}

/// Chunks of the same index carry the same bytes.
pub open spec fn agreeing(puts: Seq<(u32, Seq<u8>)>) -> bool {
    forall|j: int, k: int|
        0 <= j < puts.len() && 0 <= k < puts.len() && (#[trigger] puts[j]).0 == (
        #[trigger] puts[k]).0 ==> puts[j].1 == puts[k].1
}

/// What an entry without chunks holds after agreeing chunks have been offered to it:
/// every offered chunk whose index the entry admits, and nothing else.
proof fn lemma_put_all(start: EntryView, puts: Seq<(u32, Seq<u8>)>)
    requires
        start.chunks == Map::<u32, Seq<u8>>::empty(),
        agreeing(puts),
    ensures
        put_all(start, puts).num_chunks == start.num_chunks,
        put_all(start, puts).mode == start.mode,
        forall|i: u32|
            #[trigger] put_all(start, puts).chunks.contains_key(i) <==> (exists|k: int|
                0 <= k < puts.len() && (#[trigger] puts[k]).0 == i) && !(start.num_chunks matches Some(
                n,
            ) && i >= n),
        forall|k: int|
            0 <= k < puts.len() && put_all(start, puts).chunks.contains_key(
                (#[trigger] puts[k]).0,
            ) ==> put_all(start, puts).chunks[puts[k].0] == puts[k].1,
    decreases puts.len(),
{
    if puts.len() > 0 {
        let front = puts.drop_last();
        let last = puts.last();
        assert(agreeing(front)) by {
            assert forall|j: int, k: int|
                0 <= j < front.len() && 0 <= k < front.len() && (#[trigger] front[j]).0 == (
                #[trigger] front[k]).0 implies front[j].1 == front[k].1 by {
                assert(front[j] == puts[j] && front[k] == puts[k]);
            }
        }
        lemma_put_all(start, front);
        let before = put_all(start, front);
        let after = put_all(start, puts);
        assert(puts[puts.len() - 1] == last);
        assert forall|i: u32| #[trigger] after.chunks.contains_key(i) implies (exists|k: int|
            0 <= k < puts.len() && (#[trigger] puts[k]).0 == i) && !(start.num_chunks matches Some(n)
            && i >= n) by {
            if before.chunks.contains_key(i) {
                let k = choose|k: int| 0 <= k < front.len() && (#[trigger] front[k]).0 == i;
                assert(puts[k] == front[k]);
            } else {
                assert(i == last.0);
            }
        }
        assert forall|i: u32|
            (exists|k: int| 0 <= k < puts.len() && (#[trigger] puts[k]).0 == i) && !(
            start.num_chunks matches Some(n) && i >= n) implies #[trigger] after.chunks.contains_key(
            i,
        ) by {
            let k = choose|k: int| 0 <= k < puts.len() && (#[trigger] puts[k]).0 == i;
            if k < front.len() {
                assert(front[k] == puts[k]);
                assert(before.chunks.contains_key(i));
            }
        }
        assert forall|k: int|
            0 <= k < puts.len() && after.chunks.contains_key((#[trigger] puts[k]).0) implies after.chunks[puts[k].0]
            == puts[k].1 by {
            if k < front.len() {
                assert(front[k] == puts[k]);
                if puts[k].0 == last.0 {
                    assert(puts[k].1 == last.1);
                }
                if before.chunks.contains_key(puts[k].0) {
                } else {
                    assert(puts[k].0 == last.0);
                }
            } else {
                if before.chunks.contains_key(last.0) {
                    let j = choose|j: int| 0 <= j < front.len() && (#[trigger] front[j]).0 == last.0;
                    assert(front[j] == puts[j]);
                    assert(puts[j].1 == last.1);
                }
            }
        }
    }
}

/// The order in which chunks arrive does not matter, nor how often each arrives: two
/// runs of the same agreeing chunks leave an entry that held no chunk in the same state.
pub proof fn lemma_put_order(start: EntryView, a: Seq<(u32, Seq<u8>)>, b: Seq<(u32, Seq<u8>)>)
    requires
        start.chunks == Map::<u32, Seq<u8>>::empty(),
        agreeing(a),
        a.to_set() == b.to_set(),
    ensures
        put_all(start, a) == put_all(start, b),
{
    assert(agreeing(b)) by {
        assert forall|j: int, k: int|
            0 <= j < b.len() && 0 <= k < b.len() && (#[trigger] b[j]).0 == (#[trigger] b[k]).0 implies b[j].1
            == b[k].1 by {
            assert(b.to_set().contains(b[j]));
            assert(b.to_set().contains(b[k]));
            assert(a.to_set().contains(b[j]));
            assert(a.to_set().contains(b[k]));
            let x = choose|x: int| 0 <= x < a.len() && a[x] == b[j];
            let y = choose|y: int| 0 <= y < a.len() && a[y] == b[k];
            assert(a[x].0 == a[y].0);
        }
    }
    lemma_put_all(start, a);
    lemma_put_all(start, b);
    let left = put_all(start, a);
    let right = put_all(start, b);
    assert forall|i: u32| left.chunks.contains_key(i) <==> right.chunks.contains_key(i) by {
        if left.chunks.contains_key(i) {
            let k = choose|k: int| 0 <= k < a.len() && (#[trigger] a[k]).0 == i;
            assert(a.to_set().contains(a[k]));
            assert(b.to_set().contains(a[k]));
            let j = choose|j: int| 0 <= j < b.len() && b[j] == a[k];
            assert(b[j].0 == i);
        }
        if right.chunks.contains_key(i) {
            let k = choose|k: int| 0 <= k < b.len() && (#[trigger] b[k]).0 == i;
            assert(b.to_set().contains(b[k]));
            assert(a.to_set().contains(b[k]));
            let j = choose|j: int| 0 <= j < a.len() && a[j] == b[k];
            assert(a[j].0 == i);
        }
    }
    assert forall|i: u32| left.chunks.contains_key(i) implies left.chunks[i] == right.chunks[i] by {
        let k = choose|k: int| 0 <= k < a.len() && (#[trigger] a[k]).0 == i;
        assert(a.to_set().contains(a[k]));
        assert(b.to_set().contains(a[k]));
        let j = choose|j: int| 0 <= j < b.len() && b[j] == a[k];
        assert(b[j].0 == i);
    }
    assert(left.chunks =~= right.chunks);
}

/// Offering a chunk a second time changes nothing.
pub proof fn lemma_put_idempotent(entry: EntryView, index: u32, bytes: Seq<u8>)
    ensures
        entry.put(index, bytes) matches Ok(after) ==> after.put(index, bytes) == Ok::<
            EntryView,
            StoreError,
        >(after),
{
}

/// An entry that is complete lacks no chunk, and only such an entry lacks none.
pub proof fn lemma_complete_lacks_nothing(entry: EntryView)
    requires
        entry.num_chunks is Some,
    ensures
        entry.complete() <==> gaps(entry.have(), 0, entry.num_chunks.unwrap()).len() == 0,
{
    crate::ranges::lemma_no_gaps(entry.have(), entry.num_chunks.unwrap());
}

} // verus!
