//! The staging area for one object that arrives in fragments, and the
//! assembler that joins the fragments in index order.

use crate::error::Error;
use std::collections::BTreeMap;
use vstd::prelude::*;

verus! {

/// The fragments with the indices `0 .. count`, in index order.
pub open spec fn fragments(chunks: Map<u32, Seq<u8>>, count: nat) -> Seq<Seq<u8>> {
    Seq::new(count, |i: int| chunks[i as u32])
}

/// The object that the fragments `0 ..= end_index` make up: their payloads,
/// one after the other.
pub open spec fn assembled(chunks: Map<u32, Seq<u8>>, end_index: u32) -> Seq<u8> {
    fragments(chunks, (end_index + 1) as nat).flatten()
}

/// Every index in `0 ..= end_index` has a fragment.
pub open spec fn complete_through(chunks: Map<u32, Seq<u8>>, end_index: u32) -> bool {
    forall|i: u32| i <= end_index ==> chunks.contains_key(i)
}

/// `index` is the least index in `0 ..= end_index` that has no fragment.
pub open spec fn first_missing(chunks: Map<u32, Seq<u8>>, end_index: u32, index: u32) -> bool {
    &&& index <= end_index
    &&& !chunks.contains_key(index)
    &&& forall|i: u32| i < index ==> chunks.contains_key(i)
}

/// The fragment `i` of `bytes` when it is cut every `chunk_size` bytes: the
/// bytes from `i * chunk_size` up to the next cut or the end.
pub open spec fn piece(bytes: Seq<u8>, chunk_size: nat, i: int) -> Seq<u8> {
    let start: int = i * chunk_size;
    let stop: int = if start + chunk_size <= bytes.len() {
        start + chunk_size
    } else {
        bytes.len() as int
    };
    bytes.subrange(start, stop)
}

/// `bytes` cut every `chunk_size` bytes. The last fragment is what is left
/// after the last full one, so it is shorter than `chunk_size`, and empty
/// when the length of `bytes` is a multiple of `chunk_size`.
pub open spec fn split(bytes: Seq<u8>, chunk_size: nat) -> Seq<Seq<u8>> {
    Seq::new((bytes.len() / chunk_size + 1) as nat, |i: int| piece(bytes, chunk_size, i))
}

/// The payloads of a list of fragments.
pub open spec fn payloads(pieces: Seq<Vec<u8>>) -> Seq<Seq<u8>> {
    pieces.map_values(|fragment: Vec<u8>| fragment@)
}

/// Cuts `bytes` into fragments of `chunk_size` bytes for upload; fragment `i`
/// of the result goes under index `i`.
pub fn split_chunks(bytes: &[u8], chunk_size: usize) -> (pieces: Vec<Vec<u8>>)
    requires
        chunk_size > 0,
    ensures
        payloads(pieces@) == split(bytes@, chunk_size as nat),
{
    let mut pieces: Vec<Vec<u8>> = Vec::new();
    let mut start: usize = 0;
    assert(start == pieces.len() * chunk_size) by (nonlinear_arith)
        requires
            start == 0,
            pieces.len() == 0,
    ;
    while bytes.len() - start >= chunk_size
        invariant
            chunk_size > 0,
            start <= bytes.len(),
            start == pieces.len() * chunk_size,
            forall|i: int|
                0 <= i < pieces.len() ==> (#[trigger] pieces@[i])@ == piece(
                    bytes@,
                    chunk_size as nat,
                    i,
                ),
        decreases bytes.len() - start,
    {
        let stop: usize = start + chunk_size;
        pieces.push(vstd::slice::slice_to_vec(vstd::slice::slice_subrange(bytes, start, stop)));
        assert(stop == pieces.len() * chunk_size) by (nonlinear_arith)
            requires
                stop == start + chunk_size,
                start == (pieces.len() - 1) * chunk_size,
        ;
        start = stop;
    }
    let ghost full = pieces.len() as int;
    assert(bytes.len() as int / chunk_size as int == full) by (nonlinear_arith)
        requires
            chunk_size > 0,
            full * chunk_size <= bytes.len(),
            bytes.len() < full * chunk_size + chunk_size,
    ;
    pieces.push(vstd::slice::slice_to_vec(vstd::slice::slice_subrange(bytes, start, bytes.len())));
    pieces
}

/// Cuts `bytes` in two at `position`.
pub fn split_at(bytes: &[u8], position: usize) -> (halves: (Vec<u8>, Vec<u8>))
    requires
        position <= bytes.len(),
    ensures
        halves.0@ == bytes@.subrange(0, position as int),
        halves.1@ == bytes@.subrange(position as int, bytes.len() as int),
        halves.0@ + halves.1@ == bytes@,
{
    let head = vstd::slice::slice_to_vec(vstd::slice::slice_subrange(bytes, 0, position));
    let tail = vstd::slice::slice_to_vec(
        vstd::slice::slice_subrange(bytes, position, bytes.len()),
    );
    (head, tail)
}

/// Pending fragments, each under its sequence index. A fragment's payload is
/// never interpreted here.
pub struct ChunkBuffer {
    chunks: BTreeMap<u32, Vec<u8>>,
}

impl View for ChunkBuffer {
    type V = Map<u32, Seq<u8>>;

    closed spec fn view(&self) -> Map<u32, Seq<u8>> {
        self.chunks@.map_values(|payload: Vec<u8>| payload@)
    }
}

impl ChunkBuffer {
    /// An empty buffer.
    pub fn new() -> (buffer: Self)
        ensures
            buffer@ == Map::<u32, Seq<u8>>::empty(),
    {
        let buffer = ChunkBuffer { chunks: BTreeMap::new() };
        buffer
    }

    /// Stores `bytes` as the fragment `index`, in place of any earlier one.
    pub fn put_chunk(&mut self, index: u32, bytes: Vec<u8>)
        ensures
            final(self)@ == old(self)@.insert(index, bytes@),
    {
        self.chunks.insert(index, bytes);
    }

    /// A copy of the fragment `index`, if there is one.
    pub fn get_chunk(&self, index: u32) -> (found: Option<Vec<u8>>)
        ensures
            match found {
                Some(bytes) => self@.contains_key(index) && bytes@ == self@[index],
                None => !self@.contains_key(index),
            },
    {
        match self.chunks.get(&index) {
            Some(payload) => {
                let copy = payload.clone();
                Some(copy)
            },
            None => None,
        }
    }

    /// Whether the fragment `index` is present.
    pub fn contains(&self, index: u32) -> (present: bool)
        ensures
            present == self@.contains_key(index),
    {
        self.chunks.contains_key(&index)
    }

    /// Drops every pending fragment.
    pub fn clear(&mut self)
        ensures
            final(self)@ == Map::<u32, Seq<u8>>::empty(),
    {
        self.chunks.clear();
    }

    /// Joins the fragments `0 ..= end_index` in index order. Fails at the
    /// first index that has no fragment. The buffer is only read.
    pub fn assemble(&self, end_index: u32) -> (result: Result<Vec<u8>, Error>)
        ensures
            match result {
                Ok(bytes) => complete_through(self@, end_index) && bytes@ == assembled(
                    self@,
                    end_index,
                ),
                Err(Error::MissingChunk(index)) => first_missing(self@, end_index, index),
                Err(_) => false,
            },
    {
        let mut bytes: Vec<u8> = Vec::new();
        let mut index: u32 = 0;
        loop
            invariant
                index <= end_index,
                forall|i: u32| i < index ==> self@.contains_key(i),
                bytes@ == fragments(self@, index as nat).flatten(),
            decreases end_index - index,
        {
            match self.chunks.get(&index) {
                None => {
                    return Err(Error::MissingChunk(index));
                },
                Some(payload) => {
                    bytes.extend_from_slice(payload.as_slice());
                    proof {
                        assert(fragments(self@, (index + 1) as nat) =~= fragments(
                            self@,
                            index as nat,
                        ).push(self@[index]));
                        fragments(self@, index as nat).lemma_flatten_push(self@[index]);
                    }
                },
            }
            if index == end_index {
                return Ok(bytes);
            }
            index = index + 1;
        }
    }
}

/// The buffer `chunks` after the fragments of `uploads`, each an index and a
/// payload, were put into it one after the other.
pub open spec fn uploaded(chunks: Map<u32, Seq<u8>>, uploads: Seq<(u32, Seq<u8>)>) -> Map<
    u32,
    Seq<u8>,
>
    decreases uploads.len(),
{
    if uploads.len() == 0 {
        chunks
    } else {
        uploaded(chunks, uploads.drop_last()).insert(uploads.last().0, uploads.last().1)
    }
}

/// Some upload of `uploads` goes under `index`.
pub open spec fn names(uploads: Seq<(u32, Seq<u8>)>, index: u32) -> bool {
    exists|j: int| 0 <= j < uploads.len() && (#[trigger] uploads[j]).0 == index
}

/// No index occurs twice in `uploads`.
pub open spec fn distinct_indices(uploads: Seq<(u32, Seq<u8>)>) -> bool {
    forall|i: int, j: int| 0 <= i < j < uploads.len() ==> uploads[i].0 != uploads[j].0
}

/// An index that no upload names is in the buffer as it was before.
proof fn lemma_uploaded_untouched(
    chunks: Map<u32, Seq<u8>>,
    uploads: Seq<(u32, Seq<u8>)>,
    index: u32,
)
    requires
        forall|j: int| 0 <= j < uploads.len() ==> (#[trigger] uploads[j]).0 != index,
    ensures
        uploaded(chunks, uploads).contains_key(index) == chunks.contains_key(index),
        uploaded(chunks, uploads)[index] == chunks[index],
    decreases uploads.len(),
{
    if uploads.len() > 0 {
        let earlier = uploads.drop_last();
        assert forall|j: int| 0 <= j < earlier.len() implies (#[trigger] earlier[j]).0 != index by {
            assert(earlier[j] == uploads[j]);
        }
        lemma_uploaded_untouched(chunks, earlier, index);
    }
}

/// An index that some upload names, where every upload that names it carries
/// `payload`, holds `payload` afterwards.
proof fn lemma_uploaded_entry(
    chunks: Map<u32, Seq<u8>>,
    uploads: Seq<(u32, Seq<u8>)>,
    index: u32,
    payload: Seq<u8>,
)
    requires
        names(uploads, index),
        forall|j: int|
            0 <= j < uploads.len() && (#[trigger] uploads[j]).0 == index ==> uploads[j].1
                == payload,
    ensures
        uploaded(chunks, uploads).contains_key(index),
        uploaded(chunks, uploads)[index] == payload,
    decreases uploads.len(),
{
    let earlier = uploads.drop_last();
    if uploads.last().0 != index {
        let j: int = choose|j: int| 0 <= j < uploads.len() && (#[trigger] uploads[j]).0 == index;
        assert(earlier[j] == uploads[j]);
        assert forall|k: int|
            0 <= k < earlier.len() && (#[trigger] earlier[k]).0 == index implies earlier[k].1
            == payload by {
            assert(earlier[k] == uploads[k]);
        }
        lemma_uploaded_entry(chunks, earlier, index, payload);
    }
}

/// Putting the same fragment under the same index a second time changes
/// nothing.
pub proof fn lemma_put_chunk_idempotent(chunks: Map<u32, Seq<u8>>, index: u32, bytes: Seq<u8>)
    ensures
        chunks.insert(index, bytes).insert(index, bytes) == chunks.insert(index, bytes),
{
    assert(chunks.insert(index, bytes).insert(index, bytes) =~= chunks.insert(index, bytes));
}

/// Two lists that hold the same fragments, each index once, leave the same
/// fragment, or none, under `index`.
proof fn lemma_upload_order_at(
    chunks: Map<u32, Seq<u8>>,
    first: Seq<(u32, Seq<u8>)>,
    second: Seq<(u32, Seq<u8>)>,
    index: u32,
)
    requires
        distinct_indices(first),
        distinct_indices(second),
        forall|entry: (u32, Seq<u8>)| first.contains(entry) <==> second.contains(entry),
    ensures
        uploaded(chunks, first).contains_key(index) == uploaded(chunks, second).contains_key(
            index,
        ),
        uploaded(chunks, first)[index] == uploaded(chunks, second)[index],
{
    if names(first, index) {
        let j: int = choose|j: int| 0 <= j < first.len() && (#[trigger] first[j]).0 == index;
        let payload = first[j].1;
        assert(first.contains(first[j]));
        assert(second.contains(first[j]));
        let k: int = choose|k: int| 0 <= k < second.len() && second[k] == first[j];
        assert(second[k].0 == index);
        lemma_uploaded_entry(chunks, first, index, payload);
        lemma_uploaded_entry(chunks, second, index, payload);
    } else {
        assert forall|k: int| 0 <= k < second.len() implies (#[trigger] second[k]).0 != index by {
            if second[k].0 == index {
                assert(second.contains(second[k]));
                assert(first.contains(second[k]));
                let j: int = choose|j: int| 0 <= j < first.len() && first[j] == second[k];
                assert(first[j].0 == index);
            }
        }
        lemma_uploaded_untouched(chunks, first, index);
        lemma_uploaded_untouched(chunks, second, index);
    }
}

/// The order of uploads does not matter: two lists that hold the same
/// fragments, each index once, leave the same buffer, and so the same
/// assembled bytes.
pub proof fn lemma_upload_order(
    chunks: Map<u32, Seq<u8>>,
    first: Seq<(u32, Seq<u8>)>,
    second: Seq<(u32, Seq<u8>)>,
)
    requires
        distinct_indices(first),
        distinct_indices(second),
        forall|entry: (u32, Seq<u8>)| first.contains(entry) <==> second.contains(entry),
    ensures
        uploaded(chunks, first) == uploaded(chunks, second),
        forall|end_index: u32|
            assembled(uploaded(chunks, first), end_index) == assembled(
                uploaded(chunks, second),
                end_index,
            ),
{
    let a = uploaded(chunks, first);
    let b = uploaded(chunks, second);
    assert forall|index: u32| #[trigger] a.dom().contains(index) == b.dom().contains(index) by {
        lemma_upload_order_at(chunks, first, second, index);
    }
    assert forall|index: u32| a.dom().contains(index) implies #[trigger] a[index] == b[index] by {
        lemma_upload_order_at(chunks, first, second, index);
    }
}

/// Round trip: when an object is cut into `parts` at any places, and the part
/// `i` is uploaded under index `i`, in any order and into any buffer, then
/// assembling through the last index gives the object back.
pub proof fn lemma_round_trip(
    chunks: Map<u32, Seq<u8>>,
    parts: Seq<Seq<u8>>,
    uploads: Seq<(u32, Seq<u8>)>,
)
    requires
        0 < parts.len() <= u32::MAX + 1,
        forall|j: int|
            0 <= j < uploads.len() && (#[trigger] uploads[j]).0 < parts.len() ==> uploads[j].1
                == parts[uploads[j].0 as int],
        forall|index: u32| index < parts.len() ==> #[trigger] names(uploads, index),
    ensures
        complete_through(uploaded(chunks, uploads), (parts.len() - 1) as u32),
        assembled(uploaded(chunks, uploads), (parts.len() - 1) as u32) == parts.flatten(),
{
    let after = uploaded(chunks, uploads);
    assert forall|i: int| 0 <= i < parts.len() implies after.contains_key(i as u32)
        && #[trigger] after[i as u32] == parts[i] by {
        lemma_uploaded_entry(chunks, uploads, i as u32, parts[i]);
    }
    assert forall|index: u32| index <= (parts.len() - 1) as u32 implies after.contains_key(
        index,
    ) by {
        assert(after[index as int as u32] == parts[index as int]);
    }
    assert(fragments(after, parts.len()) =~= parts);
}

/// Cutting loses nothing: the fragments of `split`, joined, are the bytes
/// that were cut.
pub proof fn lemma_split_joins(bytes: Seq<u8>, chunk_size: nat)
    requires
        chunk_size > 0,
    ensures
        split(bytes, chunk_size).flatten() == bytes,
{
    let count: nat = (bytes.len() / chunk_size + 1) as nat;
    lemma_split_prefix(bytes, chunk_size, count);
    assert(split(bytes, chunk_size) =~= Seq::new(count, |i: int| piece(bytes, chunk_size, i)));
    assert(count * chunk_size > bytes.len()) by (nonlinear_arith)
        requires
            chunk_size > 0,
            count == bytes.len() / chunk_size + 1,
    ;
}

/// The first `count` fragments of a cut, joined, are the bytes up to the
/// cut `count`, or all of them.
proof fn lemma_split_prefix(bytes: Seq<u8>, chunk_size: nat, count: nat)
    requires
        chunk_size > 0,
        count <= bytes.len() / chunk_size + 1,
    ensures
        Seq::new(count, |i: int| piece(bytes, chunk_size, i)).flatten() == bytes.subrange(
            0,
            if count * chunk_size <= bytes.len() {
                (count * chunk_size) as int
            } else {
                bytes.len() as int
            },
        ),
    decreases count,
{
    let pieces = Seq::new(count, |i: int| piece(bytes, chunk_size, i));
    if count == 0 {
        assert(pieces.flatten() =~= Seq::<u8>::empty());
        assert(count * chunk_size == 0) by (nonlinear_arith)
            requires
                count == 0,
        ;
        assert(bytes.subrange(0, 0) =~= Seq::<u8>::empty());
    } else {
        let before: nat = (count - 1) as nat;
        let earlier = Seq::new(before, |i: int| piece(bytes, chunk_size, i));
        lemma_split_prefix(bytes, chunk_size, before);
        assert(pieces =~= earlier.push(piece(bytes, chunk_size, before as int)));
        earlier.lemma_flatten_push(piece(bytes, chunk_size, before as int));
        assert(before * chunk_size <= bytes.len()) by (nonlinear_arith)
            requires
                chunk_size > 0,
                before <= bytes.len() / chunk_size,
        ;
        assert(count * chunk_size == before * chunk_size + chunk_size) by (nonlinear_arith)
            requires
                count == before + 1,
        ;
        let start: int = (before * chunk_size) as int;
        let stop: int = if count * chunk_size <= bytes.len() {
            (count * chunk_size) as int
        } else {
            bytes.len() as int
        };
        assert(bytes.subrange(0, start) + bytes.subrange(start, stop) =~= bytes.subrange(0, stop));
    }
}

} // verus!
