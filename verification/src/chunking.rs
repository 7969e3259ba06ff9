//! Cutting a plaintext into chunks.

use vstd::prelude::*;

verus! {

/// The chunks of `data`: consecutive pieces of `chunk_size` bytes, the last
/// one possibly shorter. An empty `data` has no chunks.
pub open spec fn chunks_of(data: Seq<u8>, chunk_size: nat) -> Seq<Seq<u8>>
    decreases data.len(),
{
    if chunk_size == 0 || data.len() == 0 {
        Seq::empty()
    } else if data.len() <= chunk_size {
        seq![data]
    } else {
        seq![data.take(chunk_size as int)] + chunks_of(data.skip(chunk_size as int), chunk_size)
    }
}

/// Number of chunks of a plaintext of `len` bytes.
pub open spec fn chunk_count(len: nat, chunk_size: nat) -> nat
    decreases len,
{
    if chunk_size == 0 || len == 0 {
        0
    } else if len <= chunk_size {
        1
    } else {
        1 + chunk_count((len - chunk_size) as nat, chunk_size)
    }
}

/// The chunks of `data` are as many as its length asks for, none is empty or
/// longer than `chunk_size`, all but the last are full, and together, in
/// order, they are `data`.
pub proof fn lemma_chunks_of(data: Seq<u8>, chunk_size: nat)
    requires
        chunk_size > 0,
    ensures
        chunks_of(data, chunk_size).len() == chunk_count(data.len(), chunk_size),
        chunks_of(data, chunk_size).flatten() == data,
        forall|i: int|
            0 <= i < chunks_of(data, chunk_size).len() ==> 1 <= (#[trigger] chunks_of(
                data,
                chunk_size,
            )[i]).len() <= chunk_size,
        forall|i: int|
            0 <= i < chunks_of(data, chunk_size).len() - 1 ==> (#[trigger] chunks_of(
                data,
                chunk_size,
            )[i]).len() == chunk_size,
        data.len() > chunk_size ==> chunks_of(data, chunk_size).len() >= 2,
    decreases data.len(),
{
    let chunks = chunks_of(data, chunk_size);
    if 0 < data.len() <= chunk_size {
        chunks.lemma_flatten_one_element();
    } else if data.len() > chunk_size {
        let tail = data.skip(chunk_size as int);
        lemma_chunks_of(tail, chunk_size);
        assert(chunks.drop_first() =~= chunks_of(tail, chunk_size));
    }
}

/// Full chunks followed by one more chunk are the chunks of their bytes.
pub proof fn lemma_chunks_push(full: Seq<Seq<u8>>, last: Seq<u8>, chunk_size: nat)
    requires
        chunk_size > 0,
        forall|i: int| 0 <= i < full.len() ==> (#[trigger] full[i]).len() == chunk_size,
        1 <= last.len() <= chunk_size,
    ensures
        chunks_of(full.flatten() + last, chunk_size) == full.push(last),
    decreases full.len(),
{
    if full.len() > 0 {
        let rest = full.drop_first();
        let data = full.flatten() + last;
        assert(data.take(chunk_size as int) =~= full.first());
        assert(data.skip(chunk_size as int) =~= rest.flatten() + last);
        lemma_chunks_push(rest, last, chunk_size);
    }
}

/// A longer plaintext has no fewer chunks.
pub proof fn lemma_chunk_count_grows(shorter: nat, longer: nat, chunk_size: nat)
    requires
        shorter <= longer,
    ensures
        chunk_count(shorter, chunk_size) <= chunk_count(longer, chunk_size),
    decreases shorter,
{
    if chunk_size > 0 && shorter > chunk_size {
        lemma_chunk_count_grows(
            (shorter - chunk_size) as nat,
            (longer - chunk_size) as nat,
            chunk_size,
        );
    }
}

/// The chunks of each element of `chunks`.
pub open spec fn chunk_views(chunks: Seq<Vec<u8>>) -> Seq<Seq<u8>> {
    chunks.map_values(|chunk: Vec<u8>| chunk@)
}

} // verus!
