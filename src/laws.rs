//! Properties of storing and retrieving, proved over the engine's model.
use vstd::prelude::*;
use vstd::utf8::{encode_utf8, is_ascii_chars, is_ascii_chars_encode_utf8};
use crate::chunker::{chunk_digests, chunks_of, concat_all, effective_chunk_size, lemma_chunk_count, lemma_chunks_concat, DEFAULT_CHUNK_SIZE};
use crate::codec::{decode_spec, encodable, lemma_decode_encode, MetadataView};
use crate::engine::{chunk_intact, first_bad, lemma_first_bad_extends, gather, is_chunked, lookup, metadata_for, put_chunks, store_cache, store_db, store_digest, Lookup};
use crate::hashing::{algorithm_of_token, digest_of, lemma_digest_shape, lemma_token_round_trip, token_of, HashAlgorithm};
use crate::keys::{chunk_key, lemma_keys_distinct, meta_key};

verus! {

proof fn lemma_put_chunks(base: Map<Seq<char>, Seq<u8>>, d: Seq<char>, chunks: Seq<Seq<u8>>)
    ensures
        forall|j: nat| #![trigger chunk_key(d, j)] j < chunks.len() ==> put_chunks(base, d, chunks).contains_key(chunk_key(d, j))
            && put_chunks(base, d, chunks)[chunk_key(d, j)] == chunks[j as int],
        put_chunks(base, d, chunks).contains_key(meta_key(d)) == base.contains_key(meta_key(d)),
        put_chunks(base, d, chunks)[meta_key(d)] == base[meta_key(d)],
    decreases chunks.len(),
{
    if chunks.len() > 0 {
        let init = chunks.drop_last();
        let last = (chunks.len() - 1) as nat;
        lemma_put_chunks(base, d, init);
        lemma_keys_distinct(d, last, last);
        assert forall|j: nat| #![trigger chunk_key(d, j)] j < chunks.len() implies put_chunks(base, d, chunks).contains_key(chunk_key(d, j))
            && put_chunks(base, d, chunks)[chunk_key(d, j)] == chunks[j as int] by {
            lemma_keys_distinct(d, j, last);
            if j < last {
                assert(init[j as int] == chunks[j as int]);
            }
        }
    }
}

proof fn lemma_all_intact(
    db: Map<Seq<char>, Seq<u8>>,
    d: Seq<char>,
    digests: Seq<Seq<char>>,
    alg: HashAlgorithm,
    n: nat,
)
    requires
        forall|j: nat| j < n ==> #[trigger] chunk_intact(db, d, digests, alg, j),
    ensures
        first_bad(db, d, digests, alg, n) is None,
    decreases n,
{
    if n > 0 {
        lemma_all_intact(db, d, digests, alg, (n - 1) as nat);
        assert(chunk_intact(db, d, digests, alg, (n - 1) as nat));
    }
}

proof fn lemma_first_bad_at(
    db: Map<Seq<char>, Seq<u8>>,
    d: Seq<char>,
    digests: Seq<Seq<char>>,
    alg: HashAlgorithm,
    i: nat,
    n: nat,
)
    requires
        i < n,
        forall|j: nat| j < i ==> #[trigger] chunk_intact(db, d, digests, alg, j),
        !chunk_intact(db, d, digests, alg, i),
    ensures
        first_bad(db, d, digests, alg, n) == Some(i),
{
    lemma_all_intact(db, d, digests, alg, i);
    assert(first_bad(db, d, digests, alg, i + 1) == Some(i));
    lemma_first_bad_extends(db, d, digests, alg, i + 1, n);
}

proof fn lemma_gather(db: Map<Seq<char>, Seq<u8>>, d: Seq<char>, chunks: Seq<Seq<u8>>, n: nat)
    requires
        n <= chunks.len(),
        forall|j: nat| #![trigger chunk_key(d, j)] j < chunks.len() ==> db[chunk_key(d, j)] == chunks[j as int],
    ensures
        gather(db, d, n) == concat_all(chunks.take(n as int)),
    decreases n,
{
    if n == 0 {
        assert(chunks.take(0) =~= Seq::<Seq<u8>>::empty());
    } else {
        lemma_gather(db, d, chunks, (n - 1) as nat);
        assert(chunks.take(n as int).drop_last() =~= chunks.take(n - 1));
        assert(db[chunk_key(d, (n - 1) as nat)] == chunks[n - 1]);
    }
}

proof fn lemma_chunk_count_le(data: Seq<u8>, c: nat)
    requires
        c > 0,
    ensures
        chunks_of(data, c).len() <= data.len(),
    decreases data.len(),
{
    if data.len() > c {
        lemma_chunk_count_le(data.skip(c as int), c);
    }
}

proof fn lemma_ascii_digest(data: Seq<u8>, alg: HashAlgorithm)
    ensures
        encode_utf8(digest_of(data, alg)).len() == 2 * crate::hashing::digest_len(alg),
{
    lemma_digest_shape(data, alg);
    is_ascii_chars_encode_utf8(digest_of(data, alg));
}

proof fn lemma_metadata_encodable(data: Seq<u8>, alg: HashAlgorithm, chunk_size: usize, timestamp: u64)
    requires
        is_chunked(data.len(), chunk_size),
        data.len() <= usize::MAX,
    ensures
        encodable(metadata_for(data, alg, chunk_size, timestamp)),
{
    let c = effective_chunk_size(chunk_size) as nat;
    let m = metadata_for(data, alg, chunk_size, timestamp);
    lemma_ascii_digest(encode_utf8(crate::chunker::join_pipe(m.chunks)), alg);
    reveal_strlit("blake3");
    reveal_strlit("blake2b");
    reveal_strlit("keccak256");
    assert(is_ascii_chars(token_of(alg)));
    is_ascii_chars_encode_utf8(token_of(alg));
    lemma_chunk_count_le(data, c);
    assert forall|i: int| 0 <= i < m.chunks.len() implies encode_utf8(#[trigger] m.chunks[i]).len() <= u64::MAX by {
        lemma_ascii_digest(chunks_of(data, c)[i], alg);
    }
}

/// What a chunked store leaves behind: its metadata record decodes to the
/// record written, and each chunk sits under its key.
proof fn lemma_chunked_store(
    db: Map<Seq<char>, Seq<u8>>,
    data: Seq<u8>,
    alg: HashAlgorithm,
    chunk_size: usize,
    timestamp: u64,
)
    requires
        is_chunked(data.len(), chunk_size),
        data.len() <= usize::MAX,
    ensures
        ({
            let d = store_digest(data, alg, chunk_size);
            let after = store_db(db, data, alg, chunk_size, timestamp);
            let chunks = chunks_of(data, effective_chunk_size(chunk_size) as nat);
            &&& after.contains_key(meta_key(d))
            &&& decode_spec(after[meta_key(d)]) == Some(metadata_for(data, alg, chunk_size, timestamp))
            &&& metadata_for(data, alg, chunk_size, timestamp).chunks.len() == chunks.len()
            &&& algorithm_of_token(metadata_for(data, alg, chunk_size, timestamp).algorithm) == Some(alg)
            &&& forall|j: nat| j < chunks.len() ==> #[trigger] chunk_intact(
                after,
                d,
                metadata_for(data, alg, chunk_size, timestamp).chunks,
                alg,
                j,
            )
            &&& forall|j: nat| #![trigger chunk_key(d, j)] j < chunks.len() ==> after.contains_key(chunk_key(d, j))
                && after[chunk_key(d, j)] == chunks[j as int]
        }),
{
    let d = store_digest(data, alg, chunk_size);
    let m = metadata_for(data, alg, chunk_size, timestamp);
    let chunks = chunks_of(data, effective_chunk_size(chunk_size) as nat);
    let base = db.insert(meta_key(d), crate::codec::encode_spec(m));
    lemma_put_chunks(base, d, chunks);
    lemma_metadata_encodable(data, alg, chunk_size, timestamp);
    lemma_decode_encode(m);
    lemma_token_round_trip(alg);
    let after = store_db(db, data, alg, chunk_size, timestamp);
    assert forall|j: nat| j < chunks.len() implies #[trigger] chunk_intact(after, d, m.chunks, alg, j) by {
        assert(after.contains_key(chunk_key(d, j)));
    }
}

/// Storing without chunking and then retrieving the returned digest gives
/// back the payload, whatever the engine held before.
pub proof fn lemma_round_trip(
    db: Map<Seq<char>, Seq<u8>>,
    cache: Map<Seq<char>, Seq<u8>>,
    data: Seq<u8>,
    alg: HashAlgorithm,
    timestamp: u64,
)
    ensures
        lookup(store_db(db, data, alg, 0, timestamp), store_cache(cache, data, alg, 0), store_digest(data, alg, 0))
            == Lookup::Found(data),
{
}

/// Storing a payload longer than a positive chunk size and then retrieving the
/// returned digest gives back the payload, and the metadata record lists
/// `ceil(len / c)` chunks for the effective chunk size `c`. It holds unless
/// the cache already maps that digest to other bytes.
pub proof fn lemma_chunked_round_trip(
    db: Map<Seq<char>, Seq<u8>>,
    cache: Map<Seq<char>, Seq<u8>>,
    data: Seq<u8>,
    alg: HashAlgorithm,
    chunk_size: usize,
    timestamp: u64,
)
    requires
        chunk_size > 0,
        data.len() > chunk_size,
        data.len() <= usize::MAX,
        cache.contains_key(store_digest(data, alg, chunk_size)) ==> cache[store_digest(data, alg, chunk_size)] == data,
    ensures
        lookup(
            store_db(db, data, alg, chunk_size, timestamp),
            store_cache(cache, data, alg, chunk_size),
            store_digest(data, alg, chunk_size),
        ) == Lookup::Found(data),
        decode_spec(store_db(db, data, alg, chunk_size, timestamp)[meta_key(store_digest(data, alg, chunk_size))])
            matches Some(m) && m.chunks.len() == (data.len() + effective_chunk_size(chunk_size) - 1) as int
            / (effective_chunk_size(chunk_size) as int),
{
    let d = store_digest(data, alg, chunk_size);
    let after = store_db(db, data, alg, chunk_size, timestamp);
    let c = effective_chunk_size(chunk_size) as nat;
    let chunks = chunks_of(data, c);
    lemma_chunked_store(db, data, alg, chunk_size, timestamp);
    lemma_chunk_count(data, c);
    if !cache.contains_key(d) {
        let m = metadata_for(data, alg, chunk_size, timestamp);
        lemma_all_intact(after, d, m.chunks, alg, chunks.len());
        lemma_gather(after, d, chunks, chunks.len());
        assert(chunks.take(chunks.len() as int) =~= chunks);
        lemma_chunks_concat(data, c);
    }
}

/// A requested chunk size below the minimum, on a payload long enough to be
/// chunked, is recorded in the metadata as the default of 1 MiB.
pub proof fn lemma_chunk_size_floor(
    db: Map<Seq<char>, Seq<u8>>,
    data: Seq<u8>,
    alg: HashAlgorithm,
    chunk_size: usize,
    timestamp: u64,
)
    requires
        0 < chunk_size < 1024,
        data.len() > chunk_size,
        data.len() <= usize::MAX,
    ensures
        decode_spec(store_db(db, data, alg, chunk_size, timestamp)[meta_key(store_digest(data, alg, chunk_size))])
            matches Some(m) && m.chunk_size == DEFAULT_CHUNK_SIZE,
{
    lemma_chunked_store(db, data, alg, chunk_size, timestamp);
}

/// After a chunked store, removing the entry of any one chunk makes the
/// retrieval of the digest fail at that chunk, unless the cache answers it.
pub proof fn lemma_missing_chunk(
    db: Map<Seq<char>, Seq<u8>>,
    cache: Map<Seq<char>, Seq<u8>>,
    data: Seq<u8>,
    alg: HashAlgorithm,
    chunk_size: usize,
    timestamp: u64,
    i: nat,
)
    requires
        chunk_size > 0,
        data.len() > chunk_size,
        data.len() <= usize::MAX,
        i < chunks_of(data, effective_chunk_size(chunk_size) as nat).len(),
        !cache.contains_key(store_digest(data, alg, chunk_size)),
    ensures
        lookup(
            store_db(db, data, alg, chunk_size, timestamp).remove(
                chunk_key(store_digest(data, alg, chunk_size), i),
            ),
            store_cache(cache, data, alg, chunk_size),
            store_digest(data, alg, chunk_size),
        ) == Lookup::BadChunk(i),
{
    let d = store_digest(data, alg, chunk_size);
    let after = store_db(db, data, alg, chunk_size, timestamp);
    let damaged = after.remove(chunk_key(d, i));
    let m = metadata_for(data, alg, chunk_size, timestamp);
    let n = chunks_of(data, effective_chunk_size(chunk_size) as nat).len();
    lemma_chunked_store(db, data, alg, chunk_size, timestamp);
    lemma_keys_distinct(d, i, i);
    assert(damaged[meta_key(d)] == after[meta_key(d)]);
    assert forall|j: nat| j < i implies #[trigger] chunk_intact(damaged, d, m.chunks, alg, j) by {
        lemma_keys_distinct(d, j, i);
        assert(chunk_intact(after, d, m.chunks, alg, j));
    }
    lemma_first_bad_at(damaged, d, m.chunks, alg, i, n);
}

/// After a chunked store, overwriting the entry of any one chunk with bytes
/// that do not hash to its recorded digest makes the retrieval of the digest
/// fail at that chunk, unless the cache answers it.
pub proof fn lemma_corrupt_chunk(
    db: Map<Seq<char>, Seq<u8>>,
    cache: Map<Seq<char>, Seq<u8>>,
    data: Seq<u8>,
    alg: HashAlgorithm,
    chunk_size: usize,
    timestamp: u64,
    i: nat,
    bytes: Seq<u8>,
)
    requires
        chunk_size > 0,
        data.len() > chunk_size,
        data.len() <= usize::MAX,
        i < chunks_of(data, effective_chunk_size(chunk_size) as nat).len(),
        digest_of(bytes, alg) != chunk_digests(data, effective_chunk_size(chunk_size) as nat, alg)[i as int],
        !cache.contains_key(store_digest(data, alg, chunk_size)),
    ensures
        lookup(
            store_db(db, data, alg, chunk_size, timestamp).insert(
                chunk_key(store_digest(data, alg, chunk_size), i),
                bytes,
            ),
            store_cache(cache, data, alg, chunk_size),
            store_digest(data, alg, chunk_size),
        ) == Lookup::BadChunk(i),
{
    let d = store_digest(data, alg, chunk_size);
    let after = store_db(db, data, alg, chunk_size, timestamp);
    let damaged = after.insert(chunk_key(d, i), bytes);
    let m = metadata_for(data, alg, chunk_size, timestamp);
    let n = chunks_of(data, effective_chunk_size(chunk_size) as nat).len();
    lemma_chunked_store(db, data, alg, chunk_size, timestamp);
    lemma_keys_distinct(d, i, i);
    assert(damaged[meta_key(d)] == after[meta_key(d)]);
    assert forall|j: nat| j < i implies #[trigger] chunk_intact(damaged, d, m.chunks, alg, j) by {
        lemma_keys_distinct(d, j, i);
        assert(chunk_intact(after, d, m.chunks, alg, j));
    }
    lemma_first_bad_at(damaged, d, m.chunks, alg, i, n);
}

/// When the cache does not answer `d` and its metadata record decodes with a
/// known algorithm, a retrieval fails at chunk `i` whenever every earlier chunk
/// is present and matches its digest and chunk `i` is missing or does not.
pub proof fn lemma_bad_chunk_reported(
    db: Map<Seq<char>, Seq<u8>>,
    cache: Map<Seq<char>, Seq<u8>>,
    d: Seq<char>,
    m: MetadataView,
    alg: HashAlgorithm,
    i: nat,
)
    requires
        !cache.contains_key(d),
        db.contains_key(meta_key(d)),
        decode_spec(db[meta_key(d)]) == Some(m),
        algorithm_of_token(m.algorithm) == Some(alg),
        i < m.chunks.len(),
        forall|j: nat| j < i ==> #[trigger] chunk_intact(db, d, m.chunks, alg, j),
        !chunk_intact(db, d, m.chunks, alg, i),
    ensures
        lookup(db, cache, d) == Lookup::BadChunk(i),
{
    lemma_first_bad_at(db, d, m.chunks, alg, i, m.chunks.len());
}

/// On an empty engine no digest is found.
pub proof fn lemma_unknown_digest(d: Seq<char>)
    ensures
        lookup(Map::empty(), Map::empty(), d) == Lookup::NotFound,
{
}

} // verus!
