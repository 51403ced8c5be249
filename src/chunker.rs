//! Splitting a payload into fixed-size chunks and describing the result.
use vstd::prelude::*;
use vstd::slice::{slice_subrange, slice_to_vec};
use vstd::string::*;
use vstd::utf8::encode_utf8;
use crate::hashing::{calculate_hash_with_algorithm, digest_of, token_of, HashAlgorithm};

verus! {

/// Requested chunk sizes below this are replaced by the default.
pub const MIN_CHUNK_SIZE: usize = 1024;

/// The chunk size used when the requested one is too small (1 MiB).
pub const DEFAULT_CHUNK_SIZE: usize = 1048576;

/// The reconstruction record of a chunked object.
#[derive(Debug, Clone)]
pub struct FileMetadata {
    pub hash: String,
    pub algorithm: String,
    pub size: usize,
    pub chunk_size: usize,
    pub chunks: Vec<String>,
    pub timestamp: u64,
}

/// A payload split into chunks, with its metadata.
pub struct ChunkedFile {
    pub metadata: FileMetadata,
    pub chunks: Vec<Vec<u8>>,
}

pub open spec fn strings_view(v: Seq<String>) -> Seq<Seq<char>> {
    v.map_values(|s: String| s@)
}

pub open spec fn buffers_view(v: Seq<Vec<u8>>) -> Seq<Seq<u8>> {
    v.map_values(|b: Vec<u8>| b@)
}

/// The chunk size actually used for a requested one.
pub open spec fn effective_chunk_size(requested: usize) -> usize {
    if requested < MIN_CHUNK_SIZE {
        DEFAULT_CHUNK_SIZE
    } else {
        requested
    }
}

/// Consecutive slices of `data` of `c` bytes each, the last one holding the rest.
pub open spec fn chunks_of(data: Seq<u8>, c: nat) -> Seq<Seq<u8>>
    decreases data.len(),
{
    if data.len() == 0 || c == 0 {
        Seq::empty()
    } else if data.len() <= c {
        seq![data]
    } else {
        seq![data.take(c as int)] + chunks_of(data.skip(c as int), c)
    }
}

/// The digests of the chunks, in order.
pub open spec fn chunk_digests(data: Seq<u8>, c: nat, alg: HashAlgorithm) -> Seq<Seq<char>> {
    chunks_of(data, c).map_values(|ch: Seq<u8>| digest_of(ch, alg))
}

/// The strings joined with `|` between neighbours.
pub open spec fn join_pipe(parts: Seq<Seq<char>>) -> Seq<char>
    decreases parts.len(),
{
    if parts.len() == 0 {
        Seq::empty()
    } else if parts.len() == 1 {
        parts[0]
    } else {
        join_pipe(parts.drop_last()) + "|"@ + parts.last()
    }
}

/// The digest of a chunked object: the digest of its pipe-joined chunk digests.
pub open spec fn object_digest(data: Seq<u8>, c: nat, alg: HashAlgorithm) -> Seq<char> {
    digest_of(encode_utf8(join_pipe(chunk_digests(data, c, alg))), alg)
}

/// The buffers appended in order.
pub open spec fn concat_all(parts: Seq<Seq<u8>>) -> Seq<u8>
    decreases parts.len(),
{
    if parts.len() == 0 {
        Seq::empty()
    } else {
        concat_all(parts.drop_last()) + parts.last()
    }
}

proof fn lemma_concat_cons(a: Seq<u8>, rest: Seq<Seq<u8>>)
    ensures
        concat_all(seq![a] + rest) == a + concat_all(rest),
    decreases rest.len(),
{
    let s = seq![a] + rest;
    if rest.len() == 0 {
        assert(s.drop_last() =~= Seq::<Seq<u8>>::empty());
        assert(concat_all(s) == concat_all(s.drop_last()) + s.last());
        assert(concat_all(Seq::<Seq<u8>>::empty()) == Seq::<u8>::empty());
        assert(rest =~= Seq::<Seq<u8>>::empty());
        assert(Seq::<u8>::empty() + a =~= a);
        assert(a + Seq::<u8>::empty() =~= a);
    } else {
        assert(s.drop_last() =~= seq![a] + rest.drop_last());
        assert(s.last() == rest.last());
        assert(concat_all(s) == concat_all(s.drop_last()) + s.last());
        assert(concat_all(rest) == concat_all(rest.drop_last()) + rest.last());
        lemma_concat_cons(a, rest.drop_last());
        assert(a + concat_all(rest.drop_last()) + rest.last() =~= a + (concat_all(rest.drop_last())
            + rest.last()));
    }
}

/// Concatenating the chunks in order gives back the payload.
pub proof fn lemma_chunks_concat(data: Seq<u8>, c: nat)
    requires
        c > 0,
    ensures
        concat_all(chunks_of(data, c)) == data,
    decreases data.len(),
{
    if data.len() == 0 {
        assert(data =~= Seq::<u8>::empty());
    } else if data.len() <= c {
        let s = seq![data];
        assert(s.drop_last() =~= Seq::<Seq<u8>>::empty());
        assert(concat_all(s) == concat_all(s.drop_last()) + s.last());
        assert(concat_all(Seq::<Seq<u8>>::empty()) == Seq::<u8>::empty());
        assert(Seq::<u8>::empty() + data =~= data);
    } else {
        lemma_chunks_concat(data.skip(c as int), c);
        lemma_concat_cons(data.take(c as int), chunks_of(data.skip(c as int), c));
        assert(data.take(c as int) + data.skip(c as int) =~= data);
    }
}

/// There are `ceil(len / c)` chunks.
pub proof fn lemma_chunk_count(data: Seq<u8>, c: nat)
    requires
        c > 0,
    ensures
        chunks_of(data, c).len() == (data.len() as int + c as int - 1) / (c as int),
    decreases data.len(),
{
    if data.len() == 0 {
        vstd::arithmetic::div_mod::lemma_basic_div(c - 1, c as int);
    } else if data.len() <= c {
        vstd::arithmetic::div_mod::lemma_div_plus_one(data.len() - 1, c as int);
        vstd::arithmetic::div_mod::lemma_basic_div(data.len() - 1, c as int);
    } else {
        lemma_chunk_count(data.skip(c as int), c);
        vstd::arithmetic::div_mod::lemma_div_plus_one(data.len() - 1, c as int);
    }
}

/// Relies on std::time::SystemTime::now: the seconds since the Unix epoch, or
/// zero for a clock set before it.
#[verifier::external_body]
pub(crate) fn now_secs() -> (r: u64) {
    std::time::SystemTime::now().duration_since(std::time::UNIX_EPOCH).map(|d| d.as_secs()).unwrap_or(0)
}

/// Splits `data` into chunks of the effective chunk size and records their
/// digests, the object digest and `timestamp` in the metadata.
pub fn chunk_data_at(data: &[u8], chunk_size: usize, algorithm: HashAlgorithm, timestamp: u64) -> (r:
    ChunkedFile)
    ensures
        r.metadata.hash@ == object_digest(data@, effective_chunk_size(chunk_size) as nat, algorithm),
        r.metadata.algorithm@ == token_of(algorithm),
        r.metadata.size == data@.len(),
        r.metadata.chunk_size == effective_chunk_size(chunk_size),
        strings_view(r.metadata.chunks@) == chunk_digests(
            data@,
            effective_chunk_size(chunk_size) as nat,
            algorithm,
        ),
        r.metadata.timestamp == timestamp,
        buffers_view(r.chunks@) == chunks_of(data@, effective_chunk_size(chunk_size) as nat),
{
    let c: usize = if chunk_size < MIN_CHUNK_SIZE {
        DEFAULT_CHUNK_SIZE
    } else {
        chunk_size
    };
    let ghost cn = c as nat;
    let ghost f = |ch: Seq<u8>| digest_of(ch, algorithm);
    let mut chunks: Vec<Vec<u8>> = Vec::new();
    let mut hashes: Vec<String> = Vec::new();
    let mut start: usize = 0;
    assert(data@.skip(0) =~= data@);
    assert(buffers_view(chunks@) =~= Seq::<Seq<u8>>::empty());
    while start < data.len()
        invariant
            start <= data@.len(),
            c == effective_chunk_size(chunk_size),
            cn == c as nat,
            c > 0,
            f == (|ch: Seq<u8>| digest_of(ch, algorithm)),
            buffers_view(chunks@) + chunks_of(data@.skip(start as int), cn) == chunks_of(data@, cn),
            strings_view(hashes@) == buffers_view(chunks@).map_values(f),
        decreases data@.len() - start,
    {
        let ghost rest = data@.skip(start as int);
        let end: usize = if data.len() - start <= c {
            data.len()
        } else {
            start + c
        };
        let piece = slice_to_vec(slice_subrange(data, start, end));
        proof {
            if data@.len() - start <= c {
                assert(piece@ =~= rest);
                assert(data@.skip(end as int) =~= Seq::<u8>::empty());
            } else {
                assert(piece@ =~= rest.take(c as int));
                assert(rest.skip(c as int) =~= data@.skip(end as int));
            }
        }
        let h = calculate_hash_with_algorithm(piece.as_slice(), algorithm);
        let ghost old_chunks = buffers_view(chunks@);
        let ghost old_hashes = strings_view(hashes@);
        chunks.push(piece);
        hashes.push(h);
        proof {
            assert(buffers_view(chunks@) =~= old_chunks.push(piece@));
            assert(strings_view(hashes@) =~= old_hashes.push(h@));
            assert(buffers_view(chunks@).map_values(f) =~= old_chunks.map_values(f).push(f(piece@)));
            assert(old_chunks + seq![piece@] + chunks_of(data@.skip(end as int), cn) =~= old_chunks
                + (seq![piece@] + chunks_of(data@.skip(end as int), cn)));
        }
        start = end;
    }
    assert(data@.skip(start as int) =~= Seq::<u8>::empty());
    assert(buffers_view(chunks@) + Seq::<Seq<u8>>::empty() =~= buffers_view(chunks@));
    let mut joined = String::new();
    let mut i: usize = 0;
    while i < hashes.len()
        invariant
            i <= hashes@.len(),
            joined@ == join_pipe(strings_view(hashes@).take(i as int)),
        decreases hashes@.len() - i,
    {
        let ghost before = joined@;
        if i > 0 {
            joined.append("|");
        }
        joined.append(hashes[i].as_str());
        proof {
            let t = strings_view(hashes@).take(i + 1);
            assert(t.drop_last() =~= strings_view(hashes@).take(i as int));
            if i == 0 {
                assert(before =~= Seq::<char>::empty());
                assert(Seq::<char>::empty() + hashes@[0]@ =~= hashes@[0]@);
            }
        }
        i = i + 1;
    }
    assert(strings_view(hashes@).take(hashes@.len() as int) =~= strings_view(hashes@));
    let file_hash = calculate_hash_with_algorithm(joined.as_str().as_bytes(), algorithm);
    let metadata = FileMetadata {
        hash: file_hash,
        algorithm: String::from_str(algorithm.as_str()),
        size: data.len(),
        chunk_size: c,
        chunks: hashes,
        timestamp,
    };
    ChunkedFile { metadata, chunks }
}

/// Splits `data` into chunks as `chunk_data_at` does, stamped with the
/// current time.
pub fn chunk_data(data: &[u8], chunk_size: usize, algorithm: HashAlgorithm) -> (r: ChunkedFile)
    ensures
        r.metadata.hash@ == object_digest(data@, effective_chunk_size(chunk_size) as nat, algorithm),
        r.metadata.algorithm@ == token_of(algorithm),
        r.metadata.size == data@.len(),
        r.metadata.chunk_size == effective_chunk_size(chunk_size),
        strings_view(r.metadata.chunks@) == chunk_digests(
            data@,
            effective_chunk_size(chunk_size) as nat,
            algorithm,
        ),
        buffers_view(r.chunks@) == chunks_of(data@, effective_chunk_size(chunk_size) as nat),
{
    chunk_data_at(data, chunk_size, algorithm, now_secs())
}

} // verus!
