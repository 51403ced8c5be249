//! The storage engine: content-addressed store and retrieve over a backing
//! key-value store, with a read cache.
use vstd::prelude::*;
use vstd::slice::slice_to_vec;
use vstd::string::*;
use crate::chunker::{
    buffers_view, strings_view, chunk_data_at, chunk_digests, chunks_of, effective_chunk_size, now_secs,
    object_digest,
};
use crate::codec::{decode_metadata, decode_spec, encode_metadata, encode_spec, MetadataView};
use crate::error::StorageError;
use crate::hashing::{algorithm_of_token, calculate_hash_with_algorithm, digest_of, token_of, HashAlgorithm};
use crate::keys::{chunk_key, chunk_key_string, decimal, decimal_string, meta_key, meta_key_string};
use crate::kv::MemStore;

verus! {

/// Whether a payload of `len` bytes is split into chunks.
pub open spec fn is_chunked(len: nat, chunk_size: usize) -> bool {
    chunk_size > 0 && len > chunk_size
}

/// The metadata record of a chunked store.
pub open spec fn metadata_for(data: Seq<u8>, alg: HashAlgorithm, chunk_size: usize, timestamp: u64) -> MetadataView {
    let c = effective_chunk_size(chunk_size) as nat;
    MetadataView {
        hash: object_digest(data, c, alg),
        algorithm: token_of(alg),
        size: data.len(),
        chunk_size: c,
        chunks: chunk_digests(data, c, alg),
        timestamp: timestamp as nat,
    }
}

/// The digest under which a store files the payload.
pub open spec fn store_digest(data: Seq<u8>, alg: HashAlgorithm, chunk_size: usize) -> Seq<char> {
    if is_chunked(data.len(), chunk_size) {
        object_digest(data, effective_chunk_size(chunk_size) as nat, alg)
    } else {
        digest_of(data, alg)
    }
}

/// The store after writing the chunks in order under `d`.
pub open spec fn put_chunks(db: Map<Seq<char>, Seq<u8>>, d: Seq<char>, chunks: Seq<Seq<u8>>) -> Map<Seq<char>, Seq<u8>>
    decreases chunks.len(),
{
    if chunks.len() == 0 {
        db
    } else {
        put_chunks(db, d, chunks.drop_last()).insert(chunk_key(d, (chunks.len() - 1) as nat), chunks.last())
    }
}

/// The backing store after a store.
pub open spec fn store_db(
    db: Map<Seq<char>, Seq<u8>>,
    data: Seq<u8>,
    alg: HashAlgorithm,
    chunk_size: usize,
    timestamp: u64,
) -> Map<Seq<char>, Seq<u8>> {
    let d = store_digest(data, alg, chunk_size);
    if is_chunked(data.len(), chunk_size) {
        put_chunks(
            db.insert(meta_key(d), encode_spec(metadata_for(data, alg, chunk_size, timestamp))),
            d,
            chunks_of(data, effective_chunk_size(chunk_size) as nat),
        )
    } else {
        db.insert(d, data)
    }
}

/// The cache after a store: only simple stores fill it.
pub open spec fn store_cache(
    cache: Map<Seq<char>, Seq<u8>>,
    data: Seq<u8>,
    alg: HashAlgorithm,
    chunk_size: usize,
) -> Map<Seq<char>, Seq<u8>> {
    if is_chunked(data.len(), chunk_size) {
        cache
    } else {
        cache.insert(digest_of(data, alg), data)
    }
}

/// Chunk `i` of `d` is present and hashes under `alg` to `digests[i]`.
pub open spec fn chunk_intact(
    db: Map<Seq<char>, Seq<u8>>,
    d: Seq<char>,
    digests: Seq<Seq<char>>,
    alg: HashAlgorithm,
    i: nat,
) -> bool {
    db.contains_key(chunk_key(d, i)) && digest_of(db[chunk_key(d, i)], alg) == digests[i as int]
}

/// The first of chunks `0..n` of `d` that is missing or does not match its
/// recorded digest.
pub open spec fn first_bad(
    db: Map<Seq<char>, Seq<u8>>,
    d: Seq<char>,
    digests: Seq<Seq<char>>,
    alg: HashAlgorithm,
    n: nat,
) -> Option<nat>
    decreases n,
{
    if n == 0 {
        None
    } else {
        match first_bad(db, d, digests, alg, (n - 1) as nat) {
            Some(i) => Some(i),
            None => if chunk_intact(db, d, digests, alg, (n - 1) as nat) {
                None
            } else {
                Some((n - 1) as nat)
            },
        }
    }
}

/// Chunks `0..n` of `d` appended in order.
pub open spec fn gather(db: Map<Seq<char>, Seq<u8>>, d: Seq<char>, n: nat) -> Seq<u8>
    decreases n,
{
    if n == 0 {
        Seq::empty()
    } else {
        gather(db, d, (n - 1) as nat) + db[chunk_key(d, (n - 1) as nat)]
    }
}

/// What a lookup of a digest finds.
pub enum Lookup {
    Found(Seq<u8>),
    BadMetadata,
    BadChunk(nat),
    NotFound,
}

/// The outcome of retrieving `d`: the cache first, then a metadata record,
/// whose chunks must all be present and match their digests, then a simple
/// object.
pub open spec fn lookup(db: Map<Seq<char>, Seq<u8>>, cache: Map<Seq<char>, Seq<u8>>, d: Seq<char>) -> Lookup {
    if cache.contains_key(d) {
        Lookup::Found(cache[d])
    } else if db.contains_key(meta_key(d)) {
        match decode_spec(db[meta_key(d)]) {
            None => Lookup::BadMetadata,
            Some(m) => match algorithm_of_token(m.algorithm) {
                None => Lookup::BadMetadata,
                Some(alg) => match first_bad(db, d, m.chunks, alg, m.chunks.len()) {
                    Some(i) => Lookup::BadChunk(i),
                    None => Lookup::Found(gather(db, d, m.chunks.len())),
                },
            },
        }
    } else if db.contains_key(d) {
        Lookup::Found(db[d])
    } else {
        Lookup::NotFound
    }
}

/// The message of a chunk error: a missing chunk, or one whose bytes do not
/// match its digest.
pub open spec fn bad_chunk_message(db: Map<Seq<char>, Seq<u8>>, d: Seq<char>, i: nat) -> Seq<char> {
    if db.contains_key(chunk_key(d, i)) {
        "Chunk "@ + decimal(i) + " does not match its digest"@
    } else {
        "Chunk "@ + decimal(i) + " not found"@
    }
}

/// Stores and retrieves payloads by digest.
///
/// The backing store is the in-memory `MemStore`: nothing persists beyond the
/// engine, and no operation here can fail with `IOError` or `DBError`.
pub struct StorageEngine {
    db: MemStore,
    cache: MemStore,
}

impl StorageEngine {
    /// The contents of the backing store.
    pub closed spec fn stored(&self) -> Map<Seq<char>, Seq<u8>> {
        self.db@
    }

    /// The contents of the read cache.
    pub closed spec fn cached(&self) -> Map<Seq<char>, Seq<u8>> {
        self.cache@
    }

    /// An engine over an empty store, with an empty cache.
    pub fn new() -> (r: StorageEngine)
        ensures
            r.stored() == Map::<Seq<char>, Seq<u8>>::empty(),
            r.cached() == Map::<Seq<char>, Seq<u8>>::empty(),
    {
        StorageEngine { db: MemStore::new(), cache: MemStore::new() }
    }

    /// Stores `data` with BLAKE3 and no chunking.
    pub fn store(&mut self, data: &[u8]) -> (r: Result<String, StorageError>)
        ensures
            r matches Ok(d) && d@ == digest_of(data@, HashAlgorithm::Blake3),
            final(self).stored() == old(self).stored().insert(digest_of(data@, HashAlgorithm::Blake3), data@),
            final(self).cached() == old(self).cached().insert(digest_of(data@, HashAlgorithm::Blake3), data@),
    {
        self.store_with_options(data, HashAlgorithm::Blake3, 0)
    }

    /// Stores `data`, split into chunks when `chunk_size` is positive and
    /// smaller than the payload, and returns its digest.
    pub fn store_with_options(&mut self, data: &[u8], algorithm: HashAlgorithm, chunk_size: usize) -> (r: Result<String, StorageError>)
        ensures
            r matches Ok(d) && d@ == store_digest(data@, algorithm, chunk_size),
            exists|t: u64| final(self).stored() == store_db(old(self).stored(), data@, algorithm, chunk_size, t),
            final(self).cached() == store_cache(old(self).cached(), data@, algorithm, chunk_size),
    {
        let t = if chunk_size > 0 && data.len() > chunk_size { now_secs() } else { 0 };
        self.store_at(data, algorithm, chunk_size, t)
    }

    /// Stores `data` as `store_with_options` does, with `timestamp` in the
    /// metadata of a chunked object.
    pub fn store_at(&mut self, data: &[u8], algorithm: HashAlgorithm, chunk_size: usize, timestamp: u64) -> (r: Result<String, StorageError>)
        ensures
            r matches Ok(d) && d@ == store_digest(data@, algorithm, chunk_size),
            final(self).stored() == store_db(old(self).stored(), data@, algorithm, chunk_size, timestamp),
            final(self).cached() == store_cache(old(self).cached(), data@, algorithm, chunk_size),
    {
        if chunk_size > 0 && data.len() > chunk_size {
            let chunked = chunk_data_at(data, chunk_size, algorithm, timestamp);
            let ghost d = chunked.metadata.hash@;
            let ghost chunks = buffers_view(chunked.chunks@);
            assert(chunked.metadata@ == metadata_for(data@, algorithm, chunk_size, timestamp));
            let bytes = encode_metadata(&chunked.metadata);
            self.db.put(meta_key_string(chunked.metadata.hash.as_str()), bytes);
            let ghost base = self.db@;
            let mut i: usize = 0;
            assert(chunks.take(0) =~= Seq::<Seq<u8>>::empty());
            while i < chunked.chunks.len()
                invariant
                    i <= chunked.chunks@.len(),
                    chunks == buffers_view(chunked.chunks@),
                    d == chunked.metadata.hash@,
                    self.db@ == put_chunks(base, d, chunks.take(i as int)),
                    self.cache@ == old(self).cache@,
                decreases chunked.chunks@.len() - i,
            {
                let key = chunk_key_string(chunked.metadata.hash.as_str(), i);
                let value = slice_to_vec(chunked.chunks[i].as_slice());
                self.db.put(key, value);
                assert(chunks.take(i + 1).drop_last() =~= chunks.take(i as int));
                i = i + 1;
            }
            assert(chunks.take(i as int) =~= chunks);
            Ok(chunked.metadata.hash)
        } else {
            let hash = calculate_hash_with_algorithm(data, algorithm);
            self.db.put(hash.clone(), slice_to_vec(data));
            self.cache.put(hash.clone(), slice_to_vec(data));
            Ok(hash)
        }
    }

    /// Retrieves the payload filed under `hash`, and caches it.
    pub fn retrieve(&mut self, hash: &str) -> (r: Result<Vec<u8>, StorageError>)
        ensures
            final(self).stored() == old(self).stored(),
            match lookup(old(self).stored(), old(self).cached(), hash@) {
                Lookup::Found(v) => r matches Ok(x) && x@ == v && final(self).cached() == old(self).cached().insert(hash@, v),
                Lookup::BadMetadata => r matches Err(StorageError::SerializationError(_)) && final(self).cached() == old(self).cached(),
                Lookup::BadChunk(i) => r matches Err(StorageError::ChunkingError(msg))
                    && msg@ == bad_chunk_message(old(self).stored(), hash@, i)
                    && final(self).cached() == old(self).cached(),
                Lookup::NotFound => r matches Err(StorageError::HashNotFound(h)) && h@ == hash@ && final(self).cached() == old(self).cached(),
            },
    {
        let key = String::from_str(hash);
        match self.cache.get(&key) {
            Some(v) => {
                assert(self.cache@.insert(hash@, v@) =~= self.cache@);
                return Ok(v);
            },
            None => {},
        }
        match self.db.get(&meta_key_string(hash)) {
            Some(meta_bytes) => {
                let meta = match decode_metadata(meta_bytes.as_slice()) {
                    Ok(m) => m,
                    Err(e) => return Err(e),
                };
                let alg = match HashAlgorithm::from_token(meta.algorithm.as_str()) {
                    Some(a) => a,
                    None => return Err(
                        StorageError::SerializationError(String::from_str("unknown algorithm in metadata record")),
                    ),
                };
                let ghost digests = strings_view(meta.chunks@);
                let ghost db = self.db@;
                let ghost n = meta.chunks@.len();
                let mut data: Vec<u8> = Vec::new();
                let mut i: usize = 0;
                while i < meta.chunks.len()
                    invariant
                        i <= n,
                        n == meta.chunks@.len(),
                        db == self.db@,
                        self.cache@ == old(self).cache@,
                        self.db@ == old(self).db@,
                        first_bad(db, hash@, digests, alg, i as nat) is None,
                        digests == strings_view(meta.chunks@),
                        !old(self).cache@.contains_key(hash@),
                        db.contains_key(meta_key(hash@)),
                        decode_spec(db[meta_key(hash@)]) matches Some(m) && m.chunks == digests
                            && algorithm_of_token(m.algorithm) == Some(alg),
                        data@ == gather(db, hash@, i as nat),
                    decreases n - i,
                {
                    match self.db.get(&chunk_key_string(hash, i)) {
                        Some(chunk) => {
                            let h = calculate_hash_with_algorithm(chunk.as_slice(), alg);
                            if !(h == meta.chunks[i]) {
                                let mut msg = String::from_str("Chunk ");
                                let num = decimal_string(i);
                                msg.append(num.as_str());
                                msg.append(" does not match its digest");
                                proof {
                                    assert(first_bad(db, hash@, digests, alg, (i + 1) as nat) == Some(i as nat));
                                    lemma_first_bad_extends(db, hash@, digests, alg, (i + 1) as nat, n);
                                }
                                return Err(StorageError::ChunkingError(msg));
                            }
                            let mut c = chunk;
                            data.append(&mut c);
                        },
                        None => {
                            let mut msg = String::from_str("Chunk ");
                            let num = decimal_string(i);
                            msg.append(num.as_str());
                            msg.append(" not found");
                            proof {
                                assert(first_bad(db, hash@, digests, alg, (i + 1) as nat) == Some(i as nat));
                                lemma_first_bad_extends(db, hash@, digests, alg, (i + 1) as nat, n);
                            }
                            return Err(StorageError::ChunkingError(msg));
                        },
                    }
                    i = i + 1;
                }
                self.cache.put(key, slice_to_vec(data.as_slice()));
                Ok(data)
            },
            None => match self.db.get(&key) {
                Some(v) => {
                    self.cache.put(key, slice_to_vec(v.as_slice()));
                    Ok(v)
                },
                None => Err(StorageError::HashNotFound(key)),
            },
        }
    }

    /// The raw value that the backing store holds under `key`.
    pub fn get_raw(&self, key: &str) -> (r: Option<Vec<u8>>)
        ensures
            match r {
                Some(v) => self.stored().contains_key(key@) && v@ == self.stored()[key@],
                None => !self.stored().contains_key(key@),
            },
    {
        self.db.get(&String::from_str(key))
    }

    /// Writes `value` as the raw entry under `key` of the backing store; the
    /// cache is left as it is.
    pub fn put_raw(&mut self, key: &str, value: &[u8])
        ensures
            final(self).stored() == old(self).stored().insert(key@, value@),
            final(self).cached() == old(self).cached(),
    {
        self.db.put(String::from_str(key), slice_to_vec(value));
    }

    /// Removes the raw entry under `key` from the backing store; the cache is
    /// left as it is.
    pub fn delete_raw(&mut self, key: &str)
        ensures
            final(self).stored() == old(self).stored().remove(key@),
            final(self).cached() == old(self).cached(),
    {
        self.db.delete(String::from_str(key));
    }
}

pub(crate) proof fn lemma_first_bad_extends(
    db: Map<Seq<char>, Seq<u8>>,
    d: Seq<char>,
    digests: Seq<Seq<char>>,
    alg: HashAlgorithm,
    k: nat,
    n: nat,
)
    requires
        k <= n,
        first_bad(db, d, digests, alg, k) is Some,
    ensures
        first_bad(db, d, digests, alg, n) == first_bad(db, d, digests, alg, k),
    decreases n - k,
{
    if k < n {
        assert(first_bad(db, d, digests, alg, k + 1) == first_bad(db, d, digests, alg, k));
        lemma_first_bad_extends(db, d, digests, alg, k + 1, n);
    }
}

} // verus!
