//! The persisted form of `FileMetadata`: a byte record of its fields.
//!
//! A number is 8 bytes, little-endian. A string is its UTF-8 length as a
//! number, then its UTF-8 bytes. The record is the hash, the algorithm token,
//! the size, the chunk size, the number of chunk digests, each chunk digest,
//! and the timestamp, in that order, with nothing after it.
//!
//! The record is binary, not a JSON document: a store holding metadata as
//! JSON objects cannot be read with it.
use vstd::prelude::*;
use vstd::bytes::{spec_u64_from_le_bytes, spec_u64_to_le_bytes, u64_from_le_bytes, u64_to_le_bytes};
use vstd::slice::{slice_subrange, slice_to_vec};
use vstd::string::*;
use vstd::utf8::{decode_utf8, encode_utf8, valid_utf8};
use crate::chunker::{strings_view, FileMetadata};
use crate::error::StorageError;

verus! {

broadcast use {vstd::utf8::encode_utf8_valid_utf8, vstd::utf8::encode_utf8_decode_utf8};

/// The fields of a metadata record as mathematical values.
pub struct MetadataView {
    pub hash: Seq<char>,
    pub algorithm: Seq<char>,
    pub size: nat,
    pub chunk_size: nat,
    pub chunks: Seq<Seq<char>>,
    pub timestamp: nat,
}

impl View for FileMetadata {
    type V = MetadataView;

    open spec fn view(&self) -> MetadataView {
        MetadataView {
            hash: self.hash@,
            algorithm: self.algorithm@,
            size: self.size as nat,
            chunk_size: self.chunk_size as nat,
            chunks: strings_view(self.chunks@),
            timestamp: self.timestamp as nat,
        }
    }
}

pub open spec fn enc_u64(x: nat) -> Seq<u8> {
    spec_u64_to_le_bytes(x as u64)
}

pub open spec fn enc_str(s: Seq<char>) -> Seq<u8> {
    enc_u64(encode_utf8(s).len()) + encode_utf8(s)
}

pub open spec fn enc_strs(l: Seq<Seq<char>>) -> Seq<u8>
    decreases l.len(),
{
    if l.len() == 0 {
        Seq::empty()
    } else {
        enc_strs(l.drop_last()) + enc_str(l.last())
    }
}

/// The bytes that encode a metadata record.
pub open spec fn encode_spec(m: MetadataView) -> Seq<u8> {
    enc_str(m.hash) + enc_str(m.algorithm) + enc_u64(m.size) + enc_u64(m.chunk_size) + enc_u64(
        m.chunks.len(),
    ) + enc_strs(m.chunks) + enc_u64(m.timestamp)
}

pub open spec fn fits_u64(n: nat) -> bool {
    n <= u64::MAX
}

/// A record whose numbers and string lengths fit the format.
pub open spec fn encodable(m: MetadataView) -> bool {
    &&& fits_u64(encode_utf8(m.hash).len())
    &&& fits_u64(encode_utf8(m.algorithm).len())
    &&& m.size <= usize::MAX
    &&& m.chunk_size <= usize::MAX
    &&& fits_u64(m.chunks.len())
    &&& forall|i: int| 0 <= i < m.chunks.len() ==> fits_u64(encode_utf8(#[trigger] m.chunks[i]).len())
    &&& fits_u64(m.timestamp)
}

pub open spec fn parse_u64(b: Seq<u8>) -> Option<(nat, Seq<u8>)> {
    if b.len() >= 8 {
        Some((spec_u64_from_le_bytes(b.take(8)) as nat, b.skip(8)))
    } else {
        None
    }
}

pub open spec fn parse_str(b: Seq<u8>) -> Option<(Seq<char>, Seq<u8>)> {
    match parse_u64(b) {
        Some((n, rest)) => if n <= rest.len() && valid_utf8(rest.take(n as int)) {
            Some((decode_utf8(rest.take(n as int)), rest.skip(n as int)))
        } else {
            None
        },
        None => None,
    }
}

pub open spec fn parse_strs(b: Seq<u8>, n: nat) -> Option<(Seq<Seq<char>>, Seq<u8>)>
    decreases n,
{
    if n == 0 {
        Some((Seq::empty(), b))
    } else {
        match parse_strs(b, (n - 1) as nat) {
            Some((xs, rest)) => match parse_str(rest) {
                Some((x, r2)) => Some((xs.push(x), r2)),
                None => None,
            },
            None => None,
        }
    }
}

/// The record that `b` encodes, if it encodes one.
pub open spec fn decode_spec(b: Seq<u8>) -> Option<MetadataView> {
    match parse_str(b) {
        None => None,
        Some((hash, b1)) => match parse_str(b1) {
            None => None,
            Some((algorithm, b2)) => match parse_u64(b2) {
                None => None,
                Some((size, b3)) => match parse_u64(b3) {
                    None => None,
                    Some((chunk_size, b4)) => match parse_u64(b4) {
                        None => None,
                        Some((n, b5)) => match parse_strs(b5, n) {
                            None => None,
                            Some((chunks, b6)) => match parse_u64(b6) {
                                None => None,
                                Some((timestamp, b7)) => if b7.len() == 0 && size <= usize::MAX
                                    && chunk_size <= usize::MAX {
                                    Some(
                                        MetadataView {
                                            hash,
                                            algorithm,
                                            size,
                                            chunk_size,
                                            chunks,
                                            timestamp,
                                        },
                                    )
                                } else {
                                    None
                                },
                            },
                        },
                    },
                },
            },
        },
    }
}

proof fn lemma_parse_u64(x: nat, rest: Seq<u8>)
    requires
        fits_u64(x),
    ensures
        parse_u64(enc_u64(x) + rest) == Some((x, rest)),
{
    vstd::bytes::lemma_auto_spec_u64_to_from_le_bytes();
    let e = enc_u64(x);
    assert((e + rest).take(8) =~= e);
    assert((e + rest).skip(8) =~= rest);
}

proof fn lemma_parse_str(s: Seq<char>, rest: Seq<u8>)
    requires
        fits_u64(encode_utf8(s).len()),
    ensures
        parse_str(enc_str(s) + rest) == Some((s, rest)),
{
    let u = encode_utf8(s);
    lemma_parse_u64(u.len(), u + rest);
    assert(enc_str(s) + rest =~= enc_u64(u.len()) + (u + rest));
    assert((u + rest).take(u.len() as int) =~= u);
    assert((u + rest).skip(u.len() as int) =~= rest);
}

proof fn lemma_parse_strs(l: Seq<Seq<char>>, rest: Seq<u8>)
    requires
        forall|i: int| 0 <= i < l.len() ==> fits_u64(encode_utf8(#[trigger] l[i]).len()),
    ensures
        parse_strs(enc_strs(l) + rest, l.len()) == Some((l, rest)),
    decreases l.len(),
{
    if l.len() > 0 {
        let init = l.drop_last();
        let last = l.last();
        assert(enc_strs(l) + rest =~= enc_strs(init) + (enc_str(last) + rest));
        assert forall|i: int| 0 <= i < init.len() implies fits_u64(encode_utf8(#[trigger] init[i]).len()) by {
            assert(init[i] == l[i]);
        }
        lemma_parse_strs(init, enc_str(last) + rest);
        assert(fits_u64(encode_utf8(l[l.len() - 1]).len()));
        lemma_parse_str(last, rest);
        assert(init.push(last) =~= l);
    } else {
        assert(enc_strs(l) + rest =~= rest);
        assert(l =~= Seq::<Seq<char>>::empty());
    }
}

/// Decoding the encoding of a record gives the record back.
pub proof fn lemma_decode_encode(m: MetadataView)
    requires
        encodable(m),
    ensures
        decode_spec(encode_spec(m)) == Some(m),
{
    let e = encode_spec(m);
    let b1 = enc_str(m.algorithm) + enc_u64(m.size) + enc_u64(m.chunk_size) + enc_u64(m.chunks.len())
        + enc_strs(m.chunks) + enc_u64(m.timestamp);
    let b2 = enc_u64(m.size) + enc_u64(m.chunk_size) + enc_u64(m.chunks.len()) + enc_strs(m.chunks)
        + enc_u64(m.timestamp);
    let b3 = enc_u64(m.chunk_size) + enc_u64(m.chunks.len()) + enc_strs(m.chunks) + enc_u64(
        m.timestamp,
    );
    let b4 = enc_u64(m.chunks.len()) + enc_strs(m.chunks) + enc_u64(m.timestamp);
    let b5 = enc_strs(m.chunks) + enc_u64(m.timestamp);
    let b6 = enc_u64(m.timestamp);
    let empty = Seq::<u8>::empty();
    assert(e =~= enc_str(m.hash) + b1);
    assert(b1 =~= enc_str(m.algorithm) + b2);
    assert(b2 =~= enc_u64(m.size) + b3);
    assert(b3 =~= enc_u64(m.chunk_size) + b4);
    assert(b4 =~= enc_u64(m.chunks.len()) + b5);
    assert(b6 =~= b6 + empty);
    lemma_parse_str(m.hash, b1);
    lemma_parse_str(m.algorithm, b2);
    lemma_parse_u64(m.size, b3);
    lemma_parse_u64(m.chunk_size, b4);
    lemma_parse_u64(m.chunks.len(), b5);
    lemma_parse_strs(m.chunks, b6);
    lemma_parse_u64(m.timestamp, empty);
}

/// Relies on String::from_utf8: it succeeds exactly on valid UTF-8 and then
/// holds the characters that the bytes encode.
#[verifier::external_body]
fn string_from_utf8(b: Vec<u8>) -> (r: Option<String>)
    ensures
        r is Some <==> valid_utf8(b@),
        r matches Some(s) ==> s@ == decode_utf8(b@),
{
    String::from_utf8(b).ok()
}

fn push_u64(out: &mut Vec<u8>, x: u64)
    ensures
        final(out)@ == old(out)@ + enc_u64(x as nat),
{
    let mut b = u64_to_le_bytes(x);
    out.append(&mut b);
}

fn push_str(out: &mut Vec<u8>, s: &String)
    ensures
        final(out)@ == old(out)@ + enc_str(s@),
{
    let bytes = s.as_str().as_bytes();
    push_u64(out, bytes.len() as u64);
    let mut v = slice_to_vec(bytes);
    out.append(&mut v);
}

/// Encodes a metadata record.
pub fn encode_metadata(m: &FileMetadata) -> (r: Vec<u8>)
    ensures
        r@ == encode_spec(m@),
{
    let mut out: Vec<u8> = Vec::new();
    push_str(&mut out, &m.hash);
    push_str(&mut out, &m.algorithm);
    push_u64(&mut out, m.size as u64);
    push_u64(&mut out, m.chunk_size as u64);
    push_u64(&mut out, m.chunks.len() as u64);
    let ghost start = out@;
    let mut i: usize = 0;
    while i < m.chunks.len()
        invariant
            i <= m.chunks@.len(),
            out@ == start + enc_strs(strings_view(m.chunks@).take(i as int)),
        decreases m.chunks@.len() - i,
    {
        let ghost before = out@;
        push_str(&mut out, &m.chunks[i]);
        proof {
            let t = strings_view(m.chunks@).take(i + 1);
            assert(t.drop_last() =~= strings_view(m.chunks@).take(i as int));
        }
        i = i + 1;
    }
    assert(strings_view(m.chunks@).take(i as int) =~= strings_view(m.chunks@));
    push_u64(&mut out, m.timestamp);
    assert(out@ =~= encode_spec(m@));
    out
}

fn read_u64(b: &[u8], pos: usize) -> (r: Option<(u64, usize)>)
    requires
        pos <= b@.len(),
    ensures
        match parse_u64(b@.skip(pos as int)) {
            None => r is None,
            Some((x, rest)) => r matches Some((y, p)) && y as nat == x && p <= b@.len() && rest
                == b@.skip(p as int),
        },
{
    if b.len() - pos < 8 {
        return None;
    }
    let x = u64_from_le_bytes(slice_subrange(b, pos, pos + 8));
    assert(b@.skip(pos as int).take(8) =~= b@.subrange(pos as int, pos + 8));
    assert(b@.skip(pos as int).skip(8) =~= b@.skip(pos + 8));
    Some((x, pos + 8))
}

fn read_str(b: &[u8], pos: usize) -> (r: Option<(String, usize)>)
    requires
        pos <= b@.len(),
    ensures
        match parse_str(b@.skip(pos as int)) {
            None => r is None,
            Some((s, rest)) => r matches Some((t, p)) && t@ == s && p <= b@.len() && rest
                == b@.skip(p as int),
        },
{
    let (n, p) = match read_u64(b, pos) {
        None => return None,
        Some(x) => x,
    };
    if n > (b.len() - p) as u64 {
        return None;
    }
    let end = p + n as usize;
    let bytes = slice_to_vec(slice_subrange(b, p, end));
    assert(b@.skip(p as int).take(n as int) =~= bytes@);
    assert(b@.skip(p as int).skip(n as int) =~= b@.skip(end as int));
    match string_from_utf8(bytes) {
        None => None,
        Some(s) => Some((s, end)),
    }
}

/// Decodes a metadata record; fails on bytes that encode none.
pub fn decode_metadata(b: &[u8]) -> (r: Result<FileMetadata, StorageError>)
    ensures
        match decode_spec(b@) {
            Some(m) => r matches Ok(f) && f@ == m,
            None => r matches Err(StorageError::SerializationError(_)),
        },
{
    assert(b@.skip(0) =~= b@);
    let (hash, at_algorithm) = match read_str(b, 0) {
        None => return Err(malformed()),
        Some(x) => x,
    };
    let (algorithm, at_size) = match read_str(b, at_algorithm) {
        None => return Err(malformed()),
        Some(x) => x,
    };
    let (size, at_chunk_size) = match read_u64(b, at_size) {
        None => return Err(malformed()),
        Some(x) => x,
    };
    let (chunk_size, at_count) = match read_u64(b, at_chunk_size) {
        None => return Err(malformed()),
        Some(x) => x,
    };
    let (n, at_chunks) = match read_u64(b, at_count) {
        None => return Err(malformed()),
        Some(x) => x,
    };
    assert(parse_str(b@) == Some((hash@, b@.skip(at_algorithm as int))));
    assert(parse_str(b@.skip(at_algorithm as int)) == Some((algorithm@, b@.skip(at_size as int))));
    assert(parse_u64(b@.skip(at_size as int)) == Some((size as nat, b@.skip(at_chunk_size as int))));
    assert(parse_u64(b@.skip(at_chunk_size as int)) == Some((chunk_size as nat, b@.skip(at_count as int))));
    assert(parse_u64(b@.skip(at_count as int)) == Some((n as nat, b@.skip(at_chunks as int))));
    let ghost b5 = b@.skip(at_chunks as int);
    let mut chunks: Vec<String> = Vec::new();
    let mut k: u64 = 0;
    let mut pos: usize = at_chunks;
    assert(strings_view(chunks@) =~= Seq::<Seq<char>>::empty());
    while k < n
        invariant
            k <= n,
            pos <= b@.len(),
            parse_strs(b5, k as nat) == Some((strings_view(chunks@), b@.skip(pos as int))),
            parse_str(b@) == Some((hash@, b@.skip(at_algorithm as int))),
            parse_str(b@.skip(at_algorithm as int)) == Some((algorithm@, b@.skip(at_size as int))),
            parse_u64(b@.skip(at_size as int)) == Some((size as nat, b@.skip(at_chunk_size as int))),
            parse_u64(b@.skip(at_chunk_size as int)) == Some((chunk_size as nat, b@.skip(at_count as int))),
            parse_u64(b@.skip(at_count as int)) == Some((n as nat, b5)),
        decreases n - k,
    {
        let (s, next) = match read_str(b, pos) {
            None => {
                proof {
                    assert(parse_strs(b5, (k + 1) as nat) is None);
                    lemma_parse_strs_fails(b5, (k + 1) as nat, n as nat);
                }
                return Err(malformed());
            },
            Some(x) => x,
        };
        let ghost before = strings_view(chunks@);
        chunks.push(s);
        assert(strings_view(chunks@) =~= before.push(s@));
        pos = next;
        k = k + 1;
    }
    let (timestamp, end) = match read_u64(b, pos) {
        None => return Err(malformed()),
        Some(x) => x,
    };
    if end != b.len() || size > usize::MAX as u64 || chunk_size > usize::MAX as u64 {
        return Err(malformed());
    }
    Ok(
        FileMetadata {
            hash,
            algorithm,
            size: size as usize,
            chunk_size: chunk_size as usize,
            chunks,
            timestamp,
        },
    )
}

proof fn lemma_parse_strs_fails(b: Seq<u8>, k: nat, n: nat)
    requires
        k <= n,
        parse_strs(b, k) is None,
    ensures
        parse_strs(b, n) is None,
    decreases n - k,
{
    if k < n {
        assert(parse_strs(b, (k + 1) as nat) is None);
        lemma_parse_strs_fails(b, k + 1, n);
    }
}

fn malformed() -> (r: StorageError)
    ensures
        r matches StorageError::SerializationError(_),
{
    StorageError::SerializationError(String::from_str("malformed metadata record"))
}

} // verus!
