//! The embedding cache: a versioned binary artifact keyed by a content hash
//! of the catalog.
//!
//! Layout: 8 magic bytes, a 4-byte version, a 32-byte catalog hash, the row
//! and column counts as 8-byte little-endian integers, then the matrix
//! entries row-major, each a 32-bit little-endian word.  The words carry the
//! bit patterns of the stored 32-bit floats; this codec moves them
//! unchanged.

use vstd::prelude::*;
use vstd::bytes::spec_u32_to_le_bytes;
use vstd::bytes::spec_u32_from_le_bytes;
use vstd::bytes::spec_u64_to_le_bytes;
use vstd::bytes::spec_u64_from_le_bytes;
use vstd::bytes::u32_to_le_bytes;
use vstd::bytes::u32_from_le_bytes;
use vstd::bytes::u64_to_le_bytes;
use vstd::bytes::u64_from_le_bytes;
use vstd::bytes::lemma_auto_spec_u32_to_from_le_bytes;
use vstd::bytes::lemma_auto_spec_u64_to_from_le_bytes;
use crate::catalog::EncapureTool;
use crate::catalog::lit;
use crate::catalog::append_bytes;
use crate::catalog::append_lit;
use crate::catalog::bytes_eq;
use crate::catalog::copy_prefix;
use crate::error::AppError;
use sha2::Digest;

verus! {

/// Cache format version; a file of any other version is ignored.
pub const CACHE_VERSION: u32 = 1;

/// Byte offset where the matrix entries begin.
pub const HEADER_LEN: usize = 60;

/// The magic bytes that open a cache file: ASCII `ENCAPURE`.
pub open spec fn spec_cache_magic() -> Seq<u8> {
    seq![0x45u8, 0x4eu8, 0x43u8, 0x41u8, 0x50u8, 0x55u8, 0x52u8, 0x45u8]
}

/// The magic bytes as a vector.
fn cache_magic() -> (r: Vec<u8>)
    ensures
        r@ == spec_cache_magic(),
{
    let mut r: Vec<u8> = Vec::new();
    r.push(0x45);
    r.push(0x4e);
    r.push(0x43);
    r.push(0x41);
    r.push(0x50);
    r.push(0x55);
    r.push(0x52);
    r.push(0x45);
    assert(r@ =~= spec_cache_magic());
    r
}

/// What the SHA-256 digest of a byte sequence is: a function of the bytes
/// alone, the same in every process.
pub uninterp spec fn sha256_of(input: Seq<u8>) -> Seq<u8>;

/// Relies on sha2's `Sha256`: the digest is 32 bytes and depends on the
/// input bytes alone.
#[verifier::external_body]
fn sha256_digest(input: &Vec<u8>) -> (r: Vec<u8>)
    ensures
        r@ == sha256_of(input@),
        r@.len() == 32,
{
    sha2::Sha256::digest(input.as_slice()).to_vec()
}

/// The bytes hashed to key a cache to its catalog: for each record in order,
/// its name, a `|`, its inference view, and a newline.
pub open spec fn spec_hash_input(tools: Seq<EncapureTool>) -> Seq<u8>
    decreases tools.len(),
{
    if tools.len() == 0 {
        Seq::<u8>::empty()
    } else {
        spec_hash_input(tools.drop_last()) + tools.last().name@ + lit("|")
            + tools.last().inference_view@ + lit("\n")
    }
}

/// The matrix entries, each as four little-endian bytes, in order.
pub open spec fn spec_words_le(ws: Seq<u32>) -> Seq<u8>
    decreases ws.len(),
{
    if ws.len() == 0 {
        Seq::<u8>::empty()
    } else {
        spec_words_le(ws.drop_last()) + spec_u32_to_le_bytes(ws.last())
    }
}

proof fn lemma_words_le_len(ws: Seq<u32>)
    ensures
        spec_words_le(ws).len() == 4 * ws.len(),
    decreases ws.len(),
{
    lemma_auto_spec_u32_to_from_le_bytes();
    if ws.len() > 0 {
        lemma_words_le_len(ws.drop_last());
    }
}

proof fn lemma_words_le_index(ws: Seq<u32>, i: int)
    requires
        0 <= i < ws.len(),
    ensures
        spec_words_le(ws).subrange(4 * i, 4 * i + 4) == spec_u32_to_le_bytes(ws[i]),
    decreases ws.len(),
{
    lemma_auto_spec_u32_to_from_le_bytes();
    lemma_words_le_len(ws);
    lemma_words_le_len(ws.drop_last());
    if i == ws.len() - 1 {
        assert(spec_words_le(ws).subrange(4 * i, 4 * i + 4) =~= spec_u32_to_le_bytes(ws[i]));
    } else {
        lemma_words_le_index(ws.drop_last(), i);
        assert(spec_words_le(ws).subrange(4 * i, 4 * i + 4) =~= spec_words_le(
            ws.drop_last(),
        ).subrange(4 * i, 4 * i + 4));
    }
}

/// The cached embeddings with the header that validates them.
#[derive(Debug)]
pub struct EmbeddingsCache {
    /// Format version, for compatibility checking.
    pub version: u32,
    /// SHA-256 of the catalog the matrix was computed from.
    pub tools_hash: Vec<u8>,
    /// Number of matrix rows: one per tool.
    pub num_tools: usize,
    /// Number of matrix columns.
    pub embedding_dim: usize,
    /// The matrix entries, row-major, as 32-bit words.
    pub embeddings: Vec<u32>,
}

/// The mathematical content of a cache.
pub ghost struct CacheModel {
    pub version: u32,
    pub tools_hash: Seq<u8>,
    pub num_tools: int,
    pub embedding_dim: int,
    pub words: Seq<u32>,
}

impl EmbeddingsCache {
    /// The cache's fields as mathematical values.
    pub open spec fn model(&self) -> CacheModel {
        CacheModel {
            version: self.version,
            tools_hash: self.tools_hash@,
            num_tools: self.num_tools as int,
            embedding_dim: self.embedding_dim as int,
            words: self.embeddings@,
        }
    }

    /// A well-formed cache: current version, a whole digest, and a matrix
    /// with exactly one row of `embedding_dim` entries per tool.
    pub open spec fn wf(&self) -> bool {
        &&& self.version == CACHE_VERSION
        &&& self.tools_hash@.len() == 32
        &&& self.embeddings@.len() == self.num_tools * self.embedding_dim
    }

    /// SHA-256 over the names and inference views of the catalog, to detect
    /// any change to either.
    pub fn compute_tools_hash(tools: &Vec<EncapureTool>) -> (r: Vec<u8>)
        ensures
            r@ == sha256_of(spec_hash_input(tools@)),
            r@.len() == 32,
    {
        let n = tools.len();
        let mut input: Vec<u8> = Vec::new();
        for i in 0..n
            invariant
                n == tools@.len(),
                input@ == spec_hash_input(tools@.subrange(0, i as int)),
        {
            append_bytes(&mut input, &tools[i].name);
            append_lit(&mut input, "|");
            append_bytes(&mut input, &tools[i].inference_view);
            append_lit(&mut input, "\n");
            proof {
                let pref = tools@.subrange(0, i + 1 as int);
                assert(pref.drop_last() =~= tools@.subrange(0, i as int));
                assert(pref.last() == tools@[i as int]);
                assert(input@ =~= spec_hash_input(pref));
            }
        }
        proof {
            assert(tools@.subrange(0, n as int) =~= tools@);
        }
        sha256_digest(&input)
    }

    /// Build a cache for a catalog from its computed matrix.
    pub fn new(tools: &Vec<EncapureTool>, embeddings: Vec<u32>, embedding_dim: usize) -> (c:
        EmbeddingsCache)
        requires
            embeddings@.len() == tools@.len() * embedding_dim,
        ensures
            c.wf(),
            c.version == CACHE_VERSION,
            c.tools_hash@ == sha256_of(spec_hash_input(tools@)),
            c.num_tools == tools@.len(),
            c.embedding_dim == embedding_dim,
            c.embeddings@ == embeddings@,
    {
        let tools_hash = Self::compute_tools_hash(tools);
        EmbeddingsCache {
            version: CACHE_VERSION,
            tools_hash,
            num_tools: tools.len(),
            embedding_dim,
            embeddings,
        }
    }

    /// The exact bytes of the cache artifact.
    pub open spec fn spec_encode(c: EmbeddingsCache) -> Seq<u8> {
        spec_cache_magic() + spec_u32_to_le_bytes(c.version) + c.tools_hash@
            + spec_u64_to_le_bytes(c.num_tools as u64) + spec_u64_to_le_bytes(
            c.embedding_dim as u64,
        ) + spec_words_le(c.embeddings@)
    }

    /// Serialize the cache into the binary layout.
    pub fn encode(&self) -> (r: Vec<u8>)
        ensures
            r@ == Self::spec_encode(*self),
    {
        let mut r = cache_magic();
        let mut version = u32_to_le_bytes(self.version);
        r.append(&mut version);
        append_bytes(&mut r, &self.tools_hash);
        let mut n = u64_to_le_bytes(self.num_tools as u64);
        r.append(&mut n);
        let mut d = u64_to_le_bytes(self.embedding_dim as u64);
        r.append(&mut d);
        let ghost prefix = r@;
        let k = self.embeddings.len();
        for i in 0..k
            invariant
                k == self.embeddings@.len(),
                r@ == prefix + spec_words_le(self.embeddings@.subrange(0, i as int)),
        {
            let mut w = u32_to_le_bytes(self.embeddings[i]);
            r.append(&mut w);
            proof {
                let pref = self.embeddings@.subrange(0, i + 1 as int);
                assert(pref.drop_last() =~= self.embeddings@.subrange(0, i as int));
                assert(pref.last() == self.embeddings@[i as int]);
                assert(r@ =~= prefix + spec_words_le(pref));
            }
        }
        proof {
            assert(self.embeddings@.subrange(0, k as int) =~= self.embeddings@);
            assert(r@ =~= Self::spec_encode(*self));
        }
        r
    }

    /// What decoding a byte string yields: a model for a well-formed
    /// artifact, `Ok(None)` for a file of another format or version, and an
    /// error for an artifact whose body belies its header.
    pub open spec fn spec_decode(data: Seq<u8>) -> Result<Option<CacheModel>, ()> {
        if data.len() < 8 || data.subrange(0, 8) != spec_cache_magic() {
            Ok(None)
        } else if data.len() < 12 {
            Err(())
        } else if spec_u32_from_le_bytes(data.subrange(8, 12)) != CACHE_VERSION {
            Ok(None)
        } else if data.len() < HEADER_LEN as int {
            Err(())
        } else {
            let n = spec_u64_from_le_bytes(data.subrange(44, 52));
            let d = spec_u64_from_le_bytes(data.subrange(52, 60));
            if n > usize::MAX || d > usize::MAX || data.len() < HEADER_LEN + 4 * ((n as int) * (
            d as int)) {
                Err(())
            } else {
                Ok(
                    Some(
                        CacheModel {
                            version: CACHE_VERSION,
                            tools_hash: data.subrange(12, 44),
                            num_tools: n as int,
                            embedding_dim: d as int,
                            words: spec_words_at(data, (n as int) * (d as int)),
                        },
                    ),
                )
            }
        }
    }

    /// Parse the binary layout.  Trailing bytes beyond the matrix are
    /// ignored.
    pub fn decode(data: &Vec<u8>) -> (r: Result<Option<EmbeddingsCache>, AppError>)
        ensures
            match r {
                Ok(Some(c)) => c.wf() && Self::spec_decode(data@) == Ok::<
                    Option<CacheModel>,
                    (),
                >(Some(c.model())),
                Ok(None) => Self::spec_decode(data@) == Ok::<Option<CacheModel>, ()>(None),
                Err(e) => Self::spec_decode(data@) is Err && e is ValidationError,
            },
    {
        proof {
            lemma_auto_spec_u32_to_from_le_bytes();
            lemma_auto_spec_u64_to_from_le_bytes();
        }
        if data.len() < 8 {
            return Ok(None);
        }
        let magic = copy_prefix(data, 8);
        let expected_magic = cache_magic();
        if !bytes_eq(&magic, &expected_magic) {
            assert(data@.subrange(0, 8) != spec_cache_magic());
            return Ok(None);
        }
        if data.len() < 12 {
            return Err(
                AppError::ValidationError(String::from_str("Cache file ends inside its version")),
            );
        }
        let version = read_u32_at(data, 8);
        if version != CACHE_VERSION {
            return Ok(None);
        }
        if data.len() < HEADER_LEN {
            return Err(
                AppError::ValidationError(String::from_str("Cache file ends inside its header")),
            );
        }
        let n64 = read_u64_at(data, 44);
        let d64 = read_u64_at(data, 52);
        if n64 > usize::MAX as u64 || d64 > usize::MAX as u64 {
            return Err(
                AppError::ValidationError(
                    String::from_str("Cache header names more entries than fit in memory"),
                ),
            );
        }
        let n = n64 as usize;
        let d = d64 as usize;
        let len = data.len();
        let remaining_words = (len - HEADER_LEN) / 4;
        proof {
            vstd::arithmetic::div_mod::lemma_fundamental_div_mod(len as int - HEADER_LEN, 4);
            vstd::arithmetic::div_mod::lemma_mod_bound(len as int - HEADER_LEN, 4);
        }
        if d != 0 && n > remaining_words / d {
            proof {
                lemma_div_bound(n as int, d as int, remaining_words as int);
                assert((n as int) * (d as int) >= remaining_words + 1);
                assert(4 * ((n as int) * (d as int)) >= 4 * (remaining_words as int) + 4);
                assert(data@.len() < HEADER_LEN + 4 * ((n64 as int) * (d64 as int)));
            }
            return Err(
                AppError::ValidationError(
                    String::from_str("Cache file ends inside its embedding data"),
                ),
            );
        }
        let total: usize = if d == 0 {
            proof {
                assert((n as int) * (d as int) == 0) by (nonlinear_arith)
                    requires
                        d as int == 0,
                ;
            }
            0
        } else {
            proof {
                lemma_div_bound_conv(n as int, d as int, remaining_words as int);
            }
            n * d
        };
        assert(total == (n64 as int) * (d64 as int));
        assert(HEADER_LEN + 4 * total <= data@.len()) by {
            assert(4 * total <= 4 * remaining_words);
        }
        let mut words: Vec<u32> = Vec::new();
        for i in 0..total
            invariant
                HEADER_LEN + 4 * total <= data@.len(),
                data@.len() <= usize::MAX,
                words@ == spec_words_at(data@, i as int),
        {
            let w = read_u32_at(data, HEADER_LEN + 4 * i);
            words.push(w);
            proof {
                assert(words@ =~= spec_words_at(data@, i + 1 as int));
            }
        }
        let tools_hash = copy_range(data, 12, 44);
        let cache = EmbeddingsCache {
            version: CACHE_VERSION,
            tools_hash,
            num_tools: n,
            embedding_dim: d,
            embeddings: words,
        };
        proof {
            assert(cache.embeddings@.len() == total) by {
                lemma_spec_words_at_len(data@, total as int);
            }
            assert(cache.wf());
        }
        Ok(Some(cache))
    }

    /// Whether this cache belongs to the given catalog: same record count and
    /// same content hash.
    pub fn is_valid_for(&self, tools: &Vec<EncapureTool>) -> (r: bool)
        ensures
            r == (self.tools_hash@ == sha256_of(spec_hash_input(tools@)) && self.num_tools
                == tools@.len()),
    {
        let current = Self::compute_tools_hash(tools);
        bytes_eq(&self.tools_hash, &current) && self.num_tools == tools.len()
    }
}

/// The first `k` matrix entries read from `data` after the header.
pub open spec fn spec_words_at(data: Seq<u8>, k: int) -> Seq<u32>
    decreases k,
{
    if k <= 0 {
        Seq::<u32>::empty()
    } else {
        spec_words_at(data, k - 1).push(
            spec_u32_from_le_bytes(
                data.subrange(HEADER_LEN + 4 * (k - 1), HEADER_LEN + 4 * (k - 1) + 4),
            ),
        )
    }
}

proof fn lemma_spec_words_at_len(data: Seq<u8>, k: int)
    requires
        k >= 0,
    ensures
        spec_words_at(data, k).len() == k,
    decreases k,
{
    if k > 0 {
        lemma_spec_words_at_len(data, k - 1);
    }
}

proof fn lemma_div_bound(n: int, d: int, r: int)
    requires
        d > 0,
        r >= 0,
        n > r / d,
    ensures
        n * d > r,
{
    assert(n >= r / d + 1);
    assert((r / d + 1) * d == (r / d) * d + d) by (nonlinear_arith);
    assert((r / d) * d + d > r) by {
        vstd::arithmetic::div_mod::lemma_fundamental_div_mod(r, d);
        vstd::arithmetic::div_mod::lemma_mod_bound(r, d);
    }
    assert(n * d >= (r / d + 1) * d) by (nonlinear_arith)
        requires
            n >= r / d + 1,
            d > 0,
    ;
}

proof fn lemma_div_bound_conv(n: int, d: int, r: int)
    requires
        d > 0,
        r >= 0,
        n <= r / d,
        n >= 0,
    ensures
        n * d <= r,
{
    assert((r / d) * d <= r) by {
        vstd::arithmetic::div_mod::lemma_fundamental_div_mod(r, d);
        vstd::arithmetic::div_mod::lemma_mod_bound(r, d);
    }
    assert(n * d <= (r / d) * d) by (nonlinear_arith)
        requires
            0 <= n <= r / d,
            d > 0,
    ;
}

/// Copy `data[start..end]`.
fn copy_range(data: &Vec<u8>, start: usize, end: usize) -> (r: Vec<u8>)
    requires
        start <= end <= data@.len(),
    ensures
        r@ == data@.subrange(start as int, end as int),
{
    let mut r: Vec<u8> = Vec::new();
    for i in start..end
        invariant
            start <= end <= data@.len(),
            r@ =~= data@.subrange(start as int, i as int),
    {
        r.push(data[i]);
        assert(r@ =~= data@.subrange(start as int, i + 1 as int));
    }
    r
}

/// Read the little-endian 32-bit word at `off`.
fn read_u32_at(data: &Vec<u8>, off: usize) -> (x: u32)
    requires
        off + 4 <= data@.len(),
    ensures
        x == spec_u32_from_le_bytes(data@.subrange(off as int, off as int + 4)),
{
    assert(off + 4 <= data.len());
    let b = copy_range(data, off, off + 4);
    u32_from_le_bytes(b.as_slice())
}

/// Read the little-endian 64-bit word at `off`.
fn read_u64_at(data: &Vec<u8>, off: usize) -> (x: u64)
    requires
        off + 8 <= data@.len(),
    ensures
        x == spec_u64_from_le_bytes(data@.subrange(off as int, off as int + 8)),
{
    assert(off + 8 <= data.len());
    let b = copy_range(data, off, off + 8);
    u64_from_le_bytes(b.as_slice())
}

/// Round trip: decoding an encoded cache yields that cache back, field for
/// field, for every well-formed cache.
pub proof fn lemma_cache_round_trip(c: EmbeddingsCache)
    requires
        c.wf(),
        c.num_tools * c.embedding_dim <= usize::MAX,
    ensures
        EmbeddingsCache::spec_decode(EmbeddingsCache::spec_encode(c)) == Ok::<
            Option<CacheModel>,
            (),
        >(Some(c.model())),
{
    lemma_auto_spec_u32_to_from_le_bytes();
    lemma_auto_spec_u64_to_from_le_bytes();
    let data = EmbeddingsCache::spec_encode(c);
    lemma_words_le_len(c.embeddings@);
    assert(data.len() == HEADER_LEN + 4 * c.embeddings@.len());
    assert(data.subrange(0, 8) =~= spec_cache_magic());
    assert(data.subrange(8, 12) =~= spec_u32_to_le_bytes(c.version));
    assert(data.subrange(12, 44) =~= c.tools_hash@);
    assert(data.subrange(44, 52) =~= spec_u64_to_le_bytes(c.num_tools as u64));
    assert(data.subrange(52, 60) =~= spec_u64_to_le_bytes(c.embedding_dim as u64));
    let k = c.num_tools * c.embedding_dim;
    assert(spec_u64_from_le_bytes(data.subrange(44, 52)) == c.num_tools as u64);
    assert(spec_u64_from_le_bytes(data.subrange(52, 60)) == c.embedding_dim as u64);
    assert(data.len() == HEADER_LEN + 4 * k);
    lemma_words_region(c, data, k);
    assert(spec_words_at(data, k) =~= c.embeddings@);
    assert(EmbeddingsCache::spec_decode(data) == Ok::<Option<CacheModel>, ()>(Some(c.model())));
}

proof fn lemma_words_region(c: EmbeddingsCache, data: Seq<u8>, k: int)
    requires
        c.wf(),
        data == EmbeddingsCache::spec_encode(c),
        0 <= k <= c.embeddings@.len(),
    ensures
        spec_words_at(data, k) == c.embeddings@.subrange(0, k),
    decreases k,
{
    lemma_auto_spec_u32_to_from_le_bytes();
    lemma_auto_spec_u64_to_from_le_bytes();
    lemma_words_le_len(c.embeddings@);
    let prefix = spec_cache_magic() + spec_u32_to_le_bytes(c.version) + c.tools_hash@
        + spec_u64_to_le_bytes(c.num_tools as u64) + spec_u64_to_le_bytes(c.embedding_dim as u64);
    assert(prefix.len() == HEADER_LEN);
    assert(data =~= prefix + spec_words_le(c.embeddings@));
    if k == 0 {
        assert(spec_words_at(data, 0) =~= c.embeddings@.subrange(0, 0));
    } else {
        lemma_words_region(c, data, k - 1);
        lemma_words_le_index(c.embeddings@, k - 1);
        assert forall|m: int| 0 <= m < 4 implies #[trigger] data[HEADER_LEN + 4 * (k - 1) + m]
            == spec_words_le(c.embeddings@)[4 * (k - 1) + m] by {
            assert(data == prefix + spec_words_le(c.embeddings@));
        }
        assert(data.subrange(HEADER_LEN + 4 * (k - 1), HEADER_LEN + 4 * (k - 1) + 4)
            =~= spec_words_le(c.embeddings@).subrange(4 * (k - 1), 4 * (k - 1) + 4));
        assert(spec_words_at(data, k) =~= c.embeddings@.subrange(0, k));
    }
}

proof fn lemma_hash_input_len_eq(t1: Seq<EncapureTool>, t2: Seq<EncapureTool>)
    requires
        t1.len() == t2.len(),
        forall|i: int| 0 <= i < t1.len() ==> (#[trigger] t1[i]).name@.len() == t2[i].name@.len(),
        forall|i: int|
            0 <= i < t1.len() ==> (#[trigger] t1[i]).inference_view@.len()
                == t2[i].inference_view@.len(),
    ensures
        spec_hash_input(t1).len() == spec_hash_input(t2).len(),
    decreases t1.len(),
{
    if t1.len() > 0 {
        lemma_hash_input_len_eq(t1.drop_last(), t2.drop_last());
        assert(t1[t1.len() - 1].name@.len() == t2[t2.len() - 1].name@.len());
        assert(t1[t1.len() - 1].inference_view@.len() == t2[t2.len() - 1].inference_view@.len());
    }
}

/// Cache invalidation, up to the digest: changing any byte of any record's
/// name or inference view changes the bytes that the cache key hashes.  The
/// catalogs pair up record for record with names and views of matching
/// lengths, as a single-byte change leaves them.  That the digest of changed
/// bytes then differs is the hash function's collision resistance, of which
/// no contract speaks.
pub proof fn lemma_hash_input_discriminates(t1: Seq<EncapureTool>, t2: Seq<EncapureTool>)
    requires
        t1.len() == t2.len(),
        forall|i: int| 0 <= i < t1.len() ==> (#[trigger] t1[i]).name@.len() == t2[i].name@.len(),
        forall|i: int|
            0 <= i < t1.len() ==> (#[trigger] t1[i]).inference_view@.len()
                == t2[i].inference_view@.len(),
        exists|i: int|
            0 <= i < t1.len() && ((#[trigger] t1[i]).name@ != t2[i].name@
                || t1[i].inference_view@ != t2[i].inference_view@),
    ensures
        spec_hash_input(t1) != spec_hash_input(t2),
    decreases t1.len(),
{
    let n = t1.len() as int;
    let last1 = t1.last();
    let last2 = t2.last();
    let pre1 = spec_hash_input(t1.drop_last());
    let pre2 = spec_hash_input(t2.drop_last());
    let seg1 = last1.name@ + lit("|") + last1.inference_view@ + lit("
");
    let seg2 = last2.name@ + lit("|") + last2.inference_view@ + lit("
");
    assert(spec_hash_input(t1) =~= pre1 + seg1);
    assert(spec_hash_input(t2) =~= pre2 + seg2);
    lemma_hash_input_len_eq(t1.drop_last(), t2.drop_last());
    let plen = pre1.len() as int;
    assert(t1[n - 1].name@.len() == t2[n - 1].name@.len());
    assert(t1[n - 1].inference_view@.len() == t2[n - 1].inference_view@.len());
    let nlen = last1.name@.len() as int;
    let vlen = last1.inference_view@.len() as int;
    let voff = nlen + lit("|").len();
    if last1.name@ != last2.name@ || last1.inference_view@ != last2.inference_view@ {
        if spec_hash_input(t1) == spec_hash_input(t2) {
            assert(seg1 =~= (pre1 + seg1).subrange(plen, plen + seg1.len()));
            assert(seg2 =~= (pre2 + seg2).subrange(plen, plen + seg2.len()));
            assert(seg1 == seg2);
            assert(last1.name@ =~= seg1.subrange(0, nlen));
            assert(last2.name@ =~= seg2.subrange(0, nlen));
            assert(last1.inference_view@ =~= seg1.subrange(voff, voff + vlen));
            assert(last2.inference_view@ =~= seg2.subrange(voff, voff + vlen));
            assert(false);
        }
    } else {
        let w = choose|i: int|
            0 <= i < t1.len() && ((#[trigger] t1[i]).name@ != t2[i].name@
                || t1[i].inference_view@ != t2[i].inference_view@);
        assert(w < n - 1);
        assert(t1.drop_last()[w] == t1[w] && t2.drop_last()[w] == t2[w]);
        lemma_hash_input_discriminates(t1.drop_last(), t2.drop_last());
        if spec_hash_input(t1) == spec_hash_input(t2) {
            assert(pre1 =~= (pre1 + seg1).subrange(0, plen));
            assert(pre2 =~= (pre2 + seg2).subrange(0, plen));
            assert(false);
        }
    }
}

/// Decode a cache artifact read from disk, if there was one, and keep its
/// matrix only when it belongs to the given catalog.  A missing file, a
/// foreign or outdated file, and a hash or count mismatch are all misses;
/// only a truncated artifact is an error.
pub fn try_load_embeddings_cache(data: Option<&Vec<u8>>, tools: &Vec<EncapureTool>) -> (r: Result<
    Option<(Vec<u32>, usize)>,
    AppError,
>)
    ensures
        match r {
            Ok(Some((words, dim))) => data matches Some(d) && match EmbeddingsCache::spec_decode(
                d@,
            ) {
                Ok(Some(m)) => {
                    &&& m.tools_hash == sha256_of(spec_hash_input(tools@))
                    &&& m.num_tools == tools@.len()
                    &&& words@ == m.words
                    &&& dim as int == m.embedding_dim
                },
                Ok(None) => false,
                Err(_) => false,
            },
            Ok(None) => data is None || (data matches Some(d)
                && match EmbeddingsCache::spec_decode(d@) {
                Ok(Some(m)) => !(m.tools_hash == sha256_of(spec_hash_input(tools@))
                    && m.num_tools == tools@.len()),
                Ok(None) => true,
                Err(_) => false,
            }),
            Err(e) => data matches Some(d) && EmbeddingsCache::spec_decode(d@) is Err
                && e is ValidationError,
        },
{
    let bytes = match data {
        Some(b) => b,
        None => {
            return Ok(None);
        },
    };
    match EmbeddingsCache::decode(bytes) {
        Ok(Some(cache)) => {
            if cache.is_valid_for(tools) {
                let dim = cache.embedding_dim;
                Ok(Some((cache.embeddings, dim)))
            } else {
                Ok(None)
            }
        },
        Ok(None) => Ok(None),
        Err(e) => Err(e),
    }
}

/// Build the cache artifact for a computed matrix, ready to be written out.
pub fn save_embeddings_cache(
    tools: &Vec<EncapureTool>,
    embeddings: Vec<u32>,
    embedding_dim: usize,
) -> (r: Vec<u8>)
    requires
        embeddings@.len() == tools@.len() * embedding_dim,
    ensures
        r@ == spec_cache_magic() + spec_u32_to_le_bytes(CACHE_VERSION) + sha256_of(
            spec_hash_input(tools@),
        ) + spec_u64_to_le_bytes(tools@.len() as u64) + spec_u64_to_le_bytes(embedding_dim as u64)
            + spec_words_le(embeddings@),
{
    let cache = EmbeddingsCache::new(tools, embeddings, embedding_dim);
    let r = cache.encode();
    proof {
        assert(r@ =~= spec_cache_magic() + spec_u32_to_le_bytes(CACHE_VERSION) + sha256_of(
            spec_hash_input(tools@),
        ) + spec_u64_to_le_bytes(tools@.len() as u64) + spec_u64_to_le_bytes(embedding_dim as u64)
            + spec_words_le(cache.embeddings@));
    }
    r
}

} // verus!
