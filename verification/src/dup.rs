//! Cross-file duplicate detection using structural fingerprints.
//!
//! Two modes:
//! 1. Exact: same structural fingerprint = exact structural duplicate.
//! 2. Similar: MinHash signatures bucketed by locality-sensitive hashing,
//!    confirmed by the number of MinHash positions on which two signatures
//!    agree, then grouped into connected components.
//!
//! Similarities are kept exactly, as the number of the 64 MinHash positions
//! that agree (a similarity of `k / 64`); a threshold is the least such
//! number that counts as similar.
use vstd::prelude::*;
use crate::data::FINGERPRINT_PRIME;
use crate::walk::{hash_kind, spec_hash_kind, KIND_SEED};
use std::collections::HashMap;
use vstd::std_specs::hash::group_hash_axioms;

verus! {

broadcast use {group_hash_axioms, vstd::seq_lib::lemma_seq_contains_after_push};

/// Number of hash values in a MinHash signature.
pub const MINHASH_SIZE: usize = 64;

/// Number of bands for LSH (locality-sensitive hashing): 8 bands of 8 hashes each.
pub const LSH_BANDS: usize = 8;

pub const LSH_ROWS_PER_BAND: usize = MINHASH_SIZE / LSH_BANDS;

/// The multiplier that mixes a token with a seed.
pub const MINHASH_MIX: u64 = 0x517cc1b727220a95u64;

/// A function location in the codebase.
#[derive(Debug, Clone, Copy, PartialEq, Eq, Structural, Hash)]
pub struct FunctionLocation {
    pub file_idx: u32,
    pub fn_idx: u32,
}

/// Structural signature for similarity comparison.
#[derive(Debug, Clone, Copy)]
pub struct FunctionSignature {
    pub location: FunctionLocation,
    pub fingerprint: u64,
    pub minhash: [u64; 64],
}

/// A group of duplicate functions.
#[derive(Debug, Clone)]
pub struct DuplicateGroup {
    /// Representative function: the first indexed member of the group.
    pub canonical: FunctionLocation,
    /// All instances including the canonical one, each with the number of
    /// MinHash positions (out of 64) on which it agrees with the group.
    pub instances: Vec<(FunctionLocation, u32)>,
}

/// The seed of the `i`-th MinHash function (a linear congruential step).
pub open spec fn spec_seed(i: int) -> u64 {
    ((i as u64).wrapping_mul(0x5851f42d4c957f2du64)).wrapping_add(0x14057b7ef767814fu64)
}

proof fn lemma_seed_products_distinct(i: u64, j: u64)
    requires
        i < 64,
        j < 64,
        i != j,
    ensures
        (i * 0x5851f42d4c957f2du64) % 0x10000000000000000int != (j * 0x5851f42d4c957f2du64) % 0x10000000000000000int,
{
    assert((i * 0x5851f42d4c957f2du64) % 0x10000000000000000int != (j * 0x5851f42d4c957f2du64) % 0x10000000000000000int) by (bit_vector)
        requires
            i < 64,
            j < 64,
            i != j,
    ;
}

/// The 64 MinHash functions are 64 different functions: their seeds are
/// pairwise distinct, so on token 0 (and hence as functions) any two of them
/// differ; and each one maps distinct tokens to distinct values, so the
/// least value of a token set under it is the value of one token.
pub proof fn law_minhash_functions_distinct(i: int, j: int, t1: u64, t2: u64)
    requires
        0 <= i < 64,
        0 <= j < 64,
    ensures
        i != j ==> spec_seed(i) != spec_seed(j),
        i != j ==> mix_token(0, i) != mix_token(0, j),
        t1 != t2 ==> mix_token(t1, i) != mix_token(t2, i),
{
    if i != j {
        lemma_seed_products_distinct(i as u64, j as u64);
        let si = spec_seed(i);
        let sj = spec_seed(j);
        assert(0u64 ^ si == si) by (bit_vector);
        assert(0u64 ^ sj == sj) by (bit_vector);
        lemma_mix_injective(spec_seed(i), spec_seed(j));
    }
    if t1 != t2 {
        let a = t1 ^ spec_seed(i);
        let b = t2 ^ spec_seed(i);
        let s = spec_seed(i);
        assert(a != b) by (bit_vector)
            requires
                a == t1 ^ s,
                b == t2 ^ s,
                t1 != t2,
        ;
        lemma_mix_injective(a, b);
    }
}

/// The seeds are a linear congruential sequence: the first is
/// `0x14057b7ef767814f`, and each next one adds `0x5851f42d4c957f2d`
/// (modulo 2^64) to the one before.
pub proof fn law_seed_sequence(i: int)
    requires
        0 <= i < 63,
    ensures
        spec_seed(0) == 0x14057b7ef767814fu64,
        spec_seed(i + 1) == spec_seed(i).wrapping_add(0x5851f42d4c957f2du64),
{
    let m: int = 0x10000000000000000;
    let a: int = 0x5851f42d4c957f2d;
    let b: int = 0x14057b7ef767814f;
    let x = (i * a) % m;
    let y = ((i + 1) * a) % m;
    assert((i + 1) * a == i * a + a) by (nonlinear_arith);
    assert(0 <= i * a) by (nonlinear_arith)
        requires
            0 <= i,
            0 <= a,
    ;
    vstd::arithmetic::div_mod::lemma_add_mod_noop(i * a, a, m);
    vstd::arithmetic::div_mod::lemma_add_mod_noop(x + b, a, m);
    vstd::arithmetic::div_mod::lemma_add_mod_noop(i * a, b, m);
    vstd::arithmetic::div_mod::lemma_add_mod_noop((i + 1) * a, b, m);
    vstd::arithmetic::div_mod::lemma_add_mod_noop(i * a + b, a, m);
    vstd::arithmetic::div_mod::lemma_add_mod_noop(i * a + a, b, m);
    vstd::arithmetic::div_mod::lemma_small_mod(a as nat, m as nat);
    vstd::arithmetic::div_mod::lemma_small_mod(b as nat, m as nat);
    vstd::arithmetic::div_mod::lemma_mod_bound(i * a, m);
    vstd::arithmetic::div_mod::lemma_mod_bound((i + 1) * a, m);
    assert(i * a + b + a == i * a + a + b);
}

/// Multiplying by the (odd) mixing constant, modulo 2^64, is one to one.
proof fn lemma_mix_injective(a: u64, b: u64)
    requires
        a != b,
    ensures
        a.wrapping_mul(MINHASH_MIX) != b.wrapping_mul(MINHASH_MIX),
{
    assert((a * 0x517cc1b727220a95u64) % 0x10000000000000000int != (b * 0x517cc1b727220a95u64) % 0x10000000000000000int) by (bit_vector)
        requires
            a != b,
    ;
}

/// The value of a token under the `i`-th MinHash function.
pub open spec fn mix_token(token: u64, i: int) -> u64 {
    (token ^ spec_seed(i)).wrapping_mul(MINHASH_MIX)
}

/// The least value of the tokens under the `i`-th MinHash function,
/// `u64::MAX` when there are none.
pub open spec fn min_hash_at(tokens: Seq<u64>, i: int) -> u64
    decreases tokens.len(),
{
    if tokens.len() == 0 {
        u64::MAX
    } else {
        let m = min_hash_at(tokens.drop_last(), i);
        let h = mix_token(tokens.last(), i);
        if h < m {
            h
        } else {
            m
        }
    }
}

/// The MinHash signature of a token sequence.
pub open spec fn spec_minhash(tokens: Seq<u64>) -> Seq<u64> {
    Seq::new(64, |i: int| min_hash_at(tokens, i))
}

proof fn lemma_min_hash_at(tokens: Seq<u64>, i: int)
    ensures
        forall|k: int| 0 <= k < tokens.len() ==> min_hash_at(tokens, i) <= mix_token(#[trigger] tokens[k], i),
        tokens.len() == 0 ==> min_hash_at(tokens, i) == u64::MAX,
        tokens.len() > 0 ==> exists|k: int| 0 <= k < tokens.len() && min_hash_at(tokens, i) == mix_token(#[trigger] tokens[k], i),
    decreases tokens.len(),
{
    if tokens.len() > 0 {
        let prev = tokens.drop_last();
        lemma_min_hash_at(prev, i);
        assert forall|k: int| 0 <= k < tokens.len() implies min_hash_at(tokens, i) <= mix_token(#[trigger] tokens[k], i) by {
            if k < prev.len() {
                assert(tokens[k] == prev[k]);
            }
        }
        if prev.len() > 0 {
            let k = choose|k: int| 0 <= k < prev.len() && min_hash_at(prev, i) == mix_token(#[trigger] prev[k], i);
            assert(tokens[k] == prev[k]);
        }
        assert(tokens[tokens.len() - 1] == tokens.last());
    }
}

/// A MinHash signature depends on the set of tokens alone: not on their
/// order, nor on how often each occurs. No tokens give `u64::MAX` at every
/// position.
pub proof fn law_minhash_of_token_set(a: Seq<u64>, b: Seq<u64>)
    requires
        a.to_set() == b.to_set(),
    ensures
        spec_minhash(a) == spec_minhash(b),
        a.len() == 0 ==> spec_minhash(a) == Seq::new(64, |i: int| u64::MAX),
{
    assert forall|i: int| 0 <= i < 64 implies min_hash_at(a, i) == min_hash_at(b, i) by {
        lemma_min_hash_at(a, i);
        lemma_min_hash_at(b, i);
        if a.len() > 0 {
            let ka = choose|k: int| 0 <= k < a.len() && min_hash_at(a, i) == mix_token(#[trigger] a[k], i);
            assert(a.to_set().contains(a[ka]));
            assert(b.to_set().contains(a[ka]));
            let jb = choose|j: int| 0 <= j < b.len() && b[j] == a[ka];
            assert(min_hash_at(b, i) <= mix_token(b[jb], i));
        }
        if b.len() > 0 {
            let kb = choose|k: int| 0 <= k < b.len() && min_hash_at(b, i) == mix_token(#[trigger] b[k], i);
            assert(b.to_set().contains(b[kb]));
            assert(a.to_set().contains(b[kb]));
            let ja = choose|j: int| 0 <= j < a.len() && a[j] == b[kb];
            assert(min_hash_at(a, i) <= mix_token(a[ja], i));
        }
        if a.len() == 0 && b.len() > 0 {
            assert(b.to_set().contains(b[0]));
        }
        if b.len() == 0 && a.len() > 0 {
            assert(a.to_set().contains(a[0]));
        }
    }
    assert(spec_minhash(a) =~= spec_minhash(b));
    if a.len() == 0 {
        assert forall|i: int| 0 <= i < 64 implies min_hash_at(a, i) == u64::MAX by {
            lemma_min_hash_at(a, i);
        }
        assert(spec_minhash(a) =~= Seq::new(64, |i: int| u64::MAX));
    }
}

/// Generate deterministic seeds for MinHash.
pub fn generate_seeds() -> (seeds: [u64; 64])
    ensures
        forall|i: int| 0 <= i < 64 ==> seeds@[i] == spec_seed(i),
{
    let mut seeds = [0u64; 64];
    let mut i: usize = 0;
    while i < MINHASH_SIZE
        invariant
            0 <= i <= 64,
            forall|j: int| 0 <= j < i ==> seeds@[j] == spec_seed(j),
        decreases 64 - i,
    {
        seeds[i] = ((i as u64).wrapping_mul(0x5851f42d4c957f2du64)).wrapping_add(0x14057b7ef767814fu64);
        i += 1;
    }
    seeds
}

/// Compute MinHash signature from a set of tokens (represented as hashes).
pub fn compute_minhash(tokens: &[u64]) -> (minhash: [u64; 64])
    ensures
        minhash@ == spec_minhash(tokens@),
{
    let mut minhash = [u64::MAX; 64];
    let seeds = generate_seeds();
    let mut t: usize = 0;
    assert(tokens@.take(0) =~= Seq::<u64>::empty());
    while t < tokens.len()
        invariant
            0 <= t <= tokens@.len(),
            forall|j: int| 0 <= j < 64 ==> seeds@[j] == spec_seed(j),
            forall|j: int| 0 <= j < 64 ==> minhash@[j] == min_hash_at(tokens@.take(t as int), j),
        decreases tokens@.len() - t,
    {
        let token = tokens[t];
        let ghost prev = tokens@.take(t as int);
        let ghost cur = tokens@.take(t + 1);
        assert(cur.drop_last() =~= prev);
        assert(cur.last() == token);
        assert forall|j: int| 0 <= j < 64 implies #[trigger] min_hash_at(cur, j) == (if mix_token(token, j) < min_hash_at(prev, j) { mix_token(token, j) } else { min_hash_at(prev, j) }) by {
            assert(cur.len() > 0);
        }
        let mut i: usize = 0;
        while i < MINHASH_SIZE
            invariant
                0 <= i <= 64,
                forall|j: int| 0 <= j < 64 ==> seeds@[j] == spec_seed(j),
                forall|j: int| 0 <= j < 64 ==> #[trigger] min_hash_at(cur, j) == (if mix_token(token, j) < min_hash_at(prev, j) { mix_token(token, j) } else { min_hash_at(prev, j) }),
                forall|j: int| 0 <= j < i ==> minhash@[j] == min_hash_at(cur, j),
                forall|j: int| i <= j < 64 ==> minhash@[j] == min_hash_at(prev, j),
            decreases 64 - i,
        {
            let h = (token ^ seeds[i]).wrapping_mul(MINHASH_MIX);
            assert(h == mix_token(token, i as int));
            if h < minhash[i] {
                minhash[i] = h;
            }
            assert(minhash@[i as int] == min_hash_at(cur, i as int));
            i += 1;
        }
        assert(tokens@.take(t + 1) == cur);
        t += 1;
    }
    assert(tokens@.take(t as int) =~= tokens@);
    assert(minhash@ =~= spec_minhash(tokens@));
    minhash
}

/// FNV-1a style fold of 64-bit values.
pub open spec fn band_fold(h: u64, s: Seq<u64>) -> u64
    decreases s.len(),
{
    if s.len() == 0 {
        h
    } else {
        band_fold((h ^ s[0]).wrapping_mul(FINGERPRINT_PRIME), s.drop_first())
    }
}

/// The bucket hash of one band of a MinHash signature.
pub open spec fn spec_hash_band(minhash: Seq<u64>, band: int) -> u64 {
    band_fold(KIND_SEED, minhash.subrange(8 * band, 8 * band + 8))
}

/// Hash a band of the MinHash signature for LSH bucketing.
pub fn hash_band(minhash: &[u64; 64], band_idx: usize) -> (h: u64)
    requires
        band_idx < 8,
    ensures
        h == spec_hash_band(minhash@, band_idx as int),
{
    let start = band_idx * 8;
    let end = start + 8;
    let ghost rows = minhash@.subrange(start as int, end as int);
    let mut h: u64 = KIND_SEED;
    let mut i = start;
    assert(minhash@.subrange(start as int, end as int).skip(0) =~= rows);
    while i < end
        invariant
            start <= i <= end,
            end == start + 8,
            end <= 64,
            rows == minhash@.subrange(start as int, end as int),
            band_fold(h, rows.skip(i - start)) == band_fold(KIND_SEED, rows),
        decreases end - i,
    {
        assert(rows.skip(i - start).drop_first() =~= rows.skip(i - start + 1));
        h ^= minhash[i];
        h = h.wrapping_mul(FINGERPRINT_PRIME);
        i += 1;
    }
    assert(rows.skip(i - start) =~= Seq::<u64>::empty());
    h
}

/// The number of positions below `k` on which two signatures agree.
pub open spec fn match_count(a: Seq<u64>, b: Seq<u64>, k: int) -> nat
    decreases k,
{
    if k <= 0 {
        0
    } else {
        match_count(a, b, k - 1) + if a[k - 1] == b[k - 1] { 1nat } else { 0nat }
    }
}

/// The number of MinHash positions on which two signatures agree.
pub open spec fn spec_matches(a: Seq<u64>, b: Seq<u64>) -> nat {
    match_count(a, b, 64)
}

/// Jaccard similarity estimated from MinHash signatures, as the number of
/// agreeing positions out of 64.
pub fn matching_positions(a: &[u64; 64], b: &[u64; 64]) -> (r: u32)
    ensures
        r == spec_matches(a@, b@),
        r <= 64,
{
    let mut count: u32 = 0;
    let mut i: usize = 0;
    while i < MINHASH_SIZE
        invariant
            0 <= i <= 64,
            count == match_count(a@, b@, i as int),
            count <= i,
        decreases 64 - i,
    {
        if a[i] == b[i] {
            count += 1;
        }
        i += 1;
    }
    count
}

/// The structural token of a node kind at a position: the kind's hash mixed
/// with the position binned by 3.
pub open spec fn spec_structure_token(kind: Seq<char>, pos: int) -> u64 {
    spec_hash_kind(kind) ^ ((pos / 3) as u64)
}

/// Extract structural tokens from a function for MinHash.
/// Tokens are hashes of (node_kind, relative_position) pairs.
pub fn extract_structure_tokens(node_kinds: &[&str]) -> (r: Vec<u64>)
    ensures
        r@.len() == node_kinds@.len(),
        forall|k: int| 0 <= k < r@.len() ==> r@[k] == spec_structure_token(node_kinds@[k]@, k),
{
    let mut out: Vec<u64> = Vec::new();
    let mut pos: usize = 0;
    while pos < node_kinds.len()
        invariant
            0 <= pos <= node_kinds@.len(),
            out@.len() == pos,
            forall|k: int| 0 <= k < pos ==> out@[k] == spec_structure_token(node_kinds@[k]@, k),
        decreases node_kinds@.len() - pos,
    {
        let h = hash_kind(node_kinds[pos]);
        out.push(h ^ ((pos / 3) as u64));
        pos += 1;
    }
    out
}


/// The bucket hash of a signature in one band.
pub open spec fn sig_band_hash(sig: FunctionSignature, band: int) -> u64 {
    spec_hash_band(sig.minhash@, band)
}

/// One band's buckets index the first `n` signatures by their band hash:
/// every bucket holds only indices below `n` with that hash, and every such
/// index is in the bucket of its hash.
pub open spec fn band_ok(m: Map<u64, Vec<usize>>, sigs: Seq<FunctionSignature>, band: int, n: int) -> bool {
    &&& forall|h: u64, k: int|
        #![trigger m[h]@[k]]
        m.contains_key(h) && 0 <= k < m[h]@.len() ==> m[h]@[k] < n && sig_band_hash(sigs[m[h]@[k] as int], band) == h
    &&& forall|x: int|
        #![trigger sigs[x]]
        0 <= x < n ==> m.contains_key(sig_band_hash(sigs[x], band)) && m[sig_band_hash(sigs[x], band)]@.contains(x as usize)
}

/// Cross-file duplicate index.
pub struct DuplicateIndex {
    /// All function signatures.
    signatures: Vec<FunctionSignature>,
    /// LSH buckets: band_idx -> bucket_hash -> signature indices.
    bands: Vec<HashMap<u64, Vec<usize>>>,
    /// Least number of agreeing MinHash positions (0..=64) that counts as similar.
    min_matches: u32,
}

impl DuplicateIndex {
    /// The signatures indexed so far, in the order added.
    pub closed spec fn sigs(&self) -> Seq<FunctionSignature> {
        self.signatures@
    }

    /// The similarity threshold, in agreeing MinHash positions.
    pub closed spec fn threshold(&self) -> u32 {
        self.min_matches
    }

    /// The buckets of every band index every signature.
    pub closed spec fn wf(&self) -> bool {
        &&& self.bands@.len() == 8
        &&& self.min_matches <= 64
        &&& forall|b: int| 0 <= b < 8 ==> band_ok(#[trigger] self.bands@[b]@, self.signatures@, b, self.signatures@.len() as int)
    }

    /// Create a new index with the given similarity threshold, counted in
    /// agreeing MinHash positions and clamped to at most 64.
    pub fn new(min_matches: u32) -> (r: Self)
        ensures
            r.wf(),
            r.sigs() == Seq::<FunctionSignature>::empty(),
            r.threshold() == (if min_matches > 64 { 64 } else { min_matches }),
    {
        let mut bands: Vec<HashMap<u64, Vec<usize>>> = Vec::new();
        let mut b: usize = 0;
        while b < LSH_BANDS
            invariant
                0 <= b <= 8,
                bands@.len() == b,
                forall|j: int| 0 <= j < b ==> #[trigger] bands@[j]@ == Map::<u64, Vec<usize>>::empty(),
            decreases 8 - b,
        {
            bands.push(HashMap::new());
            b += 1;
        }
        let r = DuplicateIndex {
            signatures: Vec::new(),
            bands,
            min_matches: if min_matches > 64 { 64 } else { min_matches },
        };
        assert forall|j: int| 0 <= j < 8 implies band_ok(#[trigger] r.bands@[j]@, r.signatures@, j, 0) by {
            assert(r.bands@[j]@ == Map::<u64, Vec<usize>>::empty());
        }
        r
    }

    /// Add a function signature to the index.
    pub fn add(&mut self, location: FunctionLocation, fingerprint: u64, structure_tokens: &[u64])
        requires
            old(self).wf(),
            old(self).sigs().len() < usize::MAX,
        ensures
            final(self).wf(),
            final(self).threshold() == old(self).threshold(),
            final(self).sigs().len() == old(self).sigs().len() + 1,
            final(self).sigs().drop_last() == old(self).sigs(),
            final(self).sigs().last().location == location,
            final(self).sigs().last().fingerprint == fingerprint,
            final(self).sigs().last().minhash@ == spec_minhash(structure_tokens@),
    {
        let minhash = compute_minhash(structure_tokens);
        let sig_idx = self.signatures.len();
        let ghost old_sigs = self.signatures@;
        self.signatures.push(FunctionSignature { location, fingerprint, minhash });
        let ghost sigs = self.signatures@;
        assert(sigs.drop_last() =~= old_sigs);
        assert forall|b: int| 0 <= b < 8 implies band_ok(#[trigger] self.bands@[b]@, sigs, b, sig_idx as int) by {
            let m = self.bands@[b]@;
            assert(band_ok(m, old_sigs, b, sig_idx as int));
            assert forall|x: int| #![trigger sigs[x]] 0 <= x < sig_idx implies m.contains_key(sig_band_hash(sigs[x], b)) && m[sig_band_hash(sigs[x], b)]@.contains(x as usize) by {
                assert(sigs[x] == old_sigs[x]);
            }
            assert forall|h: u64, k: int| #![trigger m[h]@[k]] m.contains_key(h) && 0 <= k < m[h]@.len() implies m[h]@[k] < sig_idx && sig_band_hash(sigs[m[h]@[k] as int], b) == h by {
                assert(sigs[m[h]@[k] as int] == old_sigs[m[h]@[k] as int]);
            }
        }
        let mut b: usize = 0;
        while b < LSH_BANDS
            invariant
                0 <= b <= 8,
                self.bands@.len() == 8,
                self.signatures@ == sigs,
                sigs.len() == sig_idx + 1,
                sigs[sig_idx as int].minhash == minhash,
                self.min_matches <= 64,
                self.min_matches == old(self).min_matches,
                forall|j: int| 0 <= j < b ==> band_ok(#[trigger] self.bands@[j]@, sigs, j, sig_idx + 1),
                forall|j: int| b <= j < 8 ==> band_ok(#[trigger] self.bands@[j]@, sigs, j, sig_idx as int),
            decreases 8 - b,
        {
            let h = hash_band(&minhash, b);
            let mut band: HashMap<u64, Vec<usize>> = HashMap::new();
            self.bands.set_and_swap(b, &mut band);
            let ghost m0 = band@;
            assert(band_ok(m0, sigs, b as int, sig_idx as int));
            let mut bucket = match band.remove(&h) {
                Some(v) => v,
                None => Vec::new(),
            };
            let ghost old_bucket = bucket@;
            assert(m0.contains_key(h) ==> old_bucket == m0[h]@);
            assert(!m0.contains_key(h) ==> old_bucket == Seq::<usize>::empty());
            bucket.push(sig_idx);
            band.insert(h, bucket);
            let ghost m1 = band@;
            assert(m1 == m0.insert(h, bucket)) by {
                assert(m1 =~= m0.insert(h, bucket));
            }
            assert(band_ok(m1, sigs, b as int, sig_idx + 1)) by {
                assert forall|hh: u64, k: int| #![trigger m1[hh]@[k]] m1.contains_key(hh) && 0 <= k < m1[hh]@.len() implies m1[hh]@[k] < sig_idx + 1 && sig_band_hash(sigs[m1[hh]@[k] as int], b as int) == hh by {
                    if hh == h {
                        if k < old_bucket.len() {
                            assert(m1[hh]@[k] == old_bucket[k]);
                            assert(m0[hh]@[k] == old_bucket[k]);
                        } else {
                            assert(m1[hh]@[k] == sig_idx);
                        }
                    } else {
                        assert(m1[hh] == m0[hh]);
                        assert(m0[hh]@[k] == m1[hh]@[k]);
                    }
                }
                assert forall|x: int| #![trigger sigs[x]] 0 <= x < sig_idx + 1 implies m1.contains_key(sig_band_hash(sigs[x], b as int)) && m1[sig_band_hash(sigs[x], b as int)]@.contains(x as usize) by {
                    let hx = sig_band_hash(sigs[x], b as int);
                    if x == sig_idx {
                        assert(m1[h]@.last() == sig_idx);
                        assert(m1[h]@[m1[h]@.len() - 1] == sig_idx);
                    } else if hx == h {
                        let k = choose|k: int| 0 <= k < m0[h]@.len() && m0[h]@[k] == x as usize;
                        assert(m1[h]@[k] == x as usize);
                    } else {
                        assert(m1[hx] == m0[hx]);
                    }
                }
            }
            self.bands.set_and_swap(b, &mut band);
            b += 1;
        }
    }

    /// Get number of indexed functions.
    pub fn len(&self) -> (r: usize)
        ensures
            r == self.sigs().len(),
    {
        self.signatures.len()
    }

    /// Check if index is empty.
    pub fn is_empty(&self) -> (r: bool)
        ensures
            r == (self.sigs().len() == 0),
    {
        self.signatures.len() == 0
    }
}


/// `s` lists, in increasing order, exactly the indices below `n` that satisfy `p`.
pub open spec fn lists_exactly(s: Seq<usize>, p: spec_fn(int) -> bool, n: int) -> bool {
    &&& forall|a: int, b: int| 0 <= a < b < s.len() ==> s[a] < s[b]
    &&& forall|k: int| 0 <= k < s.len() ==> s[k] < n && p(s[k] as int)
    &&& forall|x: usize| x < n && p(x as int) ==> #[trigger] s.contains(x)
}

/// Signature `i` is the first of at least two with its fingerprint.
pub open spec fn exact_head(sigs: Seq<FunctionSignature>, i: int) -> bool {
    &&& 0 <= i < sigs.len()
    &&& forall|j: int| 0 <= j < i ==> sigs[j].fingerprint != sigs[i].fingerprint
    &&& exists|j: int| i < j < sigs.len() && sigs[j].fingerprint == sigs[i].fingerprint
}

/// The exact-duplicate groups of a signature sequence, by index: the heads in
/// increasing order, each with all signatures that share its fingerprint.
pub open spec fn exact_groups_ok(sigs: Seq<FunctionSignature>, heads: Seq<usize>, members: Seq<Seq<usize>>) -> bool {
    &&& heads.len() == members.len()
    &&& lists_exactly(heads, |i: int| exact_head(sigs, i), sigs.len() as int)
    &&& forall|k: int| 0 <= k < heads.len() ==> lists_exactly(#[trigger] members[k], |x: int| sigs[x].fingerprint == sigs[heads[k] as int].fingerprint, sigs.len() as int)
}

pub open spec fn seqs_of(v: Seq<Vec<usize>>) -> Seq<Seq<usize>> {
    v.map_values(|e: Vec<usize>| e@)
}

/// A sequence that lists distinct values and holds two of them has at least two entries.
proof fn lemma_two_members(s: Seq<usize>, a: usize, b: usize)
    requires
        s.contains(a),
        s.contains(b),
        a != b,
    ensures
        s.len() >= 2,
{
    let i = choose|i: int| 0 <= i < s.len() && s[i] == a;
    let j = choose|j: int| 0 <= j < s.len() && s[j] == b;
    assert(i != j);
}

impl DuplicateIndex {
    /// Groups the signatures by fingerprint, in order of first occurrence,
    /// keeping the groups of at least two.
    fn exact_groups(&self) -> (r: (Vec<usize>, Vec<Vec<usize>>))
        requires
            self.wf(),
        ensures
            exact_groups_ok(self.sigs(), r.0@, seqs_of(r.1@)),
    {
        let n = self.signatures.len();
        let ghost sigs = self.signatures@;
        let mut slot_of: HashMap<u64, usize> = HashMap::new();
        let mut heads: Vec<usize> = Vec::new();
        let mut members: Vec<Vec<usize>> = Vec::new();
        let mut i: usize = 0;
        while i < n
            invariant
                n == sigs.len(),
                sigs == self.signatures@,
                0 <= i <= n,
                heads@.len() == members@.len(),
                forall|a: int, b: int| 0 <= a < b < heads@.len() ==> heads@[a] < heads@[b],
                forall|t: int| 0 <= t < heads@.len() ==> #[trigger] heads@[t] < i
                    && (forall|j: int| #![trigger sigs[j]] 0 <= j < heads@[t] ==> sigs[j].fingerprint != sigs[heads@[t] as int].fingerprint),
                forall|t: int| 0 <= t < heads@.len() ==> lists_exactly(#[trigger] members@[t]@, |x: int| sigs[x].fingerprint == sigs[heads@[t] as int].fingerprint, i as int),
                forall|t: int| 0 <= t < heads@.len() ==> slot_of@.contains_key(sigs[#[trigger] heads@[t] as int].fingerprint) && slot_of@[sigs[heads@[t] as int].fingerprint] == t,
                forall|key: u64| #[trigger] slot_of@.contains_key(key) ==> slot_of@[key] < heads@.len() && sigs[heads@[slot_of@[key] as int] as int].fingerprint == key,
                forall|x: int| 0 <= x < i ==> slot_of@.contains_key(#[trigger] sigs[x].fingerprint),
            decreases n - i,
        {
            let fp = self.signatures[i].fingerprint;
            let found = match slot_of.get(&fp) {
                Some(t) => Some(*t),
                None => None,
            };
            match found {
                Some(t) => {
                    let ghost before = members@;
                    let mut tmp: Vec<usize> = Vec::new();
                    members.set_and_swap(t, &mut tmp);
                    let ghost old_list = tmp@;
                    tmp.push(i);
                    members.set_and_swap(t, &mut tmp);
                    assert forall|u: int| 0 <= u < heads@.len() implies lists_exactly(#[trigger] members@[u]@, |x: int| sigs[x].fingerprint == sigs[heads@[u] as int].fingerprint, i + 1) by {
                        if u == t {
                            assert(members@[u]@ == old_list.push(i));
                            assert forall|x: int| #![trigger sigs[x]] 0 <= x < i + 1 && sigs[x].fingerprint == sigs[heads@[u] as int].fingerprint implies members@[u]@.contains(x as usize) by {
                                if x < i {
                                    assert(old_list.contains(x as usize));
                                    let k = choose|k: int| 0 <= k < old_list.len() && old_list[k] == x as usize;
                                    assert(members@[u]@[k] == x as usize);
                                } else {
                                    assert(members@[u]@[old_list.len() as int] == i);
                                }
                            }
                        } else {
                            assert(members@[u] == before[u]);
                        }
                    }
                },
                None => {
                    let ghost before = members@;
                    slot_of.insert(fp, heads.len());
                    heads.push(i);
                    let mut fresh: Vec<usize> = Vec::new();
                    fresh.push(i);
                    members.push(fresh);
                    assert forall|u: int| 0 <= u < heads@.len() implies lists_exactly(#[trigger] members@[u]@, |x: int| sigs[x].fingerprint == sigs[heads@[u] as int].fingerprint, i + 1) by {
                        if u < heads@.len() - 1 {
                            assert(members@[u] == before[u]);
                            assert(sigs[heads@[u] as int].fingerprint != fp);
                        } else {
                            assert(members@[u]@ =~= seq![i]);
                            assert forall|x: int| #![trigger sigs[x]] 0 <= x < i + 1 && sigs[x].fingerprint == sigs[heads@[u] as int].fingerprint implies members@[u]@.contains(x as usize) by {
                                if x < i {
                                    assert(slot_of@.contains_key(sigs[x].fingerprint));
                                }
                                assert(members@[u]@[0] == i);
                            }
                        }
                    }
                },
            }
            i += 1;
        }
        // Keep the groups of at least two, in order.
        let mut out_heads: Vec<usize> = Vec::new();
        let mut out_members: Vec<Vec<usize>> = Vec::new();
        let ghost all_heads = heads@;
        let ghost all_members = members@;
        let mut t: usize = 0;
        while t < heads.len()
            invariant
                heads@ == all_heads,
                0 <= t <= all_heads.len(),
                members@.len() == all_heads.len(),
                forall|u: int| t <= u < all_heads.len() ==> members@[u] == all_members[u],
                out_heads@.len() == out_members@.len(),
                forall|a: int, b: int| 0 <= a < b < out_heads@.len() ==> out_heads@[a] < out_heads@[b],
                forall|k: int| 0 <= k < out_heads@.len() ==> exact_head(sigs, #[trigger] out_heads@[k] as int) && out_heads@[k] < n,
                forall|k: int| 0 <= k < out_heads@.len() ==> lists_exactly(#[trigger] out_members@[k]@, |x: int| sigs[x].fingerprint == sigs[out_heads@[k] as int].fingerprint, n as int),
                forall|k: int| 0 <= k < out_heads@.len() ==> exists|u: int| 0 <= u < t && all_heads[u] == #[trigger] out_heads@[k],
                forall|u: int| 0 <= u < t && exact_head(sigs, all_heads[u] as int) ==> out_heads@.contains(#[trigger] all_heads[u]),
                // facts from the first loop
                n == sigs.len(),
                forall|a: int, b: int| 0 <= a < b < all_heads.len() ==> all_heads[a] < all_heads[b],
                forall|u: int| 0 <= u < all_heads.len() ==> #[trigger] all_heads[u] < n
                    && (forall|j: int| #![trigger sigs[j]] 0 <= j < all_heads[u] ==> sigs[j].fingerprint != sigs[all_heads[u] as int].fingerprint),
                forall|u: int| 0 <= u < all_heads.len() ==> lists_exactly(#[trigger] all_members[u]@, |x: int| sigs[x].fingerprint == sigs[all_heads[u] as int].fingerprint, n as int),
            decreases all_heads.len() - t,
        {
            let h = heads[t];
            assert(lists_exactly(all_members[t as int]@, |x: int| sigs[x].fingerprint == sigs[h as int].fingerprint, n as int));
            assert(all_members[t as int]@.contains(h)) by {
                assert(sigs[h as int].fingerprint == sigs[h as int].fingerprint);
            }
            if members[t].len() >= 2 {
                let mut tmp: Vec<usize> = Vec::new();
                members.set_and_swap(t, &mut tmp);
                assert(tmp@ == all_members[t as int]@);
                assert(exact_head(sigs, h as int)) by {
                    let k0 = choose|k: int| 0 <= k < tmp@.len() && tmp@[k] == h;
                    let k1: int = if k0 == 0 { 1 } else { 0 };
                    let x = tmp@[k1] as int;
                    assert(sigs[x].fingerprint == sigs[h as int].fingerprint);
                    if x < h {
                    } else if x == h {
                        assert(k0 < k1 ==> tmp@[k0] < tmp@[k1]);
                        assert(k1 < k0 ==> tmp@[k1] < tmp@[k0]);
                    }
                }
                let ghost prev_heads = out_heads@;
                out_heads.push(h);
                out_members.push(tmp);
                assert forall|k: int| 0 <= k < out_heads@.len() implies exists|u: int| 0 <= u < t + 1 && all_heads[u] == #[trigger] out_heads@[k] by {
                    if k < prev_heads.len() {
                        assert(out_heads@[k] == prev_heads[k]);
                    } else {
                        assert(all_heads[t as int] == out_heads@[k]);
                    }
                }
                assert forall|a: int, b: int| 0 <= a < b < out_heads@.len() implies out_heads@[a] < out_heads@[b] by {
                    if b == out_heads@.len() - 1 {
                        let u = choose|u: int| 0 <= u < t && all_heads[u] == #[trigger] prev_heads[a];
                        assert(out_heads@[a] == prev_heads[a]);
                    }
                }
                assert forall|u: int| 0 <= u < t + 1 && exact_head(sigs, all_heads[u] as int) implies out_heads@.contains(#[trigger] all_heads[u]) by {
                    if u < t {
                        let k = choose|k: int| 0 <= k < prev_heads.len() && prev_heads[k] == all_heads[u];
                        assert(out_heads@[k] == all_heads[u]);
                    } else {
                        assert(out_heads@[out_heads@.len() - 1] == all_heads[u]);
                    }
                }
            } else {
                assert(!exact_head(sigs, h as int)) by {
                    if exact_head(sigs, h as int) {
                        let j = choose|j: int| h < j < sigs.len() && sigs[j].fingerprint == sigs[h as int].fingerprint;
                        assert(all_members[t as int]@.contains(j as usize));
                        lemma_two_members(all_members[t as int]@, h, j as usize);
                    }
                }
            }
            t += 1;
        }
        proof {
            assert forall|x: int| 0 <= x < n && #[trigger] exact_head(sigs, x) implies out_heads@.contains(x as usize) by {
                let t0 = slot_of@[sigs[x].fingerprint];
                let hh = all_heads[t0 as int];
                assert(sigs[hh as int].fingerprint == sigs[x].fingerprint);
                if (hh as int) < x {
                } else if x < hh {
                }
                assert(hh == x as usize);
            }
            assert(seqs_of(out_members@).len() == out_heads@.len());
            assert forall|k: int| 0 <= k < out_heads@.len() implies lists_exactly(#[trigger] seqs_of(out_members@)[k], |x: int| sigs[x].fingerprint == sigs[out_heads@[k] as int].fingerprint, sigs.len() as int) by {
                assert(seqs_of(out_members@)[k] == out_members@[k]@);
            }
        }
        (out_heads, out_members)
    }
}


// ---------------------------------------------------------------------------
// Similarity groups: the specification.
// ---------------------------------------------------------------------------

/// Two signatures fall into the same bucket of some band.
pub open spec fn shares_band(sigs: Seq<FunctionSignature>, x: int, y: int) -> bool {
    exists|b: int| 0 <= b < 8 && #[trigger] sig_band_hash(sigs[x], b) == sig_band_hash(sigs[y], b)
}

/// Two signatures are candidates of the same band and agree on at least
/// `t` MinHash positions.
pub open spec fn related(sigs: Seq<FunctionSignature>, t: u32, x: int, y: int) -> bool {
    shares_band(sigs, x, y) && spec_matches(sigs[x].minhash@, sigs[y].minhash@) >= t
}

/// Two distinct indexed signatures are similar.
pub open spec fn adjacent(sigs: Seq<FunctionSignature>, t: u32, x: int, y: int) -> bool {
    0 <= x < sigs.len() && 0 <= y < sigs.len() && x != y && related(sigs, t, x, y)
}

/// A similar pair in index order.
pub open spec fn pair_edge(sigs: Seq<FunctionSignature>, t: u32, i: int, j: int) -> bool {
    i < j && adjacent(sigs, t, i, j)
}

/// `p` walks from signature to similar signature.
pub open spec fn is_path(sigs: Seq<FunctionSignature>, t: u32, p: Seq<int>) -> bool {
    &&& p.len() >= 1
    &&& 0 <= p[0] < sigs.len()
    &&& forall|k: int| 0 <= k < p.len() - 1 ==> #[trigger] adjacent(sigs, t, p[k], p[k + 1])
}

/// Two signatures are connected by a chain of similar pairs.
pub open spec fn linked(sigs: Seq<FunctionSignature>, t: u32, x: int, y: int) -> bool {
    exists|p: Seq<int>| #[trigger] is_path(sigs, t, p) && p[0] == x && p.last() == y
}

/// Signature `c` is the first of a connected group of at least two.
pub open spec fn similar_head(sigs: Seq<FunctionSignature>, t: u32, c: int) -> bool {
    &&& 0 <= c < sigs.len()
    &&& exists|y: int| y != c && #[trigger] linked(sigs, t, y, c)
    &&& forall|y: int| #[trigger] linked(sigs, t, y, c) ==> c <= y
}

/// `y` is the least-indexed signature similar to `m`.
pub open spec fn least_neighbor(sigs: Seq<FunctionSignature>, t: u32, m: int, y: int) -> bool {
    &&& adjacent(sigs, t, m, y)
    &&& forall|z: int| #[trigger] adjacent(sigs, t, m, z) ==> y <= z
}

/// The agreement recorded for a member of the group headed by `c`: all 64
/// positions for the head, otherwise the agreement of the first similar pair,
/// in index order, that holds the member, that is, its agreement with the
/// least-indexed signature similar to it.
pub open spec fn member_matches(sigs: Seq<FunctionSignature>, t: u32, c: int, m: int) -> nat {
    if m == c {
        64
    } else {
        let y = choose|y: int| least_neighbor(sigs, t, m, y);
        spec_matches(sigs[m].minhash@, sigs[y].minhash@)
    }
}

pub open spec fn firsts(s: Seq<(usize, u32)>) -> Seq<usize> {
    s.map_values(|e: (usize, u32)| e.0)
}

/// The similarity groups, by index: the heads in increasing order, each with
/// all signatures connected to it, in increasing order, and their agreement.
pub open spec fn similar_groups_ok(sigs: Seq<FunctionSignature>, t: u32, heads: Seq<usize>, members: Seq<Seq<(usize, u32)>>) -> bool {
    &&& heads.len() == members.len()
    &&& lists_exactly(heads, |c: int| similar_head(sigs, t, c), sigs.len() as int)
    &&& forall|k: int| 0 <= k < heads.len() ==> lists_exactly(firsts(#[trigger] members[k]), |x: int| linked(sigs, t, x, heads[k] as int), sigs.len() as int)
    &&& forall|k: int, q: int| 0 <= k < heads.len() && 0 <= q < members[k].len() ==> #[trigger] members[k][q].1 == member_matches(sigs, t, heads[k] as int, members[k][q].0 as int)
}

// ---------------------------------------------------------------------------
// Similarity groups: facts about paths.
// ---------------------------------------------------------------------------

pub proof fn lemma_match_count_symmetric(a: Seq<u64>, b: Seq<u64>, k: int)
    ensures
        match_count(a, b, k) == match_count(b, a, k),
    decreases k,
{
    if k > 0 {
        lemma_match_count_symmetric(a, b, k - 1);
    }
}

/// Similarity is symmetric.
pub proof fn lemma_adjacent_symmetric(sigs: Seq<FunctionSignature>, t: u32, x: int, y: int)
    requires
        adjacent(sigs, t, x, y),
    ensures
        adjacent(sigs, t, y, x),
{
    lemma_match_count_symmetric(sigs[x].minhash@, sigs[y].minhash@, 64);
    let b = choose|b: int| 0 <= b < 8 && #[trigger] sig_band_hash(sigs[x], b) == sig_band_hash(sigs[y], b);
    assert(sig_band_hash(sigs[y], b) == sig_band_hash(sigs[x], b));
}

pub proof fn lemma_linked_refl(sigs: Seq<FunctionSignature>, t: u32, x: int)
    requires
        0 <= x < sigs.len(),
    ensures
        linked(sigs, t, x, x),
{
    let p = seq![x];
    assert(is_path(sigs, t, p));
}

/// A chain extends backwards by a similar pair.
pub proof fn lemma_linked_prepend(sigs: Seq<FunctionSignature>, t: u32, z: int, x: int, y: int)
    requires
        adjacent(sigs, t, z, x),
        linked(sigs, t, x, y),
    ensures
        linked(sigs, t, z, y),
{
    let p = choose|p: Seq<int>| #[trigger] is_path(sigs, t, p) && p[0] == x && p.last() == y;
    let q = seq![z] + p;
    assert forall|k: int| 0 <= k < q.len() - 1 implies #[trigger] adjacent(sigs, t, q[k], q[k + 1]) by {
        if k == 0 {
            assert(q[0] == z && q[1] == x);
        } else {
            let j = k - 1;
            assert(q[k] == p[j] && q[k + 1] == p[j + 1]);
            assert(adjacent(sigs, t, p[j], p[j + 1]));
        }
    }
    assert(is_path(sigs, t, q));
    assert(q.last() == y);
}

/// Chains run both ways.
pub proof fn lemma_linked_symmetric(sigs: Seq<FunctionSignature>, t: u32, x: int, y: int)
    requires
        linked(sigs, t, x, y),
    ensures
        linked(sigs, t, y, x),
{
    let p = choose|p: Seq<int>| #[trigger] is_path(sigs, t, p) && p[0] == x && p.last() == y;
    lemma_path_reverse(sigs, t, p);
    let r = p.reverse();
    assert(r[0] == y);
    assert(r.last() == x);
}

proof fn lemma_path_reverse(sigs: Seq<FunctionSignature>, t: u32, p: Seq<int>)
    requires
        is_path(sigs, t, p),
    ensures
        is_path(sigs, t, p.reverse()),
        p.reverse().len() == p.len(),
        p.reverse()[0] == p.last(),
        p.reverse().last() == p[0],
{
    let r = p.reverse();
    assert forall|k: int| 0 <= k < r.len() - 1 implies #[trigger] adjacent(sigs, t, r[k], r[k + 1]) by {
        let j = p.len() - 2 - k;
        assert(r[k] == p[j + 1]);
        assert(r[k + 1] == p[j]);
        assert(adjacent(sigs, t, p[j], p[j + 1]));
        lemma_adjacent_symmetric(sigs, t, p[j], p[j + 1]);
    }
    if p.len() == 1 {
        assert(r[0] == p[0]);
    } else {
        let j = p.len() - 2;
        assert(adjacent(sigs, t, p[j], p[j + 1]));
    }
}

/// A chain between two distinct signatures starts with a similar pair.
proof fn lemma_linked_first_step(sigs: Seq<FunctionSignature>, t: u32, x: int, y: int) -> (z: int)
    requires
        linked(sigs, t, x, y),
        x != y,
    ensures
        adjacent(sigs, t, x, z),
{
    let p = choose|p: Seq<int>| #[trigger] is_path(sigs, t, p) && p[0] == x && p.last() == y;
    assert(p.len() >= 2);
    let j: int = 0;
    assert(adjacent(sigs, t, p[j], p[j + 1]));
    p[1]
}

/// Labels that agree across every similar pair agree along every chain.
proof fn lemma_labels_constant_on_chains(sigs: Seq<FunctionSignature>, t: u32, label: Seq<usize>, x: int, y: int)
    requires
        label.len() == sigs.len(),
        forall|a: int, b: int| #[trigger] adjacent(sigs, t, a, b) ==> label[a] == label[b],
        linked(sigs, t, x, y),
    ensures
        label[x] == label[y],
{
    let p = choose|p: Seq<int>| #[trigger] is_path(sigs, t, p) && p[0] == x && p.last() == y;
    lemma_path_labels(sigs, t, label, p, p.len() - 1);
}

proof fn lemma_path_labels(sigs: Seq<FunctionSignature>, t: u32, label: Seq<usize>, p: Seq<int>, k: int)
    requires
        label.len() == sigs.len(),
        forall|a: int, b: int| #[trigger] adjacent(sigs, t, a, b) ==> label[a] == label[b],
        is_path(sigs, t, p),
        0 <= k < p.len(),
    ensures
        label[p[0]] == label[p[k]],
    decreases k,
{
    if k > 0 {
        lemma_path_labels(sigs, t, label, p, k - 1);
        let j = k - 1;
        assert(adjacent(sigs, t, p[j], p[j + 1]));
    }
}

/// Chains compose.
proof fn lemma_linked_trans(sigs: Seq<FunctionSignature>, t: u32, x: int, y: int, z: int)
    requires
        linked(sigs, t, x, y),
        linked(sigs, t, y, z),
    ensures
        linked(sigs, t, x, z),
{
    let p = choose|p: Seq<int>| #[trigger] is_path(sigs, t, p) && p[0] == x && p.last() == y;
    let q = choose|q: Seq<int>| #[trigger] is_path(sigs, t, q) && q[0] == y && q.last() == z;
    let r = p + q.drop_first();
    assert forall|k: int| 0 <= k < r.len() - 1 implies #[trigger] adjacent(sigs, t, r[k], r[k + 1]) by {
        if k < p.len() - 1 {
            assert(r[k] == p[k] && r[k + 1] == p[k + 1]);
        } else if k == p.len() - 1 {
            let j: int = 0;
            assert(r[k] == q[j] && r[k + 1] == q[j + 1]);
        } else {
            let j = k - p.len() + 1;
            assert(r[k] == q[j] && r[k + 1] == q[j + 1]);
        }
    }
    if q.len() == 1 {
        assert(r =~= p);
    } else {
        assert(r.last() == q.last());
    }
    assert(is_path(sigs, t, r));
}

/// `label` names, for every signature, the least index of its connected group.
pub open spec fn labels_ok(sigs: Seq<FunctionSignature>, t: u32, label: Seq<usize>) -> bool {
    &&& label.len() == sigs.len()
    &&& forall|x: int| 0 <= x < sigs.len() ==> #[trigger] label[x] <= x && linked(sigs, t, x, label[x] as int)
    &&& forall|a: int, b: int| #[trigger] adjacent(sigs, t, a, b) ==> label[a] == label[b]
}

/// Under such labels, two signatures are connected exactly when their labels agree.
proof fn lemma_labels_partition(sigs: Seq<FunctionSignature>, t: u32, label: Seq<usize>, x: int, y: int)
    requires
        labels_ok(sigs, t, label),
        0 <= x < sigs.len(),
        0 <= y < sigs.len(),
    ensures
        linked(sigs, t, x, y) <==> label[x] == label[y],
        label[label[x] as int] == label[x],
{
    assert(label[x] <= x && linked(sigs, t, x, label[x] as int));
    assert(label[y] <= y && linked(sigs, t, y, label[y] as int));
    lemma_labels_constant_on_chains(sigs, t, label, x, label[x] as int);
    if linked(sigs, t, x, y) {
        lemma_labels_constant_on_chains(sigs, t, label, x, y);
    }
    if label[x] == label[y] {
        lemma_linked_symmetric(sigs, t, y, label[y] as int);
        lemma_linked_trans(sigs, t, x, label[x] as int, y);
    }
}

/// The head of a group is the signature that is its own label, with another
/// signature carrying that label.
proof fn lemma_head_by_labels(sigs: Seq<FunctionSignature>, t: u32, label: Seq<usize>, c: int)
    requires
        labels_ok(sigs, t, label),
        0 <= c < sigs.len(),
    ensures
        similar_head(sigs, t, c) <==> (label[c] == c && exists|y: int| 0 <= y < sigs.len() && y != c && label[y] == c),
{
    assert(label[c] <= c && linked(sigs, t, c, label[c] as int));
    if similar_head(sigs, t, c) {
        let y = choose|y: int| y != c && #[trigger] linked(sigs, t, y, c);
        lemma_linked_symmetric(sigs, t, c, label[c] as int);
        assert(linked(sigs, t, label[c] as int, c));
        assert(c <= label[c]);
        lemma_linked_in_range(sigs, t, y, c);
        lemma_labels_partition(sigs, t, label, y, c);
    }
    if label[c] == c && exists|y: int| 0 <= y < sigs.len() && y != c && label[y] == c {
        let y = choose|y: int| 0 <= y < sigs.len() && y != c && label[y] == c;
        lemma_labels_partition(sigs, t, label, y, c);
        assert forall|z: int| #[trigger] linked(sigs, t, z, c) implies c <= z by {
            lemma_linked_in_range(sigs, t, z, c);
            lemma_labels_partition(sigs, t, label, z, c);
            assert(label[z] <= z);
        }
    }
}

/// Chains stay among the indexed signatures.
proof fn lemma_linked_in_range(sigs: Seq<FunctionSignature>, t: u32, x: int, y: int)
    requires
        linked(sigs, t, x, y),
    ensures
        0 <= x < sigs.len(),
        0 <= y < sigs.len(),
{
    let p = choose|p: Seq<int>| #[trigger] is_path(sigs, t, p) && p[0] == x && p.last() == y;
    if p.len() > 1 {
        let j = p.len() - 2;
        assert(adjacent(sigs, t, p[j], p[j + 1]));
    }
}

/// Sum of a sequence of indices.
pub open spec fn total(s: Seq<usize>) -> nat
    decreases s.len(),
{
    if s.len() == 0 {
        0
    } else {
        total(s.drop_last()) + s.last() as nat
    }
}

proof fn lemma_total_update(s: Seq<usize>, i: int, v: usize)
    requires
        0 <= i < s.len(),
    ensures
        total(s.update(i, v)) == total(s) - s[i] + v,
    decreases s.len(),
{
    if i == s.len() - 1 {
        assert(s.update(i, v).drop_last() =~= s.drop_last());
    } else {
        lemma_total_update(s.drop_last(), i, v);
        assert(s.update(i, v).drop_last() =~= s.drop_last().update(i, v));
    }
}

/// The pairs are all similar pairs in index order, and every similar pair is among them.
pub open spec fn pairs_complete(sigs: Seq<FunctionSignature>, t: u32, edges: Seq<(usize, usize)>) -> bool {
    &&& forall|k: int| 0 <= k < edges.len() ==> pair_edge(sigs, t, #[trigger] edges[k].0 as int, edges[k].1 as int)
    &&& forall|i: int, j: int| #[trigger] pair_edge(sigs, t, i, j) ==> edges.contains((i as usize, j as usize))
}

/// Labels every signature with the least index of its connected group, by
/// relaxing the pairs until no label changes.
fn component_labels(n: usize, edges: &Vec<(usize, usize)>, Ghost(sigs): Ghost<Seq<FunctionSignature>>, Ghost(t): Ghost<u32>) -> (label: Vec<usize>)
    requires
        n == sigs.len(),
        pairs_complete(sigs, t, edges@),
    ensures
        labels_ok(sigs, t, label@),
{
    let mut label: Vec<usize> = Vec::new();
    let mut x: usize = 0;
    while x < n
        invariant
            0 <= x <= n,
            n == sigs.len(),
            label@.len() == x,
            forall|y: int| 0 <= y < x ==> #[trigger] label@[y] == y,
        decreases n - x,
    {
        label.push(x);
        x += 1;
    }
    assert forall|y: int| 0 <= y < n implies #[trigger] label@[y] <= y && linked(sigs, t, y, label@[y] as int) by {
        lemma_linked_refl(sigs, t, y);
    }
    let mut changed = true;
    while changed
        invariant
            n == sigs.len(),
            pairs_complete(sigs, t, edges@),
            label@.len() == n,
            forall|y: int| 0 <= y < n ==> #[trigger] label@[y] <= y && linked(sigs, t, y, label@[y] as int),
            !changed ==> forall|k: int| 0 <= k < edges@.len() ==> label@[#[trigger] edges@[k].0 as int] == label@[edges@[k].1 as int],
        decreases total(label@) + if changed { 1int } else { 0int },
    {
        changed = false;
        let ghost start = total(label@);
        let mut e: usize = 0;
        while e < edges.len()
            invariant
                n == sigs.len(),
                pairs_complete(sigs, t, edges@),
                0 <= e <= edges@.len(),
                label@.len() == n,
                forall|y: int| 0 <= y < n ==> #[trigger] label@[y] <= y && linked(sigs, t, y, label@[y] as int),
                total(label@) <= start,
                changed ==> total(label@) < start,
                !changed ==> forall|k: int| 0 <= k < e ==> label@[#[trigger] edges@[k].0 as int] == label@[edges@[k].1 as int],
            decreases edges@.len() - e,
        {
            let (a, b) = edges[e];
            assert(pair_edge(sigs, t, edges@[e as int].0 as int, edges@[e as int].1 as int));
            let la = label[a];
            let lb = label[b];
            if la != lb {
                let m = if la < lb { la } else { lb };
                proof {
                    assert(label@[a as int] <= a && linked(sigs, t, a as int, la as int));
                    assert(label@[b as int] <= b && linked(sigs, t, b as int, lb as int));
                    lemma_adjacent_symmetric(sigs, t, a as int, b as int);
                    lemma_linked_prepend(sigs, t, a as int, b as int, lb as int);
                    lemma_linked_prepend(sigs, t, b as int, a as int, la as int);
                    lemma_total_update(label@, a as int, m);
                    lemma_total_update(label@.update(a as int, m), b as int, m);
                }
                label.set(a, m);
                label.set(b, m);
                changed = true;
            }
            e += 1;
        }
    }
    assert forall|a: int, b: int| #[trigger] adjacent(sigs, t, a, b) implies label@[a] == label@[b] by {
        if a < b {
            assert(pair_edge(sigs, t, a, b));
            let k = choose|k: int| 0 <= k < edges@.len() && edges@[k] == (a as usize, b as usize);
            assert(label@[edges@[k].0 as int] == label@[edges@[k].1 as int]);
        } else {
            lemma_adjacent_symmetric(sigs, t, a, b);
            assert(pair_edge(sigs, t, b, a));
            let k = choose|k: int| 0 <= k < edges@.len() && edges@[k] == (b as usize, a as usize);
            assert(label@[edges@[k].0 as int] == label@[edges@[k].1 as int]);
        }
    }
    label
}

/// Record `y` as a neighbour of `x` when it is less than the one recorded.
fn note_neighbor(nbr: &mut Vec<Option<usize>>, x: usize, y: usize)
    requires
        x < old(nbr)@.len(),
    ensures
        final(nbr)@.len() == old(nbr)@.len(),
        forall|z: int| 0 <= z < old(nbr)@.len() && z != x ==> final(nbr)@[z] == old(nbr)@[z],
        final(nbr)@[x as int] is Some,
        final(nbr)@[x as int].unwrap() <= y,
        final(nbr)@[x as int] == old(nbr)@[x as int] || final(nbr)@[x as int] == Some(y),
        old(nbr)@[x as int] is Some ==> final(nbr)@[x as int].unwrap() <= old(nbr)@[x as int].unwrap(),
{
    let cur = nbr[x];
    match cur {
        Some(z) => {
            if y < z {
                nbr.set(x, Some(y));
            }
        },
        None => {
            nbr.set(x, Some(y));
        },
    }
}

/// What is known of the neighbours recorded for the listed pairs.
pub open spec fn neighbors_ok(sigs: Seq<FunctionSignature>, t: u32, edges: Seq<(usize, usize)>, nbr: Seq<Option<usize>>) -> bool {
    &&& nbr.len() == sigs.len()
    &&& forall|x: int| 0 <= x < sigs.len() && #[trigger] nbr[x] is Some ==> adjacent(sigs, t, x, nbr[x].unwrap() as int)
    &&& forall|k: int| 0 <= k < edges.len() ==> {
        &&& nbr[#[trigger] edges[k].0 as int] is Some
        &&& nbr[edges[k].0 as int].unwrap() <= edges[k].1
        &&& nbr[edges[k].1 as int] is Some
        &&& nbr[edges[k].1 as int].unwrap() <= edges[k].0
    }
}

impl DuplicateIndex {
    /// Every similar pair, in index order, found through the buckets, and for
    /// every signature its least-indexed similar signature.
    fn similar_pairs(&self) -> (r: (Vec<(usize, usize)>, Vec<Option<usize>>))
        requires
            self.wf(),
        ensures
            pairs_complete(self.sigs(), self.threshold(), r.0@),
            neighbors_ok(self.sigs(), self.threshold(), r.0@, r.1@),
    {
        let n = self.signatures.len();
        let t = self.min_matches;
        let ghost sigs = self.signatures@;
        let mut edges: Vec<(usize, usize)> = Vec::new();
        let mut nbr: Vec<Option<usize>> = Vec::new();
        let mut x: usize = 0;
        while x < n
            invariant
                0 <= x <= n,
                nbr@.len() == x,
                forall|y: int| 0 <= y < x ==> #[trigger] nbr@[y] is None,
            decreases n - x,
        {
            nbr.push(None);
            x += 1;
        }
        let mut i: usize = 0;
        while i < n
            invariant
                self.wf(),
                sigs == self.signatures@,
                n == sigs.len(),
                t == self.min_matches,
                0 <= i <= n,
                forall|k: int| 0 <= k < edges@.len() ==> pair_edge(sigs, t, #[trigger] edges@[k].0 as int, edges@[k].1 as int),
                forall|a: int, c: int| 0 <= a < i && #[trigger] pair_edge(sigs, t, a, c) ==> edges@.contains((a as usize, c as usize)),
                neighbors_ok(sigs, t, edges@, nbr@),
            decreases n - i,
        {
            let mut b: usize = 0;
            while b < LSH_BANDS
                invariant
                    self.wf(),
                    sigs == self.signatures@,
                    n == sigs.len(),
                    t == self.min_matches,
                    0 <= i < n,
                    0 <= b <= 8,
                    forall|k: int| 0 <= k < edges@.len() ==> pair_edge(sigs, t, #[trigger] edges@[k].0 as int, edges@[k].1 as int),
                    forall|a: int, c: int| 0 <= a < i && #[trigger] pair_edge(sigs, t, a, c) ==> edges@.contains((a as usize, c as usize)),
                    forall|bb: int, c: int| 0 <= bb < b && #[trigger] sig_band_hash(sigs[c], bb) == sig_band_hash(sigs[i as int], bb) && pair_edge(sigs, t, i as int, c) ==> edges@.contains((i, c as usize)),
                    neighbors_ok(sigs, t, edges@, nbr@),
                decreases 8 - b,
            {
                let h = hash_band(&self.signatures[i].minhash, b);
                assert(band_ok(self.bands@[b as int]@, sigs, b as int, n as int));
                let band = &self.bands[b];
                let found = band.get(&h);
                match found {
                    Some(bucket) => {
                        assert(bucket@ == band@[h]@);
                        let mut k: usize = 0;
                        while k < bucket.len()
                            invariant
                                self.wf(),
                                sigs == self.signatures@,
                                n == sigs.len(),
                                t == self.min_matches,
                                0 <= i < n,
                                0 <= b < 8,
                                h == sig_band_hash(sigs[i as int], b as int),
                                band_ok(band@, sigs, b as int, n as int),
                                band@.contains_key(h),
                                bucket@ == band@[h]@,
                                0 <= k <= bucket@.len(),
                                forall|q: int| 0 <= q < edges@.len() ==> pair_edge(sigs, t, #[trigger] edges@[q].0 as int, edges@[q].1 as int),
                                forall|a: int, c: int| 0 <= a < i && #[trigger] pair_edge(sigs, t, a, c) ==> edges@.contains((a as usize, c as usize)),
                                forall|bb: int, c: int| 0 <= bb < b && #[trigger] sig_band_hash(sigs[c], bb) == sig_band_hash(sigs[i as int], bb) && pair_edge(sigs, t, i as int, c) ==> edges@.contains((i, c as usize)),
                                forall|q: int| 0 <= q < k && #[trigger] pair_edge(sigs, t, i as int, bucket@[q] as int) ==> edges@.contains((i, bucket@[q])),
                                neighbors_ok(sigs, t, edges@, nbr@),
                            decreases bucket@.len() - k,
                        {
                            let c = bucket[k];
                            assert(c < n && sig_band_hash(sigs[c as int], b as int) == h);
                            if c > i {
                                let m = matching_positions(&self.signatures[i].minhash, &self.signatures[c].minhash);
                                if m >= t {
                                    assert(shares_band(sigs, i as int, c as int));
                                    assert(pair_edge(sigs, t, i as int, c as int));
                                    let ghost old_edges = edges@;
                                    let ghost old_nbr = nbr@;
                                    edges.push((i, c));
                                    note_neighbor(&mut nbr, i, c);
                                    note_neighbor(&mut nbr, c, i);
                                    proof {
                                        lemma_adjacent_symmetric(sigs, t, i as int, c as int);
                                        assert forall|q: int| 0 <= q < edges@.len() implies {
                                            &&& nbr@[#[trigger] edges@[q].0 as int] is Some
                                            &&& nbr@[edges@[q].0 as int].unwrap() <= edges@[q].1
                                            &&& nbr@[edges@[q].1 as int] is Some
                                            &&& nbr@[edges@[q].1 as int].unwrap() <= edges@[q].0
                                        } by {
                                            if q < old_edges.len() {
                                                assert(edges@[q] == old_edges[q]);
                                                assert(old_nbr[old_edges[q].0 as int] is Some);
                                                assert(old_nbr[old_edges[q].1 as int] is Some);
                                            }
                                        }
                                        assert forall|z: int| 0 <= z < sigs.len() && #[trigger] nbr@[z] is Some implies adjacent(sigs, t, z, nbr@[z].unwrap() as int) by {
                                            if z != i && z != c {
                                                assert(nbr@[z] == old_nbr[z]);
                                            }
                                        }
                                        assert forall|q: int| 0 <= q < old_edges.len() implies pair_edge(sigs, t, #[trigger] edges@[q].0 as int, edges@[q].1 as int) by {
                                            assert(edges@[q] == old_edges[q]);
                                        }
                                    }
                                }
                            }
                            k += 1;
                        }
                        proof {
                            assert forall|c: int| #[trigger] sig_band_hash(sigs[c], b as int) == sig_band_hash(sigs[i as int], b as int) && pair_edge(sigs, t, i as int, c) implies edges@.contains((i, c as usize)) by {
                                assert(sigs[c] == sigs[c]);
                                let q = choose|q: int| 0 <= q < band@[h]@.len() && band@[h]@[q] == c as usize;
                                assert(bucket@[q] == c as usize);
                            }
                        }
                    },
                    None => {
                        proof {
                            assert forall|c: int| #[trigger] sig_band_hash(sigs[c], b as int) == sig_band_hash(sigs[i as int], b as int) && pair_edge(sigs, t, i as int, c) implies false by {
                                assert(sigs[c] == sigs[c]);
                            }
                        }
                    },
                }
                b += 1;
            }
            proof {
                assert forall|a: int, c: int| 0 <= a < i + 1 && #[trigger] pair_edge(sigs, t, a, c) implies edges@.contains((a as usize, c as usize)) by {
                    if a == i {
                        let bb = choose|bb: int| 0 <= bb < 8 && #[trigger] sig_band_hash(sigs[a], bb) == sig_band_hash(sigs[c], bb);
                        assert(sig_band_hash(sigs[c], bb) == sig_band_hash(sigs[i as int], bb));
                    }
                }
            }
            i += 1;
        }
        proof {
            assert forall|a: int, c: int| #[trigger] pair_edge(sigs, t, a, c) implies edges@.contains((a as usize, c as usize)) by {
                assert(0 <= a < n);
            }
        }
        (edges, nbr)
    }
}

/// A listing stays exact under a predicate that agrees on the listed range.
proof fn lemma_lists_exactly_same(s: Seq<usize>, p: spec_fn(int) -> bool, q: spec_fn(int) -> bool, n: int)
    requires
        lists_exactly(s, p, n),
        forall|x: int| 0 <= x < n ==> #[trigger] p(x) == q(x),
    ensures
        lists_exactly(s, q, n),
{
    assert forall|k: int| 0 <= k < s.len() implies s[k] < n && q(s[k] as int) by {
        assert(p(s[k] as int));
    }
    assert forall|x: usize| x < n && q(x as int) implies #[trigger] s.contains(x) by {
        assert(p(x as int));
    }
}

/// The least neighbour recorded for a signature that has a similar one.
proof fn lemma_least_neighbor(sigs: Seq<FunctionSignature>, t: u32, edges: Seq<(usize, usize)>, nbr: Seq<Option<usize>>, x: int, z: int)
    requires
        sigs.len() <= usize::MAX,
        pairs_complete(sigs, t, edges),
        neighbors_ok(sigs, t, edges, nbr),
        adjacent(sigs, t, x, z),
    ensures
        nbr[x] is Some,
        least_neighbor(sigs, t, x, nbr[x].unwrap() as int),
        (choose|y: int| least_neighbor(sigs, t, x, y)) == nbr[x].unwrap() as int,
{
    assert forall|w: int| #[trigger] adjacent(sigs, t, x, w) implies nbr[x] is Some && nbr[x].unwrap() <= w by {
        if x < w {
            assert(pair_edge(sigs, t, x, w));
            assert(edges.contains((x as usize, w as usize)));
            let k = choose|k: int| 0 <= k < edges.len() && edges[k] == (x as usize, w as usize);
            assert(nbr[edges[k].0 as int] is Some);
            assert(edges[k].0 as int == x && edges[k].1 as int == w);
        } else {
            lemma_adjacent_symmetric(sigs, t, x, w);
            assert(pair_edge(sigs, t, w, x));
            assert(edges.contains((w as usize, x as usize)));
            let k = choose|k: int| 0 <= k < edges.len() && edges[k] == (w as usize, x as usize);
            assert(nbr[edges[k].0 as int] is Some);
            assert(edges[k].0 as int == w && edges[k].1 as int == x);
        }
    }
    assert(nbr[x] is Some);
    let y = nbr[x].unwrap() as int;
    assert(least_neighbor(sigs, t, x, y));
    let c = choose|y: int| least_neighbor(sigs, t, x, y);
    assert(c <= y && y <= c);
}

pub open spec fn pair_seqs(v: Seq<Vec<(usize, u32)>>) -> Seq<Seq<(usize, u32)>> {
    v.map_values(|e: Vec<(usize, u32)>| e@)
}

impl DuplicateIndex {
    /// Groups the signatures into connected groups of similar pairs, keeping
    /// the groups of at least two, each headed by its least index.
    fn group_duplicates(&self) -> (r: (Vec<usize>, Vec<Vec<(usize, u32)>>))
        requires
            self.wf(),
        ensures
            similar_groups_ok(self.sigs(), self.threshold(), r.0@, pair_seqs(r.1@)),
    {
        let n = self.signatures.len();
        let t = self.min_matches;
        let ghost sigs = self.signatures@;
        let (edges, nbr) = self.similar_pairs();
        let label = component_labels(n, &edges, Ghost(sigs), Ghost(t));
        let mut lists: Vec<Vec<(usize, u32)>> = Vec::new();
        let mut x: usize = 0;
        while x < n
            invariant
                0 <= x <= n,
                lists@.len() == x,
                forall|c: int| 0 <= c < x ==> #[trigger] lists@[c]@ == Seq::<(usize, u32)>::empty(),
            decreases n - x,
        {
            lists.push(Vec::new());
            x += 1;
        }
        let mut i: usize = 0;
        while i < n
            invariant
                sigs == self.signatures@,
                n == sigs.len(),
                t == self.min_matches,
                0 <= i <= n,
                pairs_complete(sigs, t, edges@),
                neighbors_ok(sigs, t, edges@, nbr@),
                labels_ok(sigs, t, label@),
                lists@.len() == n,
                forall|c: int| 0 <= c < n ==> lists_exactly(firsts(#[trigger] lists@[c]@), |y: int| label@[y] == c, i as int),
                forall|c: int, q: int| 0 <= c < n && 0 <= q < lists@[c]@.len() ==> #[trigger] lists@[c]@[q].1 == member_matches(sigs, t, c, lists@[c]@[q].0 as int),
            decreases n - i,
        {
            let c = label[i];
            assert(label@[i as int] <= i && linked(sigs, t, i as int, label@[i as int] as int));
            let m: u32 = if c == i {
                64
            } else {
                let ghost z = lemma_linked_first_step(sigs, t, i as int, c as int);
                proof {
                    lemma_least_neighbor(sigs, t, edges@, nbr@, i as int, z);
                }
                match nbr[i] {
                    Some(y) => matching_positions(&self.signatures[i].minhash, &self.signatures[y].minhash),
                    None => 0,
                }
            };
            assert(m == member_matches(sigs, t, c as int, i as int));
            let ghost before = lists@;
            let mut tmp: Vec<(usize, u32)> = Vec::new();
            lists.set_and_swap(c, &mut tmp);
            let ghost old_list = tmp@;
            tmp.push((i, m));
            lists.set_and_swap(c, &mut tmp);
            proof {
                assert(lists@[c as int]@ == old_list.push((i, m)));
                assert(firsts(old_list.push((i, m))) =~= firsts(old_list).push(i));
                assert forall|d: int| 0 <= d < n implies lists_exactly(firsts(#[trigger] lists@[d]@), |y: int| label@[y] == d, i + 1) by {
                    let s0 = firsts(before[d]@);
                    assert(lists_exactly(s0, |y: int| label@[y] == d, i as int));
                    if d == c {
                        let s1 = firsts(lists@[d]@);
                        assert(s1 =~= s0.push(i));
                        assert forall|a: int, b: int| 0 <= a < b < s1.len() implies s1[a] < s1[b] by {
                            if b == s1.len() - 1 {
                                assert(s0[a] < i);
                            }
                        }
                        assert forall|y: usize| y < i + 1 && label@[y as int] == d implies #[trigger] s1.contains(y) by {
                            if y < i {
                                assert(s0.contains(y));
                                let k = choose|k: int| 0 <= k < s0.len() && s0[k] == y;
                                assert(s1[k] == y);
                            } else {
                                assert(s1[s1.len() - 1] == y);
                            }
                        }
                    } else {
                        assert(lists@[d] == before[d]);
                        assert forall|y: usize| y < i + 1 && label@[y as int] == d implies #[trigger] s0.contains(y) by {
                            assert(y != i);
                        }
                    }
                }
                assert forall|d: int, q: int| 0 <= d < n && 0 <= q < lists@[d]@.len() implies #[trigger] lists@[d]@[q].1 == member_matches(sigs, t, d, lists@[d]@[q].0 as int) by {
                    if d == c {
                        if q < old_list.len() {
                            assert(lists@[d]@[q] == before[d]@[q]);
                        }
                    } else {
                        assert(lists@[d] == before[d]);
                    }
                }
            }
            i += 1;
        }
        let mut heads: Vec<usize> = Vec::new();
        let mut groups: Vec<Vec<(usize, u32)>> = Vec::new();
        let ghost all = lists@;
        let mut c: usize = 0;
        while c < n
            invariant
                sigs == self.signatures@,
                n == sigs.len(),
                t == self.min_matches,
                0 <= c <= n,
                labels_ok(sigs, t, label@),
                all.len() == n,
                lists@.len() == n,
                forall|d: int| c <= d < n ==> #[trigger] lists@[d] == all[d],
                forall|d: int| 0 <= d < n ==> lists_exactly(firsts(#[trigger] all[d]@), |y: int| label@[y] == d, n as int),
                forall|d: int, q: int| 0 <= d < n && 0 <= q < all[d]@.len() ==> #[trigger] all[d]@[q].1 == member_matches(sigs, t, d, all[d]@[q].0 as int),
                heads@.len() == groups@.len(),
                forall|a: int, b: int| 0 <= a < b < heads@.len() ==> heads@[a] < heads@[b],
                forall|k: int| 0 <= k < heads@.len() ==> #[trigger] heads@[k] < c && similar_head(sigs, t, heads@[k] as int) && groups@[k] == all[heads@[k] as int],
                forall|d: int| 0 <= d < c && similar_head(sigs, t, d) ==> #[trigger] heads@.contains(d as usize),
            decreases n - c,
        {
            proof {
                lemma_head_by_labels(sigs, t, label@, c as int);
                let s = firsts(all[c as int]@);
                assert(lists_exactly(s, |y: int| label@[y] == c, n as int));
                if s.len() >= 2 {
                    let x0 = s[0] as int;
                    let x1 = s[1] as int;
                    assert(label@[x0] == c && label@[x1] == c && x0 < x1);
                    lemma_labels_partition(sigs, t, label@, x0, x0);
                    let y = if x0 != c { x0 } else { x1 };
                    assert(0 <= y < n && y != c && label@[y] == c);
                } 
                if similar_head(sigs, t, c as int) {
                    let y = choose|y: int| 0 <= y < sigs.len() && y != c && label@[y] == c;
                    assert(s.contains(c) && s.contains(y as usize));
                    lemma_two_members(s, c, y as usize);
                }
            }
            if lists[c].len() >= 2 {
                let mut tmp: Vec<(usize, u32)> = Vec::new();
                lists.set_and_swap(c, &mut tmp);
                let ghost prev = heads@;
                heads.push(c);
                groups.push(tmp);
                proof {
                    assert forall|d: int| 0 <= d < c + 1 && similar_head(sigs, t, d) implies #[trigger] heads@.contains(d as usize) by {
                        if d < c {
                            assert(prev.contains(d as usize));
                            let k = choose|k: int| 0 <= k < prev.len() && prev[k] == d as usize;
                            assert(heads@[k] == d as usize);
                        } else {
                            assert(heads@[heads@.len() - 1] == d as usize);
                        }
                    }
                    assert forall|k: int| 0 <= k < heads@.len() implies #[trigger] heads@[k] < c + 1 && similar_head(sigs, t, heads@[k] as int) && groups@[k] == all[heads@[k] as int] by {
                        if k < prev.len() {
                            assert(heads@[k] == prev[k]);
                        }
                    }
                }
            }
            c += 1;
        }
        proof {
            assert(pair_seqs(groups@).len() == heads@.len());
            assert forall|k: int| 0 <= k < heads@.len() implies lists_exactly(firsts(#[trigger] pair_seqs(groups@)[k]), |x: int| linked(sigs, t, x, heads@[k] as int), sigs.len() as int) by {
                let h = heads@[k] as int;
                assert(pair_seqs(groups@)[k] == all[h]@);
                assert(similar_head(sigs, t, h));
                lemma_head_by_labels(sigs, t, label@, h);
                assert forall|x: int| 0 <= x < n implies (label@[x] == h) == linked(sigs, t, x, h) by {
                    lemma_labels_partition(sigs, t, label@, x, h);
                }
                lemma_lists_exactly_same(firsts(all[h]@), |y: int| label@[y] == h, |x: int| linked(sigs, t, x, h), n as int);
            }
            assert forall|k: int, q: int| 0 <= k < heads@.len() && 0 <= q < pair_seqs(groups@)[k].len() implies #[trigger] pair_seqs(groups@)[k][q].1 == member_matches(sigs, t, heads@[k] as int, pair_seqs(groups@)[k][q].0 as int) by {
                let h = heads@[k] as int;
                assert(pair_seqs(groups@)[k] == all[h]@);
                assert(all[h]@[q].1 == member_matches(sigs, t, h, all[h]@[q].0 as int));
            }
            assert forall|x: usize| x < n && similar_head(sigs, t, x as int) implies #[trigger] heads@.contains(x) by {
                assert(heads@.contains(x as int as usize));
            }
        }
        (heads, groups)
    }
}

/// The groups, by location: group `k` is headed by signature `heads[k]` and
/// lists the members `members[k]` with their agreement.
pub open spec fn groups_at(sigs: Seq<FunctionSignature>, heads: Seq<usize>, members: Seq<Seq<(usize, u32)>>, r: Seq<DuplicateGroup>) -> bool {
    &&& r.len() == heads.len()
    &&& forall|k: int| 0 <= k < r.len() ==> {
        &&& (#[trigger] r[k]).canonical == sigs[heads[k] as int].location
        &&& r[k].instances@.len() == members[k].len()
        &&& forall|q: int| 0 <= q < members[k].len() ==> r[k].instances@[q] == (sigs[members[k][q].0 as int].location, members[k][q].1)
    }
}

/// Each member of an exact group agrees with it on all 64 positions.
pub open spec fn with_full_matches(members: Seq<Seq<usize>>) -> Seq<Seq<(usize, u32)>> {
    members.map_values(|m: Seq<usize>| m.map_values(|x: usize| (x, 64u32)))
}

impl DuplicateIndex {
    /// Turns groups of indices into groups of locations.
    fn locate(&self, heads: &Vec<usize>, members: &Vec<Vec<(usize, u32)>>) -> (r: Vec<DuplicateGroup>)
        requires
            heads@.len() == members@.len(),
            forall|k: int| 0 <= k < heads@.len() ==> #[trigger] heads@[k] < self.sigs().len(),
            forall|k: int, q: int| 0 <= k < members@.len() && 0 <= q < members@[k]@.len() ==> #[trigger] members@[k]@[q].0 < self.sigs().len(),
        ensures
            groups_at(self.sigs(), heads@, pair_seqs(members@), r@),
    {
        let mut out: Vec<DuplicateGroup> = Vec::new();
        let mut k: usize = 0;
        while k < heads.len()
            invariant
                heads@.len() == members@.len(),
                forall|k: int| 0 <= k < heads@.len() ==> #[trigger] heads@[k] < self.sigs().len(),
                forall|k: int, q: int| 0 <= k < members@.len() && 0 <= q < members@[k]@.len() ==> #[trigger] members@[k]@[q].0 < self.sigs().len(),
                0 <= k <= heads@.len(),
                out@.len() == k,
                forall|j: int| 0 <= j < k ==> {
                    &&& (#[trigger] out@[j]).canonical == self.sigs()[heads@[j] as int].location
                    &&& out@[j].instances@.len() == members@[j]@.len()
                    &&& forall|q: int| 0 <= q < members@[j]@.len() ==> out@[j].instances@[q] == (self.sigs()[members@[j]@[q].0 as int].location, members@[j]@[q].1)
                },
            decreases heads@.len() - k,
        {
            let group = &members[k];
            let mut instances: Vec<(FunctionLocation, u32)> = Vec::new();
            let mut q: usize = 0;
            while q < group.len()
                invariant
                    group@ == members@[k as int]@,
                    forall|q: int| 0 <= q < group@.len() ==> #[trigger] group@[q].0 < self.sigs().len(),
                    0 <= q <= group@.len(),
                    instances@.len() == q,
                    forall|j: int| 0 <= j < q ==> #[trigger] instances@[j] == (self.sigs()[group@[j].0 as int].location, group@[j].1),
                decreases group@.len() - q,
            {
                let (x, m) = group[q];
                assert(group@[q as int].0 < self.sigs().len());
                instances.push((self.signatures[x].location, m));
                q += 1;
            }
            out.push(DuplicateGroup { canonical: self.signatures[heads[k]].location, instances });
            k += 1;
        }
        proof {
            assert forall|j: int| 0 <= j < out@.len() implies {
                &&& (#[trigger] out@[j]).canonical == self.sigs()[heads@[j] as int].location
                &&& out@[j].instances@.len() == pair_seqs(members@)[j].len()
                &&& forall|q: int| 0 <= q < pair_seqs(members@)[j].len() ==> out@[j].instances@[q] == (self.sigs()[pair_seqs(members@)[j][q].0 as int].location, pair_seqs(members@)[j][q].1)
            } by {
                assert(pair_seqs(members@)[j] == members@[j]@);
            }
        }
        out
    }

    /// Find exact duplicates (same fingerprint): one group for each
    /// fingerprint that at least two signatures share, in order of first
    /// occurrence, headed by its first signature and listing all of them in
    /// the order added.
    pub fn find_exact_duplicates(&self) -> (r: Vec<DuplicateGroup>)
        requires
            self.wf(),
        ensures
            exists|heads: Seq<usize>, members: Seq<Seq<usize>>|
                exact_groups_ok(self.sigs(), heads, members) && groups_at(self.sigs(), heads, with_full_matches(members), r@),
    {
        let (heads, members) = self.exact_groups();
        let ghost idx = seqs_of(members@);
        let mut full: Vec<Vec<(usize, u32)>> = Vec::new();
        let mut k: usize = 0;
        while k < members.len()
            invariant
                0 <= k <= members@.len(),
                full@.len() == k,
                forall|j: int| 0 <= j < k ==> (#[trigger] full@[j])@ == members@[j]@.map_values(|x: usize| (x, 64u32)),
            decreases members@.len() - k,
        {
            let group = &members[k];
            let mut row: Vec<(usize, u32)> = Vec::new();
            let mut q: usize = 0;
            while q < group.len()
                invariant
                    0 <= q <= group@.len(),
                    row@.len() == q,
                    forall|j: int| 0 <= j < q ==> #[trigger] row@[j] == (group@[j], 64u32),
                decreases group@.len() - q,
            {
                row.push((group[q], 64));
                q += 1;
            }
            assert(row@ =~= group@.map_values(|x: usize| (x, 64u32)));
            full.push(row);
            k += 1;
        }
        proof {
            let sigs = self.sigs();
            assert(pair_seqs(full@) =~= with_full_matches(idx));
            assert forall|j: int| 0 <= j < heads@.len() implies #[trigger] heads@[j] < sigs.len() by {
                assert(exact_head(sigs, heads@[j] as int));
            }
            assert forall|j: int, q: int| 0 <= j < full@.len() && 0 <= q < full@[j]@.len() implies #[trigger] full@[j]@[q].0 < sigs.len() by {
                assert(full@[j]@[q].0 == idx[j][q]);
                assert(lists_exactly(idx[j], |x: int| sigs[x].fingerprint == sigs[heads@[j] as int].fingerprint, sigs.len() as int));
            }
        }
        let r = self.locate(&heads, &full);
        proof {
            assert(exact_groups_ok(self.sigs(), heads@, idx) && groups_at(self.sigs(), heads@, with_full_matches(idx), r@));
        }
        r
    }

    /// Find similar duplicates: the connected groups of similar pairs (pairs
    /// that share an LSH bucket and agree on at least the threshold of MinHash
    /// positions) that hold at least two signatures, in order of their least
    /// index, each headed by that signature and listing its members in index
    /// order with their agreement.
    pub fn find_similar_duplicates(&self) -> (r: Vec<DuplicateGroup>)
        requires
            self.wf(),
        ensures
            exists|heads: Seq<usize>, members: Seq<Seq<(usize, u32)>>|
                similar_groups_ok(self.sigs(), self.threshold(), heads, members) && groups_at(self.sigs(), heads, members, r@),
    {
        let (heads, members) = self.group_duplicates();
        proof {
            let sigs = self.sigs();
            let t = self.threshold();
            let ms = pair_seqs(members@);
            assert forall|j: int| 0 <= j < heads@.len() implies #[trigger] heads@[j] < sigs.len() by {
                assert(similar_head(sigs, t, heads@[j] as int));
            }
            assert forall|j: int, q: int| 0 <= j < members@.len() && 0 <= q < members@[j]@.len() implies #[trigger] members@[j]@[q].0 < sigs.len() by {
                assert(ms[j] == members@[j]@);
                assert(lists_exactly(firsts(ms[j]), |x: int| linked(sigs, t, x, heads@[j] as int), sigs.len() as int));
                assert(firsts(ms[j])[q] == members@[j]@[q].0);
            }
        }
        self.locate(&heads, &members)
    }
}

impl DuplicateGroup {
    /// The sum of the recorded agreements of all instances; divided by 64
    /// times the number of instances it gives the group's average similarity.
    pub fn total_matches(&self) -> (r: u64)
        requires
            self.instances@.len() <= u32::MAX,
        ensures
            r == instance_match_sum(self.instances@),
    {
        let mut sum: u64 = 0;
        let mut q: usize = 0;
        while q < self.instances.len()
            invariant
                self.instances@.len() <= u32::MAX,
                0 <= q <= self.instances@.len(),
                sum == instance_match_sum(self.instances@.take(q as int)),
                sum <= q * 0xffff_ffff,
            decreases self.instances@.len() - q,
        {
            assert(self.instances@.take(q + 1).drop_last() =~= self.instances@.take(q as int));
            sum = sum + self.instances[q].1 as u64;
            q += 1;
        }
        assert(self.instances@.take(q as int) =~= self.instances@);
        sum
    }
}

/// The sum of the agreements recorded for a list of instances.
pub open spec fn instance_match_sum(s: Seq<(FunctionLocation, u32)>) -> nat
    decreases s.len(),
{
    if s.len() == 0 {
        0
    } else {
        instance_match_sum(s.drop_last()) + s.last().1 as nat
    }
}

} // verus!
