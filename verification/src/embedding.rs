//! Embedding providers: the OpenAI model configuration and its dimension, and
//! the deterministic local embedding's integer generator.

use vstd::prelude::*;
use std::hash::{Hash, Hasher};
use crate::text::{str_contains, contains_seq, owned};

verus! {

/// The OpenAI embedding configuration: API key and model name.
pub struct OpenAIEmbedding {
    pub api_key: String,
    pub model: String,
}

/// The dimension of an OpenAI embedding model: 3072 for a model whose name
/// holds `large` (or `3-large`), 1536 otherwise.
pub open spec fn model_dimension(model: Seq<char>) -> usize {
    if contains_seq(model, "large"@) || contains_seq(model, "3-large"@) {
        3072
    } else {
        1536
    }
}

impl OpenAIEmbedding {
    /// A configuration for `text-embedding-3-small`.
    pub fn new(api_key: String) -> (r: OpenAIEmbedding)
        ensures
            r.api_key@ == api_key@,
            r.model@ == "text-embedding-3-small"@,
    {
        OpenAIEmbedding { api_key, model: owned("text-embedding-3-small") }
    }

    /// The same configuration with another model.
    pub fn with_model(self, model: &str) -> (r: OpenAIEmbedding)
        ensures
            r.api_key@ == self.api_key@,
            r.model@ == model@,
    {
        let mut r = self;
        r.model = owned(model);
        r
    }

    /// The dimension of the configured model's embeddings.
    pub fn dimension(&self) -> (r: usize)
        ensures
            r == model_dimension(self.model@),
    {
        if str_contains(self.model.as_str(), "large") || str_contains(self.model.as_str(), "3-large") {
            3072
        } else if str_contains(self.model.as_str(), "3-small") {
            1536
        } else {
            1536
        }
    }
}

/// A local embedding of a fixed dimension, derived from a hash of the text.
pub struct LocalEmbedding {
    pub dimension: usize,
}

/// The multiplier of the generator.
pub open spec fn lcg_mul() -> u64 {
    6364136223846793005
}

/// The increment of the generator.
pub open spec fn lcg_inc() -> u64 {
    1442695040888963407
}

/// One step of the generator: multiply and add, wrapping at 2^64.
pub open spec fn lcg_next(state: u64) -> u64 {
    ((state as int * lcg_mul() as int + lcg_inc() as int) % 0x1_0000_0000_0000_0000) as u64
}

/// The upper 32 bits of a state read as a signed 32-bit value.
pub open spec fn upper_signed(state: u64) -> i32 {
    let u = state as int / 0x1_0000_0000;
    if u >= 0x8000_0000 {
        (u - 0x1_0000_0000) as i32
    } else {
        u as i32
    }
}

/// The state after `k` steps from `seed`.
pub open spec fn lcg_state(seed: u64, k: nat) -> u64
    decreases k,
{
    if k == 0 {
        seed
    } else {
        lcg_next(lcg_state(seed, (k - 1) as nat))
    }
}

/// The raw components of a local embedding: the upper half of each of the
/// first `n` generator states after `seed`, read as signed values.
pub open spec fn local_values(seed: u64, n: nat) -> Seq<i32> {
    Seq::new(n, |k: int| upper_signed(lcg_state(seed, (k + 1) as nat)))
}

/// What hashing a string with a fresh `std::collections::hash_map::DefaultHasher`
/// gives for a string with these characters.
pub uninterp spec fn default_str_hash(s: Seq<char>) -> u64;

/// Hashes `text` (`Hash for str`) into a fresh `DefaultHasher` and returns
/// `finish()`. Claimed of it: the value depends on the characters alone;
/// std documents that every `DefaultHasher` made by `new` hashes alike.
#[verifier::external_body]
fn hash_text(text: &str) -> (r: u64)
    ensures
        r == default_str_hash(text@),
{
    let mut hasher = std::collections::hash_map::DefaultHasher::new();
    text.hash(&mut hasher);
    hasher.finish()
}

/// The raw components generated from `seed`, as `local_values` says.
pub fn generate_values(seed: u64, n: usize) -> (r: Vec<i32>)
    ensures
        r@ == local_values(seed, n as nat),
{
    let mut out: Vec<i32> = Vec::new();
    let mut state: u64 = seed;
    let mut k: usize = 0;
    while k < n
        invariant
            k <= n,
            state == lcg_state(seed, k as nat),
            out@ == local_values(seed, k as nat),
        decreases n - k,
    {
        state = state.wrapping_mul(6364136223846793005).wrapping_add(1442695040888963407);
        proof {
            let p = lcg_state(seed, k as nat);
            let big: int = 0x1_0000_0000_0000_0000;
            let x = p as int * lcg_mul() as int;
            let m = x % big;
            let c = lcg_inc() as int;
            vstd::arithmetic::div_mod::lemma_mod_bound(x, big);
            vstd::arithmetic::div_mod::lemma_add_mod_noop(x, c, big);
            vstd::arithmetic::div_mod::lemma_small_mod(c as nat, big as nat);
            if m + c >= big {
                vstd::arithmetic::div_mod::lemma_fundamental_div_mod_converse(m + c, big, 1, m + c - big);
            } else {
                vstd::arithmetic::div_mod::lemma_small_mod((m + c) as nat, big as nat);
            }
            assert(state == lcg_next(p));
        }
        let hi: u64 = state >> 32;
        assert(hi == state / 0x1_0000_0000) by (bit_vector)
            requires
                hi == state >> 32,
        ;
        let v: i32 = if hi >= 0x8000_0000 {
            ((hi as i64) - 0x1_0000_0000) as i32
        } else {
            hi as i32
        };
        out.push(v);
        assert(out@ =~= local_values(seed, (k + 1) as nat));
        k = k + 1;
    }
    out
}

impl LocalEmbedding {
    /// A local embedding of the given dimension.
    pub fn new(dimension: usize) -> (r: LocalEmbedding)
        ensures
            r.dimension == dimension,
    {
        LocalEmbedding { dimension }
    }

    /// The dimension of this embedding.
    pub fn dimension(&self) -> (r: usize)
        ensures
            r == self.dimension,
    {
        self.dimension
    }

    /// The raw integer components of the embedding of `text`: the generator
    /// seeded with the text's hash, one component per dimension. Dividing
    /// each by `i32::MAX` and scaling to unit length gives the embedding.
    pub fn raw_embedding(&self, text: &str) -> (r: Vec<i32>)
        ensures
            r@ == local_values(default_str_hash(text@), self.dimension as nat),
    {
        let seed = hash_text(text);
        generate_values(seed, self.dimension)
    }
}

} // verus!
