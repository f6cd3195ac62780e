//! Benchmark settings and deterministic per-nonce seed derivation.
//!
//! The settings are rendered to their canonical textual form (keys sorted,
//! fixed numeric formatting), joined with the precommit salt and the decimal
//! nonce by a fixed separator, and reduced to a 32-byte seed.

use vstd::prelude::*;
use crate::hashing::{digest_of, hash_text};
use vstd::utf8::encode_utf8;
use crate::json::{int_chars, quoted};
use crate::text::{dec_chars, push_char, u64_to_decimal};

verus! {

/// The immutable identity of one computation batch: who computes, against
/// which block, challenge and algorithm, and at which difficulty.
pub struct BenchmarkSettings {
    pub player_id: String,
    pub block_id: String,
    pub challenge_id: String,
    pub algorithm_id: String,
    pub difficulty: Vec<i32>,
}

pub open spec fn key_algorithm_id() -> Seq<char> {
    seq!['a', 'l', 'g', 'o', 'r', 'i', 't', 'h', 'm', '_', 'i', 'd']
}

pub open spec fn key_block_id() -> Seq<char> {
    seq!['b', 'l', 'o', 'c', 'k', '_', 'i', 'd']
}

pub open spec fn key_challenge_id() -> Seq<char> {
    seq!['c', 'h', 'a', 'l', 'l', 'e', 'n', 'g', 'e', '_', 'i', 'd']
}

pub open spec fn key_difficulty() -> Seq<char> {
    seq!['d', 'i', 'f', 'f', 'i', 'c', 'u', 'l', 't', 'y']
}

pub open spec fn key_player_id() -> Seq<char> {
    seq!['p', 'l', 'a', 'y', 'e', 'r', '_', 'i', 'd']
}

/// The comma-separated decimal renderings of the difficulty parameters.
pub open spec fn difficulty_items(d: Seq<i32>) -> Seq<char>
    decreases d.len(),
{
    if d.len() == 0 {
        Seq::empty()
    } else if d.len() == 1 {
        int_chars(d[0] as int)
    } else {
        int_chars(d[0] as int) + seq![','] + difficulty_items(d.drop_first())
    }
}

/// The canonical textual form of the settings: a JSON object with its keys
/// in sorted order and fixed numeric formatting.
pub open spec fn settings_json(s: BenchmarkSettings) -> Seq<char> {
    seq!['{'] + quoted(key_algorithm_id()) + seq![':'] + quoted(s.algorithm_id@) + seq![',']
        + quoted(key_block_id()) + seq![':'] + quoted(s.block_id@) + seq![',']
        + quoted(key_challenge_id()) + seq![':'] + quoted(s.challenge_id@) + seq![',']
        + quoted(key_difficulty()) + seq![':'] + seq!['['] + difficulty_items(s.difficulty@)
        + seq![']'] + seq![','] + quoted(key_player_id()) + seq![':'] + quoted(s.player_id@)
        + seq!['}']
}

/// The text whose digest is the per-nonce seed: canonical settings, salt,
/// and decimal nonce, joined by a fixed separator.
pub open spec fn seed_text(s: BenchmarkSettings, rand_hash: Seq<char>, nonce: u64) -> Seq<char> {
    settings_json(s) + seq!['_'] + rand_hash + seq!['_'] + dec_chars(nonce as nat)
}

/// The 32-byte seed for one nonce: the digest of the seed text.
pub open spec fn seed_of(s: BenchmarkSettings, rand_hash: Seq<char>, nonce: u64) -> Seq<u8> {
    digest_of(encode_utf8(seed_text(s, rand_hash, nonce)))
}

/// Unfolds the rendering of a non-empty difficulty list at its last element.
proof fn lemma_difficulty_snoc(d: Seq<i32>)
    requires
        d.len() >= 1,
    ensures
        d.len() == 1 ==> difficulty_items(d) == int_chars(d[0] as int),
        d.len() > 1 ==> difficulty_items(d) == difficulty_items(d.drop_last()) + seq![',']
            + int_chars(d.last() as int),
    decreases d.len(),
{
    if d.len() > 1 {
        lemma_difficulty_snoc(d.drop_first());
        assert(d.drop_first().drop_last() =~= d.drop_last().drop_first());
        if d.len() == 2 {
            assert(difficulty_items(d.drop_last()) =~= int_chars(d[0] as int));
        }
        assert(difficulty_items(d) =~= difficulty_items(d.drop_last()) + seq![','] + int_chars(
            d.last() as int,
        ));
    }
}

/// Renders the settings in their canonical textual form.
pub fn settings_to_json(s: &BenchmarkSettings) -> (r: String)
    ensures
        r@ == settings_json(*s),
{
    let mut out = String::new();
    push_char(&mut out, '{');
    proof {
        reveal_strlit("algorithm_id");
        reveal_strlit("block_id");
        reveal_strlit("challenge_id");
        reveal_strlit("difficulty");
        reveal_strlit("player_id");
        assert("algorithm_id"@ =~= key_algorithm_id());
        assert("block_id"@ =~= key_block_id());
        assert("challenge_id"@ =~= key_challenge_id());
        assert("difficulty"@ =~= key_difficulty());
        assert("player_id"@ =~= key_player_id());
    }
    crate::json::push_quoted(&mut out, "algorithm_id");
    push_char(&mut out, ':');
    crate::json::push_quoted(&mut out, s.algorithm_id.as_str());
    push_char(&mut out, ',');
    crate::json::push_quoted(&mut out, "block_id");
    push_char(&mut out, ':');
    crate::json::push_quoted(&mut out, s.block_id.as_str());
    push_char(&mut out, ',');
    crate::json::push_quoted(&mut out, "challenge_id");
    push_char(&mut out, ':');
    crate::json::push_quoted(&mut out, s.challenge_id.as_str());
    push_char(&mut out, ',');
    crate::json::push_quoted(&mut out, "difficulty");
    push_char(&mut out, ':');
    push_char(&mut out, '[');
    let ghost mid = out@;
    let n = s.difficulty.len();
    let mut i: usize = 0;
    while i < n
        invariant
            n == s.difficulty@.len(),
            i <= n,
            out@ == mid + difficulty_items(s.difficulty@.subrange(0, i as int)) + if i > 0 && i
                < n {
                seq![',']
            } else {
                Seq::<char>::empty()
            },
        decreases n - i,
    {
        crate::json::push_int(&mut out, s.difficulty[i] as i64);
        i = i + 1;
        proof {
            lemma_difficulty_snoc(s.difficulty@.subrange(0, i as int));
            assert(s.difficulty@.subrange(0, i as int).drop_last() =~= s.difficulty@.subrange(
                0,
                i - 1,
            ));
        }
        if i < n {
            push_char(&mut out, ',');
        }
    }
    proof {
        assert(s.difficulty@.subrange(0, s.difficulty@.len() as int) =~= s.difficulty@);
    }
    push_char(&mut out, ']');
    push_char(&mut out, ',');
    crate::json::push_quoted(&mut out, "player_id");
    push_char(&mut out, ':');
    crate::json::push_quoted(&mut out, s.player_id.as_str());
    push_char(&mut out, '}');
    proof {
        assert(out@ =~= settings_json(*s));
    }
    out
}

impl BenchmarkSettings {
    /// Derives the deterministic 32-byte input seed for one nonce: the
    /// digest of the canonical settings text, the precommit salt, and the
    /// decimal nonce, joined by a fixed separator. Identical inputs always
    /// yield the identical seed.
    pub fn calc_seed(&self, rand_hash: &String, nonce: u64) -> (r: [u8; 32])
        ensures
            r@ == seed_of(*self, rand_hash@, nonce),
    {
        let mut text = settings_to_json(self);
        push_char(&mut text, '_');
        text.append(rand_hash.as_str());
        push_char(&mut text, '_');
        let dec = u64_to_decimal(nonce);
        text.append(dec.as_str());
        proof {
            assert(text@ =~= seed_text(*self, rand_hash@, nonce));
        }
        hash_text(text.as_str())
    }
}

/// Determinism of seed derivation: the seed is a function of the settings,
/// the salt, and the nonce alone, so any two derivations over identical
/// inputs agree.
pub proof fn lemma_seed_deterministic(
    a: BenchmarkSettings,
    b: BenchmarkSettings,
    rand_hash_a: Seq<char>,
    rand_hash_b: Seq<char>,
    nonce_a: u64,
    nonce_b: u64,
)
    requires
        a == b,
        rand_hash_a == rand_hash_b,
        nonce_a == nonce_b,
    ensures
        seed_of(a, rand_hash_a, nonce_a) == seed_of(b, rand_hash_b, nonce_b),
{
}

} // verus!
