//! Audit sampling: selecting the subset of committed nonces that the network
//! challenges. The selection is a deterministic function of the public
//! sampling randomness, so every verifier reproduces the same subset, and of
//! nothing the participant knows before the root is committed.

use vstd::prelude::*;
use crate::hashing::{digest_of, hash_text, le_word, le_word_of};
use vstd::utf8::encode_utf8;
use crate::text::{dec_chars, push_char, u64_to_decimal};

verus! {

/// The text hashed for the sampling step `i`: the public randomness and the
/// decimal step index, joined by a fixed separator.
pub open spec fn sample_text(seed: Seq<char>, i: nat) -> Seq<char> {
    seed + seq!['_'] + dec_chars(i)
}

/// The 64-bit sampling word for step `i`.
pub open spec fn sample_word(seed: Seq<char>, i: nat) -> u64 {
    le_word(digest_of(encode_utf8(sample_text(seed, i))))
}

/// The identity sequence `0, 1, .., n-1`.
pub open spec fn init_ids(n: nat) -> Seq<u64> {
    Seq::new(n, |i: int| i as u64)
}

/// Two slots of a sequence exchanged.
pub open spec fn swap_at(s: Seq<u64>, i: int, j: int) -> Seq<u64> {
    s.update(i, s[j]).update(j, s[i])
}

/// The state of the selection shuffle after `k` steps: step `i` exchanges
/// slot `i` with a slot drawn from the rest by the sampling word for `i`.
pub open spec fn shuffled(ids: Seq<u64>, seed: Seq<char>, k: int) -> Seq<u64>
    decreases k,
{
    if k <= 0 {
        ids
    } else {
        let prev = shuffled(ids, seed, k - 1);
        let i = k - 1;
        if i < ids.len() {
            let j = i + (sample_word(seed, i as nat) as int) % (ids.len() - i);
            swap_at(prev, i, j)
        } else {
            prev
        }
    }
}

/// The selected subset for `n` committed nonces at sample size `k`: the
/// first `min(k, n)` slots of the shuffle. When `n` is not above the sample
/// size, the whole range is selected.
pub open spec fn sampled_ids(n: nat, k: nat, seed: Seq<char>) -> Seq<u64> {
    let take_n = if k < n {
        k
    } else {
        n
    };
    shuffled(init_ids(n), seed, take_n as int).take(take_n as int)
}

/// No value appears twice.
pub open spec fn distinct_ids(s: Seq<u64>) -> bool {
    forall|p: int, q: int| 0 <= p < q < s.len() ==> s[p] != s[q]
}

/// Every value lies below `n`.
pub open spec fn ids_below(s: Seq<u64>, n: nat) -> bool {
    forall|p: int| 0 <= p < s.len() ==> (#[trigger] s[p] as nat) < n
}

/// A shuffle step keeps length, distinctness and range.
proof fn lemma_shuffled_good(ids: Seq<u64>, seed: Seq<char>, k: int, n: nat)
    requires
        ids.len() == n,
        distinct_ids(ids),
        ids_below(ids, n),
    ensures
        shuffled(ids, seed, k).len() == n,
        distinct_ids(shuffled(ids, seed, k)),
        ids_below(shuffled(ids, seed, k), n),
    decreases k,
{
    if k > 0 {
        lemma_shuffled_good(ids, seed, k - 1, n);
        let prev = shuffled(ids, seed, k - 1);
        let i = k - 1;
        if i < ids.len() {
            let j = i + (sample_word(seed, i as nat) as int) % (ids.len() - i);
            let cur = swap_at(prev, i, j);
            assert(0 <= (sample_word(seed, i as nat) as int) % (ids.len() - i) < ids.len() - i);
            assert forall|p: int, q: int| 0 <= p < q < cur.len() implies cur[p] != cur[q] by {}
            assert forall|p: int| 0 <= p < cur.len() implies (#[trigger] cur[p] as nat) < n by {}
        }
    }
}

/// Selects the nonces to challenge out of `[0, num_nonces)`: a deterministic
/// function of the public sampling randomness, reproducible by any verifier.
/// Exactly `sample_size` distinct nonces are returned, or the whole range
/// when fewer were committed.
pub fn sample_nonces(num_nonces: u32, sample_size: u32, sample_seed: &str) -> (r: Vec<u64>)
    ensures
        r@ == sampled_ids(num_nonces as nat, sample_size as nat, sample_seed@),
        r@.len() == if sample_size < num_nonces {
            sample_size as nat
        } else {
            num_nonces as nat
        },
        distinct_ids(r@),
        ids_below(r@, num_nonces as nat),
{
    let n = num_nonces as usize;
    let k = if sample_size < num_nonces {
        sample_size as usize
    } else {
        n
    };
    let mut ids: Vec<u64> = Vec::new();
    let mut i: usize = 0;
    while i < n
        invariant
            i <= n,
            ids@.len() == i,
            forall|p: int| 0 <= p < i ==> ids@[p] == p as u64,
        decreases n - i,
    {
        ids.push(i as u64);
        i = i + 1;
    }
    proof {
        assert(ids@ =~= init_ids(num_nonces as nat));
    }
    let ghost init = ids@;
    let mut step: usize = 0;
    while step < k
        invariant
            k <= n,
            n == num_nonces as usize,
            step <= k,
            init == init_ids(num_nonces as nat),
            ids@ == shuffled(init, sample_seed@, step as int),
            ids@.len() == n,
        decreases k - step,
    {
        proof {
            lemma_shuffled_good(init, sample_seed@, step as int, num_nonces as nat);
        }
        let w = sample_step_word(sample_seed, step as u64);
        let span = (n - step) as u64;
        let j = step + (w % span) as usize;
        proof {
            assert(j == step + (sample_word(sample_seed@, step as nat) as int) % (n - step));
        }
        let a = ids[step];
        let b = ids[j];
        ids.set(step, b);
        ids.set(j, a);
        proof {
            assert(ids@ =~= swap_at(
                shuffled(init, sample_seed@, step as int),
                step as int,
                j as int,
            ));
        }
        step = step + 1;
    }
    proof {
        lemma_shuffled_good(init, sample_seed@, k as int, num_nonces as nat);
    }
    ids.truncate(k);
    proof {
        assert(ids@ =~= sampled_ids(num_nonces as nat, sample_size as nat, sample_seed@));
    }
    ids
}

/// The sampling word for one step, drawn from the public randomness.
fn sample_step_word(seed: &str, i: u64) -> (w: u64)
    ensures
        w == sample_word(seed@, i as nat),
{
    let mut text = String::new();
    text.append(seed);
    push_char(&mut text, '_');
    let dec = u64_to_decimal(i);
    text.append(dec.as_str());
    proof {
        assert(text@ =~= sample_text(seed@, i as nat));
    }
    let digest = hash_text(text.as_str());
    le_word_of(&digest)
}

/// Reproducibility of audit sampling: the challenged subset is a function
/// of the committed nonce count, the sample size, and the public sampling
/// randomness alone, so independent verifiers agree on it.
pub proof fn lemma_sampling_reproducible(
    n1: nat,
    n2: nat,
    k1: nat,
    k2: nat,
    seed1: Seq<char>,
    seed2: Seq<char>,
)
    requires
        n1 == n2,
        k1 == k2,
        seed1 == seed2,
    ensures
        sampled_ids(n1, k1, seed1) == sampled_ids(n2, k2, seed2),
{
}

} // verus!
