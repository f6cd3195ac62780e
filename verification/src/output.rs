//! Output commitment building: the one-way projection pipeline from a raw
//! computation output to its compacted metadata and on to the fixed-width
//! leaf hash committed into the merkle tree.

use vstd::prelude::*;
use crate::hashing::{digest_of, hash_text, le_word, le_word_of};
use vstd::utf8::encode_utf8;
use crate::json::{quoted, solution_json, Solution};
use crate::text::{dec_chars, push_char, u64_to_decimal};

verus! {

/// A raw computation output for one nonce, with its open-ended solution
/// payload. Transient: never persisted beyond commitment.
pub struct OutputData {
    pub nonce: u64,
    pub runtime_signature: u64,
    pub fuel_consumed: u64,
    pub solution: Solution,
}

/// The compacted, fixed-shape projection of an output: the solution payload
/// is replaced by its derived signature, so every leaf has the same size.
pub struct OutputMetaData {
    pub nonce: u64,
    pub runtime_signature: u64,
    pub fuel_consumed: u64,
    pub solution_signature: u64,
}

/// A fixed-width digest: the atomic unit committed into the merkle tree.
#[derive(Clone, Copy)]
pub struct MerkleHash(pub [u8; 32]);

impl MerkleHash {
    /// The digest bytes.
    pub open spec fn view(self) -> Seq<u8> {
        self.0@
    }

    /// Whether two digests hold the same bytes.
    pub fn eq_hash(&self, other: &MerkleHash) -> (r: bool)
        ensures
            r == (self@ == other@),
    {
        let mut i: usize = 0;
        while i < 32
            invariant
                i <= 32,
                self@.len() == 32,
                other@.len() == 32,
                forall|p: int| 0 <= p < i ==> self@[p] == other@[p],
            decreases 32 - i,
        {
            if self.0[i] != other.0[i] {
                return false;
            }
            i = i + 1;
        }
        proof {
            assert(self@ =~= other@);
        }
        true
    }
}

/// The signature of a solution payload: the first 64-bit word of the digest
/// of its canonical rendering.
pub open spec fn solution_signature_of(s: Solution) -> u64 {
    le_word(digest_of(encode_utf8(s.spec_json())))
}

/// The compacted projection of an output.
pub open spec fn metadata_of(d: OutputData) -> OutputMetaData {
    OutputMetaData {
        nonce: d.nonce,
        runtime_signature: d.runtime_signature,
        fuel_consumed: d.fuel_consumed,
        solution_signature: solution_signature_of(d.solution),
    }
}

pub open spec fn key_fuel_consumed() -> Seq<char> {
    seq!['f', 'u', 'e', 'l', '_', 'c', 'o', 'n', 's', 'u', 'm', 'e', 'd']
}

pub open spec fn key_nonce() -> Seq<char> {
    seq!['n', 'o', 'n', 'c', 'e']
}

pub open spec fn key_runtime_signature() -> Seq<char> {
    seq!['r', 'u', 'n', 't', 'i', 'm', 'e', '_', 's', 'i', 'g', 'n', 'a', 't', 'u', 'r', 'e']
}

pub open spec fn key_solution_signature() -> Seq<char> {
    seq!['s', 'o', 'l', 'u', 't', 'i', 'o', 'n', '_', 's', 'i', 'g', 'n', 'a', 't', 'u', 'r', 'e']
}

/// The canonical textual form of the metadata: a JSON object with its keys
/// in sorted order and fixed numeric formatting.
pub open spec fn metadata_json(m: OutputMetaData) -> Seq<char> {
    seq!['{'] + quoted(key_fuel_consumed()) + seq![':'] + dec_chars(m.fuel_consumed as nat)
        + seq![','] + quoted(key_nonce()) + seq![':'] + dec_chars(m.nonce as nat) + seq![',']
        + quoted(key_runtime_signature()) + seq![':'] + dec_chars(m.runtime_signature as nat)
        + seq![','] + quoted(key_solution_signature()) + seq![':'] + dec_chars(
        m.solution_signature as nat,
    ) + seq!['}']
}

/// The leaf hash of a compacted output: the digest of its canonical text.
pub open spec fn leaf_hash_of(m: OutputMetaData) -> Seq<u8> {
    digest_of(encode_utf8(metadata_json(m)))
}

impl OutputData {
    /// Canonicalizes the solution payload and reduces it to its fixed-width
    /// signature.
    pub fn calc_solution_signature(&self) -> (r: u64)
        ensures
            r == solution_signature_of(self.solution),
    {
        let json = solution_json(&self.solution);
        let digest = hash_text(json.as_str());
        le_word_of(&digest)
    }

    /// The compacted projection: nonce, runtime signature and fuel are
    /// carried over verbatim; the payload is replaced by its signature.
    pub fn to_meta_data(&self) -> (m: OutputMetaData)
        ensures
            m == metadata_of(*self),
    {
        OutputMetaData {
            nonce: self.nonce,
            runtime_signature: self.runtime_signature,
            fuel_consumed: self.fuel_consumed,
            solution_signature: self.calc_solution_signature(),
        }
    }
}

impl From<OutputData> for OutputMetaData {
    /// The compacted projection, as a plain conversion.
    fn from(data: OutputData) -> (r: OutputMetaData) {
        data.to_meta_data()
    }
}

impl vstd::std_specs::convert::FromSpecImpl<OutputData> for OutputMetaData {
    open spec fn obeys_from_spec() -> bool {
        true
    }

    open spec fn from_spec(data: OutputData) -> OutputMetaData {
        metadata_of(data)
    }
}

/// Renders the metadata in its canonical textual form.
fn metadata_to_json(m: &OutputMetaData) -> (r: String)
    ensures
        r@ == metadata_json(*m),
{
    let mut out = String::new();
    push_char(&mut out, '{');
    proof {
        reveal_strlit("fuel_consumed");
        reveal_strlit("nonce");
        reveal_strlit("runtime_signature");
        reveal_strlit("solution_signature");
        assert("fuel_consumed"@ =~= key_fuel_consumed());
        assert("nonce"@ =~= key_nonce());
        assert("runtime_signature"@ =~= key_runtime_signature());
        assert("solution_signature"@ =~= key_solution_signature());
    }
    crate::json::push_quoted(&mut out, "fuel_consumed");
    push_char(&mut out, ':');
    let d0 = u64_to_decimal(m.fuel_consumed);
    out.append(d0.as_str());
    push_char(&mut out, ',');
    crate::json::push_quoted(&mut out, "nonce");
    push_char(&mut out, ':');
    let d1 = u64_to_decimal(m.nonce);
    out.append(d1.as_str());
    push_char(&mut out, ',');
    crate::json::push_quoted(&mut out, "runtime_signature");
    push_char(&mut out, ':');
    let d2 = u64_to_decimal(m.runtime_signature);
    out.append(d2.as_str());
    push_char(&mut out, ',');
    crate::json::push_quoted(&mut out, "solution_signature");
    push_char(&mut out, ':');
    let d3 = u64_to_decimal(m.solution_signature);
    out.append(d3.as_str());
    push_char(&mut out, '}');
    proof {
        assert(out@ =~= metadata_json(*m));
    }
    out
}

impl OutputMetaData {
    /// The fixed-width leaf hash of this compacted output.
    pub fn to_leaf_hash(&self) -> (h: MerkleHash)
        ensures
            h@ == leaf_hash_of(*self),
    {
        let json = metadata_to_json(self);
        MerkleHash(hash_text(json.as_str()))
    }
}

impl OutputData {
    /// The leaf hash committed for this output: the hash of its compacted
    /// projection.
    pub fn to_leaf_hash(&self) -> (h: MerkleHash)
        ensures
            h@ == leaf_hash_of(metadata_of(*self)),
    {
        self.to_meta_data().to_leaf_hash()
    }
}

/// Leaf stability: two outputs whose solution payloads hold the same
/// key-value pairs — in whatever order they were built — and whose other
/// fields agree commit to the identical leaf hash.
pub proof fn lemma_leaf_stability(o1: OutputData, o2: OutputData)
    requires
        o1.solution.wf(),
        o2.solution.wf(),
        o1.solution@.to_multiset() == o2.solution@.to_multiset(),
        o1.nonce == o2.nonce,
        o1.runtime_signature == o2.runtime_signature,
        o1.fuel_consumed == o2.fuel_consumed,
    ensures
        leaf_hash_of(metadata_of(o1)) == leaf_hash_of(metadata_of(o2)),
{
    crate::json::lemma_sorted_members_unique(o1.solution@, o2.solution@);
    assert(o1.solution.spec_json() == o2.solution.spec_json());
}

} // verus!
