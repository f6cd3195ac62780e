//! Lifecycle controller: the entities of the commit-reveal-audit protocol
//! and their forward-only, round-indexed confirmation states, with the
//! sampled-subset audit that decides between confirmation and fraud.

use vstd::prelude::*;
use crate::merkle::{branch_root, branch_root_of, MerkleBranch};
use crate::output::{leaf_hash_of, metadata_of, MerkleHash, OutputData};
use crate::sampler::{distinct_ids, ids_below, sample_nonces, sampled_ids};
use crate::settings::BenchmarkSettings;

verus! {

/// A forward-only confirmation state, stamped with the processing round in
/// which the entity was confirmed.
pub enum LifecycleState {
    Created,
    Confirmed { round: u32 },
}

/// The state of a revealed proof: confirmed, or flagged as fraud when the
/// audit found a mismatch.
pub enum ProofState {
    Created,
    Confirmed { round: u32 },
    FraudFlagged,
}

/// The declaration of intent: the participant commits to computing
/// `num_nonces` outputs under fixed settings and a fixed salt.
pub struct PrecommitDetails {
    pub block_started: u32,
    pub num_nonces: u32,
    pub rand_hash: String,
    pub fee_paid: u128,
}

pub struct Precommit {
    pub benchmark_id: String,
    pub details: PrecommitDetails,
    pub settings: BenchmarkSettings,
    pub state: LifecycleState,
}

/// The published commitment: a merkle root over all leaf hashes and the
/// subset of nonces the network will audit.
pub struct BenchmarkDetails {
    pub num_solutions: u32,
    pub merkle_root: MerkleHash,
    pub sampled_nonces: Vec<u64>,
}

pub struct Benchmark {
    pub id: String,
    pub details: BenchmarkDetails,
    pub state: LifecycleState,
}

/// The revealed evidence for one audited nonce: the full output and the
/// sibling-hash path from its leaf to the committed root.
pub struct MerkleProof {
    pub leaf: OutputData,
    pub branch: MerkleBranch,
}

pub struct ProofDetails {
    pub submission_delay: u32,
}

pub struct Proof {
    pub benchmark_id: String,
    pub details: ProofDetails,
    pub state: ProofState,
    pub merkle_proofs: Option<Vec<MerkleProof>>,
}

/// A raised fraud allegation against a benchmark.
pub struct Fraud {
    pub benchmark_id: String,
    pub state: LifecycleState,
    pub allegation: Option<String>,
}

/// Why an audit was not passed: the reveal did not cover exactly the
/// sampled subset (a protocol-usage error, no state transition), or a
/// revealed output disagreed with the commitment (fraud).
pub enum AuditError {
    SampleMismatch,
    VerificationFailure { nonce: u64 },
}

impl Benchmark {
    /// The committed sampled subset is duplicate-free and within the range
    /// a 32-bit nonce count allows.
    pub open spec fn wf(self) -> bool {
        &&& distinct_ids(self.details.sampled_nonces@)
        &&& forall|i: int|
            0 <= i < self.details.sampled_nonces@.len()
                ==> (#[trigger] self.details.sampled_nonces@[i]) <= u32::MAX as u64
    }
}

impl Precommit {
    /// Declares a new computation batch; it awaits confirmation.
    pub fn create(benchmark_id: String, details: PrecommitDetails, settings: BenchmarkSettings)
        -> (p: Precommit)
        ensures
            p.benchmark_id == benchmark_id,
            p.details == details,
            p.settings == settings,
            p.state is Created,
    {
        Precommit { benchmark_id, details, settings, state: LifecycleState::Created }
    }

    /// Confirms the precommit in the given round. Transitions are forward
    /// only: a precommit is confirmed at most once.
    pub fn confirm(&mut self, round: u32)
        requires
            old(self).state is Created,
        ensures
            final(self).state == (LifecycleState::Confirmed { round }),
            final(self).benchmark_id == old(self).benchmark_id,
            final(self).details == old(self).details,
            final(self).settings == old(self).settings,
    {
        self.state = LifecycleState::Confirmed { round };
    }
}

impl Benchmark {
    /// Publishes the commitment for a confirmed precommit: the merkle root
    /// over all leaves, with the audited subset drawn by the sampler from
    /// the declared nonce count and the public sampling randomness.
    pub fn create(
        precommit: &Precommit,
        num_solutions: u32,
        merkle_root: MerkleHash,
        sample_size: u32,
        sample_seed: &str,
    ) -> (b: Benchmark)
        requires
            precommit.state is Confirmed,
        ensures
            b.id == precommit.benchmark_id,
            b.details.num_solutions == num_solutions,
            b.details.merkle_root == merkle_root,
            b.details.sampled_nonces@ == sampled_ids(
                precommit.details.num_nonces as nat,
                sample_size as nat,
                sample_seed@,
            ),
            b.details.sampled_nonces@.len() == if sample_size < precommit.details.num_nonces {
                sample_size as nat
            } else {
                precommit.details.num_nonces as nat
            },
            ids_below(b.details.sampled_nonces@, precommit.details.num_nonces as nat),
            b.state is Created,
            b.wf(),
    {
        let sampled = sample_nonces(precommit.details.num_nonces, sample_size, sample_seed);
        proof {
            assert(ids_below(sampled@, precommit.details.num_nonces as nat));
        }
        Benchmark {
            id: precommit.benchmark_id.clone(),
            details: BenchmarkDetails {
                num_solutions,
                merkle_root,
                sampled_nonces: sampled,
            },
            state: LifecycleState::Created,
        }
    }

    /// Confirms the benchmark in the given round.
    pub fn confirm(&mut self, round: u32)
        requires
            old(self).state is Created,
        ensures
            final(self).state == (LifecycleState::Confirmed { round }),
            final(self).id == old(self).id,
            final(self).details == old(self).details,
    {
        self.state = LifecycleState::Confirmed { round };
    }
}

/// Whether the revealed proofs cover exactly the sampled subset: one proof
/// for every sampled nonce, no more, no fewer, nonces unique.
pub open spec fn covers_sample(sampled: Seq<u64>, proofs: Seq<MerkleProof>) -> bool {
    &&& proofs.len() == sampled.len()
    &&& forall|i: int|
        0 <= i < proofs.len() ==> sampled.contains(#[trigger] proofs[i].leaf.nonce)
    &&& forall|i: int, j: int|
        0 <= i < j < proofs.len() ==> proofs[i].leaf.nonce != proofs[j].leaf.nonce
}

/// Whether one revealed output checks out against the committed root: the
/// leaf hash recomputed from the full output, carried up the branch at the
/// nonce's position, reproduces the root.
pub open spec fn proof_ok(root: Seq<u8>, p: MerkleProof) -> bool {
    branch_root_of(leaf_hash_of(metadata_of(p.leaf)), p.leaf.nonce as nat, p.branch@) == root
}

/// The verdict over the proofs in order: the nonce of the first revealed
/// output that disagrees with the commitment, if any.
pub open spec fn scan_proofs(root: Seq<u8>, proofs: Seq<MerkleProof>, i: int) -> Result<
    (),
    AuditError,
>
    decreases proofs.len() - i,
{
    if i < 0 || i >= proofs.len() {
        Ok(())
    } else if !proof_ok(root, proofs[i]) {
        Err(AuditError::VerificationFailure { nonce: proofs[i].leaf.nonce })
    } else {
        scan_proofs(root, proofs, i + 1)
    }
}

/// The audit verdict over a benchmark's sampled subset and the revealed
/// evidence.
pub open spec fn audit_verdict(root: Seq<u8>, sampled: Seq<u64>, proofs: Seq<MerkleProof>)
    -> Result<(), AuditError> {
    if !covers_sample(sampled, proofs) {
        Err(AuditError::SampleMismatch)
    } else {
        scan_proofs(root, proofs, 0)
    }
}

/// Audits revealed proofs against a benchmark's commitment: exactly the
/// sampled nonces must be covered, and every leaf must verify against the
/// committed root at its nonce's position.
pub fn verify_proofs(benchmark: &Benchmark, proofs: &Vec<MerkleProof>) -> (r: Result<
    (),
    AuditError,
>)
    requires
        benchmark.wf(),
    ensures
        r == audit_verdict(
            benchmark.details.merkle_root@,
            benchmark.details.sampled_nonces@,
            proofs@,
        ),
{
    let sampled = &benchmark.details.sampled_nonces;
    let n = proofs.len();
    if n != sampled.len() {
        proof {
            assert(sampled@ == benchmark.details.sampled_nonces@);
            assert(!covers_sample(benchmark.details.sampled_nonces@, proofs@));
            assert(audit_verdict(benchmark.details.merkle_root@, benchmark.details.sampled_nonces@, proofs@) == Err::<(), AuditError>(AuditError::SampleMismatch));
        }
        return Err(AuditError::SampleMismatch);
    }
    let mut i: usize = 0;
    while i < n
        invariant
            n == proofs@.len(),
            n == sampled@.len(),
            i <= n,
            sampled@ == benchmark.details.sampled_nonces@,
            forall|p: int| 0 <= p < i ==> sampled@.contains(#[trigger] proofs@[p].leaf.nonce),
            forall|p: int, q: int|
                0 <= p < q < i ==> proofs@[p].leaf.nonce != proofs@[q].leaf.nonce,
        decreases n - i,
    {
        let nonce = proofs[i].leaf.nonce;
        if !contains_id(sampled, nonce) {
            proof {
                assert(!sampled@.contains(proofs@[i as int].leaf.nonce));
                assert(!covers_sample(benchmark.details.sampled_nonces@, proofs@));
                assert(audit_verdict(benchmark.details.merkle_root@, benchmark.details.sampled_nonces@, proofs@) == Err::<(), AuditError>(AuditError::SampleMismatch));
            }
            return Err(AuditError::SampleMismatch);
        }
        let mut p: usize = 0;
        while p < i
            invariant
                i < n,
                n == proofs@.len(),
                p <= i,
                nonce == proofs@[i as int].leaf.nonce,
                forall|q: int| 0 <= q < p ==> proofs@[q].leaf.nonce != nonce,
            decreases i - p,
        {
            if proofs[p].leaf.nonce == nonce {
                proof {
                    assert(proofs@[p as int].leaf.nonce == proofs@[i as int].leaf.nonce);
                    assert(!covers_sample(benchmark.details.sampled_nonces@, proofs@));
                    assert(audit_verdict(benchmark.details.merkle_root@, benchmark.details.sampled_nonces@, proofs@) == Err::<(), AuditError>(AuditError::SampleMismatch));
                }
                return Err(AuditError::SampleMismatch);
            }
            p = p + 1;
        }
        i = i + 1;
    }
    assert(covers_sample(sampled@, proofs@));
    let root = &benchmark.details.merkle_root;
    let mut i: usize = 0;
    while i < n
        invariant
            benchmark.wf(),
            n == proofs@.len(),
            n == sampled@.len(),
            i <= n,
            covers_sample(sampled@, proofs@),
            scan_proofs(root@, proofs@, 0) == scan_proofs(root@, proofs@, i as int),
            root == benchmark.details.merkle_root,
            sampled == benchmark.details.sampled_nonces,
        decreases n - i,
    {
        let nonce = proofs[i].leaf.nonce;
        proof {
            assert(sampled@.contains(nonce));
            let w = choose|w: int| 0 <= w < sampled@.len() && sampled@[w] == nonce;
            assert(sampled@[w] <= u32::MAX as u64);
        }
        let leaf = proofs[i].leaf.to_leaf_hash();
        let computed = branch_root(&leaf, nonce as usize, &proofs[i].branch);
        if !computed.eq_hash(root) {
            return Err(AuditError::VerificationFailure { nonce });
        }
        i = i + 1;
    }
    Ok(())
}

/// Whether a value occurs in the committed subset.
fn contains_id(ids: &Vec<u64>, x: u64) -> (r: bool)
    ensures
        r == ids@.contains(x),
{
    let mut i: usize = 0;
    while i < ids.len()
        invariant
            i <= ids@.len(),
            forall|p: int| 0 <= p < i ==> ids@[p] != x,
        decreases ids@.len() - i,
    {
        if ids[i] == x {
            return true;
        }
        i = i + 1;
    }
    false
}

impl Proof {
    /// Submits the revealed evidence; it awaits the audit.
    pub fn create(
        benchmark_id: String,
        details: ProofDetails,
        merkle_proofs: Vec<MerkleProof>,
    ) -> (p: Proof)
        ensures
            p.benchmark_id == benchmark_id,
            p.details == details,
            p.state is Created,
            p.merkle_proofs == Some(merkle_proofs),
    {
        Proof { benchmark_id, details, state: ProofState::Created, merkle_proofs: Some(merkle_proofs) }
    }

    /// Audits the revealed evidence and settles the proof's state for the
    /// round: confirmation on success; fraud on a verification failure; no
    /// transition at all on a sample mismatch, which is a usage error.
    pub fn settle(&mut self, benchmark: &Benchmark, round: u32) -> (r: Result<(), AuditError>)
        requires
            old(self).state is Created,
            old(self).merkle_proofs is Some,
            benchmark.wf(),
        ensures
            r == audit_verdict(
                benchmark.details.merkle_root@,
                benchmark.details.sampled_nonces@,
                old(self).merkle_proofs.unwrap()@,
            ),
            r is Ok ==> final(self).state == (ProofState::Confirmed { round }),
            r == Err::<(), AuditError>(AuditError::SampleMismatch) ==> final(self).state == old(
                self,
            ).state,
            (r matches Err(e) && e is VerificationFailure) ==> final(self).state
                is FraudFlagged,
            final(self).benchmark_id == old(self).benchmark_id,
            final(self).details == old(self).details,
            final(self).merkle_proofs == old(self).merkle_proofs,
    {
        let proofs = self.merkle_proofs.as_ref().unwrap();
        let verdict = verify_proofs(benchmark, proofs);
        proof {
            assert(proofs@ == old(self).merkle_proofs.unwrap()@);
        }
        match &verdict {
            Ok(()) => {
                self.state = ProofState::Confirmed { round };
            },
            Err(AuditError::SampleMismatch) => {},
            Err(AuditError::VerificationFailure { .. }) => {
                self.state = ProofState::FraudFlagged;
            },
        }
        verdict
    }
}

impl Fraud {
    /// Raises a fraud allegation against a benchmark.
    pub fn create(benchmark_id: String, allegation: Option<String>) -> (f: Fraud)
        ensures
            f.benchmark_id == benchmark_id,
            f.allegation == allegation,
            f.state is Created,
    {
        Fraud { benchmark_id, state: LifecycleState::Created, allegation }
    }

    /// Confirms the allegation in the given round.
    pub fn confirm(&mut self, round: u32)
        requires
            old(self).state is Created,
        ensures
            final(self).state == (LifecycleState::Confirmed { round }),
            final(self).benchmark_id == old(self).benchmark_id,
            final(self).allegation == old(self).allegation,
    {
        self.state = LifecycleState::Confirmed { round };
    }
}

/// A complete, honest reveal is accepted: when the proofs cover exactly the
/// sampled subset and every leaf reproduces the committed root, the audit
/// verdict is success.
pub proof fn lemma_honest_audit_accepted(
    root: Seq<u8>,
    sampled: Seq<u64>,
    proofs: Seq<MerkleProof>,
)
    requires
        covers_sample(sampled, proofs),
        forall|i: int| 0 <= i < proofs.len() ==> proof_ok(root, #[trigger] proofs[i]),
    ensures
        audit_verdict(root, sampled, proofs) == Ok::<(), AuditError>(()),
{
    lemma_scan_all_ok(root, proofs, 0);
}

proof fn lemma_scan_all_ok(root: Seq<u8>, proofs: Seq<MerkleProof>, i: int)
    requires
        forall|p: int| 0 <= p < proofs.len() ==> proof_ok(root, #[trigger] proofs[p]),
    ensures
        scan_proofs(root, proofs, i) == Ok::<(), AuditError>(()),
    decreases proofs.len() - i,
{
    if 0 <= i < proofs.len() {
        lemma_scan_all_ok(root, proofs, i + 1);
    }
}

/// A tampered reveal is flagged: when the proofs cover the sampled subset
/// but some revealed output does not reproduce the committed root, the
/// verdict is a verification failure — fraud — and never confirmation.
pub proof fn lemma_tamper_detected(root: Seq<u8>, sampled: Seq<u64>, proofs: Seq<MerkleProof>)
    requires
        covers_sample(sampled, proofs),
        exists|i: int| 0 <= i < proofs.len() && !proof_ok(root, #[trigger] proofs[i]),
    ensures
        audit_verdict(root, sampled, proofs) matches Err(e) && e is VerificationFailure,
{
    let i = choose|i: int| 0 <= i < proofs.len() && !proof_ok(root, #[trigger] proofs[i]);
    lemma_scan_finds_bad(root, proofs, 0, i);
}

proof fn lemma_scan_finds_bad(root: Seq<u8>, proofs: Seq<MerkleProof>, at: int, bad: int)
    requires
        0 <= at <= bad < proofs.len(),
        !proof_ok(root, proofs[bad]),
    ensures
        scan_proofs(root, proofs, at) matches Err(e) && e is VerificationFailure,
    decreases proofs.len() - at,
{
    if proof_ok(root, proofs[at]) {
        lemma_scan_finds_bad(root, proofs, at + 1, bad);
    }
}

/// An incomplete reveal is a sample mismatch: when one sampled nonce has no
/// proof, while every supplied proof names a sampled nonce and no nonce is
/// supplied twice, the verdict is a sample mismatch — a usage error, after
/// which the proof's state does not change.
pub proof fn lemma_missing_nonce_rejected(
    root: Seq<u8>,
    sampled: Seq<u64>,
    proofs: Seq<MerkleProof>,
    missing: u64,
)
    requires
        distinct_ids(sampled),
        sampled.contains(missing),
        forall|i: int| 0 <= i < proofs.len() ==> (#[trigger] proofs[i].leaf.nonce) != missing,
        forall|i: int|
            0 <= i < proofs.len() ==> sampled.contains(#[trigger] proofs[i].leaf.nonce),
        forall|i: int, j: int|
            0 <= i < j < proofs.len() ==> proofs[i].leaf.nonce != proofs[j].leaf.nonce,
    ensures
        audit_verdict(root, sampled, proofs) == Err::<(), AuditError>(AuditError::SampleMismatch),
{
    if covers_sample(sampled, proofs) {
        let nonces = Seq::new(proofs.len(), |i: int| proofs[i].leaf.nonce);
        // remove `missing` from `sampled`: the nonces still all occur in the
        // shorter list, which cannot hold as many distinct values as they are
        let k = choose|k: int| 0 <= k < sampled.len() && sampled[k] == missing;
        let rest = sampled.remove(k);
        assert forall|i: int| 0 <= i < nonces.len() implies rest.contains(
            #[trigger] nonces[i],
        ) by {
            let w = choose|w: int| 0 <= w < sampled.len() && sampled[w] == nonces[i];
            if w < k {
                assert(rest[w] == nonces[i]);
            } else {
                assert(w != k);
                assert(rest[w - 1] == nonces[i]);
            }
        }
        lemma_distinct_fit_in_pool(rest, nonces);
    }
}

/// A duplicate-free list is no longer than any list holding all its values.
proof fn lemma_distinct_fit_in_pool(pool: Seq<u64>, xs: Seq<u64>)
    requires
        distinct_ids(xs),
        forall|i: int| 0 <= i < xs.len() ==> pool.contains(#[trigger] xs[i]),
    ensures
        xs.len() <= pool.len(),
    decreases pool.len(),
{
    if xs.len() == 0 {
    } else if pool.len() == 0 {
        assert(pool.contains(xs[0]));
    } else {
        // the pool's last element occurs at most once in xs; drop both
        let last = pool[pool.len() - 1];
        let shorter = pool.drop_last();
        if exists|i: int| 0 <= i < xs.len() && xs[i] == last {
            let i = choose|i: int| 0 <= i < xs.len() && xs[i] == last;
            let ys = xs.remove(i);
            assert(distinct_ids(ys)) by {
                assert forall|p: int, q: int| 0 <= p < q < ys.len() implies ys[p] != ys[q] by {
                    if q < i {
                    } else if p < i {
                        assert(ys[q] == xs[q + 1]);
                    } else {
                        assert(ys[p] == xs[p + 1]);
                        assert(ys[q] == xs[q + 1]);
                    }
                }
            }
            assert forall|p: int| 0 <= p < ys.len() implies shorter.contains(
                #[trigger] ys[p],
            ) by {
                let orig: int = if p < i {
                    p
                } else {
                    p + 1
                };
                assert(ys[p] == xs[orig]);
                assert(xs[orig] != last) by {
                    if orig != i && xs[orig] == last {
                        assert(xs[i] == xs[orig]);
                    }
                }
                let w = choose|w: int| 0 <= w < pool.len() && pool[w] == xs[orig];
                assert(w < pool.len() - 1);
                assert(shorter[w] == xs[orig]);
            }
            lemma_distinct_fit_in_pool(shorter, ys);
        } else {
            assert forall|p: int| 0 <= p < xs.len() implies shorter.contains(
                #[trigger] xs[p],
            ) by {
                let w = choose|w: int| 0 <= w < pool.len() && pool[w] == xs[p];
                assert(w < pool.len() - 1);
                assert(shorter[w] == xs[p]);
            }
            lemma_distinct_fit_in_pool(shorter, xs);
        }
    }
}

} // verus!
