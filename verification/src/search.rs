//! Search coordination.
//!
//! Drives every candidate of the pool through passphrase assembly and vault
//! verification, stops at the first success, and reports the outcome: the
//! found passphrase with the recovered payload, or exhaustion of the pool.
//! Malformed configuration is rejected before any candidate is tried.

use vstd::prelude::*;
use vstd::utf8::encode_utf8;

use crate::crypto::{
    spec_params_ok, spec_passphrase_verify, verify_passphrase, KdfParams, VaultMaterial,
};
use crate::generator::{generate_pool, spec_pool, Attack};
use crate::orderer::{passphrase, spec_passphrase, SlotOrder};

verus! {

/// Shared run progress: how many candidates have been attempted, and whether
/// a success has been observed. Created at run start, discarded at run end.
pub struct SearchState {
    pub attempts: usize,
    pub found: bool,
}

impl SearchState {
    pub fn new() -> (r: SearchState)
        ensures
            r.attempts == 0,
            !r.found,
    {
        SearchState { attempts: 0, found: false }
    }

    /// Counts one attempted candidate. The counter only ever grows.
    pub fn record_attempt(&mut self)
        requires
            old(self).attempts < usize::MAX,
        ensures
            final(self).attempts == old(self).attempts + 1,
            final(self).found == old(self).found,
    {
        self.attempts = self.attempts + 1;
    }

    /// Records an observed success. Idempotent.
    pub fn mark_found(&mut self)
        ensures
            final(self).found,
            final(self).attempts == old(self).attempts,
    {
        self.found = true;
    }
}

/// The fixed attempt-count cadence of the progress side channel: a progress
/// report is due every five hundred attempts.
pub fn at_progress_cadence(attempts: usize) -> (r: bool)
    ensures
        r == (attempts % 500 == 0),
{
    attempts % 500 == 0
}

/// The terminal outcome of a run.
pub enum Outcome {
    /// A candidate opened the vault: its canonical passphrase and the
    /// recovered payload.
    Found { passphrase: String, plaintext: Vec<u8> },
    /// Every candidate in the pool was attempted and rejected.
    Exhausted,
    /// The run was aborted before any candidate was tried: the KDF
    /// parameters are out of range, or the salt is too short for the KDF.
    InvalidConfig,
}

/// The outcome of a run together with its final shared state.
pub struct RunReport {
    pub outcome: Outcome,
    pub state: SearchState,
}

/// Configuration the search accepts: KDF parameters in range and a salt long
/// enough for its base64 re-encoding to meet the KDF's 8-byte minimum.
pub open spec fn spec_config_ok(params: KdfParams, vault: VaultMaterial) -> bool {
    spec_params_ok(params) && vault.salt@.len() >= 6
}

/// Whether candidate `cand` opens the vault: its canonical passphrase is
/// short enough for the KDF, the key derived from it passes authenticated
/// decryption, and the payload carries the structural marker.
pub open spec fn spec_success(
    cand: Seq<Seq<char>>,
    ord: Seq<usize>,
    vault: VaultMaterial,
    params: KdfParams,
) -> bool {
    let pass = spec_passphrase(cand, ord);
    encode_utf8(pass).len() <= 0xFFFF_FFFF && spec_passphrase_verify(pass, vault, params) is Some
}

/// A successful report names a candidate: the one at position `i`, whose
/// passphrase and payload were returned, while every candidate before it was
/// attempted and rejected.
pub open spec fn spec_found_at(
    pool: Seq<Seq<Seq<char>>>,
    ord: Seq<usize>,
    vault: VaultMaterial,
    params: KdfParams,
    i: int,
    pass: Seq<char>,
    plaintext: Seq<u8>,
) -> bool {
    &&& 0 <= i < pool.len()
    &&& spec_success(pool[i], ord, vault, params)
    &&& pass == spec_passphrase(pool[i], ord)
    &&& spec_passphrase_verify(pass, vault, params) == Some(plaintext)
    &&& forall|j: int| 0 <= j < i ==> !spec_success(#[trigger] pool[j], ord, vault, params)
}

/// Runs the search over an already materialized candidate pool.
///
/// An empty pool is reported as exhausted at once, with nothing attempted.
/// Otherwise the configuration is validated before any candidate is tried;
/// then candidates are attempted in pool order until one succeeds or the
/// pool is exhausted. Exhaustion means every candidate was attempted and
/// none succeeds; a find names the first succeeding candidate.
pub fn search_pool(
    pool: &Vec<Vec<String>>,
    order: &SlotOrder,
    vault: &VaultMaterial,
    params: &KdfParams,
) -> (r: RunReport)
    requires
        order.wf(),
        vault.wf(),
        forall|i: int| 0 <= i < pool@.len() ==> (#[trigger] pool@[i])@.len() == 25,
    ensures
        r.state.attempts <= pool@.len(),
        r.state.found <==> r.outcome is Found,
        pool@.len() == 0 ==> r.outcome is Exhausted && r.state.attempts == 0,
        pool@.len() > 0 ==> ((r.outcome is InvalidConfig) <==> !spec_config_ok(
            *params,
            *vault,
        )),
        r.outcome is InvalidConfig ==> r.state.attempts == 0,
        r.outcome is Exhausted ==> r.state.attempts == pool@.len() && forall|i: int|
            0 <= i < pool.deep_view().len() ==> !spec_success(
                #[trigger] pool.deep_view()[i],
                order.spec_order(),
                *vault,
                *params,
            ),
        r.outcome is Found ==> exists|i: int|
            spec_found_at(
                pool.deep_view(),
                order.spec_order(),
                *vault,
                *params,
                i,
                (r.outcome->Found_passphrase)@,
                (r.outcome->Found_plaintext)@,
            ) && r.state.attempts == i + 1,
{
    let mut state = SearchState::new();
    if pool.len() == 0 {
        return RunReport { outcome: Outcome::Exhausted, state };
    }
    let cfg_ok = crate::crypto::params_ok(params) && vault.salt.len() >= 6;
    if !cfg_ok {
        return RunReport { outcome: Outcome::InvalidConfig, state };
    }
    let ghost dv = pool.deep_view();
    let ghost ordv = order.spec_order();
    let mut i: usize = 0;
    while i < pool.len()
        invariant
            order.wf(),
            vault.wf(),
            spec_config_ok(*params, *vault),
            dv == pool.deep_view(),
            ordv == order.spec_order(),
            forall|j: int| 0 <= j < pool@.len() ==> (#[trigger] pool@[j])@.len() == 25,
            i <= pool@.len(),
            state.attempts == i,
            !state.found,
            forall|j: int| 0 <= j < i ==> !spec_success(#[trigger] dv[j], ordv, *vault, *params),
        decreases pool@.len() - i,
    {
        let cand = &pool[i];
        let pass = passphrase(cand, order);
        proof {
            assert(dv[i as int] == cand.deep_view());
        }
        state.record_attempt();
        match verify_passphrase(pass.as_str(), vault, params) {
            Some(plaintext) => {
                state.mark_found();
                let report = RunReport {
                    outcome: Outcome::Found { passphrase: pass, plaintext },
                    state,
                };
                proof {
                    let gp = (report.outcome->Found_passphrase)@;
                    let gt = (report.outcome->Found_plaintext)@;
                    assert(spec_found_at(
                        pool.deep_view(),
                        order.spec_order(),
                        *vault,
                        *params,
                        i as int,
                        gp,
                        gt,
                    ) && report.state.attempts == i as int + 1);
                }
                return report;
            },
            None => {
                proof {
                    assert(!spec_success(dv[i as int], ordv, *vault, *params));
                }
            },
        }
        i += 1;
    }
    RunReport { outcome: Outcome::Exhausted, state }
}

/// At-most-one reported success: when exactly one candidate of the pool
/// succeeds, any reported find names that candidate and carries exactly its
/// canonical passphrase, whatever order candidates were attempted in.
pub proof fn lemma_found_is_unique_match(
    pool: Seq<Seq<Seq<char>>>,
    ord: Seq<usize>,
    vault: VaultMaterial,
    params: KdfParams,
    i: int,
    j: int,
    pass: Seq<char>,
    plaintext: Seq<u8>,
)
    requires
        spec_found_at(pool, ord, vault, params, i, pass, plaintext),
        0 <= j < pool.len(),
        spec_success(pool[j], ord, vault, params),
        forall|k: int|
            0 <= k < pool.len() && k != j ==> !spec_success(#[trigger] pool[k], ord, vault, params),
    ensures
        i == j,
        pass == spec_passphrase(pool[j], ord),
{
    if i != j {
        assert(!spec_success(pool[i], ord, vault, params));
    }
}

/// The whole run: expands the base profile and the attacks into the
/// candidate pool, then searches it. The outcome facts hold of the pool the
/// expansion is specified to build.
pub fn run_search(
    base: &Vec<String>,
    attacks: &Vec<Attack>,
    order: &SlotOrder,
    vault: &VaultMaterial,
    params: &KdfParams,
) -> (r: RunReport)
    requires
        base@.len() == 25,
        forall|i: int| 0 <= i < attacks@.len() ==> (#[trigger] attacks@[i]).index < 25,
        order.wf(),
        vault.wf(),
    ensures
        r.state.attempts <= spec_pool(base.deep_view(), attacks@).len(),
        r.state.found <==> r.outcome is Found,
        spec_pool(base.deep_view(), attacks@).len() == 0 ==> r.outcome is Exhausted
            && r.state.attempts == 0,
        spec_pool(base.deep_view(), attacks@).len() > 0 ==> ((r.outcome is InvalidConfig)
            <==> !spec_config_ok(*params, *vault)),
        r.outcome is InvalidConfig ==> r.state.attempts == 0,
        r.outcome is Exhausted ==> r.state.attempts == spec_pool(
            base.deep_view(),
            attacks@,
        ).len() && forall|i: int|
            0 <= i < spec_pool(base.deep_view(), attacks@).len() ==> !spec_success(
                #[trigger] spec_pool(base.deep_view(), attacks@)[i],
                order.spec_order(),
                *vault,
                *params,
            ),
        r.outcome is Found ==> exists|i: int|
            spec_found_at(
                spec_pool(base.deep_view(), attacks@),
                order.spec_order(),
                *vault,
                *params,
                i,
                (r.outcome->Found_passphrase)@,
                (r.outcome->Found_plaintext)@,
            ) && r.state.attempts == i + 1,
{
    let pool = generate_pool(base, attacks);
    search_pool(&pool, order, vault, params)
}

} // verus!
