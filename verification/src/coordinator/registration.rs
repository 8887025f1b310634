//! Registration: which agents are taken into the fleet.
//!
//! An agent has to show that it owns the VRF key it names, to stand on the
//! enrollment list where there is one, and to name a usable signing key, in this
//! order.

use crate::capabilities::Capabilities;
use crate::enrollment::{fingerprint, EnrollmentSet};
use crate::proto::{registration_challenge, Envelope};
use crate::signing::VerifyingKey;
use crate::vrf;
use crate::vrf::VrfError;
use vstd::prelude::*;

verus! {

/// A member of the fleet, as it registered.
#[derive(Clone, Copy, Debug, PartialEq, Eq)]
pub struct Runner {
    /// Runner identifier.
    pub runner_id: u64,
    /// Key that its attestations are verified with.
    pub signing_pk: VerifyingKey,
    /// Key that its VRF claims are verified with.
    pub vrf_pk: [u8; 32],
    /// Stake it committed.
    pub stake: u64,
    /// What it offers.
    pub capabilities: Capabilities,
}

/// Why an agent was not taken into the fleet.
#[derive(Clone, Copy, Debug, PartialEq, Eq)]
pub enum Refusal {
    /// The message was no registration.
    NotARegistration,
    /// The VRF proof does not show that the agent owns the key.
    VrfRejected(VrfError),
    /// The agent is not on the enrollment list with these keys.
    NotEnrolled {
        /// Runner identifier it named.
        runner_id: u64,
        /// Fingerprint of the signing key it named.
        signing_fp: [u8; 32],
        /// Fingerprint of the VRF key it named.
        vrf_fp: [u8; 32],
    },
    /// The signing key is no key.
    BadSigningKey,
}

/// Whether the list, where there is one, holds an agent with these keys.
pub open spec fn is_listed(
    list: Option<Map<u64, crate::enrollment::Enrollment>>,
    runner_id: u64,
    signing_pubkey: Seq<u8>,
    vrf_pubkey: Seq<u8>,
) -> bool {
    match list {
        None => true,
        Some(set) => crate::enrollment::enrolled(
            set,
            runner_id,
            crate::boundary::sha::sha256_of(signing_pubkey),
            crate::boundary::sha::sha256_of(vrf_pubkey),
        ),
    }
}

/// Whether this is what becomes of a registration.
pub open spec fn is_decision(
    env: Envelope,
    list: Option<Map<u64, crate::enrollment::Enrollment>>,
    r: Result<Runner, Refusal>,
) -> bool {
    match env {
        Envelope::Register {
            runner_id,
            signing_pubkey,
            vrf_pubkey,
            vrf_output,
            vrf_proof,
            stake,
            capabilities,
        } => match vrf::verify_result(
            vrf_pubkey@,
            crate::proto::challenge_bytes(),
            vrf_output@,
            vrf_proof@,
        ) {
            Err(e) => r == Err::<Runner, Refusal>(Refusal::VrfRejected(e)),
            Ok(_) => if !is_listed(list, runner_id, signing_pubkey@, vrf_pubkey@) {
                &&& r matches Err(Refusal::NotEnrolled { runner_id: id, signing_fp, vrf_fp })
                &&& id == runner_id
                &&& signing_fp@ == crate::boundary::sha::sha256_of(signing_pubkey@)
                &&& vrf_fp@ == crate::boundary::sha::sha256_of(vrf_pubkey@)
            } else if !crate::boundary::ed25519::is_public_key(signing_pubkey@) {
                r == Err::<Runner, Refusal>(Refusal::BadSigningKey)
            } else {
                &&& r matches Ok(runner)
                &&& runner.runner_id == runner_id
                &&& runner.signing_pk@ == signing_pubkey@
                &&& runner.vrf_pk == vrf_pubkey
                &&& runner.stake == stake
                &&& runner.capabilities == capabilities
            },
        },
        _ => r == Err::<Runner, Refusal>(Refusal::NotARegistration),
    }
}

/// The list that a gate goes by, where there is a gate.
pub open spec fn list_of(enrollment: Option<&EnrollmentSet>) -> Option<
    Map<u64, crate::enrollment::Enrollment>,
> {
    match enrollment {
        Some(set) => Some(set@),
        None => None,
    }
}

/// Decide on a registration. Without a list every agent that owns its VRF key
/// and names a usable signing key is taken.
///
/// # Errors
///
/// The first of the checks that the agent does not pass.
pub fn check_registration(env: &Envelope, enrollment: Option<&EnrollmentSet>) -> (r: Result<
    Runner,
    Refusal,
>)
    ensures
        is_decision(*env, list_of(enrollment), r),
{
    match env {
        Envelope::Register {
            runner_id,
            signing_pubkey,
            vrf_pubkey,
            vrf_output,
            vrf_proof,
            stake,
            capabilities,
        } => {
            if let Err(e) = vrf::verify(
                vrf_pubkey,
                registration_challenge(),
                vrf_output,
                vrf_proof,
            ) {
                return Err(Refusal::VrfRejected(e));
            }
            if let Some(set) = enrollment {
                let signing_fp = fingerprint(signing_pubkey);
                let vrf_fp = fingerprint(vrf_pubkey);
                if !set.is_enrolled(*runner_id, &signing_fp, &vrf_fp) {
                    return Err(Refusal::NotEnrolled { runner_id: *runner_id, signing_fp, vrf_fp });
                }
            }
            match VerifyingKey::from_bytes(signing_pubkey) {
                Ok(signing_pk) => Ok(
                    Runner {
                        runner_id: *runner_id,
                        signing_pk,
                        vrf_pk: *vrf_pubkey,
                        stake: *stake,
                        capabilities: *capabilities,
                    },
                ),
                Err(_) => Err(Refusal::BadSigningKey),
            }
        },
        _ => Err(Refusal::NotARegistration),
    }
}

/// Nobody gets past the list: an agent that was taken is on it, with both keys.
pub proof fn law_only_listed_agents_are_taken(
    env: Envelope,
    set: Map<u64, crate::enrollment::Enrollment>,
    r: Result<Runner, Refusal>,
)
    requires
        is_decision(env, Some(set), r),
        r is Ok,
    ensures
        crate::enrollment::enrolled(
            set,
            r->Ok_0.runner_id,
            crate::boundary::sha::sha256_of(r->Ok_0.signing_pk@),
            crate::boundary::sha::sha256_of(r->Ok_0.vrf_pk@),
        ),
{
}

/// An agent that cannot prove possession of its VRF key is refused, whatever
/// the list says of it.
pub proof fn law_possession_comes_first(
    env: Envelope,
    list: Option<Map<u64, crate::enrollment::Enrollment>>,
    r: Result<Runner, Refusal>,
)
    requires
        is_decision(env, list, r),
        env matches Envelope::Register { vrf_pubkey, vrf_output, vrf_proof, .. }
            && vrf::verify_result(
            vrf_pubkey@,
            crate::proto::challenge_bytes(),
            vrf_output@,
            vrf_proof@,
        ) is Err,
    ensures
        r matches Err(Refusal::VrfRejected(_)),
{
}

/// A registration is taken exactly if its VRF proof holds, both keys are on the
/// list where there is one, and the signing key is a key; the runner is then the
/// one that was announced, in every part.
pub proof fn law_runner_is_taken_as_announced(
    env: Envelope,
    list: Option<Map<u64, crate::enrollment::Enrollment>>,
    r: Result<Runner, Refusal>,
)
    requires
        is_decision(env, list, r),
    ensures
        match env {
            Envelope::Register {
                runner_id,
                signing_pubkey,
                vrf_pubkey,
                vrf_output,
                vrf_proof,
                stake,
                capabilities,
            } => {
                &&& r is Ok <==> {
                    &&& vrf::verify_result(
                        vrf_pubkey@,
                        crate::proto::challenge_bytes(),
                        vrf_output@,
                        vrf_proof@,
                    ) is Ok
                    &&& list matches Some(set) ==> set.contains_key(runner_id)
                        && set[runner_id].signing_fp == crate::boundary::sha::sha256_of(
                        signing_pubkey@,
                    ) && set[runner_id].vrf_fp == crate::boundary::sha::sha256_of(vrf_pubkey@)
                    &&& crate::boundary::ed25519::is_public_key(signing_pubkey@)
                }
                &&& r matches Ok(runner) ==> runner.runner_id == runner_id && runner.signing_pk@
                    == signing_pubkey@ && runner.vrf_pk == vrf_pubkey && runner.stake == stake
                    && runner.capabilities == capabilities
            },
            _ => r is Err,
        },
{
}

/// A registration is refused for its proof first, then for the list, then for its
/// signing key, and told which.
pub proof fn law_refusal_says_what_is_wrong(
    env: Envelope,
    list: Option<Map<u64, crate::enrollment::Enrollment>>,
    r: Result<Runner, Refusal>,
)
    requires
        is_decision(env, list, r),
    ensures
        r == Err::<Runner, Refusal>(Refusal::NotARegistration) <==> !(env is Register),
        env matches Envelope::Register {
            runner_id,
            signing_pubkey,
            vrf_pubkey,
            vrf_output,
            vrf_proof,
            ..
        } ==> {
            let proved = vrf::verify_result(
                vrf_pubkey@,
                crate::proto::challenge_bytes(),
                vrf_output@,
                vrf_proof@,
            );
            let listed = list matches Some(set) ==> set.contains_key(runner_id)
                && set[runner_id].signing_fp == crate::boundary::sha::sha256_of(signing_pubkey@)
                && set[runner_id].vrf_fp == crate::boundary::sha::sha256_of(vrf_pubkey@);
            &&& proved is Err ==> r == Err::<Runner, Refusal>(
                Refusal::VrfRejected(proved->Err_0),
            )
            &&& proved is Ok && !listed ==> (r matches Err(
                Refusal::NotEnrolled { runner_id: id, signing_fp, vrf_fp },
            ) && id == runner_id && signing_fp@ == crate::boundary::sha::sha256_of(
                signing_pubkey@,
            ) && vrf_fp@ == crate::boundary::sha::sha256_of(vrf_pubkey@))
            &&& proved is Ok && listed && !crate::boundary::ed25519::is_public_key(signing_pubkey@)
                ==> r == Err::<Runner, Refusal>(Refusal::BadSigningKey)
        },
{
}

} // verus!
