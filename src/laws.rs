//! Properties of the registry that relate several operations.
use vstd::prelude::*;

use crate::registry::{
    create_result, create_state, authorize, revoke_state, transfer_state, AccountId, BlockNumber,
    Claim, Error, Origin,
};

verus! {

/// After a successful create of `f`, a second create of `f` fails with `ProofAlreadyExist`,
/// whoever asks, and leaves the registry as it was.
pub proof fn lemma_create_then_create_fails(
    m: Map<Seq<u8>, Claim>,
    r: AccountId,
    r2: AccountId,
    f: Seq<u8>,
    t: BlockNumber,
    t2: BlockNumber,
)
    requires
        create_result(m, Origin::Signed(r), f) is Ok,
    ensures
        create_state(m, Origin::Signed(r), f, t).contains_key(f),
        create_result(create_state(m, Origin::Signed(r), f, t), Origin::Signed(r2), f)
            == Err::<(), Error>(Error::ProofAlreadyExist),
        create_state(create_state(m, Origin::Signed(r), f, t), Origin::Signed(r2), f, t2)
            == create_state(m, Origin::Signed(r), f, t),
{
}

/// A claimed fingerprint stays claimed through every operation but a successful revoke of
/// it, and while it is claimed every create of it fails with `ProofAlreadyExist`.
pub proof fn lemma_claim_stays_until_revoked(
    m: Map<Seq<u8>, Claim>,
    f: Seq<u8>,
    origin: Origin,
    g: Seq<u8>,
    to: AccountId,
    now: BlockNumber,
    r2: AccountId,
)
    requires
        m.contains_key(f),
    ensures
        create_result(m, Origin::Signed(r2), f) == Err::<(), Error>(Error::ProofAlreadyExist),
        create_state(m, origin, g, now).contains_key(f),
        transfer_state(m, origin, g, to, now).contains_key(f),
        g != f || authorize(m, origin, g) is Err ==> revoke_state(m, origin, g).contains_key(f),
{
}

/// On a claim owned by `m[f].owner`, revoke and transfer by `r` fail with `NotClaimOwner`
/// when `r` is not the owner, and are let through when it is.
pub proof fn lemma_only_owner_acts(m: Map<Seq<u8>, Claim>, f: Seq<u8>, r: AccountId)
    requires
        m.contains_key(f),
    ensures
        m[f].owner != r ==> authorize(m, Origin::Signed(r), f) == Err::<(), Error>(Error::NotClaimOwner),
        m[f].owner == r ==> authorize(m, Origin::Signed(r), f) == Ok::<(), Error>(()),
{
}

/// On an absent fingerprint, revoke and transfer fail with `ClaimNotExist`, whoever asks.
pub proof fn lemma_absent_is_not_found(m: Map<Seq<u8>, Claim>, f: Seq<u8>, r: AccountId)
    requires
        !m.contains_key(f),
    ensures
        authorize(m, Origin::Signed(r), f) == Err::<(), Error>(Error::ClaimNotExist),
{
}

/// After a successful revoke of `f` by `o`, a second revoke of `f` by `o` fails with
/// `ClaimNotExist`.
pub proof fn lemma_revoke_twice(m: Map<Seq<u8>, Claim>, o: AccountId, f: Seq<u8>)
    requires
        authorize(m, Origin::Signed(o), f) is Ok,
    ensures
        !revoke_state(m, Origin::Signed(o), f).contains_key(f),
        authorize(revoke_state(m, Origin::Signed(o), f), Origin::Signed(o), f)
            == Err::<(), Error>(Error::ClaimNotExist),
{
}

/// A successful transfer of `f` from `o` to `n` keeps the set of fingerprints, makes `n`
/// the owner stamped with `now`, lets `n` transfer it on, and leaves `o` (when not `n`)
/// without rights over it; with a sequencer whose clock does not go back, the stamp does
/// not decrease.
pub proof fn lemma_transfer_moves_ownership(
    m: Map<Seq<u8>, Claim>,
    o: AccountId,
    f: Seq<u8>,
    n: AccountId,
    now: BlockNumber,
)
    requires
        authorize(m, Origin::Signed(o), f) is Ok,
    ensures
        transfer_state(m, Origin::Signed(o), f, n, now).dom() == m.dom(),
        transfer_state(m, Origin::Signed(o), f, n, now)[f] == (Claim { owner: n, recorded_at: now }),
        authorize(transfer_state(m, Origin::Signed(o), f, n, now), Origin::Signed(n), f)
            == Ok::<(), Error>(()),
        n != o ==> authorize(transfer_state(m, Origin::Signed(o), f, n, now), Origin::Signed(o), f)
            == Err::<(), Error>(Error::NotClaimOwner),
        now >= m[f].recorded_at ==> transfer_state(m, Origin::Signed(o), f, n, now)[f].recorded_at
            >= m[f].recorded_at,
{
    assert(transfer_state(m, Origin::Signed(o), f, n, now).dom() =~= m.dom());
}

/// A failing create, revoke or transfer leaves the registry exactly as it was.
pub proof fn lemma_failure_changes_nothing(
    m: Map<Seq<u8>, Claim>,
    origin: Origin,
    f: Seq<u8>,
    to: AccountId,
    now: BlockNumber,
)
    ensures
        create_result(m, origin, f) is Err ==> create_state(m, origin, f, now) == m,
        authorize(m, origin, f) is Err ==> revoke_state(m, origin, f) == m,
        authorize(m, origin, f) is Err ==> transfer_state(m, origin, f, to, now) == m,
{
}

} // verus!
