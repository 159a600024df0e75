//! Laws of the registry's transitions, stated and proved over the
//! abstract state.
//!
//! Each law quantifies over every abstract state and input; the
//! contracts of the executable methods in [`crate::registry`] tie each
//! method to the transition it implements, and already state that an
//! error leaves the registry unchanged.

use vstd::prelude::*;

use crate::registry::AccountId;
use crate::registry::BlockNumber;
use crate::registry::Error;
use crate::registry::PalletView;
use crate::registry::spec_create;
use crate::registry::spec_get;
use crate::registry::spec_revoke;
use crate::registry::spec_transfer;

verus! {

/// Length boundary: content whose length is exactly the configured
/// bound is accepted (absent a duplicate), whoever calls; content one
/// byte past the bound is rejected as too long, before anything else
/// is looked at.
pub proof fn lemma_length_boundary(m: PalletView, who: AccountId, content: Seq<u8>)
    ensures
        content.len() == m.max_claim_length && !m.claims.contains_key(content) ==> spec_create(
            m,
            who,
            content,
        ) matches Ok(_),
        content.len() == m.max_claim_length + 1 ==> spec_create(m, who, content) == Err::<
            PalletView,
            Error,
        >(Error::ClaimTooLong),
{
}

/// Uniqueness: once a create for some content has succeeded, a second
/// create for the same content fails with `ClaimAlreadyExist`, whoever
/// calls it, and the stored owner and time are still those of the
/// first create.
pub proof fn lemma_duplicate_create_rejected(
    m: PalletView,
    first: AccountId,
    second: AccountId,
    content: Seq<u8>,
    m1: PalletView,
)
    requires
        spec_create(m, first, content) == Ok::<PalletView, Error>(m1),
    ensures
        spec_create(m1, second, content) == Err::<PalletView, Error>(Error::ClaimAlreadyExist),
        spec_get(m1, content) == Some((first, m.block_number)),
{
}

/// Ownership gate: a record can be revoked or transferred only by its
/// owner; any other caller gets `NotClaimOwner`.  The state invariant
/// is needed so that the length check, which comes first, passes for
/// every stored key.
pub proof fn lemma_ownership_gate(
    m: PalletView,
    owner: AccountId,
    caller: AccountId,
    target: AccountId,
    content: Seq<u8>,
)
    requires
        m.inv(),
        m.claims.contains_key(content),
        m.claims[content].0 == owner,
        caller != owner,
    ensures
        spec_revoke(m, caller, content) == Err::<PalletView, Error>(Error::NotClaimOwner),
        spec_transfer(m, caller, content, target) == Err::<PalletView, Error>(
            Error::NotClaimOwner,
        ),
{
}

/// Revoke removes: after a successful revoke the record is gone, and a
/// later create for the same content succeeds for any caller, as if
/// the content were new.
pub proof fn lemma_revoke_removes(
    m: PalletView,
    owner: AccountId,
    next: AccountId,
    content: Seq<u8>,
    m1: PalletView,
)
    requires
        spec_revoke(m, owner, content) == Ok::<PalletView, Error>(m1),
    ensures
        spec_get(m1, content) == None::<(AccountId, BlockNumber)>,
        spec_create(m1, next, content) matches Ok(m2) && spec_get(m2, content) == Some(
            (next, m1.block_number),
        ),
{
}

/// Transfer updates atomically: after a successful transfer the record
/// holds the new owner and the clock value of the transfer, and a
/// follow-up revoke is authorized for the new owner and refused to the
/// old one.
pub proof fn lemma_transfer_updates(
    m: PalletView,
    from: AccountId,
    to: AccountId,
    content: Seq<u8>,
    m1: PalletView,
)
    requires
        spec_transfer(m, from, content, to) == Ok::<PalletView, Error>(m1),
    ensures
        spec_get(m1, content) == Some((to, m.block_number)),
        from != to ==> spec_revoke(m1, from, content) == Err::<PalletView, Error>(
            Error::NotClaimOwner,
        ),
        spec_revoke(m1, to, content) matches Ok(_),
{
}

/// Every transition preserves the length invariant on stored keys, so
/// it holds of every reachable state.
pub proof fn lemma_transitions_preserve_inv(
    m: PalletView,
    who: AccountId,
    to: AccountId,
    content: Seq<u8>,
)
    requires
        m.inv(),
    ensures
        spec_create(m, who, content) matches Ok(m1) ==> m1.inv(),
        spec_revoke(m, who, content) matches Ok(m1) ==> m1.inv(),
        spec_transfer(m, who, content, to) matches Ok(m1) ==> m1.inv(),
{
    match spec_create(m, who, content) {
        Ok(m1) => {
            assert forall|k: Seq<u8>| #[trigger] m1.claims.contains_key(k) implies k.len()
                <= m1.max_claim_length by {
                if k != content {
                    assert(m.claims.contains_key(k));
                }
            }
        },
        Err(_) => {},
    }
    match spec_revoke(m, who, content) {
        Ok(m1) => {
            assert forall|k: Seq<u8>| #[trigger] m1.claims.contains_key(k) implies k.len()
                <= m1.max_claim_length by {
                assert(m.claims.contains_key(k));
            }
        },
        Err(_) => {},
    }
    match spec_transfer(m, who, content, to) {
        Ok(m1) => {
            assert forall|k: Seq<u8>| #[trigger] m1.claims.contains_key(k) implies k.len()
                <= m1.max_claim_length by {
                if k != content {
                    assert(m.claims.contains_key(k));
                }
            }
        },
        Err(_) => {},
    }
}

} // verus!
