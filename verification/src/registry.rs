//! The claim registry: its record model, the three state transitions
//! (create, revoke, transfer) and their validation rules.

use vstd::prelude::*;

verus! {

/// An actor identity, handed in already authenticated by the host.
pub type AccountId = u64;

/// A logical-time value (for instance a block height) owned by the host clock.
pub type BlockNumber = u64;

/// Fixed configuration, read once when the registry is built and
/// immutable thereafter.
#[derive(Clone, Copy, Debug, PartialEq, Eq, Structural)]
pub struct Config {
    /// The largest content length (in bytes) that a claim may have.
    pub max_claim_length: u32,
}

/// Why a call was rejected.  Every error leaves the registry unchanged.
#[derive(Clone, Copy, Debug, PartialEq, Eq, Structural)]
pub enum Error {
    /// A record already exists for this content.
    ClaimAlreadyExist,
    /// The content is longer than the configured maximum.
    ClaimTooLong,
    /// No record exists for this content.
    ClaimNotExist,
    /// The caller does not own the record.
    NotClaimOwner,
}

/// A notification recorded for the host event sink after a successful
/// mutation, carrying the identities and the content bytes involved.
#[derive(Debug, PartialEq, Eq)]
pub enum Event {
    /// A claim was created: (who, content).
    ClaimCreated(AccountId, Vec<u8>),
    /// A claim was revoked: (who, content).
    ClaimRevoked(AccountId, Vec<u8>),
    /// A claim changed owner: (who, to, content).
    ClaimTransfered(AccountId, AccountId, Vec<u8>),
}

/// The mathematical shape of an emitted event.
pub enum EventView {
    Created { who: AccountId, content: Seq<u8> },
    Revoked { who: AccountId, content: Seq<u8> },
    Transfered { who: AccountId, to: AccountId, content: Seq<u8> },
}

impl View for Event {
    type V = EventView;

    open spec fn view(&self) -> EventView {
        match self {
            Event::ClaimCreated(who, content) => EventView::Created {
                who: *who,
                content: content@,
            },
            Event::ClaimRevoked(who, content) => EventView::Revoked {
                who: *who,
                content: content@,
            },
            Event::ClaimTransfered(who, to, content) => EventView::Transfered {
                who: *who,
                to: *to,
                content: content@,
            },
        }
    }
}

/// A whole event buffer, seen mathematically.
pub open spec fn events_view(s: Seq<Event>) -> Seq<EventView> {
    s.map_values(|e: Event| e@)
}

/// The abstract state of the registry: the configured bound, the host
/// clock as last set, the live records keyed by their content bytes,
/// and the events recorded so far.
#[verifier::ext_equal]
pub struct PalletView {
    pub max_claim_length: nat,
    pub block_number: BlockNumber,
    pub claims: Map<Seq<u8>, (AccountId, BlockNumber)>,
    pub events: Seq<EventView>,
}

impl PalletView {
    /// Every stored key respects the configured bound.  The bound is
    /// enforced at the boundary of each transition, so this holds of
    /// every reachable state.
    pub open spec fn inv(self) -> bool {
        forall|content: Seq<u8>|
            #[trigger] self.claims.contains_key(content) ==> content.len() <= self.max_claim_length
    }
}

/// The create transition: reject over-long content, then a duplicate
/// key; otherwise record (who, now) under the content and note the
/// event.  `now` is the clock value at the moment of insertion.
pub open spec fn spec_create(m: PalletView, who: AccountId, content: Seq<u8>) -> Result<
    PalletView,
    Error,
> {
    if content.len() > m.max_claim_length {
        Err(Error::ClaimTooLong)
    } else if m.claims.contains_key(content) {
        Err(Error::ClaimAlreadyExist)
    } else {
        Ok(
            PalletView {
                claims: m.claims.insert(content, (who, m.block_number)),
                events: m.events.push(EventView::Created { who, content }),
                ..m
            },
        )
    }
}

/// The revoke transition: reject over-long content, then a missing
/// record, then a caller who is not the owner; otherwise delete the
/// record and note the event.
pub open spec fn spec_revoke(m: PalletView, who: AccountId, content: Seq<u8>) -> Result<
    PalletView,
    Error,
> {
    if content.len() > m.max_claim_length {
        Err(Error::ClaimTooLong)
    } else if !m.claims.contains_key(content) {
        Err(Error::ClaimNotExist)
    } else if m.claims[content].0 != who {
        Err(Error::NotClaimOwner)
    } else {
        Ok(
            PalletView {
                claims: m.claims.remove(content),
                events: m.events.push(EventView::Revoked { who, content }),
                ..m
            },
        )
    }
}

/// The transfer transition: the same checks as revoke; on success the
/// record is overwritten with (to, now), the time refreshed to the
/// clock at the moment of the transfer.  Nothing forbids `to == who`.
pub open spec fn spec_transfer(
    m: PalletView,
    who: AccountId,
    content: Seq<u8>,
    to: AccountId,
) -> Result<PalletView, Error> {
    if content.len() > m.max_claim_length {
        Err(Error::ClaimTooLong)
    } else if !m.claims.contains_key(content) {
        Err(Error::ClaimNotExist)
    } else if m.claims[content].0 != who {
        Err(Error::NotClaimOwner)
    } else {
        Ok(
            PalletView {
                claims: m.claims.insert(content, (to, m.block_number)),
                events: m.events.push(EventView::Transfered { who, to, content }),
                ..m
            },
        )
    }
}

/// What a lookup returns: the record under the content, if any.
pub open spec fn spec_get(m: PalletView, content: Seq<u8>) -> Option<(AccountId, BlockNumber)> {
    if m.claims.contains_key(content) {
        Some(m.claims[content])
    } else {
        None
    }
}

/// One stored record: content bytes, owner, registration time.
type Entry = (Vec<u8>, AccountId, BlockNumber);

spec fn has_key(s: Seq<Entry>, content: Seq<u8>) -> bool {
    exists|i: int| 0 <= i < s.len() && (#[trigger] s[i]).0@ == content
}

spec fn index_of_key(s: Seq<Entry>, content: Seq<u8>) -> int {
    choose|i: int| 0 <= i < s.len() && (#[trigger] s[i]).0@ == content
}

spec fn claims_of(s: Seq<Entry>) -> Map<Seq<u8>, (AccountId, BlockNumber)> {
    Map::new(
        |content: Seq<u8>| has_key(s, content),
        |content: Seq<u8>| (s[index_of_key(s, content)].1, s[index_of_key(s, content)].2),
    )
}

spec fn distinct_keys(s: Seq<Entry>) -> bool {
    forall|i: int, j: int|
        0 <= i < j < s.len() ==> (#[trigger] s[i]).0@ != (#[trigger] s[j]).0@
}

spec fn bounded_keys(s: Seq<Entry>, max: nat) -> bool {
    forall|i: int| 0 <= i < s.len() ==> (#[trigger] s[i]).0@.len() <= max
}

/// The claim registry.  It owns the record store and the event buffer;
/// the host owns the clock value and sets it through
/// [`Pallet::set_block_number`].
pub struct Pallet {
    max_claim_length: u32,
    block_number: BlockNumber,
    proofs: Vec<Entry>,
    events: Vec<Event>,
}

impl View for Pallet {
    type V = PalletView;

    closed spec fn view(&self) -> PalletView {
        PalletView {
            max_claim_length: self.max_claim_length as nat,
            block_number: self.block_number,
            claims: claims_of(self.proofs@),
            events: events_view(self.events@),
        }
    }
}

impl Pallet {
    /// The record store holds each key at most once, and only keys
    /// within the configured bound.
    pub closed spec fn wf(&self) -> bool {
        &&& distinct_keys(self.proofs@)
        &&& bounded_keys(self.proofs@, self.max_claim_length as nat)
    }

    /// A fresh registry: no records, no events, the clock at zero.
    pub fn new(config: Config) -> (r: Pallet)
        ensures
            r.wf(),
            r@.max_claim_length == config.max_claim_length as nat,
            r@.block_number == 0,
            r@.claims == Map::<Seq<u8>, (AccountId, BlockNumber)>::empty(),
            r@.events == Seq::<EventView>::empty(),
    {
        let r = Pallet {
            max_claim_length: config.max_claim_length,
            block_number: 0,
            proofs: Vec::new(),
            events: Vec::new(),
        };
        proof {
            assert(r@.claims =~= Map::<Seq<u8>, (AccountId, BlockNumber)>::empty());
            assert(r@.events =~= Seq::<EventView>::empty());
        }
        r
    }

    /// The host clock moved on; the registry only reads this value.
    pub fn set_block_number(&mut self, n: BlockNumber)
        requires
            old(self).wf(),
        ensures
            final(self).wf(),
            final(self)@ == (PalletView { block_number: n, ..old(self)@ }),
    {
        self.block_number = n;
    }

    /// The clock value the next create or transfer would record.
    pub fn block_number(&self) -> (r: BlockNumber)
        ensures
            r == self@.block_number,
    {
        self.block_number
    }

    /// The configured length bound.
    pub fn max_claim_length(&self) -> (r: u32)
        ensures
            r as nat == self@.max_claim_length,
    {
        self.max_claim_length
    }

    /// The index of the record stored under `claim`, if any.
    fn find_claim_index(&self, claim: &Vec<u8>) -> (r: Option<usize>)
        ensures
            (match r {
                Some(i) => i < self.proofs@.len() && self.proofs@[i as int].0@ == claim@,
                None => !has_key(self.proofs@, claim@),
            }),
    {
        let mut i: usize = 0;
        while i < self.proofs.len()
            invariant
                i <= self.proofs@.len(),
                forall|j: int| 0 <= j < i ==> (#[trigger] self.proofs@[j]).0@ != claim@,
            decreases self.proofs@.len() - i,
        {
            if bytes_equal(&self.proofs[i].0, claim) {
                return Some(i);
            }
            i += 1;
        }
        None
    }

    /// The record stored under `claim`: its owner and the time the
    /// owner relation was established.
    pub fn get_claim(&self, claim: &Vec<u8>) -> (r: Option<(AccountId, BlockNumber)>)
        requires
            self.wf(),
        ensures
            r == spec_get(self@, claim@),
    {
        match self.find_claim_index(claim) {
            Some(i) => {
                proof {
                    lemma_key_at(self.proofs@, i as int);
                }
                Some((self.proofs[i].1, self.proofs[i].2))
            },
            None => None,
        }
    }

    /// Register `claim` for `origin` at the current clock value.
    ///
    /// Checks, in this order: the length bound, then the absence of a
    /// record for the same bytes.  On success the record
    /// `(origin, now)` is stored under the claim bytes and a
    /// `ClaimCreated` event is recorded; on an error nothing changes.
    pub fn create_claim(&mut self, origin: AccountId, claim: Vec<u8>) -> (r: Result<(), Error>)
        requires
            old(self).wf(),
        ensures
            final(self).wf(),
            (match r {
                Ok(_) => spec_create(old(self)@, origin, claim@) == Ok::<PalletView, Error>(
                    final(self)@,
                ),
                Err(e) => spec_create(old(self)@, origin, claim@) == Err::<PalletView, Error>(e)
                    && final(self)@ == old(self)@,
            }),
    {
        if claim.len() > self.max_claim_length as usize {
            return Err(Error::ClaimTooLong);
        }
        match self.find_claim_index(&claim) {
            Some(_) => {
                proof {
                    let i = choose|i: int|
                        0 <= i < self.proofs@.len() && (#[trigger] self.proofs@[i]).0@ == claim@;
                    lemma_key_at(self.proofs@, i);
                }
                return Err(Error::ClaimAlreadyExist);
            },
            None => {},
        }
        let content = copy_bytes(&claim);
        let now = self.block_number;
        let ghost s0 = self.proofs@;
        let ghost e = (content, origin, now);
        self.proofs.push((content, origin, now));
        proof {
            lemma_claims_push(s0, e);
        }
        self.events.push(Event::ClaimCreated(origin, claim));
        proof {
            assert forall|j: int| 0 <= j < self.proofs@.len() implies (
            #[trigger] self.proofs@[j]).0@.len() <= self.max_claim_length as nat by {
                if j < s0.len() {
                    assert(self.proofs@[j] == s0[j]);
                } else {
                    assert(self.proofs@[j] == e);
                }
            }
            let m1 = spec_create(old(self)@, origin, claim@)->Ok_0;
            assert(self@.events =~= m1.events);
            assert(self@ =~= m1);
        }
        Ok(())
    }

    /// Delete the record for `claim`, if `origin` owns it.
    ///
    /// Checks, in this order: the length bound, then that a record
    /// exists, then that `origin` is its owner.  On success the record
    /// is gone and a `ClaimRevoked` event is recorded; on an error
    /// nothing changes.
    pub fn revoke_claim(&mut self, origin: AccountId, claim: Vec<u8>) -> (r: Result<(), Error>)
        requires
            old(self).wf(),
        ensures
            final(self).wf(),
            (match r {
                Ok(_) => spec_revoke(old(self)@, origin, claim@) == Ok::<PalletView, Error>(
                    final(self)@,
                ),
                Err(e) => spec_revoke(old(self)@, origin, claim@) == Err::<PalletView, Error>(e)
                    && final(self)@ == old(self)@,
            }),
    {
        if claim.len() > self.max_claim_length as usize {
            return Err(Error::ClaimTooLong);
        }
        let i = match self.find_claim_index(&claim) {
            None => {
                return Err(Error::ClaimNotExist);
            },
            Some(i) => i,
        };
        proof {
            lemma_key_at(self.proofs@, i as int);
        }
        if self.proofs[i].1 != origin {
            return Err(Error::NotClaimOwner);
        }
        let ghost s0 = self.proofs@;
        let _removed = self.proofs.remove(i);
        proof {
            lemma_claims_remove(s0, i as int);
        }
        self.events.push(Event::ClaimRevoked(origin, claim));
        proof {
            s0.remove_ensures(i as int);
            assert forall|j: int| 0 <= j < self.proofs@.len() implies (
            #[trigger] self.proofs@[j]).0@.len() <= self.max_claim_length as nat by {
                let j0: int = if j < i { j } else { j + 1 };
                assert(self.proofs@[j] == s0[j0]);
            }
            let m1 = spec_revoke(old(self)@, origin, claim@)->Ok_0;
            assert(self@.events =~= m1.events);
            assert(self@ =~= m1);
        }
        Ok(())
    }

    /// Hand the record for `claim` over to `dest`, if `origin` owns it.
    ///
    /// The same checks as [`Pallet::revoke_claim`], in the same order.
    /// On success the record is overwritten with `(dest, now)` — the
    /// time is refreshed, not kept from creation — and a
    /// `ClaimTransfered` event is recorded; on an error nothing
    /// changes.  `dest == origin` is allowed and still refreshes the
    /// time.
    pub fn transfer_claim(
        &mut self,
        origin: AccountId,
        claim: Vec<u8>,
        dest: AccountId,
    ) -> (r: Result<(), Error>)
        requires
            old(self).wf(),
        ensures
            final(self).wf(),
            (match r {
                Ok(_) => spec_transfer(old(self)@, origin, claim@, dest) == Ok::<PalletView, Error>(
                    final(self)@,
                ),
                Err(e) => spec_transfer(old(self)@, origin, claim@, dest) == Err::<
                    PalletView,
                    Error,
                >(e) && final(self)@ == old(self)@,
            }),
    {
        if claim.len() > self.max_claim_length as usize {
            return Err(Error::ClaimTooLong);
        }
        let i = match self.find_claim_index(&claim) {
            None => {
                return Err(Error::ClaimNotExist);
            },
            Some(i) => i,
        };
        proof {
            lemma_key_at(self.proofs@, i as int);
        }
        if self.proofs[i].1 != origin {
            return Err(Error::NotClaimOwner);
        }
        let ghost s0 = self.proofs@;
        let entry = self.proofs.remove(i);
        let now = self.block_number;
        let ghost e = (entry.0, dest, now);
        proof {
            lemma_claims_remove(s0, i as int);
            s0.remove_ensures(i as int);
        }
        let ghost s1 = self.proofs@;
        self.proofs.push((entry.0, dest, now));
        proof {
            lemma_claims_push(s1, e);
            assert(claims_of(self.proofs@) =~= claims_of(s0).insert(claim@, (dest, now)));
        }
        self.events.push(Event::ClaimTransfered(origin, dest, claim));
        proof {
            assert forall|j: int| 0 <= j < self.proofs@.len() implies (
            #[trigger] self.proofs@[j]).0@.len() <= self.max_claim_length as nat by {
                if j < s1.len() {
                    let j0: int = if j < i { j } else { j + 1 };
                    assert(self.proofs@[j] == s1[j] && s1[j] == s0[j0]);
                } else {
                    assert(self.proofs@[j] == e);
                }
            }
            let m1 = spec_transfer(old(self)@, origin, claim@, dest)->Ok_0;
            assert(self@.events =~= m1.events);
            assert(self@ =~= m1);
        }
        Ok(())
    }

    /// The events recorded so far, oldest first, for the host sink to
    /// read or drain.
    pub fn events(&self) -> (r: &Vec<Event>)
        ensures
            events_view(r@) == self@.events,
    {
        &self.events
    }

    /// A well-formed registry's abstract state satisfies the length
    /// invariant on stored keys.
    pub proof fn lemma_wf_view_inv(&self)
        requires
            self.wf(),
        ensures
            self@.inv(),
    {
        assert forall|content: Seq<u8>| #[trigger] self@.claims.contains_key(content) implies
            content.len() <= self@.max_claim_length by {
            let i = index_of_key(self.proofs@, content);
            assert(0 <= i < self.proofs@.len() && self.proofs@[i].0@ == content);
        }
    }
}

/// A fresh vector holding the same bytes.
fn copy_bytes(src: &Vec<u8>) -> (r: Vec<u8>)
    ensures
        r@ == src@,
{
    let mut r: Vec<u8> = Vec::new();
    let mut i: usize = 0;
    while i < src.len()
        invariant
            i <= src@.len(),
            r@ == src@.subrange(0, i as int),
        decreases src@.len() - i,
    {
        r.push(src[i]);
        proof {
            assert(r@ =~= src@.subrange(0, i as int + 1));
        }
        i += 1;
    }
    proof {
        assert(r@ =~= src@);
    }
    r
}

/// At a valid index, the map built from the store looks up exactly
/// that entry, provided the keys are distinct.
proof fn lemma_key_at(s: Seq<Entry>, i: int)
    requires
        distinct_keys(s),
        0 <= i < s.len(),
    ensures
        has_key(s, s[i].0@),
        index_of_key(s, s[i].0@) == i,
        claims_of(s).contains_key(s[i].0@),
        claims_of(s)[s[i].0@] == (s[i].1, s[i].2),
{
    assert(has_key(s, s[i].0@));
    let j = index_of_key(s, s[i].0@);
    assert(0 <= j < s.len() && s[j].0@ == s[i].0@);
    if i < j {
        assert(s[i].0@ != s[j].0@);
    }
    if j < i {
        assert(s[j].0@ != s[i].0@);
    }
}

/// Appending an entry with a fresh key inserts it into the map.
proof fn lemma_claims_push(s: Seq<Entry>, e: Entry)
    requires
        distinct_keys(s),
        !has_key(s, e.0@),
    ensures
        distinct_keys(s.push(e)),
        claims_of(s.push(e)) == claims_of(s).insert(e.0@, (e.1, e.2)),
{
    let s2 = s.push(e);
    let n = s.len() as int;
    assert forall|i: int, j: int| 0 <= i < j < s2.len() implies (#[trigger] s2[i]).0@ != (
    #[trigger] s2[j]).0@ by {
        if j < n {
            assert(s2[i] == s[i] && s2[j] == s[j]);
            assert(s[i].0@ != s[j].0@);
        } else {
            assert(s2[j] == e);
            assert(s2[i] == s[i]);
            if s[i].0@ == e.0@ {
                assert(has_key(s, e.0@));
            }
        }
    }
    assert forall|k: Seq<u8>| #[trigger] has_key(s2, k) implies has_key(s, k) || k == e.0@ by {
        let i = index_of_key(s2, k);
        assert(0 <= i < s2.len() && s2[i].0@ == k);
        if i < n {
            assert(s2[i] == s[i]);
            assert(has_key(s, k));
        } else {
            assert(s2[i] == e);
        }
    }
    assert forall|k: Seq<u8>| #[trigger] has_key(s, k) implies has_key(s2, k) by {
        let i = index_of_key(s, k);
        assert(0 <= i < s.len() && s[i].0@ == k);
        assert(s2[i] == s[i]);
        assert(has_key(s2, k));
    }
    assert(s2[n] == e);
    lemma_key_at(s2, n);
    assert forall|k: Seq<u8>| #[trigger] has_key(s2, k) && k != e.0@ implies claims_of(s2)[k]
        == claims_of(s)[k] by {
        let i = index_of_key(s2, k);
        assert(0 <= i < s2.len() && s2[i].0@ == k);
        assert(i < n);
        assert(s2[i] == s[i]);
        lemma_key_at(s, i);
        lemma_key_at(s2, i);
    }
    assert(claims_of(s2) =~= claims_of(s).insert(e.0@, (e.1, e.2)));
}

/// Removing the entry at a valid index removes its key from the map.
proof fn lemma_claims_remove(s: Seq<Entry>, i: int)
    requires
        distinct_keys(s),
        0 <= i < s.len(),
    ensures
        distinct_keys(s.remove(i)),
        !has_key(s.remove(i), s[i].0@),
        claims_of(s.remove(i)) == claims_of(s).remove(s[i].0@),
{
    let s2 = s.remove(i);
    let n = s.len() as int;
    let k0 = s[i].0@;
    s.remove_ensures(i);
    assert forall|a: int, b: int| 0 <= a < b < s2.len() implies (#[trigger] s2[a]).0@ != (
    #[trigger] s2[b]).0@ by {
        let a0: int = if a < i { a } else { a + 1 };
        let b0: int = if b < i { b } else { b + 1 };
        assert(s2[a] == s[a0] && s2[b] == s[b0]);
        assert(s[a0].0@ != s[b0].0@);
    }
    assert forall|j: int| 0 <= j < s2.len() implies (#[trigger] s2[j]).0@ != k0 by {
        let j0: int = if j < i { j } else { j + 1 };
        assert(s2[j] == s[j0]);
        if j0 < i {
            assert(s[j0].0@ != s[i].0@);
        } else {
            assert(s[i].0@ != s[j0].0@);
        }
    }
    assert forall|k: Seq<u8>| #[trigger] has_key(s2, k) implies has_key(s, k) && k != k0 by {
        let j = index_of_key(s2, k);
        assert(0 <= j < s2.len() && s2[j].0@ == k);
        let j0: int = if j < i { j } else { j + 1 };
        assert(s2[j] == s[j0]);
        assert(has_key(s, k));
    }
    assert forall|k: Seq<u8>| #[trigger] has_key(s, k) && k != k0 implies has_key(s2, k) by {
        let j = index_of_key(s, k);
        assert(0 <= j < s.len() && s[j].0@ == k);
        assert(j != i);
        let j2: int = if j < i { j } else { j - 1 };
        assert(s2[j2] == s[j]);
        assert(has_key(s2, k));
    }
    assert forall|k: Seq<u8>| #[trigger] has_key(s2, k) implies claims_of(s2)[k] == claims_of(
        s,
    )[k] by {
        let j = index_of_key(s2, k);
        assert(0 <= j < s2.len() && s2[j].0@ == k);
        let j0: int = if j < i { j } else { j + 1 };
        assert(s2[j] == s[j0]);
        lemma_key_at(s2, j);
        lemma_key_at(s, j0);
    }
    assert(claims_of(s2) =~= claims_of(s).remove(k0));
}

/// Whether two byte vectors hold the same bytes.
fn bytes_equal(a: &Vec<u8>, b: &Vec<u8>) -> (r: bool)
    ensures
        r <==> a@ == b@,
{
    if a.len() != b.len() {
        return false;
    }
    let mut i: usize = 0;
    while i < a.len()
        invariant
            a@.len() == b@.len(),
            i <= a@.len(),
            forall|j: int| 0 <= j < i ==> a@[j] == b@[j],
        decreases a@.len() - i,
    {
        if a[i] != b[i] {
            return false;
        }
        i += 1;
    }
    proof {
        assert(a@ =~= b@);
    }
    true
}

} // verus!
