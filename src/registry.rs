//! The claim registry: each content fingerprint is bound to at most one owner and a
//! logical timestamp, and only the owner may revoke or transfer the claim.
use vstd::prelude::*;

verus! {

/// Identity of a party that may own claims.
pub type AccountId = u64;

/// Logical timestamp handed in by the sequencer that applies operations in order.
pub type BlockNumber = u64;

/// Where a call comes from. Only a signed origin names a verified identity.
#[derive(Clone, Copy, Debug, PartialEq, Eq, Structural)]
pub enum Origin {
    Signed(AccountId),
    Root,
    Unsigned,
}

/// Why an operation on the registry was refused.
#[derive(Clone, Copy, Debug, PartialEq, Eq, Structural)]
pub enum Error {
    /// The fingerprint is already claimed.
    ProofAlreadyExist,
    /// No claim exists for the fingerprint.
    ClaimNotExist,
    /// The claim belongs to another identity.
    NotClaimOwner,
    /// The call carries no verified identity.
    BadOrigin,
}

/// The entry the registry keeps for one fingerprint.
#[derive(Clone, Copy, Debug, PartialEq, Eq, Structural)]
pub struct Claim {
    pub owner: AccountId,
    pub recorded_at: BlockNumber,
}

/// The verified identity behind an origin.
pub open spec fn signer_of(origin: Origin) -> Result<AccountId, Error> {
    match origin {
        Origin::Signed(who) => Ok(who),
        _ => Err(Error::BadOrigin),
    }
}

/// Returns the identity of a signed origin, and refuses any other origin.
pub fn ensure_signed(origin: Origin) -> (r: Result<AccountId, Error>)
    ensures
        r == signer_of(origin),
{
    match origin {
        Origin::Signed(who) => Ok(who),
        _ => Err(Error::BadOrigin),
    }
}

/// Whether two byte strings hold the same bytes.
fn bytes_eq(a: &Vec<u8>, b: &Vec<u8>) -> (r: bool)
    ensures
        r == (a@ == b@),
{
    if a.len() != b.len() {
        return false;
    }
    let mut i: usize = 0;
    while i < a.len()
        invariant
            a@.len() == b@.len(),
            0 <= i <= a@.len(),
            a@.subrange(0, i as int) == b@.subrange(0, i as int),
        decreases a@.len() - i,
    {
        if a[i] != b[i] {
            assert(a@[i as int] != b@[i as int]);
            return false;
        }
        assert(a@.subrange(0, i + 1) =~= a@.subrange(0, i as int).push(a@[i as int]));
        assert(b@.subrange(0, i + 1) =~= b@.subrange(0, i as int).push(b@[i as int]));
        i = i + 1;
    }
    assert(a@ =~= a@.subrange(0, i as int));
    assert(b@ =~= b@.subrange(0, i as int));
    true
}

/// Notification of a successful operation, for the event sink.
#[derive(Debug, PartialEq, Eq)]
pub enum Event {
    /// Who claimed which fingerprint.
    ClaimCreated(AccountId, Vec<u8>),
    /// Who revoked which fingerprint.
    ClaimRevoked(AccountId, Vec<u8>),
    /// Who handed which fingerprint to whom.
    ClaimTransfered(AccountId, Vec<u8>, AccountId),
}

/// Whether no two entries share a fingerprint.
spec fn keys_unique(s: Seq<(Vec<u8>, Claim)>) -> bool {
    forall|i: int, j: int|
        0 <= i < s.len() && 0 <= j < s.len() && #[trigger] s[i].0@ == #[trigger] s[j].0@ ==> i == j
}

/// Whether some entry holds the fingerprint `k`.
spec fn has_key(s: Seq<(Vec<u8>, Claim)>, k: Seq<u8>) -> bool {
    exists|i: int| 0 <= i < s.len() && #[trigger] s[i].0@ == k
}

/// The map from fingerprint to claim that a list of entries stands for.
spec fn map_of(s: Seq<(Vec<u8>, Claim)>) -> Map<Seq<u8>, Claim> {
    Map::new(
        |k: Seq<u8>| has_key(s, k),
        |k: Seq<u8>| s[choose|i: int| 0 <= i < s.len() && #[trigger] s[i].0@ == k].1,
    )
}

proof fn lemma_map_of_at(s: Seq<(Vec<u8>, Claim)>, i: int)
    requires
        keys_unique(s),
        0 <= i < s.len(),
    ensures
        map_of(s).contains_key(s[i].0@),
        map_of(s)[s[i].0@] == s[i].1,
{
    let k = s[i].0@;
    assert(has_key(s, k));
    let j = choose|j: int| 0 <= j < s.len() && #[trigger] s[j].0@ == k;
    assert(s[j].0@ == s[i].0@);
}

proof fn lemma_map_of_push(s: Seq<(Vec<u8>, Claim)>, e: (Vec<u8>, Claim))
    requires
        keys_unique(s),
        !map_of(s).contains_key(e.0@),
    ensures
        keys_unique(s.push(e)),
        map_of(s.push(e)) == map_of(s).insert(e.0@, e.1),
{
    let t = s.push(e);
    assert forall|i: int, j: int|
        0 <= i < t.len() && 0 <= j < t.len() && #[trigger] t[i].0@ == #[trigger] t[j].0@ implies i == j by {
        if i < s.len() && j == s.len() {
            assert(s[i].0@ == e.0@);
            assert(has_key(s, e.0@));
        } else if j < s.len() && i == s.len() {
            assert(s[j].0@ == e.0@);
            assert(has_key(s, e.0@));
        } else if i < s.len() && j < s.len() {
            assert(s[i].0@ == s[j].0@);
        }
    }
    let m = map_of(s).insert(e.0@, e.1);
    assert forall|k: Seq<u8>| #[trigger] map_of(t).contains_key(k) <==> m.contains_key(k) by {
        if has_key(t, k) {
            let i = choose|i: int| 0 <= i < t.len() && #[trigger] t[i].0@ == k;
            if i < s.len() {
                assert(s[i].0@ == k);
                assert(has_key(s, k));
            }
        }
        if has_key(s, k) {
            let i = choose|i: int| 0 <= i < s.len() && #[trigger] s[i].0@ == k;
            assert(t[i].0@ == k);
        }
        if k == e.0@ {
            assert(t[s.len() as int].0@ == k);
        }
    }
    assert forall|k: Seq<u8>| #[trigger] map_of(t).contains_key(k) implies map_of(t)[k] == m[k] by {
        let i = choose|i: int| 0 <= i < t.len() && #[trigger] t[i].0@ == k;
        lemma_map_of_at(t, i);
        if i < s.len() {
            assert(s[i] == t[i]);
            lemma_map_of_at(s, i);
        }
    }
    assert(map_of(t) =~= m);
}

proof fn lemma_map_of_update(s: Seq<(Vec<u8>, Claim)>, i: int, e: (Vec<u8>, Claim))
    requires
        keys_unique(s),
        0 <= i < s.len(),
        e.0@ == s[i].0@,
    ensures
        keys_unique(s.update(i, e)),
        map_of(s.update(i, e)) == map_of(s).insert(e.0@, e.1),
{
    let t = s.update(i, e);
    let c = e.1;
    assert forall|a: int, b: int|
        0 <= a < t.len() && 0 <= b < t.len() && #[trigger] t[a].0@ == #[trigger] t[b].0@ implies a == b by {
        assert(t[a].0@ == s[a].0@);
        assert(t[b].0@ == s[b].0@);
    }
    let m = map_of(s).insert(s[i].0@, c);
    assert forall|k: Seq<u8>| #[trigger] map_of(t).contains_key(k) <==> m.contains_key(k) by {
        if has_key(t, k) {
            let a = choose|a: int| 0 <= a < t.len() && #[trigger] t[a].0@ == k;
            assert(t[a].0@ == s[a].0@);
            assert(s[a].0@ == k);
        }
        if has_key(s, k) {
            let a = choose|a: int| 0 <= a < s.len() && #[trigger] s[a].0@ == k;
            assert(t[a].0@ == s[a].0@);
            assert(t[a].0@ == k);
        }
        if k == s[i].0@ {
            assert(t[i].0@ == k);
        }
    }
    assert forall|k: Seq<u8>| #[trigger] map_of(t).contains_key(k) implies map_of(t)[k] == m[k] by {
        let a = choose|a: int| 0 <= a < t.len() && #[trigger] t[a].0@ == k;
        lemma_map_of_at(t, a);
        if a != i {
            assert(s[a] == t[a]);
            lemma_map_of_at(s, a);
        }
    }
    assert(map_of(t) =~= m);
}

proof fn lemma_map_of_remove(s: Seq<(Vec<u8>, Claim)>, i: int)
    requires
        keys_unique(s),
        0 <= i < s.len(),
    ensures
        keys_unique(s.remove(i)),
        map_of(s.remove(i)) == map_of(s).remove(s[i].0@),
{
    let t = s.remove(i);
    assert forall|a: int| 0 <= a < t.len() implies #[trigger] t[a] == s[if a < i { a } else { a + 1 }] by {}
    assert forall|a: int, b: int|
        0 <= a < t.len() && 0 <= b < t.len() && #[trigger] t[a].0@ == #[trigger] t[b].0@ implies a == b by {
        let a1 = if a < i { a } else { a + 1 };
        let b1 = if b < i { b } else { b + 1 };
        assert(t[a] == s[a1]);
        assert(t[b] == s[b1]);
        assert(s[a1].0@ == s[b1].0@);
    }
    let m = map_of(s).remove(s[i].0@);
    assert forall|k: Seq<u8>| #[trigger] map_of(t).contains_key(k) <==> m.contains_key(k) by {
        if has_key(t, k) {
            let a = choose|a: int| 0 <= a < t.len() && #[trigger] t[a].0@ == k;
            let a1 = if a < i { a } else { a + 1 };
            assert(t[a] == s[a1]);
            assert(s[a1].0@ == k);
            assert(a1 != i ==> s[a1].0@ != s[i].0@);
        }
        if has_key(s, k) && k != s[i].0@ {
            let a = choose|a: int| 0 <= a < s.len() && #[trigger] s[a].0@ == k;
            assert(a != i);
            let a0 = if a < i { a } else { a - 1 };
            assert(t[a0] == s[a]);
            assert(t[a0].0@ == k);
        }
    }
    assert forall|k: Seq<u8>| #[trigger] map_of(t).contains_key(k) implies map_of(t)[k] == m[k] by {
        let a = choose|a: int| 0 <= a < t.len() && #[trigger] t[a].0@ == k;
        lemma_map_of_at(t, a);
        let a1 = if a < i { a } else { a + 1 };
        assert(t[a] == s[a1]);
        lemma_map_of_at(s, a1);
    }
    assert(map_of(t) =~= m);
}


/// What `create_claim` answers on the map `m`.
pub open spec fn create_result(m: Map<Seq<u8>, Claim>, origin: Origin, f: Seq<u8>) -> Result<(), Error> {
    match signer_of(origin) {
        Err(e) => Err(e),
        Ok(_) => if m.contains_key(f) {
            Err(Error::ProofAlreadyExist)
        } else {
            Ok(())
        },
    }
}

/// The map after `create_claim`.
pub open spec fn create_state(
    m: Map<Seq<u8>, Claim>,
    origin: Origin,
    f: Seq<u8>,
    now: BlockNumber,
) -> Map<Seq<u8>, Claim> {
    match (create_result(m, origin, f), signer_of(origin)) {
        (Ok(_), Ok(who)) => m.insert(f, Claim { owner: who, recorded_at: now }),
        _ => m,
    }
}

/// The authorization shared by `revoke_claim` and `transfer_claim`: a verified identity, then an
/// existing claim, then ownership of it.
pub open spec fn authorize(m: Map<Seq<u8>, Claim>, origin: Origin, f: Seq<u8>) -> Result<(), Error> {
    match signer_of(origin) {
        Err(e) => Err(e),
        Ok(who) => if !m.contains_key(f) {
            Err(Error::ClaimNotExist)
        } else if m[f].owner != who {
            Err(Error::NotClaimOwner)
        } else {
            Ok(())
        },
    }
}

/// The map after `revoke_claim`.
pub open spec fn revoke_state(m: Map<Seq<u8>, Claim>, origin: Origin, f: Seq<u8>) -> Map<Seq<u8>, Claim> {
    if authorize(m, origin, f) is Ok {
        m.remove(f)
    } else {
        m
    }
}

/// The map after `transfer_claim`.
pub open spec fn transfer_state(
    m: Map<Seq<u8>, Claim>,
    origin: Origin,
    f: Seq<u8>,
    to: AccountId,
    now: BlockNumber,
) -> Map<Seq<u8>, Claim> {
    if authorize(m, origin, f) is Ok {
        m.insert(f, Claim { owner: to, recorded_at: now })
    } else {
        m
    }
}

/// Success or failure of an operation, without its event.
pub open spec fn outcome(r: Result<Event, Error>) -> Result<(), Error> {
    match r {
        Ok(_) => Ok(()),
        Err(e) => Err(e),
    }
}

/// The claim registry: at most one claim per fingerprint.
pub struct Pallet {
    entries: Vec<(Vec<u8>, Claim)>,
}

impl View for Pallet {
    type V = Map<Seq<u8>, Claim>;

    closed spec fn view(&self) -> Map<Seq<u8>, Claim> {
        map_of(self.entries@)
    }
}

impl Pallet {
    /// The registry's internal invariant.
    pub closed spec fn wf(&self) -> bool {
        keys_unique(self.entries@)
    }

    /// An empty registry.
    pub fn new() -> (r: Pallet)
        ensures
            r.wf(),
            r@ == Map::<Seq<u8>, Claim>::empty(),
    {
        let r = Pallet { entries: Vec::new() };
        assert(r@ =~= Map::<Seq<u8>, Claim>::empty());
        r
    }

    /// The position of the entry for `claim`, if there is one.
    fn find(&self, claim: &Vec<u8>) -> (r: Option<usize>)
        requires
            self.wf(),
        ensures
            match r {
                Some(i) => i < self.entries@.len() && self.entries@[i as int].0@ == claim@,
                None => !self@.contains_key(claim@),
            },
    {
        let mut i: usize = 0;
        while i < self.entries.len()
            invariant
                0 <= i <= self.entries@.len(),
                forall|j: int| 0 <= j < i ==> #[trigger] self.entries@[j].0@ != claim@,
            decreases self.entries@.len() - i,
        {
            if bytes_eq(&self.entries[i].0, claim) {
                return Some(i);
            }
            i = i + 1;
        }
        None
    }

    /// Whether `claim` is registered.
    pub fn contains_key(&self, claim: &Vec<u8>) -> (r: bool)
        requires
            self.wf(),
        ensures
            r == self@.contains_key(claim@),
    {
        match self.find(claim) {
            Some(i) => {
                proof { lemma_map_of_at(self.entries@, i as int); }
                true
            },
            None => false,
        }
    }

    /// The claim registered for `claim`, if any.
    pub fn proofs(&self, claim: &Vec<u8>) -> (r: Option<Claim>)
        requires
            self.wf(),
        ensures
            r == (if self@.contains_key(claim@) {
                Some(self@[claim@])
            } else {
                None
            }),
    {
        match self.find(claim) {
            Some(i) => {
                proof { lemma_map_of_at(self.entries@, i as int); }
                Some(self.entries[i].1)
            },
            None => None,
        }
    }

    /// Registers `claim` for the signer of `origin`, stamped with `now`.
    pub fn create_claim(&mut self, origin: Origin, claim: Vec<u8>, now: BlockNumber) -> (r: Result<Event, Error>)
        requires
            old(self).wf(),
        ensures
            final(self).wf(),
            outcome(r) == create_result(old(self)@, origin, claim@),
            final(self)@ == create_state(old(self)@, origin, claim@, now),
            r is Ok ==> r == Ok::<Event, Error>(Event::ClaimCreated(signer_of(origin)->Ok_0, claim)),
    {
        let who = match ensure_signed(origin) {
            Ok(who) => who,
            Err(e) => return Err(e),
        };
        if self.contains_key(&claim) {
            return Err(Error::ProofAlreadyExist);
        }
        let key = claim.clone();
        let entry = (key, Claim { owner: who, recorded_at: now });
        proof { lemma_map_of_push(self.entries@, entry); }
        self.entries.push(entry);
        Ok(Event::ClaimCreated(who, claim))
    }

    /// Removes `claim`, if it exists and belongs to the signer of `origin`.
    pub fn revoke_claim(&mut self, origin: Origin, claim: Vec<u8>) -> (r: Result<Event, Error>)
        requires
            old(self).wf(),
        ensures
            final(self).wf(),
            outcome(r) == authorize(old(self)@, origin, claim@),
            final(self)@ == revoke_state(old(self)@, origin, claim@),
            r is Ok ==> r == Ok::<Event, Error>(Event::ClaimRevoked(signer_of(origin)->Ok_0, claim)),
    {
        let who = match ensure_signed(origin) {
            Ok(who) => who,
            Err(e) => return Err(e),
        };
        let i = match self.find(&claim) {
            Some(i) => i,
            None => return Err(Error::ClaimNotExist),
        };
        proof { lemma_map_of_at(self.entries@, i as int); }
        if self.entries[i].1.owner != who {
            return Err(Error::NotClaimOwner);
        }
        proof { lemma_map_of_remove(self.entries@, i as int); }
        self.entries.remove(i);
        Ok(Event::ClaimRevoked(who, claim))
    }

    /// Hands `claim` to `recv_account`, stamped with `now`, if it exists and belongs to the
    /// signer of `origin`.
    pub fn transfer_claim(
        &mut self,
        origin: Origin,
        claim: Vec<u8>,
        recv_account: AccountId,
        now: BlockNumber,
    ) -> (r: Result<Event, Error>)
        requires
            old(self).wf(),
        ensures
            final(self).wf(),
            outcome(r) == authorize(old(self)@, origin, claim@),
            final(self)@ == transfer_state(old(self)@, origin, claim@, recv_account, now),
            r is Ok ==> r == Ok::<Event, Error>(
                Event::ClaimTransfered(signer_of(origin)->Ok_0, claim, recv_account),
            ),
    {
        let who = match ensure_signed(origin) {
            Ok(who) => who,
            Err(e) => return Err(e),
        };
        let i = match self.find(&claim) {
            Some(i) => i,
            None => return Err(Error::ClaimNotExist),
        };
        proof { lemma_map_of_at(self.entries@, i as int); }
        if self.entries[i].1.owner != who {
            return Err(Error::NotClaimOwner);
        }
        let key = self.entries[i].0.clone();
        let entry = (key, Claim { owner: recv_account, recorded_at: now });
        proof { lemma_map_of_update(self.entries@, i as int, entry); }
        self.entries.set(i, entry);
        Ok(Event::ClaimTransfered(who, claim, recv_account))
    }
}

} // verus!
