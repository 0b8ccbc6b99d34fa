//! The identity store: the keys that the agent holds, how a public key is
//! matched against them, and what the agent answers to each request.

use crate::error::AgentError;
use crate::identity::{Identity, Keypair};
use crate::key::{KeyData, PublicKey, PublicKeyView};
use crate::messages::{
    blobs_view, IdentityBlob, IdentityBlobView, Message, MessageView, Response, ResponseView,
};
use crate::sign::{SignRequest, SignRequestView};
use crate::signature::{HashAlg, Signature, SignatureView};
use crate::signer::sign_with;
use ssh_key::private::RsaKeypair;
use vstd::prelude::*;

verus! {

/// Whether no two of `ids` have the same public key.
pub open spec fn distinct_keys(ids: Seq<Identity>) -> bool {
    forall|i: int, j: int| 0 <= i < j < ids.len() ==> ids[i].key() != ids[j].key()
}

/// The place of the first of `ids` whose public key is `key`.
pub open spec fn position(ids: Seq<Identity>, key: Seq<u8>) -> Option<int>
    decreases ids.len(),
{
    if ids.len() == 0 {
        None
    } else {
        match position(ids.drop_last(), key) {
            Some(i) => Some(i),
            None => if ids.last().key() == key {
                Some(ids.len() - 1)
            } else {
                None
            },
        }
    }
}

/// `ids` without those whose public key an earlier one has already.
pub open spec fn dedup(ids: Seq<Identity>) -> Seq<Identity>
    decreases ids.len(),
{
    if ids.len() == 0 {
        Seq::<Identity>::empty()
    } else {
        let earlier = dedup(ids.drop_last());
        if position(earlier, ids.last().key()) is Some {
            earlier
        } else {
            earlier.push(ids.last())
        }
    }
}

/// What the agent lists for `ids`: each public key with its comment.
pub open spec fn listing_of(ids: Seq<Identity>) -> Seq<IdentityBlobView> {
    Seq::new(
        ids.len(),
        |i: int| IdentityBlobView { pubkey: ids[i].key(), comment: ids[i].comment@ },
    )
}

/// What [`position`] finds: an identity with the key that none before it
/// has, or nothing when none has the key.
pub proof fn lemma_position(ids: Seq<Identity>, key: Seq<u8>)
    ensures
        match position(ids, key) {
            Some(i) => {
                &&& 0 <= i < ids.len()
                &&& ids[i].key() == key
                &&& forall|j: int| 0 <= j < i ==> ids[j].key() != key
            },
            None => forall|j: int| 0 <= j < ids.len() ==> ids[j].key() != key,
        },
    decreases ids.len(),
{
    if ids.len() > 0 {
        lemma_position(ids.drop_last(), key);
        match position(ids.drop_last(), key) {
            Some(i) => {
                assert(ids.drop_last()[i] == ids[i]);
                assert forall|j: int| 0 <= j < i implies ids[j].key() != key by {
                    assert(ids.drop_last()[j] == ids[j]);
                }
            },
            None => {
                assert forall|j: int| 0 <= j < ids.len() - 1 implies ids[j].key() != key by {
                    assert(ids.drop_last()[j] == ids[j]);
                }
            },
        }
    }
}

/// An identity with the key that none before it has is the one that
/// [`position`] finds.
pub proof fn lemma_position_is(ids: Seq<Identity>, key: Seq<u8>, i: int)
    requires
        0 <= i < ids.len(),
        ids[i].key() == key,
        forall|j: int| 0 <= j < i ==> ids[j].key() != key,
    ensures
        position(ids, key) == Some(i),
{
    lemma_position(ids, key);
}

/// Where no two identities share a key, none is dropped.
pub proof fn lemma_dedup_of_distinct(ids: Seq<Identity>)
    requires
        distinct_keys(ids),
    ensures
        dedup(ids) == ids,
    decreases ids.len(),
{
    if ids.len() == 0 {
        assert(dedup(ids) =~= ids);
    } else {
        let front = ids.drop_last();
        assert(distinct_keys(front)) by {
            assert forall|i: int, j: int| 0 <= i < j < front.len() implies front[i].key()
                != front[j].key() by {
                assert(front[i] == ids[i] && front[j] == ids[j]);
            }
        }
        lemma_dedup_of_distinct(front);
        lemma_position(front, ids.last().key());
        if position(front, ids.last().key()) is Some {
            let i = position(front, ids.last().key())->Some_0;
            assert(front[i] == ids[i]);
            assert(ids[i].key() != ids[ids.len() - 1].key());
        }
        assert(front.push(ids.last()) =~= ids);
    }
}

/// What is left after dropping repeated keys holds no key twice, and holds
/// a key exactly when the identities it was made from did.
pub proof fn lemma_dedup(ids: Seq<Identity>, key: Seq<u8>)
    ensures
        distinct_keys(dedup(ids)),
        position(dedup(ids), key) is Some <==> position(ids, key) is Some,
    decreases ids.len(),
{
    if ids.len() > 0 {
        let earlier = dedup(ids.drop_last());
        let last = ids.last();
        lemma_dedup(ids.drop_last(), key);
        lemma_dedup(ids.drop_last(), last.key());
        lemma_position(earlier, last.key());
        lemma_position(earlier, key);
        lemma_position(dedup(ids), key);
        lemma_position(ids, key);
        lemma_position(ids.drop_last(), key);
        if position(earlier, last.key()) is None {
            let kept = earlier.push(last);
            assert forall|i: int, j: int| 0 <= i < j < kept.len() implies kept[i].key()
                != kept[j].key() by {
                if j < earlier.len() {
                    assert(kept[i] == earlier[i] && kept[j] == earlier[j]);
                } else {
                    assert(kept[i] == earlier[i]);
                }
            }
            if position(kept, key) is Some {
                let i = position(kept, key)->Some_0;
                if i < earlier.len() {
                    assert(kept[i] == earlier[i]);
                }
            }
            if position(earlier, key) is Some {
                let i = position(earlier, key)->Some_0;
                assert(kept[i] == earlier[i]);
            }
            assert(kept[kept.len() - 1] == last);
        }
    }
}

/// Of several identities with one key it is the first that stays: what is
/// found under a key after dropping repeated keys is what was found under it
/// before.
pub proof fn lemma_dedup_keeps_first(ids: Seq<Identity>, key: Seq<u8>)
    ensures
        match position(ids, key) {
            Some(i) => position(dedup(ids), key) matches Some(j) && dedup(ids)[j] == ids[i],
            None => position(dedup(ids), key) is None,
        },
    decreases ids.len(),
{
    if ids.len() > 0 {
        let front = ids.drop_last();
        let last = ids.last();
        let earlier = dedup(front);
        lemma_dedup_keeps_first(front, key);
        lemma_dedup(front, last.key());
        lemma_position(front, key);
        lemma_position(earlier, key);
        lemma_position(earlier, last.key());
        if position(earlier, last.key()) is None {
            let kept = earlier.push(last);
            assert(kept.drop_last() =~= earlier);
            assert(kept.last() == last);
        }
        match position(front, key) {
            Some(i) => {
                assert(front[i] == ids[i]);
            },
            None => {},
        }
    }
}

/// The place in `ids` of the identity with the given key.
fn find(ids: &Vec<Identity>, key: &KeyData) -> (r: Option<usize>)
    ensures
        match r {
            Some(i) => i < ids@.len() && position(ids@, key@) == Some(i as int),
            None => position(ids@, key@) is None,
        },
{
    let mut i: usize = 0;
    while i < ids.len()
        invariant
            i <= ids@.len(),
            forall|j: int| 0 <= j < i ==> ids@[j].key() != key@,
        decreases ids@.len() - i,
    {
        if ids[i].pubkey.key_data.same_key(key) {
            proof {
                lemma_position_is(ids@, key@, i as int);
            }
            return Some(i);
        }
        i = i + 1;
    }
    proof {
        lemma_position(ids@, key@);
    }
    None
}

/// The keys that the agent holds, in the order in which they are listed.
/// No two of them have the same public key.
#[derive(Debug)]
pub struct KeyStorage {
    identifiers: Vec<Identity>,
}

impl KeyStorage {
    #[verifier::type_invariant]
    spec fn inv(self) -> bool {
        distinct_keys(self.identifiers@)
    }

    /// The identities held, in store order.
    pub closed spec fn identities(self) -> Seq<Identity> {
        self.identifiers@
    }

    /// The place of the identity that `key` matches. Only the key material
    /// counts; the comment that comes with `key` does not.
    pub open spec fn spec_match(self, key: PublicKeyView) -> Option<int> {
        position(self.identities(), key.key_data)
    }

    /// What the agent lists: each held public key with its comment, in
    /// store order.
    pub open spec fn listing(self) -> Seq<IdentityBlobView> {
        listing_of(self.identities())
    }

    /// The identity that signs `request`, by its place in the store, and
    /// the hash it signs under.
    ///
    /// A request for a key that is not held is refused with
    /// [`AgentError::KeyNotFound`], and one for a key of another family than
    /// RSA with [`AgentError::UnsupportedKeyType`]. The hash is the one that
    /// the flags ask for.
    pub open spec fn signer_for(self, request: SignRequestView) -> Result<
        (int, HashAlg),
        AgentError,
    > {
        match self.spec_match(request.pubkey) {
            None => Err(AgentError::KeyNotFound),
            Some(i) => if self.identities()[i].can_sign() {
                Ok((i, HashAlg::spec_from_flags(request.flags)))
            } else {
                Err(AgentError::UnsupportedKeyType)
            },
        }
    }

    /// What signing `request` may come to: the refusal of
    /// [`KeyStorage::signer_for`] if it refuses, and else a signature under
    /// the hash it names, unless the signing primitive fails.
    pub open spec fn sign_outcome(
        self,
        request: SignRequestView,
        outcome: Result<SignatureView, AgentError>,
    ) -> bool {
        match self.signer_for(request) {
            Err(e) => outcome == Err::<SignatureView, AgentError>(e),
            Ok((_, algorithm)) => match outcome {
                Ok(signature) => signature.algorithm == algorithm,
                Err(e) => e == AgentError::SigningFailed,
            },
        }
    }

    /// What the agent may answer to `request`.
    ///
    /// The list of identities to a request for it, success to an extension
    /// request, and to a request for a signature either the signature or a
    /// failure; a failure always when the key is not held or cannot sign.
    pub open spec fn answers(self, request: MessageView, response: ResponseView) -> bool {
        match request {
            MessageView::RequestIdentities => response == ResponseView::ListIdentities(
                self.listing(),
            ),
            MessageView::Extension => response == ResponseView::Success,
            MessageView::SignRequest(sign) => match response {
                ResponseView::Signature(signature) => self.sign_outcome(sign, Ok(signature)),
                ResponseView::Failure => true,
                _ => false,
            },
        }
    }

    /// A store of the given identities. Of several with one public key the
    /// first is kept.
    pub fn new(identities: Vec<Identity>) -> (r: KeyStorage)
        ensures
            r.identities() == dedup(identities@),
            distinct_keys(r.identities()),
    {
        let ghost all = identities@;
        let mut pending = identities;
        let mut kept: Vec<Identity> = Vec::new();
        let ghost done: int = 0;
        assert(all.take(0) =~= Seq::<Identity>::empty());
        assert(all.skip(0) =~= all);
        while pending.len() > 0
            invariant
                0 <= done <= all.len(),
                pending@ == all.skip(done),
                kept@ == dedup(all.take(done)),
                distinct_keys(kept@),
            decreases pending@.len(),
        {
            let id = pending.remove(0);
            proof {
                assert(all.take(done + 1).drop_last() =~= all.take(done));
                assert(all.take(done + 1).last() == id);
                assert(pending@ =~= all.skip(done + 1));
                lemma_dedup(all.take(done + 1), id.key());
            }
            if find(&kept, &id.pubkey.key_data).is_none() {
                kept.push(id);
            }
            proof {
                done = done + 1;
            }
        }
        assert(all.take(done) =~= all);
        KeyStorage { identifiers: kept }
    }

    /// The number of identities held.
    pub fn len(&self) -> (r: usize)
        ensures
            r == self.identities().len(),
    {
        self.identifiers.len()
    }

    /// The place of the identity whose public key is that of `key`, whatever
    /// comment `key` carries.
    pub fn match_identity(&self, key: &PublicKey) -> (r: Option<usize>)
        ensures
            match r {
                Some(i) => i < self.identities().len() && self.spec_match(key@) == Some(i as int),
                None => self.spec_match(key@) is None,
            },
            distinct_keys(self.identities()),
    {
        proof {
            use_type_invariant(self);
        }
        find(&self.identifiers, &key.key_data)
    }

    /// The identities held, each as its public key and its comment, in
    /// store order. The store is left as it is.
    pub fn list_identities(&self) -> (r: Vec<IdentityBlob>)
        ensures
            blobs_view(r@) == self.listing(),
    {
        let mut results: Vec<IdentityBlob> = Vec::new();
        let mut i: usize = 0;
        while i < self.identifiers.len()
            invariant
                i <= self.identifiers@.len(),
                results@.len() == i,
                forall|j: int|
                    0 <= j < i ==> (#[trigger] results@[j])@ == (IdentityBlobView {
                        pubkey: self.identifiers@[j].key(),
                        comment: self.identifiers@[j].comment@,
                    }),
            decreases self.identifiers@.len() - i,
        {
            let id = &self.identifiers[i];
            results.push(
                IdentityBlob { pubkey: id.pubkey.key_data.clone(), comment: id.comment.clone() },
            );
            i = i + 1;
        }
        assert(blobs_view(results@) =~= self.listing());
        results
    }

    /// Picks the identity that signs `request` and the hash it signs under,
    /// or says why none does.
    pub fn select_signer(&self, request: &SignRequest) -> (r: Result<(usize, HashAlg), AgentError>)
        ensures
            match r {
                Ok((i, algorithm)) => i < self.identities().len() && self.signer_for(request@)
                    == Ok::<(int, HashAlg), AgentError>((i as int, algorithm)),
                Err(e) => self.signer_for(request@) == Err::<(int, HashAlg), AgentError>(e),
            },
    {
        let i = match self.match_identity(&request.pubkey) {
            Some(i) => i,
            None => {
                return Err(AgentError::KeyNotFound);
            },
        };
        match &self.identifiers[i].privkey {
            Keypair::Rsa(_) => Ok((i, HashAlg::from_flags(request.flags))),
            Keypair::Unsupported => Err(AgentError::UnsupportedKeyType),
        }
    }

    /// Puts together what is handed to the signing primitive for `request`:
    /// the key pair of the identity that [`KeyStorage::signer_for`] names,
    /// the hash it names, and the data of the request; or says why nothing
    /// is signed.
    pub fn signing_job<'a>(&'a self, request: &'a SignRequest) -> (r: Result<
        (&'a RsaKeypair, HashAlg, &'a [u8]),
        AgentError,
    >)
        ensures
            match self.signer_for(request@) {
                Ok((i, algorithm)) => {
                    &&& r matches Ok(job)
                    &&& self.identities()[i].privkey == Keypair::Rsa(*job.0)
                    &&& job.1 == algorithm
                    &&& job.2@ == request@.data
                },
                Err(e) => r matches Err(f) && f == e,
            },
    {
        let (i, algorithm) = self.select_signer(request)?;
        match &self.identifiers[i].privkey {
            Keypair::Rsa(keypair) => Ok((keypair, algorithm, request.data.as_slice())),
            Keypair::Unsupported => Err(AgentError::UnsupportedKeyType),
        }
    }

    /// Signs what [`KeyStorage::signing_job`] puts together for `request`:
    /// the data of the request, with the key pair of the matching identity,
    /// under the hash that the flags ask for.
    pub fn sign(&self, request: SignRequest) -> (r: Result<Signature, AgentError>)
        ensures
            self.sign_outcome(
                request@,
                match r {
                    Ok(signature) => Ok(signature@),
                    Err(e) => Err(e),
                },
            ),
    {
        let (keypair, algorithm, data) = self.signing_job(&request)?;
        sign_with(keypair, algorithm, data)
    }

    /// Serves one request, or says why it cannot be served. Only a request
    /// for a signature can fail.
    pub fn handle_message(&self, msg: Message) -> (r: Result<Response, AgentError>)
        ensures
            match r {
                Ok(response) => self.answers(msg@, response@) && !(response is Failure),
                Err(e) => msg@ matches MessageView::SignRequest(sign) && self.sign_outcome(
                    sign,
                    Err(e),
                ),
            },
    {
        match msg {
            Message::RequestIdentities => Ok(Response::ListIdentities(self.list_identities())),
            Message::SignRequest(request) => match self.sign(request) {
                Ok(signature) => Ok(Response::Signature(signature)),
                Err(e) => Err(e),
            },
            Message::Extension => Ok(Response::Success),
        }
    }

    /// The response to one request. A request that cannot be served is
    /// answered with a failure.
    pub fn respond(&self, msg: Message) -> (r: Response)
        ensures
            self.answers(msg@, r@),
    {
        match self.handle_message(msg) {
            Ok(response) => response,
            Err(_) => Response::Failure,
        }
    }
}

/// Matching goes by key material alone: two keys that differ only in their
/// comment match the same identity, or both match none.
pub proof fn lemma_match_ignores_comment(store: KeyStorage, a: PublicKeyView, b: PublicKeyView)
    requires
        a.key_data == b.key_data,
    ensures
        store.spec_match(a) == store.spec_match(b),
{
}

/// What a key matches is an identity with that key, and where no two
/// identities share a key it is the only one.
pub proof fn lemma_match_is_exact(store: KeyStorage, key: PublicKeyView)
    ensures
        match store.spec_match(key) {
            Some(i) => {
                &&& 0 <= i < store.identities().len()
                &&& store.identities()[i].key() == key.key_data
                &&& distinct_keys(store.identities()) ==> forall|j: int|
                    0 <= j < store.identities().len() && store.identities()[j].key()
                        == key.key_data ==> j == i
            },
            None => forall|j: int|
                0 <= j < store.identities().len() ==> store.identities()[j].key() != key.key_data,
        },
{
    lemma_position(store.identities(), key.key_data);
}

/// Listing leaves the store as it is, so two answers to a request for the
/// identities of one store are the same, entry for entry.
pub proof fn lemma_listing_is_stable(store: KeyStorage, first: ResponseView, second: ResponseView)
    requires
        store.answers(MessageView::RequestIdentities, first),
        store.answers(MessageView::RequestIdentities, second),
    ensures
        first == second,
        first == ResponseView::ListIdentities(store.listing()),
        store.listing().len() == store.identities().len(),
{
}

/// A request to sign with a key that the store does not hold is answered
/// with a failure, never with a signature.
pub proof fn lemma_unknown_key_fails_closed(
    store: KeyStorage,
    request: SignRequestView,
    response: ResponseView,
)
    requires
        store.spec_match(request.pubkey) is None,
        store.answers(MessageView::SignRequest(request), response),
    ensures
        response == ResponseView::Failure,
        forall|outcome: Result<SignatureView, AgentError>|
            store.sign_outcome(request, outcome) ==> outcome == Err::<SignatureView, AgentError>(
                AgentError::KeyNotFound,
            ),
{
}

/// A signature that answers a request names the hash that the request's
/// flags ask for.
pub proof fn lemma_signature_names_requested_hash(
    store: KeyStorage,
    request: SignRequestView,
    signature: SignatureView,
)
    requires
        store.answers(MessageView::SignRequest(request), ResponseView::Signature(signature)),
    ensures
        signature.algorithm == HashAlg::spec_from_flags(request.flags),
        store.spec_match(request.pubkey) is Some,
{
}

} // verus!
