use rsa::signature::Verifier;
use ssh_agent::agent::Codec;
use ssh_agent::connection::{Action, ConnectionState, Event};
use ssh_agent::error::AgentError;
use ssh_agent::identity::{Identity, Keypair};
use ssh_agent::key::{KeyData, PublicKey};
use ssh_agent::messages::{IdentityBlob, Message, Response};
use ssh_agent::sign::SignRequest;
use ssh_agent::signature::{HashAlg, Signature};
use ssh_agent::storage::KeyStorage;
use ssh_agent::wire::{Decode, Reader};

const PRIME_A: &[u8] = b"dcbcb131d87f0f7c8d824f567ee87234825be5d17bf3c044a7cb8fac6561ed8a68499f17da27a8628367f9add595f72a0fc660edd9745360b37cb6a53719afbc5f8ac2dba273f100a3e180e4f2cbd149e4d7bdc1b2254a0f801e3739e293bdbe8df43581183c68b92a5e6db78fde7f1e0ebdbfefe4f20abe101c3605940a2a89";
const PRIME_B: &[u8] = b"fcd67d28d44dec98267f681032a335d424436461075250b24ac2f1dfd287ebb6f0b95104ab2c264283ad4ca73cf486c33f88ba3ba9b931ece1b25f71885e76978bdf6f60ad1cf40f1b23fbfb274350a9bae3af145cd89d284c843831a430e09d846e5b2d16b5b5489aa87c750941530ddaf98909a1adf2b0f9daaea933a5e13f";
const PRIME_C: &[u8] = b"d63b859f6b449fea10b3f2ba11f0ca50e31dc38416251b220e2db653b09c6c4e4e0667f3c6e147eb701c61cfa8c12df23885f06a26ad59b535b24dcbd295d11076d07689d8116bcd0ede27a8636f72300bb57e43a6e7019ca54ac4def4c981506c2caf649eb37b51937ff19c1cf528e0af6d7e579dbf276ed4897c749ed8e313";
const PRIME_D: &[u8] = b"ff077a66b72e13c3bc40f31ca42ba026713bc9f632a007bc80033eed7f9879cdc6378a99a8d92dd2a949809d1a87506e925ff58f563a7a07e6ae80ed14e6be5a6d69bac7919f085e38ec65a844663125be5ab0e3b32e44270d3510007af3456cd20d38695ab11e30f2cf740851944b409bb0fd3428036c813560716927fa571b";

const SHORT_PRIME_A: &[u8] = b"df883f615f4dd065ba28ca0fade723e8f6b0b2dad74eb175bc309f93117636945f9f4d2bc591ad5585549450a9dd102da838941f169e641fffcf99fd229a8cc7";
const SHORT_PRIME_B: &[u8] = b"d54b7d13ca0c1081a5dd39226fedb37326f90565c70c81b4bc942ae4847b2bbbdbe1d4476f759ad8528f3af8daefeaa22ab2c7587fd4bc36566b196cada886bd";

fn rsa_key(p: &[u8], q: &[u8]) -> rsa::RsaPrivateKey {
    let p = rsa::BigUint::parse_bytes(p, 16).unwrap();
    let q = rsa::BigUint::parse_bytes(q, 16).unwrap();
    rsa::RsaPrivateKey::from_p_q(p, q, rsa::BigUint::from(65537u32)).unwrap()
}

fn ssh_private(key: &rsa::RsaPrivateKey, comment: &str) -> ssh_key::PrivateKey {
    let keypair = ssh_key::private::RsaKeypair::try_from(key).unwrap();
    ssh_key::PrivateKey::new(ssh_key::private::KeypairData::Rsa(keypair), comment).unwrap()
}

fn openssh(key: &rsa::RsaPrivateKey, comment: &str) -> Vec<u8> {
    let pem = ssh_private(key, comment).to_openssh(ssh_key::LineEnding::LF).unwrap();
    pem.as_bytes().to_vec()
}

fn public_blob(key: &rsa::RsaPrivateKey) -> Vec<u8> {
    ssh_private(key, "").public_key().to_bytes().unwrap()
}

fn first_key() -> rsa::RsaPrivateKey {
    rsa_key(PRIME_A, PRIME_B)
}

fn second_key() -> rsa::RsaPrivateKey {
    rsa_key(PRIME_C, PRIME_D)
}

fn ed25519_blob(fill: u8) -> Vec<u8> {
    let mut blob = vec![0, 0, 0, 11];
    blob.extend_from_slice(b"ssh-ed25519");
    blob.extend_from_slice(&[0, 0, 0, 32]);
    blob.extend_from_slice(&[fill; 32]);
    blob
}

fn work_store() -> KeyStorage {
    KeyStorage::new(vec![Identity::new(&openssh(&first_key(), "work")).unwrap()])
}

fn candidate(blob: Vec<u8>, comment: &str) -> PublicKey {
    PublicKey::new(KeyData::from_bytes(blob).unwrap(), comment.to_string())
}

fn request(blob: Vec<u8>, data: &[u8], flags: u32) -> SignRequest {
    SignRequest { pubkey: candidate(blob, ""), data: data.to_vec(), flags }
}

#[test]
fn identity_is_read_from_openssh() {
    let key = first_key();
    let id = Identity::new(&openssh(&key, "work")).unwrap();
    assert_eq!(id.comment, "work");
    assert_eq!(id.pubkey.comment, "work");
    assert_eq!(id.pubkey.key_data.as_bytes(), &public_blob(&key)[..]);
    assert!(matches!(id.privkey, Keypair::Rsa(_)));
}

#[test]
fn identity_of_other_family_is_read_and_marked() {
    let keypair = ssh_key::private::Ed25519Keypair {
        public: ssh_key::public::Ed25519PublicKey([7; 32]),
        private: ssh_key::private::Ed25519PrivateKey::from_bytes(&[9; 32]),
    };
    let private =
        ssh_key::PrivateKey::new(ssh_key::private::KeypairData::Ed25519(keypair), "other").unwrap();
    let pem = private.to_openssh(ssh_key::LineEnding::LF).unwrap();
    let id = Identity::new(pem.as_bytes()).unwrap();
    assert_eq!(id.comment, "other");
    assert_eq!(id.pubkey.key_data.as_bytes(), &ed25519_blob(7)[..]);
    assert!(matches!(id.privkey, Keypair::Unsupported));
}

#[test]
fn identity_is_refused_for_garbage() {
    assert_eq!(Identity::new(b"not a key").err(), Some(AgentError::InvalidKey));
    assert_eq!(Identity::new(b"").err(), Some(AgentError::InvalidKey));
}

#[test]
fn identity_from_parts_wants_a_public_key() {
    let none = Identity::from_parts(Vec::new(), Keypair::Unsupported, "a".to_string());
    assert_eq!(none.err(), Some(AgentError::InvalidKey));
    let bad = Identity::from_parts(vec![1, 2, 3], Keypair::Unsupported, "a".to_string());
    assert_eq!(bad.err(), Some(AgentError::InvalidKey));
    let good =
        Identity::from_parts(ed25519_blob(1), Keypair::Unsupported, "a".to_string()).unwrap();
    assert_eq!(good.comment, "a");
    assert_eq!(good.pubkey.comment, "a");
    assert_eq!(good.pubkey.key_data.as_bytes(), &ed25519_blob(1)[..]);
}

#[test]
fn store_keeps_order_and_drops_repeated_keys() {
    let a = Identity::new(&openssh(&first_key(), "a")).unwrap();
    let b = Identity::new(&openssh(&second_key(), "b")).unwrap();
    let again = Identity::new(&openssh(&first_key(), "again")).unwrap();
    let store = KeyStorage::new(vec![a, b, again]);
    assert_eq!(store.len(), 2);
    let listed = store.list_identities();
    assert_eq!(listed.len(), 2);
    assert_eq!(listed[0].comment, "a");
    assert_eq!(listed[0].pubkey.as_bytes(), &public_blob(&first_key())[..]);
    assert_eq!(listed[1].comment, "b");
    assert_eq!(listed[1].pubkey.as_bytes(), &public_blob(&second_key())[..]);
}

#[test]
fn empty_store_lists_nothing_and_matches_nothing() {
    let store = KeyStorage::new(Vec::new());
    assert_eq!(store.len(), 0);
    assert!(store.list_identities().is_empty());
    assert_eq!(store.match_identity(&candidate(ed25519_blob(1), "")), None);
}

#[test]
fn match_finds_the_index_of_the_key() {
    let a = Identity::new(&openssh(&first_key(), "a")).unwrap();
    let b = Identity::new(&openssh(&second_key(), "b")).unwrap();
    let store = KeyStorage::new(vec![a, b]);
    assert_eq!(store.match_identity(&candidate(public_blob(&first_key()), "")), Some(0));
    assert_eq!(store.match_identity(&candidate(public_blob(&second_key()), "")), Some(1));
    assert_eq!(store.match_identity(&candidate(ed25519_blob(3), "")), None);
}

#[test]
fn match_ignores_the_comment_of_the_candidate() {
    let store = work_store();
    let blob = public_blob(&first_key());
    for comment in ["", "work", "someone@else", "\u{1F511}"] {
        assert_eq!(store.match_identity(&candidate(blob.clone(), comment)), Some(0));
        assert_eq!(store.match_identity(&candidate(ed25519_blob(3), comment)), None);
    }
}

#[test]
fn key_under_another_algorithm_name_is_the_same_key() {
    let blob = public_blob(&first_key());
    assert_eq!(&blob[..11], b"\0\0\0\x07ssh-rsa");
    let mut alias = vec![0, 0, 0, 12];
    alias.extend_from_slice(b"rsa-sha2-256");
    alias.extend_from_slice(&blob[11..]);
    let key = KeyData::from_bytes(alias.clone()).unwrap();
    assert_eq!(key.as_bytes(), &blob[..]);
    let store = work_store();
    assert_eq!(store.match_identity(&PublicKey::from_key_data(key)), Some(0));

    let mut bytes = vec![13u8];
    bytes.extend_from_slice(&(alias.len() as u32).to_be_bytes());
    bytes.extend_from_slice(&alias);
    bytes.extend_from_slice(&[0, 0, 0, 2, 1, 2, 0, 0, 0, 4]);
    let decoded = Message::decode(&mut Reader::new(&bytes)).unwrap();
    assert_eq!(decoded, Message::SignRequest(request(blob, &[1, 2], 4)));
    assert!(matches!(store.respond(decoded), Response::Signature(_)));
}

#[test]
fn listing_twice_gives_the_same() {
    let a = Identity::new(&openssh(&first_key(), "a")).unwrap();
    let b = Identity::new(&openssh(&second_key(), "b")).unwrap();
    let store = KeyStorage::new(vec![a, b]);
    let first = store.respond(Message::RequestIdentities);
    let second = store.respond(Message::RequestIdentities);
    assert_eq!(first, second);
    assert_eq!(store.list_identities(), store.list_identities());
    assert_eq!(first, Response::ListIdentities(store.list_identities()));
}

#[test]
fn hash_follows_the_flags() {
    assert_eq!(HashAlg::from_flags(0x00), HashAlg::Sha1);
    assert_eq!(HashAlg::from_flags(0x02), HashAlg::Sha256);
    assert_eq!(HashAlg::from_flags(0x04), HashAlg::Sha512);
    assert_eq!(HashAlg::from_flags(0x06), HashAlg::Sha512);
    assert_eq!(HashAlg::from_flags(0x01), HashAlg::Sha1);
    assert_eq!(HashAlg::from_flags(0xffff_fff9), HashAlg::Sha1);
    assert_eq!(HashAlg::from_flags(0xffff_fffb), HashAlg::Sha256);
    assert_eq!(HashAlg::from_flags(0xffff_ffff), HashAlg::Sha512);
}

#[test]
fn hash_names_are_the_canonical_ones() {
    assert_eq!(HashAlg::Sha1.name(), "ssh-rsa");
    assert_eq!(HashAlg::Sha256.name(), "rsa-sha2-256");
    assert_eq!(HashAlg::Sha512.name(), "rsa-sha2-512");
    assert_eq!(HashAlg::from_name("ssh-rsa"), Some(HashAlg::Sha1));
    assert_eq!(HashAlg::from_name("rsa-sha2-256"), Some(HashAlg::Sha256));
    assert_eq!(HashAlg::from_name("rsa-sha2-512"), Some(HashAlg::Sha512));
    assert_eq!(HashAlg::from_name("ssh-ed25519"), None);
    assert_eq!(HashAlg::from_name(""), None);
}

#[test]
fn signer_is_selected_by_key_and_flags() {
    let a = Identity::new(&openssh(&first_key(), "a")).unwrap();
    let b = Identity::new(&openssh(&second_key(), "b")).unwrap();
    let other =
        Identity::from_parts(ed25519_blob(5), Keypair::Unsupported, "other".to_string()).unwrap();
    let store = KeyStorage::new(vec![a, other, b]);
    let first = public_blob(&first_key());
    let second = public_blob(&second_key());
    assert_eq!(store.select_signer(&request(first.clone(), b"x", 0)), Ok((0, HashAlg::Sha1)));
    assert_eq!(store.select_signer(&request(first, b"x", 2)), Ok((0, HashAlg::Sha256)));
    assert_eq!(store.select_signer(&request(second.clone(), b"x", 4)), Ok((2, HashAlg::Sha512)));
    assert_eq!(store.select_signer(&request(second, b"x", 6)), Ok((2, HashAlg::Sha512)));
    assert_eq!(
        store.select_signer(&request(ed25519_blob(5), b"x", 6)),
        Err(AgentError::UnsupportedKeyType)
    );
    assert_eq!(
        store.select_signer(&request(ed25519_blob(6), b"x", 6)),
        Err(AgentError::KeyNotFound)
    );
}

#[test]
fn signing_job_hands_on_the_matched_key_and_the_data() {
    let a = Identity::new(&openssh(&first_key(), "a")).unwrap();
    let b = Identity::new(&openssh(&second_key(), "b")).unwrap();
    let store = KeyStorage::new(vec![a, b]);
    let first = ssh_key::private::RsaKeypair::try_from(&first_key()).unwrap();
    let second = ssh_key::private::RsaKeypair::try_from(&second_key()).unwrap();

    let asked = request(public_blob(&second_key()), b"hello", 4);
    let (keypair, algorithm, data) = store.signing_job(&asked).unwrap();
    assert!(*keypair == second);
    assert!(*keypair != first);
    assert_eq!(algorithm, HashAlg::Sha512);
    assert_eq!(data, b"hello");

    let asked = request(public_blob(&first_key()), b"", 0);
    let (keypair, algorithm, data) = store.signing_job(&asked).unwrap();
    assert!(*keypair == first);
    assert_eq!(algorithm, HashAlg::Sha1);
    assert_eq!(data, b"");

    let unknown = request(ed25519_blob(1), b"hello", 4);
    assert_eq!(store.signing_job(&unknown).err(), Some(AgentError::KeyNotFound));
}

#[test]
fn signing_job_refuses_another_family() {
    let other =
        Identity::from_parts(ed25519_blob(5), Keypair::Unsupported, "other".to_string()).unwrap();
    let store = KeyStorage::new(vec![other]);
    let asked = request(ed25519_blob(5), b"hello", 0);
    assert_eq!(store.signing_job(&asked).err(), Some(AgentError::UnsupportedKeyType));
}

#[test]
fn key_size_floor_is_2048_bits() {
    assert_eq!(ssh_agent::signer::MIN_KEY_SIZE, 2048);
    assert!(ssh_agent::signer::key_size_allowed(256));
    assert!(ssh_agent::signer::key_size_allowed(512));
    assert!(ssh_agent::signer::key_size_allowed(usize::MAX));
    assert!(!ssh_agent::signer::key_size_allowed(255));
    assert!(!ssh_agent::signer::key_size_allowed(128));
    assert!(!ssh_agent::signer::key_size_allowed(0));
}

#[test]
fn short_rsa_key_is_listed_and_not_signed_with() {
    let short = rsa_key(SHORT_PRIME_A, SHORT_PRIME_B);
    let id = Identity::new(&openssh(&short, "short")).unwrap();
    assert!(matches!(id.privkey, Keypair::Rsa(_)));
    let store = KeyStorage::new(vec![id]);
    assert_eq!(store.list_identities().len(), 1);
    for flags in [0u32, 2, 4] {
        let asked = request(public_blob(&short), b"hello", flags);
        assert!(store.signing_job(&asked).is_ok());
        assert_eq!(store.sign(asked.clone()), Err(AgentError::SigningFailed));
        assert_eq!(store.respond(Message::SignRequest(asked)), Response::Failure);
    }
}

#[test]
fn sign_with_both_flags_uses_sha512() {
    let store = work_store();
    let key = first_key();
    let signature = store.sign(request(public_blob(&key), b"challenge", 0x06)).unwrap();
    assert_eq!(signature.algorithm, HashAlg::Sha512);
    assert_eq!(signature.algorithm.name(), "rsa-sha2-512");
    let verifying = rsa::pss::VerifyingKey::<rsa::sha2::Sha512>::new(key.to_public_key());
    let raw = rsa::pss::Signature::try_from(&signature.data[..]).unwrap();
    assert!(verifying.verify(b"challenge", &raw).is_ok());
    let weaker = rsa::pss::VerifyingKey::<rsa::sha2::Sha256>::new(key.to_public_key());
    assert!(weaker.verify(b"challenge", &raw).is_err());
}

#[test]
fn sign_with_sha256_flag_uses_sha256() {
    let store = work_store();
    let key = first_key();
    let signature = store.sign(request(public_blob(&key), b"challenge", 0x02)).unwrap();
    assert_eq!(signature.algorithm, HashAlg::Sha256);
    assert_eq!(signature.algorithm.name(), "rsa-sha2-256");
    let verifying = rsa::pss::VerifyingKey::<rsa::sha2::Sha256>::new(key.to_public_key());
    let raw = rsa::pss::Signature::try_from(&signature.data[..]).unwrap();
    assert!(verifying.verify(b"challenge", &raw).is_ok());
    assert!(verifying.verify(b"another", &raw).is_err());
}

#[test]
fn sign_without_flags_uses_sha1() {
    let store = work_store();
    let key = first_key();
    let signature = store.sign(request(public_blob(&key), b"challenge", 0)).unwrap();
    assert_eq!(signature.algorithm, HashAlg::Sha1);
    assert_eq!(signature.algorithm.name(), "ssh-rsa");
    let verifying = rsa::pss::VerifyingKey::<sha1::Sha1>::new(key.to_public_key());
    let raw = rsa::pss::Signature::try_from(&signature.data[..]).unwrap();
    assert!(verifying.verify(b"challenge", &raw).is_ok());
}

#[test]
fn signatures_use_fresh_randomness() {
    let store = work_store();
    let blob = public_blob(&first_key());
    let one = store.sign(request(blob.clone(), b"challenge", 0x02)).unwrap();
    let two = store.sign(request(blob, b"challenge", 0x02)).unwrap();
    assert_eq!(one.data.len(), 256);
    assert_eq!(two.data.len(), 256);
    assert_ne!(one.data, two.data);
}

#[test]
fn sign_uses_the_matching_identity() {
    let a = Identity::new(&openssh(&first_key(), "a")).unwrap();
    let b = Identity::new(&openssh(&second_key(), "b")).unwrap();
    let store = KeyStorage::new(vec![a, b]);
    let signature = store.sign(request(public_blob(&second_key()), b"data", 0x04)).unwrap();
    let raw = rsa::pss::Signature::try_from(&signature.data[..]).unwrap();
    let right = rsa::pss::VerifyingKey::<rsa::sha2::Sha512>::new(second_key().to_public_key());
    let wrong = rsa::pss::VerifyingKey::<rsa::sha2::Sha512>::new(first_key().to_public_key());
    assert!(right.verify(b"data", &raw).is_ok());
    assert!(wrong.verify(b"data", &raw).is_err());
}

#[test]
fn sign_with_unknown_key_is_key_not_found() {
    let store = work_store();
    let unknown = request(public_blob(&second_key()), b"hello", 0);
    assert_eq!(store.sign(unknown.clone()), Err(AgentError::KeyNotFound));
    assert_eq!(
        store.handle_message(Message::SignRequest(unknown.clone())),
        Err(AgentError::KeyNotFound)
    );
    assert_eq!(store.respond(Message::SignRequest(unknown)), Response::Failure);
}

#[test]
fn sign_with_other_family_is_unsupported() {
    let other =
        Identity::from_parts(ed25519_blob(5), Keypair::Unsupported, "other".to_string()).unwrap();
    let store = KeyStorage::new(vec![other]);
    let asked = request(ed25519_blob(5), b"hello", 0);
    assert_eq!(store.sign(asked.clone()), Err(AgentError::UnsupportedKeyType));
    assert_eq!(store.respond(Message::SignRequest(asked)), Response::Failure);
    assert_eq!(store.list_identities().len(), 1);
}

#[test]
fn sign_with_broken_key_fails() {
    let mut keypair = ssh_key::private::RsaKeypair::try_from(&first_key()).unwrap();
    keypair.private.q = keypair.private.p.clone();
    let broken =
        Identity::from_parts(public_blob(&first_key()), Keypair::Rsa(keypair), "broken".to_string())
            .unwrap();
    let store = KeyStorage::new(vec![broken]);
    let asked = request(public_blob(&first_key()), b"hello", 0);
    assert_eq!(store.sign(asked.clone()), Err(AgentError::SigningFailed));
    assert_eq!(store.respond(Message::SignRequest(asked)), Response::Failure);
}

#[test]
fn extension_is_acknowledged() {
    let store = work_store();
    assert_eq!(store.handle_message(Message::Extension), Ok(Response::Success));
    assert_eq!(store.respond(Message::Extension), Response::Success);
}

#[test]
fn request_identities_lists_the_store() {
    let store = work_store();
    let expected = vec![IdentityBlob {
        pubkey: KeyData::from_bytes(public_blob(&first_key())).unwrap(),
        comment: "work".to_string(),
    }];
    assert_eq!(
        store.handle_message(Message::RequestIdentities),
        Ok(Response::ListIdentities(expected))
    );
}

#[test]
fn connection_answers_then_waits_again() {
    let store = work_store();
    let (state, action) =
        store.handle_socket(ConnectionState::AwaitingRequest, Event::Request(Message::Extension));
    assert_eq!(state, ConnectionState::SendingResponse);
    assert!(matches!(action, Action::Send(Response::Success)));
    let (state, action) = store.handle_socket(state, Event::Sent);
    assert_eq!(state, ConnectionState::AwaitingRequest);
    assert!(matches!(action, Action::Receive));
}

#[test]
fn connection_closes_on_end_failure_and_surprise() {
    let store = work_store();
    let awaiting = ConnectionState::AwaitingRequest;
    let sending = ConnectionState::SendingResponse;
    let closed = ConnectionState::Closed;
    let cases = vec![
        (awaiting, Event::EndOfStream),
        (awaiting, Event::Failed(AgentError::UnknownMessage)),
        (awaiting, Event::Failed(AgentError::IOError)),
        (awaiting, Event::Sent),
        (sending, Event::EndOfStream),
        (sending, Event::Failed(AgentError::IOError)),
        (sending, Event::Request(Message::Extension)),
        (closed, Event::Request(Message::RequestIdentities)),
        (closed, Event::Sent),
        (closed, Event::EndOfStream),
    ];
    for (state, event) in cases {
        let (next, action) = store.handle_socket(state, event);
        assert_eq!(next, ConnectionState::Closed);
        assert!(matches!(action, Action::Close));
    }
}

#[test]
fn connection_survives_a_request_it_cannot_serve() {
    let store = work_store();
    let unknown = request(public_blob(&second_key()), b"hello", 0);
    let (state, action) = store
        .handle_socket(ConnectionState::AwaitingRequest, Event::Request(Message::SignRequest(unknown)));
    assert_eq!(state, ConnectionState::SendingResponse);
    assert!(matches!(action, Action::Send(Response::Failure)));
    let (state, _) = store.handle_socket(state, Event::Sent);
    assert_eq!(state, ConnectionState::AwaitingRequest);
}

#[test]
fn end_to_end_list_then_sign() {
    let key = first_key();
    let blob = public_blob(&key);
    let store = work_store();
    let mut client: Codec<Response, Message> = Codec::default();
    let mut agent: Codec<Message, Response> = Codec::default();
    let mut to_agent = bytes::BytesMut::new();
    let mut to_client = bytes::BytesMut::new();
    let mut state = ConnectionState::AwaitingRequest;

    client.encode(Message::RequestIdentities, &mut to_agent).unwrap();
    assert_eq!(&to_agent[..], &[0, 0, 0, 1, 11]);
    let msg = agent.decode(&mut to_agent).unwrap().unwrap();
    assert!(to_agent.is_empty());
    let (next, action) = store.handle_socket(state, Event::Request(msg));
    state = next;
    let response = match action {
        Action::Send(response) => response,
        _ => panic!("no response"),
    };
    agent.encode(response, &mut to_client).unwrap();
    let mut expected = vec![12, 0, 0, 0, 1];
    expected.extend_from_slice(&(blob.len() as u32).to_be_bytes());
    expected.extend_from_slice(&blob);
    expected.extend_from_slice(&[0, 0, 0, 4]);
    expected.extend_from_slice(b"work");
    assert_eq!(&to_client[..4], &(expected.len() as u32).to_be_bytes());
    assert_eq!(&to_client[4..], &expected[..]);
    let listed = client.decode(&mut to_client).unwrap().unwrap();
    assert_eq!(
        listed,
        Response::ListIdentities(vec![IdentityBlob {
            pubkey: KeyData::from_bytes(blob.clone()).unwrap(),
            comment: "work".to_string(),
        }])
    );
    let (next, action) = store.handle_socket(state, Event::Sent);
    state = next;
    assert!(matches!(action, Action::Receive));

    client.encode(Message::SignRequest(request(blob.clone(), b"hello", 0)), &mut to_agent).unwrap();
    assert_eq!(to_agent[4], 13);
    let msg = agent.decode(&mut to_agent).unwrap().unwrap();
    let (next, action) = store.handle_socket(state, Event::Request(msg));
    assert_eq!(next, ConnectionState::SendingResponse);
    let response = match action {
        Action::Send(response) => response,
        _ => panic!("no response"),
    };
    agent.encode(response, &mut to_client).unwrap();
    assert_eq!(to_client[4], 14);
    assert_eq!(&to_client[9..20], b"\x00\x00\x00\x07ssh-rsa");
    let signature = match client.decode(&mut to_client).unwrap().unwrap() {
        Response::Signature(signature) => signature,
        other => panic!("no signature: {:?}", other),
    };
    assert!(to_client.is_empty());
    assert_eq!(signature.algorithm, HashAlg::Sha1);
    let verifying = rsa::pss::VerifyingKey::<sha1::Sha1>::new(key.to_public_key());
    let raw = rsa::pss::Signature::try_from(&signature.data[..]).unwrap();
    assert!(verifying.verify(b"hello", &raw).is_ok());
}

#[test]
fn signature_from_labels_the_outcome() {
    let made = ssh_agent::signer::signature_from(HashAlg::Sha256, Some(vec![1, 2, 3]));
    assert_eq!(made, Ok(Signature { algorithm: HashAlg::Sha256, data: vec![1, 2, 3] }));
    let failed = ssh_agent::signer::signature_from(HashAlg::Sha256, None);
    assert_eq!(failed, Err(AgentError::SigningFailed));
}
