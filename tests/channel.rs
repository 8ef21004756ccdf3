use micropay_channel::balances::Balances;
use micropay_channel::channel::{Currency, Event, Module};
use micropay_channel::commitment::{commitment, digest};
use micropay_channel::error::ChannelError;

fn funded(accounts: &[(&Vec<u8>, u128)]) -> Balances {
    let mut b = Balances::new();
    for (who, amount) in accounts {
        b.set_balance(who, *amount);
    }
    b
}

fn secret(seed: u8) -> secp256k1::SecretKey {
    secp256k1::SecretKey::parse(&[seed; 32]).unwrap()
}

fn account(seed: u8) -> Vec<u8> {
    secp256k1::PublicKey::from_secret_key(&secret(seed))
        .serialize_compressed()
        .to_vec()
}

fn sign(seed: u8, payee: &Vec<u8>, nonce: u32, amount: u128) -> Vec<u8> {
    let hash = Module::construct_byte_array_and_hash(payee, nonce, amount);
    let (sig, _) = secp256k1::sign(&secp256k1::Message::parse(&hash), &secret(seed));
    sig.serialize().to_vec()
}

#[test]
fn test_blake2_hash() {
    let alice: [u8; 32] = [
        212, 53, 147, 199, 21, 253, 211, 28, 97, 20, 26, 189, 4, 169, 159, 214, 130, 44, 133, 88,
        133, 76, 205, 227, 154, 86, 132, 231, 165, 109, 162, 125,
    ];
    let nonce: u32 = 22;
    let amount: u128 = 100;
    let mut data = Vec::new();

    let should_be: [u8; 32] = [
        162, 225, 249, 9, 223, 71, 169, 240, 180, 154, 247, 135, 145, 15, 230, 200, 24, 9, 21, 249,
        253, 78, 123, 105, 135, 191, 146, 220, 204, 18, 247, 124,
    ];

    data.extend_from_slice(&alice);
    data.extend_from_slice(&nonce.to_be_bytes());
    data.extend_from_slice(&amount.to_be_bytes());
    let hash = digest(&data);
    assert_eq!(&hash, &should_be);
}

#[test]
fn commitment_layout() {
    let payee = vec![9u8, 8];
    let bytes = commitment(&payee, 0x0102_0304, 0x0506);
    let mut expected = vec![9u8, 8, 1, 2, 3, 4, 6, 5];
    expected.extend_from_slice(&[0u8; 14]);
    assert_eq!(bytes, expected);
}

#[test]
fn commitment_digest_hashes_commitment() {
    let payee = account(2);
    let hash = Module::construct_byte_array_and_hash(&payee, 7, 1000);
    assert_eq!(hash, digest(&commitment(&payee, 7, 1000)));
    assert_ne!(hash, digest(&commitment(&payee, 7, 1001)));
    assert_ne!(hash.to_vec(), commitment(&payee, 7, 1000)[..32].to_vec());
}

#[test]
fn end_to_end_claim() {
    let p = account(1);
    let q = account(2);
    let mut m = Module::new();
    let mut ledger = funded(&[(&p, 500), (&q, 10)]);
    assert_eq!(m.open_channel(&p, &q, 1000), Ok(()));
    let sig = sign(1, &q, 1, 50);
    assert_eq!(m.claim_payment(&mut ledger, &q, &p, 1, 50, &sig), Ok(()));
    assert_eq!(ledger.free_balance(&p), 450);
    assert_eq!(ledger.free_balance(&q), 60);
    assert!(m.get_nonce(&p, &q, 1));
    assert_eq!(
        m.events().last(),
        Some(&Event::ClaimPayment(p.clone(), q.clone(), 50))
    );

    let sig80 = sign(1, &q, 1, 80);
    assert_eq!(
        m.claim_payment(&mut ledger, &q, &p, 1, 80, &sig80),
        Err(ChannelError::NonceAlreadyConsumed)
    );
    assert_eq!(ledger.free_balance(&p), 450);
    assert_eq!(ledger.free_balance(&q), 60);
    assert_eq!(m.events().len(), 2);
}

#[test]
fn replay_fails_whatever_the_signature() {
    let p = account(1);
    let q = account(2);
    let mut m = Module::new();
    let mut ledger = funded(&[(&p, 500)]);
    m.open_channel(&p, &q, 1).unwrap();
    let sig = sign(1, &q, 4, 20);
    assert_eq!(m.claim_payment(&mut ledger, &q, &p, 4, 20, &sig), Ok(()));
    assert_eq!(
        m.claim_payment(&mut ledger, &q, &p, 4, 20, &sig),
        Err(ChannelError::NonceAlreadyConsumed)
    );
    assert_eq!(
        m.claim_payment(&mut ledger, &q, &p, 4, 20, &vec![0u8; 3]),
        Err(ChannelError::NonceAlreadyConsumed)
    );
    assert_eq!(ledger.free_balance(&q), 20);
}

#[test]
fn open_twice_and_self_channel() {
    let p = account(1);
    let q = account(2);
    let mut m = Module::new();
    assert_eq!(m.open_channel(&p, &q, 5), Ok(()));
    assert_eq!(m.open_channel(&p, &q, 6), Err(ChannelError::ChannelAlreadyOpen));
    assert_eq!(m.open_channel(&p, &p, 6), Err(ChannelError::SelfChannelNotAllowed));
    assert_eq!(m.open_channel(&q, &p, 7), Ok(()));
    let chan = m.get_channel(&p, &q).unwrap();
    assert_eq!(chan.sender, p);
    assert_eq!(chan.receiver, q);
    assert_eq!(chan.expiration, 5);
    assert_eq!(m.get_channel(&q, &p).unwrap().expiration, 7);
    assert_eq!(
        m.events().to_vec(),
        vec![
            Event::ChannelOpened(p.clone(), q.clone(), 5),
            Event::ChannelOpened(q.clone(), p.clone(), 7)
        ]
    );
}

#[test]
fn close_then_reopen_clears_nonces() {
    let p = account(1);
    let q = account(2);
    let mut m = Module::new();
    let mut ledger = funded(&[(&p, 500)]);
    m.open_channel(&p, &q, 1).unwrap();
    let sig = sign(1, &q, 3, 30);
    assert_eq!(m.claim_payment(&mut ledger, &q, &p, 3, 30, &sig), Ok(()));
    assert_eq!(m.close_channel(&q, &p, 2), Ok(()));
    assert!(m.get_channel(&p, &q).is_none());
    assert!(!m.get_nonce(&p, &q, 3));
    assert_eq!(
        m.events().last(),
        Some(&Event::ChannelClosed(p.clone(), q.clone(), 2))
    );
    assert_eq!(m.open_channel(&p, &q, 3), Ok(()));
    assert!(!m.get_nonce(&p, &q, 3));
    assert_eq!(m.claim_payment(&mut ledger, &q, &p, 3, 30, &sig), Ok(()));
    assert_eq!(ledger.free_balance(&q), 60);
}

#[test]
fn close_unknown_channel() {
    let p = account(1);
    let q = account(2);
    let mut m = Module::new();
    assert_eq!(m.close_channel(&q, &p, 1), Err(ChannelError::ChannelNotFound));
    m.open_channel(&p, &q, 1).unwrap();
    assert_eq!(m.close_channel(&p, &q, 1), Err(ChannelError::ChannelNotFound));
}

#[test]
fn claim_without_channel() {
    let p = account(1);
    let q = account(2);
    let mut m = Module::new();
    let mut ledger = funded(&[(&p, 500)]);
    let sig = sign(1, &q, 1, 5);
    assert_eq!(
        m.claim_payment(&mut ledger, &q, &p, 1, 5, &sig),
        Err(ChannelError::ChannelNotFound)
    );
    assert!(!m.get_nonce(&p, &q, 1));
    assert!(m.events().is_empty());
    assert_eq!(ledger.free_balance(&p), 500);
}

#[test]
fn mutated_claim_fails_verification() {
    let p = account(1);
    let q = account(2);
    let r = account(3);
    let mut m = Module::new();
    let mut ledger = funded(&[(&p, 500)]);
    m.open_channel(&p, &q, 1).unwrap();
    m.open_channel(&p, &r, 1).unwrap();
    let sig = sign(1, &q, 9, 40);
    assert_eq!(
        m.claim_payment(&mut ledger, &q, &p, 9, 41, &sig),
        Err(ChannelError::SignatureVerificationFailed)
    );
    assert_eq!(
        m.claim_payment(&mut ledger, &q, &p, 10, 40, &sig),
        Err(ChannelError::SignatureVerificationFailed)
    );
    assert_eq!(
        m.claim_payment(&mut ledger, &r, &p, 9, 40, &sig),
        Err(ChannelError::SignatureVerificationFailed)
    );
    let other = sign(4, &q, 9, 40);
    assert_eq!(
        m.claim_payment(&mut ledger, &q, &p, 9, 40, &other),
        Err(ChannelError::SignatureVerificationFailed)
    );
    assert!(!m.get_nonce(&p, &q, 9));
    assert_eq!(ledger.free_balance(&p), 500);
    assert_eq!(m.claim_payment(&mut ledger, &q, &p, 9, 40, &sig), Ok(()));
}

#[test]
fn payer_identifier_not_a_key() {
    let p = vec![7u8; 32];
    let q = account(2);
    let mut m = Module::new();
    let mut ledger = funded(&[(&p, 500)]);
    m.open_channel(&p, &q, 1).unwrap();
    let sig = sign(1, &q, 1, 5);
    assert_eq!(
        m.claim_payment(&mut ledger, &q, &p, 1, 5, &sig),
        Err(ChannelError::InvalidAccountKeyEncoding)
    );
    let mut bad_tag = account(1);
    bad_tag[0] = 5;
    assert_eq!(
        Module::verify_signature(&bad_tag, &q, 1, 5, &sig),
        Err(ChannelError::InvalidAccountKeyEncoding)
    );
}

#[test]
fn malformed_signature() {
    let p = account(1);
    let q = account(2);
    let mut m = Module::new();
    let mut ledger = funded(&[(&p, 500)]);
    m.open_channel(&p, &q, 1).unwrap();
    let mut sig = sign(1, &q, 1, 5);
    sig.pop();
    assert_eq!(
        m.claim_payment(&mut ledger, &q, &p, 1, 5, &sig),
        Err(ChannelError::InvalidSignatureEncoding)
    );
    assert_eq!(
        Module::verify_signature(&p, &q, 1, 5, &sign(1, &q, 1, 5)),
        Ok(())
    );
}

#[test]
fn insufficient_funds_leaves_nonce_fresh() {
    let p = account(1);
    let q = account(2);
    let mut m = Module::new();
    let mut ledger = funded(&[(&p, 40)]);
    m.open_channel(&p, &q, 1).unwrap();
    let sig = sign(1, &q, 2, 50);
    assert_eq!(
        m.claim_payment(&mut ledger, &q, &p, 2, 50, &sig),
        Err(ChannelError::InsufficientFunds)
    );
    assert!(!m.get_nonce(&p, &q, 2));
    assert_eq!(m.events().len(), 1);
    let all = sign(1, &q, 2, 40);
    assert_eq!(m.claim_payment(&mut ledger, &q, &p, 2, 40, &all), Ok(()));
    assert_eq!(ledger.free_balance(&p), 0);
    assert_eq!(ledger.free_balance(&q), 40);
}

#[test]
fn balances_transfer() {
    let p = account(1);
    let q = account(2);
    let mut b = funded(&[(&p, 100), (&q, u128::MAX - 5)]);
    assert_eq!(b.transfer(&p, &q, 101), Err(()));
    assert_eq!(b.transfer(&p, &q, 6), Err(()));
    assert_eq!(b.free_balance(&p), 100);
    assert_eq!(b.transfer(&q, &p, 30), Ok(()));
    assert_eq!(b.free_balance(&p), 130);
    assert_eq!(b.free_balance(&q), u128::MAX - 35);
    assert_eq!(b.transfer(&p, &p, 130), Ok(()));
    assert_eq!(b.free_balance(&p), 130);
    assert_eq!(b.transfer(&p, &q, 130), Err(()));
    b.set_balance(&q, 7);
    assert_eq!(b.transfer(&p, &q, 130), Ok(()));
    assert_eq!(b.free_balance(&p), 0);
    assert_eq!(b.free_balance(&q), 137);
    assert_eq!(b.free_balance(&account(3)), 0);
}
