use bitcoin::absolute::LockTime;
use bitcoin::consensus::encode::serialize;
use bitcoin::secp256k1::{Message, Secp256k1, SecretKey};
use bitcoin::sighash::SighashCache;
use bitcoin::transaction::Version;
use bitcoin::{Amount, OutPoint, ScriptBuf, Sequence, Transaction, TxIn, TxOut, Witness};
use btc_anchoring::btc::{BitcoinTx, Network, PublicKey, TxId};
use btc_anchoring::config::{AnchoringConfig, FollowingConfig};
use btc_anchoring::messages::{
    AnchoringTransaction, TxAnchoringSignature, TxAnchoringUpdateLatest,
};
use btc_anchoring::schema::AnchoringSchema;
use btc_anchoring::state::{Outcome, Rejection};
use btc_anchoring::transactions::{build_payload_script, AnchoringTx, FundingTx};

fn secret(n: u8) -> SecretKey {
    SecretKey::from_slice(&[n; 32]).unwrap()
}

fn key(n: u8) -> PublicKey {
    let secp = Secp256k1::new();
    let public = bitcoin::secp256k1::PublicKey::from_secret_key(&secp, &secret(n));
    PublicKey::from_bytes(public.serialize().to_vec()).unwrap()
}

fn sender(n: u8) -> btc_anchoring::crypto::PublicKey {
    btc_anchoring::crypto::PublicKey::from_bytes(vec![n; 32]).unwrap()
}

fn outside_tx(inputs: Vec<([u8; 32], u32)>, outputs: Vec<(u64, Vec<u8>)>) -> Transaction {
    Transaction {
        version: Version::ONE,
        lock_time: LockTime::ZERO,
        input: inputs
            .into_iter()
            .map(|(txid, vout)| TxIn {
                previous_output: OutPoint {
                    txid: bitcoin::hashes::Hash::from_byte_array(txid),
                    vout,
                },
                script_sig: ScriptBuf::new(),
                sequence: Sequence::MAX,
                witness: Witness::new(),
            })
            .collect(),
        output: outputs
            .into_iter()
            .map(|(value, script)| TxOut {
                value: Amount::from_sat(value),
                script_pubkey: ScriptBuf::from_bytes(script),
            })
            .collect(),
    }
}

fn inside(tx: &Transaction) -> BitcoinTx {
    BitcoinTx::from_bytes(serialize(tx)).unwrap()
}

/// Four validators with the keys 1 to 4, of which three have to sign.
fn config(seeds: [u8; 4], threshold: u8) -> AnchoringConfig {
    let validators: Vec<PublicKey> = seeds.iter().map(|s| key(*s)).collect();
    let multisig = btc_anchoring::btc::create_multisig_address(Network::Testnet, threshold, &validators)
        .unwrap()
        .1
        .script_pubkey();
    let funding = inside(&outside_tx(vec![([0xf0; 32], 1)], vec![(100_000, multisig)]));
    AnchoringConfig {
        validators,
        threshold,
        network: Network::Testnet,
        funding_tx: FundingTx::from_tx(funding),
        interval: 100,
        fee: 1000,
    }
}

fn genesis() -> AnchoringConfig {
    config([1, 2, 3, 4], 3)
}

fn id_array(id: &TxId) -> [u8; 32] {
    id.as_bytes().try_into().unwrap()
}

/// The anchoring transaction for `height` that spends output 0 of `prev`.
fn proposal(cfg: &AnchoringConfig, prev: &BitcoinTx, height: u64) -> Transaction {
    let multisig = cfg.redeem_script().unwrap().1.script_pubkey();
    outside_tx(
        vec![(id_array(&prev.id()), 0)],
        vec![(99_000, multisig), (0, build_payload_script(height, &[0x11; 32]))],
    )
}

fn sign(cfg: &AnchoringConfig, tx: &Transaction, input: usize, seed: u8) -> Vec<u8> {
    let script = cfg.redeem_script().unwrap().0;
    let hash = SighashCache::new(tx)
        .legacy_signature_hash(input, bitcoin::Script::from_bytes(script.as_bytes()), 1)
        .unwrap();
    let digest: [u8; 32] = bitcoin::hashes::Hash::to_byte_array(hash);
    Secp256k1::new()
        .sign_ecdsa(&Message::from_digest(digest), &secret(seed))
        .serialize_der()
        .to_vec()
}

fn signature_message(
    cfg: &AnchoringConfig,
    tx: &Transaction,
    validator: u32,
    input: u32,
    seed: u8,
) -> TxAnchoringSignature {
    let signature = sign(cfg, tx, input as usize, seed);
    TxAnchoringSignature::new(
        &sender(validator as u8),
        validator,
        AnchoringTx::from_tx(inside(tx)).unwrap(),
        input,
        &signature,
    )
    .unwrap()
}

fn update_message(validator: u32, tx: &BitcoinTx, lect_count: u64) -> TxAnchoringUpdateLatest {
    TxAnchoringUpdateLatest::new(&sender(validator as u8), validator, tx.clone(), lect_count).unwrap()
}

fn started() -> AnchoringSchema {
    let mut schema = AnchoringSchema::new(genesis());
    schema.create_genesis_config(&genesis());
    schema
}

fn lect_bytes(schema: &AnchoringSchema, validator: u32) -> Vec<Vec<u8>> {
    schema.lects(validator).iter().map(|t| t.as_bytes().to_vec()).collect()
}

#[test]
fn key_prefixes_have_the_stated_layout() {
    let id = TxId::from_bytes(vec![0xaa, 0xbb]);
    assert_eq!(AnchoringSchema::signatures_prefix(&id), vec![3, 2, 0xaa, 0xbb]);
    assert_eq!(AnchoringSchema::lects_prefix(0x0102_0304), vec![3, 3, 1, 2, 3, 4, 0, 0, 0, 0]);
    assert_eq!(AnchoringSchema::lect_indexes_prefix(7), vec![3, 4, 0, 0, 0, 7, 0, 0, 0, 0]);
    assert_eq!(AnchoringSchema::lects_prefix(u32::MAX), vec![3, 3, 255, 255, 255, 255, 0, 0, 0, 0]);
    assert_eq!(AnchoringSchema::lects_prefix(0), vec![3, 3, 0, 0, 0, 0, 0, 0, 0, 0]);
}

#[test]
fn new_records_are_empty() {
    let schema = AnchoringSchema::new(genesis());
    assert!(schema.lects(0).is_empty());
    assert!(schema.lect(0).is_none());
    assert!(schema.prev_lect(0).is_none());
    assert!(schema.signatures(&TxId::from_bytes(vec![1; 32])).is_empty());
    assert!(schema.find_lect_position(0, &TxId::from_bytes(vec![1; 32])).is_none());
    assert!(schema.following_anchoring_config().is_none());
    assert_eq!(schema.current_anchoring_config().threshold, 3);
    assert_eq!(schema.current_anchoring_config().validators.len(), 4);
}

#[test]
fn genesis_gives_every_validator_the_funding_transaction() {
    let schema = started();
    let funding = genesis().funding_tx.into_tx();
    for validator in 0..4 {
        assert_eq!(lect_bytes(&schema, validator), vec![funding.as_bytes().to_vec()]);
        assert_eq!(schema.find_lect_position(validator, &funding.id()), Some(0));
        assert_eq!(schema.lect(validator).unwrap().as_bytes(), funding.as_bytes());
        assert!(schema.prev_lect(validator).is_none());
        assert_eq!(schema.lect_indexes(validator).get(&funding.id()), Some(0));
    }
    assert!(schema.lects(4).is_empty());
    assert!(schema.find_lect_position(4, &funding.id()).is_none());
}

#[test]
fn genesis_twice_changes_nothing() {
    let mut schema = started();
    schema.create_genesis_config(&genesis());
    for validator in 0..4 {
        assert_eq!(schema.lects(validator).len(), 1);
    }
}

#[test]
fn added_transactions_are_indexed_by_position() {
    let mut schema = started();
    let funding = genesis().funding_tx.into_tx();
    let a = inside(&proposal(&genesis(), &funding, 100));
    let b = inside(&proposal(&genesis(), &a, 200));
    assert_eq!(schema.add_lect(1, a.clone()), Outcome::Applied);
    assert_eq!(schema.add_lect(1, b.clone()), Outcome::Applied);
    assert_eq!(
        lect_bytes(&schema, 1),
        vec![funding.as_bytes().to_vec(), a.as_bytes().to_vec(), b.as_bytes().to_vec()]
    );
    for (i, tx) in schema.lects(1).iter().enumerate() {
        assert_eq!(schema.find_lect_position(1, &tx.id()), Some(i as u64));
    }
    assert_eq!(schema.lect(1).unwrap().as_bytes(), b.as_bytes());
    assert_eq!(schema.prev_lect(1).unwrap().as_bytes(), a.as_bytes());
    assert_eq!(schema.lects(0).len(), 1);
    assert!(schema.find_lect_position(0, &a.id()).is_none());
    // a validator that never announced anything
    assert_eq!(schema.add_lect(9, a.clone()), Outcome::Applied);
    assert_eq!(schema.find_lect_position(9, &a.id()), Some(0));
    assert_eq!(schema.lect(9).unwrap().as_bytes(), a.as_bytes());
    assert!(schema.prev_lect(9).is_none());
}

#[test]
fn transaction_is_not_added_twice() {
    let mut schema = started();
    let funding = genesis().funding_tx.into_tx();
    let a = inside(&proposal(&genesis(), &funding, 100));
    assert_eq!(schema.add_lect(1, a.clone()), Outcome::Applied);
    assert_eq!(schema.add_lect(1, a.clone()), Outcome::Rejected(Rejection::DuplicateLect));
    assert_eq!(schema.add_lect(1, funding.clone()), Outcome::Rejected(Rejection::DuplicateLect));
    assert_eq!(schema.lects(1).len(), 2);
    assert_eq!(schema.find_lect_position(1, &a.id()), Some(1));
    assert_eq!(schema.find_lect_position(1, &funding.id()), Some(0));
}

#[test]
fn happy_path_with_four_validators() {
    let cfg = genesis();
    let mut schema = started();
    let funding = cfg.funding_tx.clone().into_tx();
    let anchoring = proposal(&cfg, &funding, 100);
    let anchoring_inside = inside(&anchoring);
    let id = anchoring_inside.id();
    for validator in 0..3u32 {
        let message = signature_message(&cfg, &anchoring, validator, 0, validator as u8 + 1);
        assert_eq!(message.execute(&mut schema), Outcome::Applied);
    }
    assert_eq!(schema.signatures(&id).len(), 3);
    assert!(schema.signatures(&id).len() >= cfg.threshold as usize);
    let script = cfg.redeem_script().unwrap().0;
    for (i, record) in schema.signatures(&id).iter().enumerate() {
        assert_eq!(record.validator(), i as u32);
        assert_eq!(record.input(), 0);
        assert!(record.tx().id().same_as(&id));
        assert!(schema.verify_signature(record));
        assert!(record.tx().verify(&script, record.input(), &cfg.validators[i], record.signature()));
    }
    for validator in 0..4u32 {
        let message = update_message(validator, &anchoring_inside, 2);
        assert_eq!(message.execute(&mut schema), Outcome::Applied);
    }
    for validator in 0..4u32 {
        assert_eq!(schema.lects(validator).len(), 2);
        assert_eq!(schema.lects(validator)[1].as_bytes(), anchoring_inside.as_bytes());
        assert_eq!(schema.lects(validator)[0].as_bytes(), funding.as_bytes());
        assert_eq!(schema.find_lect_position(validator, &id), Some(1));
    }
}

#[test]
fn faulty_signature_is_ignored() {
    let cfg = genesis();
    let mut schema = started();
    let funding = cfg.funding_tx.clone().into_tx();
    let anchoring = proposal(&cfg, &funding, 100);
    let id = inside(&anchoring).id();
    assert_eq!(signature_message(&cfg, &anchoring, 0, 0, 1).execute(&mut schema), Outcome::Applied);
    assert_eq!(signature_message(&cfg, &anchoring, 1, 0, 2).execute(&mut schema), Outcome::Applied);
    let faulty = TxAnchoringSignature::new(
        &sender(2),
        2,
        AnchoringTx::from_tx(inside(&anchoring)).unwrap(),
        0,
        &[0x30, 0x06, 0x02, 0x01, 0x01, 0x02, 0x01, 0x01],
    )
    .unwrap();
    assert_eq!(faulty.execute(&mut schema), Outcome::Rejected(Rejection::IncorrectSignature));
    assert_eq!(schema.signatures(&id).len(), 2);
}

#[test]
fn signature_of_another_validator_is_ignored() {
    let cfg = genesis();
    let mut schema = started();
    let funding = cfg.funding_tx.clone().into_tx();
    let anchoring = proposal(&cfg, &funding, 100);
    let id = inside(&anchoring).id();
    // validator 1 sends what validator 2 signed
    let message = signature_message(&cfg, &anchoring, 1, 0, 3);
    assert_eq!(message.execute(&mut schema), Outcome::Rejected(Rejection::IncorrectSignature));
    // a validator that the configuration does not know
    let message = signature_message(&cfg, &anchoring, 4, 0, 1);
    assert_eq!(message.execute(&mut schema), Outcome::Rejected(Rejection::IncorrectSignature));
    // an input that the transaction does not have
    let signature = sign(&cfg, &anchoring, 0, 1);
    let message = TxAnchoringSignature::new(
        &sender(0),
        0,
        AnchoringTx::from_tx(inside(&anchoring)).unwrap(),
        1,
        &signature,
    )
    .unwrap();
    assert_eq!(message.execute(&mut schema), Outcome::Rejected(Rejection::IncorrectSignature));
    assert!(schema.signatures(&id).is_empty());
    assert!(!schema.verify_signature(&message));
    assert!(schema.verify_signature(&signature_message(&cfg, &anchoring, 0, 0, 1)));
}

#[test]
fn second_signature_of_a_validator_for_an_input_is_a_no_op() {
    let cfg = genesis();
    let mut schema = started();
    let funding = cfg.funding_tx.clone().into_tx();
    let anchoring = proposal(&cfg, &funding, 100);
    let id = inside(&anchoring).id();
    let message = signature_message(&cfg, &anchoring, 0, 0, 1);
    assert_eq!(message.execute(&mut schema), Outcome::Applied);
    assert_eq!(message.execute(&mut schema), Outcome::Rejected(Rejection::DuplicateSignature));
    assert_eq!(
        AnchoringTransaction::Signature(message.clone()).execute(&mut schema),
        Outcome::Rejected(Rejection::DuplicateSignature)
    );
    assert_eq!(schema.signatures(&id).len(), 1);
    assert_eq!(schema.signatures(&id)[0].raw(), message.raw());
    for validator in 1..4u32 {
        let message = signature_message(&cfg, &anchoring, validator, 0, validator as u8 + 1);
        assert_eq!(message.execute(&mut schema), Outcome::Applied);
        assert_eq!(message.execute(&mut schema), Outcome::Rejected(Rejection::DuplicateSignature));
    }
    assert_eq!(schema.signatures(&id).len(), 4);
    assert!(schema.signatures(&id).len() <= cfg.validators.len());
}

#[test]
fn signatures_for_two_inputs_are_kept_apart() {
    let cfg = genesis();
    let mut schema = started();
    let funding = cfg.funding_tx.clone().into_tx();
    let multisig = cfg.redeem_script().unwrap().1.script_pubkey();
    let anchoring = outside_tx(
        vec![(id_array(&funding.id()), 0), ([0xee; 32], 2)],
        vec![(99_000, multisig), (0, build_payload_script(100, &[0x11; 32]))],
    );
    let id = inside(&anchoring).id();
    assert_eq!(signature_message(&cfg, &anchoring, 0, 0, 1).execute(&mut schema), Outcome::Applied);
    assert_eq!(signature_message(&cfg, &anchoring, 0, 1, 1).execute(&mut schema), Outcome::Applied);
    assert_eq!(
        signature_message(&cfg, &anchoring, 0, 1, 1).execute(&mut schema),
        Outcome::Rejected(Rejection::DuplicateSignature)
    );
    assert_eq!(schema.signatures(&id).len(), 2);
}

#[test]
fn signatures_are_kept_by_transaction() {
    let cfg = genesis();
    let mut schema = started();
    let funding = cfg.funding_tx.clone().into_tx();
    let first = proposal(&cfg, &funding, 100);
    let second = proposal(&cfg, &funding, 200);
    assert_eq!(signature_message(&cfg, &first, 0, 0, 1).execute(&mut schema), Outcome::Applied);
    assert_eq!(signature_message(&cfg, &second, 0, 0, 1).execute(&mut schema), Outcome::Applied);
    assert_eq!(signature_message(&cfg, &second, 1, 0, 2).execute(&mut schema), Outcome::Applied);
    assert_eq!(schema.signatures(&inside(&first).id()).len(), 1);
    assert_eq!(schema.signatures(&inside(&second).id()).len(), 2);
}

#[test]
fn update_with_another_count_is_rejected() {
    let mut schema = started();
    let funding = genesis().funding_tx.into_tx();
    let a = inside(&proposal(&genesis(), &funding, 100));
    for count in [0u64, 1, 3, u64::MAX] {
        assert_eq!(
            update_message(0, &a, count).execute(&mut schema),
            Outcome::Rejected(Rejection::LectCountMismatch)
        );
    }
    assert_eq!(schema.lects(0).len(), 1);
    assert_eq!(update_message(0, &a, 2).execute(&mut schema), Outcome::Applied);
    assert_eq!(schema.lects(0).len(), 2);
}

#[test]
fn replayed_update_does_not_duplicate_the_entry() {
    let mut schema = started();
    let funding = genesis().funding_tx.into_tx();
    let a = inside(&proposal(&genesis(), &funding, 100));
    let message = update_message(0, &a, 2);
    assert_eq!(message.execute(&mut schema), Outcome::Applied);
    assert_eq!(message.execute(&mut schema), Outcome::Rejected(Rejection::LectCountMismatch));
    assert_eq!(lect_bytes(&schema, 0), vec![funding.as_bytes().to_vec(), a.as_bytes().to_vec()]);
    // the same transaction under the next count
    assert_eq!(
        update_message(0, &a, 3).execute(&mut schema),
        Outcome::Rejected(Rejection::DuplicateLect)
    );
    assert_eq!(schema.lects(0).len(), 2);
    assert_eq!(schema.find_lect_position(0, &a.id()), Some(1));
}

#[test]
fn messages_applied_in_order_give_the_same_records() {
    let cfg = genesis();
    let funding = cfg.funding_tx.clone().into_tx();
    let anchoring = proposal(&cfg, &funding, 100);
    let a = inside(&anchoring);
    let messages = vec![
        AnchoringTransaction::Signature(signature_message(&cfg, &anchoring, 0, 0, 1)),
        AnchoringTransaction::UpdateLatest(update_message(2, &a, 2)),
        AnchoringTransaction::Signature(signature_message(&cfg, &anchoring, 1, 0, 2)),
        AnchoringTransaction::Signature(signature_message(&cfg, &anchoring, 1, 0, 2)),
        AnchoringTransaction::UpdateLatest(update_message(2, &a, 2)),
        AnchoringTransaction::UpdateLatest(update_message(3, &a, 2)),
    ];
    let mut one = started();
    let mut other = started();
    one.apply(&messages);
    for message in &messages {
        message.execute(&mut other);
    }
    for schema in [&one, &other] {
        assert_eq!(schema.signatures(&a.id()).len(), 2);
        assert_eq!(schema.lects(2).len(), 2);
        assert_eq!(schema.lects(3).len(), 2);
        assert_eq!(schema.lects(0).len(), 1);
    }
    for validator in 0..4 {
        assert_eq!(lect_bytes(&one, validator), lect_bytes(&other, validator));
    }
    let raw = |s: &AnchoringSchema| -> Vec<Vec<u8>> {
        s.signatures(&a.id()).iter().map(|m| m.raw().body).collect()
    };
    assert_eq!(raw(&one), raw(&other));
}

#[test]
fn following_configuration_comes_into_force_at_its_height() {
    let old = genesis();
    let new = config([5, 6, 7, 8], 3);
    let mut schema = started();
    assert!(schema.following_anchoring_config().is_none());
    assert!(schema.schedule_config(FollowingConfig { actual_from: 250, config: new.clone() }));
    let following = schema.following_anchoring_config().unwrap();
    assert_eq!(following.actual_from, 250);
    assert_eq!(following.config.validators[0].as_bytes(), key(5).as_bytes());
    schema.reach_height(200);
    assert_eq!(schema.current_anchoring_config().validators[0].as_bytes(), key(1).as_bytes());
    assert!(schema.following_anchoring_config().is_some());
    // the transition transaction moves the funds to the address of the new validators
    let funding = old.funding_tx.clone().into_tx();
    let new_multisig = new.redeem_script().unwrap().1.script_pubkey();
    let transition = outside_tx(
        vec![(id_array(&funding.id()), 0)],
        vec![(99_000, new_multisig), (0, build_payload_script(200, &[0x22; 32]))],
    );
    for validator in 0..3u32 {
        let message = signature_message(&old, &transition, validator, 0, validator as u8 + 1);
        assert_eq!(message.execute(&mut schema), Outcome::Applied);
    }
    schema.reach_height(249);
    assert_eq!(schema.current_anchoring_config().validators[0].as_bytes(), key(1).as_bytes());
    schema.reach_height(250);
    assert_eq!(schema.current_anchoring_config().validators[0].as_bytes(), key(5).as_bytes());
    assert!(schema.following_anchoring_config().is_none());
    // the next anchoring spends the transition transaction and is signed by the new validators
    let next = proposal(&new, &inside(&transition), 300);
    assert_eq!(
        signature_message(&new, &next, 0, 0, 1).execute(&mut schema),
        Outcome::Rejected(Rejection::IncorrectSignature)
    );
    assert_eq!(signature_message(&new, &next, 0, 0, 5).execute(&mut schema), Outcome::Applied);
    assert_eq!(next.input[0].previous_output.txid, transition.compute_txid());
    // what was recorded before stays
    assert_eq!(schema.signatures(&inside(&transition).id()).len(), 3);
}

#[test]
fn configuration_is_not_scheduled_before_the_last() {
    let mut schema = started();
    assert!(!schema.schedule_config(FollowingConfig { actual_from: 0, config: genesis() }));
    assert!(schema.schedule_config(FollowingConfig { actual_from: 10, config: config([5, 6, 7, 8], 2) }));
    assert!(!schema.schedule_config(FollowingConfig { actual_from: 10, config: genesis() }));
    assert!(!schema.schedule_config(FollowingConfig { actual_from: 5, config: genesis() }));
    assert!(schema.schedule_config(FollowingConfig { actual_from: 20, config: config([9, 10, 11, 12], 4) }));
    assert_eq!(schema.following_anchoring_config().unwrap().actual_from, 10);
    schema.reach_height(15);
    assert_eq!(schema.current_anchoring_config().threshold, 2);
    assert_eq!(schema.following_anchoring_config().unwrap().actual_from, 20);
    schema.reach_height(5);
    assert_eq!(schema.current_anchoring_config().threshold, 2);
    schema.reach_height(1000);
    assert_eq!(schema.current_anchoring_config().threshold, 4);
    assert!(schema.following_anchoring_config().is_none());
}

#[test]
fn height_past_two_configurations_takes_the_last() {
    let mut schema = started();
    assert!(schema.schedule_config(FollowingConfig { actual_from: 10, config: config([5, 6, 7, 8], 2) }));
    assert!(schema.schedule_config(FollowingConfig { actual_from: 20, config: config([9, 10, 11, 12], 4) }));
    schema.reach_height(20);
    assert_eq!(schema.current_anchoring_config().threshold, 4);
}

#[test]
fn threshold_has_to_be_in_range() {
    let mut cfg = genesis();
    assert!(cfg.has_threshold_in_range());
    assert!(cfg.redeem_script().is_some());
    cfg.threshold = 4;
    assert!(cfg.has_threshold_in_range());
    cfg.threshold = 5;
    assert!(!cfg.has_threshold_in_range());
    assert!(cfg.redeem_script().is_none());
    cfg.threshold = 0;
    assert!(!cfg.has_threshold_in_range());
    assert!(cfg.redeem_script().is_none());
}

#[test]
fn seventeen_validators_sign_as_four_do() {
    let seeds: Vec<u8> = (1..=17).collect();
    let validators: Vec<PublicKey> = seeds.iter().map(|s| key(*s)).collect();
    let multisig = btc_anchoring::btc::create_multisig_address(Network::Testnet, 12, &validators)
        .unwrap()
        .1
        .script_pubkey();
    let funding = inside(&outside_tx(vec![([0xf0; 32], 1)], vec![(100_000, multisig)]));
    let cfg = AnchoringConfig {
        validators,
        threshold: 12,
        network: Network::Testnet,
        funding_tx: FundingTx::from_tx(funding.clone()),
        interval: 100,
        fee: 1000,
    };
    assert!(cfg.has_threshold_in_range());
    let mut schema = AnchoringSchema::new(cfg.clone());
    schema.create_genesis_config(&cfg);
    assert_eq!(schema.current_anchoring_config().threshold, 12);
    assert_eq!(schema.lects(16).len(), 1);
    assert!(schema.lects(17).is_empty());
    let anchoring = proposal(&cfg, &funding, 100);
    for validator in 0..17u32 {
        let message = signature_message(&cfg, &anchoring, validator, 0, validator as u8 + 1);
        assert_eq!(message.execute(&mut schema), Outcome::Applied);
    }
    assert_eq!(schema.signatures(&inside(&anchoring).id()).len(), 17);
    let message = signature_message(&cfg, &anchoring, 16, 0, 17);
    assert_eq!(message.execute(&mut schema), Outcome::Rejected(Rejection::DuplicateSignature));
}
