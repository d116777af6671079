use bitcoin::absolute::LockTime;
use bitcoin::consensus::encode::serialize;
use bitcoin::script::Builder;
use bitcoin::secp256k1::{Message, Secp256k1, SecretKey};
use bitcoin::sighash::SighashCache;
use bitcoin::transaction::Version;
use bitcoin::{Amount, OutPoint, ScriptBuf, Sequence, Transaction, TxIn, TxOut, Txid, Witness};
use btc_anchoring::btc::{
    create_multisig_address, sort_keys, Address, BitcoinTx, Network, PrivateKey, PublicKey,
    RedeemScript, TxId,
};

fn secret(n: u8) -> SecretKey {
    SecretKey::from_slice(&[n; 32]).unwrap()
}

fn key(n: u8) -> PublicKey {
    let secp = Secp256k1::new();
    let public = bitcoin::secp256k1::PublicKey::from_secret_key(&secp, &secret(n));
    PublicKey::from_bytes(public.serialize().to_vec()).unwrap()
}

fn sample_tx(outputs: Vec<(u64, Vec<u8>)>) -> Transaction {
    Transaction {
        version: Version::ONE,
        lock_time: LockTime::ZERO,
        input: vec![TxIn {
            previous_output: OutPoint {
                txid: bitcoin::hashes::Hash::from_byte_array([7u8; 32]),
                vout: 3,
            },
            script_sig: ScriptBuf::new(),
            sequence: Sequence::MAX,
            witness: Witness::new(),
        }],
        output: outputs
            .into_iter()
            .map(|(value, script)| TxOut {
                value: Amount::from_sat(value),
                script_pubkey: ScriptBuf::from_bytes(script),
            })
            .collect(),
    }
}

#[test]
fn transaction_is_read_from_its_bytes() {
    let outside = sample_tx(vec![(5000, vec![0x51]), (0, vec![0x6a, 0x01, 0xff])]);
    let raw = serialize(&outside);
    let tx = BitcoinTx::from_bytes(raw.clone()).unwrap();
    assert_eq!(tx.as_bytes(), &raw[..]);
    let txid: Txid = outside.compute_txid();
    let id_bytes: [u8; 32] = bitcoin::hashes::Hash::to_byte_array(txid);
    assert_eq!(tx.id().as_bytes(), &id_bytes[..]);
    assert_ne!(tx.id().as_bytes(), &raw[..]);
    assert_eq!(tx.inputs().len(), 1);
    assert_eq!(tx.inputs()[0].prev_txid.as_bytes(), &[7u8; 32][..]);
    assert_eq!(tx.inputs()[0].prev_index, 3);
    assert_eq!(tx.outputs().len(), 2);
    assert_eq!(tx.outputs()[0].value, 5000);
    assert_eq!(tx.outputs()[0].script_pubkey, vec![0x51]);
    assert_eq!(tx.outputs()[1].value, 0);
    assert_eq!(tx.outputs()[1].script_pubkey, vec![0x6a, 0x01, 0xff]);
}

#[test]
fn bytes_that_hold_no_transaction_are_refused() {
    assert!(BitcoinTx::from_bytes(vec![]).is_none());
    assert!(BitcoinTx::from_bytes(vec![1, 2, 3]).is_none());
    let mut raw = serialize(&sample_tx(vec![(1, vec![0x51])]));
    raw.push(0);
    assert!(BitcoinTx::from_bytes(raw).is_none());
}

#[test]
fn transaction_hex_round_trip() {
    let raw = serialize(&sample_tx(vec![(1, vec![0x51])]));
    let tx = BitcoinTx::from_bytes(raw.clone()).unwrap();
    let hex = tx.to_hex();
    assert_eq!(hex, bitcoin::consensus::encode::serialize_hex(&sample_tx(vec![(1, vec![0x51])])));
    let back = BitcoinTx::from_hex(&hex).unwrap();
    assert_eq!(back.as_bytes(), &raw[..]);
    assert!(BitcoinTx::from_hex("xyz").is_none());
    assert!(BitcoinTx::from_hex("00").is_none());
}

#[test]
fn cloned_transaction_is_the_same() {
    let raw = serialize(&sample_tx(vec![(9, vec![0x51, 0x52])]));
    let tx = BitcoinTx::from_bytes(raw).unwrap();
    let copy = tx.clone();
    assert_eq!(copy.as_bytes(), tx.as_bytes());
    assert!(copy.id().same_as(&tx.id()));
    assert_eq!(copy.outputs()[0].script_pubkey, tx.outputs()[0].script_pubkey);
    assert_eq!(copy.inputs()[0].prev_index, 3);
}

#[test]
fn txid_compares_by_bytes() {
    let a = TxId::from_bytes(vec![1, 2, 3]);
    let b = TxId::from_bytes(vec![1, 2, 3]);
    let c = TxId::from_bytes(vec![1, 2, 4]);
    assert!(a.same_as(&b));
    assert!(!a.same_as(&c));
    assert!(a.clone().same_as(&a));
}

#[test]
fn public_key_needs_33_bytes() {
    assert!(PublicKey::from_bytes(vec![2; 33]).is_some());
    assert!(PublicKey::from_bytes(vec![2; 32]).is_none());
    assert!(PublicKey::from_bytes(vec![2; 65]).is_none());
    let text = "02".repeat(33);
    assert_eq!(PublicKey::from_hex(&text).unwrap().as_bytes(), &[2u8; 33][..]);
    assert!(PublicKey::from_hex("02").is_none());
    assert!(PublicKey::from_hex("zz").is_none());
}

#[test]
fn keys_are_sorted_as_in_a_dictionary() {
    let keys = vec![
        PublicKey::from_bytes(vec![3; 33]).unwrap(),
        PublicKey::from_bytes(vec![2; 33]).unwrap(),
        PublicKey::from_bytes([vec![2; 32], vec![1]].concat()).unwrap(),
        PublicKey::from_bytes(vec![3; 33]).unwrap(),
    ];
    let sorted = sort_keys(&keys);
    let bytes: Vec<Vec<u8>> = sorted.iter().map(|k| k.as_bytes().to_vec()).collect();
    assert_eq!(bytes, vec![[vec![2; 32], vec![1]].concat(), vec![2; 33], vec![3; 33], vec![3; 33]]);
}

#[test]
fn redeem_script_is_the_multisig_script_over_sorted_keys() {
    let keys = vec![key(1), key(2), key(3)];
    let script = RedeemScript::from_pubkeys(&keys, 2).unwrap();
    let mut sorted: Vec<Vec<u8>> = keys.iter().map(|k| k.as_bytes().to_vec()).collect();
    sorted.sort();
    let mut builder = Builder::new().push_int(2);
    for k in &sorted {
        let bytes: [u8; 33] = k.clone().try_into().unwrap();
        builder = builder.push_slice(bytes);
    }
    let expected = builder
        .push_int(3)
        .push_opcode(bitcoin::opcodes::all::OP_CHECKMULTISIG)
        .into_script();
    assert_eq!(script.as_bytes(), expected.as_bytes());
    assert_eq!(script.as_bytes()[0], 0x52);
    assert_eq!(script.as_bytes()[1], 33);
    assert_eq!(script.as_bytes().len(), 1 + 3 * 34 + 2);
    assert_eq!(script.as_bytes()[script.as_bytes().len() - 2], 0x53);
    assert_eq!(script.as_bytes()[script.as_bytes().len() - 1], 0xae);
}

#[test]
fn redeem_script_does_not_depend_on_the_order_of_the_keys() {
    let a = RedeemScript::from_pubkeys(&vec![key(1), key(2), key(3)], 2).unwrap();
    let b = RedeemScript::from_pubkeys(&vec![key(3), key(1), key(2)], 2).unwrap();
    assert_eq!(a.as_bytes(), b.as_bytes());
}

#[test]
fn redeem_script_needs_a_threshold_in_range() {
    let keys = vec![key(1), key(2), key(3)];
    assert!(RedeemScript::from_pubkeys(&keys, 0).is_none());
    assert!(RedeemScript::from_pubkeys(&keys, 4).is_none());
    assert!(RedeemScript::from_pubkeys(&keys, 255).is_none());
    assert!(RedeemScript::from_pubkeys(&keys, 1).is_some());
    assert!(RedeemScript::from_pubkeys(&keys, 3).is_some());
    assert!(RedeemScript::from_pubkeys(&vec![], 0).is_none());
    assert!(RedeemScript::from_pubkeys(&vec![], 1).is_none());
}

fn builder_script(keys: &Vec<PublicKey>, threshold: u8) -> Vec<u8> {
    let mut sorted: Vec<Vec<u8>> = keys.iter().map(|k| k.as_bytes().to_vec()).collect();
    sorted.sort();
    let mut builder = Builder::new().push_int(threshold as i64);
    for k in &sorted {
        let bytes: [u8; 33] = k.clone().try_into().unwrap();
        builder = builder.push_slice(bytes);
    }
    builder
        .push_int(keys.len() as i64)
        .push_opcode(bitcoin::opcodes::all::OP_CHECKMULTISIG)
        .into_script()
        .into_bytes()
}

#[test]
fn redeem_script_for_more_than_16_keys_pushes_the_numbers_as_data() {
    for (count, threshold) in [
        (16usize, 16u8),
        (17, 1),
        (17, 16),
        (17, 17),
        (127, 127),
        (128, 127),
        (128, 128),
        (200, 130),
        (255, 255),
        (256, 255),
        (300, 200),
    ] {
        let keys: Vec<PublicKey> = (0..count).map(|i| key((i % 250) as u8 + 1)).collect();
        let script = RedeemScript::from_pubkeys(&keys, threshold).unwrap();
        assert_eq!(script.as_bytes(), &builder_script(&keys, threshold)[..]);
    }
    let keys: Vec<PublicKey> = (0..17).map(|i| key(i + 1)).collect();
    let script = RedeemScript::from_pubkeys(&keys, 17).unwrap();
    assert_eq!(&script.as_bytes()[..2], &[1, 17]);
    let end = script.as_bytes().len();
    assert_eq!(&script.as_bytes()[end - 3..], &[1, 17, 0xae]);
    let keys: Vec<PublicKey> = (0..200).map(|i| key(i as u8 + 1)).collect();
    let script = RedeemScript::from_pubkeys(&keys, 130).unwrap();
    assert_eq!(&script.as_bytes()[..3], &[2, 130, 0]);
    let end = script.as_bytes().len();
    assert_eq!(&script.as_bytes()[end - 4..], &[2, 200, 0, 0xae]);
    let keys: Vec<PublicKey> = (0..300).map(|i| key((i % 250) as u8 + 1)).collect();
    let script = RedeemScript::from_pubkeys(&keys, 2).unwrap();
    let end = script.as_bytes().len();
    assert_eq!(&script.as_bytes()[end - 4..], &[2, 0x2c, 0x01, 0xae]);
    assert_eq!(script.as_bytes()[0], 0x52);
}

#[test]
fn address_exists_for_more_than_16_keys() {
    let keys: Vec<PublicKey> = (0..17).map(|i| key(i + 1)).collect();
    let (script, address) = create_multisig_address(Network::Testnet, 12, &keys).unwrap();
    assert_eq!(script.as_bytes(), &builder_script(&keys, 12)[..]);
    let hash = <bitcoin::hashes::hash160::Hash as bitcoin::hashes::Hash>::hash(script.as_bytes());
    let digest: [u8; 20] = bitcoin::hashes::Hash::to_byte_array(hash);
    assert_eq!(&address.script_pubkey()[2..22], &digest[..]);
}

#[test]
fn address_is_the_script_hash_address_of_the_redeem_script() {
    let keys = vec![key(1), key(2), key(3)];
    let (script, address) = create_multisig_address(Network::Testnet, 2, &keys).unwrap();
    let outside_script = ScriptBuf::from_bytes(script.as_bytes().to_vec());
    let outside = bitcoin::Address::p2sh(&outside_script, bitcoin::NetworkKind::Test).unwrap();
    assert_eq!(address.to_base58check(), outside.to_string());
    assert_eq!(address.script_pubkey(), outside.script_pubkey().to_bytes());
    assert_eq!(address.network(), Network::Testnet);
    let main = Address::from_script(&script, Network::Bitcoin);
    let outside_main = bitcoin::Address::p2sh(&outside_script, bitcoin::NetworkKind::Main).unwrap();
    assert_eq!(main.to_base58check(), outside_main.to_string());
    assert!(main.to_base58check().starts_with('3'));
    assert_ne!(main.to_base58check(), String::from_utf8(script.as_bytes().to_vec()).unwrap_or_default());
    assert_eq!(main.script_pubkey().len(), 23);
    assert_eq!(main.script_pubkey()[0], 0xa9);
    assert_eq!(main.script_pubkey()[1], 20);
    assert_eq!(main.script_pubkey()[22], 0x87);
    assert!(create_multisig_address(Network::Testnet, 4, &keys).is_none());
}

#[test]
fn signature_of_an_input_is_checked() {
    let secp = Secp256k1::new();
    let keys = vec![key(1), key(2), key(3)];
    let script = RedeemScript::from_pubkeys(&keys, 2).unwrap();
    let outside = sample_tx(vec![(5000, vec![0x51])]);
    let tx = BitcoinTx::from_bytes(serialize(&outside)).unwrap();
    let hash = SighashCache::new(&outside)
        .legacy_signature_hash(0, bitcoin::Script::from_bytes(script.as_bytes()), 1)
        .unwrap();
    let digest: [u8; 32] = bitcoin::hashes::Hash::to_byte_array(hash);
    let message = Message::from_digest(digest);
    let signature = secp.sign_ecdsa(&message, &secret(2)).serialize_der().to_vec();
    assert!(tx.verify_input(&script, 0, &key(2), &signature));
    // another key, another input, another script, other bytes
    assert!(!tx.verify_input(&script, 0, &key(1), &signature));
    assert!(!tx.verify_input(&script, 1, &key(2), &signature));
    let other = RedeemScript::from_pubkeys(&keys, 3).unwrap();
    assert!(!tx.verify_input(&other, 0, &key(2), &signature));
    assert!(!tx.verify_input(&script, 0, &key(2), &[1, 2, 3]));
    assert!(!tx.verify_input(&script, 0, &key(2), &[]));
    let mut broken = signature.clone();
    let last = broken.len() - 1;
    broken[last] ^= 1;
    assert!(!tx.verify_input(&script, 0, &key(2), &broken));
    // a key that is no point of the curve
    let no_point = PublicKey::from_bytes(vec![0; 33]).unwrap();
    assert!(!tx.verify_input(&script, 0, &no_point, &signature));
}

#[test]
fn private_key_is_read_from_its_text() {
    let outside = bitcoin::PrivateKey::new(secret(5), bitcoin::NetworkKind::Test);
    let key = PrivateKey::from_base58check(&outside.to_wif()).unwrap();
    assert_eq!(key.secret, vec![5u8; 32]);
    assert!(key.compressed);
    assert_eq!(key.network, Network::Testnet);
    let outside = bitcoin::PrivateKey::new_uncompressed(secret(6), bitcoin::NetworkKind::Main);
    let key = PrivateKey::from_base58check(&outside.to_wif()).unwrap();
    assert_eq!(key.secret, vec![6u8; 32]);
    assert!(!key.compressed);
    assert_eq!(key.network, Network::Bitcoin);
    assert!(PrivateKey::from_base58check("not a key").is_none());
}
