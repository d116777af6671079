use bitcoin::absolute::LockTime;
use bitcoin::consensus::encode::serialize;
use bitcoin::secp256k1::{Message, Secp256k1, SecretKey};
use bitcoin::sighash::SighashCache;
use bitcoin::transaction::Version;
use bitcoin::{Amount, OutPoint, ScriptBuf, Sequence, Transaction, TxIn, TxOut, Witness};
use btc_anchoring::btc::{create_multisig_address, BitcoinTx, Network, PublicKey, TxId};
use btc_anchoring::config::{AnchoringConfig, FollowingConfig};
use btc_anchoring::coordinator::{
    anchoring_due, is_stale_proposal, proposer, spends_output_of, step, Action, Event, State,
    Submission,
};
use btc_anchoring::messages::{TxAnchoringSignature, TxAnchoringUpdateLatest};
use btc_anchoring::schema::AnchoringSchema;
use btc_anchoring::state::Outcome;
use btc_anchoring::transactions::{build_payload_script, AnchoringTx, FundingTx};

fn secret(n: u8) -> SecretKey {
    SecretKey::from_slice(&[n; 32]).unwrap()
}

fn key(n: u8) -> PublicKey {
    let secp = Secp256k1::new();
    let public = bitcoin::secp256k1::PublicKey::from_secret_key(&secp, &secret(n));
    PublicKey::from_bytes(public.serialize().to_vec()).unwrap()
}

fn sender(n: u8) -> btc_anchoring::crypto::PublicKey {
    btc_anchoring::crypto::PublicKey::from_bytes(vec![n; 32]).unwrap()
}

fn outside_tx(inputs: Vec<([u8; 32], u32)>, outputs: Vec<(u64, Vec<u8>)>) -> Transaction {
    Transaction {
        version: Version::ONE,
        lock_time: LockTime::ZERO,
        input: inputs
            .into_iter()
            .map(|(txid, vout)| TxIn {
                previous_output: OutPoint {
                    txid: bitcoin::hashes::Hash::from_byte_array(txid),
                    vout,
                },
                script_sig: ScriptBuf::new(),
                sequence: Sequence::MAX,
                witness: Witness::new(),
            })
            .collect(),
        output: outputs
            .into_iter()
            .map(|(value, script)| TxOut {
                value: Amount::from_sat(value),
                script_pubkey: ScriptBuf::from_bytes(script),
            })
            .collect(),
    }
}

fn inside(tx: &Transaction) -> BitcoinTx {
    BitcoinTx::from_bytes(serialize(tx)).unwrap()
}

fn config(seeds: [u8; 4]) -> AnchoringConfig {
    let validators: Vec<PublicKey> = seeds.iter().map(|s| key(*s)).collect();
    let multisig =
        create_multisig_address(Network::Testnet, 3, &validators).unwrap().1.script_pubkey();
    let funding = inside(&outside_tx(vec![([0xf0; 32], 1)], vec![(100_000, multisig)]));
    AnchoringConfig {
        validators,
        threshold: 3,
        network: Network::Testnet,
        funding_tx: FundingTx::from_tx(funding),
        interval: 100,
        fee: 1000,
    }
}

fn genesis() -> AnchoringConfig {
    config([1, 2, 3, 4])
}

fn id_array(id: &TxId) -> [u8; 32] {
    id.as_bytes().try_into().unwrap()
}

fn hash(height: u64) -> [u8; 32] {
    [height as u8; 32]
}

fn proposal_to(to: &AnchoringConfig, prev: &BitcoinTx, height: u64) -> Transaction {
    let multisig = to.redeem_script().unwrap().1.script_pubkey();
    outside_tx(
        vec![(id_array(&prev.id()), 0)],
        vec![(99_000, multisig), (0, build_payload_script(height, &hash(height)))],
    )
}

fn anchoring(tx: &Transaction) -> AnchoringTx {
    AnchoringTx::from_tx(inside(tx)).unwrap()
}

fn sign(cfg: &AnchoringConfig, tx: &Transaction, validator: u32, seed: u8) -> TxAnchoringSignature {
    let script = cfg.redeem_script().unwrap().0;
    let sighash = SighashCache::new(tx)
        .legacy_signature_hash(0, bitcoin::Script::from_bytes(script.as_bytes()), 1)
        .unwrap();
    let digest: [u8; 32] = bitcoin::hashes::Hash::to_byte_array(sighash);
    let signature = Secp256k1::new()
        .sign_ecdsa(&Message::from_digest(digest), &secret(seed))
        .serialize_der()
        .to_vec();
    TxAnchoringSignature::new(&sender(validator as u8), validator, anchoring(tx), 0, &signature)
        .unwrap()
}

fn started() -> AnchoringSchema {
    let mut schema = AnchoringSchema::new(genesis());
    schema.create_genesis_config(&genesis());
    schema
}

fn block(height: u64, proposal: Option<&Transaction>) -> Event {
    Event::BlockCommitted {
        height,
        block_hash: hash(height).to_vec(),
        proposal: proposal.map(anchoring),
    }
}

fn is_idle(state: &State) -> bool {
    matches!(state, State::Idle)
}

#[test]
fn anchoring_is_due_at_multiples_of_the_interval() {
    assert!(anchoring_due(0, 100));
    assert!(anchoring_due(100, 100));
    assert!(anchoring_due(300, 100));
    assert!(!anchoring_due(250, 100));
    assert!(!anchoring_due(99, 100));
    assert!(anchoring_due(7, 1));
    assert!(!anchoring_due(0, 0));
    assert!(!anchoring_due(5, 0));
}

#[test]
fn proposer_is_the_interval_number_counted_around_the_validators() {
    assert_eq!(proposer(100, 100, 4), Some(1));
    assert_eq!(proposer(0, 100, 4), Some(0));
    assert_eq!(proposer(199, 100, 4), Some(1));
    assert_eq!(proposer(400, 100, 4), Some(0));
    assert_eq!(proposer(700, 100, 4), Some(3));
    assert_eq!(proposer(u64::MAX, 1, 7), Some((u64::MAX % 7) as usize));
    assert_eq!(proposer(100, 0, 4), None);
    assert_eq!(proposer(100, 100, 0), None);
}

#[test]
fn spending_is_told_by_the_inputs() {
    let funding = genesis().funding_tx.into_tx();
    let p = inside(&proposal_to(&genesis(), &funding, 100));
    assert!(spends_output_of(&p, &funding.id()));
    assert!(!spends_output_of(&p, &p.id()));
    assert!(!spends_output_of(&funding, &funding.id()));
}

#[test]
fn happy_path_from_proposal_to_announcement() {
    let cfg = genesis();
    let mut schema = started();
    let funding = cfg.funding_tx.clone().into_tx();
    let proposal = proposal_to(&cfg, &funding, 100);
    assert_eq!(proposer(100, cfg.interval, cfg.validators.len()), Some(1));

    // between anchorings nothing happens
    let (state, action) = step(State::Idle, &schema, 3, block(99, None));
    assert!(is_idle(&state) && matches!(action, Action::Nothing));

    // at height 100 the proposal is taken up
    let (state, action) = step(state, &schema, 3, block(100, Some(&proposal)));
    match (&state, &action) {
        (State::CollectingSignatures(p), Action::BroadcastSignatures(q)) => {
            assert_eq!(p.as_tx().as_bytes(), &serialize(&proposal)[..]);
            assert_eq!(q.as_tx().as_bytes(), &serialize(&proposal)[..]);
        }
        _ => panic!("collecting signatures"),
    }

    // two signatures are not enough
    assert_eq!(sign(&cfg, &proposal, 0, 1).execute(&mut schema), Outcome::Applied);
    assert_eq!(sign(&cfg, &proposal, 1, 2).execute(&mut schema), Outcome::Applied);
    let (state, action) = step(state, &schema, 3, block(101, None));
    assert!(matches!(state, State::CollectingSignatures(_)) && matches!(action, Action::Nothing));

    // the third makes validator 3 submit
    assert_eq!(sign(&cfg, &proposal, 2, 3).execute(&mut schema), Outcome::Applied);
    let (state, action) = step(state, &schema, 3, block(102, None));
    match (&state, &action) {
        (State::AwaitingConfirmation(p), Action::Submit(q)) => {
            assert_eq!(p.as_tx().as_bytes(), &serialize(&proposal)[..]);
            assert_eq!(q.as_tx().as_bytes(), &serialize(&proposal)[..]);
        }
        _ => panic!("awaiting confirmation"),
    }

    // the node has it already: still waiting
    for answer in [Submission::Accepted, Submission::AlreadyInMempool, Submission::AlreadyInChain, Submission::Fault] {
        let (next, action) = step(
            State::AwaitingConfirmation(anchoring(&proposal)),
            &schema,
            3,
            Event::Submitted(answer),
        );
        assert!(matches!(next, State::AwaitingConfirmation(_)) && matches!(action, Action::Nothing));
    }
    let (state, action) = step(state, &schema, 3, block(103, None));
    assert!(matches!(state, State::AwaitingConfirmation(_)) && matches!(action, Action::Nothing));

    // another transaction is confirmed: still waiting
    let (state, action) = step(state, &schema, 3, Event::Confirmed(funding.clone()));
    assert!(matches!(state, State::AwaitingConfirmation(_)) && matches!(action, Action::Nothing));

    // the awaited one is confirmed: announce
    let (state, action) = step(state, &schema, 3, Event::Confirmed(inside(&proposal)));
    assert!(is_idle(&state));
    let (tx, lect_count) = match action {
        Action::UpdateLatest { tx, lect_count } => (tx, lect_count),
        _ => panic!("an announcement"),
    };
    assert_eq!(tx.as_bytes(), &serialize(&proposal)[..]);
    assert_eq!(lect_count, 2);
    let message = TxAnchoringUpdateLatest::new(&sender(3), 3, tx, lect_count).unwrap();
    assert_eq!(message.execute(&mut schema), Outcome::Applied);
    assert_eq!(schema.lects(3).len(), 2);
    assert_eq!(schema.lects(3)[1].as_bytes(), &serialize(&proposal)[..]);
}

#[test]
fn proposal_for_another_block_or_another_predecessor_is_not_taken_up() {
    let cfg = genesis();
    let schema = started();
    let funding = cfg.funding_tx.clone().into_tx();
    let good = proposal_to(&cfg, &funding, 100);
    let other_height = proposal_to(&cfg, &funding, 200);
    let stale = proposal_to(&cfg, &inside(&good), 100);
    for proposal in [&other_height, &stale] {
        let (state, action) = step(State::Idle, &schema, 0, block(100, Some(proposal)));
        assert!(is_idle(&state) && matches!(action, Action::Nothing));
    }
    // another hash of the block
    let event = Event::BlockCommitted {
        height: 100,
        block_hash: vec![0; 32],
        proposal: Some(anchoring(&good)),
    };
    let (state, _) = step(State::Idle, &schema, 0, event);
    assert!(is_idle(&state));
    // no anchoring is due
    let (state, _) = step(State::Idle, &schema, 0, block(150, Some(&good)));
    assert!(is_idle(&state));
    // a validator without list
    let (state, _) = step(State::Idle, &schema, 9, block(100, Some(&good)));
    assert!(is_idle(&state));
    let (state, _) = step(State::Idle, &schema, 0, block(100, Some(&good)));
    assert!(matches!(state, State::CollectingSignatures(_)));
}

#[test]
fn missing_inputs_make_the_validator_give_up_and_propose_anew() {
    let cfg = genesis();
    let mut schema = started();
    let funding = cfg.funding_tx.clone().into_tx();
    let proposal = proposal_to(&cfg, &funding, 100);
    for (validator, seed) in [(0, 1), (1, 2), (2, 3)] {
        assert_eq!(sign(&cfg, &proposal, validator, seed).execute(&mut schema), Outcome::Applied);
    }
    let (state, _) = step(State::Idle, &schema, 0, block(100, Some(&proposal)));
    let (state, action) = step(state, &schema, 0, block(101, None));
    assert!(matches!(state, State::AwaitingConfirmation(_)) && matches!(action, Action::Submit(_)));
    let (state, action) = step(state, &schema, 0, Event::Submitted(Submission::InputsMissing));
    assert!(is_idle(&state) && matches!(action, Action::Nothing));
    // no announcement was made
    assert_eq!(schema.lects(0).len(), 1);
    let (state, _) = step(state, &schema, 0, block(150, None));
    assert!(is_idle(&state));
    // at height 200 a new proposal is taken up
    let fresh = proposal_to(&cfg, &funding, 200);
    let (state, action) = step(state, &schema, 0, block(200, Some(&fresh)));
    match (&state, &action) {
        (State::CollectingSignatures(p), Action::BroadcastSignatures(_)) => {
            assert_eq!(p.payload().block_height, 200);
        }
        _ => panic!("collecting signatures"),
    }
}

#[test]
fn proposal_without_enough_signatures_is_given_up_at_the_next_anchoring() {
    let cfg = genesis();
    let mut schema = started();
    let funding = cfg.funding_tx.clone().into_tx();
    let first = proposal_to(&cfg, &funding, 100);
    let second = proposal_to(&cfg, &funding, 200);
    assert_eq!(sign(&cfg, &first, 0, 1).execute(&mut schema), Outcome::Applied);
    let (state, _) = step(State::Idle, &schema, 0, block(100, Some(&first)));
    let (state, _) = step(state, &schema, 0, block(199, None));
    match &state {
        State::CollectingSignatures(p) => assert_eq!(p.payload().block_height, 100),
        _ => panic!("collecting signatures"),
    }
    let (state, action) = step(state, &schema, 0, block(200, Some(&second)));
    match (&state, &action) {
        (State::CollectingSignatures(p), Action::BroadcastSignatures(_)) => {
            assert_eq!(p.payload().block_height, 200);
        }
        _ => panic!("collecting signatures"),
    }
    // without new proposal the validator is idle
    let (state, _) = step(State::Idle, &schema, 1, block(100, Some(&first)));
    let (state, action) = step(state, &schema, 1, block(200, None));
    assert!(is_idle(&state) && matches!(action, Action::Nothing));
    // what was signed for the first stays recorded
    assert_eq!(schema.signatures(&inside(&first).id()).len(), 1);
}

#[test]
fn scheduled_configuration_begins_the_hand_over() {
    let old = genesis();
    let new = config([5, 6, 7, 8]);
    let mut schema = started();
    let funding = old.funding_tx.clone().into_tx();
    assert!(schema.schedule_config(FollowingConfig { actual_from: 250, config: new.clone() }));
    let pending = proposal_to(&old, &funding, 100);

    // whatever the state, the hand-over begins
    for state in [
        State::Idle,
        State::CollectingSignatures(anchoring(&pending)),
        State::AwaitingConfirmation(anchoring(&pending)),
    ] {
        let (state, action) = step(state, &schema, 0, block(200, Some(&pending)));
        match (&state, &action) {
            (State::Transferring(next), Action::PrepareTransfer(same)) => {
                assert_eq!(next.actual_from, 250);
                assert_eq!(same.actual_from, 250);
                assert_eq!(next.config.validators[0].as_bytes(), key(5).as_bytes());
            }
            _ => panic!("transferring"),
        }
    }

    let transferring = || State::Transferring(FollowingConfig { actual_from: 250, config: new.clone() });
    // the transaction that moves the funds is signed, then submitted
    let transition = proposal_to(&new, &funding, 200);
    let (state, action) = step(transferring(), &schema, 0, block(200, Some(&transition)));
    assert!(matches!(state, State::Transferring(_)));
    assert!(matches!(action, Action::BroadcastSignatures(_)));
    // a transaction that stays with the old validators is not
    let (_, action) = step(transferring(), &schema, 0, block(200, Some(&pending)));
    assert!(matches!(action, Action::Nothing));
    let (_, action) = step(transferring(), &schema, 0, block(200, None));
    assert!(matches!(action, Action::Nothing));
    for (validator, seed) in [(0, 1), (1, 2), (2, 3)] {
        assert_eq!(sign(&old, &transition, validator, seed).execute(&mut schema), Outcome::Applied);
    }
    let (state, action) = step(state, &schema, 0, block(201, Some(&transition)));
    assert!(matches!(state, State::Transferring(_)));
    match action {
        Action::Submit(tx) => assert_eq!(tx.as_tx().as_bytes(), &serialize(&transition)[..]),
        _ => panic!("a submission"),
    }
    // another confirmation changes nothing; that of the transition ends the hand-over
    let (state, action) = step(state, &schema, 0, Event::Confirmed(funding.clone()));
    assert!(matches!(state, State::Transferring(_)) && matches!(action, Action::Nothing));
    let (state, action) = step(state, &schema, 0, Event::Confirmed(inside(&transition)));
    assert!(is_idle(&state));
    let message = match action {
        Action::UpdateLatest { tx, lect_count } => {
            TxAnchoringUpdateLatest::new(&sender(0), 0, tx, lect_count).unwrap()
        }
        _ => panic!("an announcement"),
    };
    assert_eq!(message.execute(&mut schema), Outcome::Applied);
    // with the funds moved, the hand-over does not begin again
    let (state, action) = step(state, &schema, 0, block(210, None));
    assert!(is_idle(&state) && matches!(action, Action::Nothing));
    // a validator whose list does not hold the transition yet begins it
    let (state, _) = step(State::Idle, &schema, 1, block(210, None));
    assert!(matches!(state, State::Transferring(_)));
    // at height 250 the new configuration is in force and anchoring goes on
    schema.reach_height(250);
    assert_eq!(schema.current_anchoring_config().validators[0].as_bytes(), key(5).as_bytes());
    let next = proposal_to(&new, &inside(&transition), 300);
    let (state, action) = step(State::Idle, &schema, 0, block(300, Some(&next)));
    assert!(matches!(state, State::CollectingSignatures(_)));
    assert!(matches!(action, Action::BroadcastSignatures(_)));
    assert!(spends_output_of(&inside(&next), &inside(&transition).id()));
}

#[test]
fn answers_and_confirmations_mean_nothing_to_an_idle_validator() {
    let schema = started();
    let funding = genesis().funding_tx.into_tx();
    let (state, action) = step(State::Idle, &schema, 0, Event::Submitted(Submission::InputsMissing));
    assert!(is_idle(&state) && matches!(action, Action::Nothing));
    let (state, action) = step(state, &schema, 0, Event::Confirmed(funding.clone()));
    assert!(is_idle(&state) && matches!(action, Action::Nothing));
    let proposal = proposal_to(&genesis(), &funding, 100);
    let (state, action) = step(
        State::CollectingSignatures(anchoring(&proposal)),
        &schema,
        0,
        Event::Confirmed(inside(&proposal)),
    );
    assert!(matches!(state, State::CollectingSignatures(_)) && matches!(action, Action::Nothing));
    let (state, action) = step(state, &schema, 0, Event::Submitted(Submission::InputsMissing));
    assert!(matches!(state, State::CollectingSignatures(_)) && matches!(action, Action::Nothing));
}

#[test]
fn proposal_on_another_predecessor_is_stale() {
    let cfg = genesis();
    let mut schema = started();
    let funding = cfg.funding_tx.clone().into_tx();
    let first = inside(&proposal_to(&cfg, &funding, 100));
    let second = inside(&proposal_to(&cfg, &first, 200));
    assert!(!is_stale_proposal(&schema, 0, &first));
    assert!(is_stale_proposal(&schema, 0, &second));
    // for a validator without list every proposal is stale
    assert!(is_stale_proposal(&schema, 9, &first));
    // once the first is the latest, it is stale itself and the second is not
    let message = TxAnchoringUpdateLatest::new(&sender(0), 0, first.clone(), 2).unwrap();
    assert_eq!(message.execute(&mut schema), Outcome::Applied);
    assert!(is_stale_proposal(&schema, 0, &first));
    assert!(!is_stale_proposal(&schema, 0, &second));
    assert!(!is_stale_proposal(&schema, 1, &first));
}

#[test]
fn signatures_for_a_stale_proposal_are_not_counted() {
    let cfg = genesis();
    let mut schema = started();
    let funding = cfg.funding_tx.clone().into_tx();
    let first = proposal_to(&cfg, &funding, 100);
    let rival = outside_tx(
        vec![(id_array(&funding.id()), 0)],
        vec![
            (98_000, cfg.redeem_script().unwrap().1.script_pubkey()),
            (0, build_payload_script(100, &hash(100))),
        ],
    );
    let (state, _) = step(State::Idle, &schema, 0, block(100, Some(&first)));
    for (validator, seed) in [(0, 1), (1, 2), (2, 3)] {
        assert_eq!(sign(&cfg, &first, validator, seed).execute(&mut schema), Outcome::Applied);
    }
    assert!(!is_stale_proposal(&schema, 0, &inside(&first)));
    // the validator's latest transaction moves on to a rival of the proposal
    let message = TxAnchoringUpdateLatest::new(&sender(0), 0, inside(&rival), 2).unwrap();
    assert_eq!(message.execute(&mut schema), Outcome::Applied);
    assert!(is_stale_proposal(&schema, 0, &inside(&first)));
    assert_eq!(schema.signatures(&inside(&first).id()).len(), 3);
    let (state, action) = step(state, &schema, 0, block(101, None));
    assert!(matches!(state, State::CollectingSignatures(_)) && matches!(action, Action::Nothing));
    // another validator, whose latest transaction the proposal still spends, submits
    let (other, _) = step(State::Idle, &schema, 1, block(100, Some(&first)));
    let (other, action) = step(other, &schema, 1, block(101, None));
    assert!(matches!(other, State::AwaitingConfirmation(_)) && matches!(action, Action::Submit(_)));
    // at the next anchoring the stale proposal is given up
    let fresh = proposal_to(&cfg, &inside(&rival), 200);
    let (state, action) = step(state, &schema, 0, block(200, Some(&fresh)));
    match (&state, &action) {
        (State::CollectingSignatures(p), Action::BroadcastSignatures(_)) => {
            assert_eq!(p.payload().block_height, 200);
        }
        _ => panic!("collecting signatures"),
    }
}
