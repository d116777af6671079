//! The rules by which a validator decides, event by event, what to do next:
//! when to propose an anchoring transaction, when to submit it, when to
//! announce it as confirmed, and when to hand over to the validators to come.
//!
//! The validator's program observes the anchored chain and the Bitcoin
//! node and hands each observation to `step`; `step` answers with the
//! state to go on in and the action to perform.

use crate::btc::{inputs_view, pay_to_script_hash, BitcoinTx, TxId, TxView};
use crate::bytes::bytes_equal;
use crate::config::{address_of, FollowingConfig, FollowingView};
use crate::messages::SignatureView;
use crate::schema::AnchoringSchema;
use crate::state::{current_config, following_config, SchemaState};
use crate::transactions::{
    anchoring_shaped, has_anchoring_shape, pays_to, pays_to_script, single_payload, AnchoringTx,
    PayloadView,
};
use vstd::prelude::*;

verus! {

/// Whether an anchoring is due at `height`: the height is a multiple of the
/// interval.
pub open spec fn is_anchoring_height(height: u64, interval: u64) -> bool {
    interval > 0 && height % interval == 0
}

/// Whether an anchoring is due at `height`.
pub fn anchoring_due(height: u64, interval: u64) -> (due: bool)
    ensures
        due == is_anchoring_height(height, interval),
{
    interval > 0 && height % interval == 0
}

/// The index of the validator that proposes at `height`, of `validators`
/// validators: the number of the interval, counted around the validators.
pub open spec fn proposer_at(height: u64, interval: u64, validators: nat) -> Option<nat> {
    if interval > 0 && validators > 0 {
        Some(((height / interval) as nat) % validators)
    } else {
        None
    }
}

/// The index of the validator that proposes at `height`; `None` where the
/// interval is zero or there is no validator.
pub fn proposer(height: u64, interval: u64, validators: usize) -> (index: Option<usize>)
    ensures
        match index {
            Some(i) => proposer_at(height, interval, validators as nat) == Some(i as nat),
            None => proposer_at(height, interval, validators as nat).is_none(),
        },
{
    if interval == 0 || validators == 0 {
        return None;
    }
    let round: u64 = height / interval;
    let index: u64 = round % (validators as u64);
    Some(index as usize)
}

/// Whether one of the inputs of `tx` spends an output of the transaction
/// with the id `txid`.
pub open spec fn spends(tx: TxView, txid: Seq<u8>) -> bool {
    exists|i: int| 0 <= i < tx.inputs.len() && #[trigger] tx.inputs[i].prev_txid == txid
}

/// Whether one of the inputs of `tx` spends an output of the transaction
/// with the id `txid`.
pub fn spends_output_of(tx: &BitcoinTx, txid: &TxId) -> (found: bool)
    ensures
        found == spends(tx@, txid@),
{
    let inputs = tx.inputs();
    let mut i: usize = 0;
    while i < inputs.len()
        invariant
            i <= inputs@.len(),
            inputs_view(inputs@) == tx@.inputs,
            forall|k: int| 0 <= k < i ==> #[trigger] tx@.inputs[k].prev_txid != txid@,
        decreases inputs@.len() - i,
    {
        assert(tx@.inputs[i as int].prev_txid == inputs@[i as int].prev_txid@);
        if inputs[i].prev_txid.same_as(txid) {
            return true;
        }
        i = i + 1;
    }
    false
}

/// Whether `proposal` is the proposal for the block of the given height
/// and hash on top of `lect`: it spends an output of `lect` and commits to
/// that block.
pub open spec fn is_proposal_for(
    proposal: TxView,
    height: u64,
    block_hash: Seq<u8>,
    lect: TxView,
) -> bool {
    &&& spends(proposal, lect.id)
    &&& single_payload(proposal.outputs) == Some(
        PayloadView { block_height: height, block_hash },
    )
}

/// Whether a proposal is stale for `validator`: it does not spend an
/// output of the latest transaction of the validator's list. Signatures
/// for a stale proposal are discarded.
pub open spec fn proposal_is_stale(records: SchemaState, validator: u32, proposal: TxView) -> bool {
    records.lects[validator].len() == 0 || !spends(proposal, records.lects[validator].last().id)
}

/// The signatures that `validator` counts for `proposal`: those recorded
/// for its id, and none where the proposal is stale.
pub open spec fn usable_signatures(records: SchemaState, validator: u32, proposal: TxView) -> Seq<
    SignatureView,
> {
    if proposal_is_stale(records, validator, proposal) {
        Seq::empty()
    } else {
        records.signatures[proposal.id]
    }
}

/// Whether `proposal` is stale for `validator`.
pub fn is_stale_proposal(schema: &AnchoringSchema, validator: u32, proposal: &BitcoinTx) -> (stale:
    bool)
    ensures
        stale == proposal_is_stale(schema@, validator, proposal@),
{
    match schema.lect(validator) {
        Some(lect) => !spends_output_of(proposal, &lect.id()),
        None => true,
    }
}

/// How the Bitcoin node answered the submission of a transaction.
#[derive(Clone, Copy, Debug, PartialEq, Eq, Structural)]
pub enum Submission {
    /// The node took the transaction.
    Accepted,
    /// The node holds the transaction among the unconfirmed ones already.
    AlreadyInMempool,
    /// The transaction is in the Bitcoin chain already.
    AlreadyInChain,
    /// An output that the transaction spends is missing or spent.
    InputsMissing,
    /// The node could not be asked or answered otherwise.
    Fault,
}

/// Whether the answer means that the node has the transaction.
pub open spec fn submission_succeeded(answer: Submission) -> bool {
    answer == Submission::Accepted || answer == Submission::AlreadyInMempool || answer
        == Submission::AlreadyInChain
}

/// Where a validator stands.
#[derive(Debug, PartialEq, Eq)]
pub enum State {
    /// No proposal is outstanding.
    Idle,
    /// Signatures for the proposal are awaited.
    CollectingSignatures(AnchoringTx),
    /// The transaction was submitted and its confirmation is awaited.
    AwaitingConfirmation(AnchoringTx),
    /// The funds are to be handed over to the validators of the
    /// configuration to come.
    Transferring(FollowingConfig),
}

/// `State` as a mathematical value.
pub enum StateView {
    Idle,
    CollectingSignatures(TxView),
    AwaitingConfirmation(TxView),
    Transferring(FollowingView),
}

impl View for State {
    type V = StateView;

    open spec fn view(&self) -> StateView {
        match self {
            State::Idle => StateView::Idle,
            State::CollectingSignatures(tx) => StateView::CollectingSignatures(tx@),
            State::AwaitingConfirmation(tx) => StateView::AwaitingConfirmation(tx@),
            State::Transferring(next) => StateView::Transferring(next@),
        }
    }
}

/// What a validator observed.
#[derive(Debug, PartialEq, Eq)]
pub enum Event {
    /// The anchored chain committed the block of the given height and
    /// hash; `proposal` is the anchoring transaction that the validator
    /// built for that block, if it built one.
    BlockCommitted { height: u64, block_hash: Vec<u8>, proposal: Option<AnchoringTx> },
    /// The Bitcoin node answered the submission of the awaited transaction.
    Submitted(Submission),
    /// The Bitcoin node shows the transaction as confirmed.
    Confirmed(BitcoinTx),
}

/// `Event` as a mathematical value.
pub enum EventView {
    BlockCommitted { height: u64, block_hash: Seq<u8>, proposal: Option<TxView> },
    Submitted(Submission),
    Confirmed(TxView),
}

impl View for Event {
    type V = EventView;

    open spec fn view(&self) -> EventView {
        match self {
            Event::BlockCommitted { height, block_hash, proposal } => EventView::BlockCommitted {
                height: *height,
                block_hash: block_hash@,
                proposal: match proposal {
                    Some(tx) => Some(tx@),
                    None => None,
                },
            },
            Event::Submitted(answer) => EventView::Submitted(*answer),
            Event::Confirmed(tx) => EventView::Confirmed(tx@),
        }
    }
}

/// What a validator is to do.
#[derive(Debug, PartialEq, Eq)]
pub enum Action {
    /// Nothing.
    Nothing,
    /// Sign each input of the proposal that the validator can sign, and
    /// send the signatures to the other validators.
    BroadcastSignatures(AnchoringTx),
    /// Put the recorded signatures into the transaction and submit it to
    /// the Bitcoin node.
    Submit(AnchoringTx),
    /// Announce the transaction as the latest confirmed one, as number
    /// `lect_count` of the validator's list.
    UpdateLatest { tx: BitcoinTx, lect_count: u64 },
    /// Have the Bitcoin node watch the common address of the validators to
    /// come, and build the transaction that moves the funds there.
    PrepareTransfer(FollowingConfig),
}

/// `Action` as a mathematical value.
pub enum ActionView {
    Nothing,
    BroadcastSignatures(TxView),
    Submit(TxView),
    UpdateLatest { tx: TxView, lect_count: u64 },
    PrepareTransfer(FollowingView),
}

impl View for Action {
    type V = ActionView;

    open spec fn view(&self) -> ActionView {
        match self {
            Action::Nothing => ActionView::Nothing,
            Action::BroadcastSignatures(tx) => ActionView::BroadcastSignatures(tx@),
            Action::Submit(tx) => ActionView::Submit(tx@),
            Action::UpdateLatest { tx, lect_count } => ActionView::UpdateLatest {
                tx: tx@,
                lect_count: *lect_count,
            },
            Action::PrepareTransfer(next) => ActionView::PrepareTransfer(next@),
        }
    }
}

/// Whether `tx` pays to the common address of the validators of `next`.
pub open spec fn pays_to_following(tx: TxView, next: FollowingView) -> bool {
    address_of(next.config) is Some && pays_to(
        tx,
        pay_to_script_hash(address_of(next.config)->Some_0.script_hash),
    )
}

/// Whether a hand-over is to begin: a configuration is scheduled, the
/// validator is not handing over already, and the latest transaction of
/// its list does not pay to the validators to come yet.
pub open spec fn transfer_begins(state: StateView, records: SchemaState, validator: u32) -> bool {
    &&& following_config(records) is Some
    &&& !(state is Transferring)
    &&& !(records.lects[validator].len() > 0 && pays_to_following(
        records.lects[validator].last(),
        following_config(records)->Some_0,
    ))
}

/// Whether the validator may take `proposal` up for the block of the given
/// height and hash: an anchoring is due, the validator's list is not
/// empty, and the proposal is the one for that block on top of the latest
/// transaction of the list.
pub open spec fn proposal_taken_up(
    records: SchemaState,
    validator: u32,
    height: u64,
    block_hash: Seq<u8>,
    proposal: Option<TxView>,
) -> bool {
    &&& is_anchoring_height(height, current_config(records).interval)
    &&& proposal is Some
    &&& records.lects[validator].len() > 0
    &&& is_proposal_for(proposal->Some_0, height, block_hash, records.lects[validator].last())
}

/// Whether the signatures that `validator` counts for `tx` reach the
/// threshold of the configuration in force.
pub open spec fn enough_signatures(records: SchemaState, validator: u32, tx: TxView) -> bool {
    usable_signatures(records, validator, tx).len() >= current_config(records).threshold
}

/// The number under which the validator announces its next transaction:
/// the length that its list then has, as far as 64 bits can tell it.
pub open spec fn next_lect_count(records: SchemaState, validator: u32) -> u64 {
    if records.lects[validator].len() < u64::MAX {
        (records.lects[validator].len() + 1) as u64
    } else {
        u64::MAX
    }
}

/// What a committed block leads to.
pub open spec fn after_block(
    state: StateView,
    records: SchemaState,
    validator: u32,
    height: u64,
    block_hash: Seq<u8>,
    proposal: Option<TxView>,
) -> (StateView, ActionView) {
    if transfer_begins(state, records, validator) {
        let next = following_config(records)->Some_0;
        (StateView::Transferring(next), ActionView::PrepareTransfer(next))
    } else {
        match state {
            StateView::Idle => if proposal_taken_up(
                records,
                validator,
                height,
                block_hash,
                proposal,
            ) {
                (
                    StateView::CollectingSignatures(proposal->Some_0),
                    ActionView::BroadcastSignatures(proposal->Some_0),
                )
            } else {
                (state, ActionView::Nothing)
            },
            StateView::CollectingSignatures(tx) => if enough_signatures(records, validator, tx) {
                (StateView::AwaitingConfirmation(tx), ActionView::Submit(tx))
            } else if is_anchoring_height(height, current_config(records).interval) {
                if proposal_taken_up(records, validator, height, block_hash, proposal) {
                    (
                        StateView::CollectingSignatures(proposal->Some_0),
                        ActionView::BroadcastSignatures(proposal->Some_0),
                    )
                } else {
                    (StateView::Idle, ActionView::Nothing)
                }
            } else {
                (state, ActionView::Nothing)
            },
            StateView::AwaitingConfirmation(_) => (state, ActionView::Nothing),
            StateView::Transferring(next) => if proposal is Some && pays_to_following(
                proposal->Some_0,
                next,
            ) {
                if enough_signatures(records, validator, proposal->Some_0) {
                    (state, ActionView::Submit(proposal->Some_0))
                } else {
                    (state, ActionView::BroadcastSignatures(proposal->Some_0))
                }
            } else {
                (state, ActionView::Nothing)
            },
        }
    }
}

/// What the node's answer to a submission leads to.
pub open spec fn after_submission(state: StateView, answer: Submission) -> (StateView, ActionView) {
    match state {
        StateView::AwaitingConfirmation(_) => if answer == Submission::InputsMissing {
            (StateView::Idle, ActionView::Nothing)
        } else {
            (state, ActionView::Nothing)
        },
        _ => (state, ActionView::Nothing),
    }
}

/// What a confirmed transaction leads to.
pub open spec fn after_confirmation(
    state: StateView,
    records: SchemaState,
    validator: u32,
    tx: TxView,
) -> (StateView, ActionView) {
    let announce = ActionView::UpdateLatest { tx, lect_count: next_lect_count(records, validator) };
    match state {
        StateView::AwaitingConfirmation(awaited) => if awaited.id == tx.id {
            (StateView::Idle, announce)
        } else {
            (state, ActionView::Nothing)
        },
        StateView::Transferring(next) => if has_anchoring_shape(tx) && pays_to_following(tx, next) {
            (StateView::Idle, announce)
        } else {
            (state, ActionView::Nothing)
        },
        _ => (state, ActionView::Nothing),
    }
}

/// The state that validator `validator` goes on in and the action that it
/// performs, when it observes `event` in `state` with the records `records`.
///
/// A block begins a hand-over where a configuration is scheduled. Else,
/// a validator without outstanding proposal takes the proposal up where
/// an anchoring is due; one that collects signatures submits the proposal
/// where the signatures reach the threshold, signatures for a stale
/// proposal not counted, and gives it up for the new proposal where the
/// next anchoring is due first; one that hands over
/// sends its signatures for the transaction that moves the funds, and
/// submits it where the signatures reach the threshold.
///
/// An answer that inputs are missing makes a validator that awaits
/// confirmation give the transaction up; every other answer leaves it
/// waiting.
///
/// The confirmation of the awaited transaction, or of a transaction that
/// moves the funds to the validators to come, ends the round: the
/// validator announces the transaction as its latest.
pub open spec fn next(state: StateView, records: SchemaState, validator: u32, event: EventView) -> (
    StateView,
    ActionView,
) {
    match event {
        EventView::BlockCommitted { height, block_hash, proposal } => after_block(
            state,
            records,
            validator,
            height,
            block_hash,
            proposal,
        ),
        EventView::Submitted(answer) => after_submission(state, answer),
        EventView::Confirmed(tx) => after_confirmation(state, records, validator, tx),
    }
}

/// Whether `tx` pays to the common address of the validators of `next`.
fn pays_to_validators_of(tx: &BitcoinTx, next: &FollowingConfig) -> (pays: bool)
    ensures
        pays == pays_to_following(tx@, next@),
{
    match next.config.redeem_script() {
        Some((_, address)) => {
            let script = address.script_pubkey();
            pays_to_script(tx, script.as_slice())
        },
        None => false,
    }
}

fn transfer_to_begin(state: &State, schema: &AnchoringSchema, validator: u32) -> (next: Option<
    FollowingConfig,
>)
    requires
        schema.wf(),
    ensures
        match next {
            Some(n) => transfer_begins(state@, schema@, validator) && following_config(schema@)
                == Some(n@),
            None => !transfer_begins(state@, schema@, validator),
        },
{
    let following = match schema.following_anchoring_config() {
        Some(following) => following,
        None => {
            return None;
        },
    };
    if let State::Transferring(_) = state {
        return None;
    }
    match schema.lect(validator) {
        Some(lect) => if pays_to_validators_of(&lect, &following) {
            None
        } else {
            Some(following)
        },
        None => Some(following),
    }
}

fn take_up(
    schema: &AnchoringSchema,
    validator: u32,
    height: u64,
    block_hash: &[u8],
    proposal: &Option<AnchoringTx>,
) -> (taken: bool)
    requires
        schema.wf(),
    ensures
        taken == proposal_taken_up(
            schema@,
            validator,
            height,
            block_hash@,
            match proposal {
                Some(tx) => Some(tx@),
                None => None,
            },
        ),
{
    if !anchoring_due(height, schema.current_anchoring_config().interval) {
        return false;
    }
    let proposal = match proposal {
        Some(proposal) => proposal,
        None => {
            return false;
        },
    };
    let lect = match schema.lect(validator) {
        Some(lect) => lect,
        None => {
            return false;
        },
    };
    if !spends_output_of(proposal.as_tx(), &lect.id()) {
        return false;
    }
    let payload = proposal.payload();
    payload.block_height == height && bytes_equal(payload.block_hash.as_slice(), block_hash)
}

fn signatures_suffice(schema: &AnchoringSchema, validator: u32, tx: &AnchoringTx) -> (enough: bool)
    requires
        schema.wf(),
    ensures
        enough == enough_signatures(schema@, validator, tx@),
{
    let count: usize = if is_stale_proposal(schema, validator, tx.as_tx()) {
        0
    } else {
        schema.signatures(&tx.id()).len()
    };
    count >= schema.current_anchoring_config().threshold as usize
}

fn lect_count_to_announce(schema: &AnchoringSchema, validator: u32) -> (lect_count: u64)
    ensures
        lect_count == next_lect_count(schema@, validator),
{
    let count: u64 = schema.lects(validator).len() as u64;
    if count < u64::MAX {
        count + 1
    } else {
        u64::MAX
    }
}

/// Decides what validator `validator` does when it observes `event` in
/// `state` with the records `schema`.
pub fn step(state: State, schema: &AnchoringSchema, validator: u32, event: Event) -> (decision: (
    State,
    Action,
))
    requires
        schema.wf(),
    ensures
        (decision.0@, decision.1@) == next(state@, schema@, validator, event@),
{
    match event {
        Event::BlockCommitted { height, block_hash, proposal } => {
            match transfer_to_begin(&state, schema, validator) {
                Some(next) => {
                    return (State::Transferring(next.clone()), Action::PrepareTransfer(next));
                },
                None => {},
            }
            match state {
                State::Idle => {
                    if take_up(schema, validator, height, block_hash.as_slice(), &proposal) {
                        let proposal = proposal.unwrap();
                        (
                            State::CollectingSignatures(proposal.clone()),
                            Action::BroadcastSignatures(proposal),
                        )
                    } else {
                        (State::Idle, Action::Nothing)
                    }
                },
                State::CollectingSignatures(tx) => {
                    if signatures_suffice(schema, validator, &tx) {
                        (State::AwaitingConfirmation(tx.clone()), Action::Submit(tx))
                    } else if anchoring_due(height, schema.current_anchoring_config().interval) {
                        if take_up(schema, validator, height, block_hash.as_slice(), &proposal) {
                            let proposal = proposal.unwrap();
                            (
                                State::CollectingSignatures(proposal.clone()),
                                Action::BroadcastSignatures(proposal),
                            )
                        } else {
                            (State::Idle, Action::Nothing)
                        }
                    } else {
                        (State::CollectingSignatures(tx), Action::Nothing)
                    }
                },
                State::AwaitingConfirmation(tx) => (
                    State::AwaitingConfirmation(tx),
                    Action::Nothing,
                ),
                State::Transferring(next) => {
                    match proposal {
                        Some(proposal) => {
                            if pays_to_validators_of(proposal.as_tx(), &next) {
                                if signatures_suffice(schema, validator, &proposal) {
                                    (State::Transferring(next), Action::Submit(proposal))
                                } else {
                                    (
                                        State::Transferring(next),
                                        Action::BroadcastSignatures(proposal),
                                    )
                                }
                            } else {
                                (State::Transferring(next), Action::Nothing)
                            }
                        },
                        None => (State::Transferring(next), Action::Nothing),
                    }
                },
            }
        },
        Event::Submitted(answer) => {
            match state {
                State::AwaitingConfirmation(tx) => {
                    if answer == Submission::InputsMissing {
                        (State::Idle, Action::Nothing)
                    } else {
                        (State::AwaitingConfirmation(tx), Action::Nothing)
                    }
                },
                other => (other, Action::Nothing),
            }
        },
        Event::Confirmed(tx) => {
            let lect_count: u64 = lect_count_to_announce(schema, validator);
            match state {
                State::AwaitingConfirmation(awaited) => {
                    if awaited.id().same_as(&tx.id()) {
                        (State::Idle, Action::UpdateLatest { tx, lect_count })
                    } else {
                        (State::AwaitingConfirmation(awaited), Action::Nothing)
                    }
                },
                State::Transferring(next) => {
                    if anchoring_shaped(&tx) && pays_to_validators_of(&tx, &next) {
                        (State::Idle, Action::UpdateLatest { tx, lect_count })
                    } else {
                        (State::Transferring(next), Action::Nothing)
                    }
                },
                other => (other, Action::Nothing),
            }
        },
    }
}

/// The answers that mean that the node has the transaction leave a
/// validator that awaits confirmation waiting; the answer that inputs are
/// missing makes it idle.
pub proof fn lemma_submission_keeps_waiting_unless_inputs_missing(tx: TxView, answer: Submission)
    ensures
        submission_succeeded(answer) ==> after_submission(
            StateView::AwaitingConfirmation(tx),
            answer,
        ).0 == StateView::AwaitingConfirmation(tx),
        answer == Submission::InputsMissing ==> after_submission(
            StateView::AwaitingConfirmation(tx),
            answer,
        ).0 == StateView::Idle,
{
}

/// No observation makes a validator announce or submit anything but in
/// the three ways described: what is submitted has enough signatures, and
/// what is announced is the awaited transaction or one that hands over.
pub proof fn lemma_actions_are_justified(
    state: StateView,
    records: SchemaState,
    validator: u32,
    event: EventView,
)
    ensures
        next(state, records, validator, event).1 matches ActionView::Submit(tx) ==> enough_signatures(
            records,
            validator,
            tx,
        ),
        next(state, records, validator, event).1 matches ActionView::UpdateLatest {
            tx,
            lect_count,
        } ==> lect_count == next_lect_count(records, validator) && event == EventView::Confirmed(tx)
            && (state matches StateView::AwaitingConfirmation(awaited) ==> awaited.id == tx.id),
{
}

} // verus!
