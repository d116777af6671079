//! What the validators record, as a mathematical value, and how messages
//! change it. The records in memory are held to this model; what is proved
//! of the model holds of them.

use crate::btc::{input_signature_valid, TxView};
use crate::config::{redeem_script_of, threshold_in_range, ConfigView, FollowingView};
use crate::messages::{MessageView, SignatureView, UpdateLatestView};
use vstd::arithmetic::div_mod::lemma_fundamental_div_mod_converse;
use vstd::arithmetic::mul::{lemma_mul_inequality, lemma_mul_is_commutative};
use vstd::prelude::*;
use vstd::set_lib::{lemma_int_range, lemma_len_subset, set_int_range};

verus! {

/// The records of the anchoring service.
pub struct SchemaState {
    /// The configurations that the anchored chain has stored, each with the
    /// height from which it is in force, in the order of those heights.
    pub configs: Seq<FollowingView>,
    /// Which of the configurations is in force.
    pub actual: int,
    /// For each id of an anchoring transaction, the signatures accepted
    /// for it, in the order of their arrival.
    pub signatures: Map<Seq<u8>, Seq<SignatureView>>,
    /// For each validator, the transactions that it announced as its
    /// latest confirmed one, in the order of their arrival.
    pub lects: Map<u32, Seq<TxView>>,
    /// For each validator, where in its list each transaction stands, by id.
    pub lect_indexes: Map<u32, Map<Seq<u8>, u64>>,
}

/// Why a message changed nothing.
#[derive(Clone, Copy, Debug, PartialEq, Eq, Structural)]
pub enum Rejection {
    /// The signature is not the validator's signature of the input.
    IncorrectSignature,
    /// A signature of this validator for this input is recorded already.
    DuplicateSignature,
    /// The count in the message is not the length that the validator's list
    /// would have with the transaction.
    LectCountMismatch,
    /// The validator's list holds a transaction with this id already.
    DuplicateLect,
}

/// What became of a message.
#[derive(Clone, Copy, Debug, PartialEq, Eq, Structural)]
pub enum Outcome {
    /// Its content was recorded.
    Applied,
    /// Nothing changed.
    Rejected(Rejection),
}

/// The records before the first message: the first configuration, in
/// force from the start, and no signature and no transaction.
pub open spec fn initial_state(genesis: ConfigView) -> SchemaState {
    SchemaState {
        configs: seq![FollowingView { actual_from: 0, config: genesis }],
        actual: 0,
        signatures: Map::total(|t: Seq<u8>| Seq::<SignatureView>::empty()),
        lects: Map::total(|v: u32| Seq::<TxView>::empty()),
        lect_indexes: Map::total(|v: u32| Map::<Seq<u8>, u64>::empty()),
    }
}

/// The configuration in force.
pub open spec fn current_config(s: SchemaState) -> ConfigView {
    s.configs[s.actual].config
}

/// The configuration that comes into force next, if one is scheduled.
pub open spec fn following_config(s: SchemaState) -> Option<FollowingView> {
    if s.actual + 1 < s.configs.len() {
        Some(s.configs[s.actual + 1])
    } else {
        None
    }
}

/// What becomes of an attempt to append `tx` to the list of `validator`.
pub open spec fn lect_outcome(s: SchemaState, validator: u32, tx: TxView) -> Outcome {
    if s.lect_indexes[validator].contains_key(tx.id) {
        Outcome::Rejected(Rejection::DuplicateLect)
    } else {
        Outcome::Applied
    }
}

/// The records after `tx` was appended to the list of `validator` and its
/// position noted under its id; unchanged where the list holds a
/// transaction with that id already.
pub open spec fn append_lect(s: SchemaState, validator: u32, tx: TxView) -> SchemaState {
    if lect_outcome(s, validator, tx) == Outcome::Applied {
        SchemaState {
            configs: s.configs,
            actual: s.actual,
            signatures: s.signatures,
            lects: s.lects.insert(validator, s.lects[validator].push(tx)),
            lect_indexes: s.lect_indexes.insert(
                validator,
                s.lect_indexes[validator].insert(tx.id, s.lects[validator].len() as u64),
            ),
        }
    } else {
        s
    }
}

/// The records after each of the first `count` validators was given `tx`
/// as in `append_lect`.
pub open spec fn append_lect_to_first(s: SchemaState, tx: TxView, count: nat) -> SchemaState {
    SchemaState {
        configs: s.configs,
        actual: s.actual,
        signatures: s.signatures,
        lects: Map::total(
            |v: u32|
                if v < count {
                    append_lect(s, v, tx).lects[v]
                } else {
                    s.lects[v]
                },
        ),
        lect_indexes: Map::total(
            |v: u32|
                if v < count {
                    append_lect(s, v, tx).lect_indexes[v]
                } else {
                    s.lect_indexes[v]
                },
        ),
    }
}

/// What becomes of an update message.
pub open spec fn update_latest_outcome(s: SchemaState, m: UpdateLatestView) -> Outcome {
    if m.lect_count != s.lects[m.validator].len() + 1 {
        Outcome::Rejected(Rejection::LectCountMismatch)
    } else {
        lect_outcome(s, m.validator, m.tx)
    }
}

/// The records after an update message: the transaction is appended to the
/// sender's list where the message counts as many transactions as the list
/// then holds, and the list holds none with that id.
pub open spec fn apply_update_latest(s: SchemaState, m: UpdateLatestView) -> SchemaState {
    if update_latest_outcome(s, m) == Outcome::Applied {
        append_lect(s, m.validator, m.tx)
    } else {
        s
    }
}

/// Whether the signature in `m` is, under `config`, the signature of the
/// validator that `m` names: the configuration has a validator of that
/// index and a redeem script, and the signature is that validator's
/// signature of the named input over that script.
pub open spec fn signature_verifies(config: ConfigView, m: SignatureView) -> bool {
    &&& m.validator < config.validators.len()
    &&& redeem_script_of(config) is Some
    &&& input_signature_valid(
        m.tx,
        redeem_script_of(config)->Some_0,
        m.input,
        config.validators[m.validator as int],
        m.signature,
    )
}

/// Whether both signatures are of the same validator for the same input.
pub open spec fn same_slot(a: SignatureView, b: SignatureView) -> bool {
    a.validator == b.validator && a.input == b.input
}

/// Whether a signature of the validator and input of `m` is among `records`.
pub open spec fn slot_taken(records: Seq<SignatureView>, m: SignatureView) -> bool {
    exists|i: int| 0 <= i < records.len() && same_slot(#[trigger] records[i], m)
}

/// What becomes of a signature message of which `verified` says whether
/// its signature is the validator's.
pub open spec fn signature_outcome(s: SchemaState, m: SignatureView, verified: bool) -> Outcome {
    if !verified {
        Outcome::Rejected(Rejection::IncorrectSignature)
    } else if slot_taken(s.signatures[m.tx.id], m) {
        Outcome::Rejected(Rejection::DuplicateSignature)
    } else {
        Outcome::Applied
    }
}

/// The records after a signature message of which `verified` says whether
/// its signature is the validator's: the message is appended to the list
/// of its transaction's id where it is verified and the list holds no
/// signature of that validator for that input.
pub open spec fn record_signature(s: SchemaState, m: SignatureView, verified: bool) -> SchemaState {
    if signature_outcome(s, m, verified) == Outcome::Applied {
        SchemaState {
            configs: s.configs,
            actual: s.actual,
            signatures: s.signatures.insert(m.tx.id, s.signatures[m.tx.id].push(m)),
            lects: s.lects,
            lect_indexes: s.lect_indexes,
        }
    } else {
        s
    }
}

/// The records after a signature message.
pub open spec fn apply_signature(s: SchemaState, m: SignatureView) -> SchemaState {
    record_signature(s, m, signature_verifies(current_config(s), m))
}

/// What becomes of a message.
pub open spec fn message_outcome(s: SchemaState, m: MessageView) -> Outcome {
    match m {
        MessageView::Signature(m) => signature_outcome(
            s,
            m,
            signature_verifies(current_config(s), m),
        ),
        MessageView::UpdateLatest(m) => update_latest_outcome(s, m),
    }
}

/// The records after a message.
pub open spec fn apply_message(s: SchemaState, m: MessageView) -> SchemaState {
    match m {
        MessageView::Signature(m) => apply_signature(s, m),
        MessageView::UpdateLatest(m) => apply_update_latest(s, m),
    }
}

/// The records after the messages, applied in order.
pub open spec fn apply_messages(s: SchemaState, messages: Seq<MessageView>) -> SchemaState
    decreases messages.len(),
{
    if messages.len() == 0 {
        s
    } else {
        apply_message(apply_messages(s, messages.drop_last()), messages.last())
    }
}

/// The records after the anchored chain stored `following` as the
/// configuration to come; unchanged unless it comes into force later than
/// every configuration stored before.
pub open spec fn schedule_config(s: SchemaState, following: FollowingView) -> SchemaState {
    if following.actual_from > s.configs.last().actual_from {
        SchemaState {
            configs: s.configs.push(following),
            actual: s.actual,
            signatures: s.signatures,
            lects: s.lects,
            lect_indexes: s.lect_indexes,
        }
    } else {
        s
    }
}

/// Which configuration is in force at `height`, starting from the one at
/// `from`: the last one whose height is reached.
pub open spec fn actual_at(configs: Seq<FollowingView>, from: int, height: u64) -> int
    decreases configs.len() - from,
{
    if 0 <= from && from + 1 < configs.len() && configs[from + 1].actual_from <= height {
        actual_at(configs, from + 1, height)
    } else {
        from
    }
}

/// The records after the anchored chain reached `height`.
pub open spec fn reach_height(s: SchemaState, height: u64) -> SchemaState {
    SchemaState {
        configs: s.configs,
        actual: actual_at(s.configs, s.actual, height),
        signatures: s.signatures,
        lects: s.lects,
        lect_indexes: s.lect_indexes,
    }
}

/// Whether list and index of one validator agree: each transaction of the
/// list stands in the index under its id with its position, and the index
/// holds nothing else.
pub open spec fn lects_indexed(lects: Seq<TxView>, index: Map<Seq<u8>, u64>) -> bool {
    &&& forall|i: int|
        #![trigger lects[i]]
        0 <= i < lects.len() ==> index.contains_key(lects[i].id) && index[lects[i].id] == i
    &&& forall|t: Seq<u8>|
        #![trigger index.contains_key(t)]
        index.contains_key(t) ==> index[t] < lects.len() && lects[index[t] as int].id == t
}

/// Whether `m` was verified under the configuration at `c`, which is or
/// was in force.
pub open spec fn verified_under(s: SchemaState, c: int, m: SignatureView) -> bool {
    0 <= c <= s.actual && signature_verifies(s.configs[c].config, m)
}

/// Whether `m` was verified under a configuration that is or was in force.
pub open spec fn verified_once(s: SchemaState, m: SignatureView) -> bool {
    exists|c: int| verified_under(s, c, m)
}

/// Whether the signatures recorded for the id `t` are in order: each is
/// for a transaction with that id, each was verified under a
/// configuration that is or was in force, and no two are of the same
/// validator for the same input.
pub open spec fn signatures_in_order(s: SchemaState, t: Seq<u8>) -> bool {
    let records = s.signatures[t];
    &&& forall|i: int| #![trigger records[i]] 0 <= i < records.len() ==> records[i].tx.id == t
    &&& forall|i: int| #![trigger records[i]] 0 <= i < records.len() ==> verified_once(s, records[i])
    &&& forall|i: int, j: int|
        #![trigger records[i], records[j]]
        0 <= i < j < records.len() ==> !same_slot(records[i], records[j])
}

/// Whether the configurations are in order: there is one, one of them is
/// in force, each comes into force later than those before it, and each
/// asks for at least one signature and for no more than it has validators.
pub open spec fn configs_in_order(s: SchemaState) -> bool {
    &&& 0 <= s.actual < s.configs.len()
    &&& forall|i: int, j: int|
        #![trigger s.configs[i], s.configs[j]]
        0 <= i < j < s.configs.len() ==> s.configs[i].actual_from < s.configs[j].actual_from
    &&& forall|i: int|
        #![trigger s.configs[i]]
        0 <= i < s.configs.len() ==> threshold_in_range(s.configs[i].config)
}

/// Whether the records are consistent.
pub open spec fn consistent(s: SchemaState) -> bool {
    &&& configs_in_order(s)
    &&& forall|t: Seq<u8>| #[trigger] s.signatures.contains_key(t)
    &&& forall|v: u32| #[trigger] s.lects.contains_key(v)
    &&& forall|v: u32| #[trigger] s.lect_indexes.contains_key(v)
    &&& forall|v: u32| #[trigger] lects_indexed(s.lects[v], s.lect_indexes[v])
    &&& forall|t: Seq<u8>| #[trigger] signatures_in_order(s, t)
}

/// The records before the first message are consistent, where the first
/// configuration has its threshold in range.
pub proof fn lemma_initial_state_consistent(genesis: ConfigView)
    requires
        threshold_in_range(genesis),
    ensures
        consistent(initial_state(genesis)),
{
    let s = initial_state(genesis);
    assert forall|v: u32| #[trigger] lects_indexed(s.lects[v], s.lect_indexes[v]) by {}
    assert forall|t: Seq<u8>| #[trigger] signatures_in_order(s, t) by {}
}

/// Appending to a validator's list keeps the records consistent.
pub proof fn lemma_append_lect_consistent(s: SchemaState, validator: u32, tx: TxView)
    requires
        consistent(s),
        s.lects[validator].len() <= u64::MAX,
    ensures
        consistent(append_lect(s, validator, tx)),
{
    let after = append_lect(s, validator, tx);
    if lect_outcome(s, validator, tx) == Outcome::Applied {
        let lects = s.lects[validator];
        let index = s.lect_indexes[validator];
        assert(lects_indexed(lects, index));
        assert forall|v: u32| #[trigger]
            lects_indexed(after.lects[v], after.lect_indexes[v]) by {
            assert(lects_indexed(s.lects[v], s.lect_indexes[v]));
            if v == validator {
                let new_lects = lects.push(tx);
                let new_index = index.insert(tx.id, lects.len() as u64);
                assert forall|i: int| #![trigger new_lects[i]] 0 <= i < new_lects.len() implies
                    new_index.contains_key(new_lects[i].id) && new_index[new_lects[i].id] == i by {
                    if i < lects.len() {
                        assert(index.contains_key(lects[i].id));
                    }
                }
                assert forall|t: Seq<u8>|
                    #![trigger new_index.contains_key(t)]
                    new_index.contains_key(t) implies new_index[t] < new_lects.len()
                    && new_lects[new_index[t] as int].id == t by {
                    if t != tx.id {
                        assert(index.contains_key(t));
                    }
                }
            }
        }
        assert forall|t: Seq<u8>| #[trigger] signatures_in_order(after, t) by {
            assert(signatures_in_order(s, t));
            let records = s.signatures[t];
            assert forall|i: int| #![trigger records[i]] 0 <= i < records.len() implies verified_once(
                after,
                records[i],
            ) by {
                let c = choose|c: int| verified_under(s, c, records[i]);
                assert(verified_under(after, c, records[i]));
            }
        }
    }
}

/// Giving a transaction to the first validators keeps the records consistent.
pub proof fn lemma_append_lect_to_first_consistent(s: SchemaState, tx: TxView, count: nat)
    requires
        consistent(s),
        forall|v: u32| #[trigger] s.lects[v].len() <= u64::MAX,
    ensures
        consistent(append_lect_to_first(s, tx, count)),
{
    let after = append_lect_to_first(s, tx, count);
    assert forall|v: u32| #[trigger] lects_indexed(after.lects[v], after.lect_indexes[v]) by {
        assert(lects_indexed(s.lects[v], s.lect_indexes[v]));
        assert(s.lects[v].len() <= u64::MAX);
        lemma_append_lect_consistent(s, v, tx);
        let one = append_lect(s, v, tx);
        assert(lects_indexed(one.lects[v], one.lect_indexes[v]));
    }
    assert forall|t: Seq<u8>| #[trigger] signatures_in_order(after, t) by {
        assert(signatures_in_order(s, t));
        let records = s.signatures[t];
        assert forall|i: int| #![trigger records[i]] 0 <= i < records.len() implies verified_once(
            after,
            records[i],
        ) by {
            let c = choose|c: int| verified_under(s, c, records[i]);
            assert(verified_under(after, c, records[i]));
        }
    }
}

/// Recording a signature that was verified under the configuration in
/// force keeps the records consistent.
pub proof fn lemma_record_signature_consistent(s: SchemaState, m: SignatureView, verified: bool)
    requires
        consistent(s),
        verified ==> signature_verifies(current_config(s), m),
    ensures
        consistent(record_signature(s, m, verified)),
{
    let after = record_signature(s, m, verified);
    if signature_outcome(s, m, verified) == Outcome::Applied {
        assert forall|t: Seq<u8>| #[trigger] signatures_in_order(after, t) by {
            assert(signatures_in_order(s, t));
            let old_records = s.signatures[t];
            let records = after.signatures[t];
            assert forall|i: int|
                #![trigger records[i]]
                0 <= i < records.len() implies records[i].tx.id == t && verified_once(
                after,
                records[i],
            ) by {
                if i < old_records.len() {
                    assert(records[i] == old_records[i]);
                    let c = choose|c: int| verified_under(s, c, old_records[i]);
                    assert(verified_under(after, c, records[i]));
                } else {
                    assert(verified_under(after, s.actual, records[i]));
                }
            }
            assert forall|i: int, j: int|
                #![trigger records[i], records[j]]
                0 <= i < j < records.len() implies !same_slot(records[i], records[j]) by {
                if j < old_records.len() {
                    assert(records[i] == old_records[i]);
                    assert(records[j] == old_records[j]);
                } else {
                    assert(records[i] == old_records[i]);
                }
            }
        }
        assert forall|v: u32| #[trigger]
            lects_indexed(after.lects[v], after.lect_indexes[v]) by {
            assert(lects_indexed(s.lects[v], s.lect_indexes[v]));
        }
    }
}

/// A message keeps the records consistent.
pub proof fn lemma_apply_message_consistent(s: SchemaState, m: MessageView)
    requires
        consistent(s),
        forall|v: u32| #[trigger] s.lects[v].len() <= u64::MAX,
    ensures
        consistent(apply_message(s, m)),
{
    match m {
        MessageView::Signature(m) => {
            lemma_record_signature_consistent(s, m, signature_verifies(current_config(s), m));
        },
        MessageView::UpdateLatest(m) => {
            assert(s.lects[m.validator].len() <= u64::MAX);
            lemma_append_lect_consistent(s, m.validator, m.tx);
        },
    }
}

/// Storing a configuration to come keeps the records consistent.
pub proof fn lemma_schedule_config_consistent(s: SchemaState, following: FollowingView)
    requires
        consistent(s),
        threshold_in_range(following.config),
    ensures
        consistent(schedule_config(s, following)),
{
    let after = schedule_config(s, following);
    if following.actual_from > s.configs.last().actual_from {
        assert forall|i: int, j: int|
            #![trigger after.configs[i], after.configs[j]]
            0 <= i < j < after.configs.len() implies after.configs[i].actual_from
            < after.configs[j].actual_from by {
            if j < s.configs.len() {
                assert(s.configs[i].actual_from < s.configs[j].actual_from);
            } else if i < s.configs.len() - 1 {
                assert(s.configs[i].actual_from < s.configs[s.configs.len() - 1].actual_from);
            }
        }
        assert forall|t: Seq<u8>| #[trigger] signatures_in_order(after, t) by {
            assert(signatures_in_order(s, t));
            let records = s.signatures[t];
            assert forall|i: int| #![trigger records[i]] 0 <= i < records.len() implies verified_once(
                after,
                records[i],
            ) by {
                let c = choose|c: int| verified_under(s, c, records[i]);
                assert(after.configs[c] == s.configs[c]);
                assert(verified_under(after, c, records[i]));
            }
        }
        assert forall|v: u32| #[trigger]
            lects_indexed(after.lects[v], after.lect_indexes[v]) by {
            assert(lects_indexed(s.lects[v], s.lect_indexes[v]));
        }
    }
}

/// The configuration in force at a height is one of the configurations,
/// and none before the one that was in force.
pub proof fn lemma_actual_at_bounds(configs: Seq<FollowingView>, from: int, height: u64)
    requires
        0 <= from < configs.len(),
    ensures
        from <= actual_at(configs, from, height) < configs.len(),
    decreases configs.len() - from,
{
    if from + 1 < configs.len() && configs[from + 1].actual_from <= height {
        lemma_actual_at_bounds(configs, from + 1, height);
    }
}

/// Reaching a height keeps the records consistent.
pub proof fn lemma_reach_height_consistent(s: SchemaState, height: u64)
    requires
        consistent(s),
    ensures
        consistent(reach_height(s, height)),
{
    let after = reach_height(s, height);
    lemma_actual_at_bounds(s.configs, s.actual, height);
    assert forall|i: int, j: int|
        #![trigger after.configs[i], after.configs[j]]
        0 <= i < j < after.configs.len() implies after.configs[i].actual_from
        < after.configs[j].actual_from by {
        assert(s.configs[i].actual_from < s.configs[j].actual_from);
    }
    assert forall|t: Seq<u8>| #[trigger] signatures_in_order(after, t) by {
        assert(signatures_in_order(s, t));
        let records = s.signatures[t];
        assert forall|i: int| #![trigger records[i]] 0 <= i < records.len() implies verified_once(
            after,
            records[i],
        ) by {
            let c = choose|c: int| verified_under(s, c, records[i]);
            assert(verified_under(after, c, records[i]));
        }
    }
    assert forall|v: u32| #[trigger] lects_indexed(after.lects[v], after.lect_indexes[v]) by {
        assert(lects_indexed(s.lects[v], s.lect_indexes[v]));
    }
}

/// In consistent records, the configuration in force and the one to come
/// ask for at least one signature and for no more than they have
/// validators, so that each has a redeem script.
pub proof fn lemma_threshold_in_range(s: SchemaState)
    requires
        consistent(s),
    ensures
        threshold_in_range(current_config(s)),
        redeem_script_of(current_config(s)) is Some,
        following_config(s) matches Some(next) ==> threshold_in_range(next.config)
            && redeem_script_of(next.config) is Some,
{
    assert(threshold_in_range(s.configs[s.actual].config));
    if s.actual + 1 < s.configs.len() {
        assert(threshold_in_range(s.configs[s.actual + 1].config));
    }
}

/// In consistent records, the index of a validator gives for the id of
/// each transaction of its list the position of that transaction.
pub proof fn lemma_lect_index_gives_position(s: SchemaState, validator: u32, i: int)
    requires
        consistent(s),
        0 <= i < s.lects[validator].len(),
    ensures
        s.lect_indexes[validator].contains_key(s.lects[validator][i].id),
        s.lect_indexes[validator][s.lects[validator][i].id] == i,
{
    assert(lects_indexed(s.lects[validator], s.lect_indexes[validator]));
}

/// In consistent records, the index of a validator holds no id but those
/// of the transactions of its list: under each id stands the position of
/// a transaction with that id.
pub proof fn lemma_lect_index_holds_list_ids(s: SchemaState, validator: u32, txid: Seq<u8>)
    requires
        consistent(s),
        s.lect_indexes[validator].contains_key(txid),
    ensures
        s.lect_indexes[validator][txid] < s.lects[validator].len(),
        s.lects[validator][s.lect_indexes[validator][txid] as int].id == txid,
{
    assert(lects_indexed(s.lects[validator], s.lect_indexes[validator]));
}

/// In consistent records, no two transactions of a validator's list have
/// the same id.
pub proof fn lemma_lect_ids_distinct(s: SchemaState, validator: u32, i: int, j: int)
    requires
        consistent(s),
        0 <= i < s.lects[validator].len(),
        0 <= j < s.lects[validator].len(),
        s.lects[validator][i].id == s.lects[validator][j].id,
    ensures
        i == j,
{
    lemma_lect_index_gives_position(s, validator, i);
    lemma_lect_index_gives_position(s, validator, j);
}

/// A message takes nothing from a validator's list and changes no
/// transaction in it: the list before is the beginning of the list after.
pub proof fn lemma_lects_only_grow(s: SchemaState, m: MessageView, validator: u32)
    requires
        consistent(s),
    ensures
        s.lects[validator].len() <= apply_message(s, m).lects[validator].len(),
        apply_message(s, m).lects[validator].subrange(0, s.lects[validator].len() as int)
            == s.lects[validator],
{
    let after = apply_message(s, m);
    assert(s.lects.contains_key(validator));
    assert(after.lects[validator].subrange(0, s.lects[validator].len() as int)
        =~= s.lects[validator]);
}

/// A message takes nothing from the signatures recorded for an id and
/// changes none of them: the list before is the beginning of the list after.
pub proof fn lemma_signatures_only_grow(s: SchemaState, m: MessageView, txid: Seq<u8>)
    requires
        consistent(s),
    ensures
        s.signatures[txid].len() <= apply_message(s, m).signatures[txid].len(),
        apply_message(s, m).signatures[txid].subrange(0, s.signatures[txid].len() as int)
            == s.signatures[txid],
{
    let after = apply_message(s, m);
    assert(s.signatures.contains_key(txid));
    assert(after.signatures[txid].subrange(0, s.signatures[txid].len() as int)
        =~= s.signatures[txid]);
}

/// In consistent records, every recorded signature is the named
/// validator's signature of the named input under a configuration that is
/// or was in force; while the first configuration is in force, under
/// that one.
pub proof fn lemma_recorded_signature_verifies(s: SchemaState, t: Seq<u8>, i: int)
    requires
        consistent(s),
        0 <= i < s.signatures[t].len(),
    ensures
        s.signatures[t][i].tx.id == t,
        verified_once(s, s.signatures[t][i]),
        s.actual == 0 ==> signature_verifies(current_config(s), s.signatures[t][i]),
{
    assert(signatures_in_order(s, t));
    let record = s.signatures[t][i];
    let c = choose|c: int| verified_under(s, c, record);
    assert(verified_under(s, c, record));
}

/// No more than `validators * inputs` signatures are distinct in validator
/// and input, where the validators are below `validators` and the inputs
/// below `inputs`.
pub proof fn lemma_distinct_slots_bounded(
    records: Seq<SignatureView>,
    validators: nat,
    inputs: nat,
)
    requires
        forall|i: int|
            #![trigger records[i]]
            0 <= i < records.len() ==> records[i].validator < validators && records[i].input
                < inputs,
        forall|i: int, j: int|
            #![trigger records[i], records[j]]
            0 <= i < j < records.len() ==> !same_slot(records[i], records[j]),
    ensures
        records.len() <= validators * inputs,
{
    let slots = Seq::new(
        records.len(),
        |i: int| records[i].validator as int * inputs as int + records[i].input as int,
    );
    let range = set_int_range(0, validators as int * inputs as int);
    assert forall|i: int, j: int| 0 <= i < slots.len() && 0 <= j < slots.len() && i != j implies
        slots[i] != slots[j] by {
        if slots[i] == slots[j] {
            lemma_fundamental_div_mod_converse(
                slots[i],
                inputs as int,
                records[i].validator as int,
                records[i].input as int,
            );
            lemma_fundamental_div_mod_converse(
                slots[j],
                inputs as int,
                records[j].validator as int,
                records[j].input as int,
            );
            if i < j {
                assert(same_slot(records[i], records[j]));
            } else {
                assert(same_slot(records[j], records[i]));
            }
        }
    }
    slots.unique_seq_to_set();
    assert forall|x: int| slots.to_set().contains(x) implies range.contains(x) by {
        let i = choose|i: int| 0 <= i < slots.len() && slots[i] == x;
        let v = records[i].validator as int;
        let k = records[i].input as int;
        assert(v * inputs + k < validators * inputs) by {
            lemma_mul_inequality(v + 1, validators as int, inputs as int);
            lemma_mul_is_commutative(v + 1, inputs as int);
            assert((v + 1) * inputs == v * inputs + inputs) by (nonlinear_arith);
        }
        assert(0 <= v * inputs) by (nonlinear_arith)
            requires
                0 <= v,
                0 <= inputs,
        ;
    }
    lemma_int_range(0, validators as int * inputs as int);
    lemma_len_subset(slots.to_set(), range);
}

/// In consistent records, the signatures recorded for one id are no more
/// than `validators * inputs`, where no configuration that is or was in
/// force has more than `validators` validators and no transaction signed
/// under that id more than `inputs` inputs. For transactions with one
/// input they are no more than the validators.
pub proof fn lemma_signatures_bounded(s: SchemaState, t: Seq<u8>, validators: nat, inputs: nat)
    requires
        consistent(s),
        forall|c: int|
            #![trigger s.configs[c]]
            0 <= c <= s.actual ==> s.configs[c].config.validators.len() <= validators,
        forall|i: int|
            #![trigger s.signatures[t][i]]
            0 <= i < s.signatures[t].len() ==> s.signatures[t][i].tx.inputs.len() <= inputs,
    ensures
        s.signatures[t].len() <= validators * inputs,
        inputs == 1 ==> s.signatures[t].len() <= validators,
{
    let records = s.signatures[t];
    assert(signatures_in_order(s, t));
    assert forall|i: int| #![trigger records[i]] 0 <= i < records.len() implies records[i].validator
        < validators && records[i].input < inputs by {
        let c = choose|c: int| verified_under(s, c, records[i]);
        assert(verified_under(s, c, records[i]));
        assert(s.configs[c].config.validators.len() <= validators);
        assert(s.signatures[t][i].tx.inputs.len() <= inputs);
    }
    lemma_distinct_slots_bounded(records, validators, inputs);
    if inputs == 1 {
        assert(validators * 1 == validators) by (nonlinear_arith);
    }
}

/// A signature message of the validator and input of a recorded signature
/// changes nothing.
pub proof fn lemma_second_signature_changes_nothing(s: SchemaState, m: SignatureView, i: int)
    requires
        0 <= i < s.signatures[m.tx.id].len(),
        same_slot(s.signatures[m.tx.id][i], m),
    ensures
        apply_signature(s, m) == s,
{
}

/// An update message that was applied changes nothing when it comes again.
pub proof fn lemma_second_update_changes_nothing(s: SchemaState, m: UpdateLatestView)
    requires
        consistent(s),
        update_latest_outcome(s, m) == Outcome::Applied,
    ensures
        apply_update_latest(apply_update_latest(s, m), m) == apply_update_latest(s, m),
{
    let once = apply_update_latest(s, m);
    assert(s.lects.contains_key(m.validator));
    assert(once.lects[m.validator].len() == s.lects[m.validator].len() + 1);
}

/// The records after a sequence of messages depend on nothing but the
/// records before and the messages: two validators whose records hold the
/// same configurations, signatures, lists and indexes, and that apply the
/// same messages in the same order, end with the same records, list by
/// list and signature by signature.
pub proof fn lemma_messages_determine_records(
    a: SchemaState,
    b: SchemaState,
    messages: Seq<MessageView>,
)
    requires
        a.configs =~= b.configs,
        a.actual == b.actual,
        a.signatures =~= b.signatures,
        a.lects =~= b.lects,
        a.lect_indexes =~= b.lect_indexes,
    ensures
        apply_messages(a, messages) == apply_messages(b, messages),
        forall|v: u32|
            #[trigger] apply_messages(a, messages).lects[v] == apply_messages(b, messages).lects[v],
        forall|t: Seq<u8>|
            #[trigger] apply_messages(a, messages).signatures[t] == apply_messages(
                b,
                messages,
            ).signatures[t],
{
    assert(a == b);
}

/// Messages keep the records consistent.
pub proof fn lemma_apply_messages_consistent(s: SchemaState, messages: Seq<MessageView>)
    requires
        consistent(s),
        forall|v: u32| #[trigger] s.lects[v].len() + messages.len() <= u64::MAX + 1,
    ensures
        consistent(apply_messages(s, messages)),
        forall|v: u32| #[trigger]
            apply_messages(s, messages).lects[v].len() <= s.lects[v].len() + messages.len(),
    decreases messages.len(),
{
    if messages.len() > 0 {
        let before = apply_messages(s, messages.drop_last());
        assert forall|v: u32| #[trigger] s.lects[v].len() + messages.drop_last().len()
            <= u64::MAX + 1 by {
            assert(s.lects[v].len() + messages.len() <= u64::MAX + 1);
        }
        lemma_apply_messages_consistent(s, messages.drop_last());
        assert forall|v: u32| #[trigger] before.lects[v].len() <= u64::MAX by {
            assert(before.lects[v].len() <= s.lects[v].len() + messages.drop_last().len());
            assert(s.lects[v].len() + messages.len() <= u64::MAX + 1);
        }
        lemma_apply_message_consistent(before, messages.last());
        let after = apply_messages(s, messages);
        assert forall|v: u32| #[trigger] after.lects[v].len() <= s.lects[v].len()
            + messages.len() by {
            assert(before.lects[v].len() <= s.lects[v].len() + messages.drop_last().len());
            assert(before.lects.contains_key(v));
        }
    }
}

} // verus!
