//! The records of the anchoring service, held in memory: the signatures by
//! transaction id, the validators' lists of latest transactions with their
//! indexes, and the configurations of the anchored chain.

use crate::btc::{BitcoinTx, TxId, TxView};
use crate::bytes::{append_bytes, be_u32_bytes, lemma_be_u32_value_of_bytes, write_u32_be};
use crate::config::{threshold_in_range, AnchoringConfig, FollowingConfig, FollowingView};
use crate::messages::{
    AnchoringTransaction, MessageView, SignatureView, TxAnchoringSignature,
    TxAnchoringUpdateLatest, ANCHORING_SERVICE,
};
use crate::state::{
    actual_at, append_lect, append_lect_to_first, apply_message, apply_messages, apply_signature,
    apply_update_latest, consistent, current_config, following_config, initial_state,
    lect_outcome, lemma_append_lect_consistent, lemma_initial_state_consistent,
    lemma_reach_height_consistent, lemma_record_signature_consistent,
    lemma_schedule_config_consistent, lemma_threshold_in_range, message_outcome, reach_height,
    record_signature, same_slot,
    schedule_config, signature_outcome, signature_verifies, Outcome, Rejection, SchemaState,
};
use crate::transactions::txs_view;
use vstd::prelude::*;

verus! {

/// The number of the table of signatures, by transaction id.
pub const SIGNATURES_TABLE: u8 = 2;

/// The number of the table of latest transactions, by validator.
pub const LECTS_TABLE: u8 = 3;

/// The number of the table of positions of latest transactions, by validator.
pub const LECT_INDEXES_TABLE: u8 = 4;

/// The bytes before every key of the signatures recorded for `txid`: the
/// number of the service, the number of the table and the id.
pub open spec fn signatures_key_prefix(txid: Seq<u8>) -> Seq<u8> {
    seq![ANCHORING_SERVICE as u8, SIGNATURES_TABLE] + txid
}

/// The bytes before every key of table `table` of `validator`: the number
/// of the service, the number of the table, and eight bytes of which the
/// first four are the validator's index, most significant byte first, and
/// the others are zero.
pub open spec fn validator_key_prefix(table: u8, validator: u32) -> Seq<u8> {
    seq![ANCHORING_SERVICE as u8, table] + be_u32_bytes(validator) + seq![0u8, 0u8, 0u8, 0u8]
}

/// The keys of the signatures of two ids of one length are apart: no key
/// under the prefix of one id is a key under the prefix of another.
pub proof fn lemma_signatures_key_prefix_apart(
    txid_a: Seq<u8>,
    rest_a: Seq<u8>,
    txid_b: Seq<u8>,
    rest_b: Seq<u8>,
)
    requires
        txid_a.len() == txid_b.len(),
        signatures_key_prefix(txid_a) + rest_a == signatures_key_prefix(txid_b) + rest_b,
    ensures
        txid_a == txid_b,
        rest_a == rest_b,
{
    let key_a = signatures_key_prefix(txid_a) + rest_a;
    let key_b = signatures_key_prefix(txid_b) + rest_b;
    let n = txid_a.len() as int;
    assert(key_a.subrange(2, 2 + n) =~= txid_a);
    assert(key_b.subrange(2, 2 + n) =~= txid_b);
    assert(key_a.subrange(2 + n, key_a.len() as int) =~= rest_a);
    assert(key_b.subrange(2 + n, key_b.len() as int) =~= rest_b);
}

/// Different tables and different validators have different prefixes.
pub proof fn lemma_validator_key_prefix_injective(
    table_a: u8,
    validator_a: u32,
    table_b: u8,
    validator_b: u32,
)
    requires
        validator_key_prefix(table_a, validator_a) == validator_key_prefix(table_b, validator_b),
    ensures
        table_a == table_b,
        validator_a == validator_b,
{
    let a = validator_key_prefix(table_a, validator_a);
    let b = validator_key_prefix(table_b, validator_b);
    assert(a[1] == table_a);
    assert(b[1] == table_b);
    assert(a.subrange(2, 6) =~= be_u32_bytes(validator_a));
    assert(b.subrange(2, 6) =~= be_u32_bytes(validator_b));
    lemma_be_u32_value_of_bytes(validator_a);
    lemma_be_u32_value_of_bytes(validator_b);
}

/// The prefix of table `table` of `validator`.
fn validator_prefix(table: u8, validator: u32) -> (prefix: Vec<u8>)
    ensures
        prefix@ == validator_key_prefix(table, validator),
{
    let mut prefix: Vec<u8> = vec![ANCHORING_SERVICE as u8, table, 0, 0, 0, 0, 0, 0, 0, 0];
    write_u32_be(&mut prefix, 2, validator);
    assert(prefix@ =~= validator_key_prefix(table, validator));
    prefix
}

/// One entry of an index: an id and the position of its transaction.
#[derive(Debug)]
struct LectIndexEntry {
    txid: TxId,
    position: u64,
}

/// What the entries say, later ones first.
spec fn entries_map(entries: Seq<LectIndexEntry>) -> Map<Seq<u8>, u64>
    decreases entries.len(),
{
    if entries.len() == 0 {
        Map::empty()
    } else {
        entries_map(entries.drop_last()).insert(entries.last().txid@, entries.last().position)
    }
}

/// The index of one validator's list: for the id of each transaction of the
/// list, its position.
#[derive(Debug)]
pub struct LectIndex {
    entries: Vec<LectIndexEntry>,
}

impl View for LectIndex {
    type V = Map<Seq<u8>, u64>;

    closed spec fn view(&self) -> Map<Seq<u8>, u64> {
        entries_map(self.entries@)
    }
}

impl LectIndex {
    /// The index without entries.
    fn new() -> (index: LectIndex)
        ensures
            index@ == Map::<Seq<u8>, u64>::empty(),
    {
        LectIndex { entries: Vec::new() }
    }

    /// The position noted for `txid`, if one is noted.
    pub fn get(&self, txid: &TxId) -> (position: Option<u64>)
        ensures
            position == (if self@.contains_key(txid@) {
                Some(self@[txid@])
            } else {
                None
            }),
    {
        let ghost all = self.entries@;
        let mut i: usize = self.entries.len();
        assert(all.take(i as int) =~= all);
        while i > 0
            invariant
                i <= all.len(),
                all == self.entries@,
                entries_map(all).contains_key(txid@) == entries_map(all.take(i as int)).contains_key(
                    txid@,
                ),
                entries_map(all)[txid@] == entries_map(all.take(i as int))[txid@],
            decreases i,
        {
            i = i - 1;
            proof {
                let upto = all.take(i + 1);
                assert(upto.drop_last() =~= all.take(i as int));
                assert(upto.last() == all[i as int]);
            }
            if self.entries[i].txid.same_as(txid) {
                return Some(self.entries[i].position);
            }
        }
        None
    }

    /// Notes `position` for `txid`.
    fn put(&mut self, txid: TxId, position: u64)
        ensures
            final(self)@ == old(self)@.insert(txid@, position),
    {
        self.entries.push(LectIndexEntry { txid, position });
        assert(self.entries@.drop_last() =~= old(self).entries@);
    }
}

impl Clone for LectIndex {
    fn clone(&self) -> (copy: LectIndex)
        ensures
            copy@ == self@,
    {
        let mut copy = LectIndex::new();
        let mut i: usize = 0;
        assert(self.entries@.take(0) =~= Seq::<LectIndexEntry>::empty());
        while i < self.entries.len()
            invariant
                i <= self.entries@.len(),
                copy@ == entries_map(self.entries@.take(i as int)),
            decreases self.entries@.len() - i,
        {
            proof {
                let upto = self.entries@.take(i + 1);
                assert(upto.drop_last() =~= self.entries@.take(i as int));
                assert(upto.last() == self.entries@[i as int]);
            }
            copy.put(self.entries[i].txid.clone(), self.entries[i].position);
            i = i + 1;
        }
        assert(self.entries@.take(self.entries@.len() as int) =~= self.entries@);
        copy
    }
}

/// The list of one validator with its index.
#[derive(Debug)]
struct LectTable {
    validator: u32,
    lects: Vec<BitcoinTx>,
    index: LectIndex,
}

/// The signatures recorded for one transaction id.
#[derive(Debug)]
struct SignatureTable {
    txid: TxId,
    records: Vec<TxAnchoringSignature>,
}

/// The views of the messages, in order.
pub open spec fn signatures_view(records: Seq<TxAnchoringSignature>) -> Seq<SignatureView> {
    Seq::new(records.len(), |i: int| records[i]@)
}

/// The views of the messages, in order.
pub open spec fn messages_view(messages: Seq<AnchoringTransaction>) -> Seq<MessageView> {
    Seq::new(messages.len(), |i: int| messages[i]@)
}

/// The views of the configurations, in order.
pub open spec fn followings_view(configs: Seq<FollowingConfig>) -> Seq<FollowingView> {
    Seq::new(configs.len(), |i: int| configs[i]@)
}

/// Where the table of `validator` stands, if there is one.
spec fn lect_table_at(tables: Seq<LectTable>, validator: u32) -> Option<int>
    decreases tables.len(),
{
    if tables.len() == 0 {
        None
    } else if tables.last().validator == validator {
        Some(tables.len() - 1)
    } else {
        lect_table_at(tables.drop_last(), validator)
    }
}

proof fn lemma_lect_table_at(tables: Seq<LectTable>, validator: u32)
    ensures
        match lect_table_at(tables, validator) {
            Some(j) => 0 <= j < tables.len() && tables[j].validator == validator,
            None => true,
        },
    decreases tables.len(),
{
    if tables.len() > 0 && tables.last().validator != validator {
        lemma_lect_table_at(tables.drop_last(), validator);
    }
}

proof fn lemma_lect_table_at_update(
    tables: Seq<LectTable>,
    j: int,
    table: LectTable,
    validator: u32,
)
    requires
        0 <= j < tables.len(),
        table.validator == tables[j].validator,
    ensures
        lect_table_at(tables.update(j, table), validator) == lect_table_at(tables, validator),
    decreases tables.len(),
{
    let updated = tables.update(j, table);
    if j == tables.len() - 1 {
        assert(updated.drop_last() =~= tables.drop_last());
    } else {
        assert(updated.drop_last() =~= tables.drop_last().update(j, table));
        lemma_lect_table_at_update(tables.drop_last(), j, table, validator);
    }
}

proof fn lemma_lect_table_at_push(tables: Seq<LectTable>, table: LectTable, validator: u32)
    ensures
        lect_table_at(tables.push(table), validator) == (if table.validator == validator {
            Some(tables.len() as int)
        } else {
            lect_table_at(tables, validator)
        }),
{
    assert(tables.push(table).drop_last() =~= tables);
}

/// The list of `validator`.
spec fn lects_in(tables: Seq<LectTable>, validator: u32) -> Seq<TxView> {
    match lect_table_at(tables, validator) {
        Some(j) => txs_view(tables[j].lects@),
        None => Seq::empty(),
    }
}

/// The index of `validator`.
spec fn index_in(tables: Seq<LectTable>, validator: u32) -> Map<Seq<u8>, u64> {
    match lect_table_at(tables, validator) {
        Some(j) => tables[j].index@,
        None => Map::empty(),
    }
}

/// Where the table of `txid` stands, if there is one.
spec fn signature_table_at(tables: Seq<SignatureTable>, txid: Seq<u8>) -> Option<int>
    decreases tables.len(),
{
    if tables.len() == 0 {
        None
    } else if tables.last().txid@ == txid {
        Some(tables.len() - 1)
    } else {
        signature_table_at(tables.drop_last(), txid)
    }
}

proof fn lemma_signature_table_at(tables: Seq<SignatureTable>, txid: Seq<u8>)
    ensures
        match signature_table_at(tables, txid) {
            Some(j) => 0 <= j < tables.len() && tables[j].txid@ == txid,
            None => true,
        },
    decreases tables.len(),
{
    if tables.len() > 0 && tables.last().txid@ != txid {
        lemma_signature_table_at(tables.drop_last(), txid);
    }
}

proof fn lemma_signature_table_at_update(
    tables: Seq<SignatureTable>,
    j: int,
    table: SignatureTable,
    txid: Seq<u8>,
)
    requires
        0 <= j < tables.len(),
        table.txid@ == tables[j].txid@,
    ensures
        signature_table_at(tables.update(j, table), txid) == signature_table_at(tables, txid),
    decreases tables.len(),
{
    let updated = tables.update(j, table);
    if j == tables.len() - 1 {
        assert(updated.drop_last() =~= tables.drop_last());
    } else {
        assert(updated.drop_last() =~= tables.drop_last().update(j, table));
        lemma_signature_table_at_update(tables.drop_last(), j, table, txid);
    }
}

proof fn lemma_signature_table_at_push(
    tables: Seq<SignatureTable>,
    table: SignatureTable,
    txid: Seq<u8>,
)
    ensures
        signature_table_at(tables.push(table), txid) == (if table.txid@ == txid {
            Some(tables.len() as int)
        } else {
            signature_table_at(tables, txid)
        }),
{
    assert(tables.push(table).drop_last() =~= tables);
}

/// The signatures recorded for `txid`.
spec fn records_in(tables: Seq<SignatureTable>, txid: Seq<u8>) -> Seq<SignatureView> {
    match signature_table_at(tables, txid) {
        Some(j) => signatures_view(tables[j].records@),
        None => Seq::empty(),
    }
}

/// The records of the anchoring service.
#[derive(Debug)]
pub struct AnchoringSchema {
    configs: Vec<FollowingConfig>,
    actual: usize,
    signature_tables: Vec<SignatureTable>,
    lect_tables: Vec<LectTable>,
}

impl View for AnchoringSchema {
    type V = SchemaState;

    closed spec fn view(&self) -> SchemaState {
        SchemaState {
            configs: followings_view(self.configs@),
            actual: self.actual as int,
            signatures: Map::total(|t: Seq<u8>| records_in(self.signature_tables@, t)),
            lects: Map::total(|v: u32| lects_in(self.lect_tables@, v)),
            lect_indexes: Map::total(|v: u32| index_in(self.lect_tables@, v)),
        }
    }
}

impl AnchoringSchema {
    /// Whether the records are consistent. The records that `new` gives
    /// are, and every function keeps them so.
    pub open spec fn wf(&self) -> bool {
        consistent(self@)
    }

    /// The records before the first message, under the configuration
    /// `genesis`, which has its threshold in range.
    pub fn new(genesis: AnchoringConfig) -> (schema: AnchoringSchema)
        requires
            threshold_in_range(genesis@),
        ensures
            schema.wf(),
            schema@ == initial_state(genesis@),
    {
        let mut configs: Vec<FollowingConfig> = Vec::new();
        configs.push(FollowingConfig { actual_from: 0, config: genesis });
        let schema = AnchoringSchema {
            configs,
            actual: 0,
            signature_tables: Vec::new(),
            lect_tables: Vec::new(),
        };
        proof {
            let s = initial_state(genesis@);
            assert(schema@.configs =~= s.configs);
            assert(schema@.signatures =~= s.signatures);
            assert(schema@.lects =~= s.lects);
            assert(schema@.lect_indexes =~= s.lect_indexes);
            lemma_initial_state_consistent(genesis@);
        }
        schema
    }

    /// The bytes before every key of the signatures recorded for `txid`.
    pub fn signatures_prefix(txid: &TxId) -> (prefix: Vec<u8>)
        ensures
            prefix@ == signatures_key_prefix(txid@),
    {
        let mut prefix: Vec<u8> = vec![ANCHORING_SERVICE as u8, SIGNATURES_TABLE];
        append_bytes(&mut prefix, txid.as_bytes());
        prefix
    }

    /// The bytes before every key of the list of `validator`.
    pub fn lects_prefix(validator: u32) -> (prefix: Vec<u8>)
        ensures
            prefix@ == validator_key_prefix(LECTS_TABLE, validator),
    {
        validator_prefix(LECTS_TABLE, validator)
    }

    /// The bytes before every key of the index of `validator`.
    pub fn lect_indexes_prefix(validator: u32) -> (prefix: Vec<u8>)
        ensures
            prefix@ == validator_key_prefix(LECT_INDEXES_TABLE, validator),
    {
        validator_prefix(LECT_INDEXES_TABLE, validator)
    }

    fn find_lect_table(&self, validator: u32) -> (found: Option<usize>)
        ensures
            match found {
                Some(j) => lect_table_at(self.lect_tables@, validator) == Some(j as int) && j
                    < self.lect_tables@.len() && self.lect_tables@[j as int].validator
                    == validator,
                None => lect_table_at(self.lect_tables@, validator).is_none(),
            },
    {
        let ghost all = self.lect_tables@;
        let mut i: usize = self.lect_tables.len();
        assert(all.take(i as int) =~= all);
        while i > 0
            invariant
                i <= all.len(),
                all == self.lect_tables@,
                lect_table_at(all, validator) == lect_table_at(all.take(i as int), validator),
            decreases i,
        {
            i = i - 1;
            proof {
                let upto = all.take(i + 1);
                assert(upto.drop_last() =~= all.take(i as int));
                assert(upto.last() == all[i as int]);
            }
            if self.lect_tables[i].validator == validator {
                return Some(i);
            }
        }
        None
    }

    fn find_signature_table(&self, txid: &TxId) -> (found: Option<usize>)
        ensures
            match found {
                Some(j) => signature_table_at(self.signature_tables@, txid@) == Some(j as int) && j
                    < self.signature_tables@.len() && self.signature_tables@[j as int].txid@
                    == txid@,
                None => signature_table_at(self.signature_tables@, txid@).is_none(),
            },
    {
        let ghost all = self.signature_tables@;
        let mut i: usize = self.signature_tables.len();
        assert(all.take(i as int) =~= all);
        while i > 0
            invariant
                i <= all.len(),
                all == self.signature_tables@,
                signature_table_at(all, txid@) == signature_table_at(all.take(i as int), txid@),
            decreases i,
        {
            i = i - 1;
            proof {
                let upto = all.take(i + 1);
                assert(upto.drop_last() =~= all.take(i as int));
                assert(upto.last() == all[i as int]);
            }
            if self.signature_tables[i].txid.same_as(txid) {
                return Some(i);
            }
        }
        None
    }

    /// The signatures recorded for the transaction with the id `txid`, in
    /// the order of their arrival.
    pub fn signatures(&self, txid: &TxId) -> (records: &[TxAnchoringSignature])
        ensures
            signatures_view(records@) == self@.signatures[txid@],
    {
        match self.find_signature_table(txid) {
            Some(j) => self.signature_tables[j].records.as_slice(),
            None => {
                let records: &[TxAnchoringSignature] = &[];
                assert(signatures_view(records@) =~= Seq::<SignatureView>::empty());
                records
            },
        }
    }

    /// The transactions that `validator` announced as its latest, in the
    /// order of their arrival.
    pub fn lects(&self, validator: u32) -> (lects: &[BitcoinTx])
        ensures
            txs_view(lects@) == self@.lects[validator],
    {
        match self.find_lect_table(validator) {
            Some(j) => self.lect_tables[j].lects.as_slice(),
            None => {
                let lects: &[BitcoinTx] = &[];
                assert(txs_view(lects@) =~= Seq::<TxView>::empty());
                lects
            },
        }
    }

    /// The index of the list of `validator`.
    pub fn lect_indexes(&self, validator: u32) -> (index: LectIndex)
        ensures
            index@ == self@.lect_indexes[validator],
    {
        match self.find_lect_table(validator) {
            Some(j) => self.lect_tables[j].index.clone(),
            None => LectIndex::new(),
        }
    }

    /// The configuration in force.
    pub fn current_anchoring_config(&self) -> (config: &AnchoringConfig)
        requires
            self.wf(),
        ensures
            config@ == current_config(self@),
            threshold_in_range(config@),
    {
        assert(self@.configs[self.actual as int] == self.configs@[self.actual as int]@);
        &self.configs[self.actual].config
    }

    /// The configuration that comes into force next, with the height from
    /// which it does, if one is scheduled.
    pub fn following_anchoring_config(&self) -> (following: Option<FollowingConfig>)
        requires
            self.wf(),
        ensures
            match following {
                Some(f) => following_config(self@) == Some(f@) && threshold_in_range(f@.config),
                None => following_config(self@).is_none(),
            },
    {
        proof {
            lemma_threshold_in_range(self@);
        }
        let count: usize = self.configs.len();
        let next: usize = self.actual + 1;
        if next < count {
            Some(self.configs[next].clone())
        } else {
            None
        }
    }

    /// Appends `tx` to the list of `validator` and notes its position under
    /// its id, unless the list holds a transaction with that id already.
    pub fn add_lect(&mut self, validator: u32, tx: BitcoinTx) -> (outcome: Outcome)
        requires
            old(self).wf(),
        ensures
            final(self).wf(),
            final(self)@ == append_lect(old(self)@, validator, tx@),
            outcome == lect_outcome(old(self)@, validator, tx@),
    {
        let id = tx.id();
        let ghost before = self.lect_tables@;
        let ghost wanted = append_lect(self@, validator, tx@);
        match self.find_lect_table(validator) {
            Some(j) => {
                if self.lect_tables[j].index.get(&id).is_some() {
                    return Outcome::Rejected(Rejection::DuplicateLect);
                }
                let position: u64 = self.lect_tables[j].lects.len() as u64;
                self.lect_tables[j].lects.push(tx);
                self.lect_tables[j].index.put(id, position);
                proof {
                    let after = self.lect_tables@;
                    assert(after =~= before.update(j as int, after[j as int]));
                    assert(txs_view(after[j as int].lects@) =~= txs_view(
                        before[j as int].lects@,
                    ).push(tx@));
                    assert forall|v: u32| #[trigger] lects_in(after, v) == wanted.lects[v] by {
                        lemma_lect_table_at_update(before, j as int, after[j as int], v);
                        lemma_lect_table_at(before, v);
                    }
                    assert forall|v: u32| #[trigger]
                        index_in(after, v) == wanted.lect_indexes[v] by {
                        lemma_lect_table_at_update(before, j as int, after[j as int], v);
                        lemma_lect_table_at(before, v);
                    }
                }
            },
            None => {
                let mut index = LectIndex::new();
                index.put(id, 0);
                let mut lects: Vec<BitcoinTx> = Vec::new();
                lects.push(tx);
                let table = LectTable { validator, lects, index };
                self.lect_tables.push(table);
                proof {
                    let after = self.lect_tables@;
                    assert(txs_view(table.lects@) =~= Seq::<TxView>::empty().push(tx@));
                    assert forall|v: u32| #[trigger] lects_in(after, v) == wanted.lects[v] by {
                        lemma_lect_table_at_push(before, table, v);
                        lemma_lect_table_at(before, v);
                    }
                    assert forall|v: u32| #[trigger]
                        index_in(after, v) == wanted.lect_indexes[v] by {
                        lemma_lect_table_at_push(before, table, v);
                        lemma_lect_table_at(before, v);
                    }
                }
            },
        }
        proof {
            assert(self@.lects =~= wanted.lects);
            assert(self@.lect_indexes =~= wanted.lect_indexes);
            assert(self@.signatures =~= wanted.signatures);
            lemma_append_lect_consistent(old(self)@, validator, tx@);
        }
        Outcome::Applied
    }

    /// Appends the funding transaction of `cfg` to the list of each of its
    /// validators, as `add_lect` does.
    pub fn create_genesis_config(&mut self, cfg: &AnchoringConfig)
        requires
            old(self).wf(),
        ensures
            final(self).wf(),
            final(self)@ == append_lect_to_first(
                old(self)@,
                cfg@.funding_tx,
                cfg@.validators.len(),
            ),
    {
        let ghost start = self@;
        let ghost tx = cfg@.funding_tx;
        let mut idx: usize = 0;
        proof {
            let first = append_lect_to_first(start, tx, 0);
            assert(first.lects =~= start.lects);
            assert(first.lect_indexes =~= start.lect_indexes);
        }
        while idx < cfg.validators.len() && idx <= u32::MAX as usize
            invariant
                idx <= cfg.validators@.len(),
                idx <= u32::MAX + 1,
                start == old(self)@,
                tx == cfg@.funding_tx,
                self.wf(),
                self@ == append_lect_to_first(start, tx, idx as nat),
            decreases cfg.validators@.len() - idx,
        {
            let ghost current = self@;
            let validator: u32 = idx as u32;
            self.add_lect(validator, cfg.funding_tx.as_tx().clone());
            proof {
                let next = append_lect_to_first(start, tx, (idx + 1) as nat);
                assert(current.lects[validator] == start.lects[validator]);
                assert(current.lect_indexes[validator] == start.lect_indexes[validator]);
                assert(self@.lects =~= next.lects);
                assert(self@.lect_indexes =~= next.lect_indexes);
            }
            idx = idx + 1;
        }
        proof {
            let reached = append_lect_to_first(start, tx, idx as nat);
            let all = append_lect_to_first(start, tx, cfg@.validators.len());
            assert(reached.lects =~= all.lects);
            assert(reached.lect_indexes =~= all.lect_indexes);
        }
    }

    /// The transaction that `validator` announced last, if it announced one.
    pub fn lect(&self, validator: u32) -> (tx: Option<BitcoinTx>)
        ensures
            match tx {
                Some(t) => self@.lects[validator].len() > 0 && t@ == self@.lects[validator].last(),
                None => self@.lects[validator].len() == 0,
            },
    {
        let lects = self.lects(validator);
        let count: usize = lects.len();
        if count > 0 {
            assert(txs_view(lects@)[count - 1] == lects@[count - 1]@);
            Some(lects[count - 1].clone())
        } else {
            None
        }
    }

    /// The transaction that `validator` announced before the last, if it
    /// announced two.
    pub fn prev_lect(&self, validator: u32) -> (tx: Option<BitcoinTx>)
        ensures
            match tx {
                Some(t) => self@.lects[validator].len() > 1 && t@ == self@.lects[validator][
                    self@.lects[validator].len() - 2
                ],
                None => self@.lects[validator].len() <= 1,
            },
    {
        let lects = self.lects(validator);
        let idx: usize = lects.len();
        if idx > 1 {
            assert(txs_view(lects@)[idx - 2] == lects@[idx - 2]@);
            Some(lects[idx - 2].clone())
        } else {
            None
        }
    }

    /// Where in the list of `validator` the transaction with the id `txid`
    /// stands, if the list holds it.
    pub fn find_lect_position(&self, validator: u32, txid: &TxId) -> (position: Option<u64>)
        ensures
            position == (if self@.lect_indexes[validator].contains_key(txid@) {
                Some(self@.lect_indexes[validator][txid@])
            } else {
                None
            }),
    {
        match self.find_lect_table(validator) {
            Some(j) => self.lect_tables[j].index.get(txid),
            None => None,
        }
    }

    /// Whether the signature in `message` is, under the configuration in
    /// force, the signature of the validator that the message names.
    pub fn verify_signature(&self, message: &TxAnchoringSignature) -> (verified: bool)
        requires
            self.wf(),
        ensures
            verified == signature_verifies(current_config(self@), message@),
    {
        let config = self.current_anchoring_config();
        let validator: usize = message.validator() as usize;
        if validator >= config.validators.len() {
            return false;
        }
        match config.redeem_script() {
            Some((script, _)) => message.tx().verify(
                &script,
                message.input(),
                &config.validators[validator],
                message.signature(),
            ),
            None => false,
        }
    }

    /// Records `message`, of which `verified` says whether its signature
    /// was found to be the validator's, unless it is not verified or a
    /// signature of this validator for this input is recorded already.
    pub fn record_signature(&mut self, message: &TxAnchoringSignature, verified: bool) -> (outcome:
        Outcome)
        requires
            old(self).wf(),
            verified ==> signature_verifies(current_config(old(self)@), message@),
        ensures
            final(self).wf(),
            final(self)@ == record_signature(old(self)@, message@, verified),
            outcome == signature_outcome(old(self)@, message@, verified),
    {
        if !verified {
            return Outcome::Rejected(Rejection::IncorrectSignature);
        }
        let id = message.tx().id();
        let ghost before = self.signature_tables@;
        let ghost wanted = record_signature(self@, message@, verified);
        match self.find_signature_table(&id) {
            Some(j) => {
                let records = &self.signature_tables[j].records;
                let mut i: usize = 0;
                assert(self@.signatures[message@.tx.id] == signatures_view(records@));
                while i < records.len()
                    invariant
                        i <= records@.len(),
                        verified,
                        old(self).wf(),
                        self@ == old(self)@,
                        self@.signatures[message@.tx.id] == signatures_view(records@),
                        forall|k: int|
                            0 <= k < i ==> !same_slot(
                                #[trigger] signatures_view(records@)[k],
                                message@,
                            ),
                    decreases records@.len() - i,
                {
                    assert(signatures_view(records@)[i as int] == records@[i as int]@);
                    if records[i].validator() == message.validator() && records[i].input()
                        == message.input() {
                        assert(same_slot(signatures_view(records@)[i as int], message@));
                        return Outcome::Rejected(Rejection::DuplicateSignature);
                    }
                    i = i + 1;
                }
                self.signature_tables[j].records.push(message.clone());
                proof {
                    let after = self.signature_tables@;
                    assert(after =~= before.update(j as int, after[j as int]));
                    assert(signatures_view(after[j as int].records@) =~= signatures_view(
                        before[j as int].records@,
                    ).push(message@));
                    assert forall|t: Seq<u8>| #[trigger]
                        records_in(after, t) == wanted.signatures[t] by {
                        lemma_signature_table_at_update(before, j as int, after[j as int], t);
                        lemma_signature_table_at(before, t);
                    }
                }
            },
            None => {
                let mut records: Vec<TxAnchoringSignature> = Vec::new();
                records.push(message.clone());
                let table = SignatureTable { txid: id, records };
                self.signature_tables.push(table);
                proof {
                    let after = self.signature_tables@;
                    assert(signatures_view(table.records@) =~= Seq::<SignatureView>::empty().push(
                        message@,
                    ));
                    assert forall|t: Seq<u8>| #[trigger]
                        records_in(after, t) == wanted.signatures[t] by {
                        lemma_signature_table_at_push(before, table, t);
                        lemma_signature_table_at(before, t);
                    }
                }
            },
        }
        proof {
            assert(self@.signatures =~= wanted.signatures);
            assert(self@.lects =~= wanted.lects);
            assert(self@.lect_indexes =~= wanted.lect_indexes);
            lemma_record_signature_consistent(old(self)@, message@, verified);
        }
        Outcome::Applied
    }

    /// Stores `following`, which has its threshold in range, as the
    /// configuration to come, unless it comes into force no later than a
    /// configuration stored before. Says whether it was stored.
    pub fn schedule_config(&mut self, following: FollowingConfig) -> (stored: bool)
        requires
            old(self).wf(),
            threshold_in_range(following@.config),
        ensures
            final(self).wf(),
            final(self)@ == schedule_config(old(self)@, following@),
            stored == (following@.actual_from > old(self)@.configs.last().actual_from),
    {
        let last: usize = self.configs.len() - 1;
        if following.actual_from <= self.configs[last].actual_from {
            return false;
        }
        self.configs.push(following);
        proof {
            let wanted = schedule_config(old(self)@, following@);
            assert(self@.configs =~= wanted.configs);
            assert(self@.signatures =~= wanted.signatures);
            assert(self@.lects =~= wanted.lects);
            assert(self@.lect_indexes =~= wanted.lect_indexes);
            lemma_schedule_config_consistent(old(self)@, following@);
        }
        true
    }

    /// Takes note that the anchored chain reached `height`: the last
    /// configuration whose height is reached comes into force.
    pub fn reach_height(&mut self, height: u64)
        requires
            old(self).wf(),
        ensures
            final(self).wf(),
            final(self)@ == reach_height(old(self)@, height),
    {
        let ghost configs = self@.configs;
        let ghost start = self.actual as int;
        let count: usize = self.configs.len();
        let mut actual: usize = self.actual;
        while actual + 1 < count && self.configs[actual + 1].actual_from <= height
            invariant
                0 <= start <= actual < self.configs@.len(),
                count == self.configs@.len(),
                configs == followings_view(self.configs@),
                actual_at(configs, start, height) == actual_at(configs, actual as int, height),
            decreases self.configs@.len() - actual,
        {
            assert(configs[actual + 1] == self.configs@[actual + 1]@);
            actual = actual + 1;
        }
        proof {
            if actual + 1 < self.configs@.len() {
                assert(configs[actual + 1] == self.configs@[actual + 1]@);
            }
        }
        self.actual = actual;
        proof {
            let wanted = reach_height(old(self)@, height);
            assert(self@.configs =~= wanted.configs);
            assert(self@.signatures =~= wanted.signatures);
            assert(self@.lects =~= wanted.lects);
            assert(self@.lect_indexes =~= wanted.lect_indexes);
            lemma_reach_height_consistent(old(self)@, height);
        }
    }

    /// Applies the messages in order.
    pub fn apply(&mut self, messages: &[AnchoringTransaction])
        requires
            old(self).wf(),
        ensures
            final(self).wf(),
            final(self)@ == apply_messages(old(self)@, messages_view(messages@)),
    {
        let ghost all = messages_view(messages@);
        let mut i: usize = 0;
        assert(all.take(0) =~= Seq::<MessageView>::empty());
        while i < messages.len()
            invariant
                i <= messages@.len(),
                all == messages_view(messages@),
                self.wf(),
                self@ == apply_messages(old(self)@, all.take(i as int)),
            decreases messages@.len() - i,
        {
            proof {
                let upto = all.take(i + 1);
                assert(upto.drop_last() =~= all.take(i as int));
                assert(upto.last() == messages@[i as int]@);
            }
            messages[i].execute(self);
            i = i + 1;
        }
        assert(all.take(messages@.len() as int) =~= all);
    }
}

impl TxAnchoringSignature {
    /// Applies the message to the records: the signature is checked under
    /// the configuration in force and recorded for the id of its
    /// transaction, unless it is not the validator's or a signature of this
    /// validator for this input is recorded already.
    pub fn execute(&self, schema: &mut AnchoringSchema) -> (outcome: Outcome)
        requires
            old(schema).wf(),
        ensures
            final(schema).wf(),
            final(schema)@ == apply_signature(old(schema)@, self@),
            outcome == message_outcome(old(schema)@, MessageView::Signature(self@)),
    {
        let verified = schema.verify_signature(self);
        schema.record_signature(self, verified)
    }
}

impl TxAnchoringUpdateLatest {
    /// Applies the message to the records: the transaction is appended to
    /// the sender's list, unless the message does not count as many
    /// transactions as the list then holds or the list holds one with that
    /// id already.
    pub fn execute(&self, schema: &mut AnchoringSchema) -> (outcome: Outcome)
        requires
            old(schema).wf(),
        ensures
            final(schema).wf(),
            final(schema)@ == apply_update_latest(old(schema)@, self@),
            outcome == message_outcome(old(schema)@, MessageView::UpdateLatest(self@)),
    {
        let count: usize = schema.lects(self.validator()).len();
        if self.lect_count() == 0 || self.lect_count() - 1 != count as u64 {
            return Outcome::Rejected(Rejection::LectCountMismatch);
        }
        schema.add_lect(self.validator(), self.tx().clone())
    }
}

impl AnchoringTransaction {
    /// Applies the message to the records.
    pub fn execute(&self, schema: &mut AnchoringSchema) -> (outcome: Outcome)
        requires
            old(schema).wf(),
        ensures
            final(schema).wf(),
            final(schema)@ == apply_message(old(schema)@, self@),
            outcome == message_outcome(old(schema)@, self@),
    {
        match self {
            AnchoringTransaction::UpdateLatest(message) => message.execute(schema),
            AnchoringTransaction::Signature(message) => message.execute(schema),
        }
    }
}

} // verus!
