//! The kinds of Bitcoin transactions that the anchoring rules tell apart, and
//! the payload by which an anchoring transaction commits to a block.

use crate::btc::{
    input_signature_valid, outputs_view, pay_to_script_hash, Address, BitcoinTx, PublicKey,
    RedeemScript, TxId, TxOutput, TxOutputView, TxView,
};
use crate::bytes::{
    append_bytes, be_u64_bytes, be_u64_value, bytes_equal, copy_range,
    lemma_be_u64_value_of_bytes, push_u32_be, read_u64_be,
};
use vstd::prelude::*;

verus! {

/// The opcode that marks an output as carrying data.
pub const OP_RETURN: u8 = 0x6a;

/// The number of bytes of a block hash of the anchored chain.
pub const BLOCK_HASH_SIZE: usize = 32;

/// The number of bytes of a payload: a height and a block hash.
pub const PAYLOAD_SIZE: usize = 40;

/// The number of bytes of a script that carries a payload.
pub const PAYLOAD_SCRIPT_SIZE: usize = 42;

/// What an anchoring transaction commits to: a block of the anchored chain,
/// by height and hash.
#[derive(Debug, PartialEq, Eq)]
pub struct Payload {
    pub block_height: u64,
    pub block_hash: Vec<u8>,
}

/// `Payload` as a mathematical value.
pub struct PayloadView {
    pub block_height: u64,
    pub block_hash: Seq<u8>,
}

impl View for Payload {
    type V = PayloadView;

    open spec fn view(&self) -> PayloadView {
        PayloadView { block_height: self.block_height, block_hash: self.block_hash@ }
    }
}

/// The script that carries a payload: `OP_RETURN`, the byte 40, the height
/// in eight bytes, most significant first, and the 32 bytes of the hash.
pub open spec fn payload_script(payload: PayloadView) -> Seq<u8> {
    seq![OP_RETURN, PAYLOAD_SIZE as u8] + be_u64_bytes(payload.block_height) + payload.block_hash
}

/// The payload that a script carries, if it has the shape of `payload_script`.
pub open spec fn script_payload(script: Seq<u8>) -> Option<PayloadView> {
    if script.len() == PAYLOAD_SCRIPT_SIZE && script[0] == OP_RETURN && script[1] == PAYLOAD_SIZE
        as u8 {
        Some(
            PayloadView {
                block_height: be_u64_value(script.subrange(2, 10)) as u64,
                block_hash: script.subrange(10, PAYLOAD_SCRIPT_SIZE as int),
            },
        )
    } else {
        None
    }
}

/// A payload is read back from the script that carries it.
pub proof fn lemma_payload_script_round_trip(payload: PayloadView)
    requires
        payload.block_hash.len() == BLOCK_HASH_SIZE,
    ensures
        script_payload(payload_script(payload)) == Some(payload),
{
    let script = payload_script(payload);
    lemma_be_u64_value_of_bytes(payload.block_height);
    assert(script.subrange(2, 10) =~= be_u64_bytes(payload.block_height));
    assert(script.subrange(10, PAYLOAD_SCRIPT_SIZE as int) =~= payload.block_hash);
}

/// Reads the payload that `script` carries.
pub fn parse_payload_script(script: &[u8]) -> (payload: Option<Payload>)
    ensures
        match payload {
            Some(p) => script_payload(script@) == Some(p@),
            None => script_payload(script@).is_none(),
        },
{
    if script.len() != PAYLOAD_SCRIPT_SIZE || script[0] != OP_RETURN || script[1]
        != PAYLOAD_SIZE as u8 {
        return None;
    }
    let block_height: u64 = read_u64_be(script, 2);
    let block_hash = copy_range(script, 10, PAYLOAD_SCRIPT_SIZE);
    Some(Payload { block_height, block_hash })
}

/// Writes the script that carries the given height and block hash.
pub fn build_payload_script(block_height: u64, block_hash: &[u8; 32]) -> (script: Vec<u8>)
    ensures
        script@ == payload_script(PayloadView { block_height, block_hash: block_hash@ }),
        script_payload(script@) == Some(PayloadView { block_height, block_hash: block_hash@ }),
{
    let mut script: Vec<u8> = Vec::new();
    script.push(OP_RETURN);
    script.push(PAYLOAD_SIZE as u8);
    let high: u32 = (block_height / 0x1_0000_0000) as u32;
    let low: u32 = (block_height % 0x1_0000_0000) as u32;
    push_u32_be(&mut script, high);
    push_u32_be(&mut script, low);
    append_bytes(&mut script, block_hash.as_slice());
    proof {
        let payload = PayloadView { block_height, block_hash: block_hash@ };
        assert(script@ =~= payload_script(payload));
        lemma_payload_script_round_trip(payload);
    }
    script
}

/// Whether output `i` carries a payload and no other output does.
pub open spec fn is_single_payload_output(outputs: Seq<TxOutputView>, i: int) -> bool {
    &&& 0 <= i < outputs.len()
    &&& script_payload(outputs[i].script_pubkey).is_some()
    &&& forall|j: int|
        0 <= j < outputs.len() && j != i ==> script_payload(
            #[trigger] outputs[j].script_pubkey,
        ).is_none()
}

/// The payload of the one output that carries a payload; `None` where no
/// output or more than one carries a payload.
pub open spec fn single_payload(outputs: Seq<TxOutputView>) -> Option<PayloadView> {
    if exists|i: int| is_single_payload_output(outputs, i) {
        let i = choose|i: int| is_single_payload_output(outputs, i);
        script_payload(outputs[i].script_pubkey)
    } else {
        None
    }
}

/// Whether a transaction has the shape of an anchoring transaction: it
/// spends at least one output and exactly one of its outputs carries a
/// payload.
pub open spec fn has_anchoring_shape(tx: TxView) -> bool {
    tx.inputs.len() >= 1 && single_payload(tx.outputs).is_some()
}

/// Whether one of the outputs of `tx` has the script `script_pubkey`.
pub open spec fn pays_to(tx: TxView, script_pubkey: Seq<u8>) -> bool {
    exists|i: int| 0 <= i < tx.outputs.len() && #[trigger] tx.outputs[i].script_pubkey == script_pubkey
}

/// Finds the payload of the one output that carries one.
pub fn find_single_payload(outputs: &Vec<TxOutput>) -> (payload: Option<Payload>)
    ensures
        match payload {
            Some(p) => single_payload(outputs_view(outputs@)) == Some(p@),
            None => single_payload(outputs_view(outputs@)).is_none(),
        },
{
    let ghost views = outputs_view(outputs@);
    let mut found: Option<Payload> = None;
    let ghost mut at: int = -1;
    let mut i: usize = 0;
    while i < outputs.len()
        invariant
            i <= outputs@.len(),
            views == outputs_view(outputs@),
            found.is_none() ==> forall|j: int|
                0 <= j < i ==> script_payload(#[trigger] views[j].script_pubkey).is_none(),
            found.is_some() ==> {
                &&& 0 <= at < i
                &&& script_payload(views[at].script_pubkey) == Some(found.unwrap()@)
                &&& forall|j: int|
                    0 <= j < i && j != at ==> script_payload(
                        #[trigger] views[j].script_pubkey,
                    ).is_none()
            },
        decreases outputs@.len() - i,
    {
        let here = parse_payload_script(outputs[i].script_pubkey.as_slice());
        assert(views[i as int].script_pubkey == outputs@[i as int].script_pubkey@);
        if here.is_some() {
            if found.is_some() {
                proof {
                    let second = i as int;
                    assert forall|k: int| !is_single_payload_output(views, k) by {
                        if k == at {
                            assert(script_payload(views[second].script_pubkey).is_some());
                        } else {
                            assert(script_payload(views[at].script_pubkey).is_some());
                        }
                    }
                }
                return None;
            }
            found = here;
            proof {
                at = i as int;
            }
        }
        i = i + 1;
    }
    proof {
        if found.is_some() {
            assert(is_single_payload_output(views, at));
            let chosen = choose|k: int| is_single_payload_output(views, k);
            assert(chosen == at) by {
                if chosen != at {
                    assert(script_payload(views[at].script_pubkey).is_none());
                }
            }
        } else {
            assert forall|k: int| !is_single_payload_output(views, k) by {
                if 0 <= k < views.len() {
                    assert(script_payload(views[k].script_pubkey).is_none());
                }
            }
        }
    }
    found
}

/// Whether one of the outputs has the script `script_pubkey`.
pub fn pays_to_script(tx: &BitcoinTx, script_pubkey: &[u8]) -> (pays: bool)
    ensures
        pays == pays_to(tx@, script_pubkey@),
{
    let outputs = tx.outputs();
    let ghost views = outputs_view(outputs@);
    let mut i: usize = 0;
    while i < outputs.len()
        invariant
            i <= outputs@.len(),
            views == outputs_view(outputs@),
            views == tx@.outputs,
            forall|j: int| 0 <= j < i ==> #[trigger] views[j].script_pubkey != script_pubkey@,
        decreases outputs@.len() - i,
    {
        assert(views[i as int].script_pubkey == outputs@[i as int].script_pubkey@);
        if bytes_equal(outputs[i].script_pubkey.as_slice(), script_pubkey) {
            return true;
        }
        i = i + 1;
    }
    false
}

/// Whether `tx` has the shape of an anchoring transaction.
pub fn anchoring_shaped(tx: &BitcoinTx) -> (shaped: bool)
    ensures
        shaped == has_anchoring_shape(tx@),
{
    tx.inputs().len() >= 1 && find_single_payload(tx.outputs()).is_some()
}

/// A transaction with the shape of an anchoring transaction.
#[derive(Debug, PartialEq, Eq)]
pub struct AnchoringTx {
    tx: BitcoinTx,
}

impl View for AnchoringTx {
    type V = TxView;

    closed spec fn view(&self) -> TxView {
        self.tx@
    }
}

impl AnchoringTx {
    #[verifier::type_invariant]
    spec fn shaped(self) -> bool {
        has_anchoring_shape(self.tx@)
    }

    /// Takes `tx` as an anchoring transaction, if it has the shape of one.
    pub fn from_tx(tx: BitcoinTx) -> (anchoring: Option<AnchoringTx>)
        ensures
            match anchoring {
                Some(a) => has_anchoring_shape(tx@) && a@ == tx@,
                None => !has_anchoring_shape(tx@),
            },
    {
        if anchoring_shaped(&tx) {
            Some(AnchoringTx { tx })
        } else {
            None
        }
    }

    /// The transaction itself, which has the shape of an anchoring transaction.
    pub fn as_tx(&self) -> (tx: &BitcoinTx)
        ensures
            tx@ == self@,
            has_anchoring_shape(tx@),
    {
        proof {
            use_type_invariant(self);
        }
        &self.tx
    }

    /// Gives up the transaction.
    pub fn into_tx(self) -> (tx: BitcoinTx)
        ensures
            tx@ == self@,
            has_anchoring_shape(tx@),
    {
        proof {
            use_type_invariant(&self);
        }
        self.tx
    }

    /// The id of the transaction.
    pub fn id(&self) -> (id: TxId)
        ensures
            id@ == self@.id,
    {
        self.tx.id()
    }

    /// The block that the transaction commits to.
    pub fn payload(&self) -> (payload: Payload)
        ensures
            single_payload(self@.outputs) == Some(payload@),
    {
        proof {
            use_type_invariant(self);
        }
        find_single_payload(self.tx.outputs()).unwrap()
    }

    /// Checks `signature` as `key`'s signature of input `input` over `script`.
    pub fn verify(
        &self,
        script: &RedeemScript,
        input: u32,
        key: &PublicKey,
        signature: &[u8],
    ) -> (valid: bool)
        ensures
            valid == input_signature_valid(self@, script@, input, key@, signature@),
    {
        self.tx.verify_input(script, input, key, signature)
    }
}

impl Clone for AnchoringTx {
    fn clone(&self) -> (copy: AnchoringTx)
        ensures
            copy@ == self@,
    {
        proof {
            use_type_invariant(self);
        }
        AnchoringTx { tx: self.tx.clone() }
    }
}

/// A transaction that brings funds to the validators' common address.
#[derive(Debug, PartialEq, Eq)]
pub struct FundingTx {
    tx: BitcoinTx,
}

impl View for FundingTx {
    type V = TxView;

    closed spec fn view(&self) -> TxView {
        self.tx@
    }
}

impl FundingTx {
    /// Takes `tx` as a funding transaction.
    pub fn from_tx(tx: BitcoinTx) -> (funding: FundingTx)
        ensures
            funding@ == tx@,
    {
        FundingTx { tx }
    }

    /// The transaction itself.
    pub fn as_tx(&self) -> (tx: &BitcoinTx)
        ensures
            tx@ == self@,
    {
        &self.tx
    }

    /// Gives up the transaction.
    pub fn into_tx(self) -> (tx: BitcoinTx)
        ensures
            tx@ == self@,
    {
        self.tx
    }

    /// The id of the transaction.
    pub fn id(&self) -> (id: TxId)
        ensures
            id@ == self@.id,
    {
        self.tx.id()
    }
}

impl Clone for FundingTx {
    fn clone(&self) -> (copy: FundingTx)
        ensures
            copy@ == self@,
    {
        FundingTx { tx: self.tx.clone() }
    }
}

/// The names of the three kinds.
#[derive(Clone, Copy, Debug, PartialEq, Eq, Structural)]
pub enum Kind {
    Anchoring,
    Funding,
    Other,
}

/// The kind of `tx` for validators whose common outputs carry the script
/// `script_pubkey`. A transaction that pays to that script is an anchoring
/// transaction where it has the shape of one and a funding transaction
/// where it has not; one that does not pay to it is neither.
pub open spec fn kind_of(tx: TxView, script_pubkey: Seq<u8>) -> Kind {
    if !pays_to(tx, script_pubkey) {
        Kind::Other
    } else if has_anchoring_shape(tx) {
        Kind::Anchoring
    } else {
        Kind::Funding
    }
}

/// A transaction, told apart by its kind.
#[derive(Debug, PartialEq, Eq)]
pub enum TxKind {
    Anchoring(AnchoringTx),
    FundingTx(FundingTx),
    Other(BitcoinTx),
}

impl TxKind {
    /// The name of the kind.
    pub open spec fn kind(&self) -> Kind {
        match self {
            TxKind::Anchoring(_) => Kind::Anchoring,
            TxKind::FundingTx(_) => Kind::Funding,
            TxKind::Other(_) => Kind::Other,
        }
    }

    /// The transaction inside.
    pub open spec fn tx(&self) -> TxView {
        match self {
            TxKind::Anchoring(tx) => tx@,
            TxKind::FundingTx(tx) => tx@,
            TxKind::Other(tx) => tx@,
        }
    }

    /// Tells the kind of `tx` for the validators with the common address
    /// `address`.
    pub fn classify(tx: BitcoinTx, address: &Address) -> (kind: TxKind)
        ensures
            kind.kind() == kind_of(tx@, pay_to_script_hash(address@.script_hash)),
            kind.tx() == tx@,
    {
        let script_pubkey = address.script_pubkey();
        if !pays_to_script(&tx, script_pubkey.as_slice()) {
            return TxKind::Other(tx);
        }
        if anchoring_shaped(&tx) {
            TxKind::Anchoring(AnchoringTx { tx })
        } else {
            TxKind::FundingTx(FundingTx::from_tx(tx))
        }
    }

    /// Gives up the transaction, whatever its kind.
    pub fn into_tx(self) -> (tx: BitcoinTx)
        ensures
            tx@ == self.tx(),
    {
        match self {
            TxKind::Anchoring(tx) => tx.into_tx(),
            TxKind::FundingTx(tx) => tx.into_tx(),
            TxKind::Other(tx) => tx,
        }
    }
}

/// The views of the transactions, in order.
pub open spec fn txs_view(txs: Seq<BitcoinTx>) -> Seq<TxView> {
    Seq::new(txs.len(), |i: int| txs[i]@)
}

/// Of the transactions that hold unspent outputs, those that concern the
/// validators with the common address `address`: the anchoring and the
/// funding transactions, in the order given.
pub fn anchoring_and_funding(txs: Vec<BitcoinTx>, address: &Address) -> (kept: Vec<BitcoinTx>)
    ensures
        txs_view(kept@) == txs_view(txs@).filter(
            |tx: TxView| kind_of(tx, pay_to_script_hash(address@.script_hash)) != Kind::Other,
        ),
{
    let ghost all = txs_view(txs@);
    let ghost wanted = |tx: TxView|
        kind_of(tx, pay_to_script_hash(address@.script_hash)) != Kind::Other;
    let mut kept: Vec<BitcoinTx> = Vec::new();
    let mut i: usize = 0;
    proof {
        reveal(Seq::filter);
        assert(all.take(0) =~= Seq::<TxView>::empty());
        assert(txs_view(kept@) =~= all.take(0).filter(wanted));
    }
    while i < txs.len()
        invariant
            i <= txs@.len(),
            all == txs_view(txs@),
            wanted == |tx: TxView|
                kind_of(tx, pay_to_script_hash(address@.script_hash)) != Kind::Other,
            txs_view(kept@) == all.take(i as int).filter(wanted),
        decreases txs@.len() - i,
    {
        let ghost before = txs_view(kept@);
        proof {
            reveal(Seq::filter);
            assert(all.take(i + 1).drop_last() =~= all.take(i as int));
            assert(all.take(i + 1).last() == txs@[i as int]@);
        }
        match TxKind::classify(txs[i].clone(), address) {
            TxKind::Anchoring(tx) => {
                kept.push(tx.into_tx());
                assert(txs_view(kept@) =~= before.push(txs@[i as int]@));
            },
            TxKind::FundingTx(tx) => {
                kept.push(tx.into_tx());
                assert(txs_view(kept@) =~= before.push(txs@[i as int]@));
            },
            TxKind::Other(_) => {},
        }
        i = i + 1;
    }
    assert(all.take(txs@.len() as int) =~= all);
    kept
}

} // verus!
