//! Bitcoin values as the anchoring rules read them: transaction ids, keys and
//! transactions held as their serialized bytes together with the parts that
//! the rules look at.

use crate::bytes::{
    append_bytes, bytes_equal, bytes_le, copy_bytes, lemma_lex_le_total, lemma_lex_le_transitive,
    lex_le,
};
use crate::text::{ascii_text, bytes_of_hex, hex_decode, hex_encode, hex_of, text_of};
use bitcoin::consensus::encode::deserialize;
use bitcoin::secp256k1::ecdsa::Signature;
use bitcoin::secp256k1::{Message, Secp256k1};
use bitcoin::sighash::SighashCache;
use bitcoin::{Script, Transaction};
use vstd::prelude::*;
use vstd::relations::{sorted_by, total_ordering};
use vstd::seq_lib::{lemma_sorted_unique, to_multiset_build, to_multiset_insert, to_multiset_len};
use vstd::string::*;

verus! {

/// The id of a Bitcoin transaction: the bytes of its hash.
#[derive(Debug, PartialEq, Eq)]
pub struct TxId {
    bytes: Vec<u8>,
}

impl View for TxId {
    type V = Seq<u8>;

    closed spec fn view(&self) -> Seq<u8> {
        self.bytes@
    }
}

impl TxId {
    /// The id made of the given bytes.
    pub fn from_bytes(bytes: Vec<u8>) -> (id: TxId)
        ensures
            id@ == bytes@,
    {
        TxId { bytes }
    }

    /// The bytes of the id.
    pub fn as_bytes(&self) -> (bytes: &[u8])
        ensures
            bytes@ == self@,
    {
        self.bytes.as_slice()
    }

    /// Whether both ids hold the same bytes.
    pub fn same_as(&self, other: &TxId) -> (same: bool)
        ensures
            same == (self@ == other@),
    {
        bytes_equal(self.bytes.as_slice(), other.bytes.as_slice())
    }
}

impl Clone for TxId {
    fn clone(&self) -> (copy: TxId)
        ensures
            copy@ == self@,
    {
        TxId { bytes: copy_bytes(self.bytes.as_slice()) }
    }
}

/// What an input of a transaction spends: an output of an earlier transaction.
#[derive(Debug, PartialEq, Eq)]
pub struct TxInput {
    pub prev_txid: TxId,
    pub prev_index: u32,
}

/// `TxInput` as a mathematical value.
pub struct TxInputView {
    pub prev_txid: Seq<u8>,
    pub prev_index: u32,
}

impl View for TxInput {
    type V = TxInputView;

    open spec fn view(&self) -> TxInputView {
        TxInputView { prev_txid: self.prev_txid@, prev_index: self.prev_index }
    }
}

impl Clone for TxInput {
    fn clone(&self) -> (copy: TxInput)
        ensures
            copy@ == self@,
    {
        TxInput { prev_txid: self.prev_txid.clone(), prev_index: self.prev_index }
    }
}

/// An output of a transaction: an amount in satoshis and the script that guards it.
#[derive(Debug, PartialEq, Eq)]
pub struct TxOutput {
    pub value: u64,
    pub script_pubkey: Vec<u8>,
}

/// `TxOutput` as a mathematical value.
pub struct TxOutputView {
    pub value: u64,
    pub script_pubkey: Seq<u8>,
}

impl View for TxOutput {
    type V = TxOutputView;

    open spec fn view(&self) -> TxOutputView {
        TxOutputView { value: self.value, script_pubkey: self.script_pubkey@ }
    }
}

impl Clone for TxOutput {
    fn clone(&self) -> (copy: TxOutput)
        ensures
            copy@ == self@,
    {
        TxOutput {
            value: self.value,
            script_pubkey: copy_bytes(self.script_pubkey.as_slice()),
        }
    }
}

/// The views of the inputs, in order.
pub open spec fn inputs_view(inputs: Seq<TxInput>) -> Seq<TxInputView> {
    Seq::new(inputs.len(), |i: int| inputs[i]@)
}

/// The views of the outputs, in order.
pub open spec fn outputs_view(outputs: Seq<TxOutput>) -> Seq<TxOutputView> {
    Seq::new(outputs.len(), |i: int| outputs[i]@)
}

/// The number of bytes of the id of a transaction.
pub const TXID_SIZE: usize = 32;

/// The inputs and outputs that `bitcoin::consensus::encode::deserialize`
/// reads from `raw` as a `bitcoin::Transaction`; `None` where it reports an
/// error.
pub uninterp spec fn decoded_parts(raw: Seq<u8>) -> Option<(Seq<TxInputView>, Seq<TxOutputView>)>;

/// The bytes of `bitcoin::Transaction::compute_txid` for the transaction
/// that `raw` deserializes to; `None` where `raw` does not deserialize.
pub uninterp spec fn computed_txid(raw: Seq<u8>) -> Option<Seq<u8>>;

/// Calls `bitcoin::consensus::encode::deserialize::<Transaction>` on `raw`
/// and hands out, for each input, the outpoint it spends and, for each
/// output, its value in satoshis and its script. The contract names the
/// result and claims nothing more of it.
#[verifier::external_body]
fn decode_parts(raw: &[u8]) -> (parts: Option<(Vec<TxInput>, Vec<TxOutput>)>)
    ensures
        match parts {
            Some(p) => decoded_parts(raw@) == Some((inputs_view(p.0@), outputs_view(p.1@))),
            None => decoded_parts(raw@).is_none(),
        },
{
    let tx: Transaction = deserialize(raw).ok()?;
    let inputs = tx.input.iter().map(|i| TxInput {
        prev_txid: TxId { bytes: bitcoin::hashes::Hash::to_byte_array(i.previous_output.txid).to_vec() },
        prev_index: i.previous_output.vout,
    }).collect();
    let outputs = tx.output.iter().map(|o| TxOutput {
        value: o.value.to_sat(),
        script_pubkey: o.script_pubkey.to_bytes(),
    }).collect();
    Some((inputs, outputs))
}

/// Calls `bitcoin::Transaction::compute_txid` on the transaction that
/// `raw` deserializes to. The contract names the result and claims that an
/// id comes back exactly when `raw` deserializes, and that it has 32
/// bytes, the size of that hash type.
#[verifier::external_body]
fn compute_txid(raw: &[u8]) -> (id: Option<Vec<u8>>)
    ensures
        id.is_some() == decoded_parts(raw@).is_some(),
        match id {
            Some(bytes) => computed_txid(raw@) == Some(bytes@) && bytes@.len() == TXID_SIZE,
            None => computed_txid(raw@).is_none(),
        },
{
    let tx: Transaction = deserialize(raw).ok()?;
    Some(bitcoin::hashes::Hash::to_byte_array(tx.compute_txid()).to_vec())
}

/// A Bitcoin transaction as a mathematical value: its serialized bytes, its
/// id, and what its inputs spend and its outputs pay.
pub struct TxView {
    pub raw: Seq<u8>,
    pub id: Seq<u8>,
    pub inputs: Seq<TxInputView>,
    pub outputs: Seq<TxOutputView>,
}

/// The transaction that the bytes `raw` hold, if they hold one.
pub open spec fn tx_of_bytes(raw: Seq<u8>) -> Option<TxView> {
    match (decoded_parts(raw), computed_txid(raw)) {
        (Some(parts), Some(id)) => Some(TxView { raw, id, inputs: parts.0, outputs: parts.1 }),
        _ => None,
    }
}

/// A Bitcoin transaction. It is held as its serialized bytes, beside the id
/// and the inputs and outputs that those bytes decode to.
#[derive(Debug, PartialEq, Eq)]
pub struct BitcoinTx {
    raw: Vec<u8>,
    id: TxId,
    inputs: Vec<TxInput>,
    outputs: Vec<TxOutput>,
}

impl View for BitcoinTx {
    type V = TxView;

    closed spec fn view(&self) -> TxView {
        TxView {
            raw: self.raw@,
            id: self.id@,
            inputs: inputs_view(self.inputs@),
            outputs: outputs_view(self.outputs@),
        }
    }
}

impl BitcoinTx {
    /// Every transaction is the one that its bytes hold, and its id has 32
    /// bytes.
    #[verifier::type_invariant]
    spec fn decodes_to_itself(self) -> bool {
        tx_of_bytes(self.raw@) == Some(self@) && self.id@.len() == TXID_SIZE
    }

    /// Reads a transaction from its serialized bytes. Succeeds exactly on
    /// the byte strings that hold a transaction.
    pub fn from_bytes(raw: Vec<u8>) -> (tx: Option<BitcoinTx>)
        ensures
            match tx {
                Some(t) => tx_of_bytes(raw@) == Some(t@),
                None => tx_of_bytes(raw@).is_none(),
            },
    {
        let parts = decode_parts(raw.as_slice());
        let id = compute_txid(raw.as_slice());
        match (parts, id) {
            (Some(p), Some(bytes)) => Some(
                BitcoinTx { raw, id: TxId::from_bytes(bytes), inputs: p.0, outputs: p.1 },
            ),
            _ => None,
        }
    }

    /// The serialized bytes, which hold this transaction.
    pub fn as_bytes(&self) -> (bytes: &[u8])
        ensures
            bytes@ == self@.raw,
            tx_of_bytes(bytes@) == Some(self@),
    {
        proof {
            use_type_invariant(self);
        }
        self.raw.as_slice()
    }

    /// The id of the transaction, which has 32 bytes.
    pub fn id(&self) -> (id: TxId)
        ensures
            id@ == self@.id,
            id@.len() == TXID_SIZE,
    {
        proof {
            use_type_invariant(self);
        }
        self.id.clone()
    }

    /// The inputs, in order.
    pub fn inputs(&self) -> (inputs: &Vec<TxInput>)
        ensures
            inputs_view(inputs@) == self@.inputs,
    {
        &self.inputs
    }

    /// The outputs, in order.
    pub fn outputs(&self) -> (outputs: &Vec<TxOutput>)
        ensures
            outputs_view(outputs@) == self@.outputs,
    {
        &self.outputs
    }
}

impl Clone for BitcoinTx {
    fn clone(&self) -> (copy: BitcoinTx)
        ensures
            copy@ == self@,
    {
        proof {
            use_type_invariant(self);
        }
        let mut inputs: Vec<TxInput> = Vec::new();
        let mut i: usize = 0;
        while i < self.inputs.len()
            invariant
                i <= self.inputs@.len(),
                inputs@.len() == i,
                forall|k: int| 0 <= k < i ==> inputs@[k]@ == self.inputs@[k]@,
            decreases self.inputs@.len() - i,
        {
            inputs.push(self.inputs[i].clone());
            i = i + 1;
        }
        let mut outputs: Vec<TxOutput> = Vec::new();
        let mut j: usize = 0;
        while j < self.outputs.len()
            invariant
                j <= self.outputs@.len(),
                outputs@.len() == j,
                forall|k: int| 0 <= k < j ==> outputs@[k]@ == self.outputs@[k]@,
            decreases self.outputs@.len() - j,
        {
            outputs.push(self.outputs[j].clone());
            j = j + 1;
        }
        assert(inputs_view(inputs@) =~= inputs_view(self.inputs@));
        assert(outputs_view(outputs@) =~= outputs_view(self.outputs@));
        BitcoinTx {
            raw: copy_bytes(self.raw.as_slice()),
            id: self.id.clone(),
            inputs,
            outputs,
        }
    }
}

/// The number of bytes of a compressed public key.
pub const PUBLIC_KEY_SIZE: usize = 33;

/// A validator's Bitcoin public key in compressed form. Whether the bytes
/// name a point of the curve is decided where a signature is checked
/// against them.
#[derive(Debug, PartialEq, Eq)]
pub struct PublicKey {
    bytes: Vec<u8>,
}

impl View for PublicKey {
    type V = Seq<u8>;

    closed spec fn view(&self) -> Seq<u8> {
        self.bytes@
    }
}

impl PublicKey {
    #[verifier::type_invariant]
    spec fn has_key_size(self) -> bool {
        self.bytes@.len() == PUBLIC_KEY_SIZE
    }

    /// The key made of the given bytes, if there are 33 of them.
    pub fn from_bytes(bytes: Vec<u8>) -> (key: Option<PublicKey>)
        ensures
            match key {
                Some(k) => bytes@.len() == PUBLIC_KEY_SIZE && k@ == bytes@,
                None => bytes@.len() != PUBLIC_KEY_SIZE,
            },
    {
        if bytes.len() == PUBLIC_KEY_SIZE {
            Some(PublicKey { bytes })
        } else {
            None
        }
    }

    /// The 33 bytes of the key.
    pub fn as_bytes(&self) -> (bytes: &[u8])
        ensures
            bytes@ == self@,
            bytes@.len() == PUBLIC_KEY_SIZE,
    {
        proof {
            use_type_invariant(self);
        }
        self.bytes.as_slice()
    }
}

impl Clone for PublicKey {
    fn clone(&self) -> (copy: PublicKey)
        ensures
            copy@ == self@,
    {
        proof {
            use_type_invariant(self);
        }
        PublicKey { bytes: copy_bytes(self.bytes.as_slice()) }
    }
}

/// The views of the keys, in order.
pub open spec fn keys_view(keys: Seq<PublicKey>) -> Seq<Seq<u8>> {
    Seq::new(keys.len(), |i: int| keys[i]@)
}

/// The order of a dictionary on byte strings, as a relation.
pub open spec fn lex_order() -> spec_fn(Seq<u8>, Seq<u8>) -> bool {
    |a: Seq<u8>, b: Seq<u8>| lex_le(a, b)
}

proof fn lemma_lex_le_reflexive(a: Seq<u8>)
    ensures
        lex_le(a, a),
    decreases a.len(),
{
    if a.len() > 0 {
        lemma_lex_le_reflexive(a.drop_first());
    }
}

proof fn lemma_lex_le_antisymmetric(a: Seq<u8>, b: Seq<u8>)
    requires
        lex_le(a, b),
        lex_le(b, a),
    ensures
        a == b,
    decreases a.len(),
{
    if a.len() == 0 {
        assert(b.len() == 0);
        assert(a =~= b);
    } else {
        assert(b.len() > 0);
        assert(a[0] == b[0]);
        let rest_a = a.drop_first();
        let rest_b = b.drop_first();
        assert(lex_le(rest_a, rest_b));
        assert(lex_le(rest_b, rest_a));
        lemma_lex_le_antisymmetric(rest_a, rest_b);
        assert(a.len() == b.len());
        assert forall|i: int| 0 <= i < a.len() implies a[i] == b[i] by {
            if i > 0 {
                assert(a[i] == rest_a[i - 1]);
                assert(b[i] == rest_b[i - 1]);
            }
        }
        assert(a =~= b);
    }
}

/// The order of a dictionary is a total order.
pub proof fn lemma_lex_order_is_total()
    ensures
        total_ordering(lex_order()),
{
    let r = lex_order();
    assert forall|a: Seq<u8>| #[trigger] r(a, a) by {
        lemma_lex_le_reflexive(a);
    }
    assert forall|a: Seq<u8>, b: Seq<u8>| #[trigger] r(a, b) && #[trigger] r(b, a) implies a
        == b by {
        lemma_lex_le_antisymmetric(a, b);
    }
    assert forall|a: Seq<u8>, b: Seq<u8>, c: Seq<u8>| #[trigger]
        r(a, b) && #[trigger] r(b, c) implies r(a, c) by {
        lemma_lex_le_transitive(a, b, c);
    }
    assert forall|a: Seq<u8>, b: Seq<u8>| #[trigger] r(a, b) || #[trigger] r(b, a) by {
        lemma_lex_le_total(a, b);
    }
}

/// The keys in the order of a dictionary.
pub open spec fn sorted_keys(keys: Seq<Seq<u8>>) -> Seq<Seq<u8>> {
    keys.sort_by(lex_order())
}

/// Sorting keeps every key, as often as it occurs, and puts the keys in order.
pub proof fn lemma_sorted_keys(keys: Seq<Seq<u8>>)
    ensures
        sorted_keys(keys).len() == keys.len(),
        sorted_keys(keys).to_multiset() == keys.to_multiset(),
        forall|i: int, j: int|
            0 <= i < j < keys.len() ==> lex_le(
                #[trigger] sorted_keys(keys)[i],
                #[trigger] sorted_keys(keys)[j],
            ),
{
    lemma_lex_order_is_total();
    keys.lemma_sort_by_ensures(lex_order());
    to_multiset_len(keys);
    to_multiset_len(sorted_keys(keys));
    assert forall|i: int, j: int| 0 <= i < j < keys.len() implies lex_le(
        #[trigger] sorted_keys(keys)[i],
        #[trigger] sorted_keys(keys)[j],
    ) by {
        assert(lex_order()(sorted_keys(keys)[i], sorted_keys(keys)[j]));
    }
}

/// Copies of the keys in the order of a dictionary.
pub fn sort_keys(keys: &Vec<PublicKey>) -> (sorted: Vec<PublicKey>)
    ensures
        keys_view(sorted@) == sorted_keys(keys_view(keys@)),
{
    let mut sorted: Vec<PublicKey> = Vec::new();
    let mut i: usize = 0;
    assert(keys_view(sorted@) =~= keys_view(keys@).take(0));
    while i < keys.len()
        invariant
            i <= keys@.len(),
            sorted_by(keys_view(sorted@), lex_order()),
            keys_view(sorted@).to_multiset() == keys_view(keys@).take(i as int).to_multiset(),
        decreases keys@.len() - i,
    {
        let key = &keys[i];
        let mut p: usize = 0;
        while p < sorted.len() && bytes_le(sorted[p].as_bytes(), key.as_bytes())
            invariant
                p <= sorted@.len(),
                forall|k: int| 0 <= k < p ==> lex_le(sorted@[k]@, key@),
            decreases sorted@.len() - p,
        {
            p = p + 1;
        }
        let ghost before = keys_view(sorted@);
        sorted.insert(p, key.clone());
        proof {
            let after = keys_view(sorted@);
            assert(after =~= before.insert(p as int, key@));
            to_multiset_insert(before, p as int, key@);
            assert(keys_view(keys@).take(i + 1) =~= keys_view(keys@).take(i as int).push(key@));
            to_multiset_build(keys_view(keys@).take(i as int), key@);
            assert forall|a: int, b: int| 0 <= a < b < after.len() implies #[trigger] lex_order()(
                after[a],
                after[b],
            ) by {
                if b < p {
                    assert(lex_order()(before[a], before[b]));
                } else if b == p {
                    assert(lex_le(sorted@[a]@, key@));
                } else if a == p {
                    lemma_lex_le_total(before[p as int], key@);
                    if b - 1 > p {
                        assert(lex_order()(before[p as int], before[b - 1]));
                        lemma_lex_le_transitive(key@, before[p as int], before[b - 1]);
                    }
                } else if a < p {
                    assert(lex_order()(before[a], before[b - 1]));
                } else {
                    assert(lex_order()(before[a - 1], before[b - 1]));
                }
            }
        }
        i = i + 1;
    }
    proof {
        let all = keys_view(keys@);
        assert(all.take(all.len() as int) =~= all);
        lemma_lex_order_is_total();
        all.lemma_sort_by_ensures(lex_order());
        lemma_sorted_unique(keys_view(sorted@), sorted_keys(all), lex_order());
    }
    sorted
}

/// The opcode that checks `m` of `n` signatures.
pub const OP_CHECKMULTISIG: u8 = 0xae;

/// The opcode before the first of the opcodes that push the numbers 1 to 16.
pub const OP_PUSHNUM_BASE: u8 = 0x50;

/// The opcode that pushes the number 0.
pub const OP_0: u8 = 0x00;

/// The largest number that has an opcode of its own.
pub const MAX_PUSHNUM: u64 = 16;

/// For each key in turn, the byte 33 and the key.
pub open spec fn key_pushes(keys: Seq<Seq<u8>>) -> Seq<u8>
    decreases keys.len(),
{
    if keys.len() == 0 {
        Seq::empty()
    } else {
        key_pushes(keys.drop_last()) + seq![PUBLIC_KEY_SIZE as u8] + keys.last()
    }
}

/// The bytes of a number as a script holds it as data: the least
/// significant byte first, as many bytes as the number needs, and a zero
/// byte more where the last byte would else be read as a sign.
pub open spec fn script_number(n: nat) -> Seq<u8>
    decreases n,
{
    if n < 0x80 {
        seq![n as u8]
    } else if n < 0x100 {
        seq![n as u8, 0u8]
    } else {
        seq![(n % 0x100) as u8] + script_number(n / 0x100)
    }
}

/// What pushes the number `n` in a script: the number's own opcode for the
/// numbers up to 16, else the bytes of the number behind their count.
pub open spec fn number_push(n: nat) -> Seq<u8> {
    if n == 0 {
        seq![OP_0]
    } else if n <= MAX_PUSHNUM {
        seq![(OP_PUSHNUM_BASE + n) as u8]
    } else {
        seq![script_number(n).len() as u8] + script_number(n)
    }
}

/// 256 to the power of `k`.
pub open spec fn power_of_256(k: nat) -> nat
    decreases k,
{
    if k == 0 {
        1
    } else {
        0x100 * power_of_256((k - 1) as nat)
    }
}

/// A number below the `k`-th power of 256 has at most `k + 1` bytes.
proof fn lemma_script_number_len(n: nat, k: nat)
    requires
        k >= 1,
        n < power_of_256(k),
    ensures
        1 <= script_number(n).len() <= k + 1,
    decreases n,
{
    if n >= 0x100 {
        assert(power_of_256(1) == 0x100) by {
            reveal_with_fuel(power_of_256, 2);
        }
        if k == 1 {
            assert(false);
        } else {
            lemma_script_number_len(n / 0x100, (k - 1) as nat);
        }
    }
}

/// Appends the bytes of `n` as a script holds them as data.
fn push_script_number(dst: &mut Vec<u8>, n: u64)
    ensures
        final(dst)@ == old(dst)@ + script_number(n as nat),
    decreases n,
{
    if n < 0x80 {
        dst.push(n as u8);
    } else if n < 0x100 {
        dst.push(n as u8);
        dst.push(0);
    } else {
        dst.push((n % 0x100) as u8);
        push_script_number(dst, n / 0x100);
    }
    assert(dst@ =~= old(dst)@ + script_number(n as nat));
}

/// Appends what pushes the number `n` in a script.
fn push_number(dst: &mut Vec<u8>, n: u64)
    ensures
        final(dst)@ == old(dst)@ + number_push(n as nat),
{
    if n == 0 {
        dst.push(OP_0);
    } else if n <= MAX_PUSHNUM {
        dst.push(OP_PUSHNUM_BASE + n as u8);
    } else {
        let mut digits: Vec<u8> = Vec::new();
        push_script_number(&mut digits, n);
        proof {
            assert(power_of_256(8) == 0x1_0000_0000_0000_0000) by {
                reveal_with_fuel(power_of_256, 9);
            }
            lemma_script_number_len(n as nat, 8);
            assert(digits@ =~= script_number(n as nat));
        }
        dst.push(digits.len() as u8);
        append_bytes(dst, digits.as_slice());
    }
    assert(dst@ =~= old(dst)@ + number_push(n as nat));
}

/// Whether a script can ask for `threshold` signatures of `count` keys:
/// at least one, and no more than there are keys.
pub open spec fn multisig_possible(threshold: u8, count: nat) -> bool {
    1 <= threshold <= count
}

/// The script that asks for `threshold` signatures of the given keys: what
/// pushes `threshold`, the keys in the order of a dictionary, each behind
/// its length, what pushes the number of keys, and `OP_CHECKMULTISIG`.
pub open spec fn multisig_script(threshold: u8, keys: Seq<Seq<u8>>) -> Seq<u8> {
    number_push(threshold as nat) + key_pushes(sorted_keys(keys)) + number_push(keys.len())
        + seq![OP_CHECKMULTISIG]
}

/// The script that a spender of the validators' common output has to
/// satisfy: `threshold` signatures out of the validators' keys.
#[derive(Debug, PartialEq, Eq)]
pub struct RedeemScript {
    bytes: Vec<u8>,
}

impl View for RedeemScript {
    type V = Seq<u8>;

    closed spec fn view(&self) -> Seq<u8> {
        self.bytes@
    }
}

impl RedeemScript {
    /// The script for `threshold` signatures out of `keys`, where such a
    /// script can be written.
    pub fn from_pubkeys(keys: &Vec<PublicKey>, threshold: u8) -> (script: Option<RedeemScript>)
        ensures
            match script {
                Some(s) => multisig_possible(threshold, keys@.len()) && s@ == multisig_script(
                    threshold,
                    keys_view(keys@),
                ),
                None => !multisig_possible(threshold, keys@.len()),
            },
    {
        if threshold < 1 || threshold as usize > keys.len() {
            return None;
        }
        let sorted = sort_keys(keys);
        proof {
            lemma_sorted_keys(keys_view(keys@));
        }
        let mut bytes: Vec<u8> = Vec::new();
        push_number(&mut bytes, threshold as u64);
        let ghost head = bytes@;
        let mut i: usize = 0;
        assert(keys_view(sorted@).take(0) =~= Seq::<Seq<u8>>::empty());
        assert(bytes@ =~= head + key_pushes(keys_view(sorted@).take(0)));
        while i < sorted.len()
            invariant
                i <= sorted@.len(),
                bytes@ == head + key_pushes(keys_view(sorted@).take(i as int)),
            decreases sorted@.len() - i,
        {
            bytes.push(PUBLIC_KEY_SIZE as u8);
            append_bytes(&mut bytes, sorted[i].as_bytes());
            proof {
                let next = keys_view(sorted@).take(i + 1);
                assert(next.drop_last() =~= keys_view(sorted@).take(i as int));
                assert(next.last() == sorted@[i as int]@);
                assert(bytes@ =~= head + key_pushes(next));
            }
            i = i + 1;
        }
        assert(keys_view(sorted@).take(sorted@.len() as int) =~= keys_view(sorted@));
        push_number(&mut bytes, keys.len() as u64);
        bytes.push(OP_CHECKMULTISIG);
        assert(bytes@ =~= multisig_script(threshold, keys_view(keys@)));
        Some(RedeemScript { bytes })
    }

    /// The script made of the given bytes.
    pub fn from_bytes(bytes: Vec<u8>) -> (script: RedeemScript)
        ensures
            script@ == bytes@,
    {
        RedeemScript { bytes }
    }

    /// The bytes of the script.
    pub fn as_bytes(&self) -> (bytes: &[u8])
        ensures
            bytes@ == self@,
    {
        self.bytes.as_slice()
    }
}

impl Clone for RedeemScript {
    fn clone(&self) -> (copy: RedeemScript)
        ensures
            copy@ == self@,
    {
        RedeemScript { bytes: copy_bytes(self.bytes.as_slice()) }
    }
}

/// The signature hash type that commits to all inputs and outputs.
pub const SIGHASH_ALL: u32 = 1;

/// The bytes of `bitcoin::sighash::SighashCache::legacy_signature_hash`
/// for input `input` of the transaction that `raw_tx` deserializes to,
/// under the script `script` and the hash type `sighash_type`; `None` where
/// `raw_tx` does not deserialize or the function reports an error.
pub uninterp spec fn legacy_sighash(
    raw_tx: Seq<u8>,
    input: u32,
    script: Seq<u8>,
    sighash_type: u32,
) -> Option<Seq<u8>>;

/// Whether `bitcoin::secp256k1::Secp256k1::verify_ecdsa` accepts the
/// DER-encoded `signature` for the 32-byte `digest` under the serialized
/// `public_key`; `false` also where one of the three does not parse.
pub uninterp spec fn ecdsa_accepts(digest: Seq<u8>, signature: Seq<u8>, public_key: Seq<u8>) -> bool;

/// Calls `bitcoin::sighash::SighashCache::legacy_signature_hash` on the
/// transaction that `raw_tx` deserializes to. The contract names the
/// result and claims that it has 32 bytes, the size of that hash type.
#[verifier::external_body]
fn compute_legacy_sighash(raw_tx: &[u8], input: u32, script: &[u8], sighash_type: u32) -> (digest:
    Option<Vec<u8>>)
    ensures
        match digest {
            Some(d) => legacy_sighash(raw_tx@, input, script@, sighash_type) == Some(d@)
                && d@.len() == 32,
            None => legacy_sighash(raw_tx@, input, script@, sighash_type).is_none(),
        },
{
    let tx: Transaction = deserialize(raw_tx).ok()?;
    let cache = SighashCache::new(&tx);
    let hash = cache.legacy_signature_hash(input as usize, Script::from_bytes(script), sighash_type);
    Some(bitcoin::hashes::Hash::to_byte_array(hash.ok()?).to_vec())
}

/// Calls `bitcoin::secp256k1::Secp256k1::verify_ecdsa` with what
/// `Message::from_digest_slice`, `Signature::from_der` and
/// `PublicKey::from_slice` read from the arguments. The contract names the
/// result and claims nothing more of it.
#[verifier::external_body]
fn ecdsa_verify(digest: &[u8], signature: &[u8], public_key: &[u8]) -> (accepted: bool)
    ensures
        accepted == ecdsa_accepts(digest@, signature@, public_key@),
{
    let message = Message::from_digest_slice(digest);
    let signature = Signature::from_der(signature);
    let key = bitcoin::secp256k1::PublicKey::from_slice(public_key);
    match (message, signature, key) {
        (Ok(m), Ok(s), Ok(k)) => Secp256k1::verification_only().verify_ecdsa(&m, &s, &k).is_ok(),
        _ => false,
    }
}

/// Whether `signature` is `key`'s signature of input `input` of `tx` over
/// the script `script`: the input exists, and the signature is accepted
/// for the hash that commits to all inputs and outputs.
pub open spec fn input_signature_valid(
    tx: TxView,
    script: Seq<u8>,
    input: u32,
    key: Seq<u8>,
    signature: Seq<u8>,
) -> bool {
    &&& input < tx.inputs.len()
    &&& match legacy_sighash(tx.raw, input, script, SIGHASH_ALL) {
        Some(digest) => ecdsa_accepts(digest, signature, key),
        None => false,
    }
}

impl BitcoinTx {
    /// Checks `signature` as `key`'s signature of input `input` over `script`.
    pub fn verify_input(
        &self,
        script: &RedeemScript,
        input: u32,
        key: &PublicKey,
        signature: &[u8],
    ) -> (valid: bool)
        ensures
            valid == input_signature_valid(self@, script@, input, key@, signature@),
    {
        if input as usize >= self.inputs.len() {
            return false;
        }
        match compute_legacy_sighash(self.raw.as_slice(), input, script.as_bytes(), SIGHASH_ALL) {
            Some(digest) => ecdsa_verify(digest.as_slice(), signature, key.as_bytes()),
            None => false,
        }
    }
}


/// The Bitcoin network that an address belongs to.
#[derive(Clone, Copy, Debug, PartialEq, Eq, Structural)]
pub enum Network {
    Bitcoin,
    Testnet,
}

/// The number of bytes of the hash in an address.
pub const SCRIPT_HASH_SIZE: usize = 20;

/// The version byte before the hash in a script address of the main network.
pub const SCRIPT_ADDRESS_PREFIX_MAIN: u8 = 5;

/// The version byte before the hash in a script address of the test network.
pub const SCRIPT_ADDRESS_PREFIX_TEST: u8 = 196;

/// The opcode that hashes the top of the stack with HASH160.
pub const OP_HASH160: u8 = 0xa9;

/// The opcode that compares the two topmost items.
pub const OP_EQUAL: u8 = 0x87;

/// The bytes of `bitcoin::hashes::hash160::Hash::hash` for `data`.
pub uninterp spec fn hash160(data: Seq<u8>) -> Seq<u8>;

/// The text of `bitcoin::base58::encode_check` for `data`.
pub uninterp spec fn base58check(data: Seq<u8>) -> Seq<char>;

/// Calls `bitcoin::hashes::hash160::Hash::hash`. The contract names the
/// result and claims that it has 20 bytes, the size of that hash type.
#[verifier::external_body]
fn compute_hash160(data: &[u8]) -> (digest: Vec<u8>)
    ensures
        digest@ == hash160(data@),
        digest@.len() == SCRIPT_HASH_SIZE,
{
    let digest: bitcoin::hashes::hash160::Hash = bitcoin::hashes::Hash::hash(data);
    bitcoin::hashes::Hash::to_byte_array(digest).to_vec()
}

/// Calls `bitcoin::base58::encode_check`. The contract names the result
/// and claims nothing more of it.
#[verifier::external_body]
fn encode_base58check(data: &[u8]) -> (text: String)
    ensures
        text@ == base58check(data@),
{
    bitcoin::base58::encode_check(data)
}

/// `Address` as a mathematical value.
pub struct AddressView {
    pub network: Network,
    pub script_hash: Seq<u8>,
}

/// The script that pays to the script with the given hash: `OP_HASH160`,
/// the hash behind its length, `OP_EQUAL`.
pub open spec fn pay_to_script_hash(script_hash: Seq<u8>) -> Seq<u8> {
    seq![OP_HASH160, SCRIPT_HASH_SIZE as u8] + script_hash + seq![OP_EQUAL]
}

/// The version byte of a script address in `network`.
pub open spec fn script_address_prefix(network: Network) -> u8 {
    match network {
        Network::Bitcoin => SCRIPT_ADDRESS_PREFIX_MAIN,
        Network::Testnet => SCRIPT_ADDRESS_PREFIX_TEST,
    }
}

/// The address of a script: the network and the hash of the script.
#[derive(Debug, PartialEq, Eq)]
pub struct Address {
    network: Network,
    script_hash: Vec<u8>,
}

impl View for Address {
    type V = AddressView;

    closed spec fn view(&self) -> AddressView {
        AddressView { network: self.network, script_hash: self.script_hash@ }
    }
}

impl Address {
    #[verifier::type_invariant]
    spec fn has_hash_size(self) -> bool {
        self.script_hash@.len() == SCRIPT_HASH_SIZE
    }

    /// The address of `script` in `network`.
    pub fn from_script(script: &RedeemScript, network: Network) -> (address: Address)
        ensures
            address@ == (AddressView { network, script_hash: hash160(script@) }),
    {
        Address { network, script_hash: compute_hash160(script.as_bytes()) }
    }

    /// The network of the address.
    pub fn network(&self) -> (network: Network)
        ensures
            network == self@.network,
    {
        self.network
    }

    /// The script of an output that pays to this address.
    pub fn script_pubkey(&self) -> (script: Vec<u8>)
        ensures
            script@ == pay_to_script_hash(self@.script_hash),
    {
        proof {
            use_type_invariant(self);
        }
        let mut script: Vec<u8> = Vec::new();
        script.push(OP_HASH160);
        script.push(SCRIPT_HASH_SIZE as u8);
        append_bytes(&mut script, self.script_hash.as_slice());
        script.push(OP_EQUAL);
        assert(script@ =~= pay_to_script_hash(self@.script_hash));
        script
    }

    /// The address as text: the version byte of the network and the hash,
    /// in Base58 with a checksum.
    pub fn to_base58check(&self) -> (text: String)
        ensures
            text@ == base58check(seq![script_address_prefix(self@.network)] + self@.script_hash),
    {
        let mut data: Vec<u8> = Vec::new();
        data.push(
            match self.network {
                Network::Bitcoin => SCRIPT_ADDRESS_PREFIX_MAIN,
                Network::Testnet => SCRIPT_ADDRESS_PREFIX_TEST,
            },
        );
        append_bytes(&mut data, self.script_hash.as_slice());
        assert(data@ =~= seq![script_address_prefix(self@.network)] + self@.script_hash);
        encode_base58check(data.as_slice())
    }
}

impl Clone for Address {
    fn clone(&self) -> (copy: Address)
        ensures
            copy@ == self@,
    {
        proof {
            use_type_invariant(self);
        }
        Address { network: self.network, script_hash: copy_bytes(self.script_hash.as_slice()) }
    }
}


impl BitcoinTx {
    /// Reads a transaction from the hexadecimal digits of its serialized
    /// bytes.
    pub fn from_hex(text: &str) -> (tx: Option<BitcoinTx>)
        ensures
            match tx {
                Some(t) => bytes_of_hex(text.spec_bytes()) is Some && tx_of_bytes(
                    bytes_of_hex(text.spec_bytes())->Some_0,
                ) == Some(t@),
                None => bytes_of_hex(text.spec_bytes()) is None || tx_of_bytes(
                    bytes_of_hex(text.spec_bytes())->Some_0,
                ) is None,
            },
    {
        match hex_decode(text.as_bytes()) {
            Some(raw) => BitcoinTx::from_bytes(raw),
            None => None,
        }
    }

    /// The serialized bytes in hexadecimal digits.
    pub fn to_hex(&self) -> (text: String)
        ensures
            text@ == ascii_text(hex_of(self@.raw)),
    {
        text_of(hex_encode(self.raw.as_slice()).as_slice())
    }
}

impl PublicKey {
    /// Reads a key from the hexadecimal digits of its 33 bytes.
    pub fn from_hex(text: &str) -> (key: Option<PublicKey>)
        ensures
            match key {
                Some(k) => bytes_of_hex(text.spec_bytes()) == Some(k@),
                None => bytes_of_hex(text.spec_bytes()) is None || bytes_of_hex(
                    text.spec_bytes(),
                )->Some_0.len() != PUBLIC_KEY_SIZE,
            },
    {
        match hex_decode(text.as_bytes()) {
            Some(bytes) => PublicKey::from_bytes(bytes),
            None => None,
        }
    }
}

/// The redeem script for `count` signatures out of `pub_keys`, with its
/// address in `network`, where such a script can be written.
pub fn create_multisig_address(network: Network, count: u8, pub_keys: &Vec<PublicKey>) -> (pair:
    Option<(RedeemScript, Address)>)
    ensures
        match pair {
            Some((script, address)) => {
                &&& multisig_possible(count, pub_keys@.len())
                &&& script@ == multisig_script(count, keys_view(pub_keys@))
                &&& address@ == (AddressView { network, script_hash: hash160(script@) })
            },
            None => !multisig_possible(count, pub_keys@.len()),
        },
{
    match RedeemScript::from_pubkeys(pub_keys, count) {
        Some(script) => {
            let address = Address::from_script(&script, network);
            Some((script, address))
        },
        None => None,
    }
}

/// A Bitcoin private key as a mathematical value.
pub struct PrivateKeyView {
    pub secret: Seq<u8>,
    pub compressed: bool,
    pub network: Network,
}

/// A Bitcoin private key: the secret bytes, whether the public key that
/// belongs to it is written in compressed form, and the network.
#[derive(Debug, PartialEq, Eq)]
pub struct PrivateKey {
    pub secret: Vec<u8>,
    pub compressed: bool,
    pub network: Network,
}

impl View for PrivateKey {
    type V = PrivateKeyView;

    open spec fn view(&self) -> PrivateKeyView {
        PrivateKeyView {
            secret: self.secret@,
            compressed: self.compressed,
            network: self.network,
        }
    }
}

/// The key that `bitcoin::PrivateKey::from_wif` reads from `text`; `None`
/// where it reports an error.
pub uninterp spec fn wif_decoded(text: Seq<char>) -> Option<PrivateKeyView>;

/// Calls `bitcoin::PrivateKey::from_wif` and hands out the secret bytes,
/// the compression flag and the network kind of the key. The contract
/// names the result and claims nothing more of it.
#[verifier::external_body]
fn decode_wif(text: &str) -> (key: Option<PrivateKey>)
    ensures
        match key {
            Some(k) => wif_decoded(text@) == Some(k@),
            None => wif_decoded(text@).is_none(),
        },
{
    let key = bitcoin::PrivateKey::from_wif(text).ok()?;
    let network = match key.network {
        bitcoin::NetworkKind::Main => Network::Bitcoin,
        bitcoin::NetworkKind::Test => Network::Testnet,
    };
    Some(PrivateKey { secret: key.inner.secret_bytes().to_vec(), compressed: key.compressed, network })
}

impl PrivateKey {
    /// Reads a key from its text in Base58 with a checksum.
    pub fn from_base58check(text: &str) -> (key: Option<PrivateKey>)
        ensures
            match key {
                Some(k) => wif_decoded(text@) == Some(k@),
                None => wif_decoded(text@).is_none(),
            },
    {
        decode_wif(text)
    }
}


} // verus!
