//! What is computed around the calls to a Bitcoin node: the text of an
//! amount, the choice among the transactions that the node lists, and the
//! reading of the node's answer to a submission.

use crate::bytes::{bytes_contain, occurs_in};
use crate::coordinator::Submission;
use crate::text::{all_ascii, ascii_text, text_of};
use vstd::prelude::*;
use vstd::string::*;
use vstd::utf8::encode_utf8;

verus! {

/// The number of satoshis in one bitcoin.
pub const SATOSHI_DIVISOR: u64 = 100_000_000;

/// The number of digits after the point in the text of an amount.
pub const AMOUNT_DECIMALS: usize = 8;

/// The code of the digit `0`.
pub const DIGIT_ZERO: u8 = 0x30;

/// The code of the point.
pub const POINT: u8 = 0x2e;

/// The decimal digits of `n`, without leading zeros.
pub open spec fn decimal_digits(n: nat) -> Seq<u8>
    decreases n,
{
    if n < 10 {
        seq![(DIGIT_ZERO + n) as u8]
    } else {
        decimal_digits(n / 10).push((DIGIT_ZERO + n % 10) as u8)
    }
}

/// The last `width` decimal digits of `n`, with leading zeros.
pub open spec fn fixed_digits(n: nat, width: nat) -> Seq<u8>
    decreases width,
{
    if width == 0 {
        Seq::empty()
    } else {
        fixed_digits(n / 10, (width - 1) as nat).push((DIGIT_ZERO + n % 10) as u8)
    }
}

/// The number that decimal digits spell.
pub open spec fn digits_value(digits: Seq<u8>) -> int
    decreases digits.len(),
{
    if digits.len() == 0 {
        0
    } else {
        digits_value(digits.drop_last()) * 10 + (digits.last() - DIGIT_ZERO)
    }
}

/// An amount of satoshis as the text of an amount of bitcoins: the whole
/// bitcoins, a point, and the remaining satoshis in eight digits.
pub open spec fn amount_text(funds: u64) -> Seq<u8> {
    decimal_digits((funds / SATOSHI_DIVISOR) as nat) + seq![POINT] + fixed_digits(
        (funds % SATOSHI_DIVISOR) as nat,
        AMOUNT_DECIMALS as nat,
    )
}

/// The amount of satoshis that the text of an amount of bitcoins with
/// eight digits after the point stands for.
pub open spec fn text_amount(text: Seq<u8>) -> int {
    digits_value(text.subrange(0, text.len() - AMOUNT_DECIMALS - 1)) * SATOSHI_DIVISOR
        + digits_value(text.subrange(text.len() - AMOUNT_DECIMALS, text.len() as int))
}

proof fn lemma_decimal_digits(n: nat)
    ensures
        decimal_digits(n).len() >= 1,
        all_ascii(decimal_digits(n)),
        digits_value(decimal_digits(n)) == n,
    decreases n,
{
    if n < 10 {
        let digits = decimal_digits(n);
        assert(digits.drop_last() =~= Seq::<u8>::empty());
        assert(digits_value(digits.drop_last()) == 0);
    } else {
        lemma_decimal_digits(n / 10);
        let digits = decimal_digits(n);
        assert(digits.drop_last() =~= decimal_digits(n / 10));
    }
}

/// Ten to the power of `width`.
pub open spec fn power_of_ten(width: nat) -> nat
    decreases width,
{
    if width == 0 {
        1
    } else {
        10 * power_of_ten((width - 1) as nat)
    }
}

proof fn lemma_fixed_digits(n: nat, width: nat)
    ensures
        fixed_digits(n, width).len() == width,
        all_ascii(fixed_digits(n, width)),
        n < power_of_ten(width) ==> digits_value(fixed_digits(n, width)) == n,
    decreases width,
{
    if width > 0 {
        lemma_fixed_digits(n / 10, (width - 1) as nat);
        let digits = fixed_digits(n, width);
        assert(digits.drop_last() =~= fixed_digits(n / 10, (width - 1) as nat));
    }
}

/// The text of an amount stands for that amount: no two amounts have the
/// same text.
pub proof fn lemma_amount_text_round_trip(funds: u64)
    ensures
        all_ascii(amount_text(funds)),
        text_amount(amount_text(funds)) == funds,
{
    let whole = (funds / SATOSHI_DIVISOR) as nat;
    let rest = (funds % SATOSHI_DIVISOR) as nat;
    lemma_decimal_digits(whole);
    lemma_fixed_digits(rest, AMOUNT_DECIMALS as nat);
    assert(power_of_ten(AMOUNT_DECIMALS as nat) == SATOSHI_DIVISOR) by {
        reveal_with_fuel(power_of_ten, 9);
    }
    let text = amount_text(funds);
    assert(text.subrange(0, text.len() - AMOUNT_DECIMALS - 1) =~= decimal_digits(whole));
    assert(text.subrange(text.len() - AMOUNT_DECIMALS, text.len() as int) =~= fixed_digits(
        rest,
        AMOUNT_DECIMALS as nat,
    ));
}

/// Appends the decimal digits of `n`.
fn push_decimal(dst: &mut Vec<u8>, n: u64)
    ensures
        final(dst)@ == old(dst)@ + decimal_digits(n as nat),
    decreases n,
{
    if n >= 10 {
        push_decimal(dst, n / 10);
    }
    dst.push(DIGIT_ZERO + (n % 10) as u8);
    assert(dst@ =~= old(dst)@ + decimal_digits(n as nat));
}

/// Appends the last `width` decimal digits of `n`.
fn push_fixed(dst: &mut Vec<u8>, n: u64, width: usize)
    ensures
        final(dst)@ == old(dst)@ + fixed_digits(n as nat, width as nat),
    decreases width,
{
    if width > 0 {
        push_fixed(dst, n / 10, width - 1);
        dst.push(DIGIT_ZERO + (n % 10) as u8);
    }
    assert(dst@ =~= old(dst)@ + fixed_digits(n as nat, width as nat));
}

/// Writes an amount of satoshis as the text of an amount of bitcoins.
pub fn satoshis_to_btc_text(funds: u64) -> (text: String)
    ensures
        text@ == ascii_text(amount_text(funds)),
{
    let mut digits: Vec<u8> = Vec::new();
    push_decimal(&mut digits, funds / SATOSHI_DIVISOR);
    digits.push(POINT);
    push_fixed(&mut digits, funds % SATOSHI_DIVISOR, AMOUNT_DECIMALS);
    assert(digits@ =~= amount_text(funds));
    text_of(digits.as_slice())
}

/// What a Bitcoin node tells of one transaction of its wallet.
#[derive(Debug, PartialEq, Eq)]
pub struct TransactionInfo {
    pub address: Option<String>,
    pub vout: u32,
    pub confirmations: u64,
    pub txid: String,
    pub abandoned: Option<bool>,
    pub time: u64,
}

/// Whether the node names `addr` as the address of the transaction.
pub open spec fn concerns_address(info: TransactionInfo, addr: Seq<char>) -> bool {
    info.address is Some && info.address->Some_0@ == addr
}

/// Of the transactions that the node lists, those of the address `addr`,
/// the last listed first.
pub fn last_anchoring_transactions(infos: Vec<TransactionInfo>, addr: &str) -> (kept: Vec<
    TransactionInfo,
>)
    ensures
        kept@ == infos@.reverse().filter(|info: TransactionInfo| concerns_address(info, addr@)),
{
    let ghost all = infos@.reverse();
    let ghost wanted = |info: TransactionInfo| concerns_address(info, addr@);
    let wanted_address: String = addr.to_owned();
    let mut rest = infos;
    let mut kept: Vec<TransactionInfo> = Vec::new();
    proof {
        reveal(Seq::filter);
        assert(all.take(0) =~= Seq::<TransactionInfo>::empty());
        assert(kept@ =~= all.take(0).filter(wanted));
    }
    while rest.len() > 0
        invariant
            rest@.len() <= all.len(),
            all == infos@.reverse(),
            all.len() == infos@.len(),
            rest@ == infos@.take(rest@.len() as int),
            wanted_address@ == addr@,
            wanted == |info: TransactionInfo| concerns_address(info, addr@),
            kept@ == all.take(all.len() - rest@.len()).filter(wanted),
        decreases rest@.len(),
    {
        let ghost done = all.len() - rest@.len();
        let ghost before = rest@;
        let info = rest.pop().unwrap();
        proof {
            reveal(Seq::filter);
            assert(info == all[done]);
            assert(all.take(done + 1).drop_last() =~= all.take(done));
            assert(all.take(done + 1).last() == info);
            assert(rest@ =~= infos@.take(rest@.len() as int));
        }
        let matches = match &info.address {
            Some(address) => *address == wanted_address,
            None => false,
        };
        if matches {
            kept.push(info);
        }
    }
    assert(all.take(all.len() as int) =~= all);
    kept
}

/// Why a Bitcoin node refused a request, as far as the rules read it: the
/// kind of the error and, where the node gave some, its words.
#[derive(Debug, PartialEq, Eq)]
pub enum NodeError {
    /// The node knows nothing of what was asked for.
    NoInformation(String),
    /// The node's pool of unconfirmed transactions is at fault.
    Memory(String),
    /// The node found the transaction incorrect.
    TransactionIncorrect(String),
    /// The node rejected the transaction.
    TransactionRejected(String),
    /// The wallet holds too little.
    InsufficientFunds,
    /// The transaction is in the Bitcoin chain already.
    TransactionAlreadyInChain,
    /// The node answered with another error.
    Rpc,
    /// The node could not be reached.
    Other,
}

/// Whether `needle` stands somewhere in `words`.
pub open spec fn mentions(words: Seq<char>, needle: &str) -> bool {
    occurs_in(needle.spec_bytes(), encode_utf8(words))
}

/// What the node's answer to the submission of a transaction means.
///
/// No error means that the node took the transaction. The error that the
/// transaction is in the chain already means that. A rejection whose
/// words hold `already-in-mempool` means that the node holds the
/// transaction already. A finding of incorrectness whose words hold
/// `Missing inputs` or `inputs-missing` means that inputs are missing.
/// Every other error is a fault.
pub open spec fn submission_answer(answer: Result<(), NodeError>) -> Submission {
    match answer {
        Ok(_) => Submission::Accepted,
        Err(NodeError::TransactionAlreadyInChain) => Submission::AlreadyInChain,
        Err(NodeError::TransactionRejected(words)) => if mentions(words@, "already-in-mempool") {
            Submission::AlreadyInMempool
        } else {
            Submission::Fault
        },
        Err(NodeError::TransactionIncorrect(words)) => if mentions(words@, "Missing inputs")
            || mentions(words@, "inputs-missing") {
            Submission::InputsMissing
        } else {
            Submission::Fault
        },
        Err(_) => Submission::Fault,
    }
}

/// Whether `needle` stands somewhere in `words`.
fn words_mention(words: &String, needle: &str) -> (found: bool)
    ensures
        found == mentions(words@, needle),
{
    bytes_contain(words.as_str().as_bytes(), needle.as_bytes())
}

/// Reads the node's answer to the submission of a transaction.
pub fn submission_of(answer: &Result<(), NodeError>) -> (submission: Submission)
    ensures
        submission == submission_answer(*answer),
{
    match answer {
        Ok(_) => Submission::Accepted,
        Err(NodeError::TransactionAlreadyInChain) => Submission::AlreadyInChain,
        Err(NodeError::TransactionRejected(words)) => {
            if words_mention(words, "already-in-mempool") {
                Submission::AlreadyInMempool
            } else {
                Submission::Fault
            }
        },
        Err(NodeError::TransactionIncorrect(words)) => {
            if words_mention(words, "Missing inputs") || words_mention(words, "inputs-missing") {
                Submission::InputsMissing
            } else {
                Submission::Fault
            }
        },
        Err(_) => Submission::Fault,
    }
}

} // verus!
