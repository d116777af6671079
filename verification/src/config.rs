//! The configuration that the validators anchor under.

use crate::btc::{
    create_multisig_address, hash160, keys_view, multisig_possible, multisig_script, Address,
    AddressView, Network, PublicKey, RedeemScript, TxView,
};
use crate::transactions::FundingTx;
use vstd::prelude::*;

verus! {

/// The configuration of the anchoring: who the validators are, how many of
/// them have to sign, and what they anchor with.
#[derive(Debug, PartialEq, Eq)]
pub struct AnchoringConfig {
    /// The validators' Bitcoin keys, by validator index.
    pub validators: Vec<PublicKey>,
    /// The number of signatures that spends the common output.
    pub threshold: u8,
    /// The Bitcoin network that is anchored in.
    pub network: Network,
    /// The transaction that first brought funds to the common address.
    pub funding_tx: FundingTx,
    /// The number of blocks of the anchored chain between two anchorings.
    pub interval: u64,
    /// The fee of an anchoring transaction, in satoshis.
    pub fee: u64,
}

/// `AnchoringConfig` as a mathematical value.
pub struct ConfigView {
    pub validators: Seq<Seq<u8>>,
    pub threshold: u8,
    pub network: Network,
    pub funding_tx: TxView,
    pub interval: u64,
    pub fee: u64,
}

impl View for AnchoringConfig {
    type V = ConfigView;

    open spec fn view(&self) -> ConfigView {
        ConfigView {
            validators: keys_view(self.validators@),
            threshold: self.threshold,
            network: self.network,
            funding_tx: self.funding_tx@,
            interval: self.interval,
            fee: self.fee,
        }
    }
}

/// Whether the threshold of a configuration is at least one and at most the
/// number of its validators.
pub open spec fn threshold_in_range(config: ConfigView) -> bool {
    1 <= config.threshold <= config.validators.len()
}

/// The redeem script of a configuration, where one can be written.
pub open spec fn redeem_script_of(config: ConfigView) -> Option<Seq<u8>> {
    if multisig_possible(config.threshold, config.validators.len()) {
        Some(multisig_script(config.threshold, config.validators))
    } else {
        None
    }
}

/// The common address of a configuration's validators, where its redeem
/// script can be written.
pub open spec fn address_of(config: ConfigView) -> Option<AddressView> {
    match redeem_script_of(config) {
        Some(script) => Some(
            AddressView { network: config.network, script_hash: hash160(script) },
        ),
        None => None,
    }
}

impl AnchoringConfig {
    /// Whether the threshold is at least one and at most the number of
    /// validators.
    pub fn has_threshold_in_range(&self) -> (in_range: bool)
        ensures
            in_range == threshold_in_range(self@),
    {
        1 <= self.threshold && self.threshold as usize <= self.validators.len()
    }

    /// The redeem script of the validators and the address that belongs to it.
    pub fn redeem_script(&self) -> (pair: Option<(RedeemScript, Address)>)
        ensures
            match pair {
                Some((script, address)) => redeem_script_of(self@) == Some(script@) && address_of(
                    self@,
                ) == Some(address@),
                None => redeem_script_of(self@).is_none(),
            },
    {
        create_multisig_address(self.network, self.threshold, &self.validators)
    }
}

impl Clone for AnchoringConfig {
    fn clone(&self) -> (copy: AnchoringConfig)
        ensures
            copy@ == self@,
    {
        let mut validators: Vec<PublicKey> = Vec::new();
        let mut i: usize = 0;
        while i < self.validators.len()
            invariant
                i <= self.validators@.len(),
                validators@.len() == i,
                forall|k: int| 0 <= k < i ==> validators@[k]@ == self.validators@[k]@,
            decreases self.validators@.len() - i,
        {
            validators.push(self.validators[i].clone());
            i = i + 1;
        }
        assert(keys_view(validators@) =~= keys_view(self.validators@));
        AnchoringConfig {
            validators,
            threshold: self.threshold,
            network: self.network,
            funding_tx: self.funding_tx.clone(),
            interval: self.interval,
            fee: self.fee,
        }
    }
}

/// The configuration that is scheduled to follow the current one, with the
/// height of the anchored chain from which it is in force.
#[derive(Debug, PartialEq, Eq)]
pub struct FollowingConfig {
    pub actual_from: u64,
    pub config: AnchoringConfig,
}

/// `FollowingConfig` as a mathematical value.
pub struct FollowingView {
    pub actual_from: u64,
    pub config: ConfigView,
}

impl View for FollowingConfig {
    type V = FollowingView;

    open spec fn view(&self) -> FollowingView {
        FollowingView { actual_from: self.actual_from, config: self.config@ }
    }
}

impl Clone for FollowingConfig {
    fn clone(&self) -> (copy: FollowingConfig)
        ensures
            copy@ == self@,
    {
        FollowingConfig { actual_from: self.actual_from, config: self.config.clone() }
    }
}

} // verus!
