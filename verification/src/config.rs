//! The settings of a coordinator, checked once when they are put together and
//! read-only from then on.

use vstd::prelude::*;

verus! {

/// Why a set of settings was refused.
#[derive(Clone, Copy, Debug, PartialEq, Eq, Structural)]
pub enum ConfigError {
    /// No endpoint was given for the base chain.
    MissingBaseChainUrl,
    /// No endpoint was given for the secondary chain.
    MissingSecondaryChainUrl,
    /// No wallet address was given.
    MissingWalletAddress,
    /// The pool would have no slot.
    NoMiners,
}

/// The settings of a coordinator.
#[derive(Debug)]
pub struct MiningConfiguration {
    base_chain_rpc_url: String,
    secondary_chain_rpc_url: String,
    wallet_address: String,
    max_concurrent_miners: usize,
    commitment_threshold: u64,
    cycle_interval_secs: u64,
}

/// Model of a [`MiningConfiguration`].
pub struct ConfigModel {
    pub base_chain_rpc_url: Seq<char>,
    pub secondary_chain_rpc_url: Seq<char>,
    pub wallet_address: Seq<char>,
    pub max_concurrent_miners: nat,
    pub commitment_threshold: nat,
    pub cycle_interval_secs: nat,
}

/// The first fault of a set of settings, in the order in which the settings
/// are listed, if it has one.
pub open spec fn config_fault(settings: ConfigModel) -> Option<ConfigError> {
    if settings.base_chain_rpc_url.len() == 0 {
        Some(ConfigError::MissingBaseChainUrl)
    } else if settings.secondary_chain_rpc_url.len() == 0 {
        Some(ConfigError::MissingSecondaryChainUrl)
    } else if settings.wallet_address.len() == 0 {
        Some(ConfigError::MissingWalletAddress)
    } else if settings.max_concurrent_miners == 0 {
        Some(ConfigError::NoMiners)
    } else {
        None
    }
}

impl View for MiningConfiguration {
    type V = ConfigModel;

    closed spec fn view(&self) -> ConfigModel {
        ConfigModel {
            base_chain_rpc_url: self.base_chain_rpc_url@,
            secondary_chain_rpc_url: self.secondary_chain_rpc_url@,
            wallet_address: self.wallet_address@,
            max_concurrent_miners: self.max_concurrent_miners as nat,
            commitment_threshold: self.commitment_threshold as nat,
            cycle_interval_secs: self.cycle_interval_secs as nat,
        }
    }
}

impl MiningConfiguration {
    /// Puts the settings together. Both endpoints and the wallet address must
    /// be given and the pool must have at least one slot; otherwise the first
    /// fault is returned.
    pub fn new(
        base_chain_rpc_url: String,
        secondary_chain_rpc_url: String,
        wallet_address: String,
        max_concurrent_miners: usize,
        commitment_threshold: u64,
        cycle_interval_secs: u64,
    ) -> (result: Result<MiningConfiguration, ConfigError>)
        ensures
            match result {
                Ok(config) => {
                    &&& config_fault(config@) is None
                    &&& config@ == (ConfigModel {
                        base_chain_rpc_url: base_chain_rpc_url@,
                        secondary_chain_rpc_url: secondary_chain_rpc_url@,
                        wallet_address: wallet_address@,
                        max_concurrent_miners: max_concurrent_miners as nat,
                        commitment_threshold: commitment_threshold as nat,
                        cycle_interval_secs: cycle_interval_secs as nat,
                    })
                },
                Err(fault) => config_fault(
                    ConfigModel {
                        base_chain_rpc_url: base_chain_rpc_url@,
                        secondary_chain_rpc_url: secondary_chain_rpc_url@,
                        wallet_address: wallet_address@,
                        max_concurrent_miners: max_concurrent_miners as nat,
                        commitment_threshold: commitment_threshold as nat,
                        cycle_interval_secs: cycle_interval_secs as nat,
                    },
                ) == Some(fault),
            },
    {
        if base_chain_rpc_url.as_str().is_empty() {
            return Err(ConfigError::MissingBaseChainUrl);
        }
        if secondary_chain_rpc_url.as_str().is_empty() {
            return Err(ConfigError::MissingSecondaryChainUrl);
        }
        if wallet_address.as_str().is_empty() {
            return Err(ConfigError::MissingWalletAddress);
        }
        if max_concurrent_miners == 0 {
            return Err(ConfigError::NoMiners);
        }
        Ok(
            MiningConfiguration {
                base_chain_rpc_url,
                secondary_chain_rpc_url,
                wallet_address,
                max_concurrent_miners,
                commitment_threshold,
                cycle_interval_secs,
            },
        )
    }

    /// Endpoint of the base chain.
    pub fn base_chain_rpc_url(&self) -> (url: &str)
        ensures
            url@ == self@.base_chain_rpc_url,
    {
        self.base_chain_rpc_url.as_str()
    }

    /// Endpoint of the secondary chain.
    pub fn secondary_chain_rpc_url(&self) -> (url: &str)
        ensures
            url@ == self@.secondary_chain_rpc_url,
    {
        self.secondary_chain_rpc_url.as_str()
    }

    /// Address that commitments are prepared for.
    pub fn wallet_address(&self) -> (address: &str)
        ensures
            address@ == self@.wallet_address,
    {
        self.wallet_address.as_str()
    }

    /// Number of slots in the miner pool.
    pub fn max_concurrent_miners(&self) -> (n: usize)
        ensures
            n == self@.max_concurrent_miners,
    {
        self.max_concurrent_miners
    }

    /// Least committed value that is accepted, in minor units.
    pub fn commitment_threshold(&self) -> (threshold: u64)
        ensures
            threshold == self@.commitment_threshold,
    {
        self.commitment_threshold
    }

    /// Seconds between the end of one round and the start of the next.
    pub fn cycle_interval_secs(&self) -> (secs: u64)
        ensures
            secs == self@.cycle_interval_secs,
    {
        self.cycle_interval_secs
    }
}

} // verus!
