//! Events on the orders of option contracts.
use crate::options::contract::OptionContractKey;
use crate::protocol::Side;
use vstd::prelude::*;

verus! {

#[derive(Debug, Clone, Copy, PartialEq, Eq, Structural)]
pub enum OptionOrderAction {
    Add { order_ref: u64, side: Side, price: u64, shares: u32 },
    Cancel { order_ref: u64, shares: u32 },
    Delete { order_ref: u64 },
}

#[derive(Debug, Clone, Copy, PartialEq, Eq, Structural)]
pub struct OptionOrderEvent {
    pub contract_key: OptionContractKey,
    pub action: OptionOrderAction,
    pub timestamp: u64,
}

impl OptionOrderEvent {
    pub fn add(
        contract: OptionContractKey,
        order_ref: u64,
        side: Side,
        price: u64,
        shares: u32,
        timestamp: u64,
    ) -> (e: Self)
        ensures
            e == (OptionOrderEvent {
                contract_key: contract,
                action: OptionOrderAction::Add { order_ref, side, price, shares },
                timestamp,
            }),
    {
        OptionOrderEvent {
            contract_key: contract,
            action: OptionOrderAction::Add { order_ref, side, price, shares },
            timestamp,
        }
    }

    pub fn cancel(contract: OptionContractKey, order_ref: u64, shares: u32, timestamp: u64) -> (e:
        Self)
        ensures
            e == (OptionOrderEvent {
                contract_key: contract,
                action: OptionOrderAction::Cancel { order_ref, shares },
                timestamp,
            }),
    {
        OptionOrderEvent {
            contract_key: contract,
            action: OptionOrderAction::Cancel { order_ref, shares },
            timestamp,
        }
    }

    pub fn delete(contract: OptionContractKey, order_ref: u64, timestamp: u64) -> (e: Self)
        ensures
            e == (OptionOrderEvent {
                contract_key: contract,
                action: OptionOrderAction::Delete { order_ref },
                timestamp,
            }),
    {
        OptionOrderEvent {
            contract_key: contract,
            action: OptionOrderAction::Delete { order_ref },
            timestamp,
        }
    }
}

} // verus!
