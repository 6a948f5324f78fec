use crate::currency::Currency;
use vstd::prelude::*;

verus! {

/// A bank account, savings bucket or pile of cash, with its currency and balance.
/// The balance is an `f32`, held here as its IEEE-754 bit pattern (`f32::to_bits`).
#[derive(Clone, Debug)]
pub struct MoneyPool {
    pub id: String,
    pub display_name: String,
    pub currency: Currency,
    pub balance_bits: u32,
}

impl MoneyPool {
    pub fn new(id: String, display_name: String, currency: Currency, balance_bits: u32) -> (r:
        MoneyPool)
        ensures
            r == (MoneyPool { id, display_name, currency, balance_bits }),
    {
        MoneyPool { id, display_name, currency, balance_bits }
    }

    /// A copy of the pool.
    pub fn duplicate(&self) -> (r: MoneyPool)
        ensures
            r == *self,
    {
        MoneyPool {
            id: self.id.clone(),
            display_name: self.display_name.clone(),
            currency: self.currency.duplicate(),
            balance_bits: self.balance_bits,
        }
    }
}

} // verus!
