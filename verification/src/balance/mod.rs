//! The balance part of a statement.

use vstd::prelude::*;

verus! {

/// A balance, the moment at which it was read, and the client's limit.
#[derive(Debug)]
pub struct BalanceDTO {
    pub total: i32,
    pub date: String,
    pub limit: i32,
}

impl Clone for BalanceDTO {
    fn clone(&self) -> (copy: BalanceDTO)
        ensures
            copy == *self,
    {
        BalanceDTO { total: self.total, date: self.date.clone(), limit: self.limit }
    }
}

} // verus!
