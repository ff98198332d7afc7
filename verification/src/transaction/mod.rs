//! Transactions as they arrive, as they are kept in a client's log, and as
//! they are stored.

pub mod deser;

use vstd::prelude::*;

verus! {

/// Credit (`C`) adds to a balance, debit (`D`) takes from it.
#[derive(Debug, Clone, Copy, PartialEq, Eq, Structural)]
pub enum Kind {
    C,
    D,
}

/// One entry of a client's transaction log.
#[derive(Debug)]
pub struct TransactionDTO {
    pub value: i32,
    pub kind: Kind,
    pub description: String,
    pub date: String,
}

/// What a `TransactionDTO` holds, as mathematical values.
pub struct TransactionView {
    pub value: int,
    pub kind: Kind,
    pub description: Seq<char>,
    pub date: Seq<char>,
}

impl View for TransactionDTO {
    type V = TransactionView;

    open spec fn view(&self) -> TransactionView {
        TransactionView {
            value: self.value as int,
            kind: self.kind,
            description: self.description@,
            date: self.date@,
        }
    }
}

/// A transaction together with the client it belongs to, as it is stored.
#[derive(Debug)]
pub struct Transaction {
    pub client: i32,
    pub value: i32,
    pub kind: Kind,
    pub description: String,
    pub date: String,
}

/// The answer to an accepted transaction.
#[derive(Debug, Clone, Copy, PartialEq, Eq, Structural)]
pub struct TransactionResponse {
    pub balance: i32,
    pub limit: i32,
}

impl Clone for TransactionDTO {
    fn clone(&self) -> (copy: TransactionDTO)
        ensures
            copy == *self,
    {
        TransactionDTO {
            value: self.value,
            kind: self.kind,
            description: self.description.clone(),
            date: self.date.clone(),
        }
    }
}

impl Clone for Transaction {
    fn clone(&self) -> (copy: Transaction)
        ensures
            copy == *self,
    {
        Transaction {
            client: self.client,
            value: self.value,
            kind: self.kind,
            description: self.description.clone(),
            date: self.date.clone(),
        }
    }
}

impl Transaction {
    /// The stored form of `transaction_dto` for the client `client`.
    pub fn new(client: i32, transaction_dto: TransactionDTO) -> (transaction: Transaction)
        ensures
            transaction.client == client,
            transaction.value == transaction_dto.value,
            transaction.kind == transaction_dto.kind,
            transaction.description == transaction_dto.description,
            transaction.date == transaction_dto.date,
    {
        Transaction {
            client,
            value: transaction_dto.value,
            kind: transaction_dto.kind,
            description: transaction_dto.description,
            date: transaction_dto.date,
        }
    }
}

impl From<Transaction> for TransactionDTO {
    fn from(transaction: Transaction) -> (dto: TransactionDTO) {
        TransactionDTO {
            value: transaction.value,
            kind: transaction.kind,
            description: transaction.description,
            date: transaction.date,
        }
    }
}

impl vstd::std_specs::convert::FromSpecImpl<Transaction> for TransactionDTO {
    open spec fn obeys_from_spec() -> bool {
        true
    }

    open spec fn from_spec(transaction: Transaction) -> TransactionDTO {
        TransactionDTO {
            value: transaction.value,
            kind: transaction.kind,
            description: transaction.description,
            date: transaction.date,
        }
    }
}

} // verus!
