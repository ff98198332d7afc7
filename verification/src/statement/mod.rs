//! A client's statement: the balance and the latest transactions.

use crate::balance::BalanceDTO;
use crate::client::Client;
use crate::transaction::TransactionDTO;
use chrono::{SecondsFormat, Utc};
use vstd::prelude::*;

verus! {

/// What a client is shown of its account.
#[derive(Debug)]
pub struct StatementDTO {
    pub balance: BalanceDTO,
    pub latest_transactions: Vec<TransactionDTO>,
}

impl Clone for StatementDTO {
    fn clone(&self) -> (copy: StatementDTO)
        ensures
            copy.balance == self.balance,
            copy.latest_transactions@ == self.latest_transactions@,
    {
        let mut latest_transactions: Vec<TransactionDTO> = Vec::new();
        let total: usize = self.latest_transactions.len();
        let mut i: usize = 0;
        while i < total
            invariant
                i <= total,
                total == self.latest_transactions@.len(),
                latest_transactions@ == self.latest_transactions@.take(i as int),
            decreases total - i,
        {
            latest_transactions.push(self.latest_transactions[i].clone());
            i = i + 1;
            proof {
                assert(latest_transactions@ =~= self.latest_transactions@.take(i as int));
            }
        }
        proof {
            assert(self.latest_transactions@.take(total as int) =~= self.latest_transactions@);
        }
        StatementDTO { balance: self.balance.clone(), latest_transactions }
    }
}

/// Whether `c` is a decimal digit.
pub open spec fn is_digit(c: char) -> bool {
    '0' <= c <= '9'
}

/// Whether `text` has the shape in which a moment in UTC is written with
/// microseconds: the year, and behind it `-MM-DDTHH:MM:SS.ffffffZ`. The year
/// has four digits, or a plus sign and more digits than four.
pub open spec fn is_utc_moment(text: Seq<char>) -> bool {
    let n = text.len() as int;
    &&& n >= 27
    &&& n == 27 ==> is_digit(text[0])
    &&& n > 27 ==> text[0] == '+'
    &&& forall|i: int| 1 <= i < n - 23 ==> is_digit(#[trigger] text[i])
    &&& text[n - 23] == '-'
    &&& is_digit(text[n - 22]) && is_digit(text[n - 21])
    &&& text[n - 20] == '-'
    &&& is_digit(text[n - 19]) && is_digit(text[n - 18])
    &&& text[n - 17] == 'T'
    &&& is_digit(text[n - 16]) && is_digit(text[n - 15])
    &&& text[n - 14] == ':'
    &&& is_digit(text[n - 13]) && is_digit(text[n - 12])
    &&& text[n - 11] == ':'
    &&& is_digit(text[n - 10]) && is_digit(text[n - 9])
    &&& text[n - 8] == '.'
    &&& forall|i: int| n - 7 <= i < n - 1 ==> is_digit(#[trigger] text[i])
    &&& text[n - 1] == 'Z'
}

/// `chrono::Utc::now` and `DateTime::to_rfc3339_opts` with microseconds and
/// `Z` for the offset: the present moment in UTC as text. Which moment it
/// is differs from call to call; what is claimed is the shape in which
/// chrono writes any moment that the clock can give, a year from 1970 on.
#[verifier::external_body]
fn now_rfc3339() -> (text: String)
    ensures
        is_utc_moment(text@),
{
    Utc::now().to_rfc3339_opts(SecondsFormat::Micros, true)
}

/// The date that a transaction gets where it brings none: the present
/// moment in UTC, written with microseconds.
pub fn default_date() -> (date: String)
    ensures
        is_utc_moment(date@),
{
    now_rfc3339()
}

impl Client {
    /// The statement of this client as read at `date`.
    pub fn statement_at(self, date: String) -> (statement: StatementDTO)
        ensures
            statement.balance.total == self.balance,
            statement.balance.limit == self.limit,
            statement.balance.date == date,
            statement.latest_transactions == self.latest_transactions,
    {
        StatementDTO {
            balance: BalanceDTO { total: self.balance, date, limit: self.limit },
            latest_transactions: self.latest_transactions,
        }
    }

    /// The statement of this client as read now. The date is the present
    /// moment in UTC; the rest is the client's.
    pub fn into_statement(self) -> (statement: StatementDTO)
        ensures
            statement.balance.total == self.balance,
            statement.balance.limit == self.limit,
            is_utc_moment(statement.balance.date@),
            statement.latest_transactions == self.latest_transactions,
    {
        let date = now_rfc3339();
        self.statement_at(date)
    }
}

} // verus!
