//! A client's state and the rule by which a transaction changes it.

pub mod wire;

use crate::app_error::AppError;
use crate::transaction::{Kind, TransactionDTO, TransactionResponse, TransactionView};
use vstd::prelude::*;

verus! {

/// The most entries a client's log keeps.
pub const LOG_CAPACITY: usize = 10;

/// Balance, credit limit and the latest transactions, newest first.
#[derive(Debug)]
pub struct Client {
    pub _id: i32,
    pub balance: i32,
    pub limit: i32,
    pub latest_transactions: Vec<TransactionDTO>,
}

/// What a `Client` holds, as mathematical values.
pub struct ClientView {
    pub id: int,
    pub balance: int,
    pub limit: int,
    pub latest_transactions: Seq<TransactionView>,
}

impl View for Client {
    type V = ClientView;

    open spec fn view(&self) -> ClientView {
        ClientView {
            id: self._id as int,
            balance: self.balance as int,
            limit: self.limit as int,
            latest_transactions: self.latest_transactions@.map_values(|t: TransactionDTO| t@),
        }
    }
}

impl Clone for Client {
    fn clone(&self) -> (copy: Client)
        ensures
            copy._id == self._id,
            copy.balance == self.balance,
            copy.limit == self.limit,
            copy.latest_transactions@ == self.latest_transactions@,
            copy@ == self@,
    {
        let mut latest_transactions: Vec<TransactionDTO> = Vec::new();
        let total: usize = self.latest_transactions.len();
        let mut i: usize = 0;
        while i < total
            invariant
                i <= total,
                total == self.latest_transactions@.len(),
                latest_transactions@ == self.latest_transactions@.take(i as int),
            decreases total - i,
        {
            latest_transactions.push(self.latest_transactions[i].clone());
            i = i + 1;
            proof {
                assert(latest_transactions@ =~= self.latest_transactions@.take(i as int));
            }
        }
        proof {
            assert(self.latest_transactions@.take(total as int) =~= self.latest_transactions@);
        }
        Client { _id: self._id, balance: self.balance, limit: self.limit, latest_transactions }
    }
}

/// What a transaction adds to a balance: its value for a credit, the
/// negated value for a debit.
pub open spec fn signed_amount(t: TransactionView) -> int {
    match t.kind {
        Kind::C => t.value,
        Kind::D => -t.value,
    }
}

/// `log` with `t` put in front, and the oldest entry dropped where that
/// makes more than ten.
pub open spec fn log_with(log: Seq<TransactionView>, t: TransactionView) -> Seq<TransactionView> {
    let grown = seq![t] + log;
    if grown.len() > LOG_CAPACITY {
        grown.drop_last()
    } else {
        grown
    }
}

impl ClientView {
    /// The balance is not below the negated limit, and the log holds at
    /// most ten entries.
    pub open spec fn wf(self) -> bool {
        &&& self.balance >= -self.limit
        &&& self.latest_transactions.len() <= LOG_CAPACITY
    }

    /// Whether `t` leaves the balance at or above the negated limit.
    pub open spec fn accepts(self, t: TransactionView) -> bool {
        self.balance + signed_amount(t) >= -self.limit
    }

    /// The state after `t` has been accepted.
    pub open spec fn apply(self, t: TransactionView) -> ClientView {
        ClientView {
            id: self.id,
            balance: self.balance + signed_amount(t),
            limit: self.limit,
            latest_transactions: log_with(self.latest_transactions, t),
        }
    }

    /// The state after `t` has been offered: applied where it is accepted,
    /// unchanged where it is not.
    pub open spec fn offer(self, t: TransactionView) -> ClientView {
        if self.accepts(t) {
            self.apply(t)
        } else {
            self
        }
    }

    /// The state after the transactions of `ts` have been offered in turn.
    pub open spec fn offer_all(self, ts: Seq<TransactionView>) -> ClientView
        decreases ts.len(),
    {
        if ts.len() == 0 {
            self
        } else {
            self.offer_all(ts.drop_last()).offer(ts.last())
        }
    }

    /// Those of `ts` that are accepted when offered in turn, oldest first.
    pub open spec fn accepted_of(self, ts: Seq<TransactionView>) -> Seq<TransactionView>
        decreases ts.len(),
    {
        if ts.len() == 0 {
            Seq::empty()
        } else {
            let before = self.accepted_of(ts.drop_last());
            if self.offer_all(ts.drop_last()).accepts(ts.last()) {
                before.push(ts.last())
            } else {
                before
            }
        }
    }
}

impl Client {
    /// Whether the balance that accepting `transaction` gives is a 32-bit
    /// number. A refused transaction changes nothing, so it can always be
    /// offered.
    pub open spec fn spec_can_hold(&self, transaction: &TransactionDTO) -> bool {
        self@.accepts(transaction@) ==> i32::MIN <= self.balance + signed_amount(transaction@)
            <= i32::MAX
    }

    /// Whether `update` can be called with `transaction`.
    pub fn can_hold(&self, transaction: &TransactionDTO) -> (ok: bool)
        ensures
            ok == self.spec_can_hold(transaction),
    {
        let amount: i64 = match transaction.kind {
            Kind::C => transaction.value as i64,
            Kind::D => -(transaction.value as i64),
        };
        let balance: i64 = self.balance as i64 + amount;
        balance < -(self.limit as i64) || (i32::MIN as i64 <= balance && balance
            <= i32::MAX as i64)
    }

    /// Applies `transaction` where the new balance stays at or above the
    /// negated limit, and refuses it otherwise, leaving the client as it was.
    ///
    /// An accepted transaction goes to the front of the log; the oldest entry
    /// leaves where the log would hold more than ten.
    pub fn update(&mut self, transaction: &TransactionDTO) -> (result: Result<&mut Self, AppError>)
        requires
            old(self).spec_can_hold(transaction),
        ensures
            result is Ok <==> old(self)@.accepts(transaction@),
            match result {
                Ok(client) => {
                    &&& client@ == old(self)@.apply(transaction@)
                    &&& *final(self) == *final(client)
                },
                Err(error) => {
                    &&& error == AppError::InsufficientBalanceError
                    &&& *final(self) == *old(self)
                },
            },
    {
        let amount: i64 = match transaction.kind {
            Kind::C => transaction.value as i64,
            Kind::D => -(transaction.value as i64),
        };
        let balance: i64 = self.balance as i64 + amount;
        if balance < -(self.limit as i64) {
            return Err(AppError::InsufficientBalanceError);
        }
        let ghost before = self.latest_transactions@;
        self.balance = balance as i32;
        self.latest_transactions.insert(0, transaction.clone());
        if self.latest_transactions.len() > LOG_CAPACITY {
            self.latest_transactions.pop();
        }
        proof {
            let view = |t: TransactionDTO| t@;
            let grown = seq![transaction@] + before.map_values(view);
            assert(before.insert(0, *transaction).map_values(view) =~= grown);
            if before.len() + 1 > LOG_CAPACITY {
                assert(self@.latest_transactions =~= grown.drop_last());
            } else {
                assert(self@.latest_transactions =~= grown);
            }
        }
        Ok(self)
    }
}

/// Balance floor, one step: an accepted transaction leaves the balance at
/// or above the negated limit, and a refused one leaves the state unchanged.
pub proof fn lemma_offer_keeps_floor(c: ClientView, t: TransactionView)
    ensures
        c.accepts(t) ==> c.offer(t).balance >= -c.offer(t).limit,
        !c.accepts(t) ==> c.offer(t) == c,
        c.offer(t).limit == c.limit,
        c.offer(t).id == c.id,
{
}

/// Balance floor, any history: once one transaction of `ts` has been
/// accepted, the balance is at or above the negated limit, and so it is
/// throughout where it was so at the start.
pub proof fn lemma_balance_floor(c: ClientView, ts: Seq<TransactionView>)
    ensures
        c.offer_all(ts).limit == c.limit,
        c.accepted_of(ts).len() > 0 ==> c.offer_all(ts).balance >= -c.limit,
        c.balance >= -c.limit ==> c.offer_all(ts).balance >= -c.limit,
    decreases ts.len(),
{
    if ts.len() > 0 {
        lemma_balance_floor(c, ts.drop_last());
        lemma_offer_keeps_floor(c.offer_all(ts.drop_last()), ts.last());
    }
}

/// The transaction that credits one unit.
pub open spec fn is_unit_credit(t: TransactionView) -> bool {
    t.kind == Kind::C && t.value == 1
}

/// No lost updates: where `ts` are credits of one unit, applied one after
/// the other, the balance grows by their number.
pub proof fn lemma_unit_credits_add_up(c: ClientView, ts: Seq<TransactionView>)
    requires
        c.balance >= -c.limit,
        forall|i: int| 0 <= i < ts.len() ==> is_unit_credit(#[trigger] ts[i]),
    ensures
        c.offer_all(ts).balance == c.balance + ts.len(),
        c.offer_all(ts).limit == c.limit,
    decreases ts.len(),
{
    if ts.len() > 0 {
        let earlier = ts.drop_last();
        assert forall|i: int| 0 <= i < earlier.len() implies is_unit_credit(
            #[trigger] earlier[i],
        ) by {
            assert(earlier[i] == ts[i]);
        }
        lemma_unit_credits_add_up(c, earlier);
        assert(is_unit_credit(ts[ts.len() - 1]));
    }
}

/// Log bound, any history: the log is the accepted transactions, newest
/// first, followed by what the log held before, cut to ten entries.
pub proof fn lemma_log_holds_latest(c: ClientView, ts: Seq<TransactionView>)
    requires
        c.latest_transactions.len() <= LOG_CAPACITY,
    ensures
        c.offer_all(ts).latest_transactions.len() <= LOG_CAPACITY,
        ({
            let all = c.accepted_of(ts).reverse() + c.latest_transactions;
            c.offer_all(ts).latest_transactions == if all.len() > LOG_CAPACITY {
                all.take(LOG_CAPACITY as int)
            } else {
                all
            }
        }),
    decreases ts.len(),
{
    if ts.len() == 0 {
        assert(c.accepted_of(ts).reverse() + c.latest_transactions =~= c.latest_transactions);
    } else {
        let earlier = ts.drop_last();
        let t = ts.last();
        lemma_log_holds_latest(c, earlier);
        let prev = c.offer_all(earlier);
        if prev.accepts(t) {
            let all_prev = c.accepted_of(earlier).reverse() + c.latest_transactions;
            let all = c.accepted_of(ts).reverse() + c.latest_transactions;
            assert(c.accepted_of(ts) == c.accepted_of(earlier).push(t));
            assert(all =~= seq![t] + all_prev);
            let log = c.offer_all(ts).latest_transactions;
            assert(log == log_with(prev.latest_transactions, t));
            if all.len() > LOG_CAPACITY {
                assert(log =~= all.take(LOG_CAPACITY as int));
            } else {
                assert(log =~= all);
            }
        }
    }
}

/// Log bound: after ten or more accepted transactions the log holds exactly
/// ten entries, which are the last ten accepted ones, newest first.
pub proof fn lemma_log_after_ten(c: ClientView, ts: Seq<TransactionView>)
    requires
        c.latest_transactions.len() <= LOG_CAPACITY,
        c.accepted_of(ts).len() >= LOG_CAPACITY,
    ensures
        c.offer_all(ts).latest_transactions.len() == LOG_CAPACITY,
        c.offer_all(ts).latest_transactions == c.accepted_of(ts).reverse().take(
            LOG_CAPACITY as int,
        ),
        forall|i: int|
            0 <= i < LOG_CAPACITY ==> #[trigger] c.offer_all(ts).latest_transactions[i]
                == c.accepted_of(ts)[c.accepted_of(ts).len() - 1 - i],
{
    lemma_log_holds_latest(c, ts);
    let newest_first = c.accepted_of(ts).reverse();
    let all = newest_first + c.latest_transactions;
    if all.len() > LOG_CAPACITY {
        assert(all.take(LOG_CAPACITY as int) =~= newest_first.take(LOG_CAPACITY as int));
    } else {
        assert(all =~= newest_first.take(LOG_CAPACITY as int));
    }
}

impl From<Client> for TransactionResponse {
    fn from(client: Client) -> (response: TransactionResponse) {
        TransactionResponse { limit: client.limit, balance: client.balance }
    }
}

impl vstd::std_specs::convert::FromSpecImpl<Client> for TransactionResponse {
    open spec fn obeys_from_spec() -> bool {
        true
    }

    open spec fn from_spec(client: Client) -> TransactionResponse {
        TransactionResponse { limit: client.limit, balance: client.balance }
    }
}

} // verus!
