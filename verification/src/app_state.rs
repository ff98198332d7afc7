//! The two operations of the service on a client's state, as far as they
//! are decided here: what the cache answers, what the store's answer means,
//! and what an accepted transaction leaves in the cache.

use crate::app_error::AppError;
use crate::client::wire::{dec_client, enc_client, storable};
use crate::client::{signed_amount, Client};
use crate::transaction::{Kind, TransactionDTO};
use crate::utils::cache::Cache;
use crate::utils::mmap::Segment;
use crate::utils::monaei_cache::{Error, Incrementable, IncrementOpts};
use crate::utils::text::{decimal, decimal_string};
use vstd::prelude::*;

verus! {

/// The cache in front of the store.
pub struct AppState<S: Segment> {
    pub cache: Cache<S>,
}

/// The key under which a client is cached: its identifier in decimal.
pub fn cache_key(id: i32) -> (key: String)
    ensures
        key@ == decimal(id as int),
{
    decimal_string(id)
}

/// What the store's answer means: the client, or that there is none of
/// that identifier.
pub fn found_or_missing(id: i32, stored: Option<Client>) -> (r: Result<Client, AppError>)
    ensures
        match stored {
            Some(client) => r == Ok::<Client, AppError>(client),
            None => r == Err::<Client, AppError>(AppError::ClientNotFound(id)),
        },
{
    match stored {
        Some(client) => Ok(client),
        None => Err(AppError::ClientNotFound(id)),
    }
}

impl<S: Segment> AppState<S> {
    pub open spec fn wf(&self) -> bool {
        self.cache.wf()
    }

    /// A state whose cache has opened no segment.
    pub fn new() -> (state: Self)
        ensures
            state.wf(),
    {
        AppState { cache: Cache::new() }
    }

    /// The client as the cache has it, or nothing where the cache holds
    /// none: the caller then asks the store.
    pub fn get_client(&mut self, id: i32) -> (cached: Option<Client>)
        requires
            old(self).wf(),
        ensures
            final(self).wf(),
            final(self).cache.is_attached(decimal(id as int)),
            final(self).cache.same_elsewhere(&old(self).cache, decimal(id as int)),
            old(self).cache.is_attached(decimal(id as int)) ==> final(self).cache.bytes_of(
                decimal(id as int),
            ) == old(self).cache.bytes_of(decimal(id as int)),
            match dec_client(final(self).cache.bytes_of(decimal(id as int))) {
                Some(x) => cached matches Some(c) && c@ == x,
                None => cached is None,
            },
    {
        let key = cache_key(id);
        self.cache.get(key.as_str())
    }

    /// Keeps `client` in the cache under its identifier `id`.
    pub fn keep(&mut self, id: i32, client: &Client)
        requires
            old(self).wf(),
            storable(client@),
        ensures
            final(self).wf(),
            final(self).cache.is_attached(decimal(id as int)),
            final(self).cache.bytes_of(decimal(id as int)) == enc_client(client@),
            final(self).cache.same_elsewhere(&old(self).cache, decimal(id as int)),
    {
        let key = cache_key(id);
        let _ = self.cache.insert(key.as_str(), client);
    }

    /// Whether `update_client_balance` can be called with `client` and
    /// `transaction`: the balance that accepting the transaction gives is a
    /// 32-bit number, and the client that it gives can be kept in a segment.
    pub open spec fn can_apply(client: Client, transaction: &TransactionDTO) -> bool {
        &&& client.spec_can_hold(transaction)
        &&& client@.accepts(transaction@) ==> storable(client@.apply(transaction@))
    }

    /// Applies `transaction` to `client` as `update_client_balance` does,
    /// where that state can be held. Where it cannot, because the new
    /// balance is no 32-bit number or the new state is too long for a
    /// segment, nothing is applied and nothing comes back.
    pub fn apply_transaction(
        &mut self,
        id: i32,
        client: Client,
        transaction: &TransactionDTO,
    ) -> (r: Option<Result<Client, AppError>>)
        requires
            old(self).wf(),
        ensures
            final(self).wf(),
            r is Some <==> Self::can_apply(client, transaction),
            match r {
                Some(Ok(updated)) => {
                    &&& client@.accepts(transaction@)
                    &&& updated@ == client@.apply(transaction@)
                    &&& final(self).cache.is_attached(decimal(id as int))
                    &&& final(self).cache.bytes_of(decimal(id as int)) == enc_client(updated@)
                    &&& final(self).cache.same_elsewhere(&old(self).cache, decimal(id as int))
                },
                Some(Err(error)) => {
                    &&& !client@.accepts(transaction@)
                    &&& error == AppError::InsufficientBalanceError
                    &&& *final(self) == *old(self)
                },
                None => *final(self) == *old(self),
            },
    {
        if !client.can_hold(transaction) {
            return None;
        }
        let mut trial = client.clone();
        let holds = match trial.update(transaction) {
            Ok(updated) => updated.is_storable(),
            Err(_) => true,
        };
        if !holds {
            return None;
        }
        Some(self.update_client_balance(id, client, transaction))
    }

    /// Applies `transaction` to `client`, which the cache or the store
    /// answered for `id`. An accepted transaction leaves the new state in
    /// the cache; a refused one leaves the cache as it was.
    pub fn update_client_balance(
        &mut self,
        id: i32,
        client: Client,
        transaction: &TransactionDTO,
    ) -> (r: Result<Client, AppError>)
        requires
            old(self).wf(),
            Self::can_apply(client, transaction),
        ensures
            final(self).wf(),
            r is Ok <==> client@.accepts(transaction@),
            match r {
                Ok(updated) => {
                    &&& updated@ == client@.apply(transaction@)
                    &&& final(self).cache.is_attached(decimal(id as int))
                    &&& final(self).cache.bytes_of(decimal(id as int)) == enc_client(updated@)
                    &&& final(self).cache.same_elsewhere(&old(self).cache, decimal(id as int))
                },
                Err(error) => {
                    &&& error == AppError::InsufficientBalanceError
                    &&& *final(self) == *old(self)
                },
            },
    {
        let mut client = client;
        match client.update(transaction) {
            Err(error) => { return Err(error); },
            Ok(_) => {},
        }
        self.keep(id, &client);
        Ok(client)
    }
}

/// What a transaction adds to the number that the remote cache keeps for a
/// client: its value for a credit, the negated value for a debit.
pub fn transaction_delta(transaction: &TransactionDTO) -> (delta: i32)
    requires
        transaction.value > i32::MIN,
    ensures
        delta == signed_amount(transaction@),
{
    match transaction.kind {
        Kind::C => transaction.value,
        Kind::D => -transaction.value,
    }
}

/// The options with which a client of the limit `limit` is made resident
/// in the remote cache: created where it is missing, and never below the
/// negated limit.
pub fn resident_opts(limit: i32) -> (opts: IncrementOpts)
    requires
        limit > i32::MIN,
    ensures
        opts == (IncrementOpts {
            lower_limit: Some((-limit) as i32),
            upper_limit: None,
            create: Some(true),
        }),
{
    IncrementOpts { lower_limit: Some(-limit), upper_limit: None, create: Some(true) }
}

/// The limit that a lower bound stands for: the negated bound. A bound that
/// cannot be negated in 32 bits stands for the largest limit, and no bound
/// for no credit at all.
pub open spec fn limit_of(lower_limit: Option<i32>) -> i32 {
    match lower_limit {
        Some(lower) => if lower > i32::MIN {
            (-lower) as i32
        } else {
            i32::MAX
        },
        None => 0,
    }
}

/// The state of the client `id` as the remote cache's number shows it: the
/// number is the balance, and its lower bound is the negated limit. The
/// log is not kept in the number and comes back empty.
pub fn remote_client(id: i32, number: Incrementable) -> (client: Client)
    ensures
        client._id == id,
        client.balance == number.value,
        client.limit == limit_of(number.lower_limit),
        client.latest_transactions@.len() == 0,
{
    let limit: i32 = match number.lower_limit {
        Some(lower) => if lower > i32::MIN {
            -lower
        } else {
            i32::MAX
        },
        None => 0,
    };
    Client { _id: id, balance: number.value, limit, latest_transactions: Vec::new() }
}

/// The limit with which a client is made resident is the limit that its
/// number then shows.
pub proof fn lemma_resident_limit(limit: i32)
    requires
        limit > i32::MIN,
    ensures
        limit_of(Some((-limit) as i32)) == limit,
{
}

/// What a refused increment means for the request of the client `id`. A
/// crossed limit is an insufficient balance. A missing key is no failure:
/// nothing comes back, and the caller turns to the store. A value of
/// another shape is a decoding failure.
pub fn increment_failure(error: Error) -> (failure: Option<AppError>)
    ensures
        match error {
            Error::LimitReached => failure == Some(AppError::InsufficientBalanceError),
            Error::NotFound => failure is None,
            Error::TypeError => failure matches Some(AppError::DeError(text)) && text@
                == Error::TypeError.spec_message(),
        },
{
    match error {
        Error::LimitReached => Some(AppError::InsufficientBalanceError),
        Error::NotFound => None,
        Error::TypeError => Some(AppError::DeError(error.message())),
    }
}

/// What follows an answer of the remote cache to an increment.
#[derive(Debug)]
pub enum RemoteStep {
    /// The number is resident: this is the client as the number shows it.
    Done(Client),
    /// The request fails with this.
    Failed(AppError),
    /// The key is missing: the caller reads the client from the store and
    /// makes it resident, with `resident_opts`, before it asks again.
    AskStore,
}

/// What follows the first answer to an increment for the client `id`.
pub fn after_increment(id: i32, reply: Result<Incrementable, Error>) -> (step: RemoteStep)
    ensures
        match reply {
            Ok(number) => step matches RemoteStep::Done(client) && client._id == id
                && client.balance == number.value && client.limit == limit_of(
                number.lower_limit,
            ) && client.latest_transactions@.len() == 0,
            Err(Error::LimitReached) => step matches RemoteStep::Failed(
                AppError::InsufficientBalanceError,
            ),
            Err(Error::NotFound) => step is AskStore,
            Err(Error::TypeError) => step matches RemoteStep::Failed(AppError::DeError(text))
                && text@ == Error::TypeError.spec_message(),
        },
{
    match reply {
        Ok(number) => RemoteStep::Done(remote_client(id, number)),
        Err(error) => match increment_failure(error) {
            Some(failure) => RemoteStep::Failed(failure),
            None => RemoteStep::AskStore,
        },
    }
}

/// What follows an answer to an increment that was asked again after the
/// client `id` had been made resident: a key that is still missing is a
/// client that is not there.
pub fn after_second_increment(id: i32, reply: Result<Incrementable, Error>) -> (r: Result<
    Client,
    AppError,
>)
    ensures
        match reply {
            Ok(number) => r matches Ok(client) && client._id == id && client.balance
                == number.value && client.limit == limit_of(number.lower_limit)
                && client.latest_transactions@.len() == 0,
            Err(Error::LimitReached) => r matches Err(AppError::InsufficientBalanceError),
            Err(Error::NotFound) => r matches Err(AppError::ClientNotFound(missing)) && missing
                == id,
            Err(Error::TypeError) => r matches Err(AppError::DeError(text)) && text@
                == Error::TypeError.spec_message(),
        },
{
    match after_increment(id, reply) {
        RemoteStep::Done(client) => Ok(client),
        RemoteStep::Failed(failure) => Err(failure),
        RemoteStep::AskStore => Err(AppError::ClientNotFound(id)),
    }
}

} // verus!
