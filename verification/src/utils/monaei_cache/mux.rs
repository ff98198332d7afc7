//! Many requests on one connection: identifiers and the table of requests
//! that still wait for their answer.

use super::frame::{build_frame, frame_of, parse_header, FrameHeader, HEADER_LEN};
use super::wire::{command_fits, enc_command};
use super::{CommandView, IncrementOpts, MonaeicacheCommand, Value};
use futures::channel::oneshot::{Canceled, Receiver, Sender};
use nohash_hasher::{IntMap, NoHashHasher};
use std::hash::BuildHasherDefault;
use vstd::prelude::*;

verus! {

/// The sending half of a `futures` one-shot channel.
#[verifier::external_type_specification]
#[verifier::external_body]
#[verifier::reject_recursive_types(T)]
pub struct ExSender<T>(Sender<T>);

/// The receiving half of a `futures` one-shot channel.
#[verifier::external_type_specification]
#[verifier::external_body]
#[verifier::reject_recursive_types(T)]
pub struct ExReceiver<T>(Receiver<T>);

/// What the receiving half of a one-shot channel yields when the sending
/// half is dropped unused. Nothing here handles one; the receiving half
/// names it as what awaiting it may give, so it is declared with that half.
#[verifier::external_type_specification]
#[verifier::external_body]
pub struct ExCanceled(Canceled);

/// The hasher of `nohash_hasher`, which hands an integer key back as its hash.
#[verifier::external_type_specification]
#[verifier::external_body]
#[verifier::reject_recursive_types(T)]
pub struct ExNoHashHasher<T>(NoHashHasher<T>);

/// The standard library's builder of default-constructed hashers.
#[verifier::external_type_specification]
#[verifier::external_body]
#[verifier::reject_recursive_types(H)]
pub struct ExBuildHasherDefault<H>(BuildHasherDefault<H>);

/// `futures::channel::oneshot::channel`: a fresh pair of halves.
pub assume_specification<T>[ futures::channel::oneshot::channel::<T> ]() -> (halves: (
    Sender<T>,
    Receiver<T>,
));

/// `Sender::send`: hands the value to the receiving half. Where that half
/// is gone, the value comes back.
pub assume_specification<T>[ Sender::<T>::send ](tx: Sender<T>, t: T) -> (r: Result<(), T>)
    ensures
        r matches Err(back) ==> back == t,
;

/// `HashMap::default` for the table of waiting requests, which hashes with
/// `nohash_hasher`: an empty table.
#[verifier::external_body]
fn table_new() -> (table: IntMap<usize, Sender<Vec<u8>>>)
    ensures
        table@.dom() == Set::<usize>::empty(),
{
    IntMap::default()
}

/// `HashMap::insert` on the table of waiting requests: `id` now waits on
/// `tx`, and every other identifier waits as before. The table's hasher
/// hands each identifier back as its own hash, so equal identifiers meet.
#[verifier::external_body]
fn table_insert(table: &mut IntMap<usize, Sender<Vec<u8>>>, id: usize, tx: Sender<Vec<u8>>)
    ensures
        final(table)@ == old(table)@.insert(id, tx),
{
    table.insert(id, tx);
}

/// `HashMap::remove` on the table of waiting requests: `id` waits no more,
/// what it waited on comes back, and every other identifier waits as before.
#[verifier::external_body]
fn table_remove(table: &mut IntMap<usize, Sender<Vec<u8>>>, id: usize) -> (tx: Option<
    Sender<Vec<u8>>,
>)
    ensures
        final(table)@ == old(table)@.remove(id),
        tx == if old(table)@.dom().contains(id) {
            Some(old(table)@[id])
        } else {
            None
        },
{
    table.remove(&id)
}

/// The state of one connection's requests: the identifier that the next
/// request gets, and the requests that wait for their answer.
pub struct MonaeicacheClient {
    reqs: IntMap<usize, Sender<Vec<u8>>>,
    message_id: usize,
}

/// A registered request: the frame to write to the connection, and the
/// half on which the answer's payload arrives.
pub struct Request {
    pub id: usize,
    pub frame: Vec<u8>,
    pub reply: Receiver<Vec<u8>>,
}

/// Why a command was not registered.
#[derive(Debug, Clone, Copy, PartialEq, Eq, Structural)]
pub enum SendError {
    /// A length in the command does not fit the four bytes it travels in.
    TooLarge,
    /// Every identifier has been given out.
    IdsExhausted,
}

/// What became of an answer.
#[derive(Debug, Clone, Copy, PartialEq, Eq, Structural)]
pub enum Delivery {
    /// The waiting request has its answer.
    Delivered,
    /// The request was waiting, but nobody listens for its answer any more.
    Abandoned,
    /// No request waited under that identifier.
    Unknown,
}

impl MonaeicacheClient {
    /// The requests that wait for their answer: each identifier with the
    /// sending half on which its answer is handed over.
    pub closed spec fn waiting(&self) -> Map<usize, Sender<Vec<u8>>> {
        self.reqs@
    }

    /// The identifiers of the requests that wait for their answer.
    pub open spec fn pending(&self) -> Set<usize> {
        self.waiting().dom()
    }

    /// The identifier that the next request gets.
    pub closed spec fn next_id(&self) -> usize {
        self.message_id
    }

    /// Every waiting request has an identifier that was given out.
    pub open spec fn wf(&self) -> bool {
        forall|id: usize| self.pending().contains(id) ==> id < self.next_id()
    }

    /// What registering `command` does to the table: nothing where it is
    /// refused, and else the next identifier starts to wait.
    pub open spec fn registered(
        &self,
        before: MonaeicacheClient,
        command: CommandView,
        r: Result<Request, SendError>,
    ) -> bool {
        match r {
            Ok(request) => {
                &&& command_fits(command)
                &&& before.next_id() < usize::MAX
                &&& request.id == before.next_id()
                &&& request.frame@ == frame_of(request.id as nat, enc_command(command))
                &&& !before.pending().contains(request.id)
                &&& self.pending() == before.pending().insert(request.id)
                &&& self.waiting().remove(request.id) == before.waiting()
                &&& self.next_id() == before.next_id() + 1
            },
            Err(error) => {
                &&& self.waiting() == before.waiting()
                &&& self.next_id() == before.next_id()
                &&& error == if !command_fits(command) {
                    SendError::TooLarge
                } else {
                    SendError::IdsExhausted
                }
                &&& !command_fits(command) || before.next_id() == usize::MAX
            },
        }
    }

    /// A connection's state at its start: no request waits, and the first
    /// identifier is zero.
    pub fn new() -> (client: MonaeicacheClient)
        ensures
            client.wf(),
            client.waiting() == Map::<usize, Sender<Vec<u8>>>::empty(),
            client.next_id() == 0,
    {
        MonaeicacheClient { reqs: table_new(), message_id: 0 }
    }

    /// The frame that carries `command` under the identifier `message_id`.
    pub fn build_message(&self, message_id: usize, command: MonaeicacheCommand) -> (message: Vec<
        u8,
    >)
        requires
            command_fits(command@),
        ensures
            message@ == frame_of(message_id as nat, enc_command(command@)),
    {
        let command_bytes = command.encode();
        build_frame(message_id, command_bytes.as_slice())
    }

    /// Gives `command` the next identifier and lets it wait for its answer.
    /// The caller writes the frame to the connection and then waits on the
    /// request's receiving half.
    pub fn register(&mut self, command: MonaeicacheCommand) -> (r: Result<Request, SendError>)
        requires
            old(self).wf(),
        ensures
            final(self).wf(),
            final(self).registered(*old(self), command@, r),
    {
        if !command.fits_wire() {
            return Err(SendError::TooLarge);
        }
        if self.message_id == usize::MAX {
            return Err(SendError::IdsExhausted);
        }
        let id: usize = self.message_id;
        let frame = self.build_message(id, command);
        let (tx, rx) = futures::channel::oneshot::channel::<Vec<u8>>();
        self.message_id = id + 1;
        table_insert(&mut self.reqs, id, tx);
        proof {
            assert(!old(self).pending().contains(id));
            assert(self.reqs@.remove(id) =~= old(self).reqs@);
            assert(self.reqs@.dom() =~= old(self).reqs@.dom().insert(id));
            assert forall|other: usize| self.pending().contains(other) implies other
                < self.next_id() by {
                if other != id {
                    assert(old(self).pending().contains(other));
                }
            }
        }
        Ok(Request { id, frame, reply: rx })
    }

    /// Registers the command that stores `value` under `key`.
    pub fn set(&mut self, key: &str, value: Value) -> (r: Result<Request, SendError>)
        requires
            old(self).wf(),
        ensures
            final(self).wf(),
            final(self).registered(*old(self), CommandView::Put(key@, value@), r),
    {
        self.register(MonaeicacheCommand::Put(key, value))
    }

    /// Registers the command that asks for the value under `key`.
    pub fn get(&mut self, key: &str) -> (r: Result<Request, SendError>)
        requires
            old(self).wf(),
        ensures
            final(self).wf(),
            final(self).registered(*old(self), CommandView::Get(key@), r),
    {
        self.register(MonaeicacheCommand::Get(key))
    }

    /// Registers the command that appends `value` to the set under `key`,
    /// which is to keep at most `size` members where `size` is given.
    pub fn add_to_set(&mut self, key: &str, value: Value, size: Option<usize>) -> (r: Result<
        Request,
        SendError,
    >)
        requires
            old(self).wf(),
        ensures
            final(self).wf(),
            final(self).registered(*old(self), CommandView::AddToSet(key@, value@, size), r),
    {
        self.register(MonaeicacheCommand::AddToSet(key, value, size))
    }

    /// Registers the command that adds `value` to the number under `key`.
    pub fn increment(&mut self, key: &str, value: i32, opts: Option<IncrementOpts>) -> (r: Result<
        Request,
        SendError,
    >)
        requires
            old(self).wf(),
        ensures
            final(self).wf(),
            final(self).registered(*old(self), CommandView::Increment(key@, value, opts), r),
    {
        self.register(MonaeicacheCommand::Increment(key, value, opts))
    }

    /// Takes the request that waits under `id` out of the table and hands
    /// back the sending half that it waited on, or nothing where no request
    /// waited under `id`. Every other request waits as before.
    pub fn take_waiting(&mut self, id: usize) -> (tx: Option<Sender<Vec<u8>>>)
        requires
            old(self).wf(),
        ensures
            final(self).wf(),
            final(self).waiting() == old(self).waiting().remove(id),
            final(self).next_id() == old(self).next_id(),
            tx == if old(self).waiting().dom().contains(id) {
                Some(old(self).waiting()[id])
            } else {
                None
            },
    {
        let tx = table_remove(&mut self.reqs, id);
        proof {
            assert forall|other: usize| self.pending().contains(other) implies other
                < self.next_id() by {
                assert(old(self).pending().contains(other));
            }
        }
        tx
    }

    /// Hands the answer `payload` to the request that waits under `id`, on
    /// the sending half that was registered for it, and takes that request
    /// out of the table. Every other request waits as before, on the half
    /// that it was registered with. An answer that no request waits for is
    /// dropped.
    pub fn resolve(&mut self, id: usize, payload: Vec<u8>) -> (delivery: Delivery)
        requires
            old(self).wf(),
        ensures
            final(self).wf(),
            final(self).waiting() == old(self).waiting().remove(id),
            final(self).next_id() == old(self).next_id(),
            delivery is Unknown <==> !old(self).pending().contains(id),
    {
        match self.take_waiting(id) {
            None => Delivery::Unknown,
            Some(tx) => match tx.send(payload) {
                Ok(()) => Delivery::Delivered,
                Err(_) => Delivery::Abandoned,
            },
        }
    }
}

/// Answers in any order: taking one request out of the table leaves every
/// other request on the half that it was registered with, so that two
/// answers reach the same two halves whichever of them comes first.
pub proof fn lemma_answers_in_any_order(
    table: Map<usize, Sender<Vec<u8>>>,
    first: usize,
    second: usize,
)
    requires
        first != second,
        table.dom().contains(first),
        table.dom().contains(second),
    ensures
        table.remove(first).dom().contains(second),
        table.remove(first)[second] == table[second],
        table.remove(second)[first] == table[first],
        table.remove(first).remove(second) == table.remove(second).remove(first),
{
    assert(table.remove(first).remove(second) =~= table.remove(second).remove(first));
}

/// Identifiers are not reused: a request that waits was given its
/// identifier before the one that the next request gets.
pub proof fn lemma_next_id_is_fresh(client: MonaeicacheClient)
    requires
        client.wf(),
    ensures
        !client.pending().contains(client.next_id()),
{
}

/// What the reader of a connection waits for.
#[derive(Debug, Clone, Copy, PartialEq, Eq, Structural)]
pub enum Reader {
    /// The sixteen bytes of a frame's header.
    Header,
    /// The payload that the header announced.
    Payload(FrameHeader),
}

impl Reader {
    /// The reader at the start of a connection.
    pub fn new() -> (reader: Reader)
        ensures
            reader == Reader::Header,
    {
        Reader::Header
    }

    /// The number of bytes to read from the connection next.
    pub fn wanted(&self) -> (n: usize)
        ensures
            n == self.spec_wanted(),
    {
        match self {
            Reader::Header => HEADER_LEN,
            Reader::Payload(header) => header.length,
        }
    }

    pub open spec fn spec_wanted(&self) -> usize {
        match *self {
            Reader::Header => HEADER_LEN,
            Reader::Payload(header) => header.length,
        }
    }

    /// Takes the bytes that were read. A header announces its payload; a
    /// payload goes to the request that waits under the header's identifier.
    /// Nothing comes back where a header names an identifier or a length
    /// that does not fit a `usize`: the reader stops.
    pub fn feed(self, client: &mut MonaeicacheClient, bytes: Vec<u8>) -> (next: Option<Reader>)
        requires
            old(client).wf(),
            bytes@.len() == self.spec_wanted(),
        ensures
            final(client).wf(),
            final(client).next_id() == old(client).next_id(),
            match self {
                Reader::Header => {
                    &&& final(client).waiting() == old(client).waiting()
                    &&& match next {
                        Some(reader) => reader == Reader::Payload(
                            FrameHeader {
                                id: super::frame::header_id(bytes@) as usize,
                                length: super::frame::header_length(bytes@) as usize,
                            },
                        ) && super::frame::header_id(bytes@) <= usize::MAX
                            && super::frame::header_length(bytes@) <= usize::MAX,
                        None => super::frame::header_id(bytes@) > usize::MAX
                            || super::frame::header_length(bytes@) > usize::MAX,
                    }
                },
                Reader::Payload(header) => {
                    &&& next == Some(Reader::Header)
                    &&& final(client).waiting() == old(client).waiting().remove(header.id)
                },
            },
    {
        match self {
            Reader::Header => match parse_header(bytes.as_slice()) {
                Some(header) => Some(Reader::Payload(header)),
                None => None,
            },
            Reader::Payload(header) => {
                let _ = client.resolve(header.id, bytes);
                Some(Reader::Header)
            },
        }
    }
}

} // verus!
