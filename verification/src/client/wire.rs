//! The bytes in which a client's state is kept in a segment.
//!
//! Identifier, balance and limit are four little-endian bytes each. The log
//! follows as its number of entries and then the entries. An entry is its
//! value, its kind (zero for credit, one for debit), and its description and
//! date as texts behind their lengths.

use super::{Client, ClientView};
use crate::transaction::{Kind, TransactionDTO, TransactionView};
use crate::utils::le::{push_i32, push_u32};
use crate::utils::monaei_cache::codec::{push_text, take_i32, take_text, take_u32};
use crate::utils::monaei_cache::wire::{
    dec_i32, dec_text, dec_u32, enc_i32, enc_text, enc_u32, lemma_i32_round_trip,
    lemma_split_prefix, lemma_text_round_trip, lemma_u32_round_trip,
};
use vstd::prelude::*;
use vstd::utf8::encode_utf8;

verus! {

pub const TAG_CREDIT: u32 = 0;

pub const TAG_DEBIT: u32 = 1;

pub open spec fn enc_kind(kind: Kind) -> Seq<u8> {
    match kind {
        Kind::C => enc_u32(TAG_CREDIT),
        Kind::D => enc_u32(TAG_DEBIT),
    }
}

pub open spec fn enc_entry(t: TransactionView) -> Seq<u8> {
    enc_i32(t.value as i32) + enc_kind(t.kind) + enc_text(t.description) + enc_text(t.date)
}

/// The encodings of `entries`, one behind the other.
pub open spec fn enc_entries(entries: Seq<TransactionView>) -> Seq<u8>
    decreases entries.len(),
{
    if entries.len() == 0 {
        Seq::empty()
    } else {
        enc_entries(entries.drop_last()) + enc_entry(entries.last())
    }
}

pub open spec fn enc_client(c: ClientView) -> Seq<u8> {
    enc_i32(c.id as i32) + enc_i32(c.balance as i32) + enc_i32(c.limit as i32) + enc_u32(
        c.latest_transactions.len() as u32,
    ) + enc_entries(c.latest_transactions)
}

/// Whether the entry's value is a 32-bit number and its texts are short
/// enough for their lengths to be written in four bytes.
pub open spec fn entry_fits(t: TransactionView) -> bool {
    &&& i32::MIN <= t.value <= i32::MAX
    &&& encode_utf8(t.description).len() <= u32::MAX
    &&& encode_utf8(t.date).len() <= u32::MAX
}

/// Whether the client can be kept in a segment: it fits, and so does the
/// number of its bytes.
pub open spec fn storable(c: ClientView) -> bool {
    client_fits(c) && enc_client(c).len() <= u32::MAX
}

/// Whether the client's numbers are 32-bit numbers and every entry fits.
pub open spec fn client_fits(c: ClientView) -> bool {
    &&& i32::MIN <= c.id <= i32::MAX
    &&& i32::MIN <= c.balance <= i32::MAX
    &&& i32::MIN <= c.limit <= i32::MAX
    &&& c.latest_transactions.len() <= u32::MAX
    &&& forall|i: int|
        0 <= i < c.latest_transactions.len() ==> entry_fits(#[trigger] c.latest_transactions[i])
}

pub open spec fn dec_kind(b: Seq<u8>) -> Option<(Kind, int)> {
    match dec_u32(b) {
        Some((tag, k)) => if tag == TAG_CREDIT {
            Some((Kind::C, k))
        } else if tag == TAG_DEBIT {
            Some((Kind::D, k))
        } else {
            None
        },
        None => None,
    }
}

pub open spec fn dec_entry(b: Seq<u8>) -> Option<(TransactionView, int)> {
    match dec_i32(b) {
        None => None,
        Some((value, _)) => match dec_kind(b.skip(4)) {
            None => None,
            Some((kind, _)) => match dec_text(b.skip(8)) {
                None => None,
                Some((description, k1)) => match dec_text(b.skip(8 + k1)) {
                    None => None,
                    Some((date, k2)) => Some(
                        (
                            TransactionView { value: value as int, kind, description, date },
                            8 + k1 + k2,
                        ),
                    ),
                },
            },
        },
    }
}

/// The `n` entries that `b` starts with and the number of bytes they take.
pub open spec fn dec_entries(b: Seq<u8>, n: nat) -> Option<(Seq<TransactionView>, int)>
    decreases n,
{
    if n == 0 {
        Some((Seq::empty(), 0))
    } else {
        match dec_entries(b, (n - 1) as nat) {
            Some((earlier, k)) => match dec_entry(b.skip(k)) {
                Some((last, k_last)) => Some((earlier.push(last), k + k_last)),
                None => None,
            },
            None => None,
        }
    }
}

/// The client that `b` starts with, or `None` where `b` starts with none.
pub open spec fn dec_client(b: Seq<u8>) -> Option<ClientView> {
    match dec_i32(b) {
        None => None,
        Some((id, _)) => match dec_i32(b.skip(4)) {
            None => None,
            Some((balance, _)) => match dec_i32(b.skip(8)) {
                None => None,
                Some((limit, _)) => match dec_u32(b.skip(12)) {
                    None => None,
                    Some((n, _)) => match dec_entries(b.skip(16), n as nat) {
                        None => None,
                        Some((latest_transactions, _)) => Some(
                            ClientView {
                                id: id as int,
                                balance: balance as int,
                                limit: limit as int,
                                latest_transactions,
                            },
                        ),
                    },
                },
            },
        },
    }
}

pub proof fn lemma_entry_round_trip(t: TransactionView, rest: Seq<u8>)
    requires
        entry_fits(t),
    ensures
        dec_entry(enc_entry(t) + rest) == Some((t, enc_entry(t).len() as int)),
{
    let value = enc_i32(t.value as i32);
    let kind = enc_kind(t.kind);
    let description = enc_text(t.description);
    let date = enc_text(t.date);
    let whole = enc_entry(t) + rest;
    assert(whole =~= value + (kind + (description + (date + rest))));
    lemma_i32_round_trip(t.value as i32, kind + (description + (date + rest)));
    lemma_split_prefix(value, kind + (description + (date + rest)));
    match t.kind {
        Kind::C => lemma_u32_round_trip(TAG_CREDIT, description + (date + rest)),
        Kind::D => lemma_u32_round_trip(TAG_DEBIT, description + (date + rest)),
    }
    assert(whole.skip(8) =~= description + (date + rest));
    lemma_text_round_trip(t.description, date + rest);
    assert(whole.skip(8 + description.len() as int) =~= date + rest);
    lemma_text_round_trip(t.date, rest);
}

pub proof fn lemma_entries_round_trip(entries: Seq<TransactionView>, rest: Seq<u8>)
    requires
        forall|i: int| 0 <= i < entries.len() ==> entry_fits(#[trigger] entries[i]),
    ensures
        dec_entries(enc_entries(entries) + rest, entries.len()) == Some(
            (entries, enc_entries(entries).len() as int),
        ),
    decreases entries.len(),
{
    if entries.len() == 0 {
        assert(dec_entries(enc_entries(entries) + rest, 0).unwrap().0 =~= entries);
    } else {
        let earlier = entries.drop_last();
        let last = entries.last();
        let tail = enc_entry(last) + rest;
        assert(enc_entries(entries) + rest =~= enc_entries(earlier) + tail);
        assert forall|i: int| 0 <= i < earlier.len() implies entry_fits(#[trigger] earlier[i]) by {
            assert(earlier[i] == entries[i]);
        }
        lemma_entries_round_trip(earlier, tail);
        lemma_split_prefix(enc_entries(earlier), tail);
        lemma_entry_round_trip(last, rest);
        assert(earlier.push(last) =~= entries);
    }
}

/// Segment round trip: a client that fits is read back from its bytes.
pub proof fn lemma_client_round_trip(c: ClientView, rest: Seq<u8>)
    requires
        client_fits(c),
    ensures
        dec_client(enc_client(c) + rest) == Some(c),
{
    let id = enc_i32(c.id as i32);
    let balance = enc_i32(c.balance as i32);
    let limit = enc_i32(c.limit as i32);
    let count = enc_u32(c.latest_transactions.len() as u32);
    let log = enc_entries(c.latest_transactions);
    let whole = enc_client(c) + rest;
    assert(whole =~= id + (balance + (limit + (count + (log + rest)))));
    lemma_i32_round_trip(c.id as i32, balance + (limit + (count + (log + rest))));
    lemma_split_prefix(id, balance + (limit + (count + (log + rest))));
    lemma_i32_round_trip(c.balance as i32, limit + (count + (log + rest)));
    assert(whole.skip(8) =~= limit + (count + (log + rest)));
    lemma_i32_round_trip(c.limit as i32, count + (log + rest));
    assert(whole.skip(12) =~= count + (log + rest));
    lemma_u32_round_trip(c.latest_transactions.len() as u32, log + rest);
    assert(whole.skip(16) =~= log + rest);
    lemma_entries_round_trip(c.latest_transactions, rest);
}

/// What is kept is what is read: a client that fits is read back from
/// exactly the bytes in which it is kept.
pub proof fn lemma_client_read_back(c: ClientView)
    requires
        client_fits(c),
    ensures
        dec_client(enc_client(c)) == Some(c),
{
    lemma_client_round_trip(c, Seq::empty());
    assert(enc_client(c) + Seq::<u8>::empty() =~= enc_client(c));
}

/// Where the first `i` entries cannot be read, no more of them can.
pub proof fn lemma_dec_entries_fails_on(b: Seq<u8>, i: nat, n: nat)
    requires
        i <= n,
        dec_entries(b, i) is None,
    ensures
        dec_entries(b, n) is None,
    decreases n,
{
    if i < n {
        lemma_dec_entries_fails_on(b, i, (n - 1) as nat);
    }
}

fn push_entry(out: &mut Vec<u8>, t: &TransactionDTO)
    requires
        entry_fits(t@),
    ensures
        final(out)@ == old(out)@ + enc_entry(t@),
{
    push_i32(out, t.value);
    match t.kind {
        Kind::C => push_u32(out, TAG_CREDIT),
        Kind::D => push_u32(out, TAG_DEBIT),
    }
    push_text(out, t.description.as_str());
    push_text(out, t.date.as_str());
    proof {
        assert(final(out)@ =~= old(out)@ + enc_entry(t@));
    }
}

fn take_entry(b: &[u8], pos: usize) -> (r: Option<(TransactionDTO, usize)>)
    requires
        pos <= b@.len(),
    ensures
        match dec_entry(b@.skip(pos as int)) {
            Some((x, k)) => r matches Some((t, end)) && t@ == x && end == pos + k && end
                <= b@.len(),
            None => r is None,
        },
{
    let ghost input = b@.skip(pos as int);
    let (value, after_value) = match take_i32(b, pos) {
        None => { return None; },
        Some(read) => read,
    };
    proof {
        assert(input.skip(4) =~= b@.skip(after_value as int));
    }
    let (tag, after_kind) = match take_u32(b, after_value) {
        None => { return None; },
        Some(read) => read,
    };
    let kind = if tag == TAG_CREDIT {
        Kind::C
    } else if tag == TAG_DEBIT {
        Kind::D
    } else {
        return None;
    };
    proof {
        assert(input.skip(8) =~= b@.skip(after_kind as int));
    }
    let (description, after_description) = match take_text(b, after_kind) {
        None => { return None; },
        Some(read) => read,
    };
    proof {
        assert(input.skip(after_description - pos) =~= b@.skip(after_description as int));
    }
    let (date, end) = match take_text(b, after_description) {
        None => { return None; },
        Some(read) => read,
    };
    Some((TransactionDTO { value, kind, description, date }, end))
}

impl Client {
    /// Whether every text of the log is short enough for its length to be
    /// written in four bytes, and the log for its number of entries.
    pub fn fits_segment(&self) -> (ok: bool)
        ensures
            ok == client_fits(self@),
    {
        let count: usize = self.latest_transactions.len();
        if count > u32::MAX as usize {
            return false;
        }
        let mut i: usize = 0;
        while i < count
            invariant
                i <= count,
                count == self.latest_transactions@.len(),
                forall|j: int| 0 <= j < i ==> entry_fits(#[trigger] self@.latest_transactions[j]),
            decreases count - i,
        {
            let t = &self.latest_transactions[i];
            if t.description.as_str().as_bytes().len() > u32::MAX as usize
                || t.date.as_str().as_bytes().len() > u32::MAX as usize {
                assert(!entry_fits(self@.latest_transactions[i as int]));
                return false;
            }
            i = i + 1;
        }
        true
    }

    /// The bytes in which this client is kept, or nothing where a length
    /// does not fit the four bytes that it is written in.
    pub fn segment_bytes(&self) -> (bytes: Option<Vec<u8>>)
        ensures
            match bytes {
                Some(b) => storable(self@) && b@ == enc_client(self@),
                None => !storable(self@),
            },
    {
        if !self.fits_segment() {
            return None;
        }
        let bytes = self.encode();
        if bytes.len() > u32::MAX as usize {
            None
        } else {
            Some(bytes)
        }
    }

    /// Whether this client can be kept in a segment.
    pub fn is_storable(&self) -> (ok: bool)
        ensures
            ok == storable(self@),
    {
        self.segment_bytes().is_some()
    }

    /// The bytes in which this client is kept.
    pub fn encode(&self) -> (bytes: Vec<u8>)
        requires
            client_fits(self@),
        ensures
            bytes@ == enc_client(self@),
    {
        let mut out: Vec<u8> = Vec::new();
        push_i32(&mut out, self._id);
        push_i32(&mut out, self.balance);
        push_i32(&mut out, self.limit);
        let count: usize = self.latest_transactions.len();
        push_u32(&mut out, count as u32);
        let ghost head = out@;
        let ghost views = self@.latest_transactions;
        let mut i: usize = 0;
        while i < count
            invariant
                i <= count,
                count == self.latest_transactions@.len(),
                views == self@.latest_transactions,
                client_fits(self@),
                out@ == head + enc_entries(views.take(i as int)),
            decreases count - i,
        {
            assert(views[i as int] == self.latest_transactions@[i as int]@);
            assert(entry_fits(views[i as int]));
            push_entry(&mut out, &self.latest_transactions[i]);
            proof {
                let done = views.take(i as int);
                let next = views.take(i + 1);
                assert(next.drop_last() =~= done);
                assert(next.last() == views[i as int]);
                assert(out@ =~= head + enc_entries(next));
            }
            i = i + 1;
        }
        proof {
            assert(views.take(count as int) =~= views);
            assert(out@ =~= enc_client(self@));
        }
        out
    }

    /// The client that `bytes` start with, or nothing where they start with
    /// none. Bytes behind the client are passed over.
    pub fn decode(bytes: &[u8]) -> (r: Option<Client>)
        ensures
            match dec_client(bytes@) {
                Some(x) => r matches Some(client) && client@ == x,
                None => r is None,
            },
    {
        let ghost input = bytes@;
        proof {
            assert(input.skip(0) =~= input);
        }
        let (id, after_id) = match take_i32(bytes, 0) {
            None => { return None; },
            Some(read) => read,
        };
        let (balance, after_balance) = match take_i32(bytes, after_id) {
            None => { return None; },
            Some(read) => read,
        };
        let (limit, after_limit) = match take_i32(bytes, after_balance) {
            None => { return None; },
            Some(read) => read,
        };
        let (count, start) = match take_u32(bytes, after_limit) {
            None => { return None; },
            Some(read) => read,
        };
        let ghost listed = input.skip(16);
        let mut entries: Vec<TransactionDTO> = Vec::new();
        let mut cur: usize = start;
        let mut i: u32 = 0;
        while i < count
            invariant
                i <= count,
                start == 16,
                start <= cur <= bytes@.len(),
                input == bytes@,
                listed == input.skip(16),
                entries@.len() == i,
                dec_entries(listed, i as nat) == Some(
                    (entries@.map_values(|t: TransactionDTO| t@), cur - start),
                ),
                dec_i32(input) == Some((id, 4int)),
                dec_i32(input.skip(4)) == Some((balance, 4int)),
                dec_i32(input.skip(8)) == Some((limit, 4int)),
                dec_u32(input.skip(12)) == Some((count, 4int)),
            decreases count - i,
        {
            proof {
                assert(listed.skip(cur - start) =~= bytes@.skip(cur as int));
            }
            match take_entry(bytes, cur) {
                None => {
                    proof {
                        assert(dec_entries(listed, (i + 1) as nat) is None);
                        lemma_dec_entries_fails_on(listed, (i + 1) as nat, count as nat);
                    }
                    return None;
                },
                Some((entry, end)) => {
                    proof {
                        assert(entries@.push(entry).map_values(|t: TransactionDTO| t@)
                            =~= entries@.map_values(|t: TransactionDTO| t@).push(entry@));
                    }
                    entries.push(entry);
                    cur = end;
                    i = i + 1;
                },
            }
        }
        Some(Client { _id: id, balance, limit, latest_transactions: entries })
    }
}

} // verus!
