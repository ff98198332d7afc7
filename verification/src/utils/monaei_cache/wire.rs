//! The byte encoding of protocol values.
//!
//! A tagged union is its variant's index as four little-endian bytes and then
//! the variant's fields in order. An optional field is a presence byte and
//! then the field where it is present. Integers are fixed-width and
//! little-endian. Text and byte strings carry their length in four bytes
//! before their content, lists their number of items.

use super::{CommandView, Error, Incrementable, IncrementOpts, ValueView};
use crate::utils::le::{
    from_twos_complement, le_bytes, le_value, lemma_le_bytes_len, lemma_le_value_of_bytes,
    lemma_pow256_values, twos_complement,
};
use vstd::prelude::*;
use vstd::utf8::*;

verus! {

pub const TAG_NIL: u32 = 0;

pub const TAG_STRING: u32 = 1;

pub const TAG_NAT: u32 = 2;

pub const TAG_INT: u32 = 3;

pub const TAG_BOOL: u32 = 4;

pub const TAG_INC: u32 = 5;

pub const TAG_BIN: u32 = 6;

pub const TAG_LIST: u32 = 7;

pub open spec fn enc_u32(x: u32) -> Seq<u8> {
    le_bytes(x as nat, 4)
}

pub open spec fn enc_u64(x: u64) -> Seq<u8> {
    le_bytes(x as nat, 8)
}

pub open spec fn enc_i32(x: i32) -> Seq<u8> {
    le_bytes(twos_complement(x as int), 4)
}

pub open spec fn enc_bool(b: bool) -> Seq<u8> {
    seq![if b { 1u8 } else { 0u8 }]
}

pub open spec fn enc_opt_i32(o: Option<i32>) -> Seq<u8> {
    match o {
        Some(x) => enc_bool(true) + enc_i32(x),
        None => enc_bool(false),
    }
}

pub open spec fn enc_opt_bool(o: Option<bool>) -> Seq<u8> {
    match o {
        Some(b) => enc_bool(true) + enc_bool(b),
        None => enc_bool(false),
    }
}

pub open spec fn enc_opt_u64(o: Option<u64>) -> Seq<u8> {
    match o {
        Some(x) => enc_bool(true) + enc_u64(x),
        None => enc_bool(false),
    }
}

/// A byte string behind its length.
pub open spec fn enc_bytes(b: Seq<u8>) -> Seq<u8> {
    enc_u32(b.len() as u32) + b
}

/// A text as the UTF-8 bytes behind their number.
pub open spec fn enc_text(s: Seq<char>) -> Seq<u8> {
    enc_bytes(encode_utf8(s))
}

pub open spec fn enc_inc(inc: Incrementable) -> Seq<u8> {
    enc_i32(inc.value) + enc_opt_i32(inc.lower_limit) + enc_opt_i32(inc.upper_limit)
}

pub open spec fn enc_value(v: ValueView) -> Seq<u8>
    decreases v, 0nat,
{
    match v {
        ValueView::Nil => enc_u32(TAG_NIL),
        ValueView::String(text) => enc_u32(TAG_STRING) + enc_text(text),
        ValueView::Nat(n) => enc_u32(TAG_NAT) + enc_u32(n),
        ValueView::Int(n) => enc_u32(TAG_INT) + enc_i32(n),
        ValueView::Bool(b) => enc_u32(TAG_BOOL) + enc_bool(b),
        ValueView::Inc(inc) => enc_u32(TAG_INC) + enc_inc(inc),
        ValueView::Bin(bytes) => enc_u32(TAG_BIN) + enc_bytes(bytes),
        ValueView::List(items) => enc_u32(TAG_LIST) + enc_u32(items.len() as u32) + enc_values(
            items,
        ),
    }
}

/// The encodings of `items`, one behind the other.
pub open spec fn enc_values(items: Seq<ValueView>) -> Seq<u8>
    decreases items, items.len(),
{
    if items.len() == 0 {
        Seq::empty()
    } else {
        enc_values(items.drop_last()) + enc_value(items.last())
    }
}

/// Whether every length in `v` can be written in four bytes.
pub open spec fn fits(v: ValueView) -> bool
    decreases v,
{
    match v {
        ValueView::String(text) => encode_utf8(text).len() <= u32::MAX,
        ValueView::Bin(bytes) => bytes.len() <= u32::MAX,
        ValueView::List(items) => items.len() <= u32::MAX && forall|i: int|
            0 <= i < items.len() ==> fits(#[trigger] items[i]),
        _ => true,
    }
}

pub open spec fn dec_u32(b: Seq<u8>) -> Option<(u32, int)> {
    if b.len() >= 4 {
        Some((le_value(b.take(4)) as u32, 4))
    } else {
        None
    }
}

pub open spec fn dec_i32(b: Seq<u8>) -> Option<(i32, int)> {
    if b.len() >= 4 {
        Some((from_twos_complement(le_value(b.take(4))) as i32, 4))
    } else {
        None
    }
}

/// A byte that is zero reads as `false`, any other as `true`.
pub open spec fn dec_bool(b: Seq<u8>) -> Option<(bool, int)> {
    if b.len() >= 1 {
        Some((b[0] != 0, 1))
    } else {
        None
    }
}

pub open spec fn dec_opt_i32(b: Seq<u8>) -> Option<(Option<i32>, int)> {
    match dec_bool(b) {
        Some((true, _)) => match dec_i32(b.skip(1)) {
            Some((x, _)) => Some((Some(x), 5)),
            None => None,
        },
        Some((false, _)) => Some((None, 1)),
        None => None,
    }
}

pub open spec fn dec_bytes(b: Seq<u8>) -> Option<(Seq<u8>, int)> {
    match dec_u32(b) {
        Some((n, _)) => if b.len() >= 4 + n {
            Some((b.subrange(4, 4 + n), 4 + n))
        } else {
            None
        },
        None => None,
    }
}

pub open spec fn dec_text(b: Seq<u8>) -> Option<(Seq<char>, int)> {
    match dec_bytes(b) {
        Some((raw, k)) => if valid_utf8(raw) {
            Some((decode_utf8(raw), k))
        } else {
            None
        },
        None => None,
    }
}

pub open spec fn dec_inc(b: Seq<u8>) -> Option<(Incrementable, int)> {
    match dec_i32(b) {
        Some((value, _)) => match dec_opt_i32(b.skip(4)) {
            Some((lower_limit, k1)) => match dec_opt_i32(b.skip(4 + k1)) {
                Some((upper_limit, k2)) => Some(
                    (Incrementable { value, lower_limit, upper_limit }, 4 + k1 + k2),
                ),
                None => None,
            },
            None => None,
        },
        None => None,
    }
}

/// The value that `b` starts with and the number of bytes it takes, or
/// `None` where `b` starts with no value.
pub open spec fn dec_value(b: Seq<u8>) -> Option<(ValueView, int)>
    decreases b.len(), 0nat,
{
    match dec_u32(b) {
        None => None,
        Some((tag, _)) => {
            let body = b.skip(4);
            if tag == TAG_NIL {
                Some((ValueView::Nil, 4))
            } else if tag == TAG_STRING {
                match dec_text(body) {
                    Some((text, k)) => Some((ValueView::String(text), 4 + k)),
                    None => None,
                }
            } else if tag == TAG_NAT {
                match dec_u32(body) {
                    Some((n, k)) => Some((ValueView::Nat(n), 4 + k)),
                    None => None,
                }
            } else if tag == TAG_INT {
                match dec_i32(body) {
                    Some((n, k)) => Some((ValueView::Int(n), 4 + k)),
                    None => None,
                }
            } else if tag == TAG_BOOL {
                match dec_bool(body) {
                    Some((flag, k)) => Some((ValueView::Bool(flag), 4 + k)),
                    None => None,
                }
            } else if tag == TAG_INC {
                match dec_inc(body) {
                    Some((inc, k)) => Some((ValueView::Inc(inc), 4 + k)),
                    None => None,
                }
            } else if tag == TAG_BIN {
                match dec_bytes(body) {
                    Some((bytes, k)) => Some((ValueView::Bin(bytes), 4 + k)),
                    None => None,
                }
            } else if tag == TAG_LIST {
                match dec_u32(body) {
                    Some((n, _)) => match dec_values(b.skip(8), n as nat) {
                        Some((items, k)) => Some((ValueView::List(items), 8 + k)),
                        None => None,
                    },
                    None => None,
                }
            } else {
                None
            }
        },
    }
}

/// The `n` values that `b` starts with and the number of bytes they take.
pub open spec fn dec_values(b: Seq<u8>, n: nat) -> Option<(Seq<ValueView>, int)>
    decreases b.len(), n + 1,
{
    if n == 0 {
        Some((Seq::empty(), 0))
    } else {
        match dec_values(b, (n - 1) as nat) {
            Some((earlier, k)) => if 0 <= k <= b.len() {
                match dec_value(b.skip(k)) {
                    Some((last, k_last)) => Some((earlier.push(last), k + k_last)),
                    None => None,
                }
            } else {
                None
            },
            None => None,
        }
    }
}

pub const TAG_PUT: u32 = 0;

pub const TAG_GET: u32 = 1;

pub const TAG_REMOVE: u32 = 2;

pub const TAG_INCREMENT: u32 = 3;

pub const TAG_ADD_TO_SET: u32 = 4;

pub const TAG_LIMIT_REACHED: u32 = 0;

pub const TAG_TYPE_ERROR: u32 = 1;

pub const TAG_NOT_FOUND: u32 = 2;

pub open spec fn enc_opts(opts: IncrementOpts) -> Seq<u8> {
    enc_opt_i32(opts.lower_limit) + enc_opt_i32(opts.upper_limit) + enc_opt_bool(opts.create)
}

pub open spec fn enc_opt_opts(o: Option<IncrementOpts>) -> Seq<u8> {
    match o {
        Some(opts) => enc_bool(true) + enc_opts(opts),
        None => enc_bool(false),
    }
}

/// A size limit travels in eight bytes.
pub open spec fn enc_opt_size(o: Option<usize>) -> Seq<u8> {
    match o {
        Some(n) => enc_opt_u64(Some(n as u64)),
        None => enc_opt_u64(None),
    }
}

pub open spec fn enc_command(c: CommandView) -> Seq<u8> {
    match c {
        CommandView::Put(key, value) => enc_u32(TAG_PUT) + enc_text(key) + enc_value(value),
        CommandView::Get(key) => enc_u32(TAG_GET) + enc_text(key),
        CommandView::Remove(key) => enc_u32(TAG_REMOVE) + enc_text(key),
        CommandView::Increment(key, delta, opts) => enc_u32(TAG_INCREMENT) + enc_text(key)
            + enc_i32(delta) + enc_opt_opts(opts),
        CommandView::AddToSet(key, value, max_size) => enc_u32(TAG_ADD_TO_SET) + enc_text(key)
            + enc_value(value) + enc_opt_size(max_size),
    }
}

/// Whether every length in `c` can be written in four bytes.
pub open spec fn command_fits(c: CommandView) -> bool {
    match c {
        CommandView::Put(key, value) => encode_utf8(key).len() <= u32::MAX && fits(value),
        CommandView::Get(key) => encode_utf8(key).len() <= u32::MAX,
        CommandView::Remove(key) => encode_utf8(key).len() <= u32::MAX,
        CommandView::Increment(key, _, _) => encode_utf8(key).len() <= u32::MAX,
        CommandView::AddToSet(key, value, _) => encode_utf8(key).len() <= u32::MAX && fits(
            value,
        ),
    }
}

pub open spec fn enc_error(e: Error) -> Seq<u8> {
    match e {
        Error::LimitReached => enc_u32(TAG_LIMIT_REACHED),
        Error::TypeError => enc_u32(TAG_TYPE_ERROR),
        Error::NotFound => enc_u32(TAG_NOT_FOUND),
    }
}

pub open spec fn dec_error(b: Seq<u8>) -> Option<(Error, int)> {
    match dec_u32(b) {
        Some((tag, k)) => if tag == TAG_LIMIT_REACHED {
            Some((Error::LimitReached, k))
        } else if tag == TAG_TYPE_ERROR {
            Some((Error::TypeError, k))
        } else if tag == TAG_NOT_FOUND {
            Some((Error::NotFound, k))
        } else {
            None
        },
        None => None,
    }
}

/// The answer to an increment: a presence byte, then the new value where
/// the byte is set and the refusal where it is not.
pub open spec fn enc_reply(reply: Result<ValueView, Error>) -> Seq<u8> {
    match reply {
        Ok(value) => enc_bool(true) + enc_value(value),
        Err(error) => enc_bool(false) + enc_error(error),
    }
}

pub open spec fn dec_reply(b: Seq<u8>) -> Option<(Result<ValueView, Error>, int)> {
    match dec_bool(b) {
        Some((true, _)) => match dec_value(b.skip(1)) {
            Some((value, k)) => Some((Ok(value), 1 + k)),
            None => None,
        },
        Some((false, _)) => match dec_error(b.skip(1)) {
            Some((error, k)) => Some((Err(error), 1 + k)),
            None => None,
        },
        None => None,
    }
}

/// What stands behind a prefix is what was put behind it.
pub proof fn lemma_split_prefix(a: Seq<u8>, rest: Seq<u8>)
    ensures
        (a + rest).skip(a.len() as int) == rest,
        (a + rest).take(a.len() as int) == a,
        (a + rest).len() == a.len() + rest.len(),
{
    assert((a + rest).skip(a.len() as int) =~= rest);
    assert((a + rest).take(a.len() as int) =~= a);
}

pub proof fn lemma_u32_round_trip(x: u32, rest: Seq<u8>)
    ensures
        enc_u32(x).len() == 4,
        dec_u32(enc_u32(x) + rest) == Some((x, 4int)),
{
    lemma_le_bytes_len(x as nat, 4);
    lemma_pow256_values();
    lemma_le_value_of_bytes(x as nat, 4);
    lemma_split_prefix(enc_u32(x), rest);
}

pub proof fn lemma_i32_round_trip(x: i32, rest: Seq<u8>)
    ensures
        enc_i32(x).len() == 4,
        dec_i32(enc_i32(x) + rest) == Some((x, 4int)),
{
    let raw = twos_complement(x as int);
    lemma_le_bytes_len(raw, 4);
    lemma_pow256_values();
    lemma_le_value_of_bytes(raw, 4);
    lemma_split_prefix(enc_i32(x), rest);
}

pub proof fn lemma_bool_round_trip(b: bool, rest: Seq<u8>)
    ensures
        enc_bool(b).len() == 1,
        dec_bool(enc_bool(b) + rest) == Some((b, 1int)),
{
}

pub proof fn lemma_opt_i32_round_trip(o: Option<i32>, rest: Seq<u8>)
    ensures
        dec_opt_i32(enc_opt_i32(o) + rest) == Some((o, enc_opt_i32(o).len() as int)),
        1 <= enc_opt_i32(o).len() <= 5,
{
    match o {
        Some(x) => {
            let whole = enc_opt_i32(o) + rest;
            assert(whole =~= enc_bool(true) + (enc_i32(x) + rest));
            lemma_bool_round_trip(true, enc_i32(x) + rest);
            lemma_split_prefix(enc_bool(true), enc_i32(x) + rest);
            lemma_i32_round_trip(x, rest);
        },
        None => {
            lemma_bool_round_trip(false, rest);
        },
    }
}

pub proof fn lemma_bytes_round_trip(b: Seq<u8>, rest: Seq<u8>)
    requires
        b.len() <= u32::MAX,
    ensures
        enc_bytes(b).len() == 4 + b.len(),
        dec_bytes(enc_bytes(b) + rest) == Some((b, 4 + b.len() as int)),
{
    let n = b.len() as u32;
    let whole = enc_bytes(b) + rest;
    assert(whole =~= enc_u32(n) + (b + rest));
    lemma_u32_round_trip(n, b + rest);
    assert(whole.subrange(4, 4 + n) =~= b);
}

pub proof fn lemma_text_round_trip(text: Seq<char>, rest: Seq<u8>)
    requires
        encode_utf8(text).len() <= u32::MAX,
    ensures
        enc_text(text).len() == 4 + encode_utf8(text).len(),
        dec_text(enc_text(text) + rest) == Some((text, 4 + encode_utf8(text).len() as int)),
{
    lemma_bytes_round_trip(encode_utf8(text), rest);
    encode_utf8_valid_utf8(text);
    encode_utf8_decode_utf8(text);
}

pub proof fn lemma_inc_round_trip(inc: Incrementable, rest: Seq<u8>)
    ensures
        dec_inc(enc_inc(inc) + rest) == Some((inc, enc_inc(inc).len() as int)),
{
    let lower = enc_opt_i32(inc.lower_limit);
    let upper = enc_opt_i32(inc.upper_limit);
    let whole = enc_inc(inc) + rest;
    assert(whole =~= enc_i32(inc.value) + (lower + (upper + rest)));
    lemma_i32_round_trip(inc.value, lower + (upper + rest));
    lemma_split_prefix(enc_i32(inc.value), lower + (upper + rest));
    lemma_opt_i32_round_trip(inc.lower_limit, upper + rest);
    assert(whole.skip(4 + lower.len() as int) =~= upper + rest);
    lemma_opt_i32_round_trip(inc.upper_limit, rest);
}

/// What stands behind a tag is read as the tag and then as what follows it.
pub proof fn lemma_tagged(tag: u32, body: Seq<u8>, rest: Seq<u8>)
    ensures
        enc_u32(tag) + body + rest == enc_u32(tag) + (body + rest),
        dec_u32(enc_u32(tag) + body + rest) == Some((tag, 4int)),
        (enc_u32(tag) + body + rest).skip(4) == body + rest,
        (enc_u32(tag) + body).len() == 4 + body.len(),
{
    assert(enc_u32(tag) + body + rest =~= enc_u32(tag) + (body + rest));
    lemma_u32_round_trip(tag, body + rest);
    lemma_split_prefix(enc_u32(tag), body + rest);
}

/// Wire round trip: a value that fits is read back from its encoding,
/// whatever follows it, and the reading takes exactly the encoding's bytes.
pub proof fn lemma_value_round_trip(v: ValueView, rest: Seq<u8>)
    requires
        fits(v),
    ensures
        dec_value(enc_value(v) + rest) == Some((v, enc_value(v).len() as int)),
    decreases v, 0nat,
{
    match v {
        ValueView::Nil => {
            lemma_u32_round_trip(TAG_NIL, rest);
        },
        ValueView::String(text) => {
            lemma_tagged(TAG_STRING, enc_text(text), rest);
            lemma_text_round_trip(text, rest);
        },
        ValueView::Nat(n) => {
            lemma_tagged(TAG_NAT, enc_u32(n), rest);
            lemma_u32_round_trip(n, rest);
        },
        ValueView::Int(n) => {
            lemma_tagged(TAG_INT, enc_i32(n), rest);
            lemma_i32_round_trip(n, rest);
        },
        ValueView::Bool(flag) => {
            lemma_tagged(TAG_BOOL, enc_bool(flag), rest);
            lemma_bool_round_trip(flag, rest);
        },
        ValueView::Inc(inc) => {
            lemma_tagged(TAG_INC, enc_inc(inc), rest);
            lemma_inc_round_trip(inc, rest);
        },
        ValueView::Bin(bytes) => {
            lemma_tagged(TAG_BIN, enc_bytes(bytes), rest);
            lemma_bytes_round_trip(bytes, rest);
        },
        ValueView::List(items) => {
            lemma_list_round_trip(items, rest);
        },
    }
}

/// Wire round trip for a list, given that of its items.
proof fn lemma_list_round_trip(items: Seq<ValueView>, rest: Seq<u8>)
    requires
        fits(ValueView::List(items)),
    ensures
        dec_value(enc_value(ValueView::List(items)) + rest) == Some(
            (ValueView::List(items), enc_value(ValueView::List(items)).len() as int),
        ),
    decreases items, items.len() + 1,
{
    let count = items.len() as u32;
    let body = enc_u32(count) + enc_values(items);
    let whole = enc_value(ValueView::List(items)) + rest;
    assert(enc_value(ValueView::List(items)) =~= enc_u32(TAG_LIST) + body);
    lemma_tagged(TAG_LIST, body, rest);
    assert(body + rest =~= enc_u32(count) + (enc_values(items) + rest));
    lemma_u32_round_trip(count, enc_values(items) + rest);
    lemma_split_prefix(enc_u32(count), enc_values(items) + rest);
    assert(whole.skip(8) =~= enc_values(items) + rest);
    lemma_values_round_trip(items, rest);
}

/// Wire round trip for a run of values.
pub proof fn lemma_values_round_trip(items: Seq<ValueView>, rest: Seq<u8>)
    requires
        forall|i: int| 0 <= i < items.len() ==> fits(#[trigger] items[i]),
    ensures
        dec_values(enc_values(items) + rest, items.len()) == Some(
            (items, enc_values(items).len() as int),
        ),
    decreases items, items.len(),
{
    if items.len() == 0 {
        assert(dec_values(enc_values(items) + rest, 0).unwrap().0 =~= items);
    } else {
        let earlier = items.drop_last();
        let last = items.last();
        let whole = enc_values(items) + rest;
        let tail = enc_value(last) + rest;
        assert(whole =~= enc_values(earlier) + tail);
        assert forall|i: int| 0 <= i < earlier.len() implies fits(#[trigger] earlier[i]) by {
            assert(earlier[i] == items[i]);
        }
        lemma_values_round_trip(earlier, tail);
        lemma_split_prefix(enc_values(earlier), tail);
        lemma_value_round_trip(last, rest);
        assert(earlier.push(last) =~= items);
    }
}

/// Where the first `i` values cannot be read, no more of them can.
pub proof fn lemma_dec_values_fails_on(b: Seq<u8>, i: nat, n: nat)
    requires
        i <= n,
        dec_values(b, i) is None,
    ensures
        dec_values(b, n) is None,
    decreases n,
{
    if i < n {
        lemma_dec_values_fails_on(b, i, (n - 1) as nat);
    }
}

/// What has been read lies within what was there to read.
pub proof fn lemma_dec_value_within(b: Seq<u8>)
    ensures
        dec_value(b) matches Some((_, k)) ==> 4 <= k <= b.len(),
    decreases b.len(), 0nat,
{
    if let Some((tag, _)) = dec_u32(b) {
        if tag == TAG_LIST {
            if let Some((n, _)) = dec_u32(b.skip(4)) {
                lemma_dec_values_within(b.skip(8), n as nat);
            }
        }
    }
}

/// What has been read lies within what was there to read.
pub proof fn lemma_dec_values_within(b: Seq<u8>, n: nat)
    ensures
        dec_values(b, n) matches Some((items, k)) ==> 0 <= k <= b.len() && items.len() == n,
    decreases b.len(), n + 1,
{
    if n > 0 {
        lemma_dec_values_within(b, (n - 1) as nat);
        if let Some((_, k)) = dec_values(b, (n - 1) as nat) {
            lemma_dec_value_within(b.skip(k));
        }
    }
}

/// Wire round trip: a value that fits is read back from its encoding.
pub proof fn lemma_round_trip(v: ValueView)
    requires
        fits(v),
    ensures
        dec_value(enc_value(v)) == Some((v, enc_value(v).len() as int)),
{
    lemma_value_round_trip(v, Seq::empty());
    assert(enc_value(v) + Seq::<u8>::empty() =~= enc_value(v));
}

/// No two values share their bytes: values that fit and have the same
/// encoding are the same value.
pub proof fn lemma_encoding_is_injective(a: ValueView, b: ValueView)
    requires
        fits(a),
        fits(b),
        enc_value(a) == enc_value(b),
    ensures
        a == b,
{
    lemma_round_trip(a);
    lemma_round_trip(b);
}

/// An answer to an increment is read back from its encoding.
pub proof fn lemma_reply_round_trip(reply: Result<ValueView, Error>)
    requires
        reply matches Ok(value) ==> fits(value),
    ensures
        dec_reply(enc_reply(reply)) == Some((reply, enc_reply(reply).len() as int)),
{
    match reply {
        Ok(value) => {
            lemma_split_prefix(enc_bool(true), enc_value(value));
            lemma_round_trip(value);
        },
        Err(error) => {
            lemma_split_prefix(enc_bool(false), enc_error(error));
            match error {
                Error::LimitReached => lemma_u32_round_trip(TAG_LIMIT_REACHED, Seq::empty()),
                Error::TypeError => lemma_u32_round_trip(TAG_TYPE_ERROR, Seq::empty()),
                Error::NotFound => lemma_u32_round_trip(TAG_NOT_FOUND, Seq::empty()),
            }
            assert(enc_error(error) + Seq::<u8>::empty() =~= enc_error(error));
        },
    }
}

} // verus!
