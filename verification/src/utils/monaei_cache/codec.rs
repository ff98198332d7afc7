//! Writing protocol values to bytes and reading them back.

use super::wire::{
    command_fits, dec_error, dec_reply, enc_command, enc_opt_opts, enc_opt_size, enc_opts,
    TAG_ADD_TO_SET, TAG_GET, TAG_INCREMENT, TAG_LIMIT_REACHED, TAG_NOT_FOUND, TAG_PUT,
    TAG_REMOVE, TAG_TYPE_ERROR, dec_bool, dec_bytes, dec_i32, dec_inc, dec_opt_i32, dec_text, dec_u32, dec_value, dec_values,
    enc_bool, enc_bytes, enc_i32, enc_inc, enc_opt_bool, enc_opt_i32, enc_opt_u64, enc_text,
    enc_u32, enc_u64, enc_value, enc_values, fits, lemma_dec_value_within,
    lemma_dec_values_fails_on, TAG_BIN, TAG_BOOL, TAG_INC, TAG_INT,
    TAG_LIST, TAG_NAT, TAG_NIL, TAG_STRING,
};
use super::{
    lemma_views_of, views_of, Error, Incrementable, IncrementOpts, MonaeicacheCommand, Value,
    ValueView,
};
use crate::utils::le::{
    append_bytes, copy_range, push_i32, push_u32, push_u64, read_i32, read_u32,
};
use vstd::prelude::*;
use vstd::utf8::{decode_utf8, encode_utf8, valid_utf8};

verus! {

broadcast use vstd::std_specs::vec::group_vec_axioms;

pub fn push_bool(out: &mut Vec<u8>, flag: bool)
    ensures
        final(out)@ == old(out)@ + enc_bool(flag),
{
    out.push(if flag { 1u8 } else { 0u8 });
    proof {
        assert(final(out)@ =~= old(out)@ + enc_bool(flag));
    }
}

pub fn push_opt_i32(out: &mut Vec<u8>, field: Option<i32>)
    ensures
        final(out)@ == old(out)@ + enc_opt_i32(field),
{
    match field {
        Some(x) => {
            push_bool(out, true);
            push_i32(out, x);
            proof {
                assert(final(out)@ =~= old(out)@ + enc_opt_i32(field));
            }
        },
        None => {
            push_bool(out, false);
        },
    }
}

pub fn push_opt_bool(out: &mut Vec<u8>, field: Option<bool>)
    ensures
        final(out)@ == old(out)@ + enc_opt_bool(field),
{
    match field {
        Some(flag) => {
            push_bool(out, true);
            push_bool(out, flag);
            proof {
                assert(final(out)@ =~= old(out)@ + enc_opt_bool(field));
            }
        },
        None => {
            push_bool(out, false);
        },
    }
}

pub fn push_opt_u64(out: &mut Vec<u8>, field: Option<u64>)
    ensures
        final(out)@ == old(out)@ + enc_opt_u64(field),
{
    match field {
        Some(x) => {
            push_bool(out, true);
            push_u64(out, x);
            proof {
                assert(final(out)@ =~= old(out)@ + enc_opt_u64(field));
            }
        },
        None => {
            push_bool(out, false);
        },
    }
}

/// Appends the number of bytes of `block` and then the bytes.
pub fn push_block(out: &mut Vec<u8>, block: &[u8])
    requires
        block@.len() <= u32::MAX,
    ensures
        final(out)@ == old(out)@ + enc_bytes(block@),
{
    push_u32(out, block.len() as u32);
    append_bytes(out, block);
    proof {
        assert(final(out)@ =~= old(out)@ + enc_bytes(block@));
    }
}

/// Appends `text` as its UTF-8 bytes behind their number.
pub fn push_text(out: &mut Vec<u8>, text: &str)
    requires
        encode_utf8(text@).len() <= u32::MAX,
    ensures
        final(out)@ == old(out)@ + enc_text(text@),
{
    push_block(out, text.as_bytes());
}

pub fn push_inc(out: &mut Vec<u8>, inc: &Incrementable)
    ensures
        final(out)@ == old(out)@ + enc_inc(*inc),
{
    push_i32(out, inc.value);
    push_opt_i32(out, inc.lower_limit);
    push_opt_i32(out, inc.upper_limit);
    proof {
        assert(final(out)@ =~= old(out)@ + enc_inc(*inc));
    }
}

/// Appends the encoding of `value`.
pub fn push_value(out: &mut Vec<u8>, value: &Value)
    requires
        fits(value@),
    ensures
        final(out)@ == old(out)@ + enc_value(value@),
    decreases value,
{
    let ghost before = out@;
    match value {
        Value::Nil => {
            push_u32(out, TAG_NIL);
        },
        Value::String(text) => {
            push_u32(out, TAG_STRING);
            push_text(out, text.as_str());
            proof {
                assert(out@ =~= before + enc_value(value@));
            }
        },
        Value::Nat(n) => {
            push_u32(out, TAG_NAT);
            push_u32(out, *n);
            proof {
                assert(out@ =~= before + enc_value(value@));
            }
        },
        Value::Int(n) => {
            push_u32(out, TAG_INT);
            push_i32(out, *n);
            proof {
                assert(out@ =~= before + enc_value(value@));
            }
        },
        Value::Bool(flag) => {
            push_u32(out, TAG_BOOL);
            push_bool(out, *flag);
            proof {
                assert(out@ =~= before + enc_value(value@));
            }
        },
        Value::Inc(inc) => {
            push_u32(out, TAG_INC);
            push_inc(out, inc);
            proof {
                assert(out@ =~= before + enc_value(value@));
            }
        },
        Value::Bin(bytes) => {
            push_u32(out, TAG_BIN);
            push_block(out, bytes.as_slice());
            proof {
                assert(out@ =~= before + enc_value(value@));
            }
        },
        Value::List(items) => {
            let count: usize = items.len();
            let ghost views = views_of(items@);
            proof {
                lemma_views_of(items@);
            }
            push_u32(out, TAG_LIST);
            push_u32(out, count as u32);
            let ghost head = out@;
            let mut i: usize = 0;
            while i < count
                invariant
                    i <= count,
                    count == items@.len(),
                    views == views_of(items@),
                    *value == Value::List(*items),
                    forall|j: int| 0 <= j < count ==> fits(#[trigger] views[j]),
                    out@ == head + enc_values(views.take(i as int)),
                decreases count - i,
            {
                proof {
                    lemma_views_of(items@);
                    assert(views[i as int] == items@[i as int]@);
                    assert(fits(views[i as int]));
                    assert(value->List_0 == *items);
                }
                push_value(out, &items[i]);
                proof {
                    let done = views.take(i as int);
                    let next = views.take(i + 1);
                    assert(next.drop_last() =~= done);
                    assert(next.last() == views[i as int]);
                    assert(out@ =~= head + enc_values(next));
                }
                i = i + 1;
            }
            proof {
                assert(views.take(count as int) =~= views);
                assert(out@ =~= before + enc_value(value@));
            }
        },
    }
}

impl Value {
    /// Whether every text, byte string and list in this value is short
    /// enough for its length to be written in four bytes.
    pub fn fits_wire(&self) -> (ok: bool)
        ensures
            ok == fits(self@),
        decreases self,
    {
        match self {
            Value::String(text) => text.as_str().as_bytes().len() <= u32::MAX as usize,
            Value::Bin(bytes) => bytes.len() <= u32::MAX as usize,
            Value::List(items) => {
                let count: usize = items.len();
                proof {
                    lemma_views_of(items@);
                }
                if count > u32::MAX as usize {
                    return false;
                }
                let ghost views = views_of(items@);
                let mut i: usize = 0;
                while i < count
                    invariant
                        i <= count,
                        count == items@.len(),
                        count <= u32::MAX,
                        views == views_of(items@),
                        *self == Value::List(*items),
                        self@ == ValueView::List(views),
                        forall|j: int| 0 <= j < i ==> fits(#[trigger] views[j]),
                    decreases count - i,
                {
                    proof {
                        lemma_views_of(items@);
                    }
                    if !items[i].fits_wire() {
                        assert(!fits(views[i as int]));
                        return false;
                    }
                    i = i + 1;
                }
                true
            },
            _ => true,
        }
    }

    /// The bytes that carry this value.
    pub fn encode(&self) -> (bytes: Vec<u8>)
        requires
            fits(self@),
        ensures
            bytes@ == enc_value(self@),
    {
        let mut out: Vec<u8> = Vec::new();
        push_value(&mut out, self);
        proof {
            assert(out@ =~= enc_value(self@));
        }
        out
    }
}

/// `String::from_utf8` of the standard library: the text that `bytes`
/// spell, or nothing where they are not UTF-8.
#[verifier::external_body]
fn string_from_utf8(bytes: Vec<u8>) -> (text: Option<String>)
    ensures
        text is Some <==> valid_utf8(bytes@),
        text matches Some(s) ==> s@ == decode_utf8(bytes@),
{
    String::from_utf8(bytes).ok()
}

pub fn take_u32(b: &[u8], pos: usize) -> (r: Option<(u32, usize)>)
    requires
        pos <= b@.len(),
    ensures
        match dec_u32(b@.skip(pos as int)) {
            Some((x, k)) => r matches Some((y, end)) && y == x && end == pos + k && end
                <= b@.len(),
            None => r is None,
        },
{
    if b.len() - pos < 4 {
        None
    } else {
        proof {
            assert(b@.skip(pos as int).take(4) =~= b@.subrange(pos as int, pos + 4));
        }
        Some((read_u32(b, pos), pos + 4))
    }
}

pub fn take_i32(b: &[u8], pos: usize) -> (r: Option<(i32, usize)>)
    requires
        pos <= b@.len(),
    ensures
        match dec_i32(b@.skip(pos as int)) {
            Some((x, k)) => r matches Some((y, end)) && y == x && end == pos + k && end
                <= b@.len(),
            None => r is None,
        },
{
    if b.len() - pos < 4 {
        None
    } else {
        proof {
            assert(b@.skip(pos as int).take(4) =~= b@.subrange(pos as int, pos + 4));
        }
        Some((read_i32(b, pos), pos + 4))
    }
}

pub fn take_bool(b: &[u8], pos: usize) -> (r: Option<(bool, usize)>)
    requires
        pos <= b@.len(),
    ensures
        match dec_bool(b@.skip(pos as int)) {
            Some((x, k)) => r matches Some((y, end)) && y == x && end == pos + k && end
                <= b@.len(),
            None => r is None,
        },
{
    if b.len() - pos < 1 {
        None
    } else {
        Some((b[pos] != 0, pos + 1))
    }
}

pub fn take_opt_i32(b: &[u8], pos: usize) -> (r: Option<(Option<i32>, usize)>)
    requires
        pos <= b@.len(),
    ensures
        match dec_opt_i32(b@.skip(pos as int)) {
            Some((x, k)) => r matches Some((y, end)) && y == x && end == pos + k && end
                <= b@.len(),
            None => r is None,
        },
{
    match take_bool(b, pos) {
        None => None,
        Some((false, end)) => Some((None, end)),
        Some((true, end)) => {
            proof {
                assert(b@.skip(pos as int).skip(1) =~= b@.skip(end as int));
            }
            match take_i32(b, end) {
                None => None,
                Some((x, end)) => Some((Some(x), end)),
            }
        },
    }
}

/// Reads a length and then that many bytes.
pub fn take_block(b: &[u8], pos: usize) -> (r: Option<(Vec<u8>, usize)>)
    requires
        pos <= b@.len(),
    ensures
        match dec_bytes(b@.skip(pos as int)) {
            Some((x, k)) => r matches Some((block, end)) && block@ == x && end == pos + k && end
                <= b@.len(),
            None => r is None,
        },
{
    match take_u32(b, pos) {
        None => None,
        Some((n, start)) => {
            if b.len() - start < n as usize {
                None
            } else {
                let end: usize = start + n as usize;
                proof {
                    assert(b@.skip(pos as int).subrange(4, 4 + n) =~= b@.subrange(
                        start as int,
                        end as int,
                    ));
                }
                Some((copy_range(b, start, end), end))
            }
        },
    }
}

/// Reads a length, that many bytes, and the text they spell.
pub fn take_text(b: &[u8], pos: usize) -> (r: Option<(String, usize)>)
    requires
        pos <= b@.len(),
    ensures
        match dec_text(b@.skip(pos as int)) {
            Some((x, k)) => r matches Some((text, end)) && text@ == x && end == pos + k && end
                <= b@.len(),
            None => r is None,
        },
{
    match take_block(b, pos) {
        None => None,
        Some((raw, end)) => match string_from_utf8(raw) {
            None => None,
            Some(text) => Some((text, end)),
        },
    }
}

pub fn take_inc(b: &[u8], pos: usize) -> (r: Option<(Incrementable, usize)>)
    requires
        pos <= b@.len(),
    ensures
        match dec_inc(b@.skip(pos as int)) {
            Some((x, k)) => r matches Some((y, end)) && y == x && end == pos + k && end
                <= b@.len(),
            None => r is None,
        },
{
    let ghost input = b@.skip(pos as int);
    match take_i32(b, pos) {
        None => None,
        Some((value, after_value)) => {
            proof {
                assert(input.skip(4) =~= b@.skip(after_value as int));
            }
            match take_opt_i32(b, after_value) {
                None => None,
                Some((lower_limit, after_lower)) => {
                    proof {
                        assert(input.skip(after_lower - pos) =~= b@.skip(after_lower as int));
                    }
                    match take_opt_i32(b, after_lower) {
                        None => None,
                        Some((upper_limit, end)) => Some(
                            (Incrementable { value, lower_limit, upper_limit }, end),
                        ),
                    }
                },
            }
        },
    }
}

/// Reads the value that stands at `pos`, and says where it ends.
pub fn take_value(b: &[u8], pos: usize) -> (r: Option<(Value, usize)>)
    requires
        pos <= b@.len(),
    ensures
        match dec_value(b@.skip(pos as int)) {
            Some((x, k)) => r matches Some((value, end)) && value@ == x && end == pos + k && end
                <= b@.len(),
            None => r is None,
        },
    decreases b@.len() - pos,
{
    let ghost input = b@.skip(pos as int);
    let (tag, body) = match take_u32(b, pos) {
        None => { return None; },
        Some(read) => read,
    };
    proof {
        assert(input.skip(4) =~= b@.skip(body as int));
    }
    if tag == TAG_NIL {
        Some((Value::Nil, body))
    } else if tag == TAG_STRING {
        match take_text(b, body) {
            None => None,
            Some((text, end)) => Some((Value::String(text), end)),
        }
    } else if tag == TAG_NAT {
        match take_u32(b, body) {
            None => None,
            Some((n, end)) => Some((Value::Nat(n), end)),
        }
    } else if tag == TAG_INT {
        match take_i32(b, body) {
            None => None,
            Some((n, end)) => Some((Value::Int(n), end)),
        }
    } else if tag == TAG_BOOL {
        match take_bool(b, body) {
            None => None,
            Some((flag, end)) => Some((Value::Bool(flag), end)),
        }
    } else if tag == TAG_INC {
        match take_inc(b, body) {
            None => None,
            Some((inc, end)) => Some((Value::Inc(inc), end)),
        }
    } else if tag == TAG_BIN {
        match take_block(b, body) {
            None => None,
            Some((bytes, end)) => Some((Value::Bin(bytes), end)),
        }
    } else if tag == TAG_LIST {
        let (count, start) = match take_u32(b, body) {
            None => { return None; },
            Some(read) => read,
        };
        proof {
            assert(input.skip(8) =~= b@.skip(start as int));
        }
        let ghost listed = b@.skip(start as int);
        let mut items: Vec<Value> = Vec::new();
        let mut cur: usize = start;
        let mut i: u32 = 0;
        while i < count
            invariant
                i <= count,
                pos + 8 == start,
                start <= cur <= b@.len(),
                listed == b@.skip(start as int),
                input == b@.skip(pos as int),
                input.skip(8) == listed,
                dec_u32(input) == Some((TAG_LIST, 4int)),
                dec_u32(input.skip(4)) == Some((count, 4int)),
                items@.len() == i,
                dec_values(listed, i as nat) == Some((views_of(items@), cur - start)),
            decreases count - i,
        {
            proof {
                assert(listed.skip(cur - start) =~= b@.skip(cur as int));
            }
            match take_value(b, cur) {
                None => {
                    proof {
                        assert(dec_values(listed, (i + 1) as nat) is None);
                        lemma_dec_values_fails_on(listed, (i + 1) as nat, count as nat);
                    }
                    return None;
                },
                Some((item, end)) => {
                    proof {
                        lemma_dec_value_within(b@.skip(cur as int));
                        assert(items@.push(item).drop_last() =~= items@);
                    }
                    items.push(item);
                    cur = end;
                    i = i + 1;
                },
            }
        }
        Some((Value::List(items), cur))
    } else {
        None
    }
}

impl Value {
    /// The value that `bytes` start with, or nothing where they start with
    /// none. Bytes behind the value are passed over.
    pub fn decode(bytes: &[u8]) -> (r: Option<Value>)
        ensures
            match dec_value(bytes@) {
                Some((x, _)) => r matches Some(value) && value@ == x,
                None => r is None,
            },
    {
        proof {
            assert(bytes@.skip(0) =~= bytes@);
        }
        match take_value(bytes, 0) {
            None => None,
            Some((value, _)) => Some(value),
        }
    }
}

pub fn push_opt_opts(out: &mut Vec<u8>, field: &Option<IncrementOpts>)
    ensures
        final(out)@ == old(out)@ + enc_opt_opts(*field),
{
    match field {
        Some(opts) => {
            push_bool(out, true);
            push_opt_i32(out, opts.lower_limit);
            push_opt_i32(out, opts.upper_limit);
            push_opt_bool(out, opts.create);
            proof {
                assert(final(out)@ =~= old(out)@ + enc_opt_opts(*field));
            }
        },
        None => {
            push_bool(out, false);
        },
    }
}

pub fn push_opt_size(out: &mut Vec<u8>, field: Option<usize>)
    ensures
        final(out)@ == old(out)@ + enc_opt_size(field),
{
    match field {
        Some(n) => push_opt_u64(out, Some(n as u64)),
        None => push_opt_u64(out, None),
    }
}

impl<'a> MonaeicacheCommand<'a> {
    /// Whether the key and every text, byte string and list of the value
    /// are short enough for their lengths to be written in four bytes.
    pub fn fits_wire(&self) -> (ok: bool)
        ensures
            ok == command_fits(self@),
    {
        match self {
            MonaeicacheCommand::Put(key, value) => key.as_bytes().len() <= u32::MAX as usize
                && value.fits_wire(),
            MonaeicacheCommand::Get(key) => key.as_bytes().len() <= u32::MAX as usize,
            MonaeicacheCommand::Remove(key) => key.as_bytes().len() <= u32::MAX as usize,
            MonaeicacheCommand::Increment(key, _, _) => key.as_bytes().len() <= u32::MAX as usize,
            MonaeicacheCommand::AddToSet(key, value, _) => key.as_bytes().len()
                <= u32::MAX as usize && value.fits_wire(),
        }
    }

    /// The bytes that carry this command.
    pub fn encode(&self) -> (bytes: Vec<u8>)
        requires
            command_fits(self@),
        ensures
            bytes@ == enc_command(self@),
    {
        let mut out: Vec<u8> = Vec::new();
        match self {
            MonaeicacheCommand::Put(key, value) => {
                push_u32(&mut out, TAG_PUT);
                push_text(&mut out, key);
                push_value(&mut out, value);
            },
            MonaeicacheCommand::Get(key) => {
                push_u32(&mut out, TAG_GET);
                push_text(&mut out, key);
            },
            MonaeicacheCommand::Remove(key) => {
                push_u32(&mut out, TAG_REMOVE);
                push_text(&mut out, key);
            },
            MonaeicacheCommand::Increment(key, delta, opts) => {
                push_u32(&mut out, TAG_INCREMENT);
                push_text(&mut out, key);
                push_i32(&mut out, *delta);
                push_opt_opts(&mut out, opts);
            },
            MonaeicacheCommand::AddToSet(key, value, max_size) => {
                push_u32(&mut out, TAG_ADD_TO_SET);
                push_text(&mut out, key);
                push_value(&mut out, value);
                push_opt_size(&mut out, *max_size);
            },
        }
        proof {
            assert(out@ =~= enc_command(self@));
        }
        out
    }
}

pub fn take_error(b: &[u8], pos: usize) -> (r: Option<(Error, usize)>)
    requires
        pos <= b@.len(),
    ensures
        match dec_error(b@.skip(pos as int)) {
            Some((x, k)) => r matches Some((y, end)) && y == x && end == pos + k && end
                <= b@.len(),
            None => r is None,
        },
{
    match take_u32(b, pos) {
        None => None,
        Some((tag, end)) => {
            if tag == TAG_LIMIT_REACHED {
                Some((Error::LimitReached, end))
            } else if tag == TAG_TYPE_ERROR {
                Some((Error::TypeError, end))
            } else if tag == TAG_NOT_FOUND {
                Some((Error::NotFound, end))
            } else {
                None
            }
        },
    }
}

/// The answer to an increment that `bytes` start with, or nothing where
/// they start with none.
pub fn decode_reply(bytes: &[u8]) -> (r: Option<Result<Value, Error>>)
    ensures
        match dec_reply(bytes@) {
            Some((Ok(x), _)) => r matches Some(Ok(value)) && value@ == x,
            Some((Err(e), _)) => r == Some(Err::<Value, Error>(e)),
            None => r is None,
        },
{
    proof {
        assert(bytes@.skip(0) =~= bytes@);
    }
    match take_bool(bytes, 0) {
        None => None,
        Some((true, body)) => match take_value(bytes, body) {
            None => None,
            Some((value, _)) => Some(Ok(value)),
        },
        Some((false, body)) => match take_error(bytes, body) {
            None => None,
            Some((error, _)) => Some(Err(error)),
        },
    }
}

/// What an answer to an increment means to the caller: the new number, or
/// the refusal; `TypeError` where the answer holds a value that is no
/// bounded number.
pub open spec fn reply_outcome(reply: Result<ValueView, Error>) -> Result<Incrementable, Error> {
    match reply {
        Ok(ValueView::Inc(inc)) => Ok(inc),
        Ok(_) => Err(Error::TypeError),
        Err(error) => Err(error),
    }
}

/// What the answer to an increment holds, or nothing where `bytes` start
/// with no answer.
pub fn increment_reply(bytes: &[u8]) -> (r: Option<Result<Incrementable, Error>>)
    ensures
        r == match dec_reply(bytes@) {
            Some((reply, _)) => Some(reply_outcome(reply)),
            None => None,
        },
{
    match decode_reply(bytes) {
        None => None,
        Some(Ok(value)) => Some(value.into_inc()),
        Some(Err(error)) => Some(Err(error)),
    }
}

} // verus!
