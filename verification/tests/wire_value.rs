use dk_rinha::utils::le::{
    append_bytes, copy_range, push_i32, push_u32, push_u64, read_i32, read_u32, read_u64,
};
use dk_rinha::utils::monaei_cache::codec::{
    decode_reply, increment_reply, push_block, push_bool, push_opt_i32, push_text,
};
use dk_rinha::utils::monaei_cache::{Error, Incrementable, Value};
use speedy::{Readable, Writable};

fn show(value: &Value) -> String {
    format!("{value:?}")
}

fn round_trip(value: Value) {
    assert!(value.fits_wire());
    let bytes = value.encode();
    let back = Value::decode(&bytes).expect("an encoding is read back");
    assert_eq!(show(&back), show(&value));
}

fn inc(value: i32, lower_limit: Option<i32>, upper_limit: Option<i32>) -> Value {
    Value::Inc(Incrementable { value, lower_limit, upper_limit })
}

#[test]
fn integers_are_little_endian() {
    for x in [0u32, 1, 255, 256, 0x12345678, u32::MAX] {
        let mut out = vec![9u8];
        push_u32(&mut out, x);
        assert_eq!(out[0], 9);
        assert_eq!(&out[1..], x.to_le_bytes());
        assert_eq!(&out[1..], x.write_to_vec().unwrap());
        assert_eq!(read_u32(&out, 1), x);
    }
    for x in [0u64, 1, 0x0102030405060708, u64::MAX] {
        let mut out = Vec::new();
        push_u64(&mut out, x);
        assert_eq!(out, x.to_le_bytes());
        assert_eq!(out, x.write_to_vec().unwrap());
        assert_eq!(read_u64(&out, 0), x);
    }
    for x in [0i32, 1, -1, 1000, -1000, i32::MAX, i32::MIN] {
        let mut out = Vec::new();
        push_i32(&mut out, x);
        assert_eq!(out, x.to_le_bytes());
        assert_eq!(out, x.write_to_vec().unwrap());
        assert_eq!(read_i32(&out, 0), x);
    }
    let mut out = Vec::new();
    push_u32(&mut out, 0x0A0B0C0D);
    assert_eq!(out, [0x0D, 0x0C, 0x0B, 0x0A]);
}

#[test]
fn byte_helpers() {
    let mut out = vec![1u8, 2];
    append_bytes(&mut out, &[3, 4, 5]);
    assert_eq!(out, [1, 2, 3, 4, 5]);
    assert_eq!(copy_range(&out, 1, 4), [2, 3, 4]);
    assert_eq!(copy_range(&out, 2, 2), Vec::<u8>::new());
}

#[test]
fn fields_agree_with_speedy() {
    let mut out = Vec::new();
    push_bool(&mut out, true);
    push_bool(&mut out, false);
    assert_eq!(out, [1, 0]);
    assert_eq!(vec![1u8], true.write_to_vec().unwrap());

    for field in [None, Some(0), Some(-1000), Some(i32::MAX)] {
        let mut out = Vec::new();
        push_opt_i32(&mut out, field);
        assert_eq!(out, field.write_to_vec().unwrap());
    }

    for text in ["", "a", "saldo", "crédito", "日本語"] {
        let mut out = Vec::new();
        push_text(&mut out, text);
        assert_eq!(out, text.to_string().write_to_vec().unwrap());
    }

    let block = vec![0u8, 255, 7];
    let mut out = Vec::new();
    push_block(&mut out, &block);
    assert_eq!(out, block.write_to_vec().unwrap());
    assert_eq!(out, [3, 0, 0, 0, 0, 255, 7]);
}

#[test]
fn every_variant_encodes_to_its_tag_and_fields() {
    assert_eq!(Value::Nil.encode(), [0, 0, 0, 0]);
    assert_eq!(Value::text("ab").encode(), [1, 0, 0, 0, 2, 0, 0, 0, b'a', b'b']);
    assert_eq!(Value::Nat(258).encode(), [2, 0, 0, 0, 2, 1, 0, 0]);
    assert_eq!(Value::Int(-2).encode(), [3, 0, 0, 0, 0xFE, 0xFF, 0xFF, 0xFF]);
    assert_eq!(Value::Bool(true).encode(), [4, 0, 0, 0, 1]);
    assert_eq!(Value::Bool(false).encode(), [4, 0, 0, 0, 0]);
    assert_eq!(inc(5, None, None).encode(), [5, 0, 0, 0, 5, 0, 0, 0, 0, 0]);
    assert_eq!(
        inc(-500, Some(-1000), None).encode(),
        [5, 0, 0, 0, 0x0C, 0xFE, 0xFF, 0xFF, 1, 0x18, 0xFC, 0xFF, 0xFF, 0]
    );
    assert_eq!(
        inc(1, None, Some(2)).encode(),
        [5, 0, 0, 0, 1, 0, 0, 0, 0, 1, 2, 0, 0, 0]
    );
    assert_eq!(Value::Bin(vec![9, 8]).encode(), [6, 0, 0, 0, 2, 0, 0, 0, 9, 8]);
    assert_eq!(Value::List(vec![]).encode(), [7, 0, 0, 0, 0, 0, 0, 0]);
    assert_eq!(
        Value::List(vec![Value::Nil, Value::Bool(true)]).encode(),
        [7, 0, 0, 0, 2, 0, 0, 0, 0, 0, 0, 0, 4, 0, 0, 0, 1]
    );
}

#[test]
fn every_variant_is_read_back() {
    round_trip(Value::Nil);
    round_trip(Value::text(""));
    round_trip(Value::text("débito de 10"));
    round_trip(Value::Nat(0));
    round_trip(Value::Nat(u32::MAX));
    round_trip(Value::Int(i32::MIN));
    round_trip(Value::Int(i32::MAX));
    round_trip(Value::Int(-1));
    round_trip(Value::Bool(true));
    round_trip(Value::Bool(false));
    round_trip(inc(0, None, None));
    round_trip(inc(-500, Some(-1000), None));
    round_trip(inc(7, None, Some(9)));
    round_trip(inc(i32::MIN, Some(i32::MIN), Some(i32::MAX)));
    round_trip(Value::Bin(vec![]));
    round_trip(Value::Bin((0..=255).collect()));
    round_trip(Value::List(vec![]));
}

#[test]
fn nested_lists_of_mixed_variants_are_read_back() {
    round_trip(Value::List(vec![
        Value::Nil,
        Value::text("um"),
        Value::Nat(2),
        Value::Int(-3),
        Value::Bool(true),
        inc(4, None, None),
        Value::Bin(vec![5, 5, 5]),
        Value::List(vec![
            Value::List(vec![]),
            Value::List(vec![Value::text("dentro"), inc(1, Some(0), None)]),
            Value::Nil,
        ]),
    ]));
}

#[test]
fn what_follows_a_value_is_passed_over() {
    let mut bytes = Value::Nat(77).encode();
    bytes.extend_from_slice(&[1, 2, 3]);
    assert_eq!(show(&Value::decode(&bytes).unwrap()), show(&Value::Nat(77)));
}

#[test]
fn a_presence_byte_other_than_zero_reads_as_set() {
    let bytes = [4u8, 0, 0, 0, 7];
    assert_eq!(show(&Value::decode(&bytes).unwrap()), show(&Value::Bool(true)));
    assert_eq!(bool::read_from_buffer(&[7u8]).unwrap(), true);
    let bytes = [5u8, 0, 0, 0, 1, 0, 0, 0, 2, 9, 0, 0, 0, 0];
    assert_eq!(show(&Value::decode(&bytes).unwrap()), show(&inc(1, Some(9), None)));
}

#[test]
fn malformed_bytes_are_no_value() {
    // nothing, and less than a tag
    assert!(Value::decode(&[]).is_none());
    assert!(Value::decode(&[0, 0, 0]).is_none());
    // a tag that names no variant
    assert!(Value::decode(&[8, 0, 0, 0]).is_none());
    assert!(Value::decode(&[0, 1, 0, 0]).is_none());
    assert!(Value::decode(&[255, 255, 255, 255, 0, 0, 0, 0]).is_none());
    // a text that is shorter than its length says
    assert!(Value::decode(&[1, 0, 0, 0, 3, 0, 0, 0, b'a', b'b']).is_none());
    // a text that is no UTF-8
    assert!(Value::decode(&[1, 0, 0, 0, 2, 0, 0, 0, 0xC3, 0x28]).is_none());
    assert!(Value::decode(&[1, 0, 0, 0, 1, 0, 0, 0, 0xFF]).is_none());
    // the same bytes are a fine byte string
    assert_eq!(
        show(&Value::decode(&[6, 0, 0, 0, 2, 0, 0, 0, 0xC3, 0x28]).unwrap()),
        show(&Value::Bin(vec![0xC3, 0x28]))
    );
    // numbers cut short
    assert!(Value::decode(&[2, 0, 0, 0, 1, 2, 3]).is_none());
    assert!(Value::decode(&[3, 0, 0, 0]).is_none());
    assert!(Value::decode(&[4, 0, 0, 0]).is_none());
    // a bounded number whose bound is announced and missing
    assert!(Value::decode(&[5, 0, 0, 0, 1, 0, 0, 0, 1, 2, 0]).is_none());
    assert!(Value::decode(&[5, 0, 0, 0, 1, 0, 0, 0, 0]).is_none());
    // a list that announces more items than follow
    assert!(Value::decode(&[7, 0, 0, 0, 2, 0, 0, 0, 0, 0, 0, 0]).is_none());
    assert!(Value::decode(&[7, 0, 0, 0, 255, 255, 255, 255]).is_none());
    // a list with a malformed item
    assert!(Value::decode(&[7, 0, 0, 0, 1, 0, 0, 0, 9, 0, 0, 0]).is_none());
}

#[test]
fn text_is_decoded_as_utf8() {
    let bytes = [1u8, 0, 0, 0, 3, 0, 0, 0, 0xE2, 0x82, 0xAC];
    match Value::decode(&bytes) {
        Some(Value::String(text)) => assert_eq!(text, "€"),
        other => panic!("unexpected {other:?}"),
    }
    assert_eq!(String::read_from_buffer(&bytes[4..]).unwrap(), "€");
}

#[test]
fn answers_to_an_increment() {
    let mut accepted = vec![1u8];
    accepted.extend(inc(-500, Some(-1000), None).encode());
    match decode_reply(&accepted) {
        Some(Ok(value)) => assert_eq!(show(&value), show(&inc(-500, Some(-1000), None))),
        other => panic!("unexpected {other:?}"),
    }
    assert_eq!(
        increment_reply(&accepted),
        Some(Ok(Incrementable { value: -500, lower_limit: Some(-1000), upper_limit: None }))
    );

    assert_eq!(increment_reply(&[0, 0, 0, 0, 0]), Some(Err(Error::LimitReached)));
    assert_eq!(increment_reply(&[0, 1, 0, 0, 0]), Some(Err(Error::TypeError)));
    assert_eq!(increment_reply(&[0, 2, 0, 0, 0]), Some(Err(Error::NotFound)));
    assert!(matches!(decode_reply(&[0, 2, 0, 0, 0]), Some(Err(Error::NotFound))));

    // an accepted answer that holds no bounded number
    let mut odd = vec![1u8];
    odd.extend(Value::Nat(3).encode());
    assert_eq!(increment_reply(&odd), Some(Err(Error::TypeError)));

    // malformed answers
    assert_eq!(increment_reply(&[]), None);
    assert_eq!(increment_reply(&[0, 3, 0, 0, 0]), None);
    assert_eq!(increment_reply(&[0, 0, 0]), None);
    assert_eq!(increment_reply(&[1, 8, 0, 0, 0]), None);
    assert!(decode_reply(&[1]).is_none());
}

#[test]
fn accessors_and_conversions() {
    let mut list = Value::List(vec![Value::Nat(1)]);
    assert!(!list.is_none());
    assert!(Value::Nil.is_none());
    assert_eq!(list.as_set().unwrap().len(), 1);
    assert!(list.as_str().is_none());
    assert!(list.as_inc().is_none());
    assert!(list.as_inc_mut().is_none());
    list.as_set_mut().unwrap().push(Value::Nat(2));
    assert_eq!(show(&list), show(&Value::List(vec![Value::Nat(1), Value::Nat(2)])));

    let mut number = inc(3, None, None);
    assert_eq!(number.as_inc().unwrap().value, 3);
    number.as_inc_mut().unwrap().value = 4;
    assert_eq!(show(&number), show(&inc(4, None, None)));
    assert!(number.as_set().is_none());
    assert!(number.as_set_mut().is_none());

    assert_eq!(Value::text("x").as_str().unwrap(), "x");

    assert_eq!(show(&Value::from("abc")), show(&Value::text("abc")));
    assert_eq!(show(&Value::from(true)), show(&Value::Bool(true)));
    assert_eq!(show(&Value::from(-4i32)), show(&Value::Int(-4)));
    assert_eq!(show(&Value::from(4u32)), show(&Value::Nat(4)));

    assert_eq!(i32::try_from(Value::Int(5)), Ok(5));
    assert_eq!(i32::try_from(Value::Nat(5)), Err(Error::TypeError));
    assert_eq!(u32::try_from(Value::Nat(5)), Ok(5));
    assert_eq!(u32::try_from(Value::Nil), Err(Error::TypeError));
    assert_eq!(bool::try_from(Value::Bool(true)), Ok(true));
    assert_eq!(bool::try_from(Value::Int(1)), Err(Error::TypeError));
    assert_eq!(String::try_from(Value::text("s")), Ok("s".to_string()));
    assert_eq!(String::try_from(Value::Bin(vec![b's'])), Err(Error::TypeError));
    assert_eq!(
        Incrementable::try_from(inc(1, Some(0), None)),
        Ok(Incrementable { value: 1, lower_limit: Some(0), upper_limit: None })
    );
    assert_eq!(Incrementable::try_from(Value::Int(1)), Err(Error::TypeError));
    assert_eq!(Vec::<Value>::try_from(Value::List(vec![Value::Nil])).unwrap().len(), 1);
    assert!(matches!(Vec::<Value>::try_from(Value::Nil), Err(Error::TypeError)));
    let through: Result<i32, Error> = Value::Int(8).try_into();
    assert_eq!(through, Ok(8));
}
