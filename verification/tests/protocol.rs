use dk_rinha::utils::monaei_cache::frame::{build_frame, parse_header, FrameHeader, HEADER_LEN};
use dk_rinha::utils::monaei_cache::mux::{
    Delivery, MonaeicacheClient, Reader, Request, SendError,
};
use dk_rinha::utils::monaei_cache::{IncrementOpts, MonaeicacheCommand, Value};
use speedy::Writable;

fn registered(r: Result<Request, SendError>) -> Request {
    match r {
        Ok(request) => request,
        Err(error) => panic!("refused: {error:?}"),
    }
}

fn key_bytes(key: &str) -> Vec<u8> {
    key.to_string().write_to_vec().unwrap()
}

#[test]
fn commands_encode_to_their_tag_and_fields() {
    let mut expected = vec![0u8, 0, 0, 0];
    expected.extend(key_bytes("k1"));
    expected.extend(Value::Int(5).encode());
    assert_eq!(MonaeicacheCommand::Put("k1", Value::Int(5)).encode(), expected);

    let mut expected = vec![1u8, 0, 0, 0];
    expected.extend(key_bytes("chave"));
    assert_eq!(MonaeicacheCommand::Get("chave").encode(), expected);
    assert_eq!(
        MonaeicacheCommand::Get("ab").encode(),
        [1, 0, 0, 0, 2, 0, 0, 0, b'a', b'b']
    );

    let mut expected = vec![2u8, 0, 0, 0];
    expected.extend(key_bytes(""));
    assert_eq!(MonaeicacheCommand::Remove("").encode(), expected);

    assert_eq!(
        MonaeicacheCommand::Increment("c", -500, None).encode(),
        [3, 0, 0, 0, 1, 0, 0, 0, b'c', 0x0C, 0xFE, 0xFF, 0xFF, 0]
    );
    let opts = IncrementOpts { lower_limit: Some(-1000), upper_limit: None, create: Some(true) };
    assert_eq!(
        MonaeicacheCommand::Increment("c", 0, Some(opts)).encode(),
        [
            3, 0, 0, 0, 1, 0, 0, 0, b'c', 0, 0, 0, 0, 1, 1, 0x18, 0xFC, 0xFF, 0xFF, 0, 1, 1
        ]
    );
    let opts = IncrementOpts { lower_limit: None, upper_limit: Some(1), create: None };
    assert_eq!(
        MonaeicacheCommand::Increment("c", 1, Some(opts)).encode(),
        [3, 0, 0, 0, 1, 0, 0, 0, b'c', 1, 0, 0, 0, 1, 0, 1, 1, 0, 0, 0, 0]
    );

    let mut expected = vec![4u8, 0, 0, 0];
    expected.extend(key_bytes("s"));
    expected.extend(Value::Nat(9).encode());
    expected.extend(Some(10usize).write_to_vec().unwrap());
    assert_eq!(MonaeicacheCommand::AddToSet("s", Value::Nat(9), Some(10)).encode(), expected);
    assert_eq!(&expected[expected.len() - 9..], [1, 10, 0, 0, 0, 0, 0, 0, 0]);

    let mut expected = vec![4u8, 0, 0, 0];
    expected.extend(key_bytes("s"));
    expected.extend(Value::Nil.encode());
    expected.push(0);
    assert_eq!(MonaeicacheCommand::AddToSet("s", Value::Nil, None).encode(), expected);

    assert!(MonaeicacheCommand::AddToSet("s", Value::Nil, None).fits_wire());
    assert!(MonaeicacheCommand::Get("chave").fits_wire());
}

#[test]
fn frames_carry_identifier_length_and_payload() {
    assert_eq!(HEADER_LEN, 16);
    let frame = build_frame(0x0102, &[7, 8, 9]);
    assert_eq!(
        frame,
        [2, 1, 0, 0, 0, 0, 0, 0, 3, 0, 0, 0, 0, 0, 0, 0, 7, 8, 9]
    );
    assert_eq!(parse_header(&frame[..16]), Some(FrameHeader { id: 0x0102, length: 3 }));

    let empty = build_frame(usize::MAX, &[]);
    assert_eq!(empty.len(), 16);
    assert_eq!(&empty[..8], usize::MAX.to_le_bytes());
    assert_eq!(parse_header(&empty), Some(FrameHeader { id: usize::MAX, length: 0 }));
}

#[test]
fn a_message_is_the_frame_of_the_command() {
    let client = MonaeicacheClient::new();
    let message = client.build_message(5, MonaeicacheCommand::Get("ab"));
    let command = MonaeicacheCommand::Get("ab").encode();
    let mut expected = 5usize.to_le_bytes().to_vec();
    expected.extend(command.len().to_le_bytes());
    expected.extend(&command);
    assert_eq!(message, expected);
}

#[test]
fn identifiers_count_up_from_zero() {
    let mut client = MonaeicacheClient::new();
    let first = registered(client.get("a"));
    let second = registered(client.set("a", Value::Int(1)));
    let third = registered(client.increment("a", 2, None));
    let fourth = registered(client.add_to_set("b", Value::Nat(1), Some(3)));
    let fifth = registered(client.register(MonaeicacheCommand::Remove("a")));
    assert_eq!(
        [first.id, second.id, third.id, fourth.id, fifth.id],
        [0, 1, 2, 3, 4]
    );
    assert_eq!(first.frame, client.build_message(0, MonaeicacheCommand::Get("a")));
    assert_eq!(second.frame, client.build_message(1, MonaeicacheCommand::Put("a", Value::Int(1))));
    assert_eq!(third.frame, client.build_message(2, MonaeicacheCommand::Increment("a", 2, None)));
    assert_eq!(
        fourth.frame,
        client.build_message(3, MonaeicacheCommand::AddToSet("b", Value::Nat(1), Some(3)))
    );
    assert_eq!(fifth.frame, client.build_message(4, MonaeicacheCommand::Remove("a")));
}

#[test]
fn answers_reach_their_request_in_any_order() {
    let mut client = MonaeicacheClient::new();
    let mut first = registered(client.get("a"));
    let mut second = registered(client.get("b"));
    let mut third = registered(client.get("c"));

    assert_eq!(first.reply.try_recv(), Ok(None));

    assert_eq!(client.resolve(second.id, vec![2, 2]), Delivery::Delivered);
    assert_eq!(first.reply.try_recv(), Ok(None));
    assert_eq!(second.reply.try_recv(), Ok(Some(vec![2, 2])));
    assert_eq!(third.reply.try_recv(), Ok(None));

    assert_eq!(client.resolve(third.id, vec![3]), Delivery::Delivered);
    assert_eq!(client.resolve(first.id, vec![]), Delivery::Delivered);
    assert_eq!(first.reply.try_recv(), Ok(Some(vec![])));
    assert_eq!(third.reply.try_recv(), Ok(Some(vec![3])));
}

#[test]
fn an_answer_is_delivered_once() {
    let mut client = MonaeicacheClient::new();
    let mut request = registered(client.get("a"));
    assert_eq!(client.resolve(request.id, vec![1]), Delivery::Delivered);
    assert_eq!(client.resolve(request.id, vec![2]), Delivery::Unknown);
    assert_eq!(request.reply.try_recv(), Ok(Some(vec![1])));
    assert_eq!(client.resolve(77, vec![2]), Delivery::Unknown);
}

#[test]
fn an_answer_that_nobody_waits_for_is_abandoned() {
    let mut client = MonaeicacheClient::new();
    let request = registered(client.get("a"));
    let id = request.id;
    drop(request);
    assert_eq!(client.resolve(id, vec![1]), Delivery::Abandoned);
    assert_eq!(client.resolve(id, vec![1]), Delivery::Unknown);
    let next = registered(client.get("a"));
    assert_eq!(next.id, 1);
}

#[test]
fn the_reader_alternates_header_and_payload() {
    let mut client = MonaeicacheClient::new();
    let mut first = registered(client.get("a"));
    let mut second = registered(client.get("b"));

    let mut reader = Reader::new();
    assert_eq!(reader, Reader::Header);
    assert_eq!(reader.wanted(), 16);

    let answer = build_frame(second.id, &[5, 6, 7]);
    reader = reader.feed(&mut client, answer[..16].to_vec()).unwrap();
    assert_eq!(reader, Reader::Payload(FrameHeader { id: 1, length: 3 }));
    assert_eq!(reader.wanted(), 3);
    assert_eq!(second.reply.try_recv(), Ok(None));

    reader = reader.feed(&mut client, answer[16..].to_vec()).unwrap();
    assert_eq!(reader, Reader::Header);
    assert_eq!(second.reply.try_recv(), Ok(Some(vec![5, 6, 7])));
    assert_eq!(first.reply.try_recv(), Ok(None));

    // an answer without payload
    let answer = build_frame(first.id, &[]);
    reader = reader.feed(&mut client, answer).unwrap();
    assert_eq!(reader.wanted(), 0);
    reader = reader.feed(&mut client, Vec::new()).unwrap();
    assert_eq!(reader, Reader::Header);
    assert_eq!(first.reply.try_recv(), Ok(Some(vec![])));

    // an answer to nobody is read and dropped
    let answer = build_frame(99, &[1]);
    reader = reader.feed(&mut client, answer[..16].to_vec()).unwrap();
    reader = reader.feed(&mut client, vec![1]).unwrap();
    assert_eq!(reader, Reader::Header);
}

#[test]
fn send_error_is_comparable() {
    assert_ne!(SendError::TooLarge, SendError::IdsExhausted);
    assert_ne!(Delivery::Delivered, Delivery::Abandoned);
}

#[test]
fn a_request_taken_out_hands_back_its_own_half() {
    let mut client = MonaeicacheClient::new();
    let mut first = registered(client.get("a"));
    let mut second = registered(client.get("b"));

    let half = client.take_waiting(second.id).expect("the second request waits");
    assert!(client.take_waiting(second.id).is_none());
    assert_eq!(half.send(vec![4, 2]), Ok(()));
    assert_eq!(second.reply.try_recv(), Ok(Some(vec![4, 2])));
    assert_eq!(first.reply.try_recv(), Ok(None));

    assert!(client.take_waiting(17).is_none());
    assert_eq!(client.resolve(first.id, vec![1]), Delivery::Delivered);
    assert_eq!(first.reply.try_recv(), Ok(Some(vec![1])));
}

#[test]
fn a_frame_serves_the_request_of_its_identifier_with_its_bytes() {
    let mut client = MonaeicacheClient::new();
    let mut requests: Vec<Request> = (0..5).map(|_| registered(client.get("k"))).collect();
    let mut reader = Reader::new();
    for id in [3usize, 0, 4, 1, 2] {
        let payload = vec![id as u8; id + 1];
        let frame = build_frame(id, &payload);
        reader = reader.feed(&mut client, frame[..16].to_vec()).unwrap();
        reader = reader.feed(&mut client, frame[16..].to_vec()).unwrap();
        for request in requests.iter_mut() {
            if request.id == id {
                assert_eq!(request.reply.try_recv(), Ok(Some(payload.clone())));
            }
        }
    }
    for request in requests.iter_mut() {
        assert!(request.reply.try_recv().is_err());
    }
    assert_eq!(client.resolve(0, vec![]), Delivery::Unknown);
}
