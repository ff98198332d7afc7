use dk_rinha::app_error::AppError;
use dk_rinha::app_state::{cache_key, found_or_missing, AppState};
use dk_rinha::client::Client;
use dk_rinha::transaction::{Kind, TransactionDTO};
use dk_rinha::utils::cache::is_stale_artifact;
use dk_rinha::utils::mmap::{
    checked_length, init_length, is_all_zero, length_bytes, resize_zeroed, stored_length,
    write_first, Segment, INIT_LENGTH,
};
use dk_rinha::utils::{Cache, Mmap};
use speedy::Writable;

fn entry(value: i32, kind: Kind, description: &str, date: &str) -> TransactionDTO {
    TransactionDTO { value, kind, description: description.to_string(), date: date.to_string() }
}

fn sample() -> Client {
    Client {
        _id: 3,
        balance: -250,
        limit: 1000,
        latest_transactions: vec![
            entry(300, Kind::D, "aluguel", "2024-02-01T12:00:00.000000Z"),
            entry(50, Kind::C, "pix", "2024-01-31T08:30:00.500000Z"),
        ],
    }
}

fn same(a: &Client, b: &Client) -> bool {
    format!("{a:?}") == format!("{b:?}")
}

#[test]
fn segment_names() {
    assert_eq!(Mmap::mmap_name("cache-1"), "/dk-rinha-2024-mmap-cache-1");
    assert_eq!(Mmap::mmap_length_name("cache-1"), "/dk-rinha-2024-mmap-len-cache-1");
    assert_eq!(Mmap::mmap_name(""), "/dk-rinha-2024-mmap-");
}

#[test]
fn length_regions() {
    assert_eq!(length_bytes(4), [4, 0, 0, 0]);
    assert_eq!(length_bytes(0x01020304), [4, 3, 2, 1]);
    assert_eq!(stored_length(&[4, 3, 2, 1]), 0x01020304);
    assert_eq!(stored_length(&length_bytes(u32::MAX)), u32::MAX);

    assert_eq!(INIT_LENGTH, 4);
    assert_eq!(init_length(&[0, 0, 0, 0]), (4, true));
    assert_eq!(init_length(&[9, 0, 0, 0]), (9, false));
    assert_eq!(init_length(&[0, 0, 0, 1]), (0x01000000, false));

    assert!(is_all_zero(&[]));
    assert!(is_all_zero(&[0, 0]));
    assert!(!is_all_zero(&[0, 1, 0]));

    assert_eq!(checked_length(0), Some(0));
    assert_eq!(checked_length(u32::MAX as usize), Some(u32::MAX));
    assert_eq!(checked_length(u32::MAX as usize + 1), None);

    let mut region = vec![1u8, 2, 3];
    resize_zeroed(&mut region, 5);
    assert_eq!(region, [1, 2, 3, 0, 0]);
    resize_zeroed(&mut region, 2);
    assert_eq!(region, [1, 2]);
    resize_zeroed(&mut region, 2);
    assert_eq!(region, [1, 2]);
}

#[test]
fn a_new_segment_holds_four_zeros() {
    let segment = Mmap::new("cache-9");
    assert_eq!(segment.get_length(), 4);
    assert_eq!(segment.read(), [0, 0, 0, 0]);
    let opened: Mmap = Segment::open("cache-9");
    assert_eq!(opened.read(), [0, 0, 0, 0]);
}

#[test]
fn a_write_sets_length_and_bytes() {
    let mut segment = Mmap::new("s");
    segment.write(&[1, 2, 3, 4, 5, 6]);
    assert_eq!(segment.get_length(), 6);
    assert_eq!(segment.read(), [1, 2, 3, 4, 5, 6]);
    segment.write(&[9]);
    assert_eq!(segment.get_length(), 1);
    assert_eq!(segment.read(), [9]);
    segment.write(&[]);
    assert_eq!(segment.get_length(), 0);
    assert!(segment.read().is_empty());
}

#[test]
fn set_length_cuts_and_fills() {
    let mut segment = Mmap::new("s");
    segment.write(&[1, 2, 3]);
    segment.set_length(5);
    assert_eq!(segment.get_length(), 5);
    assert_eq!(segment.read(), [1, 2, 3, 0, 0]);
    segment.set_length(2);
    assert_eq!(segment.get_length(), 2);
    assert_eq!(segment.read(), [1, 2]);
}

#[test]
fn client_bytes() {
    let client = Client { _id: 1, balance: -2, limit: 3, latest_transactions: vec![] };
    assert!(client.fits_segment());
    assert!(client.is_storable());
    assert_eq!(
        client.encode(),
        [1, 0, 0, 0, 0xFE, 0xFF, 0xFF, 0xFF, 3, 0, 0, 0, 0, 0, 0, 0]
    );

    let client = sample();
    let bytes = client.encode();
    let mut expected = Vec::new();
    expected.extend(3i32.write_to_vec().unwrap());
    expected.extend((-250i32).write_to_vec().unwrap());
    expected.extend(1000i32.write_to_vec().unwrap());
    expected.extend(2u32.write_to_vec().unwrap());
    expected.extend(300i32.write_to_vec().unwrap());
    expected.extend(1u32.write_to_vec().unwrap());
    expected.extend("aluguel".to_string().write_to_vec().unwrap());
    expected.extend("2024-02-01T12:00:00.000000Z".to_string().write_to_vec().unwrap());
    expected.extend(50i32.write_to_vec().unwrap());
    expected.extend(0u32.write_to_vec().unwrap());
    expected.extend("pix".to_string().write_to_vec().unwrap());
    expected.extend("2024-01-31T08:30:00.500000Z".to_string().write_to_vec().unwrap());
    assert_eq!(bytes, expected);
    assert_eq!(client.segment_bytes(), Some(expected));

    let back = Client::decode(&bytes).unwrap();
    assert!(same(&back, &client));
}

#[test]
fn bytes_that_are_no_client() {
    assert!(Client::decode(&[]).is_none());
    assert!(Client::decode(&[0, 0, 0, 0]).is_none());
    // a fresh segment: four zeros
    assert!(Client::decode(&Mmap::new("x").read()).is_none());
    let bytes = sample().encode();
    for cut in 0..bytes.len() {
        assert!(Client::decode(&bytes[..cut]).is_none(), "cut at {cut}");
    }
    // a kind that is neither credit nor debit
    let mut odd = bytes.clone();
    odd[20] = 2;
    assert!(Client::decode(&odd).is_none());
    // a description that is no UTF-8
    let mut odd = bytes.clone();
    odd[28] = 0xFF;
    assert!(Client::decode(&odd).is_none());
    // what follows a client is passed over
    let mut longer = bytes.clone();
    longer.extend([1, 2, 3]);
    assert!(same(&Client::decode(&longer).unwrap(), &sample()));
}

#[test]
fn typed_get_and_insert() {
    let mut cache: Cache<Mmap> = Cache::new();
    assert!(cache.get("3").is_none());
    assert!(cache.insert("3", &sample()).is_none());
    assert!(same(&cache.get("3").unwrap(), &sample()));

    let mut newer = sample();
    newer.balance = 77;
    let previous = cache.insert("3", &newer).unwrap();
    assert!(same(&previous, &sample()));
    assert!(same(&cache.get("3").unwrap(), &newer));

    assert!(cache.get("4").is_none());
    assert!(same(&cache.get("3").unwrap(), &newer));
}

#[test]
fn corrupt_bytes_read_as_not_present() {
    let mut cache: Cache<Mmap> = Cache::new();
    cache.write("5", &[1, 2, 3]);
    assert!(cache.get("5").is_none());
    let previous = cache.insert("5", &sample());
    assert!(previous.is_none());
    assert!(cache.get("5").is_some());
}

#[test]
fn raw_init_keeps_the_first_writers_bytes() {
    let mut cache: Cache<Mmap> = Cache::new();
    assert_eq!(cache.peek("k"), None);
    cache.init("k", None);
    assert_eq!(cache.peek("k"), Some(vec![0, 0, 0, 0]));
    cache.init("k", Some(&[7, 7]));
    assert_eq!(cache.peek("k"), Some(vec![7, 7]));
    cache.init("k", Some(&[8, 8, 8]));
    assert_eq!(cache.peek("k"), Some(vec![7, 7]));
    cache.init("k", None);
    assert_eq!(cache.read("k"), [7, 7]);

    cache.init("fresh", Some(&[1]));
    assert_eq!(cache.peek("fresh"), Some(vec![1]));
    assert_eq!(cache.peek("k"), Some(vec![7, 7]));
}

#[test]
fn raw_read_and_write() {
    let mut cache: Cache<Mmap> = Cache::new();
    assert_eq!(cache.read("a"), [0, 0, 0, 0]);
    assert_eq!(cache.write("a", &[1, 2]), [0, 0, 0, 0]);
    assert_eq!(cache.write("a", &[3]), [1, 2]);
    assert_eq!(cache.read("a"), [3]);
    assert_eq!(cache.write("b", &[4, 4]), [0, 0, 0, 0]);
    assert_eq!(cache.read("a"), [3]);
    assert_eq!(cache.read("b"), [4, 4]);
    assert_eq!(cache.peek("c"), None);
}

#[test]
fn stale_artifacts() {
    assert!(is_stale_artifact("dk-rinha-2024-mmap-cache-1"));
    assert!(is_stale_artifact("dk-rinha-2024-mmap-len-cache-1"));
    assert!(is_stale_artifact("sem.dk-rinha-2024-sem-1"));
    assert!(is_stale_artifact("dk-rinha"));
    assert!(!is_stale_artifact("dk-rinh"));
    assert!(!is_stale_artifact("sem.other"));
    assert!(!is_stale_artifact("other-dk-rinha"));
    assert!(!is_stale_artifact(""));
}

#[test]
fn cached_client_or_the_store() {
    let mut state: AppState<Mmap> = AppState::new();
    assert_eq!(cache_key(12), "12");
    assert!(state.get_client(12).is_none());

    assert!(matches!(found_or_missing(12, None), Err(AppError::ClientNotFound(12))));
    let stored = Client { _id: 12, balance: 0, limit: 1000, latest_transactions: vec![] };
    let client = found_or_missing(12, Some(stored)).unwrap();

    let debit = entry(500, Kind::D, "um", "2024-02-01T12:00:00.000000Z");
    let client = state.update_client_balance(12, client, &debit).unwrap();
    assert_eq!(client.balance, -500);
    assert_eq!(state.get_client(12).unwrap().balance, -500);

    let too_much = entry(600, Kind::D, "dois", "2024-02-01T12:00:01.000000Z");
    let cached = state.get_client(12).unwrap();
    assert!(matches!(
        state.update_client_balance(12, cached, &too_much),
        Err(AppError::InsufficientBalanceError)
    ));
    let cached = state.get_client(12).unwrap();
    assert_eq!(cached.balance, -500);
    assert_eq!(cached.latest_transactions.len(), 1);

    let credit = entry(2000, Kind::C, "tres", "2024-02-01T12:00:02.000000Z");
    let client = state.update_client_balance(12, cached, &credit).unwrap();
    assert_eq!(client.balance, 1500);
    let cached = state.get_client(12).unwrap();
    assert_eq!(cached.balance, 1500);
    assert_eq!(cached.latest_transactions[0].description, "tres");
    assert_eq!(cached.latest_transactions[1].description, "um");

    assert!(state.get_client(13).is_none());
    state.keep(13, &sample());
    assert!(same(&state.get_client(13).unwrap(), &sample()));
}

#[test]
fn the_first_writers_bytes_stay() {
    let mut segment = Mmap::new("s");
    assert!(write_first(&mut segment, &[5, 6]));
    assert_eq!(segment.read(), [5, 6]);
    assert!(!write_first(&mut segment, &[7]));
    assert_eq!(segment.read(), [5, 6]);

    let mut zeros = Mmap::new("z");
    zeros.write(&[0, 0, 0]);
    assert!(write_first(&mut zeros, &[1]));
    assert_eq!(zeros.read(), [1]);

    let mut empty = Mmap::new("e");
    empty.write(&[]);
    assert!(write_first(&mut empty, &[9, 9]));
    assert_eq!(empty.read(), [9, 9]);
}

#[test]
fn a_read_leaves_the_cache_as_it_was() {
    let mut state: AppState<Mmap> = AppState::new();
    state.keep(3, &sample());
    let before = state.cache.peek("3");
    let first = state.get_client(3).unwrap();
    let second = state.get_client(3).unwrap();
    assert!(same(&first, &sample()));
    assert!(same(&second, &sample()));
    assert_eq!(state.cache.peek("3"), before);

    // a miss writes nothing
    assert!(state.get_client(4).is_none());
    assert_eq!(state.cache.peek("4"), Some(vec![0, 0, 0, 0]));
    assert!(matches!(found_or_missing(4, None), Err(AppError::ClientNotFound(4))));
    assert_eq!(state.cache.peek("3"), before);
}

#[test]
fn a_transaction_is_applied_where_the_new_state_can_be_held() {
    let mut state: AppState<Mmap> = AppState::new();
    let client = Client { _id: 5, balance: 0, limit: 1000, latest_transactions: vec![] };

    let debit = entry(500, Kind::D, "um", "2024-02-01T12:00:00.000000Z");
    let updated = state.apply_transaction(5, client, &debit).unwrap().unwrap();
    assert_eq!(updated.balance, -500);
    assert_eq!(state.get_client(5).unwrap().balance, -500);

    let too_much = entry(600, Kind::D, "dois", "2024-02-01T12:00:01.000000Z");
    let refused = state.apply_transaction(5, updated.clone(), &too_much);
    assert!(matches!(refused, Some(Err(AppError::InsufficientBalanceError))));
    assert_eq!(state.get_client(5).unwrap().balance, -500);

    // a credit that 32 bits cannot hold is not applied
    let mut rich = updated.clone();
    rich.balance = i32::MAX;
    let before = state.cache.peek("5");
    let credit = entry(1, Kind::C, "tres", "2024-02-01T12:00:02.000000Z");
    assert!(state.apply_transaction(5, rich, &credit).is_none());
    assert_eq!(state.cache.peek("5"), before);

    let credit = entry(2000, Kind::C, "tres", "2024-02-01T12:00:02.000000Z");
    let updated = state.apply_transaction(5, updated, &credit).unwrap().unwrap();
    assert_eq!(updated.balance, 1500);
    assert_eq!(state.get_client(5).unwrap().balance, 1500);
}

#[test]
fn copies_hold_what_was_copied() {
    let client = sample();
    let copy = client.clone();
    assert!(same(&copy, &client));

    let statement = client.statement_at("2024-03-04T05:06:07.000008Z".to_string());
    let again = statement.clone();
    assert_eq!(format!("{again:?}"), format!("{statement:?}"));
}
