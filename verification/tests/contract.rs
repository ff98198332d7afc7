use dk_rinha::app_error::AppError;
use dk_rinha::app_state::{
    after_increment, after_second_increment, increment_failure, remote_client, resident_opts,
    transaction_delta, RemoteStep,
};
use dk_rinha::transaction::{Kind, TransactionDTO};
use dk_rinha::utils::monaei_cache::contract::{append_bounded, increment_stored};
use dk_rinha::utils::monaei_cache::{Error, Incrementable, IncrementOpts, Value};

fn show(value: &Value) -> String {
    format!("{value:?}")
}

fn bounded(value: i32, lower_limit: Option<i32>, upper_limit: Option<i32>) -> Incrementable {
    Incrementable { value, lower_limit, upper_limit }
}

#[test]
fn add_within_bounds() {
    let mut n = bounded(0, Some(-1000), None);
    assert_eq!(n.add(-500), Ok(()));
    assert_eq!(n.value, -500);
    assert_eq!(n.add(-600), Err(Error::LimitReached));
    assert_eq!(n.value, -500);
    assert_eq!(n.add(-500), Ok(()));
    assert_eq!(n.value, -1000);
    assert_eq!(n.add(2000), Ok(()));
    assert_eq!(n.value, 1000);
    assert_eq!(n.lower_limit, Some(-1000));
}

#[test]
fn add_respects_the_upper_bound_and_the_32_bits() {
    let mut n = bounded(9, None, Some(10));
    assert_eq!(n.add(1), Ok(()));
    assert_eq!(n.add(1), Err(Error::LimitReached));
    assert_eq!(n.value, 10);

    let mut free = bounded(i32::MAX - 1, None, None);
    assert_eq!(free.add(1), Ok(()));
    assert_eq!(free.add(1), Err(Error::LimitReached));
    assert_eq!(free.value, i32::MAX);
    let mut low = bounded(i32::MIN, None, None);
    assert_eq!(low.add(-1), Err(Error::LimitReached));
    assert_eq!(low.add(i32::MIN), Err(Error::LimitReached));
    assert_eq!(low.value, i32::MIN);
}

#[test]
fn increments_in_any_order_add_up() {
    let deltas = [5, -3, 10, -7, 1, 1, -2];
    let total: i32 = deltas.iter().sum();
    let mut forward = bounded(100, Some(0), None);
    for d in deltas {
        assert_eq!(forward.add(d), Ok(()));
    }
    let mut backward = bounded(100, Some(0), None);
    for d in deltas.iter().rev() {
        assert_eq!(backward.add(*d), Ok(()));
    }
    assert_eq!(forward.value, 100 + total);
    assert_eq!(backward.value, 100 + total);
}

#[test]
fn scenario_on_the_remote_number() {
    let mut stored = None;
    let opts = resident_opts(1000);
    assert_eq!(
        opts,
        IncrementOpts { lower_limit: Some(-1000), upper_limit: None, create: Some(true) }
    );
    assert_eq!(increment_stored(&mut stored, 0, Some(opts)), Ok(bounded(0, Some(-1000), None)));
    assert_eq!(increment_stored(&mut stored, -500, None), Ok(bounded(-500, Some(-1000), None)));
    assert_eq!(increment_stored(&mut stored, -600, None), Err(Error::LimitReached));
    assert_eq!(stored, Some(bounded(-500, Some(-1000), None)));
    assert_eq!(increment_stored(&mut stored, 2000, None), Ok(bounded(1500, Some(-1000), None)));
}

#[test]
fn increment_of_a_missing_key() {
    let mut stored = None;
    assert_eq!(increment_stored(&mut stored, 5, None), Err(Error::NotFound));
    assert_eq!(stored, None);
    let no_create = IncrementOpts { lower_limit: Some(0), upper_limit: None, create: None };
    assert_eq!(increment_stored(&mut stored, 5, Some(no_create)), Err(Error::NotFound));
    let refuse_create = IncrementOpts { create: Some(false), ..no_create };
    assert_eq!(increment_stored(&mut stored, 5, Some(refuse_create)), Err(Error::NotFound));
    assert_eq!(stored, None);

    let create = IncrementOpts { lower_limit: Some(0), upper_limit: Some(9), create: Some(true) };
    assert_eq!(increment_stored(&mut stored, -1, Some(create)), Err(Error::LimitReached));
    assert_eq!(stored, None);
    assert_eq!(increment_stored(&mut stored, 5, Some(create)), Ok(bounded(5, Some(0), Some(9))));
    assert_eq!(stored, Some(bounded(5, Some(0), Some(9))));
}

#[test]
fn a_bound_that_the_step_brings_takes_the_stored_ones_place() {
    let mut stored = Some(bounded(5, Some(0), None));
    let tighter = IncrementOpts { lower_limit: Some(3), upper_limit: None, create: None };
    assert_eq!(increment_stored(&mut stored, -3, Some(tighter)), Err(Error::LimitReached));
    assert_eq!(stored, Some(bounded(5, Some(0), None)));
    assert_eq!(increment_stored(&mut stored, -2, Some(tighter)), Ok(bounded(3, Some(3), None)));
    let only_upper = IncrementOpts { lower_limit: None, upper_limit: Some(4), create: None };
    assert_eq!(increment_stored(&mut stored, 1, Some(only_upper)), Ok(bounded(4, Some(3), Some(4))));
    assert_eq!(increment_stored(&mut stored, 1, None), Err(Error::LimitReached));
}

#[test]
fn values_increment_only_where_they_are_numbers() {
    let mut number = Value::Inc(bounded(1, Some(0), None));
    assert_eq!(number.increment(4), Ok(bounded(5, Some(0), None)));
    assert_eq!(number.increment(-6), Err(Error::LimitReached));
    assert_eq!(show(&number), show(&Value::Inc(bounded(5, Some(0), None))));
    let mut text = Value::text("5");
    assert_eq!(text.increment(1), Err(Error::TypeError));
    assert_eq!(show(&text), show(&Value::text("5")));
}

#[test]
fn bounded_append_keeps_the_last_members() {
    let mut items = Vec::new();
    for n in 1..=7u32 {
        append_bounded(&mut items, Value::Nat(n), Some(3));
        assert!(items.len() <= 3);
    }
    assert_eq!(
        show(&Value::List(items)),
        show(&Value::List(vec![Value::Nat(5), Value::Nat(6), Value::Nat(7)]))
    );
}

#[test]
fn bounded_append_below_the_bound_and_without_one() {
    let mut items = Vec::new();
    append_bounded(&mut items, Value::Nat(1), Some(3));
    append_bounded(&mut items, Value::Nat(2), Some(3));
    assert_eq!(items.len(), 2);
    append_bounded(&mut items, Value::Nat(3), None);
    append_bounded(&mut items, Value::Nat(4), None);
    assert_eq!(items.len(), 4);
    // one member leaves at a time
    append_bounded(&mut items, Value::Nat(5), Some(2));
    assert_eq!(items.len(), 4);
    assert_eq!(show(&items[0]), show(&Value::Nat(2)));
    // a bound of zero keeps nothing
    let mut none = Vec::new();
    append_bounded(&mut none, Value::Nil, Some(0));
    assert!(none.is_empty());
}

#[test]
fn values_append_only_where_they_are_lists() {
    let mut list = Value::List(vec![]);
    for n in 0..12 {
        assert_eq!(list.add_to_set(Value::Int(n), Some(10)), Ok(()));
    }
    let kept = list.as_set().unwrap();
    assert_eq!(kept.len(), 10);
    assert_eq!(show(&kept[0]), show(&Value::Int(2)));
    assert_eq!(show(&kept[9]), show(&Value::Int(11)));

    let mut number = Value::Int(1);
    assert_eq!(number.add_to_set(Value::Nil, None), Err(Error::TypeError));
    assert_eq!(show(&number), show(&Value::Int(1)));
}

#[test]
fn a_transaction_as_a_step_of_the_remote_number() {
    let credit = TransactionDTO {
        value: 30,
        kind: Kind::C,
        description: "c".to_string(),
        date: String::new(),
    };
    let debit = TransactionDTO { kind: Kind::D, ..credit.clone() };
    assert_eq!(transaction_delta(&credit), 30);
    assert_eq!(transaction_delta(&debit), -30);

    assert!(matches!(
        increment_failure(Error::LimitReached),
        Some(AppError::InsufficientBalanceError)
    ));
    assert!(increment_failure(Error::NotFound).is_none());
    match increment_failure(Error::TypeError) {
        Some(AppError::DeError(text)) => assert_eq!(text, "Type error"),
        other => panic!("unexpected {other:?}"),
    }
}

#[test]
fn a_remote_number_as_a_client() {
    let client = remote_client(4, bounded(-500, Some(-1000), None));
    assert_eq!(client._id, 4);
    assert_eq!(client.balance, -500);
    assert_eq!(client.limit, 1000);
    assert!(client.latest_transactions.is_empty());

    assert_eq!(remote_client(4, bounded(1, None, Some(5))).limit, 0);
    assert_eq!(remote_client(4, bounded(1, Some(i32::MIN), None)).limit, i32::MAX);
    assert_eq!(remote_client(4, bounded(1, Some(5), None)).limit, -5);
    let opts = resident_opts(321);
    assert_eq!(remote_client(4, bounded(0, opts.lower_limit, None)).limit, 321);
}

#[test]
fn what_follows_an_answer_to_an_increment() {
    match after_increment(9, Ok(bounded(-5, Some(-10), None))) {
        RemoteStep::Done(client) => {
            assert_eq!((client._id, client.balance, client.limit), (9, -5, 10));
        }
        other => panic!("unexpected {other:?}"),
    }
    assert!(matches!(
        after_increment(9, Err(Error::LimitReached)),
        RemoteStep::Failed(AppError::InsufficientBalanceError)
    ));
    assert!(matches!(after_increment(9, Err(Error::NotFound)), RemoteStep::AskStore));
    assert!(matches!(
        after_increment(9, Err(Error::TypeError)),
        RemoteStep::Failed(AppError::DeError(_))
    ));

    assert!(matches!(
        after_second_increment(9, Err(Error::NotFound)),
        Err(AppError::ClientNotFound(9))
    ));
    assert!(matches!(
        after_second_increment(9, Err(Error::LimitReached)),
        Err(AppError::InsufficientBalanceError)
    ));
    assert_eq!(after_second_increment(9, Ok(bounded(3, None, None))).unwrap().balance, 3);
}
