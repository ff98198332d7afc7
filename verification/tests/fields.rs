use dk_rinha::app_error::AppError;
use dk_rinha::transaction::deser::{
    deserialize_description, deserialize_kind, deserialize_value, FieldError,
};
use dk_rinha::transaction::Kind;
use dk_rinha::utils::monaei_cache::Error;
use dk_rinha::utils::semaphore::{semaphore_name, INITIAL_COUNT};
use dk_rinha::utils::text::{decimal_string, join, starts_with};

#[test]
fn value_must_be_positive() {
    assert_eq!(deserialize_value(Some(1)), Ok(1));
    assert_eq!(deserialize_value(Some(i32::MAX)), Ok(i32::MAX));
    assert_eq!(deserialize_value(Some(0)), Err(FieldError::Value));
    assert_eq!(deserialize_value(Some(-5)), Err(FieldError::Value));
    assert_eq!(deserialize_value(None), Err(FieldError::Value));
}

#[test]
fn description_has_one_to_ten_bytes() {
    assert_eq!(deserialize_description(Some("a".to_string())), Ok("a".to_string()));
    assert_eq!(deserialize_description(Some("0123456789".to_string())), Ok("0123456789".to_string()));
    assert_eq!(deserialize_description(Some(String::new())), Err(FieldError::Description));
    assert_eq!(
        deserialize_description(Some("0123456789a".to_string())),
        Err(FieldError::Description)
    );
    assert_eq!(deserialize_description(None), Err(FieldError::Description));
    // six characters of two bytes each are twelve bytes
    assert_eq!(
        deserialize_description(Some("éééééé".to_string())),
        Err(FieldError::Description)
    );
    assert_eq!(deserialize_description(Some("ééééé".to_string())), Ok("ééééé".to_string()));
}

#[test]
fn kind_must_have_been_read() {
    assert_eq!(deserialize_kind(Some(Kind::C)), Ok(Kind::C));
    assert_eq!(deserialize_kind(Some(Kind::D)), Ok(Kind::D));
    assert_eq!(deserialize_kind(None), Err(FieldError::Kind));
}

#[test]
fn field_messages() {
    assert_eq!(FieldError::Value.message(), "Campo 'valor' deve ser um inteiro positivo.");
    assert_eq!(
        FieldError::Description.message(),
        "Campo 'descricao' deve ser uma string entre 1 e 10 caracteres."
    );
    assert_eq!(
        FieldError::Kind.message(),
        "Campo 'tipo' deve ser 'c' para crédito ou 'd' para débito."
    );
}

#[test]
fn failure_messages_and_statuses() {
    assert_eq!(AppError::ClientNotFound(6).message(), "Cliente 6 não encontrado");
    assert_eq!(AppError::ClientNotFound(-17).message(), "Cliente -17 não encontrado");
    assert_eq!(AppError::InsufficientBalanceError.message(), "Saldo insuficiente");
    assert_eq!(AppError::MongoError("pool closed".to_string()).message(), "pool closed");
    assert_eq!(AppError::DeError("expected value".to_string()).message(), "expected value");

    assert_eq!(AppError::ClientNotFound(6).status(), 404);
    assert_eq!(AppError::InsufficientBalanceError.status(), 422);
    assert_eq!(AppError::MongoError(String::new()).status(), 500);
    assert_eq!(AppError::DeError(String::new()).status(), 422);
}

#[test]
fn protocol_error_messages() {
    assert_eq!(Error::LimitReached.message(), "Limit reached");
    assert_eq!(Error::TypeError.message(), "Type error");
    assert_eq!(Error::NotFound.message(), "Not found");
}

#[test]
fn decimal_agrees_with_the_standard_library() {
    for n in [0, 1, 9, 10, 11, 99, 100, 101, 1234567890, i32::MAX, -1, -10, -999, i32::MIN] {
        assert_eq!(decimal_string(n), n.to_string());
    }
}

#[test]
fn lock_names() {
    assert_eq!(semaphore_name(1), "/dk-rinha-2024-sem-1");
    assert_eq!(semaphore_name(-3), "/dk-rinha-2024-sem--3");
    assert_eq!(semaphore_name(12345), "/dk-rinha-2024-sem-12345");
    assert_eq!(INITIAL_COUNT, 1);
}

#[test]
fn joining_and_prefixes() {
    assert_eq!(join("cache-", "7"), "cache-7");
    assert_eq!(join("", ""), "");
    assert!(starts_with("dk-rinha-2024-sem-1", "dk-rinha"));
    assert!(starts_with("abc", ""));
    assert!(starts_with("abc", "abc"));
    assert!(!starts_with("ab", "abc"));
    assert!(!starts_with("xdk-rinha", "dk-rinha"));
    assert!(!starts_with("", "a"));
}

#[test]
fn a_lock_is_opened_on_its_first_wait() {
    let mut locks = dk_rinha::utils::Semaphore::new();
    assert!(!locks.release(7));
    assert_eq!(locks.wait(7), Some("/dk-rinha-2024-sem-7".to_string()));
    assert!(locks.release(7));
    assert_eq!(locks.wait(7), None);
    assert_eq!(locks.wait(8), Some("/dk-rinha-2024-sem-8".to_string()));
    assert_eq!(locks.wait(7), None);
    assert!(locks.release(8));
    assert!(!locks.release(9));
}
