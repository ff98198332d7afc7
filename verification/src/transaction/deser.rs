//! The checks that an incoming transaction's fields must pass.
//!
//! Each check takes what the body parser made of the field, or nothing
//! where the parser could make nothing of it.

use super::Kind;
use vstd::prelude::*;
use vstd::string::StringSliceAdditionalSpecFns;

verus! {

/// The field that did not pass its check.
#[derive(Debug, Clone, Copy, PartialEq, Eq, Structural)]
pub enum FieldError {
    Value,
    Description,
    Kind,
}

impl FieldError {
    /// The text that tells the caller what the field must be.
    pub open spec fn spec_message(self) -> Seq<char> {
        match self {
            FieldError::Value => "Campo 'valor' deve ser um inteiro positivo."@,
            FieldError::Description => "Campo 'descricao' deve ser uma string entre 1 e 10 caracteres."@,
            FieldError::Kind => "Campo 'tipo' deve ser 'c' para crédito ou 'd' para débito."@,
        }
    }

    /// The text that tells the caller what the field must be.
    pub fn message(&self) -> (text: String)
        ensures
            text@ == self.spec_message(),
    {
        match self {
            FieldError::Value => "Campo 'valor' deve ser um inteiro positivo.".to_owned(),
            FieldError::Description => "Campo 'descricao' deve ser uma string entre 1 e 10 caracteres.".to_owned(),
            FieldError::Kind => "Campo 'tipo' deve ser 'c' para crédito ou 'd' para débito.".to_owned(),
        }
    }
}

/// A value passes where it is a number above zero.
pub fn deserialize_value(parsed: Option<i32>) -> (r: Result<i32, FieldError>)
    ensures
        r == match parsed {
            Some(value) if value > 0 => Ok::<i32, FieldError>(value),
            _ => Err::<i32, FieldError>(FieldError::Value),
        },
{
    if let Some(value) = parsed {
        if value > 0 {
            return Ok(value);
        }
    }
    Err(FieldError::Value)
}

/// Whether a description has from one to ten bytes.
pub open spec fn description_ok(text: Seq<char>) -> bool {
    1 <= vstd::utf8::encode_utf8(text).len() <= 10
}

/// A description passes where it is a text of one to ten bytes.
pub fn deserialize_description(parsed: Option<String>) -> (r: Result<String, FieldError>)
    ensures
        match parsed {
            Some(text) if description_ok(text@) => r == Ok::<String, FieldError>(text),
            _ => r == Err::<String, FieldError>(FieldError::Description),
        },
{
    if let Some(text) = parsed {
        let length: usize = text.as_str().as_bytes().len();
        if 1 <= length && length <= 10 {
            return Ok(text);
        }
    }
    Err(FieldError::Description)
}

/// A kind passes where the parser could read one.
pub fn deserialize_kind(parsed: Option<Kind>) -> (r: Result<Kind, FieldError>)
    ensures
        r == match parsed {
            Some(kind) => Ok::<Kind, FieldError>(kind),
            None => Err::<Kind, FieldError>(FieldError::Kind),
        },
{
    match parsed {
        Some(kind) => Ok(kind),
        None => Err(FieldError::Kind),
    }
}

} // verus!
