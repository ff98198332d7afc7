//! The failures that reach a caller of the service.

use crate::utils::text::{decimal, push_decimal};
use vstd::prelude::*;
use vstd::string::StringExecFns;

verus! {

/// Why a request failed. The last two carry the message of the store or of
/// the body parser.
#[derive(Debug)]
pub enum AppError {
    ClientNotFound(i32),
    InsufficientBalanceError,
    MongoError(String),
    DeError(String),
}

impl AppError {
    /// The text that tells the caller what failed.
    pub open spec fn spec_message(self) -> Seq<char> {
        match self {
            AppError::ClientNotFound(id) => "Cliente "@ + decimal(id as int) + " não encontrado"@,
            AppError::InsufficientBalanceError => "Saldo insuficiente"@,
            AppError::MongoError(message) => message@,
            AppError::DeError(message) => message@,
        }
    }

    /// The status that the failure is answered with.
    pub open spec fn spec_status(self) -> u16 {
        match self {
            AppError::ClientNotFound(_) => 404,
            AppError::InsufficientBalanceError => 422,
            AppError::MongoError(_) => 500,
            AppError::DeError(_) => 422,
        }
    }

    /// The text that tells the caller what failed.
    pub fn message(&self) -> (text: String)
        ensures
            text@ == self.spec_message(),
    {
        match self {
            AppError::ClientNotFound(id) => {
                let mut text = String::from_str("Cliente ");
                push_decimal(&mut text, *id);
                text.append(" não encontrado");
                text
            },
            AppError::InsufficientBalanceError => String::from_str("Saldo insuficiente"),
            AppError::MongoError(message) => message.clone(),
            AppError::DeError(message) => message.clone(),
        }
    }

    /// The status that the failure is answered with: not found, cannot be
    /// processed, or a fault of the service.
    pub fn status(&self) -> (code: u16)
        ensures
            code == self.spec_status(),
    {
        match self {
            AppError::ClientNotFound(_) => 404,
            AppError::InsufficientBalanceError => 422,
            AppError::MongoError(_) => 500,
            AppError::DeError(_) => 422,
        }
    }
}

} // verus!
