//! The application's errors: which HTTP status each one is answered with,
//! and what a user is shown of it.

use vstd::prelude::*;
use crate::text::{decimal, push_decimal};

verus! {

/// Everything that can go wrong while serving a request.
///
/// The quantities of `InsufficientQuantity` are carried as they are shown
/// to the user (see `format::quantity_from_fixed`). The internal failures
/// (`Database`, `Template`, `Jwt`) carry nothing: their details are logged,
/// never shown.
pub enum AppError {
    MissingAuthorization,
    InvalidCredentials,
    AssetDoesNotExist,
    UserDoesNotExist,
    UsernameTaken,
    HoldingDoesNotExist,
    InsufficientQuantity { available: String, requested: String },
    InvalidQuantity,
    InvalidUsername,
    PasswordTooShort { minimum: usize },
    Database,
    Template,
    Jwt,
}

/// The text shown in place of any internal failure.
pub open spec fn internal_failure_text() -> Seq<char> {
    "Algo deu errado do nosso lado. Tente novamente em instantes."@
}

impl AppError {
    /// A failure of the system itself rather than of the request.
    pub open spec fn is_internal(&self) -> bool {
        self is Database || self is Template || self is Jwt
    }

    /// The HTTP status code the error is answered with.
    pub open spec fn status_code(&self) -> u16 {
        match self {
            AppError::UsernameTaken
            | AppError::MissingAuthorization
            | AppError::InvalidQuantity
            | AppError::InvalidUsername
            | AppError::PasswordTooShort { .. }
            | AppError::InsufficientQuantity { .. } => 400,
            AppError::InvalidCredentials => 401,
            AppError::AssetDoesNotExist
            | AppError::UserDoesNotExist
            | AppError::HoldingDoesNotExist => 404,
            AppError::Database | AppError::Template | AppError::Jwt => 500,
        }
    }

    /// What the user is told.
    pub open spec fn public_text(&self) -> Seq<char> {
        match self {
            AppError::MissingAuthorization => "Credenciais de acesso ausentes"@,
            AppError::InvalidCredentials => "Usuário ou senha inválidos"@,
            AppError::AssetDoesNotExist => "Este ativo não existe"@,
            AppError::UserDoesNotExist => "Este usuário não existe"@,
            AppError::UsernameTaken => "Este nome de usuário já está em uso"@,
            AppError::HoldingDoesNotExist => "Você não possui este ativo na carteira"@,
            AppError::InsufficientQuantity { available, requested } => "Você possui apenas "@
                + available@ + " deste ativo, e tentou vender "@ + requested@,
            AppError::InvalidQuantity => "A quantidade precisa ser um número maior que zero"@,
            AppError::InvalidUsername =>
                "O nome de usuário deve ter até 40 letras, números, ponto, hífen ou underline"@,
            AppError::PasswordTooShort { minimum } => "A senha precisa ter pelo menos "@ + decimal(
                *minimum as nat,
            ) + " caracteres"@,
            AppError::Database | AppError::Template | AppError::Jwt => internal_failure_text(),
        }
    }

    /// The HTTP status code the error is answered with.
    pub fn status(&self) -> (code: u16)
        ensures
            code == self.status_code(),
    {
        match self {
            AppError::UsernameTaken
            | AppError::MissingAuthorization
            | AppError::InvalidQuantity
            | AppError::InvalidUsername
            | AppError::PasswordTooShort { .. }
            | AppError::InsufficientQuantity { .. } => 400,
            AppError::InvalidCredentials => 401,
            AppError::AssetDoesNotExist
            | AppError::UserDoesNotExist
            | AppError::HoldingDoesNotExist => 404,
            AppError::Database | AppError::Template | AppError::Jwt => 500,
        }
    }

    /// Message that is safe to show to whoever uses the application:
    /// internal failures become a generic text, the others say what went
    /// wrong.
    pub fn public_message(&self) -> (message: String)
        ensures
            message@ == self.public_text(),
    {
        match self {
            AppError::MissingAuthorization => String::from_str("Credenciais de acesso ausentes"),
            AppError::InvalidCredentials => String::from_str("Usuário ou senha inválidos"),
            AppError::AssetDoesNotExist => String::from_str("Este ativo não existe"),
            AppError::UserDoesNotExist => String::from_str("Este usuário não existe"),
            AppError::UsernameTaken => String::from_str("Este nome de usuário já está em uso"),
            AppError::HoldingDoesNotExist => String::from_str(
                "Você não possui este ativo na carteira",
            ),
            AppError::InsufficientQuantity { available, requested } => {
                let mut message = String::from_str("Você possui apenas ");
                message.append(available.as_str());
                message.append(" deste ativo, e tentou vender ");
                message.append(requested.as_str());
                message
            },
            AppError::InvalidQuantity => String::from_str(
                "A quantidade precisa ser um número maior que zero",
            ),
            AppError::InvalidUsername => String::from_str(
                "O nome de usuário deve ter até 40 letras, números, ponto, hífen ou underline",
            ),
            AppError::PasswordTooShort { minimum } => {
                let mut message = String::from_str("A senha precisa ter pelo menos ");
                push_decimal(&mut message, *minimum as u128);
                message.append(" caracteres");
                message
            },
            AppError::Database | AppError::Template | AppError::Jwt => String::from_str(
                "Algo deu errado do nosso lado. Tente novamente em instantes.",
            ),
        }
    }

    /// The answer to a request that failed with this error: its status code
    /// and the body that carries the public message.
    pub fn error_response(&self) -> (response: (u16, ErrorResponse))
        ensures
            response.0 == self.status_code(),
            response.1.error@ == self.public_text(),
    {
        (self.status(), ErrorResponse { error: self.public_message() })
    }
}

/// Body of an error answer: `{"error": "<public message>"}`.
pub struct ErrorResponse {
    pub error: String,
}

/// Internal failures never show their details: they, and only they, are
/// answered with status 500 and the generic text.
pub proof fn lemma_internal_failures_are_hidden(e: AppError)
    ensures
        e.is_internal() <==> e.status_code() == 500,
        e.is_internal() ==> e.public_text() == internal_failure_text(),
{
}


/// The status of an error depends on what went wrong, never on the values it
/// carries: refused requests are 400, bad credentials 401, what does not
/// exist 404, internal failures 500.
pub proof fn lemma_status_by_kind(e: AppError)
    ensures
        (e is UsernameTaken || e is MissingAuthorization || e is InvalidQuantity
            || e is InvalidUsername || e is PasswordTooShort || e is InsufficientQuantity)
            ==> e.status_code() == 400,
        e is InvalidCredentials ==> e.status_code() == 401,
        (e is AssetDoesNotExist || e is UserDoesNotExist || e is HoldingDoesNotExist)
            ==> e.status_code() == 404,
        (e is Database || e is Template || e is Jwt) ==> e.status_code() == 500,
{
}

/// Two errors of the same kind are answered with the same status.
pub proof fn lemma_same_kind_same_status(a: AppError, b: AppError)
    requires
        (a is InsufficientQuantity && b is InsufficientQuantity) || (a is PasswordTooShort
            && b is PasswordTooShort),
    ensures
        a.status_code() == b.status_code(),
{
}

/// The message of a refused sale names the quantity held, right after its
/// opening words, and ends with the quantity asked for: the two are never
/// swapped.
pub proof fn lemma_insufficient_quantity_message(available: String, requested: String)
    ensures
        ({
            let e = AppError::InsufficientQuantity { available, requested };
            let opening = "Você possui apenas "@;
            let text = e.public_text();
            &&& text.len() >= opening.len() + available@.len() + requested@.len()
            &&& text.take(opening.len() as int) == opening
            &&& text.subrange(opening.len() as int, (opening.len() + available@.len()) as int)
                == available@
            &&& text.skip(text.len() - requested@.len()) == requested@
        }),
{
    let e = AppError::InsufficientQuantity { available, requested };
    let opening = "Você possui apenas "@;
    let middle = " deste ativo, e tentou vender "@;
    let text = e.public_text();
    assert(text == opening + available@ + middle + requested@);
    assert(text.take(opening.len() as int) =~= opening);
    assert(text.subrange(opening.len() as int, (opening.len() + available@.len()) as int) =~= available@);
    assert(text.skip(text.len() - requested@.len()) =~= requested@);
}

} // verus!
