use axum::http::StatusCode;
use carteira::error::AppError;
use carteira::format::quantity_from_fixed;

fn quantity(value: f64) -> String {
    quantity_from_fixed(&format!("{value:.8}"), value < 0.0)
}

#[test]
fn internal_failures_do_not_leak_details() {
    // The library's internal errors carry no detail to leak: the underlying
    // failure (here it would be `sqlx::Error::RowNotFound`) stays in the
    // application's log.
    let error = AppError::Database;
    let message = error.public_message();

    assert!(!message.contains("RowNotFound"));
    assert_eq!(error.status(), StatusCode::INTERNAL_SERVER_ERROR.as_u16());
}

#[test]
fn user_facing_errors_keep_their_message() {
    let error = AppError::InsufficientQuantity {
        available: quantity(2.0),
        requested: quantity(5.0),
    };

    assert!(error.public_message().contains('2'));
    assert!(error.public_message().contains('5'));
    assert_eq!(error.status(), StatusCode::BAD_REQUEST.as_u16());
}

#[test]
fn internal_failures_show_a_generic_message() {
    for error in [AppError::Database, AppError::Template, AppError::Jwt] {
        assert_eq!(error.status(), 500);
        assert_eq!(
            error.public_message(),
            "Algo deu errado do nosso lado. Tente novamente em instantes."
        );
    }
}

#[test]
fn insufficient_quantity_keeps_both_quantities() {
    let error = AppError::InsufficientQuantity {
        available: "2".to_string(),
        requested: "5".to_string(),
    };

    assert!(error.public_message().contains('2'));
    assert!(error.public_message().contains('5'));
    assert_eq!(
        error.public_message(),
        "Você possui apenas 2 deste ativo, e tentou vender 5"
    );
    assert_eq!(error.status(), 400);
}

#[test]
fn every_error_has_its_status() {
    assert_eq!(AppError::MissingAuthorization.status(), 400);
    assert_eq!(AppError::UsernameTaken.status(), 400);
    assert_eq!(AppError::InvalidQuantity.status(), 400);
    assert_eq!(AppError::InvalidUsername.status(), 400);
    assert_eq!(AppError::PasswordTooShort { minimum: 8 }.status(), 400);
    assert_eq!(AppError::InvalidCredentials.status(), 401);
    assert_eq!(AppError::AssetDoesNotExist.status(), 404);
    assert_eq!(AppError::UserDoesNotExist.status(), 404);
    assert_eq!(AppError::HoldingDoesNotExist.status(), 404);
}

#[test]
fn user_facing_messages() {
    assert_eq!(
        AppError::MissingAuthorization.public_message(),
        "Credenciais de acesso ausentes"
    );
    assert_eq!(
        AppError::InvalidCredentials.public_message(),
        "Usuário ou senha inválidos"
    );
    assert_eq!(AppError::AssetDoesNotExist.public_message(), "Este ativo não existe");
    assert_eq!(AppError::UserDoesNotExist.public_message(), "Este usuário não existe");
    assert_eq!(
        AppError::UsernameTaken.public_message(),
        "Este nome de usuário já está em uso"
    );
    assert_eq!(
        AppError::HoldingDoesNotExist.public_message(),
        "Você não possui este ativo na carteira"
    );
    assert_eq!(
        AppError::InvalidQuantity.public_message(),
        "A quantidade precisa ser um número maior que zero"
    );
    assert_eq!(
        AppError::InvalidUsername.public_message(),
        "O nome de usuário deve ter até 40 letras, números, ponto, hífen ou underline"
    );
    assert_eq!(
        AppError::PasswordTooShort { minimum: 8 }.public_message(),
        "A senha precisa ter pelo menos 8 caracteres"
    );
    assert_eq!(
        AppError::PasswordTooShort { minimum: 120 }.public_message(),
        "A senha precisa ter pelo menos 120 caracteres"
    );
}

#[test]
fn error_response_carries_status_and_public_message() {
    let (status, body) = AppError::HoldingDoesNotExist.error_response();
    assert_eq!(status, 404);
    assert_eq!(body.error, "Você não possui este ativo na carteira");

    let (status, body) = AppError::Database.error_response();
    assert_eq!(status, 500);
    assert_eq!(
        body.error,
        "Algo deu errado do nosso lado. Tente novamente em instantes."
    );
}
