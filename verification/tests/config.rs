use carteira::config::{check_secret, SecretError, Secrets, MIN_SECRET_LEN};

#[test]
fn rejects_short_secrets() {
    let err = check_secret("TEST_SHORT_SECRET", Some("curto".to_string()))
        .err()
        .expect("segredo curto deve falhar");
    assert!(err.message().contains("pelo menos"));
    assert_eq!(
        err.message(),
        "TEST_SHORT_SECRET tem 5 caracteres, mas precisa de pelo menos 32. \
         Gere um valor seguro com `openssl rand -base64 48`."
    );
    assert!(matches!(err, SecretError::TooShort { length: 5, .. }));
}

#[test]
fn accepts_long_secrets() {
    let long = "a".repeat(MIN_SECRET_LEN);
    assert_eq!(
        check_secret("TEST_LONG_SECRET", Some(long.clone())).ok(),
        Some(long)
    );
    let one_short = "a".repeat(MIN_SECRET_LEN - 1);
    assert!(check_secret("TEST_LONG_SECRET", Some(one_short)).is_err());
}

#[test]
fn secret_length_counts_bytes() {
    // Sixteen two-byte characters make thirty-two bytes.
    let accented = "é".repeat(16);
    assert!(check_secret("TEST_BYTES", Some(accented)).is_ok());
    let err = check_secret("TEST_BYTES", Some("é".repeat(15)))
        .err()
        .expect("trinta bytes não bastam");
    assert!(matches!(err, SecretError::TooShort { length: 30, .. }));
}

#[test]
fn reports_missing_variable_by_name() {
    let err = check_secret("TEST_ABSENT_SECRET", None)
        .err()
        .expect("variável ausente deve falhar");
    assert!(err.message().contains("TEST_ABSENT_SECRET"));
    assert_eq!(
        err.message(),
        "a variável de ambiente TEST_ABSENT_SECRET não está definida"
    );
}

#[test]
fn secrets_check_the_signing_key_first() {
    let err = Secrets::from_env_values(None, None).err().expect("nada definido");
    assert!(err.message().contains("JWT_SECRET"));

    let long = "k".repeat(40);
    let err = Secrets::from_env_values(Some(long.clone()), Some("x".to_string()))
        .err()
        .expect("segredo de administrador curto");
    assert!(matches!(err, SecretError::TooShort { ref name, length: 1 } if name == "ADMIN_SECRET"));
}

#[test]
fn secrets_keep_what_they_were_given() {
    let jwt = "j".repeat(40);
    let admin = "segredo-de-teste-sem-valor-em-producao".to_string();
    let secrets = Secrets::from_env_values(Some(jwt.clone()), Some(admin.clone()))
        .ok()
        .expect("segredos longos");
    assert_eq!(secrets.admin_secret(), admin);
    assert_eq!(secrets.jwt_key().to_bytes(), jwt.as_bytes());
}
