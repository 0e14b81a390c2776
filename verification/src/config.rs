//! The application's secrets: the key that signs session tokens and the
//! administrator credential. Their values come from the environment; what
//! is decided here is whether a value is acceptable.

use vstd::prelude::*;
use vstd::utf8::encode_utf8;
use jwt_simple::algorithms::HS256Key;
use crate::text::{decimal, push_decimal};

verus! {

/// The HMAC-SHA256 key type of `jwt_simple`.
#[verifier::external_type_specification]
#[verifier::external_body]
pub struct OutsideHs256Key(HS256Key);

/// Smallest acceptable length of a secret, in bytes. A short HS256 key can
/// be found by offline brute force by anyone who holds a token, who can
/// then sign tokens for any user.
pub const MIN_SECRET_LEN: usize = 32;

/// Why a secret was not accepted.
pub enum SecretError {
    /// The environment variable `name` is not set.
    Missing { name: String },
    /// The value of `name` has only `length` bytes.
    TooShort { name: String, length: usize },
}

/// Length in bytes of the UTF-8 encoding of `s`.
pub open spec fn byte_len(s: Seq<char>) -> nat {
    encode_utf8(s).len()
}

/// What `check_secret` decides for the variable `name` with the value
/// `value` (`None` when it is not set).
pub open spec fn secret_verdict(name: Seq<char>, value: Option<Seq<char>>) -> Result<
    Seq<char>,
    SecretFault,
> {
    match value {
        None => Err(SecretFault::Missing { name }),
        Some(v) => if byte_len(v) < MIN_SECRET_LEN {
            Err(SecretFault::TooShort { name, length: byte_len(v) })
        } else {
            Ok(v)
        },
    }
}

/// The text of an optional string.
pub open spec fn text_of(value: Option<String>) -> Option<Seq<char>> {
    match value {
        Some(s) => Some(s@),
        None => None,
    }
}

/// The model of the outcome of a check.
pub open spec fn verdict_of(checked: &Result<String, SecretError>) -> Result<Seq<char>, SecretFault> {
    match checked {
        Ok(v) => Ok(v@),
        Err(e) => Err(e.fault()),
    }
}

/// The model of a `SecretError`.
pub enum SecretFault {
    Missing { name: Seq<char> },
    TooShort { name: Seq<char>, length: nat },
}

impl SecretError {
    pub open spec fn fault(&self) -> SecretFault {
        match self {
            SecretError::Missing { name } => SecretFault::Missing { name: name@ },
            SecretError::TooShort { name, length } => SecretFault::TooShort {
                name: name@,
                length: *length as nat,
            },
        }
    }

    /// The text that explains the error.
    pub open spec fn text(&self) -> Seq<char> {
        match self {
            SecretError::Missing { name } => "a variável de ambiente "@ + name@
                + " não está definida"@,
            SecretError::TooShort { name, length } => name@ + " tem "@ + decimal(*length as nat)
                + " caracteres, mas precisa de pelo menos "@ + decimal(MIN_SECRET_LEN as nat)
                + ". Gere um valor seguro com `openssl rand -base64 48`."@,
        }
    }

    /// The text that explains the error.
    pub fn message(&self) -> (text: String)
        ensures
            text@ == self.text(),
    {
        match self {
            SecretError::Missing { name } => {
                let mut text = String::from_str("a variável de ambiente ");
                text.append(name.as_str());
                text.append(" não está definida");
                text
            },
            SecretError::TooShort { name, length } => {
                let mut text = name.clone();
                text.append(" tem ");
                push_decimal(&mut text, *length as u128);
                text.append(" caracteres, mas precisa de pelo menos ");
                push_decimal(&mut text, MIN_SECRET_LEN as u128);
                text.append(". Gere um valor seguro com `openssl rand -base64 48`.");
                text
            },
        }
    }
}

/// Accepts the value of the environment variable `name` (`None` when it is
/// not set) as a secret when it has at least `MIN_SECRET_LEN` bytes.
pub fn check_secret(name: &str, value: Option<String>) -> (checked: Result<String, SecretError>)
    ensures
        verdict_of(&checked) == secret_verdict(name@, text_of(value)),
{
    match value {
        None => Err(SecretError::Missing { name: String::from_str(name) }),
        Some(v) => {
            let length = v.as_str().as_bytes().len();
            if length < MIN_SECRET_LEN {
                Err(SecretError::TooShort { name: String::from_str(name), length })
            } else {
                Ok(v)
            }
        },
    }
}

/// The HMAC-SHA256 key that `jwt_simple::algorithms::HS256Key::from_bytes`
/// builds from the raw bytes `raw`.
pub uninterp spec fn hs256_key_of(raw: Seq<u8>) -> HS256Key;

/// A secret is accepted exactly when it has at least `MIN_SECRET_LEN` bytes,
/// however long it is, and is then kept as given; a shorter one is refused
/// with its own length; an unset one is reported as missing, by name.
pub proof fn lemma_secret_threshold(name: Seq<char>, v: Seq<char>)
    ensures
        secret_verdict(name, None) == Err::<Seq<char>, SecretFault>(SecretFault::Missing { name }),
        secret_verdict(name, Some(v)) is Ok <==> encode_utf8(v).len() >= MIN_SECRET_LEN,
        encode_utf8(v).len() >= MIN_SECRET_LEN ==> secret_verdict(name, Some(v)) == Ok::<
            Seq<char>,
            SecretFault,
        >(v),
        encode_utf8(v).len() < MIN_SECRET_LEN ==> secret_verdict(name, Some(v)) == Err::<
            Seq<char>,
            SecretFault,
        >(SecretFault::TooShort { name, length: encode_utf8(v).len() }),
{
}

/// A longer secret is never refused where a shorter one is accepted.
pub proof fn lemma_secret_acceptance_monotone(name: Seq<char>, shorter: Seq<char>, longer: Seq<char>)
    requires
        encode_utf8(shorter).len() <= encode_utf8(longer).len(),
        secret_verdict(name, Some(shorter)) is Ok,
    ensures
        secret_verdict(name, Some(longer)) == Ok::<Seq<char>, SecretFault>(longer),
{
}

/// Builds an HMAC-SHA256 signing key from its raw bytes
/// (`jwt_simple::algorithms::HS256Key::from_bytes`). That function keeps a
/// copy of the bytes as the key, with no key id and no metadata, so the key
/// depends on the bytes alone: it is `hs256_key_of` of them.
#[verifier::external_body]
fn hs256_key_from_bytes(raw: &[u8]) -> (key: HS256Key)
    ensures
        key == hs256_key_of(raw@),
{
    HS256Key::from_bytes(raw)
}

/// The application's secrets, once accepted.
pub struct Secrets {
    jwt_key: HS256Key,
    admin_secret: String,
}

impl Secrets {
    /// The administrator credential.
    pub closed spec fn admin_secret_text(&self) -> Seq<char> {
        self.admin_secret@
    }

    /// The key that signs session tokens.
    pub closed spec fn jwt_key_value(&self) -> HS256Key {
        self.jwt_key
    }

    /// Accepts the values of `JWT_SECRET` and `ADMIN_SECRET` (each `None`
    /// when not set): the first one that is not acceptable is the error;
    /// otherwise the signing key is built from the UTF-8 bytes of the first
    /// and the second becomes the administrator credential.
    pub fn from_env_values(jwt_secret: Option<String>, admin_secret: Option<String>) -> (secrets:
        Result<Secrets, SecretError>)
        ensures
            match secrets {
                Ok(s) => secret_verdict("JWT_SECRET"@, text_of(jwt_secret)) is Ok
                    && secret_verdict("ADMIN_SECRET"@, text_of(admin_secret)) == Ok::<
                    Seq<char>,
                    SecretFault,
                >(s.admin_secret_text()) && s.jwt_key_value() == hs256_key_of(
                    encode_utf8(text_of(jwt_secret)->0),
                ),
                Err(e) => match secret_verdict("JWT_SECRET"@, text_of(jwt_secret)) {
                    Err(f) => e.fault() == f,
                    Ok(_) => secret_verdict("ADMIN_SECRET"@, text_of(admin_secret))
                        == Err::<Seq<char>, SecretFault>(e.fault()),
                },
            },
    {
        let jwt = match check_secret("JWT_SECRET", jwt_secret) {
            Ok(v) => v,
            Err(e) => {
                return Err(e);
            },
        };
        let admin = match check_secret("ADMIN_SECRET", admin_secret) {
            Ok(v) => v,
            Err(e) => {
                return Err(e);
            },
        };
        Ok(Secrets { jwt_key: hs256_key_from_bytes(jwt.as_str().as_bytes()), admin_secret: admin })
    }

    /// The key that signs session tokens.
    pub fn jwt_key(&self) -> (key: &HS256Key)
        ensures
            *key == self.jwt_key_value(),
    {
        &self.jwt_key
    }

    /// The administrator credential.
    pub fn admin_secret(&self) -> (secret: &str)
        ensures
            secret@ == self.admin_secret_text(),
    {
        self.admin_secret.as_str()
    }
}

} // verus!
