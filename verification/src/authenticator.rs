//! What a client proves its identity with.
use vstd::prelude::*;

verus! {

#[derive(Debug, PartialEq, Eq)]
pub struct PasswordAuthenticator {
    pub username: String,
    pub password: String,
}

/// A client certificate, which is part of the TLS configuration.
#[derive(Debug, Clone, Copy, PartialEq, Eq)]
pub struct CertificateAuthenticator {}

#[derive(Debug, PartialEq, Eq)]
pub struct JwtAuthenticator {
    pub token: String,
}

#[derive(Debug, PartialEq, Eq)]
pub enum Authenticator {
    PasswordAuthenticator(PasswordAuthenticator),
    CertificateAuthenticator(CertificateAuthenticator),
    JwtAuthenticator(JwtAuthenticator),
}

impl Clone for Authenticator {
    fn clone(&self) -> (r: Authenticator)
        ensures
            r == *self,
    {
        match self {
            Authenticator::PasswordAuthenticator(a) => Authenticator::PasswordAuthenticator(
                PasswordAuthenticator {
                    username: a.username.clone(),
                    password: a.password.clone(),
                },
            ),
            Authenticator::CertificateAuthenticator(a) => Authenticator::CertificateAuthenticator(
                *a,
            ),
            Authenticator::JwtAuthenticator(a) => Authenticator::JwtAuthenticator(
                JwtAuthenticator { token: a.token.clone() },
            ),
        }
    }
}

/// What an authenticator gives a service to be presented with.
#[derive(Debug, PartialEq, Eq)]
pub enum Auth {
    BasicAuth { username: String, password: String },
    BearerAuth { token: String },
}

/// A TLS configuration, by the number that the program keeps it under.
#[derive(Debug, Clone, Copy, PartialEq, Eq, Structural)]
pub struct TlsConfig {
    pub id: u64,
}

} // verus!
