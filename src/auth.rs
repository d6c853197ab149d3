//! API-key authentication records of the HTTP front end.

use vstd::prelude::*;
use crate::text::strip_prefix;

verus! {

/// A permission level; each level includes the ones below it.
#[derive(Debug, Clone, Copy, PartialEq, Eq, Structural)]
pub enum Scope {
    Read,
    Write,
    Admin,
}

pub open spec fn scope_rank(s: Scope) -> int {
    match s {
        Scope::Read => 0,
        Scope::Write => 1,
        Scope::Admin => 2,
    }
}

impl Scope {
    /// Admin includes every scope, Write includes Read and Write, Read
    /// only itself.
    pub fn includes(&self, other: Scope) -> (r: bool)
        ensures
            r == (scope_rank(other) <= scope_rank(*self)),
    {
        match self {
            Scope::Admin => true,
            Scope::Write => matches!(other, Scope::Read | Scope::Write),
            Scope::Read => matches!(other, Scope::Read),
        }
    }
}

/// The outcome of checking a request's key.
#[derive(Debug, Clone)]
pub enum AuthResult {
    Authenticated { key_name: String, scopes: Vec<Scope> },
    Disabled,
    InvalidKey,
    Expired,
    Missing,
}

impl AuthResult {
    /// A valid key, or authentication switched off.
    pub fn is_authenticated(&self) -> (r: bool)
        ensures
            r == (self is Authenticated || self is Disabled),
    {
        matches!(self, AuthResult::Authenticated { .. } | AuthResult::Disabled)
    }

    pub fn key_name(&self) -> (r: Option<&str>)
        ensures
            match self {
                AuthResult::Authenticated { key_name, .. } => r is Some && r->0@ == key_name@,
                _ => r is None,
            },
    {
        match self {
            AuthResult::Authenticated { key_name, .. } => Some(key_name.as_str()),
            _ => None,
        }
    }
}

/// `a` is an authorization value of the form `Bearer <key>`.
pub open spec fn has_bearer(a: Option<&str>) -> bool {
    match a {
        Some(t) => t@.len() >= 7 && t@.take(7) == "Bearer "@,
        None => false,
    }
}

/// The key of a request: a `Bearer ` authorization takes precedence over
/// the `X-API-Key` header.
pub fn extract_api_key(authorization: Option<&str>, x_api_key: Option<&str>) -> (r: Option<String>)
    ensures
        (r is Some) == (has_bearer(authorization) || x_api_key is Some),
        r is Some ==> r->0@ == if has_bearer(authorization) {
            authorization->0@.skip(7)
        } else {
            x_api_key->0@
        },
{
    proof {
        reveal_strlit("Bearer ");
    }
    if let Some(auth) = authorization {
        if let Some(key) = strip_prefix(auth, "Bearer ") {
            return Some(key.to_owned());
        }
    }
    if let Some(key) = x_api_key {
        return Some(key.to_owned());
    }
    None
}

/// The body answered to an authentication status request.
#[derive(Debug, Clone)]
pub struct AuthStatusResponse {
    pub authenticated: bool,
    pub key_name: Option<String>,
    pub scopes: Option<Vec<Scope>>,
    pub expires_at: Option<String>,
    pub auth_required: Option<bool>,
    pub message: Option<String>,
}

impl AuthStatusResponse {
    pub fn authenticated(key_name: String, scopes: Vec<Scope>) -> (r: AuthStatusResponse)
        ensures
            r.authenticated,
            r.key_name == Some(key_name),
            r.scopes == Some(scopes),
            r.expires_at is None,
            r.auth_required is None,
            r.message is None,
    {
        AuthStatusResponse {
            authenticated: true,
            key_name: Some(key_name),
            scopes: Some(scopes),
            expires_at: None,
            auth_required: None,
            message: None,
        }
    }

    pub fn unauthenticated(auth_required: bool) -> (r: AuthStatusResponse)
        ensures
            !r.authenticated,
            r.key_name is None,
            r.scopes is None,
            r.expires_at is None,
            r.auth_required == Some(auth_required),
            r.message is Some,
            r.message->0@ == if auth_required {
                "API key required"@
            } else {
                "Authentication not required"@
            },
    {
        AuthStatusResponse {
            authenticated: false,
            key_name: None,
            scopes: None,
            expires_at: None,
            auth_required: Some(auth_required),
            message: if auth_required {
                Some(String::from_str("API key required"))
            } else {
                Some(String::from_str("Authentication not required"))
            },
        }
    }

    pub fn disabled() -> (r: AuthStatusResponse)
        ensures
            r.authenticated,
            r.key_name is None,
            r.scopes is None,
            r.expires_at is None,
            r.auth_required == Some(false),
            r.message is Some,
            r.message->0@ == "Authentication disabled"@,
    {
        AuthStatusResponse {
            authenticated: true,
            key_name: None,
            scopes: None,
            expires_at: None,
            auth_required: Some(false),
            message: Some(String::from_str("Authentication disabled")),
        }
    }
}

/// An authentication failure as sent to the client.
#[derive(Debug, Clone)]
pub struct AuthError {
    pub error: String,
    pub message: String,
}

impl AuthError {
    pub fn unauthorized() -> (r: AuthError)
        ensures
            r.error@ == "unauthorized"@,
            r.message@ == "Invalid or missing API key"@,
    {
        AuthError {
            error: String::from_str("unauthorized"),
            message: String::from_str("Invalid or missing API key"),
        }
    }

    pub fn forbidden() -> (r: AuthError)
        ensures
            r.error@ == "forbidden"@,
            r.message@ == "Insufficient permissions for this operation"@,
    {
        AuthError {
            error: String::from_str("forbidden"),
            message: String::from_str("Insufficient permissions for this operation"),
        }
    }

    pub fn expired() -> (r: AuthError)
        ensures
            r.error@ == "unauthorized"@,
            r.message@ == "API key has expired"@,
    {
        AuthError {
            error: String::from_str("unauthorized"),
            message: String::from_str("API key has expired"),
        }
    }
}

} // verus!
