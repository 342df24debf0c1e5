//! Core of a small authentication backend: salted password hashing and
//! verification, stateless bearer-token issuance and verification with a
//! symmetric secret, and the login decision logic that composes them.
//!
//! Storage and HTTP handling are collaborators of this library, not part of
//! it: callers look records up and move bytes, the library decides.

pub mod auth;
pub mod codec;
pub mod password;
pub mod token;
pub mod user;
