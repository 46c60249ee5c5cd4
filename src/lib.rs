//! A one-time-password engine: a block hash, HMAC over it, a base-32
//! secret decoder, HOTP/TOTP code generation and a parser for
//! `otpauth://` provisioning URIs.
pub mod sha1;
pub mod hmac;
pub mod error;
pub mod base32;
pub mod otp;
pub mod config;
pub mod uri;
