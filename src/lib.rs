//! Chaum-Pedersen zero-knowledge authentication: the protocol arithmetic over
//! arbitrary-precision naturals and the verifier's protocol state machine.

pub mod auth;
pub mod bignat;
pub mod group;
pub mod theorems;
pub mod zkp;

pub use auth::{AuthError, AuthImpl};
pub use bignat::BigNat;
pub use zkp::ZKP;
