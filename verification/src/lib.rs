//! Verifiable secret sharing after Pedersen, over the Ristretto group.
//!
//! A dealer shares a secret scalar among `n` verifiers so that any `t` of
//! them can recover it and fewer learn nothing, and so that every verifier
//! can check its share against commitments that the dealer publishes.

pub mod bytes;
pub mod scalar;
pub mod point;
pub mod digest;
pub mod sign;
pub mod dh;
pub mod error;
pub mod poly;
pub mod session;
pub mod deal;
pub mod codec;
pub mod response;
pub mod aggregator;
pub mod dealer;
pub mod shareholder;
pub mod interpolation;
pub mod recovery;
pub mod theorems;

pub use crate::aggregator::Aggregator;
pub use crate::deal::Deal;
pub use crate::dealer::Dealer;
pub use crate::error::VssError;
pub use crate::point::Point;
pub use crate::poly::{PriPoly, PriShare, PubPoly, PubShare};
pub use crate::recovery::recover_secret;
pub use crate::response::{EncryptedDeal, Justification, Response};
pub use crate::scalar::Scalar;
pub use crate::session::{derive_h, minimum_t, session_id, valid_t};
pub use crate::shareholder::Verifier;
