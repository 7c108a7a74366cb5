//! Third-party packets (DTI `}`): a whole packet forwarded inside another.
//! The type is defined with the packets it contains.
pub use crate::packet::AprsThirdParty;
