//! Verified core of a mock OpenCryptoPay provider: payment methods, LNURL
//! encoding, payment URIs, coin specs, quotes and the request decisions of
//! the provider API.

pub mod banner;
pub mod cli;
pub mod digits;
pub mod handlers;
pub mod lnurl;
pub mod payloads;
pub mod payment_uri;
pub mod state;
pub mod text;
pub mod method;
