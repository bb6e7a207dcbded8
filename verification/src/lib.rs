//! A toy bank account backend: one balance held in a reference currency
//! (USD), deposits and withdrawals in any currency, and conversion through
//! exchange-rate tables fetched from a remote quoting service. The network
//! fetch itself lives outside this crate; everything here works on the
//! plain values such a fetch produces.

pub mod api;
pub mod decimal;
pub mod model;
pub mod ratio;
