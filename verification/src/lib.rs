//! Verified core of a client library for the Glowmarkt smart-meter API.
//!
//! The library models reading periods, aligns timestamps to period
//! boundaries, splits long time ranges into API-sized sub-ranges, and
//! reshapes per-resource readings into tagged, time-ordered measurements
//! suitable for a metrics store. HTTP transport and JSON decoding live
//! outside the library; its functions work on plain values.

pub mod aggregate;
pub mod align;
pub mod api;
pub mod datetime;
pub mod endpoint;
pub mod error;
pub mod measurement;
pub mod period;
pub mod query;
pub mod reading;
pub mod split;
pub mod strmap;
pub mod tags;
pub mod text;
