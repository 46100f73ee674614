//! Verified core of a bar-recommendation service.
//!
//! The library covers the two algorithms that carry the system's logic: an
//! adaptive spatial enumeration that exhaustively discovers venues in a region
//! despite a hard per-query result cap, and a distance-weighted random
//! selection that recommends one matching bar near a user.  Coordinates are
//! held as integer microdegrees and distances as integer thousandths of a
//! mile; the floating-point conversions from meters and the haversine formula
//! live with the callers, outside the verified core.

pub mod catalog;
pub mod enumerate;
pub mod geo;
pub mod scorer;
pub mod tips;
