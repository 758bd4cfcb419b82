//! Verified core of a cheapest-round-trip fare finder.
//!
//! The library expands a date range and a pair of target weekdays into the
//! concrete list of (outbound, return) date pairs to query, bounds the number
//! of simultaneously admitted fetch units, cross-joins each date pair's two
//! one-way fare sets into priced round-trip candidates, and ranks all
//! candidates by ascending total price.  Network I/O and rendering live
//! outside the library; the library works on plain values.

pub mod aggregate;
pub mod date;
pub mod expand;
pub mod fanout;
pub mod fare;
pub mod rank;
