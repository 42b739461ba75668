//! A verified core for a minimal NTP time-synchronization client.
//!
//! The library covers the pure logic of the client: converting epoch
//! seconds to a civil calendar date and time, parsing a textual UTC
//! offset, extracting the transmit timestamp from an NTP response, and
//! the orchestration rules (offset arithmetic and server fallback).
//! The network I/O and the host clock-set mechanism live outside the
//! library.

pub mod calendar;
pub mod ntp;
pub mod sync;
pub mod timezone;
