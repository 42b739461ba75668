//! The computational side of the NTP exchange: the fixed client
//! request payload, and extraction of the transmit timestamp from a
//! response, converted from the NTP epoch (1900) to the Unix epoch
//! (1970).

use vstd::prelude::*;

verus! {

/// Seconds between the NTP epoch (1900-01-01) and the Unix epoch
/// (1970-01-01).
pub const NTP_EPOCH_OFFSET: u64 = 2208988800;

/// Why a response yields no timestamp.
#[derive(Clone, Copy, Debug, PartialEq, Eq, Structural)]
pub enum NtpError {
    /// The response holds fewer than the 48 bytes of an NTP packet.
    ResponseTooShort,
    /// The transmit timestamp falls before the Unix epoch, so the
    /// conversion would underflow; such a response is corrupt.
    TimestampBeforeUnixEpoch,
}

/// The transmit-timestamp seconds field of an NTP response: the
/// big-endian 32-bit integer at bytes 40..44, counting seconds since
/// 1900-01-01.
pub open spec fn ntp_transmit_seconds(resp: Seq<u8>) -> int
    recommends
        resp.len() >= 44,
{
    (resp[40] as int) * 0x1000000 + (resp[41] as int) * 0x10000 + (resp[42] as int) * 0x100 + (
    resp[43] as int)
}

/// The 48-byte client-mode request datagram: every byte `0x1B`, whose
/// first octet packs LI=0, VN=3, Mode=3.
pub fn ntp_request_packet() -> (packet: Vec<u8>)
    ensures
        packet@.len() == 48,
        forall|i: int| 0 <= i < 48 ==> packet@[i] == 0x1b,
{
    let mut packet: Vec<u8> = Vec::new();
    let mut i: usize = 0;
    while i < 48
        invariant
            i <= 48,
            packet@.len() == i,
            forall|j: int| 0 <= j < i ==> packet@[j] == 0x1b,
        decreases 48 - i,
    {
        packet.push(0x1b);
        i = i + 1;
    }
    packet
}

/// Extracts the transmit timestamp from an NTP response and converts
/// it to Unix epoch seconds by subtracting `NTP_EPOCH_OFFSET`.
///
/// A response shorter than the full 48-byte packet is rejected, as is
/// one whose timestamp falls before the Unix epoch.
pub fn extract_unix_time(response: &Vec<u8>) -> (r: Result<u64, NtpError>)
    ensures
        r is Ok <==> response@.len() >= 48 && ntp_transmit_seconds(response@)
            >= NTP_EPOCH_OFFSET as int,
        r is Ok ==> r->Ok_0 as int == ntp_transmit_seconds(response@) - NTP_EPOCH_OFFSET as int,
        response@.len() < 48 ==> r == Err::<u64, NtpError>(NtpError::ResponseTooShort),
        response@.len() >= 48 && ntp_transmit_seconds(response@) < NTP_EPOCH_OFFSET as int ==> r
            == Err::<u64, NtpError>(NtpError::TimestampBeforeUnixEpoch),
{
    if response.len() < 48 {
        return Err(NtpError::ResponseTooShort);
    }
    let b0 = response[40] as u64;
    let b1 = response[41] as u64;
    let b2 = response[42] as u64;
    let b3 = response[43] as u64;
    let timestamp: u64 = b0 * 0x1000000 + b1 * 0x10000 + b2 * 0x100 + b3;
    if timestamp < NTP_EPOCH_OFFSET {
        return Err(NtpError::TimestampBeforeUnixEpoch);
    }
    Ok(timestamp - NTP_EPOCH_OFFSET)
}

} // verus!
