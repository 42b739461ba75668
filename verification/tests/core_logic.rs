use ntp_sync::calendar::{convert_to_datetime, days_in_month};
use ntp_sync::ntp::{extract_unix_time, ntp_request_packet, NtpError};
use ntp_sync::sync::{apply_timezone_offset, next_sync_action, SyncAction, SyncPhase};
use ntp_sync::timezone::parse_timezone;

#[test]
fn epoch_start_is_midnight_1970() {
    assert_eq!(convert_to_datetime(0), (1970, 1, 1, 0, 0, 0));
}

#[test]
fn first_day_boundaries() {
    assert_eq!(convert_to_datetime(86399), (1970, 1, 1, 23, 59, 59));
    assert_eq!(convert_to_datetime(86400), (1970, 1, 2, 0, 0, 0));
}

#[test]
fn leap_year_boundary_2024() {
    // Last second of February 28, 2024 (a leap year), then the first
    // second after it: the date must move to February 29.
    assert_eq!(convert_to_datetime(1709164799), (2024, 2, 28, 23, 59, 59));
    assert_eq!(convert_to_datetime(1709164800), (2024, 2, 29, 0, 0, 0));
}

#[test]
fn non_leap_year_boundary_2023() {
    // The same boundary in 2023 (not a leap year) rolls over to
    // March 1.
    assert_eq!(convert_to_datetime(1677628799), (2023, 2, 28, 23, 59, 59));
    assert_eq!(convert_to_datetime(1677628800), (2023, 3, 1, 0, 0, 0));
}

#[test]
fn century_rule() {
    // 2000 is divisible by 400, so it is leap; 1900 is divisible by
    // 100 but not by 400, so it is not.
    assert_eq!(days_in_month(2, 2000), 29);
    assert_eq!(days_in_month(2, 1900), 28);
}

#[test]
fn month_lengths() {
    assert_eq!(days_in_month(1, 2023), 31);
    assert_eq!(days_in_month(4, 2023), 30);
    assert_eq!(days_in_month(2, 2024), 29);
    assert_eq!(days_in_month(2, 2023), 28);
    assert_eq!(days_in_month(12, 2023), 31);
    assert_eq!(days_in_month(0, 2023), 0);
    assert_eq!(days_in_month(13, 2023), 0);
}

#[test]
fn billion_seconds() {
    assert_eq!(convert_to_datetime(1000000000), (2001, 9, 9, 1, 46, 40));
}

#[test]
fn far_future_year() {
    // 86400 * 365 days of 2106 reach past the 32-bit second range.
    assert_eq!(convert_to_datetime(4294967295), (2106, 2, 7, 6, 28, 15));
}

#[test]
fn parse_timezone_positive_offset() {
    assert_eq!(parse_timezone("UTC+5:30"), Ok((5, 30)));
}

#[test]
fn parse_timezone_negative_offset_keeps_minutes_sign() {
    // The sign multiplies the hours only; the minutes stay as written.
    assert_eq!(parse_timezone("UTC-5:30"), Ok((-5, 30)));
}

#[test]
fn parse_timezone_rejects_wrong_prefix() {
    assert_eq!(
        parse_timezone("GMT+5:30"),
        Err("Timezone must start with 'UTC'")
    );
    assert_eq!(parse_timezone(""), Err("Timezone must start with 'UTC'"));
}

#[test]
fn parse_timezone_rejects_missing_sign() {
    assert_eq!(
        parse_timezone("UTC5:30"),
        Err("Timezone must be in the format UTC+H:M or UTC-H:M")
    );
    assert_eq!(
        parse_timezone("UTC"),
        Err("Timezone must be in the format UTC+H:M or UTC-H:M")
    );
}

#[test]
fn parse_timezone_rejects_bad_hours() {
    assert_eq!(parse_timezone("UTC+x:30"), Err("Invalid hours in timezone"));
    assert_eq!(parse_timezone("UTC+:30"), Err("Invalid hours in timezone"));
}

#[test]
fn parse_timezone_rejects_missing_minutes() {
    assert_eq!(parse_timezone("UTC-5"), Err("Invalid minutes in timezone"));
    assert_eq!(parse_timezone("UTC+5:"), Err("Invalid minutes in timezone"));
    assert_eq!(parse_timezone("UTC+5:y"), Err("Invalid minutes in timezone"));
}

#[test]
fn parse_timezone_no_range_check() {
    assert_eq!(parse_timezone("UTC+99:99"), Ok((99, 99)));
}

#[test]
fn parse_timezone_rejects_second_colon() {
    // The minutes field is everything after the first colon, so a
    // second colon makes it non-numeric.
    assert_eq!(
        parse_timezone("UTC+5:30:45"),
        Err("Invalid minutes in timezone")
    );
}

#[test]
fn parse_timezone_inner_signs() {
    // The numeric fields may carry their own sign, which combines with
    // the prefix sign for the hours.
    assert_eq!(parse_timezone("UTC+-3:30"), Ok((-3, 30)));
    assert_eq!(parse_timezone("UTC-+3:30"), Ok((-3, 30)));
    assert_eq!(parse_timezone("UTC+5:-30"), Ok((5, -30)));
}

#[test]
fn parse_timezone_extreme_hours() {
    assert_eq!(
        parse_timezone("UTC+9223372036854775807:0"),
        Ok((9223372036854775807, 0))
    );
    assert_eq!(
        parse_timezone("UTC+9223372036854775808:0"),
        Err("Invalid hours in timezone")
    );
    assert_eq!(
        parse_timezone("UTC--9223372036854775808:0"),
        Err("Invalid hours in timezone")
    );
    assert_eq!(
        parse_timezone("UTC-9223372036854775808:0"),
        Err("Invalid hours in timezone")
    );
}

#[test]
fn request_packet_is_48_client_mode_bytes() {
    let packet = ntp_request_packet();
    assert_eq!(packet.len(), 48);
    for b in packet {
        assert_eq!(b, 0x1b);
    }
}

#[test]
fn extract_end_to_end() {
    // A synthetic response whose bytes 40..43 hold
    // 2208988800 + 1000000000 big-endian must yield 1000000000, which
    // is 2001-09-09 01:46:40.
    let mut response = vec![0u8; 48];
    response[40] = 191;
    response[41] = 69;
    response[42] = 72;
    response[43] = 128;
    let unix = extract_unix_time(&response).unwrap();
    assert_eq!(unix, 1000000000);
    assert_eq!(convert_to_datetime(unix), (2001, 9, 9, 1, 46, 40));
}

#[test]
fn extract_rejects_short_response() {
    let response = vec![0u8; 47];
    assert_eq!(extract_unix_time(&response), Err(NtpError::ResponseTooShort));
    let empty: Vec<u8> = Vec::new();
    assert_eq!(extract_unix_time(&empty), Err(NtpError::ResponseTooShort));
}

#[test]
fn extract_rejects_pre_epoch_timestamp() {
    let response = vec![0u8; 48];
    assert_eq!(
        extract_unix_time(&response),
        Err(NtpError::TimestampBeforeUnixEpoch)
    );
    // One second before the Unix epoch: 2208988799.
    let mut response = vec![0u8; 48];
    response[40] = 0x83;
    response[41] = 0xaa;
    response[42] = 0x7e;
    response[43] = 0x7f;
    assert_eq!(
        extract_unix_time(&response),
        Err(NtpError::TimestampBeforeUnixEpoch)
    );
}

#[test]
fn extract_epoch_boundary() {
    // Exactly 2208988800 seconds since 1900 is the Unix epoch itself.
    let mut response = vec![0u8; 48];
    response[40] = 0x83;
    response[41] = 0xaa;
    response[42] = 0x7e;
    response[43] = 0x80;
    assert_eq!(extract_unix_time(&response), Ok(0));
}

#[test]
fn offset_arithmetic() {
    assert_eq!(apply_timezone_offset(1000, 1, 30), Some(6400));
    assert_eq!(apply_timezone_offset(10000, -2, 0), Some(2800));
    // The minutes shift independently of the hours' sign.
    assert_eq!(apply_timezone_offset(0, -1, 60), Some(0));
}

#[test]
fn offset_out_of_range() {
    assert_eq!(apply_timezone_offset(0, -1, 0), None);
    assert_eq!(apply_timezone_offset(u64::MAX, 1, 0), None);
    assert_eq!(apply_timezone_offset(u64::MAX, 0, 0), Some(u64::MAX));
}

#[test]
fn fallback_policy() {
    // A primary failure leads to exactly one attempt against the
    // default server; a fallback failure ends the run.
    assert_eq!(
        next_sync_action(SyncPhase::Primary, Some(5)),
        SyncAction::SetClock(5)
    );
    assert_eq!(
        next_sync_action(SyncPhase::Primary, None),
        SyncAction::TryDefaultServer
    );
    assert_eq!(
        next_sync_action(SyncPhase::Fallback, Some(7)),
        SyncAction::SetClock(7)
    );
    assert_eq!(
        next_sync_action(SyncPhase::Fallback, None),
        SyncAction::ReportFailure
    );
}
