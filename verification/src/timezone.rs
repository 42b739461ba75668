//! Parsing of a textual UTC-offset specifier of the form `UTC+H:M` or
//! `UTC-H:M` into a signed (hours, minutes) pair.
//!
//! The sign multiplies the hours component only; the minutes component
//! keeps the sign it was written with. This asymmetry is deliberate:
//! it is the documented behaviour of the parser.

use vstd::prelude::*;

verus! {

/// Whether `c` is an ASCII decimal digit.
pub open spec fn is_digit(c: char) -> bool {
    '0' as int <= c as int && c as int <= '9' as int
}

/// The numeric value of the ASCII decimal digit `c`.
pub open spec fn digit_value(c: char) -> int {
    c as int - '0' as int
}

/// Whether every character of `s` is an ASCII decimal digit.
pub open spec fn all_digits(s: Seq<char>) -> bool {
    forall|i: int| 0 <= i < s.len() ==> is_digit(s[i])
}

/// The value of the digit string `s` read as a decimal number.
pub open spec fn digits_val(s: Seq<char>) -> int
    decreases s.len(),
{
    if s.len() == 0 {
        0
    } else {
        digits_val(s.drop_last()) * 10 + digit_value(s.last())
    }
}

/// Whether `s` has the shape of a decimal integer literal: an optional
/// leading `+` or `-` followed by at least one digit, and digits only.
pub open spec fn is_int_literal(s: Seq<char>) -> bool {
    if s.len() == 0 {
        false
    } else if s[0] == '+' || s[0] == '-' {
        s.len() > 1 && all_digits(s.subrange(1, s.len() as int))
    } else {
        all_digits(s)
    }
}

/// The signed value of the decimal integer literal `s`.
pub open spec fn int_literal_val(s: Seq<char>) -> int {
    if s.len() > 0 && s[0] == '-' {
        -digits_val(s.subrange(1, s.len() as int))
    } else if s.len() > 0 && s[0] == '+' {
        digits_val(s.subrange(1, s.len() as int))
    } else {
        digits_val(s)
    }
}

/// The outcome of parsing `s` as a 64-bit signed decimal integer:
/// `Some` of its value when `s` is a well-formed literal whose value
/// fits, `None` otherwise.
pub open spec fn parsed_i64(s: Seq<char>) -> Option<int> {
    if is_int_literal(s) && i64::MIN <= int_literal_val(s) <= i64::MAX {
        Some(int_literal_val(s))
    } else {
        None
    }
}

/// The index of the first `:` in `s` at or after `from`, or `s.len()`
/// when there is none.
pub open spec fn find_colon(s: Seq<char>, from: int) -> int
    decreases s.len() - from,
{
    if from < 0 || from >= s.len() {
        s.len() as int
    } else if s[from] == ':' {
        from
    } else {
        find_colon(s, from + 1)
    }
}

/// The value of a digit string never decreases when digits are
/// appended, and is never negative.
proof fn lemma_digits_val_prefix(s: Seq<char>, i: int)
    requires
        all_digits(s),
        0 <= i <= s.len(),
    ensures
        0 <= digits_val(s.subrange(0, i)) <= digits_val(s),
    decreases s.len() - i,
{
    if i == s.len() {
        assert(s.subrange(0, i) =~= s);
        lemma_digits_val_nonneg(s);
    } else {
        lemma_digits_val_prefix(s, i + 1);
        lemma_digits_val_extend(s, i);
        lemma_digits_val_nonneg(s.subrange(0, i));
    }
}

/// A digit string's value is never negative.
proof fn lemma_digits_val_nonneg(s: Seq<char>)
    requires
        all_digits(s),
    ensures
        digits_val(s) >= 0,
    decreases s.len(),
{
    if s.len() > 0 {
        assert(all_digits(s.drop_last()));
        lemma_digits_val_nonneg(s.drop_last());
    }
}

/// Reading one more digit multiplies the value so far by ten and adds
/// the digit.
proof fn lemma_digits_val_extend(s: Seq<char>, i: int)
    requires
        0 <= i < s.len(),
    ensures
        digits_val(s.subrange(0, i + 1)) == digits_val(s.subrange(0, i)) * 10 + digit_value(s[i]),
{
    assert(s.subrange(0, i + 1).drop_last() =~= s.subrange(0, i));
    assert(s.subrange(0, i + 1).last() == s[i]);
}

/// Parses the characters of `zone` at indices `from..to` as a 64-bit
/// signed decimal integer, exactly as `parsed_i64` describes.
#[verifier::loop_isolation(false)]
fn parse_i64_range(zone: &str, from: usize, to: usize) -> (r: Option<i64>)
    requires
        from <= to <= zone@.len(),
    ensures
        match r {
            Some(v) => parsed_i64(zone@.subrange(from as int, to as int)) == Some(v as int),
            None => parsed_i64(zone@.subrange(from as int, to as int)) is None,
        },
{
    let ghost field: Seq<char> = zone@.subrange(from as int, to as int);
    if from == to {
        return None;
    }
    let c0 = zone.get_char(from);
    let neg: bool = c0 == '-';
    let digits_start: usize = if c0 == '-' || c0 == '+' {
        from + 1
    } else {
        from
    };
    if digits_start == to {
        // A bare sign, with no digits after it.
        return None;
    }
    let ghost digits: Seq<char> = zone@.subrange(digits_start as int, to as int);
    proof {
        if digits_start > from {
            assert(field.subrange(1, field.len() as int) =~= digits);
        }
    }

    // Accumulate the negated value, so that the most negative 64-bit
    // integer is reached without overflow.
    let mut acc: i64 = 0;
    let mut i: usize = digits_start;
    while i < to
        invariant
            digits_start <= i <= to <= zone@.len(),
            digits == zone@.subrange(digits_start as int, to as int),
            all_digits(digits.subrange(0, i - digits_start)),
            acc == -digits_val(digits.subrange(0, i - digits_start)),
        decreases to - i,
    {
        let c = zone.get_char(i);
        let code: u32 = c as u32;
        proof {
            assert(digits[i - digits_start] == zone@[i as int]);
        }
        if code < 48 || code > 57 {
            proof {
                // A non-digit character: not an integer literal.
                assert(!is_digit(digits[i - digits_start]));
                assert(!all_digits(digits));
                if digits_start > from {
                    assert(!is_int_literal(field));
                } else {
                    assert(field =~= digits);
                    assert(!is_int_literal(field));
                }
            }
            return None;
        }
        let dig: i64 = (code - 48) as i64;
        let ghost prefix_done: Seq<char> = digits.subrange(0, i - digits_start);
        let ghost upto: Seq<char> = digits.subrange(0, i + 1 - digits_start);
        proof {
            lemma_digits_val_extend(digits, i - digits_start);
            assert(is_digit(digits[i - digits_start]));
            assert(all_digits(upto));
            lemma_digits_val_nonneg(prefix_done);
        }
        let step1 = match acc.checked_mul(10) {
            Some(a) => a,
            None => {
                proof {
                    // `acc` is never positive, so the product fell
                    // below the representable range: the value read so
                    // far is already past the 64-bit range.
                    assert(digits_val(upto) > 0x8000000000000000);
                    lemma_overflow_means_unparsable(digits, i + 1 - digits_start, field);
                }
                return None;
            },
        };
        acc = match step1.checked_sub(dig) {
            Some(a) => a,
            None => {
                proof {
                    assert(digits_val(upto) > 0x8000000000000000);
                    lemma_overflow_means_unparsable(digits, i + 1 - digits_start, field);
                }
                return None;
            },
        };
        i = i + 1;
    }
    proof {
        assert(digits.subrange(0, to - digits_start) =~= digits);
        if digits_start == from {
            assert(field =~= digits);
        }
        lemma_digits_val_nonneg(digits);
    }
    if neg {
        Some(acc)
    } else {
        if acc == i64::MIN {
            // The magnitude is one past the largest positive value.
            proof {
                assert(int_literal_val(field) == digits_val(digits));
                assert(digits_val(digits) > i64::MAX);
            }
            return None;
        }
        Some(-acc)
    }
}

/// Once some prefix of the digit string has a magnitude past the
/// 64-bit range in both signs, the whole string does too, so parsing
/// fails.
proof fn lemma_overflow_means_unparsable(digits: Seq<char>, j: int, field: Seq<char>)
    requires
        0 < j <= digits.len(),
        all_digits(digits.subrange(0, j)),
        digits_val(digits.subrange(0, j)) > 0x8000000000000000,
        field =~= digits || (field.len() == digits.len() + 1 && (field[0] == '+' || field[0] == '-')
            && field.subrange(1, field.len() as int) =~= digits),
    ensures
        parsed_i64(field) is None,
{
    assert(is_digit(digits.subrange(0, j)[0]));
    assert(digits[0] == digits.subrange(0, j)[0]);
    if all_digits(digits) {
        lemma_digits_val_prefix(digits, j);
        assert(digits_val(digits) >= digits_val(digits.subrange(0, j)));
    } else {
        assert(!is_int_literal(field));
    }
}

/// Whether `s` begins with the literal prefix `UTC`.
pub open spec fn tz_has_utc_prefix(s: Seq<char>) -> bool {
    s.len() >= 3 && s[0] == 'U' && s[1] == 'T' && s[2] == 'C'
}

/// Whether the character after the prefix is an explicit sign.
pub open spec fn tz_sign_ok(s: Seq<char>) -> bool {
    s.len() >= 4 && (s[3] == '+' || s[3] == '-')
}

/// The sign multiplier given by the character after the prefix.
pub open spec fn tz_sign(s: Seq<char>) -> int {
    if s.len() >= 4 && s[3] == '-' {
        -1
    } else {
        1
    }
}

/// The hours field: the text between the sign and the first colon, or
/// the end of `s` when there is no colon.
pub open spec fn tz_hours_text(s: Seq<char>) -> Seq<char> {
    s.subrange(4, find_colon(s, 4))
}

/// Whether the hours field parses as a 64-bit integer whose signed
/// value is representable.
pub open spec fn tz_hours_ok(s: Seq<char>) -> bool {
    &&& parsed_i64(tz_hours_text(s)) is Some
    &&& i64::MIN <= tz_sign(s) * parsed_i64(tz_hours_text(s))->Some_0 <= i64::MAX
}

/// The signed hours value of a well-formed specifier.
pub open spec fn tz_hours_value(s: Seq<char>) -> int {
    tz_sign(s) * parsed_i64(tz_hours_text(s))->Some_0
}

/// The minutes field: all the text after the first colon; `None` when
/// there is no colon at all.
pub open spec fn tz_minutes_text(s: Seq<char>) -> Option<Seq<char>> {
    if find_colon(s, 4) == s.len() {
        None
    } else {
        Some(s.subrange(find_colon(s, 4) + 1, s.len() as int))
    }
}

/// Whether a minutes field exists and parses as a 64-bit integer.
pub open spec fn tz_minutes_ok(s: Seq<char>) -> bool {
    tz_minutes_text(s) is Some && parsed_i64(tz_minutes_text(s)->Some_0) is Some
}

/// The minutes value of a well-formed specifier. It is taken as
/// written, without the sign multiplier.
pub open spec fn tz_minutes_value(s: Seq<char>) -> int {
    parsed_i64(tz_minutes_text(s)->Some_0)->Some_0
}

/// Whether `s` is a well-formed timezone specifier.
pub open spec fn tz_valid(s: Seq<char>) -> bool {
    tz_has_utc_prefix(s) && tz_sign_ok(s) && tz_hours_ok(s) && tz_minutes_ok(s)
}

/// Finds the first colon of `zone` at or after `from`, as `find_colon`
/// describes.
#[verifier::loop_isolation(false)]
fn scan_colon(zone: &str, from: usize, n: usize) -> (idx: usize)
    requires
        from <= n,
        n == zone@.len(),
    ensures
        idx == find_colon(zone@, from as int),
        from <= idx <= n,
{
    let mut i: usize = from;
    while i < n
        invariant
            from <= i <= n,
            find_colon(zone@, from as int) == find_colon(zone@, i as int),
        decreases n - i,
    {
        let c = zone.get_char(i);
        if c == ':' {
            return i;
        }
        i = i + 1;
    }
    i
}

/// Parses a timezone specifier of the form `UTC+H:M` or `UTC-H:M` into
/// signed (hours, minutes).
///
/// The text after the sign is split at the first colon: hours before
/// it, minutes after it. The sign multiplies the hours only: `UTC-5:30`
/// yields `(-5, 30)`. The fields carry no range check, so `UTC+99:99`
/// parses.
pub fn parse_timezone(zone: &str) -> (r: Result<(i64, i64), &'static str>)
    ensures
        r is Ok <==> tz_valid(zone@),
        r is Ok ==> r->Ok_0.0 == tz_hours_value(zone@) && r->Ok_0.1 == tz_minutes_value(zone@),
        !tz_has_utc_prefix(zone@) ==> r is Err && r->Err_0@ == "Timezone must start with 'UTC'"@,
        tz_has_utc_prefix(zone@) && !tz_sign_ok(zone@) ==> r is Err && r->Err_0@
            == "Timezone must be in the format UTC+H:M or UTC-H:M"@,
        tz_has_utc_prefix(zone@) && tz_sign_ok(zone@) && !tz_hours_ok(zone@) ==> r is Err
            && r->Err_0@ == "Invalid hours in timezone"@,
        tz_has_utc_prefix(zone@) && tz_sign_ok(zone@) && tz_hours_ok(zone@) && !tz_minutes_ok(
            zone@,
        ) ==> r is Err && r->Err_0@ == "Invalid minutes in timezone"@,
{
    let n = zone.unicode_len();
    if n < 3 || zone.get_char(0) != 'U' || zone.get_char(1) != 'T' || zone.get_char(2) != 'C' {
        return Err("Timezone must start with 'UTC'");
    }
    if n < 4 {
        return Err("Timezone must be in the format UTC+H:M or UTC-H:M");
    }
    let sc = zone.get_char(3);
    if sc != '+' && sc != '-' {
        return Err("Timezone must be in the format UTC+H:M or UTC-H:M");
    }
    let c1 = scan_colon(zone, 4, n);
    let hours_raw = match parse_i64_range(zone, 4, c1) {
        Some(h) => h,
        None => {
            return Err("Invalid hours in timezone");
        },
    };
    let hours: i64 = if sc == '-' {
        if hours_raw == i64::MIN {
            // Negating the most negative value is not representable.
            return Err("Invalid hours in timezone");
        }
        -hours_raw
    } else {
        hours_raw
    };
    if c1 == n {
        // No colon, so no minutes field at all.
        return Err("Invalid minutes in timezone");
    }
    let minutes = match parse_i64_range(zone, c1 + 1, n) {
        Some(m) => m,
        None => {
            return Err("Invalid minutes in timezone");
        },
    };
    Ok((hours, minutes))
}

} // verus!
