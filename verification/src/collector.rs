use vstd::prelude::*;

use std::collections::HashMap;

use crate::app::{lemma_pid_position, pid_position};
use crate::model::{
    CommandLine, Float32, Freshness, GpuAdapterSnapshot, GpuSnapshot, History, HistorySample,
    Metric, NetworkInterfaceSnapshot, NetworkSnapshot, ProcessSnapshot, Snapshot, UserSource,
};
use crate::strings::{chars_of, push_char};

verus! {

/// The first position at or after `from` at which `pattern` occurs in `text`.
pub open spec fn find_from(text: Seq<char>, pattern: Seq<char>, from: int) -> Option<int>
    decreases text.len() + 1 - from,
{
    if from < 0 || from + pattern.len() > text.len() {
        None
    } else if text.subrange(from, from + pattern.len()) == pattern {
        Some(from)
    } else {
        find_from(text, pattern, from + 1)
    }
}

/// What `str::split_once(pattern)` returns: the text before and after the
/// first occurrence of `pattern`.
pub open spec fn split_once(text: Seq<char>, pattern: Seq<char>) -> Option<(Seq<char>, Seq<char>)> {
    match find_from(text, pattern, 0) {
        Some(at) => Some((text.subrange(0, at), text.subrange(at + pattern.len(), text.len() as int))),
        None => None,
    }
}

/// The value of a hexadecimal digit (either case).
pub open spec fn hex_digit(c: char) -> Option<int> {
    if '0' <= c && c <= '9' {
        Some(c as int - '0' as int)
    } else if 'a' <= c && c <= 'f' {
        Some(c as int - 'a' as int + 10)
    } else if 'A' <= c && c <= 'F' {
        Some(c as int - 'A' as int + 10)
    } else {
        None
    }
}

/// Whether every character is a hexadecimal digit.
pub open spec fn all_hex_digits(digits: Seq<char>) -> bool {
    forall|i: int| 0 <= i < digits.len() ==> (#[trigger] hex_digit(digits[i])) is Some
}

/// The number that a run of hexadecimal digits denotes.
pub open spec fn hex_number(digits: Seq<char>) -> int
    decreases digits.len(),
{
    if digits.len() == 0 {
        0
    } else {
        hex_number(digits.drop_last()) * 16 + hex_digit(digits.last())->0
    }
}

/// What `u32::from_str_radix(text, 16).ok()` returns: an optional `+`
/// followed by at least one hexadecimal digit, denoting a number that fits
/// in 32 bits.
pub open spec fn parse_hex_u32(text: Seq<char>) -> Option<u32> {
    let digits = if text.len() > 0 && text[0] == '+' {
        text.drop_first()
    } else {
        text
    };
    if text.len() == 0 || digits.len() == 0 || !all_hex_digits(digits) || hex_number(digits)
        > u32::MAX {
        None
    } else {
        Some(hex_number(digits) as u32)
    }
}

/// The text before the first `_` (all of it when there is none), as
/// `text.split('_').next()` gives it.
pub open spec fn before_underscore(text: Seq<char>) -> Seq<char> {
    match find_from(text, seq!['_'], 0) {
        Some(at) => text.subrange(0, at),
        None => text,
    }
}

/// A 64-bit adapter identity from the two halves of a Windows LUID.
pub open spec fn luid_value(low: u32, high: u32) -> u64 {
    (high as int * 0x1_0000_0000 + low as int) as u64
}

/// The adapter identity in a GPU performance-counter instance name such as
/// `pid_42_luid_0x00000001_0x00000002_phys_0_eng_0_engtype_3D`: the high and
/// low halves of the LUID follow `luid_0x` and `_0x`.
pub open spec fn engine_instance_luid(instance: Seq<char>) -> Option<u64> {
    match split_once(instance, "luid_0x"@) {
        None => None,
        Some((_, suffix)) => match split_once(suffix, "_0x"@) {
            None => None,
            Some((high, rest)) => match (
                parse_hex_u32(high),
                parse_hex_u32(before_underscore(rest)),
            ) {
                (Some(high), Some(low)) => Some(luid_value(low, high)),
                _ => None,
            },
        },
    }
}

/// The first position at or after `from` at which `pattern` occurs.
fn find_chars(text: &Vec<char>, pattern: &Vec<char>, from: usize) -> (at: Option<usize>)
    requires
        from <= text@.len(),
    ensures
        match at {
            Some(i) => find_from(text@, pattern@, from as int) == Some(i as int),
            None => find_from(text@, pattern@, from as int) is None,
        },
        at matches Some(i) ==> from <= i && i + pattern@.len() <= text@.len(),
{
    if pattern.len() > text.len() - from {
        return None;
    }
    let length = text.len();
    let mut start = from;
    loop
        invariant
            from <= start,
            length == text@.len(),
            start + pattern@.len() <= text@.len(),
            find_from(text@, pattern@, from as int) == find_from(text@, pattern@, start as int),
        decreases text@.len() - start,
    {
        let mut matched = true;
        let mut i: usize = 0;
        while matched && i < pattern.len()
            invariant
                start + pattern@.len() <= text@.len(),
                length == text@.len(),
                i <= pattern@.len(),
                matched ==> forall|j: int| 0 <= j < i ==> text@[start + j] == pattern@[j],
                !matched ==> text@.subrange(start as int, start + pattern@.len()) != pattern@,
            decreases pattern@.len() - i, if matched { 1int } else { 0int },
        {
            let index = start + i;
            if text[index] != pattern[i] {
                matched = false;
                assert(text@.subrange(start as int, start + pattern@.len())[i as int] != pattern@[i as int]);
            } else {
                i = i + 1;
            }
        }
        if matched {
            assert(text@.subrange(start as int, start + pattern@.len()) =~= pattern@);
            return Some(start);
        }
        if pattern.len() >= length - start {
            assert(find_from(text@, pattern@, start + 1) is None);
            return None;
        }
        start = start + 1;
    }
}

/// The characters of `text` from `start` to `end`.
fn slice_chars(text: &Vec<char>, start: usize, end: usize) -> (part: Vec<char>)
    requires
        start <= end <= text@.len(),
    ensures
        part@ == text@.subrange(start as int, end as int),
{
    let mut part: Vec<char> = Vec::new();
    let mut i = start;
    while i < end
        invariant
            start <= i <= end <= text@.len(),
            part@ == text@.subrange(start as int, i as int),
        decreases end - i,
    {
        part.push(text[i]);
        i = i + 1;
        assert(part@ =~= text@.subrange(start as int, i as int));
    }
    part
}

fn hex_digit_value(c: char) -> (value: Option<u64>)
    ensures
        match hex_digit(c) {
            Some(v) => value == Some(v as u64),
            None => value is None,
        },
{
    if '0' <= c && c <= '9' {
        Some((c as u64) - ('0' as u64))
    } else if 'a' <= c && c <= 'f' {
        Some((c as u64) - ('a' as u64) + 10)
    } else if 'A' <= c && c <= 'F' {
        Some((c as u64) - ('A' as u64) + 10)
    } else {
        None
    }
}

proof fn lemma_hex_number_step(digits: Seq<char>, k: int)
    requires
        0 <= k < digits.len(),
    ensures
        hex_number(digits.take(k + 1)) == hex_number(digits.take(k)) * 16 + hex_digit(digits[k])->0,
{
    assert(digits.take(k + 1).drop_last() =~= digits.take(k));
}

proof fn lemma_hex_number_grows(digits: Seq<char>, k: int)
    requires
        0 <= k <= digits.len(),
        all_hex_digits(digits),
    ensures
        0 <= hex_number(digits.take(k)) <= hex_number(digits),
    decreases digits.len() - k,
{
    if k < digits.len() {
        lemma_hex_number_step(digits, k);
        assert(hex_digit(digits[k]) is Some);
        lemma_hex_number_grows(digits, k + 1);
    } else {
        assert(digits.take(k) =~= digits);
        lemma_hex_number_nonnegative(digits);
    }
}

proof fn lemma_hex_number_nonnegative(digits: Seq<char>)
    requires
        all_hex_digits(digits),
    ensures
        hex_number(digits) >= 0,
    decreases digits.len(),
{
    if digits.len() > 0 {
        assert(hex_digit(digits[digits.len() - 1]) is Some);
        assert(all_hex_digits(digits.drop_last())) by {
            assert forall|i: int| 0 <= i < digits.drop_last().len() implies (#[trigger] hex_digit(
                digits.drop_last()[i],
            )) is Some by {
                assert(digits.drop_last()[i] == digits[i]);
                assert(hex_digit(digits[i]) is Some);
            }
        }
        lemma_hex_number_nonnegative(digits.drop_last());
    }
}

proof fn lemma_hex_prefix_extends(digits: Seq<char>, k: int)
    requires
        0 <= k < digits.len(),
        all_hex_digits(digits.take(k)),
        hex_digit(digits[k]) is Some,
    ensures
        all_hex_digits(digits.take(k + 1)),
{
    assert forall|j: int| 0 <= j < digits.take(k + 1).len() implies (#[trigger] hex_digit(
        digits.take(k + 1)[j],
    )) is Some by {
        if j < k {
            assert(digits.take(k + 1)[j] == digits.take(k)[j]);
        }
    }
}

/// `u32::from_str_radix(text, 16).ok()` on characters.
fn parse_hex(text: &Vec<char>) -> (value: Option<u32>)
    ensures
        value == parse_hex_u32(text@),
{
    if text.len() == 0 {
        return None;
    }
    let start: usize = if text[0] == '+' { 1 } else { 0 };
    let ghost digits = text@.skip(start as int);
    assert(digits =~= (if text@.len() > 0 && text@[0] == '+' { text@.drop_first() } else { text@ }));
    if start == text.len() {
        return None;
    }
    let mut value: u64 = 0;
    let mut i = start;
    while i < text.len()
        invariant
            start <= i <= text@.len(),
            text@.len() > 0,
            digits == text@.skip(start as int),
            digits == (if text@.len() > 0 && text@[0] == '+' { text@.drop_first() } else { text@ }),
            digits.len() > 0,
            all_hex_digits(digits.take(i - start)),
            value == hex_number(digits.take(i - start)),
            value <= u32::MAX,
        decreases text@.len() - i,
    {
        proof {
            lemma_hex_number_step(digits, i - start);
        }
        let digit = match hex_digit_value(text[i]) {
            Some(digit) => digit,
            None => {
                assert(digits[i - start] == text@[i as int]);
                assert(!all_hex_digits(digits));
                return None;
            },
        };
        assert(digits[i - start] == text@[i as int]);
        let next = value * 16 + digit;
        proof {
            lemma_hex_prefix_extends(digits, i - start);
        }
        if next > 0xffff_ffff {
            proof {
                if all_hex_digits(digits) {
                    lemma_hex_number_grows(digits, i - start + 1);
                }
            }
            return None;
        }
        value = next;
        i = i + 1;
    }
    assert(digits.take(i - start) =~= digits);
    Some(value as u32)
}

/// Packs the two halves of a Windows LUID into one 64-bit identity.
pub fn luid_to_u64(low: u32, high: i32) -> (id: u64)
    ensures
        id == luid_value(low, high as u32),
{
    let high_bits: u32 = high as u32;
    (high_bits as u64) * 0x1_0000_0000 + (low as u64)
}

/// Extracts the adapter identity from a GPU performance-counter instance
/// name.
pub fn gpu_luid_from_engine_instance(instance: &str) -> (id: Option<u64>)
    ensures
        id == engine_instance_luid(instance@),
{
    let text = chars_of(instance);
    let marker = chars_of("luid_0x");
    let separator = chars_of("_0x");
    let underscore = chars_of("_");
    proof {
        reveal_strlit("luid_0x");
        reveal_strlit("_0x");
        reveal_strlit("_");
        assert(underscore@ =~= seq!['_']);
    }
    let at = match find_chars(&text, &marker, 0) {
        Some(at) => at,
        None => return None,
    };
    let text_len = text.len();
    let suffix_start = at + marker.len();
    let suffix = slice_chars(&text, suffix_start, text_len);
    let split = match find_chars(&suffix, &separator, 0) {
        Some(split) => split,
        None => return None,
    };
    let high_text = slice_chars(&suffix, 0, split);
    let rest = slice_chars(&suffix, split + separator.len(), suffix.len());
    let low_end = match find_chars(&rest, &underscore, 0) {
        Some(end) => end,
        None => rest.len(),
    };
    let low_text = slice_chars(&rest, 0, low_end);
    proof {
        assert(rest@.subrange(0, rest@.len() as int) =~= rest@);
    }
    let high = match parse_hex(&high_text) {
        Some(high) => high,
        None => return None,
    };
    let low = match parse_hex(&low_text) {
        Some(low) => low,
        None => return None,
    };
    let signed_high = high as i32;
    assert(signed_high as u32 == high) by (bit_vector)
        requires
            signed_high == high as i32,
    ;
    Some(luid_to_u64(low, signed_high))
}

/// Whether two character sequences are equal.
fn same_chars(a: &Vec<char>, b: &Vec<char>) -> (same: bool)
    ensures
        same == (a@ == b@),
{
    if a.len() != b.len() {
        return false;
    }
    let mut i: usize = 0;
    while i < a.len()
        invariant
            i <= a@.len(),
            a@.len() == b@.len(),
            forall|j: int| 0 <= j < i ==> a@[j] == b@[j],
        decreases a@.len() - i,
    {
        if a[i] != b[i] {
            return false;
        }
        i = i + 1;
    }
    assert(a@ =~= b@);
    true
}

/// Whether a string reads exactly `expected`.
fn text_is(text: &str, expected: &str) -> (same: bool)
    ensures
        same == (text@ == expected@),
{
    same_chars(&chars_of(text), &chars_of(expected))
}

/// The concise name of a Windows service account SID that wtop always
/// recognises.
pub open spec fn well_known_user_name(sid: Seq<char>) -> Option<Seq<char>> {
    if sid == "S-1-5-18"@ {
        Some("SYSTEM"@)
    } else if sid == "S-1-5-19"@ {
        Some("LOCAL SERVICE"@)
    } else if sid == "S-1-5-20"@ {
        Some("NETWORK SERVICE"@)
    } else {
        None
    }
}

/// Returns concise names for Windows service accounts whose SIDs are stable
/// and commonly encountered even when they are absent from the account list.
pub fn well_known_windows_user(sid: &str) -> (name: Option<&'static str>)
    ensures
        match name {
            Some(n) => well_known_user_name(sid@) == Some(n@),
            None => well_known_user_name(sid@) is None,
        },
{
    if text_is(sid, "S-1-5-18") {
        Some("SYSTEM")
    } else if text_is(sid, "S-1-5-19") {
        Some("LOCAL SERVICE")
    } else if text_is(sid, "S-1-5-20") {
        Some("NETWORK SERVICE")
    } else {
        None
    }
}

/// A character with ASCII upper-case letters mapped to lower case.
pub open spec fn ascii_lower(c: char) -> char {
    if 'A' <= c && c <= 'Z' {
        ((c as u32) + 32) as char
    } else {
        c
    }
}

/// `str::eq_ignore_ascii_case` on characters.
pub open spec fn equal_ignoring_ascii_case(a: Seq<char>, b: Seq<char>) -> bool {
    &&& a.len() == b.len()
    &&& forall|i: int| 0 <= i < a.len() ==> #[trigger] ascii_lower(a[i]) == ascii_lower(b[i])
}

fn lower_ascii(c: char) -> (lowered: char)
    ensures
        lowered == ascii_lower(c),
{
    if 'A' <= c && c <= 'Z' {
        let code: u8 = (c as u8) + 32;
        code as char
    } else {
        c
    }
}

fn same_ignoring_ascii_case(text: &Vec<char>, expected: &str) -> (same: bool)
    ensures
        same == equal_ignoring_ascii_case(text@, expected@),
{
    let other = chars_of(expected);
    if text.len() != other.len() {
        return false;
    }
    let mut i: usize = 0;
    while i < text.len()
        invariant
            i <= text@.len(),
            text@.len() == other@.len(),
            other@ == expected@,
            forall|j: int| 0 <= j < i ==> #[trigger] ascii_lower(text@[j]) == ascii_lower(other@[j]),
        decreases text@.len() - i,
    {
        if lower_ascii(text[i]) != lower_ascii(other[i]) {
            return false;
        }
        i = i + 1;
    }
    true
}

/// The display name of a configured service logon account: the built-in
/// accounts under any of their spellings (compared without regard to ASCII
/// case) get their concise names; any other account is kept as written.
pub open spec fn normalized_account(account: Seq<char>) -> Seq<char> {
    if equal_ignoring_ascii_case(account, "LocalSystem"@) || equal_ignoring_ascii_case(
        account,
        "NT AUTHORITY\\LocalSystem"@,
    ) || equal_ignoring_ascii_case(account, "NT AUTHORITY\\SYSTEM"@) {
        "SYSTEM"@
    } else if equal_ignoring_ascii_case(account, "LocalService"@) || equal_ignoring_ascii_case(
        account,
        "NT AUTHORITY\\LocalService"@,
    ) || equal_ignoring_ascii_case(account, "NT AUTHORITY\\LOCAL SERVICE"@) {
        "LOCAL SERVICE"@
    } else if equal_ignoring_ascii_case(account, "NetworkService"@) || equal_ignoring_ascii_case(
        account,
        "NT AUTHORITY\\NetworkService"@,
    ) || equal_ignoring_ascii_case(account, "NT AUTHORITY\\NETWORK SERVICE"@) {
        "NETWORK SERVICE"@
    } else {
        account
    }
}

pub fn normalize_service_account(account: &str) -> (name: String)
    ensures
        name@ == normalized_account(account@),
{
    let text = chars_of(account);
    if same_ignoring_ascii_case(&text, "LocalSystem") || same_ignoring_ascii_case(
        &text,
        "NT AUTHORITY\\LocalSystem",
    ) || same_ignoring_ascii_case(&text, "NT AUTHORITY\\SYSTEM") {
        "SYSTEM".to_string()
    } else if same_ignoring_ascii_case(&text, "LocalService") || same_ignoring_ascii_case(
        &text,
        "NT AUTHORITY\\LocalService",
    ) || same_ignoring_ascii_case(&text, "NT AUTHORITY\\LOCAL SERVICE") {
        "LOCAL SERVICE".to_string()
    } else if same_ignoring_ascii_case(&text, "NetworkService") || same_ignoring_ascii_case(
        &text,
        "NT AUTHORITY\\NetworkService",
    ) || same_ignoring_ascii_case(&text, "NT AUTHORITY\\NETWORK SERVICE") {
        "NETWORK SERVICE".to_string()
    } else {
        account.to_string()
    }
}

/// Converts a Windows commit page count into bytes, failing when the exact
/// product does not fit in 64 bits.
pub fn pages_to_bytes(pages: usize, page_size: usize) -> (bytes: Result<u64, String>)
    ensures
        match bytes {
            Ok(b) => b == pages * page_size,
            Err(message) => pages * page_size > u64::MAX && message@
                == "commit byte count overflowed u64"@,
        },
{
    let pages = pages as u64;
    let page_size = page_size as u64;
    match pages.checked_mul(page_size) {
        Some(bytes) => Ok(bytes),
        None => Err("commit byte count overflowed u64".to_string()),
    }
}

/// The upper-case hexadecimal digit for a value below 16.
pub open spec fn hex_char(value: int) -> char {
    if value < 10 {
        ('0' as int + value) as char
    } else {
        ('A' as int + value - 10) as char
    }
}

/// A 32-bit value as eight upper-case hexadecimal digits.
pub open spec fn hex8(value: u32) -> Seq<char> {
    Seq::new(8, |i: int| hex_char((value as int / pow16(7 - i)) % 16))
}

pub open spec fn pow16(n: int) -> int
    decreases n,
{
    if n <= 0 {
        1
    } else {
        16 * pow16(n - 1)
    }
}

proof fn lemma_pow16_positive(n: int)
    ensures
        pow16(n) >= 1,
    decreases n,
{
    if n > 0 {
        lemma_pow16_positive(n - 1);
    }
}

fn hex_digit_char(value: u32) -> (c: char)
    requires
        value < 16,
    ensures
        c == hex_char(value as int),
{
    if value < 10 {
        ((value as u8) + 0x30) as char
    } else {
        ((value as u8) + 0x37) as char
    }
}

/// Checks a PDH status code: success is 0; any other status becomes the
/// message `<operation> failed with PDH status 0x<eight hex digits>`.
pub fn pdh_result(result: u32, operation: &str) -> (checked: Result<(), String>)
    ensures
        match checked {
            Ok(()) => result == 0,
            Err(message) => result != 0 && message@ == operation@
                + " failed with PDH status 0x"@ + hex8(result),
        },
{
    if result == 0 {
        return Ok(());
    }
    let mut message = operation.to_string();
    message.append(" failed with PDH status 0x");
    let ghost prefix = message@;
    let mut divisor: u32 = 0x1000_0000;
    let mut i: usize = 0;
    proof {
        reveal_with_fuel(pow16, 8);
    }
    while i < 8
        invariant
            i <= 8,
            i < 8 ==> divisor as int == pow16(7 - i),
            i < 8 ==> divisor > 0,
            message@ == prefix + hex8(result).take(i as int),
        decreases 8 - i,
    {
        let digit = (result / divisor) % 16;
        push_char(&mut message, hex_digit_char(digit));
        assert(message@ =~= prefix + hex8(result).take(i + 1));
        if i < 7 {
            proof {
                assert(pow16(7 - i) == 16 * pow16(7 - i - 1));
                lemma_pow16_positive(6 - i as int);
            }
            divisor = divisor / 16;
        }
        i = i + 1;
    }
    assert(hex8(result).take(8) =~= hex8(result));
    Err(message)
}

/// A metric that could not be refreshed: the previous value (0 without one)
/// with the reason.
pub fn stale_metric(previous: Option<&Metric<u64>>, reason: &str) -> (metric: Metric<u64>)
    ensures
        metric.value == match previous {
            Some(m) => m.value,
            None => 0,
        },
        metric.freshness matches Freshness::Stale { reason: r } && r@ == reason@,
{
    let value = match previous {
        Some(metric) => metric.value,
        None => 0,
    };
    Metric::stale(value, reason)
}

/// UTF-16 decoding with each unpaired surrogate replaced by U+FFFD: a unit
/// outside the surrogate range is its own character, a high surrogate
/// followed by a low one is the character they encode, and any other
/// surrogate is replaced (the unit after an unpaired high surrogate is
/// decoded on its own).
pub open spec fn utf16_lossy(units: Seq<u16>) -> Seq<char>
    decreases units.len(),
{
    if units.len() == 0 {
        Seq::empty()
    } else {
        let first = units[0];
        if first < 0xD800 || first > 0xDFFF {
            seq![first as char] + utf16_lossy(units.drop_first())
        } else if first <= 0xDBFF && units.len() >= 2 && 0xDC00 <= units[1] <= 0xDFFF {
            seq![(0x10000 + (first - 0xD800) * 0x400 + (units[1] - 0xDC00)) as char] + utf16_lossy(
                units.subrange(2, units.len() as int),
            )
        } else {
            seq!['\u{FFFD}'] + utf16_lossy(units.drop_first())
        }
    }
}

/// Calls `String::from_utf16_lossy`, which decodes UTF-16 and replaces
/// invalid data (unpaired surrogates) with U+FFFD, as its documentation and
/// examples show.
#[verifier::external_body]
fn decode_utf16_lossy(units: &[u16]) -> (text: String)
    ensures
        text@ == utf16_lossy(units@),
{
    String::from_utf16_lossy(units)
}

/// The code units before the first NUL (all of them when there is none).
pub open spec fn before_nul(units: Seq<u16>) -> Seq<u16> {
    match first_nul(units, 0) {
        Some(at) => units.subrange(0, at),
        None => units,
    }
}

pub open spec fn first_nul(units: Seq<u16>, from: int) -> Option<int>
    decreases units.len() - from,
{
    if from < 0 || from >= units.len() {
        None
    } else if units[from] == 0 {
        Some(from)
    } else {
        first_nul(units, from + 1)
    }
}

/// Decodes a NUL-terminated UTF-16 buffer, replacing invalid code units.
pub fn wide_c_string(value: &[u16]) -> (text: String)
    ensures
        text@ == utf16_lossy(before_nul(value@)),
{
    let mut length: usize = 0;
    while length < value.len() && value[length] != 0
        invariant
            length <= value@.len(),
            first_nul(value@, 0) == first_nul(value@, length as int),
        decreases value@.len() - length,
    {
        length = length + 1;
    }
    let mut prefix: Vec<u16> = Vec::new();
    let mut i: usize = 0;
    while i < length
        invariant
            i <= length <= value@.len(),
            prefix@ == value@.subrange(0, i as int),
        decreases length - i,
    {
        prefix.push(value[i]);
        i = i + 1;
        assert(prefix@ =~= value@.subrange(0, i as int));
    }
    proof {
        if length == value@.len() {
            assert(value@.subrange(0, length as int) =~= value@);
        }
    }
    decode_utf16_lossy(prefix.as_slice())
}

/// The command line formed by a process's arguments: unavailable when there
/// are none, otherwise the arguments joined by single spaces.
pub open spec fn joined_arguments(arguments: Seq<Seq<char>>) -> Seq<char>
    decreases arguments.len(),
{
    if arguments.len() <= 1 {
        if arguments.len() == 1 {
            arguments[0]
        } else {
            Seq::empty()
        }
    } else {
        joined_arguments(arguments.drop_last()) + " "@ + arguments.last()
    }
}

pub fn command_line_from_arguments(arguments: &Vec<String>) -> (command_line: CommandLine)
    ensures
        arguments@.len() == 0 ==> command_line == CommandLine::Unavailable,
        arguments@.len() > 0 ==> (command_line matches CommandLine::Present(text) && text@
            == joined_arguments(Seq::new(arguments@.len(), |i: int| arguments@[i]@))),
{
    if arguments.len() == 0 {
        return CommandLine::Unavailable;
    }
    let ghost views = Seq::new(arguments@.len(), |i: int| arguments@[i]@);
    let mut text = arguments[0].clone();
    let mut i: usize = 1;
    proof {
        reveal_strlit(" ");
        assert(views.take(1) =~= seq![arguments@[0]@]);
    }
    while i < arguments.len()
        invariant
            1 <= i <= arguments@.len(),
            views == Seq::new(arguments@.len(), |i: int| arguments@[i]@),
            text@ == joined_arguments(views.take(i as int)),
        decreases arguments@.len() - i,
    {
        text.append(" ");
        text.append(arguments[i].as_str());
        proof {
            assert(views.take(i + 1).drop_last() =~= views.take(i as int));
        }
        i = i + 1;
    }
    assert(views.take(i as int) =~= views);
    CommandLine::Present(text)
}

/// The logon account that the Service Control Manager reports for the
/// services of one process.
#[derive(Clone, Debug, PartialEq, Eq)]
pub enum ServiceAccount {
    /// Every service of the process runs under this account.
    Account(String),
    /// The services of the process run under different accounts.
    Mixed,
}

/// Whether some service's account could not be read.
pub open spec fn has_unknown_account(accounts: Seq<Option<String>>) -> bool {
    exists|i: int| 0 <= i < accounts.len() && #[trigger] accounts[i] is None
}

/// Whether every account equals the first one.
pub open spec fn all_same_account(accounts: Seq<Option<String>>) -> bool {
    &&& accounts.len() > 0
    &&& forall|i: int| 0 <= i < accounts.len() ==> (#[trigger] accounts[i])->0@ == accounts[0]->0@
}

/// What the configured accounts of the services sharing one process resolve
/// to: nothing when any account is unknown, the account when all agree, and
/// `Mixed` otherwise.
pub open spec fn resolved_account(accounts: Seq<Option<String>>) -> Option<ServiceAccount> {
    if has_unknown_account(accounts) {
        None
    } else if all_same_account(accounts) {
        Some(ServiceAccount::Account(accounts[0]->0))
    } else {
        Some(ServiceAccount::Mixed)
    }
}

/// Resolves the configured accounts of the services sharing one process:
/// nothing when any account is unknown, the account when all agree, and
/// `Mixed` otherwise, never an arbitrary one of several accounts.
pub fn service_account_for(accounts: &Vec<Option<String>>) -> (account: Option<ServiceAccount>)
    ensures
        account == resolved_account(accounts@),
        has_unknown_account(accounts@) ==> account is None,
        !has_unknown_account(accounts@) && all_same_account(accounts@) ==> (account matches Some(
            ServiceAccount::Account(name),
        ) && name@ == accounts@[0]->0@),
        !has_unknown_account(accounts@) && !all_same_account(accounts@) ==> account
            == Some(ServiceAccount::Mixed),
{
    let mut i: usize = 0;
    while i < accounts.len()
        invariant
            i <= accounts@.len(),
            forall|j: int| 0 <= j < i ==> (#[trigger] accounts@[j]) is Some,
        decreases accounts@.len() - i,
    {
        if accounts[i].is_none() {
            assert(accounts@[i as int] is None);
            return None;
        }
        i = i + 1;
    }
    if accounts.len() == 0 {
        return Some(ServiceAccount::Mixed);
    }
    let first = match &accounts[0] {
        Some(first) => first,
        None => return None,
    };
    let first_chars = chars_of(first.as_str());
    let mut j: usize = 1;
    while j < accounts.len()
        invariant
            1 <= j <= accounts@.len(),
            forall|k: int| 0 <= k < accounts@.len() ==> (#[trigger] accounts@[k]) is Some,
            first_chars@ == accounts@[0]->0@,
            forall|k: int| 0 <= k < j ==> (#[trigger] accounts@[k])->0@ == accounts@[0]->0@,
        decreases accounts@.len() - j,
    {
        let same = match &accounts[j] {
            Some(other) => same_chars(&chars_of(other.as_str()), &first_chars),
            None => false,
        };
        if !same {
            assert(accounts@[j as int]->0@ != accounts@[0]->0@);
            return Some(ServiceAccount::Mixed);
        }
        j = j + 1;
    }
    Some(ServiceAccount::Account(first.clone()))
}

/// The accounts of the services that process `pid` hosts, in the order the
/// services were listed.
pub open spec fn accounts_of(services: Seq<(u32, Option<String>)>, pid: u32) -> Seq<Option<String>>
    decreases services.len(),
{
    if services.len() == 0 {
        Seq::empty()
    } else {
        let rest = accounts_of(services.drop_last(), pid);
        if services.last().0 == pid {
            rest.push(services.last().1)
        } else {
            rest
        }
    }
}

/// The accounts of the services that process `pid` hosts.
fn accounts_for_pid(services: &Vec<(u32, Option<String>)>, pid: u32) -> (accounts: Vec<Option<String>>)
    ensures
        accounts@ == accounts_of(services@, pid),
{
    let mut accounts: Vec<Option<String>> = Vec::new();
    let mut j: usize = 0;
    while j < services.len()
        invariant
            j <= services@.len(),
            accounts@ == accounts_of(services@.take(j as int), pid),
        decreases services@.len() - j,
    {
        proof {
            assert(services@.take(j + 1).drop_last() =~= services@.take(j as int));
            assert(services@.take(j + 1).last() == services@[j as int]);
        }
        if services[j].0 == pid {
            let account = match &services[j].1 {
                Some(name) => Some(name.clone()),
                None => None,
            };
            accounts.push(account);
        }
        j = j + 1;
    }
    assert(services@.take(j as int) =~= services@);
    accounts
}

/// A process that hosts a listed service has at least one account listed.
proof fn lemma_hosted_service_is_listed(services: Seq<(u32, Option<String>)>, i: int)
    requires
        0 <= i < services.len(),
    ensures
        accounts_of(services, services[i].0).len() > 0,
    decreases services.len(),
{
    if i < services.len() - 1 {
        lemma_hosted_service_is_listed(services.drop_last(), i);
        assert(services.drop_last()[i] == services[i]);
    }
}

/// Groups the services that the service manager lists (each with the PID
/// hosting it and its configured account, when readable) by process and
/// resolves each process's account. PID 0 (services that are not running)
/// and processes whose accounts resolve to nothing are left out; each other
/// process appears once, in the order of its first service.
pub fn resolve_service_accounts(services: &Vec<(u32, Option<String>)>) -> (accounts: Vec<
    (u32, ServiceAccount),
>)
    ensures
        forall|k: int|
            0 <= k < accounts@.len() ==> (#[trigger] accounts@[k]).0 != 0 && resolved_account(
                accounts_of(services@, accounts@[k].0),
            ) == Some(accounts@[k].1),
        forall|k: int|
            0 <= k < accounts@.len() ==> accounts_of(services@, (#[trigger] accounts@[k]).0).len() > 0,
        forall|j: int, k: int|
            0 <= j < k < accounts@.len() ==> (#[trigger] accounts@[j]).0 != (#[trigger] accounts@[k]).0,
        forall|i: int|
            0 <= i < services@.len() && (#[trigger] services@[i]).0 != 0 && resolved_account(
                accounts_of(services@, services@[i].0),
            ) is Some ==> exists|k: int|
                0 <= k < accounts@.len() && (#[trigger] accounts@[k]).0 == services@[i].0,
{
    let mut result: Vec<(u32, ServiceAccount)> = Vec::new();
    let mut i: usize = 0;
    while i < services.len()
        invariant
            i <= services@.len(),
            forall|k: int|
                0 <= k < result@.len() ==> (#[trigger] result@[k]).0 != 0 && resolved_account(
                    accounts_of(services@, result@[k].0),
                ) == Some(result@[k].1),
            forall|k: int|
                0 <= k < result@.len() ==> accounts_of(services@, (#[trigger] result@[k]).0).len() > 0,
            forall|j: int, k: int|
                0 <= j < k < result@.len() ==> (#[trigger] result@[j]).0 != (#[trigger] result@[k]).0,
            forall|m: int|
                0 <= m < i && (#[trigger] services@[m]).0 != 0 && resolved_account(
                    accounts_of(services@, services@[m].0),
                ) is Some ==> exists|k: int|
                    0 <= k < result@.len() && (#[trigger] result@[k]).0 == services@[m].0,
        decreases services@.len() - i,
    {
        let pid = services[i].0;
        if pid != 0 {
            let mut present = false;
            let mut k: usize = 0;
            while k < result.len()
                invariant
                    k <= result@.len(),
                    present <==> exists|q: int| 0 <= q < k && (#[trigger] result@[q]).0 == pid,
                decreases result@.len() - k,
            {
                if result[k].0 == pid {
                    present = true;
                }
                k = k + 1;
            }
            if !present {
                let accounts = accounts_for_pid(services, pid);
                match service_account_for(&accounts) {
                    Some(account) => {
                        let ghost before = result@;
                        result.push((pid, account));
                        proof {
                            lemma_hosted_service_is_listed(services@, i as int);
                            assert forall|q: int| 0 <= q < result@.len() implies accounts_of(
                                services@,
                                (#[trigger] result@[q]).0,
                            ).len() > 0 by {
                                if q < before.len() {
                                    assert(result@[q] == before[q]);
                                }
                            }
                            assert forall|j: int, q: int| 0 <= j < q < result@.len() implies (
                            #[trigger] result@[j]).0 != (#[trigger] result@[q]).0 by {
                                if q == result@.len() - 1 {
                                    assert(result@[j] == before[j]);
                                } else {
                                    assert(result@[j] == before[j] && result@[q] == before[q]);
                                }
                            }
                            assert forall|m: int|
                                0 <= m < i + 1 && (#[trigger] services@[m]).0 != 0 && resolved_account(
                                    accounts_of(services@, services@[m].0),
                                ) is Some implies exists|q: int|
                                0 <= q < result@.len() && (#[trigger] result@[q]).0 == services@[m].0 by {
                                if m == i {
                                    assert(result@[result@.len() - 1].0 == pid);
                                } else {
                                    let q = choose|q: int|
                                        0 <= q < before.len() && (#[trigger] before[q]).0 == services@[m].0;
                                    assert(result@[q] == before[q]);
                                }
                            }
                        }
                    },
                    None => {},
                }
            }
        }
        i = i + 1;
    }
    result
}

/// The owner label derived from a process token's SID: the concise name of
/// a well-known service SID, else the account name found for the SID, else
/// the SID itself.
pub open spec fn token_user_text(sid: Seq<char>, account_name: Option<String>) -> Seq<char> {
    match well_known_user_name(sid) {
        Some(name) => name,
        None => match account_name {
            Some(name) => name@,
            None => sid,
        },
    }
}

pub fn token_user_label(sid: &str, account_name: Option<&String>) -> (label: String)
    ensures
        label@ == token_user_text(
            sid@,
            match account_name {
                Some(name) => Some(*name),
                None => None,
            },
        ),
{
    match well_known_windows_user(sid) {
        Some(name) => name.to_string(),
        None => match account_name {
            Some(name) => name.clone(),
            None => sid.to_string(),
        },
    }
}

/// The owner shown for a process: the token's user when the token could be
/// read; otherwise the service configuration's account (or a marker for
/// mixed accounts); otherwise nothing, marked restricted.
pub open spec fn owner_of(token_user: Option<String>, service: Option<ServiceAccount>) -> (
    Option<Seq<char>>,
    UserSource,
) {
    match token_user {
        Some(user) => (Some(user@), UserSource::Token),
        None => match service {
            Some(ServiceAccount::Account(account)) => (
                Some(account@),
                UserSource::ServiceConfiguration,
            ),
            Some(ServiceAccount::Mixed) => (
                Some("<mixed service accounts>"@),
                UserSource::ServiceConfiguration,
            ),
            None => (None, UserSource::Restricted),
        },
    }
}

/// The owner of a process comes from its token when the token could be
/// read. Otherwise a service host shows its services' account (or a marker
/// when they run under several accounts), and any other process has no owner
/// and is marked restricted.
pub proof fn lemma_owner_prefers_the_token(token_user: Option<String>, service: Option<ServiceAccount>)
    ensures
        token_user matches Some(user) ==> owner_of(token_user, service) == (
            Some(user@),
            UserSource::Token,
        ),
        token_user is None ==> (service matches Some(ServiceAccount::Account(account))
            ==> owner_of(token_user, service) == (
            Some(account@),
            UserSource::ServiceConfiguration,
        )),
        token_user is None && service == Some(ServiceAccount::Mixed) ==> owner_of(
            token_user,
            service,
        ) == (Some("<mixed service accounts>"@), UserSource::ServiceConfiguration),
        token_user is None && service is None ==> owner_of(token_user, service) == (
            None::<Seq<char>>,
            UserSource::Restricted,
        ),
{
}

pub fn process_owner(token_user: Option<String>, service: Option<&ServiceAccount>) -> (owner: (
    Option<String>,
    UserSource,
))
    ensures
        owner.1 == owner_of(
            token_user,
            match service {
                Some(s) => Some(*s),
                None => None,
            },
        ).1,
        match owner.0 {
            Some(user) => owner_of(
                token_user,
                match service {
                    Some(s) => Some(*s),
                    None => None,
                },
            ).0 == Some(user@),
            None => owner_of(
                token_user,
                match service {
                    Some(s) => Some(*s),
                    None => None,
                },
            ).0 is None,
        },
{
    match token_user {
        Some(user) => (Some(user), UserSource::Token),
        None => match service {
            Some(ServiceAccount::Account(account)) => (
                Some(account.clone()),
                UserSource::ServiceConfiguration,
            ),
            Some(ServiceAccount::Mixed) => (
                Some("<mixed service accounts>".to_string()),
                UserSource::ServiceConfiguration,
            ),
            None => (None, UserSource::Restricted),
        },
    }
}

/// The thread count reported for a process: the current reading, else the
/// count the process had in the previous snapshot, else 0.
pub open spec fn thread_count_of(
    pid: u32,
    current: Option<u64>,
    previous: Option<Snapshot>,
) -> u64 {
    match current {
        Some(count) => count,
        None => match previous {
            Some(snapshot) => match pid_position(snapshot.processes.value@, pid) {
                Some(index) => snapshot.processes.value@[index].thread_count.value,
                None => 0,
            },
            None => 0,
        },
    }
}

/// The thread-count metric of a process, carrying the freshness of the
/// thread-count query.
pub fn thread_count_metric(
    pid: u32,
    current: Option<u64>,
    freshness: &Freshness,
    previous: Option<&Snapshot>,
) -> (metric: Metric<u64>)
    ensures
        metric.value == thread_count_of(
            pid,
            current,
            match previous {
                Some(s) => Some(*s),
                None => None,
            },
        ),
        metric.freshness == *freshness,
{
    let value = match current {
        Some(count) => count,
        None => match previous {
            Some(snapshot) => {
                let processes = &snapshot.processes.value;
                let mut found: Option<u64> = None;
                let mut i: usize = 0;
                while found.is_none() && i < processes.len()
                    invariant
                        i <= processes@.len(),
                        found is None ==> pid_position(processes@, pid) == crate::app::pid_position_from(
                            processes@,
                            pid,
                            i as int,
                        ),
                        found matches Some(v) ==> pid_position(processes@, pid) matches Some(k)
                            && processes@[k].thread_count.value == v,
                    decreases processes@.len() - i, if found is None { 1int } else { 0int },
                {
                    if processes[i].pid == pid {
                        found = Some(processes[i].thread_count.value);
                    } else {
                        i = i + 1;
                    }
                }
                match found {
                    Some(count) => count,
                    None => 0,
                }
            },
            None => 0,
        },
    };
    Metric { value, freshness: freshness.clone() }
}

/// The thread count of a process is the current reading when there is one.
/// Without one it carries over the count that the previous snapshot gave the
/// first process with the same PID, and it is 0 only when no previous
/// snapshot lists that PID.
pub proof fn lemma_thread_count_carries_over(pid: u32, current: Option<u64>, previous: Option<Snapshot>)
    ensures
        current matches Some(count) ==> thread_count_of(pid, current, previous) == count,
        current is None ==> (previous matches Some(snapshot) ==> forall|k: int|
            0 <= k < snapshot.processes.value@.len() && (#[trigger] snapshot.processes.value@[k]).pid
                == pid && (forall|j: int|
                0 <= j < k ==> snapshot.processes.value@[j].pid != pid) ==> thread_count_of(
                pid,
                current,
                previous,
            ) == snapshot.processes.value@[k].thread_count.value),
        current is None && (previous matches Some(snapshot) ==> forall|k: int|
            0 <= k < snapshot.processes.value@.len() ==> (#[trigger] snapshot.processes.value@[k]).pid
                != pid) ==> thread_count_of(pid, current, previous) == 0,
{
    match previous {
        Some(snapshot) => {
            let rows = snapshot.processes.value@;
            lemma_pid_position(rows, pid, 0);
            assert forall|k: int|
                0 <= k < rows.len() && (#[trigger] rows[k]).pid == pid && (forall|j: int|
                    0 <= j < k ==> rows[j].pid != pid) implies pid_position(rows, pid) == Some(k) by {
                match pid_position(rows, pid) {
                    Some(p) => {
                        if p < k {
                            assert(rows[p].pid == pid);
                        }
                    },
                    None => {},
                }
            }
        },
        None => {},
    }
}

/// What is read about one process before it is described.
#[derive(Debug)]
pub struct ProcessReading {
    pub pid: u32,
    pub parent_pid: Option<u32>,
    pub name: String,
    /// The owner label derived from the process token, when it could be read.
    pub token_user: Option<String>,
    pub command_line: CommandLine,
    pub executable_path: Option<String>,
    /// Percentage of total logical CPU capacity used by this process.
    pub cpu_percent: Float32,
    pub memory_bytes: u64,
}

/// The value a map holds for a key, if any.
pub open spec fn lookup<K, V>(map: Map<K, V>, key: K) -> Option<V> {
    if map.dom().contains(key) {
        Some(map[key])
    } else {
        None
    }
}

/// `process` describes `reading`, given the thread counts (and their
/// freshness), the service accounts by PID and the previous snapshot.
pub open spec fn describes(
    process: ProcessSnapshot,
    reading: ProcessReading,
    thread_counts: Map<u32, u64>,
    counts_freshness: Freshness,
    services: Map<u32, ServiceAccount>,
    previous: Option<Snapshot>,
) -> bool {
    let owner = owner_of(reading.token_user, lookup(services, reading.pid));
    &&& process.pid == reading.pid
    &&& process.parent_pid == reading.parent_pid
    &&& process.name == reading.name
    &&& process.command_line == reading.command_line
    &&& process.executable_path == reading.executable_path
    &&& process.cpu_percent == reading.cpu_percent
    &&& process.memory_bytes == reading.memory_bytes
    &&& process.user_source == owner.1
    &&& match process.user {
        Some(user) => owner.0 == Some(user@),
        None => owner.0 is None,
    }
    &&& process.thread_count.value == thread_count_of(
        reading.pid,
        lookup(thread_counts, reading.pid),
        previous,
    )
    &&& process.thread_count.freshness == counts_freshness
}

/// A process row keeps what was read about the process (PID, parent, name,
/// command line, executable path, CPU and memory figures), takes the current
/// thread count when the query has one for its PID, and carries the
/// freshness of the thread-count query.
pub proof fn lemma_description_keeps_the_reading(
    process: ProcessSnapshot,
    reading: ProcessReading,
    thread_counts: Map<u32, u64>,
    counts_freshness: Freshness,
    services: Map<u32, ServiceAccount>,
    previous: Option<Snapshot>,
)
    requires
        describes(process, reading, thread_counts, counts_freshness, services, previous),
    ensures
        process.pid == reading.pid,
        process.parent_pid == reading.parent_pid,
        process.name == reading.name,
        process.command_line == reading.command_line,
        process.executable_path == reading.executable_path,
        process.cpu_percent == reading.cpu_percent,
        process.memory_bytes == reading.memory_bytes,
        thread_counts.dom().contains(reading.pid) ==> process.thread_count.value
            == thread_counts[reading.pid],
        process.thread_count.freshness == counts_freshness,
        reading.token_user is Some ==> process.user_source == UserSource::Token,
{
}

/// Where a stable sort by key places entry `item` within `order`: before
/// the first entry with a greater key.
pub open spec fn key_insertion_point(keys: Seq<u32>, order: Seq<usize>, item: usize, from: int) -> int
    decreases order.len() - from,
{
    if from >= order.len() || from < 0 {
        order.len() as int
    } else if keys[order[from] as int] > keys[item as int] {
        from
    } else {
        key_insertion_point(keys, order, item, from + 1)
    }
}

/// The positions `0..n` stably sorted by their keys.
pub open spec fn stable_key_order(keys: Seq<u32>, n: int) -> Seq<usize>
    decreases n,
{
    if n <= 0 {
        Seq::empty()
    } else {
        let rest = stable_key_order(keys, n - 1);
        rest.insert(key_insertion_point(keys, rest, (n - 1) as usize, 0), (n - 1) as usize)
    }
}

proof fn lemma_key_insertion_point_bounded(keys: Seq<u32>, order: Seq<usize>, item: usize, from: int)
    requires
        0 <= from <= order.len(),
    ensures
        from <= key_insertion_point(keys, order, item, from) <= order.len(),
    decreases order.len() - from,
{
    if from < order.len() {
        lemma_key_insertion_point_bounded(keys, order, item, from + 1);
    }
}

proof fn lemma_stable_key_order_bounded(keys: Seq<u32>, n: int)
    requires
        0 <= n,
    ensures
        stable_key_order(keys, n).len() == n,
        forall|i: int| 0 <= i < n ==> #[trigger] stable_key_order(keys, n)[i] < n,
    decreases n,
{
    if n > 0 {
        let rest = stable_key_order(keys, n - 1);
        lemma_stable_key_order_bounded(keys, n - 1);
        lemma_key_insertion_point_bounded(keys, rest, (n - 1) as usize, 0);
        let position = key_insertion_point(keys, rest, (n - 1) as usize, 0);
        let result = rest.insert(position, (n - 1) as usize);
        assert forall|i: int| 0 <= i < n implies #[trigger] stable_key_order(keys, n)[i] < n by {
            if i < position {
                assert(result[i] == rest[i]);
            } else if i > position {
                assert(result[i] == rest[i - 1]);
            }
        }
    }
}

proof fn lemma_key_insertion_point_splits(keys: Seq<u32>, order: Seq<usize>, item: usize, from: int)
    requires
        0 <= from <= order.len(),
    ensures
        forall|i: int|
            from <= i < key_insertion_point(keys, order, item, from) ==> keys[#[trigger] order[i] as int]
                <= keys[item as int],
        key_insertion_point(keys, order, item, from) < order.len() ==> keys[order[key_insertion_point(
            keys,
            order,
            item,
            from,
        )] as int] > keys[item as int],
    decreases order.len() - from,
{
    if from < order.len() {
        lemma_key_insertion_point_splits(keys, order, item, from + 1);
    }
}

/// The stable order lists each position `0..n` exactly once, by key, and
/// positions with equal keys in their original order.
pub proof fn lemma_stable_key_order_is_a_stable_sort(keys: Seq<u32>, n: int)
    requires
        0 <= n <= keys.len(),
        n <= usize::MAX,
    ensures
        stable_key_order(keys, n).len() == n,
        stable_key_order(keys, n).no_duplicates(),
        forall|k: int| 0 <= k < n ==> #[trigger] stable_key_order(keys, n)[k] < n,
        forall|r: int| 0 <= r < n ==> #[trigger] stable_key_order(keys, n).contains(r as usize),
        forall|i: int, j: int|
            0 <= i < j < n ==> keys[#[trigger] stable_key_order(keys, n)[i] as int]
                <= keys[#[trigger] stable_key_order(keys, n)[j] as int],
        forall|i: int, j: int|
            0 <= i < j < n && keys[#[trigger] stable_key_order(keys, n)[i] as int]
                == keys[#[trigger] stable_key_order(keys, n)[j] as int] ==> stable_key_order(keys, n)[i]
                < stable_key_order(keys, n)[j],
    decreases n,
{
    lemma_stable_key_order_bounded(keys, n);
    if n > 0 {
        let rest = stable_key_order(keys, n - 1);
        let item = (n - 1) as usize;
        lemma_stable_key_order_is_a_stable_sort(keys, n - 1);
        lemma_key_insertion_point_bounded(keys, rest, item, 0);
        lemma_key_insertion_point_splits(keys, rest, item, 0);
        let p = key_insertion_point(keys, rest, item, 0);
        let result = rest.insert(p, item);
        assert(result == stable_key_order(keys, n));
        assert forall|i: int, j: int| 0 <= i < j < n implies keys[#[trigger] result[i] as int]
            <= keys[#[trigger] result[j] as int] && (keys[result[i] as int] == keys[result[j] as int]
            ==> result[i] < result[j]) by {
            if j < p {
                assert(result[i] == rest[i] && result[j] == rest[j]);
            } else if j == p {
                assert(result[i] == rest[i] && result[j] == item);
                assert(rest[i] < n - 1);
            } else if i > p {
                assert(result[i] == rest[i - 1] && result[j] == rest[j - 1]);
            } else if i == p {
                assert(result[i] == item && result[j] == rest[j - 1]);
                if j - 1 > p {
                    assert(keys[rest[p] as int] <= keys[rest[j - 1] as int]);
                }
            } else {
                assert(result[i] == rest[i] && result[j] == rest[j - 1]);
            }
        }
        assert forall|r: int| 0 <= r < n implies #[trigger] result.contains(r as usize) by {
            if r == n - 1 {
                assert(result[p] == item);
            } else {
                assert(rest.contains(r as usize));
                let k = choose|k: int| 0 <= k < rest.len() && rest[k] == r as usize;
                if k < p {
                    assert(result[k] == rest[k]);
                } else {
                    assert(result[k + 1] == rest[k]);
                }
            }
        }
        assert forall|a: int, b: int| 0 <= a < result.len() && 0 <= b < result.len() && a != b implies result[a]
            != result[b] by {
            if a != p && b != p {
                let x = if a < p { a } else { a - 1 };
                let y = if b < p { b } else { b - 1 };
                assert(result[a] == rest[x] && result[b] == rest[y]);
            } else if a == p {
                let y = if b < p { b } else { b - 1 };
                assert(result[b] == rest[y]);
                assert(rest[y] < n - 1);
            } else {
                let x = if a < p { a } else { a - 1 };
                assert(result[a] == rest[x]);
                assert(rest[x] < n - 1);
            }
        }
    }
}

/// The positions of `keys` stably sorted by key.
fn stable_order(keys: &Vec<u32>) -> (order: Vec<usize>)
    ensures
        order@ == stable_key_order(keys@, keys@.len() as int),
        forall|i: int| 0 <= i < order@.len() ==> order@[i] < keys@.len(),
{
    let mut order: Vec<usize> = Vec::new();
    let mut n: usize = 0;
    while n < keys.len()
        invariant
            n <= keys@.len(),
            order@ == stable_key_order(keys@, n as int),
        decreases keys@.len() - n,
    {
        proof {
            lemma_stable_key_order_bounded(keys@, n as int);
        }
        let mut position: usize = 0;
        let mut found = false;
        while !found && position < order.len()
            invariant
                position <= order@.len(),
                n < keys@.len(),
                order@ == stable_key_order(keys@, n as int),
                forall|i: int| 0 <= i < order@.len() ==> order@[i] < n,
                key_insertion_point(keys@, order@, n, 0) == if found {
                    position as int
                } else {
                    key_insertion_point(keys@, order@, n, position as int)
                },
            decreases order@.len() - position, if found { 0int } else { 1int },
        {
            if keys[order[position]] > keys[n] {
                found = true;
            } else {
                position = position + 1;
            }
        }
        order.insert(position, n);
        n = n + 1;
    }
    proof {
        lemma_stable_key_order_bounded(keys@, n as int);
    }
    order
}

/// Describes one process reading.
fn process_from_reading(
    reading: &ProcessReading,
    thread_counts: &Metric<HashMap<u32, u64>>,
    services: &HashMap<u32, ServiceAccount>,
    previous: Option<&Snapshot>,
) -> (process: ProcessSnapshot)
    ensures
        describes(
            process,
            *reading,
            thread_counts.value@,
            thread_counts.freshness,
            services@,
            match previous {
                Some(s) => Some(*s),
                None => None,
            },
        ),
{
    broadcast use vstd::std_specs::hash::group_hash_axioms;

    let current = match thread_counts.value.get(&reading.pid) {
        Some(count) => Some(*count),
        None => None,
    };
    let service = services.get(&reading.pid);
    let token_user = match &reading.token_user {
        Some(user) => Some(user.clone()),
        None => None,
    };
    let (user, user_source) = process_owner(token_user, service);
    ProcessSnapshot {
        pid: reading.pid,
        parent_pid: reading.parent_pid,
        name: reading.name.clone(),
        user,
        user_source,
        command_line: reading.command_line.clone(),
        executable_path: match &reading.executable_path {
            Some(path) => Some(path.clone()),
            None => None,
        },
        cpu_percent: reading.cpu_percent,
        thread_count: thread_count_metric(
            reading.pid,
            current,
            &thread_counts.freshness,
            previous,
        ),
        memory_bytes: reading.memory_bytes,
    }
}

/// The PIDs of the readings.
pub open spec fn reading_pids(readings: Seq<ProcessReading>) -> Seq<u32> {
    Seq::new(readings.len(), |i: int| readings[i].pid)
}

/// Describes every process reading, ordered by PID (readings with equal PIDs
/// keep their order).
pub fn processes_from_readings(
    readings: &Vec<ProcessReading>,
    thread_counts: &Metric<HashMap<u32, u64>>,
    services: &HashMap<u32, ServiceAccount>,
    previous: Option<&Snapshot>,
) -> (processes: Vec<ProcessSnapshot>)
    ensures
        processes@.len() == readings@.len(),
        forall|k: int|
            0 <= k < processes@.len() ==> describes(
                #[trigger] processes@[k],
                readings@[stable_key_order(reading_pids(readings@), readings@.len() as int)[k] as int],
                thread_counts.value@,
                thread_counts.freshness,
                services@,
                match previous {
                    Some(s) => Some(*s),
                    None => None,
                },
            ),
        forall|i: int, j: int|
            0 <= i < j < processes@.len() ==> #[trigger] processes@[i].pid <= #[trigger] processes@[j].pid,
        forall|r: int|
            #![trigger readings@[r]]
            0 <= r < readings@.len() ==> exists|k: int|
                0 <= k < processes@.len() && describes(
                    #[trigger] processes@[k],
                    readings@[r],
                    thread_counts.value@,
                    thread_counts.freshness,
                    services@,
                    match previous {
                        Some(s) => Some(*s),
                        None => None,
                    },
                ),
{
    let mut pids: Vec<u32> = Vec::new();
    let mut i: usize = 0;
    while i < readings.len()
        invariant
            i <= readings@.len(),
            pids@ == reading_pids(readings@).take(i as int),
        decreases readings@.len() - i,
    {
        pids.push(readings[i].pid);
        i = i + 1;
        assert(pids@ =~= reading_pids(readings@).take(i as int));
    }
    assert(pids@ =~= reading_pids(readings@));
    let order = stable_order(&pids);
    proof {
        lemma_stable_key_order_bounded(pids@, pids@.len() as int);
    }
    let mut processes: Vec<ProcessSnapshot> = Vec::new();
    let mut k: usize = 0;
    while k < order.len()
        invariant
            k <= order@.len(),
            order@.len() == readings@.len(),
            order@ == stable_key_order(reading_pids(readings@), readings@.len() as int),
            forall|j: int| 0 <= j < order@.len() ==> order@[j] < readings@.len(),
            processes@.len() == k,
            forall|j: int|
                0 <= j < k ==> describes(
                    #[trigger] processes@[j],
                    readings@[order@[j] as int],
                    thread_counts.value@,
                    thread_counts.freshness,
                    services@,
                    match previous {
                        Some(s) => Some(*s),
                        None => None,
                    },
                ),
        decreases order@.len() - k,
    {
        let process = process_from_reading(&readings[order[k]], thread_counts, services, previous);
        processes.push(process);
        k = k + 1;
    }
    proof {
        let keys = reading_pids(readings@);
        let n = readings@.len() as int;
        lemma_stable_key_order_is_a_stable_sort(keys, n);
        assert forall|i: int, j: int| 0 <= i < j < processes@.len() implies #[trigger] processes@[i].pid
            <= #[trigger] processes@[j].pid by {
            assert(keys[order@[i] as int] <= keys[order@[j] as int]);
        }
        assert forall|r: int| #![trigger readings@[r]] 0 <= r < n implies exists|k: int|
            0 <= k < processes@.len() && describes(
                #[trigger] processes@[k],
                readings@[r],
                thread_counts.value@,
                thread_counts.freshness,
                services@,
                match previous {
                    Some(s) => Some(*s),
                    None => None,
                },
            ) by {
            assert(order@.contains(r as usize));
            let k = choose|k: int| 0 <= k < order@.len() && order@[k] == r as usize;
            assert(describes(
                processes@[k],
                readings@[order@[k] as int],
                thread_counts.value@,
                thread_counts.freshness,
                services@,
                match previous {
                    Some(s) => Some(*s),
                    None => None,
                },
            ));
        }
    }
    processes
}

/// The generation number of the next snapshot (saturating).
pub fn next_generation(generation: u64) -> (next: u64)
    ensures
        next == if generation < u64::MAX {
            generation + 1
        } else {
            generation as int
        },
{
    generation.saturating_add(1)
}

/// The commit charge and limit of a refresh: fresh readings when the
/// performance query succeeded; otherwise the previous values (0 without a
/// previous snapshot), stale with the query's error.
pub fn commit_metrics_from(reading: Result<(u64, u64), String>, previous: Option<&Snapshot>) -> (metrics: (
    Metric<u64>,
    Metric<u64>,
))
    ensures
        match reading {
            Ok((charge, limit)) => metrics.0.value == charge && metrics.0.freshness == Freshness::Fresh
                && metrics.1.value == limit && metrics.1.freshness == Freshness::Fresh,
            Err(reason) => {
                &&& metrics.0.value == match previous {
                    Some(s) => s.system.commit_charge_bytes.value,
                    None => 0,
                }
                &&& metrics.1.value == match previous {
                    Some(s) => s.system.commit_limit_bytes.value,
                    None => 0,
                }
                &&& metrics.0.freshness matches Freshness::Stale { reason: r } && r@ == reason@
                &&& metrics.1.freshness matches Freshness::Stale { reason: r } && r@ == reason@
            },
        },
{
    match reading {
        Ok((charge, limit)) => (Metric::fresh(charge), Metric::fresh(limit)),
        Err(reason) => {
            let charge = match previous {
                Some(snapshot) => Some(&snapshot.system.commit_charge_bytes),
                None => None,
            };
            let limit = match previous {
                Some(snapshot) => Some(&snapshot.system.commit_limit_bytes),
                None => None,
            };
            (stale_metric(charge, reason.as_str()), stale_metric(limit, reason.as_str()))
        },
    }
}

/// When a process refresh reports no processes but the previous snapshot
/// had some, the previous list is kept, marked stale; otherwise `None`, and
/// the fresh list is to be used.
pub fn kept_processes(previous: Option<&Snapshot>, updated_processes: usize) -> (kept: Option<
    Metric<Vec<ProcessSnapshot>>,
>)
    ensures
        match previous {
            Some(snapshot) if updated_processes == 0 && snapshot.processes.value@.len() > 0 => {
                &&& kept matches Some(metric)
                &&& metric.value@ == snapshot.processes.value@
                &&& metric.freshness matches Freshness::Stale { reason: r } && r@
                    == "process refresh returned no processes"@
            },
            _ => kept is None,
        },
{
    match previous {
        Some(snapshot) => {
            if updated_processes == 0 && snapshot.processes.value.len() > 0 {
                let processes = snapshot.processes.value.clone();
                assert(processes@ =~= snapshot.processes.value@);
                Some(Metric::stale(processes, "process refresh returned no processes"))
            } else {
                None
            }
        },
        None => None,
    }
}

/// The CPU history of a refresh: the previous history (an empty one of the
/// default capacity without a previous snapshot) with the new sample.
pub fn next_history(previous: Option<&Snapshot>, cpu_percent: Float32) -> (history: History)
    ensures
        ({
            let before = match previous {
                Some(s) => s.history@,
                None => Seq::<HistorySample>::empty(),
            };
            let capacity = match previous {
                Some(s) => s.history.capacity(),
                None => crate::model::HISTORY_CAPACITY,
            };
            &&& history.capacity() == capacity
            &&& before.len() < capacity ==> history@ == before.push(HistorySample { cpu_percent })
            &&& before.len() >= capacity ==> history@ == before.drop_first().push(
                HistorySample { cpu_percent },
            )
        }),
{
    let mut history = match previous {
        Some(snapshot) => snapshot.history.clone(),
        None => History::new(),
    };
    history.push(HistorySample { cpu_percent });
    history
}

/// Copies a list of interfaces.
fn copy_interfaces(interfaces: &Vec<NetworkInterfaceSnapshot>) -> (copy: Vec<NetworkInterfaceSnapshot>)
    ensures
        copy@ == interfaces@,
{
    let copy = interfaces.clone();
    assert(copy@ =~= interfaces@);
    copy
}

/// Copies a list of adapters.
fn copy_adapters(adapters: &Vec<GpuAdapterSnapshot>) -> (copy: Vec<GpuAdapterSnapshot>)
    ensures
        copy@ == adapters@,
{
    let copy = adapters.clone();
    assert(copy@ =~= adapters@);
    copy
}

/// The previous network readings, all marked stale with `reason`.
pub fn stale_network_snapshot(previous: &NetworkSnapshot, reason: &str) -> (network: NetworkSnapshot)
    ensures
        network.interfaces.value@ == previous.interfaces.value@,
        network.total_transmit_bytes_per_second.value
            == previous.total_transmit_bytes_per_second.value,
        network.total_receive_bytes_per_second.value
            == previous.total_receive_bytes_per_second.value,
        network.interfaces.freshness matches Freshness::Stale { reason: r } && r@ == reason@,
        network.total_transmit_bytes_per_second.freshness matches Freshness::Stale { reason: r }
            && r@ == reason@,
        network.total_receive_bytes_per_second.freshness matches Freshness::Stale { reason: r }
            && r@ == reason@,
{
    NetworkSnapshot {
        interfaces: Metric::stale(copy_interfaces(&previous.interfaces.value), reason),
        total_transmit_bytes_per_second: Metric::stale(
            previous.total_transmit_bytes_per_second.value,
            reason,
        ),
        total_receive_bytes_per_second: Metric::stale(
            previous.total_receive_bytes_per_second.value,
            reason,
        ),
    }
}

/// The network snapshot of a refresh whose interface query failed: the
/// previous readings, or no interfaces and no totals, all stale.
pub fn network_unavailable(previous: Option<&Snapshot>, reason: &str) -> (network: NetworkSnapshot)
    ensures
        match previous {
            Some(s) => {
                &&& network.interfaces.value@ == s.system.network.interfaces.value@
                &&& network.total_transmit_bytes_per_second.value
                    == s.system.network.total_transmit_bytes_per_second.value
                &&& network.total_receive_bytes_per_second.value
                    == s.system.network.total_receive_bytes_per_second.value
            },
            None => {
                &&& network.interfaces.value@.len() == 0
                &&& network.total_transmit_bytes_per_second.value is None
                &&& network.total_receive_bytes_per_second.value is None
            },
        },
        network.interfaces.freshness matches Freshness::Stale { reason: r } && r@ == reason@,
        network.total_transmit_bytes_per_second.freshness matches Freshness::Stale { reason: r }
            && r@ == reason@,
        network.total_receive_bytes_per_second.freshness matches Freshness::Stale { reason: r }
            && r@ == reason@,
{
    match previous {
        Some(snapshot) => stale_network_snapshot(&snapshot.system.network, reason),
        None => NetworkSnapshot {
            interfaces: Metric::stale(Vec::new(), reason),
            total_transmit_bytes_per_second: Metric::stale(None, reason),
            total_receive_bytes_per_second: Metric::stale(None, reason),
        },
    }
}

/// The GPU snapshot of a refresh whose utilization query failed: the
/// previous adapters (none without a previous snapshot), stale.
pub fn gpu_unavailable(previous: Option<&Snapshot>, reason: &str) -> (gpu: GpuSnapshot)
    ensures
        gpu.adapters.value@ == match previous {
            Some(s) => s.system.gpu.adapters.value@,
            None => Seq::<GpuAdapterSnapshot>::empty(),
        },
        gpu.adapters.freshness matches Freshness::Stale { reason: r } && r@ == reason@,
{
    match previous {
        Some(snapshot) => GpuSnapshot {
            adapters: Metric::stale(copy_adapters(&snapshot.system.gpu.adapters.value), reason),
        },
        None => GpuSnapshot { adapters: Metric::stale(Vec::new(), reason) },
    }
}

/// A hardware GPU adapter as DXGI describes it.
#[derive(Clone, Debug)]
pub struct GpuAdapterDescription {
    /// DXGI adapter LUID packed into a stable 64-bit identifier.
    pub id: u64,
    pub name: String,
    pub dedicated_memory_capacity_bytes: Option<u64>,
    pub shared_memory_capacity_bytes: Option<u64>,
}

/// A memory capacity reported by DXGI: known only when non-zero.
pub fn reported_capacity(bytes: usize) -> (capacity: Option<u64>)
    ensures
        capacity == if bytes > 0 {
            Some(bytes as u64)
        } else {
            None::<u64>
        },
{
    if bytes > 0 {
        Some(bytes as u64)
    } else {
        None
    }
}

/// `snapshot` reports adapter `adapter` with the given readings, all fresh.
pub open spec fn reports_adapter(
    snapshot: GpuAdapterSnapshot,
    adapter: GpuAdapterDescription,
    utilization: Map<u64, Float32>,
    dedicated: Map<u64, u64>,
    shared: Map<u64, u64>,
) -> bool {
    &&& snapshot.id == adapter.id
    &&& snapshot.name == adapter.name
    &&& snapshot.utilization_percent == Metric::<Option<Float32>> {
        value: lookup(utilization, adapter.id),
        freshness: Freshness::Fresh,
    }
    &&& snapshot.dedicated_memory_used_bytes == Metric::<Option<u64>> {
        value: lookup(dedicated, adapter.id),
        freshness: Freshness::Fresh,
    }
    &&& snapshot.dedicated_memory_capacity_bytes == Metric::<Option<u64>> {
        value: adapter.dedicated_memory_capacity_bytes,
        freshness: Freshness::Fresh,
    }
    &&& snapshot.shared_memory_used_bytes == Metric::<Option<u64>> {
        value: lookup(shared, adapter.id),
        freshness: Freshness::Fresh,
    }
    &&& snapshot.shared_memory_capacity_bytes == Metric::<Option<u64>> {
        value: adapter.shared_memory_capacity_bytes,
        freshness: Freshness::Fresh,
    }
}

fn lookup_copy<V: Copy>(map: &HashMap<u64, V>, key: u64) -> (value: Option<V>)
    ensures
        value == lookup(map@, key),
{
    broadcast use vstd::std_specs::hash::group_hash_axioms;

    match map.get(&key) {
        Some(v) => Some(*v),
        None => None,
    }
}

/// The GPU snapshot of a successful refresh: every adapter, in discovery
/// order, with the utilization and memory readings found for its identity.
pub fn gpu_snapshot(
    adapters: &Vec<GpuAdapterDescription>,
    utilization: &HashMap<u64, Float32>,
    dedicated: &HashMap<u64, u64>,
    shared: &HashMap<u64, u64>,
) -> (gpu: GpuSnapshot)
    ensures
        gpu.adapters.freshness == Freshness::Fresh,
        gpu.adapters.value@.len() == adapters@.len(),
        forall|i: int|
            0 <= i < adapters@.len() ==> reports_adapter(
                #[trigger] gpu.adapters.value@[i],
                adapters@[i],
                utilization@,
                dedicated@,
                shared@,
            ),
{
    let mut list: Vec<GpuAdapterSnapshot> = Vec::new();
    let mut i: usize = 0;
    while i < adapters.len()
        invariant
            i <= adapters@.len(),
            list@.len() == i,
            forall|j: int|
                0 <= j < i ==> reports_adapter(
                    #[trigger] list@[j],
                    adapters@[j],
                    utilization@,
                    dedicated@,
                    shared@,
                ),
        decreases adapters@.len() - i,
    {
        let adapter = &adapters[i];
        list.push(
            GpuAdapterSnapshot {
                id: adapter.id,
                name: adapter.name.clone(),
                utilization_percent: Metric::fresh(lookup_copy(utilization, adapter.id)),
                dedicated_memory_used_bytes: Metric::fresh(lookup_copy(dedicated, adapter.id)),
                dedicated_memory_capacity_bytes: Metric::fresh(
                    adapter.dedicated_memory_capacity_bytes,
                ),
                shared_memory_used_bytes: Metric::fresh(lookup_copy(shared, adapter.id)),
                shared_memory_capacity_bytes: Metric::fresh(adapter.shared_memory_capacity_bytes),
            },
        );
        i = i + 1;
    }
    GpuSnapshot { adapters: Metric::fresh(list) }
}

} // verus!
