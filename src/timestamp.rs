use vstd::prelude::*;

verus! {

/// The value of a nonempty run of ASCII digits.
pub open spec fn digits_value(s: Seq<char>) -> int
    decreases s.len(),
{
    if s.len() == 0 {
        0
    } else {
        digits_value(s.drop_last()) * 10 + (s.last() as int - '0' as int)
    }
}

pub open spec fn all_digits(s: Seq<char>) -> bool {
    &&& s.len() > 0
    &&& forall|i: int| 0 <= i < s.len() ==> '0' <= #[trigger] s[i] <= '9'
}

/// The integer that `s` writes in decimal, with an optional sign.
pub open spec fn decimal_value(s: Seq<char>) -> Option<int> {
    if s.len() > 0 && (s[0] == '-' || s[0] == '+') {
        if all_digits(s.drop_first()) {
            Some(if s[0] == '-' { -digits_value(s.drop_first()) } else { digits_value(s.drop_first()) })
        } else {
            None
        }
    } else if all_digits(s) {
        Some(digits_value(s))
    } else {
        None
    }
}

/// A count of seconds since the Unix epoch, written in decimal, that fits in
/// an `i64`.
pub open spec fn epoch_seconds(s: Seq<char>) -> Option<int> {
    match decimal_value(s) {
        Some(v) => if i64::MIN <= v <= i64::MAX {
            Some(v)
        } else {
            None
        },
        None => None,
    }
}

/// The text `YYYY-MM-DD HH:MM:SS` of the UTC instant `secs` seconds after
/// the Unix epoch; `None` where the calendar has no such instant.
pub uninterp spec fn utc_text(secs: int) -> Option<Seq<char>>;

/// The first and the last second of the years 1 to 9999.
pub open spec fn in_common_era(secs: int) -> bool {
    -62135596800 <= secs <= 253402300799
}

/// Seconds whose day count falls outside `i32`, which the calendar rejects
/// before anything else.
pub open spec fn day_out_of_range(secs: int) -> bool {
    secs / 86400 + 719163 > i32::MAX || secs / 86400 + 719163 < i32::MIN
}

/// Relies on chrono's `DateTime::from_timestamp`, which returns `None` only
/// for seconds out of its range (at least the years 1 to 9999 are in it, and
/// a day count outside `i32` is not), and on `DateTime::format`, which writes
/// the instant with the pattern `%Y-%m-%d %H:%M:%S`.
#[verifier::external_body]
fn format_utc(secs: i64) -> (r: Option<String>)
    ensures
        r matches Some(t) ==> utc_text(secs as int) == Some(t@),
        r is None ==> utc_text(secs as int) is None,
        in_common_era(secs as int) ==> r is Some,
        day_out_of_range(secs as int) ==> r is None,
{
    match chrono::DateTime::from_timestamp(secs, 0) {
        Some(d) => Some(d.format("%Y-%m-%d %H:%M:%S").to_string()),
        None => None,
    }
}

/// The formatted UTC time of a decimal timestamp, if it is one the calendar has.
pub open spec fn epoch_text(s: Seq<char>) -> Option<Seq<char>> {
    match epoch_seconds(s) {
        Some(v) => utc_text(v),
        None => None,
    }
}

proof fn lemma_digits_bound(s: Seq<char>)
    requires
        forall|i: int| 0 <= i < s.len() ==> '0' <= #[trigger] s[i] <= '9',
    ensures
        digits_value(s) >= 0,
    decreases s.len(),
{
    if s.len() > 0 {
        lemma_digits_bound(s.drop_last());
    }
}

/// Appending digits never makes the value smaller.
proof fn lemma_prefix_le(s: Seq<char>, m: int)
    requires
        0 <= m <= s.len(),
        forall|i: int| 0 <= i < s.len() ==> '0' <= #[trigger] s[i] <= '9',
    ensures
        digits_value(s.take(m)) <= digits_value(s),
    decreases s.len(),
{
    if m < s.len() {
        lemma_prefix_le(s.drop_last(), m);
        lemma_digits_bound(s.drop_last());
        assert(s.drop_last().take(m) =~= s.take(m));
    } else {
        assert(s.take(m) =~= s);
    }
}

/// Reads `s` as a decimal count of seconds that fits in an `i64`.
pub fn parse_epoch(s: &String) -> (r: Option<i64>)
    ensures
        r matches Some(v) ==> epoch_seconds(s@) == Some(v as int),
        r is None ==> epoch_seconds(s@) is None,
{
    let text = s.as_str();
    let n = text.unicode_len();
    if n == 0 {
        return None;
    }
    let first = text.get_char(0);
    let negative = first == '-';
    let start: usize = if first == '-' || first == '+' { 1 } else { 0 };
    if start == n {
        return None;
    }
    let ghost digits = s@.subrange(start as int, n as int);
    proof {
        if start == 1 {
            assert(s@.drop_first() =~= digits);
        } else {
            assert(s@ =~= digits);
        }
    }
    // the magnitude read so far, at most 2^63
    let limit: u128 = 9223372036854775808u128;
    let mut acc: u128 = 0;
    let mut i: usize = start;
    while i < n
        invariant
            start <= i <= n,
            n == s@.len(),
            text@ == s@,
            s@[0] == first,
            start == (if first == '-' || first == '+' { 1usize } else { 0usize }),
            negative == (first == '-'),
            digits == s@.subrange(start as int, n as int),
            forall|j: int| start <= j < i ==> '0' <= #[trigger] s@[j] <= '9',
            acc as int == digits_value(digits.take(i - start)),
            acc <= limit,
            limit == 9223372036854775808u128,
            start == 1 ==> s@.drop_first() == digits,
            start == 0 ==> s@ == digits,
        decreases n - i,
    {
        let c = text.get_char(i);
        if c < '0' || c > '9' {
            proof {
                assert(digits[i - start] == c);
                assert(!all_digits(digits));
                assert(s@[0] == first);
            }
            return None;
        }
        let d: u128 = (c as u32 - '0' as u32) as u128;
        assert(d <= 9);
        proof {
            assert(digits.take(i + 1 - start).drop_last() =~= digits.take(i - start));
        }
        let next: u128 = acc * 10 + d;
        if next > limit {
            proof {
                let m = i + 1 - start;
                assert(digits_value(digits.take(m)) == next);
                if forall|j: int| 0 <= j < digits.len() ==> '0' <= #[trigger] digits[j] <= '9' {
                    lemma_prefix_le(digits, m);
                }
            }
            return None;
        }
        acc = next;
        i = i + 1;
    }
    proof {
        assert(digits.take(n - start) =~= digits);
    }
    if negative {
        Some((0i128 - acc as i128) as i64)
    } else if acc <= 9223372036854775807u128 {
        Some(acc as i64)
    } else {
        None
    }
}

/// The UTC date and time, as `YYYY-MM-DD HH:MM:SS`, of a timestamp written as
/// decimal seconds since the Unix epoch. `None` exactly when the text is no
/// `i64` or the calendar has no such instant; never `None` for a second of
/// the years 1 to 9999.
pub fn epoch_to_dt(e: &String) -> (r: Option<String>)
    ensures
        r matches Some(t) ==> epoch_text(e@) == Some(t@),
        r is None <==> epoch_text(e@) is None,
        epoch_seconds(e@) is None ==> r is None,
        epoch_seconds(e@) is Some && in_common_era(epoch_seconds(e@)->0) ==> (r matches Some(t)
            && utc_text(epoch_seconds(e@)->0) == Some(t@)),
        epoch_seconds(e@) is Some && day_out_of_range(epoch_seconds(e@)->0) ==> r is None,
{
    match parse_epoch(e) {
        Some(secs) => format_utc(secs),
        None => None,
    }
}

} // verus!
