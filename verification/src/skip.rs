//! The skip-time argument: how much of the start of each file to discard.

use vstd::prelude::*;
use crate::error::PolarWarpError;

verus! {

/// A configured skip duration, in whole seconds or whole minutes.
#[derive(Clone, Copy, Debug, PartialEq, Eq, Structural)]
pub enum SkipTime {
    Seconds(u64),
    Minutes(u64),
}

impl SkipTime {
    /// The skip duration in seconds, as a mathematical integer.
    pub open spec fn seconds_spec(self) -> int {
        match self {
            SkipTime::Seconds(s) => s as int,
            SkipTime::Minutes(m) => m as int * 60,
        }
    }

    /// The skip duration in nanoseconds, as a mathematical integer.
    pub open spec fn nanos_spec(self) -> int {
        self.seconds_spec() * 1_000_000_000
    }

    /// The skip duration as a standard `Duration`.
    pub fn as_duration(&self) -> core::time::Duration
        requires
            self.seconds_spec() <= u64::MAX,
    {
        match self {
            SkipTime::Seconds(s) => duration_from_secs(*s),
            SkipTime::Minutes(m) => duration_from_secs(*m * 60),
        }
    }
}

/// Relies on core::time::Duration::from_secs to build the duration value;
/// `Duration` is opaque here, so nothing is stated of the result.
#[verifier::external_body]
fn duration_from_secs(secs: u64) -> core::time::Duration {
    core::time::Duration::from_secs(secs)
}

/// Whether `c` is a decimal digit.
pub open spec fn is_digit_char(c: char) -> bool {
    48 <= c as u32 <= 57
}

/// The numeric value of a digit character.
pub open spec fn digit_value(c: char) -> int {
    c as u32 - 48
}

/// Whether every character of `s` is a decimal digit.
pub open spec fn all_digits(s: Seq<char>) -> bool {
    forall|i: int| 0 <= i < s.len() ==> is_digit_char(#[trigger] s[i])
}

/// The number that a digit sequence denotes in base ten.
pub open spec fn digits_value(s: Seq<char>) -> int
    decreases s.len(),
{
    if s.len() == 0 {
        0
    } else {
        digits_value(s.drop_last()) * 10 + digit_value(s.last())
    }
}

/// Whether `s` is a well-formed skip argument: one or more digits followed
/// by the unit `s` (seconds) or `m` (minutes).
pub open spec fn well_formed_skip(s: Seq<char>) -> bool {
    &&& s.len() >= 2
    &&& (s.last() == 's' || s.last() == 'm')
    &&& all_digits(s.drop_last())
}

/// The skip value that a well-formed argument denotes.
pub open spec fn parsed_skip(s: Seq<char>) -> SkipTime {
    if s.last() == 's' {
        SkipTime::Seconds(digits_value(s.drop_last()) as u64)
    } else {
        SkipTime::Minutes(digits_value(s.drop_last()) as u64)
    }
}

proof fn lemma_digits_value_nonneg(s: Seq<char>)
    requires
        all_digits(s),
    ensures
        digits_value(s) >= 0,
    decreases s.len(),
{
    if s.len() > 0 {
        assert(all_digits(s.drop_last()));
        lemma_digits_value_nonneg(s.drop_last());
    }
}

proof fn lemma_digits_value_prefix_le(s: Seq<char>, i: int)
    requires
        all_digits(s),
        0 <= i <= s.len(),
    ensures
        digits_value(s.take(i)) <= digits_value(s),
    decreases s.len() - i,
{
    if i < s.len() {
        lemma_digits_value_prefix_le(s, i + 1);
        let t = s.take(i + 1);
        assert(t.drop_last() =~= s.take(i));
        assert(t.last() == s[i]);
        assert(all_digits(s.take(i)));
        lemma_digits_value_nonneg(s.take(i));
        assert(digits_value(s.take(i)) <= digits_value(s.take(i + 1)));
    } else {
        assert(s.take(i) =~= s);
    }
}

/// Parse a skip argument such as `90s` or `5m`.
///
/// Returns the denoted skip value exactly when the argument is one or more
/// digits followed by `s` or `m` and the number fits in a `u64`; otherwise
/// returns `InvalidSkipTimeFormat` carrying the argument.
pub fn parse_skip_time(skip_str: &str) -> (r: Result<SkipTime, PolarWarpError>)
    ensures
        match r {
            Ok(st) => well_formed_skip(skip_str@) && digits_value(skip_str@.drop_last())
                <= u64::MAX && st == parsed_skip(skip_str@),
            Err(e) => (!well_formed_skip(skip_str@) || digits_value(skip_str@.drop_last())
                > u64::MAX) && (e matches PolarWarpError::InvalidSkipTimeFormat(raw)
                && raw@ == skip_str@),
        },
{
    let ghost s = skip_str@;
    let n = skip_str.unicode_len();
    if n < 2 {
        return Err(PolarWarpError::InvalidSkipTimeFormat(skip_str.to_owned()));
    }
    let unit = skip_str.get_char(n - 1);
    if !(unit == 's' || unit == 'm') {
        return Err(PolarWarpError::InvalidSkipTimeFormat(skip_str.to_owned()));
    }
    let ghost digits = s.drop_last();
    proof {
        assert(digits =~= s.take(n - 1 as int));
        assert(digits.len() == n - 1);
    }
    let mut value: u64 = 0;
    let mut i: usize = 0;
    while i < n - 1
        invariant
            s == skip_str@,
            n == s.len(),
            n >= 2,
            digits == s.take(n - 1 as int),
            digits.len() == n - 1,
            0 <= i <= n - 1,
            all_digits(digits.take(i as int)),
            value == digits_value(digits.take(i as int)),
        decreases n - 1 - i,
    {
        let c = skip_str.get_char(i);
        let cv = c as u32;
        if cv < 48 || cv > 57 {
            assert(!is_digit_char(s[i as int]));
            assert(s[i as int] == digits[i as int]);
            assert(!all_digits(digits));
            return Err(PolarWarpError::InvalidSkipTimeFormat(skip_str.to_owned()));
        }
        let d = (cv - 48) as u64;
        proof {
            let t = digits.take(i + 1 as int);
            assert(t.drop_last() =~= digits.take(i as int));
            assert(t.last() == digits[i as int]);
            assert(digits[i as int] == s[i as int]);
        }
        if value > (u64::MAX - d) / 10 {
            proof {
                assert(digits_value(digits.take(i + 1 as int)) == value * 10 + d);
                assert(digits_value(digits.take(i + 1 as int)) > u64::MAX);
                if all_digits(digits) {
                    lemma_digits_value_prefix_le(digits, i + 1 as int);
                    assert(digits_value(digits) > u64::MAX);
                }
            }
            return Err(PolarWarpError::InvalidSkipTimeFormat(skip_str.to_owned()));
        }
        value = value * 10 + d;
        i += 1;
    }
    proof {
        assert(digits.take(i as int) =~= digits);
        assert(well_formed_skip(s));
    }
    if unit == 's' {
        Ok(SkipTime::Seconds(value))
    } else {
        Ok(SkipTime::Minutes(value))
    }
}

} // verus!
