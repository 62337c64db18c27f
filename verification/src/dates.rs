//! Date-range bounds: the `YYYY-M-D` shape check the report command runs on
//! both bounds before touching the network. The check is syntactic only —
//! calendar validity (a 31st in a 30-day month) is deliberately not checked.

use crate::digits::{int_parse, IntParseError, parse_i32_field};
use vstd::prelude::*;
use vstd::string::StrSliceExecFns;

verus! {

/// How many characters at the front of `s` come before the first dash.
pub open spec fn leading_non_dash(s: Seq<char>) -> nat
    decreases s.len(),
{
    if s.len() > 0 && s[0] != '-' {
        (1 + leading_non_dash(s.drop_first())) as nat
    } else {
        0
    }
}

/// A dash-free run ending at a dash (or the end) pins down
/// `leading_non_dash`.
pub proof fn lemma_leading_non_dash(s: Seq<char>, k: int)
    requires
        0 <= k <= s.len(),
        forall|j: int| 0 <= j < k ==> #[trigger] s[j] != '-',
        k == s.len() || s[k] == '-',
    ensures
        leading_non_dash(s) == k,
    decreases s.len(),
{
    if k > 0 {
        lemma_leading_non_dash(s.drop_first(), k - 1);
    }
}

/// Split on dashes into exactly three parts, as `split('-')` yields them;
/// any other number of parts is a shape violation.
pub open spec fn dash_split3(s: Seq<char>) -> Option<(Seq<char>, Seq<char>, Seq<char>)> {
    let i = leading_non_dash(s) as int;
    if i == s.len() {
        None
    } else {
        let rest1 = s.skip(i + 1);
        let j = leading_non_dash(rest1) as int;
        if j == rest1.len() {
            None
        } else {
            let rest2 = rest1.skip(j + 1);
            let k = leading_non_dash(rest2) as int;
            if k != rest2.len() {
                None
            } else {
                Some((s.take(i), rest1.take(j), rest2))
            }
        }
    }
}

/// Why a date bound was rejected.
#[derive(Clone, Copy, Debug, PartialEq, Eq, Structural)]
pub enum DateError {
    /// Not exactly three dash-separated parts.
    Shape,
    /// A part is not a well-formed number.
    Num(IntParseError),
    /// The year is outside the accepted window.
    Year,
    /// The month is outside 1..=12.
    Month,
    /// The day is outside 1..=31.
    Day,
}

/// The one-line diagnostic for each rejection.
pub open spec fn date_error_text(e: DateError) -> Seq<char> {
    match e {
        DateError::Shape => "Date must be in YYYY-M-D format"@,
        DateError::Num(IntParseError::Empty) => "cannot parse integer from empty string"@,
        DateError::Num(IntParseError::BadDigit) => "invalid digit found in string"@,
        DateError::Num(IntParseError::TooLarge) => "number too large to fit in target type"@,
        DateError::Num(IntParseError::TooSmall) => "number too small to fit in target type"@,
        DateError::Year => "Year must be between 2010 and 2100"@,
        DateError::Month => "Month must be between 1 and 12"@,
        DateError::Day => "Day must be between 1 and 31"@,
    }
}

impl DateError {
    /// Render the diagnostic line for this rejection.
    pub fn message(&self) -> (r: String)
        ensures
            r@ == date_error_text(*self),
    {
        match self {
            DateError::Shape => "Date must be in YYYY-M-D format".to_owned(),
            DateError::Num(IntParseError::Empty) => "cannot parse integer from empty string".to_owned(),
            DateError::Num(IntParseError::BadDigit) => "invalid digit found in string".to_owned(),
            DateError::Num(IntParseError::TooLarge) => "number too large to fit in target type".to_owned(),
            DateError::Num(IntParseError::TooSmall) => "number too small to fit in target type".to_owned(),
            DateError::Year => "Year must be between 2010 and 2100".to_owned(),
            DateError::Month => "Month must be between 1 and 12".to_owned(),
            DateError::Day => "Day must be between 1 and 31".to_owned(),
        }
    }
}

/// The whole check: three parts, each a well-formed `i32`, the year in
/// 2000..=3000, the month in 1..=12, the day in 1..=31, in that order.
pub open spec fn range_validate_spec(s: Seq<char>) -> Result<(), DateError> {
    match dash_split3(s) {
        None => Err(DateError::Shape),
        Some(parts) => match int_parse(parts.0, i32::MIN as int, i32::MAX as int) {
            Err(e) => Err(DateError::Num(e)),
            Ok(year) => match int_parse(parts.1, i32::MIN as int, i32::MAX as int) {
                Err(e) => Err(DateError::Num(e)),
                Ok(month) => match int_parse(parts.2, i32::MIN as int, i32::MAX as int) {
                    Err(e) => Err(DateError::Num(e)),
                    Ok(day) => {
                        if year < 2000 || year > 3000 {
                            Err(DateError::Year)
                        } else if month < 1 || month > 12 {
                            Err(DateError::Month)
                        } else if day < 1 || day > 31 {
                            Err(DateError::Day)
                        } else {
                            Ok(())
                        }
                    },
                },
            },
        },
    }
}

/// Scan past the dash-free run starting at `from`.
fn scan_non_dash(s: &str, from: usize) -> (end: usize)
    requires
        from <= s@.len(),
    ensures
        from <= end <= s@.len(),
        end - from == leading_non_dash(s@.skip(from as int)),
        end == s@.len() || s@[end as int] == '-',
{
    let len = s.unicode_len();
    let mut i = from;
    while i < len && s.get_char(i) != '-'
        invariant
            from <= i <= len,
            len == s@.len(),
            forall|t: int| from <= t < i ==> s@[t] != '-',
        decreases len - i,
    {
        i = i + 1;
    }
    proof {
        lemma_leading_non_dash(s@.skip(from as int), i - from);
    }
    i
}

/// Validate one date bound against the `YYYY-M-D` shape: exactly three
/// dash-separated numeric parts within the accepted windows. Nothing of
/// calendar validity is checked, by design.
pub fn range_format_validate(date: &str) -> (r: Result<(), DateError>)
    ensures
        r == range_validate_spec(date@),
{
    let len = date.unicode_len();
    let i = scan_non_dash(date, 0);
    proof {
        assert(date@.skip(0) =~= date@);
    }
    if i == len {
        return Err(DateError::Shape);
    }
    let j = scan_non_dash(date, i + 1);
    let ghost rest1 = date@.skip(i + 1);
    proof {
        assert(rest1 =~= date@.skip(i as int + 1));
        assert(j - (i + 1) == leading_non_dash(rest1));
    }
    if j == len {
        proof {
            assert(j - (i + 1) == rest1.len());
        }
        return Err(DateError::Shape);
    }
    let k = scan_non_dash(date, j + 1);
    let ghost rest2 = rest1.skip(j - i);
    proof {
        assert(rest2 =~= date@.skip(j as int + 1));
        assert(k - (j + 1) == leading_non_dash(rest2));
        assert(j - (i + 1) < rest1.len());
    }
    if k < len {
        proof {
            assert(k - (j + 1) < rest2.len());
        }
        return Err(DateError::Shape);
    }
    let year_part = date.substring_char(0, i);
    let month_part = date.substring_char(i + 1, j);
    let day_part = date.substring_char(j + 1, len);
    proof {
        assert(year_part@ =~= date@.take(i as int));
        assert(month_part@ =~= rest1.take(j - (i + 1)));
        assert(day_part@ =~= rest2);
        assert(k - (j + 1) == rest2.len());
    }
    let year = match parse_i32_field(year_part) {
        Ok(v) => v,
        Err(e) => {
            return Err(DateError::Num(e));
        },
    };
    let month = match parse_i32_field(month_part) {
        Ok(v) => v,
        Err(e) => {
            return Err(DateError::Num(e));
        },
    };
    let day = match parse_i32_field(day_part) {
        Ok(v) => v,
        Err(e) => {
            return Err(DateError::Num(e));
        },
    };
    if year < 2000 || year > 3000 {
        return Err(DateError::Year);
    }
    if month < 1 || month > 12 {
        return Err(DateError::Month);
    }
    if day < 1 || day > 31 {
        return Err(DateError::Day);
    }
    Ok(())
}

} // verus!
