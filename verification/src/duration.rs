//! Duration expressions: parsing the compact `<hours>h<minutes>m` form,
//! validating it against the configured ceilings, and encoding the result as
//! the fixed-epoch wire timestamp the work system expects.

use crate::digits::{
    all_digits, dec_digits, dec_string, dec_value, is_digit, leading_digit_count,
    lemma_dec_digits_wf, lemma_dec_value_nonneg, lemma_dec_value_of_digits, lemma_dec_value_two,
    lemma_leading_digit_count, scan_digits, two_digits,
};
use chrono::TimeZone;
use vstd::prelude::*;
use vstd::string::StrSliceExecFns;
use vstd::string::StringExecFns;

verus! {

/// Hour ceiling of the default deployment profile: a duration may name at
/// most this many whole hours.
pub const MAX_HOURS: u64 = 19;

/// Why a duration expression was rejected.
#[derive(Clone, Copy, Debug, PartialEq, Eq, Structural)]
pub enum TimeError {
    /// The expression does not match the `<digits>h<digits>m` grammar.
    Format,
    /// Hours or minutes exceed their ceiling; the bounds carried are the
    /// first values no longer allowed.
    Range { hours_bound: u64, minutes_bound: u64 },
    /// The expression is well formed but names no time at all.
    Zero,
}

/// The one-line diagnostic for each rejection.
pub open spec fn time_error_text(e: TimeError) -> Seq<char> {
    match e {
        TimeError::Format => "Invalid time format. Please use optional hh and/or mm"@,
        TimeError::Range { hours_bound, minutes_bound } => "Invalid time format. Values must be below "@
            + dec_digits(hours_bound as int) + " for hours, "@ + dec_digits(minutes_bound as int)
            + " for minutes"@,
        TimeError::Zero => "Time worked must be greater than 0 minutes"@,
    }
}

impl TimeError {
    /// Render the diagnostic line for this rejection.
    pub fn message(&self) -> (r: String)
        ensures
            r@ == time_error_text(*self),
    {
        match self {
            TimeError::Format => "Invalid time format. Please use optional hh and/or mm".to_owned(),
            TimeError::Range { hours_bound, minutes_bound } => {
                let r = "Invalid time format. Values must be below ".to_owned().concat(
                    dec_string(*hours_bound).as_str(),
                ).concat(" for hours, ").concat(dec_string(*minutes_bound).as_str()).concat(
                    " for minutes",
                );
                assert(r@ =~= time_error_text(*self));
                r
            },
            TimeError::Zero => "Time worked must be greater than 0 minutes".to_owned(),
        }
    }
}

/// A validated duration: whole hours and minutes, at least one of them
/// positive once validated.
#[derive(Clone, Copy, Debug, PartialEq, Eq, Structural)]
pub struct Duration {
    pub hours: u64,
    pub minutes: u64,
}

impl Duration {
    pub open spec fn total_seconds(self) -> int {
        self.hours * 3600 + self.minutes * 60
    }

    /// What parsing under a ceiling guarantees of its result.
    pub open spec fn wf(self, max_hours: int) -> bool {
        &&& self.hours <= max_hours
        &&& self.minutes <= 59
        &&& self.total_seconds() > 0
    }
}

/// Split off the `<digits>h` segment: the hour digits if the segment is
/// present, and whatever follows it.
pub open spec fn hours_split(s: Seq<char>) -> (Option<Seq<char>>, Seq<char>) {
    let k = leading_digit_count(s) as int;
    if k > 0 && k < s.len() && s[k] == 'h' {
        (Some(s.take(k)), s.skip(k + 1))
    } else {
        (None, s)
    }
}

/// The duration grammar: an optional `<digits>h`, then an optional
/// `<digits>m`, nothing else, with at least one segment present — omitting
/// both is a grammar violation. Yields the two numeric values (an absent
/// segment counts zero), or nothing where the grammar is violated.
pub open spec fn duration_parts(s: Seq<char>) -> Option<(int, int)> {
    let hp = hours_split(s);
    let rest = hp.1;
    let hours = match hp.0 {
        Some(hd) => dec_value(hd),
        None => 0,
    };
    let k = leading_digit_count(rest) as int;
    if rest.len() == 0 {
        match hp.0 {
            Some(hd) => Some((dec_value(hd), 0)),
            None => None,
        }
    } else if k > 0 && k + 1 == rest.len() && rest[k] == 'm' {
        Some((hours, dec_value(rest.take(k))))
    } else {
        None
    }
}

/// The wire form of a duration under 24 hours: the epoch date, then the
/// zero-padded hour, minute and second of day.
pub open spec fn wire_timestamp(total: int) -> Seq<char>
    recommends
        0 <= total < 86400,
{
    "1970-01-01+"@ + two_digits(total / 3600) + ":"@ + two_digits((total % 3600) / 60) + ":"@
        + two_digits(total % 60)
}

/// Relies on chrono's `TimeZone::timestamp_opt` on `Utc` and on
/// `DateTime::format` with `"%Y-%m-%d+%H:%M:%S"`: a second offset in
/// `[0, 86400)` is in range (`Single`), falls on 1970-01-01, and renders as
/// that date plus the zero-padded two-digit hour, minute and second of day.
#[verifier::external_body]
fn format_epoch_offset(secs: u32) -> (r: String)
    requires
        secs < 86400,
    ensures
        r@ == wire_timestamp(secs as int),
{
    chrono::Utc.timestamp_opt(secs as i64, 0).unwrap().format("%Y-%m-%d+%H:%M:%S").to_string()
}

/// Parse and validate a duration expression against the given hour ceiling.
///
/// Grammar violations are `Format`, ceiling violations `Range` (naming both
/// bounds), and a well-formed expression worth zero seconds `Zero`.
pub fn parse_duration(time: &str, max_hours: u64) -> (r: Result<Duration, TimeError>)
    requires
        1 <= max_hours <= 23,
    ensures
        match duration_parts(time@) {
            None => r is Err && r->Err_0 == TimeError::Format,
            Some(hm) => {
                if hm.0 > max_hours || hm.1 > 59 {
                    r is Err && r->Err_0 == (TimeError::Range {
                        hours_bound: (max_hours + 1) as u64,
                        minutes_bound: 60u64,
                    })
                } else if hm.0 * 3600 + hm.1 * 60 == 0 {
                    r is Err && r->Err_0 == TimeError::Zero
                } else {
                    &&& r is Ok
                    &&& r->Ok_0.hours == hm.0
                    &&& r->Ok_0.minutes == hm.1
                    &&& r->Ok_0.wf(max_hours as int)
                }
            },
        },
{
    let len = time.unicode_len();
    let (hend, hv) = scan_digits(time, 0, 1000);
    proof {
        assert(time@.skip(0) =~= time@);
        assert(time@.subrange(0, hend as int) =~= time@.take(hend as int));
        assert(all_digits(time@.take(hend as int)));
        lemma_dec_value_nonneg(time@.take(hend as int));
    }
    let hours_present = hend > 0 && hend < len && time.get_char(hend) == 'h';
    let mstart = if hours_present {
        hend + 1
    } else {
        0
    };
    let hval: u128 = if hours_present {
        hv
    } else {
        0
    };
    let ghost rest = hours_split(time@).1;
    proof {
        assert(rest =~= time@.skip(mstart as int));
    }
    let (mend, mv) = scan_digits(time, mstart, 1000);
    proof {
        assert(rest.take(mend - mstart) =~= time@.subrange(mstart as int, mend as int));
        assert(all_digits(time@.subrange(mstart as int, mend as int)));
        lemma_dec_value_nonneg(time@.subrange(mstart as int, mend as int));
    }
    let minutes_present = mend > mstart && len - mend == 1 && time.get_char(mend) == 'm';
    let mval: u128 = if minutes_present {
        mv
    } else {
        0
    };
    if !((mstart == len && hours_present) || minutes_present) {
        return Err(TimeError::Format);
    }
    if hval > max_hours as u128 || mval > 59 {
        return Err(TimeError::Range { hours_bound: max_hours + 1, minutes_bound: 60 });
    }
    if hval == 0 && mval == 0 {
        return Err(TimeError::Zero);
    }
    Ok(Duration { hours: hval as u64, minutes: mval as u64 })
}

/// Encode a validated duration as the wire timestamp.
pub fn encode_duration(d: &Duration) -> (r: String)
    requires
        d.hours <= 23,
        d.minutes <= 59,
    ensures
        r@ == wire_timestamp(d.total_seconds()),
{
    let secs: u32 = (d.hours as u32) * 3600 + (d.minutes as u32) * 60;
    format_epoch_offset(secs)
}

/// Parse a duration expression under the default ceiling and encode it as
/// the wire timestamp, with the exact validation order of the grammar check,
/// the ceilings, and the zero check.
pub fn time_add_to_epoch(time: &str) -> (r: Result<String, TimeError>)
    ensures
        match duration_parts(time@) {
            None => r is Err && r->Err_0 == TimeError::Format,
            Some(hm) => {
                if hm.0 > MAX_HOURS || hm.1 > 59 {
                    r is Err && r->Err_0 == (TimeError::Range {
                        hours_bound: (MAX_HOURS + 1) as u64,
                        minutes_bound: 60u64,
                    })
                } else if hm.0 * 3600 + hm.1 * 60 == 0 {
                    r is Err && r->Err_0 == TimeError::Zero
                } else {
                    r is Ok && r->Ok_0@ == wire_timestamp(hm.0 * 3600 + hm.1 * 60)
                }
            },
        },
{
    match parse_duration(time, MAX_HOURS) {
        Ok(d) => Ok(encode_duration(&d)),
        Err(e) => Err(e),
    }
}

/// The compact rendering `<h>h<m>m` of a pair of values.
pub open spec fn duration_expr(h: int, m: int) -> Seq<char>
    recommends
        0 <= h,
        0 <= m,
{
    dec_digits(h) + seq!['h'] + dec_digits(m) + seq!['m']
}

/// Round trip: for every hour value within the ceiling and minute value up
/// to 59 naming a positive duration, the expression `<h>h<m>m` parses back
/// to exactly that pair, and its wire timestamp carries the epoch date and
/// those two values as its hour and minute fields, with zero seconds.
pub proof fn lemma_duration_round_trip(h: int, m: int)
    requires
        0 <= h <= 23,
        0 <= m <= 59,
        h + m > 0,
    ensures
        duration_parts(duration_expr(h, m)) == Some((h, m)),
        wire_timestamp(h * 3600 + m * 60).take(11) == "1970-01-01+"@,
        dec_value(wire_timestamp(h * 3600 + m * 60).subrange(11, 13)) == h,
        dec_value(wire_timestamp(h * 3600 + m * 60).subrange(14, 16)) == m,
        dec_value(wire_timestamp(h * 3600 + m * 60).subrange(17, 19)) == 0,
{
    let hd = dec_digits(h);
    let md = dec_digits(m);
    let s = duration_expr(h, m);
    lemma_dec_digits_wf(h);
    lemma_dec_digits_wf(m);
    lemma_dec_value_of_digits(h);
    lemma_dec_value_of_digits(m);
    let k = hd.len() as int;
    assert forall|j: int| 0 <= j < k implies is_digit(#[trigger] s[j]) by {
        assert(s[j] == hd[j]);
    }
    assert(s[k] == 'h');
    assert(!is_digit('h'));
    lemma_leading_digit_count(s, k);
    assert(s.take(k) =~= hd);
    let rest = s.skip(k + 1);
    assert(rest =~= md + seq!['m']);
    let k2 = md.len() as int;
    assert forall|j: int| 0 <= j < k2 implies is_digit(#[trigger] rest[j]) by {
        assert(rest[j] == md[j]);
    }
    assert(rest[k2] == 'm');
    assert(!is_digit('m'));
    lemma_leading_digit_count(rest, k2);
    assert(rest.take(k2) =~= md);
    assert(duration_parts(s) == Some((h, m)));

    let total = h * 3600 + m * 60;
    vstd::arithmetic::div_mod::lemma_fundamental_div_mod_converse(total, 3600, h, m * 60);
    vstd::arithmetic::div_mod::lemma_fundamental_div_mod_converse(m * 60, 60, m, 0);
    vstd::arithmetic::div_mod::lemma_fundamental_div_mod_converse(total, 60, 60 * h + m, 0);
    assert(total / 3600 == h && (total % 3600) / 60 == m && total % 60 == 0);
    let ts = wire_timestamp(total);
    reveal_strlit("1970-01-01+");
    reveal_strlit(":");
    assert("1970-01-01+"@.len() == 11);
    assert(":"@.len() == 1);
    assert(ts.take(11) =~= "1970-01-01+"@);
    assert(ts.subrange(11, 13) =~= two_digits(h));
    assert(ts.subrange(14, 16) =~= two_digits(m));
    assert(ts.subrange(17, 19) =~= two_digits(0));
    lemma_dec_value_two(h / 10, h % 10);
    lemma_dec_value_two(m / 10, m % 10);
    lemma_dec_value_two(0, 0);
}

} // verus!
