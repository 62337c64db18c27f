//! Decimal text: reading runs of digits into numbers and rendering numbers
//! back as zero-padded or plain decimal strings.

use vstd::prelude::*;
use vstd::string::StrSliceExecFns;
use vstd::string::StringExecFns;

verus! {

/// Characters `'0'` through `'9'`.
pub open spec fn is_digit(c: char) -> bool {
    '0' as u32 <= c as u32 <= '9' as u32
}

/// Numeric value of a digit character.
pub open spec fn digit_val(c: char) -> int {
    c as u32 - '0' as u32
}

/// The digit character for a value in `0..10`.
pub open spec fn digit_char(d: int) -> char {
    ((d + '0' as u32) as u32) as char
}

pub open spec fn all_digits(s: Seq<char>) -> bool {
    forall|i: int| 0 <= i < s.len() ==> is_digit(#[trigger] s[i])
}

/// Value of a digit string, most significant digit first.
pub open spec fn dec_value(s: Seq<char>) -> int
    decreases s.len(),
{
    if s.len() == 0 {
        0
    } else {
        dec_value(s.drop_last()) * 10 + digit_val(s.last())
    }
}

/// Decimal rendering of a non-negative number, without leading zeros
/// (a single `'0'` for zero).
pub open spec fn dec_digits(n: int) -> Seq<char>
    recommends
        0 <= n,
    decreases n,
{
    if n < 10 {
        seq![digit_char(n)]
    } else {
        dec_digits(n / 10).push(digit_char(n % 10))
    }
}

/// Decimal rendering padded with `'0'` to at least two characters,
/// as `{:02}` formatting renders a non-negative number.
pub open spec fn pad2_digits(n: int) -> Seq<char>
    recommends
        0 <= n,
{
    if n < 10 {
        seq!['0', digit_char(n)]
    } else {
        dec_digits(n)
    }
}

/// Exactly two digits for a value in `0..100`.
pub open spec fn two_digits(n: int) -> Seq<char>
    recommends
        0 <= n < 100,
{
    seq![digit_char(n / 10), digit_char(n % 10)]
}

/// How many characters at the front of `s` are digits.
pub open spec fn leading_digit_count(s: Seq<char>) -> nat
    decreases s.len(),
{
    if s.len() > 0 && is_digit(s[0]) {
        (1 + leading_digit_count(s.drop_first())) as nat
    } else {
        0
    }
}

/// A run of digits followed by a non-digit (or the end) pins down
/// `leading_digit_count`.
pub proof fn lemma_leading_digit_count(s: Seq<char>, k: int)
    requires
        0 <= k <= s.len(),
        forall|j: int| 0 <= j < k ==> is_digit(#[trigger] s[j]),
        k == s.len() || !is_digit(s[k]),
    ensures
        leading_digit_count(s) == k,
    decreases s.len(),
{
    if k == 0 {
    } else {
        lemma_leading_digit_count(s.drop_first(), k - 1);
    }
}

pub proof fn lemma_dec_value_nonneg(s: Seq<char>)
    requires
        all_digits(s),
    ensures
        dec_value(s) >= 0,
    decreases s.len(),
{
    if s.len() > 0 {
        assert(all_digits(s.drop_last()));
        lemma_dec_value_nonneg(s.drop_last());
    }
}

pub proof fn lemma_dec_value_push(s: Seq<char>, c: char)
    ensures
        dec_value(s.push(c)) == dec_value(s) * 10 + digit_val(c),
{
    assert(s.push(c).drop_last() =~= s);
}

/// `dec_digits` renders only digit characters, at least one of them.
pub proof fn lemma_dec_digits_wf(n: int)
    requires
        0 <= n,
    ensures
        dec_digits(n).len() >= 1,
        all_digits(dec_digits(n)),
    decreases n,
{
    if n < 10 {
    } else {
        lemma_dec_digits_wf(n / 10);
        assert forall|i: int| 0 <= i < dec_digits(n).len() implies is_digit(
            #[trigger] dec_digits(n)[i],
        ) by {
            if i < dec_digits(n / 10).len() {
                assert(dec_digits(n)[i] == dec_digits(n / 10)[i]);
            }
        }
    }
}

/// Reading back what `dec_digits` rendered gives the number again.
pub proof fn lemma_dec_value_of_digits(n: int)
    requires
        0 <= n,
    ensures
        dec_value(dec_digits(n)) == n,
    decreases n,
{
    if n < 10 {
        let one = seq![digit_char(n)];
        assert(one.last() == digit_char(n));
        assert(one.drop_last() =~= Seq::<char>::empty());
        assert(dec_value(one) == dec_value(one.drop_last()) * 10 + digit_val(one.last()));
        assert(dec_value(Seq::<char>::empty()) == 0);
    } else {
        lemma_dec_value_of_digits(n / 10);
        lemma_dec_value_push(dec_digits(n / 10), digit_char(n % 10));
    }
}

/// Reading back a two-digit rendering gives the value again.
pub proof fn lemma_dec_value_two(a: int, b: int)
    requires
        0 <= a <= 9,
        0 <= b <= 9,
    ensures
        dec_value(seq![digit_char(a), digit_char(b)]) == a * 10 + b,
{
    let two = seq![digit_char(a), digit_char(b)];
    assert(two.drop_last() =~= seq![digit_char(a)]);
    lemma_dec_value_of_digits(a);
    assert(dec_digits(a) =~= seq![digit_char(a)]);
    assert(dec_value(two) == dec_value(seq![digit_char(a)]) * 10 + digit_val(two.last()));
}

/// Cap a value at `cap`; scans below report values exactly up to the cap
/// and report only "above the cap" beyond it.
pub open spec fn clamped(v: int, cap: int) -> int {
    if v > cap {
        cap
    } else {
        v
    }
}

fn is_digit_char(c: char) -> (r: bool)
    ensures
        r == is_digit(c),
{
    let v = c as u32;
    48 <= v && v <= 57
}

/// Scan the run of digits in `s` starting at `from`: returns the index just
/// past the run and the run's value, capped at `cap`.
pub fn scan_digits(s: &str, from: usize, cap: u128) -> (r: (usize, u128))
    requires
        from <= s@.len(),
        1 <= cap <= 10_000_000_000_000_000_000,
    ensures
        from <= r.0 <= s@.len(),
        r.0 - from == leading_digit_count(s@.skip(from as int)),
        forall|t: int| from <= t < r.0 ==> is_digit(#[trigger] s@[t]),
        r.0 == s@.len() || !is_digit(s@[r.0 as int]),
        r.1 == clamped(dec_value(s@.subrange(from as int, r.0 as int)), cap as int),
{
    let len = s.unicode_len();
    let mut i = from;
    let mut v: u128 = 0;
    loop
        invariant
            from <= i <= len,
            len == s@.len(),
            1 <= cap <= 10_000_000_000_000_000_000,
            v <= cap,
            forall|t: int| from <= t < i ==> is_digit(#[trigger] s@[t]),
            v == clamped(dec_value(s@.subrange(from as int, i as int)), cap as int),
        ensures
            from <= i <= len,
            forall|t: int| from <= t < i ==> is_digit(#[trigger] s@[t]),
            i == len || !is_digit(s@[i as int]),
            v == clamped(dec_value(s@.subrange(from as int, i as int)), cap as int),
        decreases len - i,
    {
        if i == len {
            break;
        }
        let c = s.get_char(i);
        if !is_digit_char(c) {
            break;
        }
        let d = (c as u32 - 48) as u128;
        proof {
            assert(s@.subrange(from as int, i + 1) =~= s@.subrange(from as int, i as int).push(
                s@[i as int],
            ));
            lemma_dec_value_push(s@.subrange(from as int, i as int), s@[i as int]);
            assert(all_digits(s@.subrange(from as int, i as int)));
            lemma_dec_value_nonneg(s@.subrange(from as int, i as int));
        }
        let next = v * 10 + d;
        v = if next > cap {
            cap
        } else {
            next
        };
        i = i + 1;
    }
    proof {
        lemma_leading_digit_count(s@.skip(from as int), i - from);
    }
    (i, v)
}

fn digit_literal(d: u64) -> (r: &'static str)
    requires
        d < 10,
    ensures
        r@ == seq![digit_char(d as int)],
{
    proof {
        reveal_strlit("0");
        reveal_strlit("1");
        reveal_strlit("2");
        reveal_strlit("3");
        reveal_strlit("4");
        reveal_strlit("5");
        reveal_strlit("6");
        reveal_strlit("7");
        reveal_strlit("8");
        reveal_strlit("9");
    }
    let r: &'static str = match d {
        0 => "0",
        1 => "1",
        2 => "2",
        3 => "3",
        4 => "4",
        5 => "5",
        6 => "6",
        7 => "7",
        8 => "8",
        _ => "9",
    };
    assert(r@ =~= seq![digit_char(d as int)]);
    r
}

/// Decimal rendering of `n`, as `{}` formatting would print it.
pub fn dec_string(n: u64) -> (r: String)
    ensures
        r@ == dec_digits(n as int),
    decreases n,
{
    if n < 10 {
        digit_literal(n).to_owned()
    } else {
        assert(n / 10 < n) by (nonlinear_arith)
            requires
                n >= 10,
        ;
        let hi = dec_string(n / 10);
        let r = hi.concat(digit_literal(n % 10));
        assert(r@ =~= dec_digits(n as int / 10).push(digit_char(n as int % 10)));
        r
    }
}

/// The ways reading a whole string as a bounded signed integer can fail,
/// mirroring the standard library's parse errors.
#[derive(Clone, Copy, Debug, PartialEq, Eq, Structural)]
pub enum IntParseError {
    Empty,
    BadDigit,
    TooLarge,
    TooSmall,
}

/// Reading a whole string as an integer within `[lo, hi]`: an optional sign,
/// then at least one digit and nothing else, the value within the bounds.
pub open spec fn int_parse(s: Seq<char>, lo: int, hi: int) -> Result<int, IntParseError>
    recommends
        lo <= 0 < hi,
{
    if s.len() == 0 {
        Err(IntParseError::Empty)
    } else {
        let neg = s[0] == '-';
        let ds = if s[0] == '-' || s[0] == '+' {
            s.drop_first()
        } else {
            s
        };
        if ds.len() == 0 || !all_digits(ds) {
            Err(IntParseError::BadDigit)
        } else {
            let v = if neg {
                -dec_value(ds)
            } else {
                dec_value(ds)
            };
            if v > hi {
                Err(IntParseError::TooLarge)
            } else if v < lo {
                Err(IntParseError::TooSmall)
            } else {
                Ok(v)
            }
        }
    }
}

/// Scan the string wholly as a signed decimal: the sign, the digit run value
/// capped just above the widest bound used here, and whether the digit run
/// covers everything after the sign and is non-empty.
fn scan_signed(s: &str) -> (r: (bool, u128, bool))
    ensures
        s@.len() > 0 ==> {
            let ds = if s@[0] == '-' || s@[0] == '+' {
                s@.drop_first()
            } else {
                s@
            };
            &&& r.0 == (s@[0] == '-')
            &&& r.2 == (ds.len() > 0 && all_digits(ds))
            &&& r.2 ==> r.1 == clamped(dec_value(ds), 10_000_000_000_000_000_000)
        },
{
    let len = s.unicode_len();
    if len == 0 {
        return (false, 0, false);
    }
    let first = s.get_char(0);
    let neg = first == '-';
    let start: usize = if neg || first == '+' {
        1
    } else {
        0
    };
    let (end, v) = scan_digits(s, start, 10_000_000_000_000_000_000);
    let ghost ds = if s@[0] == '-' || s@[0] == '+' {
        s@.drop_first()
    } else {
        s@
    };
    proof {
        assert(s@.skip(start as int) =~= ds);
        if end == s@.len() {
            assert(s@.subrange(start as int, end as int) =~= ds);
        }
    }
    if end < len || end == start {
        proof {
            if end < s@.len() {
                assert(ds[end - start] == s@[end as int]);
                assert(!is_digit(ds[end - start]));
                assert(!all_digits(ds));
            } else {
                assert(ds.len() == 0);
            }
        }
        return (neg, 0, false);
    }
    (neg, v, true)
}

/// Read the string as an `i64`, or fall back to zero where the standard
/// parse would fail, as `parse::<i64>().unwrap_or_default()` does.
pub fn parse_i64_or_zero(s: &str) -> (r: i64)
    ensures
        r as int == (match int_parse(s@, i64::MIN as int, i64::MAX as int) {
            Ok(v) => v,
            Err(_) => 0,
        }),
{
    let (neg, v, well_formed) = scan_signed(s);
    if s.is_empty() || !well_formed {
        return 0;
    }
    if neg {
        if v > 9_223_372_036_854_775_808 {
            0
        } else if v == 9_223_372_036_854_775_808 {
            i64::MIN
        } else {
            -(v as i64)
        }
    } else {
        if v > 9_223_372_036_854_775_807 {
            0
        } else {
            v as i64
        }
    }
}

/// Read the string as an `i32`, with the standard library's error cases.
pub fn parse_i32_field(s: &str) -> (r: Result<i32, IntParseError>)
    ensures
        match int_parse(s@, i32::MIN as int, i32::MAX as int) {
            Ok(v) => r is Ok && r->Ok_0 == v,
            Err(e) => r is Err && r->Err_0 == e,
        },
{
    let len = s.unicode_len();
    if len == 0 {
        return Err(IntParseError::Empty);
    }
    let (neg, v, well_formed) = scan_signed(s);
    if !well_formed {
        return Err(IntParseError::BadDigit);
    }
    if neg {
        if v > 2_147_483_648 {
            Err(IntParseError::TooSmall)
        } else if v == 2_147_483_648 {
            Ok(i32::MIN)
        } else {
            Ok(-(v as i32))
        }
    } else {
        if v > 2_147_483_647 {
            Err(IntParseError::TooLarge)
        } else {
            Ok(v as i32)
        }
    }
}

/// Decimal rendering of `n` padded to at least two characters, as `{:02}`
/// formatting would print it.
pub fn pad2_string(n: u64) -> (r: String)
    ensures
        r@ == pad2_digits(n as int),
{
    if n < 10 {
        proof {
            reveal_strlit("0");
        }
        let r = "0".to_owned().concat(digit_literal(n));
        assert(r@ =~= pad2_digits(n as int));
        r
    } else {
        dec_string(n)
    }
}

} // verus!
