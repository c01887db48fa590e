use vstd::prelude::*;

use crate::properties::spec_signed_decimal;
use crate::text::{chars_of, digit_char, spec_decimal};

verus! {

pub open spec fn is_digit(c: char) -> bool {
    '0' <= c <= '9'
}

pub open spec fn digit_value(c: char) -> int {
    (c as u32) - ('0' as u32)
}

/// A non-empty run of ASCII digits.
pub open spec fn all_digits(s: Seq<char>) -> bool {
    s.len() > 0 && forall|i: int| 0 <= i < s.len() ==> is_digit(#[trigger] s[i])
}

/// The value of a run of decimal digits.
pub open spec fn digits_value(s: Seq<char>) -> int
    decreases s.len(),
{
    if s.len() == 0 {
        0
    } else {
        digits_value(s.drop_last()) * 10 + digit_value(s.last())
    }
}

/// What `str::parse::<i32>` gives: an optional sign, then one or more ASCII
/// digits, whose value must lie in the range of `i32`.
pub open spec fn spec_parse_i32(s: Seq<char>) -> Option<i32> {
    let negative = s.len() > 0 && s[0] == '-';
    let body = if s.len() > 0 && (s[0] == '-' || s[0] == '+') { s.drop_first() } else { s };
    let value = if negative { -digits_value(body) } else { digits_value(body) };
    if all_digits(body) && i32::MIN <= value <= i32::MAX {
        Some(value as i32)
    } else {
        None
    }
}

proof fn lemma_digits_value_nonneg(s: Seq<char>)
    requires
        forall|i: int| 0 <= i < s.len() ==> is_digit(#[trigger] s[i]),
    ensures
        digits_value(s) >= 0,
    decreases s.len(),
{
    if s.len() > 0 {
        lemma_digits_value_nonneg(s.drop_last());
        assert(is_digit(s[s.len() - 1]));
    }
}

/// The value of a run of digits is at least that of any of its prefixes.
proof fn lemma_digits_value_grows(s: Seq<char>, k: int)
    requires
        0 <= k <= s.len(),
        forall|i: int| 0 <= i < s.len() ==> is_digit(#[trigger] s[i]),
    ensures
        digits_value(s) >= digits_value(s.take(k)),
    decreases s.len(),
{
    if k < s.len() {
        let t = s.drop_last();
        assert(t.take(k) =~= s.take(k));
        lemma_digits_value_grows(t, k);
        lemma_digits_value_nonneg(t);
        assert(is_digit(s[s.len() - 1]));
    } else {
        assert(s.take(k) =~= s);
    }
}

fn char_digit(c: char) -> (d: Option<i64>)
    ensures
        is_digit(c) <==> d is Some,
        d is Some ==> d->0 == digit_value(c) && 0 <= d->0 <= 9,
{
    if '0' <= c && c <= '9' {
        Some((c as u32 - '0' as u32) as i64)
    } else {
        None
    }
}

/// Parses a decimal `i32` as `str::parse` does.
pub fn parse_i32(text: &str) -> (parsed: Option<i32>)
    ensures
        parsed == spec_parse_i32(text@),
{
    let chars = chars_of(text);
    let total = chars.len();
    let negative = total > 0 && chars[0] == '-';
    let start: usize = if total > 0 && (chars[0] == '-' || chars[0] == '+') { 1 } else { 0 };
    let ghost body = if text@.len() > 0 && (text@[0] == '-' || text@[0] == '+') { text@.drop_first() } else { text@ };
    assert(body =~= chars@.subrange(start as int, total as int));
    if start == total {
        assert(!all_digits(body));
        return None;
    }
    let limit: i64 = 2147483648;
    let mut acc: i64 = 0;
    let mut i: usize = start;
    while i < total
        invariant
            start <= i <= total,
            total == chars@.len(),
            chars@ == text@,
            body == (if text@.len() > 0 && (text@[0] == '-' || text@[0] == '+') { text@.drop_first() } else { text@ }),
            negative == (text@.len() > 0 && text@[0] == '-'),
            body =~= chars@.subrange(start as int, total as int),
            0 <= acc <= limit,
            limit == 2147483648,
            acc == digits_value(body.take(i - start)),
            forall|k: int| 0 <= k < i - start ==> is_digit(#[trigger] body[k]),
        decreases total - i,
    {
        let c = chars[i];
        match char_digit(c) {
            None => {
                assert(body[i - start] == c);
                assert(!all_digits(body));
                return None;
            },
            Some(d) => {
                let next = acc * 10 + d;
                proof {
                    let t = body.take(i - start + 1);
                    assert(t.drop_last() =~= body.take(i - start));
                    assert(t.last() == c);
                }
                if next > limit {
                    proof {
                        if all_digits(body) {
                            lemma_digits_value_grows(body, i - start + 1);
                        }
                    }
                    return None;
                }
                acc = next;
            },
        }
        i = i + 1;
    }
    assert(body.take(total - start) =~= body);
    assert(all_digits(body));
    if negative {
        Some((-acc) as i32)
    } else if acc <= 2147483647 {
        Some(acc as i32)
    } else {
        None
    }
}

proof fn lemma_digit_char(d: int)
    requires
        0 <= d < 10,
    ensures
        is_digit(digit_char(d)),
        digit_value(digit_char(d)) == d,
        digit_char(d) != '-',
        digit_char(d) != '+',
{
}

pub(crate) proof fn lemma_decimal_digits(n: nat)
    ensures
        all_digits(spec_decimal(n)),
        digits_value(spec_decimal(n)) == n,
    decreases n,
{
    if n < 10 {
        lemma_digit_char(n as int);
        let s = spec_decimal(n);
        assert(s.drop_last() =~= Seq::<char>::empty());
        assert(s.last() == digit_char(n as int));
        assert(digits_value(s) == digits_value(s.drop_last()) * 10 + digit_value(s.last()));
    } else {
        lemma_decimal_digits(n / 10);
        lemma_digit_char((n % 10) as int);
        let s = spec_decimal(n);
        let p = spec_decimal(n / 10);
        assert(s.drop_last() =~= p);
        assert(s.last() == digit_char((n % 10) as int));
        vstd::arithmetic::div_mod::lemma_fundamental_div_mod(n as int, 10);
        assert(digits_value(s) == digits_value(p) * 10 + digit_value(s.last()));
        assert forall|i: int| 0 <= i < s.len() implies is_digit(#[trigger] s[i]) by {
            if i < p.len() {
                assert(s[i] == p[i]);
            }
        }
    }
}

/// A number written in decimal reads back as the same number: the text that
/// a port label shows parses to the port.
pub proof fn lemma_decimal_reads_back(n: i32)
    ensures
        spec_parse_i32(spec_signed_decimal(n as int)) == Some(n),
{
    reveal_strlit("-");
    if n < 0 {
        let m = (-n) as nat;
        lemma_decimal_digits(m);
        let s = spec_signed_decimal(n as int);
        assert(s == "-"@ + spec_decimal(m));
        assert(s[0] == '-');
        assert(s.drop_first() =~= spec_decimal(m));
    } else {
        lemma_decimal_digits(n as nat);
        let s = spec_decimal(n as nat);
        assert(s[0] != '-' && s[0] != '+') by {
            assert(is_digit(s[0]));
        }
    }
}

} // verus!
