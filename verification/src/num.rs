//! Decimal integer text: the canonical formatting of an integer and the parse
//! that `str::parse::<i32>()` / `str::parse::<u8>()` perform (an optional sign,
//! then one or more ASCII digits, leading zeros allowed), with the lemma that
//! formatting then parsing gives the number back.

use vstd::prelude::*;
use crate::text::is_digit;

verus! {

/// The ASCII digit for `d` in `0..=9`.
pub open spec fn digit_char(d: int) -> char {
    (d + 48) as char
}

/// The numeric value of an ASCII digit.
pub open spec fn digit_val(c: char) -> int {
    (c as int) - 48
}

/// The canonical decimal digits of `n` (no leading zeros; `0` is `"0"`).
pub open spec fn nat_digits(n: nat) -> Seq<char>
    decreases n,
{
    if n < 10 {
        seq![digit_char(n as int)]
    } else {
        nat_digits(n / 10).push(digit_char((n % 10) as int))
    }
}

/// The canonical decimal text of `i` (`-` before a negative number), as
/// `i32`'s `Display` writes it.
pub open spec fn int_text(i: int) -> Seq<char> {
    if i < 0 {
        seq!['-'] + nat_digits((-i) as nat)
    } else {
        nat_digits(i as nat)
    }
}

/// Whether every character of `s` is an ASCII digit.
pub open spec fn all_digits(s: Seq<char>) -> bool {
    forall|i: int| 0 <= i < s.len() ==> is_digit(#[trigger] s[i])
}

/// The value of a run of decimal digits.
pub open spec fn digits_value(s: Seq<char>) -> int
    decreases s.len(),
{
    if s.len() == 0 {
        0
    } else {
        digits_value(s.drop_last()) * 10 + digit_val(s.last())
    }
}

/// The integer a sign-and-digits text denotes, if it is one: an optional `+`
/// or `-`, then at least one ASCII digit.
pub open spec fn parse_int(s: Seq<char>) -> Option<int> {
    if s.len() > 0 && (s[0] == '+' || s[0] == '-') {
        let d = s.drop_first();
        if d.len() > 0 && all_digits(d) {
            Some(if s[0] == '-' { -digits_value(d) } else { digits_value(d) })
        } else {
            None
        }
    } else if s.len() > 0 && all_digits(s) {
        Some(digits_value(s))
    } else {
        None
    }
}

/// What `str::parse::<i32>()` returns for `s`.
pub open spec fn parse_i32(s: Seq<char>) -> Option<i32> {
    match parse_int(s) {
        Some(v) => if i32::MIN <= v <= i32::MAX { Some(v as i32) } else { None },
        None => None,
    }
}

/// The unsigned value a text denotes, if it is one: an optional `+`, then at
/// least one ASCII digit.
pub open spec fn parse_uint(s: Seq<char>) -> Option<int> {
    if s.len() > 0 && s[0] == '+' {
        let d = s.drop_first();
        if d.len() > 0 && all_digits(d) { Some(digits_value(d)) } else { None }
    } else if s.len() > 0 && all_digits(s) {
        Some(digits_value(s))
    } else {
        None
    }
}

/// What `str::parse::<u8>()` returns for `s`.
pub open spec fn parse_u8(s: Seq<char>) -> Option<u8> {
    match parse_uint(s) {
        Some(v) => if v <= 255 { Some(v as u8) } else { None },
        None => None,
    }
}

pub proof fn lemma_digits_value_nonneg(s: Seq<char>)
    requires
        all_digits(s),
    ensures
        digits_value(s) >= 0,
    decreases s.len(),
{
    if s.len() > 0 {
        assert(all_digits(s.drop_last())) by {
            assert forall|i: int| 0 <= i < s.drop_last().len() implies is_digit(
                #[trigger] s.drop_last()[i],
            ) by {
                assert(s.drop_last()[i] == s[i]);
            }
        }
        lemma_digits_value_nonneg(s.drop_last());
        assert(is_digit(s[s.len() - 1]));
    }
}

/// A prefix of a digit run is worth no more than the whole run.
pub proof fn lemma_digits_value_prefix(s: Seq<char>, k: int)
    requires
        all_digits(s),
        0 <= k <= s.len(),
    ensures
        digits_value(s.take(k)) <= digits_value(s),
    decreases s.len() - k,
{
    if k < s.len() {
        let t = s.drop_last();
        assert(all_digits(t)) by {
            assert forall|i: int| 0 <= i < t.len() implies is_digit(#[trigger] t[i]) by {
                assert(t[i] == s[i]);
            }
        }
        assert(t.take(k) =~= s.take(k));
        lemma_digits_value_prefix(t, k);
        lemma_digits_value_nonneg(t);
        assert(is_digit(s[s.len() - 1]));
    } else {
        assert(s.take(k) =~= s);
    }
}

pub proof fn lemma_nat_digits(n: nat)
    ensures
        nat_digits(n).len() >= 1,
        all_digits(nat_digits(n)),
        digits_value(nat_digits(n)) == n,
    decreases n,
{
    if n < 10 {
        let s = nat_digits(n);
        assert(s.drop_last() =~= Seq::<char>::empty());
        assert(digits_value(s.drop_last()) == 0);
    } else {
        lemma_nat_digits(n / 10);
        let p = nat_digits(n / 10);
        let s = p.push(digit_char((n % 10) as int));
        assert(s.drop_last() =~= p);
        assert forall|i: int| 0 <= i < s.len() implies is_digit(#[trigger] s[i]) by {
            if i < p.len() {
                assert(s[i] == p[i]);
            }
        }
    }
}

/// Formatting an integer then parsing it gives the integer back.
pub proof fn lemma_parse_int_text(i: int)
    ensures
        parse_int(int_text(i)) == Some(i),
        int_text(i).len() >= 1,
        int_text(i)[0] == '-' || is_digit(int_text(i)[0]),
        forall|j: int| 1 <= j < int_text(i).len() ==> is_digit(#[trigger] int_text(i)[j]),
{
    if i < 0 {
        let n = (-i) as nat;
        lemma_nat_digits(n);
        let s = int_text(i);
        assert(s.drop_first() =~= nat_digits(n));
        assert forall|j: int| 1 <= j < s.len() implies is_digit(#[trigger] s[j]) by {
            assert(s[j] == nat_digits(n)[j - 1]);
        }
    } else {
        lemma_nat_digits(i as nat);
        let s = nat_digits(i as nat);
        assert(is_digit(s[0]));
    }
}

/// Appends the decimal digits of `n`.
pub fn push_nat(out: &mut Vec<char>, n: u64)
    ensures
        final(out)@ == old(out)@ + nat_digits(n as nat),
    decreases n,
{
    if n >= 10 {
        push_nat(out, n / 10);
    }
    let d = (n % 10) as u8;
    out.push((d + 48) as char);
    proof {
        if n >= 10 {
            assert(out@ =~= old(out)@ + nat_digits(n as nat));
        } else {
            assert(out@ =~= old(out)@ + nat_digits(n as nat));
        }
    }
}

/// Appends the decimal text of `i`.
pub fn push_int(out: &mut Vec<char>, i: i64)
    ensures
        final(out)@ == old(out)@ + int_text(i as int),
{
    if i < 0 {
        out.push('-');
        push_nat(out, (-(i as i128)) as u64);
        assert(out@ =~= old(out)@ + int_text(i as int));
    } else {
        push_nat(out, i as u64);
    }
}

/// The decimal text of `i`.
pub fn int_to_chars(i: i64) -> (r: Vec<char>)
    ensures
        r@ == int_text(i as int),
{
    let mut r: Vec<char> = Vec::new();
    push_int(&mut r, i);
    assert(r@ =~= int_text(i as int));
    r
}

/// Reads a run of digits `s[from..]`, giving up once the value exceeds `limit`.
fn read_digits(s: &[char], from: usize, limit: i64) -> (r: Option<i64>)
    requires
        from <= s.len(),
        0 <= limit <= 1_000_000_000_000,
    ensures
        match r {
            Some(v) => all_digits(s@.skip(from as int)) && v == digits_value(s@.skip(from as int))
                && 0 <= v <= limit,
            None => !all_digits(s@.skip(from as int)) || digits_value(s@.skip(from as int))
                > limit,
        },
{
    let ghost d = s@.skip(from as int);
    let mut acc: i64 = 0;
    let mut i: usize = from;
    while i < s.len()
        invariant
            from <= i <= s.len(),
            d == s@.skip(from as int),
            all_digits(d.take(i - from)),
            acc == digits_value(d.take(i - from)),
            0 <= acc <= limit,
            0 <= limit <= 1_000_000_000_000,
        decreases s.len() - i,
    {
        let c = s[i];
        if !('0' <= c && c <= '9') {
            assert(!is_digit(d[i - from]));
            return None;
        }
        let ghost k = i - from;
        assert(d.take(k + 1).drop_last() =~= d.take(k));
        assert(d.take(k + 1).last() == c);
        acc = acc * 10 + ((c as u8) - 48) as i64;
        i = i + 1;
        assert(all_digits(d.take(i - from))) by {
            assert forall|j: int| 0 <= j < d.take(i - from).len() implies is_digit(
                #[trigger] d.take(i - from)[j],
            ) by {
                if j < k {
                    assert(d.take(i - from)[j] == d.take(k)[j]);
                }
            }
        }
        if acc > limit {
            proof {
                assert(all_digits(d) ==> digits_value(d) > limit) by {
                    if all_digits(d) {
                        lemma_digits_value_prefix(d, i - from);
                    }
                }
            }
            return None;
        }
    }
    assert(d.take(i - from) =~= d);
    Some(acc)
}

/// `str::parse::<i32>()` on a character sequence.
pub fn parse_i32_chars(s: &[char]) -> (r: Option<i32>)
    ensures
        r == parse_i32(s@),
{
    if s.len() == 0 {
        return None;
    }
    let neg = s[0] == '-';
    let signed = s[0] == '+' || s[0] == '-';
    let from: usize = if signed { 1 } else { 0 };
    if signed && s.len() == 1 {
        return None;
    }
    proof {
        if signed {
            assert(s@.skip(1) =~= s@.drop_first());
        } else {
            assert(s@.skip(0) =~= s@);
        }
    }
    match read_digits(s, from, 2147483648) {
        None => {
            proof {
                if all_digits(s@.skip(from as int)) {
                    lemma_digits_value_nonneg(s@.skip(from as int));
                }
            }
            None
        },
        Some(v) => {
            let value: i64 = if neg { -v } else { v };
            if value < -2147483648 || value > 2147483647 {
                None
            } else {
                Some(value as i32)
            }
        },
    }
}

/// `str::parse::<u8>()` on a character sequence.
pub fn parse_u8_chars(s: &[char]) -> (r: Option<u8>)
    ensures
        r == parse_u8(s@),
{
    if s.len() == 0 {
        return None;
    }
    let signed = s[0] == '+';
    let from: usize = if signed { 1 } else { 0 };
    if signed && s.len() == 1 {
        return None;
    }
    proof {
        if signed {
            assert(s@.skip(1) =~= s@.drop_first());
        } else {
            assert(s@.skip(0) =~= s@);
        }
    }
    match read_digits(s, from, 255) {
        None => None,
        Some(v) => Some(v as u8),
    }
}

/// What `str::parse::<i64>()` returns for `s`.
pub open spec fn parse_i64(s: Seq<char>) -> Option<i64> {
    match parse_int(s) {
        Some(v) => if i64::MIN <= v <= i64::MAX { Some(v as i64) } else { None },
        None => None,
    }
}

/// Reads a run of digits `s[from..]` into an `i128`, giving up once the value
/// exceeds `limit`.
fn read_digits_wide(s: &[char], from: usize, limit: i128) -> (r: Option<i128>)
    requires
        from <= s.len(),
        0 <= limit <= 0x1_0000_0000_0000_0000,
    ensures
        match r {
            Some(v) => all_digits(s@.skip(from as int)) && v == digits_value(s@.skip(from as int))
                && 0 <= v <= limit,
            None => !all_digits(s@.skip(from as int)) || digits_value(s@.skip(from as int))
                > limit,
        },
{
    let ghost d = s@.skip(from as int);
    let mut acc: i128 = 0;
    let mut i: usize = from;
    while i < s.len()
        invariant
            from <= i <= s.len(),
            d == s@.skip(from as int),
            all_digits(d.take(i - from)),
            acc == digits_value(d.take(i - from)),
            0 <= acc <= limit,
            0 <= limit <= 0x1_0000_0000_0000_0000,
        decreases s.len() - i,
    {
        let c = s[i];
        if !('0' <= c && c <= '9') {
            assert(!is_digit(d[i - from]));
            return None;
        }
        let ghost k = i - from;
        assert(d.take(k + 1).drop_last() =~= d.take(k));
        assert(d.take(k + 1).last() == c);
        acc = acc * 10 + ((c as u8) - 48) as i128;
        i = i + 1;
        assert(all_digits(d.take(i - from))) by {
            assert forall|j: int| 0 <= j < d.take(i - from).len() implies is_digit(
                #[trigger] d.take(i - from)[j],
            ) by {
                if j < k {
                    assert(d.take(i - from)[j] == d.take(k)[j]);
                }
            }
        }
        if acc > limit {
            proof {
                assert(all_digits(d) ==> digits_value(d) > limit) by {
                    if all_digits(d) {
                        lemma_digits_value_prefix(d, i - from);
                    }
                }
            }
            return None;
        }
    }
    assert(d.take(i - from) =~= d);
    Some(acc)
}

/// `str::parse::<i64>()` on a character sequence.
pub fn parse_i64_chars(s: &[char]) -> (r: Option<i64>)
    ensures
        r == parse_i64(s@),
{
    if s.len() == 0 {
        return None;
    }
    let neg = s[0] == '-';
    let signed = s[0] == '+' || s[0] == '-';
    let from: usize = if signed { 1 } else { 0 };
    if signed && s.len() == 1 {
        return None;
    }
    proof {
        if signed {
            assert(s@.skip(1) =~= s@.drop_first());
        } else {
            assert(s@.skip(0) =~= s@);
        }
    }
    match read_digits_wide(s, from, 9223372036854775808) {
        None => {
            proof {
                if all_digits(s@.skip(from as int)) {
                    lemma_digits_value_nonneg(s@.skip(from as int));
                }
            }
            None
        },
        Some(v) => {
            let value: i128 = if neg { -v } else { v };
            if value < -9223372036854775808 || value > 9223372036854775807 {
                None
            } else {
                Some(value as i64)
            }
        },
    }
}

} // verus!
