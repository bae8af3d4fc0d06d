//! Scanning of lines, decimal numbers and text on the wire.
use vstd::prelude::*;
use vstd::utf8::{decode_utf8, valid_utf8};

use crate::frame::RespError;
use crate::model::{
    all_digits, digits_end, digits_value, in_i64, is_big_number_text, is_digit, is_double_text,
    line_end, parse_int, parse_line, sign_end, unsigned_part, CR, DOT, LF, LOWER_E, MINUS, NINE,
    PLUS, UPPER_E, ZERO,
};

verus! {

/// Relies on `std::str::from_utf8`: it accepts exactly the byte strings that are valid
/// UTF-8, and the text it returns is their decoding.
#[verifier::external_body]
pub(crate) fn text_from_utf8(b: &[u8]) -> (r: Option<String>)
    ensures
        r is Some <==> valid_utf8(b@),
        r matches Some(s) ==> s@ == decode_utf8(b@),
{
    std::str::from_utf8(b).ok().map(|s| s.to_string())
}

/// Position of the first CR LF pair at or after `i`.
pub fn find_line_end(buf: &[u8], i: usize) -> (r: Option<(usize, usize)>)
    ensures
        match r {
            Some((e, n)) => {
                &&& e as int == line_end(buf@, i as int)
                &&& i <= e
                &&& n == e + 2
                &&& n <= buf@.len()
            },
            None => line_end(buf@, i as int) == -1,
        },
{
    let mut j = i;
    while j < buf.len() && buf.len() - j > 1
        invariant
            i <= j,
            line_end(buf@, i as int) == line_end(buf@, j as int),
        decreases buf.len() - j,
    {
        if buf[j] == CR && buf[j + 1] == LF {
            return Some((j, j + 2));
        }
        j = j + 1;
    }
    None
}

/// The line that starts at `i`: where it ends and where the next one starts.
pub fn read_line(buf: &[u8], i: usize) -> (r: Result<(usize, usize), RespError>)
    ensures
        match r {
            Ok((e, n)) => {
                &&& i <= e
                &&& n == e + 2
                &&& n <= buf@.len()
                &&& parse_line(buf@, i as int) == Ok::<_, RespError>(
                    (buf@.subrange(i as int, e as int), n as int),
                )
            },
            Err(x) => parse_line(buf@, i as int) == Err::<(Seq<u8>, int), _>(x),
        },
{
    match find_line_end(buf, i) {
        Some((e, n)) => Ok((e, n)),
        None => Err(RespError::Incomplete),
    }
}

proof fn lemma_digits_value_prefix(s: Seq<u8>, k: int)
    requires
        0 <= k <= s.len(),
    ensures
        digits_value(s.subrange(0, k)) <= digits_value(s),
    decreases s.len(),
{
    if k < s.len() {
        lemma_digits_value_prefix(s.drop_last(), k);
        assert(s.drop_last().subrange(0, k) =~= s.subrange(0, k));
    } else {
        assert(s.subrange(0, k) =~= s);
    }
}

/// The integer that `s` spells, if it spells one that fits in `i64`.
pub fn parse_decimal(s: &[u8]) -> (r: Option<i64>)
    ensures
        match r {
            Some(v) => parse_int(s@) == Some(v as int),
            None => parse_int(s@) is None,
        },
{
    let signed = s.len() > 0 && (s[0] == MINUS || s[0] == PLUS);
    let negative = s.len() > 0 && s[0] == MINUS;
    let d0: usize = if signed {
        1
    } else {
        0
    };
    let ghost d = unsigned_part(s@);
    assert(d =~= s@.subrange(d0 as int, s@.len() as int));
    if d0 == s.len() {
        return None;
    }
    let mut acc: u64 = 0;
    let mut k: usize = d0;
    while k < s.len()
        invariant
            d0 <= k <= s.len(),
            d == s@.subrange(d0 as int, s@.len() as int),
            d == unsigned_part(s@),
            negative == (s@.len() > 0 && s@[0] == MINUS),
            acc as int == digits_value(s@.subrange(d0 as int, k as int)),
            acc <= 9223372036854775808u64,
            all_digits(s@.subrange(d0 as int, k as int)),
        decreases s.len() - k,
    {
        let b = s[k];
        if b < ZERO || b > NINE {
            assert(!is_digit(d[k - d0]));
            assert(!all_digits(d));
            return None;
        }
        let next: u128 = acc as u128 * 10 + (b - ZERO) as u128;
        let ghost pre = s@.subrange(d0 as int, k + 1);
        assert(pre.drop_last() =~= s@.subrange(d0 as int, k as int));
        assert(digits_value(pre) == next);
        if next > 9223372036854775808u128 {
            proof {
                if all_digits(d) {
                    assert(d.subrange(0, k + 1 - d0) =~= pre);
                    lemma_digits_value_prefix(d, k + 1 - d0);
                    assert(digits_value(d) > 9223372036854775808);
                    assert(!in_i64(digits_value(d) as int));
                    assert(!in_i64(-digits_value(d)));
                }
            }
            return None;
        }
        acc = next as u64;
        k = k + 1;
        assert(all_digits(s@.subrange(d0 as int, k as int)));
    }
    assert(s@.subrange(d0 as int, k as int) =~= d);
    if negative {
        if acc == 9223372036854775808u64 {
            Some(i64::MIN)
        } else {
            Some(-(acc as i64))
        }
    } else if acc > 9223372036854775807u64 {
        None
    } else {
        Some(acc as i64)
    }
}

/// End of the run of digits in `s` that starts at `i`.
pub fn scan_digits(s: &[u8], i: usize) -> (r: usize)
    requires
        i <= s@.len(),
    ensures
        r as int == digits_end(s@, i as int),
        i <= r <= s@.len(),
{
    let mut j = i;
    while j < s.len() && s[j] >= ZERO && s[j] <= NINE
        invariant
            i <= j <= s@.len(),
            digits_end(s@, i as int) == digits_end(s@, j as int),
        decreases s.len() - j,
    {
        j = j + 1;
    }
    j
}

/// Position after an optional sign at `i`.
pub fn scan_sign(s: &[u8], i: usize) -> (r: usize)
    requires
        i <= s@.len(),
    ensures
        r as int == sign_end(s@, i as int),
        i <= r <= s@.len(),
{
    if i < s.len() && (s[i] == PLUS || s[i] == MINUS) {
        i + 1
    } else {
        i
    }
}

/// Whether `s` is the decimal text of a double.
pub fn check_double_text(s: &[u8]) -> (r: bool)
    ensures
        r == is_double_text(s@),
{
    let a = scan_sign(s, 0);
    let b = scan_digits(s, a);
    let has_frac = b < s.len() && s[b] == DOT;
    let c = if has_frac {
        scan_digits(s, b + 1)
    } else {
        b
    };
    let has_exp = c < s.len() && (s[c] == LOWER_E || s[c] == UPPER_E);
    let d = if has_exp {
        let f = scan_sign(s, c + 1);
        scan_digits(s, f)
    } else {
        c
    };
    let frac_ok = !has_frac || c > b + 1;
    let exp_ok = !has_exp || d > scan_sign(s, c + 1);
    b > a && frac_ok && exp_ok && d == s.len()
}

/// Whether `s` is the text of a big number.
pub fn check_big_number_text(s: &[u8]) -> (r: bool)
    ensures
        r == is_big_number_text(s@),
{
    let a = scan_sign(s, 0);
    s.len() > a && scan_digits(s, a) == s.len()
}

} // verus!
