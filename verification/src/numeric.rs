//! Numeric text: the grammar of decimal integer and real-number tokens,
//! verified recognisers for them, and verified decimal rendering.
//!
//! A "real token" here is exactly the textual form of a real number that the
//! standard float parser accepts: an optional sign, then either one of the
//! special words `inf` / `infinity` / `nan` (case-insensitive) or a mantissa
//! (digits with at most one dot and at least one digit) followed by an
//! optional exponent (`e` or `E`, an optional sign, digits).

use vstd::prelude::*;

verus! {

/// A decimal digit.
pub open spec fn is_digit(c: char) -> bool {
    '0' <= c && c <= '9'
}

/// The numeric value of a decimal digit.
pub open spec fn digit_val(c: char) -> nat {
    (c as nat - '0' as nat) as nat
}

/// Every character of `s` is a decimal digit.
pub open spec fn all_digits(s: Seq<char>) -> bool {
    forall|i: int| 0 <= i < s.len() ==> is_digit(#[trigger] s[i])
}

/// A nonempty run of decimal digits.
pub open spec fn is_count_text(s: Seq<char>) -> bool {
    s.len() > 0 && all_digits(s)
}

/// The value of a digit string read in base ten.
pub open spec fn digits_val(s: Seq<char>) -> nat
    decreases s.len(),
{
    if s.len() == 0 {
        0
    } else {
        digits_val(s.drop_last()) * 10 + digit_val(s.last())
    }
}

/// An unsigned-integer token as the standard integer parser accepts it:
/// an optional leading `+`, then a nonempty run of digits.
pub open spec fn is_uint_text(s: Seq<char>) -> bool {
    if s.len() > 0 && s[0] == '+' {
        is_count_text(s.skip(1))
    } else {
        is_count_text(s)
    }
}

/// The value of an unsigned-integer token.
pub open spec fn uint_text_val(s: Seq<char>) -> nat {
    if s.len() > 0 && s[0] == '+' {
        digits_val(s.skip(1))
    } else {
        digits_val(s)
    }
}

/// An unsigned-integer token whose value fits in a byte.
pub open spec fn is_u8_text(s: Seq<char>) -> bool {
    is_uint_text(s) && uint_text_val(s) <= 255
}

/// A leading `+` or `-`.
pub open spec fn has_sign(s: Seq<char>) -> bool {
    s.len() > 0 && (s[0] == '+' || s[0] == '-')
}

/// `s` without its sign, if it carries one.
pub open spec fn strip_sign(s: Seq<char>) -> Seq<char> {
    if has_sign(s) {
        s.skip(1)
    } else {
        s
    }
}

/// A mantissa: only digits and dots, at least one digit, at most one dot.
pub open spec fn is_mantissa(s: Seq<char>) -> bool {
    &&& s.len() > 0
    &&& forall|i: int| 0 <= i < s.len() ==> is_digit(#[trigger] s[i]) || s[i] == '.'
    &&& exists|i: int| 0 <= i < s.len() && is_digit(#[trigger] s[i])
    &&& forall|i: int, j: int|
        0 <= i < j < s.len() ==> !(#[trigger] s[i] == '.' && #[trigger] s[j] == '.')
}

/// The exponent marker.
pub open spec fn is_exp_marker(c: char) -> bool {
    c == 'e' || c == 'E'
}

/// Digits with an optional leading sign.
pub open spec fn is_signed_count_text(s: Seq<char>) -> bool {
    is_count_text(strip_sign(s))
}

/// What may follow a mantissa: nothing, or an exponent marker with a
/// signed digit run.
pub open spec fn is_exp_suffix(s: Seq<char>) -> bool {
    s.len() == 0 || (is_exp_marker(s[0]) && is_signed_count_text(s.skip(1)))
}

/// An unsigned number: a mantissa followed by an optional exponent.
pub open spec fn is_number_text(s: Seq<char>) -> bool {
    exists|k: int|
        0 <= k <= s.len() && is_mantissa(#[trigger] s.take(k)) && is_exp_suffix(s.skip(k))
}

/// `c` is the lowercase letter `lo`, in either case.
pub open spec fn ci_is(c: char, lo: char) -> bool {
    c == lo || c as nat + 32 == lo as nat
}

/// The word `inf`, case-insensitive.
pub open spec fn is_inf_text(s: Seq<char>) -> bool {
    s.len() == 3 && ci_is(s[0], 'i') && ci_is(s[1], 'n') && ci_is(s[2], 'f')
}

/// The word `infinity`, case-insensitive.
pub open spec fn is_infinity_text(s: Seq<char>) -> bool {
    &&& s.len() == 8
    &&& ci_is(s[0], 'i')
    &&& ci_is(s[1], 'n')
    &&& ci_is(s[2], 'f')
    &&& ci_is(s[3], 'i')
    &&& ci_is(s[4], 'n')
    &&& ci_is(s[5], 'i')
    &&& ci_is(s[6], 't')
    &&& ci_is(s[7], 'y')
}

/// The word `nan`, case-insensitive.
pub open spec fn is_nan_text(s: Seq<char>) -> bool {
    s.len() == 3 && ci_is(s[0], 'n') && ci_is(s[1], 'a') && ci_is(s[2], 'n')
}

/// One of the special float words.
pub open spec fn is_special_text(s: Seq<char>) -> bool {
    is_inf_text(s) || is_infinity_text(s) || is_nan_text(s)
}

/// A real token: an optional sign, then a special word or a number.
pub open spec fn is_real_text(s: Seq<char>) -> bool {
    is_special_text(strip_sign(s)) || is_number_text(strip_sign(s))
}

/// Reading more digits never shrinks the value of a digit string.
pub proof fn lemma_digits_val_monotone(s: Seq<char>, i: int, j: int)
    requires
        0 <= i <= j <= s.len(),
    ensures
        digits_val(s.take(i)) <= digits_val(s.take(j)),
    decreases j - i,
{
    if i < j {
        lemma_digits_val_monotone(s, i, j - 1);
        assert(s.take(j).drop_last() =~= s.take(j - 1));
        assert(digits_val(s.take(j)) == digits_val(s.take(j - 1)) * 10 + digit_val(
            s.take(j).last(),
        ));
    } else {
        assert(s.take(i) =~= s.take(j));
    }
}

/// Materialise the characters of a string slice.
pub fn str_chars(s: &str) -> (v: Vec<char>)
    ensures
        v@ == s@,
{
    let n = s.unicode_len();
    let mut v: Vec<char> = Vec::new();
    let mut i: usize = 0;
    while i < n
        invariant
            i <= n,
            n == s@.len(),
            v@ == s@.take(i as int),
        decreases n - i,
    {
        let c = s.get_char(i);
        v.push(c);
        proof {
            assert(v@ =~= s@.take(i + 1 as int));
        }
        i += 1;
    }
    proof {
        assert(s@.take(n as int) =~= s@);
    }
    v
}

/// Parse the range `[lo, hi)` of `v` as an unsigned byte.
///
/// Returns the value exactly when the range is a byte token.
pub fn parse_u8_range(v: &Vec<char>, lo: usize, hi: usize) -> (r: Option<u8>)
    requires
        lo <= hi <= v@.len(),
    ensures
        r is Some <==> is_u8_text(v@.subrange(lo as int, hi as int)),
        r is Some ==> r.unwrap() as nat == uint_text_val(v@.subrange(lo as int, hi as int)),
{
    let ghost s = v@.subrange(lo as int, hi as int);
    let mut start = lo;
    if lo < hi && v[lo] == '+' {
        start = lo + 1;
    }
    let ghost d = if s.len() > 0 && s[0] == '+' {
        s.skip(1)
    } else {
        s
    };
    proof {
        assert(d =~= v@.subrange(start as int, hi as int));
        assert(is_u8_text(s) == (is_count_text(d) && digits_val(d) <= 255));
        assert(uint_text_val(s) == digits_val(d));
    }
    if start == hi {
        return None;
    }
    let mut i = start;
    let mut acc: u32 = 0;
    while i < hi
        invariant
            start <= i <= hi <= v@.len(),
            d =~= v@.subrange(start as int, hi as int),
            d.len() > 0,
            is_u8_text(v@.subrange(lo as int, hi as int)) == (is_count_text(d) && digits_val(d)
                <= 255),
            uint_text_val(v@.subrange(lo as int, hi as int)) == digits_val(d),
            all_digits(d.take(i - start)),
            acc as nat == digits_val(d.take(i - start)),
            acc <= 255,
        decreases hi - i,
    {
        let c = v[i];
        if !('0' <= c && c <= '9') {
            proof {
                assert(d[i - start] == c);
                assert(!is_digit(d[i - start]));
                assert(!all_digits(d));
                assert(!is_count_text(d));
            }
            return None;
        }
        let digit: u32 = (c as u32) - ('0' as u32);
        proof {
            assert(digit_val(c) == digit as nat);
        }
        acc = acc * 10 + digit;
        proof {
            let t = d.take(i + 1 - start);
            assert(t.drop_last() =~= d.take(i - start));
            assert(t.last() == d[i - start]);
            assert(d[i - start] == c);
            assert(digits_val(t) == digits_val(d.take(i - start)) * 10 + digit_val(c));
        }
        if acc > 255 {
            proof {
                lemma_digits_val_monotone(d, i + 1 - start, d.len() as int);
                assert(d.take(d.len() as int) =~= d);
                assert(digits_val(d) > 255);
            }
            return None;
        }
        i += 1;
    }
    proof {
        assert(d.take(i - start) =~= d);
        assert(is_count_text(d));
    }
    Some(acc as u8)
}

/// All characters in `[lo, hi)` are digits.
fn digits_range(v: &Vec<char>, lo: usize, hi: usize) -> (r: bool)
    requires
        lo <= hi <= v@.len(),
    ensures
        r == is_count_text(v@.subrange(lo as int, hi as int)),
{
    let ghost s = v@.subrange(lo as int, hi as int);
    if lo == hi {
        return false;
    }
    let mut i = lo;
    while i < hi
        invariant
            lo <= i <= hi <= v@.len(),
            s =~= v@.subrange(lo as int, hi as int),
            forall|k: int| 0 <= k < i - lo ==> is_digit(#[trigger] s[k]),
        decreases hi - i,
    {
        let c = v[i];
        if !('0' <= c && c <= '9') {
            proof {
                assert(s[i - lo] == c);
            }
            return false;
        }
        proof {
            assert(s[i - lo] == c);
        }
        i += 1;
    }
    true
}

/// The range `[lo, hi)` is a signed digit run.
fn signed_digits_range(v: &Vec<char>, lo: usize, hi: usize) -> (r: bool)
    requires
        lo <= hi <= v@.len(),
    ensures
        r == is_signed_count_text(v@.subrange(lo as int, hi as int)),
{
    let ghost s = v@.subrange(lo as int, hi as int);
    let mut start = lo;
    if lo < hi && (v[lo] == '+' || v[lo] == '-') {
        start = lo + 1;
    }
    proof {
        assert(strip_sign(s) =~= v@.subrange(start as int, hi as int));
    }
    digits_range(v, start, hi)
}

/// The range `[lo, hi)` is a mantissa.
fn mantissa_range(v: &Vec<char>, lo: usize, hi: usize) -> (r: bool)
    requires
        lo <= hi <= v@.len(),
    ensures
        r == is_mantissa(v@.subrange(lo as int, hi as int)),
{
    let ghost s = v@.subrange(lo as int, hi as int);
    let mut i = lo;
    let mut saw_digit = false;
    let mut saw_dot = false;
    while i < hi
        invariant
            lo <= i <= hi <= v@.len(),
            s =~= v@.subrange(lo as int, hi as int),
            forall|k: int| 0 <= k < i - lo ==> is_digit(#[trigger] s[k]) || s[k] == '.',
            saw_digit == exists|k: int| 0 <= k < i - lo && is_digit(#[trigger] s[k]),
            saw_dot == exists|k: int| 0 <= k < i - lo && #[trigger] s[k] == '.',
            forall|k: int, l: int|
                0 <= k < l < i - lo ==> !(#[trigger] s[k] == '.' && #[trigger] s[l] == '.'),
        decreases hi - i,
    {
        let c = v[i];
        proof {
            assert(s[i - lo] == c);
        }
        if '0' <= c && c <= '9' {
            saw_digit = true;
        } else if c == '.' {
            if saw_dot {
                proof {
                    let k = choose|k: int| 0 <= k < i - lo && #[trigger] s[k] == '.';
                    assert(s[k] == '.' && s[i - lo] == '.');
                    assert(!is_mantissa(s));
                }
                return false;
            }
            saw_dot = true;
        } else {
            proof {
                assert(!(is_digit(s[i - lo]) || s[i - lo] == '.'));
            }
            return false;
        }
        i += 1;
    }
    if lo == hi {
        return false;
    }
    saw_digit
}

/// The range `[lo, hi)` is one of the special float words.
fn special_range(v: &Vec<char>, lo: usize, hi: usize) -> (r: bool)
    requires
        lo <= hi <= v@.len(),
    ensures
        r == is_special_text(v@.subrange(lo as int, hi as int)),
{
    let ghost s = v@.subrange(lo as int, hi as int);
    let len = hi - lo;
    if len == 3 {
        let inf = ci_eq(v[lo], 'i') && ci_eq(v[lo + 1], 'n') && ci_eq(v[lo + 2], 'f');
        let nan = ci_eq(v[lo], 'n') && ci_eq(v[lo + 1], 'a') && ci_eq(v[lo + 2], 'n');
        proof {
            assert(s[0] == v@[lo as int] && s[1] == v@[lo + 1 as int] && s[2] == v@[lo + 2 as int]);
        }
        inf || nan
    } else if len == 8 {
        let r = ci_eq(v[lo], 'i') && ci_eq(v[lo + 1], 'n') && ci_eq(v[lo + 2], 'f') && ci_eq(
            v[lo + 3],
            'i',
        ) && ci_eq(v[lo + 4], 'n') && ci_eq(v[lo + 5], 'i') && ci_eq(v[lo + 6], 't') && ci_eq(
            v[lo + 7],
            'y',
        );
        proof {
            assert(forall|k: int| 0 <= k < 8 ==> #[trigger] s[k] == v@[lo + k]);
        }
        r
    } else {
        false
    }
}

/// Case-insensitive match of one character against a lowercase letter.
fn ci_eq(c: char, lo: char) -> (r: bool)
    ensures
        r == ci_is(c, lo),
{
    c == lo || (c as u32) + 32 == (lo as u32)
}

/// A number splits only at its first exponent marker.
proof fn lemma_number_split(s: Seq<char>, p: int)
    requires
        0 <= p <= s.len(),
        forall|i: int| 0 <= i < p ==> !is_exp_marker(#[trigger] s[i]),
        p < s.len() ==> is_exp_marker(s[p]),
    ensures
        is_number_text(s) <==> (is_mantissa(s.take(p)) && is_exp_suffix(s.skip(p))),
{
    if is_mantissa(s.take(p)) && is_exp_suffix(s.skip(p)) {
        assert(is_number_text(s));
    }
    if is_number_text(s) {
        let k = choose|k: int|
            0 <= k <= s.len() && is_mantissa(#[trigger] s.take(k)) && is_exp_suffix(s.skip(k));
        // no exponent marker can stand inside the mantissa
        assert(forall|i: int| 0 <= i < k ==> !is_exp_marker(#[trigger] s[i])) by {
            assert forall|i: int| 0 <= i < k implies !is_exp_marker(#[trigger] s[i]) by {
                assert(s.take(k)[i] == s[i]);
                assert(is_digit(s.take(k)[i]) || s.take(k)[i] == '.');
            }
        }
        if k < s.len() {
            assert(s.skip(k).len() > 0);
            assert(is_exp_marker(s.skip(k)[0]));
            assert(s.skip(k)[0] == s[k]);
            assert(p <= k);
            assert(p < s.len());
            if p < k {
                assert(!is_exp_marker(s[p]));
            }
            assert(k == p);
        } else {
            assert(k == s.len());
            if p < s.len() {
                assert(!is_exp_marker(s[p]));
            }
            assert(p == s.len());
        }
        assert(k == p);
    }
}

/// The range `[lo, hi)` is a number.
fn number_range(v: &Vec<char>, lo: usize, hi: usize) -> (r: bool)
    requires
        lo <= hi <= v@.len(),
    ensures
        r == is_number_text(v@.subrange(lo as int, hi as int)),
{
    let ghost s = v@.subrange(lo as int, hi as int);
    // find the first exponent marker
    let mut p = lo;
    while p < hi && !(v[p] == 'e' || v[p] == 'E')
        invariant
            lo <= p <= hi <= v@.len(),
            s =~= v@.subrange(lo as int, hi as int),
            forall|k: int| 0 <= k < p - lo ==> !is_exp_marker(#[trigger] s[k]),
        decreases hi - p,
    {
        proof {
            assert(s[p - lo] == v@[p as int]);
        }
        p += 1;
    }
    proof {
        if p < hi {
            assert(s[p - lo] == v@[p as int]);
            assert(is_exp_marker(s[p - lo]));
        }
        lemma_number_split(s, p - lo);
        assert(s.take(p - lo) =~= v@.subrange(lo as int, p as int));
    }
    if !mantissa_range(v, lo, p) {
        return false;
    }
    if p == hi {
        proof {
            assert(s.skip(p - lo) =~= Seq::<char>::empty());
        }
        return true;
    }
    proof {
        assert(s.skip(p - lo) =~= v@.subrange(p as int, hi as int));
        assert(s.skip(p - lo)[0] == s[p - lo]);
        assert(s.skip(p - lo).skip(1) =~= v@.subrange(p + 1 as int, hi as int));
        assert(strip_sign(s.skip(p - lo).skip(1)) == strip_sign(
            v@.subrange(p + 1 as int, hi as int),
        ));
    }
    signed_digits_range(v, p + 1, hi)
}

/// The range `[lo, hi)` is a real token.
pub fn real_range(v: &Vec<char>, lo: usize, hi: usize) -> (r: bool)
    requires
        lo <= hi <= v@.len(),
    ensures
        r == is_real_text(v@.subrange(lo as int, hi as int)),
{
    let ghost s = v@.subrange(lo as int, hi as int);
    let mut start = lo;
    if lo < hi && (v[lo] == '+' || v[lo] == '-') {
        start = lo + 1;
    }
    proof {
        assert(strip_sign(s) =~= v@.subrange(start as int, hi as int));
    }
    if special_range(v, start, hi) {
        return true;
    }
    number_range(v, start, hi)
}

/// Whether a string is a real token.
pub fn is_real_token(s: &str) -> (r: bool)
    ensures
        r == is_real_text(s@),
{
    let v = str_chars(s);
    let n = v.len();
    proof {
        assert(v@.subrange(0, n as int) =~= s@);
    }
    real_range(&v, 0, n)
}

/// The character of one decimal digit.
pub open spec fn digit_char(d: nat) -> char {
    if d == 0 {
        '0'
    } else if d == 1 {
        '1'
    } else if d == 2 {
        '2'
    } else if d == 3 {
        '3'
    } else if d == 4 {
        '4'
    } else if d == 5 {
        '5'
    } else if d == 6 {
        '6'
    } else if d == 7 {
        '7'
    } else if d == 8 {
        '8'
    } else {
        '9'
    }
}

/// The decimal rendering of a natural number, most significant digit first.
pub open spec fn dec_seq(n: nat) -> Seq<char>
    decreases n,
{
    if n < 10 {
        seq![digit_char(n)]
    } else {
        dec_seq(n / 10) + seq![digit_char(n % 10)]
    }
}

/// A decimal rendering is a nonempty digit run that reads back to its value.
pub proof fn lemma_dec_seq(n: nat)
    ensures
        dec_seq(n).len() > 0,
        all_digits(dec_seq(n)),
        digits_val(dec_seq(n)) == n,
        dec_seq(n)[0] != '+',
    decreases n,
{
    if n < 10 {
        let s = dec_seq(n);
        assert(s =~= seq![digit_char(n)]);
        assert(s.drop_last() =~= Seq::<char>::empty());
        assert(s.last() == digit_char(n));
        assert(digits_val(s.drop_last()) == 0);
        assert(digits_val(s) == digits_val(s.drop_last()) * 10 + digit_val(s.last()));
        assert(digit_val(digit_char(n)) == n);
        assert(is_digit(digit_char(n)));
        assert(s[0] == digit_char(n));
    } else {
        lemma_dec_seq(n / 10);
        let s = dec_seq(n);
        assert(s =~= dec_seq(n / 10) + seq![digit_char(n % 10)]);
        assert(s.drop_last() =~= dec_seq(n / 10));
        assert(s.last() == digit_char(n % 10));
        assert(digit_val(digit_char(n % 10)) == n % 10);
        assert(is_digit(digit_char(n % 10)));
        assert(digits_val(s) == (n / 10) * 10 + n % 10);
        assert((n / 10) * 10 + n % 10 == n) by (nonlinear_arith);
        assert forall|i: int| 0 <= i < s.len() implies is_digit(#[trigger] s[i]) by {
            if i < s.len() - 1 {
                assert(s[i] == dec_seq(n / 10)[i]);
            }
        }
    }
}

/// One decimal digit as a string slice.
fn digit_str(d: u8) -> (s: &'static str)
    requires
        d < 10,
    ensures
        s@ =~= seq![digit_char(d as nat)],
{
    proof {
        reveal_strlit("0");
        reveal_strlit("1");
        reveal_strlit("2");
        reveal_strlit("3");
        reveal_strlit("4");
        reveal_strlit("5");
        reveal_strlit("6");
        reveal_strlit("7");
        reveal_strlit("8");
        reveal_strlit("9");
    }
    match d {
        0 => "0",
        1 => "1",
        2 => "2",
        3 => "3",
        4 => "4",
        5 => "5",
        6 => "6",
        7 => "7",
        8 => "8",
        _ => "9",
    }
}

/// Render a number in decimal.
pub fn to_decimal(n: u128) -> (s: String)
    ensures
        s@ == dec_seq(n as nat),
    decreases n,
{
    if n < 10 {
        String::from_str(digit_str(n as u8))
    } else {
        let mut s = to_decimal(n / 10);
        s.append(digit_str((n % 10) as u8));
        proof {
            assert(s@ =~= dec_seq(n as nat));
        }
        s
    }
}

} // verus!
