//! Plain-text number handling: decimal rendering of counters and ids,
//! fixed-point reading and writing of USD amounts (micro-USD), and
//! truncation of messages by code points.

use vstd::prelude::*;
use vstd::string::{StrSliceExecFns, StringExecFns};

verus! {

/// `c` is a decimal digit.
pub open spec fn is_digit(c: char) -> bool {
    '0' as int <= c as int && c as int <= '9' as int
}

/// Numeric value of a digit character.
pub open spec fn digit_val(c: char) -> int {
    c as int - '0' as int
}

/// Digit character of `d` (meaningful for `0 <= d <= 9`).
pub open spec fn digit_char(d: int) -> char {
    if d == 0 {
        '0'
    } else if d == 1 {
        '1'
    } else if d == 2 {
        '2'
    } else if d == 3 {
        '3'
    } else if d == 4 {
        '4'
    } else if d == 5 {
        '5'
    } else if d == 6 {
        '6'
    } else if d == 7 {
        '7'
    } else if d == 8 {
        '8'
    } else {
        '9'
    }
}

/// Decimal text of `n`: most significant digit first, no leading zeros.
pub open spec fn dec_str(n: nat) -> Seq<char>
    decreases n,
{
    if n < 10 {
        seq![digit_char(n as int)]
    } else {
        dec_str(n / 10) + seq![digit_char((n % 10) as int)]
    }
}

pub proof fn lemma_dec_str_len_pos(n: nat)
    ensures
        dec_str(n).len() >= 1,
        n >= 10 ==> dec_str(n).len() >= 2,
    decreases n,
{
    if n >= 10 {
        lemma_dec_str_len_pos(n / 10);
    }
}

/// Different numbers render as different decimal texts.
pub proof fn lemma_dec_str_injective(m: nat, n: nat)
    requires
        m != n,
    ensures
        dec_str(m) != dec_str(n),
    decreases m + n,
{
    lemma_dec_str_len_pos(m);
    lemma_dec_str_len_pos(n);
    if m < 10 && n < 10 {
        assert(dec_str(m)[0] == digit_char(m as int));
        assert(dec_str(n)[0] == digit_char(n as int));
        assert(digit_char(m as int) != digit_char(n as int));
    } else if m < 10 || n < 10 {
        // one text has a single digit, the other at least two
        assert(dec_str(m).len() != dec_str(n).len());
    } else {
        assert(dec_str(m).last() == digit_char((m % 10) as int));
        assert(dec_str(n).last() == digit_char((n % 10) as int));
        if m % 10 != n % 10 {
            assert(digit_char((m % 10) as int) != digit_char((n % 10) as int));
        } else {
            assert(m / 10 != n / 10);
            lemma_dec_str_injective(m / 10, n / 10);
            assert(dec_str(m).drop_last() =~= dec_str(m / 10));
            assert(dec_str(n).drop_last() =~= dec_str(n / 10));
        }
    }
}

/// Every character of `s` is a decimal digit.
pub open spec fn all_digits(s: Seq<char>) -> bool {
    forall|i: int| 0 <= i < s.len() ==> is_digit(#[trigger] s[i])
}

/// Value of a digit string, most significant digit first.
pub open spec fn dec_val(s: Seq<char>) -> int
    decreases s.len(),
{
    if s.len() == 0 {
        0
    } else {
        dec_val(s.drop_last()) * 10 + digit_val(s.last())
    }
}

pub open spec fn pow10(k: nat) -> nat
    decreases k,
{
    if k == 0 {
        1
    } else {
        10 * pow10((k - 1) as nat)
    }
}

pub proof fn lemma_dec_val_bound(s: Seq<char>)
    requires
        all_digits(s),
    ensures
        0 <= dec_val(s) < pow10(s.len()),
    decreases s.len(),
{
    if s.len() == 0 {
    } else {
        assert(forall|i: int|
            0 <= i < s.drop_last().len() ==> is_digit(#[trigger] s.drop_last()[i]));
        lemma_dec_val_bound(s.drop_last());
        assert(is_digit(s.last()));
    }
}

/// Index of the first occurrence of `c` in `s`, or `s.len()` when absent.
pub open spec fn find_char(s: Seq<char>, c: char) -> int
    decreases s.len(),
{
    if s.len() == 0 {
        0
    } else if s[0] == c {
        0
    } else {
        1 + find_char(s.drop_first(), c)
    }
}

pub proof fn lemma_find_char_is(s: Seq<char>, c: char, k: int)
    requires
        0 <= k <= s.len(),
        forall|j: int| 0 <= j < k ==> s[j] != c,
        k < s.len() ==> s[k] == c,
    ensures
        find_char(s, c) == k,
    decreases s.len(),
{
    if s.len() == 0 {
    } else if s[0] == c {
        assert(k == 0);
    } else {
        assert(k >= 1);
        let t = s.drop_first();
        assert(forall|j: int| 0 <= j < k - 1 ==> t[j] != c);
        lemma_find_char_is(t, c, k - 1);
    }
}

pub fn digit_str(d: u64) -> (r: &'static str)
    requires
        d < 10,
    ensures
        r@ =~= seq![digit_char(d as int)],
{
    proof {
        reveal_strlit("0");
        reveal_strlit("1");
        reveal_strlit("2");
        reveal_strlit("3");
        reveal_strlit("4");
        reveal_strlit("5");
        reveal_strlit("6");
        reveal_strlit("7");
        reveal_strlit("8");
        reveal_strlit("9");
    }
    match d {
        0 => "0",
        1 => "1",
        2 => "2",
        3 => "3",
        4 => "4",
        5 => "5",
        6 => "6",
        7 => "7",
        8 => "8",
        _ => "9",
    }
}

/// Decimal text of `n`.
pub fn u64_to_dec(n: u64) -> (r: String)
    ensures
        r@ == dec_str(n as nat),
    decreases n,
{
    if n < 10 {
        String::from_str(digit_str(n))
    } else {
        proof {
            assert(n / 10 < n) by (nonlinear_arith)
                requires
                    n >= 10,
            ;
        }
        let rest = u64_to_dec(n / 10);
        rest.concat(digit_str(n % 10))
    }
}

/// Value in micro-units of a plain decimal amount text (`"1.5"` is
/// 1_500_000).  Accepted: an integer part of at most twelve digits, an
/// optional `.` and a fraction, at least one digit in all.  The fraction
/// is read to six places; further places are ignored.
pub open spec fn micro_of_plain(s: Seq<char>) -> Option<int> {
    let d = find_char(s, '.');
    let ip = s.take(d);
    let fp = if d == s.len() {
        Seq::<char>::empty()
    } else {
        s.skip(d + 1)
    };
    if !(all_digits(ip) && all_digits(fp)) {
        None
    } else if ip.len() == 0 && fp.len() == 0 {
        None
    } else if ip.len() > 12 {
        None
    } else {
        let f6 = if fp.len() > 6 {
            fp.take(6)
        } else {
            fp
        };
        Some(dec_val(ip) * 1000000 + dec_val(f6) * frac_scale(f6.len() as int))
    }
}

/// Scale that brings a fraction of `k` digits to micro-units.
pub open spec fn frac_scale(k: int) -> int {
    if k <= 0 {
        1000000
    } else if k == 1 {
        100000
    } else if k == 2 {
        10000
    } else if k == 3 {
        1000
    } else if k == 4 {
        100
    } else if k == 5 {
        10
    } else {
        1
    }
}

fn frac_scale_exec(k: usize) -> (r: u64)
    ensures
        r as int == frac_scale(k as int),
{
    if k == 0 {
        1000000
    } else if k == 1 {
        100000
    } else if k == 2 {
        10000
    } else if k == 3 {
        1000
    } else if k == 4 {
        100
    } else if k == 5 {
        10
    } else {
        1
    }
}

/// Read a plain decimal amount (no exponent part) as micro-units.
#[verifier::loop_isolation(false)]
fn parse_micro_plain(s: &str) -> (r: Option<u64>)
    ensures
        match r {
            Some(v) => micro_of_plain(s@) == Some(v as int),
            None => micro_of_plain(s@) is None,
        },
{
    let n = s.unicode_len();
    // locate the first '.', if any
    let mut d: usize = 0;
    let mut found = false;
    while !found && d < n
        invariant
            d <= n,
            n == s@.len(),
            forall|j: int| 0 <= j < d ==> s@[j] != '.',
            found ==> d < n && s@[d as int] == '.',
        decreases n - d, (if found { 0int } else { 1int }),
    {
        if s.get_char(d) == '.' {
            found = true;
        } else {
            d += 1;
        }
    }
    proof {
        lemma_find_char_is(s@, '.', d as int);
    }
    let ghost ip = s@.take(d as int);
    let ghost fp = if d == n { Seq::<char>::empty() } else { s@.skip(d as int + 1) };

    if d == 0 && (d == n || d + 1 == n) {
        // no digits at all
        assert(ip.len() == 0 && fp.len() == 0);
        return None;
    }

    // integer part
    let mut i: usize = 0;
    let mut int_acc: u64 = 0;
    while i < d
        invariant
            i <= d,
            d <= n,
            n == s@.len(),
            ip == s@.take(d as int),
            forall|j: int| 0 <= j < i ==> is_digit(#[trigger] s@[j]),
            i <= 12,
            int_acc as int == dec_val(s@.take(i as int)),
        decreases d - i,
    {
        let c = s.get_char(i);
        let cu = c as u32;
        if !('0' as u32 <= cu && cu <= '9' as u32) {
            proof {
                assert(c as int == cu as int);
                assert(ip[i as int] == s@[i as int]);
                assert(!is_digit(ip[i as int]));
                assert(!all_digits(ip));
                assert(micro_of_plain(s@) is None);
            }
            return None;
        }
        if i >= 12 {
            // thirteen or more integer digits: out of range
            proof {
                assert(ip.len() > 12);
                assert(micro_of_plain(s@) is None);
            }
            return None;
        }
        proof {
            assert(forall|j: int|
                0 <= j < i ==> is_digit(#[trigger] s@.take(i as int)[j]));
            lemma_dec_val_bound(s@.take(i as int));
            assert(pow10(12) == 1000000000000) by {
                reveal_with_fuel(pow10, 13);
            }
            assert(pow10(i as nat) <= pow10(12)) by {
                lemma_pow10_le(i as nat, 12);
            }
            assert(s@.take(i as int + 1).drop_last() =~= s@.take(i as int));
            assert(s@.take(i as int + 1).last() == s@[i as int]);
        }
        let dv = (cu - '0' as u32) as u64;
        int_acc = int_acc * 10 + dv;
        i += 1;
    }
    proof {
        assert(forall|j: int| 0 <= j < ip.len() ==> #[trigger] ip[j] == s@[j]);
        assert(all_digits(ip));
        assert(int_acc as int == dec_val(ip));
    }

    // fraction
    let mut facc: u64 = 0;
    let mut fcount: usize = 0;
    if d < n {
        let mut k: usize = d + 1;
        while k < n
            invariant
                d < n,
                d + 1 <= k <= n,
                n == s@.len(),
                fp == s@.skip(d as int + 1),
                forall|j: int| d + 1 <= j < k ==> is_digit(#[trigger] s@[j]),
                fcount == if k - (d + 1) > 6 { 6int } else { k - d - 1 },
                facc as int == dec_val(fp.take(fcount as int)),
                facc < 1000000,
            decreases n - k,
        {
            let c = s.get_char(k);
            let cu = c as u32;
            if !('0' as u32 <= cu && cu <= '9' as u32) {
                proof {
                    assert(c as int == cu as int);
                    assert(fp[k - d - 1] == s@[k as int]);
                    assert(!is_digit(fp[k - d - 1]));
                    assert(!all_digits(fp));
                    assert(micro_of_plain(s@) is None);
                }
                return None;
            }
            if fcount < 6 {
                proof {
                    assert(fp.take(fcount as int + 1).drop_last() =~= fp.take(fcount as int));
                    assert(fp.take(fcount as int + 1).last() == fp[fcount as int]);
                    assert(fp[fcount as int] == s@[k as int]);
                    assert(forall|j: int|
                        0 <= j < fcount + 1 ==> is_digit(
                            #[trigger] fp.take(fcount as int + 1)[j],
                        ));
                    lemma_dec_val_bound_digits(fp.take(fcount as int + 1));
                    assert(pow10(6) == 1000000) by {
                        reveal_with_fuel(pow10, 8);
                    }
                    lemma_pow10_le((fcount + 1) as nat, 6);
                }
                let dv = (cu - '0' as u32) as u64;
                facc = facc * 10 + dv;
                fcount += 1;
            }
            k += 1;
        }
        proof {
            assert(forall|j: int| 0 <= j < fp.len() ==> #[trigger] fp[j] == s@[d + 1 + j]);
            assert(all_digits(fp));
        }
    }
    let ghost f6 = if fp.len() > 6 { fp.take(6) } else { fp };
    proof {
        if fp.len() > 6 {
            assert(fcount == 6);
            assert(f6 == fp.take(fcount as int));
        } else {
            assert(fcount == fp.len());
            assert(fp.take(fcount as int) =~= fp);
        }
        assert(facc as int == dec_val(f6));
        assert(all_digits(ip));
        lemma_dec_val_bound(ip);
        assert(pow10(12) == 1000000000000) by {
            reveal_with_fuel(pow10, 13);
        }
        lemma_pow10_le(ip.len(), 12);
        assert(dec_val(ip) < 1000000000000);
    }
    let scale = frac_scale_exec(fcount);
    proof {
        assert(facc * scale <= 999999 * 1000000) by (nonlinear_arith)
            requires
                facc < 1000000,
                scale <= 1000000,
                facc as int * (frac_scale(fcount as int)) == facc as int * scale as int,
                fcount > 0 ==> scale <= 100000,
                fcount == 0 ==> facc == 0,
            ;
        assert(int_acc <= 999999999999);
        assert(int_acc * 1000000 <= 999999999999u64 * 1000000) by (nonlinear_arith)
            requires
                int_acc <= 999999999999u64,
            ;
    }
    let v = int_acc * 1000000 + facc * scale;
    Some(v)
}

pub proof fn lemma_pow10_le(a: nat, b: nat)
    requires
        a <= b,
    ensures
        pow10(a) <= pow10(b),
    decreases b,
{
    if a < b {
        lemma_pow10_le(a, (b - 1) as nat);
        assert(pow10(b) == 10 * pow10((b - 1) as nat));
        assert(pow10((b - 1) as nat) >= 1) by {
            lemma_pow10_pos((b - 1) as nat);
        }
    }
}

pub proof fn lemma_pow10_pos(k: nat)
    ensures
        pow10(k) >= 1,
    decreases k,
{
    if k > 0 {
        lemma_pow10_pos((k - 1) as nat);
    }
}

proof fn lemma_dec_val_bound_digits(s: Seq<char>)
    requires
        forall|i: int| 0 <= i < s.len() ==> is_digit(#[trigger] s[i]),
    ensures
        0 <= dec_val(s) < pow10(s.len()),
{
    lemma_dec_val_bound(s);
}

/// `s` cut to its first `max` code points (unchanged when short enough).
pub open spec fn spec_truncate(s: Seq<char>, max: int) -> Seq<char> {
    if s.len() <= max {
        s
    } else {
        s.take(max)
    }
}

/// Cut `s` to at most `max` code points.
pub fn truncate_chars(s: &str, max: usize) -> (r: String)
    ensures
        r@ == spec_truncate(s@, max as int),
{
    let n = s.unicode_len();
    if n <= max {
        s.to_owned()
    } else {
        let cut = s.substring_char(0, max);
        let r = cut.to_owned();
        proof {
            assert(r@ =~= s@.take(max as int));
        }
        r
    }
}

/// Decimal text of a micro-USD amount in whole USD with six decimal
/// places (`1_500_000` is `"1.500000"`).
pub open spec fn micro_text(m: nat) -> Seq<char> {
    dec_str(m / 1000000) + seq!['.'] + dec_str((1000000 + m % 1000000) as nat).skip(1)
}

pub proof fn lemma_dec_str_len(n: nat, k: nat)
    requires
        pow10(k) <= n < pow10(k + 1),
    ensures
        dec_str(n).len() == k + 1,
    decreases k,
{
    if k == 0 {
        assert(pow10(0) == 1);
        assert(pow10(1) == 10) by {
            reveal_with_fuel(pow10, 2);
        }
    } else {
        assert(pow10(k + 1) == 10 * pow10(k));
        assert(pow10(k) == 10 * pow10((k - 1) as nat));
        assert(n >= 10) by {
            lemma_pow10_pos((k - 1) as nat);
        }
        assert(pow10((k - 1) as nat) <= n / 10 < pow10(k)) by (nonlinear_arith)
            requires
                10 * pow10((k - 1) as nat) <= n < 10 * pow10(k),
        ;
        lemma_dec_str_len(n / 10, (k - 1) as nat);
    }
}

/// Render a micro-USD amount as USD text with six decimal places.
pub fn micro_to_text(m: u64) -> (r: String)
    ensures
        r@ == micro_text(m as nat),
{
    let whole = m / 1000000;
    let frac = m % 1000000;
    let padded = 1000000 + frac;
    proof {
        assert(pow10(6) == 1000000 && pow10(7) == 10000000) by {
            reveal_with_fuel(pow10, 8);
        }
        lemma_dec_str_len(padded as nat, 6);
    }
    let w = u64_to_dec(whole);
    let p = u64_to_dec(padded);
    let tail = p.as_str().substring_char(1, 7);
    let r = w.concat(".").concat(tail);
    proof {
        reveal_strlit(".");
        assert(dec_str(padded as nat).skip(1) =~= dec_str(padded as nat).subrange(
            1,
            dec_str(padded as nat).len() as int,
        ));
        assert(r@ =~= micro_text(m as nat));
    }
    r
}


/// A character opening an exponent part.
pub open spec fn is_exp_char(c: char) -> bool {
    c == 'e' || c == 'E'
}

/// Index of the first exponent marker in `s`, or `s.len()` when absent.
pub open spec fn find_exp(s: Seq<char>) -> int
    decreases s.len(),
{
    if s.len() == 0 {
        0
    } else if is_exp_char(s[0]) {
        0
    } else {
        1 + find_exp(s.drop_first())
    }
}

pub proof fn lemma_find_exp_is(s: Seq<char>, k: int)
    requires
        0 <= k <= s.len(),
        forall|j: int| 0 <= j < k ==> !is_exp_char(s[j]),
        k < s.len() ==> is_exp_char(s[k]),
    ensures
        find_exp(s) == k,
    decreases s.len(),
{
    if s.len() == 0 {
    } else if is_exp_char(s[0]) {
        assert(k == 0);
    } else {
        assert(k >= 1);
        let t = s.drop_first();
        assert(forall|j: int| 0 <= j < k - 1 ==> !is_exp_char(t[j]));
        lemma_find_exp_is(t, k - 1);
    }
}

/// The signed value of an exponent part: an optional sign, then one to
/// four digits.
pub open spec fn exp_value(x: Seq<char>) -> Option<int> {
    let digs = if x.len() > 0 && (x[0] == '+' || x[0] == '-') {
        x.skip(1)
    } else {
        x
    };
    if digs.len() == 0 || digs.len() > 4 || !all_digits(digs) {
        None
    } else if x.len() > 0 && x[0] == '-' {
        Some(-dec_val(digs))
    } else {
        Some(dec_val(digs))
    }
}

/// A mantissa's digit value and fraction length: up to thirty digits
/// with the point anywhere, at least one digit in all.
pub open spec fn mant_digits(mant: Seq<char>) -> Option<(int, int)> {
    let d = find_char(mant, '.');
    let ip = mant.take(d);
    let fp = if d == mant.len() {
        Seq::<char>::empty()
    } else {
        mant.skip(d + 1)
    };
    let digits = ip + fp;
    if !(all_digits(ip) && all_digits(fp)) {
        None
    } else if digits.len() == 0 || digits.len() > 30 {
        None
    } else {
        Some((dec_val(digits), fp.len() as int))
    }
}

/// The micro-unit value a digit value `m` with `fl` fraction digits
/// takes under an exponent of `ev`: scaled by ten to the exponent and
/// brought to micro-units, remaining fractions dropped.
pub open spec fn scaled_micro(m: int, fl: int, ev: int) -> int {
    let k = 6 + ev - fl;
    if k >= 0 {
        m * pow10(k as nat)
    } else {
        m / (pow10((-k) as nat) as int)
    }
}

/// Micro-units of a mantissa and exponent part; `None` when either has
/// the wrong shape or the value does not fit a counter.
pub open spec fn micro_of_exp(mant: Seq<char>, x: Seq<char>) -> Option<int> {
    match (mant_digits(mant), exp_value(x)) {
        (Some(md), Some(ev)) => {
            if scaled_micro(md.0, md.1, ev) <= u64::MAX {
                Some(scaled_micro(md.0, md.1, ev))
            } else {
                None
            }
        },
        _ => None,
    }
}

/// Value in micro-units of a decimal amount text: the plain grammar of
/// `micro_of_plain`, or a mantissa with an exponent part read by
/// `micro_of_exp`.  Signs on the amount itself and anything else give
/// `None`.
pub open spec fn micro_of_text(s: Seq<char>) -> Option<int> {
    let e = find_exp(s);
    if e == s.len() {
        micro_of_plain(s)
    } else {
        micro_of_exp(s.take(e), s.skip(e + 1))
    }
}

/// Ten to the `k`, computed within a wide word.
#[verifier::loop_isolation(false)]
fn pow10_u128(k: usize) -> (r: u128)
    requires
        k <= 38,
    ensures
        r as int == pow10(k as nat),
{
    proof {
        assert(pow10(38) == 100000000000000000000000000000000000000) by {
            reveal_with_fuel(pow10, 39);
        }
    }
    let mut r: u128 = 1;
    let mut t: usize = 0;
    while t < k
        invariant
            t <= k,
            r as int == pow10(t as nat),
        decreases k - t,
    {
        proof {
            lemma_pow10_le(t as nat + 1, 38);
        }
        r = r * 10;
        t += 1;
    }
    r
}

/// Read the exponent part beginning at `start`.
#[verifier::loop_isolation(false)]
fn parse_exp_part(s: &str, start: usize) -> (r: Option<i64>)
    requires
        start <= s@.len(),
    ensures
        match r {
            Some(v) => exp_value(s@.skip(start as int)) == Some(v as int) && -9999 <= v <= 9999,
            None => exp_value(s@.skip(start as int)) is None,
        },
{
    let n = s.unicode_len();
    let ghost xpart = s@.skip(start as int);
    let mut i: usize = start;
    let mut negative = false;
    if i < n {
        let c0 = s.get_char(i);
        if c0 == '+' || c0 == '-' {
            negative = c0 == '-';
            i += 1;
        }
    }
    let ghost xdigs = if xpart.len() > 0 && (xpart[0] == '+' || xpart[0] == '-') {
        xpart.skip(1)
    } else {
        xpart
    };
    let dig_start = i;
    proof {
        assert(forall|j: int| 0 <= j < xdigs.len() ==> #[trigger] xdigs[j] == s@[dig_start + j]);
    }
    if n - dig_start == 0 || n - dig_start > 4 {
        return None;
    }
    let mut ev: u64 = 0;
    while i < n
        invariant
            dig_start <= i <= n,
            n == s@.len(),
            n - dig_start <= 4,
            xdigs.len() == n - dig_start,
            forall|j: int| 0 <= j < i - dig_start ==> is_digit(#[trigger] xdigs[j]),
            ev as int == dec_val(xdigs.take(i - dig_start)),
            ev <= 9999,
        decreases n - i,
    {
        let c = s.get_char(i);
        let cu = c as u32;
        if !('0' as u32 <= cu && cu <= '9' as u32) {
            proof {
                assert(!is_digit(xdigs[i - dig_start]));
            }
            return None;
        }
        proof {
            assert(xdigs.take(i - dig_start + 1).drop_last() =~= xdigs.take(i - dig_start));
            assert(xdigs.take(i - dig_start + 1).last() == xdigs[i - dig_start]);
            assert(forall|j: int|
                0 <= j < i - dig_start ==> is_digit(#[trigger] xdigs.take(i - dig_start)[j]));
            lemma_dec_val_bound(xdigs.take(i - dig_start));
            assert(pow10(3) == 1000) by {
                reveal_with_fuel(pow10, 4);
            }
            lemma_pow10_le((i - dig_start) as nat, 3);
        }
        ev = ev * 10 + ((cu - '0' as u32) as u64);
        i += 1;
    }
    proof {
        assert(xdigs.take(xdigs.len() as int) =~= xdigs);
        assert(all_digits(xdigs));
    }
    if negative {
        Some(-(ev as i64))
    } else {
        Some(ev as i64)
    }
}

/// Read the mantissa `s[..e)`: its digit value and fraction length.
#[verifier::loop_isolation(false)]
#[verifier::rlimit(30)]
fn parse_mant_part(s: &str, e: usize) -> (r: Option<(u128, usize)>)
    requires
        e <= s@.len(),
    ensures
        match r {
            Some(p) => mant_digits(s@.take(e as int)) == Some((p.0 as int, p.1 as int))
                && (p.0 as int) < pow10(30) && p.1 <= 30,
            None => mant_digits(s@.take(e as int)) is None,
        },
{
    let ghost mant = s@.take(e as int);
    let mut d: usize = 0;
    let mut dfound = false;
    while !dfound && d < e
        invariant
            d <= e,
            e <= s@.len(),
            forall|j: int| 0 <= j < d ==> s@[j] != '.',
            dfound ==> d < e && s@[d as int] == '.',
        decreases e - d, (if dfound { 0int } else { 1int }),
    {
        if s.get_char(d) == '.' {
            dfound = true;
        } else {
            d += 1;
        }
    }
    proof {
        assert(forall|j: int| 0 <= j < mant.len() ==> #[trigger] mant[j] == s@[j]);
        lemma_find_char_is(mant, '.', d as int);
    }
    let ghost ip = mant.take(d as int);
    let ghost fp = if d == e {
        Seq::<char>::empty()
    } else {
        mant.skip(d as int + 1)
    };
    let ghost digits = ip + fp;
    let fp_len: usize = if dfound {
        e - d - 1
    } else {
        0
    };
    let total: usize = d + fp_len;
    proof {
        assert(digits.len() == total);
    }
    if total == 0 || total > 30 {
        return None;
    }
    let mut m: u128 = 0;
    let mut c: usize = 0;
    proof {
        assert(pow10(30) == 1000000000000000000000000000000) by {
            reveal_with_fuel(pow10, 31);
        }
        assert(forall|j: int| 0 <= j < d ==> #[trigger] digits[j] == s@[j]);
        assert(forall|j: int| d <= j < digits.len() ==> #[trigger] digits[j] == s@[j + 1]);
    }
    while c < total
        invariant
            c <= total,
            total <= 30,
            forall|j: int| 0 <= j < c ==> is_digit(#[trigger] digits[j]),
            m as int == dec_val(digits.take(c as int)),
        decreases total - c,
    {
        let pos = if c < d {
            c
        } else {
            c + 1
        };
        let ch = s.get_char(pos);
        let cu = ch as u32;
        proof {
            assert(digits[c as int] == s@[pos as int]);
        }
        if !('0' as u32 <= cu && cu <= '9' as u32) {
            proof {
                assert(!is_digit(digits[c as int]));
                if c < d {
                    assert(!is_digit(ip[c as int]));
                } else {
                    assert(!is_digit(fp[c - d]));
                }
            }
            return None;
        }
        proof {
            assert(digits.take(c as int + 1).drop_last() =~= digits.take(c as int));
            assert(digits.take(c as int + 1).last() == digits[c as int]);
            assert(forall|j: int| 0 <= j < c ==> is_digit(#[trigger] digits.take(c as int)[j]));
            lemma_dec_val_bound(digits.take(c as int));
            lemma_pow10_le(c as nat, 30);
        }
        m = m * 10 + ((cu - '0' as u32) as u128);
        c += 1;
    }
    proof {
        assert(digits.take(total as int) =~= digits);
        assert(all_digits(digits));
        assert forall|j: int| 0 <= j < ip.len() implies is_digit(#[trigger] ip[j]) by {
            assert(ip[j] == digits[j]);
        }
        assert forall|j: int| 0 <= j < fp.len() implies is_digit(#[trigger] fp[j]) by {
            assert(fp[j] == digits[ip.len() + j]);
        }
        lemma_dec_val_bound(digits);
        lemma_pow10_le(digits.len(), 30);
    }
    Some((m, fp_len))
}

/// Bring a digit value with `fl` fraction digits under exponent `ev` to
/// micro-units; `None` when it does not fit a counter.
#[verifier::loop_isolation(false)]
fn scale_micro(m: u128, fl: usize, ev: i64) -> (r: Option<u64>)
    requires
        (m as int) < pow10(30),
        fl <= 30,
        -9999 <= ev <= 9999,
    ensures
        match r {
            Some(v) => scaled_micro(m as int, fl as int, ev as int) == v as int,
            None => scaled_micro(m as int, fl as int, ev as int) > u64::MAX,
        },
{
    let k: i64 = 6 + ev - (fl as i64);
    if m == 0 {
        proof {
            if k >= 0 {
                assert(0int * pow10(k as nat) == 0) by (nonlinear_arith);
            } else {
                lemma_pow10_pos((-k) as nat);
                vstd::arithmetic::div_mod::lemma_basic_div(0, pow10((-k) as nat) as int);
            }
        }
        return Some(0);
    }
    if k >= 0 {
        if k > 19 {
            proof {
                lemma_pow10_le(20, k as nat);
                assert(pow10(20) == 100000000000000000000) by {
                    reveal_with_fuel(pow10, 21);
                }
                assert((m as int) * pow10(k as nat) >= pow10(k as nat)) by (nonlinear_arith)
                    requires
                        (m as int) >= 1,
                        pow10(k as nat) >= 0,
                ;
            }
            return None;
        }
        if m > u64::MAX as u128 {
            proof {
                lemma_pow10_pos(k as nat);
                assert((m as int) * pow10(k as nat) >= m as int) by (nonlinear_arith)
                    requires
                        (m as int) >= 0,
                        pow10(k as nat) >= 1,
                ;
            }
            return None;
        }
        let mult = pow10_u128(k as usize);
        proof {
            assert(pow10(19) == 10000000000000000000) by {
                reveal_with_fuel(pow10, 20);
            }
            lemma_pow10_le(k as nat, 19);
            assert(m * mult <= u64::MAX as u128 * 10000000000000000000) by (nonlinear_arith)
                requires
                    m <= u64::MAX as u128,
                    mult <= 10000000000000000000,
            ;
        }
        let v = m * mult;
        if v > u64::MAX as u128 {
            return None;
        }
        Some(v as u64)
    } else {
        let kk: u64 = (-(k as i128)) as u64;
        proof {
            assert(kk as int == -(k as int));
        }
        if kk > 38 {
            proof {
                lemma_pow10_le(31, kk as nat);
                assert(pow10(31) == 10000000000000000000000000000000) by {
                    reveal_with_fuel(pow10, 32);
                }
                vstd::arithmetic::div_mod::lemma_basic_div(m as int, pow10(kk as nat) as int);
            }
            return Some(0);
        }
        let div = pow10_u128(kk as usize);
        proof {
            lemma_pow10_pos(kk as nat);
        }
        let v = m / div;
        if v > u64::MAX as u128 {
            return None;
        }
        Some(v as u64)
    }
}

/// Read an exponent-form decimal amount as micro-units.  `e` is the
/// index of the exponent marker.
fn parse_micro_exp(s: &str, e: usize) -> (r: Option<u64>)
    requires
        e < s@.len(),
        s@.len() <= usize::MAX,
    ensures
        match r {
            Some(v) => micro_of_exp(s@.take(e as int), s@.skip(e as int + 1)) == Some(v as int),
            None => micro_of_exp(s@.take(e as int), s@.skip(e as int + 1)) is None,
        },
{
    let md = match parse_mant_part(s, e) {
        Some(p) => p,
        None => {
            return None;
        },
    };
    let ev = match parse_exp_part(s, e + 1) {
        Some(v) => v,
        None => {
            return None;
        },
    };
    scale_micro(md.0, md.1, ev)
}

/// Read a decimal amount as micro-units.
#[verifier::loop_isolation(false)]
pub fn parse_micro_text(s: &str) -> (r: Option<u64>)
    ensures
        match r {
            Some(v) => micro_of_text(s@) == Some(v as int),
            None => micro_of_text(s@) is None,
        },
{
    let n = s.unicode_len();
    let mut e: usize = 0;
    let mut efound = false;
    while !efound && e < n
        invariant
            e <= n,
            n == s@.len(),
            forall|j: int| 0 <= j < e ==> !is_exp_char(#[trigger] s@[j]),
            efound ==> e < n && is_exp_char(s@[e as int]),
        decreases n - e, (if efound { 0int } else { 1int }),
    {
        let c = s.get_char(e);
        if c == 'e' || c == 'E' {
            efound = true;
        } else {
            e += 1;
        }
    }
    proof {
        lemma_find_exp_is(s@, e as int);
    }
    if !efound {
        parse_micro_plain(s)
    } else {
        parse_micro_exp(s, e)
    }
}

/// Any recognized amount is non-negative and fits a counter.
pub proof fn lemma_micro_value_range(s: Seq<char>)
    ensures
        micro_of_text(s) matches Some(v) ==> 0 <= v <= u64::MAX,
{
    let e = find_exp(s);
    if e == s.len() {
        if micro_of_plain(s) is Some {
            let d = find_char(s, '.');
            let ip = s.take(d);
            let fp = if d == s.len() {
                Seq::<char>::empty()
            } else {
                s.skip(d + 1)
            };
            let f6 = if fp.len() > 6 {
                fp.take(6)
            } else {
                fp
            };
            assert(forall|j: int| 0 <= j < f6.len() ==> is_digit(#[trigger] f6[j]));
            lemma_dec_val_bound(ip);
            lemma_dec_val_bound(f6);
            assert(pow10(12) == 1000000000000 && pow10(6) == 1000000) by {
                reveal_with_fuel(pow10, 13);
            }
            lemma_pow10_le(ip.len(), 12);
            lemma_pow10_le(f6.len(), 6);
            assert(1 <= frac_scale(f6.len() as int) <= 1000000);
            assert(dec_val(ip) * 1000000 <= 999999999999 * 1000000) by (nonlinear_arith)
                requires
                    0 <= dec_val(ip) <= 999999999999,
            ;
            assert(0 <= dec_val(ip) * 1000000) by (nonlinear_arith)
                requires
                    0 <= dec_val(ip),
            ;
            assert(0 <= dec_val(f6) * frac_scale(f6.len() as int) <= 999999 * 1000000)
                by (nonlinear_arith)
                requires
                    0 <= dec_val(f6) <= 999999,
                    1 <= frac_scale(f6.len() as int) <= 1000000,
            ;
        }
    } else {
        let mant = s.take(e);
        let x = s.skip(e + 1);
        if micro_of_exp(mant, x) is Some {
            let d = find_char(mant, '.');
            let ip = mant.take(d);
            let fp = if d == mant.len() {
                Seq::<char>::empty()
            } else {
                mant.skip(d + 1)
            };
            let digits = ip + fp;
            assert forall|j: int| 0 <= j < digits.len() implies is_digit(
                #[trigger] digits[j],
            ) by {
                if j < ip.len() {
                    assert(digits[j] == ip[j]);
                } else {
                    assert(digits[j] == fp[j - ip.len()]);
                }
            }
            lemma_dec_val_bound(digits);
            let ev = exp_value(x)->Some_0;
            let k = 6 + ev - fp.len();
            if k >= 0 {
                lemma_pow10_pos(k as nat);
                assert(0 <= dec_val(digits) * pow10(k as nat)) by (nonlinear_arith)
                    requires
                        0 <= dec_val(digits),
                        0 <= pow10(k as nat),
                ;
            } else {
                lemma_pow10_pos((-k) as nat);
                vstd::arithmetic::div_mod::lemma_div_pos_is_pos(
                    dec_val(digits),
                    pow10((-k) as nat) as int,
                );
            }
        }
    }
}

} // verus!
