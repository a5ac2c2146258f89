//! Decimal text for numbers: rendering a `Num` the way the language prints
//! it, and reading a `Num` back out of a string, the coercion every
//! arithmetic opcode applies to string operands.

use vstd::prelude::*;
use vstd::string::*;
use crate::num::{
    clamp_spec, Num, num_wf, MAX_FINITE, SCALE,
};

verus! {

/// The decimal digit character for `d`; meaningful for `0 <= d <= 9`.
pub open spec fn digit_char(d: int) -> char {
    if d == 0 {
        '0'
    } else if d == 1 {
        '1'
    } else if d == 2 {
        '2'
    } else if d == 3 {
        '3'
    } else if d == 4 {
        '4'
    } else if d == 5 {
        '5'
    } else if d == 6 {
        '6'
    } else if d == 7 {
        '7'
    } else if d == 8 {
        '8'
    } else {
        '9'
    }
}

/// The decimal rendering of a non-negative whole number, most significant
/// digit first, with no leading zeros (except for zero itself).
pub open spec fn dec_str(n: nat) -> Seq<char>
    decreases n,
{
    if n < 10 {
        seq![digit_char(n as int)]
    } else {
        dec_str(n / 10).push(digit_char((n % 10) as int))
    }
}

/// Drops trailing `'0'` characters.
pub open spec fn trim_zeros(s: Seq<char>) -> Seq<char>
    decreases s.len(),
{
    if s.len() > 0 && s.last() == '0' {
        trim_zeros(s.drop_last())
    } else {
        s
    }
}

/// Digit `i` (from the most significant, six in all) of a fractional part
/// `f`, where `0 <= f < 1_000_000`.
pub open spec fn frac_digit(f: int, i: int) -> int {
    if i == 0 {
        f / 100000 % 10
    } else if i == 1 {
        f / 10000 % 10
    } else if i == 2 {
        f / 1000 % 10
    } else if i == 3 {
        f / 100 % 10
    } else if i == 4 {
        f / 10 % 10
    } else {
        f % 10
    }
}

/// The six fractional digits of `f`, zero-padded on the left.
pub open spec fn frac6_digits(f: int) -> Seq<char> {
    Seq::new(6, |i: int| digit_char(frac_digit(f, i)))
}

/// The rendering of a finite fixed-point magnitude `m` (in steps): an
/// optional sign, the whole part, and a fractional part only when any
/// fractional digit is non-zero, with trailing zeros dropped.
pub open spec fn finite_str(m: int) -> Seq<char> {
    let a = if m >= 0 { m } else { -m };
    let whole = a / (SCALE as int);
    let frac = a % (SCALE as int);
    let sign: Seq<char> = if m < 0 { seq!['-'] } else { Seq::empty() };
    if frac == 0 {
        sign + dec_str(whole as nat)
    } else {
        sign + dec_str(whole as nat) + seq!['.'] + trim_zeros(frac6_digits(frac))
    }
}

/// The exact text a number prints as.
pub open spec fn num_str_spec(n: Num) -> Seq<char> {
    match n {
        Num::NaN => "NaN"@,
        Num::PosInf => "inf"@,
        Num::NegInf => "-inf"@,
        Num::Finite(m) => finite_str(m as int),
    }
}

/// A one-character string for the decimal digit `d`.
fn digit_str(d: u64) -> (r: &'static str)
    requires
        d < 10,
    ensures
        r@ =~= seq![digit_char(d as int)],
{
    let r: &'static str = if d == 0 {
        "0"
    } else if d == 1 {
        "1"
    } else if d == 2 {
        "2"
    } else if d == 3 {
        "3"
    } else if d == 4 {
        "4"
    } else if d == 5 {
        "5"
    } else if d == 6 {
        "6"
    } else if d == 7 {
        "7"
    } else if d == 8 {
        "8"
    } else {
        "9"
    };
    proof {
        reveal_strlit("0");
        reveal_strlit("1");
        reveal_strlit("2");
        reveal_strlit("3");
        reveal_strlit("4");
        reveal_strlit("5");
        reveal_strlit("6");
        reveal_strlit("7");
        reveal_strlit("8");
        reveal_strlit("9");
    }
    r
}

/// Appends the decimal rendering of `n` to `s`, most significant digit
/// first, mirroring `dec_str`.
fn push_dec(s: &mut String, n: u64)
    ensures
        final(s)@ == old(s)@ + dec_str(n as nat),
    decreases n,
{
    if n >= 10 {
        push_dec(s, n / 10);
        let d = digit_str(n % 10);
        s.append(d);
        proof {
            assert(final(s)@ =~= old(s)@ + dec_str(n as nat));
        }
    } else {
        let d = digit_str(n);
        s.append(d);
        proof {
            assert(final(s)@ =~= old(s)@ + dec_str(n as nat));
        }
    }
}

/// The digit characters of a sequence of digit values.
pub open spec fn digit_chars(v: Seq<u64>) -> Seq<char> {
    Seq::new(v.len(), |i: int| digit_char(v[i] as int))
}

/// Appends the trimmed six-digit fractional rendering of `f` to `s`.
fn push_frac(s: &mut String, f: u64)
    requires
        f < 1_000_000,
    ensures
        final(s)@ == old(s)@ + trim_zeros(frac6_digits(f as int)),
{
    let mut ds: Vec<u64> = Vec::new();
    ds.push(f / 100000 % 10);
    ds.push(f / 10000 % 10);
    ds.push(f / 1000 % 10);
    ds.push(f / 100 % 10);
    ds.push(f / 10 % 10);
    ds.push(f % 10);
    proof {
        assert(digit_chars(ds@) =~= frac6_digits(f as int));
    }
    while ds.len() > 0 && ds[ds.len() - 1] == 0
        invariant
            forall|i: int| 0 <= i < ds@.len() ==> ds@[i] < 10,
            trim_zeros(digit_chars(ds@)) == trim_zeros(frac6_digits(f as int)),
        decreases ds.len(),
    {
        let prev = Ghost(ds@);
        ds.pop();
        proof {
            assert(digit_chars(ds@) =~= digit_chars(prev@).drop_last());
            assert(digit_chars(prev@).last() == '0');
        }
    }
    proof {
        if ds@.len() > 0 {
            assert(digit_chars(ds@).last() == digit_char(ds@.last() as int));
            assert(ds@.last() != 0);
            assert(digit_chars(ds@).last() != '0');
        }
        assert(trim_zeros(digit_chars(ds@)) == digit_chars(ds@));
    }
    let mut i: usize = 0;
    while i < ds.len()
        invariant
            i <= ds@.len(),
            forall|j: int| 0 <= j < ds@.len() ==> ds@[j] < 10,
            s@ == old(s)@ + digit_chars(ds@).take(i as int),
        decreases ds.len() - i,
    {
        let d = digit_str(ds[i]);
        s.append(d);
        i = i + 1;
        proof {
            assert(s@ =~= old(s)@ + digit_chars(ds@).take(i as int));
        }
    }
    proof {
        assert(digit_chars(ds@).take(ds@.len() as int) =~= digit_chars(ds@));
    }
}

/// Renders a number exactly as `num_str_spec` describes.
pub fn num_to_string(n: Num) -> (r: String)
    requires
        num_wf(n),
    ensures
        r@ == num_str_spec(n),
{
    match n {
        Num::NaN => "NaN".to_owned(),
        Num::PosInf => "inf".to_owned(),
        Num::NegInf => "-inf".to_owned(),
        Num::Finite(m) => {
            let mut s = String::new();
            if m < 0 {
                s.append("-");
                proof {
                    reveal_strlit("-");
                    assert(s@ =~= seq!['-']);
                }
            }
            let mag: u64 = if m >= 0 {
                m as u64
            } else {
                (-(m as i128)) as u64
            };
            let whole: u64 = mag / 1_000_000;
            let frac: u64 = mag % 1_000_000;
            push_dec(&mut s, whole);
            if frac > 0 {
                s.append(".");
                proof {
                    reveal_strlit(".");
                    assert("."@ =~= seq!['.']);
                }
                push_frac(&mut s, frac);
            }
            proof {
                assert(s@ =~= finite_str(m as int));
            }
            s
        },
    }
}

pub open spec fn is_digit(c: char) -> bool {
    c == '0' || c == '1' || c == '2' || c == '3' || c == '4' || c == '5' || c == '6' || c == '7'
        || c == '8' || c == '9'
}

/// The value of a digit character; zero for anything else.
pub open spec fn digit_val(c: char) -> int {
    if c == '1' {
        1
    } else if c == '2' {
        2
    } else if c == '3' {
        3
    } else if c == '4' {
        4
    } else if c == '5' {
        5
    } else if c == '6' {
        6
    } else if c == '7' {
        7
    } else if c == '8' {
        8
    } else if c == '9' {
        9
    } else {
        0
    }
}

/// The index of the first character that is not a decimal digit, or the
/// length when every character is one.
pub open spec fn first_nondigit(s: Seq<char>) -> int
    decreases s.len(),
{
    if s.len() == 0 {
        0
    } else if !is_digit(s[0]) {
        0
    } else {
        1 + first_nondigit(s.skip(1))
    }
}

/// The whole number a digit string denotes, most significant digit first.
pub open spec fn digits_val(s: Seq<char>) -> int
    decreases s.len(),
{
    if s.len() == 0 {
        0
    } else {
        digits_val(s.drop_last()) * 10 + digit_val(s.last())
    }
}

pub open spec fn pow10(k: nat) -> int
    decreases k,
{
    if k == 0 {
        1
    } else {
        10 * pow10((k - 1) as nat)
    }
}

/// The value of a fractional digit string, scaled to six places; digits
/// past the sixth are truncated away.
pub open spec fn frac_scaled(fr: Seq<char>) -> int {
    if fr.len() >= 6 {
        digits_val(fr.take(6))
    } else {
        digits_val(fr) * pow10((6 - fr.len()) as nat)
    }
}

/// An unsigned number body: digits, optionally followed by a dot and more
/// digits, with nothing else before the end.
pub open spec fn body_valid(b: Seq<char>) -> bool {
    let k = first_nondigit(b);
    k > 0 && (k == b.len() || (b[k] == '.' && b.len() > k + 1 && (forall|i: int|
        k + 1 <= i < b.len() ==> is_digit(b[i]))))
}

/// The fixed-point magnitude an unsigned valid body denotes.
pub open spec fn body_mag(b: Seq<char>) -> int {
    let k = first_nondigit(b);
    if k == b.len() {
        digits_val(b) * 1_000_000
    } else {
        digits_val(b.take(k)) * 1_000_000 + frac_scaled(b.skip(k + 1))
    }
}

/// The number a string coerces to: an optional minus sign and a valid
/// body give its saturated fixed-point value; any other text reads as zero.
pub open spec fn parse_num_spec(s: Seq<char>) -> Num {
    if s.len() > 0 && s[0] == '-' {
        if body_valid(s.skip(1)) {
            clamp_spec(-body_mag(s.skip(1)))
        } else {
            Num::Finite(0)
        }
    } else if body_valid(s) {
        clamp_spec(body_mag(s))
    } else {
        Num::Finite(0)
    }
}

proof fn lemma_first_nondigit(s: Seq<char>, i: int)
    requires
        0 <= i <= s.len(),
        forall|j: int| 0 <= j < i ==> is_digit(s[j]),
        i == s.len() || !is_digit(s[i]),
    ensures
        first_nondigit(s) == i,
    decreases i,
{
    if i == 0 {
    } else {
        assert(is_digit(s[0]));
        lemma_first_nondigit(s.skip(1), i - 1);
    }
}

pub(crate) proof fn lemma_digits_val_push(s: Seq<char>, c: char)
    ensures
        digits_val(s.push(c)) == digits_val(s) * 10 + digit_val(c),
{
    assert(s.push(c).drop_last() =~= s);
    assert(s.push(c).last() == c);
}

pub(crate) proof fn lemma_digits_val_nonneg(s: Seq<char>)
    ensures
        digits_val(s) >= 0,
    decreases s.len(),
{
    if s.len() > 0 {
        lemma_digits_val_nonneg(s.drop_last());
    }
}

proof fn lemma_pow10_pos(k: nat)
    ensures
        pow10(k) >= 1,
    decreases k,
{
    if k > 0 {
        lemma_pow10_pos((k - 1) as nat);
    }
}

proof fn lemma_digits_val_bound(s: Seq<char>)
    ensures
        digits_val(s) < pow10(s.len()),
    decreases s.len(),
{
    if s.len() == 0 {
    } else {
        lemma_digits_val_bound(s.drop_last());
    }
}

proof fn lemma_pow10_mono(a: nat, b: nat)
    requires
        a <= b,
    ensures
        pow10(a) <= pow10(b),
    decreases b,
{
    if a < b {
        lemma_pow10_mono(a, (b - 1) as nat);
        lemma_pow10_pos(a);
    }
}

/// A digit's value, or `None` for any other character.
pub(crate) fn char_digit(c: char) -> (r: Option<u64>)
    ensures
        r is Some <==> is_digit(c),
        r is Some ==> r->0 as int == digit_val(c) && r->0 < 10,
{
    if c == '0' {
        Some(0)
    } else if c == '1' {
        Some(1)
    } else if c == '2' {
        Some(2)
    } else if c == '3' {
        Some(3)
    } else if c == '4' {
        Some(4)
    } else if c == '5' {
        Some(5)
    } else if c == '6' {
        Some(6)
    } else if c == '7' {
        Some(7)
    } else if c == '8' {
        Some(8)
    } else if c == '9' {
        Some(9)
    } else {
        None
    }
}

fn pow10_exec(k: u64) -> (r: u64)
    requires
        k <= 6,
    ensures
        r as int == pow10(k as nat),
        1 <= r <= 1_000_000,
{
    proof {
        reveal_with_fuel(pow10, 8);
    }
    if k == 0 {
        1
    } else if k == 1 {
        10
    } else if k == 2 {
        100
    } else if k == 3 {
        1_000
    } else if k == 4 {
        10_000
    } else if k == 5 {
        100_000
    } else {
        1_000_000
    }
}

/// The characters of a string slice, in order.
pub fn str_chars(s: &str) -> (v: Vec<char>)
    ensures
        v@ == s@,
{
    let n = s.unicode_len();
    let mut v: Vec<char> = Vec::new();
    let mut i: usize = 0;
    while i < n
        invariant
            n == s@.len(),
            i <= n,
            v@ == s@.take(i as int),
        decreases n - i,
    {
        let c = s.get_char(i);
        v.push(c);
        i = i + 1;
        proof {
            assert(v@ =~= s@.take(i as int));
        }
    }
    proof {
        assert(s@.take(n as int) =~= s@);
    }
    v
}

/// Reads a number out of a character sequence, exactly as
/// `parse_num_spec` describes: text that is not a signed decimal number
/// reads as zero, and magnitudes beyond the finite range saturate.
pub fn parse_num_chars(cs: &Vec<char>) -> (r: Num)
    ensures
        r == parse_num_spec(cs@),
        num_wf(r),
{
    let n = cs.len();
    let neg = n > 0 && cs[0] == '-';
    let start: usize = if neg { 1 } else { 0 };
    let ghost b = cs@.skip(start as int);
    proof {
        if !neg {
            assert(cs@.skip(0) =~= cs@);
        }
    }

    let mut i: usize = start;
    let mut acc: u128 = 0;
    let mut sat = false;
    loop
        invariant
            b == cs@.skip(start as int),
            start <= i <= n,
            n == cs@.len(),
            forall|j: int| start <= j < i ==> is_digit(cs@[j]),
            !sat ==> acc as int == digits_val(b.take(i - start)) && acc <= MAX_FINITE as u128,
            sat ==> digits_val(b.take(i - start)) > MAX_FINITE as int,
        ensures
            b == cs@.skip(start as int),
            start <= i <= n,
            n == cs@.len(),
            i == n || !is_digit(cs@[i as int]),
            forall|j: int| start <= j < i ==> is_digit(cs@[j]),
            !sat ==> acc as int == digits_val(b.take(i - start)) && acc <= MAX_FINITE as u128,
            sat ==> digits_val(b.take(i - start)) > MAX_FINITE as int,
        decreases n - i,
    {
        if i >= n {
            break;
        }
        let d = match char_digit(cs[i]) {
            Some(d) => d,
            None => { break; },
        };
        proof {
            assert(b.take(i + 1 - start) =~= b.take(i - start).push(cs@[i as int]));
            lemma_digits_val_push(b.take(i - start), cs@[i as int]);
            lemma_digits_val_nonneg(b.take(i - start));
        }
        if sat {
        } else {
            acc = acc * 10 + (d as u128);
            if acc > (MAX_FINITE as u128) {
                sat = true;
            }
        }
        i = i + 1;
    }
    let k = i - start;
    proof {
        assert forall|j: int| 0 <= j < k implies is_digit(b[j]) by {
            assert(b[j] == cs@[j + start]);
        }
        lemma_first_nondigit(b, k as int);
    }
    if k == 0 {
        return Num::Finite(0);
    }
    if i == n {
        proof {
            assert(b.take(k as int) =~= b);
            assert(body_valid(b));
        }
        if sat {
            proof {
                assert(digits_val(b) * 1_000_000 > MAX_FINITE as int) by (nonlinear_arith)
                    requires
                        digits_val(b) > MAX_FINITE as int,
                        MAX_FINITE as int > 0,
                ;
            }
            if neg {
                return Num::NegInf;
            } else {
                return Num::PosInf;
            }
        }
        let mag: u128 = acc * 1_000_000u128;
        proof {
            assert(mag as int == body_mag(b));
        }
        return crate::num::signed_clamp(mag, neg);
    }
    // A non-digit stopped the scan before the end.
    proof {
        assert(b[k as int] == cs@[i as int]);
    }
    if cs[i] != '.' || i + 1 >= n {
        return Num::Finite(0);
    }
    // Fractional digits, truncated past the sixth place.
    let mut j: usize = i + 1;
    let mut fv: u64 = 0;
    let mut cnt: u64 = 0;
    let ghost fr = b.skip(k + 1);
    while j < n
        invariant
            b == cs@.skip(start as int),
            fr == b.skip(k + 1),
            k == i - start,
            start <= i < n,
            i + 1 <= j <= n,
            n == cs@.len(),
            neg ==> start == 1 && cs@.len() > 0 && cs@[0] == '-',
            !neg ==> start == 0 && b == cs@,
            first_nondigit(b) == k,
            k > 0,
            b[k as int] == '.',
            k + 1 < b.len(),
            forall|t: int| i + 1 <= t < j ==> is_digit(cs@[t]),
            cnt as int == (if j - (i + 1) <= 6 { j - (i + 1) } else { 6int }),
            fv as int == digits_val(fr.take(cnt as int)),
            fv < 1_000_000,
        decreases n - j,
    {
        let d = match char_digit(cs[j]) {
            Some(d) => d,
            None => {
                // The fractional part holds a non-digit: the text is not a
                // number and reads as zero.
                proof {
                    assert(!is_digit(b[j - start]));
                }
                return Num::Finite(0);
            },
        };
        if cnt < 6 {
            proof {
                assert(fr.take(cnt + 1) =~= fr.take(cnt as int).push(cs@[j as int]));
                lemma_digits_val_push(fr.take(cnt as int), cs@[j as int]);
                lemma_digits_val_nonneg(fr.take(cnt as int));
                lemma_digits_val_bound(fr.take(cnt as int));
                lemma_pow10_mono(cnt as nat, 5);
                assert(pow10(5) == 100_000) by {
                    reveal_with_fuel(pow10, 8);
                };
            }
            fv = fv * 10 + d;
            cnt = cnt + 1;
        }
        j = j + 1;
    }
    proof {
        assert(b[k as int] == cs@[i as int]);
        assert(b.len() > k + 1);
        assert forall|t: int| k + 1 <= t < b.len() implies is_digit(b[t]) by {
            assert(b[t] == cs@[t + start]);
        }
        assert(body_valid(b));
    }
    let scale_up = pow10_exec(6 - cnt);
    proof {
        assert(fv * scale_up <= 1_000_000u64 * 1_000_000u64) by (nonlinear_arith)
            requires
                fv < 1_000_000,
                scale_up <= 1_000_000,
        ;
    }
    let fscaled: u64 = fv * scale_up;
    proof {
        // The scaled fraction is exactly `frac_scaled(fr)`.
        if fr.len() >= 6 {
            assert(cnt == 6);
            assert(fr.take(6) =~= fr.take(cnt as int));
        } else {
            assert(cnt as int == fr.len());
            assert(fr.take(cnt as int) =~= fr);
        }
        lemma_digits_val_nonneg(fr.take(cnt as int));
        assert(fscaled as int == frac_scaled(fr));
    }
    if sat {
        proof {
            lemma_digits_val_nonneg(fr.take(cnt as int));
            assert(digits_val(b.take(k as int)) * 1_000_000 + frac_scaled(fr) > MAX_FINITE as int)
                by (nonlinear_arith)
                requires
                    digits_val(b.take(k as int)) > MAX_FINITE as int,
                    frac_scaled(fr) >= 0,
                    MAX_FINITE as int > 0,
            ;
        }
        if neg {
            return Num::NegInf;
        } else {
            return Num::PosInf;
        }
    }
    let mag: u128 = acc * 1_000_000u128 + (fscaled as u128);
    proof {
        assert(mag as int == body_mag(b));
    }
    crate::num::signed_clamp(mag, neg)
}

/// Reads a number out of a string.
pub fn parse_num(s: &str) -> (r: Num)
    ensures
        r == parse_num_spec(s@),
        num_wf(r),
{
    let cs = str_chars(s);
    parse_num_chars(&cs)
}

} // verus!
