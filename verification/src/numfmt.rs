//! Decimal and hexadecimal rendering and parsing of unsigned integers.

use vstd::prelude::*;
use crate::text::push_char;

verus! {

/// The character of digit `d` in base 16, upper case (`0`-`9`, `A`-`F`).
pub open spec fn digit_char(d: nat) -> char {
    if d < 10 {
        (48 + d) as char
    } else {
        (55 + d) as char
    }
}

/// `n` written in base `b` (2 ≤ b ≤ 16) without leading zeros; `0` is "0".
pub open spec fn in_base(n: nat, b: nat) -> Seq<char>
    decreases n,
{
    if b < 2 || n < b {
        seq![digit_char(n)]
    } else {
        proof {
            lemma_div_smaller(n, b);
        }
        in_base(n / b, b).push(digit_char(n % b))
    }
}

/// Dividing by a base of at least 2 makes a number smaller.
pub proof fn lemma_div_smaller(n: nat, b: nat)
    requires
        b >= 2,
        n >= b,
    ensures
        n / b < n,
{
    assert(n / b < n) by (nonlinear_arith)
        requires
            b >= 2,
            n >= b,
    ;
}

/// `n` in decimal, as `format!("{}", n)` writes it.
pub open spec fn decimal(n: nat) -> Seq<char> {
    in_base(n, 10)
}

/// `n` in upper-case hexadecimal, as `format!("{:X}", n)` writes it.
pub open spec fn hex_upper(n: nat) -> Seq<char> {
    in_base(n, 16)
}

/// `s` padded on the left with `c` up to `w` characters (`{:0w}`).
pub open spec fn pad_left(s: Seq<char>, w: nat, c: char) -> Seq<char> {
    if s.len() >= w {
        s
    } else {
        Seq::new((w - s.len()) as nat, |_i: int| c) + s
    }
}

fn digit_exec(d: u64) -> (c: char)
    requires
        d < 16,
    ensures
        c == digit_char(d as nat),
{
    if d < 10 {
        let b: u8 = 48 + d as u8;
        b as char
    } else {
        let b: u8 = 55 + d as u8;
        b as char
    }
}

/// Appends `n` in base `b` to `out`.
fn push_base(out: &mut String, n: u64, b: u64)
    requires
        2 <= b <= 16,
    ensures
        final(out)@ == old(out)@ + in_base(n as nat, b as nat),
    decreases n,
{
    if n < b {
        push_char(out, digit_exec(n));
        assert(in_base(n as nat, b as nat) =~= seq![digit_char(n as nat)]);
    } else {
        proof {
            lemma_div_smaller(n as nat, b as nat);
        }
        push_base(out, n / b, b);
        push_char(out, digit_exec(n % b));
        assert(final(out)@ =~= old(out)@ + in_base(n as nat, b as nat));
    }
}

/// `format!("{}", n)`.
pub fn u64_to_decimal(n: u64) -> (s: String)
    ensures
        s@ == decimal(n as nat),
{
    let mut s = String::new();
    push_base(&mut s, n, 10);
    assert(s@ =~= decimal(n as nat));
    s
}

/// `format!("{:o}", n)`.
pub fn u64_to_octal(n: u64) -> (s: String)
    ensures
        s@ == in_base(n as nat, 8),
{
    let mut s = String::new();
    push_base(&mut s, n, 8);
    assert(s@ =~= in_base(n as nat, 8));
    s
}

/// Appends `n` in base `b`, padded with zeros to `w` characters.
pub fn push_padded(out: &mut String, n: u64, b: u64, w: usize)
    requires
        2 <= b <= 16,
    ensures
        final(out)@ == old(out)@ + pad_left(in_base(n as nat, b as nat), w as nat, '0'),
{
    let mut digits = String::new();
    push_base(&mut digits, n, b);
    let ghost ds = in_base(n as nat, b as nat);
    assert(digits@ =~= ds);
    let v = crate::text::chars_of(digits.as_str());
    let mut k = v.len();
    let ghost start = out@;
    while k < w
        invariant
            v@ == ds,
            v@.len() <= k <= w || (v@.len() >= w && k == v@.len()),
            out@ == start + Seq::new((k - v@.len()) as nat, |_i: int| '0'),
        decreases w - k,
    {
        push_char(out, '0');
        k += 1;
        assert(out@ =~= start + Seq::new((k - v@.len()) as nat, |_i: int| '0'));
    }
    let mut i: usize = 0;
    let ghost mid = out@;
    while i < v.len()
        invariant
            i <= v@.len(),
            out@ == mid + v@.take(i as int),
        decreases v@.len() - i,
    {
        push_char(out, v[i]);
        i += 1;
        assert(out@ =~= mid + v@.take(i as int));
    }
    assert(v@.take(v@.len() as int) =~= v@);
    proof {
        if ds.len() >= w as nat {
            assert(Seq::new(0nat, |_i: int| '0') + ds =~= ds);
        }
    }
    assert(final(out)@ =~= old(out)@ + pad_left(ds, w as nat, '0'));
}

/// Every character is a decimal digit.
pub open spec fn all_digits(s: Seq<char>) -> bool {
    forall|i: int| 0 <= i < s.len() ==> '0' <= #[trigger] s[i] && s[i] <= '9'
}

/// The value of a string of decimal digits.
pub open spec fn digits_value(s: Seq<char>) -> nat
    decreases s.len(),
{
    if s.len() == 0 {
        0
    } else {
        digits_value(s.drop_last()) * 10 + ((s.last() as u32) - 48) as nat
    }
}

/// `str::parse` for an unsigned integer: an optional `+`, then one or more
/// decimal digits; `None` where the text is not such a number.
pub open spec fn parse_unsigned(s: Seq<char>) -> Option<nat> {
    let d = if s.len() > 0 && s[0] == '+' {
        s.drop_first()
    } else {
        s
    };
    if d.len() > 0 && all_digits(d) {
        Some(digits_value(d))
    } else {
        None
    }
}

/// `s.parse::<usize>().ok()`.
pub fn parse_usize(s: &str) -> (r: Option<usize>)
    ensures
        r == (match parse_unsigned(s@) {
            Some(v) => if v <= usize::MAX {
                Some(v as usize)
            } else {
                None
            },
            None => None,
        }),
{
    let v = crate::text::chars_of(s);
    let mut i: usize = 0;
    if v.len() > 0 && v[0] == '+' {
        i = 1;
    }
    let ghost d = v@.skip(i as int);
    assert(d =~= (if s@.len() > 0 && s@[0] == '+' { s@.drop_first() } else { s@ }));
    if i >= v.len() {
        return None;
    }
    let mut acc: usize = 0;
    let mut j = i;
    while j < v.len()
        invariant
            i <= j <= v@.len(),
            i < v@.len(),
            v@ == s@,
            d == v@.skip(i as int),
            d == (if s@.len() > 0 && s@[0] == '+' {
                s@.drop_first()
            } else {
                s@
            }),
            all_digits(v@.subrange(i as int, j as int)),
            acc as nat == digits_value(v@.subrange(i as int, j as int)),
        decreases v@.len() - j,
    {
        let c = v[j];
        if !('0' <= c && c <= '9') {
            assert(d[j - i] == c);
            return None;
        }
        let digit: usize = (c as u32 - 48) as usize;
        assert(v@.subrange(i as int, j + 1).drop_last() =~= v@.subrange(i as int, j as int));
        match acc.checked_mul(10) {
            Some(m) => match m.checked_add(digit) {
                Some(a) => {
                    acc = a;
                },
                None => {
                    proof {
                        lemma_overflow_stays(v@, i as int, j + 1);
                    }
                    return None;
                },
            },
            None => {
                proof {
                    lemma_overflow_stays(v@, i as int, j + 1);
                }
                return None;
            },
        }
        j += 1;
    }
    assert(v@.subrange(i as int, v@.len() as int) =~= d);
    Some(acc)
}

/// Once a digit prefix exceeds `usize::MAX`, the whole digit string does
/// too, or it is not all digits.
proof fn lemma_overflow_stays(v: Seq<char>, i: int, k: int)
    requires
        0 <= i < k <= v.len(),
        all_digits(v.subrange(i, k)),
        digits_value(v.subrange(i, k)) > usize::MAX,
    ensures
        !all_digits(v.skip(i)) || digits_value(v.skip(i)) > usize::MAX,
    decreases v.len() - k,
{
    if k == v.len() {
        assert(v.subrange(i, k) =~= v.skip(i));
    } else if !('0' <= v[k] && v[k] <= '9') {
        assert(v.skip(i)[k - i] == v[k]);
    } else {
        assert(v.subrange(i, k + 1).drop_last() =~= v.subrange(i, k));
        assert forall|t: int| 0 <= t < k + 1 - i implies '0' <= #[trigger] v.subrange(
            i,
            k + 1,
        )[t] && v.subrange(i, k + 1)[t] <= '9' by {
            if t < k - i {
                assert(v.subrange(i, k + 1)[t] == v.subrange(i, k)[t]);
            }
        }
        lemma_overflow_stays(v, i, k + 1);
    }
}

} // verus!
