//! Lenient numeric parsing for CSV cells and date fields.
//!
//! A cell is read as an optionally signed decimal literal
//! (`[+|-]digits[.digits]`) into the fixed-point representation, keeping
//! six fractional digits and truncating the rest. Anything that does not
//! match the grammar, or whose magnitude exceeds `VAL_MAX`, reads as zero:
//! the loaders deliberately trade strictness for completeness.

use vstd::prelude::*;
use crate::fx::{iabs, SCALE, VAL_MAX};

verus! {

/// Integer part of a cell may hold at most `10^12` before scaling.
pub const INT_CAP: i128 = 1000000000000;

pub open spec fn is_digit(c: char) -> bool {
    48 <= c as u32 <= 57
}

pub open spec fn digit_val(c: char) -> int {
    (c as u32) as int - 48
}

pub open spec fn all_digits(s: Seq<char>) -> bool {
    forall|i: int| 0 <= i < s.len() ==> is_digit(#[trigger] s[i])
}

/// Value of a digit string read most-significant first.
pub open spec fn digits_val(s: Seq<char>) -> int
    decreases s.len(),
{
    if s.len() == 0 {
        0
    } else {
        digits_val(s.drop_last()) * 10 + digit_val(s.last())
    }
}

/// `10^k`.
pub open spec fn tens(k: nat) -> int
    decreases k,
{
    if k == 0 {
        1
    } else {
        10 * tens((k - 1) as nat)
    }
}

pub proof fn lemma_digits_val_nonneg(s: Seq<char>)
    requires
        all_digits(s),
    ensures
        digits_val(s) >= 0,
    decreases s.len(),
{
    if s.len() > 0 {
        assert(all_digits(s.drop_last()));
        lemma_digits_val_nonneg(s.drop_last());
    }
}

pub proof fn lemma_digits_val_lt(s: Seq<char>)
    requires
        all_digits(s),
    ensures
        digits_val(s) < tens(s.len()),
    decreases s.len(),
{
    if s.len() > 0 {
        assert(all_digits(s.drop_last()));
        lemma_digits_val_lt(s.drop_last());
    }
}

pub proof fn lemma_tens_pos(k: nat)
    ensures
        tens(k) >= 1,
    decreases k,
{
    if k > 0 {
        lemma_tens_pos((k - 1) as nat);
    }
}

pub proof fn lemma_tens_add(a: nat, b: nat)
    ensures
        tens(a + b) == tens(a) * tens(b),
    decreases a,
{
    if a == 0 {
    } else {
        lemma_tens_add((a - 1) as nat, b);
        assert(10 * (tens((a - 1) as nat) * tens(b)) == (10 * tens((a - 1) as nat)) * tens(b))
            by (nonlinear_arith);
    }
}

/// `10^k` as a runtime value, for the six fractional places.
fn tens_exec(k: usize) -> (r: i128)
    requires
        k <= 6,
    ensures
        r as int == tens(k as nat),
{
    proof {
        assert(tens(0) == 1 && tens(1) == 10 && tens(2) == 100 && tens(3) == 1000 && tens(4)
            == 10000 && tens(5) == 100000 && tens(6) == 1000000) by {
            reveal_with_fuel(tens, 7);
        }
    }
    if k == 0 {
        1
    } else if k == 1 {
        10
    } else if k == 2 {
        100
    } else if k == 3 {
        1000
    } else if k == 4 {
        10000
    } else if k == 5 {
        100000
    } else {
        1000000
    }
}

/// A digit string is worth at least any of its prefixes.
pub proof fn lemma_digits_val_grows(s: Seq<char>, n: int)
    requires
        all_digits(s),
        0 <= n <= s.len(),
    ensures
        digits_val(s) >= digits_val(s.take(n)),
    decreases s.len(),
{
    lemma_digits_val_nonneg(s);
    if n < s.len() {
        assert(all_digits(s.drop_last()));
        assert(s.drop_last().take(n) =~= s.take(n));
        lemma_digits_val_grows(s.drop_last(), n);
        lemma_digits_val_nonneg(s.drop_last());
    } else {
        assert(s.take(n) =~= s);
    }
}

/// Index of the first `'.'` in `s` at or after `i`, or `s.len()` if none.
pub open spec fn first_dot_from(s: Seq<char>, i: int) -> int
    recommends
        0 <= i <= s.len(),
    decreases s.len() - i,
{
    if i < 0 || i >= s.len() {
        s.len() as int
    } else if s[i] == '.' {
        i
    } else {
        first_dot_from(s, i + 1)
    }
}

pub open spec fn first_dot(s: Seq<char>) -> int {
    first_dot_from(s, 0)
}

/// Fractional digits contribute their first six places, truncated.
pub open spec fn frac_scaled(f: Seq<char>) -> int {
    let k = if f.len() > 6 {
        6int
    } else {
        f.len() as int
    };
    digits_val(f.take(k)) * tens((6 - k) as nat)
}

/// The unsigned magnitude text is well formed: at least one integer digit,
/// all digits before the dot, and only digits after it.
pub open spec fn mag_valid(s: Seq<char>) -> bool {
    let d = first_dot(s);
    1 <= d && all_digits(s.take(d)) && (d < s.len() ==> all_digits(s.skip(d + 1)))
}

/// Scaled value of a well-formed magnitude.
pub open spec fn mag_parts_val(s: Seq<char>) -> int {
    let d = first_dot(s);
    let f = if d < s.len() {
        s.skip(d + 1)
    } else {
        Seq::<char>::empty()
    };
    digits_val(s.take(d)) * (SCALE as int) + frac_scaled(f)
}

/// Lenient magnitude: zero unless well formed and within `VAL_MAX`.
pub open spec fn mag_val(s: Seq<char>) -> int {
    if mag_valid(s) && mag_parts_val(s) <= VAL_MAX as int {
        mag_parts_val(s)
    } else {
        0
    }
}

/// Lenient cell value: optional sign, then a magnitude.
pub open spec fn cell_val(s: Seq<char>) -> int {
    if s.len() > 0 && s[0] == '-' {
        -mag_val(s.skip(1))
    } else if s.len() > 0 && s[0] == '+' {
        mag_val(s.skip(1))
    } else {
        mag_val(s)
    }
}

/// Lenient fixed-width field: the digits' value, or zero on any non-digit.
pub open spec fn fixed_num(s: Seq<char>) -> int {
    if s.len() >= 1 && all_digits(s) {
        digits_val(s)
    } else {
        0
    }
}

/// Parse the unsigned magnitude `s@.skip(i0)`.
fn parse_mag(s: &str, i0: usize, n: usize) -> (r: i128)
    requires
        i0 <= n,
        n == s@.len(),
    ensures
        r as int == mag_val(s@.skip(i0 as int)),
        0 <= r <= VAL_MAX,
{
    let ghost seg = s@.skip(i0 as int);
    // Locate the first dot.
    let mut dpos: usize = n;
    let mut j: usize = i0;
    while j < n
        invariant
            i0 <= j <= n,
            n == s@.len(),
            seg == s@.skip(i0 as int),
            dpos == n || (i0 <= dpos && dpos < j),
            dpos == n ==> first_dot(seg) == first_dot_from(seg, j - i0) && forall|k: int|
                0 <= k < j - i0 ==> seg[k] != '.',
            dpos < n ==> first_dot(seg) == dpos - i0,
        decreases n - j,
    {
        let c: char = s.get_char(j);
        assert(c == seg[j - i0]);
        if c == '.' && dpos == n {
            dpos = j;
        }
        j += 1;
    }
    let d_abs: usize = dpos;
    let ghost d = d_abs - i0;
    proof {
        if dpos == n {
            assert(first_dot(seg) == seg.len());
        }
        assert(first_dot(seg) == d);
    }
    if d_abs == i0 {
        // Empty integer part: not well formed.
        return 0;
    }
    // Integer part.
    let mut ok: bool = true;
    let mut big: bool = false;
    let mut acc: i128 = 0;
    let mut j2: usize = i0;
    while j2 < d_abs
        invariant
            i0 <= j2 <= d_abs <= n,
            n == s@.len(),
            seg == s@.skip(i0 as int),
            d == d_abs - i0,
            ok <==> all_digits(seg.subrange(0, j2 - i0)),
            0 <= acc <= 10 * INT_CAP + 9,
            !big ==> acc <= INT_CAP,
            ok && !big ==> acc == digits_val(seg.subrange(0, j2 - i0)),
            ok && big ==> digits_val(seg.subrange(0, j2 - i0)) > INT_CAP,
        decreases d_abs - j2,
    {
        let c: char = s.get_char(j2);
        assert(c == seg[j2 - i0]);
        let ghost pre = seg.subrange(0, j2 - i0);
        let ghost pre1 = seg.subrange(0, j2 + 1 - i0);
        proof {
            assert(pre1.drop_last() =~= pre);
            assert(pre1.last() == seg[j2 - i0]);
        }
        let u: u32 = c as u32;
        if u < 48 || u > 57 {
            ok = false;
            proof {
                assert(!is_digit(pre1[j2 - i0]));
            }
        } else if ok && !big {
            let dv: i128 = (u - 48) as i128;
            acc = acc * 10 + dv;
            if acc > INT_CAP {
                big = true;
            }
        } else if ok {
            proof {
                lemma_digits_val_nonneg(pre);
            }
        } else {
            proof {
                let bad = choose|i: int| 0 <= i < pre.len() && !is_digit(pre[i]);
                assert(!is_digit(pre1[bad]));
            }
        }
        j2 += 1;
    }
    proof {
        assert(seg.subrange(0, d) =~= seg.take(d));
    }
    // Fractional part: keep six places, truncating the rest.
    let mut fok: bool = true;
    let mut fval: i128 = 0;
    let mut flen: usize = 0;
    let ghost fseg: Seq<char> = if d < seg.len() {
        seg.skip(d + 1)
    } else {
        Seq::<char>::empty()
    };
    if d_abs < n {
        let mut j3: usize = d_abs + 1;
        while j3 < n
            invariant
                d_abs + 1 <= j3 <= n,
                n == s@.len(),
                i0 <= d_abs,
                seg == s@.skip(i0 as int),
                d == d_abs - i0,
                d < seg.len(),
                fseg == seg.skip(d + 1),
                fseg.len() == n - (d_abs + 1),
                0 <= fval < 1000000,
                flen <= 6,
                fok <==> all_digits(fseg.subrange(0, j3 - (d_abs + 1))),
                fok ==> flen == if j3 - (d_abs + 1) > 6 {
                    6int
                } else {
                    j3 - (d_abs + 1)
                },
                fok ==> fval == digits_val(fseg.subrange(0, flen as int)) * tens((6 - flen) as nat),
            decreases n - j3,
        {
            let ghost fk = j3 - (d_abs + 1);
            let c: char = s.get_char(j3);
            proof {
                assert(fseg[fk] == seg[fk + d + 1]);
                assert(seg[fk + d + 1] == s@[fk + d + 1 + i0]);
            }
            assert(c == fseg[fk]);
            let ghost fpre = fseg.subrange(0, fk);
            let ghost fpre1 = fseg.subrange(0, fk + 1);
            proof {
                assert(fpre1.drop_last() =~= fpre);
                assert(fpre1.last() == fseg[fk]);
            }
            let u: u32 = c as u32;
            if u < 48 || u > 57 {
                fok = false;
                proof {
                    assert(!is_digit(fpre1[fk]));
                }
            } else if fok && flen < 6 {
                let dv: i128 = (u - 48) as i128;
                let m: i128 = tens_exec(5 - flen);
                proof {
                    let a = digits_val(fpre);
                    let t = tens((5 - flen) as nat);
                    lemma_tens_pos((5 - flen) as nat);
                    assert(fpre1.len() == flen + 1);
                    assert(fpre =~= fpre1.subrange(0, flen as int));
                    assert(tens((6 - flen) as nat) == 10 * t);
                    assert((a * 10 + digit_val(fseg[fk])) * t == a * (10 * t) + digit_val(
                        fseg[fk],
                    ) * t) by (nonlinear_arith);
                    lemma_digits_val_lt(fpre1);
                    lemma_digits_val_nonneg(fpre1);
                    lemma_tens_add((flen + 1) as nat, (5 - flen) as nat);
                    assert(tens(6) == 1000000) by {
                        reveal_with_fuel(tens, 7);
                    }
                    assert(digits_val(fpre1) * t < tens((flen + 1) as nat) * t)
                        by (nonlinear_arith)
                        requires
                            digits_val(fpre1) < tens((flen + 1) as nat),
                            t >= 1,
                            digits_val(fpre1) >= 0,
                    ;
                }
                fval = fval + dv * m;
                flen += 1;
            } else if fok {
                proof {
                    assert(fseg.subrange(0, flen as int) =~= fpre1.subrange(0, flen as int));
                }
            } else {
                proof {
                    let bad = choose|i: int| 0 <= i < fpre.len() && !is_digit(fpre[i]);
                    assert(!is_digit(fpre1[bad]));
                }
            }
            j3 += 1;
        }
    }
    proof {
        if d < seg.len() {
            assert(fseg.subrange(0, fseg.len() as int) =~= fseg);
        }
    }
    if !ok || !fok {
        return 0;
    }
    proof {
        if d < seg.len() {
            let k = if fseg.len() > 6 {
                6int
            } else {
                fseg.len() as int
            };
            assert(fseg.subrange(0, k) =~= fseg.take(k));
            assert(flen as int == k);
        }
        lemma_digits_val_nonneg(seg.take(d));
    }
    if big {
        // The integer part alone already exceeds `VAL_MAX` once scaled.
        proof {
            lemma_digits_val_grows(seg.take(d), d);
            assert(digits_val(seg.take(d)) > INT_CAP);
        }
        return 0;
    }
    let total: i128 = acc * SCALE + fval;
    if total > VAL_MAX {
        0
    } else {
        total
    }
}

/// Read one CSV cell leniently into the scaled fixed-point form.
pub fn parse_cell(s: &str) -> (r: i128)
    ensures
        r as int == cell_val(s@),
        iabs(r as int) <= VAL_MAX,
{
    let n: usize = s.unicode_len();
    let mut i0: usize = 0;
    let mut neg: bool = false;
    if n > 0 {
        let c0: char = s.get_char(0);
        if c0 == '-' {
            neg = true;
            i0 = 1;
        } else if c0 == '+' {
            i0 = 1;
        }
    }
    proof {
        if i0 == 0 {
            assert(s@.skip(0) =~= s@);
        }
    }
    let m = parse_mag(s, i0, n);
    if neg {
        -m
    } else {
        m
    }
}

/// Read the digits of `s@.subrange(from, to)` leniently as an integer.
pub fn parse_fixed(s: &str, from: usize, to: usize) -> (r: u32)
    requires
        from < to,
        to <= s@.len(),
        to - from <= 8,
    ensures
        r as int == fixed_num(s@.subrange(from as int, to as int)),
{
    let ghost seg = s@.subrange(from as int, to as int);
    let mut acc: u32 = 0;
    let mut j: usize = from;
    while j < to
        invariant
            from <= j <= to,
            to <= s@.len(),
            to - from <= 8,
            seg == s@.subrange(from as int, to as int),
            all_digits(seg.subrange(0, j - from)),
            acc == digits_val(seg.subrange(0, j - from)),
            acc < 100000000,
        decreases to - j,
    {
        let c: char = s.get_char(j);
        assert(c == seg[j - from]);
        let ghost pre = seg.subrange(0, j - from);
        let ghost pre1 = seg.subrange(0, j + 1 - from);
        proof {
            assert(pre1.drop_last() =~= pre);
            assert(pre1.last() == seg[j - from]);
            lemma_digits_val_lt(pre);
            assert(tens(pre.len()) <= tens(7)) by {
                reveal_with_fuel(tens, 9);
            }
        }
        let u: u32 = c as u32;
        if u < 48 || u > 57 {
            return 0;
        }
        proof {
            assert(tens(8) == 100000000) by {
                reveal_with_fuel(tens, 9);
            }
        }
        acc = acc * 10 + (u - 48);
        j += 1;
    }
    proof {
        assert(seg.subrange(0, seg.len() as int) =~= seg);
    }
    acc
}

} // verus!
