use vstd::prelude::*;

use crate::amount::{Amount, amount_bound};
use crate::text::{all_digits, char_to_digit, digit_of, digit_to_char, is_digit_char, rev};

verus! {

use vstd::arithmetic::div_mod::{lemma_fundamental_div_mod, lemma_fundamental_div_mod_converse};
use vstd::arithmetic::mul::lemma_mul_inequality;

/// Ten to the power `e`.
pub open spec fn pow10(e: nat) -> nat
    decreases e,
{
    if e == 0 {
        1
    } else {
        10 * pow10((e - 1) as nat)
    }
}

/// The value of a string of decimal digits, most significant first.
pub open spec fn digits_val(s: Seq<char>) -> nat
    decreases s.len(),
{
    if s.len() == 0 {
        0
    } else {
        digit_of(s[0]) * pow10((s.len() - 1) as nat) + digits_val(s.subrange(1, s.len() as int))
    }
}

/// The position of the first `'.'` in `s`, or `s.len()` when there is none.
pub open spec fn dot_pos(s: Seq<char>) -> int
    decreases s.len(),
{
    if s.len() == 0 {
        0
    } else if s[0] == '.' {
        0
    } else {
        1 + dot_pos(s.subrange(1, s.len() as int))
    }
}

/// Whether `s` is a well-formed decimal amount for a token with `d`
/// fractional digits: decimal digits with at most one `'.'`, a fractional
/// part of at most `d` digits, and at least one digit overall.
pub open spec fn units_shape_ok(s: Seq<char>, d: nat) -> bool {
    let p = dot_pos(s);
    if p == s.len() {
        s.len() > 0 && all_digits(s)
    } else {
        let int_part = s.subrange(0, p);
        let frac = s.subrange(p + 1, s.len() as int);
        s.len() > 1 && all_digits(int_part) && all_digits(frac) && frac.len() <= d
    }
}

/// The raw value denoted by a well-formed decimal amount `s` for a token
/// with `d` fractional digits, in the smallest unit.
pub open spec fn units_val(s: Seq<char>, d: nat) -> nat {
    let p = dot_pos(s);
    if p == s.len() {
        digits_val(s) * pow10(d)
    } else {
        let int_part = s.subrange(0, p);
        let frac = s.subrange(p + 1, s.len() as int);
        digits_val(int_part) * pow10(d) + digits_val(frac) * pow10((d - frac.len()) as nat)
    }
}

/// Whether `r` is the canonical rendering of the raw value `v` with `d`
/// fractional digits: the integer part without leading zeros, then, when
/// `d > 0`, a `'.'` and exactly `d` fractional digits.
pub open spec fn units_formatted(v: nat, d: nat, r: Seq<char>) -> bool {
    if d == 0 {
        &&& all_digits(r)
        &&& r.len() > 0
        &&& digits_val(r) == v
        &&& (r.len() > 1 ==> r[0] != '0')
    } else {
        let ilen = r.len() - d - 1;
        let int_part = r.subrange(0, ilen);
        let frac = r.subrange(ilen + 1, r.len() as int);
        &&& r.len() >= d + 2
        &&& r[ilen] == '.'
        &&& all_digits(int_part)
        &&& all_digits(frac)
        &&& (ilen > 1 ==> r[0] != '0')
        &&& digits_val(int_part) == v / pow10(d)
        &&& digits_val(frac) == v % pow10(d)
    }
}

pub proof fn lemma_pow10_pos(e: nat)
    ensures
        pow10(e) >= 1,
    decreases e,
{
    if e > 0 {
        lemma_pow10_pos((e - 1) as nat);
    }
}

pub proof fn lemma_pow10_add(a: nat, b: nat)
    ensures
        pow10(a + b) == pow10(a) * pow10(b),
    decreases a,
{
    if a == 0 {
        assert(pow10(b) == 1 * pow10(b));
    } else {
        lemma_pow10_add((a - 1) as nat, b);
        assert(pow10(a + b) == 10 * pow10((a + b - 1) as nat));
        assert(10 * (pow10((a - 1) as nat) * pow10(b)) == (10 * pow10((a - 1) as nat)) * pow10(
            b,
        )) by (nonlinear_arith);
    }
}

/// Multiplying by a positive factor does not decrease a natural number.
proof fn lemma_mul_grows(a: nat, b: nat)
    requires
        b >= 1,
    ensures
        a * b >= a,
{
    assert(a * b >= a * 1 == a) by (nonlinear_arith)
        requires
            b >= 1,
    ;
}

/// Splitting a digit string splits its value.
pub proof fn lemma_digits_val_concat(a: Seq<char>, b: Seq<char>)
    ensures
        digits_val(a + b) == digits_val(a) * pow10(b.len()) + digits_val(b),
    decreases a.len(),
{
    if a.len() == 0 {
        assert(a + b =~= b);
        assert(digits_val(a) == 0);
        assert(digits_val(a) * pow10(b.len()) == 0) by (nonlinear_arith)
            requires
                digits_val(a) == 0,
        ;
    } else {
        let t = a.subrange(1, a.len() as int);
        lemma_digits_val_concat(t, b);
        assert((a + b).subrange(1, (a + b).len() as int) =~= t + b);
        assert((a + b)[0] == a[0]);
        let e = (a.len() - 1) as nat;
        lemma_pow10_add(e, b.len());
        assert(digits_val(a + b) == digit_of(a[0]) * pow10(e + b.len()) + digits_val(t + b));
        assert(digit_of(a[0]) * (pow10(e) * pow10(b.len())) == (digit_of(a[0]) * pow10(e)) * pow10(
            b.len(),
        )) by (nonlinear_arith);
        assert((digit_of(a[0]) * pow10(e) + digits_val(t)) * pow10(b.len()) == (digit_of(a[0])
            * pow10(e)) * pow10(b.len()) + digits_val(t) * pow10(b.len())) by (nonlinear_arith);
    }
}

/// Appending one digit multiplies the value by ten and adds the digit.
pub proof fn lemma_digits_val_push(s: Seq<char>, c: char)
    ensures
        digits_val(s.push(c)) == digits_val(s) * 10 + digit_of(c),
{
    assert(s.push(c) =~= s + seq![c]);
    lemma_digits_val_concat(s, seq![c]);
    assert(seq![c].len() == 1);
    assert(seq![c].subrange(1, 1) =~= Seq::<char>::empty());
    assert(digits_val(seq![c]) == digit_of(c) * pow10(0nat) + digits_val(seq![c].subrange(1, 1)));
    assert(pow10(0nat) == 1);
    assert(pow10(1nat) == 10 * pow10(0nat));
    assert(digits_val(Seq::<char>::empty()) == 0);
    assert(digits_val(seq![c].subrange(1, 1)) == 0);
    assert(digit_of(c) * pow10(0nat) == digit_of(c) * 1) by (nonlinear_arith)
        requires
            pow10(0nat) == 1,
    ;
    assert(digit_of(c) * 1 == digit_of(c)) by (nonlinear_arith);
    assert(digits_val(seq![c]) == digit_of(c));
    assert(digits_val(s + seq![c]) == digits_val(s) * pow10(1nat) + digits_val(seq![c]));
}

/// Prepending one digit adds it at the highest place.
pub proof fn lemma_digits_val_prepend(c: char, s: Seq<char>)
    ensures
        digits_val(seq![c] + s) == digit_of(c) * pow10(s.len()) + digits_val(s),
{
    assert((seq![c] + s).len() == s.len() + 1);
    assert((seq![c] + s)[0] == c);
    assert((seq![c] + s).subrange(1, (s.len() + 1) as int) =~= s);
}

/// The scanned prefix without a dot, together with a dot or the string's
/// end at `p`, fixes `dot_pos`.
pub proof fn lemma_dot_pos_char(s: Seq<char>, p: int)
    requires
        0 <= p <= s.len(),
        forall|j: int| 0 <= j < p ==> s[j] != '.',
        p == s.len() || s[p] == '.',
    ensures
        dot_pos(s) == p,
    decreases s.len(),
{
    if s.len() > 0 && p > 0 {
        let t = s.subrange(1, s.len() as int);
        lemma_dot_pos_char(t, p - 1);
    }
}

/// An overflowing prefix makes the whole digit string overflow.
proof fn lemma_prefix_overflow(full: Seq<char>, k1: int, pad: nat)
    requires
        0 <= k1 <= full.len(),
        digits_val(full.subrange(0, k1)) >= amount_bound(),
    ensures
        digits_val(full) * pow10(pad) >= amount_bound(),
{
    let pre = full.subrange(0, k1);
    let post = full.subrange(k1, full.len() as int);
    assert(full =~= pre + post);
    lemma_digits_val_concat(pre, post);
    lemma_pow10_pos(post.len());
    lemma_mul_grows(digits_val(pre), pow10(post.len()));
    lemma_pow10_pos(pad);
    lemma_mul_grows(digits_val(full), pow10(pad));
}

/// An overflow while padding the fraction makes the final value overflow.
proof fn lemma_pad_overflow(a: nat, z: nat, ptot: nat)
    requires
        z < ptot,
        a * pow10(z) * 10 >= amount_bound(),
    ensures
        a * pow10(ptot) >= amount_bound(),
{
    let rest = (ptot - z - 1) as nat;
    lemma_pow10_add(z + 1, rest);
    lemma_pow10_add(z, 1);
    lemma_pow10_pos(rest);
    assert(pow10(0nat) == 1);
    assert(pow10(1nat) == 10 * pow10(0nat));
    assert(a * pow10(ptot) == ((a * pow10(z)) * 10) * pow10(rest)) by (nonlinear_arith)
        requires
            pow10(ptot) == pow10(z + 1) * pow10(rest),
            pow10(z + 1) == pow10(z) * pow10(1),
            pow10(1nat) == 10,
    ;
    lemma_mul_grows((a * pow10(z) * 10) as nat, pow10(rest));
}

/// Errors of `parse_units`.
#[derive(Clone, Copy, Debug, PartialEq, Eq, Structural)]
pub enum UnitsError {
    /// The string is not a well-formed decimal amount for this token.
    Malformed,
    /// The denoted value does not fit in 256 bits.
    Overflow,
}

/// The digits among the first `k` characters of `s`, skipping a dot at `p`.
pub open spec fn digits_prefix(s: Seq<char>, p: int, k: int) -> Seq<char> {
    if k <= p {
        s.subrange(0, k)
    } else {
        s.subrange(0, p) + s.subrange(p + 1, k)
    }
}

/// Parses a decimal token amount such as `"25.37"` into its raw value in
/// the smallest on-chain unit, for a token with `d` fractional digits.
/// The integer or the fractional part may be empty, but not both.
pub fn parse_units(s: &str, d: u8) -> (r: Result<Amount, UnitsError>)
    ensures
        r is Ok <==> units_shape_ok(s@, d as nat) && units_val(s@, d as nat) < amount_bound(),
        r is Ok ==> r.unwrap().val() == units_val(s@, d as nat),
        r == Err::<Amount, UnitsError>(UnitsError::Malformed) <==> !units_shape_ok(s@, d as nat),
        r == Err::<Amount, UnitsError>(UnitsError::Overflow) <==> units_shape_ok(s@, d as nat)
            && units_val(s@, d as nat) >= amount_bound(),
{
    let n = s.unicode_len();
    let ghost sv = s@;

    // Locate the dot.
    let mut p: usize = 0;
    while p < n && s.get_char(p) != '.'
        invariant
            0 <= p <= n,
            n == sv.len(),
            sv == s@,
            forall|j: int| 0 <= j < p ==> sv[j] != ('.'),
        decreases n - p,
    {
        p += 1;
    }
    proof {
        lemma_dot_pos_char(sv, p as int);
    }

    // Validate the shape.
    if n == 0 {
        return Err(UnitsError::Malformed);
    }
    if p < n && n == 1 {
        return Err(UnitsError::Malformed);
    }
    let frac_len: usize = if p < n {
        n - p - 1
    } else {
        0
    };
    if frac_len > d as usize {
        return Err(UnitsError::Malformed);
    }
    let mut i: usize = 0;
    while i < n
        invariant
            0 <= i <= n,
            n == sv.len(),
            sv == s@,
            dot_pos(sv) == p,
            0 <= p <= n,
            forall|j: int| 0 <= j < i && j != p ==> is_digit_char(sv[j]),
        decreases n - i,
    {
        if i != p {
            let c = s.get_char(i);
            if char_to_digit(c).is_none() {
                proof {
                    if p == n {
                        assert(!all_digits(sv));
                    } else {
                        let int_part = sv.subrange(0, p as int);
                        let frac = sv.subrange(p as int + 1, n as int);
                        if i < p {
                            assert(int_part[i as int] == sv[i as int]);
                            assert(!all_digits(int_part));
                        } else {
                            assert(frac[i - p - 1] == sv[i as int]);
                            assert(!all_digits(frac));
                        }
                    }
                }
                return Err(UnitsError::Malformed);
            }
        }
        i += 1;
    }
    let ghost int_part: Seq<char> = if p == n {
        sv
    } else {
        sv.subrange(0, p as int)
    };
    let ghost frac: Seq<char> = if p == n {
        Seq::empty()
    } else {
        sv.subrange(p as int + 1, n as int)
    };
    proof {
        if p == n {
            assert(all_digits(sv));
        } else {
            assert(forall|j: int| 0 <= j < int_part.len() ==> is_digit_char(#[trigger] int_part[j]));
            assert(forall|j: int| 0 <= j < frac.len() ==> is_digit_char(#[trigger] frac[j]));
        }
        assert(units_shape_ok(sv, d as nat));
    }

    let ghost full: Seq<char> = int_part + frac;
    let ghost ptot: nat = (d - frac.len()) as nat;
    let ghost total: nat = units_val(sv, d as nat);
    proof {
        if p == n {
            assert(full =~= sv);
        } else {
            lemma_digits_val_concat(int_part, frac);
            lemma_pow10_add(frac.len(), ptot);
            assert((digits_val(int_part) * pow10(frac.len()) + digits_val(frac)) * pow10(ptot)
                == digits_val(int_part) * (pow10(frac.len()) * pow10(ptot)) + digits_val(frac)
                * pow10(ptot)) by (nonlinear_arith);
        }
        assert(total == digits_val(full) * pow10(ptot));
    }

    // Fold the digits of the integer and fractional parts.
    let mut acc = Amount::zero();
    let mut k: usize = 0;
    while k < n
        invariant
            0 <= k <= n,
            n == sv.len(),
            sv == s@,
            dot_pos(sv) == p,
            0 <= p <= n,
            units_shape_ok(sv, d as nat),
            int_part == (if p == n { sv } else { sv.subrange(0, p as int) }),
            frac == (if p == n { Seq::<char>::empty() } else {
                sv.subrange(p as int + 1, n as int)
            }),
            full == int_part + frac,
            frac.len() <= d,
            ptot == d - frac.len(),
            total == units_val(sv, d as nat),
            total == digits_val(full) * pow10(ptot),
            acc.val() == digits_val(digits_prefix(sv, p as int, k as int)),
        decreases n - k,
    {
        if k != p {
            proof {
                if p == n {
                    assert(is_digit_char(sv[k as int]));
                } else if k < p {
                    assert(sv[k as int] == sv.subrange(0, p as int)[k as int]);
                } else {
                    assert(sv[k as int] == sv.subrange(p as int + 1, n as int)[k - p - 1]);
                }
            }
            let c = s.get_char(k);
            let dig = char_to_digit(c).unwrap();
            let ghost pref = digits_prefix(sv, p as int, k as int);
            match acc.checked_mul10_add(dig) {
                Some(a2) => {
                    proof {
                        assert(digits_prefix(sv, p as int, k as int + 1) =~= pref.push(
                            sv[k as int],
                        ));
                        lemma_digits_val_push(pref, sv[k as int]);
                    }
                    acc = a2;
                },
                None => {
                    proof {
                        let prefnext = digits_prefix(sv, p as int, k as int + 1);
                        assert(prefnext =~= pref.push(sv[k as int]));
                        lemma_digits_val_push(pref, sv[k as int]);
                        assert(prefnext =~= full.subrange(0, prefnext.len() as int));
                        lemma_prefix_overflow(full, prefnext.len() as int, ptot);
                    }
                    return Err(UnitsError::Overflow);
                },
            }
        } else {
            proof {
                assert(digits_prefix(sv, p as int, k as int + 1) =~= digits_prefix(
                    sv,
                    p as int,
                    k as int,
                ));
            }
        }
        k += 1;
    }
    proof {
        assert(digits_prefix(sv, p as int, n as int) =~= full);
        assert(pow10(0nat) == 1);
        assert(acc.val() == digits_val(full));
        assert(digits_val(full) * pow10(0nat) == digits_val(full) * 1) by (nonlinear_arith)
            requires
                pow10(0nat) == 1,
        ;
        assert(digits_val(full) * 1 == digits_val(full)) by (nonlinear_arith);
        assert(acc.val() == digits_val(full) * pow10(0nat));
    }

    // Pad with zeros up to `d` fractional digits.
    let pad: usize = d as usize - frac_len;
    let mut z: usize = 0;
    while z < pad
        invariant
            0 <= z <= pad,
            pad == ptot,
            sv == s@,
            units_shape_ok(sv, d as nat),
            total == units_val(sv, d as nat),
            total == digits_val(full) * pow10(ptot),
            acc.val() == digits_val(full) * pow10(z as nat),
        decreases pad - z,
    {
        match acc.checked_mul10_add(0) {
            Some(a2) => {
                proof {
                    assert(pow10((z + 1) as nat) == pow10(z as nat) * 10) by {
                        lemma_pow10_add(z as nat, 1);
                    };
                    assert(digits_val(full) * (pow10(z as nat) * 10) == (digits_val(full) * pow10(
                        z as nat,
                    )) * 10) by (nonlinear_arith);
                }
                acc = a2;
            },
            None => {
                proof {
                    lemma_pad_overflow(digits_val(full), z as nat, ptot);
                }
                return Err(UnitsError::Overflow);
            },
        }
        z += 1;
    }

    proof {
        acc.lemma_val_bound();
        assert(acc.val() == total);
    }
    Ok(acc)
}

/// The round-trip law: a string produced by `format_units` for a raw value
/// `v` and `d` fractional digits, `d <= 77`, is accepted by `parse_units`
/// and denotes `v` again.
pub proof fn lemma_units_round_trip(v: nat, d: nat, r: Seq<char>)
    requires
        d <= 77,
        v < amount_bound(),
        units_formatted(v, d, r),
    ensures
        units_shape_ok(r, d),
        units_val(r, d) == v,
{
    lemma_pow10_pos(d);
    if d == 0 {
        assert(forall|j: int| 0 <= j < r.len() ==> r[j] != '.') by {
            assert(forall|j: int| 0 <= j < r.len() ==> is_digit_char(#[trigger] r[j]));
            assert('.' as u32 == 46);
        };
        lemma_dot_pos_char(r, r.len() as int);
        assert(pow10(0nat) == 1);
        assert(digits_val(r) * pow10(0nat) == digits_val(r) * 1);
    } else {
        let ilen = r.len() - d - 1;
        let int_part = r.subrange(0, ilen);
        let frac = r.subrange(ilen + 1, r.len() as int);
        assert(forall|j: int| 0 <= j < ilen ==> r[j] != '.') by {
            assert(forall|j: int| 0 <= j < int_part.len() ==> is_digit_char(#[trigger] int_part[j]));
            assert(forall|j: int| 0 <= j < ilen ==> int_part[j] == r[j]);
            assert('.' as u32 == 46);
        };
        lemma_dot_pos_char(r, ilen);
        assert(frac.len() == d);
        lemma_fundamental_div_mod(v as int, pow10(d) as int);
        assert(pow10(0nat) == 1);
        assert(digits_val(frac) * pow10(0nat) == digits_val(frac) * 1);
        assert(units_val(r, d) == digits_val(int_part) * pow10(d) + digits_val(frac) * pow10(
            (d - frac.len()) as nat,
        ));
        assert(digits_val(int_part) * pow10(d) == pow10(d) * (v as int / pow10(d) as int));
    }
}

/// Renders a raw value in the smallest on-chain unit as a decimal token
/// amount with exactly `d` fractional digits, such as `"25.370000"`.
pub fn format_units(v: &Amount, d: u8) -> (r: String)
    ensures
        units_formatted(v.val(), d as nat, r@),
{
    let ghost vv = v.val();

    // Collect the `d` fractional digits, least significant first.
    let mut cur: Amount = *v;
    let mut frac_rev: Vec<char> = Vec::new();
    proof {
        assert(rev(frac_rev@) =~= Seq::<char>::empty());
        assert(pow10(0nat) == 1);
    }
    let mut k: usize = 0;
    while k < d as usize
        invariant
            0 <= k <= d,
            frac_rev.len() == k,
            all_digits(rev(frac_rev@)),
            cur.val() * pow10(k as nat) + digits_val(rev(frac_rev@)) == vv,
            digits_val(rev(frac_rev@)) < pow10(k as nat),
        decreases d - k,
    {
        let (q, dig) = cur.divmod10();
        let c = digit_to_char(dig);
        proof {
            assert(rev(frac_rev@.push(c)) =~= seq![c] + rev(frac_rev@));
            lemma_digits_val_prepend(c, rev(frac_rev@));
            assert(pow10(0nat) == 1);
            assert(pow10(1nat) == 10 * pow10(0nat));
            assert(pow10((k + 1) as nat) == pow10(k as nat) * 10) by {
                lemma_pow10_add(k as nat, 1);
                assert(pow10(0nat) == 1);
                assert(pow10(1nat) == 10 * pow10(0nat));
            };
            assert(q.val() * (pow10(k as nat) * 10) == (q.val() * 10) * pow10(k as nat))
                by (nonlinear_arith);
            assert((q.val() * 10 + digit_of(c)) * pow10(k as nat) == (q.val() * 10) * pow10(
                k as nat,
            ) + digit_of(c) * pow10(k as nat)) by (nonlinear_arith);
            lemma_mul_inequality(digit_of(c) as int, 9, pow10(k as nat) as int);
        }
        frac_rev.push(c);
        cur = q;
        k += 1;
    }
    proof {
        lemma_fundamental_div_mod_converse(
            vv as int,
            pow10(d as nat) as int,
            cur.val() as int,
            digits_val(rev(frac_rev@)) as int,
        );
    }
    let ghost int_val: nat = cur.val();

    // Collect the integer part's digits, least significant first.
    let mut int_rev: Vec<char> = Vec::new();
    proof {
        assert(int_rev@.len() == 0);
        assert(rev(int_rev@) =~= Seq::<char>::empty());
        assert(digits_val(Seq::<char>::empty()) == 0);
        assert(pow10(0nat) == 1);
        assert(digits_val(rev(int_rev@)) == 0);
        assert(pow10(int_rev@.len() as nat) == 1);
        assert(cur.val() * pow10(int_rev@.len() as nat) == cur.val() * 1);
        assert(cur.val() * pow10(int_rev@.len() as nat) + digits_val(rev(int_rev@)) == int_val);
    }
    while !cur.is_zero()
        invariant
            all_digits(rev(int_rev@)),
            cur.val() * pow10(int_rev.len() as nat) + digits_val(rev(int_rev@)) == int_val,
            digits_val(rev(int_rev@)) < pow10(int_rev.len() as nat),
            int_rev.len() > 0 && cur.val() == 0 ==> rev(int_rev@)[0] != '0',
        decreases cur.val(),
    {
        let (q, dig) = cur.divmod10();
        let c = digit_to_char(dig);
        proof {
            assert(rev(int_rev@.push(c)) =~= seq![c] + rev(int_rev@));
            lemma_digits_val_prepend(c, rev(int_rev@));
            assert(pow10((int_rev.len() + 1) as nat) == pow10(int_rev.len() as nat) * 10) by {
                lemma_pow10_add(int_rev.len() as nat, 1);
                assert(pow10(0nat) == 1);
                assert(pow10(1nat) == 10 * pow10(0nat));
            };
            assert(q.val() * (pow10(int_rev.len() as nat) * 10) == (q.val() * 10) * pow10(
                int_rev.len() as nat,
            )) by (nonlinear_arith);
            assert((q.val() * 10 + digit_of(c)) * pow10(int_rev.len() as nat) == (q.val() * 10)
                * pow10(int_rev.len() as nat) + digit_of(c) * pow10(int_rev.len() as nat))
                by (nonlinear_arith);
            lemma_mul_inequality(digit_of(c) as int, 9, pow10(int_rev.len() as nat) as int);
            if q.val() == 0 && dig == 0 {
                assert(cur.val() == 0);
            }
        }
        int_rev.push(c);
        cur = q;
    }
    if int_rev.len() == 0 {
        int_rev.push('0');
        proof {
            assert(rev(int_rev@) =~= seq!['0']);
            assert(digit_of('0') == 0);
            assert(digits_val(seq!['0']) == 0) by {
                assert(seq!['0'].subrange(1, 1) =~= Seq::<char>::empty());
            };
        }
    }

    // Assemble the output.
    let ghost int_digits = rev(int_rev@);
    let ghost frac_digits = rev(frac_rev@);
    let mut out = String::new();
    proof {
        assert(out@ =~= int_digits.subrange(0, 0));
    }
    let ni = int_rev.len();
    let mut j: usize = 0;
    while j < ni
        invariant
            0 <= j <= ni,
            ni == int_rev.len(),
            int_digits == rev(int_rev@),
            out@ == int_digits.subrange(0, j as int),
        decreases ni - j,
    {
        out.push(int_rev[ni - 1 - j]);
        proof {
            assert(int_digits.subrange(0, j + 1) =~= int_digits.subrange(0, j as int).push(
                int_digits[j as int],
            ));
        }
        j += 1;
    }
    proof {
        assert(out@ =~= int_digits);
    }
    if d > 0 {
        out.push('.');
        proof {
            assert(out@ =~= int_digits + seq!['.'] + frac_digits.subrange(0, 0));
        }
        let nf = frac_rev.len();
        let mut j2: usize = 0;
        while j2 < nf
            invariant
                0 <= j2 <= nf,
                nf == frac_rev.len(),
                nf == d,
                int_digits == rev(int_rev@),
                frac_digits == rev(frac_rev@),
                out@ == int_digits + seq!['.'] + frac_digits.subrange(0, j2 as int),
            decreases nf - j2,
        {
            out.push(frac_rev[nf - 1 - j2]);
            proof {
                assert(frac_digits.subrange(0, j2 + 1) =~= frac_digits.subrange(0, j2 as int).push(
                    frac_digits[j2 as int],
                ));
                assert((int_digits + seq!['.'] + frac_digits.subrange(0, j2 as int)).push(
                    frac_digits[j2 as int],
                ) =~= int_digits + seq!['.'] + frac_digits.subrange(0, j2 + 1));
            }
            j2 += 1;
        }
        proof {
            let r = out@;
            let ilen = r.len() - d - 1;
            assert(frac_digits.subrange(0, d as int) =~= frac_digits);
            assert(r.subrange(0, ilen) =~= int_digits);
            assert(r.subrange(ilen + 1, r.len() as int) =~= frac_digits);
            assert(r[ilen] == '.');
            lemma_fundamental_div_mod_converse(
                vv as int,
                pow10(d as nat) as int,
                int_val as int,
                digits_val(frac_digits) as int,
            );
        }
    } else {
        proof {
            assert(vv == int_val);
        }
    }
    out
}

} // verus!
