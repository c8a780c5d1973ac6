//! The grammar of numeric tokens.
//!
//! A token is a valid number when it matches the grammar of floating-point
//! literals that the standard library's string-to-float conversion accepts:
//! an optional sign, then either one of the words `inf`, `infinity`, `nan`
//! (case-insensitive) or a decimal mantissa with an optional exponent part.
//! Only the shape of the token is decided here; the conversion to a machine
//! float happens in the surrounding binary and cannot fail on a token that
//! this grammar accepts.

use vstd::prelude::*;

verus! {

/// A decimal digit.
pub open spec fn is_digit(c: char) -> bool {
    0x30 <= c as u32 && c as u32 <= 0x39
}

fn is_digit_exec(c: char) -> (r: bool)
    ensures
        r == is_digit(c),
{
    let u = c as u32;
    0x30 <= u && u <= 0x39
}

/// Every character is a decimal digit.
pub open spec fn all_digits(s: Seq<char>) -> bool {
    forall|i: int| 0 <= i < s.len() ==> is_digit(#[trigger] s[i])
}

/// At least one character, all of them decimal digits.
pub open spec fn is_count(s: Seq<char>) -> bool {
    s.len() >= 1 && all_digits(s)
}

/// An exponent marker.
pub open spec fn is_e(c: char) -> bool {
    c == 'e' || c == 'E'
}

/// The word `inf`, case-insensitive.
pub open spec fn is_inf_word(b: Seq<char>) -> bool {
    b.len() == 3 && (b[0] == 'i' || b[0] == 'I') && (b[1] == 'n' || b[1] == 'N') && (b[2] == 'f'
        || b[2] == 'F')
}

/// The word `infinity`, case-insensitive.
pub open spec fn is_infinity_word(b: Seq<char>) -> bool {
    b.len() == 8 && (b[0] == 'i' || b[0] == 'I') && (b[1] == 'n' || b[1] == 'N') && (b[2] == 'f'
        || b[2] == 'F') && (b[3] == 'i' || b[3] == 'I') && (b[4] == 'n' || b[4] == 'N') && (b[5]
        == 'i' || b[5] == 'I') && (b[6] == 't' || b[6] == 'T') && (b[7] == 'y' || b[7] == 'Y')
}

/// The word `nan`, case-insensitive.
pub open spec fn is_nan_word(b: Seq<char>) -> bool {
    b.len() == 3 && (b[0] == 'n' || b[0] == 'N') && (b[1] == 'a' || b[1] == 'A') && (b[2] == 'n'
        || b[2] == 'N')
}

/// A valid split of a mantissa at position `j`: digits up to `j`, then
/// either the end (with at least one digit) or a point followed by digits,
/// with at least one digit somewhere.
pub open spec fn mantissa_split_at(m: Seq<char>, j: int) -> bool {
    0 <= j <= m.len() && all_digits(m.take(j)) && ((j == m.len() && j >= 1) || (j < m.len() && m[j]
        == '.' && all_digits(m.skip(j + 1)) && (j >= 1 || m.len() - j - 1 >= 1)))
}

/// A decimal mantissa: digits, optionally with one point, at least one digit.
pub open spec fn is_mantissa(m: Seq<char>) -> bool {
    exists|j: int| mantissa_split_at(m, j)
}

/// What may follow an exponent marker: an optional sign, then digits.
pub open spec fn is_exp_tail(x: Seq<char>) -> bool {
    if x.len() > 0 && (x[0] == '+' || x[0] == '-') {
        is_count(x.skip(1))
    } else {
        is_count(x)
    }
}

/// A finite number after sign stripping: a mantissa, optionally followed by
/// an exponent marker and an exponent.
pub open spec fn is_finite_number(b: Seq<char>) -> bool {
    is_mantissa(b) || exists|k: int|
        0 <= k < b.len() && is_e(#[trigger] b[k]) && is_mantissa(b.take(k)) && is_exp_tail(
            b.skip(k + 1),
        )
}

/// The token with one leading sign removed, if any.
pub open spec fn strip_sign(s: Seq<char>) -> Seq<char> {
    if s.len() > 0 && (s[0] == '+' || s[0] == '-') {
        s.skip(1)
    } else {
        s
    }
}

/// A token that parses as a number.
pub open spec fn is_number(s: Seq<char>) -> bool {
    let b = strip_sign(s);
    is_inf_word(b) || is_infinity_word(b) || is_nan_word(b) || is_finite_number(b)
}

/// A mantissa never contains an exponent marker.
proof fn lemma_e_not_mantissa(m: Seq<char>, k: int)
    requires
        0 <= k < m.len(),
        is_e(m[k]),
    ensures
        !is_mantissa(m),
{
    assert forall|j: int| !mantissa_split_at(m, j) by {
        if 0 <= j <= m.len() {
            if k < j {
                assert(m.take(j)[k] == m[k]);
                assert(!is_digit(m[k]));
            } else if k == j {
                assert(m[j] != '.');
            } else {
                assert(m.skip(j + 1)[k - j - 1] == m[k]);
                assert(!is_digit(m[k]));
            }
        }
    };
}

/// Copies the characters in `[from, to)`.
fn copy_range(t: &Vec<char>, from: usize, to: usize) -> (r: Vec<char>)
    requires
        from <= to <= t@.len(),
    ensures
        r@ == t@.subrange(from as int, to as int),
{
    let mut r: Vec<char> = Vec::new();
    let mut i: usize = from;
    while i < to
        invariant
            from <= i <= to <= t@.len(),
            r@ == t@.subrange(from as int, i as int),
        decreases to - i,
    {
        r.push(t[i]);
        proof {
            assert(t@.subrange(from as int, i + 1) =~= t@.subrange(from as int, i as int).push(
                t@[i as int],
            ));
        }
        i = i + 1;
    }
    r
}

/// Every character from `from` on is a decimal digit.
fn all_digits_from(m: &Vec<char>, from: usize) -> (r: bool)
    requires
        from <= m@.len(),
    ensures
        r == all_digits(m@.skip(from as int)),
{
    let mut i: usize = from;
    while i < m.len()
        invariant
            from <= i <= m@.len(),
            forall|j: int| from <= j < i ==> is_digit(#[trigger] m@[j]),
        decreases m@.len() - i,
    {
        if !is_digit_exec(m[i]) {
            proof {
                assert(m@.skip(from as int)[i - from] == m@[i as int]);
            }
            return false;
        }
        i = i + 1;
    }
    proof {
        assert forall|j: int| 0 <= j < m@.skip(from as int).len() implies is_digit(
            #[trigger] m@.skip(from as int)[j],
        ) by {
            assert(m@.skip(from as int)[j] == m@[j + from]);
        }
    }
    true
}

/// Decides whether the characters form a decimal mantissa.
fn is_mantissa_vec(m: &Vec<char>) -> (r: bool)
    ensures
        r == is_mantissa(m@),
{
    let mut j: usize = 0;
    while j < m.len() && is_digit_exec(m[j])
        invariant
            j <= m@.len(),
            forall|x: int| 0 <= x < j ==> is_digit(#[trigger] m@[x]),
        decreases m@.len() - j,
    {
        j = j + 1;
    }
    if j == m.len() {
        if j >= 1 {
            proof {
                assert(m@.take(j as int) =~= m@);
                assert(mantissa_split_at(m@, j as int));
            }
            true
        } else {
            proof {
                assert forall|x: int| !mantissa_split_at(m@, x) by {}
            }
            false
        }
    } else {
        if m[j] == '.' {
            let frac_ok = all_digits_from(m, j + 1);
            proof {
                assert(m@.skip(j + 1).len() == m@.len() - j - 1);
            }
            if frac_ok && (j >= 1 || m.len() - j >= 2) {
                proof {
                    assert(all_digits(m@.take(j as int))) by {
                        assert(forall|x: int|
                            0 <= x < j ==> m@.take(j as int)[x] == #[trigger] m@[x]);
                    }
                    assert(mantissa_split_at(m@, j as int));
                }
                true
            } else {
                proof {
                    assert forall|x: int| !mantissa_split_at(m@, x) by {
                        if 0 <= x <= m@.len() {
                            if x > j {
                                assert(m@.take(x)[j as int] == m@[j as int]);
                                assert(!is_digit(m@[j as int]));
                            } else if x < j {
                                assert(is_digit(m@[x]));
                                assert(m@[x] != '.');
                            } else {
                                if frac_ok {
                                    assert(!(j >= 1 || m@.len() - j >= 2));
                                }
                            }
                        }
                    };
                }
                false
            }
        } else {
            proof {
                assert forall|x: int| !mantissa_split_at(m@, x) by {
                    if 0 <= x <= m@.len() {
                        if x > j {
                            assert(m@.take(x)[j as int] == m@[j as int]);
                            assert(!is_digit(m@[j as int]));
                        } else if x < j {
                            assert(is_digit(m@[x]));
                            assert(m@[x] != '.');
                        }
                    }
                };
            }
            false
        }
    }
}

/// Decides whether the characters form an exponent: optional sign, digits.
fn is_exp_tail_vec(x: &Vec<char>) -> (r: bool)
    ensures
        r == is_exp_tail(x@),
{
    let from: usize = if x.len() > 0 && (x[0] == '+' || x[0] == '-') {
        1
    } else {
        0
    };
    proof {
        assert(x@.skip(from as int).len() == x@.len() - from);
    }
    if x.len() - from < 1 {
        proof {
            assert(!is_count(x@.skip(from as int)));
            if from == 0 {
                assert(x@.skip(0) =~= x@);
            }
        }
        false
    } else {
        let r = all_digits_from(x, from);
        proof {
            if from == 0 {
                assert(x@.skip(0) =~= x@);
            }
        }
        r
    }
}

/// Decides whether the characters (sign already stripped) form a finite
/// number.
fn is_finite_vec(b: &Vec<char>) -> (r: bool)
    ensures
        r == is_finite_number(b@),
{
    let mut k: usize = 0;
    while k < b.len() && !(b[k] == 'e' || b[k] == 'E')
        invariant
            k <= b@.len(),
            forall|x: int| 0 <= x < k ==> !is_e(#[trigger] b@[x]),
        decreases b@.len() - k,
    {
        k = k + 1;
    }
    if k == b.len() {
        let r = is_mantissa_vec(b);
        proof {
            if r {
                assert(is_finite_number(b@));
            } else {
                assert forall|k2: int|
                    !(0 <= k2 < b@.len() && is_e(#[trigger] b@[k2]) && is_mantissa(b@.take(k2))
                        && is_exp_tail(b@.skip(k2 + 1))) by {}
            }
        }
        r
    } else {
        let mant = copy_range(b, 0, k);
        let tail = copy_range(b, k + 1, b.len());
        proof {
            assert(mant@ =~= b@.take(k as int));
            assert(tail@ =~= b@.skip(k + 1));
        }
        let mant_ok = is_mantissa_vec(&mant);
        let tail_ok = is_exp_tail_vec(&tail);
        let r = mant_ok && tail_ok;
        proof {
            if r {
                assert(0 <= k < b@.len() && is_e(b@[k as int]) && is_mantissa(b@.take(k as int))
                    && is_exp_tail(b@.skip(k as int + 1)));
                assert(is_finite_number(b@));
            } else {
                lemma_e_not_mantissa(b@, k as int);
                assert forall|k2: int|
                    !(0 <= k2 < b@.len() && is_e(#[trigger] b@[k2]) && is_mantissa(b@.take(k2))
                        && is_exp_tail(b@.skip(k2 + 1))) by {
                    if 0 <= k2 < b@.len() && is_e(b@[k2]) {
                        if k2 < k {
                            assert(!is_e(b@[k2]));
                        } else if k2 > k {
                            assert(b@.take(k2)[k as int] == b@[k as int]);
                            lemma_e_not_mantissa(b@.take(k2), k as int);
                        }
                    }
                };
            }
        }
        r
    }
}

/// Decides whether a token parses as a number.
pub fn is_number_token(t: &Vec<char>) -> (r: bool)
    ensures
        r == is_number(t@),
{
    let start: usize = if t.len() > 0 && (t[0] == '+' || t[0] == '-') {
        1
    } else {
        0
    };
    let b = copy_range(t, start, t.len());
    proof {
        assert(b@ =~= strip_sign(t@));
    }
    if b.len() == 3 && (b[0] == 'i' || b[0] == 'I') && (b[1] == 'n' || b[1] == 'N') && (b[2] == 'f'
        || b[2] == 'F') {
        return true;
    }
    if b.len() == 8 && (b[0] == 'i' || b[0] == 'I') && (b[1] == 'n' || b[1] == 'N') && (b[2] == 'f'
        || b[2] == 'F') && (b[3] == 'i' || b[3] == 'I') && (b[4] == 'n' || b[4] == 'N') && (b[5]
        == 'i' || b[5] == 'I') && (b[6] == 't' || b[6] == 'T') && (b[7] == 'y' || b[7] == 'Y') {
        return true;
    }
    if b.len() == 3 && (b[0] == 'n' || b[0] == 'N') && (b[1] == 'a' || b[1] == 'A') && (b[2] == 'n'
        || b[2] == 'N') {
        return true;
    }
    is_finite_vec(&b)
}

} // verus!
