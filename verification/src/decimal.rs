use vstd::prelude::*;
use crate::ratio::Ratio;

verus! {

/// How many digits a decimal literal may carry in all (dot not counted).
/// The cap keeps every parsed numerator and denominator inside `u64`.
pub const MAX_DIGITS: usize = 18;

/// `c` is an ASCII digit.
pub open spec fn is_digit(c: char) -> bool {
    48 <= c as u32 && c as u32 <= 57
}

/// The numeric value of an ASCII digit.
pub open spec fn digit_val(c: char) -> int {
    c as u32 - 48
}

/// Every character of `s` is an ASCII digit.
pub open spec fn all_digits(s: Seq<char>) -> bool {
    forall|i: int| 0 <= i < s.len() ==> is_digit(#[trigger] s[i])
}

/// The number written by a string of digits, most significant first.
pub open spec fn digits_val(s: Seq<char>) -> int
    decreases s.len(),
{
    if s.len() == 0 {
        0
    } else {
        digits_val(s.drop_last()) * 10 + digit_val(s.last())
    }
}

pub open spec fn pow10(n: nat) -> int
    decreases n,
{
    if n == 0 {
        1
    } else {
        10 * pow10((n - 1) as nat)
    }
}

/// `k` splits `s` as a decimal literal: every other position is a digit,
/// `k` is either the end of the string or a dot with at least one digit on
/// each side, and the digits number at most `MAX_DIGITS`.
pub open spec fn dec_split_ok(s: Seq<char>, k: int) -> bool {
    &&& 1 <= k <= s.len()
    &&& (k < s.len() ==> s[k] == '.' && s.len() - k >= 2)
    &&& (forall|j: int| 0 <= j < s.len() && j != k ==> is_digit(#[trigger] s[j]))
    &&& dec_mantissa(s, k).len() <= MAX_DIGITS
}

/// The digits of the literal with the dot removed.
pub open spec fn dec_mantissa(s: Seq<char>, k: int) -> Seq<char> {
    if k >= s.len() {
        s
    } else {
        s.subrange(0, k) + s.subrange(k + 1, s.len() as int)
    }
}

/// How many digits follow the dot.
pub open spec fn dec_frac_len(s: Seq<char>, k: int) -> int {
    if k >= s.len() {
        0
    } else {
        s.len() - k - 1
    }
}

/// `s` is a well-formed decimal literal.
pub open spec fn dec_shape_ok(s: Seq<char>) -> bool {
    exists|k: int| dec_split_ok(s, k)
}

/// `s` is a well-formed decimal literal writing a strictly positive number.
pub open spec fn dec_positive(s: Seq<char>) -> bool {
    exists|k: int| dec_split_ok(s, k) && digits_val(dec_mantissa(s, k)) >= 1
}

/// A string has at most one decimal split point.
proof fn lemma_split_unique(s: Seq<char>, k1: int, k2: int)
    requires
        dec_split_ok(s, k1),
        dec_split_ok(s, k2),
    ensures
        k1 == k2,
{
    if k1 < k2 {
        assert(k1 < s.len());
        assert(s[k1] == '.');
        assert(is_digit(s[k1]));
    } else if k2 < k1 {
        assert(k2 < s.len());
        assert(s[k2] == '.');
        assert(is_digit(s[k2]));
    }
}

proof fn lemma_pow10_pos(n: nat)
    ensures
        pow10(n) >= 1,
    decreases n,
{
    if n > 0 {
        lemma_pow10_pos((n - 1) as nat);
    }
}

proof fn lemma_pow10_mono(a: nat, b: nat)
    requires
        a <= b,
    ensures
        pow10(a) <= pow10(b),
    decreases b,
{
    if a < b {
        lemma_pow10_mono(a, (b - 1) as nat);
        lemma_pow10_pos((b - 1) as nat);
    }
}

proof fn lemma_pow10_cap()
    ensures
        pow10(MAX_DIGITS as nat) == 1000000000000000000,
{
    reveal_with_fuel(pow10, 19);
}

/// Appending a digit multiplies the value by ten and adds the digit.
proof fn lemma_digits_val_push(s: Seq<char>, c: char)
    ensures
        digits_val(s.push(c)) == digits_val(s) * 10 + digit_val(c),
{
    assert(s.push(c).drop_last() =~= s);
    assert(s.push(c).last() == c);
}

/// A string of `n` digits writes a number below `pow10(n)`.
proof fn lemma_digits_val_bounds(s: Seq<char>)
    requires
        all_digits(s),
    ensures
        0 <= digits_val(s) < pow10(s.len()),
    decreases s.len(),
{
    if s.len() > 0 {
        assert(all_digits(s.drop_last())) by {
            assert(forall|i: int| 0 <= i < s.len() - 1 ==> s.drop_last()[i] == #[trigger] s[i]);
        }
        lemma_digits_val_bounds(s.drop_last());
        assert(is_digit(s.last()));
        assert(pow10(s.len()) == 10 * pow10((s.len() - 1) as nat));
    }
}

/// Scan for the decimal split point of `s`; `None` exactly when `s` is not
/// a well-formed decimal literal.
fn check_shape(s: &str) -> (r: Option<usize>)
    ensures
        r matches Some(k) ==> dec_split_ok(s@, k as int),
        r is None ==> !dec_shape_ok(s@),
{
    let n = s.unicode_len();
    if n == 0 {
        return None;
    }
    let mut i: usize = 0;
    let mut dot: usize = n;
    while i < n
        invariant
            n == s@.len(),
            0 <= i <= n,
            dot <= n,
            dot < n ==> dot < i && s@[dot as int] == '.',
            forall|j: int| 0 <= j < i && j != dot ==> is_digit(#[trigger] s@[j]),
        decreases n - i,
    {
        let c = s.get_char(i);
        let u = c as u32;
        if 48 <= u && u <= 57 {
            // a digit; keep scanning
        } else if u == 46 {
            if dot < n {
                // a second dot: no split point can make both dots digits
                proof {
                    assert forall|k: int| !dec_split_ok(s@, k) by {
                        if dec_split_ok(s@, k) {
                            if k != dot as int {
                                assert(is_digit(s@[dot as int]));
                            } else {
                                assert(is_digit(s@[i as int]));
                            }
                        }
                    }
                }
                return None;
            }
            dot = i;
        } else {
            // neither digit nor dot: no split point admits this character
            proof {
                assert forall|k: int| !dec_split_ok(s@, k) by {
                    if dec_split_ok(s@, k) {
                        if k == i as int {
                            assert(s@[k] == '.');
                        } else {
                            assert(is_digit(s@[i as int]));
                        }
                    }
                }
            }
            return None;
        }
        i += 1;
    }
    let k = dot;
    if k == 0 {
        // the dot stands first: the integer part is empty
        proof {
            assert forall|kk: int| !dec_split_ok(s@, kk) by {
                if dec_split_ok(s@, kk) {
                    if kk != 0 {
                        assert(is_digit(s@[0]));
                    }
                }
            }
        }
        return None;
    }
    if k < n && n - k < 2 {
        // the dot stands last: the fractional part is empty
        proof {
            assert forall|kk: int| !dec_split_ok(s@, kk) by {
                if dec_split_ok(s@, kk) {
                    if kk != k as int {
                        assert(is_digit(s@[k as int]));
                    }
                }
            }
        }
        return None;
    }
    let m = if k < n { n - 1 } else { n };
    if m > MAX_DIGITS {
        // too many digits for exact 64-bit arithmetic
        proof {
            assert forall|kk: int| !dec_split_ok(s@, kk) by {
                if dec_split_ok(s@, kk) {
                    if k < n {
                        if kk != k as int {
                            assert(is_digit(s@[k as int]));
                        }
                        assert(dec_mantissa(s@, kk).len() == n - 1);
                    } else {
                        assert(all_digits(s@));
                        if kk < n as int {
                            assert(s@[kk] == '.');
                            assert(is_digit(s@[kk]));
                        }
                        assert(dec_mantissa(s@, kk).len() == n);
                    }
                }
            }
        }
        return None;
    }
    proof {
        if k < n {
            assert(dec_mantissa(s@, k as int).len() == n - 1);
        } else {
            assert(dec_mantissa(s@, k as int).len() == n);
        }
    }
    Some(k)
}

/// Fold the digits `s[from..to]` onto an accumulator that already holds the
/// value of the digits `pref`.
fn accumulate_digits(s: &str, from: usize, to: usize, acc: u64, pref: Ghost<Seq<char>>) -> (r: u64)
    requires
        from <= to <= s@.len(),
        forall|j: int| from <= j < to ==> is_digit(#[trigger] s@[j]),
        all_digits(pref@),
        acc == digits_val(pref@),
        pref@.len() + (to - from) <= MAX_DIGITS,
    ensures
        r == digits_val(pref@ + s@.subrange(from as int, to as int)),
{
    let mut acc = acc;
    let mut j = from;
    proof {
        lemma_digits_val_bounds(pref@);
        assert(pref@ + s@.subrange(from as int, from as int) =~= pref@);
    }
    while j < to
        invariant
            from <= j <= to <= s@.len(),
            forall|jj: int| from <= jj < to ==> is_digit(#[trigger] s@[jj]),
            all_digits(pref@),
            pref@.len() + (to - from) <= MAX_DIGITS,
            all_digits(pref@ + s@.subrange(from as int, j as int)),
            acc == digits_val(pref@ + s@.subrange(from as int, j as int)),
            acc < pow10((pref@.len() + (j - from)) as nat),
        decreases to - j,
    {
        let c = s.get_char(j);
        let u = c as u32;
        let d = (u - 48) as u64;
        proof {
            let cur = pref@ + s@.subrange(from as int, j as int);
            assert(cur.len() == pref@.len() + (j - from));
            lemma_digits_val_push(cur, c);
            assert(pref@ + s@.subrange(from as int, j as int + 1) =~= cur.push(c));
            assert(all_digits(cur.push(c))) by {
                assert(forall|ii: int| 0 <= ii < cur.len() ==> cur.push(c)[ii] == #[trigger] cur[ii]);
                assert(cur.push(c)[cur.len() as int] == c);
            }
            lemma_digits_val_bounds(cur.push(c));
            lemma_pow10_mono((cur.len() + 1) as nat, MAX_DIGITS as nat);
            lemma_pow10_cap();
        }
        acc = acc * 10 + d;
        j += 1;
    }
    acc
}

/// Parse a decimal literal (`D+` or `D+.D+`, at most `MAX_DIGITS` digits)
/// into the exact ratio it writes; `None` exactly when `s` is not such a
/// literal.
pub fn parse_decimal(s: &str) -> (r: Option<Ratio>)
    ensures
        r is Some <==> dec_shape_ok(s@),
        r matches Some(q) ==> q.wf() && forall|k: int| dec_split_ok(s@, k)
            ==> q.num == digits_val(dec_mantissa(s@, k))
                && q.den == pow10(dec_frac_len(s@, k) as nat),
{
    let k = match check_shape(s) {
        None => {
            return None;
        },
        Some(k) => k,
    };
    let n = s.unicode_len();
    let int_part = accumulate_digits(s, 0, k, 0, Ghost(Seq::empty()));
    proof {
        assert(Seq::<char>::empty() + s@.subrange(0, k as int) =~= s@.subrange(0, k as int));
    }
    if k == n {
        proof {
            assert(s@.subrange(0, k as int) =~= s@);
            assert(dec_mantissa(s@, k as int) == s@);
            assert(pow10(0) == 1);
            assert forall|k2: int| dec_split_ok(s@, k2) implies k2 == k as int by {
                lemma_split_unique(s@, k2, k as int);
            }
        }
        Some(Ratio { num: int_part, den: 1 })
    } else {
        proof {
            assert(forall|j: int| k < j < n ==> is_digit(#[trigger] s@[j]));
        }
        let num = accumulate_digits(s, k + 1, n, int_part, Ghost(s@.subrange(0, k as int)));
        let mut den: u64 = 1;
        let mut t = k + 1;
        proof {
            lemma_pow10_cap();
        }
        while t < n
            invariant
                k + 1 <= t <= n,
                n == s@.len(),
                n - 1 <= MAX_DIGITS,
                1 <= k,
                den == pow10((t - k - 1) as nat),
                pow10(MAX_DIGITS as nat) == 1000000000000000000,
            decreases n - t,
        {
            proof {
                lemma_pow10_mono((t - k) as nat, MAX_DIGITS as nat);
                lemma_pow10_pos((t - k - 1) as nat);
            }
            den = den * 10;
            t += 1;
        }
        proof {
            lemma_pow10_pos((n - k - 1) as nat);
            assert(dec_mantissa(s@, k as int) == s@.subrange(0, k as int) + s@.subrange(
                k as int + 1,
                n as int,
            ));
            assert forall|k2: int| dec_split_ok(s@, k2) implies k2 == k as int by {
                lemma_split_unique(s@, k2, k as int);
            }
        }
        Some(Ratio { num, den })
    }
}

} // verus!
