//! Base-10 signed integer literals: the mathematical parse function and
//! a verified parser over tokens.
use vstd::prelude::*;

verus! {

pub open spec fn is_digit(c: char) -> bool {
    '0' <= c && c <= '9'
}

pub open spec fn digit_val(c: char) -> int {
    c as int - '0' as int
}

pub open spec fn all_digits(s: Seq<char>) -> bool {
    forall|i: int| 0 <= i < s.len() ==> is_digit(#[trigger] s[i])
}

/// The value of a non-empty digit string, most significant digit first.
pub open spec fn digits_val(s: Seq<char>) -> int
    decreases s.len(),
{
    if s.len() == 0 {
        0
    } else {
        digits_val(s.drop_last()) * 10 + digit_val(s.last())
    }
}

/// The unbounded value of a signed base-10 literal: an optional sign,
/// then one or more digits; anything else does not parse.
pub open spec fn parse_int(s: Seq<char>) -> Option<int> {
    let neg = s.len() > 0 && s[0] == '-';
    let signed = s.len() > 0 && (s[0] == '-' || s[0] == '+');
    let ds = if signed {
        s.skip(1)
    } else {
        s
    };
    if ds.len() == 0 || !all_digits(ds) {
        None
    } else if neg {
        Some(-digits_val(ds))
    } else {
        Some(digits_val(ds))
    }
}

/// A token read as a 64-bit literal: the parse succeeds and the value
/// fits; otherwise the token is not a number.
pub open spec fn token_number(s: Seq<char>) -> Option<i64> {
    match parse_int(s) {
        Some(v) => if i64::MIN <= v <= i64::MAX {
            Some(v as i64)
        } else {
            None
        },
        None => None,
    }
}

pub proof fn lemma_digits_nonneg(s: Seq<char>)
    requires
        all_digits(s),
    ensures
        digits_val(s) >= 0,
    decreases s.len(),
{
    if s.len() > 0 {
        lemma_digits_nonneg(s.drop_last());
    }
}

/// Extending a digit string to the right never shrinks its value.
pub proof fn lemma_digits_prefix(s: Seq<char>, j: int)
    requires
        all_digits(s),
        0 <= j <= s.len(),
    ensures
        digits_val(s.take(j)) <= digits_val(s),
    decreases s.len() - j,
{
    assert(all_digits(s.take(j)));
    if j == s.len() {
        assert(s.take(j) =~= s);
    } else {
        lemma_digits_prefix(s, j + 1);
        assert(s.take(j + 1).drop_last() =~= s.take(j));
        lemma_digits_nonneg(s.take(j));
        assert(digits_val(s.take(j + 1)) == digits_val(s.take(j)) * 10 + digit_val(s.take(j + 1).last()));
        assert(digits_val(s.take(j)) * 10 >= digits_val(s.take(j))) by (nonlinear_arith)
            requires
                digits_val(s.take(j)) >= 0,
        ;
    }
}

/// If an initial segment of the digits already exceeds the magnitude of
/// `i64::MIN`, the whole literal lies outside `i64`, whichever its sign.
proof fn lemma_out_of_range(ds: Seq<char>, j: int)
    requires
        0 <= j <= ds.len(),
        all_digits(ds.take(j)),
        digits_val(ds.take(j)) > -(i64::MIN as int),
    ensures
        all_digits(ds) ==> digits_val(ds) > -(i64::MIN as int),
{
    if all_digits(ds) {
        lemma_digits_prefix(ds, j);
    }
}

/// Parses a token as an `i64` literal, exactly as [`token_number`] says.
pub fn parse_i64(t: &Vec<char>) -> (r: Option<i64>)
    ensures
        r == token_number(t@),
{
    let n = t.len();
    if n == 0 {
        return None;
    }
    let c0 = t[0];
    let signed = c0 == '-' || c0 == '+';
    let neg = c0 == '-';
    let start: usize = if signed {
        1
    } else {
        0
    };
    let ghost ds: Seq<char> = t@.skip(start as int);
    proof {
        assert(t@.skip(0) =~= t@);
    }
    if start == n {
        return None;
    }
    // `acc` holds the negated value of the digits read so far, so that the
    // asymmetric range of `i64` is covered without a separate path.
    let mut acc: i64 = 0;
    let mut i: usize = start;
    while i < n
        invariant
            start <= i <= n,
            n == t@.len(),
            n > 0,
            start == (if t@[0] == '-' || t@[0] == '+' {
                1int
            } else {
                0int
            }),
            neg == (t@[0] == '-'),
            ds == t@.skip(start as int),
            t@.skip(0) == t@,
            all_digits(ds.take(i - start)),
            acc == -digits_val(ds.take(i - start)),
        decreases n - i,
    {
        let c = t[i];
        if !('0' <= c && c <= '9') {
            proof {
                assert(ds[i - start] == c);
                assert(!all_digits(ds));
            }
            return None;
        }
        let d: i64 = ((c as u8) - 48) as i64;
        proof {
            assert(ds.take(i - start + 1).drop_last() =~= ds.take(i - start));
            assert(ds.take(i - start + 1).last() == c);
            lemma_digits_nonneg(ds.take(i - start));
            assert forall|k: int| 0 <= k < i - start + 1 implies is_digit(
                #[trigger] ds.take(i - start + 1)[k],
            ) by {
                if k < i - start {
                    assert(is_digit(ds.take(i - start)[k]));
                } else {
                    assert(ds.take(i - start + 1)[k] == c);
                }
            }
            assert(all_digits(ds.take(i - start + 1)));
        }
        let next = match acc.checked_mul(10) {
            Some(a) => match a.checked_sub(d) {
                Some(b) => b,
                None => {
                    proof {
                        lemma_out_of_range(ds, i - start + 1);
                    }
                    return None;
                },
            },
            None => {
                proof {
                    assert(digits_val(ds.take(i - start + 1)) >= digits_val(ds.take(i - start)) * 10);
                    lemma_out_of_range(ds, i - start + 1);
                }
                return None;
            },
        };
        acc = next;
        i = i + 1;
    }
    proof {
        assert(ds.take(n - start) =~= ds);
        lemma_digits_nonneg(ds);
    }
    if neg {
        Some(acc)
    } else {
        if acc == i64::MIN {
            return None;
        }
        Some(-acc)
    }
}

/// The character of one decimal digit.
pub open spec fn digit_char(d: nat) -> char {
    (((d + 48) as u8) as char)
}

/// The decimal digits of a natural number, most significant first.
pub open spec fn dec_str(n: nat) -> Seq<char>
    decreases n,
{
    if n < 10 {
        seq![digit_char(n)]
    } else {
        dec_str(n / 10).push(digit_char(n % 10))
    }
}

/// The decimal rendering of an integer: a minus sign, then the digits of
/// its magnitude.
pub open spec fn int_str(n: int) -> Seq<char> {
    if n < 0 {
        seq!['-'] + dec_str((-n) as nat)
    } else {
        dec_str(n as nat)
    }
}

/// Renders an `i64` in decimal, exactly as [`int_str`] says.
pub fn i64_chars(n: i64) -> (r: Vec<char>)
    ensures
        r@ == int_str(n as int),
{
    let neg = n < 0;
    let mut m: u64 = if n < 0 {
        (-(n as i128)) as u64
    } else {
        n as u64
    };
    let ghost mag = m as nat;
    let mut digits: Vec<char> = Vec::new();
    let d0: u8 = (m % 10) as u8;
    digits.push(((d0 + 48) as char));
    m = m / 10;
    proof {
        assert(digits@.reverse() =~= seq![digit_char(mag % 10)]);
        if m > 0 {
            assert(dec_str(mag) == dec_str(mag / 10).push(digit_char(mag % 10)));
            assert(dec_str(mag / 10).push(digit_char(mag % 10)) =~= dec_str(m as nat)
                + digits@.reverse());
        } else {
            assert(dec_str(mag) =~= digits@.reverse());
        }
    }
    while m > 0
        invariant
            dec_str(mag) == if m == 0 {
                digits@.reverse()
            } else {
                dec_str(m as nat) + digits@.reverse()
            },
        decreases m,
    {
        let ghost m_old = m as nat;
        let d: u8 = (m % 10) as u8;
        let ghost dv = digits@;
        digits.push(((d + 48) as char));
        m = m / 10;
        proof {
            assert(digit_char(m_old % 10) == ((d + 48) as char));
            assert(digits@.reverse() =~= seq![digit_char(m_old % 10)] + dv.reverse());
            if m > 0 {
                assert(dec_str(m_old) == dec_str(m_old / 10).push(digit_char(m_old % 10)));
                assert(dec_str(m as nat).push(digit_char(m_old % 10)) + dv.reverse() =~= dec_str(
                    m as nat,
                ) + digits@.reverse());
            } else {
                assert(dec_str(m_old) =~= seq![digit_char(m_old % 10)]);
                assert(dec_str(m_old) + dv.reverse() =~= digits@.reverse());
            }
        }
    }
    let mut r: Vec<char> = Vec::new();
    if neg {
        r.push('-');
    }
    let ghost pre: Seq<char> = if neg {
        seq!['-']
    } else {
        Seq::empty()
    };
    proof {
        assert(r@ =~= pre);
    }
    let mut k: usize = digits.len();
    while k > 0
        invariant
            k <= digits@.len(),
            r@ == pre + digits@.reverse().take(digits@.len() - k),
        decreases k,
    {
        r.push(digits[k - 1]);
        proof {
            assert(digits@.reverse()[digits@.len() - k] == digits@[k - 1]);
            assert(r@ =~= pre + digits@.reverse().take(digits@.len() - (k - 1)));
        }
        k = k - 1;
    }
    proof {
        assert(digits@.reverse().take(digits@.len() as int) =~= digits@.reverse());
        assert(r@ =~= pre + digits@.reverse());
    }
    r
}

} // verus!
