//! Decimal representation of the envelope serial: printing an `i64` and
//! parsing a JSON integer token, with the round-trip proof between them.

use vstd::prelude::*;

verus! {

/// Whether `c` is a decimal digit.
pub open spec fn is_digit(c: char) -> bool {
    48 <= (c as u32) <= 57
}

/// The value of a decimal digit.
pub open spec fn digit_val(c: char) -> int {
    (c as u32) - 48
}

/// The decimal digit with value `d`, for `0 <= d < 10`.
pub open spec fn digit_char(d: int) -> char
    recommends
        0 <= d < 10,
{
    if d == 0 {
        '0'
    } else if d == 1 {
        '1'
    } else if d == 2 {
        '2'
    } else if d == 3 {
        '3'
    } else if d == 4 {
        '4'
    } else if d == 5 {
        '5'
    } else if d == 6 {
        '6'
    } else if d == 7 {
        '7'
    } else if d == 8 {
        '8'
    } else {
        '9'
    }
}

/// The decimal digits of `n`, most significant first.
pub open spec fn dec_of(n: nat) -> Seq<char>
    decreases n,
{
    if n < 10 {
        seq![digit_char(n as int)]
    } else {
        dec_of(n / 10).push(digit_char((n % 10) as int))
    }
}

/// The decimal spelling of a signed integer: a minus sign for negative
/// values, then the digits of the magnitude.
pub open spec fn int_dec_of(v: int) -> Seq<char> {
    if v >= 0 {
        dec_of(v as nat)
    } else {
        seq!['-'] + dec_of((-v) as nat)
    }
}

/// The value of a digit sequence, most significant first.
pub open spec fn dec_val(digits: Seq<char>) -> int
    decreases digits.len(),
{
    if digits.len() == 0 {
        0
    } else {
        dec_val(digits.drop_last()) * 10 + digit_val(digits.last())
    }
}

/// Splits `s` into its longest prefix of decimal digits and the rest.
pub open spec fn split_digits(s: Seq<char>) -> (Seq<char>, Seq<char>)
    decreases s.len(),
{
    if s.len() == 0 || !is_digit(s[0]) {
        (Seq::empty(), s)
    } else {
        let (d, r) = split_digits(s.drop_first());
        (seq![s[0]] + d, r)
    }
}

/// Parses a JSON integer token at the head of `s`: an optional minus sign
/// and at least one digit, without a superfluous leading zero, whose value
/// fits a 64-bit signed integer. Returns the value and the rest of `s`.
pub open spec fn parse_number(s: Seq<char>) -> Option<(int, Seq<char>)> {
    let neg = s.len() > 0 && s[0] == '-';
    let body = if neg {
        s.drop_first()
    } else {
        s
    };
    let (digits, rest) = split_digits(body);
    if digits.len() == 0 {
        None
    } else if digits.len() > 1 && digits[0] == '0' {
        None
    } else {
        let v = if neg {
            -dec_val(digits)
        } else {
            dec_val(digits)
        };
        if i64::MIN <= v <= i64::MAX {
            Some((v, rest))
        } else {
            None
        }
    }
}

/// The digit characters and their values determine each other.
pub proof fn lemma_digit_char_val(d: int)
    requires
        0 <= d < 10,
    ensures
        is_digit(digit_char(d)),
        digit_val(digit_char(d)) == d,
{
}

/// `dec_of` produces only digits, at least one of them, and a nonzero
/// number never starts with a zero digit.
pub proof fn lemma_dec_of_shape(n: nat)
    ensures
        dec_of(n).len() >= 1,
        forall|i: int| 0 <= i < dec_of(n).len() ==> is_digit(#[trigger] dec_of(n)[i]),
        n >= 1 ==> dec_of(n)[0] != '0',
        n < 10 ==> dec_of(n).len() == 1,
    decreases n,
{
    if n < 10 {
        lemma_digit_char_val(n as int);
    } else {
        lemma_dec_of_shape(n / 10);
        lemma_digit_char_val((n % 10) as int);
        assert(dec_of(n) == dec_of(n / 10).push(digit_char((n % 10) as int)));
        assert(forall|i: int|
            0 <= i < dec_of(n).len() - 1 ==> #[trigger] dec_of(n)[i] == dec_of(n / 10)[i]);
    }
}

/// Printing and then evaluating the digits of `n` yields `n` back.
pub proof fn lemma_dec_val_of(n: nat)
    ensures
        dec_val(dec_of(n)) == n,
    decreases n,
{
    if n < 10 {
        lemma_digit_char_val(n as int);
        assert(dec_of(n) == seq![digit_char(n as int)]);
        assert(dec_of(n).last() == digit_char(n as int));
        assert(dec_of(n).drop_last() =~= Seq::<char>::empty());
        assert(dec_val(Seq::<char>::empty()) == 0);
    } else {
        lemma_dec_val_of(n / 10);
        lemma_digit_char_val((n % 10) as int);
        assert(dec_of(n) == dec_of(n / 10).push(digit_char((n % 10) as int)));
        assert(dec_of(n).last() == digit_char((n % 10) as int));
        assert(dec_of(n).drop_last() =~= dec_of(n / 10));
        assert(dec_val(dec_of(n)) == dec_val(dec_of(n / 10)) * 10 + digit_val(
            digit_char((n % 10) as int),
        ));
        assert((n / 10) * 10 + n % 10 == n) by (nonlinear_arith);
    }
}

/// `split_digits` takes exactly a digit prefix off the front: if `ds` is all
/// digits and `rest` does not begin with one, the split of `ds + rest`
/// returns the two parts unchanged.
pub proof fn lemma_split_digits_exact(ds: Seq<char>, rest: Seq<char>)
    requires
        forall|i: int| 0 <= i < ds.len() ==> is_digit(#[trigger] ds[i]),
        rest.len() > 0 ==> !is_digit(rest[0]),
    ensures
        split_digits(ds + rest) == (ds, rest),
    decreases ds.len(),
{
    if ds.len() == 0 {
        assert(ds + rest =~= rest);
        if rest.len() == 0 {
        } else {
            assert(!is_digit((ds + rest)[0]));
        }
        assert(split_digits(ds + rest).0 =~= ds);
    } else {
        assert(is_digit((ds + rest)[0]));
        assert((ds + rest).drop_first() =~= ds.drop_first() + rest);
        lemma_split_digits_exact(ds.drop_first(), rest);
        assert(seq![(ds + rest)[0]] + ds.drop_first() =~= ds);
    }
}

/// Round trip for the serial token: the printed form of any `i64` value,
/// followed by anything that does not begin with a digit, parses back to
/// that value with the rest untouched.
pub proof fn lemma_parse_number_of_int(v: int, rest: Seq<char>)
    requires
        i64::MIN <= v <= i64::MAX,
        rest.len() > 0 ==> !is_digit(rest[0]),
        rest.len() > 0 ==> rest[0] != '-',
    ensures
        parse_number(int_dec_of(v) + rest) == Some((v, rest)),
{
    let s = int_dec_of(v) + rest;
    if v >= 0 {
        let n = v as nat;
        lemma_dec_of_shape(n);
        lemma_dec_val_of(n);
        assert(!(s.len() > 0 && s[0] == '-'));
        lemma_split_digits_exact(dec_of(n), rest);
        if dec_of(n).len() > 1 {
            assert(n >= 1) by {
                if n == 0 {
                    assert(dec_of(0nat).len() == 1);
                }
            }
            assert(dec_of(n)[0] != '0');
        }
    } else {
        let n = (-v) as nat;
        lemma_dec_of_shape(n);
        lemma_dec_val_of(n);
        assert(s[0] == '-');
        assert(s.drop_first() =~= dec_of(n) + rest);
        lemma_split_digits_exact(dec_of(n), rest);
        assert(dec_of(n)[0] != '0');
    }
}

/// The value of a nonempty digit sequence is never negative.
pub proof fn lemma_dec_val_nonneg(ds: Seq<char>)
    requires
        forall|i: int| 0 <= i < ds.len() ==> is_digit(#[trigger] ds[i]),
    ensures
        dec_val(ds) >= 0,
    decreases ds.len(),
{
    if ds.len() > 0 {
        assert(forall|i: int|
            0 <= i < ds.drop_last().len() ==> is_digit(#[trigger] ds.drop_last()[i]));
        lemma_dec_val_nonneg(ds.drop_last());
        assert(is_digit(ds.last()));
    }
}

/// The value of a digit sequence dominates the value of each of its
/// prefixes.
pub proof fn lemma_dec_val_prefix(ds: Seq<char>, m: int)
    requires
        forall|i: int| 0 <= i < ds.len() ==> is_digit(#[trigger] ds[i]),
        0 <= m <= ds.len(),
    ensures
        dec_val(ds.take(m)) <= dec_val(ds),
    decreases ds.len() - m,
{
    if m == ds.len() {
        assert(ds.take(m) =~= ds);
    } else {
        lemma_dec_val_prefix(ds, m + 1);
        assert(ds.take(m + 1).drop_last() =~= ds.take(m));
        assert(ds.take(m + 1).last() == ds[m]);
        assert(forall|i: int| 0 <= i < m ==> is_digit(#[trigger] ds.take(m)[i]));
        lemma_dec_val_nonneg(ds.take(m));
        assert(dec_val(ds.take(m + 1)) == dec_val(ds.take(m)) * 10 + digit_val(ds[m]));
        assert(dec_val(ds.take(m)) * 10 >= dec_val(ds.take(m)));
    }
}

/// The digit with value `d`, executably.
fn digit_char_exec(d: u64) -> (c: char)
    requires
        d < 10,
    ensures
        c == digit_char(d as int),
{
    if d == 0 {
        '0'
    } else if d == 1 {
        '1'
    } else if d == 2 {
        '2'
    } else if d == 3 {
        '3'
    } else if d == 4 {
        '4'
    } else if d == 5 {
        '5'
    } else if d == 6 {
        '6'
    } else if d == 7 {
        '7'
    } else if d == 8 {
        '8'
    } else {
        '9'
    }
}

/// Whether `c` is a decimal digit, executably.
pub fn is_digit_exec(c: char) -> (r: bool)
    ensures
        r == is_digit(c),
{
    let u = c as u32;
    48 <= u && u <= 57
}

/// Appends the decimal digits of `n` to `out`.
pub fn push_u64_dec(out: &mut String, n: u64)
    ensures
        final(out)@ == old(out)@ + dec_of(n as nat),
    decreases n,
{
    if n < 10 {
        out.push(digit_char_exec(n));
        proof {
            assert(final(out)@ =~= old(out)@ + dec_of(n as nat));
        }
    } else {
        push_u64_dec(out, n / 10);
        out.push(digit_char_exec(n % 10));
        proof {
            assert(final(out)@ =~= old(out)@ + dec_of(n as nat));
        }
    }
}

/// Appends the decimal spelling of `v` to `out`.
pub fn push_i64_dec(out: &mut String, v: i64)
    ensures
        final(out)@ == old(out)@ + int_dec_of(v as int),
{
    if v >= 0 {
        push_u64_dec(out, v as u64);
    } else {
        out.push('-');
        let mag: u64 = ((-(v + 1)) as u64) + 1;
        proof {
            assert(mag as int == -(v as int));
        }
        push_u64_dec(out, mag);
        proof {
            assert(final(out)@ =~= old(out)@ + int_dec_of(v as int));
        }
    }
}

/// Parses a JSON integer token of `v` beginning at index `i`, following
/// `parse_number` on the remaining characters: the value and the index just
/// past the token on success, nothing when the token is absent, malformed or
/// out of the 64-bit signed range.
#[verifier::loop_isolation(false)]
pub fn parse_number_exec(v: &Vec<char>, i: usize) -> (r: Option<(i64, usize)>)
    requires
        i <= v.len(),
    ensures
        match r {
            Some(p) => {
                &&& parse_number(v@.skip(i as int)) == Some((p.0 as int, v@.skip(p.1 as int)))
                &&& i <= p.1 <= v.len()
            },
            None => parse_number(v@.skip(i as int)) is None,
        },
{
    let ghost s = v@.skip(i as int);
    let neg = i < v.len() && v[i] == '-';
    let start = if neg {
        i + 1
    } else {
        i
    };
    proof {
        if neg {
            assert(s.len() > 0 && s[0] == '-');
            assert(s.drop_first() =~= v@.skip(i as int + 1));
        } else {
            assert(!(s.len() > 0 && s[0] == '-'));
        }
    }
    let ghost body = v@.skip(start as int);
    // Scan the digit prefix.
    let mut j = start;
    while j < v.len() && is_digit_exec(v[j])
        invariant
            start <= j <= v.len(),
            start <= v.len(),
            forall|k: int| start <= k < j ==> is_digit(#[trigger] v@[k]),
        decreases v.len() - j,
    {
        j = j + 1;
    }
    let ghost ds = v@.subrange(start as int, j as int);
    let ghost rest = v@.skip(j as int);
    proof {
        assert(body =~= ds + rest);
        assert(forall|k: int| 0 <= k < ds.len() ==> is_digit(#[trigger] ds[k]));
        if rest.len() > 0 {
            assert(rest[0] == v@[j as int]);
            assert(!is_digit(rest[0]));
        }
        lemma_split_digits_exact(ds, rest);
    }
    if j == start {
        return None;
    }
    if j - start > 1 && v[start] == '0' {
        return None;
    }
    // Accumulate the magnitude, watching the signed 64-bit bound.
    let bound: u64 = if neg {
        9223372036854775808
    } else {
        9223372036854775807
    };
    let mut mag: u64 = 0;
    let mut k = start;
    while k < j
        invariant
            start <= k <= j,
            mag == dec_val(v@.subrange(start as int, k as int)),
            mag <= bound,
        decreases j - k,
    {
        let c = v[k];
        proof {
            assert(is_digit(c));
        }
        let dv = ((c as u32) - 48) as u64;
        if mag > (bound - dv) / 10 {
            // The value exceeds the representable range: every extension of
            // this prefix does too.
            proof {
                let pre = v@.subrange(start as int, k as int);
                let pre1 = v@.subrange(start as int, k as int + 1);
                assert(pre1.drop_last() =~= pre);
                assert(pre1.last() == v@[k as int]);
                assert(dec_val(pre1) == mag * 10 + dv);
                assert(mag * 10 + dv > bound) by (nonlinear_arith)
                    requires
                        mag > (bound - dv) / 10,
                        dv < 10,
                        bound >= dv,
                ;
                assert(pre1 =~= ds.take(k as int + 1 - start as int));
                lemma_dec_val_prefix(ds, k as int + 1 - start as int);
                assert(dec_val(ds) > bound);
                if neg {
                    assert(-dec_val(ds) < i64::MIN);
                } else {
                    assert(dec_val(ds) > i64::MAX);
                }
                assert(parse_number(s) is None);
            }
            return None;
        }
        proof {
            assert(mag * 10 + dv <= bound) by (nonlinear_arith)
                requires
                    mag <= (bound - dv) / 10,
                    dv < 10,
                    bound >= dv,
            ;
        }
        mag = mag * 10 + dv;
        k = k + 1;
        proof {
            let pre = v@.subrange(start as int, k as int - 1);
            let pre1 = v@.subrange(start as int, k as int);
            assert(pre1.drop_last() =~= pre);
            assert(pre1.last() == v@[k as int - 1]);
        }
    }
    proof {
        assert(v@.subrange(start as int, j as int) =~= ds);
        assert(mag == dec_val(ds));
        lemma_dec_val_nonneg(ds);
    }
    if neg {
        if mag == 9223372036854775808 {
            Some((i64::MIN, j))
        } else {
            Some((-(mag as i64), j))
        }
    } else {
        Some((mag as i64, j))
    }
}

} // verus!
