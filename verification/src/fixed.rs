//! Fixed-point sensor values and their decimal grammar.
//!
//! A sensor value is an `i64` counting micro-units: `VALUE_SCALE` of them
//! make one unit. A value is written in a sample line as an optional minus
//! sign, up to twelve integer digits, and optionally a dot with up to six
//! fraction digits; a timestamp as up to eighteen digits. Those widths keep
//! every well-formed value inside `i64` and every timestamp inside `u64`.

use vstd::prelude::*;

verus! {

/// Micro-units per unit.
pub const VALUE_SCALE: i64 = 1000000;

/// The ASCII bytes `'0'` through `'9'`.
pub open spec fn is_digit(b: u8) -> bool {
    48 <= b && b <= 57
}

/// Every byte of `s` is a decimal digit.
pub open spec fn all_digits(s: Seq<u8>) -> bool {
    forall|i: int| 0 <= i < s.len() ==> is_digit(#[trigger] s[i])
}

/// The number written by the digit bytes of `s`, most significant first.
pub open spec fn digits_val(s: Seq<u8>) -> nat
    decreases s.len(),
{
    if s.len() == 0 {
        0
    } else {
        digits_val(s.drop_last()) * 10 + (s.last() - 48) as nat
    }
}

/// Ten to the `n`th power.
pub open spec fn pow10(n: nat) -> nat
    decreases n,
{
    if n == 0 {
        1nat
    } else {
        10 * pow10((n - 1) as nat)
    }
}

/// `pow10` never shrinks as the exponent grows.
pub proof fn lemma_pow10_monotone(a: nat, b: nat)
    requires
        a <= b,
    ensures
        pow10(a) <= pow10(b),
    decreases b,
{
    if a < b {
        lemma_pow10_monotone(a, (b - 1) as nat);
    }
}

/// A string of `n` digits writes a number below `pow10(n)`.
pub proof fn lemma_digits_val_bound(s: Seq<u8>)
    requires
        all_digits(s),
    ensures
        digits_val(s) < pow10(s.len()),
    decreases s.len(),
{
    if s.len() > 0 {
        assert(all_digits(s.drop_last())) by {
            assert(forall|i: int|
                0 <= i < s.len() - 1 ==> s.drop_last()[i] == #[trigger] s[i]);
        }
        lemma_digits_val_bound(s.drop_last());
    }
}

/// Appending a digit multiplies the value by ten and adds the digit.
pub proof fn lemma_digits_val_push(s: Seq<u8>, b: u8)
    ensures
        digits_val(s.push(b)) == digits_val(s) * 10 + (b - 48) as nat,
{
    assert(s.push(b).drop_last() =~= s);
}

/// What `parse_u64` returns: the written number, provided `s` is one to
/// eighteen digits and nothing else.
pub open spec fn spec_parse_u64(s: Seq<u8>) -> Option<u64> {
    if 1 <= s.len() <= 18 && all_digits(s) {
        Some(digits_val(s) as u64)
    } else {
        None
    }
}

/// Reads an unsigned decimal number of one to eighteen digits.
pub fn parse_u64(s: &[u8]) -> (r: Option<u64>)
    ensures
        r == spec_parse_u64(s@),
{
    let n: usize = s.len();
    if n == 0 || n > 18 {
        return None;
    }
    let mut acc: u64 = 0;
    let mut i: usize = 0;
    while i < n
        invariant
            0 <= i <= n,
            n == s@.len(),
            1 <= n <= 18,
            all_digits(s@.take(i as int)),
            acc == digits_val(s@.take(i as int)),
            acc < pow10(i as nat),
        decreases n - i,
    {
        let b: u8 = s[i];
        if b < 48 || b > 57 {
            proof {
                assert(!is_digit(s@[i as int]));
                assert(!all_digits(s@));
            }
            return None;
        }
        proof {
            assert(s@.take(i as int + 1) =~= s@.take(i as int).push(s@[i as int]));
            lemma_digits_val_push(s@.take(i as int), s@[i as int]);
            assert(forall|j: int|
                0 <= j < i + 1 ==> is_digit(#[trigger] s@.take(i as int + 1)[j]));
            lemma_pow10_monotone((i + 1) as nat, 18nat);
            assert(pow10(18) == 1000000000000000000) by {
                reveal_with_fuel(pow10, 19);
            }
        }
        acc = acc * 10 + (b - 48) as u64;
        i = i + 1;
    }
    proof {
        assert(s@.take(n as int) =~= s@);
        lemma_digits_val_bound(s@);
        lemma_pow10_monotone(n as nat, 18nat);
        assert(pow10(18) == 1000000000000000000) by {
            reveal_with_fuel(pow10, 19);
        }
    }
    Some(acc)
}

/// `pow10` distributes over addition of exponents.
pub proof fn lemma_pow10_add(a: nat, b: nat)
    ensures
        pow10(a) * pow10(b) == pow10(a + b),
    decreases a,
{
    if a > 0 {
        lemma_pow10_add((a - 1) as nat, b);
        assert((a + b - 1) as nat == (a - 1) as nat + b);
        assert(pow10((a + b - 1) as nat) == pow10((a - 1) as nat + b));
        assert(pow10(a) * pow10(b) == pow10(a + b)) by (nonlinear_arith)
            requires
                a > 0,
                pow10(a) == 10 * pow10((a - 1) as nat),
                pow10((a - 1) as nat) * pow10(b) == pow10((a + b - 1) as nat),
                pow10(a + b) == 10 * pow10((a + b - 1) as nat),
        ;
    } else {
        assert(pow10(a) == 1);
        assert(a + b == b);
    }
}

/// A fraction dot splits the unsigned body `s` at `i`: one to twelve
/// integer digits before it, one to six fraction digits after it.
pub open spec fn dot_split_at(s: Seq<u8>, i: int) -> bool {
    &&& 1 <= i <= 12
    &&& i < s.len()
    &&& s[i] == 46
    &&& 1 <= s.len() - i - 1 <= 6
    &&& all_digits(s.take(i))
    &&& all_digits(s.skip(i + 1))
}

/// The magnitude written by an unsigned fixed-point body, in micro-units:
/// either plain digits, or digits around a single dot.
pub open spec fn spec_body_val(s: Seq<u8>) -> Option<int> {
    if 1 <= s.len() <= 12 && all_digits(s) {
        Some(digits_val(s) * (VALUE_SCALE as int))
    } else if exists|i: int| dot_split_at(s, i) {
        let i = choose|i: int| dot_split_at(s, i);
        Some(
            digits_val(s.take(i)) * (VALUE_SCALE as int) + digits_val(s.skip(i + 1)) * pow10(
                (6 - (s.len() - i - 1)) as nat,
            ),
        )
    } else {
        None
    }
}

/// What `parse_fixed` returns: the written value in micro-units, with an
/// optional leading minus sign.
pub open spec fn spec_parse_fixed(s: Seq<u8>) -> Option<i64> {
    if s.len() > 0 && s[0] == 45 {
        match spec_body_val(s.skip(1)) {
            Some(v) => Some((-v) as i64),
            None => None,
        }
    } else {
        match spec_body_val(s) {
            Some(v) => Some(v as i64),
            None => None,
        }
    }
}

/// A well-formed body writes a magnitude below `pow10(18) + pow10(6)`.
pub proof fn lemma_body_val_bound(s: Seq<u8>)
    ensures
        spec_body_val(s) matches Some(v) ==> 0 <= v < 1000001000000000000,
{
    reveal_with_fuel(pow10, 19);
    if 1 <= s.len() <= 12 && all_digits(s) {
        lemma_digits_val_bound(s);
        lemma_pow10_monotone(s.len(), 12nat);
    } else if exists|i: int| dot_split_at(s, i) {
        let i = choose|i: int| dot_split_at(s, i);
        let frac = s.skip(i + 1);
        lemma_digits_val_bound(s.take(i));
        lemma_pow10_monotone(s.take(i).len(), 12nat);
        lemma_digits_val_bound(frac);
        assert(digits_val(frac) * pow10((6 - frac.len()) as nat) < pow10(frac.len()) * pow10(
            (6 - frac.len()) as nat,
        )) by (nonlinear_arith)
            requires
                digits_val(frac) < pow10(frac.len()),
                pow10((6 - frac.len()) as nat) >= 1,
        {
            lemma_pow10_positive((6 - frac.len()) as nat);
        }
        lemma_pow10_add(frac.len(), (6 - frac.len()) as nat);
    }
}

/// `pow10` is positive.
pub proof fn lemma_pow10_positive(n: nat)
    ensures
        pow10(n) >= 1,
    decreases n,
{
    if n > 0 {
        lemma_pow10_positive((n - 1) as nat);
    }
}

/// Reads the number written by the digit bytes `s[from..to]`.
fn digits_value_range(s: &[u8], from: usize, to: usize) -> (r: u64)
    requires
        from <= to <= s@.len(),
        to - from <= 18,
        all_digits(s@.subrange(from as int, to as int)),
    ensures
        r == digits_val(s@.subrange(from as int, to as int)),
{
    let mut acc: u64 = 0;
    let mut j: usize = from;
    while j < to
        invariant
            from <= j <= to <= s@.len(),
            to - from <= 18,
            all_digits(s@.subrange(from as int, to as int)),
            acc == digits_val(s@.subrange(from as int, j as int)),
            acc < pow10((j - from) as nat),
        decreases to - j,
    {
        let b: u8 = s[j];
        proof {
            assert(s@.subrange(from as int, j as int + 1) =~= s@.subrange(
                from as int,
                j as int,
            ).push(s@[j as int]));
            assert(is_digit(s@[j as int])) by {
                assert(s@.subrange(from as int, to as int)[j - from] == s@[j as int]);
            }
            lemma_digits_val_push(s@.subrange(from as int, j as int), s@[j as int]);
            lemma_pow10_monotone((j + 1 - from) as nat, 18nat);
            assert(pow10(18) == 1000000000000000000) by {
                reveal_with_fuel(pow10, 19);
            }
        }
        acc = acc * 10 + (b - 48) as u64;
        j = j + 1;
    }
    acc
}

/// Reads an unsigned fixed-point body into micro-units.
fn parse_fixed_body(s: &[u8]) -> (r: Option<i64>)
    ensures
        match spec_body_val(s@) {
            Some(v) => r == Some(v as i64),
            None => r is None,
        },
{
    let n: usize = s.len();
    let mut i: usize = 0;
    while i < n && 48 <= s[i] && s[i] <= 57
        invariant
            0 <= i <= n,
            n == s@.len(),
            all_digits(s@.take(i as int)),
        decreases n - i,
    {
        proof {
            assert(s@.take(i as int + 1) =~= s@.take(i as int).push(s@[i as int]));
        }
        i = i + 1;
    }
    // i is the count of leading digits; any byte at i is not a digit.
    if i == n {
        // plain digits
        if n < 1 || n > 12 {
            proof {
                assert(s@.take(n as int) =~= s@);
                assert forall|i2: int| !dot_split_at(s@, i2) by {
                    if 0 <= i2 < n {
                        assert(is_digit(s@[i2]));
                    }
                }
            }
            return None;
        }
        proof {
            assert(s@.take(n as int) =~= s@);
            assert(s@.subrange(0, n as int) =~= s@);
            lemma_digits_val_bound(s@);
            lemma_pow10_monotone(n as nat, 12nat);
            assert(pow10(12) == 1000000000000) by {
                reveal_with_fuel(pow10, 13);
            }
        }
        let iv: u64 = digits_value_range(s, 0, n);
        return Some((iv * 1000000) as i64);
    }
    proof {
        assert(!is_digit(s@[i as int]));
        assert(!all_digits(s@));
    }
    if s[i] != 46 {
        proof {
            assert forall|i2: int| !dot_split_at(s@, i2) by {
                if 0 <= i2 < i {
                    assert(is_digit(s@.take(i as int)[i2]));
                } else if i2 > i && i2 < n {
                    assert(s@.take(i2)[i as int] == s@[i as int]);
                    assert(!all_digits(s@.take(i2)));
                }
            }
        }
        return None;
    }
    // the dot stands at i
    let d: usize = i;
    proof {
        assert forall|i2: int| dot_split_at(s@, i2) implies i2 == d by {
            if 0 <= i2 < d {
                assert(is_digit(s@.take(d as int)[i2]));
            } else if i2 > d {
                assert(s@.take(i2)[d as int] == s@[d as int]);
                assert(!all_digits(s@.take(i2)));
            }
        }
    }
    if d < 1 || d > 12 {
        proof {
            assert forall|i2: int| !dot_split_at(s@, i2) by {}
        }
        return None;
    }
    let mut j: usize = d + 1;
    while j < n && 48 <= s[j] && s[j] <= 57
        invariant
            d + 1 <= j <= n,
            n == s@.len(),
            forall|k: int| d + 1 <= k < j ==> is_digit(#[trigger] s@[k]),
        decreases n - j,
    {
        j = j + 1;
    }
    if j < n {
        // a second dot or other stray byte inside the fraction
        proof {
            assert(!is_digit(s@[j as int]));
            assert forall|i2: int| !dot_split_at(s@, i2) by {
                if i2 == d {
                    assert(s@.skip(d as int + 1)[j - d - 1] == s@[j as int]);
                    assert(!all_digits(s@.skip(d as int + 1)));
                }
            }
        }
        return None;
    }
    let flen: usize = n - d - 1;
    if flen < 1 || flen > 6 {
        proof {
            assert forall|i2: int| !dot_split_at(s@, i2) by {}
        }
        return None;
    }
    proof {
        assert(all_digits(s@.skip(d as int + 1))) by {
            assert(forall|k: int|
                0 <= k < n - d - 1 ==> s@.skip(d as int + 1)[k] == #[trigger] s@[k + d + 1]);
        }
        assert(dot_split_at(s@, d as int));
        assert(s@.subrange(0, d as int) =~= s@.take(d as int));
        assert(s@.subrange(d as int + 1, n as int) =~= s@.skip(d as int + 1));
        lemma_digits_val_bound(s@.take(d as int));
        lemma_pow10_monotone(d as nat, 12nat);
        lemma_digits_val_bound(s@.skip(d as int + 1));
        lemma_pow10_monotone((n - d - 1) as nat, 6nat);
        assert(pow10(12) == 1000000000000 && pow10(6) == 1000000 && pow10(5) == 100000 && pow10(4)
            == 10000 && pow10(3) == 1000 && pow10(2) == 100 && pow10(1) == 10 && pow10(0) == 1) by {
            reveal_with_fuel(pow10, 13);
        }
    }
    let iv: u64 = digits_value_range(s, 0, d);
    let fv: u64 = digits_value_range(s, d + 1, n);
    let mult: u64 = if flen == 1 {
        100000
    } else if flen == 2 {
        10000
    } else if flen == 3 {
        1000
    } else if flen == 4 {
        100
    } else if flen == 5 {
        10
    } else {
        1
    };
    proof {
        assert(mult == pow10((6 - flen) as nat));
        assert(fv * mult <= 99999900000) by (nonlinear_arith)
            requires
                fv < 1000000,
                mult <= 100000,
        ;
    }
    Some((iv * 1000000 + fv * mult) as i64)
}

/// Reads a fixed-point decimal value, in micro-units, with an optional
/// leading minus sign.
pub fn parse_fixed(s: &[u8]) -> (r: Option<i64>)
    ensures
        r == spec_parse_fixed(s@),
{
    proof {
        lemma_body_val_bound(s@);
        if s@.len() > 0 {
            lemma_body_val_bound(s@.skip(1));
        }
    }
    if s.len() > 0 && s[0] == 45 {
        let body = vstd::slice::slice_subrange(s, 1, s.len());
        proof {
            assert(body@ =~= s@.skip(1));
        }
        match parse_fixed_body(body) {
            Some(v) => Some(-v),
            None => None,
        }
    } else {
        parse_fixed_body(s)
    }
}

} // verus!
