use vstd::prelude::*;
use vstd::string::*;

verus! {

pub open spec fn is_digit(c: char) -> bool {
    '0' <= c && c <= '9'
}

/// The character of a decimal digit `d < 10`.
pub open spec fn digit_char(d: nat) -> char {
    ((d + 48) as u8) as char
}

/// The value of a decimal digit character.
pub open spec fn digit_value(c: char) -> nat {
    ((c as u32) - 48) as nat
}

pub open spec fn all_digits(s: Seq<char>) -> bool {
    forall|i: int| 0 <= i < s.len() ==> #[trigger] is_digit(s[i])
}

pub open spec fn pow10(n: nat) -> nat
    decreases n,
{
    if n == 0 {
        1
    } else {
        10 * pow10((n - 1) as nat)
    }
}

/// The decimal numeral of `v`, without leading zeros.
pub open spec fn decimal(v: nat) -> Seq<char>
    decreases v,
{
    if v < 10 {
        seq![digit_char(v)]
    } else {
        decimal(v / 10).push(digit_char(v % 10))
    }
}

pub open spec fn zeros(n: nat) -> Seq<char> {
    Seq::new(n, |_i: int| '0')
}

/// The decimal numeral of `v`, padded on the left with zeros to at least `width` digits.
pub open spec fn padded(v: nat, width: nat) -> Seq<char> {
    let d = decimal(v);
    if d.len() >= width {
        d
    } else {
        zeros((width - d.len()) as nat) + d
    }
}

/// The number that a string of decimal digits denotes.
pub open spec fn digits_value(s: Seq<char>) -> nat
    decreases s.len(),
{
    if s.len() == 0 {
        0
    } else {
        digits_value(s.drop_last()) * 10 + digit_value(s.last())
    }
}

pub proof fn lemma_decimal(v: nat)
    ensures
        decimal(v).len() >= 1,
        all_digits(decimal(v)),
        digits_value(decimal(v)) == v,
    decreases v,
{
    let d = decimal(v);
    if v >= 10 {
        lemma_decimal(v / 10);
        assert(d.drop_last() =~= decimal(v / 10));
        assert(digit_value(d.last()) == v % 10);
        assert(digits_value(d) == (v / 10) * 10 + v % 10);
    } else {
        assert(d.drop_last() =~= Seq::<char>::empty());
        assert(digit_value(d.last()) == v);
        assert(digits_value(d.drop_last()) == 0);
        assert(digits_value(d) == digits_value(d.drop_last()) * 10 + digit_value(d.last()));
    }
}

pub proof fn lemma_decimal_len(v: nat, k: nat)
    requires
        k >= 1,
        v < pow10(k),
    ensures
        decimal(v).len() <= k,
    decreases k,
{
    if v >= 10 {
        assert(k >= 2) by {
            if k == 1 {
                assert(pow10(1) == 10 * pow10(0));
            }
        };
        assert(pow10(k) == 10 * pow10((k - 1) as nat));
        assert(v / 10 < pow10((k - 1) as nat));
        lemma_decimal_len(v / 10, (k - 1) as nat);
    }
}

proof fn lemma_zeros_value(n: nat)
    ensures
        digits_value(zeros(n)) == 0,
    decreases n,
{
    if n > 0 {
        assert(zeros(n).drop_last() =~= zeros((n - 1) as nat));
        lemma_zeros_value((n - 1) as nat);
        assert(digit_value('0') == 0);
    }
}

pub proof fn lemma_leading_zeros(n: nat, s: Seq<char>)
    ensures
        digits_value(zeros(n) + s) == digits_value(s),
    decreases s.len(),
{
    if s.len() == 0 {
        assert(zeros(n) + s =~= zeros(n));
        lemma_zeros_value(n);
    } else {
        assert((zeros(n) + s).drop_last() =~= zeros(n) + s.drop_last());
        lemma_leading_zeros(n, s.drop_last());
    }
}

pub proof fn lemma_padded(v: nat, width: nat)
    ensures
        all_digits(padded(v, width)),
        digits_value(padded(v, width)) == v,
        padded(v, width).len() >= width,
        width >= 1 && v < pow10(width) ==> padded(v, width).len() == width,
{
    lemma_decimal(v);
    let d = decimal(v);
    if d.len() < width {
        lemma_leading_zeros((width - d.len()) as nat, d);
        assert(all_digits(padded(v, width))) by {
            assert forall|i: int| 0 <= i < padded(v, width).len() implies #[trigger] is_digit(
                padded(v, width)[i],
            ) by {
                if i >= width - d.len() {
                    assert(padded(v, width)[i] == d[i - (width - d.len())]);
                }
            }
        };
    } else if v < pow10(width) && width >= 1 {
        lemma_decimal_len(v, width);
    }
}

pub proof fn lemma_digits_value_bound(s: Seq<char>)
    requires
        all_digits(s),
    ensures
        digits_value(s) < pow10(s.len()),
    decreases s.len(),
{
    if s.len() > 0 {
        let a = digits_value(s.drop_last());
        assert(all_digits(s.drop_last())) by {
            assert forall|i: int| 0 <= i < s.drop_last().len() implies #[trigger] is_digit(
                s.drop_last()[i],
            ) by {
                assert(is_digit(s[i]));
            }
        };
        lemma_digits_value_bound(s.drop_last());
        let p = pow10((s.len() - 1) as nat);
        let d = digit_value(s.last());
        assert(is_digit(s[s.len() - 1]));
        assert(d <= 9);
        assert(a * 10 + d < 10 * p) by (nonlinear_arith)
            requires
                a < p,
                d <= 9,
        ;
    }
}

pub fn digit_to_char(d: u128) -> (r: char)
    requires
        d < 10,
    ensures
        r == digit_char(d as nat),
        is_digit(r),
        digit_value(r) == d,
{
    (d as u8 + 48) as char
}

/// Appends the decimal numeral of `v`.
pub fn push_decimal(s: &mut String, v: u128)
    ensures
        final(s)@ == old(s)@ + decimal(v as nat),
    decreases v,
{
    if v >= 10 {
        push_decimal(s, v / 10);
    }
    s.push(digit_to_char(v % 10));
    assert(final(s)@ =~= old(s)@ + decimal(v as nat));
}

/// The number of digits in the decimal numeral of `v`.
pub fn decimal_len(v: u128) -> (r: usize)
    ensures
        r == decimal(v as nat).len(),
    decreases v,
{
    if v >= 10 {
        let n = decimal_len(v / 10);
        proof {
            lemma_pow10_values();
            lemma_decimal_len((v / 10) as nat, 39);
        }
        n + 1
    } else {
        1
    }
}

/// Appends the decimal numeral of `v`, padded with zeros to at least `width` digits.
pub fn push_padded(s: &mut String, v: u128, width: usize)
    ensures
        final(s)@ == old(s)@ + padded(v as nat, width as nat),
{
    let n = decimal_len(v);
    if n < width {
        let mut k: usize = 0;
        while k < width - n
            invariant
                n < width,
                k <= width - n,
                s@ == old(s)@ + zeros(k as nat),
            decreases width - n - k,
        {
            s.push('0');
            assert(s@ =~= old(s)@ + zeros((k + 1) as nat));
            k += 1;
        }
    }
    push_decimal(s, v);
    assert(s@ =~= old(s)@ + padded(v as nat, width as nat));
}

/// Whether `s[from..to]` holds only decimal digits.
pub fn digits_at(s: &str, from: usize, to: usize) -> (r: bool)
    requires
        from <= to <= s@.len(),
    ensures
        r == all_digits(s@.subrange(from as int, to as int)),
{
    let mut i: usize = from;
    while i < to
        invariant
            from <= i <= to <= s@.len(),
            forall|j: int| from <= j < i ==> #[trigger] is_digit(s@[j]),
        decreases to - i,
    {
        let c = s.get_char(i);
        if c < '0' || c > '9' {
            assert(!is_digit(s@.subrange(from as int, to as int)[i - from]));
            return false;
        }
        i += 1;
    }
    assert forall|j: int| 0 <= j < to - from implies #[trigger] is_digit(
        s@.subrange(from as int, to as int)[j],
    ) by {
        assert(is_digit(s@[from + j]));
    }
    true
}

/// The number denoted by the digits `s[from..to]`.
pub fn parse_digits(s: &str, from: usize, to: usize) -> (r: u64)
    requires
        from <= to <= s@.len(),
        to - from <= 18,
        all_digits(s@.subrange(from as int, to as int)),
    ensures
        r == digits_value(s@.subrange(from as int, to as int)),
{
    let mut v: u64 = 0;
    let mut i: usize = from;
    proof {
        lemma_pow10_values();
    }
    while i < to
        invariant
            from <= i <= to <= s@.len(),
            to - from <= 18,
            all_digits(s@.subrange(from as int, to as int)),
            v == digits_value(s@.subrange(from as int, i as int)),
            pow10(18) == 1000000000000000000,
        decreases to - i,
    {
        let ghost part = s@.subrange(from as int, i + 1);
        proof {
            assert(part.drop_last() =~= s@.subrange(from as int, i as int));
            assert(s@.subrange(from as int, to as int)[i - from] == s@[i as int]);
            assert(all_digits(part)) by {
                assert forall|j: int| 0 <= j < part.len() implies #[trigger] is_digit(part[j]) by {
                    assert(part[j] == s@.subrange(from as int, to as int)[j]);
                }
            };
            lemma_digits_value_bound(part);
            lemma_pow10_mono(part.len(), 18);
        }
        let c = s.get_char(i);
        assert(is_digit(c));
        v = v * 10 + (c as u32 - 48) as u64;
        i += 1;
    }
    v
}

pub proof fn lemma_pow10_values()
    ensures
        pow10(2) == 100,
        pow10(8) == 100000000,
        pow10(18) == 1000000000000000000,
        pow10(39) == 1000000000000000000000000000000000000000,
{
    reveal_with_fuel(pow10, 40);
}

pub proof fn lemma_pow10_mono(a: nat, b: nat)
    requires
        a <= b,
    ensures
        pow10(a) <= pow10(b),
    decreases b,
{
    if a < b {
        lemma_pow10_mono(a, (b - 1) as nat);
    }
}

} // verus!
