//! Decimal rendering of integers.

use vstd::prelude::*;

verus! {

/// The decimal digit character for `d` (0-9).
pub open spec fn digit_char(d: int) -> char {
    ((d + 48) as u8) as char
}

/// Decimal digits of `n`, most significant first, without leading zeros
/// (`"0"` for zero).
pub open spec fn decimal_digits(n: nat) -> Seq<char>
    decreases n,
{
    if n < 10 {
        seq![digit_char(n as int)]
    } else {
        decimal_digits(n / 10).push(digit_char((n % 10) as int))
    }
}

/// The number a string of decimal digits reads as.
pub open spec fn digits_value(s: Seq<char>) -> int
    decreases s.len(),
{
    if s.len() == 0 {
        0
    } else {
        10 * digits_value(s.drop_last()) + (s.last() as int - 48)
    }
}

/// The decimal text of `n` reads back as `n`: it is made of the digits
/// `0`-`9` only, has no leading zero (but for `n == 0` itself), and is at
/// most 20 characters long for a 64-bit number.
pub proof fn lemma_decimal_reads_back(n: nat)
    ensures
        digits_value(decimal_digits(n)) == n,
        decimal_digits(n).len() >= 1,
        forall|i: int|
            0 <= i < decimal_digits(n).len() ==> '0' <= #[trigger] decimal_digits(n)[i] <= '9',
        n > 0 ==> decimal_digits(n)[0] != '0',
        n <= u64::MAX ==> decimal_digits(n).len() <= 20,
    decreases n,
{
    if n < 10 {
        assert(digit_char(n as int) as int == n + 48);
        assert(decimal_digits(n).drop_last() =~= Seq::<char>::empty());
        assert(digits_value(Seq::<char>::empty()) == 0);
        assert(decimal_digits(n).last() == digit_char(n as int));
        assert(digits_value(decimal_digits(n)) == 10 * digits_value(decimal_digits(n).drop_last())
            + (decimal_digits(n).last() as int - 48));
    } else {
        lemma_decimal_reads_back(n / 10);
        let d = (n % 10) as int;
        assert(digit_char(d) as int == d + 48);
        let s = decimal_digits(n);
        assert(s.drop_last() =~= decimal_digits(n / 10));
        assert(s.last() == digit_char(d));
        assert(digits_value(s) == 10 * digits_value(decimal_digits(n / 10)) + d);
        assert(n == 10 * (n / 10) + n % 10);
        assert(s[0] == decimal_digits(n / 10)[0]);
        if n <= u64::MAX {
            assert(n / 10 <= u64::MAX);
            if decimal_digits(n / 10).len() == 20 {
                lemma_twenty_digits(n / 10);
            }
        }
    }
}

/// A number with twenty decimal digits is at least 10^19.
proof fn lemma_twenty_digits(n: nat)
    requires
        decimal_digits(n).len() == 20,
    ensures
        n >= 10_000_000_000_000_000_000,
{
    lemma_digits_lower(n, 20);
    reveal_with_fuel(pow10, 20);
}

/// A number with `k` or more decimal digits is at least 10^(k-1).
proof fn lemma_digits_lower(n: nat, k: nat)
    requires
        decimal_digits(n).len() >= k,
        2 <= k,
    ensures
        n >= pow10((k - 1) as nat),
    decreases n,
{
    if n < 10 {
        assert(decimal_digits(n).len() == 1);
    } else {
        assert(decimal_digits(n).len() == decimal_digits(n / 10).len() + 1);
        if k > 2 {
            lemma_digits_lower(n / 10, (k - 1) as nat);
        } else {
            assert(pow10(0) == 1);
        }
        assert(pow10((k - 1) as nat) == 10 * pow10((k - 2) as nat));
        assert(n >= 10 * (n / 10));
    }
}

/// 10 to the power `k`.
pub open spec fn pow10(k: nat) -> nat
    decreases k,
{
    if k == 0 {
        1
    } else {
        10 * pow10((k - 1) as nat)
    }
}

/// `s` padded on the left with `c` to at least `width` characters.
pub open spec fn pad_left(s: Seq<char>, width: nat, c: char) -> Seq<char> {
    if s.len() >= width {
        s
    } else {
        Seq::new((width - s.len()) as nat, |i: int| c) + s
    }
}

/// Decimal digits of `n`.
pub fn decimal(n: u64) -> (r: Vec<char>)
    ensures
        r@ == decimal_digits(n as nat),
        1 <= r@.len(),
    decreases n,
{
    if n < 10 {
        let c = ((n as u8) + 48) as char;
        let mut v: Vec<char> = Vec::new();
        v.push(c);
        assert(v@ =~= seq![digit_char(n as int)]);
        v
    } else {
        let mut v = decimal(n / 10);
        let c = (((n % 10) as u8) + 48) as char;
        v.push(c);
        proof {
            assert(n as nat / 10 == (n / 10) as nat);
        }
        v
    }
}

/// `s` padded on the left with `c` to at least `width` characters.
pub fn pad_left_chars(s: Vec<char>, width: usize, c: char) -> (r: Vec<char>)
    ensures
        r@ == pad_left(s@, width as nat, c),
{
    if s.len() >= width {
        return s;
    }
    let n = width - s.len();
    let mut out: Vec<char> = Vec::new();
    let mut i: usize = 0;
    while i < n
        invariant
            i <= n,
            out@ == Seq::new(i as nat, |k: int| c),
        decreases n - i,
    {
        out.push(c);
        i = i + 1;
        assert(out@ =~= Seq::new(i as nat, |k: int| c));
    }
    let mut k: usize = 0;
    let ghost prefix = out@;
    while k < s.len()
        invariant
            k <= s@.len(),
            out@ == prefix + s@.take(k as int),
        decreases s@.len() - k,
    {
        out.push(s[k]);
        k = k + 1;
        assert(out@ =~= prefix + s@.take(k as int));
    }
    assert(s@.take(s@.len() as int) =~= s@);
    out
}

/// Appends the characters of `b` to `a`.
pub fn append_chars(a: &mut Vec<char>, b: &Vec<char>)
    ensures
        final(a)@ == old(a)@ + b@,
{
    let mut k: usize = 0;
    let ghost start = a@;
    while k < b.len()
        invariant
            k <= b@.len(),
            a@ == start + b@.take(k as int),
        decreases b@.len() - k,
    {
        a.push(b[k]);
        k = k + 1;
        assert(a@ =~= start + b@.take(k as int));
    }
    assert(b@.take(b@.len() as int) =~= b@);
}

} // verus!
