use vstd::prelude::*;

verus! {

/// The digit of value `d` in bases up to 36: `0`-`9`, then `a`-`z`.
pub open spec fn radix_digit(d: int) -> char {
    if d < 10 {
        (48 + d) as char
    } else {
        (97 + d - 10) as char
    }
}

/// The digits of `n` in base `b`, most significant first, without leading
/// zeros (one `0` for zero).
pub open spec fn radix_digits(n: nat, b: nat) -> Seq<char>
    recommends
        2 <= b,
    decreases n,
{
    if b < 2 || n < b {
        seq![radix_digit(n as int)]
    } else {
        proof {
            assert(n / b < n) by (nonlinear_arith)
                requires
                    b >= 2,
                    n >= b,
            ;
        }
        radix_digits(n / b, b).push(radix_digit((n % b) as int))
    }
}

/// The text of `n` in base `radix`: `0` for zero, the digits of a positive
/// number, and nothing for a negative one.
pub open spec fn int_radix_text(n: int, radix: nat) -> Seq<char> {
    if n == 0 {
        seq!['0']
    } else if n < 0 {
        Seq::empty()
    } else {
        radix_digits(n as nat, radix)
    }
}

/// The digit character of a value below 36.
fn digit_char(d: u32) -> (c: char)
    requires
        d < 36,
    ensures
        c == radix_digit(d as int),
{
    if d < 10 {
        ((48 + d) as u8) as char
    } else {
        ((97 + d - 10) as u8) as char
    }
}

/// Writes the integer `n` in base `radix` (2 to 36), with the lowercase
/// letters for the digits above 9; a negative number gives the empty text.
pub fn format_int_radix(n: i64, radix: u32) -> (r: String)
    requires
        n <= 0 || (2 <= radix <= 36),
    ensures
        r@ == int_radix_text(n as int, radix as nat),
        n >= 0 && 2 <= radix <= 36 ==> radix_value(r@, radix as int) == n && (forall|i: int|
            0 <= i < r@.len() ==> radix_digit_value(#[trigger] r@[i]) < radix) && (r@ =~= seq!['0']
            || r@[0] != '0'),
{
    if n == 0 {
        proof {
            reveal_strlit("0");
            if 2 <= radix <= 36 {
                lemma_radix_digits_canonical(0, radix as nat);
            }
        }
        return String::from_str("0");
    }
    // the digits, least significant first
    let mut low_first: Vec<char> = Vec::new();
    let mut num: i64 = n;
    while num > 0
        invariant
            n > 0 ==> 2 <= radix <= 36,
            num <= n,
            n > 0 ==> 0 <= num,
            n < 0 ==> num == n && low_first@.len() == 0,
            num > 0 ==> radix_digits(n as nat, radix as nat) == radix_digits(num as nat, radix as nat)
                + low_first@.reverse(),
            num == 0 && n > 0 ==> radix_digits(n as nat, radix as nat) == low_first@.reverse(),
        decreases num,
    {
        let b: i64 = radix as i64;
        let digit: i64 = num % b;
        assert(0 <= digit < b) by (nonlinear_arith)
            requires
                digit == num % b,
                num > 0,
                b >= 2,
        ;
        let c = digit_char(digit as u32);
        let next: i64 = num / b;
        assert(0 <= next < num) by (nonlinear_arith)
            requires
                next == num / b,
                num > 0,
                b >= 2,
        ;
        proof {
            let ghost old_rev = low_first@.reverse();
            assert(low_first@.push(c).reverse() =~= seq![c] + old_rev);
            if num < b {
                assert(next == 0 && digit == num) by (nonlinear_arith)
                    requires
                        next == num / b,
                        digit == num % b,
                        0 < num < b,
                ;
                assert(radix_digits(num as nat, radix as nat) =~= seq![c]);
            } else {
                assert(radix_digits(num as nat, radix as nat) == radix_digits(
                    next as nat,
                    radix as nat,
                ).push(c));
                assert(radix_digits(next as nat, radix as nat).push(c) + old_rev
                    =~= radix_digits(next as nat, radix as nat) + (seq![c] + old_rev));
                assert(next > 0) by (nonlinear_arith)
                    requires
                        next == num / b,
                        num >= b,
                        b >= 2,
                ;
            }
        }
        low_first.push(c);
        num = next;
    }
    // most significant first
    let mut result = String::new();
    let mut j: usize = low_first.len();
    while j > 0
        invariant
            j <= low_first@.len(),
            result@ == low_first@.subrange(j as int, low_first@.len() as int).reverse(),
        decreases j,
    {
        j = j - 1;
        let c = low_first[j];
        proof {
            assert(low_first@.subrange(j as int, low_first@.len() as int).reverse() =~= low_first@.subrange(
                j + 1,
                low_first@.len() as int,
            ).reverse().push(c));
        }
        result.push(c);
    }
    proof {
        assert(low_first@.subrange(0, low_first@.len() as int) =~= low_first@);
    }
    proof {
        if n > 0 {
            lemma_radix_digits_canonical(n as nat, radix as nat);
        }
    }
    result
}

/// The value of a digit character in bases up to 36: `0`-`9`, then `a`-`z`;
/// 36 for any other character.
pub open spec fn radix_digit_value(c: char) -> int {
    if '0' <= c && c <= '9' {
        c as int - 48
    } else if 'a' <= c && c <= 'z' {
        c as int - 97 + 10
    } else {
        36
    }
}

/// The number the digits `t` stand for in base `b`.
pub open spec fn radix_value(t: Seq<char>, b: int) -> int
    decreases t.len(),
{
    if t.len() == 0 {
        0
    } else {
        radix_value(t.drop_last(), b) * b + radix_digit_value(t.last())
    }
}

/// The digits of `n` in base `b` (2 to 36) are a canonical numeral: every
/// character is a digit below `b`, there is no leading zero but for zero
/// itself, and read back in base `b` they give `n`.
pub proof fn lemma_radix_digits_canonical(n: nat, b: nat)
    requires
        2 <= b <= 36,
    ensures
        radix_digits(n, b).len() > 0,
        forall|i: int|
            0 <= i < radix_digits(n, b).len() ==> radix_digit_value(#[trigger] radix_digits(n, b)[i])
                < b,
        n > 0 ==> radix_digits(n, b)[0] != '0',
        n == 0 ==> radix_digits(n, b) == seq!['0'],
        radix_value(radix_digits(n, b), b as int) == n,
    decreases n,
{
    let t = radix_digits(n, b);
    if n < b {
        assert(t == seq![radix_digit(n as int)]);
        assert(t.drop_last() =~= Seq::<char>::empty());
        assert(radix_digit_value(radix_digit(n as int)) == n);
        assert(radix_value(t, b as int) == radix_value(t.drop_last(), b as int) * b + radix_digit_value(t.last()));
    } else {
        assert(n / b < n) by (nonlinear_arith)
            requires
                b >= 2,
                n >= b,
        ;
        lemma_radix_digits_canonical(n / b, b);
        let u = radix_digits(n / b, b);
        let d = (n % b) as int;
        assert(0 <= d < b) by (nonlinear_arith)
            requires
                d == n % b,
                b >= 2,
        ;
        assert(t == u.push(radix_digit(d)));
        assert(t.drop_last() =~= u);
        assert(radix_digit_value(radix_digit(d)) == d);
        assert(n == (n / b) * b + n % b) by (nonlinear_arith)
            requires
                b >= 2,
        ;
        assert(n / b > 0) by (nonlinear_arith)
            requires
                b >= 2,
                n >= b,
        ;
        assert(t[0] == u[0]);
        assert(radix_value(t, b as int) == radix_value(u, b as int) * b + d);
        assert(radix_value(u, b as int) * b == (n / b) * b);
        assert forall|i: int| 0 <= i < t.len() implies radix_digit_value(#[trigger] t[i]) < b by {
            if i < u.len() {
                assert(t[i] == u[i]);
            }
        }
    }
}

} // verus!
