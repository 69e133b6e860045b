use vstd::prelude::*;

use crate::text::push_char;

verus! {

/// The character of a decimal digit.
pub open spec fn digit_char(d: nat) -> char {
    seq!['0', '1', '2', '3', '4', '5', '6', '7', '8', '9'][d as int]
}

/// The decimal digits of `n`, most significant first.
pub open spec fn decimal(n: nat) -> Seq<char>
    decreases n,
{
    if n < 10 {
        seq![digit_char(n)]
    } else {
        decimal(n / 10).push(digit_char(n % 10))
    }
}

/// `d` with a `,` before each group of three characters, counted from the
/// right.
pub open spec fn group_thousands(d: Seq<char>) -> Seq<char>
    decreases d.len(),
{
    if d.len() <= 3 {
        d
    } else {
        group_thousands(d.take(d.len() - 3)) + seq![','] + d.skip(d.len() - 3)
    }
}

proof fn lemma_decimal_len(n: nat)
    ensures
        decimal(n).len() >= 1,
        n >= 1000 ==> decimal(n).len() > 3,
    decreases n,
{
    if n >= 10 {
        lemma_decimal_len(n / 10);
        if n >= 1000 {
            assert(n / 10 >= 100);
            lemma_decimal_len(n / 100);
            assert(n / 10 / 10 == n / 100) by {
                vstd::arithmetic::div_mod::lemma_div_denominator(n as int, 10, 10);
            }
            lemma_decimal_len(n / 1000);
            assert(n / 10 / 10 / 10 == n / 1000) by {
                vstd::arithmetic::div_mod::lemma_div_denominator(n as int, 100, 10);
            }
        }
    }
}

/// The last three digits of a number of at least four digits.
proof fn lemma_decimal_split(n: nat)
    requires
        n >= 1000,
    ensures
        decimal(n) == decimal(n / 1000) + seq![
            digit_char(n / 100 % 10),
            digit_char(n / 10 % 10),
            digit_char(n % 10),
        ],
{
    assert(n / 10 / 10 == n / 100) by {
        vstd::arithmetic::div_mod::lemma_div_denominator(n as int, 10, 10);
    }
    assert(n / 100 / 10 == n / 1000) by {
        vstd::arithmetic::div_mod::lemma_div_denominator(n as int, 100, 10);
    }
    assert(decimal(n) == decimal(n / 10).push(digit_char(n % 10)));
    assert(decimal(n / 10) == decimal(n / 100).push(digit_char(n / 10 % 10)));
    assert(decimal(n / 100) == decimal(n / 1000).push(digit_char(n / 100 % 10)));
    assert(decimal(n) =~= decimal(n / 1000) + seq![
        digit_char(n / 100 % 10),
        digit_char(n / 10 % 10),
        digit_char(n % 10),
    ]);
}

fn digit(d: usize) -> (c: char)
    requires
        d < 10,
    ensures
        c == digit_char(d as nat),
{
    let digits = ['0', '1', '2', '3', '4', '5', '6', '7', '8', '9'];
    assert(digits@ =~= seq!['0', '1', '2', '3', '4', '5', '6', '7', '8', '9']);
    digits[d]
}

/// Formats `num` in decimal with a `,` between groups of three digits.
pub fn format_number(num: usize) -> (r: String)
    ensures
        r@ == group_thousands(decimal(num as nat)),
    decreases num,
{
    if num < 10 {
        let mut s = String::new();
        push_char(&mut s, digit(num));
        return s;
    }
    if num < 100 {
        let mut s = String::new();
        push_char(&mut s, digit(num / 10));
        push_char(&mut s, digit(num % 10));
        assert(decimal(num as nat) == decimal((num / 10) as nat).push(digit_char((num % 10) as nat)));
        assert(s@ =~= decimal(num as nat));
        return s;
    }
    if num < 1000 {
        let mut s = String::new();
        push_char(&mut s, digit(num / 100));
        push_char(&mut s, digit(num / 10 % 10));
        push_char(&mut s, digit(num % 10));
        assert(num / 10 / 10 == num / 100);
        assert(decimal(num as nat) == decimal((num / 10) as nat).push(digit_char((num % 10) as nat)));
        assert(decimal((num / 10) as nat) == decimal((num / 100) as nat).push(
            digit_char((num / 10 % 10) as nat),
        ));
        assert(s@ =~= decimal(num as nat));
        return s;
    }
    let mut s = format_number(num / 1000);
    push_char(&mut s, ',');
    push_char(&mut s, digit(num / 100 % 10));
    push_char(&mut s, digit(num / 10 % 10));
    push_char(&mut s, digit(num % 10));
    proof {
        let n = num as nat;
        lemma_decimal_split(n);
        lemma_decimal_len(n);
        let d = decimal(n);
        assert(d.take(d.len() - 3) =~= decimal(n / 1000));
        assert(d.skip(d.len() - 3) =~= seq![
            digit_char(n / 100 % 10),
            digit_char(n / 10 % 10),
            digit_char(n % 10),
        ]);
        assert(s@ =~= group_thousands(d));
    }
    s
}

} // verus!
