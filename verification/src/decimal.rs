//! Decimal digit sequences: the spec-level meaning of a number written in
//! base ten, and verified executable rendering and digit classification.
//!
//! These are shared by date formatting (`date`) and money formatting
//! (`conversions::currency`).

use vstd::prelude::*;

verus! {

/// The character for one decimal digit value.
pub open spec fn digit_char(d: int) -> char {
    if d == 0 {
        '0'
    } else if d == 1 {
        '1'
    } else if d == 2 {
        '2'
    } else if d == 3 {
        '3'
    } else if d == 4 {
        '4'
    } else if d == 5 {
        '5'
    } else if d == 6 {
        '6'
    } else if d == 7 {
        '7'
    } else if d == 8 {
        '8'
    } else {
        '9'
    }
}

/// Whether a character is a decimal digit.
pub open spec fn is_digit_char(c: char) -> bool {
    c == '0' || c == '1' || c == '2' || c == '3' || c == '4' || c == '5' || c == '6' || c == '7'
        || c == '8' || c == '9'
}

/// The numeric value of a decimal digit character.
pub open spec fn digit_val(c: char) -> int
    recommends
        is_digit_char(c),
{
    if c == '0' {
        0
    } else if c == '1' {
        1
    } else if c == '2' {
        2
    } else if c == '3' {
        3
    } else if c == '4' {
        4
    } else if c == '5' {
        5
    } else if c == '6' {
        6
    } else if c == '7' {
        7
    } else if c == '8' {
        8
    } else {
        9
    }
}

/// The decimal rendering of `n`, most significant digit first, with no
/// leading zeros (except for `n == 0`, rendered as a single `'0'`).
pub open spec fn dec_digits(n: nat) -> Seq<char>
    decreases n,
{
    if n < 10 {
        seq![digit_char(n as int)]
    } else {
        dec_digits(n / 10).push(digit_char((n % 10) as int))
    }
}

/// Two-digit zero-padded rendering of `n < 100`.
pub open spec fn pad2(n: nat) -> Seq<char>
    recommends
        n < 100,
{
    seq![digit_char((n / 10) as int), digit_char((n % 10) as int)]
}

/// Four-digit zero-padded rendering of `n < 10000`.
pub open spec fn pad4(n: nat) -> Seq<char>
    recommends
        n < 10000,
{
    seq![
        digit_char((n / 1000) as int),
        digit_char((n / 100 % 10) as int),
        digit_char((n / 10 % 10) as int),
        digit_char((n % 10) as int),
    ]
}

/// Whether every character of `s` is a decimal digit.
pub open spec fn all_digits(s: Seq<char>) -> bool {
    forall|i: int| 0 <= i < s.len() ==> is_digit_char(#[trigger] s[i])
}

/// The numeric value of a digit sequence, read most significant first.
pub open spec fn digits_val(s: Seq<char>) -> int
    recommends
        all_digits(s),
    decreases s.len(),
{
    if s.len() == 0 {
        0
    } else {
        digits_val(s.drop_last()) * 10 + digit_val(s.last())
    }
}

/// Reading back the decimal rendering of `n` yields `n`: rendering loses
/// nothing.
pub proof fn lemma_digits_val_of_dec_digits(n: nat)
    ensures
        digits_val(dec_digits(n)) == n,
        all_digits(dec_digits(n)),
        dec_digits(n).len() >= 1,
    decreases n,
{
    if n < 10 {
        let s = dec_digits(n);
        assert(s.drop_last() =~= Seq::<char>::empty());
        assert(digits_val(s) == digits_val(Seq::<char>::empty()) * 10 + digit_val(s.last()));
        assert(digit_val(digit_char(n as int)) == n);
    } else {
        lemma_digits_val_of_dec_digits(n / 10);
        let s = dec_digits(n);
        assert(s.drop_last() =~= dec_digits(n / 10));
        assert(s.last() == digit_char((n % 10) as int));
        assert(digit_val(digit_char((n % 10) as int)) == n % 10);
        assert(digits_val(s) == (n / 10) * 10 + (n % 10));
        assert(n == (n / 10) * 10 + (n % 10)) by {
            vstd::arithmetic::div_mod::lemma_fundamental_div_mod(n as int, 10);
        }
    }
}

/// Ten to the power `k`.
pub open spec fn pow10(k: nat) -> int
    decreases k,
{
    if k == 0 {
        1
    } else {
        10 * pow10((k - 1) as nat)
    }
}

/// Powers of ten are positive and grow with the exponent.
pub proof fn lemma_pow10_increases(a: nat, b: nat)
    requires
        a <= b,
    ensures
        1 <= pow10(a) <= pow10(b),
    decreases b,
{
    if a < b {
        lemma_pow10_increases(a, (b - 1) as nat);
    } else if a == b && a > 0 {
        lemma_pow10_increases((a - 1) as nat, (a - 1) as nat);
    }
}

/// The value of a digit sequence is never negative.
pub proof fn lemma_digits_val_nonneg(s: Seq<char>)
    requires
        all_digits(s),
    ensures
        digits_val(s) >= 0,
    decreases s.len(),
{
    if s.len() > 0 {
        assert(all_digits(s.drop_last())) by {
            assert(forall|i: int| 0 <= i < s.len() - 1 ==> #[trigger] s.drop_last()[i] == s[i]);
        }
        lemma_digits_val_nonneg(s.drop_last());
        assert(is_digit_char(s.last()));
    }
}

/// A digit sequence that opens with a nonzero digit has a value of at least
/// ten to its length less one.
pub proof fn lemma_digits_val_lower(s: Seq<char>)
    requires
        all_digits(s),
        s.len() >= 1,
        s[0] != '0',
    ensures
        digits_val(s) >= pow10((s.len() - 1) as nat),
    decreases s.len(),
{
    if s.len() == 1 {
        assert(s.drop_last() =~= Seq::<char>::empty());
        assert(digits_val(s) == digits_val(s.drop_last()) * 10 + digit_val(s.last()));
        assert(s.last() == s[0]);
        assert(is_digit_char(s[0]));
        assert(digit_val(s[0]) >= 1);
        assert(pow10(0) == 1);
    } else {
        assert(all_digits(s.drop_last())) by {
            assert(forall|i: int| 0 <= i < s.len() - 1 ==> #[trigger] s.drop_last()[i] == s[i]);
        }
        assert(s.drop_last()[0] == s[0]);
        lemma_digits_val_lower(s.drop_last());
        assert(is_digit_char(s.last()));
        assert(digit_val(s.last()) >= 0);
        assert(digits_val(s) == digits_val(s.drop_last()) * 10 + digit_val(s.last()));
        assert(pow10((s.len() - 1) as nat) == 10 * pow10((s.len() - 2) as nat));
        assert(digits_val(s.drop_last()) * 10 >= pow10((s.len() - 2) as nat) * 10) by {
            vstd::arithmetic::mul::lemma_mul_inequality(
                pow10((s.len() - 2) as nat),
                digits_val(s.drop_last()),
                10,
            );
        }
    }
}

/// A leading zero does not change a digit sequence's value.
pub proof fn lemma_zero_prefix(t: Seq<char>)
    ensures
        digits_val(seq!['0'] + t) == digits_val(t),
    decreases t.len(),
{
    let s = seq!['0'] + t;
    assert(s.len() == t.len() + 1);
    if t.len() == 0 {
        assert(s.drop_last() =~= Seq::<char>::empty());
        assert(s.last() == '0');
        assert(digits_val(s) == digits_val(s.drop_last()) * 10 + digit_val(s.last()));
        assert(digit_val('0') == 0);
    } else {
        assert(s.drop_last() =~= seq!['0'] + t.drop_last());
        assert(s.last() == t.last());
        lemma_zero_prefix(t.drop_last());
        assert(digits_val(s) == digits_val(s.drop_last()) * 10 + digit_val(s.last()));
        assert(digits_val(t) == digits_val(t.drop_last()) * 10 + digit_val(t.last()));
    }
}

/// The digit character for a machine digit value.
pub fn digit_str(d: u64) -> (s: &'static str)
    requires
        d < 10,
    ensures
        s@ =~= seq![digit_char(d as int)],
{
    proof {
        reveal_strlit("0");
        reveal_strlit("1");
        reveal_strlit("2");
        reveal_strlit("3");
        reveal_strlit("4");
        reveal_strlit("5");
        reveal_strlit("6");
        reveal_strlit("7");
        reveal_strlit("8");
        reveal_strlit("9");
    }
    if d == 0 {
        "0"
    } else if d == 1 {
        "1"
    } else if d == 2 {
        "2"
    } else if d == 3 {
        "3"
    } else if d == 4 {
        "4"
    } else if d == 5 {
        "5"
    } else if d == 6 {
        "6"
    } else if d == 7 {
        "7"
    } else if d == 8 {
        "8"
    } else {
        "9"
    }
}

/// Renders `n` in decimal, most significant digit first.
pub fn u64_to_dec(n: u64) -> (s: String)
    ensures
        s@ == dec_digits(n as nat),
    decreases n,
{
    if n < 10 {
        let mut s = String::new();
        s.append(digit_str(n));
        proof {
            assert(s@ =~= dec_digits(n as nat));
        }
        s
    } else {
        let mut s = u64_to_dec(n / 10);
        s.append(digit_str(n % 10));
        proof {
            assert(s@ =~= dec_digits(n as nat));
        }
        s
    }
}

/// Renders `n < 100` as exactly two digits.
pub fn u64_to_pad2(n: u64) -> (s: String)
    requires
        n < 100,
    ensures
        s@ == pad2(n as nat),
{
    let mut s = String::new();
    s.append(digit_str(n / 10));
    s.append(digit_str(n % 10));
    proof {
        assert(s@ =~= pad2(n as nat));
    }
    s
}

/// Renders `n < 10000` as exactly four digits.
pub fn u64_to_pad4(n: u64) -> (s: String)
    requires
        n < 10000,
    ensures
        s@ == pad4(n as nat),
{
    let mut s = String::new();
    s.append(digit_str(n / 1000));
    s.append(digit_str(n / 100 % 10));
    s.append(digit_str(n / 10 % 10));
    s.append(digit_str(n % 10));
    proof {
        assert(s@ =~= pad4(n as nat));
    }
    s
}

/// Classifies a character as a digit and gives its value.
pub fn char_digit(c: char) -> (r: Option<u64>)
    ensures
        r is Some <==> is_digit_char(c),
        r is Some ==> r->0 == digit_val(c) && r->0 < 10,
{
    match c {
        '0' => Some(0),
        '1' => Some(1),
        '2' => Some(2),
        '3' => Some(3),
        '4' => Some(4),
        '5' => Some(5),
        '6' => Some(6),
        '7' => Some(7),
        '8' => Some(8),
        '9' => Some(9),
        _ => None,
    }
}

} // verus!
