//! Currency units and unit-tagged money.
//!
//! A `Currency<T>` wraps a signed count of minor units (cents) of the unit
//! `T`. The unit is part of the type, so amounts of different currencies can
//! never be mixed: no operation relates a `Currency<EUR>` to a
//! `Currency<USD>`. Every unit of this system stores one hundred minor units
//! per major unit.

use vstd::prelude::*;

use core::marker::PhantomData;

use crate::decimal::{
    all_digits, char_digit, dec_digits, digit_val, digits_val, is_digit_char,
    lemma_digits_val_lower, lemma_digits_val_nonneg, lemma_digits_val_of_dec_digits,
    lemma_pow10_increases, lemma_zero_prefix, pad2, pow10, u64_to_dec, u64_to_pad2,
};

verus! {

/// A currency unit: a zero-size marker carrying the formatting symbol and
/// the minor-unit scale, which is one hundred for every unit of this system.
pub trait CurrencyType: Sized {
    /// The symbol that opens this unit's rendered amounts.
    spec fn symbol_spec() -> Seq<char>;

    /// Renders a raw minor-unit count as this unit's display string.
    fn formatter(raw_amount: i64) -> (s: String)
        ensures
            s@ == display_chars(Self::symbol_spec(), raw_amount as int),
    ;

    /// The symbol that opens this unit's rendered amounts.
    fn symbol() -> (s: String)
        ensures
            s@ == Self::symbol_spec(),
    ;

    /// The number of minor units per major unit.
    fn store_factor() -> (r: u64)
        ensures
            r == 100,
    ;
}

/// The euro.
#[derive(Clone, Copy, Debug, PartialEq, Eq, Structural)]
pub struct EUR;

/// The United States dollar.
#[derive(Clone, Copy, Debug, PartialEq, Eq, Structural)]
pub struct USD;

impl CurrencyType for EUR {
    open spec fn symbol_spec() -> Seq<char> {
        "€"@
    }

    fn formatter(raw_amount: i64) -> (s: String) {
        format_amount("€", raw_amount)
    }

    fn symbol() -> (s: String) {
        String::from_str("€")
    }

    fn store_factor() -> (r: u64) {
        100
    }
}

impl CurrencyType for USD {
    open spec fn symbol_spec() -> Seq<char> {
        "$"@
    }

    fn formatter(raw_amount: i64) -> (s: String) {
        format_amount("$", raw_amount)
    }

    fn symbol() -> (s: String) {
        String::from_str("$")
    }

    fn store_factor() -> (r: u64) {
        100
    }
}

/// The rendering of a minor-unit count as `major.minor` with exactly two
/// minor digits and a leading minus sign for negative amounts.
pub open spec fn amount_chars(raw: int) -> Seq<char> {
    let mag = (if raw < 0 {
        -raw
    } else {
        raw
    }) as nat;
    let sign: Seq<char> = if raw < 0 {
        seq!['-']
    } else {
        Seq::empty()
    };
    sign + dec_digits(mag / 100) + seq!['.'] + pad2(mag % 100)
}

/// The full display string of an amount: symbol, a space, then the amount.
pub open spec fn display_chars(sym: Seq<char>, raw: int) -> Seq<char> {
    sym + seq![' '] + amount_chars(raw)
}

/// Renders the numeric part of an amount.
fn amount_to_string(raw: i64) -> (s: String)
    ensures
        s@ == amount_chars(raw as int),
{
    proof {
        reveal_strlit("-");
        reveal_strlit(".");
    }
    let neg = raw < 0;
    let mag: u64 = if raw < 0 {
        (-(raw as i128)) as u64
    } else {
        raw as u64
    };
    let mut s = String::new();
    if neg {
        s.append("-");
    }
    let major = u64_to_dec(mag / 100);
    s.append(major.as_str());
    s.append(".");
    let minor = u64_to_pad2(mag % 100);
    s.append(minor.as_str());
    proof {
        assert(s@ =~= amount_chars(raw as int));
    }
    s
}

/// Renders an amount with its unit symbol in front.
pub fn format_amount(symbol: &str, raw_amount: i64) -> (s: String)
    ensures
        s@ == display_chars(symbol@, raw_amount as int),
{
    proof {
        reveal_strlit(" ");
    }
    let mut s = symbol.to_owned();
    s.append(" ");
    let amount = amount_to_string(raw_amount);
    s.append(amount.as_str());
    proof {
        assert(s@ =~= display_chars(symbol@, raw_amount as int));
    }
    s
}

/// An amount of money: a signed count of minor units of the unit `T`.
#[derive(Debug, PartialEq, Eq)]
pub struct Currency<T: CurrencyType> {
    raw: i64,
    unit: PhantomData<T>,
}

impl<T: CurrencyType> Clone for Currency<T> {
    fn clone(&self) -> (r: Self)
        ensures
            r == *self,
    {
        Currency { raw: self.raw, unit: PhantomData }
    }
}

impl<T: CurrencyType> Currency<T> {
    /// The stored minor-unit count.
    pub closed spec fn spec_raw(self) -> int {
        self.raw as int
    }

    /// A stored minor-unit count always fits the signed 64-bit range.
    pub proof fn lemma_raw_in_range(self)
        ensures
            i64::MIN <= self.spec_raw() <= i64::MAX,
    {
    }

    /// Wraps a minor-unit count.
    pub fn from_raw_amount(raw_amount: i64) -> (r: Self)
        ensures
            r.spec_raw() == raw_amount,
    {
        Currency { raw: raw_amount, unit: PhantomData }
    }

    /// The stored minor-unit count.
    pub fn raw_amount(&self) -> (r: i64)
        ensures
            r == self.spec_raw(),
    {
        self.raw
    }

    /// Converts a count of major units: one major unit is one hundred minor
    /// units, exactly.
    pub fn from_major_units(value: i64) -> (r: Self)
        requires
            i64::MIN <= value * 100 <= i64::MAX,
        ensures
            r.spec_raw() == value * 100,
    {
        let factor = T::store_factor();
        Currency { raw: value * (factor as i64), unit: PhantomData }
    }

    /// Renders this amount as `"<symbol> <major>.<2-digit minor>"`.
    pub fn display(&self) -> (s: String)
        ensures
            s@ == display_chars(T::symbol_spec(), self.spec_raw()),
    {
        T::formatter(self.raw)
    }
}

/// What re-reading the numeric part of a rendered amount yields.
pub open spec fn parse_amount_spec(s: Seq<char>) -> Option<int> {
    if s.len() >= 1 && s[0] == '-' {
        match parse_unsigned_amount_spec(s.skip(1)) {
            Some(v) => Some(-v),
            None => None,
        }
    } else {
        parse_unsigned_amount_spec(s)
    }
}

/// What re-reading an unsigned `major.minor` amount yields: the minor-unit
/// count, when the text is digits, one dot, then exactly two digits.
pub open spec fn parse_unsigned_amount_spec(s: Seq<char>) -> Option<int> {
    if s.len() >= 4 && s[s.len() - 3] == '.' && all_digits(s.take(s.len() - 3)) && is_digit_char(
        s[s.len() - 2],
    ) && is_digit_char(s[s.len() - 1]) {
        Some(
            digits_val(s.take(s.len() - 3)) * 100 + digit_val(s[s.len() - 2]) * 10 + digit_val(
                s[s.len() - 1],
            ),
        )
    } else {
        None
    }
}

/// What re-reading a full display string yields: the minor-unit count, when
/// the text opens with the unit's symbol and a space and continues as an
/// amount.
pub open spec fn parse_display_spec(sym: Seq<char>, s: Seq<char>) -> Option<int> {
    if s.len() >= sym.len() + 1 && s.take(sym.len() as int) == sym && s[sym.len() as int] == ' ' {
        parse_amount_spec(s.skip(sym.len() as int + 1))
    } else {
        None
    }
}

/// Reads the unsigned `major.minor` part of an amount beginning at character
/// `d0` of `s`, as a minor-unit count. Yields nothing when the text does not
/// have that shape, and may yield nothing when the count is too large for any
/// stored amount.
#[verifier::loop_isolation(false)]
fn parse_unsigned_magnitude(s: &str, d0: usize) -> (r: Option<u128>)
    requires
        d0 <= s@.len(),
    ensures
        ({
            let spec_r = parse_unsigned_amount_spec(s@.skip(d0 as int));
            &&& (r matches Some(t) ==> spec_r == Some(t as int))
            &&& (r is None ==> spec_r is None || spec_r->0 > 9223372036854775808)
        }),
{
    let ghost u = s@.skip(d0 as int);
    let n = s.unicode_len();
    if n - d0 < 4 {
        return None;
    }
    if s.get_char(n - 3) != '.' {
        proof {
            assert(u[u.len() - 3] == s@[n - 3]);
        }
        return None;
    }
    let m1 = match char_digit(s.get_char(n - 2)) {
        Some(d) => d,
        None => {
            proof {
                assert(u[u.len() - 2] == s@[n - 2]);
            }
            return None;
        },
    };
    let m2 = match char_digit(s.get_char(n - 1)) {
        Some(d) => d,
        None => {
            proof {
                assert(u[u.len() - 1] == s@[n - 1]);
            }
            return None;
        },
    };
    let ghost g = u.take(u.len() - 3);
    proof {
        assert(g =~= s@.subrange(d0 as int, n - 3));
    }
    let mut k = d0;
    while k < n - 3
        invariant
            d0 <= k <= n - 3,
            n == s@.len(),
            n - d0 >= 4,
            g == s@.subrange(d0 as int, n - 3),
            forall|j: int| d0 <= j < k ==> is_digit_char(#[trigger] s@[j]),
        decreases n - 3 - k,
    {
        let c = s.get_char(k);
        match char_digit(c) {
            Some(_) => {
                k = k + 1;
            },
            None => {
                proof {
                    assert(g[k - d0] == s@[k as int]);
                    assert(!all_digits(g));
                }
                return None;
            },
        }
    }
    proof {
        assert(all_digits(g)) by {
            assert(forall|j: int| 0 <= j < g.len() ==> #[trigger] g[j] == s@[d0 + j]);
        }
    }
    proof {
        assert(g.skip(0) =~= g);
    }
    let mut z = d0;
    while z < n - 3 && s.get_char(z) == '0'
        invariant
            d0 <= z <= n - 3,
            n == s@.len(),
            n - d0 >= 4,
            g == s@.subrange(d0 as int, n - 3),
            all_digits(g),
            digits_val(g) == digits_val(g.skip(z - d0)),
        decreases n - 3 - z,
    {
        proof {
            assert(g[z - d0] == s@[z as int]);
            assert(g.skip(z - d0) =~= seq!['0'] + g.skip(z + 1 - d0));
            lemma_zero_prefix(g.skip(z + 1 - d0));
        }
        z = z + 1;
    }
    let ghost h = g.skip(z as int - d0 as int);
    proof {
        assert(all_digits(h)) by {
            assert(forall|j: int| 0 <= j < h.len() ==> #[trigger] h[j] == g[j + z - d0]);
        }
        assert(pow10(19) == 10000000000000000000) by {
            reveal_with_fuel(pow10, 21);
        }
    }
    if n - 3 - z > 19 {
        proof {
            assert(h[0] == g[z - d0]);
            assert(g[z - d0] == s@[z as int]);
            lemma_digits_val_lower(h);
            lemma_pow10_increases(19, (h.len() - 1) as nat);
            assert(is_digit_char(u[u.len() - 2]) && is_digit_char(u[u.len() - 1]));
            assert(digit_val(u[u.len() - 2]) >= 0 && digit_val(u[u.len() - 1]) >= 0);
            assert(digits_val(g) >= pow10(19));
        }
        return None;
    }
    let mut acc: u64 = 0;
    let mut i = z;
    while i < n - 3
        invariant
            d0 <= z <= i <= n - 3,
            n == s@.len(),
            n - 3 - z <= 19,
            g == s@.subrange(d0 as int, n - 3),
            all_digits(g),
            h == g.skip(z as int - d0 as int),
            acc == digits_val(h.take(i - z)),
            acc < pow10((i - z) as nat),
        decreases n - 3 - i,
    {
        let c = s.get_char(i);
        let d = match char_digit(c) {
            Some(d) => d,
            None => {
                proof {
                    assert(g[i - d0] == s@[i as int]);
                }
                return None;
            },
        };
        proof {
            assert(h.take(i + 1 - z).drop_last() =~= h.take(i - z));
            assert(h.take(i + 1 - z).last() == g[i - d0]);
            assert(g[i - d0] == s@[i as int]);
            lemma_pow10_increases((i - z) as nat, 18);
            assert(pow10(18) == 1000000000000000000) by {
                reveal_with_fuel(pow10, 21);
            }
        }
        acc = acc * 10 + d;
        i = i + 1;
    }
    proof {
        assert(h.take(h.len() as int) =~= h);
    }
    let total: u128 = (acc as u128) * 100 + (m1 as u128) * 10 + (m2 as u128);
    proof {
        assert(u[u.len() - 2] == s@[n - 2] && u[u.len() - 1] == s@[n - 1]);
        assert(u.take(u.len() - 3) == g);
        assert(digits_val(g) == digits_val(h));
        lemma_digits_val_nonneg(h);
        assert(parse_unsigned_amount_spec(u) == Some(
            digits_val(g) * 100 + digit_val(u[u.len() - 2]) * 10 + digit_val(u[u.len() - 1]),
        ));
        assert(total as int == digits_val(g) * 100 + digit_val(u[u.len() - 2]) * 10 + digit_val(
            u[u.len() - 1],
        ));
    }
    Some(total)
}

impl<T: CurrencyType> Currency<T> {
    /// Re-reads a rendered display string as an amount of this unit: the
    /// symbol, a space, then a signed `major.minor` value. Yields the amount
    /// exactly when the text has that shape and the minor-unit count fits a
    /// signed 64-bit integer.
    #[verifier::loop_isolation(false)]
    pub fn parse_display(s: &str) -> (r: Option<Currency<T>>)
        ensures
            match parse_display_spec(T::symbol_spec(), s@) {
                Some(v) => {
                    if i64::MIN <= v <= i64::MAX {
                        r matches Some(c) && c.spec_raw() == v
                    } else {
                        r is None
                    }
                },
                None => r is None,
            },
    {
        let sym = T::symbol();
        let symlen = sym.as_str().unicode_len();
        let n = s.unicode_len();
        if n <= symlen {
            return None;
        }
        let mut i: usize = 0;
        while i < symlen
            invariant
                0 <= i <= symlen,
                n > symlen,
                n == s@.len(),
                sym@ == T::symbol_spec(),
                symlen == sym@.len(),
                forall|j: int| 0 <= j < i ==> s@[j] == sym@[j],
            decreases symlen - i,
        {
            if s.get_char(i) != sym.as_str().get_char(i) {
                proof {
                    assert(s@.take(symlen as int)[i as int] == s@[i as int]);
                }
                return None;
            }
            i = i + 1;
        }
        proof {
            assert(s@.take(symlen as int) =~= sym@);
        }
        if s.get_char(symlen) != ' ' {
            return None;
        }
        let a0 = symlen + 1;
        let ghost t = s@.skip(a0 as int);
        if a0 == n {
            return None;
        }
        let neg = s.get_char(a0) == '-';
        let d0 = if neg {
            a0 + 1
        } else {
            a0
        };
        proof {
            assert(t[0] == s@[a0 as int]);
            if neg {
                assert(t.skip(1) =~= s@.skip(d0 as int));
            } else {
                assert(t =~= s@.skip(d0 as int));
            }
        }
        match parse_unsigned_magnitude(s, d0) {
            None => None,
            Some(total) => {
                if neg {
                    if total > 9223372036854775808u128 {
                        return None;
                    }
                    let raw = (-(total as i128)) as i64;
                    Some(Currency::from_raw_amount(raw))
                } else {
                    if total > 9223372036854775807u128 {
                        return None;
                    }
                    Some(Currency::from_raw_amount(total as i64))
                }
            },
        }
    }
}

/// Re-reading the numeric part of a rendered amount yields the exact
/// minor-unit count back.
pub proof fn lemma_parse_amount_round_trip(raw: int)
    ensures
        parse_amount_spec(amount_chars(raw)) == Some(raw),
{
    let mag = (if raw < 0 {
        -raw
    } else {
        raw
    }) as nat;
    lemma_digits_val_of_dec_digits(mag / 100);
    let major = dec_digits(mag / 100);
    let unsigned = major + seq!['.'] + pad2(mag % 100);
    assert(unsigned.len() == major.len() + 3);
    assert(unsigned.take(unsigned.len() - 3) =~= major);
    assert(unsigned[unsigned.len() - 3] == '.');
    assert(unsigned[unsigned.len() - 2] == pad2(mag % 100)[0]);
    assert(unsigned[unsigned.len() - 1] == pad2(mag % 100)[1]);
    vstd::arithmetic::div_mod::lemma_fundamental_div_mod(mag as int, 100);
    vstd::arithmetic::div_mod::lemma_fundamental_div_mod((mag % 100) as int, 10);
    assert(mag % 100 < 100);
    assert(digit_val(pad2(mag % 100)[0]) == (mag % 100) / 10);
    assert(digit_val(pad2(mag % 100)[1]) == (mag % 100) % 10);
    assert(parse_unsigned_amount_spec(unsigned) == Some(mag as int));
    if raw < 0 {
        assert(amount_chars(raw) =~= seq!['-'] + unsigned);
        assert(amount_chars(raw)[0] == '-');
        assert(amount_chars(raw).skip(1) =~= unsigned);
    } else {
        assert(amount_chars(raw) =~= unsigned);
        assert(unsigned[0] == major[0]);
        assert(is_digit_char(major[0]));
        assert(unsigned[0] != '-');
    }
}

/// Displaying an amount and re-reading the result yields the exact
/// minor-unit count back, whatever the unit's symbol.
pub proof fn lemma_display_round_trip(sym: Seq<char>, raw: i64)
    ensures
        parse_display_spec(sym, display_chars(sym, raw as int)) == Some(raw as int),
{
    let s = display_chars(sym, raw as int);
    assert(s.take(sym.len() as int) =~= sym);
    assert(s[sym.len() as int] == ' ');
    assert(s.skip(sym.len() as int + 1) =~= amount_chars(raw as int));
    lemma_parse_amount_round_trip(raw as int);
}

} // verus!
