//! Exact decimal amounts.

use vstd::prelude::*;

verus! {

/// Largest number of decimal places an amount can have.
pub const MAX_SCALE: u32 = 38;

/// `10` to the power `n`.
pub open spec fn pow10(n: nat) -> nat
    decreases n,
{
    if n == 0 {
        1
    } else {
        10 * pow10((n - 1) as nat)
    }
}

/// The decimal digit `d`, as a character.
pub open spec fn digit_char(d: nat) -> char {
    ((48 + d) as u8) as char
}

/// Decimal writing of `n`, without leading zeros.
pub open spec fn decimal(n: nat) -> Seq<char>
    decreases n,
{
    if n < 10 {
        seq![digit_char(n)]
    } else {
        decimal(n / 10).push(digit_char(n % 10))
    }
}

/// The digit `d` as a character.
pub fn digit_to_char(d: u8) -> (r: char)
    requires
        d < 10,
    ensures
        r == digit_char(d as nat),
{
    (48u8 + d) as char
}

} // verus!

verus! {

/// An amount as sign, digits and number of decimal places: its value is
/// `mantissa / 10^scale`, negated when `negative`.
pub struct AmountView {
    pub negative: bool,
    pub mantissa: nat,
    pub scale: nat,
}

impl AmountView {
    /// The one writing of each value: no trailing zero after the decimal
    /// point, no negative zero, and within the machine's bounds.
    pub open spec fn wf(self) -> bool {
        &&& self.scale == 0 || self.mantissa % 10 != 0
        &&& self.mantissa == 0 ==> !self.negative
        &&& self.scale <= MAX_SCALE
        &&& self.mantissa <= u128::MAX
    }

    /// The mantissa with its sign.
    pub open spec fn signed(self) -> int {
        if self.negative {
            -(self.mantissa as int)
        } else {
            self.mantissa as int
        }
    }

    /// Whether `self` and `o` are the same number.
    pub open spec fn same_value(self, o: AmountView) -> bool {
        self.signed() * pow10(o.scale) == o.signed() * pow10(self.scale)
    }
}

/// The well-formed writing of `±m / 10^s`: trailing zeros after the decimal
/// point dropped.
pub open spec fn normalize(negative: bool, m: nat, s: nat) -> AmountView
    decreases s,
{
    if s > 0 && m % 10 == 0 {
        normalize(negative, m / 10, (s - 1) as nat)
    } else {
        AmountView { negative: negative && m != 0, mantissa: m, scale: s }
    }
}

/// Normalizing keeps the value and does not grow the mantissa or the scale.
pub proof fn lemma_normalize(negative: bool, m: nat, s: nat)
    ensures
        normalize(negative, m, s).same_value(
            AmountView { negative: negative && m != 0, mantissa: m, scale: s },
        ),
        normalize(negative, m, s).mantissa <= m,
        normalize(negative, m, s).scale <= s,
        normalize(negative, m, s).scale == 0 || normalize(negative, m, s).mantissa % 10 != 0,
        normalize(negative, m, s).mantissa == 0 ==> !normalize(negative, m, s).negative,
    decreases s,
{
    if s > 0 && m % 10 == 0 {
        let m1 = m / 10;
        let s1 = (s - 1) as nat;
        lemma_normalize(negative, m1, s1);
        let n = normalize(negative, m1, s1);
        let a1 = AmountView { negative: negative && m1 != 0, mantissa: m1, scale: s1 };
        let a = AmountView { negative: negative && m != 0, mantissa: m, scale: s };
        assert(m == 10 * m1);
        assert(pow10(s) == 10 * pow10(s1));
        assert(a.signed() == 10 * a1.signed());
        assert(n.signed() * pow10(s1) == a1.signed() * pow10(n.scale));
        assert(n.signed() * pow10(s) == a.signed() * pow10(n.scale)) by (nonlinear_arith)
            requires
                n.signed() * pow10(s1) == a1.signed() * pow10(n.scale),
                pow10(s) == 10 * pow10(s1),
                a.signed() == 10 * a1.signed(),
        ;
    }
}

/// An exact decimal amount, always in its well-formed writing, so that two
/// amounts are equal exactly when they are the same number.
#[derive(Debug, Clone, Copy, PartialEq, Eq, Structural)]
pub struct Amount {
    negative: bool,
    mantissa: u128,
    scale: u32,
}

impl View for Amount {
    type V = AmountView;

    closed spec fn view(&self) -> AmountView {
        AmountView { negative: self.negative, mantissa: self.mantissa as nat, scale: self.scale as nat }
    }
}

/// Drops the trailing zeros after the decimal point of `±m / 10^s`.
fn normalized(negative: bool, m0: u128, s0: u32) -> (r: (bool, u128, u32))
    ensures
        normalize(negative, m0 as nat, s0 as nat) == (AmountView {
            negative: r.0,
            mantissa: r.1 as nat,
            scale: r.2 as nat,
        }),
{
    let mut m = m0;
    let mut s = s0;
    while s > 0 && m % 10 == 0
        invariant
            normalize(negative, m as nat, s as nat) == normalize(
                negative,
                m0 as nat,
                s0 as nat,
            ),
        decreases s,
    {
        m = m / 10;
        s = s - 1;
    }
    (negative && m != 0, m, s)
}

} // verus!

verus! {

/// Absolute value of `m`.
pub open spec fn abs(m: int) -> nat {
    if m < 0 {
        (-m) as nat
    } else {
        m as nat
    }
}

impl Amount {
    #[verifier::type_invariant]
    spec fn well_formed(self) -> bool {
        self@.wf()
    }

    /// The amount `mantissa / 10^scale`.
    pub fn new(mantissa: i128, scale: u32) -> (r: Amount)
        requires
            scale <= MAX_SCALE,
        ensures
            r@ == normalize(mantissa < 0, abs(mantissa as int), scale as nat),
    {
        let negative = mantissa < 0;
        let m: u128 = if negative {
            ((-(mantissa + 1)) as u128) + 1
        } else {
            mantissa as u128
        };
        Amount::from_parts(negative, m, scale)
    }

    /// The amount `±mantissa / 10^scale`, negative when `negative`.
    pub fn from_parts(negative: bool, mantissa: u128, scale: u32) -> (r: Amount)
        requires
            scale <= MAX_SCALE,
        ensures
            r@ == normalize(negative, mantissa as nat, scale as nat),
    {
        let (n, m, s) = normalized(negative, mantissa, scale);
        proof {
            lemma_normalize(negative, mantissa as nat, scale as nat);
        }
        Amount { negative: n, mantissa: m, scale: s }
    }

    /// Zero.
    pub fn zero() -> (r: Amount)
        ensures
            r@ == (AmountView { negative: false, mantissa: 0, scale: 0 }),
    {
        Amount { negative: false, mantissa: 0, scale: 0 }
    }

    /// One.
    pub fn one() -> (r: Amount)
        ensures
            r@ == (AmountView { negative: false, mantissa: 1, scale: 0 }),
    {
        Amount { negative: false, mantissa: 1, scale: 0 }
    }

    /// Whether `self` and `o` are the same amount.
    pub fn same_as(&self, o: &Amount) -> (r: bool)
        ensures
            r == (self@ == o@),
    {
        *self == *o
    }

    /// Whether the amount is below zero.
    pub fn is_negative(&self) -> (r: bool)
        ensures
            r == self@.negative,
    {
        self.negative
    }

    /// Digits of the amount, without sign or decimal point.
    pub fn mantissa(&self) -> (r: u128)
        ensures
            r == self@.mantissa,
    {
        self.mantissa
    }

    /// Number of decimal places.
    pub fn scale(&self) -> (r: u32)
        ensures
            r == self@.scale,
    {
        self.scale
    }

    /// The exact product `self * o`, or `None` when its digits or its
    /// decimal places do not fit.
    pub fn checked_mul(&self, o: &Amount) -> (r: Option<Amount>)
        ensures
            r is Some <==> self@.mantissa * o@.mantissa <= u128::MAX && normalize(
                self@.negative != o@.negative,
                self@.mantissa * o@.mantissa,
                self@.scale + o@.scale,
            ).scale <= MAX_SCALE,
            r matches Some(p) ==> p@ == normalize(
                self@.negative != o@.negative,
                self@.mantissa * o@.mantissa,
                self@.scale + o@.scale,
            ),
    {
        proof {
            use_type_invariant(self);
            use_type_invariant(o);
        }
        let m = match self.mantissa.checked_mul(o.mantissa) {
            Some(m) => m,
            None => return None,
        };
        let s: u32 = self.scale + o.scale;
        let (n, m, s) = normalized(self.negative != o.negative, m, s);
        proof {
            lemma_normalize(
                self@.negative != o@.negative,
                self@.mantissa * o@.mantissa,
                self@.scale + o@.scale,
            );
        }
        if s > MAX_SCALE {
            return None;
        }
        Some(Amount { negative: n, mantissa: m, scale: s })
    }
}

} // verus!

verus! {

/// `|a|` in hundredths, rounded to the nearest, ties to the even one.
pub open spec fn cents(a: AmountView) -> nat {
    if a.scale <= 2 {
        a.mantissa * pow10((2 - a.scale) as nat)
    } else {
        let d = pow10((a.scale - 2) as nat);
        let q = a.mantissa / d;
        let r = a.mantissa % d;
        if 2 * r > d || (2 * r == d && q % 2 == 1) {
            q + 1
        } else {
            q
        }
    }
}

/// `a` written with two decimal places, like `-12.50`.
pub open spec fn render_2dp(a: AmountView) -> Seq<char> {
    let c = cents(a);
    (if a.negative {
        seq!['-']
    } else {
        seq![]
    }) + decimal(c / 100) + seq!['.', digit_char((c % 100) / 10), digit_char(c % 10)]
}

proof fn lemma_pow10_positive(n: nat)
    ensures
        pow10(n) >= 1,
    decreases n,
{
    if n > 0 {
        lemma_pow10_positive((n - 1) as nat);
    }
}

proof fn lemma_pow10_even(n: nat)
    requires
        n >= 1,
    ensures
        pow10(n) % 2 == 0,
{
    assert(pow10(n) == 10 * pow10((n - 1) as nat));
}

proof fn lemma_pow10_36()
    ensures
        forall|n: nat| n <= 36 ==> #[trigger] pow10(n) <= 1000000000000000000000000000000000000,
{
    assert forall|n: nat| n <= 36 implies #[trigger] pow10(n)
        <= 1000000000000000000000000000000000000 by {
        lemma_pow10_monotone(n, 36);
        reveal_with_fuel(pow10, 37);
    }
}

proof fn lemma_pow10_monotone(a: nat, b: nat)
    requires
        a <= b,
    ensures
        pow10(a) <= pow10(b),
    decreases b,
{
    if a < b {
        lemma_pow10_monotone(a, (b - 1) as nat);
        lemma_pow10_positive((b - 1) as nat);
    }
}

/// `10^n`, for `n` up to 36.
fn pow10_exec(n: u32) -> (r: u128)
    requires
        n <= 36,
    ensures
        r == pow10(n as nat),
{
    let mut r: u128 = 1;
    let mut i: u32 = 0;
    while i < n
        invariant
            i <= n <= 36,
            r == pow10(i as nat),
        decreases n - i,
    {
        proof {
            lemma_pow10_36();
        }
        assert(pow10(i as nat) <= 1000000000000000000000000000000000000);
        r = r * 10;
        i = i + 1;
    }
    r
}

/// Decimal writing of `n`.
pub fn decimal_chars(n: u128) -> (r: Vec<char>)
    ensures
        r@ == decimal(n as nat),
{
    let mut acc: Vec<char> = Vec::new();
    let mut k = n;
    while k >= 10
        invariant
            decimal(k as nat) + acc@ == decimal(n as nat),
        decreases k,
    {
        let d = (k % 10) as u8;
        acc.insert(0, digit_to_char(d));
        assert(decimal(k as nat) == decimal((k / 10) as nat).push(digit_char((k % 10) as nat)));
        k = k / 10;
    }
    acc.insert(0, digit_to_char(k as u8));
    assert(decimal(n as nat) =~= acc@);
    acc
}

impl Amount {
    /// The amount with two decimal places, like `-12.50`, rounded to the
    /// nearest hundredth, ties to the even one.
    pub fn render_chars(&self) -> (r: Vec<char>)
        ensures
            r@ == render_2dp(self@),
    {
        proof {
            use_type_invariant(self);
        }
        let m = self.mantissa;
        let s = self.scale;
        let c = Ghost(cents(self@));
        assert(pow10(0) == 1 && pow10(1) == 10 && pow10(2) == 100) by {
            reveal_with_fuel(pow10, 3);
        }
        let (ip, fr): (u128, u128) = if s == 0 {
            proof {
                vstd::arithmetic::div_mod::lemma_fundamental_div_mod_converse(
                    c@ as int,
                    100,
                    m as int,
                    0,
                );
            }
            assert(m == c@ / 100 && 0 == c@ % 100);
            (m, 0)
        } else if s == 1 {
            proof {
                vstd::arithmetic::div_mod::lemma_fundamental_div_mod(m as int, 10);
                let (mi, qi, ri) = (m as int, (m / 10) as int, (m % 10) as int);
                assert(mi * 10 == qi * 100 + ri * 10) by (nonlinear_arith)
                    requires
                        mi == 10 * qi + ri,
                ;
                vstd::arithmetic::div_mod::lemma_fundamental_div_mod_converse(
                    c@ as int,
                    100,
                    (m / 10) as int,
                    ((m % 10) * 10) as int,
                );
            }
            assert(m / 10 == c@ / 100 && (m % 10) * 10 == c@ % 100);
            (m / 10, (m % 10) * 10)
        } else if s == 2 {
            assert(self@.scale == 2);
            assert(c@ == self@.mantissa * pow10(0));
            assert(c@ == m);
            (m / 100, m % 100)
        } else {
            proof {
                lemma_pow10_positive((s - 2) as nat);
                lemma_pow10_even((s - 2) as nat);
                lemma_pow10_monotone(1, (s - 2) as nat);
            }
            let d = pow10_exec(s - 2);
            let q = m / d;
            let r = m % d;
            assert(q <= m / 10) by {
                vstd::arithmetic::div_mod::lemma_div_is_ordered_by_denominator(m as int, 10, d as int);
            }
            let c2: u128 = if r > d / 2 || (r == d / 2 && q % 2 == 1) {
                q + 1
            } else {
                q
            };
            assert(c2 == c@);
            (c2 / 100, c2 % 100)
        };
        assert(ip == c@ / 100 && fr == c@ % 100);
        assert(fr % 10 == c@ % 10) by {
            vstd::arithmetic::div_mod::lemma_mod_mod(c@ as int, 10, 10);
        }
        let mut out: Vec<char> = Vec::new();
        if self.negative {
            out.push('-');
        }
        let mut digits = decimal_chars(ip);
        out.append(&mut digits);
        out.push('.');
        out.push(digit_to_char((fr / 10) as u8));
        out.push(digit_to_char((fr % 10) as u8));
        assert(out@ =~= render_2dp(self@));
        out
    }
}

} // verus!
