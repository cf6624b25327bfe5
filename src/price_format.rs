//! Price formats, like "1,000.00" or "1 000,00": which characters separate
//! thousands and which one separates the decimals, and the scan of a text for
//! the numbers written in such a format.

use vstd::prelude::*;

use crate::amount::{normalize, pow10, Amount, AmountView, MAX_SCALE};

verus! {

/// An ASCII decimal digit.
pub open spec fn is_digit(c: char) -> bool {
    '0' <= c && c <= '9'
}

/// Value of the digit `c`.
pub open spec fn digit_value(c: char) -> nat {
    ((c as u32) - 48) as nat
}

/// Value of a sequence of digits, read in base ten.
pub open spec fn digits_value(s: Seq<char>) -> nat
    decreases s.len(),
{
    if s.len() == 0 {
        0
    } else {
        digits_value(s.drop_last()) * 10 + digit_value(s.last())
    }
}

/// The digits among `t[a..b]`, in order: what is left once the separators
/// are stripped.
pub open spec fn digits_in(t: Seq<char>, a: int, b: int) -> Seq<char>
    decreases b - a,
{
    if b <= a {
        seq![]
    } else if is_digit(t[b - 1]) {
        digits_in(t, a, b - 1).push(t[b - 1])
    } else {
        digits_in(t, a, b - 1)
    }
}

/// Length of the longest run of digits and thousand separators `ts` that
/// starts at `p` in `t`.
pub open spec fn run_len(t: Seq<char>, ts: Seq<char>, p: int) -> nat
    decreases t.len() - p,
{
    if 0 <= p < t.len() && (is_digit(t[p]) || ts.contains(t[p])) {
        1 + run_len(t, ts, p + 1)
    } else {
        0
    }
}

/// Length of the longest run of decimal separators `ds` that starts at `p`
/// in `t`.
pub open spec fn sep_len(t: Seq<char>, ds: Seq<char>, p: int) -> nat
    decreases t.len() - p,
{
    if 0 <= p < t.len() && ds.contains(t[p]) {
        1 + sep_len(t, ds, p + 1)
    } else {
        0
    }
}

} // verus!

verus! {

/// Separators of a price format.
pub struct PriceFormatView {
    pub thousand_separators: Seq<char>,
    pub decimal_separators: Seq<char>,
}

/// No separator is a digit, and no thousand separator is a minus sign.
pub open spec fn valid_separators(ts: Seq<char>, ds: Seq<char>) -> bool {
    &&& forall|i: int| 0 <= i < ts.len() ==> !is_digit(#[trigger] ts[i]) && ts[i] != '-'
    &&& forall|i: int| 0 <= i < ds.len() ==> !is_digit(#[trigger] ds[i])
}

/// No character separates both thousands and decimals.
pub open spec fn disjoint_separators(ts: Seq<char>, ds: Seq<char>) -> bool {
    forall|i: int, j: int| 0 <= i < ts.len() && 0 <= j < ds.len() ==> ts[i] != ds[j]
}

impl PriceFormatView {
    pub open spec fn wf(self) -> bool {
        valid_separators(self.thousand_separators, self.decimal_separators) && disjoint_separators(
            self.thousand_separators,
            self.decimal_separators,
        )
    }
}

/// Length of the sign of a number that starts at `p` in `t`: a minus sign,
/// possibly followed by one thousand separator, before the first digit.
/// `None` when no number starts at `p`.
pub open spec fn sign_len(t: Seq<char>, ts: Seq<char>, p: int) -> Option<int> {
    if 0 <= p && p + 1 < t.len() && t[p] == '-' && is_digit(t[p + 1]) {
        Some(1)
    } else if 0 <= p && p + 2 < t.len() && t[p] == '-' && ts.contains(t[p + 1]) && is_digit(
        t[p + 2],
    ) {
        Some(2)
    } else if 0 <= p < t.len() && is_digit(t[p]) {
        Some(0)
    } else {
        None
    }
}

/// Where the pieces of a number written from `start` lie: its integer part
/// is `t[int_start..int_end]`; its fractional part, if any, is
/// `t[frac_start..end]`; the number ends at `end`.
pub struct NumberLayout {
    pub negative: bool,
    pub int_start: int,
    pub int_end: int,
    pub frac_start: int,
    pub end: int,
}

/// The layout of the number that starts at `p`, when `sign_len` says that one
/// does: the longest run of digits and thousand separators after the sign,
/// then, if decimal separators follow and a digit after them, the longest
/// such run from that digit.
pub open spec fn layout_at(f: PriceFormatView, t: Seq<char>, p: int, sl: int) -> NumberLayout {
    let ts = f.thousand_separators;
    let int_start = p + sl;
    let int_end = int_start + 1 + run_len(t, ts, int_start + 1);
    let frac_start = int_end + sep_len(t, f.decimal_separators, int_end);
    if frac_start < t.len() && is_digit(t[frac_start]) {
        NumberLayout {
            negative: sl > 0,
            int_start,
            int_end,
            frac_start,
            end: frac_start + 1 + run_len(t, ts, frac_start + 1),
        }
    } else {
        NumberLayout { negative: sl > 0, int_start, int_end, frac_start: int_end, end: int_end }
    }
}

/// The amount written with sign `negative`, integer digits `whole` and
/// fractional digits `frac`, when its well-formed writing fits.
pub open spec fn amount_of(negative: bool, whole: Seq<char>, frac: Seq<char>) -> Option<AmountView> {
    let a = normalize(negative, digits_value(whole + frac), frac.len());
    if a.mantissa <= u128::MAX && a.scale <= MAX_SCALE {
        Some(a)
    } else {
        None
    }
}

/// The amount that a layout writes.
pub open spec fn layout_amount(t: Seq<char>, l: NumberLayout) -> Option<AmountView> {
    amount_of(l.negative, digits_in(t, l.int_start, l.int_end), digits_in(t, l.frac_start, l.end))
}

/// A number found in a text: its span `[start, end)` in characters, and its
/// value.
pub struct PriceFormatMatchView {
    pub start: int,
    pub end: int,
    pub price: AmountView,
}

/// The numbers of `t` from position `p` on, leftmost first: each number is
/// the one that starts at the first position where one can start, and the
/// scan goes on after it. A number whose value does not fit is skipped.
pub open spec fn scan(f: PriceFormatView, t: Seq<char>, p: int) -> Seq<PriceFormatMatchView>
    decreases t.len() - p,
    via scan_decreases
{
    if p < 0 || p >= t.len() {
        seq![]
    } else if let Some(sl) = sign_len(t, f.thousand_separators, p) {
        let l = layout_at(f, t, p, sl);
        let rest = scan(f, t, l.end);
        if let Some(a) = layout_amount(t, l) {
            seq![PriceFormatMatchView { start: p, end: l.end, price: a }] + rest
        } else {
            rest
        }
    } else {
        scan(f, t, p + 1)
    }
}

proof fn lemma_run_len_bound(t: Seq<char>, ts: Seq<char>, p: int)
    requires
        0 <= p <= t.len(),
    ensures
        p + run_len(t, ts, p) <= t.len(),
    decreases t.len() - p,
{
    if p < t.len() {
        lemma_run_len_bound(t, ts, p + 1);
    }
}

proof fn lemma_sep_len_bound(t: Seq<char>, ds: Seq<char>, p: int)
    requires
        0 <= p <= t.len(),
    ensures
        p + sep_len(t, ds, p) <= t.len(),
    decreases t.len() - p,
{
    if p < t.len() {
        lemma_sep_len_bound(t, ds, p + 1);
    }
}

/// A number that starts at `p` lies within the text and is not empty; its
/// pieces come in order.
proof fn lemma_layout_bounds(f: PriceFormatView, t: Seq<char>, p: int)
    requires
        sign_len(t, f.thousand_separators, p) is Some,
    ensures
        ({
            let l = layout_at(f, t, p, sign_len(t, f.thousand_separators, p)->0);
            &&& 0 <= p <= l.int_start < l.int_end <= l.frac_start <= l.end <= t.len()
            &&& p < l.end
            &&& is_digit(t[l.int_start])
        }),
{
    let sl = sign_len(t, f.thousand_separators, p)->0;
    let l = layout_at(f, t, p, sl);
    lemma_run_len_bound(t, f.thousand_separators, p + sl + 1);
    lemma_sep_len_bound(t, f.decimal_separators, l.int_end);
    if l.frac_start < l.end {
        lemma_run_len_bound(t, f.thousand_separators, l.frac_start + 1);
    }
}

#[via_fn]
proof fn scan_decreases(f: PriceFormatView, t: Seq<char>, p: int) {
    if 0 <= p < t.len() {
        if sign_len(t, f.thousand_separators, p) is Some {
            lemma_layout_bounds(f, t, p);
        }
    }
}

} // verus!

verus! {

proof fn lemma_digits_value_append(x: Seq<char>, y: Seq<char>)
    ensures
        digits_value(x + y) == digits_value(x) * pow10(y.len()) + digits_value(y),
    decreases y.len(),
{
    if y.len() == 0 {
        assert(x + y =~= x);
        assert(pow10(0) == 1);
        assert(digits_value(x) * 1 == digits_value(x));
    } else {
        let y1 = y.drop_last();
        lemma_digits_value_append(x, y1);
        assert((x + y).drop_last() =~= x + y1);
        assert((x + y).last() == y.last());
        let (a, b, p, l) = (digits_value(x), digits_value(y1), pow10(y1.len()), digit_value(y.last()));
        assert(pow10(y.len()) == 10 * p);
        assert((a * p + b) * 10 + l == a * (10 * p) + (b * 10 + l)) by (nonlinear_arith);
        assert(digits_value(x + y) == digits_value(x + y1) * 10 + l);
        assert(digits_value(y) == b * 10 + l);
    }
}

proof fn lemma_digits_value_prefix(x: Seq<char>, y: Seq<char>)
    ensures
        digits_value(x) <= digits_value(x + y),
{
    lemma_digits_value_append(x, y);
    lemma_pow10_positive(y.len());
    let (a, p) = (digits_value(x), pow10(y.len()));
    assert(a <= a * p) by (nonlinear_arith)
        requires
            p >= 1,
    ;
}

proof fn lemma_pow10_positive(n: nat)
    ensures
        pow10(n) >= 1,
    decreases n,
{
    if n > 0 {
        lemma_pow10_positive((n - 1) as nat);
    }
}

proof fn lemma_zeros_value(z: Seq<char>)
    requires
        forall|i: int| 0 <= i < z.len() ==> z[i] == '0',
    ensures
        digits_value(z) == 0,
    decreases z.len(),
{
    if z.len() > 0 {
        lemma_zeros_value(z.drop_last());
    }
}

proof fn lemma_digits_in_split(t: Seq<char>, a: int, b: int, c: int)
    requires
        a <= b <= c,
    ensures
        digits_in(t, a, b) + digits_in(t, b, c) == digits_in(t, a, c),
    decreases c - b,
{
    if c == b {
        assert(digits_in(t, a, b) + digits_in(t, b, c) =~= digits_in(t, a, c));
    } else {
        lemma_digits_in_split(t, a, b, c - 1);
        if is_digit(t[c - 1]) {
            assert(digits_in(t, a, b) + digits_in(t, b, c) =~= (digits_in(t, a, b) + digits_in(
                t,
                b,
                c - 1,
            )).push(t[c - 1]));
        }
    }
}

/// Trailing zeros after the decimal point do not change the well-formed
/// writing.
proof fn lemma_normalize_zeros(negative: bool, m: nat, s: nat, k: nat)
    ensures
        normalize(negative, m * pow10(k), s + k) == normalize(negative, m, s),
    decreases k,
{
    if k == 0 {
        assert(pow10(0) == 1);
        assert(m * 1 == m);
    } else {
        let k1 = (k - 1) as nat;
        lemma_normalize_zeros(negative, m, s, k1);
        let q = m * pow10(k1);
        assert(m * pow10(k) == 10 * q) by (nonlinear_arith)
            requires
                pow10(k) == 10 * pow10(k1),
                q == m * pow10(k1),
        ;
        assert((10 * q) % 10 == 0 && (10 * q) / 10 == q) by (nonlinear_arith);
        assert(normalize(negative, m * pow10(k), s + k) == normalize(negative, q, s + k1));
    }
}

} // verus!

verus! {

/// Why separators cannot make a price format.
#[derive(Debug, Clone, Copy, PartialEq, Eq, Structural)]
pub enum PriceFormatError {
    /// A separator is a digit, or a thousand separator is a minus sign.
    InvalidSeparator(char),
    /// The character separates both thousands and decimals.
    SharedSeparator(char),
}

/// Recognizes numbers written with given thousand and decimal separators.
#[derive(Debug, Clone)]
pub struct PriceFormat {
    decimal_separators: Vec<char>,
    thousand_separators: Vec<char>,
}

impl View for PriceFormat {
    type V = PriceFormatView;

    closed spec fn view(&self) -> PriceFormatView {
        PriceFormatView {
            thousand_separators: self.thousand_separators@,
            decimal_separators: self.decimal_separators@,
        }
    }
}

/// Whether `v` holds `c`.
fn holds(v: &Vec<char>, c: char) -> (r: bool)
    ensures
        r == v@.contains(c),
{
    let mut i: usize = 0;
    while i < v.len()
        invariant
            i <= v.len(),
            forall|k: int| 0 <= k < i ==> v@[k] != c,
        decreases v.len() - i,
    {
        if v[i] == c {
            return true;
        }
        i = i + 1;
    }
    false
}

fn is_digit_char(c: char) -> (r: bool)
    ensures
        r == is_digit(c),
{
    '0' <= c && c <= '9'
}

impl PriceFormat {
    /// A price format with the given separators. No separator may be a
    /// digit, no thousand separator a minus sign, and no character may
    /// separate both thousands and decimals.
    pub fn new(thousand_separators: Vec<char>, decimal_separators: Vec<char>) -> (r: Result<
        PriceFormat,
        PriceFormatError,
    >)
        ensures
            r is Ok <==> valid_separators(thousand_separators@, decimal_separators@)
                && disjoint_separators(thousand_separators@, decimal_separators@),
            r matches Ok(f) ==> f@ == (PriceFormatView {
                thousand_separators: thousand_separators@,
                decimal_separators: decimal_separators@,
            }),
            r matches Err(PriceFormatError::InvalidSeparator(c)) ==> !valid_separators(
                thousand_separators@,
                decimal_separators@,
            ) && (thousand_separators@.contains(c) || decimal_separators@.contains(c)),
            r matches Err(PriceFormatError::SharedSeparator(c)) ==> valid_separators(
                thousand_separators@,
                decimal_separators@,
            ) && thousand_separators@.contains(c) && decimal_separators@.contains(c),
    {
        let mut i: usize = 0;
        while i < thousand_separators.len()
            invariant
                i <= thousand_separators.len(),
                forall|k: int|
                    0 <= k < i ==> !is_digit(#[trigger] thousand_separators@[k])
                        && thousand_separators@[k] != '-',
            decreases thousand_separators.len() - i,
        {
            let c = thousand_separators[i];
            if is_digit_char(c) || c == '-' {
                return Err(PriceFormatError::InvalidSeparator(c));
            }
            i = i + 1;
        }
        let mut j: usize = 0;
        while j < decimal_separators.len()
            invariant
                j <= decimal_separators.len(),
                forall|k: int| 0 <= k < j ==> !is_digit(#[trigger] decimal_separators@[k]),
            decreases decimal_separators.len() - j,
        {
            let c = decimal_separators[j];
            if is_digit_char(c) {
                return Err(PriceFormatError::InvalidSeparator(c));
            }
            j = j + 1;
        }
        let mut i: usize = 0;
        while i < thousand_separators.len()
            invariant
                i <= thousand_separators.len(),
                valid_separators(thousand_separators@, decimal_separators@),
                forall|a: int, b: int|
                    0 <= a < i && 0 <= b < decimal_separators@.len()
                        ==> thousand_separators@[a] != decimal_separators@[b],
            decreases thousand_separators.len() - i,
        {
            let c = thousand_separators[i];
            if holds(&decimal_separators, c) {
                return Err(PriceFormatError::SharedSeparator(c));
            }
            i = i + 1;
        }
        Ok(PriceFormat { decimal_separators, thousand_separators })
    }

    /// Separators of thousands.
    pub fn thousand_separators(&self) -> (r: &Vec<char>)
        ensures
            r@ == self@.thousand_separators,
    {
        &self.thousand_separators
    }

    /// Separators of decimals.
    pub fn decimal_separators(&self) -> (r: &Vec<char>)
        ensures
            r@ == self@.decimal_separators,
    {
        &self.decimal_separators
    }

    /// Common format, which should match most: spaces between thousands, a
    /// comma or a dot before decimals.
    pub fn common() -> (r: PriceFormat)
        ensures
            r@ == (PriceFormatView { thousand_separators: seq![' '], decimal_separators: seq![',', '.'] }),
            r@.wf(),
    {
        let r = PriceFormat { decimal_separators: vec![',', '.'], thousand_separators: vec![' '] };
        assert(r@.thousand_separators =~= seq![' ']);
        assert(r@.decimal_separators =~= seq![',', '.']);
        r
    }

    /// French format: spaces between thousands, a comma or a dot before
    /// decimals.
    pub fn fr() -> (r: PriceFormat)
        ensures
            r@ == (PriceFormatView { thousand_separators: seq![' '], decimal_separators: seq![',', '.'] }),
            r@.wf(),
    {
        let r = PriceFormat { decimal_separators: vec![',', '.'], thousand_separators: vec![' '] };
        assert(r@.thousand_separators =~= seq![' ']);
        assert(r@.decimal_separators =~= seq![',', '.']);
        r
    }

    /// US format: commas or spaces between thousands, a dot before decimals.
    pub fn us() -> (r: PriceFormat)
        ensures
            r@ == (PriceFormatView { thousand_separators: seq![',', ' '], decimal_separators: seq!['.'] }),
            r@.wf(),
    {
        let r = PriceFormat { decimal_separators: vec!['.'], thousand_separators: vec![',', ' '] };
        assert(r@.thousand_separators =~= seq![',', ' ']);
        assert(r@.decimal_separators =~= seq!['.']);
        r
    }
}

} // verus!

verus! {

fn run_len_exec(t: &Vec<char>, ts: &Vec<char>, p: usize) -> (r: usize)
    requires
        p <= t.len(),
    ensures
        r == run_len(t@, ts@, p as int),
        p + r <= t.len(),
{
    let mut q = p;
    while q < t.len() && (is_digit_char(t[q]) || holds(ts, t[q]))
        invariant
            p <= q <= t.len(),
            run_len(t@, ts@, p as int) == (q - p) + run_len(t@, ts@, q as int),
        decreases t.len() - q,
    {
        q = q + 1;
    }
    q - p
}

fn sep_len_exec(t: &Vec<char>, ds: &Vec<char>, p: usize) -> (r: usize)
    requires
        p <= t.len(),
    ensures
        r == sep_len(t@, ds@, p as int),
        p + r <= t.len(),
{
    let mut q = p;
    while q < t.len() && holds(ds, t[q])
        invariant
            p <= q <= t.len(),
            sep_len(t@, ds@, p as int) == (q - p) + sep_len(t@, ds@, q as int),
        decreases t.len() - q,
    {
        q = q + 1;
    }
    q - p
}

fn sign_len_exec(t: &Vec<char>, ts: &Vec<char>, p: usize) -> (r: Option<usize>)
    requires
        p < t.len(),
    ensures
        r matches Some(n) ==> sign_len(t@, ts@, p as int) == Some(n as int),
        r is None ==> sign_len(t@, ts@, p as int) is None,
{
    let n = t.len();
    if t[p] == '-' && p + 1 < n && is_digit_char(t[p + 1]) {
        Some(1)
    } else if t[p] == '-' && n - p > 2 && holds(ts, t[p + 1]) && is_digit_char(t[p + 2]) {
        Some(2)
    } else if is_digit_char(t[p]) {
        Some(0)
    } else {
        None
    }
}

fn digit_of(c: char) -> (r: u128)
    requires
        is_digit(c),
    ensures
        r == digit_value(c),
        r < 10,
{
    ((c as u32) - 48) as u128
}

/// The amount written with sign `negative`, integer part `t[a..b]` and
/// fractional part `t[c..d]`, separators left out.
fn amount_in(t: &Vec<char>, negative: bool, a: usize, b: usize, c: usize, d: usize) -> (r: Option<
    Amount,
>)
    requires
        a <= b <= c <= d <= t.len(),
    ensures
        r matches Some(x) ==> amount_of(negative, digits_in(t@, a as int, b as int), digits_in(t@, c as int, d as int)) == Some(x@),
        r is None ==> amount_of(negative, digits_in(t@, a as int, b as int), digits_in(t@, c as int, d as int)) is None,
{
    let ghost whole = digits_in(t@, a as int, b as int);
    let ghost frac = digits_in(t@, c as int, d as int);
    // Trailing zeros of the fractional part do not count.
    let mut q = d;
    while q > c && (!is_digit_char(t[q - 1]) || t[q - 1] == '0')
        invariant
            c <= q <= d <= t.len(),
            forall|i: int| 0 <= i < digits_in(t@, q as int, d as int).len() ==> #[trigger] digits_in(t@, q as int, d as int)[i] == '0',
        decreases q,
    {
        proof {
            lemma_digits_in_split(t@, q - 1, q as int, d as int);
            let z = digits_in(t@, q as int, d as int);
            let one = digits_in(t@, q - 1, q as int);
            assert(digits_in(t@, q - 1, q - 1) =~= Seq::<char>::empty());
            assert forall|i: int| 0 <= i < (one + z).len() implies #[trigger] (one + z)[i] == '0' by {
                if i >= one.len() {
                    assert((one + z)[i] == z[i - one.len()]);
                }
            }
        }
        q = q - 1;
    }
    let ghost kept = digits_in(t@, c as int, q as int);
    let ghost zeros = digits_in(t@, q as int, d as int);
    proof {
        lemma_digits_in_split(t@, c as int, q as int, d as int);
        assert(frac == kept + zeros);
        if q > c {
            assert(kept == digits_in(t@, c as int, q - 1).push(t@[q - 1]));
        } else {
            assert(kept =~= Seq::<char>::empty());
        }
    }
    let mut m: u128 = 0;
    let mut i = a;
    while i < b
        invariant
            a <= i <= b <= c <= q <= d <= t.len(),
            m == digits_value(digits_in(t@, a as int, i as int)),
            whole == digits_in(t@, a as int, b as int),
            kept == digits_in(t@, c as int, q as int),
            zeros == digits_in(t@, q as int, d as int),
            frac == kept + zeros,
            frac == digits_in(t@, c as int, d as int),
            forall|k: int| 0 <= k < zeros.len() ==> zeros[k] == '0',
            kept.len() > 0 ==> is_digit(kept.last()) && kept.last() != '0',
        decreases b - i,
    {
        if is_digit_char(t[i]) {
            let v = digit_of(t[i]);
            proof {
                let pre = digits_in(t@, a as int, i as int);
                assert(pre.push(t@[i as int]).drop_last() =~= pre);
                lemma_digits_in_split(t@, a as int, i + 1, b as int);
                lemma_digits_value_prefix(digits_in(t@, a as int, i + 1), digits_in(t@, i + 1, b as int));
                lemma_digits_value_prefix(whole, kept);
                assert(digits_value(digits_in(t@, a as int, i + 1)) == m * 10 + v);
            }
            if m > (u128::MAX - v) / 10 {
                proof {
                    assert(m * 10 + v > u128::MAX) by (nonlinear_arith)
                        requires m > (u128::MAX - v) / 10, v < 10;
                    lemma_normalize_kept(negative, whole, kept, zeros);
                    assert(digits_value(whole + kept) > u128::MAX);
                    assert(amount_of(negative, whole, kept) is None);
                    assert(amount_of(negative, whole, kept + zeros) is None);
                    assert(amount_of(negative, whole, frac) is None);
                }
                return None;
            }
            m = m * 10 + v;
        }
        i = i + 1;
    }
    let mut scale: usize = 0;
    let mut j = c;
    while j < q
        invariant
            a <= b <= c <= j <= q <= d <= t.len(),
            m == digits_value(whole + digits_in(t@, c as int, j as int)),
            scale == digits_in(t@, c as int, j as int).len(),
            whole == digits_in(t@, a as int, b as int),
            kept == digits_in(t@, c as int, q as int),
            zeros == digits_in(t@, q as int, d as int),
            frac == kept + zeros,
            frac == digits_in(t@, c as int, d as int),
            forall|k: int| 0 <= k < zeros.len() ==> zeros[k] == '0',
            kept.len() > 0 ==> is_digit(kept.last()) && kept.last() != '0',
        decreases q - j,
    {
        if is_digit_char(t[j]) {
            let v = digit_of(t[j]);
            proof {
                let pre = whole + digits_in(t@, c as int, j as int);
                assert(whole + digits_in(t@, c as int, j + 1) =~= pre.push(t@[j as int]));
                assert(pre.push(t@[j as int]).drop_last() =~= pre);
                lemma_digits_in_split(t@, c as int, j + 1, q as int);
                lemma_digits_value_prefix(whole + digits_in(t@, c as int, j + 1), digits_in(t@, j + 1, q as int));
                assert(whole + digits_in(t@, c as int, j + 1) + digits_in(t@, j + 1, q as int) =~= whole + kept);
            }
            if m > (u128::MAX - v) / 10 {
                proof {
                    assert(m * 10 + v > u128::MAX) by (nonlinear_arith)
                        requires m > (u128::MAX - v) / 10, v < 10;
                    lemma_normalize_kept(negative, whole, kept, zeros);
                    assert(digits_value(whole + digits_in(t@, c as int, j + 1)) == m * 10 + v);
                    assert(digits_value(whole + kept) > u128::MAX);
                    assert(amount_of(negative, whole, kept) is None);
                    assert(amount_of(negative, whole, kept + zeros) is None);
                    assert(amount_of(negative, whole, frac) is None);
                }
                return None;
            }
            m = m * 10 + v;
            proof {
                lemma_digits_in_len(t@, c as int, j as int);
            }
            scale = scale + 1;
        }
        j = j + 1;
    }
    proof {
        lemma_normalize_kept(negative, whole, kept, zeros);
        assert(whole + digits_in(t@, c as int, j as int) == whole + kept);
    }
    if scale > MAX_SCALE as usize {
        return None;
    }
    Some(Amount::from_parts(negative, m, scale as u32))
}

proof fn lemma_digits_in_len(t: Seq<char>, a: int, b: int)
    requires
        a <= b,
    ensures
        digits_in(t, a, b).len() <= b - a,
    decreases b - a,
{
    if b > a {
        lemma_digits_in_len(t, a, b - 1);
    }
}

/// With `kept` the fractional digits up to the last non-zero one, the
/// well-formed writing of a number is read off `whole` and `kept`.
proof fn lemma_normalize_kept(negative: bool, whole: Seq<char>, kept: Seq<char>, zeros: Seq<char>)
    requires
        forall|i: int| 0 <= i < zeros.len() ==> zeros[i] == '0',
        kept.len() > 0 ==> is_digit(kept.last()) && kept.last() != '0',
    ensures
        amount_of(negative, whole, kept + zeros) == amount_of(negative, whole, kept),
        normalize(negative, digits_value(whole + kept), kept.len()) == (AmountView {
            negative: negative && digits_value(whole + kept) != 0,
            mantissa: digits_value(whole + kept),
            scale: kept.len(),
        }),
{
    let n = digits_value(whole + kept);
    lemma_zeros_value(zeros);
    assert(whole + (kept + zeros) =~= (whole + kept) + zeros);
    lemma_digits_value_append(whole + kept, zeros);
    assert(digits_value(whole + kept + zeros) == n * pow10(zeros.len()));
    lemma_normalize_zeros(negative, n, kept.len(), zeros.len());
    if kept.len() > 0 {
        assert((whole + kept).last() == kept.last());
        assert(n == digits_value((whole + kept).drop_last()) * 10 + digit_value(kept.last()));
        assert(n % 10 == digit_value(kept.last())) by (nonlinear_arith)
            requires
                n == digits_value((whole + kept).drop_last()) * 10 + digit_value(kept.last()),
                digit_value(kept.last()) < 10,
        ;
    }
}

} // verus!

verus! {

/// A number found in a text by a price format.
#[derive(Debug, Clone, Copy, PartialEq, Eq, Structural)]
pub struct PriceFormatMatch {
    start: usize,
    end: usize,
    price: Amount,
}

impl View for PriceFormatMatch {
    type V = PriceFormatMatchView;

    closed spec fn view(&self) -> PriceFormatMatchView {
        PriceFormatMatchView { start: self.start as int, end: self.end as int, price: self.price@ }
    }
}

/// Views of a list of matches.
pub open spec fn matches_view(v: Seq<PriceFormatMatch>) -> Seq<PriceFormatMatchView> {
    v.map_values(|m: PriceFormatMatch| m@)
}

impl PriceFormatMatch {
    /// Start of the number, in characters.
    pub fn start(&self) -> (r: usize)
        ensures
            r == self@.start,
    {
        self.start
    }

    /// End of the number, in characters.
    pub fn end(&self) -> (r: usize)
        ensures
            r == self@.end,
    {
        self.end
    }

    /// Value of the number.
    pub fn price(&self) -> (r: Amount)
        ensures
            r@ == self@.price,
    {
        self.price
    }
}

impl PriceFormat {
    /// The numbers written in this format in the characters `t`.
    pub fn captures_in(&self, t: &Vec<char>) -> (r: Vec<PriceFormatMatch>)
        ensures
            matches_view(r@) == scan(self@, t@, 0),
    {
        let mut r: Vec<PriceFormatMatch> = Vec::new();
        let mut p: usize = 0;
        while p < t.len()
            invariant
                p <= t.len(),
                scan(self@, t@, 0) == matches_view(r@) + scan(self@, t@, p as int),
            decreases t.len() - p,
        {
            let ghost before = r@;
            match sign_len_exec(t, &self.thousand_separators, p) {
                Some(sl) => {
                    let ghost l = layout_at(self@, t@, p as int, sl as int);
                    proof {
                        lemma_layout_bounds(self@, t@, p as int);
                    }
                    let int_start = p + sl;
                    let int_end = int_start + 1 + run_len_exec(t, &self.thousand_separators, int_start + 1);
                    let sep_end = int_end + sep_len_exec(t, &self.decimal_separators, int_end);
                    let (frac_start, end) = if sep_end < t.len() && is_digit_char(t[sep_end]) {
                        (sep_end, sep_end + 1 + run_len_exec(t, &self.thousand_separators, sep_end + 1))
                    } else {
                        (int_end, int_end)
                    };
                    assert(int_start == l.int_start && int_end == l.int_end);
                    assert(frac_start == l.frac_start && end == l.end);
                    let amount = amount_in(t, sl > 0, int_start, int_end, frac_start, end);
                    match amount {
                        Some(a) => {
                            let m = PriceFormatMatch { start: p, end, price: a };
                            r.push(m);
                            assert(matches_view(r@) =~= matches_view(before) + seq![m@]);
                        },
                        None => {},
                    }
                    p = end;
                },
                None => {
                    p = p + 1;
                },
            }
        }
        r
    }

    /// The numbers written in this format in `txt`, with their spans in
    /// characters.
    pub fn captures_iter(&self, txt: &str) -> (r: Vec<PriceFormatMatch>)
        ensures
            matches_view(r@) == scan(self@, txt@, 0),
    {
        let t = crate::text::chars_of(txt);
        self.captures_in(&t)
    }
}

} // verus!

verus! {

/// The digits of `s`, separators left out.
pub open spec fn digits_of(s: Seq<char>) -> Seq<char> {
    digits_in(s, 0, s.len() as int)
}

/// A digit, or a character of `ts`.
pub open spec fn in_number_run(c: char, ts: Seq<char>) -> bool {
    is_digit(c) || ts.contains(c)
}

/// A digit followed by digits and thousand separators: how an integer part,
/// or a fractional part, is written.
pub open spec fn is_digit_run(s: Seq<char>, ts: Seq<char>) -> bool {
    &&& s.len() > 0
    &&& is_digit(s[0])
    &&& forall|i: int| 0 <= i < s.len() ==> in_number_run(#[trigger] s[i], ts)
}

proof fn lemma_run_len_exact(t: Seq<char>, ts: Seq<char>, p: int, k: int)
    requires
        0 <= p,
        0 <= k,
        p + k <= t.len(),
        forall|i: int| p <= i < p + k ==> in_number_run(#[trigger] t[i], ts),
        p + k == t.len() || !in_number_run(t[p + k], ts),
    ensures
        run_len(t, ts, p) == k,
    decreases k,
{
    if k > 0 {
        assert(in_number_run(t[p], ts));
        lemma_run_len_exact(t, ts, p + 1, k - 1);
    }
}

proof fn lemma_digits_in_sub(t: Seq<char>, a: int, b: int)
    requires
        0 <= a <= b <= t.len(),
    ensures
        digits_in(t, a, b) == digits_in(t.subrange(a, b), 0, b - a),
    decreases b - a,
{
    if b > a {
        lemma_digits_in_sub(t, a, b - 1);
        lemma_digits_in_prefix(t.subrange(a, b), b - a - 1);
        assert(t.subrange(a, b).subrange(0, b - a - 1) =~= t.subrange(a, b - 1));
    }
}

proof fn lemma_digits_in_prefix(s: Seq<char>, n: int)
    requires
        0 <= n <= s.len(),
    ensures
        digits_in(s, 0, n) == digits_in(s.subrange(0, n), 0, n),
    decreases n,
{
    if n > 0 {
        lemma_digits_in_prefix(s, n - 1);
        lemma_digits_in_prefix(s.subrange(0, n), n - 1);
        assert(s.subrange(0, n).subrange(0, n - 1) =~= s.subrange(0, n - 1));
    }
}

/// A number written from digit runs and separators of the format is read
/// back whole, with the value of its digits: a minus sign if `negative`, the
/// integer part `whole`, then, if `frac` is not empty, the decimal separator
/// `dsep` and the fractional part `frac`.
pub proof fn lemma_round_trip(
    f: PriceFormatView,
    negative: bool,
    whole: Seq<char>,
    dsep: char,
    frac: Seq<char>,
)
    requires
        f.wf(),
        is_digit_run(whole, f.thousand_separators),
        frac.len() > 0 ==> is_digit_run(frac, f.thousand_separators) && f.decimal_separators.contains(dsep),
        amount_of(negative, digits_of(whole), digits_of(frac)) is Some,
    ensures
        ({
            let sign = if negative { seq!['-'] } else { seq![] };
            let t = if frac.len() > 0 { sign + whole + seq![dsep] + frac } else { sign + whole };
            scan(f, t, 0) == seq![
                PriceFormatMatchView {
                    start: 0,
                    end: t.len() as int,
                    price: amount_of(negative, digits_of(whole), digits_of(frac))->0,
                },
            ]
        }),
{
    let ts = f.thousand_separators;
    let ds = f.decimal_separators;
    let sign: Seq<char> = if negative { seq!['-'] } else { seq![] };
    let t = if frac.len() > 0 { sign + whole + seq![dsep] + frac } else { sign + whole };
    let sl = sign.len() as int;
    let we = sl + whole.len();
    assert(t.subrange(sl, we) =~= whole);
    assert forall|i: int| sl <= i < we implies in_number_run(#[trigger] t[i], ts) by {
        assert(t[i] == whole[i - sl]);
    }
    assert(is_digit(t[sl]));
    if negative {
        assert(t[0] == '-');
        assert(sign_len(t, ts, 0) == Some(1int));
    } else {
        assert(sign_len(t, ts, 0) == Some(0int));
    }
    if frac.len() > 0 {
        assert(t[we] == dsep);
        let dsi = choose|j: int| 0 <= j < ds.len() && ds[j] == dsep;
        assert(!is_digit(dsep));
        assert forall|j: int| 0 <= j < ts.len() implies ts[j] != dsep by {
            assert(ts[j] != ds[dsi]);
        }
        assert(!in_number_run(t[we], ts));
        lemma_run_len_exact(t, ts, sl + 1, whole.len() - 1);
        let fs = we + 1;
        assert(t.subrange(fs, t.len() as int) =~= frac);
        assert forall|i: int| fs <= i < t.len() implies in_number_run(#[trigger] t[i], ts) by {
            assert(t[i] == frac[i - fs]);
        }
        assert(t[fs] == frac[0]);
        assert(!ds.contains(t[fs]));
        assert(sep_len(t, ds, fs) == 0);
        assert(sep_len(t, ds, we) == 1);
        lemma_run_len_exact(t, ts, fs + 1, t.len() - fs - 1);
        let l = layout_at(f, t, 0, sl);
        assert(l.int_start == sl && l.int_end == we && l.frac_start == fs && l.end == t.len());
        lemma_digits_in_sub(t, sl, we);
        lemma_digits_in_sub(t, fs, t.len() as int);
        assert(scan(f, t, t.len() as int) == Seq::<PriceFormatMatchView>::empty());
    } else {
        assert(t.len() == we);
        lemma_run_len_exact(t, ts, sl + 1, whole.len() - 1);
        assert(sep_len(t, ds, we) == 0);
        let l = layout_at(f, t, 0, sl);
        assert(l.int_start == sl && l.int_end == we && l.frac_start == we && l.end == t.len());
        lemma_digits_in_sub(t, sl, we);
        assert(digits_in(t, we, we) =~= Seq::<char>::empty());
        assert(digits_of(frac) =~= Seq::<char>::empty());
        assert(scan(f, t, t.len() as int) == Seq::<PriceFormatMatchView>::empty());
    }
}

} // verus!

verus! {

/// The format of a plain decimal number, like `-1234.5`: no thousand
/// separator, a dot before decimals.
pub open spec fn plain_format() -> PriceFormatView {
    PriceFormatView { thousand_separators: seq![], decimal_separators: seq!['.'] }
}

/// The amount that `t` writes as a plain decimal number, when `t` is one
/// whole number and its value fits.
pub open spec fn parse_decimal_spec(t: Seq<char>) -> Option<AmountView> {
    let ms = scan(plain_format(), t, 0);
    if ms.len() == 1 && ms[0].start == 0 && ms[0].end == t.len() {
        Some(ms[0].price)
    } else {
        None
    }
}

/// The amount written in `s` as a plain decimal number, like `-1234.5`.
pub fn parse_decimal(s: &str) -> (r: Option<Amount>)
    ensures
        r matches Some(a) ==> parse_decimal_spec(s@) == Some(a@),
        r is None ==> parse_decimal_spec(s@) is None,
{
    let f = PriceFormat { decimal_separators: vec!['.'], thousand_separators: Vec::new() };
    assert(f@.thousand_separators =~= plain_format().thousand_separators);
    assert(f@.decimal_separators =~= plain_format().decimal_separators);
    let t = crate::text::chars_of(s);
    let ms = f.captures_in(&t);
    if ms.len() == 1 && ms[0].start() == 0 && ms[0].end() == t.len() {
        Some(ms[0].price())
    } else {
        None
    }
}

} // verus!
