//! Find price tags, a currency unit next to an amount, in plain text.
//!
//! The search goes in three steps:
//! 1. find the numbers of the text, with a price format;
//! 2. find where each currency looked for is written, by its ISO codes or
//!    its symbols, and pair it with every number that ends within a window
//!    before it or starts within the window after it;
//! 3. rank these candidates, nearest first, the expected order of symbol and
//!    amount first among equally near ones.

use vstd::prelude::*;

use crate::amount::{digit_char, Amount, AmountView};
use crate::currency::{
    all_currencies, registry, strs_view, Currency, CurrencyView, Pos, PriceTag, PriceTagView,
};
use crate::price_format::{matches_view, scan, PriceFormat, PriceFormatMatchView, PriceFormatView};
use crate::text::{byte_offsets, char_index_of_byte, chars_of, find_char_index, string_of};

verus! {

/// The error of the regex crate when a pattern does not compile; it is
/// only passed on, never looked into.
#[verifier::external_type_specification]
#[verifier::external_body]
pub struct ExRegexError(regex::Error);

/// Whether the regex crate compiles `pattern`.
pub uninterp spec fn regex_accepts(pattern: Seq<char>) -> bool;

/// The byte spans of the leftmost-first, non-overlapping matches of
/// `pattern` in `text`, in order, as the regex crate finds them.
pub uninterp spec fn regex_match_spans(pattern: Seq<char>, text: Seq<char>) -> Seq<(usize, usize)>;

/// Relies on `regex::Regex::new`, which compiles `pattern` or says why it
/// cannot, and on `Regex::find_iter`, which yields the successive
/// non-overlapping matches in `text`; each is kept as its start and end
/// byte offsets.
#[verifier::external_body]
fn regex_find(pattern: &str, text: &str) -> (r: Result<Vec<(usize, usize)>, regex::Error>)
    ensures
        r is Ok <==> regex_accepts(pattern@),
        r matches Ok(v) ==> v@ == regex_match_spans(pattern@, text@),
{
    match regex::Regex::new(pattern) {
        Ok(re) => Ok(re.find_iter(text).map(|m| (m.start(), m.end())).collect()),
        Err(e) => Err(e),
    }
}

/// The hexadecimal digit `d`, in lower case.
pub open spec fn hex_digit(d: nat) -> char {
    if d < 10 {
        digit_char(d)
    } else {
        ((87 + d) as u8) as char
    }
}

/// Hexadecimal writing of `n`, in lower case, without leading zeros.
pub open spec fn hex(n: nat) -> Seq<char>
    decreases n,
{
    if n < 16 {
        seq![hex_digit(n)]
    } else {
        hex(n / 16).push(hex_digit(n % 16))
    }
}

/// The escape `\u{...}` of `c`, which a regular expression reads as `c`
/// itself.
pub open spec fn escape_char(c: char) -> Seq<char> {
    seq!['\\', 'u', '{'] + hex(c as u32 as nat) + seq!['}']
}

/// Each character of `s` escaped.
pub open spec fn escape_str(s: Seq<char>) -> Seq<char>
    decreases s.len(),
{
    if s.len() == 0 {
        seq![]
    } else {
        escape_str(s.drop_last()) + escape_char(s.last())
    }
}

/// The escaped `alts`, separated by `|`.
pub open spec fn alternatives(alts: Seq<Seq<char>>) -> Seq<char>
    decreases alts.len(),
{
    if alts.len() == 0 {
        seq![]
    } else if alts.len() == 1 {
        escape_str(alts[0])
    } else {
        alternatives(alts.drop_last()) + seq!['|'] + escape_str(alts.last())
    }
}

/// The pattern that finds currency `c` in a text: any of its ISO codes if
/// `by_iso`, any of its symbols if `by_symbol`, whatever the case of the
/// letters if `case_insensitive`.
pub open spec fn currency_pattern(c: CurrencyView, by_iso: bool, by_symbol: bool, case_insensitive: bool) -> Seq<char> {
    let alts = (if by_iso { c.isos } else { seq![] }) + (if by_symbol { c.symbols } else { seq![] });
    (if case_insensitive { seq!['(', '?', 'i', ')'] } else { seq![] }) + alternatives(alts)
}

fn hex_digit_char(d: u32) -> (r: char)
    requires
        d < 16,
    ensures
        r == hex_digit(d as nat),
{
    if d < 10 {
        crate::amount::digit_to_char(d as u8)
    } else {
        (87u8 + d as u8) as char
    }
}

fn push_escaped_char(out: &mut Vec<char>, c: char)
    ensures
        final(out)@ == old(out)@ + escape_char(c),
{
    let n = c as u32;
    let mut digits: Vec<char> = Vec::new();
    let mut k = n;
    while k >= 16
        invariant
            hex(k as nat) + digits@ == hex(n as nat),
        decreases k,
    {
        digits.insert(0, hex_digit_char(k % 16));
        assert(hex(k as nat) == hex((k / 16) as nat).push(hex_digit((k % 16) as nat)));
        k = k / 16;
    }
    digits.insert(0, hex_digit_char(k));
    assert(hex(n as nat) =~= digits@);
    let ghost before = out@;
    out.push('\\');
    out.push('u');
    out.push('{');
    out.append(&mut digits);
    out.push('}');
    assert(out@ =~= before + escape_char(c));
}

fn push_escaped_str(out: &mut Vec<char>, s: &str)
    ensures
        final(out)@ == old(out)@ + escape_str(s@),
{
    let t = chars_of(s);
    let ghost before = out@;
    let mut i: usize = 0;
    while i < t.len()
        invariant
            i <= t.len(),
            t@ == s@,
            out@ == before + escape_str(t@.take(i as int)),
        decreases t.len() - i,
    {
        assert(t@.take(i + 1).drop_last() =~= t@.take(i as int));
        push_escaped_char(out, t[i]);
        i = i + 1;
    }
    assert(t@.take(t.len() as int) =~= t@);
}

} // verus!

verus! {

fn push_all(v: &mut Vec<&'static str>, s: &'static [&'static str])
    ensures
        strs_view(final(v)@) == strs_view(old(v)@) + strs_view(s@),
{
    let ghost before = v@;
    let mut i: usize = 0;
    while i < s.len()
        invariant
            i <= s@.len(),
            v@ == before + s@.take(i as int),
        decreases s.len() - i,
    {
        v.push(s[i]);
        assert(v@ =~= before + s@.take(i + 1));
        i = i + 1;
    }
    assert(s@.take(s@.len() as int) =~= s@);
    assert(strs_view(v@) =~= strs_view(before) + strs_view(s@));
}

/// The pattern that finds `c`, as [`currency_pattern`] says.
fn currency_pattern_exec(c: &Currency, by_iso: bool, by_symbol: bool, case_insensitive: bool) -> (r: String)
    ensures
        r@ == currency_pattern(c@, by_iso, by_symbol, case_insensitive),
{
    let mut alts: Vec<&'static str> = Vec::new();
    if by_iso {
        push_all(&mut alts, c.isos());
    }
    let ghost after_isos = strs_view(alts@);
    if by_symbol {
        push_all(&mut alts, c.symbols());
    }
    let ghost all = strs_view(alts@);
    assert(all =~= (if by_iso { c@.isos } else { seq![] }) + (if by_symbol { c@.symbols } else { seq![] }));
    let mut out: Vec<char> = Vec::new();
    if case_insensitive {
        out.push('(');
        out.push('?');
        out.push('i');
        out.push(')');
    }
    let ghost prefix = out@;
    let mut i: usize = 0;
    while i < alts.len()
        invariant
            i <= alts@.len(),
            all == strs_view(alts@),
            out@ == prefix + alternatives(all.take(i as int)),
        decreases alts.len() - i,
    {
        assert(all.take(i + 1).drop_last() =~= all.take(i as int));
        assert(all.take(i + 1).last() == alts@[i as int]@);
        if i > 0 {
            out.push('|');
        } else {
            assert(all.take(1) =~= seq![all[0]]);
        }
        push_escaped_str(&mut out, alts[i]);
        assert(out@ =~= prefix + alternatives(all.take(i + 1)));
        i = i + 1;
    }
    assert(all.take(all.len() as int) =~= all);
    assert(out@ =~= currency_pattern(c@, by_iso, by_symbol, case_insensitive));
    string_of(&out)
}

} // verus!

verus! {

/// A candidate pairing of an amount with a currency, with what ranks it.
pub struct PriceTagMatchView {
    pub amount: AmountView,
    pub currency: CurrencyView,
    pub distance: nat,
    pub correct_symbol_order: bool,
}

/// Rank of a candidate, best first: nearer is better, and at equal
/// distance the expected order of symbol and amount is better.
pub open spec fn rank(m: PriceTagMatchView) -> nat {
    2 * m.distance + if m.correct_symbol_order {
        0nat
    } else {
        1nat
    }
}

/// How one candidate compares with another: by distance, then by order of
/// symbol and amount; two candidates that tie on both are equal only when
/// they are the same candidate, and are not comparable otherwise.
pub open spec fn compare(a: PriceTagMatchView, b: PriceTagMatchView) -> Option<core::cmp::Ordering> {
    if a.distance < b.distance {
        Some(core::cmp::Ordering::Less)
    } else if a.distance > b.distance {
        Some(core::cmp::Ordering::Greater)
    } else if a.correct_symbol_order && !b.correct_symbol_order {
        Some(core::cmp::Ordering::Less)
    } else if !a.correct_symbol_order && b.correct_symbol_order {
        Some(core::cmp::Ordering::Greater)
    } else if a == b {
        Some(core::cmp::Ordering::Equal)
    } else {
        None
    }
}

/// Information about a candidate price tag: the amount, the currency, the
/// distance in characters between them and whether they come in the order
/// the currency usually has.
#[derive(Debug, Clone, Copy)]
pub struct PriceTagMatch {
    amount: Amount,
    currency: Currency,
    distance: usize,
    correct_symbol_order: bool,
}

impl View for PriceTagMatch {
    type V = PriceTagMatchView;

    closed spec fn view(&self) -> PriceTagMatchView {
        PriceTagMatchView {
            amount: self.amount@,
            currency: self.currency@,
            distance: self.distance as nat,
            correct_symbol_order: self.correct_symbol_order,
        }
    }
}

impl PriceTagMatch {
    pub fn new(amount: Amount, currency: &Currency, distance: usize, correct_symbol_order: bool) -> (r: PriceTagMatch)
        ensures
            r@ == (PriceTagMatchView {
                amount: amount@,
                currency: currency@,
                distance: distance as nat,
                correct_symbol_order,
            }),
    {
        PriceTagMatch { amount, currency: *currency, distance, correct_symbol_order }
    }

    /// The price tag of the candidate.
    pub fn price_tag(&self) -> (r: PriceTag)
        ensures
            r@ == tag_of(self@),
    {
        PriceTag::new(&self.currency, self.amount)
    }

    /// Distance in characters between amount and currency.
    pub fn distance(&self) -> (r: usize)
        ensures
            r == self@.distance,
    {
        self.distance
    }

    /// Whether amount and currency come in the order the currency usually
    /// has.
    pub fn correct_symbol_order(&self) -> (r: bool)
        ensures
            r == self@.correct_symbol_order,
    {
        self.correct_symbol_order
    }
}

/// The price tag of a candidate.
pub open spec fn tag_of(m: PriceTagMatchView) -> PriceTagView {
    PriceTagView { currency: m.currency, amount: m.amount }
}

impl PartialEq for PriceTagMatch {
    fn eq(&self, other: &PriceTagMatch) -> (r: bool) {
        self.amount.same_as(&other.amount) && self.currency == other.currency && self.distance
            == other.distance && self.correct_symbol_order == other.correct_symbol_order
    }
}

impl vstd::std_specs::cmp::PartialEqSpecImpl for PriceTagMatch {
    open spec fn obeys_eq_spec() -> bool {
        true
    }

    open spec fn eq_spec(&self, other: &PriceTagMatch) -> bool {
        self@ == other@
    }
}

impl PartialOrd for PriceTagMatch {
    fn partial_cmp(&self, other: &PriceTagMatch) -> (r: Option<core::cmp::Ordering>) {
        if self.distance < other.distance {
            Some(core::cmp::Ordering::Less)
        } else if self.distance > other.distance {
            Some(core::cmp::Ordering::Greater)
        } else if self.correct_symbol_order && !other.correct_symbol_order {
            Some(core::cmp::Ordering::Less)
        } else if !self.correct_symbol_order && other.correct_symbol_order {
            Some(core::cmp::Ordering::Greater)
        } else if self == other {
            Some(core::cmp::Ordering::Equal)
        } else {
            None
        }
    }
}

impl vstd::std_specs::cmp::PartialOrdSpecImpl for PriceTagMatch {
    open spec fn obeys_partial_cmp_spec() -> bool {
        true
    }

    open spec fn partial_cmp_spec(&self, other: &PriceTagMatch) -> Option<core::cmp::Ordering> {
        compare(self@, other@)
    }
}

} // verus!

verus! {

/// Views of a list of candidates.
pub open spec fn candidates_view(v: Seq<PriceTagMatch>) -> Seq<PriceTagMatchView> {
    v.map_values(|m: PriceTagMatch| m@)
}

/// The candidate that pairs number `m` with currency `c`.
pub open spec fn candidate(m: PriceFormatMatchView, c: CurrencyView, distance: int, correct: bool) -> PriceTagMatchView {
    PriceTagMatchView { amount: m.price, currency: c, distance: distance as nat, correct_symbol_order: correct }
}

/// Candidates for a currency written from character `s` on: the numbers
/// that end at most `w` characters before `s`, in order; the order is the
/// expected one when the currency's symbol usually comes before amounts.
pub open spec fn backward(nums: Seq<PriceFormatMatchView>, c: CurrencyView, w: int, s: int) -> Seq<PriceTagMatchView>
    decreases nums.len(),
{
    if nums.len() == 0 {
        seq![]
    } else {
        let rest = backward(nums.drop_last(), c, w, s);
        let m = nums.last();
        if s - w <= m.end <= s {
            rest.push(candidate(m, c, s - m.end, c.pos == Pos::Before))
        } else {
            rest
        }
    }
}

/// Candidates for a currency written up to character `e`: the numbers that
/// start at most `w` characters after `e`, in order; the order is the
/// expected one when the currency's symbol usually comes after amounts.
pub open spec fn forward(nums: Seq<PriceFormatMatchView>, c: CurrencyView, w: int, e: int) -> Seq<PriceTagMatchView>
    decreases nums.len(),
{
    if nums.len() == 0 {
        seq![]
    } else {
        let rest = forward(nums.drop_last(), c, w, e);
        let m = nums.last();
        if e <= m.start <= e + w {
            rest.push(candidate(m, c, m.start - e, c.pos == Pos::After))
        } else {
            rest
        }
    }
}

/// Candidates for each occurrence, in order, of currency `c` at the
/// character spans `spans`.
pub open spec fn currency_candidates(
    nums: Seq<PriceFormatMatchView>,
    c: CurrencyView,
    w: int,
    spans: Seq<(usize, usize)>,
) -> Seq<PriceTagMatchView>
    decreases spans.len(),
{
    if spans.len() == 0 {
        seq![]
    } else {
        let sp = spans.last();
        currency_candidates(nums, c, w, spans.drop_last()) + backward(nums, c, w, sp.0 as int) + forward(
            nums,
            c,
            w,
            sp.1 as int,
        )
    }
}

/// Candidates for every currency of `cs`, in order, `tokens[i]` being the
/// character spans where `cs[i]` occurs.
pub open spec fn all_candidates(
    nums: Seq<PriceFormatMatchView>,
    cs: Seq<CurrencyView>,
    w: int,
    tokens: Seq<Seq<(usize, usize)>>,
) -> Seq<PriceTagMatchView>
    decreases cs.len(),
{
    if cs.len() == 0 || tokens.len() == 0 {
        seq![]
    } else {
        all_candidates(nums, cs.drop_last(), w, tokens.drop_last()) + currency_candidates(
            nums,
            cs.last(),
            w,
            tokens.last(),
        )
    }
}

/// The byte spans `spans` of text `t` as character spans; a span whose ends
/// do not both fall between characters is left out.
pub open spec fn char_spans(t: Seq<char>, spans: Seq<(usize, usize)>) -> Seq<(usize, usize)>
    decreases spans.len(),
{
    if spans.len() == 0 {
        seq![]
    } else {
        let rest = char_spans(t, spans.drop_last());
        let sp = spans.last();
        match (char_index_of_byte(t, sp.0 as int), char_index_of_byte(t, sp.1 as int)) {
            (Some(s), Some(e)) => rest.push((s as usize, e as usize)),
            _ => rest,
        }
    }
}

/// The candidates of rank `k`, in order.
pub open spec fn with_rank(c: Seq<PriceTagMatchView>, k: nat) -> Seq<PriceTagMatchView>
    decreases c.len(),
{
    if c.len() == 0 {
        seq![]
    } else if rank(c.last()) == k {
        with_rank(c.drop_last(), k).push(c.last())
    } else {
        with_rank(c.drop_last(), k)
    }
}

/// The candidates of rank below `k`: those of rank 0 in order, then those
/// of rank 1 in order, and so on.
pub open spec fn ranked_below(c: Seq<PriceTagMatchView>, k: nat) -> Seq<PriceTagMatchView>
    decreases k,
{
    if k == 0 {
        seq![]
    } else {
        ranked_below(c, (k - 1) as nat) + with_rank(c, (k - 1) as nat)
    }
}

/// One more than the largest rank among `c`; 0 when `c` is empty.
pub open spec fn rank_bound(c: Seq<PriceTagMatchView>) -> nat
    decreases c.len(),
{
    if c.len() == 0 {
        0
    } else {
        let b = rank_bound(c.drop_last());
        if rank(c.last()) + 1 > b {
            rank(c.last()) + 1
        } else {
            b
        }
    }
}

/// `c` sorted by rank, best first, candidates of equal rank kept in their
/// order.
pub open spec fn ranked(c: Seq<PriceTagMatchView>) -> Seq<PriceTagMatchView> {
    ranked_below(c, rank_bound(c))
}

} // verus!

verus! {

fn push_backward(out: &mut Vec<PriceTagMatch>, nums: &Vec<crate::price_format::PriceFormatMatch>, c: &Currency, w: usize, s: usize)
    ensures
        candidates_view(final(out)@) == candidates_view(old(out)@) + backward(matches_view(nums@), c@, w as int, s as int),
{
    let ghost before = candidates_view(out@);
    let ghost nv = matches_view(nums@);
    let correct = c.pos() == Pos::Before;
    let mut i: usize = 0;
    while i < nums.len()
        invariant
            i <= nums@.len(),
            nv == matches_view(nums@),
            correct == (c@.pos == Pos::Before),
            candidates_view(out@) == before + backward(nv.take(i as int), c@, w as int, s as int),
        decreases nums.len() - i,
    {
        assert(nv.take(i + 1).drop_last() =~= nv.take(i as int));
        assert(nv.take(i + 1).last() == nums@[i as int]@);
        let end = nums[i].end();
        if end <= s && s - end <= w {
            let m = PriceTagMatch::new(nums[i].price(), c, s - end, correct);
            let ghost prev = candidates_view(out@);
            out.push(m);
            assert(candidates_view(out@) =~= prev.push(m@));
            assert(backward(nv.take(i + 1), c@, w as int, s as int) == backward(nv.take(i as int), c@, w as int, s as int).push(m@));
            assert(candidates_view(out@) =~= before + backward(nv.take(i + 1), c@, w as int, s as int));
        } else {
            assert(candidates_view(out@) =~= before + backward(nv.take(i + 1), c@, w as int, s as int));
        }
        i = i + 1;
    }
    assert(nv.take(nums@.len() as int) =~= nv);
}

fn push_forward(out: &mut Vec<PriceTagMatch>, nums: &Vec<crate::price_format::PriceFormatMatch>, c: &Currency, w: usize, e: usize)
    ensures
        candidates_view(final(out)@) == candidates_view(old(out)@) + forward(matches_view(nums@), c@, w as int, e as int),
{
    let ghost before = candidates_view(out@);
    let ghost nv = matches_view(nums@);
    let correct = c.pos() == Pos::After;
    let mut i: usize = 0;
    while i < nums.len()
        invariant
            i <= nums@.len(),
            nv == matches_view(nums@),
            correct == (c@.pos == Pos::After),
            candidates_view(out@) == before + forward(nv.take(i as int), c@, w as int, e as int),
        decreases nums.len() - i,
    {
        assert(nv.take(i + 1).drop_last() =~= nv.take(i as int));
        assert(nv.take(i + 1).last() == nums@[i as int]@);
        let start = nums[i].start();
        if e <= start && start - e <= w {
            let m = PriceTagMatch::new(nums[i].price(), c, start - e, correct);
            let ghost prev = candidates_view(out@);
            out.push(m);
            assert(candidates_view(out@) =~= prev.push(m@));
            assert(forward(nv.take(i + 1), c@, w as int, e as int) == forward(nv.take(i as int), c@, w as int, e as int).push(m@));
            assert(candidates_view(out@) =~= before + forward(nv.take(i + 1), c@, w as int, e as int));
        } else {
            assert(candidates_view(out@) =~= before + forward(nv.take(i + 1), c@, w as int, e as int));
        }
        i = i + 1;
    }
    assert(nv.take(nums@.len() as int) =~= nv);
}

/// The byte spans `spans` of the text whose characters are `t`, as
/// character spans.
fn char_spans_exec(t: &Vec<char>, offsets: &Vec<u128>, spans: &Vec<(usize, usize)>) -> (r: Vec<(usize, usize)>)
    requires
        offsets.len() == t@.len() + 1,
        forall|i: int| 0 <= i <= t@.len() ==> offsets[i] == crate::text::byte_offset(t@, i),
    ensures
        r@ == char_spans(t@, spans@),
{
    let mut r: Vec<(usize, usize)> = Vec::new();
    let mut i: usize = 0;
    while i < spans.len()
        invariant
            i <= spans@.len(),
            offsets.len() == t@.len() + 1,
            forall|k: int| 0 <= k <= t@.len() ==> offsets[k] == crate::text::byte_offset(t@, k),
            r@ == char_spans(t@, spans@.take(i as int)),
        decreases spans.len() - i,
    {
        assert(spans@.take(i + 1).drop_last() =~= spans@.take(i as int));
        assert(spans@.take(i + 1).last() == spans@[i as int]);
        let (b0, b1) = spans[i];
        let s = find_char_index(offsets, b0, Ghost(t@));
        let e = find_char_index(offsets, b1, Ghost(t@));
        match (s, e) {
            (Some(s), Some(e)) => {
                r.push((s, e));
            },
            _ => {},
        }
        i = i + 1;
    }
    assert(spans@.take(spans@.len() as int) =~= spans@);
    r
}

fn rank_exec(m: &PriceTagMatch) -> (r: u128)
    ensures
        r == rank(m@),
{
    let d = m.distance() as u128;
    if m.correct_symbol_order() {
        2 * d
    } else {
        2 * d + 1
    }
}

/// `c` sorted by rank, as [`ranked`] says.
fn ranked_exec(c: &Vec<PriceTagMatch>) -> (r: Vec<PriceTagMatch>)
    ensures
        candidates_view(r@) == ranked(candidates_view(c@)),
{
    let ghost cv = candidates_view(c@);
    let mut bound: u128 = 0;
    let mut i: usize = 0;
    while i < c.len()
        invariant
            i <= c@.len(),
            cv == candidates_view(c@),
            bound == rank_bound(cv.take(i as int)),
            bound <= 2 * (usize::MAX as u128) + 2,
        decreases c.len() - i,
    {
        assert(cv.take(i + 1).drop_last() =~= cv.take(i as int));
        assert(cv.take(i + 1).last() == c@[i as int]@);
        let r = rank_exec(&c[i]);
        if r + 1 > bound {
            bound = r + 1;
        }
        i = i + 1;
    }
    assert(cv.take(c@.len() as int) =~= cv);
    let mut out: Vec<PriceTagMatch> = Vec::new();
    let mut k: u128 = 0;
    while k < bound
        invariant
            k <= bound,
            cv == candidates_view(c@),
            bound == rank_bound(cv),
            candidates_view(out@) == ranked_below(cv, k as nat),
        decreases bound - k,
    {
        let ghost base = candidates_view(out@);
        let mut j: usize = 0;
        while j < c.len()
            invariant
                j <= c@.len(),
                cv == candidates_view(c@),
                k < bound,
                base == ranked_below(cv, k as nat),
                candidates_view(out@) == base + with_rank(cv.take(j as int), k as nat),
            decreases c.len() - j,
        {
            assert(cv.take(j + 1) =~= cv.take(j as int).push(c@[j as int]@));
            assert(cv.take(j + 1).drop_last() =~= cv.take(j as int));
            if rank_exec(&c[j]) == k {
                let ghost prev = candidates_view(out@);
                out.push(c[j]);
                assert(candidates_view(out@) =~= prev.push(c@[j as int]@));
                assert(candidates_view(out@) =~= base + with_rank(cv.take(j + 1), k as nat));
            } else {
                assert(candidates_view(out@) =~= base + with_rank(cv.take(j + 1), k as nat));
            }
            j = j + 1;
        }
        assert(cv.take(c@.len() as int) =~= cv);
        k = k + 1;
    }
    out
}

} // verus!

verus! {

/// What an engine is set to look for.
pub struct EngineOptionsView {
    pub window_size: nat,
    pub currencies: Seq<CurrencyView>,
    pub by_symbol: bool,
    pub by_iso: bool,
    pub price_format: PriceFormatView,
    pub case_insensitive: bool,
}

/// Options of a price tag engine.
#[derive(Debug, Clone)]
pub struct EngineOptions {
    window_size: usize,
    currencies: Vec<Currency>,
    by_symbol: bool,
    by_iso: bool,
    price_format: PriceFormat,
    case_insensitive: bool,
}

/// Views of a list of currencies.
pub open spec fn currencies_view(v: Seq<Currency>) -> Seq<CurrencyView> {
    v.map_values(|c: Currency| c@)
}

impl View for EngineOptions {
    type V = EngineOptionsView;

    closed spec fn view(&self) -> EngineOptionsView {
        EngineOptionsView {
            window_size: self.window_size as nat,
            currencies: currencies_view(self.currencies@),
            by_symbol: self.by_symbol,
            by_iso: self.by_iso,
            price_format: self.price_format@,
            case_insensitive: self.case_insensitive,
        }
    }
}

/// The default options: a window of 10 characters, every known currency,
/// found by symbol and by ISO code whatever the case of the letters, and the
/// common price format.
pub open spec fn default_options() -> EngineOptionsView {
    EngineOptionsView {
        window_size: 10,
        currencies: registry(),
        by_symbol: true,
        by_iso: true,
        price_format: PriceFormatView { thousand_separators: seq![' '], decimal_separators: seq![',', '.'] },
        case_insensitive: true,
    }
}

impl Default for EngineOptions {
    fn default() -> (r: EngineOptions)
        ensures
            r@ == default_options(),
    {
        let currencies = all_currencies();
        let r = EngineOptions {
            window_size: 10,
            currencies,
            by_symbol: true,
            by_iso: true,
            price_format: PriceFormat::common(),
            case_insensitive: true,
        };
        assert(r@.currencies =~= registry());
        r
    }
}

/// Builds a price tag engine from options, to be customized.
#[derive(Debug, Clone)]
pub struct EngineBuilder(EngineOptions);

impl View for EngineBuilder {
    type V = EngineOptionsView;

    closed spec fn view(&self) -> EngineOptionsView {
        self.0@
    }
}

/// Why an engine could not be built.
#[derive(Debug, Clone, Copy)]
pub enum EngineError {
    /// The pattern finding this currency could not be compiled.
    CurrencyMatchRegex(Currency),
}

/// The pattern of the `i`-th currency of `o`.
pub open spec fn pattern_of(o: EngineOptionsView, i: int) -> Seq<char> {
    currency_pattern(o.currencies[i], o.by_iso, o.by_symbol, o.case_insensitive)
}

/// Whether every currency of `o` has a pattern that compiles.
pub open spec fn patterns_compile(o: EngineOptionsView) -> bool {
    forall|i: int| 0 <= i < o.currencies.len() ==> regex_accepts(#[trigger] pattern_of(o, i))
}

impl EngineBuilder {
    /// A builder with the default options.
    pub fn new() -> (r: EngineBuilder)
        ensures
            r@ == default_options(),
    {
        EngineBuilder(EngineOptions::default())
    }

    /// Set the size of the window, in characters, within which a number and
    /// a currency are paired.
    pub fn window(&mut self, size: usize) -> (r: &mut EngineBuilder)
        ensures
            (*r)@ == (EngineOptionsView { window_size: size as nat, ..old(self)@ }),
            *final(self) == *final(r),
    {
        self.0.window_size = size;
        self
    }

    /// Set the currencies to look for.
    pub fn currencies(&mut self, currencies: &[Currency]) -> (r: &mut EngineBuilder)
        ensures
            (*r)@ == (EngineOptionsView { currencies: currencies_view(currencies@), ..old(self)@ }),
            *final(self) == *final(r),
    {
        let mut v: Vec<Currency> = Vec::new();
        let mut i: usize = 0;
        while i < currencies.len()
            invariant
                i <= currencies@.len(),
                v@ == currencies@.take(i as int),
            decreases currencies.len() - i,
        {
            v.push(currencies[i]);
            assert(v@ =~= currencies@.take(i + 1));
            i = i + 1;
        }
        assert(currencies@.take(currencies@.len() as int) =~= currencies@);
        self.0.currencies = v;
        self
    }

    /// Find currencies by their symbols, like “€” or “$”.
    pub fn by_symbol(&mut self, yes: bool) -> (r: &mut EngineBuilder)
        ensures
            (*r)@ == (EngineOptionsView { by_symbol: yes, ..old(self)@ }),
            *final(self) == *final(r),
    {
        self.0.by_symbol = yes;
        self
    }

    /// Find currencies by their ISO codes, like “EUR” or “USD”.
    pub fn by_iso(&mut self, yes: bool) -> (r: &mut EngineBuilder)
        ensures
            (*r)@ == (EngineOptionsView { by_iso: yes, ..old(self)@ }),
            *final(self) == *final(r),
    {
        self.0.by_iso = yes;
        self
    }

    /// Find ISO codes and symbols whatever the case of their letters.
    pub fn case_insensitive(&mut self, yes: bool) -> (r: &mut EngineBuilder)
        ensures
            (*r)@ == (EngineOptionsView { case_insensitive: yes, ..old(self)@ }),
            *final(self) == *final(r),
    {
        self.0.case_insensitive = yes;
        self
    }

    /// Set the price format of the numbers to look for.
    pub fn price(&mut self, format: PriceFormat) -> (r: &mut EngineBuilder)
        ensures
            (*r)@ == (EngineOptionsView { price_format: format@, ..old(self)@ }),
            *final(self) == *final(r),
    {
        self.0.price_format = format;
        self
    }
}

} // verus!

verus! {

/// Price tag engine: finds price tags in plain text. It is built once from
/// its options, which it never changes, and can then serve any number of
/// searches.
#[derive(Debug)]
pub struct Engine {
    options: EngineOptions,
    /// The pattern of each currency of the options, in order; each was
    /// checked to compile when the engine was built.
    patterns: Vec<String>,
}

impl View for Engine {
    type V = EngineOptionsView;

    closed spec fn view(&self) -> EngineOptionsView {
        self.options@
    }
}

/// Where each currency of `o` occurs in `t`, in characters, as the regex
/// crate finds its pattern.
pub open spec fn token_spans(o: EngineOptionsView, t: Seq<char>) -> Seq<Seq<(usize, usize)>> {
    Seq::new(o.currencies.len(), |i: int| char_spans(t, regex_match_spans(pattern_of(o, i), t)))
}

/// The candidates of `t`, best first, given where each currency occurs.
pub open spec fn ranked_candidates(o: EngineOptionsView, t: Seq<char>, tokens: Seq<Seq<(usize, usize)>>) -> Seq<PriceTagMatchView> {
    ranked(all_candidates(scan(o.price_format, t, 0), o.currencies, o.window_size as int, tokens))
}

/// The candidate price tags of `t`, best first.
pub open spec fn price_tag_candidates(o: EngineOptionsView, t: Seq<char>) -> Seq<PriceTagMatchView> {
    ranked_candidates(o, t, token_spans(o, t))
}

/// Views of a list of price tags.
pub open spec fn tags_view(v: Seq<PriceTag>) -> Seq<PriceTagView> {
    v.map_values(|p: PriceTag| p@)
}

/// The price tags of candidates.
pub open spec fn tags_of(c: Seq<PriceTagMatchView>) -> Seq<PriceTagView> {
    c.map_values(|m: PriceTagMatchView| tag_of(m))
}

impl EngineBuilder {
    /// Build the engine: compile the pattern of each currency.
    pub fn fire(self) -> (r: Result<Engine, EngineError>)
        ensures
            r is Ok <==> patterns_compile(self@),
            r matches Ok(e) ==> e@ == self@,
            r matches Err(EngineError::CurrencyMatchRegex(c)) ==> exists|i: int|
                0 <= i < self@.currencies.len() && self@.currencies[i] == c@ && !regex_accepts(
                    #[trigger] pattern_of(self@, i),
                ),
    {
        let o = self.0;
        let mut patterns: Vec<String> = Vec::new();
        let mut i: usize = 0;
        while i < o.currencies.len()
            invariant
                i <= o.currencies@.len(),
                o@ == self@,
                patterns@.len() == i,
                forall|k: int| 0 <= k < i ==> #[trigger] patterns@[k]@ == pattern_of(o@, k),
                forall|k: int| 0 <= k < i ==> regex_accepts(#[trigger] pattern_of(o@, k)),
            decreases o.currencies.len() - i,
        {
            let c = &o.currencies[i];
            let p = currency_pattern_exec(c, o.by_iso, o.by_symbol, o.case_insensitive);
            assert(p@ == pattern_of(o@, i as int));
            // Whether a pattern compiles does not depend on the text searched.
            match regex_find(p.as_str(), "") {
                Ok(_) => {},
                Err(_) => {
                    assert(self@.currencies[i as int] == c@);
                    assert(!regex_accepts(pattern_of(self@, i as int)));
                    return Err(EngineError::CurrencyMatchRegex(*c));
                },
            }
            patterns.push(p);
            i = i + 1;
        }
        Ok(Engine { options: o, patterns })
    }
}

impl Engine {
    #[verifier::type_invariant]
    spec fn patterns_match_options(self) -> bool {
        &&& self.patterns@.len() == self.options@.currencies.len()
        &&& forall|i: int| 0 <= i < self.patterns@.len() ==> #[trigger] self.patterns@[i]@ == pattern_of(self.options@, i)
        &&& patterns_compile(self.options@)
    }

    /// An engine with the default options.
    pub fn new() -> (r: Result<Engine, EngineError>)
        ensures
            r is Ok <==> patterns_compile(default_options()),
            r matches Ok(e) ==> e@ == default_options(),
    {
        EngineBuilder::new().fire()
    }

    /// Size of the window, in characters.
    pub fn window_size(&self) -> (r: usize)
        ensures
            r == self@.window_size,
    {
        self.options.window_size
    }

    /// Every candidate price tag of `text`, best first, given the byte spans
    /// `tokens[i]` where the `i`-th currency of the engine occurs in `text`.
    pub fn price_tag_matches_with(&self, text: &str, tokens: &Vec<Vec<(usize, usize)>>) -> (r: Vec<PriceTagMatch>)
        requires
            tokens@.len() == self@.currencies.len(),
        ensures
            candidates_view(r@) == ranked_candidates(
                self@,
                text@,
                Seq::new(tokens@.len(), |i: int| char_spans(text@, tokens@[i]@)),
            ),
    {
        let t = chars_of(text);
        let nums = self.options.price_format.captures_in(&t);
        let offsets = byte_offsets(&t);
        let ghost nv = matches_view(nums@);
        let ghost cs = self@.currencies;
        let ghost toks = Seq::new(tokens@.len(), |i: int| char_spans(text@, tokens@[i]@));
        let w = self.options.window_size;
        let mut cands: Vec<PriceTagMatch> = Vec::new();
        let mut i: usize = 0;
        while i < tokens.len()
            invariant
                i <= tokens@.len(),
                tokens@.len() == cs.len(),
                cs == self@.currencies,
                cs == currencies_view(self.options.currencies@),
                t@ == text@,
                nv == matches_view(nums@),
                toks == Seq::new(tokens@.len(), |i: int| char_spans(text@, tokens@[i]@)),
                w == self@.window_size,
                offsets.len() == t@.len() + 1,
                forall|k: int| 0 <= k <= t@.len() ==> offsets[k] == crate::text::byte_offset(t@, k),
                candidates_view(cands@) == all_candidates(nv, cs.take(i as int), w as int, toks.take(i as int)),
            decreases tokens.len() - i,
        {
            let spans = char_spans_exec(&t, &offsets, &tokens[i]);
            let c = &self.options.currencies[i];
            let ghost before = candidates_view(cands@);
            let mut j: usize = 0;
            while j < spans.len()
                invariant
                    j <= spans@.len(),
                    nv == matches_view(nums@),
                    c@ == cs[i as int],
                    w == self@.window_size,
                    candidates_view(cands@) == before + currency_candidates(nv, c@, w as int, spans@.take(j as int)),
                decreases spans.len() - j,
            {
                assert(spans@.take(j + 1).drop_last() =~= spans@.take(j as int));
                assert(spans@.take(j + 1).last() == spans@[j as int]);
                let (s, e) = spans[j];
                push_backward(&mut cands, &nums, c, w, s);
                push_forward(&mut cands, &nums, c, w, e);
                j = j + 1;
            }
            assert(spans@.take(spans@.len() as int) =~= spans@);
            assert(cs.take(i + 1).drop_last() =~= cs.take(i as int));
            assert(toks.take(i + 1).drop_last() =~= toks.take(i as int));
            assert(toks[i as int] == spans@);
            i = i + 1;
        }
        assert(cs.take(cs.len() as int) =~= cs);
        assert(toks.take(toks.len() as int) =~= toks);
        ranked_exec(&cands)
    }

    /// Every candidate price tag of `text`, best first.
    pub fn find(&self, text: &str) -> (r: Vec<PriceTagMatch>)
        ensures
            candidates_view(r@) == price_tag_candidates(self@, text@),
    {
        proof {
            use_type_invariant(self);
        }
        let mut tokens: Vec<Vec<(usize, usize)>> = Vec::new();
        let mut i: usize = 0;
        while i < self.patterns.len()
            invariant
                i <= self.patterns@.len(),
                self.patterns@.len() == self@.currencies.len(),
                forall|k: int| 0 <= k < self.patterns@.len() ==> #[trigger] self.patterns@[k]@ == pattern_of(self@, k),
                patterns_compile(self@),
                tokens@.len() == i,
                forall|k: int| 0 <= k < i ==> #[trigger] tokens@[k]@ == regex_match_spans(pattern_of(self@, k), text@),
            decreases self.patterns.len() - i,
        {
            assert(regex_accepts(pattern_of(self@, i as int)));
            match regex_find(self.patterns[i].as_str(), text) {
                Ok(spans) => {
                    tokens.push(spans);
                },
                Err(_) => {
                    assert(false);
                    tokens.push(Vec::new());
                },
            }
            i = i + 1;
        }
        let r = self.price_tag_matches_with(text, &tokens);
        assert(Seq::new(tokens@.len(), |i: int| char_spans(text@, tokens@[i]@)) =~= token_spans(self@, text@));
        r
    }
}

} // verus!

verus! {

/// The price tags of candidates, in order.
fn tags_exec(c: &Vec<PriceTagMatch>, n: usize) -> (r: Vec<PriceTag>)
    ensures
        tags_view(r@) == tags_of(candidates_view(c@)).take(if n < c@.len() { n as int } else { c@.len() as int }),
{
    let ghost cv = candidates_view(c@);
    let stop = if n < c.len() { n } else { c.len() };
    let mut r: Vec<PriceTag> = Vec::new();
    let mut i: usize = 0;
    while i < stop
        invariant
            i <= stop <= c@.len(),
            cv == candidates_view(c@),
            tags_view(r@) == tags_of(cv).take(i as int),
        decreases stop - i,
    {
        let ghost prev = tags_view(r@);
        let p = c[i].price_tag();
        r.push(p);
        assert(tags_view(r@) =~= prev.push(p@));
        assert(p@ == tag_of(cv[i as int]));
        assert(tags_view(r@) =~= tags_of(cv).take(i + 1));
        i = i + 1;
    }
    r
}

impl Engine {
    /// Every price tag found in `text`, best first.
    pub fn all_price_tags(&self, text: &str) -> (r: Vec<PriceTag>)
        ensures
            tags_view(r@) == tags_of(price_tag_candidates(self@, text@)),
    {
        let c = self.find(text);
        let r = tags_exec(&c, c.len());
        assert(tags_of(candidates_view(c@)).take(c@.len() as int) =~= tags_of(candidates_view(c@)));
        r
    }

    /// The `n` best price tags found in `text`, or all of them when there
    /// are fewer.
    pub fn top_price_tags(&self, n: usize, text: &str) -> (r: Vec<PriceTag>)
        ensures
            tags_view(r@) == tags_of(price_tag_candidates(self@, text@)).take(
                if n < price_tag_candidates(self@, text@).len() {
                    n as int
                } else {
                    price_tag_candidates(self@, text@).len() as int
                },
            ),
    {
        let c = self.find(text);
        tags_exec(&c, n)
    }
}

} // verus!

verus! {

/// Where a currency occurs is measured in characters, not bytes: a span of
/// bytes that falls between characters is read as the characters it covers,
/// however many bytes each character before it takes, so that a symbol of
/// several bytes like `€` pairs with a number exactly as a one-byte code at
/// the same character position would.
pub proof fn lemma_char_spans_exact(t: Seq<char>, s: int, e: int)
    requires
        0 <= s <= e <= t.len(),
        crate::text::byte_offset(t, e) <= usize::MAX,
    ensures
        char_spans(
            t,
            seq![(crate::text::byte_offset(t, s) as usize, crate::text::byte_offset(t, e) as usize)],
        ) == seq![(s as usize, e as usize)],
{
    if s < e {
        crate::text::lemma_byte_offset_strict(t, s, e);
    }
    crate::text::lemma_char_index_of_byte_offset(t, s);
    crate::text::lemma_char_index_of_byte_offset(t, e);
    crate::text::lemma_byte_offset_bound(t, e);
    let bs = crate::text::byte_offset(t, s);
    let be = crate::text::byte_offset(t, e);
    let spans = seq![(bs as usize, be as usize)];
    assert(spans.drop_last() =~= Seq::<(usize, usize)>::empty());
    assert((bs as usize) as int == bs && (be as usize) as int == be);
    assert(spans.last() == (bs as usize, be as usize));
    assert(char_index_of_byte(t, bs as int) == Some(s));
    assert(char_index_of_byte(t, be as int) == Some(e));
    assert(char_spans(t, spans) == char_spans(t, spans.drop_last()).push((s as usize, e as usize)));
}

/// Ranking sorts by rank, best first, and keeps candidates of equal rank in
/// their order: for a rank `k`, the ranked candidates of rank `k` are those of
/// `c`, in the order of `c`.
pub proof fn lemma_ranked_stable(c: Seq<PriceTagMatchView>, k: nat)
    ensures
        with_rank(ranked(c), k) == with_rank(c, k),
{
    let b = rank_bound(c);
    lemma_with_rank_below(c, b, k);
    if k >= b {
        lemma_with_rank_bound(c, k);
    }
}

proof fn lemma_with_rank_append(a: Seq<PriceTagMatchView>, b: Seq<PriceTagMatchView>, k: nat)
    ensures
        with_rank(a + b, k) == with_rank(a, k) + with_rank(b, k),
    decreases b.len(),
{
    if b.len() == 0 {
        assert(a + b =~= a);
        assert(with_rank(a, k) + with_rank(b, k) =~= with_rank(a, k));
    } else {
        assert((a + b).drop_last() =~= a + b.drop_last());
        lemma_with_rank_append(a, b.drop_last(), k);
        if rank(b.last()) == k {
            assert(with_rank(a, k) + with_rank(b, k) =~= (with_rank(a, k) + with_rank(b.drop_last(), k)).push(
                b.last(),
            ));
        }
    }
}

proof fn lemma_with_rank_only(c: Seq<PriceTagMatchView>, j: nat, k: nat)
    ensures
        with_rank(with_rank(c, j), k) == if j == k {
            with_rank(c, j)
        } else {
            seq![]
        },
    decreases c.len(),
{
    if c.len() > 0 {
        lemma_with_rank_only(c.drop_last(), j, k);
        if rank(c.last()) == j {
            assert(with_rank(c, j).drop_last() =~= with_rank(c.drop_last(), j));
        }
    }
}

proof fn lemma_with_rank_below(c: Seq<PriceTagMatchView>, b: nat, k: nat)
    ensures
        with_rank(ranked_below(c, b), k) == if k < b {
            with_rank(c, k)
        } else {
            seq![]
        },
    decreases b,
{
    if b > 0 {
        let b1 = (b - 1) as nat;
        lemma_with_rank_below(c, b1, k);
        lemma_with_rank_append(ranked_below(c, b1), with_rank(c, b1), k);
        lemma_with_rank_only(c, b1, k);
        if k < b1 {
            assert(with_rank(c, k) + Seq::<PriceTagMatchView>::empty() =~= with_rank(c, k));
        } else if k == b1 {
            assert(Seq::<PriceTagMatchView>::empty() + with_rank(c, k) =~= with_rank(c, k));
        } else {
            assert(Seq::<PriceTagMatchView>::empty() + Seq::<PriceTagMatchView>::empty() =~= Seq::<PriceTagMatchView>::empty());
        }
    } else {
        assert(with_rank(Seq::<PriceTagMatchView>::empty(), k) =~= Seq::<PriceTagMatchView>::empty());
    }
}

proof fn lemma_with_rank_bound(c: Seq<PriceTagMatchView>, k: nat)
    requires
        k >= rank_bound(c),
    ensures
        with_rank(c, k) == Seq::<PriceTagMatchView>::empty(),
    decreases c.len(),
{
    if c.len() > 0 {
        lemma_with_rank_bound(c.drop_last(), k);
    }
}

} // verus!

verus! {

proof fn lemma_no_numbers_no_candidates(c: CurrencyView, w: int, spans: Seq<(usize, usize)>)
    ensures
        currency_candidates(Seq::<PriceFormatMatchView>::empty(), c, w, spans) == Seq::<PriceTagMatchView>::empty(),
    decreases spans.len(),
{
    if spans.len() > 0 {
        lemma_no_numbers_no_candidates(c, w, spans.drop_last());
        let sp = spans.last();
        assert(backward(Seq::<PriceFormatMatchView>::empty(), c, w, sp.0 as int) =~= Seq::<PriceTagMatchView>::empty());
        assert(forward(Seq::<PriceFormatMatchView>::empty(), c, w, sp.1 as int) =~= Seq::<PriceTagMatchView>::empty());
        assert(Seq::<PriceTagMatchView>::empty() + Seq::<PriceTagMatchView>::empty() + Seq::<PriceTagMatchView>::empty()
            =~= Seq::<PriceTagMatchView>::empty());
    }
}

proof fn lemma_all_candidates_empty(
    nums: Seq<PriceFormatMatchView>,
    cs: Seq<CurrencyView>,
    w: int,
    tokens: Seq<Seq<(usize, usize)>>,
)
    requires
        nums.len() == 0 || forall|i: int| 0 <= i < tokens.len() ==> (#[trigger] tokens[i]).len() == 0,
    ensures
        all_candidates(nums, cs, w, tokens) == Seq::<PriceTagMatchView>::empty(),
    decreases cs.len(),
{
    if cs.len() > 0 && tokens.len() > 0 {
        assert(forall|i: int| 0 <= i < tokens.drop_last().len() ==> tokens.drop_last()[i] == tokens[i]);
        lemma_all_candidates_empty(nums, cs.drop_last(), w, tokens.drop_last());
        if nums.len() == 0 {
            assert(nums =~= Seq::<PriceFormatMatchView>::empty());
            lemma_no_numbers_no_candidates(cs.last(), w, tokens.last());
        } else {
            assert(tokens.last() == tokens[tokens.len() - 1]);
            assert(tokens.last() =~= Seq::<(usize, usize)>::empty());
        }
        assert(Seq::<PriceTagMatchView>::empty() + Seq::<PriceTagMatchView>::empty() =~= Seq::<PriceTagMatchView>::empty());
    }
}

/// A text without numbers, or without any occurrence of a currency, has no
/// price tag.
pub proof fn lemma_nothing_to_pair(o: EngineOptionsView, t: Seq<char>, tokens: Seq<Seq<(usize, usize)>>)
    requires
        scan(o.price_format, t, 0).len() == 0 || forall|i: int| 0 <= i < tokens.len() ==> (#[trigger] tokens[i]).len() == 0,
    ensures
        ranked_candidates(o, t, tokens) == Seq::<PriceTagMatchView>::empty(),
{
    lemma_all_candidates_empty(scan(o.price_format, t, 0), o.currencies, o.window_size as int, tokens);
    assert(ranked_below(Seq::<PriceTagMatchView>::empty(), 0) =~= Seq::<PriceTagMatchView>::empty());
}

/// The empty text has no price tag.
pub proof fn lemma_empty_text(o: EngineOptionsView)
    ensures
        price_tag_candidates(o, Seq::<char>::empty()) == Seq::<PriceTagMatchView>::empty(),
{
    lemma_nothing_to_pair(o, Seq::<char>::empty(), token_spans(o, Seq::<char>::empty()));
}

} // verus!
