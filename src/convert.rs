//! Conversion of the price tags found in a text, and the report of it.

use vstd::prelude::*;

use crate::amount::{normalize, MAX_SCALE};
use crate::currency::{price_tag_text, PriceTag, PriceTagView};
use crate::rate::{Rate, RateView};
use crate::text::{chars_of, string_of};

verus! {

/// Lines of groups of lines: the lines of a group one per line, groups
/// apart by an empty line; `No currency found.` when there is no group.
pub open spec fn report(groups: Seq<Seq<Seq<char>>>) -> Seq<char> {
    if groups.len() == 0 {
        "No currency found."@
    } else {
        joined_groups(groups)
    }
}

/// The groups, each line preceded by a line break but the very first one,
/// and each group but the first by one more line break.
pub open spec fn joined_groups(groups: Seq<Seq<Seq<char>>>) -> Seq<char>
    decreases groups.len(),
{
    if groups.len() == 0 {
        seq![]
    } else {
        let i = groups.len() - 1;
        joined_groups(groups.drop_last()) + (if i > 0 { seq!['\n'] } else { seq![] }) + joined_lines(
            groups.last(),
            i > 0,
        )
    }
}

/// The lines, each preceded by a line break but the first one unless
/// `after_group`.
pub open spec fn joined_lines(lines: Seq<Seq<char>>, after_group: bool) -> Seq<char>
    decreases lines.len(),
{
    if lines.len() == 0 {
        seq![]
    } else {
        let j = lines.len() - 1;
        joined_lines(lines.drop_last(), after_group) + (if j > 0 || after_group {
            seq!['\n']
        } else {
            seq![]
        }) + lines.last()
    }
}

/// Views of groups of lines.
pub open spec fn groups_view(g: Seq<Vec<String>>) -> Seq<Seq<Seq<char>>> {
    g.map_values(|v: Vec<String>| v@.map_values(|s: String| s@))
}

fn append_str(out: &mut Vec<char>, s: &str)
    ensures
        final(out)@ == old(out)@ + s@,
{
    let mut c = chars_of(s);
    out.append(&mut c);
}

/// The report of the conversions of each price tag, a group of lines for
/// each.
pub fn conversions_to_string(all_conversions: &Vec<Vec<String>>) -> (r: String)
    ensures
        r@ == report(groups_view(all_conversions@)),
{
    if all_conversions.len() == 0 {
        return String::from_str("No currency found.");
    }
    let ghost g = groups_view(all_conversions@);
    let mut out: Vec<char> = Vec::new();
    let mut i: usize = 0;
    while i < all_conversions.len()
        invariant
            i <= all_conversions@.len(),
            g == groups_view(all_conversions@),
            out@ == joined_groups(g.take(i as int)),
        decreases all_conversions.len() - i,
    {
        assert(g.take(i + 1).drop_last() =~= g.take(i as int));
        let ghost start = out@;
        if i > 0 {
            out.push('\n');
        }
        let ghost mid = out@;
        let group = &all_conversions[i];
        let ghost lines = g[i as int];
        let mut j: usize = 0;
        while j < group.len()
            invariant
                j <= group@.len(),
                lines == group@.map_values(|s: String| s@),
                out@ == mid + joined_lines(lines.take(j as int), i > 0),
            decreases group.len() - j,
        {
            assert(lines.take(j + 1).drop_last() =~= lines.take(j as int));
            let ghost before = out@;
            if j > 0 || i > 0 {
                out.push('\n');
            }
            append_str(&mut out, group[j].as_str());
            assert(out@ =~= mid + joined_lines(lines.take(j + 1), i > 0));
            j = j + 1;
        }
        assert(lines.take(group@.len() as int) =~= lines);
        assert(out@ =~= joined_groups(g.take(i + 1)));
        i = i + 1;
    }
    assert(g.take(all_conversions@.len() as int) =~= g);
    string_of(&out)
}

/// The line that reports the conversion of `from` to `to`, like
/// `GBP 15.00 ➜ EUR 17.64`.
pub open spec fn conversion_line(from: PriceTagView, to: PriceTagView) -> Seq<char> {
    price_tag_text(from) + seq![' ', '➜', ' '] + price_tag_text(to)
}

/// The lines that report `p` converted with each rate of `rates` in turn:
/// a rate to the currency of `p` itself is left out, and so is a rate that
/// does not apply.
pub open spec fn conversion_lines_spec(p: PriceTagView, rates: Seq<RateView>) -> Seq<Seq<char>>
    decreases rates.len(),
{
    if rates.len() == 0 {
        seq![]
    } else {
        let rest = conversion_lines_spec(p, rates.drop_last());
        let r = rates.last();
        let m = p.amount.mantissa * r.rate.mantissa;
        let to = normalize(p.amount.negative != r.rate.negative, m, p.amount.scale + r.rate.scale);
        if r.dst == p.currency || r.src != p.currency || m > u128::MAX || to.scale > MAX_SCALE {
            rest
        } else {
            rest.push(conversion_line(p, PriceTagView { currency: r.dst, amount: to }))
        }
    }
}

/// Views of a list of rates.
pub open spec fn rates_view(v: Seq<Rate>) -> Seq<RateView> {
    v.map_values(|r: Rate| r@)
}

/// The lines that report `price_tag` converted with each of `rates`.
pub fn conversion_lines(price_tag: &PriceTag, rates: &Vec<Rate>) -> (r: Vec<String>)
    ensures
        r@.map_values(|s: String| s@) == conversion_lines_spec(price_tag@, rates_view(rates@)),
{
    let ghost rv = rates_view(rates@);
    let mut out: Vec<String> = Vec::new();
    let mut i: usize = 0;
    while i < rates.len()
        invariant
            i <= rates@.len(),
            rv == rates_view(rates@),
            out@.map_values(|s: String| s@) == conversion_lines_spec(price_tag@, rv.take(i as int)),
        decreases rates.len() - i,
    {
        assert(rv.take(i + 1).drop_last() =~= rv.take(i as int));
        assert(rv.take(i + 1).last() == rates@[i as int]@);
        let rate = &rates[i];
        let ghost prev = out@.map_values(|s: String| s@);
        let same = *price_tag.currency() == *rate.dst();
        if same {
            assert(out@.map_values(|s: String| s@) =~= conversion_lines_spec(price_tag@, rv.take(i + 1)));
        } else {
            match price_tag.convert(rate) {
                Ok(to) => {
                    let mut line = chars_of(price_tag.to_string().as_str());
                    append_str(&mut line, " ➜ ");
                    append_str(&mut line, to.to_string().as_str());
                    let s = string_of(&line);
                    proof {
                        reveal_strlit(" ➜ ");
                    }
                    out.push(s);
                    assert(out@.map_values(|s: String| s@) =~= prev.push(s@));
                    assert(s@ =~= conversion_line(price_tag@, to@));
                    assert(out@.map_values(|s: String| s@) =~= conversion_lines_spec(price_tag@, rv.take(i + 1)));
                },
                Err(_) => {
                    assert(out@.map_values(|s: String| s@) =~= conversion_lines_spec(price_tag@, rv.take(i + 1)));
                },
            }
        }
        i = i + 1;
    }
    assert(rv.take(rates@.len() as int) =~= rv);
    out
}

} // verus!
