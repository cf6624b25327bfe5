//! Characters of a text, and the correspondence between byte offsets and
//! character offsets in its UTF-8 encoding.

use vstd::prelude::*;

verus! {

/// The characters of `s`, in order.
pub fn chars_of(s: &str) -> (r: Vec<char>)
    ensures
        r@ == s@,
{
    let mut v: Vec<char> = Vec::new();
    for c in it: s.chars()
        invariant
            v@ == it.seq().take(it.index() as int),
    {
        v.push(c);
    }
    v
}

} // verus!

verus! {

/// Number of bytes of `c` in UTF-8.
pub open spec fn utf8_width(c: char) -> nat {
    let u = c as u32;
    if u < 0x80 {
        1
    } else if u < 0x800 {
        2
    } else if u < 0x10000 {
        3
    } else {
        4
    }
}

/// Byte offset, in the UTF-8 encoding of `t`, of the character at index `i`.
pub open spec fn byte_offset(t: Seq<char>, i: int) -> nat
    decreases i,
{
    if i <= 0 {
        0
    } else {
        byte_offset(t, i - 1) + utf8_width(t[i - 1])
    }
}

/// Character index whose byte offset in `t` is `b`, if `b` falls on a
/// character boundary.
pub open spec fn char_index_of_byte(t: Seq<char>, b: int) -> Option<int> {
    if exists|i: int| 0 <= i <= t.len() && byte_offset(t, i) == b {
        Some(choose|i: int| 0 <= i <= t.len() && byte_offset(t, i) == b)
    } else {
        None
    }
}

/// Byte offsets grow strictly with the character index.
pub proof fn lemma_byte_offset_strict(t: Seq<char>, i: int, j: int)
    requires
        0 <= i < j,
    ensures
        byte_offset(t, i) < byte_offset(t, j),
    decreases j - i,
{
    if j > i + 1 {
        lemma_byte_offset_strict(t, i, j - 1);
    }
}

pub proof fn lemma_byte_offset_bound(t: Seq<char>, i: int)
    requires
        0 <= i,
    ensures
        i <= byte_offset(t, i) <= 4 * i,
    decreases i,
{
    if i > 0 {
        lemma_byte_offset_bound(t, i - 1);
    }
}

/// The character index of the byte offset of character `i` is `i`: a byte
/// offset that falls on a boundary names exactly one character position.
pub proof fn lemma_char_index_of_byte_offset(t: Seq<char>, i: int)
    requires
        0 <= i <= t.len(),
    ensures
        char_index_of_byte(t, byte_offset(t, i) as int) == Some(i),
{
    let b = byte_offset(t, i) as int;
    assert(0 <= i <= t.len() && byte_offset(t, i) == b);
    let k = choose|k: int| 0 <= k <= t.len() && byte_offset(t, k) == b;
    if k < i {
        lemma_byte_offset_strict(t, k, i);
    } else if i < k {
        lemma_byte_offset_strict(t, i, k);
    }
}

/// Byte offset of every character position of `t`, and of its end.
pub fn byte_offsets(t: &Vec<char>) -> (r: Vec<u128>)
    ensures
        r.len() == t.len() + 1,
        forall|i: int| 0 <= i <= t.len() ==> r[i] == byte_offset(t@, i),
{
    let mut r: Vec<u128> = Vec::new();
    let mut off: u128 = 0;
    r.push(0);
    let mut i: usize = 0;
    while i < t.len()
        invariant
            i <= t.len(),
            r.len() == i + 1,
            off == byte_offset(t@, i as int),
            forall|k: int| 0 <= k <= i ==> r[k] == byte_offset(t@, k),
        decreases t.len() - i,
    {
        proof {
            lemma_byte_offset_bound(t@, i as int);
        }
        let u = t[i] as u32;
        let w: u128 = if u < 0x80 {
            1
        } else if u < 0x800 {
            2
        } else if u < 0x10000 {
            3
        } else {
            4
        };
        off = off + w;
        i = i + 1;
        r.push(off);
    }
    r
}

/// Character index of byte offset `b`, given the byte offsets of the
/// character positions of `t`.
pub(crate) fn find_char_index(offsets: &Vec<u128>, b: usize, t: Ghost<Seq<char>>) -> (r: Option<usize>)
    requires
        offsets.len() == t@.len() + 1,
        forall|i: int| 0 <= i <= t@.len() ==> offsets[i] == byte_offset(t@, i),
    ensures
        r matches Some(i) ==> char_index_of_byte(t@, b as int) == Some(i as int),
        r is None ==> char_index_of_byte(t@, b as int) is None,
{
    let mut i: usize = 0;
    while i < offsets.len()
        invariant
            i <= offsets.len(),
            offsets.len() == t@.len() + 1,
            forall|k: int| 0 <= k <= t@.len() ==> offsets[k] == byte_offset(t@, k),
            forall|k: int| 0 <= k < i ==> byte_offset(t@, k) != b,
        decreases offsets.len() - i,
    {
        if offsets[i] == b as u128 {
            proof {
                lemma_char_index_of_byte_offset(t@, i as int);
            }
            return Some(i);
        }
        i = i + 1;
    }
    None
}

} // verus!

verus! {

/// Whether `a` and `b` hold the same characters.
pub fn str_eq(a: &str, b: &str) -> (r: bool)
    ensures
        r == (a@ == b@),
{
    let x = chars_of(a);
    let y = chars_of(b);
    if x.len() != y.len() {
        return false;
    }
    let mut i: usize = 0;
    while i < x.len()
        invariant
            i <= x.len(),
            x.len() == y.len(),
            x@ == a@,
            y@ == b@,
            forall|k: int| 0 <= k < i ==> x[k] == y[k],
        decreases x.len() - i,
    {
        if x[i] != y[i] {
            return false;
        }
        i = i + 1;
    }
    assert(x@ =~= y@);
    true
}

} // verus!

verus! {

/// The string made of the characters of `v`, in order.
///
/// Relies on std's `FromIterator<char>` for `String`, which appends each
/// character in turn.
#[verifier::external_body]
pub(crate) fn string_of(v: &Vec<char>) -> (r: String)
    ensures
        r@ == v@,
{
    v.iter().collect()
}

} // verus!
