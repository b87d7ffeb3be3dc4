//! Prefix matching of text against ordered tables of phrases.
use vstd::prelude::*;

verus! {

/// `s` begins with `p`.
pub open spec fn is_prefix(p: Seq<char>, s: Seq<char>) -> bool {
    p.len() <= s.len() && s.take(p.len() as int) == p
}

/// Index of the first phrase of `table`, from index `i` on, that `s` begins with.
pub open spec fn first_match_from(table: Seq<Seq<char>>, s: Seq<char>, i: int) -> Option<int>
    decreases table.len() - i,
{
    if i < 0 || i >= table.len() {
        None
    } else if is_prefix(table[i], s) {
        Some(i)
    } else {
        first_match_from(table, s, i + 1)
    }
}

/// Index of the first phrase of `table` that `s` begins with.
pub open spec fn first_match(table: Seq<Seq<char>>, s: Seq<char>) -> Option<int> {
    first_match_from(table, s, 0)
}

/// `s` without the first phrase of `table` that it begins with, if any.
pub open spec fn skip_first_match(table: Seq<Seq<char>>, s: Seq<char>) -> Seq<char> {
    match first_match(table, s) {
        Some(k) => s.skip(table[k].len() as int),
        None => s,
    }
}

pub proof fn lemma_first_match_from(table: Seq<Seq<char>>, s: Seq<char>, i: int)
    requires
        0 <= i,
    ensures
        match first_match_from(table, s, i) {
            Some(k) => i <= k < table.len() && is_prefix(table[k], s) && forall|j: int|
                i <= j < k ==> !is_prefix(#[trigger] table[j], s),
            None => forall|j: int| i <= j < table.len() ==> !is_prefix(#[trigger] table[j], s),
        },
    decreases table.len() - i,
{
    if i < table.len() && !is_prefix(table[i], s) {
        lemma_first_match_from(table, s, i + 1);
    }
}

pub proof fn lemma_first_match(table: Seq<Seq<char>>, s: Seq<char>)
    ensures
        match first_match(table, s) {
            Some(k) => 0 <= k < table.len() && is_prefix(table[k], s) && forall|j: int|
                0 <= j < k ==> !is_prefix(#[trigger] table[j], s),
            None => forall|j: int| 0 <= j < table.len() ==> !is_prefix(#[trigger] table[j], s),
        },
{
    lemma_first_match_from(table, s, 0);
}

/// Whether the text of `s` from character `pos` on begins with `p`.
pub fn starts_with_at(s: &str, pos: usize, p: &str) -> (r: bool)
    requires
        pos <= s@.len(),
    ensures
        r == is_prefix(p@, s@.skip(pos as int)),
{
    let n = s.unicode_len();
    let m = p.unicode_len();
    if m > n - pos {
        return false;
    }
    let mut k: usize = 0;
    while k < m
        invariant
            n == s@.len(),
            m == p@.len(),
            pos + m <= n,
            k <= m,
            forall|j: int| 0 <= j < k ==> s@[pos + j] == p@[j],
        decreases m - k,
    {
        if s.get_char(pos + k) != p.get_char(k) {
            proof {
                assert(s@.skip(pos as int).take(m as int)[k as int] != p@[k as int]);
            }
            return false;
        }
        k = k + 1;
    }
    assert(s@.skip(pos as int).take(m as int) =~= p@);
    true
}

/// Whether two texts are equal.
pub fn same_text(a: &str, b: &str) -> (r: bool)
    ensures
        r == (a@ == b@),
{
    let n = a.unicode_len();
    if n != b.unicode_len() {
        return false;
    }
    let r = starts_with_at(a, 0, b);
    proof {
        assert(a@.skip(0) =~= a@);
        if r {
            assert(a@.take(n as int) =~= a@);
        }
    }
    r
}

/// Index of the first phrase of `table` that the text of `s` from `pos` on begins with.
pub fn first_match_at(s: &str, pos: usize, table: &Vec<&str>) -> (r: Option<usize>)
    requires
        pos <= s@.len(),
    ensures
        match r {
            Some(k) => first_match(crate::names::texts(table@), s@.skip(pos as int)) == Some(
                k as int,
            ),
            None => first_match(crate::names::texts(table@), s@.skip(pos as int)) is None,
        },
{
    let ghost t = crate::names::texts(table@);
    let ghost rest = s@.skip(pos as int);
    let mut i: usize = 0;
    while i < table.len()
        invariant
            i <= table@.len(),
            t == crate::names::texts(table@),
            rest == s@.skip(pos as int),
            pos <= s@.len(),
            first_match(t, rest) == first_match_from(t, rest, i as int),
        decreases table@.len() - i,
    {
        if starts_with_at(s, pos, table[i]) {
            return Some(i);
        }
        i = i + 1;
    }
    None
}

} // verus!
