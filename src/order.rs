use vstd::prelude::*;
use vstd::relations::{sorted_by, total_ordering};

use crate::text::chars_of;

verus! {

/// Lexicographic order on character sequences, by code point. On the UTF-8
/// encodings of the same strings this is byte-wise lexicographic order.
pub open spec fn lex_le(a: Seq<char>, b: Seq<char>) -> bool
    decreases a.len(),
{
    if a.len() == 0 {
        true
    } else if b.len() == 0 {
        false
    } else if a[0] != b[0] {
        a[0] < b[0]
    } else {
        lex_le(a.drop_first(), b.drop_first())
    }
}

/// `lex_le` as a relation.
pub open spec fn lex_order() -> spec_fn(Seq<char>, Seq<char>) -> bool {
    |a: Seq<char>, b: Seq<char>| lex_le(a, b)
}

/// The views of a sequence of strings.
pub open spec fn views(v: Seq<String>) -> Seq<Seq<char>> {
    v.map_values(|s: String| s@)
}

/// `s` in ascending lexicographic order.
pub open spec fn sorted_seqs(s: Seq<Seq<char>>) -> Seq<Seq<char>> {
    s.sort_by(lex_order())
}

proof fn lemma_lex_reflexive(a: Seq<char>)
    ensures
        lex_le(a, a),
    decreases a.len(),
{
    if a.len() > 0 {
        lemma_lex_reflexive(a.drop_first());
    }
}

/// Two sequences each at most the other are equal.
pub proof fn lemma_lex_antisymmetric(a: Seq<char>, b: Seq<char>)
    requires
        lex_le(a, b),
        lex_le(b, a),
    ensures
        a == b,
    decreases a.len(),
{
    if a.len() > 0 && b.len() > 0 {
        lemma_lex_antisymmetric(a.drop_first(), b.drop_first());
        assert(a =~= seq![a[0]] + a.drop_first());
        assert(b =~= seq![b[0]] + b.drop_first());
    }
}

/// `lex_le` is transitive.
pub proof fn lemma_lex_transitive(a: Seq<char>, b: Seq<char>, c: Seq<char>)
    requires
        lex_le(a, b),
        lex_le(b, c),
    ensures
        lex_le(a, c),
    decreases a.len(),
{
    if a.len() > 0 && b.len() > 0 && c.len() > 0 && a[0] == b[0] && b[0] == c[0] {
        lemma_lex_transitive(a.drop_first(), b.drop_first(), c.drop_first());
    }
}

/// Any two sequences are ordered one way or the other.
pub proof fn lemma_lex_total(a: Seq<char>, b: Seq<char>)
    ensures
        lex_le(a, b) || lex_le(b, a),
    decreases a.len(),
{
    if a.len() > 0 && b.len() > 0 && a[0] == b[0] {
        lemma_lex_total(a.drop_first(), b.drop_first());
    }
}

/// `lex_le` is a total order.
pub proof fn lemma_lex_total_ordering()
    ensures
        total_ordering(lex_order()),
{
    assert forall|a: Seq<char>| #[trigger] lex_order()(a, a) by {
        lemma_lex_reflexive(a);
    }
    assert forall|a: Seq<char>, b: Seq<char>| #[trigger]
        lex_order()(a, b) && #[trigger] lex_order()(b, a) implies a == b by {
        lemma_lex_antisymmetric(a, b);
    }
    assert forall|a: Seq<char>, b: Seq<char>, c: Seq<char>| #[trigger]
        lex_order()(a, b) && #[trigger] lex_order()(b, c) implies lex_order()(a, c) by {
        lemma_lex_transitive(a, b, c);
    }
    assert forall|a: Seq<char>, b: Seq<char>| #[trigger]
        lex_order()(a, b) || #[trigger] lex_order()(b, a) by {
        lemma_lex_total(a, b);
    }
}

/// A sequence that is sorted and holds what `s` holds is `s` sorted.
pub proof fn lemma_sorted_is_sort(r: Seq<Seq<char>>, s: Seq<Seq<char>>)
    requires
        sorted_by(r, lex_order()),
        r.to_multiset() == s.to_multiset(),
    ensures
        r == sorted_seqs(s),
{
    lemma_lex_total_ordering();
    s.lemma_sort_by_ensures(lex_order());
    vstd::seq_lib::lemma_sorted_unique(r, sorted_seqs(s), lex_order());
}

/// Inserting `x` into a sorted sequence before the first element that is not
/// below it keeps the sequence sorted, and adds `x` to what it holds.
pub proof fn lemma_insert_sorted(vo: Seq<Seq<char>>, p: int, x: Seq<char>)
    requires
        sorted_by(vo, lex_order()),
        0 <= p <= vo.len(),
        forall|q: int| 0 <= q < p ==> !lex_le(x, #[trigger] vo[q]),
        p < vo.len() ==> lex_le(x, vo[p]),
    ensures
        sorted_by(vo.insert(p, x), lex_order()),
        vo.insert(p, x).to_multiset() == vo.to_multiset().insert(x),
{
    let vr = vo.insert(p, x);
    assert forall|j: int| p <= j < vo.len() implies lex_le(x, #[trigger] vo[j]) by {
        if j > p {
            assert(lex_order()(vo[p], vo[j]));
            lemma_lex_transitive(x, vo[p], vo[j]);
        }
    }
    assert forall|i: int| 0 <= i < p implies lex_le(#[trigger] vo[i], x) by {
        lemma_lex_total(vo[i], x);
    }
    assert forall|i: int, j: int| 0 <= i < j < vr.len() implies lex_order()(vr[i], vr[j]) by {
        if j < p {
            assert(lex_order()(vo[i], vo[j]));
        } else if i < p && j == p {
        } else if i < p {
            assert(lex_le(x, vo[j - 1]));
            lemma_lex_transitive(vr[i], x, vr[j]);
        } else if i == p {
            assert(lex_le(x, vo[j - 1]));
        } else {
            assert(lex_order()(vo[i - 1], vo[j - 1]));
        }
    }
    assert(vr.remove(p) =~= vo);
    vr.to_multiset_ensures();
    assert(vr.to_multiset().remove(x) == vo.to_multiset());
    assert(vr.to_multiset().count(x) > 0) by {
        assert(vr[p] == x);
        assert(vr.contains(x));
    }
    assert(vr.to_multiset() =~= vo.to_multiset().insert(x));
}

pub(crate) fn lex_le_chars(a: &Vec<char>, b: &Vec<char>) -> (r: bool)
    ensures
        r == lex_le(a@, b@),
{
    let mut i: usize = 0;
    assert(a@.subrange(0, a@.len() as int) == a@);
    assert(b@.subrange(0, b@.len() as int) == b@);
    while i < a.len() && i < b.len() && a[i] == b[i]
        invariant
            i <= a.len(),
            i <= b.len(),
            lex_le(a@, b@) == lex_le(a@.subrange(i as int, a@.len() as int), b@.subrange(i as int, b@.len() as int)),
        decreases a.len() - i,
    {
        assert(a@.subrange(i as int, a@.len() as int).drop_first() == a@.subrange(i + 1, a@.len() as int));
        assert(b@.subrange(i as int, b@.len() as int).drop_first() == b@.subrange(i + 1, b@.len() as int));
        i += 1;
    }
    if i == a.len() {
        true
    } else if i == b.len() {
        false
    } else {
        a[i] < b[i]
    }
}

/// Whether `a` comes before `b` or equals it, lexicographically.
pub fn str_le(a: &str, b: &str) -> (r: bool)
    ensures
        r == lex_le(a@, b@),
{
    let ac = chars_of(a);
    let bc = chars_of(b);
    lex_le_chars(&ac, &bc)
}

/// The strings of `v` in ascending lexicographic order.
pub fn sort_strings(v: Vec<String>) -> (r: Vec<String>)
    ensures
        views(r@) == sorted_seqs(views(v@)),
{
    let mut r: Vec<String> = Vec::new();
    let mut k: usize = 0;
    assert(views(r@) =~= views(v@.take(0)));
    while k < v.len()
        invariant
            k <= v.len(),
            sorted_by(views(r@), lex_order()),
            views(r@).to_multiset() == views(v@.take(k as int)).to_multiset(),
        decreases v.len() - k,
    {
        let x = v[k].clone();
        let mut p: usize = 0;
        while p < r.len() && !str_le(x.as_str(), r[p].as_str())
            invariant
                p <= r.len(),
                forall|q: int| 0 <= q < p ==> !lex_le(x@, #[trigger] r@[q]@),
            decreases r.len() - p,
        {
            p += 1;
        }
        let ghost old_r = r@;
        proof {
            assert(p < old_r.len() ==> lex_le(x@, views(old_r)[p as int]));
            assert forall|q: int| 0 <= q < p implies !lex_le(x@, #[trigger] views(old_r)[q]) by {
                assert(!lex_le(x@, old_r[q]@));
            }
            lemma_insert_sorted(views(old_r), p as int, x@);
        }
        r.insert(p, x);
        proof {
            assert(views(r@) =~= views(old_r).insert(p as int, x@));
            assert(views(v@.take(k + 1)) =~= views(v@.take(k as int)).push(x@));
            views(v@.take(k as int)).to_multiset_ensures();
        }
        k += 1;
    }
    proof {
        assert(v@.take(v@.len() as int) == v@);
        lemma_sorted_is_sort(views(r@), views(v@));
    }
    r
}

} // verus!
