use vstd::prelude::*;

use crate::order::views;
use crate::text::{chars_of, occurs_at, push_char};

verus! {

/// The lines finished so far, and the line being read, after reading `s`.
pub open spec fn split_state(s: Seq<char>) -> (Seq<Seq<char>>, Seq<char>)
    decreases s.len(),
{
    if s.len() == 0 {
        (Seq::empty(), Seq::empty())
    } else {
        let (done, cur) = split_state(s.drop_last());
        if s.last() == '\n' {
            (done.push(cur), Seq::empty())
        } else {
            (done, cur.push(s.last()))
        }
    }
}

/// The pieces of `s` between line feeds: one more than there are line feeds.
pub open spec fn lines_of(s: Seq<char>) -> Seq<Seq<char>> {
    split_state(s).0.push(split_state(s).1)
}

/// The pieces of `s` between line feeds, in order.
pub fn split_lines(s: &str) -> (r: Vec<String>)
    ensures
        views(r@) == lines_of(s@),
{
    let cs = chars_of(s);
    let mut done: Vec<String> = Vec::new();
    let mut cur = String::new();
    let mut i: usize = 0;
    while i < cs.len()
        invariant
            i <= cs.len(),
            (views(done@), cur@) == split_state(cs@.take(i as int)),
        decreases cs.len() - i,
    {
        assert(cs@.take(i + 1).drop_last() == cs@.take(i as int));
        if cs[i] == '\n' {
            let ghost before = done@;
            done.push(cur);
            assert(views(done@) =~= views(before).push(split_state(cs@.take(i as int)).1));
            cur = String::new();
        } else {
            push_char(&mut cur, cs[i]);
        }
        i += 1;
    }
    assert(cs@.take(cs.len() as int) == cs@);
    let ghost before = done@;
    done.push(cur);
    assert(views(done@) =~= views(before).push(split_state(s@).1));
    done
}

/// Where `p` first occurs in `s` at or after position `i`.
pub open spec fn find_from(s: Seq<char>, p: Seq<char>, i: int) -> Option<int>
    decreases s.len() + 1 - i,
{
    if i < 0 || i + p.len() > s.len() {
        None
    } else if occurs_at(s, i, p) {
        Some(i)
    } else {
        find_from(s, p, i + 1)
    }
}

/// Where `c` first occurs in `s`.
pub open spec fn index_of(s: Seq<char>, c: char) -> Option<int> {
    find_from(s, seq![c], 0)
}

/// The start of `s` up to the first `c`, or all of `s` where it holds none.
pub open spec fn take_until(s: Seq<char>, c: char) -> Seq<char> {
    match index_of(s, c) {
        Some(k) => s.take(k),
        None => s,
    }
}

pub(crate) fn find_chars(s: &Vec<char>, p: &Vec<char>, start: usize) -> (r: Option<usize>)
    requires
        start <= s.len(),
    ensures
        r matches Some(k) ==> find_from(s@, p@, start as int) == Some(k as int) && k + p.len()
            <= s.len(),
        r is None ==> find_from(s@, p@, start as int) is None,
{
    let mut i: usize = start;
    while i < s.len() && p.len() <= s.len() - i
        invariant
            start <= i <= s.len(),
            find_from(s@, p@, start as int) == find_from(s@, p@, i as int),
        decreases s.len() - i,
    {
        if crate::text::matches_at(s, i, p) {
            return Some(i);
        }
        i += 1;
    }
    if p.len() <= s.len() - i {
        assert(i == s.len());
        if crate::text::matches_at(s, i, p) {
            return Some(i);
        }
        assert(find_from(s@, p@, i + 1) is None);
    }
    None
}

proof fn lemma_find_char(s: Seq<char>, c: char, i: int)
    requires
        0 <= i <= s.len(),
    ensures
        find_from(s, seq![c], i) is None <==> forall|j: int| i <= j < s.len() ==> s[j] != c,
        find_from(s, seq![c], i) matches Some(k) ==> i <= k < s.len() && s[k] == c && forall|j: int|
            i <= j < k ==> s[j] != c,
    decreases s.len() - i,
{
    if i < s.len() {
        assert(s.subrange(i, i + 1) =~= seq![s[i]]);
        if s[i] != c {
            assert(s.subrange(i, i + 1) != seq![c]) by {
                assert(s.subrange(i, i + 1)[0] != seq![c][0]);
            }
        }
        lemma_find_char(s, c, i + 1);
    }
}

/// `index_of` finds the first occurrence of `c`, and finds none exactly
/// where `s` does not hold `c`.
pub proof fn lemma_index_of_none(s: Seq<char>, c: char)
    ensures
        index_of(s, c) is None <==> !s.contains(c),
        index_of(s, c) matches Some(k) ==> 0 <= k < s.len() && s[k] == c && forall|j: int|
            0 <= j < k ==> s[j] != c,
{
    lemma_find_char(s, c, 0);
}

} // verus!
