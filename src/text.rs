use vstd::prelude::*;

verus! {

/// Relies on `String::push`: appends one character at the end.
#[verifier::external_body]
pub(crate) fn push_char(s: &mut String, c: char)
    ensures
        final(s)@ == old(s)@.push(c),
{
    s.push(c);
}

/// The characters of `s`, in order.
pub fn chars_of(s: &str) -> (r: Vec<char>)
    ensures
        r@ == s@,
{
    let mut r: Vec<char> = Vec::new();
    for c in it: s.chars()
        invariant
            r@ == it.seq().take(it.index() as int),
    {
        r.push(c);
    }
    r
}

/// A string made of the characters `cs`, in order.
pub fn string_of(cs: &Vec<char>) -> (r: String)
    ensures
        r@ == cs@,
{
    let mut r = String::new();
    let mut i: usize = 0;
    while i < cs.len()
        invariant
            i <= cs.len(),
            r@ == cs@.take(i as int),
        decreases cs.len() - i,
    {
        push_char(&mut r, cs[i]);
        assert(cs@.take(i + 1) == cs@.take(i as int).push(cs@[i as int]));
        i += 1;
    }
    r
}

/// `s` with every occurrence of `from` replaced by `to`, scanning left to right
/// and never matching inside text that was already replaced. An empty `from`
/// leaves `s` as it is.
pub open spec fn replaced(s: Seq<char>, from: Seq<char>, to: Seq<char>) -> Seq<char>
    decreases s.len(),
{
    if from.len() == 0 || s.len() < from.len() {
        s
    } else if s.subrange(0, from.len() as int) == from {
        to + replaced(s.subrange(from.len() as int, s.len() as int), from, to)
    } else {
        seq![s[0]] + replaced(s.drop_first(), from, to)
    }
}

/// Whether `p` occurs in `s` at position `i`.
pub open spec fn occurs_at(s: Seq<char>, i: int, p: Seq<char>) -> bool {
    0 <= i && i + p.len() <= s.len() && s.subrange(i, i + p.len()) == p
}

/// Whether `p` occurs anywhere in `s`.
pub open spec fn contains_seq(s: Seq<char>, p: Seq<char>) -> bool {
    exists|i: int| occurs_at(s, i, p)
}

pub(crate) fn matches_at(s: &Vec<char>, i: usize, p: &Vec<char>) -> (r: bool)
    requires
        i <= s.len(),
    ensures
        r == occurs_at(s@, i as int, p@),
{
    if p.len() > s.len() - i {
        return false;
    }
    let mut k: usize = 0;
    while k < p.len()
        invariant
            i + p.len() <= s.len(),
            k <= p.len(),
            forall|j: int| 0 <= j < k ==> s@[i + j] == p@[j],
        decreases p.len() - k,
    {
        if s[i + k] != p[k] {
            assert(s@.subrange(i as int, i + p.len())[k as int] != p@[k as int]);
            return false;
        }
        k += 1;
    }
    assert(s@.subrange(i as int, i + p.len()) =~= p@);
    true
}

/// Whether `a` and `b` hold the same characters.
pub fn str_eq(a: &str, b: &str) -> (r: bool)
    ensures
        r == (a@ == b@),
{
    let ac = chars_of(a);
    let bc = chars_of(b);
    if ac.len() != bc.len() {
        return false;
    }
    let r = matches_at(&ac, 0, &bc);
    assert(ac@.subrange(0, bc@.len() as int) == ac@);
    r
}

/// Replaces every occurrence of `from` in `s` by `to`.
pub fn replace_all(s: &str, from: &str, to: &str) -> (r: String)
    ensures
        r@ == replaced(s@, from@, to@),
{
    let sc = chars_of(s);
    let fc = chars_of(from);
    let tc = chars_of(to);
    let n = sc.len();
    let m = fc.len();
    let mut out: Vec<char> = Vec::new();
    let mut i: usize = 0;
    if m == 0 {
        return string_of(&sc);
    }
    assert(sc@.subrange(0, n as int) == sc@);
    assert(out@ + replaced(sc@, fc@, tc@) == replaced(sc@, fc@, tc@));
    while i < n
        invariant
            n == sc@.len(),
            m == fc@.len(),
            m > 0,
            i <= n,
            out@ + replaced(sc@.subrange(i as int, n as int), fc@, tc@) == replaced(sc@, fc@, tc@),
        decreases n - i,
    {
        let ghost rest = sc@.subrange(i as int, n as int);
        if matches_at(&sc, i, &fc) {
            assert(rest.subrange(0, m as int) == sc@.subrange(i as int, i + m));
            assert(rest.subrange(m as int, rest.len() as int) == sc@.subrange(i + m, n as int));
            let mut k: usize = 0;
            let ghost before = out@;
            while k < tc.len()
                invariant
                    k <= tc.len(),
                    out@ == before + tc@.take(k as int),
                decreases tc.len() - k,
            {
                out.push(tc[k]);
                assert(tc@.take(k + 1) == tc@.take(k as int).push(tc@[k as int]));
                k += 1;
            }
            assert(tc@.take(tc@.len() as int) == tc@);
            assert(out@ + replaced(sc@.subrange(i + m, n as int), fc@, tc@) == before + (tc@
                + replaced(sc@.subrange(i + m, n as int), fc@, tc@)));
            i += m;
        } else {
            proof {
                if rest.len() >= m {
                    assert(rest.subrange(0, m as int) == sc@.subrange(i as int, i + m));
                }
            }
            assert(rest.drop_first() == sc@.subrange(i + 1, n as int));
            let ghost before = out@;
            out.push(sc[i]);
            assert(out@ + replaced(sc@.subrange(i + 1, n as int), fc@, tc@) == before + (seq![sc@[i as int]]
                + replaced(sc@.subrange(i + 1, n as int), fc@, tc@)));
            i += 1;
        }
    }
    assert(sc@.subrange(n as int, n as int).len() == 0);
    assert(out@ + replaced(sc@.subrange(n as int, n as int), fc@, tc@) == out@);
    string_of(&out)
}

/// Where `from` occurs in `s`, `to` occurs in `s` with `from` replaced.
pub proof fn lemma_replaced_shows_to(s: Seq<char>, from: Seq<char>, to: Seq<char>)
    requires
        from.len() > 0,
        contains_seq(s, from),
    ensures
        contains_seq(replaced(s, from, to), to),
    decreases s.len(),
{
    let m = from.len() as int;
    let p = choose|p: int| occurs_at(s, p, from);
    if s.subrange(0, m) == from {
        let r = replaced(s, from, to);
        assert(r.subrange(0, to.len() as int) =~= to);
        assert(occurs_at(r, 0, to));
    } else {
        assert(p != 0);
        assert(occurs_at(s.drop_first(), p - 1, from)) by {
            assert(s.drop_first().subrange(p - 1, p - 1 + m) =~= s.subrange(p, p + m));
        }
        lemma_replaced_shows_to(s.drop_first(), from, to);
        let q = choose|q: int| occurs_at(replaced(s.drop_first(), from, to), q, to);
        let r = replaced(s, from, to);
        assert(r == seq![s[0]] + replaced(s.drop_first(), from, to));
        assert(r.subrange(q + 1, q + 1 + to.len()) =~= replaced(s.drop_first(), from, to).subrange(
            q,
            q + to.len(),
        ));
        assert(occurs_at(r, q + 1, to));
    }
}

/// Whether no character of `t` occurs in `from`.
pub open spec fn shares_no_char(t: Seq<char>, from: Seq<char>) -> bool {
    forall|k: int| 0 <= k < t.len() ==> !from.contains(#[trigger] t[k])
}

proof fn lemma_replaced_skips(t: Seq<char>, b: Seq<char>, from: Seq<char>, to: Seq<char>)
    requires
        from.len() > 0,
        shares_no_char(t, from),
    ensures
        replaced(t + b, from, to) == t + replaced(b, from, to),
    decreases t.len(),
{
    if t.len() == 0 {
        assert(t + b =~= b);
    } else {
        let s = t + b;
        if s.len() >= from.len() && s.subrange(0, from.len() as int) == from {
            assert(from[0] == s[0]);
            assert(from.contains(t[0]));
        }
        assert(s.drop_first() =~= t.drop_first() + b);
        assert(shares_no_char(t.drop_first(), from)) by {
            assert forall|k: int| 0 <= k < t.drop_first().len() implies !from.contains(#[trigger] t.drop_first()[k]) by {
                assert(t.drop_first()[k] == t[k + 1]);
            }
        }
        lemma_replaced_skips(t.drop_first(), b, from, to);
        assert(t =~= seq![t[0]] + t.drop_first());
    }
}

/// A nonempty piece that shares no character with `from` passes through the
/// replacement unchanged, and splits it.
pub proof fn lemma_replaced_split(a: Seq<char>, t: Seq<char>, b: Seq<char>, from: Seq<char>, to: Seq<char>)
    requires
        from.len() > 0,
        t.len() > 0,
        shares_no_char(t, from),
    ensures
        replaced(a + t + b, from, to) == replaced(a, from, to) + t + replaced(b, from, to),
    decreases a.len(),
{
    let m = from.len() as int;
    let s = a + t + b;
    if a.len() == 0 {
        assert(s =~= t + b);
        lemma_replaced_skips(t, b, from, to);
    } else if s.len() >= m && s.subrange(0, m) == from {
        if m > a.len() {
            assert(from[a.len() as int] == t[0]);
            assert(from.contains(t[0]));
        }
        assert(a.subrange(0, m) =~= s.subrange(0, m));
        let rest = a.subrange(m, a.len() as int);
        assert(s.subrange(m, s.len() as int) =~= rest + t + b);
        lemma_replaced_split(rest, t, b, from, to);
    } else {
        if a.len() >= m {
            assert(a.subrange(0, m) =~= s.subrange(0, m));
        }
        assert(s.drop_first() =~= a.drop_first() + t + b);
        lemma_replaced_split(a.drop_first(), t, b, from, to);
        if a.len() < m {
            assert(replaced(a, from, to) == a);
            assert(replaced(a.drop_first(), from, to) == a.drop_first());
        }
        assert(a =~= seq![a[0]] + a.drop_first());
    }
}

/// A nonempty piece that shares no character with `from` still occurs after
/// `from` is replaced.
pub proof fn lemma_replaced_keeps(s: Seq<char>, from: Seq<char>, to: Seq<char>, t: Seq<char>)
    requires
        t.len() > 0,
        shares_no_char(t, from),
        contains_seq(s, t),
    ensures
        contains_seq(replaced(s, from, to), t),
{
    if from.len() > 0 {
        let p = choose|p: int| occurs_at(s, p, t);
        let a = s.subrange(0, p);
        let b = s.subrange(p + t.len(), s.len() as int);
        assert(s =~= a + t + b);
        lemma_replaced_split(a, t, b, from, to);
        let r = replaced(s, from, to);
        let ra = replaced(a, from, to);
        assert(r.subrange(ra.len() as int, (ra.len() + t.len()) as int) =~= t);
        assert(occurs_at(r, ra.len() as int, t));
    } else {
        let p = choose|p: int| occurs_at(s, p, t);
        assert(occurs_at(replaced(s, from, to), p, t));
    }
}

/// The characters that Unicode gives the `White_Space` property.
pub open spec fn is_ws(c: char) -> bool {
    ('\u{9}' <= c && c <= '\u{d}') || c == ' ' || c == '\u{85}' || c == '\u{a0}' || c == '\u{1680}'
        || ('\u{2000}' <= c && c <= '\u{200a}') || c == '\u{2028}' || c == '\u{2029}' || c
        == '\u{202f}' || c == '\u{205f}' || c == '\u{3000}'
}

/// Whether `c` is Unicode whitespace.
pub fn is_whitespace(c: char) -> (r: bool)
    ensures
        r == is_ws(c),
{
    ('\u{9}' <= c && c <= '\u{d}') || c == ' ' || c == '\u{85}' || c == '\u{a0}' || c == '\u{1680}'
        || ('\u{2000}' <= c && c <= '\u{200a}') || c == '\u{2028}' || c == '\u{2029}' || c
        == '\u{202f}' || c == '\u{205f}' || c == '\u{3000}'
}

/// `s` without the whitespace at its start.
pub open spec fn trim_start(s: Seq<char>) -> Seq<char>
    decreases s.len(),
{
    if s.len() > 0 && is_ws(s[0]) {
        trim_start(s.drop_first())
    } else {
        s
    }
}

/// `s` without the whitespace at its end.
pub open spec fn trim_end(s: Seq<char>) -> Seq<char>
    decreases s.len(),
{
    if s.len() > 0 && is_ws(s.last()) {
        trim_end(s.drop_last())
    } else {
        s
    }
}

/// `s` without the whitespace around it.
pub open spec fn trimmed(s: Seq<char>) -> Seq<char> {
    trim_end(trim_start(s))
}

pub(crate) fn trim_chars(s: &Vec<char>) -> (r: Vec<char>)
    ensures
        r@ == trimmed(s@),
{
    let n = s.len();
    let mut i: usize = 0;
    assert(s@.subrange(0, n as int) == s@);
    while i < n && is_whitespace(s[i])
        invariant
            i <= n == s@.len(),
            trim_start(s@) == trim_start(s@.subrange(i as int, n as int)),
        decreases n - i,
    {
        assert(s@.subrange(i as int, n as int).drop_first() == s@.subrange(i + 1, n as int));
        i += 1;
    }
    let mut j: usize = n;
    assert(trim_start(s@) == s@.subrange(i as int, n as int));
    while j > i && is_whitespace(s[j - 1])
        invariant
            i <= j <= n == s@.len(),
            trim_end(s@.subrange(i as int, n as int)) == trim_end(s@.subrange(i as int, j as int)),
        decreases j - i,
    {
        assert(s@.subrange(i as int, j as int).drop_last() == s@.subrange(i as int, j - 1));
        j -= 1;
    }
    let mut r: Vec<char> = Vec::new();
    let mut k: usize = i;
    while k < j
        invariant
            i <= k <= j <= n == s@.len(),
            r@ == s@.subrange(i as int, k as int),
        decreases j - k,
    {
        r.push(s[k]);
        assert(s@.subrange(i as int, k + 1) == s@.subrange(i as int, k as int).push(s@[k as int]));
        k += 1;
    }
    r
}

/// `s` without the whitespace around it.
pub fn trim(s: &str) -> (r: String)
    ensures
        r@ == trimmed(s@),
{
    let cs = chars_of(s);
    let t = trim_chars(&cs);
    string_of(&t)
}

/// The parts, with `sep` between each two of them.
pub open spec fn joined(parts: Seq<Seq<char>>, sep: Seq<char>) -> Seq<char>
    decreases parts.len(),
{
    if parts.len() == 0 {
        Seq::empty()
    } else if parts.len() == 1 {
        parts[0]
    } else {
        joined(parts.drop_last(), sep) + sep + parts.last()
    }
}

/// The strings of `parts`, with `sep` between each two of them.
pub fn join_strings(parts: &Vec<String>, sep: &str) -> (r: String)
    ensures
        r@ == joined(parts@.map_values(|s: String| s@), sep@),
{
    let ghost ps = parts@.map_values(|s: String| s@);
    let mut r = String::new();
    let mut i: usize = 0;
    while i < parts.len()
        invariant
            i <= parts.len(),
            ps == parts@.map_values(|s: String| s@),
            r@ == joined(ps.take(i as int), sep@),
        decreases parts.len() - i,
    {
        assert(ps.take(i + 1).drop_last() == ps.take(i as int));
        assert(ps.take(i + 1).last() == parts@[i as int]@);
        if i > 0 {
            r.append(sep);
        } else {
            assert(ps.take(0).len() == 0);
            assert(ps.take(1).len() == 1);
        }
        r.append(parts[i].as_str());
        i += 1;
    }
    assert(ps.take(parts.len() as int) == ps);
    r
}

} // verus!
