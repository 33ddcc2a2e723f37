use vstd::prelude::*;

use crate::manifest::CategoryManifest;
use crate::metadata::LinkEntry;
use crate::order::views;
use crate::serialize::{
    escape_char, escaped, json_array, json_member, json_object, json_string, links_json,
    manifest_entry, manifest_members, manifests_json,
};
use crate::text::{joined, occurs_at};

verus! {

/// A JSON value made of strings, arrays and objects; an object keeps its
/// members in order.
pub enum JsonValue {
    Str(Seq<char>),
    Arr(Seq<JsonValue>),
    Obj(Seq<(Seq<char>, JsonValue)>),
}

/// The characters that JSON allows in a string only when escaped.
pub open spec fn is_control(c: char) -> bool {
    '\u{0}' <= c && c <= '\u{1f}'
}

/// Reads the rest of a JSON string from position `i`, up to and including its
/// closing quote: the characters it stands for, and the position after it.
pub open spec fn string_body_at(s: Seq<char>, i: int) -> Option<(Seq<char>, int)>
    decreases s.len() - i,
{
    if i < 0 || i >= s.len() {
        None
    } else if s[i] == '"' {
        Some((Seq::empty(), i + 1))
    } else if s[i] == '\\' {
        if i + 1 < s.len() && (s[i + 1] == '\\' || s[i + 1] == '"') {
            let c = s[i + 1];
            match string_body_at(s, i + 2) {
                Some((d, j)) => Some((seq![c] + d, j)),
                None => None,
            }
        } else {
            None
        }
    } else if is_control(s[i]) {
        None
    } else {
        match string_body_at(s, i + 1) {
            Some((d, j)) => Some((seq![s[i]] + d, j)),
            None => None,
        }
    }
}

/// Reads a JSON string that starts at position `i`.
pub open spec fn string_at(s: Seq<char>, i: int) -> Option<(Seq<char>, int)> {
    if 0 <= i < s.len() && s[i] == '"' {
        string_body_at(s, i + 1)
    } else {
        None
    }
}

/// Reads a JSON value (a string, an array or an object, written without
/// spaces) that starts at position `i`: the value and the position after it.
pub open spec fn value_at(s: Seq<char>, i: int) -> Option<(JsonValue, int)>
    decreases s.len() - i, 0int,
{
    if i < 0 || i >= s.len() {
        None
    } else if s[i] == '"' {
        match string_at(s, i) {
            Some((x, j)) => Some((JsonValue::Str(x), j)),
            None => None,
        }
    } else if s[i] == '[' {
        if i + 1 < s.len() && s[i + 1] == ']' {
            Some((JsonValue::Arr(Seq::empty()), i + 2))
        } else {
            match items_at(s, i + 1) {
                Some((vs, j)) => Some((JsonValue::Arr(vs), j)),
                None => None,
            }
        }
    } else if s[i] == '{' {
        if i + 1 < s.len() && s[i + 1] == '}' {
            Some((JsonValue::Obj(Seq::empty()), i + 2))
        } else {
            match members_at(s, i + 1) {
                Some((ms, j)) => Some((JsonValue::Obj(ms), j)),
                None => None,
            }
        }
    } else {
        None
    }
}

/// Reads the elements of an array from its first element to its closing
/// bracket.
pub open spec fn items_at(s: Seq<char>, i: int) -> Option<(Seq<JsonValue>, int)>
    decreases s.len() - i, 1int,
{
    if i < 0 || i >= s.len() {
        None
    } else {
        match value_at(s, i) {
            Some((v, j)) => if j <= i || j >= s.len() {
                None
            } else if s[j] == ']' {
                Some((seq![v], j + 1))
            } else if s[j] == ',' {
                match items_at(s, j + 1) {
                    Some((vs, k)) => Some((seq![v] + vs, k)),
                    None => None,
                }
            } else {
                None
            },
            None => None,
        }
    }
}

/// Reads the members of an object from its first member to its closing
/// brace.
pub open spec fn members_at(s: Seq<char>, i: int) -> Option<(Seq<(Seq<char>, JsonValue)>, int)>
    decreases s.len() - i, 1int,
{
    if i < 0 || i >= s.len() {
        None
    } else {
        match string_at(s, i) {
            Some((k, j)) => if j <= i || j + 1 >= s.len() || s[j] != ':' {
                None
            } else {
                match value_at(s, j + 1) {
                    Some((v, l)) => if l <= j || l >= s.len() {
                        None
                    } else if s[l] == '}' {
                        Some((seq![(k, v)], l + 1))
                    } else if s[l] == ',' {
                        match members_at(s, l + 1) {
                            Some((ms, n)) => Some((seq![(k, v)] + ms, n)),
                            None => None,
                        }
                    } else {
                        None
                    },
                    None => None,
                }
            },
            None => None,
        }
    }
}

/// Reads a whole text as one JSON value.
pub open spec fn parse_json(s: Seq<char>) -> Option<JsonValue> {
    match value_at(s, 0) {
        Some((v, j)) => if j == s.len() {
            Some(v)
        } else {
            None
        },
        None => None,
    }
}

/// Whether `x` holds no character that JSON allows only when escaped.
pub open spec fn plain(x: Seq<char>) -> bool {
    forall|k: int| 0 <= k < x.len() ==> !is_control(#[trigger] x[k])
}

/// Whether, wherever `enc` stands in `s`, it reads as `v`.
pub open spec fn parses_to(s: Seq<char>, enc: Seq<char>, v: JsonValue) -> bool {
    forall|p: int| #[trigger] occurs_at(s, p, enc) ==> value_at(s, p) == Some((v, p + enc.len()))
}

proof fn lemma_occurs_split(s: Seq<char>, i: int, a: Seq<char>, b: Seq<char>)
    requires
        occurs_at(s, i, a + b),
    ensures
        occurs_at(s, i, a),
        occurs_at(s, i + a.len(), b),
{
    let w = s.subrange(i, i + (a + b).len());
    assert(w == a + b);
    assert(s.subrange(i, i + a.len()) =~= w.subrange(0, a.len() as int));
    assert(w.subrange(0, a.len() as int) =~= a);
    assert(s.subrange(i + a.len(), i + a.len() + b.len()) =~= w.subrange(a.len() as int, w.len() as int));
    assert(w.subrange(a.len() as int, w.len() as int) =~= b);
}

proof fn lemma_occurs_char(s: Seq<char>, i: int, c: char)
    requires
        occurs_at(s, i, seq![c]),
    ensures
        0 <= i < s.len(),
        s[i] == c,
{
    assert(s.subrange(i, i + 1)[0] == s[i]);
}

proof fn lemma_escaped_front(x: Seq<char>)
    requires
        x.len() > 0,
    ensures
        escaped(x) == escape_char(x[0]) + escaped(x.drop_first()),
    decreases x.len(),
{
    if x.len() == 1 {
        assert(x.drop_last().len() == 0);
        assert(x.drop_first().len() == 0);
        assert(escaped(x.drop_last()) == Seq::<char>::empty());
        assert(escaped(x.drop_first()) == Seq::<char>::empty());
        assert(escaped(x) == escaped(x.drop_last()) + escape_char(x.last()));
        assert(x.last() == x[0]);
        assert(escaped(x) =~= escape_char(x[0]) + escaped(x.drop_first()));
    } else {
        let dl = x.drop_last();
        let df = x.drop_first();
        lemma_escaped_front(dl);
        assert(dl.drop_first() =~= df.drop_last());
        assert(df.last() == x.last());
        assert(dl[0] == x[0]);
        assert(escaped(x) == escaped(dl) + escape_char(x.last()));
        assert(escaped(df) == escaped(df.drop_last()) + escape_char(df.last()));
        assert(escaped(x) =~= escape_char(x[0]) + escaped(x.drop_first()));
    }
}

proof fn lemma_string_body(s: Seq<char>, i: int, x: Seq<char>)
    requires
        plain(x),
        occurs_at(s, i, escaped(x) + seq!['"']),
    ensures
        string_body_at(s, i) == Some((x, i + escaped(x).len() + 1)),
    decreases x.len(),
{
    if x.len() == 0 {
        assert(escaped(x) + seq!['"'] =~= seq!['"']);
        lemma_occurs_char(s, i, '"');
    } else {
        let c = x[0];
        let t = x.drop_first();
        lemma_escaped_front(x);
        assert(plain(t)) by {
            assert forall|k: int| 0 <= k < t.len() implies !is_control(#[trigger] t[k]) by {
                assert(t[k] == x[k + 1]);
            }
        }
        assert(!is_control(c)) by {
            assert(!is_control(x[0]));
        }
        assert(escaped(x) + seq!['"'] =~= escape_char(c) + (escaped(t) + seq!['"']));
        lemma_occurs_split(s, i, escape_char(c), escaped(t) + seq!['"']);
        if c == '\\' || c == '"' {
            assert(escape_char(c) =~= seq!['\\'] + seq![c]);
            lemma_occurs_split(s, i, seq!['\\'], seq![c]);
            lemma_occurs_char(s, i, '\\');
            lemma_occurs_char(s, i + 1, c);
            lemma_string_body(s, i + 2, t);
            assert(seq![c] + t =~= x);
        } else {
            assert(escape_char(c) =~= seq![c]);
            lemma_occurs_char(s, i, c);
            lemma_string_body(s, i + 1, t);
            assert(seq![c] + t =~= x);
        }
    }
}

/// A plain string reads back as itself wherever its encoding stands.
pub proof fn lemma_string_parses(s: Seq<char>, x: Seq<char>)
    requires
        plain(x),
    ensures
        parses_to(s, json_string(x), JsonValue::Str(x)),
{
    assert forall|p: int| #[trigger] occurs_at(s, p, json_string(x)) implies value_at(s, p) == Some(
        (JsonValue::Str(x), p + json_string(x).len()),
    ) by {
        assert(json_string(x) =~= seq!['"'] + (escaped(x) + seq!['"']));
        lemma_occurs_split(s, p, seq!['"'], escaped(x) + seq!['"']);
        lemma_occurs_char(s, p, '"');
        lemma_string_body(s, p + 1, x);
    }
}

proof fn lemma_joined_front(parts: Seq<Seq<char>>, sep: Seq<char>)
    requires
        parts.len() >= 2,
    ensures
        joined(parts, sep) == parts[0] + sep + joined(parts.drop_first(), sep),
    decreases parts.len(),
{
    let dl = parts.drop_last();
    let df = parts.drop_first();
    assert(dl[0] == parts[0]);
    if parts.len() == 2 {
        assert(dl.len() == 1);
        assert(df.len() == 1);
        assert(df[0] == parts.last());
        assert(joined(parts, sep) == joined(dl, sep) + sep + parts.last());
    } else {
        lemma_joined_front(dl, sep);
        assert(dl.drop_first() =~= df.drop_last());
        assert(df.last() == parts.last());
        assert(joined(parts, sep) == joined(dl, sep) + sep + parts.last());
        assert(joined(df, sep) == joined(df.drop_last(), sep) + sep + df.last());
        assert(joined(parts, sep) =~= parts[0] + sep + joined(df, sep));
    }
}

/// The encoding of one member given as name, encoded value and value.
pub open spec fn member_enc(t: (Seq<char>, Seq<char>, JsonValue)) -> Seq<char> {
    json_member(t.0, t.1)
}

/// The member given as name, encoded value and value, as it is read.
pub open spec fn member_pair(t: (Seq<char>, Seq<char>, JsonValue)) -> (Seq<char>, JsonValue) {
    (t.0, t.2)
}

/// Whether each member has a plain name and a value encoding that reads as
/// its value.
pub open spec fn members_ok(s: Seq<char>, ts: Seq<(Seq<char>, Seq<char>, JsonValue)>) -> bool {
    forall|k: int| 0 <= k < ts.len() ==> plain(#[trigger] ts[k].0) && parses_to(s, ts[k].1, ts[k].2)
}

proof fn lemma_members(s: Seq<char>, i: int, ts: Seq<(Seq<char>, Seq<char>, JsonValue)>)
    requires
        ts.len() >= 1,
        members_ok(s, ts),
        occurs_at(s, i, joined(ts.map_values(|t| member_enc(t)), seq![',']) + seq!['}']),
    ensures
        members_at(s, i) == Some(
            (
                ts.map_values(|t| member_pair(t)),
                i + joined(ts.map_values(|t| member_enc(t)), seq![',']).len() + 1,
            ),
        ),
    decreases ts.len(),
{
    let encs = ts.map_values(|t| member_enc(t));
    let t0 = ts[0];
    assert(plain(t0.0) && parses_to(s, t0.1, t0.2));
    let rest = ts.drop_first();
    let tail: Seq<char> = if ts.len() == 1 {
        seq!['}']
    } else {
        seq![','] + (joined(rest.map_values(|t| member_enc(t)), seq![',']) + seq!['}'])
    };
    if ts.len() >= 2 {
        lemma_joined_front(encs, seq![',']);
        assert(encs.drop_first() =~= rest.map_values(|t| member_enc(t)));
    }
    assert(joined(encs, seq![',']) + seq!['}'] =~= json_string(t0.0) + (seq![':'] + (t0.1 + tail)));
    lemma_occurs_split(s, i, json_string(t0.0), seq![':'] + (t0.1 + tail));
    let j = i + json_string(t0.0).len();
    lemma_occurs_split(s, j, seq![':'], t0.1 + tail);
    lemma_occurs_split(s, j + 1, t0.1, tail);
    lemma_occurs_char(s, j, ':');
    lemma_string_parses(s, t0.0);
    assert(string_at(s, i) == Some((t0.0, j))) by {
        assert(value_at(s, i) == Some((JsonValue::Str(t0.0), j)));
        assert(s.subrange(i, i + json_string(t0.0).len())[0] == s[i]);
    }
    let l = j + 1 + t0.1.len();
    assert(value_at(s, j + 1) == Some((t0.2, l)));
    if ts.len() == 1 {
        lemma_occurs_char(s, l, '}');
        assert(ts.map_values(|t| member_pair(t)) =~= seq![(t0.0, t0.2)]);
    } else {
        lemma_occurs_split(s, l, seq![','], joined(rest.map_values(|t| member_enc(t)), seq![',']) + seq!['}']);
        lemma_occurs_char(s, l, ',');
        assert(members_ok(s, rest)) by {
            assert forall|k: int| 0 <= k < rest.len() implies plain(#[trigger] rest[k].0) && parses_to(s, rest[k].1, rest[k].2) by {
                assert(rest[k] == ts[k + 1]);
            }
        }
        lemma_members(s, l + 1, rest);
        assert(ts.map_values(|t| member_pair(t)) =~= seq![(t0.0, t0.2)] + rest.map_values(|t| member_pair(t)));
    }
}

/// An object whose members read as their values reads back as those members,
/// in order.
pub proof fn lemma_object_parses(s: Seq<char>, ts: Seq<(Seq<char>, Seq<char>, JsonValue)>)
    requires
        members_ok(s, ts),
    ensures
        parses_to(
            s,
            json_object(ts.map_values(|t| member_enc(t))),
            JsonValue::Obj(ts.map_values(|t| member_pair(t))),
        ),
{
    let encs = ts.map_values(|t| member_enc(t));
    let enc = json_object(encs);
    assert forall|p: int| #[trigger] occurs_at(s, p, enc) implies value_at(s, p) == Some(
        (JsonValue::Obj(ts.map_values(|t| member_pair(t))), p + enc.len()),
    ) by {
        assert(enc =~= seq!['{'] + (joined(encs, seq![',']) + seq!['}']));
        lemma_occurs_split(s, p, seq!['{'], joined(encs, seq![',']) + seq!['}']);
        lemma_occurs_char(s, p, '{');
        if ts.len() == 0 {
            assert(joined(encs, seq![',']) + seq!['}'] =~= seq!['}']);
            lemma_occurs_char(s, p + 1, '}');
            assert(ts.map_values(|t| member_pair(t)) =~= Seq::empty());
        } else {
            let t0 = ts[0];
            if ts.len() >= 2 {
                lemma_joined_front(encs, seq![',']);
            }
            assert(joined(encs, seq![',']) + seq!['}'] =~= seq!['"'] + (joined(encs, seq![',']) + seq!['}']).drop_first()) by {
                assert(encs[0] == json_string(t0.0) + seq![':'] + t0.1);
            }
            lemma_occurs_split(s, p + 1, seq!['"'], (joined(encs, seq![',']) + seq!['}']).drop_first());
            lemma_occurs_char(s, p + 1, '"');
            lemma_members(s, p + 1, ts);
        }
    }
}

proof fn lemma_items(s: Seq<char>, i: int, xs: Seq<Seq<char>>)
    requires
        xs.len() >= 1,
        forall|k: int| 0 <= k < xs.len() ==> plain(#[trigger] xs[k]),
        occurs_at(s, i, joined(xs.map_values(|x: Seq<char>| json_string(x)), seq![',']) + seq![']']),
    ensures
        items_at(s, i) == Some(
            (
                xs.map_values(|x: Seq<char>| JsonValue::Str(x)),
                i + joined(xs.map_values(|x: Seq<char>| json_string(x)), seq![',']).len() + 1,
            ),
        ),
    decreases xs.len(),
{
    let encs = xs.map_values(|x: Seq<char>| json_string(x));
    let x0 = xs[0];
    let rest = xs.drop_first();
    let tail: Seq<char> = if xs.len() == 1 {
        seq![']']
    } else {
        seq![','] + (joined(rest.map_values(|x: Seq<char>| json_string(x)), seq![',']) + seq![']'])
    };
    if xs.len() >= 2 {
        lemma_joined_front(encs, seq![',']);
        assert(encs.drop_first() =~= rest.map_values(|x: Seq<char>| json_string(x)));
    }
    assert(joined(encs, seq![',']) + seq![']'] =~= json_string(x0) + tail);
    lemma_occurs_split(s, i, json_string(x0), tail);
    lemma_string_parses(s, x0);
    let j = i + json_string(x0).len();
    assert(value_at(s, i) == Some((JsonValue::Str(x0), j)));
    if xs.len() == 1 {
        lemma_occurs_char(s, j, ']');
        assert(xs.map_values(|x: Seq<char>| JsonValue::Str(x)) =~= seq![JsonValue::Str(x0)]);
    } else {
        lemma_occurs_split(s, j, seq![','], joined(rest.map_values(|x: Seq<char>| json_string(x)), seq![',']) + seq![']']);
        lemma_occurs_char(s, j, ',');
        assert forall|k: int| 0 <= k < rest.len() implies plain(#[trigger] rest[k]) by {
            assert(rest[k] == xs[k + 1]);
        }
        lemma_items(s, j + 1, rest);
        assert(xs.map_values(|x: Seq<char>| JsonValue::Str(x)) =~= seq![JsonValue::Str(x0)] + rest.map_values(
            |x: Seq<char>| JsonValue::Str(x),
        ));
    }
}

/// An array of plain strings reads back as those strings, in order.
pub proof fn lemma_array_parses(s: Seq<char>, xs: Seq<Seq<char>>)
    requires
        forall|k: int| 0 <= k < xs.len() ==> plain(#[trigger] xs[k]),
    ensures
        parses_to(s, json_array(xs), JsonValue::Arr(xs.map_values(|x: Seq<char>| JsonValue::Str(x)))),
{
    let encs = xs.map_values(|x: Seq<char>| json_string(x));
    let enc = json_array(xs);
    assert forall|p: int| #[trigger] occurs_at(s, p, enc) implies value_at(s, p) == Some(
        (JsonValue::Arr(xs.map_values(|x: Seq<char>| JsonValue::Str(x))), p + enc.len()),
    ) by {
        assert(enc =~= seq!['['] + (joined(encs, seq![',']) + seq![']']));
        lemma_occurs_split(s, p, seq!['['], joined(encs, seq![',']) + seq![']']);
        lemma_occurs_char(s, p, '[');
        if xs.len() == 0 {
            assert(joined(encs, seq![',']) + seq![']'] =~= seq![']']);
            lemma_occurs_char(s, p + 1, ']');
            assert(xs.map_values(|x: Seq<char>| JsonValue::Str(x)) =~= Seq::empty());
        } else {
            if xs.len() >= 2 {
                lemma_joined_front(encs, seq![',']);
            }
            assert(joined(encs, seq![',']) + seq![']'] =~= seq!['"'] + (joined(encs, seq![',']) + seq![']']).drop_first());
            lemma_occurs_split(s, p + 1, seq!['"'], (joined(encs, seq![',']) + seq![']']).drop_first());
            lemma_occurs_char(s, p + 1, '"');
            lemma_items(s, p + 1, xs);
        }
    }
}

/// What the links of a category read back as: each name with its URL.
pub open spec fn links_value(links: Seq<LinkEntry>) -> JsonValue {
    JsonValue::Obj(links.map_values(|e: LinkEntry| (e.name@, JsonValue::Str(e.url@))))
}

/// What the description of one category reads back as.
pub open spec fn manifest_value(m: CategoryManifest) -> JsonValue {
    let base = seq![
        ("title"@, JsonValue::Str(m.title@)),
        ("subtitle"@, JsonValue::Str(m.subtitle@)),
        ("images"@, JsonValue::Arr(views(m.images@).map_values(|x: Seq<char>| JsonValue::Str(x)))),
        ("links"@, links_value(m.links@)),
    ];
    JsonValue::Obj(
        match m.background {
            Some(b) => base.push(("background"@, JsonValue::Str(b@))),
            None => base,
        },
    )
}

/// What the manifest of all categories reads back as: each key with the
/// description of its category, in order.
pub open spec fn manifests_value(ms: Seq<CategoryManifest>) -> JsonValue {
    JsonValue::Obj(ms.map_values(|m: CategoryManifest| (m.key@, manifest_value(m))))
}

/// Whether the name and the URL of a link are plain.
pub open spec fn link_plain(e: LinkEntry) -> bool {
    plain(e.name@) && plain(e.url@)
}

/// Whether every string of a manifest is plain.
pub open spec fn manifest_plain(m: CategoryManifest) -> bool {
    &&& plain(m.key@)
    &&& plain(m.title@)
    &&& plain(m.subtitle@)
    &&& forall|k: int| 0 <= k < m.images@.len() ==> plain(#[trigger] m.images@[k]@)
    &&& forall|k: int| 0 <= k < m.links@.len() ==> link_plain(#[trigger] m.links@[k])
    &&& match m.background {
        Some(b) => plain(b@),
        None => true,
    }
}

proof fn lemma_links_parse(s: Seq<char>, links: Seq<LinkEntry>)
    requires
        forall|k: int| 0 <= k < links.len() ==> link_plain(#[trigger] links[k]),
    ensures
        parses_to(s, links_json(links), links_value(links)),
{
    let ts = links.map_values(|e: LinkEntry| (e.name@, json_string(e.url@), JsonValue::Str(e.url@)));
    assert forall|k: int| 0 <= k < ts.len() implies plain(#[trigger] ts[k].0) && parses_to(s, ts[k].1, ts[k].2) by {
        assert(link_plain(links[k]));
        lemma_string_parses(s, links[k].url@);
    }
    lemma_object_parses(s, ts);
    assert(ts.map_values(|t| member_enc(t)) =~= links.map_values(|e: LinkEntry| json_member(e.name@, json_string(e.url@))));
    assert(ts.map_values(|t| member_pair(t)) =~= links.map_values(|e: LinkEntry| (e.name@, JsonValue::Str(e.url@))));
}

proof fn lemma_literal_names_plain()
    ensures
        plain("title"@),
        plain("subtitle"@),
        plain("images"@),
        plain("links"@),
        plain("background"@),
{
    reveal_strlit("title");
    reveal_strlit("subtitle");
    reveal_strlit("images");
    reveal_strlit("links");
    reveal_strlit("background");
}

proof fn lemma_manifest_parses(s: Seq<char>, m: CategoryManifest)
    requires
        manifest_plain(m),
    ensures
        parses_to(s, manifest_entry(m), manifest_value(m)),
{
    lemma_literal_names_plain();
    let imgs = views(m.images@);
    assert forall|k: int| 0 <= k < imgs.len() implies plain(#[trigger] imgs[k]) by {
        assert(plain(m.images@[k]@));
    }
    lemma_string_parses(s, m.title@);
    lemma_string_parses(s, m.subtitle@);
    lemma_array_parses(s, imgs);
    lemma_links_parse(s, m.links@);
    let base = seq![
        ("title"@, json_string(m.title@), JsonValue::Str(m.title@)),
        ("subtitle"@, json_string(m.subtitle@), JsonValue::Str(m.subtitle@)),
        ("images"@, json_array(imgs), JsonValue::Arr(imgs.map_values(|x: Seq<char>| JsonValue::Str(x)))),
        ("links"@, links_json(m.links@), links_value(m.links@)),
    ];
    let ts = match m.background {
        Some(b) => base.push(("background"@, json_string(b@), JsonValue::Str(b@))),
        None => base,
    };
    match m.background {
        Some(b) => {
            lemma_string_parses(s, b@);
        },
        None => {},
    }
    assert(members_ok(s, ts));
    lemma_object_parses(s, ts);
    assert(ts.map_values(|t| member_enc(t)) =~= manifest_members(m));
    assert(JsonValue::Obj(ts.map_values(|t| member_pair(t))) == manifest_value(m)) by {
        match m.background {
            Some(b) => {
                assert(ts.map_values(|t| member_pair(t)) =~= seq![
                    ("title"@, JsonValue::Str(m.title@)),
                    ("subtitle"@, JsonValue::Str(m.subtitle@)),
                    ("images"@, JsonValue::Arr(imgs.map_values(|x: Seq<char>| JsonValue::Str(x)))),
                    ("links"@, links_value(m.links@)),
                ].push(("background"@, JsonValue::Str(b@))));
            },
            None => {
                assert(ts.map_values(|t| member_pair(t)) =~= seq![
                    ("title"@, JsonValue::Str(m.title@)),
                    ("subtitle"@, JsonValue::Str(m.subtitle@)),
                    ("images"@, JsonValue::Arr(imgs.map_values(|x: Seq<char>| JsonValue::Str(x)))),
                    ("links"@, links_value(m.links@)),
                ]);
            },
        }
    }
}

/// Reading back the serialized manifest of all categories gives each key
/// with its title, subtitle, images in the same order, links and background,
/// where no string holds a character that JSON allows only when escaped
/// (line breaks among them, which serialization drops).
pub proof fn lemma_manifest_json_round_trip(ms: Seq<CategoryManifest>)
    requires
        forall|k: int| 0 <= k < ms.len() ==> manifest_plain(#[trigger] ms[k]),
    ensures
        parse_json(manifests_json(ms)) == Some(manifests_value(ms)),
{
    let s = manifests_json(ms);
    let ts = ms.map_values(|m: CategoryManifest| (m.key@, manifest_entry(m), manifest_value(m)));
    assert forall|k: int| 0 <= k < ts.len() implies plain(#[trigger] ts[k].0) && parses_to(s, ts[k].1, ts[k].2) by {
        lemma_manifest_parses(s, ms[k]);
    }
    lemma_object_parses(s, ts);
    assert(ts.map_values(|t| member_enc(t)) =~= ms.map_values(|m: CategoryManifest| json_member(m.key@, manifest_entry(m))));
    assert(ts.map_values(|t| member_pair(t)) =~= ms.map_values(|m: CategoryManifest| (m.key@, manifest_value(m))));
    assert(s.subrange(0, s.len() as int) =~= s);
    assert(occurs_at(s, 0, s));
}

} // verus!
