use vstd::prelude::*;

use crate::manifest::CategoryManifest;
use crate::metadata::LinkEntry;
use crate::order::views;
use crate::text::{chars_of, join_strings, joined, push_char};

verus! {

/// One character as it stands inside a quoted string of the manifest:
/// backslash and double quote escaped, line breaks dropped.
pub open spec fn escape_char(c: char) -> Seq<char> {
    if c == '\\' {
        seq!['\\', '\\']
    } else if c == '"' {
        seq!['\\', '"']
    } else if c == '\n' || c == '\r' {
        Seq::empty()
    } else {
        seq![c]
    }
}

/// `s` escaped for a quoted string of the manifest.
pub open spec fn escaped(s: Seq<char>) -> Seq<char>
    decreases s.len(),
{
    if s.len() == 0 {
        Seq::empty()
    } else {
        escaped(s.drop_last()) + escape_char(s.last())
    }
}

/// `s` as a quoted string of the manifest.
pub open spec fn json_string(s: Seq<char>) -> Seq<char> {
    seq!['"'] + escaped(s) + seq!['"']
}

/// An array of quoted strings.
pub open spec fn json_array(items: Seq<Seq<char>>) -> Seq<char> {
    seq!['['] + joined(items.map_values(|s: Seq<char>| json_string(s)), seq![',']) + seq![']']
}

/// One member of an object: a quoted name, a colon and a value.
pub open spec fn json_member(name: Seq<char>, value: Seq<char>) -> Seq<char> {
    json_string(name) + seq![':'] + value
}

/// An object of the given members.
pub open spec fn json_object(members: Seq<Seq<char>>) -> Seq<char> {
    seq!['{'] + joined(members, seq![',']) + seq!['}']
}

/// The links of a category as an object from name to URL.
pub open spec fn links_json(links: Seq<LinkEntry>) -> Seq<char> {
    json_object(links.map_values(|e: LinkEntry| json_member(e.name@, json_string(e.url@))))
}

/// The members of the object that describes one category; `background` only
/// where it has one.
pub open spec fn manifest_members(m: CategoryManifest) -> Seq<Seq<char>> {
    let base = seq![
        json_member("title"@, json_string(m.title@)),
        json_member("subtitle"@, json_string(m.subtitle@)),
        json_member("images"@, json_array(views(m.images@))),
        json_member("links"@, links_json(m.links@)),
    ];
    match m.background {
        Some(b) => base.push(json_member("background"@, json_string(b@))),
        None => base,
    }
}

/// The object that describes one category.
pub open spec fn manifest_entry(m: CategoryManifest) -> Seq<char> {
    json_object(manifest_members(m))
}

/// All categories as one object keyed by category key.
pub open spec fn manifests_json(ms: Seq<CategoryManifest>) -> Seq<char> {
    json_object(ms.map_values(|m: CategoryManifest| json_member(m.key@, manifest_entry(m))))
}

/// Escapes `s` for a quoted string of the manifest.
pub fn escape(s: &str) -> (r: String)
    ensures
        r@ == escaped(s@),
{
    let cs = chars_of(s);
    let mut r = String::new();
    let mut i: usize = 0;
    while i < cs.len()
        invariant
            i <= cs.len(),
            r@ == escaped(cs@.take(i as int)),
        decreases cs.len() - i,
    {
        assert(cs@.take(i + 1).drop_last() == cs@.take(i as int));
        let c = cs[i];
        if c == '\\' {
            push_char(&mut r, '\\');
            push_char(&mut r, '\\');
        } else if c == '"' {
            push_char(&mut r, '\\');
            push_char(&mut r, '"');
        } else if c == '\n' || c == '\r' {
        } else {
            push_char(&mut r, c);
        }
        assert(r@ =~= escaped(cs@.take(i + 1)));
        i += 1;
    }
    assert(cs@.take(cs.len() as int) == cs@);
    r
}

/// `s` as a quoted, escaped string.
pub fn quote(s: &str) -> (r: String)
    ensures
        r@ == json_string(s@),
{
    let mut r = String::new();
    push_char(&mut r, '"');
    r.append(escape(s).as_str());
    push_char(&mut r, '"');
    r
}

fn member(name: &str, value: &str) -> (r: String)
    ensures
        r@ == json_member(name@, value@),
{
    let mut r = quote(name);
    push_char(&mut r, ':');
    r.append(value);
    r
}

fn object(members: &Vec<String>) -> (r: String)
    ensures
        r@ == json_object(members@.map_values(|s: String| s@)),
{
    let mut r = String::new();
    push_char(&mut r, '{');
    proof {
        reveal_strlit(",");
        assert(","@ =~= seq![',']);
    }
    r.append(join_strings(members, ",").as_str());
    push_char(&mut r, '}');
    r
}

/// The strings as an array of quoted strings.
pub fn string_array(items: &Vec<String>) -> (r: String)
    ensures
        r@ == json_array(views(items@)),
{
    let mut quoted: Vec<String> = Vec::new();
    let mut i: usize = 0;
    while i < items.len()
        invariant
            i <= items.len(),
            quoted@.map_values(|s: String| s@) == views(items@).take(i as int).map_values(|s: Seq<char>| json_string(s)),
        decreases items.len() - i,
    {
        let ghost before = quoted@;
        quoted.push(quote(items[i].as_str()));
        assert(quoted@.map_values(|s: String| s@) =~= before.map_values(|s: String| s@).push(json_string(items@[i as int]@)));
        assert(views(items@).take(i + 1) =~= views(items@).take(i as int).push(items@[i as int]@));
        assert(quoted@.map_values(|s: String| s@) =~= views(items@).take(i + 1).map_values(|s: Seq<char>| json_string(s)));
        i += 1;
    }
    assert(views(items@).take(items.len() as int) == views(items@));
    let mut r = String::new();
    push_char(&mut r, '[');
    proof {
        reveal_strlit(",");
        assert(","@ =~= seq![',']);
    }
    r.append(join_strings(&quoted, ",").as_str());
    push_char(&mut r, ']');
    r
}

/// The links as an object from name to URL.
pub fn links_object(links: &Vec<LinkEntry>) -> (r: String)
    ensures
        r@ == links_json(links@),
{
    let mut members: Vec<String> = Vec::new();
    let mut i: usize = 0;
    while i < links.len()
        invariant
            i <= links.len(),
            members@.map_values(|s: String| s@) == links@.take(i as int).map_values(
                |e: LinkEntry| json_member(e.name@, json_string(e.url@)),
            ),
        decreases links.len() - i,
    {
        let v = quote(links[i].url.as_str());
        let ghost before = members@;
        members.push(member(links[i].name.as_str(), v.as_str()));
        assert(members@.map_values(|s: String| s@) =~= before.map_values(|s: String| s@).push(json_member(links@[i as int].name@, json_string(links@[i as int].url@))));
        assert(links@.take(i + 1) =~= links@.take(i as int).push(links@[i as int]));
        assert(members@.map_values(|s: String| s@) =~= links@.take(i + 1).map_values(
            |e: LinkEntry| json_member(e.name@, json_string(e.url@)),
        ));
        i += 1;
    }
    assert(links@.take(links.len() as int) == links@);
    object(&members)
}

/// The object that describes one category.
pub fn manifest_object(m: &CategoryManifest) -> (r: String)
    ensures
        r@ == manifest_entry(*m),
{
    let mut members: Vec<String> = Vec::new();
    members.push(member("title", quote(m.title.as_str()).as_str()));
    members.push(member("subtitle", quote(m.subtitle.as_str()).as_str()));
    members.push(member("images", string_array(&m.images).as_str()));
    members.push(member("links", links_object(&m.links).as_str()));
    match &m.background {
        Some(b) => {
            members.push(member("background", quote(b.as_str()).as_str()));
        },
        None => {},
    }
    assert(members@.map_values(|s: String| s@) =~= manifest_members(*m));
    object(&members)
}

/// All categories as one object keyed by category key, to be embedded in a
/// page's script.
pub fn manifest_json(ms: &Vec<CategoryManifest>) -> (r: String)
    ensures
        r@ == manifests_json(ms@),
{
    let mut members: Vec<String> = Vec::new();
    let mut i: usize = 0;
    while i < ms.len()
        invariant
            i <= ms.len(),
            members@.map_values(|s: String| s@) == ms@.take(i as int).map_values(
                |m: CategoryManifest| json_member(m.key@, manifest_entry(m)),
            ),
        decreases ms.len() - i,
    {
        let v = manifest_object(&ms[i]);
        let ghost before = members@;
        members.push(member(ms[i].key.as_str(), v.as_str()));
        assert(members@.map_values(|s: String| s@) =~= before.map_values(|s: String| s@).push(json_member(ms@[i as int].key@, manifest_entry(ms@[i as int]))));
        assert(ms@.take(i + 1) =~= ms@.take(i as int).push(ms@[i as int]));
        assert(members@.map_values(|s: String| s@) =~= ms@.take(i + 1).map_values(
            |m: CategoryManifest| json_member(m.key@, manifest_entry(m)),
        ));
        i += 1;
    }
    assert(ms@.take(ms.len() as int) == ms@);
    object(&members)
}

} // verus!
