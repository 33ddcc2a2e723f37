use vstd::prelude::*;

use crate::encode::{url_encode, url_encoded};
use crate::order::{sort_strings, sorted_seqs, views};

verus! {

/// One entry of a directory listing: its file name, and whether it is a
/// directory.
pub struct DirEntry {
    pub name: String,
    pub is_dir: bool,
}

/// Where `c` is last found in `s`, if anywhere.
pub open spec fn last_index_of(s: Seq<char>, c: char) -> Option<int>
    decreases s.len(),
{
    if s.len() == 0 {
        None
    } else if s.last() == c {
        Some(s.len() - 1)
    } else {
        last_index_of(s.drop_last(), c)
    }
}

/// The extension of a file name: what follows its last `.`, unless that dot
/// is the name's first character.
pub open spec fn extension(name: Seq<char>) -> Option<Seq<char>> {
    match last_index_of(name, '.') {
        Some(k) => if k > 0 {
            Some(name.subrange(k + 1, name.len() as int))
        } else {
            None
        },
        None => None,
    }
}

/// Whether a file name carries one of the image extensions `png`, `jpg`,
/// `jpeg`, matched exactly.
pub open spec fn is_image_name(name: Seq<char>) -> bool {
    match extension(name) {
        Some(e) => e == seq!['p', 'n', 'g'] || e == seq!['j', 'p', 'g'] || e == seq!['j', 'p', 'e', 'g'],
        None => false,
    }
}

/// Whether a directory entry is an image file.
pub open spec fn is_image_entry(e: DirEntry) -> bool {
    !e.is_dir && is_image_name(e.name@)
}

/// The names of the image files of a listing, in listing order.
pub open spec fn image_names(entries: Seq<DirEntry>) -> Seq<Seq<char>>
    decreases entries.len(),
{
    if entries.len() == 0 {
        Seq::empty()
    } else if is_image_entry(entries.last()) {
        image_names(entries.drop_last()).push(entries.last().name@)
    } else {
        image_names(entries.drop_last())
    }
}

/// The reference to an asset named `name` under the URL prefix `base`.
pub open spec fn asset_ref(base: Seq<char>, name: Seq<char>) -> Seq<char> {
    base + url_encoded(name)
}

/// The references to the image files of a listing, sorted.
pub open spec fn image_refs(base: Seq<char>, entries: Seq<DirEntry>) -> Seq<Seq<char>> {
    sorted_seqs(image_names(entries).map_values(|n: Seq<char>| asset_ref(base, n)))
}

/// There are as many references as image files.
pub proof fn lemma_image_refs_len(base: Seq<char>, entries: Seq<DirEntry>)
    ensures
        image_refs(base, entries).len() == image_names(entries).len(),
{
    let s = image_names(entries).map_values(|n: Seq<char>| asset_ref(base, n));
    crate::order::lemma_lex_total_ordering();
    s.lemma_sort_by_ensures(crate::order::lex_order());
    s.to_multiset_ensures();
    image_refs(base, entries).to_multiset_ensures();
}

fn last_dot(s: &Vec<char>) -> (r: Option<usize>)
    ensures
        r matches Some(k) ==> k < s.len() && last_index_of(s@, '.') == Some(k as int),
        r is None ==> last_index_of(s@, '.') is None,
{
    let mut j: usize = s.len();
    assert(s@.take(s.len() as int) == s@);
    while j > 0
        invariant
            j <= s.len(),
            last_index_of(s@, '.') == last_index_of(s@.take(j as int), '.'),
        decreases j,
    {
        assert(s@.take(j as int).drop_last() == s@.take(j - 1));
        if s[j - 1] == '.' {
            return Some(j - 1);
        }
        j -= 1;
    }
    assert(s@.take(0).len() == 0);
    None
}

fn eq_chars(a: &Vec<char>, from: usize, b: &str) -> (r: bool)
    requires
        from <= a.len(),
    ensures
        r == (a@.subrange(from as int, a@.len() as int) == b@),
{
    let bc = crate::text::chars_of(b);
    if a.len() - from != bc.len() {
        return false;
    }
    let r = crate::text::matches_at(a, from, &bc);
    r
}

/// Whether `name` is the name of an image file by its extension.
pub fn is_image_file_name(name: &str) -> (r: bool)
    ensures
        r == is_image_name(name@),
{
    let cs = crate::text::chars_of(name);
    match last_dot(&cs) {
        Some(k) => {
            if k == 0 {
                assert(extension(name@) is None);
                return false;
            }
            proof {
                reveal_strlit("png");
                reveal_strlit("jpg");
                reveal_strlit("jpeg");
                assert("png"@ =~= seq!['p', 'n', 'g']);
                assert("jpg"@ =~= seq!['j', 'p', 'g']);
                assert("jpeg"@ =~= seq!['j', 'p', 'e', 'g']);
            }
            eq_chars(&cs, k + 1, "png") || eq_chars(&cs, k + 1, "jpg") || eq_chars(&cs, k + 1, "jpeg")
        },
        None => false,
    }
}

/// The names of the image files among `entries`, in listing order.
pub fn image_file_names(entries: &Vec<DirEntry>) -> (r: Vec<String>)
    ensures
        views(r@) == image_names(entries@),
{
    let mut r: Vec<String> = Vec::new();
    let mut i: usize = 0;
    while i < entries.len()
        invariant
            i <= entries.len(),
            views(r@) == image_names(entries@.take(i as int)),
        decreases entries.len() - i,
    {
        assert(entries@.take(i + 1).drop_last() == entries@.take(i as int));
        let e = &entries[i];
        if !e.is_dir && is_image_file_name(e.name.as_str()) {
            let ghost before = r@;
            r.push(e.name.clone());
            assert(views(r@) =~= views(before).push(e.name@));
        }
        i += 1;
    }
    assert(entries@.take(entries.len() as int) == entries@);
    r
}

/// `base` followed by the percent-encoding of `name`.
pub fn make_asset_ref(base: &str, name: &str) -> (r: String)
    ensures
        r@ == asset_ref(base@, name@),
{
    let mut r = base.to_owned();
    let enc = url_encode(name);
    r.append(enc.as_str());
    r
}

/// The references to the image files among `entries` under the URL prefix
/// `base`, each name percent-encoded, in byte-wise ascending order of the
/// whole reference. Names compare as text, so `10.png` comes before `2.png`.
pub fn get_image_list(base: &str, entries: &Vec<DirEntry>) -> (r: Vec<String>)
    ensures
        views(r@) == image_refs(base@, entries@),
{
    let names = image_file_names(entries);
    let mut refs: Vec<String> = Vec::new();
    let mut i: usize = 0;
    while i < names.len()
        invariant
            i <= names.len(),
            views(refs@) == views(names@).take(i as int).map_values(|n: Seq<char>| asset_ref(base@, n)),
        decreases names.len() - i,
    {
        let ghost before = refs@;
        refs.push(make_asset_ref(base, names[i].as_str()));
        assert(views(names@).take(i + 1) == views(names@).take(i as int).push(names@[i as int]@));
        assert(views(refs@) =~= views(before).push(asset_ref(base@, names@[i as int]@)));
        assert(views(refs@) =~= views(names@).take(i + 1).map_values(|n: Seq<char>| asset_ref(base@, n)));
        i += 1;
    }
    assert(views(names@).take(names.len() as int) == views(names@));
    sort_strings(refs)
}

} // verus!
