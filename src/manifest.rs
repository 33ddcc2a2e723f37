use vstd::prelude::*;
use vstd::relations::sorted_by;

use crate::assets::{asset_ref, get_image_list, image_names, image_refs, DirEntry};
use crate::background::{resolve_background, BackgroundConflict, BackgroundPolicy};
use crate::metadata::{links_of, parse_links, represents, resolve_subtitle, subtitle_of, LinkEntry};
use crate::mode::{
    background_base, background_base_of, background_location, background_location_of,
    background_policy, images_base, images_base_of, policy_of, RenderMode,
};
use crate::order::{lex_le, lex_order, str_le, views};
use crate::text::chars_of;

verus! {

/// The upper-case form of a character, which may be several characters.
pub uninterp spec fn upper_of(c: char) -> Seq<char>;

/// Relies on `char::to_uppercase`: the upper-case mapping of one character,
/// a function of that character alone.
#[verifier::external_body]
fn upper_case(c: char) -> (r: String)
    ensures
        r@ == upper_of(c),
{
    c.to_uppercase().collect::<String>()
}

/// `key` with its first character in upper case and the rest untouched.
pub open spec fn title_of(key: Seq<char>) -> Seq<char> {
    if key.len() == 0 {
        key
    } else {
        upper_of(key[0]) + key.drop_first()
    }
}

/// `key` with its first character replaced by `first`.
pub open spec fn with_first(first: Seq<char>, key: Seq<char>) -> Seq<char> {
    if key.len() == 0 {
        key
    } else {
        first + key.drop_first()
    }
}

/// `key` with its first character replaced by `first`, the upper-case form of
/// that character; an empty key stays empty.
pub fn title_with_first(first: &str, key: &str) -> (r: String)
    ensures
        r@ == with_first(first@, key@),
{
    let cs = chars_of(key);
    if cs.len() == 0 {
        return key.to_owned();
    }
    let mut r = first.to_owned();
    let mut i: usize = 1;
    while i < cs.len()
        invariant
            1 <= i <= cs.len(),
            r@ == first@ + cs@.subrange(1, i as int),
        decreases cs.len() - i,
    {
        crate::text::push_char(&mut r, cs[i]);
        assert(cs@.subrange(1, i + 1) == cs@.subrange(1, i as int).push(cs@[i as int]));
        i += 1;
    }
    assert(cs@.subrange(1, cs.len() as int) == cs@.drop_first());
    r
}

/// The display title of a category: its key with the first character in upper
/// case.
pub fn category_title(key: &str) -> (r: String)
    ensures
        r@ == title_of(key@),
{
    let cs = chars_of(key);
    if cs.len() == 0 {
        return key.to_owned();
    }
    let first = upper_case(cs[0]);
    title_with_first(first.as_str(), key)
}

/// What was read of one category directory.
pub struct CategoryDir {
    /// The directory's name, which is the category's key.
    pub name: String,
    /// The listing of its `images` directory, where there is one.
    pub images: Option<Vec<DirEntry>>,
    /// The listing of its `Background` directory (empty where there is none).
    pub background: Vec<DirEntry>,
    /// The content of its subtitle file, where it could be read.
    pub subtitle: Option<String>,
    /// The content of the link file in its images directory, where it could be
    /// read.
    pub links: Option<String>,
}

/// What is known of one category, ready to be shown.
pub struct CategoryManifest {
    pub key: String,
    pub title: String,
    pub subtitle: String,
    /// References to its images, sorted.
    pub images: Vec<String>,
    pub links: Vec<LinkEntry>,
    pub background: Option<String>,
}

/// The view of an optional string.
pub open spec fn opt_view(o: Option<String>) -> Option<Seq<char>> {
    match o {
        Some(s) => Some(s@),
        None => None,
    }
}

/// Whether a directory is a category: it has an `images` directory with at
/// least one image in it.
pub open spec fn is_category(dir: CategoryDir) -> bool {
    match dir.images {
        Some(entries) => image_names(entries@).len() > 0,
        None => false,
    }
}

/// The background of a category in a mode: `None` where the policy refuses
/// its images, else the background it has, if any.
pub open spec fn background_of(dir: CategoryDir, mode: RenderMode) -> Option<Option<Seq<char>>> {
    let names = image_names(dir.background@);
    if names.len() == 0 {
        Some(None)
    } else if names.len() > 1 && policy_of(mode) == BackgroundPolicy::Strict {
        None
    } else {
        Some(Some(asset_ref(background_base_of(mode, dir.name@), names[0])))
    }
}

/// The listing of a category's images directory, empty where there is none.
pub open spec fn image_listing(dir: CategoryDir) -> Seq<DirEntry> {
    match dir.images {
        Some(entries) => entries@,
        None => Seq::empty(),
    }
}

/// The links of a category directory.
pub open spec fn dir_links(dir: CategoryDir) -> Map<Seq<char>, Seq<char>> {
    match dir.links {
        Some(text) => links_of(text@),
        None => Map::empty(),
    }
}

/// Whether `m` is the manifest of category directory `dir` in `mode`.
pub open spec fn manifest_of(m: CategoryManifest, dir: CategoryDir, mode: RenderMode) -> bool {
    &&& m.key@ == dir.name@
    &&& m.title@ == title_of(dir.name@)
    &&& m.subtitle@ == subtitle_of(dir.name@, opt_view(dir.subtitle))
    &&& views(m.images@) == image_refs(
        images_base_of(mode, dir.name@),
        image_listing(dir),
    )
    &&& represents(m.links@, dir_links(dir))
    &&& background_of(dir, mode) == Some(opt_view(m.background))
}

/// Whether `c` reports the background conflict of `dir`.
pub open spec fn conflict_of(c: BackgroundConflict, dir: CategoryDir, mode: RenderMode) -> bool {
    &&& background_of(dir, mode) is None
    &&& c.location@ == background_location_of(dir.name@)
    &&& views(c.files@) == image_names(dir.background@)
}

/// Builds the manifest of one directory. A directory without images is no
/// category; one whose background the mode's policy refuses is an error.
pub fn build_manifest(dir: &CategoryDir, mode: RenderMode) -> (r: Result<
    Option<CategoryManifest>,
    BackgroundConflict,
>)
    ensures
        !is_category(*dir) ==> r matches Ok(None),
        is_category(*dir) ==> match r {
            Ok(Some(m)) => manifest_of(m, *dir, mode),
            Ok(None) => false,
            Err(c) => conflict_of(c, *dir, mode),
        },
{
    let key = dir.name.as_str();
    let images = match &dir.images {
        Some(entries) => get_image_list(images_base(mode, key).as_str(), entries),
        None => return Ok(None),
    };
    proof {
        crate::assets::lemma_image_refs_len(images_base_of(mode, key@), image_listing(*dir));
    }
    if images.len() == 0 {
        return Ok(None);
    }
    let bg = resolve_background(
        background_base(mode, key).as_str(),
        background_location(key).as_str(),
        &dir.background,
        background_policy(mode),
    );
    let background = match bg {
        Ok(b) => b,
        Err(c) => return Err(c),
    };
    let links = match &dir.links {
        Some(text) => parse_links(text.as_str()),
        None => Vec::new(),
    };
    Ok(
        Some(
            CategoryManifest {
                key: key.to_owned(),
                title: category_title(key),
                subtitle: resolve_subtitle(key, &dir.subtitle),
                images,
                links,
                background,
            },
        ),
    )
}

/// The keys of a sequence of manifests.
pub open spec fn keys(ms: Seq<CategoryManifest>) -> Seq<Seq<char>> {
    ms.map_values(|m: CategoryManifest| m.key@)
}

/// The names of the directories that are categories, in order.
pub open spec fn category_names(dirs: Seq<CategoryDir>) -> Seq<Seq<char>>
    decreases dirs.len(),
{
    if dirs.len() == 0 {
        Seq::empty()
    } else if is_category(dirs.last()) {
        category_names(dirs.drop_last()).push(dirs.last().name@)
    } else {
        category_names(dirs.drop_last())
    }
}

/// Whether the background of every category among `dirs` is acceptable.
pub open spec fn no_conflict(dirs: Seq<CategoryDir>, mode: RenderMode) -> bool {
    forall|i: int| 0 <= i < dirs.len() && is_category(#[trigger] dirs[i]) ==> background_of(dirs[i], mode) is Some
}

/// Whether `ms` is the manifest set of `dirs`: one manifest per category,
/// sorted by key, each built from a category directory.
pub open spec fn discovered(dirs: Seq<CategoryDir>, mode: RenderMode, ms: Seq<CategoryManifest>) -> bool {
    &&& sorted_by(keys(ms), lex_order())
    &&& keys(ms).to_multiset() == category_names(dirs).to_multiset()
    &&& forall|j: int| 0 <= j < ms.len() ==> #[trigger] built_from(ms[j], dirs, mode)
}

/// Whether `m` is the manifest of one of the categories among `dirs`.
pub open spec fn built_from(m: CategoryManifest, dirs: Seq<CategoryDir>, mode: RenderMode) -> bool {
    exists|i: int| 0 <= i < dirs.len() && is_category(dirs[i]) && #[trigger] manifest_of(m, dirs[i], mode)
}

/// Whether `c` reports the background conflict of one of the categories
/// among `dirs`.
pub open spec fn conflict_in(c: BackgroundConflict, dirs: Seq<CategoryDir>, mode: RenderMode) -> bool {
    exists|i: int| 0 <= i < dirs.len() && is_category(dirs[i]) && #[trigger] conflict_of(c, dirs[i], mode)
}

/// Builds the manifests of all categories among `dirs`, sorted by key. A
/// directory without images is left out. A background conflict in any
/// category (under the strict policy) fails the whole discovery.
pub fn discover_categories(dirs: &Vec<CategoryDir>, mode: RenderMode) -> (r: Result<
    Vec<CategoryManifest>,
    BackgroundConflict,
>)
    ensures
        r is Ok <==> no_conflict(dirs@, mode),
        r matches Ok(ms) ==> discovered(dirs@, mode, ms@),
        r matches Err(c) ==> conflict_in(c, dirs@, mode),
{
    let mut r: Vec<CategoryManifest> = Vec::new();
    let mut i: usize = 0;
    assert(dirs@.take(0) =~= Seq::<CategoryDir>::empty());
    assert(keys(r@) =~= Seq::<Seq<char>>::empty());
    while i < dirs.len()
        invariant
            i <= dirs.len(),
            no_conflict(dirs@.take(i as int), mode),
            sorted_by(keys(r@), lex_order()),
            keys(r@).to_multiset() == category_names(dirs@.take(i as int)).to_multiset(),
            forall|j: int| 0 <= j < r@.len() ==> #[trigger] built_from(r@[j], dirs@.take(i as int), mode),
        decreases dirs.len() - i,
    {
        let ghost d = dirs@[i as int];
        assert(dirs@.take(i + 1).drop_last() == dirs@.take(i as int));
        assert(dirs@.take(i + 1).last() == d);
        match build_manifest(&dirs[i], mode) {
            Err(c) => {
                proof {
                    assert(is_category(dirs@[i as int]));
                    assert(!no_conflict(dirs@, mode));
                    assert(conflict_of(c, dirs@[i as int], mode));
                    assert(conflict_in(c, dirs@, mode));
                }
                return Err(c);
            },
            Ok(None) => {
                assert forall|j: int| 0 <= j < r@.len() implies #[trigger] built_from(r@[j], dirs@.take(i + 1), mode) by {
                    assert(built_from(r@[j], dirs@.take(i as int), mode));
                    let k = choose|k: int| 0 <= k < i && is_category(dirs@.take(i as int)[k]) && #[trigger] manifest_of(r@[j], dirs@.take(i as int)[k], mode);
                    assert(dirs@.take(i + 1)[k] == dirs@.take(i as int)[k]);
                }
                assert(no_conflict(dirs@.take(i + 1), mode)) by {
                    assert forall|q: int| 0 <= q < i + 1 && is_category(#[trigger] dirs@.take(i + 1)[q])
                        implies background_of(dirs@.take(i + 1)[q], mode) is Some by {
                        if q < i {
                            assert(dirs@.take(i as int)[q] == dirs@.take(i + 1)[q]);
                        }
                    }
                }
            },
            Ok(Some(m)) => {
                let mut p: usize = 0;
                while p < r.len() && !str_le(m.key.as_str(), r[p].key.as_str())
                    invariant
                        p <= r.len(),
                        forall|q: int| 0 <= q < p ==> !lex_le(m.key@, #[trigger] r@[q].key@),
                    decreases r.len() - p,
                {
                    p += 1;
                }
                let ghost old_r = r@;
                proof {
                    assert(p < old_r.len() ==> lex_le(m.key@, keys(old_r)[p as int]));
                    assert forall|q: int| 0 <= q < p implies !lex_le(m.key@, #[trigger] keys(old_r)[q]) by {
                        assert(!lex_le(m.key@, old_r[q].key@));
                    }
                    crate::order::lemma_insert_sorted(keys(old_r), p as int, m.key@);
                }
                r.insert(p, m);
                proof {
                    assert(keys(r@) =~= keys(old_r).insert(p as int, d.name@));
                    category_names(dirs@.take(i as int)).to_multiset_ensures();
                    let t = dirs@.take(i + 1);
                    assert forall|j: int| 0 <= j < r@.len() implies #[trigger] built_from(r@[j], t, mode) by {
                        if j == p {
                            assert(manifest_of(r@[j], t[i as int], mode));
                        } else {
                            let oj = if j < p { j } else { j - 1 };
                            assert(r@[j] == old_r[oj]);
                            assert(built_from(old_r[oj], dirs@.take(i as int), mode));
                            let k = choose|k: int| 0 <= k < i && is_category(dirs@.take(i as int)[k]) && #[trigger] manifest_of(old_r[oj], dirs@.take(i as int)[k], mode);
                            assert(t[k] == dirs@.take(i as int)[k]);
                        }
                    }
                    assert forall|q: int| 0 <= q < i + 1 && is_category(#[trigger] dirs@.take(i + 1)[q])
                        implies background_of(dirs@.take(i + 1)[q], mode) is Some by {
                        if q < i {
                            assert(dirs@.take(i as int)[q] == dirs@.take(i + 1)[q]);
                        }
                    }
                }
            },
        }
        i += 1;
    }
    assert(dirs@.take(dirs.len() as int) == dirs@);
    Ok(r)
}

/// A directory without an `images` directory gives no manifest, whatever else
/// it holds: no manifest carries its name.
pub proof fn lemma_no_images_no_manifest(
    dirs: Seq<CategoryDir>,
    mode: RenderMode,
    ms: Seq<CategoryManifest>,
    i: int,
)
    requires
        discovered(dirs, mode, ms),
        0 <= i < dirs.len(),
        dirs[i].images is None,
        forall|k: int| 0 <= k < dirs.len() && k != i ==> dirs[k].name@ != dirs[i].name@,
    ensures
        forall|j: int| 0 <= j < ms.len() ==> ms[j].key@ != dirs[i].name@,
{
    assert forall|j: int| 0 <= j < ms.len() implies ms[j].key@ != dirs[i].name@ by {
        assert(built_from(ms[j], dirs, mode));
        let k = choose|k: int| 0 <= k < dirs.len() && is_category(dirs[k]) && #[trigger] manifest_of(ms[j], dirs[k], mode);
        assert(k != i);
    }
}

} // verus!
