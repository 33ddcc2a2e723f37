use vstd::prelude::*;

use crate::assets::{extension, last_index_of};
use crate::assets::image_file_names;
use crate::compose::ContentNode;
use crate::lines::{find_chars, find_from};
use crate::manifest::{category_title, is_category, opt_view, title_of, CategoryDir};
use crate::metadata::tail_of;
use crate::order::{lemma_lex_antisymmetric, lemma_lex_total, lemma_lex_transitive, lex_le, str_le};
use crate::text::{chars_of, matches_at, occurs_at, str_eq, string_of};

verus! {

/// A page template found under the template root.
pub struct TemplateFile {
    /// The directory that holds it, relative to the template root, its parts
    /// joined by `/`; empty at the root itself.
    pub dir: String,
    /// Its file name.
    pub name: String,
    pub content: String,
}

/// What a route leads to: title, body, whether it is a modeling page, and its
/// category.
pub type PageModel = (Seq<char>, Seq<char>, bool, Option<Seq<char>>);

/// What a node leads to.
pub open spec fn page_model(n: ContentNode) -> PageModel {
    (n.title@, n.content@, n.is_modeling, match n.category {
        Some(c) => Some(c@),
        None => None,
    })
}

/// Whether a directory under the template root holds assets, not pages.
pub open spec fn is_asset_dir_name(name: Seq<char>) -> bool {
    name == "images"@ || name == "Background"@
}

/// Whether a directory under the template root holds assets and is not
/// searched for pages.
pub fn is_asset_dir(name: &str) -> (r: bool)
    ensures
        r == is_asset_dir_name(name@),
{
    str_eq(name, "images") || str_eq(name, "Background")
}

/// The stem of a page template's file name: the name without its `.html`
/// extension. Other files are no page.
pub open spec fn page_stem(name: Seq<char>) -> Option<Seq<char>> {
    if extension(name) == Some("html"@) {
        Some(name.take(last_index_of(name, '.')->Some_0))
    } else {
        None
    }
}

/// Whether the directory path `dir` has a part named `part`.
pub open spec fn has_part(dir: Seq<char>, part: Seq<char>) -> bool {
    ||| dir == part
    ||| occurs_at(dir, 0, part.push('/'))
    ||| occurs_at(dir, dir.len() - part.len() - 1, seq!['/'] + part)
    ||| find_from(dir, seq!['/'] + part.push('/'), 0) is Some
}

/// Whether a directory path lies in an asset directory.
pub open spec fn in_asset_dir(dir: Seq<char>) -> bool {
    has_part(dir, "images"@) || has_part(dir, "Background"@)
}

/// The route of a page template, whether it is a modeling page, and its
/// category; none for the layout itself, for the home page, and for a file in
/// an asset directory.
pub open spec fn page_route(dir: Seq<char>, stem: Seq<char>) -> Option<(Seq<char>, bool, Option<Seq<char>>)> {
    if in_asset_dir(dir) || stem == "base"@ || (stem == "index"@ && dir.len() == 0) {
        None
    } else if dir == "modeling"@ {
        Some(("/modeling/"@ + stem + "/"@, true, Some(stem)))
    } else if dir.len() >= 9 && dir.take(9) == "modeling/"@ {
        let cat = dir.skip(9);
        Some(("/modeling/"@ + cat + "/"@, true, Some(cat)))
    } else if dir.len() == 0 {
        Some(("/"@ + stem + "/"@, false, None))
    } else {
        Some(("/"@ + dir + "/"@, false, None))
    }
}

/// The title of a page: its category's, or its file's, with the first
/// character in upper case.
pub open spec fn page_title(stem: Seq<char>, category: Option<Seq<char>>) -> Seq<char> {
    match category {
        Some(c) => if c.len() == 0 {
            "Portfolio"@
        } else {
            title_of(c)
        },
        None => if stem.len() == 0 {
            "Page"@
        } else {
            title_of(stem)
        },
    }
}

/// Whether one of `dirs` is named `c` and is a category.
pub open spec fn category_named(dirs: Seq<CategoryDir>, c: Seq<char>) -> bool {
    exists|d: int| 0 <= d < dirs.len() && dirs[d].name@ == c && #[trigger] is_category(dirs[d])
}

/// The route and page that a template file gives, if any. A modeling page
/// needs a category directory of its name among `dirs`.
pub open spec fn page_of_file(f: TemplateFile, dirs: Seq<CategoryDir>) -> Option<(Seq<char>, PageModel)> {
    match page_stem(f.name@) {
        Some(stem) => match page_route(f.dir@, stem) {
            Some((route, modeling, category)) => if modeling && !category_named(
                dirs,
                category->Some_0,
            ) {
                None
            } else {
                Some((route, (page_title(stem, category), f.content@, modeling, category)))
            },
            None => None,
        },
        None => None,
    }
}

/// Whether template file `f` gives a page on `route`.
pub open spec fn gives_route(f: TemplateFile, dirs: Seq<CategoryDir>, route: Seq<char>) -> bool {
    page_of_file(f, dirs) matches Some((r, _)) && r == route
}

/// Order of template files: by directory, then by name.
pub open spec fn file_le(a: TemplateFile, b: TemplateFile) -> bool {
    if a.dir@ == b.dir@ {
        lex_le(a.name@, b.name@)
    } else {
        lex_le(a.dir@, b.dir@)
    }
}

/// Whether node `n` is the page of the first file, by directory and name,
/// among `files` that give a page on its route.
pub open spec fn kept_page(n: ContentNode, files: Seq<TemplateFile>, dirs: Seq<CategoryDir>) -> bool {
    exists|j: int|
        0 <= j < files.len() && #[trigger] page_of_file(files[j], dirs) == Some(
            (n.route@, page_model(n)),
        ) && forall|k: int|
            0 <= k < files.len() && #[trigger] gives_route(files[k], dirs, n.route@) ==> file_le(
                files[j],
                files[k],
            )
}

/// Whether some node of `nodes` has the route that `f` gives, where it gives
/// one.
pub open spec fn has_node_for(nodes: Seq<ContentNode>, f: TemplateFile, dirs: Seq<CategoryDir>) -> bool {
    page_of_file(f, dirs) matches Some((route, _)) ==> exists|q: int|
        0 <= q < nodes.len() && nodes[q].route@ == route
}

/// Whether node `n`, where it is a modeling page, has a category that is a
/// category among `dirs`.
pub open spec fn in_known_category(n: ContentNode, dirs: Seq<CategoryDir>) -> bool {
    n.is_modeling ==> match n.category {
        Some(c) => category_named(dirs, c@),
        None => false,
    }
}

/// Whether `nodes` are the pages of a template root: each route once; the
/// home page from the index, where there is one; on every other route the
/// page of the first file (by directory, then name) that gives one there, so
/// that the result does not depend on the order in which files were listed.
pub open spec fn discovered_pages(
    index: Option<Seq<char>>,
    files: Seq<TemplateFile>,
    dirs: Seq<CategoryDir>,
    nodes: Seq<ContentNode>,
) -> bool {
    &&& forall|p: int, q: int| 0 <= p < q < nodes.len() ==> nodes[p].route@ != nodes[q].route@
    &&& forall|q: int|
        0 <= q < nodes.len() && #[trigger] nodes[q].route@ == "/"@ ==> index is Some && page_model(
            nodes[q],
        ) == ("Home"@, index->Some_0, false, None::<Seq<char>>)
    &&& index is Some ==> exists|q: int| 0 <= q < nodes.len() && nodes[q].route@ == "/"@
    &&& forall|q: int|
        0 <= q < nodes.len() && nodes[q].route@ != "/"@ ==> #[trigger] kept_page(nodes[q], files, dirs)
    &&& forall|j: int| 0 <= j < files.len() ==> #[trigger] has_node_for(nodes, files[j], dirs)
}

fn template_stem(name: &str) -> (r: Option<String>)
    ensures
        match page_stem(name@) {
            Some(s) => r matches Some(x) && x@ == s,
            None => r is None,
        },
{
    let cs = chars_of(name);
    let ext = chars_of("html");
    let mut j: usize = cs.len();
    assert(cs@.take(cs.len() as int) == cs@);
    while j > 0 && cs[j - 1] != '.'
        invariant
            j <= cs.len(),
            last_index_of(cs@, '.') == last_index_of(cs@.take(j as int), '.'),
        decreases j,
    {
        assert(cs@.take(j as int).drop_last() == cs@.take(j - 1));
        j -= 1;
    }
    if j <= 1 {
        proof {
            if j == 0 {
                assert(cs@.take(0).len() == 0);
            }
        }
        return None;
    }
    assert(cs@.take(j as int).drop_last() == cs@.take(j - 1));
    let k = j - 1;
    if cs.len() - j == ext.len() && matches_at(&cs, j, &ext) {
        assert(cs@.subrange(j as int, cs@.len() as int) == "html"@);
        let mut stem: Vec<char> = Vec::new();
        let mut i: usize = 0;
        while i < k
            invariant
                k < cs.len(),
                i <= k,
                stem@ == cs@.take(i as int),
            decreases k - i,
        {
            stem.push(cs[i]);
            assert(cs@.take(i + 1) == cs@.take(i as int).push(cs@[i as int]));
            i += 1;
        }
        Some(string_of(&stem))
    } else {
        None
    }
}

fn make_route(inner: &str) -> (r: String)
    ensures
        r@ == "/"@ + inner@ + "/"@,
{
    let mut r = "/".to_owned();
    r.append(inner);
    r.append("/");
    r
}

fn make_modeling_route(cat: &str) -> (r: String)
    ensures
        r@ == "/modeling/"@ + cat@ + "/"@,
{
    let mut r = "/modeling/".to_owned();
    r.append(cat);
    r.append("/");
    r
}

fn title_for(stem: &str, category: &Option<String>) -> (r: String)
    ensures
        r@ == page_title(stem@, match category {
            Some(c) => Some(c@),
            None => None,
        }),
{
    match category {
        Some(c) => if c.as_str().is_empty() {
            "Portfolio".to_owned()
        } else {
            category_title(c.as_str())
        },
        None => if stem.is_empty() {
            "Page".to_owned()
        } else {
            category_title(stem)
        },
    }
}

fn has_part_in(dir: &Vec<char>, part: &str) -> (r: bool)
    ensures
        r == has_part(dir@, part@),
{
    proof {
        reveal_strlit("/");
        assert("/"@ =~= seq!['/']);
    }
    let p = chars_of(part);
    let mut ps = part.to_owned();
    crate::text::push_char(&mut ps, '/');
    let p_slash = chars_of(ps.as_str());
    let mut sp = "/".to_owned();
    sp.append(part);
    let slash_p = chars_of(sp.as_str());
    crate::text::push_char(&mut sp, '/');
    let slash_p_slash = chars_of(sp.as_str());
    assert(p_slash@ =~= part@.push('/'));
    assert(slash_p@ =~= seq!['/'] + part@);
    assert(slash_p_slash@ =~= seq!['/'] + part@.push('/'));
    let same = dir.len() == p.len() && matches_at(dir, 0, &p);
    assert(same == (dir@ == part@)) by {
        assert(dir@.subrange(0, dir@.len() as int) =~= dir@);
    }
    let at_start = matches_at(dir, 0, &p_slash);
    let at_end = if dir.len() >= slash_p.len() {
        matches_at(dir, dir.len() - slash_p.len(), &slash_p)
    } else {
        false
    };
    assert(at_end == occurs_at(dir@, dir@.len() - part@.len() - 1, seq!['/'] + part@));
    let inside = find_chars(dir, &slash_p_slash, 0).is_some();
    assert(inside == (find_from(dir@, seq!['/'] + part@.push('/'), 0) is Some));
    assert(at_start == occurs_at(dir@, 0, part@.push('/')));
    same || at_start || at_end || inside
}

/// Whether a directory path lies in an asset directory.
pub fn is_in_asset_dir(dir: &str) -> (r: bool)
    ensures
        r == in_asset_dir(dir@),
{
    let dc = chars_of(dir);
    has_part_in(&dc, "images") || has_part_in(&dc, "Background")
}

/// Whether `d` is a category: it has an images directory with an image.
pub fn is_category_dir(d: &CategoryDir) -> (r: bool)
    ensures
        r == is_category(*d),
{
    match &d.images {
        Some(entries) => image_file_names(entries).len() > 0,
        None => false,
    }
}

/// Whether one of `dirs` is named `c` and is a category.
pub fn has_category(dirs: &Vec<CategoryDir>, c: &str) -> (r: bool)
    ensures
        r == category_named(dirs@, c@),
{
    let mut k: usize = 0;
    while k < dirs.len()
        invariant
            k <= dirs.len(),
            forall|d: int| 0 <= d < k ==> !(dirs@[d].name@ == c@ && #[trigger] is_category(dirs@[d])),
        decreases dirs.len() - k,
    {
        if str_eq(dirs[k].name.as_str(), c) && is_category_dir(&dirs[k]) {
            assert(is_category(dirs@[k as int]));
            return true;
        }
        k += 1;
    }
    false
}

fn file_before(a: &TemplateFile, b: &TemplateFile) -> (r: bool)
    ensures
        r == file_le(*a, *b),
{
    if str_eq(a.dir.as_str(), b.dir.as_str()) {
        str_le(a.name.as_str(), b.name.as_str())
    } else {
        str_le(a.dir.as_str(), b.dir.as_str())
    }
}

proof fn lemma_file_le_total(a: TemplateFile, b: TemplateFile)
    ensures
        file_le(a, b) || file_le(b, a),
{
    lemma_lex_total(a.name@, b.name@);
    lemma_lex_total(a.dir@, b.dir@);
}

proof fn lemma_file_le_transitive(a: TemplateFile, b: TemplateFile, c: TemplateFile)
    requires
        file_le(a, b),
        file_le(b, c),
    ensures
        file_le(a, c),
{
    if a.dir@ == b.dir@ && b.dir@ == c.dir@ {
        lemma_lex_transitive(a.name@, b.name@, c.name@);
    } else if a.dir@ != b.dir@ && b.dir@ != c.dir@ {
        lemma_lex_transitive(a.dir@, b.dir@, c.dir@);
        if a.dir@ == c.dir@ {
            lemma_lex_antisymmetric(a.dir@, b.dir@);
        }
    }
}

proof fn lemma_file_route_not_home(f: TemplateFile, dirs: Seq<CategoryDir>)
    ensures
        page_of_file(f, dirs) matches Some((r, _)) ==> r.len() >= 2,
{
    reveal_strlit("/");
    reveal_strlit("/modeling/");
}

/// The page that one template file gives, if it gives one.
pub fn classify_template(f: &TemplateFile, dirs: &Vec<CategoryDir>) -> (r: Option<ContentNode>)
    ensures
        match page_of_file(*f, dirs@) {
            Some((route, page)) => r matches Some(n) && n.route@ == route && page_model(n) == page,
            None => r is None,
        },
{
    let stem = match template_stem(f.name.as_str()) {
        Some(s) => s,
        None => return None,
    };
    let dir = f.dir.as_str();
    let s = stem.as_str();
    if is_in_asset_dir(dir) || str_eq(s, "base") || (str_eq(s, "index") && dir.is_empty()) {
        return None;
    }
    let (route, modeling, category) = if str_eq(dir, "modeling") {
        (make_modeling_route(s), true, Some(stem.clone()))
    } else {
        let dc = chars_of(dir);
        let prefix = chars_of("modeling/");
        proof {
            reveal_strlit("modeling/");
        }
        if dc.len() >= 9 && matches_at(&dc, 0, &prefix) {
            assert(dc@.subrange(0, 9) == dc@.take(9));
            let cat = string_of(&tail_of(&dc, 9));
            assert(cat@ == dc@.skip(9));
            (make_modeling_route(cat.as_str()), true, Some(cat))
        } else if dir.is_empty() {
            (make_route(s), false, None)
        } else {
            (make_route(dir), false, None)
        }
    };
    if modeling {
        let known = match &category {
            Some(c) => has_category(dirs, c.as_str()),
            None => false,
        };
        if !known {
            return None;
        }
    }
    let title = title_for(s, &category);
    Some(ContentNode { route, title, content: f.content.clone(), is_modeling: modeling, category })
}

/// The pages of a template root: the home page from the content of its index
/// file, where there is one, and the pages of the template files. A modeling
/// page is kept only where its category is a category among `dirs`; where
/// several files give a page on one route, the first by directory and name is
/// kept, whatever order they were listed in.
pub fn discover_templates(
    index: &Option<String>,
    files: &Vec<TemplateFile>,
    dirs: &Vec<CategoryDir>,
) -> (r: Vec<ContentNode>)
    ensures
        discovered_pages(opt_view(*index), files@, dirs@, r@),
        forall|q: int| 0 <= q < r@.len() ==> #[trigger] in_known_category(r@[q], dirs@),
{
    let mut r: Vec<ContentNode> = Vec::new();
    let mut src: Vec<usize> = Vec::new();
    let mut i: usize = 0;
    while i < files.len()
        invariant
            i <= files.len(),
            r.len() == src.len(),
            forall|p: int, q: int| 0 <= p < q < r@.len() ==> r@[p].route@ != r@[q].route@,
            forall|q: int| 0 <= q < src@.len() ==> #[trigger] src@[q] < i,
            forall|q: int|
                0 <= q < r@.len() ==> #[trigger] page_of_file(files@[src@[q] as int], dirs@)
                    == Some((r@[q].route@, page_model(r@[q]))),
            forall|q: int, j: int|
                0 <= q < r@.len() && 0 <= j < i && #[trigger] gives_route(files@[j], dirs@, r@[q].route@)
                    ==> file_le(files@[src@[q] as int], files@[j]),
            forall|j: int| 0 <= j < i ==> #[trigger] has_node_for(r@, files@[j], dirs@),
        decreases files.len() - i,
    {
        match classify_template(&files[i], dirs) {
            Some(n) => {
                let mut q: usize = 0;
                while q < r.len() && !str_eq(r[q].route.as_str(), n.route.as_str())
                    invariant
                        q <= r.len(),
                        forall|t: int| 0 <= t < q ==> r@[t].route@ != n.route@,
                    decreases r.len() - q,
                {
                    q += 1;
                }
                let ghost old_r = r@;
                let ghost old_src = src@;
                assert(gives_route(files@[i as int], dirs@, n.route@));
                if q < r.len() {
                    assert(src@[q as int] < i);
                    if !file_before(&files[src[q]], &files[i]) {
                        proof {
                            lemma_file_le_total(files@[old_src[q as int] as int], files@[i as int]);
                            assert forall|j: int| 0 <= j < i + 1 && #[trigger] gives_route(files@[j], dirs@, n.route@)
                                implies file_le(files@[i as int], files@[j]) by {
                                if j < i {
                                    assert(gives_route(files@[j], dirs@, old_r[q as int].route@));
                                    lemma_file_le_transitive(files@[i as int], files@[old_src[q as int] as int], files@[j]);
                                } else {
                                    lemma_file_le_total(files@[i as int], files@[i as int]);
                                }
                            }
                        }
                        r.set(q, n);
                        src.set(q, i);
                    } else {
                        assert(file_le(files@[src@[q as int] as int], files@[i as int]));
                    }
                } else {
                    proof {
                        assert forall|j: int| 0 <= j < i && #[trigger] gives_route(files@[j], dirs@, n.route@)
                            implies false by {
                            assert(has_node_for(old_r, files@[j], dirs@));
                        }
                        lemma_file_le_total(files@[i as int], files@[i as int]);
                    }
                    r.push(n);
                    src.push(i);
                }
                proof {
                    assert forall|p: int, t: int| 0 <= p < t < r@.len() implies r@[p].route@ != r@[t].route@ by {
                        if t < old_r.len() && p != q && t != q {
                            assert(old_r[p].route@ != old_r[t].route@);
                        } else if t < old_r.len() {
                            assert(old_r[p].route@ != old_r[t].route@);
                        }
                    }
                    assert forall|t: int, j: int|
                        0 <= t < r@.len() && 0 <= j < i + 1 && #[trigger] gives_route(files@[j], dirs@, r@[t].route@)
                        implies file_le(files@[src@[t] as int], files@[j]) by {
                        if r@[t].route@ == n.route@ {
                            if j == i {
                                lemma_file_le_total(files@[src@[t] as int], files@[i as int]);
                            }
                        } else {
                            assert(r@[t] == old_r[t] && src@[t] == old_src[t]);
                        }
                    }
                    assert forall|j: int| 0 <= j < i + 1 implies #[trigger] has_node_for(r@, files@[j], dirs@) by {
                        if j < i {
                            assert(has_node_for(old_r, files@[j], dirs@));
                            if page_of_file(files@[j], dirs@) is Some {
                                let t = choose|t: int| 0 <= t < old_r.len() && old_r[t].route@ == page_of_file(files@[j], dirs@)->Some_0.0;
                                if t == q {
                                    assert(r@[q as int].route@ == old_r[t].route@);
                                } else {
                                    assert(r@[t] == old_r[t]);
                                }
                            }
                        } else {
                            assert(r@[q as int].route@ == n.route@);
                        }
                    }
                }
            },
            None => {
                proof {
                    assert forall|j: int| 0 <= j < i + 1 implies #[trigger] has_node_for(r@, files@[j], dirs@) by {
                        if j < i {
                            assert(has_node_for(r@, files@[j], dirs@));
                        }
                    }
                    assert forall|t: int, j: int|
                        0 <= t < r@.len() && 0 <= j < i + 1 && #[trigger] gives_route(files@[j], dirs@, r@[t].route@)
                        implies file_le(files@[src@[t] as int], files@[j]) by {
                        if j == i {
                            assert(page_of_file(files@[j], dirs@) is None);
                        }
                    }
                }
            },
        }
        i += 1;
    }
    let ghost file_nodes = r@;
    proof {
        assert forall|q: int| 0 <= q < file_nodes.len() implies file_nodes[q].route@ != "/"@ by {
            let j = src@[q] as int;
            assert(page_of_file(files@[j], dirs@) == Some((r@[q].route@, page_model(r@[q]))));
            lemma_file_route_not_home(files@[j], dirs@);
            reveal_strlit("/");
        }
        assert forall|q: int| 0 <= q < file_nodes.len() implies #[trigger] kept_page(
            file_nodes[q],
            files@,
            dirs@,
        ) by {
            let j = src@[q] as int;
            assert(src@[q] < i);
            assert(page_of_file(files@[j], dirs@) == Some((r@[q].route@, page_model(r@[q]))));
            assert forall|k: int| 0 <= k < files@.len() && #[trigger] gives_route(files@[k], dirs@, r@[q].route@)
                implies file_le(files@[j], files@[k]) by {}
        }
    }
    match index {
        Some(c) => {
            r.push(ContentNode {
                route: "/".to_owned(),
                title: "Home".to_owned(),
                content: c.clone(),
                is_modeling: false,
                category: None,
            });
            proof {
                let last = (r@.len() - 1) as int;
                assert(r@[last].route@ == "/"@);
                assert forall|q: int| 0 <= q < r@.len() && #[trigger] r@[q].route@ == "/"@ implies q == last by {
                    if q < last {
                        assert(file_nodes[q].route@ != "/"@);
                    }
                }
                assert forall|q: int| 0 <= q < r@.len() && r@[q].route@ != "/"@ implies #[trigger] kept_page(r@[q], files@, dirs@) by {
                    assert(q < last);
                    assert(r@[q] == file_nodes[q]);
                }
                assert forall|j: int| 0 <= j < files@.len() implies #[trigger] has_node_for(r@, files@[j], dirs@) by {
                    assert(has_node_for(file_nodes, files@[j], dirs@));
                    if page_of_file(files@[j], dirs@) is Some {
                        let t = choose|t: int| 0 <= t < file_nodes.len() && file_nodes[t].route@ == page_of_file(files@[j], dirs@)->Some_0.0;
                        assert(r@[t] == file_nodes[t]);
                    }
                }
                assert forall|p: int, q: int| 0 <= p < q < r@.len() implies r@[p].route@ != r@[q].route@ by {
                    if q == last {
                        assert(file_nodes[p].route@ != "/"@);
                    }
                }
            }
        },
        None => {
            proof {
                assert forall|q: int| 0 <= q < r@.len() && #[trigger] r@[q].route@ == "/"@ implies false by {
                    assert(file_nodes[q].route@ != "/"@);
                }
                assert forall|q: int| 0 <= q < r@.len() && r@[q].route@ != "/"@ implies #[trigger] kept_page(r@[q], files@, dirs@) by {
                    assert(kept_page(file_nodes[q], files@, dirs@));
                }
            }
        },
    }
    proof {
        assert forall|q: int| 0 <= q < r@.len() implies #[trigger] in_known_category(r@[q], dirs@) by {
            if r@[q].route@ != "/"@ {
                assert(kept_page(r@[q], files@, dirs@));
                let j = choose|j: int| 0 <= j < files@.len() && #[trigger] page_of_file(files@[j], dirs@) == Some(
                    (r@[q].route@, page_model(r@[q])),
                ) && forall|k: int| 0 <= k < files@.len() && #[trigger] gives_route(files@[k], dirs@, r@[q].route@) ==> file_le(files@[j], files@[k]);
            }
        }
    }
    r
}

} // verus!
