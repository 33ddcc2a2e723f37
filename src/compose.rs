use vstd::prelude::*;

use crate::assets::{get_image_list, image_refs};
use crate::background::{apply_background, resolve_background, with_background, BackgroundConflict};
use crate::manifest::{
    background_of, category_title, conflict_of, image_listing, opt_view, title_of, CategoryDir,
};
use crate::metadata::{custom_title_of, resolve_custom_title};
use crate::mode::{
    background_base, background_location, background_policy, images_base, images_base_of,
    RenderMode,
};
use crate::order::{sort_strings, sorted_seqs, views};
use crate::text::{join_strings, joined, replace_all, replaced};

verus! {

/// A page found among the templates.
pub struct ContentNode {
    /// Its canonical route, such as `/bio/` or `/modeling/headshots/`.
    pub route: String,
    pub title: String,
    /// Its body, with placeholders still in it.
    pub content: String,
    /// Whether it is the page of a modeling category.
    pub is_modeling: bool,
    pub category: Option<String>,
}

/// The placeholders of the base layout and of page bodies.
pub const TITLE_TOKEN: &'static str = "{{TITLE}}";

pub const CONTENT_TOKEN: &'static str = "{{CONTENT}}";

pub const NAVIGATION_TOKEN: &'static str = "{{NAVIGATION_ITEMS}}";

pub const IMAGE_PATHS_TOKEN: &'static str = "{{IMAGE_PATHS}}";

pub const CUSTOM_TITLE_TOKEN: &'static str = "{{CUSTOM_TITLE}}";

pub const CATEGORIES_TOKEN: &'static str = "{{CATEGORIES_JSON}}";

/// The categories of the modeling pages among `nodes`, in order, repeats
/// included.
pub open spec fn modeling_categories(nodes: Seq<ContentNode>) -> Seq<Seq<char>>
    decreases nodes.len(),
{
    if nodes.len() == 0 {
        Seq::empty()
    } else {
        let rest = modeling_categories(nodes.drop_last());
        let n = nodes.last();
        if n.is_modeling && n.category is Some {
            rest.push(n.category->Some_0@)
        } else {
            rest
        }
    }
}

/// `s` with each value kept at its first occurrence only.
pub open spec fn distinct(s: Seq<Seq<char>>) -> Seq<Seq<char>>
    decreases s.len(),
{
    if s.len() == 0 {
        Seq::empty()
    } else if distinct(s.drop_last()).contains(s.last()) {
        distinct(s.drop_last())
    } else {
        distinct(s.drop_last()).push(s.last())
    }
}

/// The navigation entry of one category.
pub open spec fn nav_item(category: Seq<char>) -> Seq<char> {
    "                    <a href=\"/modeling/"@ + category + "/\">"@ + title_of(category) + "</a>"@
}

/// The navigation entries of the categories of `nodes`: each category once,
/// sorted, one line each.
pub open spec fn navigation_of(nodes: Seq<ContentNode>) -> Seq<char> {
    joined(
        sorted_seqs(distinct(modeling_categories(nodes))).map_values(|c: Seq<char>| nav_item(c)),
        seq!['\n'],
    )
}

/// A page: `base` with the title, the body and the navigation put in place of
/// their placeholders, in that order.
pub open spec fn page_of(base: Seq<char>, title: Seq<char>, content: Seq<char>, nav: Seq<char>) -> Seq<char> {
    replaced(replaced(replaced(base, TITLE_TOKEN@, title), CONTENT_TOKEN@, content), NAVIGATION_TOKEN@, nav)
}

fn contains_string(v: &Vec<String>, s: &String) -> (r: bool)
    ensures
        r == views(v@).contains(s@),
{
    let mut i: usize = 0;
    while i < v.len()
        invariant
            i <= v.len(),
            forall|j: int| 0 <= j < i ==> v@[j]@ != s@,
        decreases v.len() - i,
    {
        if v[i] == *s {
            assert(views(v@)[i as int] == s@);
            return true;
        }
        i += 1;
    }
    false
}

/// The categories of the modeling pages among `nodes`, each once, in order of
/// first appearance.
pub fn distinct_categories(nodes: &Vec<ContentNode>) -> (r: Vec<String>)
    ensures
        views(r@) == distinct(modeling_categories(nodes@)),
{
    let mut r: Vec<String> = Vec::new();
    let mut i: usize = 0;
    while i < nodes.len()
        invariant
            i <= nodes.len(),
            views(r@) == distinct(modeling_categories(nodes@.take(i as int))),
        decreases nodes.len() - i,
    {
        assert(nodes@.take(i + 1).drop_last() == nodes@.take(i as int));
        assert(nodes@.take(i + 1).last() == nodes@[i as int]);
        let ghost mc = modeling_categories(nodes@.take(i as int));
        let n = &nodes[i];
        if n.is_modeling {
            match &n.category {
                Some(c) => {
                    assert(modeling_categories(nodes@.take(i + 1)) == mc.push(c@));
                    assert(mc.push(c@).drop_last() == mc);
                    if !contains_string(&r, c) {
                        let ghost before = r@;
                        r.push(c.clone());
                        assert(views(r@) =~= views(before).push(c@));
                    }
                },
                None => {},
            }
        }
        i += 1;
    }
    assert(nodes@.take(nodes.len() as int) == nodes@);
    r
}

/// The navigation entries for the modeling categories among `nodes`: each
/// category once, sorted, one link per line.
pub fn generate_navigation_items(nodes: &Vec<ContentNode>) -> (r: String)
    ensures
        r@ == navigation_of(nodes@),
{
    let cats = sort_strings(distinct_categories(nodes));
    let mut items: Vec<String> = Vec::new();
    let mut i: usize = 0;
    while i < cats.len()
        invariant
            i <= cats.len(),
            items@.map_values(|s: String| s@) == views(cats@).take(i as int).map_values(|c: Seq<char>| nav_item(c)),
        decreases cats.len() - i,
    {
        let c = cats[i].as_str();
        let mut item = "                    <a href=\"/modeling/".to_owned();
        item.append(c);
        item.append("/\">");
        item.append(category_title(c).as_str());
        item.append("</a>");
        let ghost before = items@;
        items.push(item);
        assert(items@.map_values(|s: String| s@) =~= before.map_values(|s: String| s@).push(nav_item(cats@[i as int]@)));
        assert(views(cats@).take(i + 1) =~= views(cats@).take(i as int).push(cats@[i as int]@));
        i += 1;
    }
    assert(views(cats@).take(cats.len() as int) == views(cats@));
    proof {
        reveal_strlit("\n");
        assert("\n"@ =~= seq!['\n']);
    }
    join_strings(&items, "\n")
}

/// Puts the title, the body and the navigation into the base layout.
pub fn compose_page(base: &str, title: &str, content: &str, nav: &str) -> (r: String)
    ensures
        r@ == page_of(base@, title@, content@, nav@),
{
    let a = replace_all(base, TITLE_TOKEN, title);
    let b = replace_all(a.as_str(), CONTENT_TOKEN, content);
    replace_all(b.as_str(), NAVIGATION_TOKEN, nav)
}

/// A page of the site: the base layout with its title, its body, and the
/// navigation for the categories among `nodes`.
pub fn generate_page(base: &str, title: &str, content: &str, nodes: &Vec<ContentNode>) -> (r: String)
    ensures
        r@ == page_of(base@, title@, content@, navigation_of(nodes@)),
{
    let nav = generate_navigation_items(nodes);
    compose_page(base, title, content, nav.as_str())
}

/// The image references as a script array of single-quoted strings.
pub open spec fn image_paths_js(images: Seq<Seq<char>>) -> Seq<char> {
    seq!['['] + joined(images.map_values(|s: Seq<char>| seq!['\''] + s + seq!['\'']), seq![',', ' '])
        + seq![']']
}

/// The body of a category page: its image list and its description put in
/// place of their placeholders.
pub open spec fn category_body(content: Seq<char>, images: Seq<Seq<char>>, custom: Seq<char>) -> Seq<char> {
    replaced(replaced(content, IMAGE_PATHS_TOKEN@, image_paths_js(images)), CUSTOM_TITLE_TOKEN@, custom)
}

/// The page of category `dir` before its background is applied.
pub open spec fn plain_category_page(
    base: Seq<char>,
    title: Seq<char>,
    content: Seq<char>,
    dir: CategoryDir,
    mode: RenderMode,
    nodes: Seq<ContentNode>,
) -> Seq<char> {
    page_of(
        base,
        title,
        category_body(
            content,
            image_refs(images_base_of(mode, dir.name@), image_listing(dir)),
            custom_title_of(opt_view(dir.subtitle)),
        ),
        navigation_of(nodes),
    )
}

/// The image references as a script array.
pub fn image_paths_array(images: &Vec<String>) -> (r: String)
    ensures
        r@ == image_paths_js(views(images@)),
{
    let mut quoted: Vec<String> = Vec::new();
    let mut i: usize = 0;
    while i < images.len()
        invariant
            i <= images.len(),
            quoted@.map_values(|s: String| s@) == views(images@).take(i as int).map_values(
                |s: Seq<char>| seq!['\''] + s + seq!['\''],
            ),
        decreases images.len() - i,
    {
        let mut q = String::new();
        crate::text::push_char(&mut q, '\'');
        q.append(images[i].as_str());
        crate::text::push_char(&mut q, '\'');
        assert(q@ =~= seq!['\''] + images@[i as int]@ + seq!['\'']);
        let ghost before = quoted@;
        quoted.push(q);
        assert(quoted@.map_values(|s: String| s@) =~= before.map_values(|s: String| s@).push(
            seq!['\''] + images@[i as int]@ + seq!['\''],
        ));
        assert(views(images@).take(i + 1) =~= views(images@).take(i as int).push(images@[i as int]@));
        i += 1;
    }
    assert(views(images@).take(images.len() as int) == views(images@));
    let mut r = String::new();
    crate::text::push_char(&mut r, '[');
    proof {
        reveal_strlit(", ");
        assert(", "@ =~= seq![',', ' ']);
    }
    r.append(join_strings(&quoted, ", ").as_str());
    crate::text::push_char(&mut r, ']');
    r
}

/// The page of a modeling category: its images and description put into its
/// body, the body into the base layout, and, where the category has a
/// background image, that image in place of the animated gradient. Fails
/// where the mode's policy refuses the category's background images.
pub fn generate_modeling_page(
    base: &str,
    title: &str,
    content: &str,
    dir: &CategoryDir,
    mode: RenderMode,
    nodes: &Vec<ContentNode>,
) -> (r: Result<String, BackgroundConflict>)
    ensures
        ({
            let page = plain_category_page(base@, title@, content@, *dir, mode, nodes@);
            match background_of(*dir, mode) {
                None => r matches Err(c) && conflict_of(c, *dir, mode),
                Some(None) => r matches Ok(s) && s@ == page,
                Some(Some(bg)) => r matches Ok(s) && s@ == with_background(page, bg),
            }
        }),
{
    let key = dir.name.as_str();
    let background = match resolve_background(
        background_base(mode, key).as_str(),
        background_location(key).as_str(),
        &dir.background,
        background_policy(mode),
    ) {
        Ok(b) => b,
        Err(c) => return Err(c),
    };
    let images = match &dir.images {
        Some(entries) => get_image_list(images_base(mode, key).as_str(), entries),
        None => Vec::new(),
    };
    proof {
        if dir.images is None {
            assert(image_refs(images_base_of(mode, key@), image_listing(*dir)).len() == 0) by {
                crate::assets::lemma_image_refs_len(images_base_of(mode, key@), image_listing(*dir));
            }
            assert(views(images@) =~= image_refs(images_base_of(mode, key@), image_listing(*dir)));
        }
    }
    let js = image_paths_array(&images);
    let with_images = replace_all(content, IMAGE_PATHS_TOKEN, js.as_str());
    let custom = resolve_custom_title(&dir.subtitle);
    let body = replace_all(with_images.as_str(), CUSTOM_TITLE_TOKEN, custom.as_str());
    let page = generate_page(base, title, body.as_str(), nodes);
    match background {
        Some(bg) => Ok(apply_background(page.as_str(), bg.as_str())),
        None => Ok(page),
    }
}

} // verus!
