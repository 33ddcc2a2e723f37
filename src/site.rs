use vstd::prelude::*;

use crate::background::{with_background, BackgroundConflict};
use crate::compose::{
    generate_modeling_page, generate_page, navigation_of, page_of, plain_category_page,
    ContentNode, CATEGORIES_TOKEN, CONTENT_TOKEN, NAVIGATION_TOKEN, TITLE_TOKEN,
};
use crate::feature::{feature_body, fill_feature, Feature};
use crate::manifest::{background_of, conflict_of, opt_view, CategoryDir, CategoryManifest};
use crate::mode::RenderMode;
use crate::order::views;
use crate::rewrite::{delivered, rewrite_paths};
use crate::serialize::{manifest_json, manifests_json};
use crate::text::{
    contains_seq, lemma_replaced_keeps, lemma_replaced_shows_to, occurs_at, replace_all, replaced,
    shares_no_char, str_eq,
};

verus! {

/// An HTTP status and the HTML that goes with it.
pub struct Response {
    pub status: u16,
    pub body: String,
}

/// The title and body of the page for a route that does not exist.
pub const NOT_FOUND_TITLE: &'static str = "404 - Page Not Found";

pub const NOT_FOUND_BODY: &'static str = "<div style='text-align: center; padding: 50px;'>
                <h1>404 - Page Not Found</h1>
                <p>The page you're looking for doesn't exist.</p>
                <a href='/'>Return to Home</a>
             </div>";

/// The title and body of the home page where its template is missing.
pub const MISSING_HOME_TITLE: &'static str = "Error";

pub const MISSING_HOME_BODY: &'static str = "<h1>Home page template not found</h1>";

/// A body with the manifest of all categories put in place of its
/// placeholder.
pub open spec fn with_categories(content: Seq<char>, ms: Seq<CategoryManifest>) -> Seq<char> {
    replaced(content, CATEGORIES_TOKEN@, manifests_json(ms))
}

/// The page of a node that is no category page.
pub open spec fn standalone_page(
    base: Seq<char>,
    n: ContentNode,
    nodes: Seq<ContentNode>,
    ms: Seq<CategoryManifest>,
    f: Feature,
) -> Seq<char> {
    page_of(base, n.title@, feature_body(with_categories(n.content@, ms), f), navigation_of(nodes))
}

/// A category page with its background, if the mode lets it have one.
pub open spec fn category_page(
    base: Seq<char>,
    n: ContentNode,
    dir: CategoryDir,
    mode: RenderMode,
    nodes: Seq<ContentNode>,
) -> Seq<char> {
    let page = plain_category_page(base, n.title@, n.content@, dir, mode, nodes);
    match background_of(dir, mode) {
        Some(Some(bg)) => with_background(page, bg),
        _ => page,
    }
}

/// Whether a node is the page of a category.
pub open spec fn is_category_node(n: ContentNode) -> bool {
    n.is_modeling && n.category is Some
}

/// The route of the page of category `c`.
pub open spec fn modeling_route_of(c: Seq<char>) -> Seq<char> {
    "/modeling/"@ + c + "/"@
}

/// Where the first node with route `route` stands, at or after `k`.
pub open spec fn node_index_from(nodes: Seq<ContentNode>, route: Seq<char>, k: int) -> Option<int>
    decreases nodes.len() - k,
{
    if k < 0 || k >= nodes.len() {
        None
    } else if nodes[k].route@ == route {
        Some(k)
    } else {
        node_index_from(nodes, route, k + 1)
    }
}

/// What the live server does for a request.
pub enum LiveStep {
    /// Render node `0`, which is no category page.
    Page(usize),
    /// Render node `0`, the page of category `1`, whose directory must be read.
    Category(usize, String),
    /// Answer that the page does not exist.
    NotFound,
}

/// The route of the page of category `category`.
pub fn modeling_route(category: &str) -> (r: String)
    ensures
        r@ == modeling_route_of(category@),
{
    let mut r = "/modeling/".to_owned();
    r.append(category);
    r.append("/");
    r
}

/// Where the first node with route `route` stands.
pub fn find_page(nodes: &Vec<ContentNode>, route: &str) -> (r: Option<usize>)
    ensures
        r matches Some(i) ==> node_index_from(nodes@, route@, 0) == Some(i as int) && i < nodes.len()
            && nodes@[i as int].route@ == route@,
        r is None ==> node_index_from(nodes@, route@, 0) is None,
{
    let mut k: usize = 0;
    while k < nodes.len()
        invariant
            k <= nodes.len(),
            node_index_from(nodes@, route@, 0) == node_index_from(nodes@, route@, k as int),
        decreases nodes.len() - k,
    {
        if str_eq(nodes[k].route.as_str(), route) {
            return Some(k);
        }
        k += 1;
    }
    None
}

/// Decides what a request for the page of category `category` leads to.
pub fn route_modeling_request(nodes: &Vec<ContentNode>, category: &str) -> (r: LiveStep)
    ensures
        match node_index_from(nodes@, modeling_route_of(category@), 0) {
            None => r is NotFound,
            Some(k) => if is_category_node(nodes@[k]) {
                r matches LiveStep::Category(i, c) && i == k && c@ == nodes@[k].category->Some_0@
            } else {
                r == LiveStep::Page(k as usize)
            },
        },
{
    let route = modeling_route(category);
    match find_page(nodes, route.as_str()) {
        None => LiveStep::NotFound,
        Some(k) => {
            let n = &nodes[k];
            if n.is_modeling {
                match &n.category {
                    Some(c) => LiveStep::Category(k, c.clone()),
                    None => LiveStep::Page(k),
                }
            } else {
                LiveStep::Page(k)
            }
        },
    }
}

/// A body with the manifest of all categories put in place of its
/// placeholder.
pub fn fill_categories(content: &str, ms: &Vec<CategoryManifest>) -> (r: String)
    ensures
        r@ == with_categories(content@, ms@),
{
    let json = manifest_json(ms);
    replace_all(content, CATEGORIES_TOKEN, json.as_str())
}

/// The page of node `i`, which is no category page.
pub fn render_standalone(
    base: &str,
    nodes: &Vec<ContentNode>,
    i: usize,
    ms: &Vec<CategoryManifest>,
    feature: &Feature,
) -> (r: String)
    requires
        i < nodes.len(),
    ensures
        r@ == standalone_page(base@, nodes@[i as int], nodes@, ms@, *feature),
{
    let n = &nodes[i];
    let with_ms = fill_categories(n.content.as_str(), ms);
    let body = fill_feature(with_ms.as_str(), feature);
    generate_page(base, n.title.as_str(), body.as_str(), nodes)
}

/// The live answer with the page of node `i`, which is no category page.
pub fn live_page(
    base: &str,
    nodes: &Vec<ContentNode>,
    i: usize,
    ms: &Vec<CategoryManifest>,
    feature: &Feature,
) -> (r: Response)
    requires
        i < nodes.len(),
    ensures
        r.status == 200,
        r.body@ == standalone_page(base@, nodes@[i as int], nodes@, ms@, *feature),
{
    Response { status: 200, body: render_standalone(base, nodes, i, ms, feature) }
}

/// The live answer with the page of category node `i`, from what was read of
/// its directory. Serving live never fails on several background images: the
/// first one listed is used.
pub fn live_category_page(base: &str, nodes: &Vec<ContentNode>, i: usize, dir: &CategoryDir) -> (r:
    Response)
    requires
        i < nodes.len(),
    ensures
        r.status == 200,
        r.body@ == category_page(base@, nodes@[i as int], *dir, RenderMode::Live, nodes@),
{
    let n = &nodes[i];
    let page = generate_modeling_page(
        base,
        n.title.as_str(),
        n.content.as_str(),
        dir,
        RenderMode::Live,
        nodes,
    );
    // The lenient policy accepts any background, so no conflict comes back.
    match page {
        Ok(html) => Response { status: 200, body: html },
        Err(_) => Response { status: 200, body: String::new() },
    }
}

/// The live answer for a page that does not exist: status 404 and a page that
/// says so.
pub fn live_not_found(base: &str, nodes: &Vec<ContentNode>) -> (r: Response)
    ensures
        r.status == 404,
        r.body@ == page_of(base@, NOT_FOUND_TITLE@, NOT_FOUND_BODY@, navigation_of(nodes@)),
{
    Response { status: 404, body: generate_page(base, NOT_FOUND_TITLE, NOT_FOUND_BODY, nodes) }
}

/// Where the layout shows the title, the page for a route that does not
/// exist says 404.
pub proof fn lemma_not_found_says_404(base: Seq<char>, nodes: Seq<ContentNode>)
    requires
        contains_seq(base, TITLE_TOKEN@),
    ensures
        contains_seq(
            page_of(base, NOT_FOUND_TITLE@, NOT_FOUND_BODY@, navigation_of(nodes)),
            "404"@,
        ),
{
    reveal_strlit("{{TITLE}}");
    reveal_strlit("{{CONTENT}}");
    reveal_strlit("{{NAVIGATION_ITEMS}}");
    reveal_strlit("404 - Page Not Found");
    reveal_strlit("404");
    let t = "404"@;
    let s1 = replaced(base, TITLE_TOKEN@, NOT_FOUND_TITLE@);
    lemma_replaced_shows_to(base, TITLE_TOKEN@, NOT_FOUND_TITLE@);
    let q = choose|q: int| occurs_at(s1, q, NOT_FOUND_TITLE@);
    assert(s1.subrange(q, q + 3) =~= NOT_FOUND_TITLE@.subrange(0, 3));
    assert(NOT_FOUND_TITLE@.subrange(0, 3) =~= t);
    assert(occurs_at(s1, q, t));
    assert(shares_no_char(t, CONTENT_TOKEN@)) by {
        assert forall|k: int| 0 <= k < t.len() implies !CONTENT_TOKEN@.contains(#[trigger] t[k]) by {
            assert forall|i: int| 0 <= i < CONTENT_TOKEN@.len() implies CONTENT_TOKEN@[i] != t[k] by {}
        }
    }
    assert(shares_no_char(t, NAVIGATION_TOKEN@)) by {
        assert forall|k: int| 0 <= k < t.len() implies !NAVIGATION_TOKEN@.contains(#[trigger] t[k]) by {
            assert forall|i: int| 0 <= i < NAVIGATION_TOKEN@.len() implies NAVIGATION_TOKEN@[i] != t[k] by {}
        }
    }
    lemma_replaced_keeps(s1, CONTENT_TOKEN@, NOT_FOUND_BODY@, t);
    let s2 = replaced(s1, CONTENT_TOKEN@, NOT_FOUND_BODY@);
    lemma_replaced_keeps(s2, NAVIGATION_TOKEN@, navigation_of(nodes), t);
}

/// The live answer for the home page: the page of route `/`, or a page that
/// says the home template is missing.
pub fn live_home(
    base: &str,
    nodes: &Vec<ContentNode>,
    ms: &Vec<CategoryManifest>,
    feature: &Feature,
) -> (r: Response)
    ensures
        r.status == 200,
        match node_index_from(nodes@, "/"@, 0) {
            Some(k) => r.body@ == standalone_page(base@, nodes@[k], nodes@, ms@, *feature),
            None => r.body@ == page_of(
                base@,
                MISSING_HOME_TITLE@,
                MISSING_HOME_BODY@,
                navigation_of(nodes@),
            ),
        },
{
    match find_page(nodes, "/") {
        Some(k) => live_page(base, nodes, k, ms, feature),
        None => Response {
            status: 200,
            body: generate_page(base, MISSING_HOME_TITLE, MISSING_HOME_BODY, nodes),
        },
    }
}

/// One page of an export: where it goes under the output root, and its HTML.
pub struct OutputPage {
    pub path: String,
    pub html: String,
}

/// Why an export cannot be completed.
pub enum ExportError {
    /// A category's background directory holds several images.
    Conflict(BackgroundConflict),
    /// No directory was read for the category of a category page.
    MissingCategory(String),
}

impl ExportError {
    /// A readable description of the error.
    pub fn message(&self) -> (r: String)
        ensures
            match self {
                ExportError::Conflict(c) => r@ == crate::background::conflict_message(
                    c.location@,
                    views(c.files@),
                ),
                ExportError::MissingCategory(c) => r@ == "ERROR: No directory found for category "@
                    + c@,
            },
    {
        match self {
            ExportError::Conflict(c) => c.message(),
            ExportError::MissingCategory(c) => {
                let mut r = "ERROR: No directory found for category ".to_owned();
                r.append(c.as_str());
                r
            },
        }
    }
}

/// Where the first directory named `name` stands, at or after `k`.
pub open spec fn dir_index_from(dirs: Seq<CategoryDir>, name: Seq<char>, k: int) -> Option<int>
    decreases dirs.len() - k,
{
    if k < 0 || k >= dirs.len() {
        None
    } else if dirs[k].name@ == name {
        Some(k)
    } else {
        dir_index_from(dirs, name, k + 1)
    }
}

/// The file of the page with route `route`, relative to the output root.
pub open spec fn output_path(route: Seq<char>) -> Seq<char> {
    if route.len() == 0 {
        "index.html"@
    } else {
        route.drop_first() + "index.html"@
    }
}

/// The routes of the nodes.
pub open spec fn routes_of(nodes: Seq<ContentNode>) -> Seq<Seq<char>> {
    nodes.map_values(|n: ContentNode| n.route@)
}

/// The exported HTML of node `i`: its page, composed and rewritten for the
/// export; none where its category has no directory or a refused background.
#[verifier::opaque]
pub open spec fn exported_html(
    base: Seq<char>,
    nodes: Seq<ContentNode>,
    i: int,
    dirs: Seq<CategoryDir>,
    ms: Seq<CategoryManifest>,
    f: Feature,
    prefix: Seq<char>,
    revision: Option<Seq<char>>,
) -> Option<Seq<char>> {
    let n = nodes[i];
    let routes = routes_of(nodes);
    if is_category_node(n) {
        match dir_index_from(dirs, n.category->Some_0@, 0) {
            Some(k) => if background_of(dirs[k], RenderMode::Export) is Some {
                Some(
                    delivered(
                        category_page(base, n, dirs[k], RenderMode::Export, nodes),
                        RenderMode::Export,
                        prefix,
                        revision,
                        routes,
                    ),
                )
            } else {
                None
            },
            None => None,
        }
    } else {
        Some(delivered(standalone_page(base, n, nodes, ms, f), RenderMode::Export, prefix, revision, routes))
    }
}

/// Whether `e` is the error that node `i` gives.
pub open spec fn export_failure(e: ExportError, nodes: Seq<ContentNode>, i: int, dirs: Seq<CategoryDir>) -> bool {
    let cat = nodes[i].category->Some_0@;
    &&& is_category_node(nodes[i])
    &&& match dir_index_from(dirs, cat, 0) {
        None => e matches ExportError::MissingCategory(c) && c@ == cat,
        Some(k) => e matches ExportError::Conflict(c) && conflict_of(c, dirs[k], RenderMode::Export),
    }
}

fn find_dir(dirs: &Vec<CategoryDir>, name: &str) -> (r: Option<usize>)
    ensures
        r matches Some(i) ==> dir_index_from(dirs@, name@, 0) == Some(i as int) && i < dirs.len(),
        r is None ==> dir_index_from(dirs@, name@, 0) is None,
{
    let mut k: usize = 0;
    while k < dirs.len()
        invariant
            k <= dirs.len(),
            dir_index_from(dirs@, name@, 0) == dir_index_from(dirs@, name@, k as int),
        decreases dirs.len() - k,
    {
        if str_eq(dirs[k].name.as_str(), name) {
            return Some(k);
        }
        k += 1;
    }
    None
}

fn page_path(route: &str) -> (r: String)
    ensures
        r@ == output_path(route@),
{
    let cs = crate::text::chars_of(route);
    let mut r = String::new();
    let mut i: usize = 1;
    if cs.len() == 0 {
        r.append("index.html");
        return r;
    } else {
        while i < cs.len()
            invariant
                1 <= i <= cs.len(),
                r@ == cs@.subrange(1, i as int),
            decreases cs.len() - i,
        {
            crate::text::push_char(&mut r, cs[i]);
            assert(cs@.subrange(1, i + 1) == cs@.subrange(1, i as int).push(cs@[i as int]));
            i += 1;
        }
        assert(cs@.subrange(1, cs.len() as int) == route@.drop_first());
    }
    r.append("index.html");
    r
}

fn node_routes(nodes: &Vec<ContentNode>) -> (r: Vec<String>)
    ensures
        views(r@) == routes_of(nodes@),
{
    let mut r: Vec<String> = Vec::new();
    let mut i: usize = 0;
    while i < nodes.len()
        invariant
            i <= nodes.len(),
            views(r@) == routes_of(nodes@).take(i as int),
        decreases nodes.len() - i,
    {
        let ghost before = r@;
        r.push(nodes[i].route.clone());
        assert(views(r@) =~= views(before).push(nodes@[i as int].route@));
        assert(routes_of(nodes@).take(i + 1) =~= routes_of(nodes@).take(i as int).push(nodes@[i as int].route@));
        i += 1;
    }
    assert(routes_of(nodes@).take(nodes.len() as int) == routes_of(nodes@));
    r
}

fn export_page(
    base: &str,
    nodes: &Vec<ContentNode>,
    i: usize,
    dirs: &Vec<CategoryDir>,
    ms: &Vec<CategoryManifest>,
    feature: &Feature,
    prefix: &str,
    revision: &Option<String>,
    routes: &Vec<String>,
) -> (r: Result<String, ExportError>)
    requires
        i < nodes.len(),
        views(routes@) == routes_of(nodes@),
    ensures
        match exported_html(base@, nodes@, i as int, dirs@, ms@, *feature, prefix@, opt_view(*revision)) {
            Some(h) => r matches Ok(s) && s@ == h,
            None => r matches Err(e) && export_failure(e, nodes@, i as int, dirs@),
        },
{
    proof {
        reveal(exported_html);
    }
    let n = &nodes[i];
    let html = if n.is_modeling && n.category.is_some() {
        let cat = match &n.category {
            Some(c) => c.as_str(),
            None => "",
        };
        let k = match find_dir(dirs, cat) {
            Some(k) => k,
            None => return Err(ExportError::MissingCategory(cat.to_owned())),
        };
        match generate_modeling_page(
            base,
            n.title.as_str(),
            n.content.as_str(),
            &dirs[k],
            RenderMode::Export,
            nodes,
        ) {
            Ok(h) => h,
            Err(c) => return Err(ExportError::Conflict(c)),
        }
    } else {
        render_standalone(base, nodes, i, ms, feature)
    };
    Ok(rewrite_paths(html.as_str(), RenderMode::Export, prefix, revision, routes))
}

/// Whether `p` is the exported page of node `i`.
pub open spec fn exported_at(
    p: OutputPage,
    base: Seq<char>,
    nodes: Seq<ContentNode>,
    i: int,
    dirs: Seq<CategoryDir>,
    ms: Seq<CategoryManifest>,
    f: Feature,
    prefix: Seq<char>,
    revision: Option<Seq<char>>,
) -> bool {
    &&& p.path@ == output_path(nodes[i].route@)
    &&& Some(p.html@) == exported_html(base, nodes, i, dirs, ms, f, prefix, revision)
}

/// Renders every page for a static export hosted under `/{prefix}/`, each
/// with its file under the output root, in the order of `nodes`. Fails on the
/// first category page whose directory is missing or whose background the
/// strict policy refuses.
pub fn export_site(
    base: &str,
    nodes: &Vec<ContentNode>,
    dirs: &Vec<CategoryDir>,
    ms: &Vec<CategoryManifest>,
    feature: &Feature,
    prefix: &str,
    revision: &Option<String>,
) -> (r: Result<Vec<OutputPage>, ExportError>)
    ensures
        r is Ok <==> forall|i: int|
            0 <= i < nodes.len() ==> (#[trigger] exported_html(
                base@,
                nodes@,
                i,
                dirs@,
                ms@,
                *feature,
                prefix@,
                opt_view(*revision),
            )) is Some,
        r matches Ok(out) ==> out.len() == nodes.len() && forall|i: int|
            0 <= i < nodes.len() ==> #[trigger] exported_at(
                out@[i],
                base@,
                nodes@,
                i,
                dirs@,
                ms@,
                *feature,
                prefix@,
                opt_view(*revision),
            ),
        r matches Err(e) ==> exists|i: int|
            0 <= i < nodes.len() && #[trigger] export_failure(e, nodes@, i, dirs@),
{
    let ghost rev = opt_view(*revision);
    let routes = node_routes(nodes);
    let mut out: Vec<OutputPage> = Vec::new();
    let mut i: usize = 0;
    while i < nodes.len()
        invariant
            i <= nodes.len(),
            views(routes@) == routes_of(nodes@),
            rev == opt_view(*revision),
            out.len() == i,
            forall|j: int|
                0 <= j < i ==> #[trigger] exported_at(out@[j], base@, nodes@, j, dirs@, ms@, *feature, prefix@, rev),
        decreases nodes.len() - i,
    {
        match export_page(base, nodes, i, dirs, ms, feature, prefix, revision, &routes) {
            Ok(html) => {
                let path = page_path(nodes[i].route.as_str());
                let ghost before = out@;
                out.push(OutputPage { path, html });
                assert(exported_at(out@[i as int], base@, nodes@, i as int, dirs@, ms@, *feature, prefix@, rev));
                assert forall|j: int| 0 <= j < i + 1 implies #[trigger] exported_at(
                    out@[j],
                    base@,
                    nodes@,
                    j,
                    dirs@,
                    ms@,
                    *feature,
                    prefix@,
                    rev,
                ) by {
                    if j < i {
                        assert(out@[j] == before[j]);
                    }
                }
            },
            Err(e) => {
                assert(export_failure(e, nodes@, i as int, dirs@));
                assert(exported_html(base@, nodes@, i as int, dirs@, ms@, *feature, prefix@, rev) is None);
                return Err(e);
            },
        }
        i += 1;
    }
    assert forall|i: int| 0 <= i < nodes.len() implies (#[trigger] exported_html(
        base@,
        nodes@,
        i,
        dirs@,
        ms@,
        *feature,
        prefix@,
        rev,
    )) is Some by {
        assert(exported_at(out@[i], base@, nodes@, i, dirs@, ms@, *feature, prefix@, rev));
    }
    Ok(out)
}

} // verus!
