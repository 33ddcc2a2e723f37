use vstd::prelude::*;

use crate::mode::RenderMode;
use crate::order::views;
use crate::text::{replace_all, replaced};

verus! {

/// One literal substitution applied to a finished page.
pub struct Rewrite {
    pub from: String,
    pub to: String,
}

/// The substitutions as pairs of character sequences.
pub open spec fn rule_views(rules: Seq<Rewrite>) -> Seq<(Seq<char>, Seq<char>)> {
    rules.map_values(|r: Rewrite| (r.from@, r.to@))
}

/// `html` after each substitution in turn, first to last.
pub open spec fn rewritten(html: Seq<char>, rules: Seq<(Seq<char>, Seq<char>)>) -> Seq<char>
    decreases rules.len(),
{
    if rules.len() == 0 {
        html
    } else {
        replaced(rewritten(html, rules.drop_last()), rules.last().0, rules.last().1)
    }
}

/// The revision that busts the stylesheet cache: the source revision where it
/// is known, else `dev`.
pub open spec fn revision_of(revision: Option<Seq<char>>) -> Seq<char> {
    match revision {
        Some(r) => r,
        None => "dev"@,
    }
}

/// The substitution for one route other than the home page.
pub open spec fn route_rule(prefix: Seq<char>, route: Seq<char>) -> (Seq<char>, Seq<char>) {
    ("href=\""@ + route + "\""@, "href=\"/"@ + prefix + route + "index.html\""@)
}

/// The substitutions for the routes other than the home page.
pub open spec fn route_rules(prefix: Seq<char>, routes: Seq<Seq<char>>) -> Seq<(Seq<char>, Seq<char>)>
    decreases routes.len(),
{
    if routes.len() == 0 {
        Seq::empty()
    } else if routes.last() == "/"@ {
        route_rules(prefix, routes.drop_last())
    } else {
        route_rules(prefix, routes.drop_last()).push(route_rule(prefix, routes.last()))
    }
}

/// The substitutions of an export hosted under `/{prefix}/`: the home link,
/// the link of every other route, the shared image folder, and the stylesheet,
/// which also gets the revision as a query parameter.
pub open spec fn export_rules(prefix: Seq<char>, revision: Option<Seq<char>>, routes: Seq<Seq<char>>) -> Seq<
    (Seq<char>, Seq<char>),
> {
    seq![("href=\"/\""@, "href=\"/"@ + prefix + "/index.html\""@)] + route_rules(prefix, routes)
        + seq![
        ("src=\"/templates/global-images/"@, "src=\"/"@ + prefix + "/global-images/"@),
        (
            "href=\"/templates/styles.css\""@,
            "href=\"/"@ + prefix + "/styles.css?v="@ + revision_of(revision) + "\""@,
        ),
    ]
}

fn is_root(route: &str) -> (r: bool)
    ensures
        r == (route@ == "/"@),
{
    let cs = crate::text::chars_of(route);
    proof {
        reveal_strlit("/");
    }
    if cs.len() == 1 && cs[0] == '/' {
        assert(route@ =~= "/"@);
        true
    } else {
        false
    }
}

fn rule(from: String, to: String) -> (r: Rewrite)
    ensures
        r.from@ == from@,
        r.to@ == to@,
{
    Rewrite { from, to }
}

/// The substitutions of an export hosted under `/{prefix}/`.
pub fn export_rewrites(prefix: &str, revision: &Option<String>, routes: &Vec<String>) -> (r: Vec<Rewrite>)
    ensures
        rule_views(r@) == export_rules(prefix@, match revision {
            Some(s) => Some(s@),
            None => None,
        }, views(routes@)),
{
    let mut r: Vec<Rewrite> = Vec::new();
    let mut home = "href=\"/".to_owned();
    home.append(prefix);
    home.append("/index.html\"");
    r.push(rule("href=\"/\"".to_owned(), home));
    let ghost head = rule_views(r@);
    let mut i: usize = 0;
    while i < routes.len()
        invariant
            i <= routes.len(),
            rule_views(r@) == head + route_rules(prefix@, views(routes@).take(i as int)),
        decreases routes.len() - i,
    {
        let ghost rs = views(routes@);
        assert(rs.take(i + 1).drop_last() == rs.take(i as int));
        assert(rs.take(i + 1).last() == routes@[i as int]@);
        let route = routes[i].as_str();
        if !is_root(route) {
            let mut from = "href=\"".to_owned();
            from.append(route);
            from.append("\"");
            let mut to = "href=\"/".to_owned();
            to.append(prefix);
            to.append(route);
            to.append("index.html\"");
            let ghost before = r@;
            r.push(rule(from, to));
            assert(rule_views(r@) =~= rule_views(before).push(route_rule(prefix@, route@)));
        }
        i += 1;
    }
    assert(views(routes@).take(routes.len() as int) == views(routes@));
    let ghost mid = rule_views(r@);
    let ghost rev = match revision {
        Some(s) => Some(s@),
        None => None,
    };
    let mut images_to = "src=\"/".to_owned();
    images_to.append(prefix);
    images_to.append("/global-images/");
    r.push(rule("src=\"/templates/global-images/".to_owned(), images_to));
    let mut css_to = "href=\"/".to_owned();
    css_to.append(prefix);
    css_to.append("/styles.css?v=");
    match revision {
        Some(rev) => css_to.append(rev.as_str()),
        None => css_to.append("dev"),
    }
    css_to.append("\"");
    assert(css_to@ =~= "href=\"/"@ + prefix@ + "/styles.css?v="@ + revision_of(rev) + "\""@);
    r.push(rule("href=\"/templates/styles.css\"".to_owned(), css_to));
    assert(rule_views(r@) =~= mid + seq![
        ("src=\"/templates/global-images/"@, "src=\"/"@ + prefix@ + "/global-images/"@),
        (
            "href=\"/templates/styles.css\""@,
            "href=\"/"@ + prefix@ + "/styles.css?v="@ + revision_of(rev) + "\""@,
        ),
    ]);
    assert(rule_views(r@) =~= export_rules(prefix@, rev, views(routes@)));
    r
}

/// Applies the substitutions to `html`, first to last.
pub fn apply_rewrites(html: &str, rules: &Vec<Rewrite>) -> (r: String)
    ensures
        r@ == rewritten(html@, rule_views(rules@)),
{
    let mut r = html.to_owned();
    let mut i: usize = 0;
    while i < rules.len()
        invariant
            i <= rules.len(),
            r@ == rewritten(html@, rule_views(rules@).take(i as int)),
        decreases rules.len() - i,
    {
        let ghost rv = rule_views(rules@);
        assert(rv.take(i + 1).drop_last() == rv.take(i as int));
        r = replace_all(r.as_str(), rules[i].from.as_str(), rules[i].to.as_str());
        i += 1;
    }
    assert(rule_views(rules@).take(rules.len() as int) == rule_views(rules@));
    r
}

/// A page as its mode delivers it: unchanged when served live; with every
/// root-relative link and asset path moved under `/{prefix}/` when exported.
pub open spec fn delivered(
    html: Seq<char>,
    mode: RenderMode,
    prefix: Seq<char>,
    revision: Option<Seq<char>>,
    routes: Seq<Seq<char>>,
) -> Seq<char> {
    match mode {
        RenderMode::Live => html,
        RenderMode::Export => rewritten(html, export_rules(prefix, revision, routes)),
    }
}

/// Rewrites the paths of a finished page for its mode.
pub fn rewrite_paths(
    html: &str,
    mode: RenderMode,
    prefix: &str,
    revision: &Option<String>,
    routes: &Vec<String>,
) -> (r: String)
    ensures
        r@ == delivered(html@, mode, prefix@, match revision {
            Some(s) => Some(s@),
            None => None,
        }, views(routes@)),
{
    match mode {
        RenderMode::Live => html.to_owned(),
        RenderMode::Export => {
            let rules = export_rewrites(prefix, revision, routes);
            apply_rewrites(html, &rules)
        },
    }
}

} // verus!
