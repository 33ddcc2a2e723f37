use portfolio_site::assets::DirEntry;
use portfolio_site::feature::{build_feature, fill_feature, youtube_embeds, Feature};
use portfolio_site::compose::{generate_modeling_page, generate_navigation_items, generate_page, ContentNode};
use portfolio_site::manifest::{title_with_first, category_title, discover_categories, CategoryDir, CategoryManifest};
use portfolio_site::metadata::LinkEntry;
use portfolio_site::mode::RenderMode;
use portfolio_site::rewrite::rewrite_paths;
use portfolio_site::routes::{classify_template, discover_templates, is_asset_dir, is_in_asset_dir, TemplateFile};
use portfolio_site::serialize::{escape, manifest_json};
use portfolio_site::site::{
    export_site, live_category_page, live_home, live_not_found, route_modeling_request, ExportError,
    LiveStep,
};

const BASE: &str = "<title>{{TITLE}}</title><link href=\"/templates/styles.css\"><nav><a href=\"/\" class=\"nav-item\">Home</a>\n{{NAVIGATION_ITEMS}}</nav><style>body { background: linear-gradient(45deg, #ff6b9d, #c44faf, #8b5fbf, #6b73ff); background-size: 400% 400%; animation: gradientShift 15s ease infinite; }</style><main>{{CONTENT}}</main>";

fn no_feature() -> Feature {
    Feature { videos: vec![], images: vec![], subtitle: String::new() }
}

fn file(name: &str) -> DirEntry {
    DirEntry { name: name.to_string(), is_dir: false }
}

fn node(route: &str, title: &str, content: &str, category: Option<&str>) -> ContentNode {
    ContentNode {
        route: route.to_string(),
        title: title.to_string(),
        content: content.to_string(),
        is_modeling: category.is_some(),
        category: category.map(|c| c.to_string()),
    }
}

fn category(name: &str, images: Option<Vec<DirEntry>>, background: Vec<DirEntry>) -> CategoryDir {
    CategoryDir { name: name.to_string(), images, background, subtitle: None, links: None }
}

fn scenario_dirs() -> Vec<CategoryDir> {
    vec![
        category("headshots", Some(vec![file("3.png"), file("1.png"), file("2.jpg")]), vec![]),
        category("fitness", Some(vec![file("b.jpeg"), file("a.png")]), vec![file("bg.png")]),
    ]
}

fn scenario_nodes() -> Vec<ContentNode> {
    vec![
        node("/", "Home", "<h1>Home</h1>{{CATEGORIES_JSON}}", None),
        node("/modeling/headshots/", "Headshots", "<div>{{IMAGE_PATHS}}|{{CUSTOM_TITLE}}</div>", Some("headshots")),
        node("/modeling/fitness/", "Fitness", "<div>{{IMAGE_PATHS}}</div>", Some("fitness")),
    ]
}

#[test]
fn title_upper_cases_first_character_only() {
    assert_eq!(category_title("headshots"), "Headshots");
    assert_eq!(category_title("fitness-and-more"), "Fitness-and-more");
    assert_eq!(category_title("éditorial"), "Éditorial");
    assert_eq!(category_title("ßa"), "SSa");
    assert_eq!(category_title(""), "");
}

#[test]
fn title_takes_given_first_character() {
    assert_eq!(title_with_first("X", "abc"), "Xbc");
    assert_eq!(title_with_first("SS", "ßa"), "SSa");
    assert_eq!(title_with_first("Q", ""), "");
}

#[test]
fn category_without_images_directory_is_excluded() {
    let mut with_extras = category("ghost", None, vec![file("bg.png")]);
    with_extras.subtitle = Some("Haunted".to_string());
    let dirs = vec![
        with_extras,
        category("empty", Some(vec![file("notes.txt")]), vec![]),
        category("zeta", Some(vec![file("z.png")]), vec![]),
        category("alpha", Some(vec![file("a.png")]), vec![]),
    ];
    let ms = match discover_categories(&dirs, RenderMode::Export) {
        Ok(ms) => ms,
        Err(_) => panic!("discovery failed"),
    };
    let keys: Vec<&str> = ms.iter().map(|m| m.key.as_str()).collect();
    assert_eq!(keys, vec!["alpha", "zeta"]);
    assert_eq!(ms[0].title, "Alpha");
    assert_eq!(ms[0].subtitle, "Professional alpha photography");
    assert_eq!(ms[0].images, vec!["./images/a.png".to_string()]);
}

#[test]
fn strict_discovery_fails_on_background_conflict() {
    let dirs = vec![
        category("alpha", Some(vec![file("a.png")]), vec![]),
        category("beta", Some(vec![file("b.png")]), vec![file("bg1.png"), file("bg2.png")]),
    ];
    match discover_categories(&dirs, RenderMode::Export) {
        Err(c) => {
            assert_eq!(c.location, "templates/modeling/beta/Background");
            assert_eq!(c.files, vec!["bg1.png".to_string(), "bg2.png".to_string()]);
        }
        Ok(_) => panic!("expected a conflict"),
    }
    match discover_categories(&dirs, RenderMode::Live) {
        Ok(ms) => {
            assert_eq!(ms.len(), 2);
            assert_eq!(ms[1].background, Some("/templates/modeling/beta/Background/bg1.png".to_string()));
            assert_eq!(ms[1].images, vec!["/templates/modeling/beta/images/b.png".to_string()]);
        }
        Err(_) => panic!("live discovery must not fail"),
    }
}

#[test]
fn manifest_serializes_to_exact_object() {
    let m = CategoryManifest {
        key: "fitness".to_string(),
        title: "Fitness".to_string(),
        subtitle: "Say \"hi\"\\now\n".to_string(),
        images: vec!["./images/a.png".to_string(), "./images/b.png".to_string()],
        links: vec![LinkEntry { name: "IG".to_string(), url: "https://i.test".to_string() }],
        background: Some("./Background/bg.png".to_string()),
    };
    let json = manifest_json(&vec![m]);
    assert_eq!(
        json,
        "{\"fitness\":{\"title\":\"Fitness\",\"subtitle\":\"Say \\\"hi\\\"\\\\now\",\"images\":[\"./images/a.png\",\"./images/b.png\"],\"links\":{\"IG\":\"https://i.test\"},\"background\":\"./Background/bg.png\"}}"
    );
    assert_eq!(manifest_json(&vec![]), "{}");
    assert_eq!(escape("a\r\nb\\\""), "ab\\\\\\\"");
}

#[test]
fn manifest_round_trips_through_a_json_reader() {
    let dirs = vec![
        CategoryDir {
            name: "fitness".to_string(),
            images: Some(vec![file("b 2.png"), file("a\"1.jpg")]),
            background: vec![],
            subtitle: Some("Fit \\ strong".to_string()),
            links: Some("IG, https://i.test/x\nYT,https://y.test\nIG,https://i2.test".to_string()),
        },
        category("headshots", Some(vec![file("1.png")]), vec![file("bg.png")]),
    ];
    let ms = match discover_categories(&dirs, RenderMode::Export) {
        Ok(ms) => ms,
        Err(_) => panic!("discovery failed"),
    };
    let json = manifest_json(&ms);
    let v: serde_json::Value = serde_json::from_str(&json).unwrap();
    let obj = v.as_object().unwrap();
    assert_eq!(obj.len(), ms.len());
    for m in &ms {
        let e = obj.get(&m.key).unwrap();
        let imgs: Vec<String> =
            e["images"].as_array().unwrap().iter().map(|i| i.as_str().unwrap().to_string()).collect();
        assert_eq!(imgs, m.images);
        let links = e["links"].as_object().unwrap();
        assert_eq!(links.len(), m.links.len());
        for l in &m.links {
            assert_eq!(links.get(&l.name).unwrap().as_str().unwrap(), l.url);
        }
        assert_eq!(e["title"].as_str().unwrap(), m.title);
        assert_eq!(e["subtitle"].as_str().unwrap(), m.subtitle);
        match &m.background {
            Some(b) => assert_eq!(e["background"].as_str().unwrap(), b),
            None => assert!(e.get("background").is_none()),
        }
    }
    assert_eq!(obj["fitness"]["links"]["IG"].as_str().unwrap(), "https://i2.test");
}

#[test]
fn page_substitutes_title_content_and_navigation() {
    let nodes = vec![
        node("/modeling/zeta/", "Zeta", "", Some("zeta")),
        node("/bio/", "Bio", "", None),
        node("/modeling/alpha/", "Alpha", "", Some("alpha")),
        node("/modeling/zeta/", "Zeta", "", Some("zeta")),
    ];
    let nav = generate_navigation_items(&nodes);
    assert_eq!(
        nav,
        "                    <a href=\"/modeling/alpha/\">Alpha</a>\n                    <a href=\"/modeling/zeta/\">Zeta</a>"
    );
    let page = generate_page("[{{TITLE}}|{{CONTENT}}|{{NAVIGATION_ITEMS}}|{{UNKNOWN}}]", "T", "C", &vec![]);
    assert_eq!(page, "[T|C||{{UNKNOWN}}]");
}

#[test]
fn modeling_page_lists_images_and_description() {
    let mut dir = category("headshots", Some(vec![file("2.png"), file("1.png")]), vec![]);
    dir.subtitle = Some(" Studio work ".to_string());
    let page = generate_modeling_page(
        "{{TITLE}}:{{CONTENT}}",
        "Headshots",
        "{{IMAGE_PATHS}} / {{CUSTOM_TITLE}}",
        &dir,
        RenderMode::Export,
        &vec![],
    );
    match page {
        Ok(p) => assert_eq!(p, "Headshots:['./images/1.png', './images/2.png'] / Studio work"),
        Err(_) => panic!("page failed"),
    }
    let empty = category("empty", None, vec![]);
    match generate_modeling_page("{{CONTENT}}", "E", "{{IMAGE_PATHS}}", &empty, RenderMode::Live, &vec![]) {
        Ok(p) => assert_eq!(p, "[]"),
        Err(_) => panic!("page failed"),
    }
}

#[test]
fn export_paths_are_prefixed() {
    let routes = vec!["/".to_string(), "/bio/".to_string()];
    let html = "<a href=\"/\" class=\"nav-item\">Home</a><a href=\"/bio/\">Bio</a><img src=\"/templates/global-images/x.png\"><link href=\"/templates/styles.css\">";
    let out = rewrite_paths(html, RenderMode::Export, "Website-test", &Some("abc123".to_string()), &routes);
    assert_eq!(
        out,
        "<a href=\"/Website-test/index.html\" class=\"nav-item\">Home</a><a href=\"/Website-test/bio/index.html\">Bio</a><img src=\"/Website-test/global-images/x.png\"><link href=\"/Website-test/styles.css?v=abc123\">"
    );
    let dev = rewrite_paths("<link href=\"/templates/styles.css\">", RenderMode::Export, "p", &None, &routes);
    assert_eq!(dev, "<link href=\"/p/styles.css?v=dev\">");
    assert_eq!(rewrite_paths(html, RenderMode::Live, "Website-test", &None, &routes), html);
}

#[test]
fn export_writes_one_page_per_category_with_background_only_where_present() {
    let dirs = scenario_dirs();
    let nodes = scenario_nodes();
    let ms = match discover_categories(&dirs, RenderMode::Export) {
        Ok(ms) => ms,
        Err(_) => panic!("discovery failed"),
    };
    let pages = match export_site(BASE, &nodes, &dirs, &ms, &no_feature(), "Website-test", &None) {
        Ok(p) => p,
        Err(e) => panic!("{}", e.message()),
    };
    let paths: Vec<&str> = pages.iter().map(|p| p.path.as_str()).collect();
    assert_eq!(paths, vec!["index.html", "modeling/headshots/index.html", "modeling/fitness/index.html"]);
    let headshots = &pages[1].html;
    let fitness = &pages[2].html;
    assert!(fitness.contains("background: url('./Background/bg.png') center center/cover no-repeat fixed;"));
    assert!(!fitness.contains("background-size: 400% 400%;"));
    assert!(!fitness.contains("animation: gradientShift 15s ease infinite;"));
    assert!(!fitness.contains("linear-gradient"));
    assert!(headshots.contains("background: linear-gradient(45deg, #ff6b9d, #c44faf, #8b5fbf, #6b73ff);"));
    assert!(headshots.contains("background-size: 400% 400%;"));
    assert!(headshots.contains("animation: gradientShift 15s ease infinite;"));
    assert!(headshots.contains("['./images/1.png', './images/2.jpg', './images/3.png']"));
    assert!(headshots.contains("href=\"/Website-test/modeling/fitness/index.html\""));
    assert!(headshots.contains("href=\"/Website-test/styles.css?v=dev\""));
    assert!(pages[0].html.contains("\"headshots\":{\"title\":\"Headshots\""));
}

#[test]
fn export_fails_on_conflict_or_missing_directory() {
    let mut dirs = scenario_dirs();
    dirs[1].background.push(file("bg2.png"));
    let nodes = scenario_nodes();
    match export_site(BASE, &nodes, &dirs, &vec![], &no_feature(), "p", &None) {
        Err(ExportError::Conflict(c)) => assert_eq!(c.files.len(), 2),
        _ => panic!("expected a conflict"),
    }
    let only_headshots = vec![scenario_dirs().remove(0)];
    match export_site(BASE, &nodes, &only_headshots, &vec![], &no_feature(), "p", &None) {
        Err(e) => {
            assert!(matches!(e, ExportError::MissingCategory(_)));
            assert_eq!(e.message(), "ERROR: No directory found for category fitness");
        }
        Ok(_) => panic!("expected a missing category"),
    }
}

#[test]
fn unknown_category_is_not_found_with_404_page() {
    let nodes = scenario_nodes();
    assert!(matches!(route_modeling_request(&nodes, "unknown-category"), LiveStep::NotFound));
    let r = live_not_found(BASE, &nodes);
    assert_eq!(r.status, 404);
    assert!(r.body.contains("404"));
}

#[test]
fn known_category_is_routed_and_rendered_live() {
    let nodes = scenario_nodes();
    match route_modeling_request(&nodes, "fitness") {
        LiveStep::Category(i, c) => {
            assert_eq!(i, 2);
            assert_eq!(c, "fitness");
            let mut dir = scenario_dirs().remove(1);
            dir.background.push(file("bg2.png"));
            let r = live_category_page(BASE, &nodes, i, &dir);
            assert_eq!(r.status, 200);
            assert!(r.body.contains("url('/templates/modeling/fitness/Background/bg.png')"));
            assert!(r.body.contains("'/templates/modeling/fitness/images/a.png'"));
        }
        _ => panic!("expected the fitness page"),
    }
    let home = live_home(BASE, &nodes, &vec![], &no_feature());
    assert_eq!(home.status, 200);
    assert!(home.body.contains("<h1>Home</h1>{}"));
    let missing = live_home(BASE, &vec![], &vec![], &no_feature());
    assert!(missing.body.contains("Home page template not found"));
}

#[test]
fn templates_map_to_routes() {
    let dirs = vec![
        category("headshots", Some(vec![file("1.png")]), vec![]),
        category("fitness", Some(vec![file("1.png")]), vec![]),
    ];
    let t = |d: &str, n: &str| TemplateFile { dir: d.to_string(), name: n.to_string(), content: "c".to_string() };
    let h = classify_template(&t("modeling", "headshots.html"), &dirs).unwrap();
    assert_eq!((h.route.as_str(), h.title.as_str(), h.is_modeling), ("/modeling/headshots/", "Headshots", true));
    assert_eq!(h.category, Some("headshots".to_string()));
    let f = classify_template(&t("modeling/fitness", "fitness.html"), &dirs).unwrap();
    assert_eq!((f.route.as_str(), f.category.clone()), ("/modeling/fitness/", Some("fitness".to_string())));
    let b = classify_template(&t("", "bio.html"), &dirs).unwrap();
    assert_eq!((b.route.as_str(), b.title.as_str(), b.is_modeling), ("/bio/", "Bio", false));
    let a = classify_template(&t("about", "team.html"), &dirs).unwrap();
    assert_eq!((a.route.as_str(), a.title.as_str()), ("/about/", "Team"));
    assert!(classify_template(&t("", "index.html"), &dirs).is_none());
    assert!(classify_template(&t("about", "base.html"), &dirs).is_none());
    assert!(classify_template(&t("", "notes.txt"), &dirs).is_none());
    assert!(classify_template(&t("", ".html"), &dirs).is_none());
    assert!(is_asset_dir("images"));
    assert!(is_asset_dir("Background"));
    assert!(!is_asset_dir("modeling"));
}

#[test]
fn templates_in_asset_directories_give_no_page() {
    let dirs = vec![category("c", Some(vec![file("1.png")]), vec![])];
    let t = |d: &str| TemplateFile { dir: d.to_string(), name: "x.html".to_string(), content: "c".to_string() };
    assert!(classify_template(&t("images"), &dirs).is_none());
    assert!(classify_template(&t("modeling/c/images"), &dirs).is_none());
    assert!(classify_template(&t("a/Background/b"), &dirs).is_none());
    assert!(classify_template(&t("Background/b"), &dirs).is_none());
    assert!(is_in_asset_dir("x/images"));
    assert!(!is_in_asset_dir("my-images"));
    assert!(!is_in_asset_dir("images2/x"));
    assert!(classify_template(&t("my-images"), &dirs).is_some());
}

#[test]
fn modeling_template_without_images_gives_no_page() {
    let dirs = vec![
        category("c", None, vec![file("bg.png")]),
        category("d", Some(vec![file("notes.txt")]), vec![]),
        category("e", Some(vec![file("1.png")]), vec![]),
    ];
    let files = vec![
        TemplateFile { dir: "modeling/c".to_string(), name: "c.html".to_string(), content: "c".to_string() },
        TemplateFile { dir: "modeling/d".to_string(), name: "d.html".to_string(), content: "d".to_string() },
        TemplateFile { dir: "modeling/e".to_string(), name: "e.html".to_string(), content: "e".to_string() },
        TemplateFile { dir: "modeling".to_string(), name: "f.html".to_string(), content: "f".to_string() },
    ];
    let nodes = discover_templates(&None, &files, &dirs);
    let routes: Vec<&str> = nodes.iter().map(|n| n.route.as_str()).collect();
    assert_eq!(routes, vec!["/modeling/e/"]);
    assert_eq!(generate_navigation_items(&nodes), "                    <a href=\"/modeling/e/\">E</a>");
}

#[test]
fn shared_route_keeps_first_file_whatever_the_listing_order() {
    let dirs = vec![category("c", Some(vec![file("1.png")]), vec![])];
    let a = || TemplateFile { dir: "modeling/c".to_string(), name: "a.html".to_string(), content: "A".to_string() };
    let b = || TemplateFile { dir: "modeling/c".to_string(), name: "b.html".to_string(), content: "B".to_string() };
    let one = discover_templates(&None, &vec![a(), b()], &dirs);
    let two = discover_templates(&None, &vec![b(), a()], &dirs);
    assert_eq!(one.len(), 1);
    assert_eq!(two.len(), 1);
    assert_eq!(one[0].content, "A");
    assert_eq!(two[0].content, "A");
}

#[test]
fn discovered_templates_keep_one_page_per_route() {
    let files = vec![
        TemplateFile { dir: "bio".to_string(), name: "x.html".to_string(), content: "nested".to_string() },
        TemplateFile { dir: "".to_string(), name: "bio.html".to_string(), content: "top".to_string() },
        TemplateFile { dir: "".to_string(), name: "index.html".to_string(), content: "skipped".to_string() },
    ];
    let nodes = discover_templates(&Some("home".to_string()), &files, &vec![]);
    assert_eq!(nodes.len(), 2);
    let bio = nodes.iter().find(|n| n.route == "/bio/").unwrap();
    assert_eq!(bio.content, "top");
    let home = nodes.iter().find(|n| n.route == "/").unwrap();
    assert_eq!(home.content, "home");
    assert_eq!(home.title, "Home");
    assert!(discover_templates(&None, &vec![], &vec![]).is_empty());
}
