use portfolio_site::lines::split_lines;
use portfolio_site::metadata::{
    parse_link_line, parse_links, parse_video_links, resolve_custom_title, resolve_subtitle,
    LinkEntry, DEFAULT_CUSTOM_TITLE,
};
use portfolio_site::text::{replace_all, trim};

fn pairs(v: &[LinkEntry]) -> Vec<(String, String)> {
    let mut p: Vec<(String, String)> = v.iter().map(|e| (e.name.clone(), e.url.clone())).collect();
    p.sort();
    p
}

#[test]
fn subtitle_is_trimmed() {
    let s = resolve_subtitle("editorial", &Some("  Editorial & Beauty  \n".to_string()));
    assert_eq!(s, "Editorial & Beauty");
}

#[test]
fn subtitle_defaults_to_key() {
    assert_eq!(resolve_subtitle("headshots", &None), "Professional headshots photography");
}

#[test]
fn custom_title_defaults_to_fixed_sentence() {
    assert_eq!(resolve_custom_title(&None), DEFAULT_CUSTOM_TITLE);
    assert_eq!(
        resolve_custom_title(&None),
        "Professional portrait photography for actors, models, and business professionals"
    );
    assert_eq!(resolve_custom_title(&Some("\t Fitness \r\n".to_string())), "Fitness");
}

#[test]
fn trim_removes_unicode_whitespace_only_around() {
    assert_eq!(trim("\u{3000} a  b \u{a0}"), "a  b");
    assert_eq!(trim("   "), "");
    assert_eq!(trim(""), "");
}

#[test]
fn lines_split_at_line_feeds() {
    assert_eq!(split_lines("a\nb\n"), vec!["a".to_string(), "b".to_string(), "".to_string()]);
    assert_eq!(split_lines(""), vec!["".to_string()]);
}

#[test]
fn link_line_splits_at_first_comma_and_trims() {
    let e = parse_link_line("  Instagram , https://x.test/a,b ").unwrap();
    assert_eq!(e.name, "Instagram");
    assert_eq!(e.url, "https://x.test/a,b");
}

#[test]
fn line_without_comma_adds_no_link() {
    assert!(parse_link_line("no comma here").is_none());
    let links = parse_links("Site,https://a.test\nno comma here\n\n   \nBlog, https://b.test\r\n");
    assert_eq!(
        pairs(&links),
        vec![
            ("Blog".to_string(), "https://b.test".to_string()),
            ("Site".to_string(), "https://a.test".to_string()),
        ]
    );
    assert!(parse_links("just text\nmore text").is_empty());
}

#[test]
fn later_duplicate_link_overwrites_earlier() {
    let links = parse_links("Site,https://old.test\nOther,https://o.test\nSite , https://new.test");
    assert_eq!(
        pairs(&links),
        vec![
            ("Other".to_string(), "https://o.test".to_string()),
            ("Site".to_string(), "https://new.test".to_string()),
        ]
    );
}

#[test]
fn video_ids_from_both_link_forms() {
    let ids = parse_video_links(
        "https://youtu.be/abc123?si=xyz\nnot a video\nhttps://youtube.com/watch?v=def456&t=10\nhttps://www.youtube.com/watch?feature=share&v=ghi789\n",
    );
    assert_eq!(ids, vec!["abc123".to_string(), "def456".to_string(), "ghi789".to_string()]);
}

#[test]
fn video_line_without_id_marker_is_skipped() {
    assert!(parse_video_links("https://youtube.com/watch?list=1\nhttps://vimeo.com/1").is_empty());
}

#[test]
fn replace_all_replaces_every_occurrence_left_to_right() {
    assert_eq!(replace_all("aaa", "aa", "b"), "ba");
    assert_eq!(replace_all("{{T}} and {{T}}", "{{T}}", "x"), "x and x");
    assert_eq!(replace_all("abc", "", "x"), "abc");
    assert_eq!(replace_all("abc", "zz", "x"), "abc");
}
