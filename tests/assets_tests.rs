use portfolio_site::assets::{get_image_list, image_file_names, is_image_file_name, DirEntry};
use portfolio_site::background::{apply_background, resolve_background, BackgroundPolicy};
use portfolio_site::encode::url_encode;

fn file(name: &str) -> DirEntry {
    DirEntry { name: name.to_string(), is_dir: false }
}

fn dir(name: &str) -> DirEntry {
    DirEntry { name: name.to_string(), is_dir: true }
}

#[test]
fn safe_name_is_unchanged_by_encoding() {
    assert_eq!(url_encode("a-1_2.png"), "a-1_2.png");
    assert_eq!(url_encode("AZaz09-_.~"), "AZaz09-_.~");
}

#[test]
fn reserved_characters_are_percent_encoded() {
    assert_eq!(url_encode("my photo+1.png"), "my%20photo%2B1.png");
    assert_eq!(url_encode("#&=?"), "%23%26%3D%3F");
    assert_eq!(url_encode("a/b'c"), "a%2Fb%27c");
}

#[test]
fn non_ascii_is_encoded_byte_by_byte() {
    assert_eq!(url_encode("é.png"), "%C3%A9.png");
    assert_eq!(url_encode(""), "");
}

#[test]
fn image_extensions_match_exactly() {
    assert!(is_image_file_name("a.png"));
    assert!(is_image_file_name("a.jpg"));
    assert!(is_image_file_name("a.jpeg"));
    assert!(is_image_file_name("a.tar.png"));
    assert!(is_image_file_name("..png"));
    assert!(!is_image_file_name("a.PNG"));
    assert!(!is_image_file_name("a.gif"));
    assert!(!is_image_file_name("a.webp"));
    assert!(!is_image_file_name(".png"));
    assert!(!is_image_file_name("png"));
    assert!(!is_image_file_name("a.png.txt"));
    assert!(!is_image_file_name("Links.txt"));
}

#[test]
fn image_names_skip_directories_and_other_files() {
    let entries = vec![file("b.jpg"), dir("x.png"), file("a.gif"), file("a.png"), file("Links.txt")];
    assert_eq!(image_file_names(&entries), vec!["b.jpg".to_string(), "a.png".to_string()]);
}

#[test]
fn image_list_is_sorted_and_encoded() {
    let entries = vec![file("2.png"), file("10.png"), file("my shot.jpeg"), file("1.jpg"), file("notes.txt")];
    let list = get_image_list("/templates/modeling/headshots/images/", &entries);
    assert_eq!(
        list,
        vec![
            "/templates/modeling/headshots/images/1.jpg".to_string(),
            "/templates/modeling/headshots/images/10.png".to_string(),
            "/templates/modeling/headshots/images/2.png".to_string(),
            "/templates/modeling/headshots/images/my%20shot.jpeg".to_string(),
        ]
    );
}

#[test]
fn image_list_of_empty_listing_is_empty() {
    assert!(get_image_list("./images/", &vec![]).is_empty());
}

#[test]
fn strict_background_with_two_images_fails_naming_both() {
    let entries = vec![file("bg1.png"), file("bg2.png")];
    let r = resolve_background(
        "./Background/",
        "templates/modeling/fitness/Background",
        &entries,
        BackgroundPolicy::Strict,
    );
    match r {
        Err(c) => {
            assert_eq!(c.files, vec!["bg1.png".to_string(), "bg2.png".to_string()]);
            let msg = c.message();
            assert_eq!(
                msg,
                "ERROR: Multiple background images found in templates/modeling/fitness/Background: [\"bg1.png\", \"bg2.png\"]"
            );
        }
        Ok(_) => panic!("expected a conflict"),
    }
}

#[test]
fn lenient_background_with_two_images_picks_one() {
    let entries = vec![file("bg1.png"), file("bg2.png")];
    let r = resolve_background("./Background/", "loc", &entries, BackgroundPolicy::Lenient);
    match r {
        Ok(Some(bg)) => assert!(bg == "./Background/bg1.png" || bg == "./Background/bg2.png"),
        _ => panic!("expected one background"),
    }
}

#[test]
fn background_with_no_image_is_none() {
    let entries = vec![file("readme.txt")];
    assert!(matches!(
        resolve_background("./Background/", "loc", &entries, BackgroundPolicy::Strict),
        Ok(None)
    ));
    assert!(matches!(
        resolve_background("./Background/", "loc", &vec![], BackgroundPolicy::Lenient),
        Ok(None)
    ));
}

#[test]
fn single_background_is_used_and_encoded() {
    let entries = vec![file("my bg.jpg")];
    match resolve_background("./Background/", "loc", &entries, BackgroundPolicy::Strict) {
        Ok(Some(bg)) => assert_eq!(bg, "./Background/my%20bg.jpg"),
        _ => panic!("expected a background"),
    }
}

#[test]
fn background_replaces_gradient_and_animation() {
    let html = "body { background: linear-gradient(45deg, #ff6b9d, #c44faf, #8b5fbf, #6b73ff); background-size: 400% 400%; animation: gradientShift 15s ease infinite; }";
    let out = apply_background(html, "./Background/bg.png");
    assert_eq!(
        out,
        "body { background: url('./Background/bg.png') center center/cover no-repeat fixed;   }"
    );
}
