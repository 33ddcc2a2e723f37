use vstd::prelude::*;

use crate::background::BackgroundPolicy;

verus! {

/// Whether pages are served live or exported to static files.
#[derive(Clone, Copy, Debug, PartialEq, Eq, Structural)]
pub enum RenderMode {
    Live,
    Export,
}

/// The background policy of a mode: lenient when serving live, strict when
/// exporting.
pub open spec fn policy_of(mode: RenderMode) -> BackgroundPolicy {
    match mode {
        RenderMode::Live => BackgroundPolicy::Lenient,
        RenderMode::Export => BackgroundPolicy::Strict,
    }
}

/// The background policy of `mode`.
pub fn background_policy(mode: RenderMode) -> (r: BackgroundPolicy)
    ensures
        r == policy_of(mode),
{
    match mode {
        RenderMode::Live => BackgroundPolicy::Lenient,
        RenderMode::Export => BackgroundPolicy::Strict,
    }
}

/// The URL prefix of a category's images: served from the content root when
/// live, next to the page when exported.
pub open spec fn images_base_of(mode: RenderMode, key: Seq<char>) -> Seq<char> {
    match mode {
        RenderMode::Live => "/templates/modeling/"@ + key + "/images/"@,
        RenderMode::Export => "./images/"@,
    }
}

/// The URL prefix of a category's background image.
pub open spec fn background_base_of(mode: RenderMode, key: Seq<char>) -> Seq<char> {
    match mode {
        RenderMode::Live => "/templates/modeling/"@ + key + "/Background/"@,
        RenderMode::Export => "./Background/"@,
    }
}

/// The background directory of a category, as messages name it.
pub open spec fn background_location_of(key: Seq<char>) -> Seq<char> {
    "templates/modeling/"@ + key + "/Background"@
}

/// The URL prefix of the images of category `key` in `mode`.
pub fn images_base(mode: RenderMode, key: &str) -> (r: String)
    ensures
        r@ == images_base_of(mode, key@),
{
    match mode {
        RenderMode::Live => {
            let mut r = "/templates/modeling/".to_owned();
            r.append(key);
            r.append("/images/");
            r
        },
        RenderMode::Export => "./images/".to_owned(),
    }
}

/// The URL prefix of the background image of category `key` in `mode`.
pub fn background_base(mode: RenderMode, key: &str) -> (r: String)
    ensures
        r@ == background_base_of(mode, key@),
{
    match mode {
        RenderMode::Live => {
            let mut r = "/templates/modeling/".to_owned();
            r.append(key);
            r.append("/Background/");
            r
        },
        RenderMode::Export => "./Background/".to_owned(),
    }
}

/// The background directory of category `key`, as messages name it.
pub fn background_location(key: &str) -> (r: String)
    ensures
        r@ == background_location_of(key@),
{
    let mut r = "templates/modeling/".to_owned();
    r.append(key);
    r.append("/Background");
    r
}

} // verus!
