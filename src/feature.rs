use vstd::prelude::*;

use crate::assets::{get_image_list, image_refs, DirEntry};
use crate::lines::lines_of;
use crate::metadata::{parse_video_links, video_ids};
use crate::mode::RenderMode;
use crate::order::views;
use crate::serialize::{json_array, string_array};
use crate::text::{join_strings, joined, replace_all, replaced, trim, trimmed};

verus! {

/// The placeholders that a feature folder fills.
pub const YOUTUBE_TOKEN: &'static str = "{{YOUTUBE_EMBEDS}}";

pub const BTS_IMAGES_TOKEN: &'static str = "{{BTS_IMAGES_JSON}}";

pub const BTS_SUBTITLE_TOKEN: &'static str = "{{BTS_SUBTITLE}}";

/// What a feature folder supplies to the pages: its videos, its images and
/// its subtitle.
pub struct Feature {
    pub videos: Vec<String>,
    pub images: Vec<String>,
    pub subtitle: String,
}

/// The embedded player of one video.
pub open spec fn video_embed(id: Seq<char>) -> Seq<char> {
    "<iframe src=\"https://www.youtube.com/embed/"@ + id
        + "\" frameborder=\"0\" allowfullscreen></iframe>"@
}

/// The players of the videos, one per line.
pub open spec fn embeds_of(ids: Seq<Seq<char>>) -> Seq<char> {
    joined(ids.map_values(|id: Seq<char>| video_embed(id)), seq!['\n'])
}

/// A body with the feature's videos, images and subtitle put in place of
/// their placeholders.
pub open spec fn feature_body(content: Seq<char>, f: Feature) -> Seq<char> {
    replaced(
        replaced(
            replaced(content, YOUTUBE_TOKEN@, embeds_of(views(f.videos@))),
            BTS_IMAGES_TOKEN@,
            json_array(views(f.images@)),
        ),
        BTS_SUBTITLE_TOKEN@,
        f.subtitle@,
    )
}

/// The URL prefix of the images of feature folder `folder`: served from the
/// content root when live, from the copy under the export's sub-path when
/// exported.
pub open spec fn feature_images_base_of(mode: RenderMode, prefix: Seq<char>, folder: Seq<char>) -> Seq<char> {
    match mode {
        RenderMode::Live => "/templates/"@ + folder + "/images/"@,
        RenderMode::Export => "/"@ + prefix + "/"@ + folder + "/images/"@,
    }
}

/// The players of the videos, one per line.
pub fn youtube_embeds(ids: &Vec<String>) -> (r: String)
    ensures
        r@ == embeds_of(views(ids@)),
{
    let mut embeds: Vec<String> = Vec::new();
    let mut i: usize = 0;
    while i < ids.len()
        invariant
            i <= ids.len(),
            embeds@.map_values(|s: String| s@) == views(ids@).take(i as int).map_values(
                |id: Seq<char>| video_embed(id),
            ),
        decreases ids.len() - i,
    {
        let mut e = "<iframe src=\"https://www.youtube.com/embed/".to_owned();
        e.append(ids[i].as_str());
        e.append("\" frameborder=\"0\" allowfullscreen></iframe>");
        let ghost before = embeds@;
        embeds.push(e);
        assert(embeds@.map_values(|s: String| s@) =~= before.map_values(|s: String| s@).push(
            video_embed(ids@[i as int]@),
        ));
        assert(views(ids@).take(i + 1) =~= views(ids@).take(i as int).push(ids@[i as int]@));
        i += 1;
    }
    assert(views(ids@).take(ids.len() as int) == views(ids@));
    proof {
        reveal_strlit("\n");
        assert("\n"@ =~= seq!['\n']);
    }
    join_strings(&embeds, "\n")
}

/// Puts the feature's videos, images and subtitle into a body.
pub fn fill_feature(content: &str, f: &Feature) -> (r: String)
    ensures
        r@ == feature_body(content@, *f),
{
    let a = replace_all(content, YOUTUBE_TOKEN, youtube_embeds(&f.videos).as_str());
    let b = replace_all(a.as_str(), BTS_IMAGES_TOKEN, string_array(&f.images).as_str());
    replace_all(b.as_str(), BTS_SUBTITLE_TOKEN, f.subtitle.as_str())
}

/// The URL prefix of the images of feature folder `folder`.
pub fn feature_images_base(mode: RenderMode, prefix: &str, folder: &str) -> (r: String)
    ensures
        r@ == feature_images_base_of(mode, prefix@, folder@),
{
    match mode {
        RenderMode::Live => {
            let mut r = "/templates/".to_owned();
            r.append(folder);
            r.append("/images/");
            r
        },
        RenderMode::Export => {
            let mut r = "/".to_owned();
            r.append(prefix);
            r.append("/");
            r.append(folder);
            r.append("/images/");
            r
        },
    }
}

/// Builds what feature folder `folder` supplies from what was read of it:
/// its video-link file, the listing of its images directory and its subtitle
/// file, each where there is one. Missing parts give no videos, no images
/// and an empty subtitle.
pub fn build_feature(
    mode: RenderMode,
    prefix: &str,
    folder: &str,
    video_file: &Option<String>,
    images: &Option<Vec<DirEntry>>,
    subtitle_file: &Option<String>,
) -> (r: Feature)
    ensures
        views(r.videos@) == match video_file {
            Some(t) => video_ids(lines_of(t@)),
            None => Seq::empty(),
        },
        views(r.images@) == match images {
            Some(entries) => image_refs(feature_images_base_of(mode, prefix@, folder@), entries@),
            None => Seq::empty(),
        },
        r.subtitle@ == match subtitle_file {
            Some(t) => trimmed(t@),
            None => Seq::empty(),
        },
{
    let videos = match video_file {
        Some(t) => parse_video_links(t.as_str()),
        None => Vec::new(),
    };
    let imgs = match images {
        Some(entries) => get_image_list(feature_images_base(mode, prefix, folder).as_str(), entries),
        None => Vec::new(),
    };
    let subtitle = match subtitle_file {
        Some(t) => trim(t.as_str()),
        None => String::new(),
    };
    proof {
        if video_file is None {
            assert(views(videos@) =~= Seq::empty());
        }
        if images is None {
            assert(views(imgs@) =~= Seq::empty());
        }
    }
    Feature { videos, images: imgs, subtitle }
}

} // verus!
