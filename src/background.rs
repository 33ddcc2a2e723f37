use vstd::prelude::*;

use crate::assets::{asset_ref, image_file_names, image_names, make_asset_ref, DirEntry};
use crate::order::views;
use crate::text::{replace_all, replaced};

verus! {

/// How a conflict between several background images is handled.
#[derive(Clone, Copy, Debug, PartialEq, Eq, Structural)]
pub enum BackgroundPolicy {
    /// Several images are an error: used for a static export.
    Strict,
    /// Several images are tolerated and the first listed is used: used when
    /// serving live.
    Lenient,
}

/// A `Background` directory that holds more than one image.
pub struct BackgroundConflict {
    /// The directory, as it is named in messages.
    pub location: String,
    /// The names of all the images found there, in listing order.
    pub files: Vec<String>,
}

/// `s` between double quotes.
pub open spec fn quoted(s: Seq<char>) -> Seq<char> {
    seq!['"'] + s + seq!['"']
}

/// The quoted names, separated by `, `.
pub open spec fn quoted_list(names: Seq<Seq<char>>) -> Seq<char>
    decreases names.len(),
{
    if names.len() == 0 {
        Seq::empty()
    } else if names.len() == 1 {
        quoted(names[0])
    } else {
        quoted_list(names.drop_last()) + seq![',', ' '] + quoted(names.last())
    }
}

/// The message that reports a conflict in `location` between `files`.
pub open spec fn conflict_message(location: Seq<char>, files: Seq<Seq<char>>) -> Seq<char> {
    "ERROR: Multiple background images found in "@ + location + seq![':', ' ', '['] + quoted_list(
        files,
    ) + seq![']']
}

impl BackgroundConflict {
    /// A readable message that names the directory and every image in it.
    pub fn message(&self) -> (r: String)
        ensures
            r@ == conflict_message(self.location@, views(self.files@)),
    {
        let mut r = "ERROR: Multiple background images found in ".to_owned();
        r.append(self.location.as_str());
        proof {
            reveal_strlit(": [");
            reveal_strlit(", ");
            reveal_strlit("\"");
            reveal_strlit("]");
        }
        r.append(": [");
        let ghost head = r@;
        let mut i: usize = 0;
        while i < self.files.len()
            invariant
                i <= self.files.len(),
                r@ == head + quoted_list(views(self.files@).take(i as int)),
            decreases self.files.len() - i,
        {
            let ghost fs = views(self.files@);
            let ghost prev = r@;
            assert(fs.take(i + 1).drop_last() == fs.take(i as int));
            proof {
                reveal_strlit(", ");
                reveal_strlit("\"");
            }
            assert(", "@ =~= seq![',', ' ']);
            assert("\""@ =~= seq!['"']);
            if i > 0 {
                r.append(", ");
            }
            let ghost sep = r@;
            r.append("\"");
            r.append(self.files[i].as_str());
            r.append("\"");
            assert(fs.take(i + 1).last() == self.files@[i as int]@);
            assert(r@ =~= sep + quoted(self.files@[i as int]@));
            proof {
                if i == 0 {
                    assert(fs.take(i + 1).len() == 1);
                    assert(quoted_list(fs.take(0)) =~= Seq::empty());
                    assert(sep =~= head);
                } else {
                    assert(sep =~= head + quoted_list(fs.take(i as int)) + seq![',', ' ']);
                }
            }
            i += 1;
        }
        r.append("]");
        assert(views(self.files@).take(self.files.len() as int) == views(self.files@));
        r
    }
}

/// Resolves the background image of a category from the listing of its
/// `Background` directory (empty where there is none). With no image there is
/// no background; with one, it is used. With several, the strict policy
/// reports all of them and the lenient one takes the first listed.
pub fn resolve_background(
    base: &str,
    location: &str,
    entries: &Vec<DirEntry>,
    policy: BackgroundPolicy,
) -> (r: Result<Option<String>, BackgroundConflict>)
    ensures
        ({
            let names = image_names(entries@);
            match r {
                Ok(None) => names.len() == 0,
                Ok(Some(a)) => names.len() > 0 && a@ == asset_ref(base@, names[0]) && (names.len()
                    == 1 || policy == BackgroundPolicy::Lenient),
                Err(c) => names.len() > 1 && policy == BackgroundPolicy::Strict && c.location@
                    == location@ && views(c.files@) == names,
            }
        }),
{
    let names = image_file_names(entries);
    if names.len() == 0 {
        Ok(None)
    } else if names.len() > 1 && policy == BackgroundPolicy::Strict {
        Err(BackgroundConflict { location: location.to_owned(), files: names })
    } else {
        Ok(Some(make_asset_ref(base, names[0].as_str())))
    }
}

/// The page's animated gradient background declaration.
pub const GRADIENT_DECL: &'static str = "background: linear-gradient(45deg, #ff6b9d, #c44faf, #8b5fbf, #6b73ff);";

/// The declaration that sizes the animated gradient.
pub const GRADIENT_SIZE_DECL: &'static str = "background-size: 400% 400%;";

/// The declaration that animates the gradient.
pub const GRADIENT_ANIMATION_DECL: &'static str = "animation: gradientShift 15s ease infinite;";

/// The declaration that shows the image `bg` as a fixed, covering background.
pub open spec fn image_background_decl(bg: Seq<char>) -> Seq<char> {
    "background: url('"@ + bg + "') center center/cover no-repeat fixed;"@
}

/// `html` with the gradient background replaced by the image `bg`, and the
/// gradient's sizing and animation declarations removed.
pub open spec fn with_background(html: Seq<char>, bg: Seq<char>) -> Seq<char> {
    replaced(
        replaced(
            replaced(html, GRADIENT_DECL@, image_background_decl(bg)),
            GRADIENT_SIZE_DECL@,
            Seq::empty(),
        ),
        GRADIENT_ANIMATION_DECL@,
        Seq::empty(),
    )
}

/// Puts the background image `bg` in place of the animated gradient.
pub fn apply_background(html: &str, bg: &str) -> (r: String)
    ensures
        r@ == with_background(html@, bg@),
{
    let mut decl = "background: url('".to_owned();
    decl.append(bg);
    decl.append("') center center/cover no-repeat fixed;");
    let a = replace_all(html, GRADIENT_DECL, decl.as_str());
    let b = replace_all(a.as_str(), GRADIENT_SIZE_DECL, "");
    proof {
        reveal_strlit("");
        assert(""@ =~= Seq::<char>::empty());
    }
    let c = replace_all(b.as_str(), GRADIENT_ANIMATION_DECL, "");
    c
}

} // verus!
