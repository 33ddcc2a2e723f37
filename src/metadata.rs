use vstd::prelude::*;

use crate::lines::{find_chars, find_from, index_of, lemma_index_of_none, lines_of, split_lines, take_until};
use crate::order::views;
use crate::text::{chars_of, string_of, trim, trim_chars, trimmed};

verus! {

/// The description used on a category page that has no subtitle file.
pub const DEFAULT_CUSTOM_TITLE: &'static str = "Professional portrait photography for actors, models, and business professionals";

/// The subtitle of category `key`: the trimmed text of its subtitle file, or
/// `Professional {key} photography` where it has none.
pub open spec fn subtitle_of(key: Seq<char>, file: Option<Seq<char>>) -> Seq<char> {
    match file {
        Some(text) => trimmed(text),
        None => "Professional "@ + key + " photography"@,
    }
}

/// The description placed in a category page: the trimmed text of its
/// subtitle file, or the fixed default.
pub open spec fn custom_title_of(file: Option<Seq<char>>) -> Seq<char> {
    match file {
        Some(text) => trimmed(text),
        None => DEFAULT_CUSTOM_TITLE@,
    }
}

/// The subtitle of category `key` from the content of its subtitle file, if it
/// could be read.
pub fn resolve_subtitle(key: &str, file: &Option<String>) -> (r: String)
    ensures
        r@ == subtitle_of(key@, match file {
            Some(t) => Some(t@),
            None => None,
        }),
{
    match file {
        Some(text) => trim(text.as_str()),
        None => {
            let mut r = "Professional ".to_owned();
            r.append(key);
            r.append(" photography");
            r
        },
    }
}

/// The description of a category page from the content of its subtitle file,
/// if it could be read.
pub fn resolve_custom_title(file: &Option<String>) -> (r: String)
    ensures
        r@ == custom_title_of(
            match file {
                Some(t) => Some(t@),
                None => None,
            },
        ),
{
    match file {
        Some(text) => trim(text.as_str()),
        None => DEFAULT_CUSTOM_TITLE.to_owned(),
    }
}

/// One named link of a category.
pub struct LinkEntry {
    pub name: String,
    pub url: String,
}

/// The link on one line of a link file: the trimmed text before its first
/// comma, and the trimmed text after it. A line without a comma holds none.
pub open spec fn link_of_line(line: Seq<char>) -> Option<(Seq<char>, Seq<char>)> {
    match index_of(line, ',') {
        Some(k) => Some((trimmed(line.take(k)), trimmed(line.subrange(k + 1, line.len() as int)))),
        None => None,
    }
}

/// The links of a sequence of lines, a later name overriding an earlier one.
pub open spec fn links_map(lines: Seq<Seq<char>>) -> Map<Seq<char>, Seq<char>>
    decreases lines.len(),
{
    if lines.len() == 0 {
        Map::empty()
    } else {
        match link_of_line(lines.last()) {
            Some((name, url)) => links_map(lines.drop_last()).insert(name, url),
            None => links_map(lines.drop_last()),
        }
    }
}

/// The links of a link file's content.
pub open spec fn links_of(content: Seq<char>) -> Map<Seq<char>, Seq<char>> {
    links_map(lines_of(content))
}

/// `entries` names each link once, and holds exactly the links of `m`.
pub open spec fn represents(entries: Seq<LinkEntry>, m: Map<Seq<char>, Seq<char>>) -> bool {
    &&& forall|i: int, j: int|
        0 <= i < j < entries.len() ==> entries[i].name@ != entries[j].name@
    &&& forall|i: int|
        0 <= i < entries.len() ==> #[trigger] m.contains_key(entries[i].name@) && m[entries[i].name@]
            == entries[i].url@
    &&& forall|k: Seq<char>|
        #[trigger] m.contains_key(k) ==> exists|i: int| 0 <= i < entries.len() && entries[i].name@ == k
}

/// Reads the link on one line of a link file.
pub fn parse_link_line(line: &str) -> (r: Option<LinkEntry>)
    ensures
        match link_of_line(line@) {
            Some((n, u)) => r matches Some(e) && e.name@ == n && e.url@ == u,
            None => r is None,
        },
{
    let cs = chars_of(line);
    let comma = vec![','];
    let found = find_chars(&cs, &comma, 0);
    assert(comma@ == seq![',']);
    match found {
        Some(k) => {
            proof {
                lemma_index_of_none(cs@, ',');
            }
            let mut before: Vec<char> = Vec::new();
            let mut after: Vec<char> = Vec::new();
            let mut i: usize = 0;
            while i < cs.len()
                invariant
                    k < cs.len(),
                    i <= cs.len(),
                    before@ == cs@.take(if i <= k { i as int } else { k as int }),
                    after@ == if i <= k + 1 { Seq::empty() } else { cs@.subrange(k + 1, i as int) },
                decreases cs.len() - i,
            {
                if i < k {
                    before.push(cs[i]);
                    assert(cs@.take(i + 1) == cs@.take(i as int).push(cs@[i as int]));
                } else if i > k {
                    after.push(cs[i]);
                    assert(cs@.subrange(k + 1, i + 1) =~= (if i <= k + 1 { Seq::empty() } else { cs@.subrange(k + 1, i as int) }).push(cs@[i as int]));
                }
                i += 1;
            }
            let name = trim_chars(&before);
            let url = trim_chars(&after);
            proof {
                if k + 1 == cs.len() {
                    assert(cs@.subrange(k + 1, cs.len() as int) =~= Seq::empty());
                }
            }
            Some(LinkEntry { name: string_of(&name), url: string_of(&url) })
        },
        None => None,
    }
}

/// Reads a link file: one `name,url` pair per line, split at the first comma,
/// both sides trimmed. Lines without a comma are skipped, and a later line
/// overrides an earlier one with the same name.
pub fn parse_links(content: &str) -> (r: Vec<LinkEntry>)
    ensures
        represents(r@, links_of(content@)),
{
    let lines = split_lines(content);
    let mut r: Vec<LinkEntry> = Vec::new();
    let mut i: usize = 0;
    while i < lines.len()
        invariant
            i <= lines.len(),
            views(lines@) == lines_of(content@),
            represents(r@, links_map(views(lines@).take(i as int))),
        decreases lines.len() - i,
    {
        let ghost ls = views(lines@);
        assert(ls.take(i + 1).drop_last() == ls.take(i as int));
        assert(ls.take(i + 1).last() == lines@[i as int]@);
        match parse_link_line(lines[i].as_str()) {
            Some(e) => {
                let ghost m = links_map(ls.take(i as int));
                let mut j: usize = 0;
                while j < r.len() && r[j].name != e.name
                    invariant
                        j <= r.len(),
                        forall|q: int| 0 <= q < j ==> r@[q].name@ != e.name@,
                    decreases r.len() - j,
                {
                    j += 1;
                }
                let ghost old_r = r@;
                let ghost m2 = m.insert(e.name@, e.url@);
                if j < r.len() {
                    r.set(j, e);
                } else {
                    r.push(e);
                }
                assert forall|k: Seq<char>| #[trigger] m2.contains_key(k) implies exists|q: int|
                    0 <= q < r@.len() && r@[q].name@ == k by {
                    if k != r@[j as int].name@ {
                        let q = choose|q: int| 0 <= q < old_r.len() && old_r[q].name@ == k;
                        assert(r@[q].name@ == k);
                    }
                }
                assert forall|p: int, q: int| 0 <= p < q < r@.len() implies r@[p].name@
                    != r@[q].name@ by {
                    if q < old_r.len() {
                        assert(old_r[p].name@ != old_r[q].name@);
                    }
                }
                assert forall|p: int| 0 <= p < r@.len() implies #[trigger] m2.contains_key(
                    r@[p].name@,
                ) && m2[r@[p].name@] == r@[p].url@ by {
                    if p != j {
                        assert(m.contains_key(old_r[p].name@));
                    }
                }
                assert(represents(r@, m2));
            },
            None => {},
        }
        i += 1;
    }
    assert(views(lines@).take(lines.len() as int) == views(lines@));
    r
}

/// A line of a link file without a comma adds nothing to the links, wherever
/// it stands.
pub proof fn lemma_line_without_comma_adds_nothing(
    before: Seq<Seq<char>>,
    line: Seq<char>,
    after: Seq<Seq<char>>,
)
    requires
        !line.contains(','),
    ensures
        links_map(before.push(line) + after) == links_map(before + after),
    decreases after.len(),
{
    lemma_index_of_none(line, ',');
    if after.len() == 0 {
        assert(before.push(line) + after =~= before.push(line));
        assert(before + after =~= before);
        assert(before.push(line).drop_last() =~= before);
    } else {
        lemma_line_without_comma_adds_nothing(before, line, after.drop_last());
        assert((before.push(line) + after).drop_last() =~= before.push(line) + after.drop_last());
        assert((before + after).drop_last() =~= before + after.drop_last());
    }
}

/// The part of `s` from position `from` on.
pub(crate) fn tail_of(s: &Vec<char>, from: usize) -> (r: Vec<char>)
    requires
        from <= s.len(),
    ensures
        r@ == s@.subrange(from as int, s@.len() as int),
{
    let mut r: Vec<char> = Vec::new();
    let mut i: usize = from;
    while i < s.len()
        invariant
            from <= i <= s.len(),
            r@ == s@.subrange(from as int, i as int),
        decreases s.len() - i,
    {
        r.push(s[i]);
        assert(s@.subrange(from as int, i + 1) == s@.subrange(from as int, i as int).push(s@[i as int]));
        i += 1;
    }
    r
}

/// The start of `s` up to the first `c`.
pub(crate) fn take_until_chars(s: &Vec<char>, c: char) -> (r: Vec<char>)
    ensures
        r@ == take_until(s@, c),
{
    let pat = vec![c];
    assert(pat@ == seq![c]);
    let end = match find_chars(s, &pat, 0) {
        Some(k) => k,
        None => s.len(),
    };
    let mut r: Vec<char> = Vec::new();
    let mut i: usize = 0;
    while i < end
        invariant
            end <= s.len(),
            i <= end,
            r@ == s@.take(i as int),
        decreases end - i,
    {
        r.push(s[i]);
        assert(s@.take(i + 1) == s@.take(i as int).push(s@[i as int]));
        i += 1;
    }
    assert(s@.take(s@.len() as int) == s@);
    r
}

/// The video on one line of a video-link file: after `youtu.be/` up to the
/// next `?`, or, in a `youtube.com/watch` link, after `v=` up to the next `&`.
pub open spec fn video_id(line: Seq<char>) -> Option<Seq<char>> {
    let t = trimmed(line);
    match find_from(t, "youtu.be/"@, 0) {
        Some(p) => Some(take_until(t.subrange(p + "youtu.be/"@.len(), t.len() as int), '?')),
        None => match find_from(t, "youtube.com/watch"@, 0) {
            Some(p) => {
                let rest = t.subrange(p + "youtube.com/watch"@.len(), t.len() as int);
                match find_from(rest, "v="@, 0) {
                    Some(q) => Some(take_until(rest.subrange(q + 2, rest.len() as int), '&')),
                    None => None,
                }
            },
            None => None,
        },
    }
}

/// The videos of a sequence of lines, in order, skipping lines that name none.
pub open spec fn video_ids(lines: Seq<Seq<char>>) -> Seq<Seq<char>>
    decreases lines.len(),
{
    if lines.len() == 0 {
        Seq::empty()
    } else {
        match video_id(lines.last()) {
            Some(id) => video_ids(lines.drop_last()).push(id),
            None => video_ids(lines.drop_last()),
        }
    }
}

/// Reads the video on one line of a video-link file.
pub fn parse_video_line(line: &str) -> (r: Option<String>)
    ensures
        match video_id(line@) {
            Some(id) => r matches Some(s) && s@ == id,
            None => r is None,
        },
{
    let raw = chars_of(line);
    let t = trim_chars(&raw);
    let short = chars_of("youtu.be/");
    let long = chars_of("youtube.com/watch");
    let key = chars_of("v=");
    proof {
        reveal_strlit("v=");
    }
    match find_chars(&t, &short, 0) {
        Some(p) => {
            let rest = tail_of(&t, p + short.len());
            Some(string_of(&take_until_chars(&rest, '?')))
        },
        None => match find_chars(&t, &long, 0) {
            Some(p) => {
                let rest = tail_of(&t, p + long.len());
                match find_chars(&rest, &key, 0) {
                    Some(q) => {
                        let id_part = tail_of(&rest, q + 2);
                        Some(string_of(&take_until_chars(&id_part, '&')))
                    },
                    None => None,
                }
            },
            None => None,
        },
    }
}

/// Reads a video-link file: one link per line, lines that name no video
/// skipped.
pub fn parse_video_links(content: &str) -> (r: Vec<String>)
    ensures
        views(r@) == video_ids(lines_of(content@)),
{
    let lines = split_lines(content);
    let mut r: Vec<String> = Vec::new();
    let mut i: usize = 0;
    while i < lines.len()
        invariant
            i <= lines.len(),
            views(lines@) == lines_of(content@),
            views(r@) == video_ids(views(lines@).take(i as int)),
        decreases lines.len() - i,
    {
        let ghost ls = views(lines@);
        assert(ls.take(i + 1).drop_last() == ls.take(i as int));
        assert(ls.take(i + 1).last() == lines@[i as int]@);
        match parse_video_line(lines[i].as_str()) {
            Some(id) => {
                let ghost before = r@;
                r.push(id);
                assert(views(r@) =~= views(before).push(r@.last()@));
            },
            None => {},
        }
        i += 1;
    }
    assert(views(lines@).take(lines.len() as int) == views(lines@));
    r
}

} // verus!
