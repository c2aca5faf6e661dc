//! Text renderings of pages and tags for terminal output.

use vstd::prelude::*;
use crate::text::{strip_slashes, trim_trailing_slashes};
use crate::pairs::texts;
use crate::model::{Ancestor, SearchResultItem};
use crate::text::{html_decoded, sanitize_text, strip_controls, text_eq};
use vstd::seq_lib::{to_multiset_insert, to_multiset_build};

verus! {

/// The address of a page's view on the wiki.
pub open spec fn page_url_text(base_url: Seq<char>, page_id: Seq<char>) -> Seq<char> {
    strip_slashes(base_url) + "/wiki/pages/viewpage.action?pageId="@ + page_id
}

/// A terminal hyperlink (OSC 8) showing `text` and pointing at `url`.
pub open spec fn link_text(text: Seq<char>, url: Seq<char>) -> Seq<char> {
    "\x1b]8;;"@ + url + "\x1b\\"@ + text + "\x1b]8;;\x1b\\"@
}

/// The address of a page's view on the wiki.
pub fn page_url(base_url: &str, page_id: &str) -> (r: String)
    ensures
        r@ == page_url_text(base_url@, page_id@),
{
    let mut s = String::from_str(trim_trailing_slashes(base_url));
    s.append("/wiki/pages/viewpage.action?pageId=");
    s.append(page_id);
    s
}

/// A hyperlink for terminal emulators that support OSC 8.
pub fn make_clickable(text: &str, url: &str) -> (r: String)
    ensures
        r@ == link_text(text@, url@),
{
    let mut s = String::from_str("\x1b]8;;");
    s.append(url);
    s.append("\x1b\\");
    s.append(text);
    s.append("\x1b]8;;\x1b\\");
    s
}

/// A hyperlink to a page, showing `text`.
pub fn make_page_clickable(text: &str, page_id: &str, base_url: &str) -> (r: String)
    ensures
        r@ == link_text(text@, page_url_text(base_url@, page_id@)),
{
    let url = page_url(base_url, page_id);
    make_clickable(text, url.as_str())
}

/// The parts joined, with `sep` between each two.
pub open spec fn join(parts: Seq<Seq<char>>, sep: Seq<char>) -> Seq<char>
    decreases parts.len(),
{
    if parts.len() == 0 {
        seq![]
    } else if parts.len() == 1 {
        parts[0]
    } else {
        join(parts.drop_last(), sep) + sep + parts.last()
    }
}

/// Joins texts with a separator.
pub fn join_texts(parts: &Vec<String>, sep: &str) -> (r: String)
    ensures
        r@ == join(texts(parts@), sep@),
{
    let ghost all = texts(parts@);
    let mut out = String::new();
    let mut i: usize = 0;
    while i < parts.len()
        invariant
            i <= parts@.len(),
            all == texts(parts@),
            out@ == join(all.take(i as int), sep@),
        decreases parts@.len() - i,
    {
        let ghost pre = all.take(i as int + 1);
        proof {
            assert(pre.drop_last() =~= all.take(i as int));
            assert(pre.last() == parts@[i as int]@);
        }
        if i > 0 {
            out.append(sep);
        } else {
            proof {
                assert(all.take(0) =~= Seq::<Seq<char>>::empty());
                assert(pre.len() == 1);
            }
        }
        out.append(parts[i].as_str());
        i = i + 1;
    }
    proof {
        assert(all.take(parts@.len() as int) =~= all);
    }
    out
}

/// A bracketed tag list: green with tags, dim when empty.
pub open spec fn tags_list_text(tags: Seq<Seq<char>>) -> Seq<char> {
    if tags.len() == 0 {
        "\x1b[2m[]\x1b[0m"@
    } else {
        "\x1b[32m["@ + join(tags, ", "@) + "]\x1b[0m"@
    }
}

/// Formats tags as a bracketed list.
pub fn format_tags_list(tags: &Vec<String>) -> (r: String)
    ensures
        r@ == tags_list_text(texts(tags@)),
{
    if tags.len() == 0 {
        String::from_str("\x1b[2m[]\x1b[0m")
    } else {
        let mut s = String::from_str("\x1b[32m[");
        let joined = join_texts(tags, ", ");
        s.append(joined.as_str());
        s.append("]\x1b[0m");
        s
    }
}

/// `/Space/Ancestor/.../Title`.
pub open spec fn page_path_text(space: Seq<char>, ancestors: Seq<Seq<char>>, title: Seq<char>) -> Seq<char> {
    "/"@ + join(seq![space] + ancestors + seq![title], "/"@)
}

/// Builds the path of a page from its space, ancestors and title.
pub fn build_page_path(space: &str, ancestors: &[String], title: &str) -> (r: String)
    ensures
        r@ == page_path_text(space@, texts(ancestors@), title@),
{
    let mut parts: Vec<String> = Vec::new();
    parts.push(String::from_str(space));
    let mut i: usize = 0;
    while i < ancestors.len()
        invariant
            i <= ancestors@.len(),
            texts(parts@) == seq![space@] + texts(ancestors@).take(i as int),
        decreases ancestors@.len() - i,
    {
        let ghost before = texts(parts@);
        parts.push(String::from_str(ancestors[i].as_str()));
        proof {
            assert(texts(parts@) =~= before.push(ancestors@[i as int]@));
            assert(texts(ancestors@)[i as int] == ancestors@[i as int]@);
            assert(texts(parts@) =~= seq![space@] + texts(ancestors@).take(i as int + 1));
        }
        i = i + 1;
    }
    let ghost before = texts(parts@);
    parts.push(String::from_str(title));
    proof {
        assert(texts(parts@) =~= before.push(title@));
        assert(texts(ancestors@).take(ancestors@.len() as int) =~= texts(ancestors@));
        assert(texts(parts@) =~= seq![space@] + texts(ancestors@) + seq![title@]);
    }
    let joined = join_texts(&parts, "/");
    let mut s = String::from_str("/");
    s.append(joined.as_str());
    s
}

/// A space name in bold cyan.
pub fn format_space(space: &str) -> (r: String)
    ensures
        r@ == "\x1b[1;36m"@ + space@ + "\x1b[0m"@,
{
    let mut s = String::from_str("\x1b[1;36m");
    s.append(space);
    s.append("\x1b[0m");
    s
}

/// A parent node's name in bold blue.
pub fn format_directory(name: &str) -> (r: String)
    ensures
        r@ == "\x1b[1;34m"@ + name@ + "\x1b[0m"@,
{
    let mut s = String::from_str("\x1b[1;34m");
    s.append(name);
    s.append("\x1b[0m");
    s
}

/// A page with its tags, as the query output shows it.
pub struct PageData {
    pub id: String,
    pub title: String,
    pub space: String,
    pub tags: Vec<String>,
    pub ancestors: Vec<String>,
    pub url: String,
}

/// Strict lexicographic order of texts, by code point.
pub open spec fn text_lt(a: Seq<char>, b: Seq<char>) -> bool
    decreases a.len(),
{
    if a.len() == 0 {
        b.len() > 0
    } else if b.len() == 0 {
        false
    } else if a[0] != b[0] {
        a[0] < b[0]
    } else {
        text_lt(a.drop_first(), b.drop_first())
    }
}

/// Lexicographic order is a strict total order.
pub proof fn lemma_text_lt_total(a: Seq<char>, b: Seq<char>)
    ensures
        a != b ==> text_lt(a, b) || text_lt(b, a),
        text_lt(a, b) ==> !text_lt(b, a),
        !text_lt(a, a),
    decreases a.len(),
{
    if a.len() == 0 && b.len() == 0 {
        assert(a =~= b);
    }
    if a.len() > 0 && b.len() > 0 && a[0] == b[0] {
        lemma_text_lt_total(a.drop_first(), b.drop_first());
        if a.drop_first() == b.drop_first() {
            assert(a =~= seq![a[0]] + a.drop_first());
            assert(b =~= seq![b[0]] + b.drop_first());
        }
    }
    if a.len() > 0 {
        lemma_text_lt_total(a.drop_first(), a.drop_first());
    }
}

/// Whether `a` comes before `b` in lexicographic order.
pub fn text_less(a: &str, b: &str) -> (r: bool)
    ensures
        r == text_lt(a@, b@),
{
    let n = a.unicode_len();
    let m = b.unicode_len();
    let mut i: usize = 0;
    proof {
        assert(a@.skip(0) =~= a@);
        assert(b@.skip(0) =~= b@);
    }
    while i < n && i < m
        invariant
            n == a@.len(),
            m == b@.len(),
            i <= n,
            i <= m,
            text_lt(a@, b@) == text_lt(a@.skip(i as int), b@.skip(i as int)),
        decreases n - i,
    {
        let ca = a.get_char(i);
        let cb = b.get_char(i);
        proof {
            assert(a@.skip(i as int)[0] == ca);
            assert(b@.skip(i as int)[0] == cb);
        }
        if ca != cb {
            return ca < cb;
        }
        proof {
            assert(a@.skip(i as int).drop_first() =~= a@.skip(i as int + 1));
            assert(b@.skip(i as int).drop_first() =~= b@.skip(i as int + 1));
        }
        i = i + 1;
    }
    i == n && i < m
}

/// The path of a page.
pub open spec fn path_of(p: PageData) -> Seq<char> {
    page_path_text(p.space@, texts(p.ancestors@), p.title@)
}

/// A page's line: its path as a link to the page, then its tags.
pub open spec fn path_line(p: PageData, base_url: Seq<char>) -> Seq<char> {
    link_text(path_of(p), page_url_text(base_url, p.id@)) + " "@ + tags_list_text(texts(p.tags@))
}

/// Each page's path and line.
pub open spec fn path_entries(pages: Seq<PageData>, base_url: Seq<char>) -> Seq<(Seq<char>, Seq<char>)> {
    pages.map_values(|p: PageData| (path_of(p), path_line(p, base_url)))
}

/// Texts of string pairs.
pub open spec fn pair_texts(v: Seq<(String, String)>) -> Seq<(Seq<char>, Seq<char>)> {
    v.map_values(|e: (String, String)| (e.0@, e.1@))
}

/// No entry's path comes before the path of the entry above it.
pub open spec fn sorted_by_path(s: Seq<(Seq<char>, Seq<char>)>) -> bool {
    forall|i: int| 0 <= i < s.len() - 1 ==> !text_lt((#[trigger] s[i + 1]).0, s[i].0)
}

/// The second part of each pair.
pub open spec fn seconds(s: Seq<(Seq<char>, Seq<char>)>) -> Seq<Seq<char>> {
    s.map_values(|e: (Seq<char>, Seq<char>)| e.1)
}

/// Inserts an entry into a list sorted by path, after any entries whose
/// path is not after its own.
#[verifier::rlimit(40)]
fn insert_sorted(v: &mut Vec<(String, String)>, e: (String, String))
    requires
        sorted_by_path(pair_texts(old(v)@)),
    ensures
        sorted_by_path(pair_texts(final(v)@)),
        pair_texts(final(v)@).to_multiset() == pair_texts(old(v)@).to_multiset().insert((e.0@, e.1@)),
{
    let ghost before = pair_texts(v@);
    let ghost x = (e.0@, e.1@);
    let mut j: usize = v.len();
    while j > 0 && text_less(e.0.as_str(), v[j - 1].0.as_str())
        invariant
            j <= v@.len(),
            x == (e.0@, e.1@),
            pair_texts(v@) == before,
            forall|k: int| j <= k < v@.len() ==> text_lt(x.0, #[trigger] before[k].0),
        decreases j,
    {
        proof {
            assert(before[j - 1] == (v@[j - 1].0@, v@[j - 1].1@));
        }
        j = j - 1;
    }
    proof {
        if j > 0 {
            assert(before[j - 1] == (v@[j - 1].0@, v@[j - 1].1@));
            assert(!text_lt(x.0, before[j - 1].0));
        }
    }
    v.insert(j, e);
    proof {
        let after = pair_texts(v@);
        assert(after =~= before.insert(j as int, x));
        to_multiset_insert(before, j as int, x);
        assert forall|i: int| 0 <= i < after.len() - 1 implies !text_lt((#[trigger] after[i + 1]).0, after[i].0) by {
            if i + 1 < j {
                assert(after[i] == before[i] && after[i + 1] == before[i + 1]);
                assert(!text_lt(before[i + 1].0, before[i].0));
            } else if i + 1 == j {
                assert(after[i] == before[i] && after[i + 1] == x);
            } else if i == j {
                assert(after[i] == x && after[i + 1] == before[i]);
                lemma_text_lt_total(x.0, before[i].0);
            } else {
                assert(after[i] == before[i - 1] && after[i + 1] == before[i]);
                let h = i - 1;
                assert(!text_lt(before[h + 1].0, before[h].0));
            }
        }
    }
}

/// Formats pages one per line as `/Space/Parent/Page [tags]`, the path a
/// link to the page, the lines ordered by path.
pub fn format_as_paths(page_data: &[PageData], base_url: &str) -> (r: String)
    ensures
        exists|s: Seq<(Seq<char>, Seq<char>)>| {
            &&& s.to_multiset() == path_entries(page_data@, base_url@).to_multiset()
            &&& sorted_by_path(s)
            &&& r@ == join(seconds(s), "\n"@)
        },
{
    let ghost all = path_entries(page_data@, base_url@);
    let mut sorted: Vec<(String, String)> = Vec::new();
    let mut i: usize = 0;
    proof {
        assert(pair_texts(sorted@) =~= Seq::<(Seq<char>, Seq<char>)>::empty());
        assert(all.take(0) =~= Seq::<(Seq<char>, Seq<char>)>::empty());
    }
    while i < page_data.len()
        invariant
            i <= page_data@.len(),
            all == path_entries(page_data@, base_url@),
            sorted_by_path(pair_texts(sorted@)),
            pair_texts(sorted@).to_multiset() == all.take(i as int).to_multiset(),
        decreases page_data@.len() - i,
    {
        let p = &page_data[i];
        let path = build_page_path(p.space.as_str(), p.ancestors.as_slice(), p.title.as_str());
        let mut line = make_page_clickable(path.as_str(), p.id.as_str(), base_url);
        line.append(" ");
        let tags = format_tags_list(&p.tags);
        line.append(tags.as_str());
        proof {
            assert(all[i as int] == (path@, line@));
            assert(all.take(i as int + 1) =~= all.take(i as int).push((path@, line@)));
            to_multiset_build(all.take(i as int), (path@, line@));
        }
        insert_sorted(&mut sorted, (path, line));
        i = i + 1;
    }
    proof {
        assert(all.take(page_data@.len() as int) =~= all);
    }
    let mut lines: Vec<String> = Vec::new();
    let mut k: usize = 0;
    while k < sorted.len()
        invariant
            k <= sorted@.len(),
            texts(lines@) == seconds(pair_texts(sorted@)).take(k as int),
        decreases sorted@.len() - k,
    {
        let ghost before = texts(lines@);
        lines.push(String::from_str(sorted[k].1.as_str()));
        proof {
            assert(texts(lines@) =~= before.push(sorted@[k as int].1@));
            assert(texts(lines@) =~= seconds(pair_texts(sorted@)).take(k as int + 1));
        }
        k = k + 1;
    }
    proof {
        assert(seconds(pair_texts(sorted@)).take(sorted@.len() as int) =~= seconds(pair_texts(sorted@)));
    }
    join_texts(&lines, "\n")
}

/// The sanitized titles of the ancestors that have one, root first.
pub open spec fn ancestor_titles(ancestors: Seq<Ancestor>) -> Seq<Seq<char>>
    decreases ancestors.len(),
{
    if ancestors.len() == 0 {
        seq![]
    } else {
        let prev = ancestor_titles(ancestors.drop_last());
        match ancestors.last().title {
            Some(t) => prev.push(strip_controls(html_decoded(t@))),
            None => prev,
        }
    }
}

/// What a query's output shows of a page: nothing without an identifier;
/// else its identifier, sanitized title, space, tags, sanitized ancestor
/// titles and address.
pub fn page_data_for(page: &SearchResultItem, tags: Vec<String>, base_url: &str) -> (r: Option<PageData>)
    ensures
        page.id_spec() is None <==> r is None,
        r matches Some(d) ==> {
            &&& Some(d.id@) == page.id_spec()
            &&& d.title@ == strip_controls(html_decoded(page.title_spec()))
            &&& d.space@ == page.space_name_spec()
            &&& d.tags@ == tags@
            &&& texts(d.ancestors@) == ancestor_titles(page.content->0.ancestors@)
            &&& d.url@ == page_url_text(base_url@, d.id@)
        },
{
    let content = match &page.content {
        Some(c) => c,
        None => return None,
    };
    let id = match &content.id {
        Some(id) => id,
        None => return None,
    };
    let mut ancestors: Vec<String> = Vec::new();
    let mut i: usize = 0;
    proof {
        assert(texts(ancestors@) =~= ancestor_titles(content.ancestors@.take(0)));
    }
    while i < content.ancestors.len()
        invariant
            i <= content.ancestors@.len(),
            texts(ancestors@) == ancestor_titles(content.ancestors@.take(i as int)),
        decreases content.ancestors@.len() - i,
    {
        let ghost before = texts(ancestors@);
        proof {
            let pre = content.ancestors@.take(i as int + 1);
            assert(pre.drop_last() =~= content.ancestors@.take(i as int));
            assert(pre.last() == content.ancestors@[i as int]);
        }
        if let Some(t) = &content.ancestors[i].title {
            ancestors.push(sanitize_text(t.as_str()));
            proof {
                assert(texts(ancestors@) =~= before.push(strip_controls(html_decoded(t@))));
            }
        }
        i = i + 1;
    }
    proof {
        assert(content.ancestors@.take(content.ancestors@.len() as int) =~= content.ancestors@);
    }
    Some(PageData {
        id: String::from_str(id.as_str()),
        title: sanitize_text(page.display_title()),
        space: String::from_str(page.space_name()),
        tags,
        ancestors,
        url: page_url(base_url, id.as_str()),
    })
}

/// Each text comes strictly before the next.
pub open spec fn texts_strictly_sorted(s: Seq<Seq<char>>) -> bool {
    forall|i: int| 0 <= i < s.len() - 1 ==> text_lt(#[trigger] s[i], s[i + 1])
}

/// Some page carries the tag.
pub open spec fn tag_of_some_page(pages: Seq<PageData>, t: Seq<char>) -> bool {
    exists|i: int, k: int| 0 <= i < pages.len() && 0 <= k < pages[i].tags@.len() && #[trigger] pages[i].tags@[k]@ == t
}

/// Inserts a tag into a strictly sorted list unless it is already there.
#[verifier::rlimit(40)]
fn insert_tag(v: &mut Vec<String>, x: &String)
    requires
        texts_strictly_sorted(texts(old(v)@)),
    ensures
        texts_strictly_sorted(texts(final(v)@)),
        forall|t: Seq<char>| texts(final(v)@).contains(t) <==> (texts(old(v)@).contains(t) || t == x@),
{
    let ghost before = texts(v@);
    let mut j: usize = v.len();
    while j > 0 && text_less(x.as_str(), v[j - 1].as_str())
        invariant
            j <= v@.len(),
            texts(v@) == before,
            forall|k: int| j <= k < v@.len() ==> text_lt(x@, #[trigger] before[k]),
        decreases j,
    {
        proof {
            assert(before[j - 1] == v@[j - 1]@);
        }
        j = j - 1;
    }
    if j > 0 && text_eq(x.as_str(), v[j - 1].as_str()) {
        proof {
            assert(before[j - 1] == x@);
        }
        return;
    }
    proof {
        if j > 0 {
            assert(before[j - 1] == v@[j - 1]@);
            lemma_text_lt_total(x@, before[j - 1]);
        }
    }
    v.insert(j, String::from_str(x.as_str()));
    proof {
        let after = texts(v@);
        assert(after =~= before.insert(j as int, x@));
        assert forall|i: int| 0 <= i < after.len() - 1 implies text_lt(#[trigger] after[i], after[i + 1]) by {
            if i + 1 < j {
                assert(after[i] == before[i] && after[i + 1] == before[i + 1]);
            } else if i + 1 == j {
                assert(after[i] == before[i] && after[i + 1] == x@);
            } else if i == j {
                assert(after[i] == x@ && after[i + 1] == before[i]);
            } else {
                assert(after[i] == before[i - 1] && after[i + 1] == before[i]);
                let h = i - 1;
                assert(text_lt(before[h], before[h + 1]));
            }
        }
        assert forall|t: Seq<char>| after.contains(t) <==> (before.contains(t) || t == x@) by {
            if after.contains(t) {
                let k = choose|k: int| 0 <= k < after.len() && after[k] == t;
                if k < j {
                    assert(before[k] == t);
                } else if k > j {
                    assert(before[k - 1] == t);
                }
            }
            if before.contains(t) {
                let k = choose|k: int| 0 <= k < before.len() && before[k] == t;
                if k < j {
                    assert(after[k] == t);
                } else {
                    assert(after[k + 1] == t);
                }
            }
            if t == x@ {
                assert(after[j as int] == t);
            }
        }
    }
}

/// Every tag of the pages, once each, in lexicographic order.
#[verifier::rlimit(40)]
pub fn unique_sorted_tags(pages: &[PageData]) -> (r: Vec<String>)
    ensures
        texts_strictly_sorted(texts(r@)),
        forall|t: Seq<char>| texts(r@).contains(t) <==> tag_of_some_page(pages@, t),
{
    let mut out: Vec<String> = Vec::new();
    let mut i: usize = 0;
    proof {
        assert(texts(out@) =~= Seq::<Seq<char>>::empty());
    }
    while i < pages.len()
        invariant
            i <= pages@.len(),
            texts_strictly_sorted(texts(out@)),
            forall|t: Seq<char>| texts(out@).contains(t) <==> tag_of_some_page(pages@.take(i as int), t),
        decreases pages@.len() - i,
    {
        let tags = &pages[i].tags;
        let mut k: usize = 0;
        while k < tags.len()
            invariant
                i < pages@.len(),
                *tags == pages@[i as int].tags,
                k <= tags@.len(),
                texts_strictly_sorted(texts(out@)),
                forall|t: Seq<char>| texts(out@).contains(t) <==> (tag_of_some_page(pages@.take(i as int), t)
                    || exists|q: int| 0 <= q < k && #[trigger] tags@[q]@ == t),
            decreases tags@.len() - k,
        {
            let ghost before = texts(out@);
            let ghost ok = k as int;
            insert_tag(&mut out, &tags[k]);
            k = k + 1;
            proof {
                assert forall|t: Seq<char>| texts(out@).contains(t) <==> (tag_of_some_page(pages@.take(i as int), t)
                    || exists|q: int| 0 <= q < k && #[trigger] tags@[q]@ == t) by {
                    if exists|q: int| 0 <= q < k && #[trigger] tags@[q]@ == t {
                        let q = choose|q: int| 0 <= q < k && #[trigger] tags@[q]@ == t;
                        if q < ok {
                            assert(exists|q2: int| 0 <= q2 < ok && #[trigger] tags@[q2]@ == t);
                            assert(before.contains(t));
                        }
                    }
                    if before.contains(t) && !tag_of_some_page(pages@.take(i as int), t) {
                        let q = choose|q: int| 0 <= q < ok && #[trigger] tags@[q]@ == t;
                        assert(0 <= q < k && tags@[q]@ == t);
                    }
                    if t == tags@[ok]@ {
                        assert(0 <= ok < k && tags@[ok]@ == t);
                    }
                }
            }
        }
        i = i + 1;
        proof {
            let pre = pages@.take(i as int);
            assert forall|t: Seq<char>| texts(out@).contains(t) <==> tag_of_some_page(pre, t) by {
                if tag_of_some_page(pre, t) {
                    let (a, b) = choose|a: int, b: int| 0 <= a < pre.len() && 0 <= b < pre[a].tags@.len() && #[trigger] pre[a].tags@[b]@ == t;
                    if a < i - 1 {
                        assert(pages@.take(i as int - 1)[a] == pre[a]);
                        assert(pages@.take(i as int - 1)[a].tags@[b]@ == t);
                        assert(tag_of_some_page(pages@.take(i as int - 1), t));
                    } else {
                        assert(pre[a] == pages@[i as int - 1]);
                        assert(tags@[b]@ == t);
                    }
                }
                if tag_of_some_page(pages@.take(i as int - 1), t) {
                    let (a, b) = choose|a: int, b: int| 0 <= a < i - 1 && 0 <= b < pages@.take(i as int - 1)[a].tags@.len() && #[trigger] pages@.take(i as int - 1)[a].tags@[b]@ == t;
                    assert(pre[a] == pages@.take(i as int - 1)[a]);
                    assert(pre[a].tags@[b]@ == t);
                }
                if exists|q: int| 0 <= q < tags@.len() && #[trigger] tags@[q]@ == t {
                    let q = choose|q: int| 0 <= q < tags@.len() && #[trigger] tags@[q]@ == t;
                    assert(pre[i as int - 1] == pages@[i as int - 1]);
                    assert(pre[i as int - 1].tags@[q]@ == t);
                }
            }
        }
    }
    proof {
        assert(pages@.take(pages@.len() as int) =~= pages@);
    }
    out
}

} // verus!
