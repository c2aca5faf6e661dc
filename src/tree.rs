//! Pages rendered as a tree under their spaces, like the `tree` command.

use vstd::prelude::*;
use crate::pairs::texts;
use crate::render::{
    PageData, join, join_texts, link_text, page_url_text, tags_list_text, text_lt, text_less, lemma_text_lt_total,
    format_tags_list, make_page_clickable, format_space, format_directory,
};
use crate::text::text_eq;

verus! {

/// The place of a page in the tree: its space, its ancestors, its title.
pub open spec fn page_key(p: PageData) -> Seq<Seq<char>> {
    seq![p.space@] + texts(p.ancestors@) + seq![p.title@]
}

/// The keys of all pages.
pub open spec fn page_keys(pages: Seq<PageData>) -> Seq<Seq<Seq<char>>> {
    pages.map_values(|p: PageData| page_key(p))
}

/// A node of the tree: a non-empty prefix of some page's key.
pub open spec fn is_node(keys: Seq<Seq<Seq<char>>>, n: Seq<Seq<char>>) -> bool {
    exists|i: int, j: int| 0 <= i < keys.len() && 1 <= j <= keys[i].len() && n == #[trigger] keys[i].take(j)
}

/// Lexicographic order of node paths, component by component.
pub open spec fn path_lt(a: Seq<Seq<char>>, b: Seq<Seq<char>>) -> bool
    decreases a.len(),
{
    if a.len() == 0 {
        b.len() > 0
    } else if b.len() == 0 {
        false
    } else if a[0] != b[0] {
        text_lt(a[0], b[0])
    } else {
        path_lt(a.drop_first(), b.drop_first())
    }
}

/// Each node comes strictly before the next.
pub open spec fn strictly_sorted(s: Seq<Seq<Seq<char>>>) -> bool {
    forall|i: int| 0 <= i < s.len() - 1 ==> path_lt(#[trigger] s[i], s[i + 1])
}

/// No sibling of `n` (a node with the same parent) has a name after `n`'s.
pub open spec fn is_last_sibling(keys: Seq<Seq<Seq<char>>>, n: Seq<Seq<char>>) -> bool {
    !exists|m: Seq<Seq<char>>| #[trigger] is_node(keys, m) && m.len() == n.len()
        && m.take(m.len() - 1) == n.take(n.len() - 1) && text_lt(n.last(), m.last())
}

/// The indentation of the ancestors of `n` at depths 2 to `d - 1`.
pub open spec fn indent(keys: Seq<Seq<Seq<char>>>, n: Seq<Seq<char>>, d: int) -> Seq<char>
    decreases d,
{
    if d <= 2 {
        seq![]
    } else {
        indent(keys, n, d - 1) + if is_last_sibling(keys, n.take(d - 1)) { "    "@ } else { "│   "@ }
    }
}

/// Index of the last page whose key is `n`, if any.
pub open spec fn last_page_at(pages: Seq<PageData>, n: Seq<Seq<char>>) -> Option<int>
    decreases pages.len(),
{
    if pages.len() == 0 {
        None
    } else if page_key(pages.last()) == n {
        Some(pages.len() - 1)
    } else {
        last_page_at(pages.drop_last(), n)
    }
}

/// A node's name: a link with the page's tags where a page sits there,
/// else the name as a directory.
pub open spec fn node_label(pages: Seq<PageData>, n: Seq<Seq<char>>, base_url: Seq<char>) -> Seq<char> {
    match last_page_at(pages, n) {
        Some(i) => link_text(n.last(), page_url_text(base_url, pages[i].id@)) + " "@
            + tags_list_text(texts(pages[i].tags@)),
        None => "\x1b[1;34m"@ + n.last() + "\x1b[0m"@,
    }
}

/// The line of a node below a space.
pub open spec fn node_line(pages: Seq<PageData>, n: Seq<Seq<char>>, base_url: Seq<char>) -> Seq<char> {
    let keys = page_keys(pages);
    indent(keys, n, n.len() as int) + (if is_last_sibling(keys, n) { "└── "@ } else { "├── "@ })
        + node_label(pages, n, base_url)
}

/// The lines for nodes in the given order: a space's header (after a blank
/// line, but for the first), or a node's line.
pub open spec fn tree_lines(pages: Seq<PageData>, s: Seq<Seq<Seq<char>>>, base_url: Seq<char>) -> Seq<Seq<char>>
    decreases s.len(),
{
    if s.len() == 0 {
        seq![]
    } else {
        let prev = tree_lines(pages, s.drop_last(), base_url);
        let n = s.last();
        if n.len() == 1 {
            let header = "\x1b[1;36m"@ + n[0] + "\x1b[0m"@;
            if s.len() > 1 {
                prev + seq![seq![], header]
            } else {
                prev.push(header)
            }
        } else {
            prev.push(node_line(pages, n, base_url))
        }
    }
}

proof fn lemma_path_lt_total(a: Seq<Seq<char>>, b: Seq<Seq<char>>)
    ensures
        a != b ==> path_lt(a, b) || path_lt(b, a),
        path_lt(a, b) ==> !path_lt(b, a),
        !path_lt(a, a),
    decreases a.len(),
{
    if a.len() == 0 && b.len() == 0 {
        assert(a =~= b);
    }
    if a.len() > 0 && b.len() > 0 {
        lemma_text_lt_total(a[0], b[0]);
        if a[0] == b[0] {
            lemma_path_lt_total(a.drop_first(), b.drop_first());
            if a.drop_first() == b.drop_first() {
                assert(a =~= seq![a[0]] + a.drop_first());
                assert(b =~= seq![b[0]] + b.drop_first());
            }
        }
    }
    if a.len() > 0 {
        lemma_path_lt_total(a.drop_first(), a.drop_first());
    }
}

/// Texts of a list of paths.
pub open spec fn path_texts(v: Seq<Vec<String>>) -> Seq<Seq<Seq<char>>> {
    v.map_values(|n: Vec<String>| texts(n@))
}

/// Whether `a`'s path comes before `b`'s.
fn path_less(a: &Vec<String>, b: &Vec<String>) -> (r: bool)
    ensures
        r == path_lt(texts(a@), texts(b@)),
{
    let ghost ta = texts(a@);
    let ghost tb = texts(b@);
    let mut i: usize = 0;
    proof {
        assert(ta.skip(0) =~= ta);
        assert(tb.skip(0) =~= tb);
    }
    while i < a.len() && i < b.len()
        invariant
            ta == texts(a@),
            tb == texts(b@),
            i <= a@.len(),
            i <= b@.len(),
            path_lt(ta, tb) == path_lt(ta.skip(i as int), tb.skip(i as int)),
        decreases a@.len() - i,
    {
        proof {
            assert(ta.skip(i as int)[0] == a@[i as int]@);
            assert(tb.skip(i as int)[0] == b@[i as int]@);
        }
        if !text_eq(a[i].as_str(), b[i].as_str()) {
            return text_less(a[i].as_str(), b[i].as_str());
        }
        proof {
            assert(ta.skip(i as int).drop_first() =~= ta.skip(i as int + 1));
            assert(tb.skip(i as int).drop_first() =~= tb.skip(i as int + 1));
        }
        i = i + 1;
    }
    i == a.len() && i < b.len()
}

/// Whether two paths are equal.
fn path_equal(a: &Vec<String>, b: &Vec<String>) -> (r: bool)
    ensures
        r == (texts(a@) == texts(b@)),
{
    if a.len() != b.len() {
        proof {
            assert(texts(a@).len() != texts(b@).len());
        }
        return false;
    }
    let mut i: usize = 0;
    while i < a.len()
        invariant
            a@.len() == b@.len(),
            i <= a@.len(),
            forall|k: int| 0 <= k < i ==> a@[k]@ == b@[k]@,
        decreases a@.len() - i,
    {
        if !text_eq(a[i].as_str(), b[i].as_str()) {
            proof {
                assert(texts(a@)[i as int] != texts(b@)[i as int]);
            }
            return false;
        }
        i = i + 1;
    }
    proof {
        assert(texts(a@) =~= texts(b@));
    }
    true
}

/// A copy of the first `j` components of a path.
fn path_prefix(p: &Vec<String>, j: usize) -> (r: Vec<String>)
    requires
        j <= p@.len(),
    ensures
        texts(r@) == texts(p@).take(j as int),
{
    let mut out: Vec<String> = Vec::new();
    let mut k: usize = 0;
    while k < j
        invariant
            k <= j,
            j <= p@.len(),
            texts(out@) == texts(p@).take(k as int),
        decreases j - k,
    {
        let ghost before = texts(out@);
        out.push(String::from_str(p[k].as_str()));
        proof {
            assert(texts(out@) =~= before.push(p@[k as int]@));
            assert(texts(out@) =~= texts(p@).take(k as int + 1));
        }
        k = k + 1;
    }
    out
}

/// Inserts a path into a strictly sorted list unless it is already there.
#[verifier::rlimit(40)]
fn insert_node(v: &mut Vec<Vec<String>>, x: Vec<String>)
    requires
        strictly_sorted(path_texts(old(v)@)),
    ensures
        strictly_sorted(path_texts(final(v)@)),
        forall|n: Seq<Seq<char>>| path_texts(final(v)@).contains(n) <==> (path_texts(old(v)@).contains(n)
            || n == texts(x@)),
{
    let ghost before = path_texts(v@);
    let ghost xv = texts(x@);
    let mut j: usize = v.len();
    while j > 0 && path_less(&x, &v[j - 1])
        invariant
            j <= v@.len(),
            xv == texts(x@),
            path_texts(v@) == before,
            forall|k: int| j <= k < v@.len() ==> path_lt(xv, #[trigger] before[k]),
        decreases j,
    {
        proof {
            assert(before[j - 1] == texts(v@[j - 1]@));
        }
        j = j - 1;
    }
    if j > 0 && path_equal(&x, &v[j - 1]) {
        proof {
            assert(before[j - 1] == xv);
        }
        return;
    }
    proof {
        if j > 0 {
            assert(before[j - 1] == texts(v@[j - 1]@));
            assert(!path_lt(xv, before[j - 1]));
            assert(xv != before[j - 1]);
            lemma_path_lt_total(xv, before[j - 1]);
        }
    }
    v.insert(j, x);
    proof {
        let after = path_texts(v@);
        assert(after =~= before.insert(j as int, xv));
        assert forall|i: int| 0 <= i < after.len() - 1 implies path_lt(#[trigger] after[i], after[i + 1]) by {
            if i + 1 < j {
                assert(after[i] == before[i] && after[i + 1] == before[i + 1]);
            } else if i + 1 == j {
                assert(after[i] == before[i] && after[i + 1] == xv);
            } else if i == j {
                assert(after[i] == xv && after[i + 1] == before[i]);
            } else {
                assert(after[i] == before[i - 1] && after[i + 1] == before[i]);
                let h = i - 1;
                assert(path_lt(before[h], before[h + 1]));
            }
        }
        assert forall|n: Seq<Seq<char>>| after.contains(n) <==> (before.contains(n) || n == xv) by {
            if after.contains(n) {
                let k = choose|k: int| 0 <= k < after.len() && after[k] == n;
                if k < j {
                    assert(before[k] == n);
                } else if k > j {
                    assert(before[k - 1] == n);
                }
            }
            if before.contains(n) {
                let k = choose|k: int| 0 <= k < before.len() && before[k] == n;
                if k < j {
                    assert(after[k] == n);
                } else {
                    assert(after[k + 1] == n);
                }
            }
            if n == xv {
                assert(after[j as int] == n);
            }
        }
    }
}

/// A node that is a prefix of one of the first `i` keys.
pub open spec fn node_of_first(keys: Seq<Seq<Seq<char>>>, i: int, n: Seq<Seq<char>>) -> bool {
    exists|a: int, b: int| 0 <= a < i && 1 <= b <= keys[a].len() && n == #[trigger] keys[a].take(b)
}

/// The key of a page.
fn key_of(p: &PageData) -> (r: Vec<String>)
    ensures
        texts(r@) == page_key(*p),
{
    let mut key: Vec<String> = Vec::new();
    key.push(String::from_str(p.space.as_str()));
    let mut i: usize = 0;
    while i < p.ancestors.len()
        invariant
            i <= p.ancestors@.len(),
            texts(key@) == seq![p.space@] + texts(p.ancestors@).take(i as int),
        decreases p.ancestors@.len() - i,
    {
        let ghost before = texts(key@);
        key.push(String::from_str(p.ancestors[i].as_str()));
        proof {
            assert(texts(key@) =~= before.push(p.ancestors@[i as int]@));
            assert(texts(key@) =~= seq![p.space@] + texts(p.ancestors@).take(i as int + 1));
        }
        i = i + 1;
    }
    let ghost before = texts(key@);
    key.push(String::from_str(p.title.as_str()));
    proof {
        assert(texts(key@) =~= before.push(p.title@));
        assert(texts(p.ancestors@).take(p.ancestors@.len() as int) =~= texts(p.ancestors@));
        assert(texts(key@) =~= page_key(*p));
    }
    key
}

/// Whether `m` and `n` are paths of the same length below the same parent.
fn same_parent(m: &Vec<String>, n: &Vec<String>) -> (r: bool)
    requires
        n@.len() >= 1,
    ensures
        r == (texts(m@).len() == texts(n@).len()
            && texts(m@).take(texts(m@).len() - 1) == texts(n@).take(texts(n@).len() - 1)),
{
    if m.len() != n.len() {
        return false;
    }
    let last = n.len() - 1;
    let mut i: usize = 0;
    while i < last
        invariant
            m@.len() == n@.len(),
            last == n@.len() - 1,
            i <= last,
            forall|k: int| 0 <= k < i ==> m@[k]@ == n@[k]@,
        decreases last - i,
    {
        if !text_eq(m[i].as_str(), n[i].as_str()) {
            proof {
                assert(texts(m@).take(last as int)[i as int] != texts(n@).take(last as int)[i as int]);
            }
            return false;
        }
        i = i + 1;
    }
    proof {
        assert(texts(m@).take(last as int) =~= texts(n@).take(last as int));
    }
    true
}

/// Whether no sibling of `n` among the nodes has a later name.
fn last_sibling(v: &Vec<Vec<String>>, n: &Vec<String>, Ghost(keys): Ghost<Seq<Seq<Seq<char>>>>) -> (r: bool)
    requires
        n@.len() >= 1,
        forall|m: Seq<Seq<char>>| path_texts(v@).contains(m) <==> is_node(keys, m),
    ensures
        r == is_last_sibling(keys, texts(n@)),
{
    let nl = n.len() - 1;
    let mut k: usize = 0;
    while k < v.len()
        invariant
            nl == n@.len() - 1,
            k <= v@.len(),
            forall|m: Seq<Seq<char>>| path_texts(v@).contains(m) <==> is_node(keys, m),
            forall|q: int| 0 <= q < k ==> !({
                let m = #[trigger] path_texts(v@)[q];
                m.len() == texts(n@).len() && m.take(m.len() - 1) == texts(n@).take(texts(n@).len() - 1)
                    && text_lt(texts(n@).last(), m.last())
            }),
        decreases v@.len() - k,
    {
        let m = &v[k];
        proof {
            assert(path_texts(v@)[k as int] == texts(m@));
        }
        if same_parent(m, n) {
            proof {
                assert(texts(m@).last() == m@[nl as int]@);
                assert(texts(n@).last() == n@[nl as int]@);
            }
            if text_less(n[nl].as_str(), m[nl].as_str()) {
                proof {
                    let mv = texts(m@);
                    assert(path_texts(v@).contains(mv));
                    assert(is_node(keys, mv));
                }
                return false;
            }
        }
        k = k + 1;
    }
    proof {
        let nv = texts(n@);
        assert forall|m: Seq<Seq<char>>| !(#[trigger] is_node(keys, m) && m.len() == nv.len()
            && m.take(m.len() - 1) == nv.take(nv.len() - 1) && text_lt(nv.last(), m.last())) by {
            if is_node(keys, m) {
                assert(path_texts(v@).contains(m));
                let q = choose|q: int| 0 <= q < path_texts(v@).len() && path_texts(v@)[q] == m;
            }
        }
    }
    true
}

/// Index of the last page whose key is `node`.
fn last_page_index(keys_exec: &Vec<Vec<String>>, node: &Vec<String>, Ghost(pages): Ghost<Seq<PageData>>) -> (r: Option<usize>)
    requires
        keys_exec@.len() == pages.len(),
        forall|i: int| 0 <= i < pages.len() ==> texts(#[trigger] keys_exec@[i]@) == page_key(pages[i]),
    ensures
        r matches Some(i) ==> last_page_at(pages, texts(node@)) == Some(i as int) && i < pages.len(),
        r is None ==> last_page_at(pages, texts(node@)) is None,
{
    let mut found: Option<usize> = None;
    let mut i: usize = 0;
    while i < keys_exec.len()
        invariant
            i <= keys_exec@.len(),
            keys_exec@.len() == pages.len(),
            forall|i: int| 0 <= i < pages.len() ==> texts(#[trigger] keys_exec@[i]@) == page_key(pages[i]),
            found matches Some(f) ==> last_page_at(pages.take(i as int), texts(node@)) == Some(f as int) && f < i,
            found is None ==> last_page_at(pages.take(i as int), texts(node@)) is None,
        decreases keys_exec@.len() - i,
    {
        proof {
            let pre = pages.take(i as int + 1);
            assert(pre.drop_last() =~= pages.take(i as int));
            assert(pre.last() == pages[i as int]);
        }
        if path_equal(&keys_exec[i], node) {
            found = Some(i);
        }
        i = i + 1;
    }
    proof {
        assert(pages.take(pages.len() as int) =~= pages);
    }
    found
}

/// Formats pages as a tree under their spaces: each space's header, then
/// its nodes in name order, each with `├── ` or `└── ` (the last of its
/// siblings) after the indentation of its ancestors; a node where a page
/// sits links to that page and lists its tags.
#[verifier::rlimit(60)]
pub fn format_as_tree(page_data: &[PageData], base_url: &str) -> (r: String)
    ensures
        exists|s: Seq<Seq<Seq<char>>>| {
            &&& strictly_sorted(s)
            &&& (forall|n: Seq<Seq<char>>| s.contains(n) <==> is_node(page_keys(page_data@), n))
            &&& r@ == join(tree_lines(page_data@, s, base_url@), "\n"@)
        },
{
    let ghost pages = page_data@;
    let ghost keys = page_keys(pages);
    let mut keys_exec: Vec<Vec<String>> = Vec::new();
    let mut nodes: Vec<Vec<String>> = Vec::new();
    let mut i: usize = 0;
    proof {
        assert(path_texts(nodes@) =~= Seq::<Seq<Seq<char>>>::empty());
    }
    while i < page_data.len()
        invariant
            i <= page_data@.len(),
            pages == page_data@,
            keys == page_keys(pages),
            keys_exec@.len() == i,
            forall|a: int| 0 <= a < i ==> texts(#[trigger] keys_exec@[a]@) == page_key(pages[a]),
            strictly_sorted(path_texts(nodes@)),
            forall|n: Seq<Seq<char>>| path_texts(nodes@).contains(n) <==> node_of_first(keys, i as int, n),
        decreases page_data@.len() - i,
    {
        let key = key_of(&page_data[i]);
        proof {
            assert(keys[i as int] == texts(key@));
        }
        let mut j: usize = 0;
        while j < key.len()
            invariant
                j <= key@.len(),
                i < pages.len(),
                keys == page_keys(pages),
                keys[i as int] == texts(key@),
                strictly_sorted(path_texts(nodes@)),
                forall|n: Seq<Seq<char>>| path_texts(nodes@).contains(n) <==> (node_of_first(keys, i as int, n)
                    || exists|b: int| 1 <= b <= j && n == #[trigger] keys[i as int].take(b)),
            decreases key@.len() - j,
        {
            let prefix = path_prefix(&key, j + 1);
            let ghost pv = texts(prefix@);
            let ghost old_nodes = path_texts(nodes@);
            let ghost oj = j as int;
            insert_node(&mut nodes, prefix);
            j = j + 1;
            proof {
                assert(pv == keys[i as int].take(j as int));
                assert forall|n: Seq<Seq<char>>| path_texts(nodes@).contains(n) implies (node_of_first(keys, i as int, n)
                    || exists|b: int| 1 <= b <= j && n == #[trigger] keys[i as int].take(b)) by {
                    if old_nodes.contains(n) {
                        if !node_of_first(keys, i as int, n) {
                            let b = choose|b: int| 1 <= b <= oj && n == #[trigger] keys[i as int].take(b);
                            assert(1 <= b <= j && n == keys[i as int].take(b));
                        }
                    } else {
                        assert(n == pv);
                        assert(n == keys[i as int].take(j as int));
                    }
                }
                assert forall|n: Seq<Seq<char>>| (node_of_first(keys, i as int, n)
                    || exists|b: int| 1 <= b <= j && n == #[trigger] keys[i as int].take(b)) implies path_texts(nodes@).contains(n) by {
                    if !node_of_first(keys, i as int, n) {
                        let b = choose|b: int| 1 <= b <= j && n == #[trigger] keys[i as int].take(b);
                        if b == j {
                            assert(n == pv);
                        } else {
                            assert(exists|b2: int| 1 <= b2 <= oj && n == #[trigger] keys[i as int].take(b2));
                            assert(old_nodes.contains(n));
                        }
                    } else {
                        assert(old_nodes.contains(n));
                    }
                }
            }
        }
        proof {
            assert forall|n: Seq<Seq<char>>| path_texts(nodes@).contains(n) <==> node_of_first(keys, i as int + 1, n) by {
                if node_of_first(keys, i as int + 1, n) {
                    let (a, b) = choose|a: int, b: int| 0 <= a < i + 1 && 1 <= b <= keys[a].len() && n == #[trigger] keys[a].take(b);
                    if a < i {
                        assert(node_of_first(keys, i as int, n));
                    } else {
                        assert(n == keys[i as int].take(b));
                    }
                }
                if node_of_first(keys, i as int, n) {
                    let (a, b) = choose|a: int, b: int| 0 <= a < i && 1 <= b <= keys[a].len() && n == #[trigger] keys[a].take(b);
                    assert(n == keys[a].take(b));
                }
                if exists|b: int| 1 <= b <= j && n == #[trigger] keys[i as int].take(b) {
                    let b = choose|b: int| 1 <= b <= j && n == #[trigger] keys[i as int].take(b);
                    assert(n == keys[i as int].take(b));
                }
            }
        }
        keys_exec.push(key);
        i = i + 1;
    }
    proof {
        assert forall|n: Seq<Seq<char>>| path_texts(nodes@).contains(n) <==> is_node(keys, n) by {
            if is_node(keys, n) {
                let (a, b) = choose|a: int, b: int| 0 <= a < keys.len() && 1 <= b <= keys[a].len() && n == #[trigger] keys[a].take(b);
                assert(node_of_first(keys, pages.len() as int, n));
            }
            if node_of_first(keys, pages.len() as int, n) {
                let (a, b) = choose|a: int, b: int| 0 <= a < pages.len() && 1 <= b <= keys[a].len() && n == #[trigger] keys[a].take(b);
                assert(is_node(keys, n));
            }
        }
    }
    let ghost s = path_texts(nodes@);
    proof {
        assert forall|q: int| 0 <= q < s.len() implies (#[trigger] s[q]).len() >= 1 by {
            assert(s.contains(s[q]));
            assert(is_node(keys, s[q]));
            let (a, b) = choose|a: int, b: int| 0 <= a < keys.len() && 1 <= b <= keys[a].len() && s[q] == #[trigger] keys[a].take(b);
        }
    }
    let mut lines: Vec<String> = Vec::new();
    let mut k: usize = 0;
    proof {
        assert(s.take(0) =~= Seq::<Seq<Seq<char>>>::empty());
        assert(texts(lines@) =~= Seq::<Seq<char>>::empty());
    }
    while k < nodes.len()
        invariant
            k <= nodes@.len(),
            s == path_texts(nodes@),
            pages == page_data@,
            keys == page_keys(pages),
            keys_exec@.len() == pages.len(),
            forall|a: int| 0 <= a < pages.len() ==> texts(#[trigger] keys_exec@[a]@) == page_key(pages[a]),
            forall|n: Seq<Seq<char>>| s.contains(n) <==> is_node(keys, n),
            forall|q: int| 0 <= q < s.len() ==> (#[trigger] s[q]).len() >= 1,
            texts(lines@) == tree_lines(pages, s.take(k as int), base_url@),
        decreases nodes@.len() - k,
    {
        let node = &nodes[k];
        let ghost nv = texts(node@);
        proof {
            assert(s[k as int] == nv);
            let pre = s.take(k as int + 1);
            assert(pre.drop_last() =~= s.take(k as int));
            assert(pre.last() == nv);
        }
        let ghost before = texts(lines@);
        if node.len() == 1 {
            let header = format_space(node[0].as_str());
            proof {
                assert(nv[0] == node@[0]@);
            }
            if k > 0 {
                lines.push(String::new());
                lines.push(header);
                proof {
                    assert(texts(lines@) =~= before + seq![Seq::<char>::empty(), "\x1b[1;36m"@ + nv[0] + "\x1b[0m"@]);
                }
            } else {
                lines.push(header);
                proof {
                    assert(texts(lines@) =~= before.push("\x1b[1;36m"@ + nv[0] + "\x1b[0m"@));
                }
            }
        } else {
            let depth = node.len();
            let mut line = String::new();
            let mut d: usize = 2;
            while d < depth
                invariant
                    2 <= d <= depth,
                    depth == nv.len(),
                    nv == texts(node@),
                    forall|n: Seq<Seq<char>>| path_texts(nodes@).contains(n) <==> is_node(keys, n),
                    line@ == indent(keys, nv, d as int),
                decreases depth - d,
            {
                let parent = path_prefix(node, d);
                proof {
                    assert(texts(parent@).len() == parent@.len());
                }
                let last = last_sibling(&nodes, &parent, Ghost(keys));
                if last {
                    line.append("    ");
                } else {
                    line.append("│   ");
                }
                d = d + 1;
            }
            let last_here = last_sibling(&nodes, node, Ghost(keys));
            if last_here {
                line.append("└── ");
            } else {
                line.append("├── ");
            }
            let name = node[depth - 1].as_str();
            proof {
                assert(nv.last() == name@);
                assert(nv.take(nv.len() as int) =~= nv);
            }
            match last_page_index(&keys_exec, node, Ghost(pages)) {
                Some(pi) => {
                    let link = make_page_clickable(name, page_data[pi].id.as_str(), base_url);
                    line.append(link.as_str());
                    line.append(" ");
                    let tags = format_tags_list(&page_data[pi].tags);
                    line.append(tags.as_str());
                },
                None => {
                    let dir = format_directory(name);
                    line.append(dir.as_str());
                },
            }
            proof {
                assert(line@ =~= node_line(pages, nv, base_url@));
            }
            lines.push(line);
            proof {
                assert(texts(lines@) =~= before.push(node_line(pages, nv, base_url@)));
            }
        }
        k = k + 1;
    }
    proof {
        assert(s.take(nodes@.len() as int) =~= s);
    }
    join_texts(&lines, "\n")
}

} // verus!
