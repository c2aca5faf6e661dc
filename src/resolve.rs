//! Tag resolution: which labels an operation adds, removes or swaps on one page.

use vstd::prelude::*;
use crate::pattern::{
    TagPattern, sources, matches_any, is_first_match, first_match_from, matching_tags,
    first_match, matches_any_pattern, lemma_first_match,
};

verus! {

/// An old→new tag mapping, as plain text.
pub type TagMapping = Seq<(Seq<char>, Seq<char>)>;

/// Some pair of the mapping has `key` as its old tag.
pub open spec fn has_key(m: TagMapping, key: Seq<char>) -> bool {
    exists|i: int| 0 <= i < m.len() && (#[trigger] m[i]).0 == key
}

/// No two pairs of the mapping share an old tag.
pub open spec fn keys_unique(m: TagMapping) -> bool {
    forall|i: int, j: int| 0 <= i < j < m.len() ==> (#[trigger] m[i]).0 != (#[trigger] m[j]).0
}

/// The source patterns of regex replacement rules.
pub open spec fn rule_patterns(rules: Seq<(TagPattern, String)>) -> Seq<Seq<char>> {
    rules.map_values(|r: (TagPattern, String)| r.0@)
}

/// The replacement tags of regex replacement rules.
pub open spec fn rule_targets(rules: Seq<(TagPattern, String)>) -> Seq<Seq<char>> {
    rules.map_values(|r: (TagPattern, String)| r.1@)
}

/// For each tag, in order and once, the replacement of the first rule
/// whose pattern matches it; tags that no pattern matches are left out.
pub open spec fn regex_replacements(
    tags: Seq<Seq<char>>,
    pats: Seq<Seq<char>>,
    targets: Seq<Seq<char>>,
) -> TagMapping
    decreases tags.len(),
{
    if tags.len() == 0 {
        seq![]
    } else {
        let prev = regex_replacements(tags.drop_last(), pats, targets);
        let t = tags.last();
        if has_key(prev, t) {
            prev
        } else {
            match first_match_from(pats, t, 0) {
                Some(j) => prev.push((t, targets[j])),
                None => prev,
            }
        }
    }
}

/// The pairs of a literal mapping whose old tag the page carries.
pub open spec fn present_pairs(mapping: TagMapping, current: Seq<Seq<char>>) -> TagMapping {
    mapping.filter(|p: (Seq<char>, Seq<char>)| current.contains(p.0))
}

/// The tags, among `tags`, that some pattern matches, in their order.
pub fn filter_tags_by_regex(tags: Vec<String>, regexes: &[TagPattern]) -> (r: Vec<String>)
    ensures
        r.deep_view() == matching_tags(tags.deep_view(), sources(regexes@)),
{
    let ghost pats = sources(regexes@);
    let ghost all = tags.deep_view();
    let mut out: Vec<String> = Vec::new();
    let mut i: usize = 0;
    while i < tags.len()
        invariant
            i <= tags@.len(),
            all == tags.deep_view(),
            pats == sources(regexes@),
            out.deep_view() == matching_tags(all.take(i as int), pats),
        decreases tags@.len() - i,
    {
        let hit = matches_any_pattern(regexes, tags[i].as_str());
        proof {
            let pre = all.take(i as int + 1);
            assert(pre.drop_last() =~= all.take(i as int));
            assert(pre.last() == tags@[i as int]@);
            reveal(Seq::filter);
        }
        if hit {
            out.push(tags[i].clone());
            proof {
                assert(out.deep_view() =~= matching_tags(all.take(i as int), pats).push(tags@[i as int]@));
            }
        }
        i = i + 1;
    }
    proof {
        assert(all.take(tags@.len() as int) =~= all);
    }
    out
}

/// Whether some pair of `m` has old tag `key`.
fn mapping_has_key(m: &Vec<(String, String)>, key: &String) -> (r: bool)
    ensures
        r == has_key(m.deep_view(), key@),
{
    let mut i: usize = 0;
    while i < m.len()
        invariant
            i <= m@.len(),
            forall|k: int| 0 <= k < i ==> (#[trigger] m.deep_view()[k]).0 != key@,
        decreases m@.len() - i,
    {
        if m[i].0 == *key {
            assert(m.deep_view()[i as int].0 == key@);
            return true;
        }
        i = i + 1;
    }
    false
}

proof fn lemma_rule_flags(rules: Seq<(TagPattern, String)>, flags: Seq<bool>, tag: Seq<char>, found: Option<usize>)
    requires
        flags.len() == rules.len(),
        forall|j: int| 0 <= j < rules.len() ==> flags[j] == crate::pattern::regex_is_match(#[trigger] rules[j].0@, tag),
        found matches Some(j) ==> j < flags.len() && flags[j as int]
            && forall|k: int| 0 <= k < j ==> !flags[k],
        found is None ==> forall|k: int| 0 <= k < flags.len() ==> !flags[k],
    ensures
        first_match_from(rule_patterns(rules), tag, 0) == match found {
            Some(j) => Some(j as int),
            None => None::<int>,
        },
{
    let pats = rule_patterns(rules);
    lemma_first_match(pats, tag);
    if let Some(j) = found {
        assert(is_first_match(pats, tag, j as int));
        if let Some(m) = first_match_from(pats, tag, 0) {
            assert(is_first_match(pats, tag, m));
            if m < j {
                assert(!flags[m]);
            } else if m > j {
                assert(!crate::pattern::regex_is_match(pats[j as int], tag));
            }
        } else {
            assert(crate::pattern::regex_is_match(pats[j as int], tag));
        }
    } else {
        if let Some(m) = first_match_from(pats, tag, 0) {
            assert(is_first_match(pats, tag, m));
            assert(!flags[m]);
        }
    }
}

/// Flags, per rule, whether its pattern matches `tag`.
fn rule_flags(rules: &[(TagPattern, String)], tag: &str) -> (r: Vec<bool>)
    ensures
        r@.len() == rules@.len(),
        forall|j: int| 0 <= j < rules@.len() ==> r@[j] == crate::pattern::regex_is_match(#[trigger] rules@[j].0@, tag@),
{
    let mut flags: Vec<bool> = Vec::new();
    let mut j: usize = 0;
    while j < rules.len()
        invariant
            j <= rules@.len(),
            flags@.len() == j,
            forall|k: int| 0 <= k < j ==> flags@[k] == crate::pattern::regex_is_match(#[trigger] rules@[k].0@, tag@),
        decreases rules@.len() - j,
    {
        let hit = rules[j].0.is_match(tag);
        flags.push(hit);
        j = j + 1;
    }
    flags
}

/// For each tag the replacement of the first rule whose pattern matches it.
pub fn compute_replacements_by_regex(tags: Vec<String>, regex_pairs: &[(TagPattern, String)]) -> (r: Vec<(String, String)>)
    ensures
        r.deep_view() == regex_replacements(tags.deep_view(), rule_patterns(regex_pairs@), rule_targets(regex_pairs@)),
{
    let ghost pats = rule_patterns(regex_pairs@);
    let ghost targets = rule_targets(regex_pairs@);
    let ghost all = tags.deep_view();
    let mut out: Vec<(String, String)> = Vec::new();
    let mut i: usize = 0;
    while i < tags.len()
        invariant
            i <= tags@.len(),
            all == tags.deep_view(),
            pats == rule_patterns(regex_pairs@),
            targets == rule_targets(regex_pairs@),
            out.deep_view() == regex_replacements(all.take(i as int), pats, targets),
        decreases tags@.len() - i,
    {
        let tag = &tags[i];
        proof {
            let pre = all.take(i as int + 1);
            assert(pre.drop_last() =~= all.take(i as int));
            assert(pre.last() == tag@);
        }
        if !mapping_has_key(&out, tag) {
            let flags = rule_flags(regex_pairs, tag.as_str());
            let found = first_match(flags.as_slice());
            proof {
                lemma_rule_flags(regex_pairs@, flags@, tag@, found);
            }
            if let Some(j) = found {
                let target = regex_pairs[j].1.clone();
                out.push((tag.clone(), target));
                proof {
                    assert(out.deep_view() =~= regex_replacements(all.take(i as int), pats, targets).push((tag@, targets[j as int])));
                }
            }
        }
        i = i + 1;
    }
    proof {
        assert(all.take(tags@.len() as int) =~= all);
    }
    out
}

/// A regex removal selects exactly the page's tags that some pattern
/// matches: a tag is in the delta if and only if the page carries it and
/// at least one pattern finds a match in it.
pub proof fn lemma_regex_remove_selects(tags: Seq<Seq<char>>, pats: Seq<Seq<char>>)
    ensures
        forall|t: Seq<char>| #[trigger] matching_tags(tags, pats).contains(t)
            <==> (tags.contains(t) && matches_any(pats, t)),
{
    let pred = |t: Seq<char>| matches_any(pats, t);
    assert forall|t: Seq<char>| #[trigger] matching_tags(tags, pats).contains(t)
        <==> (tags.contains(t) && matches_any(pats, t)) by {
        if matching_tags(tags, pats).contains(t) {
            tags.lemma_filter_contains_rev(pred, t);
            let i = choose|i: int| 0 <= i < tags.filter(pred).len() && tags.filter(pred)[i] == t;
            tags.lemma_filter_pred(pred, i);
        }
        if tags.contains(t) && matches_any(pats, t) {
            let i = choose|i: int| 0 <= i < tags.len() && tags[i] == t;
            tags.lemma_filter_contains(pred, i);
        }
    }
}

/// Regex replacement gives each tag at most one replacement: the mapping
/// has one pair per matched tag, every old tag is one of the page's tags,
/// its replacement is that of the first pattern in list order that matches
/// it, and every tag that some pattern matches gets a pair.
pub proof fn lemma_regex_replace_first_match(
    tags: Seq<Seq<char>>,
    pats: Seq<Seq<char>>,
    targets: Seq<Seq<char>>,
)
    ensures
        keys_unique(regex_replacements(tags, pats, targets)),
        forall|i: int| 0 <= i < regex_replacements(tags, pats, targets).len() ==> {
            let pair = #[trigger] regex_replacements(tags, pats, targets)[i];
            &&& tags.contains(pair.0)
            &&& exists|j: int| is_first_match(pats, pair.0, j) && pair.1 == targets[j]
        },
        forall|k: int| 0 <= k < tags.len() && matches_any(pats, #[trigger] tags[k])
            ==> has_key(regex_replacements(tags, pats, targets), tags[k]),
    decreases tags.len(),
{
    if tags.len() > 0 {
        let rest = tags.drop_last();
        let t = tags.last();
        lemma_regex_replace_first_match(rest, pats, targets);
        let prev = regex_replacements(rest, pats, targets);
        let r = regex_replacements(tags, pats, targets);
        lemma_first_match(pats, t);
        assert forall|i: int| 0 <= i < prev.len() implies tags.contains(#[trigger] prev[i].0) by {
            let k = choose|k: int| 0 <= k < rest.len() && rest[k] == prev[i].0;
            assert(tags[k] == rest[k]);
        }
        if !has_key(prev, t) {
            if let Some(j) = first_match_from(pats, t, 0) {
                assert(r == prev.push((t, targets[j])));
                assert(tags[tags.len() - 1] == t);
                assert(r[prev.len() as int].0 == t);
                assert(is_first_match(pats, t, j));
                assert forall|a: int, b: int| 0 <= a < b < r.len() implies (#[trigger] r[a]).0 != (#[trigger] r[b]).0 by {
                    if b == prev.len() {
                        assert(prev[a].0 != t);
                    } else {
                        assert(prev[a].0 != prev[b].0);
                    }
                }
                assert forall|k: int| 0 <= k < tags.len() && matches_any(pats, #[trigger] tags[k])
                    implies has_key(r, tags[k]) by {
                    if k < rest.len() {
                        assert(rest[k] == tags[k]);
                        let i = choose|i: int| 0 <= i < prev.len() && prev[i].0 == tags[k];
                        assert(r[i] == prev[i]);
                    } else {
                        assert(r[prev.len() as int].0 == tags[k]);
                    }
                }
            } else {
                assert forall|k: int| 0 <= k < tags.len() && matches_any(pats, #[trigger] tags[k])
                    implies has_key(r, tags[k]) by {
                    if k < rest.len() {
                        assert(rest[k] == tags[k]);
                    }
                }
            }
        } else {
            assert forall|k: int| 0 <= k < tags.len() && matches_any(pats, #[trigger] tags[k])
                implies has_key(r, tags[k]) by {
                if k < rest.len() {
                    assert(rest[k] == tags[k]);
                }
            }
        }
    }
}

/// A copy of a list of tags.
pub fn copy_tags(tags: &Vec<String>) -> (r: Vec<String>)
    ensures
        r.deep_view() == tags.deep_view(),
{
    let mut out: Vec<String> = Vec::new();
    let mut i: usize = 0;
    while i < tags.len()
        invariant
            i <= tags@.len(),
            out.deep_view() == tags.deep_view().take(i as int),
        decreases tags@.len() - i,
    {
        let s = String::from_str(tags[i].as_str());
        let ghost before = out.deep_view();
        out.push(s);
        proof {
            assert(out.deep_view() =~= before.push(tags@[i as int]@));
            assert(out.deep_view() =~= tags.deep_view().take(i as int + 1));
        }
        i = i + 1;
    }
    proof {
        assert(tags.deep_view().take(tags@.len() as int) =~= tags.deep_view());
    }
    out
}

/// Whether `tags` holds `tag`.
pub fn contains_tag(tags: &Vec<String>, tag: &String) -> (r: bool)
    ensures
        r == tags.deep_view().contains(tag@),
{
    let mut i: usize = 0;
    while i < tags.len()
        invariant
            i <= tags@.len(),
            forall|k: int| 0 <= k < i ==> tags.deep_view()[k] != tag@,
        decreases tags@.len() - i,
    {
        if tags[i] == *tag {
            assert(tags.deep_view()[i as int] == tag@);
            return true;
        }
        i = i + 1;
    }
    false
}

/// The pairs of a literal mapping whose old tag is among `current`, in order.
pub fn present_replacements(mapping: &Vec<(String, String)>, current: &Vec<String>) -> (r: Vec<(String, String)>)
    ensures
        r.deep_view() == present_pairs(mapping.deep_view(), current.deep_view()),
{
    let ghost all = mapping.deep_view();
    let mut out: Vec<(String, String)> = Vec::new();
    let mut i: usize = 0;
    while i < mapping.len()
        invariant
            i <= mapping@.len(),
            all == mapping.deep_view(),
            out.deep_view() == present_pairs(all.take(i as int), current.deep_view()),
        decreases mapping@.len() - i,
    {
        let present = contains_tag(current, &mapping[i].0);
        proof {
            let pre = all.take(i as int + 1);
            assert(pre.drop_last() =~= all.take(i as int));
            assert(pre.last() == mapping.deep_view()[i as int]);
            reveal(Seq::filter);
        }
        if present {
            let old = String::from_str(mapping[i].0.as_str());
            let new = String::from_str(mapping[i].1.as_str());
            out.push((old, new));
            proof {
                assert(out.deep_view() =~= present_pairs(all.take(i as int), current.deep_view()).push(all[i as int]));
            }
        }
        i = i + 1;
    }
    proof {
        assert(all.take(mapping@.len() as int) =~= all);
    }
    out
}

/// What to do to one page's tags.
pub enum TagOperation {
    /// Add these tags.
    Add(Vec<String>),
    /// Remove these tags.
    Remove(Vec<String>),
    /// Remove the page's tags that any of these patterns matches.
    RemoveMatching(Vec<TagPattern>),
    /// Replace each old tag the page carries by its new tag.
    Replace(Vec<(String, String)>),
    /// Replace each tag by the replacement of the first pattern that matches it.
    ReplaceMatching(Vec<(TagPattern, String)>),
}

impl TagOperation {
    /// Whether the delta depends on the page's current tags.
    pub open spec fn reads_current(&self) -> bool {
        match self {
            TagOperation::Add(_) | TagOperation::Remove(_) => false,
            _ => true,
        }
    }

    /// Whether the operation selects tags by pattern.
    pub open spec fn is_regex(&self) -> bool {
        self is RemoveMatching || self is ReplaceMatching
    }

    /// Whether the page's current tags must be fetched to resolve the operation.
    pub fn needs_current_tags(&self) -> (r: bool)
        ensures
            r == self.reads_current(),
    {
        match self {
            TagOperation::Add(_) | TagOperation::Remove(_) => false,
            _ => true,
        }
    }
}

/// The delta of one operation on one page.
pub enum Resolution {
    /// A pattern operation that selected nothing: the page is skipped.
    Skip,
    Add(Vec<String>),
    Remove(Vec<String>),
    Replace(Vec<(String, String)>),
}

/// The delta of one operation on one page, as plain text.
pub enum Delta {
    Skip,
    Add(Seq<Seq<char>>),
    Remove(Seq<Seq<char>>),
    Replace(TagMapping),
}

impl Resolution {
    pub open spec fn view(&self) -> Delta {
        match self {
            Resolution::Skip => Delta::Skip,
            Resolution::Add(t) => Delta::Add(t.deep_view()),
            Resolution::Remove(t) => Delta::Remove(t.deep_view()),
            Resolution::Replace(m) => Delta::Replace(m.deep_view()),
        }
    }
}

/// The delta of `op` on a page whose current tags are `current`.
pub open spec fn resolve_spec(op: &TagOperation, current: Seq<Seq<char>>) -> Delta {
    match op {
        TagOperation::Add(t) => Delta::Add(t.deep_view()),
        TagOperation::Remove(t) => Delta::Remove(t.deep_view()),
        TagOperation::RemoveMatching(p) => {
            let sel = matching_tags(current, sources(p@));
            if sel.len() == 0 {
                Delta::Skip
            } else {
                Delta::Remove(sel)
            }
        },
        TagOperation::Replace(m) => Delta::Replace(present_pairs(m.deep_view(), current)),
        TagOperation::ReplaceMatching(rules) => {
            let m = regex_replacements(current, rule_patterns(rules@), rule_targets(rules@));
            if m.len() == 0 {
                Delta::Skip
            } else {
                Delta::Replace(m)
            }
        },
    }
}

/// Computes the delta of `op` on a page whose current tags are `current`.
/// Literal additions and removals ignore `current`; a pattern operation
/// that selects nothing gives `Skip`.
pub fn resolve(op: &TagOperation, current: &Vec<String>) -> (r: Resolution)
    ensures
        r@ == resolve_spec(op, current.deep_view()),
        r is Skip ==> op.is_regex(),
{
    match op {
        TagOperation::Add(t) => Resolution::Add(copy_tags(t)),
        TagOperation::Remove(t) => Resolution::Remove(copy_tags(t)),
        TagOperation::RemoveMatching(p) => {
            let sel = filter_tags_by_regex(copy_tags(current), p.as_slice());
            if sel.len() == 0 {
                Resolution::Skip
            } else {
                Resolution::Remove(sel)
            }
        },
        TagOperation::Replace(m) => Resolution::Replace(present_replacements(m, current)),
        TagOperation::ReplaceMatching(rules) => {
            let m = compute_replacements_by_regex(copy_tags(current), rules.as_slice());
            if m.len() == 0 {
                Resolution::Skip
            } else {
                Resolution::Replace(m)
            }
        },
    }
}

/// Literal additions and removals resolve to the given list whatever the
/// page currently carries.
pub proof fn lemma_literal_delta_ignores_current(
    op: &TagOperation,
    current1: Seq<Seq<char>>,
    current2: Seq<Seq<char>>,
)
    requires
        op is Add || op is Remove,
    ensures
        resolve_spec(op, current1) == resolve_spec(op, current2),
        op matches TagOperation::Add(t) ==> resolve_spec(op, current1) == Delta::Add(t.deep_view()),
        op matches TagOperation::Remove(t) ==> resolve_spec(op, current1) == Delta::Remove(t.deep_view()),
{
}

} // verus!
