//! The batch orchestrator: which pages to visit, what each page needs, and
//! how the per-page outcomes add up to one run summary.

use vstd::prelude::*;
use crate::model::{ActionDetail, ProcessResults, SearchResultItem};
use crate::text::text_eq;
use crate::script::{mapping_news, mapping_olds};
use crate::resolve::{Delta, Resolution, TagOperation, resolve, resolve_spec, copy_tags};

verus! {

/// How one page ended.
pub enum ActionResult {
    /// Every label call succeeded.
    Success { added: usize, removed: usize, detail: Option<ActionDetail> },
    /// Some label call failed.
    Failed,
    /// The page had nothing to do, or the operator declined it.
    Skipped,
}

/// The operator's answer for one page in interactive mode.
#[derive(Clone, Copy, Debug, PartialEq, Eq, Structural)]
pub enum Decision {
    Proceed,
    Skip,
    AbortAll,
}

/// Number of outcomes of each kind, and the tag counts of the successes.
pub open spec fn successes(outs: Seq<ActionResult>) -> nat
    decreases outs.len(),
{
    if outs.len() == 0 {
        0
    } else {
        successes(outs.drop_last()) + if outs.last() is Success { 1nat } else { 0nat }
    }
}

pub open spec fn failures(outs: Seq<ActionResult>) -> nat
    decreases outs.len(),
{
    if outs.len() == 0 {
        0
    } else {
        failures(outs.drop_last()) + if outs.last() is Failed { 1nat } else { 0nat }
    }
}

pub open spec fn skips(outs: Seq<ActionResult>) -> nat
    decreases outs.len(),
{
    if outs.len() == 0 {
        0
    } else {
        skips(outs.drop_last()) + if outs.last() is Skipped { 1nat } else { 0nat }
    }
}

pub open spec fn added_total(outs: Seq<ActionResult>) -> nat
    decreases outs.len(),
{
    if outs.len() == 0 {
        0
    } else {
        added_total(outs.drop_last()) + match outs.last() {
            ActionResult::Success { added, .. } => added as nat,
            _ => 0nat,
        }
    }
}

pub open spec fn removed_total(outs: Seq<ActionResult>) -> nat
    decreases outs.len(),
{
    if outs.len() == 0 {
        0
    } else {
        removed_total(outs.drop_last()) + match outs.last() {
            ActionResult::Success { removed, .. } => removed as nat,
            _ => 0nat,
        }
    }
}

/// `n`, or `usize::MAX` where it does not fit.
pub open spec fn capped(n: nat) -> usize {
    if n <= usize::MAX {
        n as usize
    } else {
        usize::MAX
    }
}

/// Every outcome is exactly one of success, failure and skip.
pub proof fn lemma_outcomes_partition(outs: Seq<ActionResult>)
    ensures
        successes(outs) + failures(outs) + skips(outs) == outs.len(),
    decreases outs.len(),
{
    if outs.len() > 0 {
        lemma_outcomes_partition(outs.drop_last());
    }
}

fn add_capped(a: usize, b: usize) -> (r: usize)
    ensures
        r == capped(a as nat + b as nat),
{
    if a <= usize::MAX - b {
        a + b
    } else {
        usize::MAX
    }
}

/// Adds up the outcomes of a run in which every page was visited (the
/// parallel path, whose outcomes arrive in any order).
pub fn tally_outcomes(outcomes: Vec<ActionResult>) -> (r: ProcessResults)
    ensures
        r.total == outcomes@.len(),
        r.success == successes(outcomes@),
        r.failed == failures(outcomes@),
        r.skipped == skips(outcomes@),
        r.processed == r.success + r.failed,
        !r.aborted,
        r.tags_added == capped(added_total(outcomes@)),
        r.tags_removed == capped(removed_total(outcomes@)),
        r.complete(),
{
    let ghost all = outcomes@;
    let total = outcomes.len();
    let mut results = ProcessResults::new(total);
    let mut rest = outcomes;
    let mut k: usize = 0;
    proof {
        assert(all.take(0) =~= Seq::<ActionResult>::empty());
        assert(rest@ =~= all.skip(0));
    }
    while rest.len() > 0
        invariant
            total == all.len(),
            k <= total,
            rest@ == all.skip(k as int),
            results.total == total,
            results.success == successes(all.take(k as int)),
            results.failed == failures(all.take(k as int)),
            results.skipped == skips(all.take(k as int)),
            results.processed == results.success + results.failed,
            !results.aborted,
            results.tags_added == capped(added_total(all.take(k as int))),
            results.tags_removed == capped(removed_total(all.take(k as int))),
        decreases rest@.len(),
    {
        let out = rest.remove(0);
        proof {
            let pre = all.take(k as int + 1);
            assert(pre.drop_last() =~= all.take(k as int));
            assert(pre.last() == out);
            lemma_outcomes_partition(all.take(k as int));
            assert(rest@ =~= all.skip(k as int + 1));
        }
        match out {
            ActionResult::Success { added, removed, detail } => {
                results.success = results.success + 1;
                results.processed = results.processed + 1;
                proof {
                    assert(added_total(all.take(k as int + 1)) == added_total(all.take(k as int)) + added);
                }
                results.tags_added = add_capped(results.tags_added, added);
                results.tags_removed = add_capped(results.tags_removed, removed);
                if let Some(d) = detail {
                    results.details.push(d);
                }
            },
            ActionResult::Failed => {
                results.failed = results.failed + 1;
                results.processed = results.processed + 1;
            },
            ActionResult::Skipped => {
                results.skipped = results.skipped + 1;
            },
        }
        k = k + 1;
    }
    proof {
        assert(all.take(total as int) =~= all);
        lemma_outcomes_partition(all);
    }
    results
}

/// A sequential (interactive) run over a list of pages, in order.
pub struct SequentialRun {
    results: ProcessResults,
    visited: usize,
}

impl SequentialRun {
    /// The summary so far.
    pub closed spec fn summary(&self) -> ProcessResults {
        self.results
    }

    /// Number of pages visited so far.
    pub closed spec fn visited(&self) -> nat {
        self.visited as nat
    }

    /// Counts are consistent and every visited page is accounted for,
    /// except the one an abort stopped at.
    pub open spec fn wf(&self) -> bool {
        &&& self.summary().wf()
        &&& self.visited() <= self.summary().total
        &&& (!self.summary().aborted ==> self.summary().processed + self.summary().skipped == self.visited())
    }

    /// The run is over: every page visited, or aborted.
    pub open spec fn finished(&self) -> bool {
        self.summary().aborted || self.visited() == self.summary().total
    }

    /// A run over `total` pages, none visited.
    pub fn new(total: usize) -> (r: SequentialRun)
        ensures
            r.wf(),
            r.visited() == 0,
            r.summary().total == total,
            r.summary().processed == 0,
            r.summary().skipped == 0,
            !r.summary().aborted,
    {
        SequentialRun { results: ProcessResults::new(total), visited: 0 }
    }

    /// Whether the run is over.
    pub fn is_finished(&self) -> (r: bool)
        ensures
            r == self.finished(),
    {
        self.results.aborted || self.visited == self.results.total
    }

    /// Records the operator's answer for the current page. `Proceed` leaves
    /// the page to `record`; `Skip` counts it as skipped; `AbortAll` ends the
    /// run without counting it. Returns whether the page is to be mutated.
    pub fn decide(&mut self, d: Decision) -> (r: bool)
        requires
            old(self).wf(),
            !old(self).finished(),
        ensures
            final(self).wf(),
            r == (d == Decision::Proceed),
            d == Decision::Proceed ==> final(self).summary() == old(self).summary() && final(self).visited() == old(self).visited(),
            d == Decision::Skip ==> final(self).summary() == (ProcessResults {
                skipped: (old(self).summary().skipped + 1) as usize,
                ..old(self).summary()
            }) && final(self).visited() == old(self).visited() + 1,
            d == Decision::AbortAll ==> final(self).summary() == (ProcessResults {
                aborted: true,
                ..old(self).summary()
            }) && final(self).visited() == old(self).visited(),
    {
        match d {
            Decision::Proceed => true,
            Decision::Skip => {
                self.results.skipped = self.results.skipped + 1;
                self.visited = self.visited + 1;
                false
            },
            Decision::AbortAll => {
                self.results.aborted = true;
                false
            },
        }
    }

    /// Records how the current page ended.
    pub fn record(&mut self, outcome: ActionResult)
        requires
            old(self).wf(),
            !old(self).finished(),
        ensures
            final(self).wf(),
            final(self).visited() == old(self).visited() + 1,
            final(self).summary().total == old(self).summary().total,
            final(self).summary().aborted == old(self).summary().aborted,
            final(self).summary().success == old(self).summary().success + if outcome is Success { 1int } else { 0int },
            final(self).summary().failed == old(self).summary().failed + if outcome is Failed { 1int } else { 0int },
            final(self).summary().skipped == old(self).summary().skipped + if outcome is Skipped { 1int } else { 0int },
            final(self).summary().tags_added == match outcome {
                ActionResult::Success { added, .. } => capped(old(self).summary().tags_added as nat + added as nat),
                _ => old(self).summary().tags_added,
            },
            final(self).summary().tags_removed == match outcome {
                ActionResult::Success { removed, .. } => capped(old(self).summary().tags_removed as nat + removed as nat),
                _ => old(self).summary().tags_removed,
            },
    {
        match outcome {
            ActionResult::Success { added, removed, detail } => {
                self.results.success = self.results.success + 1;
                self.results.processed = self.results.processed + 1;
                self.results.tags_added = add_capped(self.results.tags_added, added);
                self.results.tags_removed = add_capped(self.results.tags_removed, removed);
                if let Some(d) = detail {
                    self.results.details.push(d);
                }
            },
            ActionResult::Failed => {
                self.results.failed = self.results.failed + 1;
                self.results.processed = self.results.processed + 1;
            },
            ActionResult::Skipped => {
                self.results.skipped = self.results.skipped + 1;
            },
        }
        self.visited = self.visited + 1;
    }

    /// The summary of the run.
    pub fn into_results(self) -> (r: ProcessResults)
        requires
            self.wf(),
            self.finished(),
        ensures
            r == self.summary(),
            r.complete(),
    {
        self.results
    }
}

/// What a page needs next.
pub enum PagePlan {
    /// Nothing to do: no identifier, or a pattern that selects nothing.
    Skip,
    /// The page's current tags are needed to resolve the operation.
    FetchTags,
    /// Carry out this delta.
    Mutate(Resolution),
}

/// The delta of a page, as plain text; `None` where it is skipped.
pub open spec fn page_delta(op: &TagOperation, has_id: bool, current: Seq<Seq<char>>) -> Option<Delta> {
    if !has_id {
        None
    } else {
        match resolve_spec(op, current) {
            Delta::Skip => None,
            d => Some(d),
        }
    }
}

/// The first step for a page: skip it without an identifier, fetch its
/// tags where the operation reads them, else resolve at once.
pub fn start_page(op: &TagOperation, page: &SearchResultItem) -> (r: PagePlan)
    ensures
        page.id_spec() is None ==> r is Skip,
        page.id_spec() is Some && op.reads_current() ==> r is FetchTags,
        page.id_spec() is Some && !op.reads_current() ==> (r matches PagePlan::Mutate(res)
            && Some(res@) == page_delta(op, true, seq![])),
{
    if page.page_id().is_none() {
        return PagePlan::Skip;
    }
    if op.needs_current_tags() {
        return PagePlan::FetchTags;
    }
    let none: Vec<String> = Vec::new();
    proof {
        assert(none.deep_view() =~= Seq::<Seq<char>>::empty());
    }
    PagePlan::Mutate(resolve(op, &none))
}

/// Resolves the operation once the page's tags were fetched; a failed
/// fetch (`None`) counts as a page without tags.
pub fn plan_with_tags(op: &TagOperation, fetched: &Option<Vec<String>>) -> (r: PagePlan)
    ensures
        ({
            let current = match fetched {
                Some(t) => t.deep_view(),
                None => Seq::<Seq<char>>::empty(),
            };
            match page_delta(op, true, current) {
                None => r is Skip,
                Some(d) => r matches PagePlan::Mutate(res) && res@ == d,
            }
        }),
{
    let current: Vec<String> = match fetched {
        Some(t) => copy_tags(t),
        None => Vec::new(),
    };
    proof {
        if fetched is None {
            assert(current.deep_view() =~= Seq::<Seq<char>>::empty());
        }
    }
    let res = resolve(op, &current);
    match res {
        Resolution::Skip => PagePlan::Skip,
        _ => PagePlan::Mutate(res),
    }
}

/// Number of tags a delta adds.
pub open spec fn delta_added(d: Delta) -> nat {
    match d {
        Delta::Add(t) => t.len(),
        _ => 0,
    }
}

/// Number of tags a delta removes.
pub open spec fn delta_removed(d: Delta) -> nat {
    match d {
        Delta::Remove(t) => t.len(),
        _ => 0,
    }
}

/// How a page ended once its label calls ran: success when every call
/// succeeded (counting the tags added or removed), else failure.
pub fn page_outcome(delta: &Resolution, succeeded: bool, detail: Option<ActionDetail>) -> (r: ActionResult)
    ensures
        !succeeded ==> r is Failed,
        succeeded ==> (r matches ActionResult::Success { added, removed, detail: d }
            && added == delta_added(delta@) && removed == delta_removed(delta@) && d == detail),
{
    if !succeeded {
        return ActionResult::Failed;
    }
    match delta {
        Resolution::Add(t) => ActionResult::Success { added: t.len(), removed: 0, detail },
        Resolution::Remove(t) => ActionResult::Success { added: 0, removed: t.len(), detail },
        _ => ActionResult::Success { added: 0, removed: 0, detail },
    }
}

/// The tags a delta adds, as listed in a detail record.
pub open spec fn detail_added(d: Delta) -> Seq<Seq<char>> {
    match d {
        Delta::Add(t) => t,
        Delta::Replace(m) => mapping_news(m),
        _ => seq![],
    }
}

/// The tags a delta removes, as listed in a detail record.
pub open spec fn detail_removed(d: Delta) -> Seq<Seq<char>> {
    match d {
        Delta::Remove(t) => t,
        Delta::Replace(m) => mapping_olds(m),
        _ => seq![],
    }
}

/// The two sides of a mapping, each in order.
fn split_mapping(m: &Vec<(String, String)>) -> (r: (Vec<String>, Vec<String>))
    ensures
        r.0.deep_view() == mapping_olds(m.deep_view()),
        r.1.deep_view() == mapping_news(m.deep_view()),
{
    let mut olds: Vec<String> = Vec::new();
    let mut news: Vec<String> = Vec::new();
    let mut i: usize = 0;
    while i < m.len()
        invariant
            i <= m@.len(),
            olds.deep_view() == mapping_olds(m.deep_view()).take(i as int),
            news.deep_view() == mapping_news(m.deep_view()).take(i as int),
        decreases m@.len() - i,
    {
        let ghost o = olds.deep_view();
        let ghost n = news.deep_view();
        olds.push(String::from_str(m[i].0.as_str()));
        news.push(String::from_str(m[i].1.as_str()));
        proof {
            assert(olds.deep_view() =~= o.push(m@[i as int].0@));
            assert(news.deep_view() =~= n.push(m@[i as int].1@));
            assert(olds.deep_view() =~= mapping_olds(m.deep_view()).take(i as int + 1));
            assert(news.deep_view() =~= mapping_news(m.deep_view()).take(i as int + 1));
        }
        i = i + 1;
    }
    proof {
        assert(mapping_olds(m.deep_view()).take(m@.len() as int) =~= mapping_olds(m.deep_view()));
        assert(mapping_news(m.deep_view()).take(m@.len() as int) =~= mapping_news(m.deep_view()));
    }
    (olds, news)
}

/// The record of a page mutated by `delta`, for structured output.
pub fn page_detail(page: &SearchResultItem, id: &str, delta: &Resolution, base_url: &str) -> (r: ActionDetail)
    ensures
        r.page_id@ == id@,
        r.title@ == page.title_spec(),
        r.space@ == page.space_name_spec(),
        r.url@ == page.clickable_title_spec(base_url@),
        r.tags_added.deep_view() == detail_added(delta@),
        r.tags_removed.deep_view() == detail_removed(delta@),
{
    let none: Vec<String> = Vec::new();
    let also_none: Vec<String> = Vec::new();
    proof {
        assert(none.deep_view() =~= Seq::<Seq<char>>::empty());
        assert(also_none.deep_view() =~= Seq::<Seq<char>>::empty());
    }
    let (added, removed) = match delta {
        Resolution::Add(t) => (copy_tags(t), none),
        Resolution::Remove(t) => (none, copy_tags(t)),
        Resolution::Replace(m) => {
            let (olds, news) = split_mapping(m);
            (news, olds)
        },
        Resolution::Skip => (none, also_none),
    };
    ActionDetail {
        page_id: String::from_str(id),
        title: String::from_str(page.display_title()),
        space: String::from_str(page.space_name()),
        url: page.printable_clickable_title(base_url),
        tags_added: added,
        tags_removed: removed,
    }
}

/// Whether `ids` holds `id`.
pub open spec fn excluded_by(excluded: Seq<SearchResultItem>, p: SearchResultItem) -> bool {
    p.id_spec() is Some && exists|k: int| 0 <= k < excluded.len() && (#[trigger] excluded[k]).id_spec() == p.id_spec()
}

/// The candidates that the exclusion set does not name, in order.
pub open spec fn kept_pages(pages: Seq<SearchResultItem>, excluded: Seq<SearchResultItem>) -> Seq<SearchResultItem> {
    pages.filter(|p: SearchResultItem| !excluded_by(excluded, p))
}

fn is_excluded(excluded: &[SearchResultItem], page: &SearchResultItem) -> (r: bool)
    ensures
        r == excluded_by(excluded@, *page),
{
    let id = match page.page_id() {
        Some(id) => id,
        None => return false,
    };
    let mut k: usize = 0;
    while k < excluded.len()
        invariant
            k <= excluded@.len(),
            page.id_spec() == Some(id@),
            forall|j: int| 0 <= j < k ==> (#[trigger] excluded@[j]).id_spec() != page.id_spec(),
        decreases excluded@.len() - k,
    {
        if let Some(other) = excluded[k].page_id() {
            if other.unicode_len() == id.unicode_len() && text_eq(other, id) {
                return true;
            }
        }
        k = k + 1;
    }
    false
}

/// Removes from the candidates every page whose identifier an excluded
/// page carries; a page without identifier is never excluded.
pub fn filter_excluded_pages(pages: Vec<SearchResultItem>, excluded: &[SearchResultItem]) -> (r: Vec<SearchResultItem>)
    ensures
        r@ == kept_pages(pages@, excluded@),
{
    let ghost all = pages@;
    let total = pages.len();
    let mut rest = pages;
    let mut out: Vec<SearchResultItem> = Vec::new();
    let mut k: usize = 0;
    proof {
        assert(rest@ =~= all.skip(0));
        reveal(Seq::filter);
        assert(all.take(0) =~= Seq::<SearchResultItem>::empty());
        assert(out@ =~= kept_pages(all.take(0), excluded@));
    }
    while rest.len() > 0
        invariant
            k <= all.len(),
            all.len() == total,
            rest@ == all.skip(k as int),
            out@ == kept_pages(all.take(k as int), excluded@),
        decreases rest@.len(),
    {
        let page = rest.remove(0);
        proof {
            let pre = all.take(k as int + 1);
            assert(pre.drop_last() =~= all.take(k as int));
            assert(pre.last() == page);
            assert(rest@ =~= all.skip(k as int + 1));
            reveal(Seq::filter);
        }
        if !is_excluded(excluded, &page) {
            out.push(page);
        }
        k = k + 1;
    }
    proof {
        assert(all.take(k as int) =~= all);
    }
    out
}

/// Exclusion is a set difference by identifier: a candidate is kept if
/// and only if no excluded page carries its identifier, and the kept pages
/// keep their order.
pub proof fn lemma_exclusion_by_identity(pages: Seq<SearchResultItem>, excluded: Seq<SearchResultItem>)
    ensures
        forall|p: SearchResultItem| #[trigger] kept_pages(pages, excluded).contains(p)
            <==> (pages.contains(p) && !excluded_by(excluded, p)),
{
    let pred = |p: SearchResultItem| !excluded_by(excluded, p);
    assert forall|p: SearchResultItem| #[trigger] kept_pages(pages, excluded).contains(p)
        <==> (pages.contains(p) && !excluded_by(excluded, p)) by {
        if kept_pages(pages, excluded).contains(p) {
            pages.lemma_filter_contains_rev(pred, p);
            let i = choose|i: int| 0 <= i < pages.filter(pred).len() && pages.filter(pred)[i] == p;
            pages.lemma_filter_pred(pred, i);
        }
        if pages.contains(p) && !excluded_by(excluded, p) {
            let i = choose|i: int| 0 <= i < pages.len() && pages[i] == p;
            pages.lemma_filter_contains(pred, i);
        }
    }
}

} // verus!
