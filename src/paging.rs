//! Cursor-based pagination over the search endpoint, and the defensive
//! merge of search-result records.

use vstd::prelude::*;
use crate::model::{Content, SearchResultItem, opt_text};

verus! {

/// Where the next batch comes from.
pub enum PageRequest {
    /// The query's first batch.
    First,
    /// The batch behind this continuation link.
    Next(String),
}

/// A pagination in progress, as plain values.
pub struct PagerState {
    pub pages: Seq<SearchResultItem>,
    pub cursor: Option<Seq<char>>,
    pub done: bool,
}

/// The state after one batch: an empty batch ends the pagination; a
/// non-empty one is appended, and the pagination ends when it carries no
/// continuation link.
pub open spec fn pager_step(s: PagerState, batch: Seq<SearchResultItem>, next: Option<Seq<char>>) -> PagerState {
    if batch.len() == 0 {
        PagerState { done: true, ..s }
    } else {
        PagerState { pages: s.pages + batch, cursor: next, done: next is None }
    }
}

/// Collects the results of a query batch by batch.
pub struct Paginator {
    pages: Vec<SearchResultItem>,
    cursor: Option<String>,
    done: bool,
}

impl Paginator {
    pub closed spec fn view(&self) -> PagerState {
        PagerState { pages: self.pages@, cursor: opt_text(self.cursor), done: self.done }
    }

    /// A pagination before its first batch.
    pub fn new() -> (r: Paginator)
        ensures
            r@ == (PagerState { pages: seq![], cursor: None, done: false }),
    {
        let r = Paginator { pages: Vec::new(), cursor: None, done: false };
        proof {
            assert(r@.pages =~= Seq::<SearchResultItem>::empty());
        }
        r
    }

    /// The batch to fetch next, or `None` once the pagination is over.
    pub fn next_request(&self) -> (r: Option<PageRequest>)
        ensures
            self@.done <==> r is None,
            !self@.done && self@.cursor is None ==> r matches Some(PageRequest::First),
            !self@.done && self@.cursor is Some ==> (r matches Some(PageRequest::Next(c))
                && Some(c@) == self@.cursor),
    {
        if self.done {
            None
        } else {
            match &self.cursor {
                None => Some(PageRequest::First),
                Some(c) => Some(PageRequest::Next(String::from_str(c.as_str()))),
            }
        }
    }

    /// Takes in one batch and its continuation link.
    pub fn accept(&mut self, batch: Vec<SearchResultItem>, next: Option<String>)
        requires
            !old(self)@.done,
        ensures
            final(self)@ == pager_step(old(self)@, batch@, opt_text(next)),
    {
        if batch.len() == 0 {
            self.done = true;
            return;
        }
        let mut b = batch;
        self.pages.append(&mut b);
        self.done = next.is_none();
        self.cursor = next;
    }

    /// Whether the pagination is over.
    pub fn is_done(&self) -> (r: bool)
        ensures
            r == self@.done,
    {
        self.done
    }

    /// The number of results collected so far.
    pub fn count(&self) -> (r: usize)
        ensures
            r == self@.pages.len(),
    {
        self.pages.len()
    }

    /// The results collected.
    pub fn into_pages(self) -> (r: Vec<SearchResultItem>)
        ensures
            r@ == self@.pages,
    {
        self.pages
    }
}

/// Feeds batches to a pagination in order, until it ends.
pub open spec fn feed(s: PagerState, batches: Seq<(Seq<SearchResultItem>, Option<Seq<char>>)>) -> PagerState
    decreases batches.len(),
{
    if batches.len() == 0 || s.done {
        s
    } else {
        feed(pager_step(s, batches[0].0, batches[0].1), batches.drop_first())
    }
}

/// The batches' results, one after another.
pub open spec fn concat_batches(batches: Seq<(Seq<SearchResultItem>, Option<Seq<char>>)>) -> Seq<SearchResultItem>
    decreases batches.len(),
{
    if batches.len() == 0 {
        seq![]
    } else {
        batches[0].0 + concat_batches(batches.drop_first())
    }
}

/// A well-formed source: every batch has results, every batch but the
/// last carries a continuation link, and the last carries none.
pub open spec fn well_formed_source(batches: Seq<(Seq<SearchResultItem>, Option<Seq<char>>)>) -> bool {
    &&& batches.len() > 0
    &&& forall|i: int| 0 <= i < batches.len() ==> (#[trigger] batches[i]).0.len() > 0
    &&& forall|i: int| 0 <= i < batches.len() - 1 ==> (#[trigger] batches[i]).1 is Some
    &&& batches.last().1 is None
}

proof fn lemma_feed(s: PagerState, batches: Seq<(Seq<SearchResultItem>, Option<Seq<char>>)>)
    requires
        !s.done,
        well_formed_source(batches),
    ensures
        feed(s, batches).pages == s.pages + concat_batches(batches),
        feed(s, batches).done,
    decreases batches.len(),
{
    let b = batches[0];
    let t = pager_step(s, b.0, b.1);
    let rest = batches.drop_first();
    if batches.len() == 1 {
        assert(rest.len() == 0);
        assert(concat_batches(rest) =~= Seq::<SearchResultItem>::empty());
        assert(b.1 is None);
        assert(s.pages + b.0 + concat_batches(rest) =~= s.pages + b.0);
    } else {
        assert(b.1 is Some);
        assert forall|i: int| 0 <= i < rest.len() implies (#[trigger] rest[i]).0.len() > 0 by {
            assert(rest[i] == batches[i + 1]);
        }
        assert forall|i: int| 0 <= i < rest.len() - 1 implies (#[trigger] rest[i]).1 is Some by {
            assert(rest[i] == batches[i + 1]);
        }
        assert(rest.last() == batches.last());
        lemma_feed(t, rest);
        assert(t.pages + concat_batches(rest) =~= s.pages + (b.0 + concat_batches(rest)));
    }
}

/// Pagination over a well-formed source ends after the last batch with
/// exactly the concatenation of all batches in cursor order: nothing is
/// dropped, repeated or reordered.
pub proof fn lemma_pagination_concatenates(batches: Seq<(Seq<SearchResultItem>, Option<Seq<char>>)>)
    requires
        well_formed_source(batches),
    ensures
        ({
            let end = feed(PagerState { pages: seq![], cursor: None, done: false }, batches);
            end.done && end.pages == concat_batches(batches)
        }),
{
    let s = PagerState { pages: seq![], cursor: None, done: false };
    lemma_feed(s, batches);
    assert(s.pages + concat_batches(batches) =~= concat_batches(batches));
}

/// `r` is what a record becomes: a full parse, completed by the content
/// parse where it lacks content; else a minimal record from the content
/// parse alone, titled by the content's title; else nothing.
pub open spec fn merged_as(full: Option<SearchResultItem>, content: Option<Content>, r: Option<SearchResultItem>) -> bool {
    match full {
        Some(item) => r == Some(if item.content is None && content is Some {
            SearchResultItem { content: content, ..item }
        } else {
            item
        }),
        None => match content {
            Some(c) => r matches Some(m) && m.content == Some(c) && opt_text(m.title) == opt_text(c.title)
                && m.space is None && m.result_global_container is None,
            None => r is None,
        },
    }
}

/// A copy of an optional text.
pub fn copy_opt_text(s: &Option<String>) -> (r: Option<String>)
    ensures
        opt_text(r) == opt_text(*s),
{
    match s {
        Some(t) => Some(String::from_str(t.as_str())),
        None => None,
    }
}

/// Merges the two parses of one search-result record: the full record
/// parse and the parse of the record as bare content.
pub fn merge_search_record(full: Option<SearchResultItem>, content: Option<Content>) -> (r: Option<SearchResultItem>)
    ensures
        merged_as(full, content, r),
{
    match full {
        Some(item) => {
            if item.content.is_none() && content.is_some() {
                Some(SearchResultItem { content, ..item })
            } else {
                Some(item)
            }
        },
        None => match content {
            Some(c) => {
                let title = copy_opt_text(&c.title);
                Some(SearchResultItem { title, content: Some(c), space: None, result_global_container: None })
            },
            None => None,
        },
    }
}

/// The records of which at least one parse succeeded.
pub open spec fn usable_records(records: Seq<(Option<SearchResultItem>, Option<Content>)>) -> Seq<(Option<SearchResultItem>, Option<Content>)> {
    records.filter(|rec: (Option<SearchResultItem>, Option<Content>)| rec.0 is Some || rec.1 is Some)
}

/// Turns the parses of a batch's records into its pages: one page per
/// record of which some parse succeeded, in order.
pub fn collect_batch(records: Vec<(Option<SearchResultItem>, Option<Content>)>) -> (r: Vec<SearchResultItem>)
    ensures
        r@.len() == usable_records(records@).len(),
        forall|j: int| 0 <= j < r@.len() ==> merged_as(
            (#[trigger] usable_records(records@)[j]).0,
            usable_records(records@)[j].1,
            Some(r@[j]),
        ),
{
    let ghost all = records@;
    let total = records.len();
    let mut rest = records;
    let mut out: Vec<SearchResultItem> = Vec::new();
    let mut k: usize = 0;
    proof {
        assert(rest@ =~= all.skip(0));
        reveal(Seq::filter);
        assert(all.take(0) =~= Seq::<(Option<SearchResultItem>, Option<Content>)>::empty());
    }
    while rest.len() > 0
        invariant
            k <= all.len(),
            all.len() == total,
            rest@ == all.skip(k as int),
            out@.len() == usable_records(all.take(k as int)).len(),
            forall|j: int| 0 <= j < out@.len() ==> merged_as(
                (#[trigger] usable_records(all.take(k as int))[j]).0,
                usable_records(all.take(k as int))[j].1,
                Some(out@[j]),
            ),
        decreases rest@.len(),
    {
        let rec = rest.remove(0);
        let ghost before = usable_records(all.take(k as int));
        proof {
            let pre = all.take(k as int + 1);
            assert(pre.drop_last() =~= all.take(k as int));
            assert(pre.last() == rec);
            assert(rest@ =~= all.skip(k as int + 1));
            reveal(Seq::filter);
        }
        let (full, content) = rec;
        let ghost rec_full = full;
        let ghost rec_content = content;
        match merge_search_record(full, content) {
            Some(item) => {
                out.push(item);
                proof {
                    let now = usable_records(all.take(k as int + 1));
                    assert(now == before.push(rec));
                    assert forall|j: int| 0 <= j < out@.len() implies merged_as(
                        (#[trigger] now[j]).0,
                        now[j].1,
                        Some(out@[j]),
                    ) by {
                        if j < before.len() {
                            assert(now[j] == before[j]);
                        }
                    }
                }
            },
            None => {
                proof {
                    assert(usable_records(all.take(k as int + 1)) == before);
                }
            },
        }
        k = k + 1;
    }
    proof {
        assert(all.take(k as int) =~= all);
    }
    out
}

} // verus!
