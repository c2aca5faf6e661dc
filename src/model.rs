//! The data that flows through a run: search results, pages, outcomes.

use vstd::prelude::*;
use crate::render::{link_text, page_url_text, make_page_clickable};
use crate::text::{html_decoded, strip_controls, sanitize_text};

verus! {

/// How a run reports its results.
#[derive(Clone, Copy, Debug, PartialEq, Eq, Structural)]
pub enum OutputFormat {
    Simple,
    Verbose,
    Json,
    Csv,
}

impl OutputFormat {
    /// Detailed human-readable output.
    pub fn is_verbose(&self) -> (r: bool)
        ensures
            r == (*self == OutputFormat::Verbose),
    {
        *self == OutputFormat::Verbose
    }

    /// Machine-readable output (JSON or CSV).
    pub fn is_structured(&self) -> (r: bool)
        ensures
            r == (*self == OutputFormat::Json || *self == OutputFormat::Csv),
    {
        *self == OutputFormat::Json || *self == OutputFormat::Csv
    }
}

/// The aggregate outcome of one run over a set of pages.
#[derive(Clone, Debug)]
pub struct ProcessResults {
    pub total: usize,
    pub processed: usize,
    pub skipped: usize,
    pub success: usize,
    pub failed: usize,
    pub aborted: bool,
    pub tags_added: usize,
    pub tags_removed: usize,
    pub details: Vec<ActionDetail>,
}

/// One record of a successful page mutation, for structured output.
#[derive(Clone, Debug)]
pub struct ActionDetail {
    pub page_id: String,
    pub title: String,
    pub space: String,
    pub url: String,
    pub tags_added: Vec<String>,
    pub tags_removed: Vec<String>,
}

impl ProcessResults {
    /// Every attempted page ended in success or failure.
    pub open spec fn counts_consistent(&self) -> bool {
        self.processed == self.success + self.failed
    }

    /// Consistent counts, and nothing accounted for beyond the candidates.
    pub open spec fn wf(&self) -> bool {
        &&& self.counts_consistent()
        &&& self.processed + self.skipped <= self.total
    }

    /// A run that was not aborted accounted for every candidate.
    pub open spec fn complete(&self) -> bool {
        self.wf() && (!self.aborted ==> self.processed + self.skipped == self.total)
    }

    /// A fresh summary for `total` candidates, with nothing counted yet.
    pub fn new(total: usize) -> (r: Self)
        ensures
            r.total == total,
            r.processed == 0,
            r.skipped == 0,
            r.success == 0,
            r.failed == 0,
            !r.aborted,
            r.tags_added == 0,
            r.tags_removed == 0,
            r.details@.len() == 0,
            r.wf(),
    {
        ProcessResults {
            total,
            processed: 0,
            skipped: 0,
            success: 0,
            failed: 0,
            aborted: false,
            tags_added: 0,
            tags_removed: 0,
            details: Vec::new(),
        }
    }
}

/// One record of a search result.
#[derive(Clone, Debug)]
pub struct SearchResultItem {
    pub content: Option<Content>,
    pub title: Option<String>,
    pub space: Option<Space>,
    pub result_global_container: Option<GlobalContainer>,
}

/// A parent of a page.
#[derive(Clone, Debug)]
pub struct Ancestor {
    pub id: Option<String>,
    pub title: Option<String>,
}

/// The content part of a search result.
#[derive(Clone, Debug)]
pub struct Content {
    pub id: Option<String>,
    pub title: Option<String>,
    pub content_type: Option<String>,
    pub status: Option<String>,
    pub space: Option<Space>,
    pub ancestors: Vec<Ancestor>,
}

/// A space: the container of pages.
#[derive(Clone, Debug)]
pub struct Space {
    pub id: Option<i64>,
    pub key: Option<String>,
    pub name: Option<String>,
}

/// The container a search result reports.
#[derive(Clone, Debug)]
pub struct GlobalContainer {
    pub title: Option<String>,
}

/// A label of a page.
#[derive(Clone, Debug)]
pub struct Label {
    pub name: String,
    pub id: Option<String>,
}

/// The labels of a page, as the label endpoint lists them.
#[derive(Clone, Debug)]
pub struct LabelsResponse {
    pub results: Vec<Label>,
}

/// Text of an optional string field.
pub open spec fn opt_text(s: Option<String>) -> Option<Seq<char>> {
    match s {
        Some(t) => Some(t@),
        None => None,
    }
}

impl SearchResultItem {
    /// The page's identifier, when the record carries one.
    pub open spec fn id_spec(&self) -> Option<Seq<char>> {
        match self.content {
            Some(c) => opt_text(c.id),
            None => None,
        }
    }

    /// The first space name the record offers: the content's space, the
    /// record's space, the container title, else "Unknown".
    pub open spec fn space_name_spec(&self) -> Seq<char> {
        if self.content is Some && self.content->0.space is Some && self.content->0.space->0.name is Some {
            self.content->0.space->0.name->0@
        } else if self.space is Some && self.space->0.name is Some {
            self.space->0.name->0@
        } else if self.result_global_container is Some && self.result_global_container->0.title is Some {
            self.result_global_container->0.title->0@
        } else {
            "Unknown"@
        }
    }

    /// The record's title, or "Unknown".
    pub open spec fn title_spec(&self) -> Seq<char> {
        match self.title {
            Some(t) => t@,
            None => "Unknown"@,
        }
    }

    /// The space's display name.
    pub fn space_name(&self) -> (r: &str)
        ensures
            r@ == self.space_name_spec(),
    {
        if let Some(c) = &self.content {
            if let Some(sp) = &c.space {
                if let Some(n) = &sp.name {
                    return n.as_str();
                }
            }
        }
        if let Some(sp) = &self.space {
            if let Some(n) = &sp.name {
                return n.as_str();
            }
        }
        if let Some(g) = &self.result_global_container {
            if let Some(t) = &g.title {
                return t.as_str();
            }
        }
        "Unknown"
    }

    /// The page's identifier.
    pub fn page_id(&self) -> (r: Option<&str>)
        ensures
            r matches Some(s) ==> self.id_spec() == Some(s@),
            r is None ==> self.id_spec() is None,
    {
        match &self.content {
            Some(c) => match &c.id {
                Some(id) => Some(id.as_str()),
                None => None,
            },
            None => None,
        }
    }

    /// The record's title, or "Unknown".
    pub fn display_title(&self) -> (r: &str)
        ensures
            r@ == self.title_spec(),
    {
        match &self.title {
            Some(t) => t.as_str(),
            None => "Unknown",
        }
    }

    /// The sanitized title, as a link to the page where it has an identifier.
    pub open spec fn clickable_title_spec(&self, base_url: Seq<char>) -> Seq<char> {
        let shown = strip_controls(html_decoded(self.title_spec()));
        match self.id_spec() {
            Some(id) => link_text(shown, page_url_text(base_url, id)),
            None => shown,
        }
    }

    /// The sanitized title; a hyperlink to the page when it has an identifier.
    pub fn printable_clickable_title(&self, base_url: &str) -> (r: String)
        ensures
            r@ == self.clickable_title_spec(base_url@),
    {
        let sanitized = sanitize_text(self.display_title());
        match self.page_id() {
            Some(id) => make_page_clickable(sanitized.as_str(), id, base_url),
            None => sanitized,
        }
    }
}

} // verus!
