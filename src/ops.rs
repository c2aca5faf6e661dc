//! Command arguments and the operations they ask for; progress reporting.

use vstd::prelude::*;
use crate::pairs::{PairFault, parse_pairs_spec, texts};
use crate::pattern::PatternError;
use crate::pattern::sources;
use crate::resolve::{TagMapping, TagOperation, copy_tags, rule_patterns, rule_targets};
use crate::script::{ScriptError, all_compile, mapping_news, mapping_olds, remove_operation, replace_operation};

verus! {

/// Options shared by the operations.
#[derive(Clone, Copy, Debug)]
pub struct OpsOptions {
    pub show_progress: bool,
}

/// Observes a run's progress; it has no say in the run.
pub trait ProgressReporter {
    fn set_total(&self, total: u64);

    fn inc(&self, delta: u64);

    fn finish(&self);

    fn message(&self, msg: &str);
}

/// A reporter that shows nothing.
pub struct NoOpProgress;

impl ProgressReporter for NoOpProgress {
    fn set_total(&self, total: u64) {
    }

    fn inc(&self, delta: u64) {
    }

    fn finish(&self) {
    }

    fn message(&self, msg: &str) {
    }
}

/// Arguments of `add`.
pub struct AddArgs {
    pub cql_expression: String,
    pub tags: Vec<String>,
    pub interactive: bool,
    pub abort_key: String,
    pub cql_exclude: Option<String>,
}

impl AddArgs {
    /// Adds the given tags.
    pub fn operation(&self) -> (r: TagOperation)
        ensures
            r matches TagOperation::Add(t) && t.deep_view() == self.tags.deep_view(),
    {
        TagOperation::Add(copy_tags(&self.tags))
    }
}

/// Arguments of `remove`.
pub struct RemoveArgs {
    pub cql_expression: String,
    pub tags: Vec<String>,
    pub interactive: bool,
    pub abort_key: String,
    pub regex: bool,
    pub cql_exclude: Option<String>,
}

impl RemoveArgs {
    /// Removes the given tags, or under `regex` the tags the given patterns match.
    pub fn operation(&self) -> (r: Result<TagOperation, PatternError>)
        ensures
            !self.regex ==> (r matches Ok(TagOperation::Remove(t)) && t.deep_view() == self.tags.deep_view()),
            self.regex ==> (r is Ok <==> all_compile(texts(self.tags@))),
            self.regex ==> (r matches Ok(op) ==> op matches TagOperation::RemoveMatching(ps) && sources(ps@) == texts(self.tags@)),
    {
        remove_operation(&self.tags, self.regex)
    }
}

/// Arguments of `replace`.
pub struct ReplaceArgs {
    pub cql_expression: String,
    pub tag_pairs: Vec<String>,
    pub interactive: bool,
    pub abort_key: String,
    pub regex: bool,
    pub cql_exclude: Option<String>,
}

impl ReplaceArgs {
    /// Replaces tags as the tag pairs describe.
    pub fn operation(&self) -> (r: Result<TagOperation, ScriptError>)
        ensures
            parse_pairs_spec(texts(self.tag_pairs@), self.regex) is Err ==> (r matches Err(ScriptError::BadPairs(e))
                && parse_pairs_spec(texts(self.tag_pairs@), self.regex) == Err::<TagMapping, PairFault>(e@)),
            parse_pairs_spec(texts(self.tag_pairs@), self.regex) is Ok && !self.regex ==> (r matches Ok(TagOperation::Replace(v))
                && parse_pairs_spec(texts(self.tag_pairs@), self.regex) == Ok::<TagMapping, PairFault>(v.deep_view())),
            parse_pairs_spec(texts(self.tag_pairs@), self.regex) is Ok && self.regex ==> (r is Ok
                <==> all_compile(mapping_olds(parse_pairs_spec(texts(self.tag_pairs@), self.regex)->Ok_0))),
            parse_pairs_spec(texts(self.tag_pairs@), self.regex) is Ok && self.regex && r is Ok ==> (r->Ok_0 matches TagOperation::ReplaceMatching(rules)
                && rule_patterns(rules@) == mapping_olds(parse_pairs_spec(texts(self.tag_pairs@), self.regex)->Ok_0)
                && rule_targets(rules@) == mapping_news(parse_pairs_spec(texts(self.tag_pairs@), self.regex)->Ok_0)),
    {
        replace_operation(self.tag_pairs.as_slice(), self.regex)
    }
}

/// Arguments of `get`.
pub struct GetArgs {
    pub cql_expression: String,
    pub show_pages: bool,
    pub tags_only: bool,
    pub interactive: bool,
    pub abort_key: String,
    pub output_file: Option<String>,
}

/// Arguments of `from-json`.
pub struct FromJsonArgs {
    pub json_file: String,
    pub abort_key: String,
}

/// Arguments of `from-stdin-json`.
pub struct FromStdinJsonArgs {
    pub abort_key: String,
}

} // verus!
