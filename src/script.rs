//! Bulk scripts: a list of commands, each run as one operation over the
//! pages its query matches.

use vstd::prelude::*;
use crate::model::{ProcessResults, opt_text};
use crate::pairs::{PairError, parse_tag_pairs, parse_pairs_spec, texts};
use crate::pattern::{PatternError, TagPattern, regex_compiles, sources};
use crate::resolve::{TagOperation, rule_patterns, rule_targets, copy_tags};
use crate::text::text_eq;

verus! {

/// The `tags` value of a command, as far as a script's JSON shapes it:
/// an array (each element a string or not), an object (each value a string
/// or not), or anything else.
pub enum TagsJson {
    Array(Vec<Option<String>>),
    Object(Vec<(String, Option<String>)>),
    Other,
}

/// One command of a script.
pub struct JsonCommand {
    pub action: String,
    pub cql_expression: String,
    pub tags: Option<TagsJson>,
    pub interactive: bool,
    pub cql_exclude: Option<String>,
    pub regex: bool,
}

/// A script: an optional description and its commands, in order.
pub struct JsonCommands {
    pub description: Option<String>,
    pub commands: Vec<JsonCommand>,
}

/// Why a command could not be planned.
pub enum ScriptError {
    /// The action needs a `tags` field.
    MissingTags(String),
    /// The action's `tags` array holds a value that is not a string.
    NotStringArray(String),
    /// The action's `tags` field is not an array.
    NotArray(String),
    /// A replacement's `tags` field is not an object.
    NotObject,
    /// A replacement's `tags` object maps to a value that is not a string.
    NotStringValue,
    /// The action is none of `add`, `remove`, `replace`.
    UnknownAction(String),
    /// The tag pairs were rejected.
    BadPairs(PairError),
    /// A pattern does not compile.
    BadPattern(PatternError),
}

impl ScriptError {
    /// A sentence describing the fault, naming the offending action or pattern.
    pub fn message(&self) -> (r: String)
        ensures
            self matches ScriptError::MissingTags(a) ==> r@ == "'tags' field required for '"@ + a@ + "' action"@,
            self matches ScriptError::NotStringArray(a) ==> r@ == "'tags' array for '"@ + a@
                + "' action must contain only strings"@,
            self matches ScriptError::NotArray(a) ==> r@ == "'tags' field for '"@ + a@
                + "' action must be an array of strings"@,
            self is NotObject ==> r@ == "'tags' field for 'replace' action must be an object mapping old->new tag"@,
            self is NotStringValue ==> r@ == "'tags' object for 'replace' action must map to string values"@,
            self matches ScriptError::UnknownAction(a) ==> r@ == "Unknown action: "@ + a@,
            self matches ScriptError::BadPattern(e) ==> r@ == "Invalid regex '"@ + e.pattern@ + "': "@ + e.reason@,
    {
        match self {
            ScriptError::MissingTags(a) => {
                let mut s = String::from_str("'tags' field required for '");
                s.append(a.as_str());
                s.append("' action");
                s
            },
            ScriptError::NotStringArray(a) => {
                let mut s = String::from_str("'tags' array for '");
                s.append(a.as_str());
                s.append("' action must contain only strings");
                s
            },
            ScriptError::NotArray(a) => {
                let mut s = String::from_str("'tags' field for '");
                s.append(a.as_str());
                s.append("' action must be an array of strings");
                s
            },
            ScriptError::NotObject => String::from_str(
                "'tags' field for 'replace' action must be an object mapping old->new tag",
            ),
            ScriptError::NotStringValue => String::from_str(
                "'tags' object for 'replace' action must map to string values",
            ),
            ScriptError::UnknownAction(a) => {
                let mut s = String::from_str("Unknown action: ");
                s.append(a.as_str());
                s
            },
            ScriptError::BadPairs(e) => e.message(),
            ScriptError::BadPattern(e) => {
                let mut s = String::from_str("Invalid regex '");
                s.append(e.pattern.as_str());
                s.append("': ");
                s.append(e.reason.as_str());
                s
            },
        }
    }
}

/// Texts of optional strings.
pub open spec fn opt_texts(v: Seq<Option<String>>) -> Seq<Option<Seq<char>>> {
    v.map_values(|o: Option<String>| opt_text(o))
}

/// The tags of an add or remove command: an array of strings.
#[verifier::loop_isolation(false)]
pub fn parse_add_remove_tags(value: &TagsJson, action: &str) -> (r: Result<Vec<String>, ScriptError>)
    ensures
        match value {
            TagsJson::Array(items) => if all_strings(*items) {
                r matches Ok(tags) && same_tags(tags, *items)
            } else {
                r matches Err(ScriptError::NotStringArray(a)) && a@ == action@
            },
            _ => r matches Err(ScriptError::NotArray(a)) && a@ == action@,
        },
{
    match value {
        TagsJson::Array(items) => {
            let mut tags: Vec<String> = Vec::new();
            let mut i: usize = 0;
            while i < items.len()
                invariant
                    i <= items@.len(),
                    tags@.len() == i,
                    forall|k: int| 0 <= k < i ==> (#[trigger] items@[k]) is Some,
                    forall|k: int| 0 <= k < i ==> Some(#[trigger] tags.deep_view()[k]) == opt_text(items@[k]),
                decreases items@.len() - i,
            {
                match &items[i] {
                    Some(s) => {
                        let ghost before = tags.deep_view();
                        tags.push(String::from_str(s.as_str()));
                        proof {
                            assert forall|k: int| 0 <= k < i + 1 implies Some(#[trigger] tags.deep_view()[k]) == opt_text(items@[k]) by {
                                if k < i {
                                    assert(tags.deep_view()[k] == before[k]);
                                }
                            }
                        }
                    },
                    None => {
                        proof {
                            assert(!(items@[i as int] is Some));
                        }
                        return Err(ScriptError::NotStringArray(String::from_str(action)));
                    },
                }
                i = i + 1;
            }
            Ok(tags)
        },
        _ => Err(ScriptError::NotArray(String::from_str(action))),
    }
}

/// The tags of a replace command as `old=new` arguments, in object order.
#[verifier::loop_isolation(false)]
pub fn parse_replace_tag_pairs(value: &TagsJson) -> (r: Result<Vec<String>, ScriptError>)
    ensures
        match value {
            TagsJson::Object(entries) => if forall|i: int| 0 <= i < entries@.len() ==> (#[trigger] entries@[i]).1 is Some {
                r matches Ok(pairs) && pairs@.len() == entries@.len()
                    && forall|i: int| 0 <= i < entries@.len() ==> (#[trigger] pairs@[i])@
                        == entries@[i].0@ + "="@ + entries@[i].1->0@
            } else {
                r matches Err(ScriptError::NotStringValue)
            },
            _ => r matches Err(ScriptError::NotObject),
        },
{
    match value {
        TagsJson::Object(entries) => {
            let mut pairs: Vec<String> = Vec::new();
            let mut i: usize = 0;
            while i < entries.len()
                invariant
                    i <= entries@.len(),
                    pairs@.len() == i,
                    forall|k: int| 0 <= k < i ==> (#[trigger] entries@[k]).1 is Some,
                    forall|k: int| 0 <= k < i ==> (#[trigger] pairs@[k])@ == entries@[k].0@ + "="@ + entries@[k].1->0@,
                decreases entries@.len() - i,
            {
                match &entries[i].1 {
                    Some(v) => {
                        let mut s = String::from_str(entries[i].0.as_str());
                        s.append("=");
                        s.append(v.as_str());
                        pairs.push(s);
                    },
                    None => {
                        proof {
                            assert(!(entries@[i as int].1 is Some));
                        }
                        return Err(ScriptError::NotStringValue);
                    },
                }
                i = i + 1;
            }
            Ok(pairs)
        },
        _ => Err(ScriptError::NotObject),
    }
}

/// The tags of a regex replace command as alternating pattern and
/// replacement arguments, in object order.
#[verifier::loop_isolation(false)]
pub fn positional_tag_pairs(value: &TagsJson) -> (r: Result<Vec<String>, ScriptError>)
    ensures
        match value {
            TagsJson::Object(entries) => if forall|i: int| 0 <= i < entries@.len() ==> (#[trigger] entries@[i]).1 is Some {
                r matches Ok(args) && args@.len() == 2 * entries@.len()
                    && forall|i: int| 0 <= i < entries@.len() ==> (#[trigger] args@[2 * i])@ == entries@[i].0@
                        && args@[2 * i + 1]@ == entries@[i].1->0@
            } else {
                r matches Err(ScriptError::NotStringValue)
            },
            _ => r matches Err(ScriptError::NotObject),
        },
{
    match value {
        TagsJson::Object(entries) => {
            let mut args: Vec<String> = Vec::new();
            let mut i: usize = 0;
            while i < entries.len()
                invariant
                    i <= entries@.len(),
                    args@.len() == 2 * i,
                    forall|k: int| 0 <= k < i ==> (#[trigger] entries@[k]).1 is Some,
                    forall|k: int| 0 <= k < i ==> (#[trigger] args@[2 * k])@ == entries@[k].0@,
                    forall|k: int| 0 <= k < i ==> (#[trigger] args@[2 * k + 1])@ == entries@[k].1->0@,
                decreases entries@.len() - i,
            {
                match &entries[i].1 {
                    Some(v) => {
                        let ghost before = args@;
                        let key = String::from_str(entries[i].0.as_str());
                        let val = String::from_str(v.as_str());
                        let ghost kv = (key, val);
                        args.push(key);
                        args.push(val);
                        proof {
                            assert(args@ == before.push(kv.0).push(kv.1));
                            assert(args@[2 * i as int] == kv.0);
                            assert(args@[2 * i as int + 1] == kv.1);
                            assert forall|k: int| 0 <= k < i + 1 implies (#[trigger] args@[2 * k])@ == entries@[k].0@ by {
                                if k < i {
                                    assert(args@[2 * k] == before[2 * k]);
                                }
                            }
                            assert forall|k: int| 0 <= k < i + 1 implies (#[trigger] args@[2 * k + 1])@ == entries@[k].1->0@ by {
                                if k < i {
                                    assert(args@[2 * k + 1] == before[2 * k + 1]);
                                }
                            }
                        }
                    },
                    None => {
                        proof {
                            assert(!(entries@[i as int].1 is Some));
                        }
                        return Err(ScriptError::NotStringValue);
                    },
                }
                i = i + 1;
            }
            Ok(args)
        },
        _ => Err(ScriptError::NotObject),
    }
}

/// Compiles each text as a pattern; the first that fails is reported.
pub fn compile_patterns(tags: &Vec<String>) -> (r: Result<Vec<TagPattern>, PatternError>)
    ensures
        r is Ok <==> all_compile(texts(tags@)),
        r matches Ok(ps) ==> sources(ps@) == texts(tags@),
        r matches Err(e) ==> exists|i: int| 0 <= i < tags@.len() && e.pattern@ == (#[trigger] tags@[i])@
            && !regex_compiles(tags@[i]@),
{
    let mut ps: Vec<TagPattern> = Vec::new();
    let mut i: usize = 0;
    while i < tags.len()
        invariant
            i <= tags@.len(),
            ps@.len() == i,
            forall|k: int| 0 <= k < i ==> regex_compiles(#[trigger] tags@[k]@),
            forall|k: int| 0 <= k < i ==> (#[trigger] ps@[k])@ == tags@[k]@,
        decreases tags@.len() - i,
    {
        match TagPattern::new(tags[i].as_str()) {
            Ok(p) => ps.push(p),
            Err(e) => {
                proof {
                    assert(texts(tags@)[i as int] == tags@[i as int]@);
                    assert(!regex_compiles(texts(tags@)[i as int]));
                }
                return Err(e);
            },
        }
        i = i + 1;
    }
    proof {
        assert(sources(ps@) =~= texts(tags@));
        assert forall|i: int| 0 <= i < texts(tags@).len() implies regex_compiles(#[trigger] texts(tags@)[i]) by {
            assert(texts(tags@)[i] == tags@[i]@);
        }
    }
    Ok(ps)
}

/// Every pattern compiles.
pub open spec fn all_compile(pats: Seq<Seq<char>>) -> bool {
    forall|i: int| 0 <= i < pats.len() ==> regex_compiles(#[trigger] pats[i])
}

/// The old sides of string pairs.
pub open spec fn pair_olds(m: Seq<(String, String)>) -> Seq<Seq<char>> {
    m.map_values(|p: (String, String)| p.0@)
}

/// The new sides of string pairs.
pub open spec fn pair_news(m: Seq<(String, String)>) -> Seq<Seq<char>> {
    m.map_values(|p: (String, String)| p.1@)
}

/// The old tags of a mapping.
pub open spec fn mapping_olds(m: crate::resolve::TagMapping) -> Seq<Seq<char>> {
    m.map_values(|p: (Seq<char>, Seq<char>)| p.0)
}

/// The new tags of a mapping.
pub open spec fn mapping_news(m: crate::resolve::TagMapping) -> Seq<Seq<char>> {
    m.map_values(|p: (Seq<char>, Seq<char>)| p.1)
}

/// Compiles the old side of each pair as a pattern, in order.
#[verifier::loop_isolation(false)]
pub fn compile_rules(mapping: Vec<(String, String)>) -> (r: Result<Vec<(TagPattern, String)>, PatternError>)
    ensures
        r is Ok <==> all_compile(pair_olds(mapping@)),
        r matches Ok(rules) ==> rule_patterns(rules@) == pair_olds(mapping@)
            && rule_targets(rules@) == pair_news(mapping@),
        r matches Err(e) ==> exists|i: int| 0 <= i < mapping@.len() && e.pattern@ == (#[trigger] mapping@[i]).0@
            && !regex_compiles(mapping@[i].0@),
{
    let ghost all = mapping@;
    let total = mapping.len();
    let mut rest = mapping;
    let mut rules: Vec<(TagPattern, String)> = Vec::new();
    let mut k: usize = 0;
    proof {
        assert(rest@ =~= all.skip(0));
    }
    while rest.len() > 0
        invariant
            k <= all.len(),
            all.len() == total,
            rest@ == all.skip(k as int),
            rules@.len() == k,
            forall|j: int| 0 <= j < k ==> regex_compiles(#[trigger] all[j].0@),
            forall|j: int| 0 <= j < k ==> (#[trigger] rules@[j]).0@ == all[j].0@ && rules@[j].1@ == all[j].1@,
        decreases rest@.len(),
    {
        let (old, new) = rest.remove(0);
        proof {
            assert(all[k as int] == (old, new));
            assert(rest@ =~= all.skip(k as int + 1));
        }
        match TagPattern::new(old.as_str()) {
            Ok(p) => rules.push((p, new)),
            Err(e) => {
                proof {
                    assert(e.pattern@ == all[k as int].0@);
                    assert(!regex_compiles(all[k as int].0@));
                    assert(pair_olds(all)[k as int] == all[k as int].0@);
                }
                return Err(e);
            },
        }
        k = k + 1;
    }
    proof {
        assert(rule_patterns(rules@) =~= pair_olds(all));
        assert(rule_targets(rules@) =~= pair_news(all));
        assert forall|i: int| 0 <= i < pair_olds(all).len() implies regex_compiles(#[trigger] pair_olds(all)[i]) by {
            assert(pair_olds(all)[i] == all[i].0@);
        }
    }
    Ok(rules)
}

/// The removal a command asks for: literal tags, or patterns under `regex`.
pub fn remove_operation(tags: &Vec<String>, regex: bool) -> (r: Result<TagOperation, PatternError>)
    ensures
        !regex ==> (r matches Ok(TagOperation::Remove(t)) && t.deep_view() == tags.deep_view()),
        regex ==> (r is Ok <==> all_compile(texts(tags@))),
        regex ==> (r matches Ok(op) ==> op matches TagOperation::RemoveMatching(ps) && sources(ps@) == texts(tags@)),
{
    if regex {
        match compile_patterns(tags) {
            Ok(ps) => Ok(TagOperation::RemoveMatching(ps)),
            Err(e) => Err(e),
        }
    } else {
        Ok(TagOperation::Remove(copy_tags(tags)))
    }
}

/// The replacement tag-pair arguments ask for; under `regex` the old sides
/// are patterns.
pub fn replace_operation(pairs: &[String], regex: bool) -> (r: Result<TagOperation, ScriptError>)
    ensures
        parse_pairs_spec(texts(pairs@), regex) is Err ==> (r matches Err(ScriptError::BadPairs(e))
            && parse_pairs_spec(texts(pairs@), regex) == Err::<crate::resolve::TagMapping, crate::pairs::PairFault>(e@)),
        parse_pairs_spec(texts(pairs@), regex) is Ok && !regex ==> (r matches Ok(TagOperation::Replace(v))
            && parse_pairs_spec(texts(pairs@), regex) == Ok::<crate::resolve::TagMapping, crate::pairs::PairFault>(v.deep_view())),
        parse_pairs_spec(texts(pairs@), regex) is Ok && regex ==> (r is Ok
            <==> all_compile(mapping_olds(parse_pairs_spec(texts(pairs@), regex)->Ok_0))),
        parse_pairs_spec(texts(pairs@), regex) is Ok && regex && r is Ok ==> (r->Ok_0 matches TagOperation::ReplaceMatching(rules)
            && rule_patterns(rules@) == mapping_olds(parse_pairs_spec(texts(pairs@), regex)->Ok_0)
            && rule_targets(rules@) == mapping_news(parse_pairs_spec(texts(pairs@), regex)->Ok_0)),
{
    match parse_tag_pairs(pairs, regex) {
        Err(e) => Err(ScriptError::BadPairs(e)),
        Ok(m) => {
            if regex {
                let ghost mv = m.deep_view();
                proof {
                    assert(pair_olds(m@) =~= mapping_olds(mv));
                    assert(pair_news(m@) =~= mapping_news(mv));
                }
                match compile_rules(m) {
                    Ok(rules) => {
                        proof {
                            assert(rule_patterns(rules@) == mapping_olds(mv));
                            assert(rule_targets(rules@) == mapping_news(mv));
                        }
                        Ok(TagOperation::ReplaceMatching(rules))
                    },
                    Err(e) => {
                        Err(ScriptError::BadPattern(e))
                    },
                }
            } else {
                proof {
                    assert(parse_pairs_spec(texts(pairs@), regex) == Ok::<crate::resolve::TagMapping, crate::pairs::PairFault>(m.deep_view()));
                }
                let r = Ok(TagOperation::Replace(m));
                proof {
                    assert(r matches Ok(TagOperation::Replace(v)) && v.deep_view() == m.deep_view());
                }
                r
            }
        },
    }
}

/// Counts one script command: it succeeded, or failed as a whole.
pub fn record_command(results: &mut ProcessResults, ok: bool)
    requires
        old(results).wf(),
        old(results).processed + old(results).skipped < old(results).total,
    ensures
        final(results).wf(),
        final(results).processed == old(results).processed + 1,
        final(results).success == old(results).success + if ok { 1int } else { 0int },
        final(results).failed == old(results).failed + if ok { 0int } else { 1int },
        final(results).total == old(results).total,
        final(results).skipped == old(results).skipped,
        final(results).aborted == old(results).aborted,
{
    results.processed = results.processed + 1;
    if ok {
        results.success = results.success + 1;
    } else {
        results.failed = results.failed + 1;
    }
}

/// What one script command will run.
pub struct CommandPlan {
    pub cql_expression: String,
    pub cql_exclude: Option<String>,
    pub interactive: bool,
    pub operation: TagOperation,
}

/// Every element of the array is a string.
pub open spec fn all_strings(items: Vec<Option<String>>) -> bool {
    forall|i: int| 0 <= i < items@.len() ==> (#[trigger] items@[i]) is Some
}

/// The tags are the strings of the array, in order.
pub open spec fn same_tags(t: Vec<String>, items: Vec<Option<String>>) -> bool {
    &&& t@.len() == items@.len()
    &&& forall|i: int| 0 <= i < items@.len() ==> Some(#[trigger] t.deep_view()[i]) == opt_text(items@[i])
}

/// The actions a script knows.
pub open spec fn known_action(a: Seq<char>) -> bool {
    a == "add"@ || a == "remove"@ || a == "replace"@
}

/// Plans one script command: checks its action and its `tags` payload and
/// builds the operation. An unknown action, a missing or ill-shaped
/// payload, bad tag pairs and patterns that do not compile are errors of
/// this command alone.
pub fn plan_command(cmd: &JsonCommand) -> (r: Result<CommandPlan, ScriptError>)
    ensures
        !known_action(cmd.action@) ==> (r matches Err(ScriptError::UnknownAction(a)) && a@ == cmd.action@),
        known_action(cmd.action@) && cmd.tags is None ==> (r matches Err(ScriptError::MissingTags(a))
            && a@ == cmd.action@),
        match cmd.tags {
            Some(TagsJson::Array(items)) => (cmd.action@ == "add"@ || (cmd.action@ == "remove"@ && !cmd.regex))
                && all_strings(items)
                ==> (r matches Ok(plan) && ((plan.operation matches TagOperation::Add(t) && same_tags(t, items))
                    || (plan.operation matches TagOperation::Remove(t) && same_tags(t, items)))),
            _ => true,
        },
        (cmd.action@ == "add"@ || cmd.action@ == "remove"@) && cmd.tags is Some && !(cmd.tags->0 is Array)
            ==> (r matches Err(ScriptError::NotArray(a)) && a@ == cmd.action@),
        cmd.action@ == "replace"@ && cmd.tags is Some && !(cmd.tags->0 is Object)
            ==> r matches Err(ScriptError::NotObject),
        r matches Ok(plan) ==> {
            &&& plan.cql_expression@ == cmd.cql_expression@
            &&& opt_text(plan.cql_exclude) == opt_text(cmd.cql_exclude)
            &&& plan.interactive == cmd.interactive
            &&& (cmd.action@ == "add"@ ==> plan.operation is Add)
            &&& (cmd.action@ == "remove"@ ==> (if cmd.regex { plan.operation is RemoveMatching } else { plan.operation is Remove }))
            &&& (cmd.action@ == "replace"@ ==> (if cmd.regex { plan.operation is ReplaceMatching } else { plan.operation is Replace }))
        },
{
    proof {
        reveal_strlit("add");
        reveal_strlit("remove");
        reveal_strlit("replace");
        assert("add"@.len() == 3);
        assert("remove"@.len() == 6);
        assert("replace"@[2] == 'p' && "remove"@[2] == 'm');
        assert("add"@ != "remove"@ && "add"@ != "replace"@ && "remove"@ != "replace"@);
    }
    let action = cmd.action.as_str();
    let is_add = text_eq(action, "add");
    let is_remove = text_eq(action, "remove");
    let is_replace = text_eq(action, "replace");
    if !is_add && !is_remove && !is_replace {
        return Err(ScriptError::UnknownAction(String::from_str(action)));
    }
    let value = match &cmd.tags {
        Some(v) => v,
        None => {
            return Err(ScriptError::MissingTags(String::from_str(action)));
        },
    };
    let operation = if is_add {
        match parse_add_remove_tags(value, action) {
            Ok(tags) => TagOperation::Add(tags),
            Err(e) => {
                return Err(e);
            },
        }
    } else if is_remove {
        let tags = match parse_add_remove_tags(value, action) {
            Ok(tags) => tags,
            Err(e) => {
                return Err(e);
            },
        };
        match remove_operation(&tags, cmd.regex) {
            Ok(op) => {
                proof {
                    if op is Remove && *value is Array {
                        let t = op->Remove_0;
                        let items = value->Array_0;
                        if same_tags(tags, items) {
                            assert(t@.len() == t.deep_view().len());
                            assert(tags@.len() == tags.deep_view().len());
                            assert(same_tags(t, items));
                        }
                    }
                }
                op
            },
            Err(e) => {
                return Err(ScriptError::BadPattern(e));
            },
        }
    } else {
        let shaped = if cmd.regex {
            positional_tag_pairs(value)
        } else {
            parse_replace_tag_pairs(value)
        };
        let pairs = match shaped {
            Ok(p) => p,
            Err(e) => {
                return Err(e);
            },
        };
        match replace_operation(pairs.as_slice(), cmd.regex) {
            Ok(op) => op,
            Err(e) => {
                return Err(e);
            },
        }
    };
    let exclude = match &cmd.cql_exclude {
        Some(x) => Some(String::from_str(x.as_str())),
        None => None,
    };
    Ok(CommandPlan {
        cql_expression: String::from_str(cmd.cql_expression.as_str()),
        cql_exclude: exclude,
        interactive: cmd.interactive,
        operation,
    })
}

} // verus!
