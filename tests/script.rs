use ctag::model::ProcessResults;
use ctag::resolve::TagOperation;
use ctag::script::{
    parse_add_remove_tags, parse_replace_tag_pairs, plan_command, positional_tag_pairs, record_command, JsonCommand,
    ScriptError, TagsJson,
};

fn command(action: &str, tags: Option<TagsJson>, regex: bool) -> JsonCommand {
    JsonCommand {
        action: action.to_string(),
        cql_expression: "space = DOCS".to_string(),
        tags,
        interactive: false,
        cql_exclude: Some("label = keep".to_string()),
        regex,
    }
}

fn array(items: &[&str]) -> TagsJson {
    TagsJson::Array(items.iter().map(|s| Some(s.to_string())).collect())
}

fn object(entries: &[(&str, &str)]) -> TagsJson {
    TagsJson::Object(entries.iter().map(|(k, v)| (k.to_string(), Some(v.to_string()))).collect())
}

#[test]
fn parse_add_remove_tags_valid_array() {
    let value = array(&["a", "b"]);
    let tags = parse_add_remove_tags(&value, "add").ok().unwrap();
    assert_eq!(tags, vec!["a".to_string(), "b".to_string()]);
}

#[test]
fn parse_replace_tag_pairs_valid_object() {
    let value = object(&[("old", "new"), ("foo", "bar")]);
    let mut pairs = parse_replace_tag_pairs(&value).ok().unwrap();
    pairs.sort();
    assert_eq!(pairs, vec!["foo=bar".to_string(), "old=new".to_string()]);
}

#[test]
fn tags_payload_shape_errors() {
    let mixed = TagsJson::Array(vec![Some("a".to_string()), None]);
    let e = parse_add_remove_tags(&mixed, "remove").err().unwrap();
    assert!(e.message().contains("must contain only strings"));
    let e = parse_add_remove_tags(&TagsJson::Other, "add").err().unwrap();
    assert!(e.message().contains("must be an array of strings"));
    assert!(matches!(parse_replace_tag_pairs(&array(&["x"])), Err(ScriptError::NotObject)));
    let bad = TagsJson::Object(vec![("k".to_string(), None)]);
    assert!(matches!(parse_replace_tag_pairs(&bad), Err(ScriptError::NotStringValue)));
}

#[test]
fn plan_command_builds_operations() {
    let plan = plan_command(&command("add", Some(array(&["t"])), false)).ok().unwrap();
    assert_eq!(plan.cql_expression, "space = DOCS");
    assert_eq!(plan.cql_exclude.as_deref(), Some("label = keep"));
    assert!(matches!(plan.operation, TagOperation::Add(ref t) if t == &vec!["t".to_string()]));
    let plan = plan_command(&command("remove", Some(array(&["bar-.*"])), true)).ok().unwrap();
    assert!(matches!(plan.operation, TagOperation::RemoveMatching(ref p) if p.len() == 1));
    let plan = plan_command(&command("replace", Some(object(&[("foo-.*", "replaced-foo")])), true)).ok().unwrap();
    assert!(matches!(plan.operation, TagOperation::ReplaceMatching(ref r) if r.len() == 1));
    let plan = plan_command(&command("replace", Some(object(&[("old", "new")])), false)).ok().unwrap();
    match plan.operation {
        TagOperation::Replace(m) => assert_eq!(m, vec![("old".to_string(), "new".to_string())]),
        _ => panic!("expected a literal replacement"),
    }
}

#[test]
fn plan_command_errors() {
    let e = plan_command(&command("rename", Some(array(&["t"])), false)).err().unwrap();
    assert_eq!(e.message(), "Unknown action: rename");
    let e = plan_command(&command("add", None, false)).err().unwrap();
    assert_eq!(e.message(), "'tags' field required for 'add' action");
    let e = plan_command(&command("remove", Some(array(&["("])), true)).err().unwrap();
    assert!(e.message().starts_with("Invalid regex '('"));
    let e = plan_command(&command("replace", Some(object(&[("old", " ")])), false)).err().unwrap();
    assert!(e.message().contains("must be non-empty"));
}

#[test]
fn script_summary_counts_each_command() {
    let mut results = ProcessResults::new(3);
    record_command(&mut results, true);
    record_command(&mut results, false);
    record_command(&mut results, true);
    assert_eq!((results.processed, results.success, results.failed), (3, 2, 1));
}

#[test]
fn positional_pairs_follow_object_order() {
    let value = object(&[("z-.*", "last"), ("a-.*", "first")]);
    let args = positional_tag_pairs(&value).ok().unwrap();
    assert_eq!(args, vec!["z-.*", "last", "a-.*", "first"]);
    assert!(matches!(positional_tag_pairs(&TagsJson::Other), Err(ScriptError::NotObject)));
}
