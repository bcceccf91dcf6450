use sarex::ci::{create_cis, extract_ci, find_corresponding_mapping_rule, get_mapping_rule_id};
use sarex::ci::{CIError, ExecutionTrace};
use sarex::model::mapping_rules::{MappingRule, Relation};
use sarex::values::ValueMap;

const KEY_A: [u8; 12] = [0x65, 0xa1, 0xb2, 0xc3, 0xd4, 0xe5, 0xf6, 0x07, 0x18, 0x29, 0x3a, 0x4b];
const HEX_A: &str = "65a1b2c3d4e5f60718293a4b";
const KEY_B: [u8; 12] = [0, 1, 2, 3, 4, 5, 6, 7, 8, 9, 10, 255];
const HEX_B: &str = "000102030405060708090aff";

fn text(s: &str) -> String {
    s.to_string()
}

fn bag(entries: &[(&str, &str)]) -> ValueMap {
    let mut values = ValueMap::new();
    for (name, value) in entries {
        values.insert(name.to_string(), value.to_string());
    }
    values
}

fn entries(values: &ValueMap) -> Vec<(String, String)> {
    let mut all = Vec::new();
    for i in 0..values.len() {
        all.push((values.key_at(i).clone(), values.value_at(i).clone()));
    }
    all.sort();
    all
}

fn pairs(expected: &[(&str, &str)]) -> Vec<(String, String)> {
    let mut all: Vec<(String, String)> =
        expected.iter().map(|(k, v)| (k.to_string(), v.to_string())).collect();
    all.sort();
    all
}

fn rule(id: Option<[u8; 12]>, connector_type: &str, source: &[&str], target: &[&str]) -> MappingRule {
    MappingRule {
        id,
        project_id: text("project"),
        procedure: text("proc"),
        relation: Relation {
            id: text("relation"),
            source: text("caller"),
            target: text("callee"),
            project_id: text("project"),
        },
        connector_type: text(connector_type),
        source_component_identifier_schema: source.iter().map(|s| s.to_string()).collect(),
        target_component_identifier_schema: target.iter().map(|s| s.to_string()).collect(),
    }
}

fn trace(id: &str, source: &[(&str, &str)], target: &[(&str, &str)]) -> ExecutionTrace {
    ExecutionTrace { id: text(id), source_values: bag(source), target_values: bag(target) }
}

#[test]
fn rule_key_is_the_text_before_the_first_separator() {
    assert_eq!(get_mapping_rule_id("abc_proc_0"), Ok(text("abc")));
    assert_eq!(get_mapping_rule_id("abc_"), Ok(text("abc")));
    assert_eq!(get_mapping_rule_id("a_b"), Ok(text("a")));
    assert_eq!(get_mapping_rule_id("ключ_proc_1"), Ok(text("ключ")));
}

#[test]
fn rule_key_may_be_empty() {
    assert_eq!(get_mapping_rule_id("_proc_0"), Ok(text("")));
    assert_eq!(get_mapping_rule_id("_"), Ok(text("")));
}

#[test]
fn identifier_without_separator_is_malformed() {
    assert_eq!(get_mapping_rule_id("abc"), Err(CIError::MalformedExecutionTraceId));
    assert_eq!(get_mapping_rule_id(HEX_A), Err(CIError::MalformedExecutionTraceId));
    assert_eq!(get_mapping_rule_id("a-b.c"), Err(CIError::MalformedExecutionTraceId));
}

#[test]
fn empty_identifier_is_malformed() {
    assert_eq!(get_mapping_rule_id(""), Err(CIError::MalformedExecutionTraceId));
}

#[test]
fn rule_matches_the_hexadecimal_text_of_its_identifier() {
    let r = rule(Some(KEY_A), "HTTP", &[], &[]);
    assert!(r.has_key(&text(HEX_A)));
    assert!(!r.has_key(&text("65A1B2C3D4E5F60718293A4B")));
    assert!(!r.has_key(&text("65a1b2c3d4e5f60718293a4")));
    assert!(!r.has_key(&text("")));
    let other = rule(Some(KEY_B), "HTTP", &[], &[]);
    assert!(other.has_key(&text(HEX_B)));
    assert!(!other.has_key(&text(HEX_A)));
}

#[test]
fn rule_without_identifier_matches_no_key() {
    let r = rule(None, "HTTP", &[], &[]);
    assert!(!r.has_key(&text(HEX_A)));
    assert!(!r.has_key(&text("")));
}

#[test]
fn rule_key_agrees_with_the_database_library() {
    let id = bson::oid::ObjectId::parse_str(HEX_A).unwrap();
    assert_eq!(id.bytes(), KEY_A);
    let r = rule(Some(id.bytes()), "HTTP", &[], &[]);
    assert!(r.has_key(&id.to_hex()));
}

#[test]
fn finds_the_rule_that_the_identifier_names() {
    let rules = vec![rule(Some(KEY_B), "RPC", &[], &[]), rule(Some(KEY_A), "HTTP", &[], &["host"])];
    let found = find_corresponding_mapping_rule(&rules, &format!("{}_proc_0", HEX_A)).unwrap();
    assert_eq!(found.id, Some(KEY_A));
    assert_eq!(found.connector_type, "HTTP");
    assert_eq!(found.target_component_identifier_schema, vec![text("host")]);
    assert_eq!(found.project_id, "project");
    assert_eq!(found.procedure, "proc");
    assert_eq!(found.relation.source, "caller");
}

#[test]
fn first_of_several_rules_with_one_key_wins() {
    let rules = vec![
        rule(None, "NONE", &[], &[]),
        rule(Some(KEY_A), "FIRST", &[], &[]),
        rule(Some(KEY_A), "SECOND", &[], &[]),
    ];
    let found = find_corresponding_mapping_rule(&rules, &format!("{}_x", HEX_A)).unwrap();
    assert_eq!(found.connector_type, "FIRST");
}

#[test]
fn unknown_rule_key_has_no_corresponding_rule() {
    let rules = vec![rule(Some(KEY_A), "HTTP", &[], &[])];
    let found = find_corresponding_mapping_rule(&rules, &format!("{}_proc_0", HEX_B));
    assert_eq!(found.err(), Some(CIError::NoCorrespondingMappingRule));
    let none = find_corresponding_mapping_rule(&[], &format!("{}_proc_0", HEX_A));
    assert_eq!(none.err(), Some(CIError::NoCorrespondingMappingRule));
    let empty_key = find_corresponding_mapping_rule(&rules, "_proc_0");
    assert_eq!(empty_key.err(), Some(CIError::NoCorrespondingMappingRule));
}

#[test]
fn malformed_identifier_is_reported_before_the_rules_are_searched() {
    let rules = vec![rule(Some(KEY_A), "HTTP", &[], &[])];
    let found = find_corresponding_mapping_rule(&rules, HEX_A);
    assert_eq!(found.err(), Some(CIError::MalformedExecutionTraceId));
}

#[test]
fn keyed_trace_gets_the_connector_type_of_its_rule() {
    let rules = vec![rule(Some(KEY_A), "HTTP", &["host"], &["host"])];
    let traces = vec![trace(&format!("{}_proc_0", HEX_A), &[("host", "a")], &[("host", "b")])];
    let cis = create_cis(traces, rules).unwrap();
    assert_eq!(cis.len(), 1);
    assert_eq!(cis[0].connector_type, "HTTP");
    assert_eq!(cis[0].id, format!("{}_proc_0", HEX_A));
    assert_eq!(entries(&cis[0].source_component_values), pairs(&[("host", "a")]));
    assert_eq!(entries(&cis[0].target_component_values), pairs(&[("host", "b")]));
}

#[test]
fn target_values_hold_only_names_of_the_target_schema() {
    let r = rule(Some(KEY_A), "HTTP", &[], &["host", "port"]);
    let t = trace("x_0", &[], &[("host", "b"), ("secret", "s"), ("port", "81"), ("zone", "eu")]);
    let ci = extract_ci(&t, &r);
    assert_eq!(entries(&ci.target_component_values), pairs(&[("host", "b"), ("port", "81")]));
    assert_eq!(ci.target_component_values.get(&text("secret")), None);
}

#[test]
fn target_values_skip_unobserved_and_missing_fields() {
    let r = rule(Some(KEY_A), "HTTP", &[], &["host", "port", "path", "host"]);
    let t = trace("x_0", &[], &[("host", "b"), ("port", "")]);
    let ci = extract_ci(&t, &r);
    assert_eq!(entries(&ci.target_component_values), pairs(&[("host", "b")]));
}

#[test]
fn source_values_keep_every_observed_field_whatever_the_schema() {
    let r = rule(Some(KEY_A), "HTTP", &["host"], &["host"]);
    let t = trace("x_0", &[("host", "a"), ("pid", "42"), ("user", ""), ("thread", "main")], &[]);
    let ci = extract_ci(&t, &r);
    assert_eq!(
        entries(&ci.source_component_values),
        pairs(&[("host", "a"), ("pid", "42"), ("thread", "main")])
    );
    assert_eq!(ci.source_component_values.get(&text("user")), None);
    assert_eq!(ci.target_component_values.len(), 0);
}

#[test]
fn extraction_copies_identifier_and_type() {
    let r = rule(None, "Pub/Sub", &[], &[]);
    let t = trace("whatever", &[], &[]);
    let ci = extract_ci(&t, &r);
    assert_eq!(ci.id, "whatever");
    assert_eq!(ci.connector_type, "Pub/Sub");
    assert_eq!(ci.source_component_values.len(), 0);
    assert_eq!(ci.target_component_values.len(), 0);
}

#[test]
fn instances_come_in_the_order_of_the_traces() {
    let rules = vec![rule(Some(KEY_A), "HTTP", &[], &["host"]), rule(Some(KEY_B), "RPC", &[], &["svc"])];
    let traces = vec![
        trace(&format!("{}_p_0", HEX_B), &[("host", "a")], &[("svc", "s"), ("host", "h")]),
        trace(&format!("{}_p_1", HEX_A), &[("host", "b")], &[("svc", "s"), ("host", "h")]),
        trace(&format!("{}_p_2", HEX_B), &[("host", "c")], &[]),
    ];
    let cis = create_cis(traces, rules).unwrap();
    assert_eq!(cis.len(), 3);
    assert_eq!(cis[0].connector_type, "RPC");
    assert_eq!(cis[1].connector_type, "HTTP");
    assert_eq!(cis[2].connector_type, "RPC");
    assert_eq!(cis[0].id, format!("{}_p_0", HEX_B));
    assert_eq!(entries(&cis[0].target_component_values), pairs(&[("svc", "s")]));
    assert_eq!(entries(&cis[1].target_component_values), pairs(&[("host", "h")]));
    assert_eq!(cis[2].target_component_values.len(), 0);
}

#[test]
fn no_traces_give_no_instances() {
    let cis = create_cis(Vec::new(), vec![rule(Some(KEY_A), "HTTP", &[], &[])]).unwrap();
    assert!(cis.is_empty());
    let none = create_cis(Vec::new(), Vec::new()).unwrap();
    assert!(none.is_empty());
}

#[test]
fn first_failing_trace_ends_the_run_with_its_error() {
    let rules = vec![rule(Some(KEY_A), "HTTP", &[], &[])];
    let unmatched_first = vec![
        trace(&format!("{}_p_0", HEX_A), &[], &[]),
        trace(&format!("{}_p_1", HEX_B), &[], &[]),
        trace("nokey", &[], &[]),
    ];
    assert_eq!(create_cis(unmatched_first, rules).err(), Some(CIError::NoCorrespondingMappingRule));

    let rules = vec![rule(Some(KEY_A), "HTTP", &[], &[])];
    let malformed_first = vec![
        trace(&format!("{}_p_0", HEX_A), &[], &[]),
        trace("nokey", &[], &[]),
        trace(&format!("{}_p_1", HEX_B), &[], &[]),
    ];
    assert_eq!(create_cis(malformed_first, rules).err(), Some(CIError::MalformedExecutionTraceId));
}

#[test]
fn extraction_errors_in_words() {
    assert_eq!(CIError::MalformedExecutionTraceId.message(), "Malformed execution trace id");
    assert_eq!(CIError::NoCorrespondingMappingRule.message(), "No corresponding mapping rule");
}

#[test]
fn rule_and_relation_clone_field_by_field() {
    let r = rule(Some(KEY_B), "HTTP", &["a", "b"], &["c"]);
    let copy = r.clone();
    assert_eq!(copy.id, Some(KEY_B));
    assert_eq!(copy.project_id, r.project_id);
    assert_eq!(copy.procedure, r.procedure);
    assert_eq!(copy.connector_type, r.connector_type);
    assert_eq!(copy.source_component_identifier_schema, vec![text("a"), text("b")]);
    assert_eq!(copy.target_component_identifier_schema, vec![text("c")]);
    let relation = r.relation.clone();
    assert_eq!(relation.id, "relation");
    assert_eq!(relation.source, "caller");
    assert_eq!(relation.target, "callee");
    assert_eq!(relation.project_id, "project");
}
