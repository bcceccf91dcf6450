use sarex::ci::Ci;
use sarex::conn::{build_model, create_connector_if_not_exist, enrich, find_component_in_model};
use sarex::conn::{find_or_create_component_if_not_exist, fresh_component_id, values_match};
use sarex::conn::{try_build_model, unused_component_id};
use sarex::conn::{Component, Connector, Model};
use sarex::values::ValueMap;

fn text(s: &str) -> String {
    s.to_string()
}

fn bag(entries: &[(&str, &str)]) -> ValueMap {
    let mut values = ValueMap::new();
    for (name, value) in entries {
        values.insert(name.to_string(), value.to_string());
    }
    values
}

fn entries(values: &ValueMap) -> Vec<(String, String)> {
    let mut all = Vec::new();
    for i in 0..values.len() {
        all.push((values.key_at(i).clone(), values.value_at(i).clone()));
    }
    all.sort();
    all
}

fn pairs(expected: &[(&str, &str)]) -> Vec<(String, String)> {
    let mut all: Vec<(String, String)> =
        expected.iter().map(|(k, v)| (k.to_string(), v.to_string())).collect();
    all.sort();
    all
}

fn ci(connector_type: &str, source: &[(&str, &str)], target: &[(&str, &str)]) -> Ci {
    Ci {
        id: text("trace"),
        connector_type: text(connector_type),
        source_component_values: bag(source),
        target_component_values: bag(target),
    }
}

fn position_of(model: &Model, id: &str) -> usize {
    model.components.iter().position(|c| c.id == id).unwrap()
}

/// The connectors with component positions in place of identifiers.
fn links(model: &Model) -> Vec<(String, usize, usize)> {
    model
        .connectors
        .iter()
        .map(|c| {
            (
                c.connector_type.clone(),
                position_of(model, &c.source_component_id),
                position_of(model, &c.target_component_id),
            )
        })
        .collect()
}

fn bags(model: &Model) -> Vec<Vec<(String, String)>> {
    model.components.iter().map(|c| entries(&c.component_values)).collect()
}

fn assert_model_invariants(model: &Model) {
    for (i, a) in model.components.iter().enumerate() {
        assert_eq!(a.id.len(), 10);
        assert!(a.id.chars().all(|c| c.is_ascii_uppercase()));
        for b in &model.components[i + 1..] {
            assert_ne!(a.id, b.id);
        }
    }
    for (i, a) in model.connectors.iter().enumerate() {
        assert!(model.components.iter().any(|c| c.id == a.source_component_id));
        assert!(model.components.iter().any(|c| c.id == a.target_component_id));
        for b in &model.connectors[i + 1..] {
            assert!(
                a.connector_type != b.connector_type
                    || a.source_component_id != b.source_component_id
                    || a.target_component_id != b.target_component_id
            );
        }
    }
}

#[test]
fn duplicate_instances_collapse_to_one_connector() {
    let cis = vec![
        ci("HTTP", &[("host", "a")], &[("host", "b")]),
        ci("HTTP", &[("host", "a")], &[("host", "b")]),
    ];
    let model = build_model(cis);
    assert_eq!(model.components.len(), 2);
    assert_eq!(model.connectors.len(), 1);
    assert_eq!(bags(&model), vec![pairs(&[("host", "a")]), pairs(&[("host", "b")])]);
    assert_eq!(links(&model), vec![(text("HTTP"), 0, 1)]);
    assert_model_invariants(&model);
}

#[test]
fn partial_source_joins_the_fuller_component() {
    let cis = vec![
        ci("HTTP", &[("host", "a"), ("port", "80")], &[("host", "b")]),
        ci("HTTP", &[("host", "a")], &[("host", "b")]),
    ];
    let model = build_model(cis);
    assert_eq!(model.components.len(), 2);
    assert_eq!(bags(&model), vec![pairs(&[("host", "a"), ("port", "80")]), pairs(&[("host", "b")])]);
    assert_eq!(links(&model), vec![(text("HTTP"), 0, 1)]);
    assert_model_invariants(&model);
}

#[test]
fn fuller_source_enriches_the_partial_component() {
    let cis = vec![
        ci("HTTP", &[("host", "a")], &[("host", "b")]),
        ci("HTTP", &[("host", "a"), ("port", "80")], &[("host", "b")]),
    ];
    let model = build_model(cis);
    assert_eq!(bags(&model), vec![pairs(&[("host", "a"), ("port", "80")]), pairs(&[("host", "b")])]);
    assert_eq!(links(&model), vec![(text("HTTP"), 0, 1)]);
}

#[test]
fn agreeing_sources_resolve_to_one_component() {
    let cis = vec![
        ci("HTTP", &[("host", "a"), ("zone", "eu")], &[("svc", "x")]),
        ci("RPC", &[("host", "a"), ("zone", "eu"), ("pid", "7")], &[("svc", "y")]),
    ];
    let model = build_model(cis);
    assert_eq!(model.connectors.len(), 2);
    assert_eq!(model.connectors[0].source_component_id, model.connectors[1].source_component_id);
    assert_eq!(model.connectors[0].source_component_id, model.components[0].id);
    assert_eq!(
        entries(&model.components[0].component_values),
        pairs(&[("host", "a"), ("zone", "eu"), ("pid", "7")])
    );
}

#[test]
fn conflicting_sources_resolve_to_two_components() {
    let cis = vec![
        ci("HTTP", &[("host", "a")], &[("svc", "x")]),
        ci("HTTP", &[("host", "b")], &[("svc", "x")]),
    ];
    let model = build_model(cis);
    assert_eq!(model.connectors.len(), 2);
    assert_ne!(model.connectors[0].source_component_id, model.connectors[1].source_component_id);
    assert_eq!(
        bags(&model),
        vec![pairs(&[("host", "a")]), pairs(&[("host", "b")]), pairs(&[("svc", "x")])]
    );
    assert_eq!(links(&model), vec![(text("HTTP"), 0, 2), (text("HTTP"), 1, 2)]);
    assert_model_invariants(&model);
}

#[test]
fn sources_that_only_overlap_stay_apart() {
    let cis = vec![
        ci("HTTP", &[("host", "a"), ("port", "80"), ("x", "1")], &[]),
        ci("HTTP", &[("host", "a"), ("y", "2")], &[]),
    ];
    let model = build_model(cis);
    assert_ne!(model.connectors[0].source_component_id, model.connectors[1].source_component_id);
}

#[test]
fn source_components_come_before_target_components() {
    let cis = vec![
        ci("A", &[("s", "1")], &[("t", "1")]),
        ci("B", &[("s", "2")], &[("t", "2")]),
        ci("C", &[("s", "3")], &[("s", "1")]),
    ];
    let model = build_model(cis);
    assert_eq!(
        bags(&model),
        vec![
            pairs(&[("s", "1")]),
            pairs(&[("s", "2")]),
            pairs(&[("s", "3")]),
            pairs(&[("t", "1")]),
            pairs(&[("t", "2")]),
        ]
    );
    assert_eq!(links(&model), vec![(text("A"), 0, 3), (text("B"), 1, 4), (text("C"), 2, 0)]);
    assert_model_invariants(&model);
}

#[test]
fn connectors_differ_by_type_and_keep_their_order() {
    let cis = vec![
        ci("RPC", &[("host", "a")], &[("host", "b")]),
        ci("HTTP", &[("host", "a")], &[("host", "b")]),
        ci("RPC", &[("host", "a")], &[("host", "b")]),
        ci("HTTP", &[("host", "b")], &[("host", "a")]),
    ];
    let model = build_model(cis);
    assert_eq!(model.components.len(), 2);
    assert_eq!(
        links(&model),
        vec![(text("RPC"), 0, 1), (text("HTTP"), 0, 1), (text("HTTP"), 1, 0)]
    );
    assert_model_invariants(&model);
}

#[test]
fn empty_target_bag_joins_the_first_component() {
    let cis = vec![ci("HTTP", &[("host", "a")], &[]), ci("HTTP", &[("host", "b")], &[])];
    let model = build_model(cis);
    assert_eq!(model.components.len(), 2);
    assert_eq!(links(&model), vec![(text("HTTP"), 0, 0), (text("HTTP"), 1, 0)]);
}

#[test]
fn no_instances_give_an_empty_model() {
    let model = build_model(Vec::new());
    assert!(model.components.is_empty());
    assert!(model.connectors.is_empty());
}

#[test]
fn a_lone_instance_without_values_gives_one_component_linked_to_itself() {
    let model = build_model(vec![ci("HTTP", &[], &[])]);
    assert_eq!(model.components.len(), 1);
    assert_eq!(model.components[0].component_values.len(), 0);
    assert_eq!(links(&model), vec![(text("HTTP"), 0, 0)]);
}

#[test]
fn building_twice_gives_the_same_model_up_to_identifiers() {
    let make = || {
        vec![
            ci("HTTP", &[("host", "a"), ("port", "80")], &[("host", "b")]),
            ci("RPC", &[("host", "a")], &[("host", "c"), ("port", "1")]),
            ci("HTTP", &[("host", "d")], &[("host", "b")]),
            ci("HTTP", &[("host", "a")], &[("host", "b")]),
            ci("MQ", &[("host", "c")], &[("host", "d"), ("queue", "q")]),
        ]
    };
    let one = build_model(make());
    let two = build_model(make());
    assert_eq!(bags(&one), bags(&two));
    assert_eq!(links(&one), links(&two));
    assert_model_invariants(&one);
    assert_model_invariants(&two);
    let count = one.components.len();
    for i in 0..one.connectors.len() {
        let s = position_of(&one, &one.connectors[i].source_component_id);
        let t = position_of(&one, &one.connectors[i].target_component_id);
        assert!(s < count && t < count);
        assert_eq!(two.connectors[i].source_component_id, two.components[s].id);
        assert_eq!(two.connectors[i].target_component_id, two.components[t].id);
    }
}

#[test]
fn many_instances_keep_the_model_invariants() {
    let mut cis = Vec::new();
    for i in 0..40 {
        let host = format!("h{}", i % 7);
        let port = format!("{}", 8000 + i % 3);
        let peer = format!("h{}", (i * 5 + 1) % 7);
        let kind = if i % 2 == 0 { "HTTP" } else { "RPC" };
        if i % 4 == 0 {
            cis.push(ci(kind, &[("host", &host), ("port", &port)], &[("host", &peer)]));
        } else {
            cis.push(ci(kind, &[("host", &host)], &[("host", &peer), ("port", &port)]));
        }
    }
    let model = build_model(cis);
    assert_model_invariants(&model);
    assert!(model.components.len() <= 120);
}

#[test]
fn smaller_candidate_matches_when_its_observed_entries_are_held() {
    let existing = bag(&[("host", "a"), ("port", "80")]);
    assert!(values_match(&existing, &bag(&[("host", "a")])));
    assert!(values_match(&existing, &bag(&[("port", "80")])));
    assert!(!values_match(&existing, &bag(&[("host", "b")])));
    assert!(!values_match(&existing, &bag(&[("zone", "eu")])));
}

#[test]
fn larger_candidate_matches_when_it_holds_the_existing_observed_entries() {
    let existing = bag(&[("host", "a")]);
    assert!(values_match(&existing, &bag(&[("host", "a"), ("port", "80")])));
    assert!(!values_match(&existing, &bag(&[("host", "b"), ("port", "80")])));
    assert!(!values_match(&existing, &bag(&[("port", "80"), ("zone", "eu")])));
}

#[test]
fn bags_of_equal_size_match_by_the_existing_bag() {
    assert!(values_match(&bag(&[("host", "a")]), &bag(&[("host", "a")])));
    assert!(!values_match(&bag(&[("host", "a")]), &bag(&[("port", "80")])));
    assert!(values_match(&bag(&[("host", "")]), &bag(&[("port", "80")])));
    assert!(!values_match(&bag(&[("port", "80")]), &bag(&[("host", "")])));
}

#[test]
fn unobserved_entries_are_never_compared() {
    let existing = bag(&[("host", "a"), ("port", "80"), ("zone", "eu")]);
    assert!(values_match(&existing, &bag(&[("host", "a"), ("other", "")])));
    assert!(values_match(&existing, &bag(&[("host", ""), ("port", "")])));
    let sparse = bag(&[("host", ""), ("zone", "")]);
    assert!(values_match(&sparse, &bag(&[("a", "1"), ("b", "2")])));
    assert!(values_match(&sparse, &bag(&[("a", "1"), ("b", "2"), ("c", "3")])));
}

#[test]
fn empty_candidate_matches_any_existing_bag() {
    assert!(values_match(&bag(&[("host", "a")]), &ValueMap::new()));
    assert!(values_match(&ValueMap::new(), &ValueMap::new()));
}

#[test]
fn empty_existing_bag_matches_any_candidate() {
    assert!(values_match(&ValueMap::new(), &bag(&[("host", "a")])));
}

#[test]
fn enrich_adds_missing_observed_entries_only() {
    let mut values = bag(&[("host", "a"), ("zone", "")]);
    enrich(&mut values, &bag(&[("host", "b"), ("port", "80"), ("zone", "eu"), ("user", "")]));
    assert_eq!(entries(&values), pairs(&[("host", "a"), ("zone", ""), ("port", "80")]));
}

#[test]
fn enrich_with_nothing_new_changes_nothing() {
    let mut values = bag(&[("host", "a"), ("port", "80")]);
    enrich(&mut values, &bag(&[("host", "a")]));
    assert_eq!(entries(&values), pairs(&[("host", "a"), ("port", "80")]));
    enrich(&mut values, &ValueMap::new());
    assert_eq!(entries(&values), pairs(&[("host", "a"), ("port", "80")]));
}

fn model_of(components: &[(&str, &[(&str, &str)])]) -> Model {
    let mut model = Model::new();
    for (id, values) in components {
        model.components.push(Component { id: text(id), component_values: bag(values) });
    }
    model
}

#[test]
fn new_model_is_empty() {
    let model = Model::new();
    assert!(model.components.is_empty());
    assert!(model.connectors.is_empty());
}

#[test]
fn first_matching_component_is_found_not_the_best() {
    let mut model = model_of(&[
        ("AAAAAAAAAA", &[("host", "z")]),
        ("BBBBBBBBBB", &[("host", "a")]),
        ("CCCCCCCCCC", &[("host", "a"), ("port", "80")]),
    ]);
    let found = find_component_in_model(&mut model, &bag(&[("host", "a"), ("port", "80")]));
    assert_eq!(found, Some(text("BBBBBBBBBB")));
    assert_eq!(
        bags(&model),
        vec![
            pairs(&[("host", "z")]),
            pairs(&[("host", "a"), ("port", "80")]),
            pairs(&[("host", "a"), ("port", "80")]),
        ]
    );
}

#[test]
fn found_component_keeps_its_values_when_it_is_the_larger() {
    let mut model = model_of(&[("AAAAAAAAAA", &[("host", "a"), ("port", "80")])]);
    let found = find_component_in_model(&mut model, &bag(&[("host", "a")]));
    assert_eq!(found, Some(text("AAAAAAAAAA")));
    assert_eq!(bags(&model), vec![pairs(&[("host", "a"), ("port", "80")])]);
}

#[test]
fn no_matching_component_leaves_the_model_alone() {
    let mut model = model_of(&[("AAAAAAAAAA", &[("host", "a")]), ("BBBBBBBBBB", &[("host", "b")])]);
    let found = find_component_in_model(&mut model, &bag(&[("host", "c")]));
    assert_eq!(found, None);
    assert_eq!(bags(&model), vec![pairs(&[("host", "a")]), pairs(&[("host", "b")])]);
    let mut empty = Model::new();
    assert_eq!(find_component_in_model(&mut empty, &bag(&[("host", "c")])), None);
    assert!(empty.components.is_empty());
}

#[test]
fn candidate_without_entries_joins_the_first_component() {
    let mut model = model_of(&[("AAAAAAAAAA", &[("host", "a")]), ("BBBBBBBBBB", &[])]);
    let found = find_component_in_model(&mut model, &ValueMap::new());
    assert_eq!(found, Some(text("AAAAAAAAAA")));
    assert_eq!(bags(&model), vec![pairs(&[("host", "a")]), pairs(&[])]);
}

#[test]
fn find_or_create_takes_the_side_that_is_asked_for() {
    let mut model = Model::new();
    let instance = ci("HTTP", &[("host", "a")], &[("host", "b")]);
    let source = find_or_create_component_if_not_exist(&mut model, &instance, true);
    let target = find_or_create_component_if_not_exist(&mut model, &instance, false);
    let again = find_or_create_component_if_not_exist(&mut model, &instance, true);
    assert_ne!(source, target);
    assert_eq!(source, again);
    assert_eq!(model.components.len(), 2);
    assert_eq!(model.components[0].id, source);
    assert_eq!(model.components[1].id, target);
    assert_eq!(bags(&model), vec![pairs(&[("host", "a")]), pairs(&[("host", "b")])]);
    assert!(model.connectors.is_empty());
    assert_model_invariants(&model);
}

#[test]
fn fresh_identifier_is_unused_and_well_shaped() {
    let mut model = Model::new();
    for _ in 0..50 {
        let id = fresh_component_id(&model);
        assert_eq!(id.len(), 10);
        assert!(id.chars().all(|c| c.is_ascii_uppercase()));
        assert!(!model.has_component_id(&id));
        model.components.push(Component { id, component_values: ValueMap::new() });
    }
    assert_model_invariants(&model);
}

#[test]
fn has_component_id_compares_whole_identifiers() {
    let model = model_of(&[("AAAAAAAAAA", &[]), ("BBBBBBBBBB", &[])]);
    assert!(model.has_component_id(&text("AAAAAAAAAA")));
    assert!(model.has_component_id(&text("BBBBBBBBBB")));
    assert!(!model.has_component_id(&text("AAAAAAAAAB")));
    assert!(!model.has_component_id(&text("")));
}

fn connector(connector_type: &str, source: &str, target: &str) -> Connector {
    Connector {
        connector_type: text(connector_type),
        source_component_id: text(source),
        target_component_id: text(target),
    }
}

#[test]
fn has_connector_compares_all_three_values() {
    let mut model = model_of(&[("AAAAAAAAAA", &[]), ("BBBBBBBBBB", &[])]);
    model.connectors.push(connector("HTTP", "AAAAAAAAAA", "BBBBBBBBBB"));
    assert!(model.has_connector(&connector("HTTP", "AAAAAAAAAA", "BBBBBBBBBB")));
    assert!(!model.has_connector(&connector("RPC", "AAAAAAAAAA", "BBBBBBBBBB")));
    assert!(!model.has_connector(&connector("HTTP", "BBBBBBBBBB", "AAAAAAAAAA")));
    assert!(!model.has_connector(&connector("HTTP", "AAAAAAAAAA", "AAAAAAAAAA")));
    assert!(!Model::new().has_connector(&connector("HTTP", "AAAAAAAAAA", "BBBBBBBBBB")));
}

#[test]
fn connector_is_added_once() {
    let mut model = model_of(&[("AAAAAAAAAA", &[]), ("BBBBBBBBBB", &[])]);
    create_connector_if_not_exist(&mut model, text("HTTP"), text("AAAAAAAAAA"), text("BBBBBBBBBB"));
    create_connector_if_not_exist(&mut model, text("RPC"), text("AAAAAAAAAA"), text("BBBBBBBBBB"));
    create_connector_if_not_exist(&mut model, text("HTTP"), text("AAAAAAAAAA"), text("BBBBBBBBBB"));
    assert_eq!(model.connectors.len(), 2);
    assert_eq!(model.connectors[0].connector_type, "HTTP");
    assert_eq!(model.connectors[1].connector_type, "RPC");
    assert_eq!(model.connectors[1].source_component_id, "AAAAAAAAAA");
    assert_eq!(model.connectors[1].target_component_id, "BBBBBBBBBB");
    assert_eq!(model.components.len(), 2);
}

#[test]
fn sources_of_observed_instances_are_found_again_in_the_second_pass() {
    let mut cis = Vec::new();
    for i in 0..30 {
        let host = format!("h{}", i % 5);
        let zone = format!("z{}", i % 2);
        let peer = format!("p{}", i % 4);
        if i % 3 == 0 {
            cis.push(ci("HTTP", &[("host", &host), ("zone", &zone)], &[("peer", &peer)]));
        } else {
            cis.push(ci("HTTP", &[("host", &host)], &[("peer", &peer), ("zone", &zone)]));
        }
    }
    let count = cis.len();
    let model = build_model(cis);
    assert!(model.components.len() <= 2 * count);
    assert_model_invariants(&model);
}

#[test]
fn unobserved_values_can_send_a_source_to_a_new_component_in_the_second_pass() {
    let cis = vec![
        ci("HTTP", &[("h", ""), ("q", "x")], &[("q", "x"), ("r", "1"), ("s", "2")]),
        ci("HTTP", &[("h", "a"), ("q", "x")], &[]),
    ];
    let model = build_model(cis);
    assert_eq!(
        bags(&model),
        vec![
            pairs(&[("h", ""), ("q", "x"), ("r", "1"), ("s", "2")]),
            pairs(&[("h", "a"), ("q", "x")]),
        ]
    );
    assert_eq!(links(&model), vec![(text("HTTP"), 0, 0), (text("HTTP"), 1, 0)]);
}

#[test]
fn unused_candidate_is_taken_as_it_is() {
    let model = model_of(&[("AAAAAAAAAA", &[]), ("QWERTYUIOP", &[])]);
    assert_eq!(unused_component_id(&model, text("ZZZZZZZZZZ")), "ZZZZZZZZZZ");
    assert_eq!(unused_component_id(&Model::new(), text("AAAAAAAAAA")), "AAAAAAAAAA");
}

#[test]
fn used_candidate_gives_way_to_the_first_unused_number() {
    let model = model_of(&[("QWERTYUIOP", &[])]);
    assert_eq!(unused_component_id(&model, text("QWERTYUIOP")), "AAAAAAAAAA");
    let model = model_of(&[("AAAAAAAAAA", &[]), ("QWERTYUIOP", &[]), ("BAAAAAAAAA", &[])]);
    assert_eq!(unused_component_id(&model, text("QWERTYUIOP")), "CAAAAAAAAA");
    assert_eq!(unused_component_id(&model, text("AAAAAAAAAA")), "CAAAAAAAAA");
    let model = model_of(&[("BAAAAAAAAA", &[]), ("CAAAAAAAAA", &[])]);
    assert_eq!(unused_component_id(&model, text("CAAAAAAAAA")), "AAAAAAAAAA");
}

#[test]
fn checked_build_gives_the_model_of_a_list_with_room() {
    let cis = vec![
        ci("HTTP", &[("host", "a")], &[("host", "b")]),
        ci("HTTP", &[("host", "a")], &[("host", "b")]),
    ];
    let model = try_build_model(cis).unwrap();
    assert_eq!(bags(&model), vec![pairs(&[("host", "a")]), pairs(&[("host", "b")])]);
    assert_eq!(links(&model), vec![(text("HTTP"), 0, 1)]);
    assert!(try_build_model(Vec::new()).is_some());
}
