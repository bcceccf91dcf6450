use crate::model::mapping_rules::{name_views, MappingRule, MappingRuleView};
use crate::resolution::Bag;
use crate::values::{distinct_keys, lemma_pairs_to_map, pair_keys, ValueMap};
use vstd::prelude::*;
use vstd::string::*;

verus! {

/// One observed execution event. Its identifier starts with the key of the
/// mapping rule that governs it, followed by `_`; an empty value means that
/// the field was not observed.
#[derive(Debug)]
pub struct ExecutionTrace {
    pub id: String,
    pub source_values: ValueMap,
    pub target_values: ValueMap,
}

/// A trace record as plain values.
pub struct ExecutionTraceView {
    pub id: Seq<char>,
    pub source_values: Bag,
    pub target_values: Bag,
}

impl View for ExecutionTrace {
    type V = ExecutionTraceView;

    open spec fn view(&self) -> ExecutionTraceView {
        ExecutionTraceView {
            id: self.id@,
            source_values: self.source_values@,
            target_values: self.target_values@,
        }
    }
}

/// A connector instance: a trace record read through its mapping rule.
#[derive(Debug)]
pub struct Ci {
    pub id: String,
    pub connector_type: String,
    pub source_component_values: ValueMap,
    pub target_component_values: ValueMap,
}

/// A connector instance as plain values.
pub struct CiView {
    pub id: Seq<char>,
    pub connector_type: Seq<char>,
    pub source_component_values: Bag,
    pub target_component_values: Bag,
}

impl View for Ci {
    type V = CiView;

    open spec fn view(&self) -> CiView {
        CiView {
            id: self.id@,
            connector_type: self.connector_type@,
            source_component_values: self.source_component_values@,
            target_component_values: self.target_component_values@,
        }
    }
}

/// The bag holds observations only: it has finitely many entries, and none of
/// them has an empty value.
pub open spec fn is_observation(bag: Bag) -> bool {
    &&& bag.dom().finite()
    &&& forall|k: Seq<char>| bag.contains_key(k) ==> bag[k].len() > 0
}

impl CiView {
    /// Both bags of the connector instance hold observations only, as the
    /// bags that extraction makes do.
    pub open spec fn is_well_formed(self) -> bool {
        is_observation(self.source_component_values) && is_observation(self.target_component_values)
    }
}

/// Why a trace record could not be turned into a connector instance.
#[derive(Debug, Clone, Copy, PartialEq, Eq, Structural)]
pub enum CIError {
    /// The identifier of the trace record holds no `_`, so it names no
    /// mapping rule.
    MalformedExecutionTraceId,
    /// No mapping rule has the key that the trace record names.
    NoCorrespondingMappingRule,
}

impl CIError {
    /// The error in words.
    pub fn message(&self) -> (text: String)
        ensures
            text@ == match *self {
                CIError::MalformedExecutionTraceId => "Malformed execution trace id"@,
                CIError::NoCorrespondingMappingRule => "No corresponding mapping rule"@,
            },
    {
        match self {
            CIError::MalformedExecutionTraceId => "Malformed execution trace id".to_owned(),
            CIError::NoCorrespondingMappingRule => "No corresponding mapping rule".to_owned(),
        }
    }
}

/// `i` is the position of the first `_` of `id`.
pub open spec fn is_first_separator(id: Seq<char>, i: int) -> bool {
    &&& 0 <= i < id.len()
    &&& id[i] == '_'
    &&& forall|j: int| 0 <= j < i ==> id[j] != '_'
}

/// The rule key of a trace identifier: what stands before its first `_`.
/// An identifier without `_` has none.
pub open spec fn rule_key(id: Seq<char>) -> Option<Seq<char>> {
    if exists|i: int| is_first_separator(id, i) {
        Some(id.subrange(0, choose|i: int| is_first_separator(id, i)))
    } else {
        None
    }
}

/// The first `_` of a text stands at one position only.
pub proof fn lemma_rule_key_at(id: Seq<char>, i: int)
    requires
        is_first_separator(id, i),
    ensures
        rule_key(id) == Some(id.subrange(0, i)),
{
    let j = choose|j: int| is_first_separator(id, j);
    assert(is_first_separator(id, j));
    assert(i == j) by {
        if i < j {
            assert(id[i] != '_');
        }
        if j < i {
            assert(id[j] != '_');
        }
    }
}

/// Extracts from a trace identifier the key of the mapping rule that governs
/// the record: the text before the first `_`. Fails with
/// `MalformedExecutionTraceId` where the identifier holds no `_`.
pub fn get_mapping_rule_id(execution_trace_id: &str) -> (key: Result<String, CIError>)
    ensures
        match key {
            Ok(k) => rule_key(execution_trace_id@) == Some(k@),
            Err(e) => rule_key(execution_trace_id@) is None && e
                == CIError::MalformedExecutionTraceId,
        },
{
    let n = execution_trace_id.unicode_len();
    let mut i: usize = 0;
    while i < n
        invariant
            i <= n,
            n == execution_trace_id@.len(),
            forall|j: int| 0 <= j < i ==> execution_trace_id@[j] != '_',
        decreases n - i,
    {
        if execution_trace_id.get_char(i) == '_' {
            proof {
                lemma_rule_key_at(execution_trace_id@, i as int);
            }
            return Ok(execution_trace_id.substring_char(0, i).to_owned());
        }
        i += 1;
    }
    proof {
        if exists|i: int| is_first_separator(execution_trace_id@, i) {
            let i = choose|i: int| is_first_separator(execution_trace_id@, i);
            assert(execution_trace_id@[i] != '_');
        }
    }
    Err(CIError::MalformedExecutionTraceId)
}

/// The views of a list of mapping rules, in order.
pub open spec fn rule_views(rules: Seq<MappingRule>) -> Seq<MappingRuleView> {
    rules.map_values(|rule: MappingRule| rule@)
}

/// `i` is the position of the first rule with the key `key`.
pub open spec fn is_first_rule(rules: Seq<MappingRuleView>, key: Seq<char>, i: int) -> bool {
    &&& 0 <= i < rules.len()
    &&& rules[i].has_key(key)
    &&& forall|j: int| 0 <= j < i ==> !(#[trigger] rules[j]).has_key(key)
}

/// The position of the first rule with the key `key`, if any rule has it.
pub open spec fn first_rule_with(rules: Seq<MappingRuleView>, key: Seq<char>) -> Option<int> {
    if exists|i: int| is_first_rule(rules, key, i) {
        Some(choose|i: int| is_first_rule(rules, key, i))
    } else {
        None
    }
}

/// The position of the rule that governs the trace record with identifier
/// `id`: the first rule whose key is the rule key of `id`. It is an error
/// where `id` has no rule key, and another where no rule has that key.
pub open spec fn governing_rule(rules: Seq<MappingRuleView>, id: Seq<char>) -> Result<int, CIError> {
    match rule_key(id) {
        None => Err(CIError::MalformedExecutionTraceId),
        Some(key) => match first_rule_with(rules, key) {
            Some(i) => Ok(i),
            None => Err(CIError::NoCorrespondingMappingRule),
        },
    }
}

/// The first rule with a key stands at one position only.
pub proof fn lemma_first_rule_at(rules: Seq<MappingRuleView>, key: Seq<char>, i: int)
    requires
        is_first_rule(rules, key, i),
    ensures
        first_rule_with(rules, key) == Some(i),
{
    let j = choose|j: int| is_first_rule(rules, key, j);
    assert(is_first_rule(rules, key, j));
    assert(i == j) by {
        if i < j {
            assert(!rules[i].has_key(key));
        }
        if j < i {
            assert(!rules[j].has_key(key));
        }
    }
}

/// Where no rule has the key, there is no first rule with it.
pub proof fn lemma_first_rule_none(rules: Seq<MappingRuleView>, key: Seq<char>)
    requires
        forall|j: int| 0 <= j < rules.len() ==> !(#[trigger] rules[j]).has_key(key),
    ensures
        first_rule_with(rules, key) is None,
{
    if exists|i: int| is_first_rule(rules, key, i) {
        let i = choose|i: int| is_first_rule(rules, key, i);
        assert(!rules[i].has_key(key));
    }
}

/// Finds the mapping rule that governs the trace record with the given
/// identifier, and returns a copy of it. Fails with
/// `MalformedExecutionTraceId` where the identifier holds no `_`, and with
/// `NoCorrespondingMappingRule` where no rule has the key that it names.
pub fn find_corresponding_mapping_rule(mapping_rules: &[MappingRule], execution_trace_id: &str) -> (found:
    Result<MappingRule, CIError>)
    ensures
        match found {
            Ok(rule) => governing_rule(rule_views(mapping_rules@), execution_trace_id@) matches Ok(i)
                && 0 <= i < mapping_rules.len() && rule@ == mapping_rules[i]@,
            Err(e) => governing_rule(rule_views(mapping_rules@), execution_trace_id@) == Err::<
                int,
                CIError,
            >(e),
        },
{
    let mapping_rule_id = match get_mapping_rule_id(execution_trace_id) {
        Ok(key) => key,
        Err(e) => {
            return Err(e);
        },
    };
    let ghost rules = rule_views(mapping_rules@);
    let n = mapping_rules.len();
    let mut i: usize = 0;
    while i < n
        invariant
            i <= n,
            n == mapping_rules.len(),
            rules == rule_views(mapping_rules@),
            rule_key(execution_trace_id@) == Some(mapping_rule_id@),
            forall|j: int| 0 <= j < i ==> !(#[trigger] rules[j]).has_key(mapping_rule_id@),
        decreases n - i,
    {
        if mapping_rules[i].has_key(&mapping_rule_id) {
            proof {
                assert(rules[i as int] == mapping_rules[i as int]@);
                lemma_first_rule_at(rules, mapping_rule_id@, i as int);
            }
            return Ok(mapping_rules[i].clone());
        }
        i += 1;
    }
    proof {
        lemma_first_rule_none(rules, mapping_rule_id@);
    }
    Err(CIError::NoCorrespondingMappingRule)
}

/// The observed entries of a bag: those whose value is not empty.
pub open spec fn observed(values: Bag) -> Bag {
    Map::new(|k: Seq<char>| values.contains_key(k) && values[k].len() > 0, |k: Seq<char>| values[k])
}

/// The observed entries of a bag whose names the schema lists.
pub open spec fn observed_in_schema(values: Bag, schema: Seq<Seq<char>>) -> Bag {
    Map::new(
        |k: Seq<char>| schema.contains(k) && values.contains_key(k) && values[k].len() > 0,
        |k: Seq<char>| values[k],
    )
}

/// The connector instance that a rule makes of a trace record. The source
/// side keeps every observed field of the record; the target side keeps the
/// observed fields that the rule's target schema lists.
pub open spec fn extracted(trace: ExecutionTraceView, rule: MappingRuleView) -> CiView {
    CiView {
        id: trace.id,
        connector_type: rule.connector_type,
        source_component_values: observed(trace.source_values),
        target_component_values: observed_in_schema(
            trace.target_values,
            rule.target_component_identifier_schema,
        ),
    }
}

/// What extraction makes of one trace record under a set of rules: the
/// connector instance that its governing rule makes of it, or the error of
/// looking that rule up.
pub open spec fn extraction(trace: ExecutionTraceView, rules: Seq<MappingRuleView>) -> Result<
    CiView,
    CIError,
> {
    match governing_rule(rules, trace.id) {
        Ok(i) => Ok(extracted(trace, rules[i])),
        Err(e) => Err(e),
    }
}

/// A copy of the observed entries of a bag.
fn observed_values(values: &ValueMap) -> (kept: ValueMap)
    ensures
        kept@ == observed(values@),
        kept@.dom().finite(),
{
    let n = values.len();
    let ghost pairs = values.pairs();
    let mut kept = ValueMap::new();
    let mut i: usize = 0;
    while i < n
        invariant
            i <= n,
            n == pairs.len(),
            pairs == values.pairs(),
            distinct_keys(pairs),
            kept@.dom().finite(),
            forall|k: Seq<char>| #[trigger]
                kept@.contains_key(k) <==> exists|j: int|
                    0 <= j < i && #[trigger] pairs[j].0 == k && pairs[j].1.len() > 0,
            forall|k: Seq<char>| #[trigger] kept@.contains_key(k) ==> kept@[k] == values@[k],
        decreases n - i,
    {
        let key = values.key_at(i);
        let value = values.value_at(i);
        if !value.as_str().is_empty() {
            kept.insert(key.clone(), value.clone());
        }
        proof {
            assert forall|k: Seq<char>| #[trigger]
                kept@.contains_key(k) <==> exists|j: int|
                    0 <= j < i + 1 && #[trigger] pairs[j].0 == k && pairs[j].1.len() > 0 by {
                if kept@.contains_key(k) {
                    if k == pairs[i as int].0 && pairs[i as int].1.len() > 0 {
                        assert(pairs[i as int].0 == k);
                    } else {
                        let j = choose|j: int|
                            0 <= j < i && #[trigger] pairs[j].0 == k && pairs[j].1.len() > 0;
                        assert(0 <= j < i + 1 && pairs[j].0 == k);
                    }
                }
            }
        }
        i += 1;
    }
    proof {
        lemma_pairs_to_map(pairs);
        assert forall|k: Seq<char>| kept@.contains_key(k) <==> observed(values@).contains_key(k) by {
            if kept@.contains_key(k) {
                let j = choose|j: int| 0 <= j < n && #[trigger] pairs[j].0 == k && pairs[j].1.len() > 0;
                assert(values@.contains_key(pairs[j].0));
            }
            if values@.contains_key(k) && values@[k].len() > 0 {
                let j = pair_keys(pairs).index_of(k);
                assert(pairs[j].0 == k && pairs[j].1.len() > 0);
            }
        }
        assert(kept@ =~= observed(values@));
    }
    kept
}

/// A copy of the observed entries of a bag whose names the schema lists.
fn observed_schema_values(values: &ValueMap, schema: &Vec<String>) -> (kept: ValueMap)
    ensures
        kept@ == observed_in_schema(values@, name_views(schema@)),
        kept@.dom().finite(),
{
    let n = schema.len();
    let ghost names = name_views(schema@);
    let mut kept = ValueMap::new();
    let mut i: usize = 0;
    while i < n
        invariant
            i <= n,
            n == schema.len(),
            names == name_views(schema@),
            kept@.dom().finite(),
            forall|k: Seq<char>| #[trigger]
                kept@.contains_key(k) <==> (exists|j: int| 0 <= j < i && #[trigger] names[j] == k)
                    && values@.contains_key(k) && values@[k].len() > 0,
            forall|k: Seq<char>| #[trigger] kept@.contains_key(k) ==> kept@[k] == values@[k],
        decreases n - i,
    {
        let identifier = &schema[i];
        assert(names[i as int] == identifier@);
        if let Some(value) = values.get(identifier) {
            if !value.as_str().is_empty() {
                kept.insert(identifier.clone(), value.clone());
            }
        }
        proof {
            assert forall|k: Seq<char>| #[trigger]
                kept@.contains_key(k) <==> (exists|j: int| 0 <= j < i + 1 && #[trigger] names[j] == k)
                    && values@.contains_key(k) && values@[k].len() > 0 by {
                if exists|j: int| 0 <= j < i && #[trigger] names[j] == k {
                    let j = choose|j: int| 0 <= j < i && #[trigger] names[j] == k;
                    assert(0 <= j < i + 1 && names[j] == k);
                }
                if exists|j: int| 0 <= j < i + 1 && #[trigger] names[j] == k {
                    let j = choose|j: int| 0 <= j < i + 1 && #[trigger] names[j] == k;
                    if j < i {
                        assert(0 <= j < i && names[j] == k);
                    }
                }
            }
        }
        i += 1;
    }
    proof {
        assert forall|k: Seq<char>| names.contains(k) <==> (exists|j: int|
            0 <= j < n && #[trigger] names[j] == k) by {
            if names.contains(k) {
                let j = choose|j: int| 0 <= j < names.len() && names[j] == k;
                assert(0 <= j < n && names[j] == k);
            }
        }
        assert(kept@ =~= observed_in_schema(values@, names));
    }
    kept
}

/// Makes the connector instance of a trace record under the rule that
/// governs it. The identifier comes from the record and the connector type
/// from the rule. Every observed source field of the record is kept,
/// whatever the rule's source schema lists; of the target fields, only the
/// observed ones that the rule's target schema lists are kept.
pub fn extract_ci(execution_trace: &ExecutionTrace, mapping_rule: &MappingRule) -> (ci: Ci)
    ensures
        ci@ == extracted(execution_trace@, mapping_rule@),
        ci@.is_well_formed(),
{
    let source_component_values = observed_values(&execution_trace.source_values);
    let target_component_values = observed_schema_values(
        &execution_trace.target_values,
        &mapping_rule.target_component_identifier_schema,
    );
    Ci {
        id: execution_trace.id.clone(),
        connector_type: mapping_rule.connector_type.clone(),
        source_component_values,
        target_component_values,
    }
}

/// The views of a list of trace records, in order.
pub open spec fn trace_views(traces: Seq<ExecutionTrace>) -> Seq<ExecutionTraceView> {
    traces.map_values(|trace: ExecutionTrace| trace@)
}

/// Turns trace records into connector instances, one for each record and in
/// the same order, each under the rule that governs it. The first record
/// whose rule cannot be found ends the run with that record's error.
pub fn create_cis(execution_traces: Vec<ExecutionTrace>, mapping_rules: Vec<MappingRule>) -> (made:
    Result<Vec<Ci>, CIError>)
    ensures
        match made {
            Ok(cis) => {
                &&& cis.len() == execution_traces.len()
                &&& forall|i: int|
                    0 <= i < cis.len() ==> extraction(
                        #[trigger] execution_traces[i]@,
                        rule_views(mapping_rules@),
                    ) == Ok::<CiView, CIError>(cis[i]@)
                &&& forall|i: int| 0 <= i < cis.len() ==> (#[trigger] cis[i])@.is_well_formed()
            },
            Err(e) => exists|i: int|
                {
                    &&& 0 <= i < execution_traces.len()
                    &&& extraction(#[trigger] execution_traces[i]@, rule_views(mapping_rules@)) == Err::<
                        CiView,
                        CIError,
                    >(e)
                    &&& forall|j: int|
                        0 <= j < i ==> extraction(
                            #[trigger] execution_traces[j]@,
                            rule_views(mapping_rules@),
                        ) is Ok
                },
        },
{
    let mut cis: Vec<Ci> = Vec::new();
    let n = execution_traces.len();
    let ghost rules = rule_views(mapping_rules@);
    let mut i: usize = 0;
    while i < n
        invariant
            i <= n,
            n == execution_traces.len(),
            rules == rule_views(mapping_rules@),
            cis.len() == i,
            forall|j: int|
                0 <= j < i ==> extraction(#[trigger] execution_traces[j]@, rules) == Ok::<CiView, CIError>(
                    cis[j]@,
                ),
            forall|j: int| 0 <= j < i ==> (#[trigger] cis[j])@.is_well_formed(),
        decreases n - i,
    {
        let execution_trace = &execution_traces[i];
        let mapping_rule = match find_corresponding_mapping_rule(
            mapping_rules.as_slice(),
            execution_trace.id.as_str(),
        ) {
            Ok(rule) => rule,
            Err(e) => {
                assert(extraction(execution_traces[i as int]@, rules) == Err::<CiView, CIError>(e));
                return Err(e);
            },
        };
        let ci = extract_ci(execution_trace, &mapping_rule);
        proof {
            let at = governing_rule(rules, execution_trace.id@)->Ok_0;
            assert(rules[at] == mapping_rules[at]@);
        }
        cis.push(ci);
        i += 1;
    }
    Ok(cis)
}

} // verus!
