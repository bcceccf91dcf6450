use crate::ci::{extracted, extraction, first_rule_with, is_first_rule, is_first_separator, rule_key};
use crate::ci::{lemma_first_rule_at, lemma_first_rule_none, lemma_rule_key_at};
use crate::ci::{is_observation, CIError, CiView, ExecutionTraceView};
use crate::conn::ModelView;
use crate::model::mapping_rules::MappingRuleView;
use crate::model::oid::hex_text;
use crate::resolution::{bags_match, enriched, first_match, resolve, Bag};
use crate::resolution::{lemma_first_match_is, lemma_first_match_none, lemma_first_match_range};
use crate::shape::{bags_after, bags_at_target, seeded, shape_of, source_slot};
use vstd::prelude::*;

verus! {

/// A hexadecimal text holds no `_`.
pub proof fn lemma_hex_text_has_no_separator(bytes: Seq<u8>)
    ensures
        forall|i: int| 0 <= i < hex_text(bytes).len() ==> hex_text(bytes)[i] != '_',
{
}

/// Where some rule has a key, a first rule has it, and it stands no later.
pub proof fn lemma_first_rule_exists(rules: Seq<MappingRuleView>, key: Seq<char>, i: int)
    requires
        0 <= i < rules.len(),
        rules[i].has_key(key),
    ensures
        first_rule_with(rules, key) matches Some(j) && j <= i && is_first_rule(rules, key, j),
    decreases i,
{
    if forall|j: int| 0 <= j < i ==> !(#[trigger] rules[j]).has_key(key) {
        lemma_first_rule_at(rules, key, i);
    } else {
        let j = choose|j: int| 0 <= j < i && (#[trigger] rules[j]).has_key(key);
        lemma_first_rule_exists(rules, key, j);
    }
}

/// A trace record whose identifier is the hexadecimal text of a rule's
/// identifier, then `_`, then anything, is extracted: by the first rule that
/// has this identifier, and so with that rule's connector type. Where no
/// earlier rule has the same identifier, that is the rule itself.
pub proof fn law_keyed_trace_is_extracted(
    trace: ExecutionTraceView,
    rules: Seq<MappingRuleView>,
    i: int,
    bytes: Seq<u8>,
    rest: Seq<char>,
)
    requires
        0 <= i < rules.len(),
        rules[i].id == Some(bytes),
        trace.id == hex_text(bytes) + seq!['_'] + rest,
    ensures
        first_rule_with(rules, hex_text(bytes)) matches Some(j) && j <= i && extraction(trace, rules)
            == Ok::<CiView, CIError>(extracted(trace, rules[j])),
        extraction(trace, rules) matches Ok(ci) && (is_first_rule(rules, hex_text(bytes), i)
            ==> ci.connector_type == rules[i].connector_type),
{
    let key = hex_text(bytes);
    lemma_hex_text_has_no_separator(bytes);
    assert(is_first_separator(trace.id, key.len() as int));
    lemma_rule_key_at(trace.id, key.len() as int);
    assert(trace.id.subrange(0, key.len() as int) =~= key);
    lemma_first_rule_exists(rules, key, i);
    if is_first_rule(rules, key, i) {
        lemma_first_rule_at(rules, key, i);
    }
}

/// A trace record whose identifier holds no `_` is not extracted: its
/// identifier is malformed, whatever the rules are.
pub proof fn law_unkeyed_trace_is_malformed(trace: ExecutionTraceView, rules: Seq<MappingRuleView>)
    requires
        forall|i: int| 0 <= i < trace.id.len() ==> trace.id[i] != '_',
    ensures
        extraction(trace, rules) == Err::<CiView, CIError>(CIError::MalformedExecutionTraceId),
{
    if exists|i: int| is_first_separator(trace.id, i) {
        let i = choose|i: int| is_first_separator(trace.id, i);
        assert(trace.id[i] != '_');
    }
}

/// A trace record whose rule key no rule has is not extracted: it has no
/// corresponding rule.
pub proof fn law_unmatched_trace_has_no_rule(
    trace: ExecutionTraceView,
    rules: Seq<MappingRuleView>,
    key: Seq<char>,
)
    requires
        rule_key(trace.id) == Some(key),
        forall|j: int| 0 <= j < rules.len() ==> !(#[trigger] rules[j]).has_key(key),
    ensures
        extraction(trace, rules) == Err::<CiView, CIError>(CIError::NoCorrespondingMappingRule),
{
    lemma_first_rule_none(rules, key);
}

/// The target bag of a connector instance holds no name that the rule's
/// target schema does not list, and every entry of it is an observed entry of
/// the trace record's target bag.
pub proof fn law_target_values_within_schema(trace: ExecutionTraceView, rule: MappingRuleView)
    ensures
        forall|k: Seq<char>| #[trigger]
            extracted(trace, rule).target_component_values.contains_key(k) ==> {
                &&& rule.target_component_identifier_schema.contains(k)
                &&& trace.target_values.contains_key(k)
                &&& trace.target_values[k].len() > 0
                &&& extracted(trace, rule).target_component_values[k] == trace.target_values[k]
            },
{
}

/// The source bag of a connector instance holds every observed entry of the
/// trace record's source bag, whatever the rule's schemas list, and nothing
/// else.
pub proof fn law_source_values_keep_observed(trace: ExecutionTraceView, rule: MappingRuleView)
    ensures
        forall|k: Seq<char>|
            trace.source_values.contains_key(k) && trace.source_values[k].len() > 0
                ==> #[trigger] extracted(trace, rule).source_component_values.contains_key(k)
                && extracted(trace, rule).source_component_values[k] == trace.source_values[k],
        forall|k: Seq<char>| #[trigger]
            extracted(trace, rule).source_component_values.contains_key(k)
                ==> trace.source_values.contains_key(k) && trace.source_values[k].len() > 0,
{
}

/// The bags of a connector instance made from a trace record with finitely
/// many fields hold observations only.
pub proof fn law_extracted_bags_are_observations(trace: ExecutionTraceView, rule: MappingRuleView)
    requires
        trace.source_values.dom().finite(),
        trace.target_values.dom().finite(),
    ensures
        extracted(trace, rule).is_well_formed(),
{
    let ci = extracted(trace, rule);
    assert(ci.source_component_values.dom().subset_of(trace.source_values.dom()));
    assert(ci.target_component_values.dom().subset_of(trace.target_values.dom()));
    vstd::set_lib::lemma_set_subset_finite(trace.source_values.dom(), ci.source_component_values.dom());
    vstd::set_lib::lemma_set_subset_finite(trace.target_values.dom(), ci.target_component_values.dom());
}

/// Merging a candidate into a bag keeps every entry of the bag as it is, and
/// adds only observed entries of the candidate.
pub proof fn law_enrichment_only_adds(existing: Bag, candidate: Bag)
    ensures
        existing.submap_of(enriched(existing, candidate)),
        forall|k: Seq<char>| #[trigger]
            enriched(existing, candidate).contains_key(k) && !existing.contains_key(k) ==> {
                &&& candidate.contains_key(k)
                &&& candidate[k].len() > 0
                &&& enriched(existing, candidate)[k] == candidate[k]
            },
{
}

/// Merging a bag with finitely many entries into another such bag gives a
/// bag with finitely many entries.
pub proof fn lemma_enriched_is_finite(existing: Bag, candidate: Bag)
    requires
        existing.dom().finite(),
        candidate.dom().finite(),
    ensures
        enriched(existing, candidate).dom().finite(),
{
    let both = existing.dom().union(candidate.dom());
    assert(enriched(existing, candidate).dom().subset_of(both));
    vstd::set_lib::lemma_set_subset_finite(both, enriched(existing, candidate).dom());
}

/// Resolving a candidate removes no component and takes no entry from any
/// component's bag: the bags that were there are still there, each with at
/// least the entries it had; at most one bag is new.
pub proof fn law_resolution_only_adds(bags: Seq<Bag>, candidate: Bag)
    ensures
        bags.len() <= resolve(bags, candidate).len() <= bags.len() + 1,
        forall|j: int| 0 <= j < bags.len() ==> (#[trigger] bags[j]).submap_of(resolve(bags, candidate)[j]),
{
    lemma_first_match_range(bags, candidate);
    let i = first_match(bags, candidate);
    assert forall|j: int| 0 <= j < bags.len() implies (#[trigger] bags[j]).submap_of(
        resolve(bags, candidate)[j],
    ) by {
        if j == i {
            law_enrichment_only_adds(bags[i], candidate);
        }
    }
}

/// A candidate without entries matches whatever component stands first.
pub proof fn law_empty_candidate_joins_first(bags: Seq<Bag>, candidate: Bag)
    requires
        bags.len() > 0,
        bags[0].dom().finite(),
        candidate == Map::<Seq<char>, Seq<char>>::empty(),
    ensures
        first_match(bags, candidate) == 0,
{
    if bags[0].len() == 0 {
        assert(bags[0].dom() =~= Set::empty());
    }
    assert(bags_match(bags[0], candidate));
    lemma_first_match_is(bags, candidate, 0);
}

/// A candidate whose entries all stand in an existing bag matches that bag.
pub proof fn lemma_contained_candidate_matches(existing: Bag, candidate: Bag)
    requires
        existing.dom().finite(),
        candidate.dom().finite(),
        candidate.submap_of(existing),
    ensures
        bags_match(existing, candidate),
{
    if existing.len() <= candidate.len() {
        assert(candidate.dom().subset_of(existing.dom()));
        vstd::set_lib::lemma_len_subset(candidate.dom(), existing.dom());
        vstd::set_lib::lemma_subset_equality(candidate.dom(), existing.dom());
        assert(forall|k: Seq<char>| existing.contains_key(k) ==> candidate.dom().contains(k));
    }
}

/// Two bags that give different observed values for one name do not match.
pub proof fn lemma_conflict_excludes_match(existing: Bag, candidate: Bag, k: Seq<char>)
    requires
        existing.contains_key(k),
        candidate.contains_key(k),
        existing[k].len() > 0,
        candidate[k].len() > 0,
        existing[k] != candidate[k],
    ensures
        !bags_match(existing, candidate),
{
}

/// Two connector instances whose source bags agree resolve to one component:
/// the builder gives both sources the same position, and so the same
/// identifier. The bags agree where they give the same value for every name
/// that both hold, and the bag with fewer entries (the first instance's, if
/// both have equally many) holds no name that the other lacks. They need not
/// share a name.
pub proof fn law_agreeing_sources_share_component(first: CiView, second: CiView)
    requires
        first.is_well_formed(),
        second.is_well_formed(),
        forall|k: Seq<char>|
            first.source_component_values.contains_key(k) && second.source_component_values.contains_key(
                k,
            ) ==> first.source_component_values[k] == second.source_component_values[k],
        first.source_component_values.len() <= second.source_component_values.len()
            ==> first.source_component_values.dom().subset_of(second.source_component_values.dom()),
        first.source_component_values.len() > second.source_component_values.len()
            ==> second.source_component_values.dom().subset_of(first.source_component_values.dom()),
    ensures
        source_slot(seq![first, second], 0) == 0,
        source_slot(seq![first, second], 1) == 0,
{
    let cis = seq![first, second];
    let s1 = first.source_component_values;
    let s2 = second.source_component_values;
    let none = Seq::<Bag>::empty();
    reveal_with_fuel(seeded, 3);
    reveal_with_fuel(bags_after, 2);

    // First pass.
    lemma_first_match_none(none, s1);
    assert(seeded(cis, 1) =~= seq![s1]);
    assert(bags_match(s1, s2));
    lemma_first_match_is(seq![s1], s2, 0);
    let e1 = enriched(s1, s2);
    assert(seeded(cis, 2) =~= seq![e1]);
    assert(bags_after(cis, 0) =~= seq![e1]);
    lemma_enriched_is_finite(s1, s2);
    assert(s1.submap_of(e1));
    assert(s2.submap_of(e1));

    // Second pass, first instance.
    lemma_contained_candidate_matches(e1, s1);
    lemma_first_match_is(seq![e1], s1, 0);
    let e2 = enriched(e1, s1);
    assert(bags_at_target(cis, 0) =~= seq![e2]);
    lemma_enriched_is_finite(e1, s1);
    let t1 = first.target_component_values;
    law_resolution_only_adds(seq![e2], t1);
    lemma_first_match_range(seq![e2], t1);
    let after = bags_after(cis, 1);
    assert(after == resolve(seq![e2], t1));
    lemma_enriched_is_finite(e2, t1);
    assert(after[0].dom().finite());
    assert(s2.submap_of(after[0])) by {
        assert(e2.submap_of(after[0]));
    }

    // Second pass, second instance.
    lemma_contained_candidate_matches(after[0], s2);
    lemma_first_match_is(after, s2, 0);
}

/// Two connector instances whose source bags give different observed values
/// for one name resolve to two components: the builder gives their sources
/// different positions, and so different identifiers.
pub proof fn law_conflicting_sources_get_distinct_components(first: CiView, second: CiView, k: Seq<char>)
    requires
        first.source_component_values.contains_key(k),
        second.source_component_values.contains_key(k),
        first.source_component_values[k].len() > 0,
        second.source_component_values[k].len() > 0,
        first.source_component_values[k] != second.source_component_values[k],
    ensures
        source_slot(seq![first, second], 0) == 0,
        source_slot(seq![first, second], 1) > 0,
{
    let cis = seq![first, second];
    let s1 = first.source_component_values;
    let s2 = second.source_component_values;
    let none = Seq::<Bag>::empty();
    reveal_with_fuel(seeded, 3);
    reveal_with_fuel(bags_after, 2);

    // First pass.
    lemma_first_match_none(none, s1);
    assert(seeded(cis, 1) =~= seq![s1]);
    lemma_conflict_excludes_match(s1, s2, k);
    lemma_first_match_none(seq![s1], s2);
    assert(seeded(cis, 2) =~= seq![s1, s2]);
    let b0 = bags_after(cis, 0);
    assert(b0 =~= seq![s1, s2]);

    // Second pass, first instance.
    assert(bags_match(s1, s1));
    lemma_first_match_is(b0, s1, 0);
    let at = bags_at_target(cis, 0);
    law_resolution_only_adds(b0, s1);
    let t1 = first.target_component_values;
    law_resolution_only_adds(at, t1);
    let after = bags_after(cis, 1);
    assert(after == resolve(at, t1));
    assert(b0[0].submap_of(at[0]));
    assert(at[0].submap_of(after[0]));
    assert(after[0].contains_key(k) && after[0][k] == s1[k]);

    // Second pass, second instance.
    lemma_conflict_excludes_match(after[0], s2, k);
    lemma_first_match_range(after, s2);
}

/// Two models are the same up to the names of their components: they have
/// the same component bags in the same order, and as many connectors, which
/// in order have the same type and join the components at the same
/// positions.
pub open spec fn isomorphic(a: ModelView, b: ModelView) -> bool {
    &&& a.bags() == b.bags()
    &&& a.connectors.len() == b.connectors.len()
    &&& forall|i: int|
        0 <= i < a.connectors.len() ==> {
            &&& (#[trigger] a.connectors[i]).connector_type == b.connectors[i].connector_type
            &&& exists|s: int, t: int|
                {
                    &&& 0 <= s < a.components.len()
                    &&& 0 <= t < a.components.len()
                    &&& a.connectors[i].source_component_id == #[trigger] a.ids()[s]
                    &&& b.connectors[i].source_component_id == b.ids()[s]
                    &&& a.connectors[i].target_component_id == #[trigger] a.ids()[t]
                    &&& b.connectors[i].target_component_id == b.ids()[t]
                }
        }
}

/// Two models built from the same list of connector instances are the same
/// up to the names of their components.
pub proof fn law_builds_are_isomorphic(cis: Seq<CiView>, a: ModelView, b: ModelView)
    requires
        a.has_shape(shape_of(cis)),
        b.has_shape(shape_of(cis)),
    ensures
        isomorphic(a, b),
{
    let shape = shape_of(cis);
    assert(a.bags().len() == a.components.len());
    assert(b.bags().len() == b.components.len());
    assert forall|i: int| 0 <= i < a.connectors.len() implies {
        &&& (#[trigger] a.connectors[i]).connector_type == b.connectors[i].connector_type
        &&& exists|s: int, t: int|
            {
                &&& 0 <= s < a.components.len()
                &&& 0 <= t < a.components.len()
                &&& a.connectors[i].source_component_id == #[trigger] a.ids()[s]
                &&& b.connectors[i].source_component_id == b.ids()[s]
                &&& a.connectors[i].target_component_id == #[trigger] a.ids()[t]
                &&& b.connectors[i].target_component_id == b.ids()[t]
            }
    } by {
        let link = shape.links[i];
        assert(a.connectors[i] == a.connector_of(link));
        assert(b.connectors[i] == b.connector_of(link));
        assert(a.connectors[i].source_component_id == a.ids()[link.source]);
        assert(a.connectors[i].target_component_id == a.ids()[link.target]);
    }
}

/// No two connectors of a well-formed model have the same type, source and
/// target.
pub proof fn law_connectors_are_distinct(model: ModelView, i: int, j: int)
    requires
        model.well_formed(),
        0 <= i < model.connectors.len(),
        0 <= j < model.connectors.len(),
        i != j,
    ensures
        model.connectors[i] != model.connectors[j],
{
}

/// Every bag of the sequence holds observations only.
pub open spec fn are_observations(bags: Seq<Bag>) -> bool {
    forall|p: int| 0 <= p < bags.len() ==> is_observation(#[trigger] bags[p])
}

/// Every connector instance of the list is well formed.
pub open spec fn are_well_formed(cis: Seq<CiView>) -> bool {
    forall|i: int| 0 <= i < cis.len() ==> (#[trigger] cis[i]).is_well_formed()
}

/// Some bag of the sequence holds every entry of the candidate.
pub open spec fn is_held(bags: Seq<Bag>, candidate: Bag) -> bool {
    exists|p: int| 0 <= p < bags.len() && candidate.submap_of(#[trigger] bags[p])
}

/// Merging an observation into an observation gives an observation.
pub proof fn lemma_enriched_is_observation(existing: Bag, candidate: Bag)
    requires
        is_observation(existing),
        is_observation(candidate),
    ensures
        is_observation(enriched(existing, candidate)),
{
    lemma_enriched_is_finite(existing, candidate);
}

/// A matching observation that is merged into an observation is held by the
/// result: every entry of it is there.
pub proof fn lemma_enriched_holds_candidate(existing: Bag, candidate: Bag)
    requires
        is_observation(existing),
        is_observation(candidate),
        bags_match(existing, candidate),
    ensures
        candidate.submap_of(enriched(existing, candidate)),
{
}

/// Resolving an observation against observations leaves observations, and
/// the component that the candidate resolves to holds every entry of it.
pub proof fn lemma_resolved_candidate_is_held(bags: Seq<Bag>, candidate: Bag)
    requires
        are_observations(bags),
        is_observation(candidate),
    ensures
        are_observations(resolve(bags, candidate)),
        0 <= first_match(bags, candidate) < resolve(bags, candidate).len(),
        candidate.submap_of(resolve(bags, candidate)[first_match(bags, candidate)]),
{
    lemma_first_match_range(bags, candidate);
    let i = first_match(bags, candidate);
    if i < bags.len() {
        lemma_enriched_is_observation(bags[i], candidate);
        lemma_enriched_holds_candidate(bags[i], candidate);
    }
    assert forall|p: int| 0 <= p < resolve(bags, candidate).len() implies is_observation(
        #[trigger] resolve(bags, candidate)[p],
    ) by {
        if p != i {
            assert(resolve(bags, candidate)[p] == bags[p]);
        }
    }
}

/// What a bag of the sequence holds, the bag at the same position still
/// holds after another candidate was resolved.
pub proof fn lemma_held_stays_held(bags: Seq<Bag>, held: Bag, p: int, candidate: Bag)
    requires
        0 <= p < bags.len(),
        held.submap_of(bags[p]),
    ensures
        p < resolve(bags, candidate).len(),
        held.submap_of(resolve(bags, candidate)[p]),
{
    law_resolution_only_adds(bags, candidate);
    assert(bags[p].submap_of(resolve(bags, candidate)[p]));
}

/// After the first pass has resolved the sources of the first `n` instances
/// of a well-formed list, all component bags are observations, and each of
/// those sources is held by a component.
pub proof fn lemma_first_pass_holds_sources(cis: Seq<CiView>, n: nat)
    requires
        are_well_formed(cis),
        n <= cis.len(),
    ensures
        are_observations(seeded(cis, n)),
        forall|i: int| 0 <= i < n ==> is_held(seeded(cis, n), (#[trigger] cis[i]).source_component_values),
    decreases n,
{
    if n > 0 {
        let before = seeded(cis, (n - 1) as nat);
        let source = cis[n - 1].source_component_values;
        lemma_first_pass_holds_sources(cis, (n - 1) as nat);
        lemma_resolved_candidate_is_held(before, source);
        assert forall|i: int| 0 <= i < n implies is_held(
            seeded(cis, n),
            (#[trigger] cis[i]).source_component_values,
        ) by {
            if i < n - 1 {
                let p = choose|p: int|
                    0 <= p < before.len() && cis[i].source_component_values.submap_of(#[trigger] before[p]);
                lemma_held_stays_held(before, cis[i].source_component_values, p, source);
                assert(cis[i].source_component_values.submap_of(seeded(cis, n)[p]));
            } else {
                assert(source.submap_of(seeded(cis, n)[first_match(before, source)]));
            }
        }
    }
}

/// At every step of the second pass over a well-formed list, all component
/// bags are observations, and the source of every instance of the list is
/// held by a component.
pub proof fn lemma_second_pass_holds_sources(cis: Seq<CiView>, n: nat)
    requires
        are_well_formed(cis),
        n <= cis.len(),
    ensures
        are_observations(bags_after(cis, n)),
        forall|i: int|
            0 <= i < cis.len() ==> is_held(bags_after(cis, n), (#[trigger] cis[i]).source_component_values),
    decreases n,
{
    if n == 0 {
        lemma_first_pass_holds_sources(cis, cis.len());
    } else {
        let before = bags_after(cis, (n - 1) as nat);
        let source = cis[n - 1].source_component_values;
        let target = cis[n - 1].target_component_values;
        let middle = resolve(before, source);
        lemma_second_pass_holds_sources(cis, (n - 1) as nat);
        lemma_resolved_candidate_is_held(before, source);
        lemma_resolved_candidate_is_held(middle, target);
        assert forall|i: int| 0 <= i < cis.len() implies is_held(
            bags_after(cis, n),
            (#[trigger] cis[i]).source_component_values,
        ) by {
            let held = cis[i].source_component_values;
            let p = choose|p: int| 0 <= p < before.len() && held.submap_of(#[trigger] before[p]);
            lemma_held_stays_held(before, held, p, source);
            lemma_held_stays_held(middle, held, p, target);
            assert(held.submap_of(bags_after(cis, n)[p]));
        }
    }
}

/// In the second pass over a well-formed list, the source of every instance
/// is found among the components: the first pass has seeded them all, and
/// looking a source up again creates no component.
pub proof fn law_second_pass_finds_sources(cis: Seq<CiView>, i: int)
    requires
        are_well_formed(cis),
        0 <= i < cis.len(),
    ensures
        0 <= source_slot(cis, i) < bags_after(cis, i as nat).len(),
{
    let bags = bags_after(cis, i as nat);
    let source = cis[i].source_component_values;
    lemma_second_pass_holds_sources(cis, i as nat);
    lemma_first_match_range(bags, source);
    let p = choose|p: int| 0 <= p < bags.len() && source.submap_of(#[trigger] bags[p]);
    lemma_contained_candidate_matches(bags[p], source);
}

/// What the component at a position holds once the source of instance `i`
/// has been resolved, the component at that position holds at every later
/// step of the second pass.
pub proof fn lemma_second_pass_keeps_entries(cis: Seq<CiView>, i: int, n: nat, p: int)
    requires
        0 <= i < n <= cis.len(),
        0 <= p < bags_at_target(cis, i).len(),
    ensures
        p < bags_after(cis, n).len(),
        bags_at_target(cis, i)[p].submap_of(bags_after(cis, n)[p]),
    decreases n,
{
    let held = bags_at_target(cis, i)[p];
    if n == i + 1 {
        lemma_held_stays_held(bags_at_target(cis, i), held, p, cis[i].target_component_values);
    } else {
        let before = bags_after(cis, (n - 1) as nat);
        let middle = resolve(before, cis[n - 1].source_component_values);
        lemma_second_pass_keeps_entries(cis, i, (n - 1) as nat, p);
        lemma_held_stays_held(before, held, p, cis[n - 1].source_component_values);
        lemma_held_stays_held(middle, held, p, cis[n - 1].target_component_values);
    }
}

/// In a well-formed list of any length, two connector instances whose source
/// bags give different values for one name resolve to two components.
pub proof fn law_conflicting_sources_never_share(cis: Seq<CiView>, i: int, j: int, k: Seq<char>)
    requires
        are_well_formed(cis),
        0 <= i < j < cis.len(),
        cis[i].source_component_values.contains_key(k),
        cis[j].source_component_values.contains_key(k),
        cis[i].source_component_values[k] != cis[j].source_component_values[k],
    ensures
        source_slot(cis, i) != source_slot(cis, j),
{
    let first = cis[i].source_component_values;
    let second = cis[j].source_component_values;
    let slot = source_slot(cis, i);
    lemma_second_pass_holds_sources(cis, i as nat);
    lemma_resolved_candidate_is_held(bags_after(cis, i as nat), first);
    lemma_second_pass_keeps_entries(cis, i, j as nat, slot);
    let later = bags_after(cis, j as nat);
    let home = bags_at_target(cis, i)[slot];
    assert(first.submap_of(home));
    assert(home.submap_of(later[slot]));
    assert(home.dom().contains(k) && home[k] == first[k]);
    assert(later[slot].dom().contains(k) && later[slot][k] == first[k]);
    lemma_second_pass_holds_sources(cis, j as nat);
    lemma_conflict_excludes_match(later[slot], second, k);
    lemma_first_match_range(later, second);
}

} // verus!
