use crate::ci::{Ci, CiView};
use crate::ident::{first_free_number, get_random_id, is_component_id, number_text, numbered_id};
use crate::ident::{lemma_first_free_number_is, lemma_some_number_is_free};
use crate::ident::{ID_LENGTH, ID_SPACE};
use crate::resolution::{bags_match, enriched, first_match, observed_within, resolve, Bag};
use crate::resolution::{lemma_enriched_by_held_candidate, lemma_first_match_is};
use crate::resolution::{lemma_first_match_none, lemma_first_match_range};
use crate::shape::{bags_after, bags_at_target, link_of, links_after, seeded, shape_of, with_link};
use crate::shape::{Link, Shape};
use crate::values::{lemma_pairs_to_map, ValueMap};
use vstd::prelude::*;

verus! {

/// An inferred relationship between two components.
#[derive(Debug)]
pub struct Connector {
    pub connector_type: String,
    pub source_component_id: String,
    pub target_component_id: String,
}

/// A connector as plain text: its type and the identifiers of its endpoints.
pub struct ConnectorView {
    pub connector_type: Seq<char>,
    pub source_component_id: Seq<char>,
    pub target_component_id: Seq<char>,
}

impl View for Connector {
    type V = ConnectorView;

    open spec fn view(&self) -> ConnectorView {
        ConnectorView {
            connector_type: self.connector_type@,
            source_component_id: self.source_component_id@,
            target_component_id: self.target_component_id@,
        }
    }
}

/// An inferred entity: an identifier and the attribute values observed for it.
#[derive(Debug)]
pub struct Component {
    pub id: String,
    pub component_values: ValueMap,
}

/// A component as plain values.
pub struct ComponentView {
    pub id: Seq<char>,
    pub values: Bag,
}

impl View for Component {
    type V = ComponentView;

    open spec fn view(&self) -> ComponentView {
        ComponentView { id: self.id@, values: self.component_values@ }
    }
}

/// The architecture model: components and the connectors between them, both
/// in the order in which they were inferred.
#[derive(Debug)]
pub struct Model {
    pub connectors: Vec<Connector>,
    pub components: Vec<Component>,
}

/// A model as plain values.
pub struct ModelView {
    pub connectors: Seq<ConnectorView>,
    pub components: Seq<ComponentView>,
}

impl ModelView {
    /// The attribute bags of the components, in order.
    pub open spec fn bags(self) -> Seq<Bag> {
        self.components.map_values(|c: ComponentView| c.values)
    }

    /// The identifiers of the components, in order.
    pub open spec fn ids(self) -> Seq<Seq<char>> {
        self.components.map_values(|c: ComponentView| c.id)
    }

    /// No two components have the same identifier, and every identifier is
    /// made of ten uppercase letters.
    pub open spec fn identified(self) -> bool {
        &&& self.ids().no_duplicates()
        &&& forall|i: int| 0 <= i < self.components.len() ==> is_component_id(#[trigger] self.ids()[i])
    }

    /// The connector that a link becomes in this model: its endpoints are
    /// the identifiers of the components at the link's positions.
    pub open spec fn connector_of(self, link: Link) -> ConnectorView {
        ConnectorView {
            connector_type: link.connector_type,
            source_component_id: self.ids()[link.source],
            target_component_id: self.ids()[link.target],
        }
    }

    /// The model is the given shape with identifiers filled in: its
    /// components have the shape's bags, in order, and its connectors are the
    /// shape's links, in order, between the components at their positions.
    pub open spec fn has_shape(self, shape: Shape) -> bool {
        &&& self.bags() =~= shape.bags
        &&& self.connectors.len() == shape.links.len()
        &&& forall|i: int|
            0 <= i < shape.links.len() ==> {
                &&& 0 <= (#[trigger] shape.links[i]).source < self.components.len()
                &&& 0 <= shape.links[i].target < self.components.len()
                &&& self.connectors[i] == self.connector_of(shape.links[i])
            }
    }

    /// The invariants of a model: component identifiers are distinct and
    /// well shaped, no connector occurs twice, and both endpoints of every
    /// connector are identifiers of components of the model.
    pub open spec fn well_formed(self) -> bool {
        &&& self.identified()
        &&& self.connectors.no_duplicates()
        &&& forall|i: int|
            0 <= i < self.connectors.len() ==> self.ids().contains(
                (#[trigger] self.connectors[i]).source_component_id,
            ) && self.ids().contains(self.connectors[i].target_component_id)
    }

    /// The model with the bag of component `i` replaced.
    pub open spec fn with_bag(self, i: int, bag: Bag) -> ModelView {
        ModelView {
            connectors: self.connectors,
            components: self.components.update(
                i,
                ComponentView { id: self.components[i].id, values: bag },
            ),
        }
    }
}

impl View for Model {
    type V = ModelView;

    open spec fn view(&self) -> ModelView {
        ModelView {
            connectors: self.connectors@.map_values(|c: Connector| c@),
            components: self.components@.map_values(|c: Component| c@),
        }
    }
}

/// An entry is compatible with a bag: it is unobserved, or the bag holds it.
spec fn entry_within(entry: (Seq<char>, Seq<char>), large: Bag) -> bool {
    entry.1.len() > 0 ==> large.contains_key(entry.0) && large[entry.0] == entry.1
}

/// Tells whether every observed entry of `small` is an entry of `large`.
fn observed_entries_within(small: &ValueMap, large: &ValueMap) -> (within: bool)
    ensures
        within == observed_within(small@, large@),
{
    let n = small.len();
    let mut is_same = true;
    let mut i: usize = 0;
    while i < n
        invariant
            i <= n,
            n == small.pairs().len(),
            is_same == (forall|j: int| 0 <= j < i ==> entry_within(#[trigger] small.pairs()[j], large@)),
        decreases n - i,
    {
        let value = small.value_at(i);
        if !value.as_str().is_empty() {
            let identifier = small.key_at(i);
            let held = match large.get(identifier) {
                Some(component_value) => *component_value == *value,
                None => false,
            };
            assert(held == entry_within(small.pairs()[i as int], large@));
            is_same = is_same && held;
        }
        i += 1;
    }
    proof {
        lemma_pairs_to_map(small.pairs());
        if is_same {
            assert forall|k: Seq<char>| small@.contains_key(k) && small@[k].len() > 0 implies large@.contains_key(
                k,
            ) && large@[k] == small@[k] by {
                let j = crate::values::pair_keys(small.pairs()).index_of(k);
                assert(entry_within(small.pairs()[j], large@));
            }
        } else {
            let j = choose|j: int| 0 <= j < n && !entry_within(#[trigger] small.pairs()[j], large@);
            assert(small@.contains_key(small.pairs()[j].0));
        }
    }
    is_same
}

/// Tells whether a candidate bag matches the bag of an existing component:
/// the one of the two with fewer entries (the existing one, if they have
/// equally many) must have all its observed entries in the other.
pub fn values_match(existing: &ValueMap, candidate: &ValueMap) -> (matched: bool)
    ensures
        matched == bags_match(existing@, candidate@),
{
    let is_component_large = existing.len() > candidate.len();
    if is_component_large {
        observed_entries_within(candidate, existing)
    } else {
        observed_entries_within(existing, candidate)
    }
}

/// Among the first `n` pairs, one is named `k` and observed.
spec fn observed_before(pairs: Seq<(Seq<char>, Seq<char>)>, n: int, k: Seq<char>) -> bool {
    exists|j: int| 0 <= j < n && #[trigger] pairs[j].0 == k && pairs[j].1.len() > 0
}

/// Merges a matching candidate into a component's bag: every observed entry
/// of the candidate whose name the bag lacks is added. No entry of the bag is
/// overwritten or removed.
pub fn enrich(component_values: &mut ValueMap, candidate: &ValueMap)
    ensures
        final(component_values)@ == enriched(old(component_values)@, candidate@),
{
    let n = candidate.len();
    let ghost before = component_values@;
    let ghost pairs = candidate.pairs();
    let mut i: usize = 0;
    while i < n
        invariant
            i <= n,
            n == pairs.len(),
            pairs == candidate.pairs(),
            forall|k: Seq<char>| #[trigger]
                component_values@.contains_key(k) <==> before.contains_key(k) || observed_before(
                    pairs,
                    i as int,
                    k,
                ),
            forall|k: Seq<char>| #[trigger]
                component_values@.contains_key(k) ==> component_values@[k] == if before.contains_key(k) {
                    before[k]
                } else {
                    candidate@[k]
                },
        decreases n - i,
    {
        let value = candidate.value_at(i);
        let identifier = candidate.key_at(i);
        let ghost current = component_values@;
        if !value.as_str().is_empty() {
            if component_values.get(identifier).is_none() {
                component_values.insert(identifier.clone(), value.clone());
            }
        }
        proof {
            assert forall|k: Seq<char>| #[trigger]
                component_values@.contains_key(k) <==> before.contains_key(k) || observed_before(
                    pairs,
                    i + 1,
                    k,
                ) by {
                if observed_before(pairs, i + 1, k) && !observed_before(pairs, i as int, k) {
                    let j = choose|j: int| 0 <= j < i + 1 && #[trigger] pairs[j].0 == k && pairs[j].1.len() > 0;
                    assert(j == i);
                }
                if observed_before(pairs, i as int, k) {
                    let j = choose|j: int| 0 <= j < i && #[trigger] pairs[j].0 == k && pairs[j].1.len() > 0;
                    assert(0 <= j < i + 1 && pairs[j].0 == k && pairs[j].1.len() > 0);
                }
                if component_values@.contains_key(k) && !current.contains_key(k) {
                    assert(pairs[i as int].0 == k && pairs[i as int].1.len() > 0);
                }
            }
        }
        i += 1;
    }
    proof {
        lemma_pairs_to_map(pairs);
        let merged = enriched(before, candidate@);
        assert forall|k: Seq<char>| component_values@.contains_key(k) <==> merged.contains_key(k) by {
            if observed_before(pairs, n as int, k) {
                let j = choose|j: int| 0 <= j < n && #[trigger] pairs[j].0 == k && pairs[j].1.len() > 0;
                assert(candidate@.contains_key(pairs[j].0));
            }
            if candidate@.contains_key(k) && candidate@[k].len() > 0 {
                let j = crate::values::pair_keys(pairs).index_of(k);
                assert(pairs[j].0 == k && pairs[j].1.len() > 0);
            }
        }
        assert(component_values@ =~= merged);
    }
}

/// Looks for the first component, in model order, whose bag the candidate
/// matches. Where there is one, the candidate is merged into its bag and its
/// identifier is returned; where there is none, the model is left as it was.
pub fn find_component_in_model(model: &mut Model, component_values: &ValueMap) -> (found: Option<String>)
    ensures
        ({
            let before = old(model)@;
            let i = first_match(before.bags(), component_values@);
            if i < before.components.len() {
                &&& found matches Some(id)
                &&& id@ == before.components[i].id
                &&& final(model)@ == before.with_bag(i, enriched(before.bags()[i], component_values@))
            } else {
                &&& found is None
                &&& final(model)@ == before
            }
        }),
{
    let n = model.components.len();
    let ghost before = model@;
    let mut i: usize = 0;
    while i < n
        invariant
            i <= n,
            n == model.components.len(),
            model@ == before,
            before == old(model)@,
            forall|j: int| 0 <= j < i ==> !bags_match(#[trigger] before.bags()[j], component_values@),
        decreases n - i,
    {
        assert(before.bags()[i as int] == model.components[i as int].component_values@);
        if values_match(&model.components[i].component_values, component_values) {
            let is_component_large = model.components[i].component_values.len() > component_values.len();
            if !is_component_large {
                enrich(&mut model.components[i].component_values, component_values);
            } else {
                proof {
                    lemma_enriched_by_held_candidate(before.bags()[i as int], component_values@);
                }
            }
            proof {
                lemma_first_match_is(before.bags(), component_values@, i as int);
                assert(model@.components =~= before.with_bag(
                    i as int,
                    enriched(before.bags()[i as int], component_values@),
                ).components);
                assert(model@.connectors =~= before.connectors);
            }
            return Some(model.components[i].id.clone());
        }
        i += 1;
    }
    proof {
        lemma_first_match_none(before.bags(), component_values@);
    }
    None
}

/// The connectors after one was asked for: it is appended unless an
/// identical one is already there.
pub open spec fn with_connector(connectors: Seq<ConnectorView>, connector: ConnectorView) -> Seq<
    ConnectorView,
> {
    if connectors.contains(connector) {
        connectors
    } else {
        connectors.push(connector)
    }
}

impl Model {
    /// A model without components and connectors.
    pub fn new() -> (model: Self)
        ensures
            model@.components.len() == 0,
            model@.connectors.len() == 0,
    {
        Self { connectors: Vec::new(), components: Vec::new() }
    }

    /// Tells whether the model holds a connector with the same type, source
    /// and target as `connector`.
    pub fn has_connector(&self, connector: &Connector) -> (held: bool)
        ensures
            held == self@.connectors.contains(connector@),
    {
        let n = self.connectors.len();
        let mut i: usize = 0;
        while i < n
            invariant
                i <= n,
                n == self.connectors.len(),
                forall|j: int| 0 <= j < i ==> self@.connectors[j] != connector@,
            decreases n - i,
        {
            let c = &self.connectors[i];
            if c.connector_type == connector.connector_type && c.source_component_id
                == connector.source_component_id && c.target_component_id
                == connector.target_component_id {
                assert(self@.connectors[i as int] == connector@);
                return true;
            }
            i += 1;
        }
        false
    }

    /// Tells whether a component of the model has the identifier `id`.
    pub fn has_component_id(&self, id: &String) -> (held: bool)
        ensures
            held == self@.ids().contains(id@),
    {
        let n = self.components.len();
        let mut i: usize = 0;
        while i < n
            invariant
                i <= n,
                n == self.components.len(),
                forall|j: int| 0 <= j < i ==> self@.ids()[j] != id@,
            decreases n - i,
        {
            if self.components[i].id == *id {
                assert(self@.ids()[i as int] == id@);
                return true;
            }
            i += 1;
        }
        false
    }
}

/// Settles on an identifier that no component of the model has yet. The
/// candidate is taken where it is not in use. Where it is, the identifier of
/// the first number whose identifier is not in use is taken in its place.
pub fn unused_component_id(model: &Model, candidate: String) -> (id: String)
    requires
        model@.components.len() < ID_SPACE,
    ensures
        !model@.ids().contains(id@),
        id@ == if model@.ids().contains(candidate@) {
            number_text(first_free_number(model@.ids()), ID_LENGTH as nat)
        } else {
            candidate@
        },
        is_component_id(candidate@) ==> is_component_id(id@),
{
    if !model.has_component_id(&candidate) {
        return candidate;
    }
    let n = model.components.len() as u64;
    let mut number: u64 = 0;
    proof {
        lemma_some_number_is_free(model@.ids());
    }
    loop
        invariant
            n == model@.components.len(),
            n < ID_SPACE,
            number <= n,
            model@.ids().contains(candidate@),
            forall|j: nat| j < number ==> model@.ids().contains(#[trigger] number_text(j, ID_LENGTH as nat)),
            exists|k: nat|
                number <= k <= n && !model@.ids().contains(#[trigger] number_text(k, ID_LENGTH as nat)),
        decreases n - number,
    {
        let numbered = numbered_id(number);
        if !model.has_component_id(&numbered) {
            proof {
                lemma_first_free_number_is(model@.ids(), number as nat);
            }
            return numbered;
        }
        number += 1;
    }
}

/// An identifier that no component of the model has yet: a random one,
/// unless that is in use.
pub fn fresh_component_id(model: &Model) -> (id: String)
    requires
        model@.components.len() < ID_SPACE,
    ensures
        is_component_id(id@),
        !model@.ids().contains(id@),
{
    unused_component_id(model, get_random_id(ID_LENGTH))
}

/// Resolves the source bag (`is_source`) or the target bag of a connector
/// instance against the model: the first component whose bag it matches is
/// enriched with it, or a new component with a fresh identifier and that bag
/// is appended. Returns the identifier of the component that the bag now
/// belongs to.
pub fn find_or_create_component_if_not_exist(model: &mut Model, ci: &Ci, is_source: bool) -> (id:
    String)
    requires
        old(model)@.components.len() < ID_SPACE,
    ensures
        ({
            let before = old(model)@;
            let after = final(model)@;
            let bag = if is_source {
                ci@.source_component_values
            } else {
                ci@.target_component_values
            };
            let slot = first_match(before.bags(), bag);
            &&& after.bags() == resolve(before.bags(), bag)
            &&& after.connectors == before.connectors
            &&& after.ids() == if slot < before.components.len() {
                before.ids()
            } else {
                before.ids().push(id@)
            }
            &&& after.components.len() == if slot < before.components.len() {
                before.components.len()
            } else {
                before.components.len() + 1
            }
            &&& 0 <= slot < after.components.len()
            &&& id@ == after.ids()[slot]
            &&& slot == before.components.len() ==> is_component_id(id@) && !before.ids().contains(id@)
            &&& before.identified() ==> after.identified()
        }),
{
    let component_values = if is_source {
        &ci.source_component_values
    } else {
        &ci.target_component_values
    };
    let ghost before = model@;
    proof {
        lemma_first_match_range(before.bags(), component_values@);
    }
    let component_id = find_component_in_model(model, component_values);
    if let Some(component) = component_id {
        proof {
            assert(model@.bags() =~= resolve(before.bags(), component_values@));
            assert(model@.ids() =~= before.ids());
        }
        component
    } else {
        let new_component_id = fresh_component_id(model);
        let new_component_values = component_values.clone();
        let id = new_component_id.clone();
        model.components.push(Component { id: new_component_id, component_values: new_component_values });
        proof {
            assert(model@.bags() =~= resolve(before.bags(), component_values@));
            assert(model@.ids() =~= before.ids().push(id@));
            assert(model@.connectors =~= before.connectors);
        }
        id
    }
}

/// Adds the connector with the given type and endpoints to the model, unless
/// the model already holds one with the same three values.
pub fn create_connector_if_not_exist(
    model: &mut Model,
    connector_type: String,
    source_component_id: String,
    target_component_id: String,
)
    ensures
        final(model)@.components == old(model)@.components,
        final(model)@.connectors == with_connector(
            old(model)@.connectors,
            ConnectorView {
                connector_type: connector_type@,
                source_component_id: source_component_id@,
                target_component_id: target_component_id@,
            },
        ),
{
    let new_connector = Connector { connector_type, source_component_id, target_component_id };
    if !model.has_connector(&new_connector) {
        let ghost before = model@;
        model.connectors.push(new_connector);
        assert(model@.connectors =~= before.connectors.push(new_connector@));
        assert(model@.components =~= before.components);
    }
}

/// The views of a list of connector instances, in order.
pub open spec fn ci_views(cis: Seq<Ci>) -> Seq<CiView> {
    cis.map_values(|ci: Ci| ci@)
}

/// Folds a list of connector instances into a model, in two passes. The
/// first pass resolves the source bag of every instance, in order, so that
/// every source-side component stands before any target-side one. The second
/// pass resolves, for each instance in order, its source bag and then its
/// target bag, and adds the connector between the two components unless the
/// model already holds it.
///
/// Every instance adds at most three components, and identifiers are ten
/// letters long: the list must leave room for that many distinct identifiers.
pub fn build_model(cis: Vec<Ci>) -> (model: Model)
    requires
        3 * cis.len() <= ID_SPACE,
    ensures
        model@.well_formed(),
        model@.has_shape(shape_of(ci_views(cis@))),
{
    let mut model = Model::new();
    let n = cis.len();
    let ghost views = ci_views(cis@);

    let mut i: usize = 0;
    while i < n
        invariant
            i <= n,
            n == cis.len(),
            3 * n <= ID_SPACE,
            views == ci_views(cis@),
            model@.identified(),
            model@.components.len() <= i,
            model@.connectors.len() == 0,
            model@.bags() == seeded(views, i as nat),
        decreases n - i,
    {
        // Create source components first.
        find_or_create_component_if_not_exist(&mut model, &cis[i], true);
        i += 1;
    }

    let mut i: usize = 0;
    while i < n
        invariant
            i <= n,
            n == cis.len(),
            3 * n <= ID_SPACE,
            views == ci_views(cis@),
            views.len() == n,
            model@.well_formed(),
            model@.components.len() <= n + 2 * i,
            model@.has_shape(Shape { bags: bags_after(views, i as nat), links: links_after(views, i as nat) }),
        decreases n - i,
    {
        let ci = &cis[i];
        let ghost start = model@;
        let ghost links = links_after(views, i as nat);
        let source_component_id = find_or_create_component_if_not_exist(&mut model, ci, true);
        let ghost middle = model@;
        let target_component_id = find_or_create_component_if_not_exist(&mut model, ci, false);
        let ghost resolved = model@;
        let ghost link = link_of(views, i as int);
        proof {
            assert(middle.bags() == bags_at_target(views, i as int));
            assert(resolved.bags() == bags_after(views, (i + 1) as nat));
            assert(forall|j: int| 0 <= j < start.components.len() ==> resolved.ids()[j] == start.ids()[j]);
            assert(forall|j: int| 0 <= j < middle.components.len() ==> resolved.ids()[j] == middle.ids()[j]);
            assert(resolved.connector_of(link) == ConnectorView {
                connector_type: ci.connector_type@,
                source_component_id: source_component_id@,
                target_component_id: target_component_id@,
            });
            assert forall|j: int| 0 <= j < links.len() implies resolved.connectors[j]
                == resolved.connector_of(#[trigger] links[j]) by {
                assert(start.connectors[j] == start.connector_of(links[j]));
            }
            if links.contains(link) {
                let j = choose|j: int| 0 <= j < links.len() && links[j] == link;
                assert(resolved.connectors[j] == resolved.connector_of(link));
            }
            if resolved.connectors.contains(resolved.connector_of(link)) {
                let j = choose|j: int|
                    0 <= j < resolved.connectors.len() && resolved.connectors[j] == resolved.connector_of(
                        link,
                    );
                assert(resolved.connector_of(links[j]) == resolved.connector_of(link));
                assert(resolved.ids()[links[j].source] == resolved.ids()[link.source]);
                assert(resolved.ids()[links[j].target] == resolved.ids()[link.target]);
                assert(links[j] == link);
            }
        }
        create_connector_if_not_exist(
            &mut model,
            ci.connector_type.clone(),
            source_component_id,
            target_component_id,
        );
        proof {
            let after = links_after(views, (i + 1) as nat);
            assert(after == with_link(links, link));
            assert(model@.ids() =~= resolved.ids());
            assert(model@.bags() =~= resolved.bags());
            assert forall|j: int| 0 <= j < after.len() implies {
                &&& 0 <= (#[trigger] after[j]).source < model@.components.len()
                &&& 0 <= after[j].target < model@.components.len()
                &&& model@.connectors[j] == model@.connector_of(after[j])
            } by {
                if j < links.len() {
                    assert(start.connectors[j] == start.connector_of(links[j]));
                }
            }
            assert forall|a: int, b: int|
                0 <= a < model@.connectors.len() && 0 <= b < model@.connectors.len() && a
                    != b implies model@.connectors[a] != model@.connectors[b] by {
                if a < start.connectors.len() && b < start.connectors.len() {
                    assert(start.connectors[a] != start.connectors[b]);
                }
            }
            assert forall|j: int| 0 <= j < model@.connectors.len() implies model@.ids().contains(
                (#[trigger] model@.connectors[j]).source_component_id,
            ) && model@.ids().contains(model@.connectors[j].target_component_id) by {
                assert(model@.connectors[j] == model@.connector_of(after[j]));
                assert(model@.ids()[after[j].source] == model@.connectors[j].source_component_id);
                assert(model@.ids()[after[j].target] == model@.connectors[j].target_component_id);
            }
        }
        i += 1;
    }
    model
}

/// Builds the model of a list of connector instances where the list leaves
/// room for the identifiers of its components, as `build_model` asks; a
/// longer list gives no model.
pub fn try_build_model(cis: Vec<Ci>) -> (built: Option<Model>)
    ensures
        built is Some <==> 3 * cis.len() <= ID_SPACE,
        built matches Some(model) ==> model@.well_formed() && model@.has_shape(
            shape_of(ci_views(cis@)),
        ),
{
    if cis.len() as u64 <= ID_SPACE / 3 {
        Some(build_model(cis))
    } else {
        None
    }
}

} // verus!
