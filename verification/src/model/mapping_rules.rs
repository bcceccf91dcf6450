use crate::model::oid::{hex_text, object_id_hex};
use vstd::prelude::*;

verus! {

/// The dependency relation that a mapping rule was derived from.
#[derive(Debug)]
pub struct Relation {
    pub id: String,
    pub source: String,
    pub target: String,
    pub project_id: String,
}

/// A relation as plain text.
pub struct RelationView {
    pub id: Seq<char>,
    pub source: Seq<char>,
    pub target: Seq<char>,
    pub project_id: Seq<char>,
}

impl View for Relation {
    type V = RelationView;

    open spec fn view(&self) -> RelationView {
        RelationView {
            id: self.id@,
            source: self.source@,
            target: self.target@,
            project_id: self.project_id@,
        }
    }
}

impl Clone for Relation {
    fn clone(&self) -> (copy: Self)
        ensures
            copy@ == self@,
    {
        Relation {
            id: self.id.clone(),
            source: self.source.clone(),
            target: self.target.clone(),
            project_id: self.project_id.clone(),
        }
    }
}

/// A rule that says how the trace records of one kind are read: which
/// connector type they stand for, and which fields identify the component on
/// each side. The identifier is the twelve bytes of the rule's database key;
/// trace records name their rule by those bytes written in hexadecimal.
#[derive(Debug)]
pub struct MappingRule {
    pub id: Option<[u8; 12]>,
    pub project_id: String,
    pub procedure: String,
    pub relation: Relation,
    pub connector_type: String,
    pub source_component_identifier_schema: Vec<String>,
    pub target_component_identifier_schema: Vec<String>,
}

/// A mapping rule as plain values.
pub struct MappingRuleView {
    pub id: Option<Seq<u8>>,
    pub project_id: Seq<char>,
    pub procedure: Seq<char>,
    pub relation: RelationView,
    pub connector_type: Seq<char>,
    pub source_component_identifier_schema: Seq<Seq<char>>,
    pub target_component_identifier_schema: Seq<Seq<char>>,
}

/// The texts of a list of names, in order.
pub open spec fn name_views(names: Seq<String>) -> Seq<Seq<char>> {
    names.map_values(|name: String| name@)
}

impl View for MappingRule {
    type V = MappingRuleView;

    open spec fn view(&self) -> MappingRuleView {
        MappingRuleView {
            id: match self.id {
                Some(bytes) => Some(bytes@),
                None => None,
            },
            project_id: self.project_id@,
            procedure: self.procedure@,
            relation: self.relation@,
            connector_type: self.connector_type@,
            source_component_identifier_schema: name_views(self.source_component_identifier_schema@),
            target_component_identifier_schema: name_views(self.target_component_identifier_schema@),
        }
    }
}

/// A copy of a list of names.
fn clone_names(names: &Vec<String>) -> (copy: Vec<String>)
    ensures
        name_views(copy@) == name_views(names@),
{
    let n = names.len();
    let mut copy: Vec<String> = Vec::new();
    let mut i: usize = 0;
    while i < n
        invariant
            i <= n,
            n == names.len(),
            copy.len() == i,
            forall|j: int| 0 <= j < i ==> (#[trigger] copy[j])@ == names[j]@,
        decreases n - i,
    {
        copy.push(names[i].clone());
        i += 1;
    }
    assert(name_views(copy@) =~= name_views(names@));
    copy
}

impl Clone for MappingRule {
    fn clone(&self) -> (copy: Self)
        ensures
            copy@ == self@,
    {
        MappingRule {
            id: self.id,
            project_id: self.project_id.clone(),
            procedure: self.procedure.clone(),
            relation: self.relation.clone(),
            connector_type: self.connector_type.clone(),
            source_component_identifier_schema: clone_names(&self.source_component_identifier_schema),
            target_component_identifier_schema: clone_names(&self.target_component_identifier_schema),
        }
    }
}

impl MappingRuleView {
    /// The rule has an identifier, and its hexadecimal text is `key`.
    pub open spec fn has_key(self, key: Seq<char>) -> bool {
        match self.id {
            Some(bytes) => hex_text(bytes) == key,
            None => false,
        }
    }
}

impl MappingRule {
    /// Tells whether the rule has an identifier whose hexadecimal text is
    /// `key`.
    pub fn has_key(&self, key: &String) -> (held: bool)
        ensures
            held == self@.has_key(key@),
    {
        match &self.id {
            Some(id) => object_id_hex(id) == *key,
            None => false,
        }
    }
}

} // verus!
