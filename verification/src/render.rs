use crate::conn::Model;
use crate::values::ValueMap;
use vstd::prelude::*;
use vstd::string::*;

verus! {

/// The forms in which a model can be written out.
#[derive(Debug, Clone, Copy, PartialEq, Eq, Structural)]
pub enum OutputFormat {
    Json,
    Png,
    Dot,
}

/// The output format that a name stands for: `json`, `png` or `dot`. Any
/// other name stands for `json`.
pub fn output_format(name: &str) -> (format: OutputFormat)
    ensures
        format == if name@ == "png"@ {
            OutputFormat::Png
        } else if name@ == "dot"@ {
            OutputFormat::Dot
        } else {
            OutputFormat::Json
        },
{
    let name = name.to_owned();
    if name == "png".to_owned() {
        OutputFormat::Png
    } else if name == "dot".to_owned() {
        OutputFormat::Dot
    } else {
        OutputFormat::Json
    }
}

/// The label line of one attribute: its name, a colon, its value and the two
/// characters `\n`. An attribute that was not observed has no line.
pub open spec fn label_line(entry: (Seq<char>, Seq<char>)) -> Seq<char> {
    if entry.1.len() > 0 {
        entry.0 + ":"@ + entry.1 + "\\n"@
    } else {
        Seq::empty()
    }
}

/// The label lines of the attributes, in order.
pub open spec fn label_lines(entries: Seq<(Seq<char>, Seq<char>)>) -> Seq<char>
    decreases entries.len(),
{
    if entries.len() == 0 {
        Seq::empty()
    } else {
        label_lines(entries.drop_last()) + label_line(entries.last())
    }
}

/// The label of a node: the lines of its observed attributes between double
/// quotes.
pub open spec fn node_label(entries: Seq<(Seq<char>, Seq<char>)>) -> Seq<char> {
    "\""@ + label_lines(entries) + "\""@
}

/// The label of an edge: the connector type between double quotes.
pub open spec fn edge_label(connector_type: Seq<char>) -> Seq<char> {
    "\""@ + connector_type + "\""@
}

/// Writes the label of a component's node: one line `name:value` for each
/// observed attribute, in the order of the bag, all between double quotes.
pub fn get_node_label(component_values: &ValueMap) -> (label: String)
    ensures
        label@ == node_label(component_values.pairs()),
{
    let mut label = "\"".to_owned();
    let ghost entries = component_values.pairs();
    let n = component_values.len();
    let mut i: usize = 0;
    assert(entries.take(0) =~= Seq::<(Seq<char>, Seq<char>)>::empty());
    while i < n
        invariant
            i <= n,
            n == entries.len(),
            entries == component_values.pairs(),
            label@ == "\""@ + label_lines(entries.take(i as int)),
        decreases n - i,
    {
        let identifier = component_values.key_at(i);
        let value = component_values.value_at(i);
        let ghost before = label@;
        if !value.as_str().is_empty() {
            label.append(identifier.as_str());
            label.append(":");
            label.append(value.as_str());
            label.append("\\n");
        }
        proof {
            assert(entries.take(i + 1).drop_last() =~= entries.take(i as int));
            assert(entries.take(i + 1).last() == entries[i as int]);
            assert(label@ =~= before + label_line(entries[i as int]));
            assert(label@ =~= "\""@ + label_lines(entries.take(i + 1)));
        }
        i += 1;
    }
    assert(entries.take(n as int) =~= entries);
    label.append("\"");
    label
}

/// Writes the label of a connector's edge: its type between double quotes.
pub fn get_edge_label(connector_type: &str) -> (label: String)
    ensures
        label@ == edge_label(connector_type@),
{
    let mut label = "\"".to_owned();
    label.append(connector_type);
    label.append("\"");
    label
}

/// A node of the graph of a model: a component.
#[derive(Debug)]
pub struct DotNode {
    pub id: String,
    pub label: String,
}

/// An edge of the graph of a model: a connector, directed from its source
/// to its target.
#[derive(Debug)]
pub struct DotEdge {
    pub source: String,
    pub target: String,
    pub label: String,
}

/// The directed graph of a model, as its statements in order: first the
/// nodes, then the edges.
#[derive(Debug)]
pub struct DotGraph {
    pub name: String,
    pub nodes: Vec<DotNode>,
    pub edges: Vec<DotEdge>,
}

/// Draws a model as a directed graph named `model`. Each component becomes
/// a node with the component's identifier, labelled with its observed
/// attributes; each connector becomes an edge from its source to its target,
/// labelled with its type. Nodes and edges keep the model's order.
pub fn get_dot_graph(model: &Model) -> (graph: DotGraph)
    ensures
        graph.name@ == "model"@,
        graph.nodes.len() == model.components.len(),
        forall|i: int|
            0 <= i < graph.nodes.len() ==> (#[trigger] graph.nodes[i]).id@ == model.components[i].id@
                && graph.nodes[i].label@ == node_label(model.components[i].component_values.pairs()),
        graph.edges.len() == model.connectors.len(),
        forall|i: int|
            0 <= i < graph.edges.len() ==> (#[trigger] graph.edges[i]).source@
                == model.connectors[i].source_component_id@ && graph.edges[i].target@
                == model.connectors[i].target_component_id@ && graph.edges[i].label@ == edge_label(
                model.connectors[i].connector_type@,
            ),
{
    let mut nodes: Vec<DotNode> = Vec::new();
    let n = model.components.len();
    let mut i: usize = 0;
    while i < n
        invariant
            i <= n,
            n == model.components.len(),
            nodes.len() == i,
            forall|j: int|
                0 <= j < i ==> (#[trigger] nodes[j]).id@ == model.components[j].id@ && nodes[j].label@
                    == node_label(model.components[j].component_values.pairs()),
        decreases n - i,
    {
        let component = &model.components[i];
        let label = get_node_label(&component.component_values);
        nodes.push(DotNode { id: component.id.clone(), label });
        i += 1;
    }

    let mut edges: Vec<DotEdge> = Vec::new();
    let m = model.connectors.len();
    let mut i: usize = 0;
    while i < m
        invariant
            i <= m,
            m == model.connectors.len(),
            edges.len() == i,
            forall|j: int|
                0 <= j < i ==> (#[trigger] edges[j]).source@ == model.connectors[j].source_component_id@
                    && edges[j].target@ == model.connectors[j].target_component_id@ && edges[j].label@
                    == edge_label(model.connectors[j].connector_type@),
        decreases m - i,
    {
        let connector = &model.connectors[i];
        let label = get_edge_label(connector.connector_type.as_str());
        edges.push(
            DotEdge {
                source: connector.source_component_id.clone(),
                target: connector.target_component_id.clone(),
                label,
            },
        );
        i += 1;
    }

    DotGraph { name: "model".to_owned(), nodes, edges }
}

} // verus!
