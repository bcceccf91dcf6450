use crate::ci::CiView;
use crate::resolution::{first_match, resolve, Bag};
use vstd::prelude::*;

verus! {

/// A connector between component positions: what a connector is before its
/// endpoints get their identifiers.
pub struct Link {
    pub connector_type: Seq<char>,
    pub source: int,
    pub target: int,
}

/// What a list of connector instances determines of its model: the bag of
/// each component and the connectors between component positions. Only the
/// identifiers of the components are left open.
pub struct Shape {
    pub bags: Seq<Bag>,
    pub links: Seq<Link>,
}

/// The component bags after the first pass has resolved the source bags of
/// the first `n` connector instances, in order, starting from no component.
pub open spec fn seeded(cis: Seq<CiView>, n: nat) -> Seq<Bag>
    decreases n,
{
    if n == 0 {
        Seq::empty()
    } else {
        resolve(seeded(cis, (n - 1) as nat), cis[n - 1].source_component_values)
    }
}

/// The component bags after the second pass has handled the first `n`
/// connector instances: it starts from the bags that the whole first pass
/// left, and resolves for each instance its source bag, then its target bag.
pub open spec fn bags_after(cis: Seq<CiView>, n: nat) -> Seq<Bag>
    decreases n,
{
    if n == 0 {
        seeded(cis, cis.len())
    } else {
        resolve(
            resolve(bags_after(cis, (n - 1) as nat), cis[n - 1].source_component_values),
            cis[n - 1].target_component_values,
        )
    }
}

/// The component bags in the second pass when the source bag of instance `i`
/// has been resolved and its target bag has not.
pub open spec fn bags_at_target(cis: Seq<CiView>, i: int) -> Seq<Bag> {
    resolve(bags_after(cis, i as nat), cis[i].source_component_values)
}

/// The position of the component that the source bag of instance `i`
/// resolves to in the second pass.
pub open spec fn source_slot(cis: Seq<CiView>, i: int) -> int {
    first_match(bags_after(cis, i as nat), cis[i].source_component_values)
}

/// The position of the component that the target bag of instance `i`
/// resolves to in the second pass.
pub open spec fn target_slot(cis: Seq<CiView>, i: int) -> int {
    first_match(bags_at_target(cis, i), cis[i].target_component_values)
}

/// The connector that instance `i` asks for.
pub open spec fn link_of(cis: Seq<CiView>, i: int) -> Link {
    Link {
        connector_type: cis[i].connector_type,
        source: source_slot(cis, i),
        target: target_slot(cis, i),
    }
}

/// A link is appended unless an identical one is already there.
pub open spec fn with_link(links: Seq<Link>, link: Link) -> Seq<Link> {
    if links.contains(link) {
        links
    } else {
        links.push(link)
    }
}

/// The connectors after the second pass has handled the first `n` instances.
pub open spec fn links_after(cis: Seq<CiView>, n: nat) -> Seq<Link>
    decreases n,
{
    if n == 0 {
        Seq::empty()
    } else {
        with_link(links_after(cis, (n - 1) as nat), link_of(cis, n - 1))
    }
}

/// The shape of the model that the two passes build from `cis`.
pub open spec fn shape_of(cis: Seq<CiView>) -> Shape {
    Shape { bags: bags_after(cis, cis.len()), links: links_after(cis, cis.len()) }
}

} // verus!
