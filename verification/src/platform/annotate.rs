//! Lever availability on the graph before the engine runs: a controllable
//! lever is available when the factory lists no equipment at all (the filter
//! is off), when it needs no equipment, or when the equipment it needs is
//! present at the factory.

use vstd::prelude::*;

use crate::contracts::{node_views, spec_has_tag, ExtractResponse, GraphNode, GraphNodeV};

verus! {

/// A piece of equipment of a factory and whether the factory has it.
#[derive(Debug)]
pub struct Equipment {
    pub id: String,
    pub present: bool,
}

/// What the platform reads of a factory's configuration.
#[derive(Debug)]
pub struct FactoryConfig {
    pub factory_id: String,
    pub tails_sections: Vec<String>,
    pub equipment: Vec<Equipment>,
}

/// Whether the factory has the equipment `id` present.
pub open spec fn has_present(eq: Seq<Equipment>, id: Seq<char>) -> bool {
    exists|j: int| 0 <= j < eq.len() && (#[trigger] eq[j]).present && eq[j].id@ == id
}

/// Whether a lever is available at a factory with this equipment.
pub open spec fn spec_available(n: GraphNodeV, eq: Seq<Equipment>) -> bool {
    eq.len() == 0 || match n.equipment_required {
        Some(req) => has_present(eq, req),
        None => true,
    }
}

/// A node after annotation: a controllable lever gets its availability.
pub open spec fn annotated(n: GraphNodeV, eq: Seq<Equipment>) -> GraphNodeV {
    if spec_has_tag(n, "controllable"@) {
        GraphNodeV { available: Some(spec_available(n, eq)), ..n }
    } else {
        n
    }
}

fn present_at(eq: &Vec<Equipment>, id: &str) -> (r: bool)
    ensures
        r == has_present(eq@, id@),
        r ==> exists|j: int| 0 <= j < eq@.len() && eq@[j].present && #[trigger] eq@[j].id@ == id@,
        !r ==> forall|j: int| 0 <= j < eq@.len() && #[trigger] eq@[j].id@ == id@ ==> !eq@[j].present,
{
    let mut j: usize = 0;
    while j < eq.len()
        invariant
            j <= eq.len(),
            forall|t: int| 0 <= t < j ==> !((#[trigger] eq@[t]).present && eq@[t].id@ == id@),
        decreases eq.len() - j,
    {
        if eq[j].present && crate::strings::str_eq(eq[j].id.as_str(), id) {
            return true;
        }
        j = j + 1;
    }
    false
}

/// Whether a lever node is available at the factory.
pub fn lever_available(n: &GraphNode, factory: &FactoryConfig) -> (r: bool)
    ensures
        r == spec_available(n@, factory.equipment@),
        factory.equipment@.len() == 0 ==> r,
        n.equipment_required is None ==> r,
        factory.equipment@.len() > 0 && n.equipment_required is Some ==> (r <==> exists|j: int|
            0 <= j < factory.equipment@.len() && factory.equipment@[j].present
                && #[trigger] factory.equipment@[j].id@ == n.equipment_required->0@),
{
    if factory.equipment.len() == 0 {
        return true;
    }
    match &n.equipment_required {
        Some(req) => present_at(&factory.equipment, req.as_str()),
        None => true,
    }
}

/// Marks every controllable lever of the extraction as available or not at
/// the factory; nothing else changes.
pub fn annotate_availability(x: &mut ExtractResponse, factory: &FactoryConfig)
    ensures
        node_views(final(x).entities@) == node_views(old(x).entities@).map_values(
            |n: GraphNodeV| annotated(n, factory.equipment@),
        ),
        final(x).pack_id == old(x).pack_id,
        final(x).documents == old(x).documents,
        final(x).claims == old(x).claims,
        final(x).edges == old(x).edges,
{
    let ghost before = node_views(x.entities@);
    let mut out: Vec<GraphNode> = Vec::new();
    let mut i: usize = 0;
    while i < x.entities.len()
        invariant
            before == node_views(x.entities@),
            i <= x.entities.len(),
            node_views(out@) == before.take(i as int).map_values(|n: GraphNodeV| annotated(n, factory.equipment@)),
        decreases x.entities.len() - i,
    {
        let mut n = x.entities[i].clone();
        proof {
            reveal_strlit("controllable");
        }
        if n.has_tag("controllable") {
            let a = lever_available(&n, factory);
            n.available = Some(a);
        }
        let ghost prev = out@;
        out.push(n);
        assert(node_views(out@) =~= node_views(prev).push(annotated(before[i as int], factory.equipment@)));
        assert(before.take(i + 1) =~= before.take(i as int).push(before[i as int]));
        assert(before.take(i + 1).map_values(|n: GraphNodeV| annotated(n, factory.equipment@)) =~= before.take(
            i as int,
        ).map_values(|n: GraphNodeV| annotated(n, factory.equipment@)).push(annotated(before[i as int], factory.equipment@)));
        i = i + 1;
    }
    assert(before.take(x.entities.len() as int) =~= before);
    x.entities = out;
}

/// With the equipment filter on (the factory lists equipment), a lever that
/// needs equipment is available exactly when a listed piece with that id is
/// present: equipment listed as absent, or not listed at all, makes it
/// unavailable. With no equipment listed, or no equipment needed, every
/// lever is available.
pub proof fn lemma_available_iff_present(n: GraphNodeV, eq: Seq<Equipment>)
    ensures
        eq.len() == 0 ==> spec_available(n, eq),
        n.equipment_required is None ==> spec_available(n, eq),
        eq.len() > 0 && n.equipment_required is Some ==> (spec_available(n, eq) <==> exists|j: int|
            0 <= j < eq.len() && eq[j].present && #[trigger] eq[j].id@ == n.equipment_required->0),
        eq.len() > 0 && n.equipment_required is Some && (forall|j: int|
            0 <= j < eq.len() && #[trigger] eq[j].id@ == n.equipment_required->0 ==> !eq[j].present)
            ==> !spec_available(n, eq),
{
}

} // verus!
