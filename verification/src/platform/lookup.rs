//! What a hypothesis's source nodes say about it: the entity each source id
//! names (the last entity with that id, as a map keyed by id keeps it), and
//! the first lever type, diagnosis or capex class among them.

use vstd::prelude::*;

use crate::contracts::{node_views, spec_has_tag, GraphNode, GraphNodeV};
use crate::platform::rerun::{lemma_prefix_len, prefix_len};

verus! {

/// The last node with id `id`.
pub open spec fn node_by_id(ns: Seq<GraphNodeV>, id: Seq<char>) -> Option<GraphNodeV>
    decreases ns.len(),
{
    if ns.len() == 0 {
        None
    } else if ns.last().id == id {
        Some(ns.last())
    } else {
        node_by_id(ns.drop_last(), id)
    }
}

proof fn lemma_node_by_id_prefix(ns: Seq<GraphNodeV>, id: Seq<char>, i: int)
    requires
        0 <= i <= ns.len(),
        forall|j: int| i <= j < ns.len() ==> (#[trigger] ns[j]).id != id,
    ensures
        node_by_id(ns, id) == node_by_id(ns.take(i), id),
    decreases ns.len() - i,
{
    if i < ns.len() {
        assert(ns.drop_last().take(i) =~= ns.take(i));
        lemma_node_by_id_prefix(ns.drop_last(), id, i);
    } else {
        assert(ns.take(i) =~= ns);
    }
}

/// The position of the node that `id` names, if any.
pub fn find_node(ns: &Vec<GraphNode>, id: &str) -> (r: Option<usize>)
    ensures
        match r {
            Some(i) => i < ns@.len() && node_by_id(node_views(ns@), id@) == Some(ns@[i as int]@),
            None => node_by_id(node_views(ns@), id@) is None,
        },
{
    let ghost vs = node_views(ns@);
    let mut i: usize = ns.len();
    while i > 0
        invariant
            vs == node_views(ns@),
            i <= ns.len(),
            forall|j: int| i <= j < ns@.len() ==> (#[trigger] vs[j]).id != id@,
        decreases i,
    {
        if crate::strings::str_eq(ns[i - 1].id.as_str(), id) {
            proof {
                lemma_node_by_id_prefix(vs, id@, i as int);
                assert(vs.take(i as int).last() == vs[i - 1]);
            }
            return Some(i - 1);
        }
        i = i - 1;
    }
    proof {
        lemma_node_by_id_prefix(vs, id@, 0);
    }
    None
}

/// The lever type `id` contributes: that of a controllable node.
pub open spec fn lever_at(ns: Seq<GraphNodeV>, id: Seq<char>) -> Option<Seq<char>> {
    match node_by_id(ns, id) {
        Some(n) => if spec_has_tag(n, "controllable"@) {
            n.lever_type
        } else {
            None
        },
        None => None,
    }
}

/// The diagnosis `id` contributes.
pub open spec fn diagnosis_at(ns: Seq<GraphNodeV>, id: Seq<char>) -> Option<Seq<char>> {
    match node_by_id(ns, id) {
        Some(n) => n.diagnosis,
        None => None,
    }
}

/// The capex class `id` contributes: that of a controllable node.
pub open spec fn capex_at(ns: Seq<GraphNodeV>, id: Seq<char>) -> Option<u8> {
    match node_by_id(ns, id) {
        Some(n) => if spec_has_tag(n, "controllable"@) {
            n.capex_class
        } else {
            None
        },
        None => None,
    }
}

/// Whether `f` gives nothing for an id.
pub open spec fn gives_none<T>(f: spec_fn(Seq<char>) -> Option<T>) -> spec_fn(Seq<char>) -> bool {
    |id: Seq<char>| f(id) is None
}

/// The first value `f` gives over the ids, in order.
pub open spec fn first_some<T>(ids: Seq<Seq<char>>, f: spec_fn(Seq<char>) -> Option<T>) -> Option<T> {
    let p = prefix_len(ids, gives_none(f)) as int;
    if p < ids.len() {
        f(ids[p])
    } else {
        None
    }
}

/// The lever type of a hypothesis with these source ids.
pub open spec fn hyp_lever(ns: Seq<GraphNodeV>, ids: Seq<Seq<char>>) -> Option<Seq<char>> {
    first_some(ids, |id: Seq<char>| lever_at(ns, id))
}

/// The diagnosis of a hypothesis with these source ids.
pub open spec fn hyp_diagnosis(ns: Seq<GraphNodeV>, ids: Seq<Seq<char>>) -> Option<Seq<char>> {
    first_some(ids, |id: Seq<char>| diagnosis_at(ns, id))
}

/// The capex class of a hypothesis with these source ids.
pub open spec fn hyp_capex(ns: Seq<GraphNodeV>, ids: Seq<Seq<char>>) -> Option<u8> {
    first_some(ids, |id: Seq<char>| capex_at(ns, id))
}

/// The lever type of a hypothesis: that of the first source node that is a
/// controllable lever with a lever type.
pub fn lever_type_of(ns: &Vec<GraphNode>, ids: &Vec<String>) -> (r: Option<String>)
    ensures
        crate::contracts::opt_view(r) == hyp_lever(node_views(ns@), crate::strings::views(ids@)),
{
    let ghost vs = node_views(ns@);
    let ghost ks = crate::strings::views(ids@);
    let ghost f = |id: Seq<char>| lever_at(vs, id);
    let mut i: usize = 0;
    while i < ids.len()
        invariant
            vs == node_views(ns@),
            ks == crate::strings::views(ids@),
            f == (|id: Seq<char>| lever_at(vs, id)),
            i <= ids.len(),
            forall|t: int| 0 <= t < i ==> (gives_none(f))(#[trigger] ks[t]),
        decreases ids.len() - i,
    {
        if let Some(j) = find_node(ns, ids[i].as_str()) {
            let n = &ns[j];
            if n.has_tag("controllable") {
                if let Some(lt) = &n.lever_type {
                    proof {
                        reveal_strlit("controllable");
                        assert(ks[i as int] == ids@[i as int]@);
                        lemma_prefix_len(ks, gives_none(f), i as int);
                    }
                    return Some(lt.clone());
                }
            }
            proof {
                reveal_strlit("controllable");
            }
        }
        assert(ks[i as int] == ids@[i as int]@);
        i = i + 1;
    }
    proof {
        lemma_prefix_len(ks, gives_none(f), i as int);
    }
    None
}

/// The diagnosis of a hypothesis: that of the first source node with one.
pub fn diagnosis_of(ns: &Vec<GraphNode>, ids: &Vec<String>) -> (r: Option<String>)
    ensures
        crate::contracts::opt_view(r) == hyp_diagnosis(node_views(ns@), crate::strings::views(ids@)),
{
    let ghost vs = node_views(ns@);
    let ghost ks = crate::strings::views(ids@);
    let ghost f = |id: Seq<char>| diagnosis_at(vs, id);
    let mut i: usize = 0;
    while i < ids.len()
        invariant
            vs == node_views(ns@),
            ks == crate::strings::views(ids@),
            f == (|id: Seq<char>| diagnosis_at(vs, id)),
            i <= ids.len(),
            forall|t: int| 0 <= t < i ==> (gives_none(f))(#[trigger] ks[t]),
        decreases ids.len() - i,
    {
        if let Some(j) = find_node(ns, ids[i].as_str()) {
            if let Some(d) = &ns[j].diagnosis {
                proof {
                    assert(ks[i as int] == ids@[i as int]@);
                    lemma_prefix_len(ks, gives_none(f), i as int);
                }
                return Some(d.clone());
            }
        }
        assert(ks[i as int] == ids@[i as int]@);
        i = i + 1;
    }
    proof {
        lemma_prefix_len(ks, gives_none(f), i as int);
    }
    None
}

/// The capex class of a hypothesis: that of the first source node that is a
/// controllable lever with a capex class.
pub fn capex_class_of(ns: &Vec<GraphNode>, ids: &Vec<String>) -> (r: Option<u8>)
    ensures
        r == hyp_capex(node_views(ns@), crate::strings::views(ids@)),
{
    let ghost vs = node_views(ns@);
    let ghost ks = crate::strings::views(ids@);
    let ghost f = |id: Seq<char>| capex_at(vs, id);
    let mut i: usize = 0;
    while i < ids.len()
        invariant
            vs == node_views(ns@),
            ks == crate::strings::views(ids@),
            f == (|id: Seq<char>| capex_at(vs, id)),
            i <= ids.len(),
            forall|t: int| 0 <= t < i ==> (gives_none(f))(#[trigger] ks[t]),
        decreases ids.len() - i,
    {
        if let Some(j) = find_node(ns, ids[i].as_str()) {
            let n = &ns[j];
            if n.has_tag("controllable") {
                if let Some(c) = n.capex_class {
                    proof {
                        reveal_strlit("controllable");
                        assert(ks[i as int] == ids@[i as int]@);
                        lemma_prefix_len(ks, gives_none(f), i as int);
                    }
                    return Some(c);
                }
            }
            proof {
                reveal_strlit("controllable");
            }
        }
        assert(ks[i as int] == ids@[i as int]@);
        i = i + 1;
    }
    proof {
        lemma_prefix_len(ks, gives_none(f), i as int);
    }
    None
}

} // verus!
