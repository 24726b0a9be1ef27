//! Contract types shared by the engine and the platform.

use vstd::prelude::*;

verus! {

/// Kind of evidence behind a claim.
#[derive(Clone, Copy, Debug, PartialEq, Eq, Structural)]
pub enum EvidenceType {
    Literature,
    Experiment,
    ExpertNote,
    DataGap,
    Inferred,
}

/// Grounded evidence: literature or experiment, not an indirect inference.
pub open spec fn spec_is_grounded(e: EvidenceType) -> bool {
    e == EvidenceType::Literature || e == EvidenceType::Experiment
}

impl EvidenceType {
    /// Grounded evidence (literature/experiment) rather than an indirect inference.
    pub fn is_grounded(self) -> (r: bool)
        ensures
            r == spec_is_grounded(self),
    {
        match self {
            EvidenceType::Literature | EvidenceType::Experiment => true,
            _ => false,
        }
    }
}

} // verus!

verus! {

/// Kind of a graph node.
#[derive(Clone, Copy, Debug, PartialEq, Eq, Structural)]
pub enum NodeKind {
    Factor,
    Mechanism,
    Property,
    Kpi,
}

/// Kind of a causal edge.
#[derive(Clone, Copy, Debug, PartialEq, Eq, Structural)]
pub enum EdgeType {
    Mechanism,
    Proxy,
    Tradeoff,
    Substitution,
}

/// Direction of an edge's effect.
#[derive(Clone, Copy, Debug, PartialEq, Eq, Structural)]
pub enum Polarity {
    Positive,
    Negative,
    Nonlinear,
}

/// Comparison of a constraint.
#[derive(Clone, Copy, Debug, PartialEq, Eq, Structural)]
pub enum Op {
    LessEqual,
    GreaterEqual,
}

/// Status of a hypothesis on the board.
#[derive(Clone, Copy, Debug, PartialEq, Eq, Structural)]
pub enum Status {
    Recommended,
    Watch,
    RejectedByConstraints,
    NeedsExpertReview,
}

/// Kind of a rerun action.
#[derive(Clone, Copy, Debug, PartialEq, Eq, Structural)]
pub enum RerunKind {
    ExcludeFactor,
    ChangeWeight,
    AddConstraint,
    RelaxConstraint,
    ChangePrice,
}

/// A source document of the extraction.
#[derive(Debug)]
pub struct Document {
    pub id: String,
    pub title: String,
    pub path: String,
    pub source_url: Option<String>,
}

/// A claim extracted from a document. Its confidence is a floating-point score
/// that the scoring layer keeps beside the claim.
#[derive(Debug)]
pub struct Claim {
    pub id: String,
    pub text: String,
    pub source_ref: String,
    pub evidence_type: EvidenceType,
}

/// A node of the mechanism graph. The properties the logic reads are held as
/// plain values: the diagnosis a node stands for, the capex class and the
/// equipment a lever needs, its lever type and its availability.
#[derive(Debug)]
pub struct GraphNode {
    pub id: String,
    pub kind: NodeKind,
    pub label: String,
    pub tags: Vec<String>,
    pub diagnosis: Option<String>,
    pub capex_class: Option<u8>,
    pub equipment_required: Option<String>,
    pub lever_type: Option<String>,
    pub available: Option<bool>,
}

/// The view of an optional string.
pub open spec fn opt_view(o: Option<String>) -> Option<Seq<char>> {
    match o {
        Some(s) => Some(s@),
        None => None,
    }
}

/// A graph node as plain values.
pub struct GraphNodeV {
    pub id: Seq<char>,
    pub kind: NodeKind,
    pub label: Seq<char>,
    pub tags: Seq<Seq<char>>,
    pub diagnosis: Option<Seq<char>>,
    pub capex_class: Option<u8>,
    pub equipment_required: Option<Seq<char>>,
    pub lever_type: Option<Seq<char>>,
    pub available: Option<bool>,
}

impl View for GraphNode {
    type V = GraphNodeV;

    open spec fn view(&self) -> GraphNodeV {
        GraphNodeV {
            id: self.id@,
            kind: self.kind,
            label: self.label@,
            tags: crate::strings::views(self.tags@),
            diagnosis: opt_view(self.diagnosis),
            capex_class: self.capex_class,
            equipment_required: opt_view(self.equipment_required),
            lever_type: opt_view(self.lever_type),
            available: self.available,
        }
    }
}

/// Whether a node carries a tag.
pub open spec fn spec_has_tag(n: GraphNodeV, tag: Seq<char>) -> bool {
    n.tags.contains(tag)
}

impl GraphNode {
    /// Whether the node carries the tag.
    pub fn has_tag(&self, tag: &str) -> (r: bool)
        ensures
            r == spec_has_tag(self@, tag@),
    {
        crate::strings::contains_str(&self.tags, tag)
    }
}

/// An edge of the mechanism graph.
#[derive(Debug)]
pub struct GraphEdge {
    pub id: String,
    pub src: String,
    pub dst: String,
    pub edge_type: EdgeType,
    pub mechanism: Option<String>,
    pub source_claims: Vec<String>,
    pub polarity: Option<Polarity>,
}

/// A graph edge as plain values.
pub struct GraphEdgeV {
    pub id: Seq<char>,
    pub src: Seq<char>,
    pub dst: Seq<char>,
    pub edge_type: EdgeType,
    pub mechanism: Option<Seq<char>>,
    pub source_claims: Seq<Seq<char>>,
    pub polarity: Option<Polarity>,
}

impl View for GraphEdge {
    type V = GraphEdgeV;

    open spec fn view(&self) -> GraphEdgeV {
        GraphEdgeV {
            id: self.id@,
            src: self.src@,
            dst: self.dst@,
            edge_type: self.edge_type,
            mechanism: opt_view(self.mechanism),
            source_claims: crate::strings::views(self.source_claims@),
            polarity: self.polarity,
        }
    }
}

/// A claim as plain values.
pub struct ClaimV {
    pub id: Seq<char>,
    pub text: Seq<char>,
    pub source_ref: Seq<char>,
    pub evidence_type: EvidenceType,
}

impl View for Claim {
    type V = ClaimV;

    open spec fn view(&self) -> ClaimV {
        ClaimV {
            id: self.id@,
            text: self.text@,
            source_ref: self.source_ref@,
            evidence_type: self.evidence_type,
        }
    }
}

/// The views of a sequence of nodes.
pub open spec fn node_views(s: Seq<GraphNode>) -> Seq<GraphNodeV> {
    s.map_values(|n: GraphNode| n@)
}

/// The views of a sequence of edges.
pub open spec fn edge_views(s: Seq<GraphEdge>) -> Seq<GraphEdgeV> {
    s.map_values(|e: GraphEdge| e@)
}

/// The views of a sequence of claims.
pub open spec fn claim_views(s: Seq<Claim>) -> Seq<ClaimV> {
    s.map_values(|c: Claim| c@)
}

/// What the sidecar's extraction returns: documents, claims, nodes and edges.
#[derive(Debug)]
pub struct ExtractResponse {
    pub pack_id: String,
    pub documents: Vec<Document>,
    pub claims: Vec<Claim>,
    pub entities: Vec<GraphNode>,
    pub edges: Vec<GraphEdge>,
}

/// A design-of-experiments plan for a hypothesis.
#[derive(Debug)]
pub struct DoePlan {
    pub objective: String,
    pub factors: Vec<String>,
    pub measurements: Vec<String>,
    pub minimum_runs: u32,
}

/// A design-of-experiments plan as plain values.
pub struct DoePlanV {
    pub objective: Seq<char>,
    pub factors: Seq<Seq<char>>,
    pub measurements: Seq<Seq<char>>,
    pub minimum_runs: u32,
}

impl View for DoePlan {
    type V = DoePlanV;

    open spec fn view(&self) -> DoePlanV {
        DoePlanV {
            objective: self.objective@,
            factors: crate::strings::views(self.factors@),
            measurements: crate::strings::views(self.measurements@),
            minimum_runs: self.minimum_runs,
        }
    }
}

/// Identity of the input a board was computed from.
#[derive(Debug)]
pub struct Snapshot {
    pub id: String,
    pub hash: String,
    pub pack_id: String,
}

/// The part of a domain pack that decides which operators run.
#[derive(Debug)]
pub struct DomainPack {
    pub pack_id: String,
    pub enabled_operators: Vec<String>,
}

/// Whether a pack enables an operator.
pub open spec fn spec_operator_enabled(p: DomainPack, name: Seq<char>) -> bool {
    crate::strings::views(p.enabled_operators@).contains(name)
}

impl DomainPack {
    /// Whether the pack enables the operator named `name`.
    pub fn operator_enabled(&self, name: &str) -> (r: bool)
        ensures
            r == spec_operator_enabled(*self, name@),
    {
        crate::strings::contains_str(&self.enabled_operators, name)
    }
}

/// A constraint of a KPI contract; `V` is the type of its numeric bound.
#[derive(Clone, Debug)]
pub struct Constraint<V> {
    pub metric: String,
    pub op: Op,
    pub value: V,
    pub unit: Option<String>,
}

/// A constraint with its strings as character sequences.
pub struct ConstraintV<V> {
    pub metric: Seq<char>,
    pub op: Op,
    pub value: V,
    pub unit: Option<Seq<char>>,
}

impl<V> View for Constraint<V> {
    type V = ConstraintV<V>;

    open spec fn view(&self) -> ConstraintV<V> {
        ConstraintV { metric: self.metric@, op: self.op, value: self.value, unit: opt_view(self.unit) }
    }
}

/// The goal of a KPI contract.
#[derive(Clone, Debug)]
pub struct Target<V> {
    pub metric: String,
    pub direction: String,
    pub minimum_delta_percent: Option<V>,
}

/// A KPI contract; `V` is the type of its numeric values (bounds, weights, prices).
/// Weight overrides and prices are kept as key-ordered association lists.
#[derive(Clone, Debug)]
pub struct KpiContract<V> {
    pub factory_id: String,
    pub target: Target<V>,
    pub constraints: Vec<Constraint<V>>,
    pub prices_usd_per_t: Vec<(String, V)>,
    pub weights_override: Vec<(String, V)>,
    pub excluded_factors: Vec<String>,
}

/// The payload of a rerun action; which fields are used depends on the kind.
#[derive(Clone, Debug)]
pub struct RerunPayload<V> {
    pub factor_id: Option<String>,
    pub metric: Option<String>,
    pub op: Option<Op>,
    pub dimension: Option<String>,
    pub value: Option<V>,
    pub element: Option<String>,
    pub usd_per_t: Option<V>,
}

/// A rerun action applied to the contract of a stored run.
#[derive(Clone, Debug)]
pub struct RerunAction<V> {
    pub kind: RerunKind,
    pub payload: RerunPayload<V>,
}

/// Body of an error answer: a code, a message and string details.
#[derive(Debug)]
pub struct ApiErrorBody {
    pub code: String,
    pub message: String,
    pub details: Vec<(String, String)>,
}

/// An error answer in the contract's format.
#[derive(Debug)]
pub struct ApiError {
    pub error: ApiErrorBody,
}

impl ApiError {
    /// An error with the given code, message and details.
    pub fn new(code: &str, message: String, details: Vec<(String, String)>) -> (r: ApiError)
        ensures
            r.error.code@ == code@,
            r.error.message == message,
            r.error.details == details,
    {
        ApiError {
            error: ApiErrorBody { code: crate::strings::owned(code), message, details },
        }
    }
}

} // verus!

verus! {

/// A copy of an optional string.
pub fn copy_opt_string(o: &Option<String>) -> (r: Option<String>)
    ensures
        r == *o,
{
    match o {
        Some(s) => Some(s.clone()),
        None => None,
    }
}

/// A copy of a vector of strings.
pub fn copy_strings(v: &Vec<String>) -> (r: Vec<String>)
    ensures
        r@ == v@,
{
    let mut r: Vec<String> = Vec::new();
    let mut i: usize = 0;
    while i < v.len()
        invariant
            i <= v.len(),
            r@ == v@.subrange(0, i as int),
        decreases v.len() - i,
    {
        r.push(v[i].clone());
        i = i + 1;
        assert(r@ =~= v@.subrange(0, i as int));
    }
    assert(r@ =~= v@);
    r
}

impl Clone for Claim {
    fn clone(&self) -> (r: Self)
        ensures
            r == *self,
    {
        Claim {
            id: self.id.clone(),
            text: self.text.clone(),
            source_ref: self.source_ref.clone(),
            evidence_type: self.evidence_type,
        }
    }
}

impl Clone for GraphNode {
    fn clone(&self) -> (r: Self)
        ensures
            r@ == self@,
    {
        GraphNode {
            id: self.id.clone(),
            kind: self.kind,
            label: self.label.clone(),
            tags: copy_strings(&self.tags),
            diagnosis: copy_opt_string(&self.diagnosis),
            capex_class: self.capex_class,
            equipment_required: copy_opt_string(&self.equipment_required),
            lever_type: copy_opt_string(&self.lever_type),
            available: self.available,
        }
    }
}

impl Clone for GraphEdge {
    fn clone(&self) -> (r: Self)
        ensures
            r@ == self@,
    {
        GraphEdge {
            id: self.id.clone(),
            src: self.src.clone(),
            dst: self.dst.clone(),
            edge_type: self.edge_type,
            mechanism: copy_opt_string(&self.mechanism),
            source_claims: copy_strings(&self.source_claims),
            polarity: self.polarity,
        }
    }
}

impl Clone for DoePlan {
    fn clone(&self) -> (r: Self)
        ensures
            r@ == self@,
    {
        DoePlan {
            objective: self.objective.clone(),
            factors: copy_strings(&self.factors),
            measurements: copy_strings(&self.measurements),
            minimum_runs: self.minimum_runs,
        }
    }
}

impl Clone for Snapshot {
    fn clone(&self) -> (r: Self)
        ensures
            r == *self,
    {
        Snapshot { id: self.id.clone(), hash: self.hash.clone(), pack_id: self.pack_id.clone() }
    }
}

} // verus!
