use engine::contracts::{
    Claim, DomainPack, EdgeType, EvidenceType, ExtractResponse, GraphEdge, GraphNode, KpiContract,
    NodeKind, Polarity, Target,
};
use engine::discover::{dedupe, hypothesis_id, title};
use engine::graph::MechanismGraph;
use engine::operators::{generate, Operator};

fn claim(id: &str, et: EvidenceType) -> Claim {
    Claim { id: id.into(), text: id.into(), source_ref: "doc".into(), evidence_type: et }
}

fn node(id: &str, kind: NodeKind, label: &str, tags: &[&str]) -> GraphNode {
    GraphNode {
        id: id.into(),
        kind,
        label: label.into(),
        tags: tags.iter().map(|s| s.to_string()).collect(),
        diagnosis: None,
        capex_class: None,
        equipment_required: None,
        lever_type: None,
        available: None,
    }
}

fn edge(id: &str, src: &str, dst: &str, edge_type: EdgeType, polarity: Polarity, claims: &[&str]) -> GraphEdge {
    GraphEdge {
        id: id.into(),
        src: src.into(),
        dst: dst.into(),
        edge_type,
        mechanism: None,
        source_claims: claims.iter().map(|s| s.to_string()).collect(),
        polarity: Some(polarity),
    }
}

fn contract(excluded: Vec<String>) -> KpiContract<f64> {
    KpiContract {
        factory_id: "synthetic".into(),
        target: Target { metric: "goal".into(), direction: "increase".into(), minimum_delta_percent: None },
        constraints: vec![],
        prices_usd_per_t: vec![],
        weights_override: vec![],
        excluded_factors: excluded,
    }
}

fn synthetic() -> ExtractResponse {
    ExtractResponse {
        pack_id: "synthetic".into(),
        documents: vec![],
        claims: vec![claim("c1", EvidenceType::Literature), claim("c2", EvidenceType::Experiment)],
        entities: vec![
            node("f1", NodeKind::Factor, "lever one", &["controllable"]),
            node("f2", NodeKind::Factor, "lever two", &["controllable"]),
            node("k", NodeKind::Kpi, "goal", &["kpi"]),
        ],
        edges: vec![
            edge("e1", "f1", "k", EdgeType::Mechanism, Polarity::Positive, &["c1"]),
            edge("e2", "f2", "k", EdgeType::Mechanism, Polarity::Negative, &["c2"]),
        ],
    }
}

#[test]
fn contradiction_operator_when_enabled() {
    let extract = synthetic();
    let pack = DomainPack {
        pack_id: "synthetic".into(),
        enabled_operators: vec!["mechanism_path".into(), "contradiction".into()],
    };
    let graph = MechanismGraph::build(&extract).unwrap();
    let cands = dedupe(generate(&graph, &contract(vec![]), &pack));
    assert!(
        cands.iter().any(|(_, c)| title(&graph, c).contains("граничное условие")),
        "contradiction-гипотеза должна появиться"
    );
}

#[test]
fn build_rejects_unknown_edge_end() {
    let mut extract = synthetic();
    extract.edges.push(edge("e3", "f1", "ghost", EdgeType::Mechanism, Polarity::Positive, &[]));
    assert!(MechanismGraph::build(&extract).is_err());
}

#[test]
fn mechanism_paths_reach_each_lever() {
    let extract = synthetic();
    let pack = DomainPack { pack_id: "synthetic".into(), enabled_operators: vec!["mechanism_path".into()] };
    let graph = MechanismGraph::build(&extract).unwrap();
    let cands = generate(&graph, &contract(vec![]), &pack);
    let levers: Vec<&str> = cands
        .iter()
        .filter(|c| c.operator == Operator::MechanismPath)
        .filter_map(|c| c.controllable.as_deref())
        .collect();
    assert_eq!(levers.len(), 2);
    assert!(levers.contains(&"f1"));
    assert!(levers.contains(&"f2"));
}

#[test]
fn excluded_factor_is_never_a_lever() {
    let extract = synthetic();
    let pack = DomainPack {
        pack_id: "synthetic".into(),
        enabled_operators: vec!["mechanism_path".into(), "gap".into(), "substitution".into()],
    };
    let graph = MechanismGraph::build(&extract).unwrap();
    let before = generate(&graph, &contract(vec![]), &pack);
    assert!(before.iter().any(|c| c.controllable.as_deref() == Some("f1")));
    let after = generate(&graph, &contract(vec!["f1".to_string()]), &pack);
    assert!(after.iter().all(|c| c.controllable.as_deref() != Some("f1")));
    // with one lever left, no gap hypothesis combines two factors
    assert!(after.iter().all(|c| c.operator != Operator::Gap));
    assert!(before.iter().any(|c| c.operator == Operator::Gap));
}

#[test]
fn dedupe_keeps_first_of_each_key() {
    let extract = synthetic();
    let pack = DomainPack { pack_id: "synthetic".into(), enabled_operators: vec!["mechanism_path".into()] };
    let graph = MechanismGraph::build(&extract).unwrap();
    let mut cands = generate(&graph, &contract(vec![]), &pack);
    let again = generate(&graph, &contract(vec![]), &pack);
    let n = cands.len();
    cands.extend(again);
    let kept = dedupe(cands);
    assert_eq!(kept.len(), n);
    let keys: Vec<&String> = kept.iter().map(|(k, _)| k).collect();
    assert!(keys.iter().any(|k| k.as_str() == "mechanism_path|f1,k"));
}

#[test]
fn hypothesis_ids_are_zero_padded() {
    assert_eq!(hypothesis_id(1), "hyp_001");
    assert_eq!(hypothesis_id(42), "hyp_042");
    assert_eq!(hypothesis_id(1234), "hyp_1234");
}

#[test]
fn excluded_node_inside_a_path_drops_the_path() {
    let extract = ExtractResponse {
        pack_id: "synthetic".into(),
        documents: vec![],
        claims: vec![claim("c1", EvidenceType::Literature)],
        entities: vec![
            node("f", NodeKind::Factor, "lever", &["controllable"]),
            node("m", NodeKind::Mechanism, "mechanism", &[]),
            node("g", NodeKind::Factor, "other lever", &["controllable"]),
            node("k", NodeKind::Kpi, "goal", &["kpi"]),
        ],
        edges: vec![
            edge("e1", "f", "m", EdgeType::Mechanism, Polarity::Positive, &["c1"]),
            edge("e2", "m", "k", EdgeType::Mechanism, Polarity::Positive, &["c1"]),
            edge("e3", "g", "k", EdgeType::Mechanism, Polarity::Positive, &["c1"]),
        ],
    };
    let pack = DomainPack {
        pack_id: "synthetic".into(),
        enabled_operators: vec!["mechanism_path".into(), "gap".into(), "substitution".into()],
    };
    let graph = MechanismGraph::build(&extract).unwrap();
    let mentions = |cs: &Vec<engine::operators::Candidate>, id: &str| {
        cs.iter()
            .filter(|c| matches!(c.operator, Operator::MechanismPath | Operator::Substitution | Operator::Gap))
            .any(|c| c.source_nodes.iter().any(|n| n == id))
    };
    let before = generate(&graph, &contract(vec![]), &pack);
    assert!(mentions(&before, "m"));
    let after = generate(&graph, &contract(vec!["m".to_string()]), &pack);
    assert!(!mentions(&after, "m"));
    assert!(!mentions(&after, "f"));
    assert!(after.iter().any(|c| c.operator == Operator::MechanismPath && c.controllable.as_deref() == Some("g")));
}
