use engine::contracts::{
    Claim, Constraint, EdgeType, EvidenceType, ExtractResponse, GraphEdge, GraphNode, KpiContract, NodeKind, Op,
    Polarity, Status, Target,
};
use engine::discover::{lever_label, summary, title};
use engine::doe::plan;
use engine::graph::MechanismGraph;
use engine::operators::{generate, Candidate, Operator};
use engine::scoring::{
    capex_of, constraint_node, edge_grounded, grounded_edge_count, is_cost_metric, missing_evidence, normalize, strip_separators,
    relevant_elements, risks,
};
use engine::status::{assign, status_str};

fn node(id: &str, kind: NodeKind, label: &str, tags: &[&str], capex: Option<u8>) -> GraphNode {
    GraphNode {
        id: id.into(),
        kind,
        label: label.into(),
        tags: tags.iter().map(|s| s.to_string()).collect(),
        diagnosis: None,
        capex_class: capex,
        equipment_required: None,
        lever_type: None,
        available: None,
    }
}

fn edge(id: &str, src: &str, dst: &str, claims: &[&str]) -> GraphEdge {
    GraphEdge {
        id: id.into(),
        src: src.into(),
        dst: dst.into(),
        edge_type: EdgeType::Mechanism,
        mechanism: None,
        source_claims: claims.iter().map(|s| s.to_string()).collect(),
        polarity: Some(Polarity::Positive),
    }
}

fn claim(id: &str, et: EvidenceType) -> Claim {
    Claim { id: id.into(), text: id.into(), source_ref: "doc".into(), evidence_type: et }
}

fn extract() -> ExtractResponse {
    ExtractResponse {
        pack_id: "flotation-v1".into(),
        documents: vec![],
        claims: vec![claim("c1", EvidenceType::Literature), claim("c2", EvidenceType::Inferred)],
        entities: vec![
            node("node_nozzle", NodeKind::Factor, "насадка", &["controllable"], Some(2)),
            node("node_fines", NodeKind::Mechanism, "тонкие классы", &["kpi_proxy"], None),
            node("recoverable_losses_element_28", NodeKind::Kpi, "потери", &["kpi"], None),
            node("node_energy", NodeKind::Property, "Energy use", &["constraint"], None),
        ],
        edges: vec![
            edge("e1", "node_nozzle", "node_fines", &["c2"]),
            edge("e2", "node_fines", "recoverable_losses_element_28", &["c1"]),
        ],
    }
}

fn contract() -> KpiContract<f64> {
    KpiContract {
        factory_id: "kgmk".into(),
        target: Target { metric: "recoverable_losses_element_28".into(), direction: "decrease".into(), minimum_delta_percent: None },
        constraints: vec![
            Constraint { metric: "energy use".into(), op: Op::LessEqual, value: 1.0, unit: None },
            Constraint { metric: "capex_class".into(), op: Op::LessEqual, value: 3.0, unit: None },
        ],
        prices_usd_per_t: vec![("element_28".into(), 16500.0), ("element_29".into(), 9500.0)],
        weights_override: vec![],
        excluded_factors: vec![],
    }
}

fn lever_path(g: &MechanismGraph) -> Candidate {
    let pack = engine::contracts::DomainPack { pack_id: "flotation-v1".into(), enabled_operators: vec!["mechanism_path".into()] };
    generate(g, &contract(), &pack).into_iter().find(|c| c.operator == Operator::MechanismPath).unwrap()
}

#[test]
fn normalize_lowercases_and_drops_separators() {
    assert_eq!(normalize("Capex_Class"), "capexclass");
    assert_eq!(normalize("Energy use-Rate"), "energyuserate");
    assert_eq!(normalize("ЭНЕРГИЯ"), "энергия");
    assert!(is_cost_metric("Cost"));
    assert!(is_cost_metric("c-o_s t"));
    assert!(!is_cost_metric("costs"));
}

#[test]
fn constraints_without_claims_are_missing_evidence() {
    let g = MechanismGraph::build(&extract()).unwrap();
    assert_eq!(constraint_node(&g, "energy_use"), Some(3));
    assert_eq!(constraint_node(&g, "capex_class"), None);
    assert_eq!(missing_evidence(&g, &contract()), vec!["No claim covers constraint metric 'energy use'.".to_string()]);
}

#[test]
fn grounding_capex_and_risks_of_a_lever_path() {
    let g = MechanismGraph::build(&extract()).unwrap();
    assert!(!edge_grounded(&g, 0));
    assert!(edge_grounded(&g, 1));
    let c = lever_path(&g);
    assert_eq!(c.source_nodes, vec!["node_nozzle", "node_fines", "recoverable_losses_element_28"]);
    assert_eq!(c.controllable.as_deref(), Some("node_nozzle"));
    assert_eq!(grounded_edge_count(&g, &c), 1);
    assert_eq!(capex_of(&g, &c), Some(2));
    assert_eq!(
        risks(&g, &c, 1),
        vec![
            "Higher capex class increases capital cost.".to_string(),
            "Some causal edges rely on non-grounded evidence.".to_string(),
            "Some constraints are not directly evidenced.".to_string(),
        ]
    );
    let prices: Vec<String> = vec!["element_28".into(), "element_29".into()];
    let tons: Vec<String> = vec!["element_29".into(), "element_10".into()];
    assert_eq!(relevant_elements(&g, &c, &prices, &tons), vec!["element_28".to_string()]);
    assert_eq!(relevant_elements(&g, &c, &vec![], &tons), vec!["element_10".to_string(), "element_29".to_string()]);
}

#[test]
fn titles_summaries_and_plans() {
    let g = MechanismGraph::build(&extract()).unwrap();
    let c = lever_path(&g);
    assert_eq!(lever_label(&g, &c), "насадка");
    assert_eq!(title(&g, &c), "Настроить «насадка» для снижения «потери»");
    assert_eq!(summary(&g, &c), "Изменить «насадка», чтобы повлиять на «потери» по прослеженной причинной цепочке.");
    let p = plan(&g, &c);
    assert_eq!(p.objective, "Validate the effect on потери for the proposed change.");
    assert_eq!(p.factors, vec!["насадка".to_string()]);
    assert_eq!(p.measurements, vec!["потери".to_string(), "тонкие классы".to_string(), "cost delta".to_string()]);
    assert_eq!(p.minimum_runs, 3);
}

#[test]
fn status_rules_in_order() {
    assert_eq!(assign(true, Some(Status::NeedsExpertReview), true), Status::RejectedByConstraints);
    assert_eq!(assign(false, Some(Status::NeedsExpertReview), true), Status::NeedsExpertReview);
    assert_eq!(assign(false, None, true), Status::Recommended);
    assert_eq!(assign(false, None, false), Status::Watch);
    assert_eq!(status_str(Status::RejectedByConstraints), "rejected_by_constraints");
}

#[test]
fn strip_separators_keeps_case_and_order() {
    assert_eq!(strip_separators("Capex_Class - A"), "CapexClassA");
    assert_eq!(strip_separators("---"), "");
    assert_eq!(strip_separators("ЭНЕРГИЯ б"), "ЭНЕРГИЯб");
}
