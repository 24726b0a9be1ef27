use std::collections::hash_map::DefaultHasher;
use std::hash::{Hash, Hasher};

use engine::contracts::{Claim, EvidenceType, ExtractResponse, GraphNode, KpiContract, NodeKind, Target};
use engine::platform::annotate::{annotate_availability, lever_available, Equipment, FactoryConfig};
use engine::platform::benchmark::{match_experts, ExpertHypothesis, HypothesisKeys};
use engine::platform::diagnostics::{readiness, DataQualityIssue, DiagnosticsReport, LossCell};
use engine::platform::lookup::{capex_class_of, diagnosis_of, find_node, lever_type_of};
use engine::platform::queries::{trace_claims, RoadmapQuery};
use engine::platform::roadmap::{
    alternatives_by_rank, covered_count, order_by_rank, phases_by_capex, roadmap_groups, RoadmapGroup,
};
use engine::platform::run::{
    claims_only_diagnostics, fill_factory_id, note_missing_equipment, resolve_diagnostics, run_pack_id,
    CONTRACT_VERSION, FACTORY_IDS,
};
use engine::platform::runs::UseCaseError;
use engine::platform::snapshot::{claim_texts, hex16, snapshot_from_hash, snapshot_lines, sort_strings};

fn lever(id: &str, lever_type: &str, capex: u8, equipment: Option<&str>) -> GraphNode {
    GraphNode {
        id: id.into(),
        kind: NodeKind::Factor,
        label: id.into(),
        tags: vec!["controllable".into()],
        diagnosis: None,
        capex_class: Some(capex),
        equipment_required: equipment.map(str::to_string),
        lever_type: Some(lever_type.into()),
        available: None,
    }
}

fn diagnosis(id: &str, d: &str) -> GraphNode {
    GraphNode {
        id: id.into(),
        kind: NodeKind::Property,
        label: id.into(),
        tags: vec!["diagnosis".into()],
        diagnosis: Some(d.into()),
        capex_class: None,
        equipment_required: None,
        lever_type: None,
        available: None,
    }
}

fn hyp(id: &str, nodes: &[&str]) -> HypothesisKeys {
    HypothesisKeys { id: id.into(), title: format!("title {id}"), source_nodes: nodes.iter().map(|s| s.to_string()).collect() }
}

fn expert(id: &str, fid: &str, lt: &str, dg: &str) -> ExpertHypothesis {
    ExpertHypothesis { id: id.into(), factory_id: fid.into(), lever_type: lt.into(), diagnosis_hint: dg.into(), text: format!("text {id}") }
}

fn graph_nodes() -> Vec<GraphNode> {
    vec![
        lever("lev_a", "classification", 1, None),
        lever("lev_b", "reagent", 2, Some("pump")),
        lever("lev_c", "classification", 3, None),
        diagnosis("dg_fine", "fine_losses"),
        diagnosis("dg_slime", "slimes"),
    ]
}

#[test]
fn source_nodes_give_lever_diagnosis_and_capex() {
    let nodes = graph_nodes();
    let ids: Vec<String> = vec!["dg_fine".into(), "lev_b".into(), "lev_a".into()];
    assert_eq!(lever_type_of(&nodes, &ids).as_deref(), Some("reagent"));
    assert_eq!(diagnosis_of(&nodes, &ids).as_deref(), Some("fine_losses"));
    assert_eq!(capex_class_of(&nodes, &ids), Some(2));
    assert_eq!(find_node(&nodes, "lev_c"), Some(2));
    assert_eq!(find_node(&nodes, "nope"), None);
    let none: Vec<String> = vec!["nope".into()];
    assert_eq!(lever_type_of(&nodes, &none), None);
}

#[test]
fn benchmark_matches_greedily_and_reports_coverage() {
    let nodes = graph_nodes();
    let hyps = vec![
        hyp("hyp_001", &["lev_a", "dg_fine"]),
        hyp("hyp_002", &["lev_c", "dg_fine"]),
        hyp("hyp_003", &["lev_c", "dg_fine"]),
        hyp("hyp_004", &["lev_b"]),
    ];
    let experts = vec![
        expert("kgmk_h1", "kgmk", "classification", "fine_losses"),
        expert("kgmk_h2", "kgmk", "classification", "fine_losses"),
        expert("kgmk_h3", "kgmk", "reagent", "slimes"),
        expert("tof_h1", "tof", "classification", "fine_losses"),
    ];
    let (picks, report) = match_experts(&hyps, &nodes, &experts, "kgmk");
    let ids: Vec<Option<String>> = picks.iter().map(|m| m.as_ref().map(|m| m.expert_hypothesis_id.clone())).collect();
    assert_eq!(
        ids,
        vec![Some("kgmk_h1".to_string()), Some("kgmk_h2".to_string()), Some("kgmk_h1".to_string()), None]
    );
    assert!(picks.iter().flatten().all(|m| m.matched));
    assert_eq!(report.factory_id, "kgmk");
    assert_eq!(report.expert_total, 3);
    assert_eq!(report.matched, 2);
    assert_eq!(report.coverage_tenths, 667);
    assert_eq!(report.matches.len(), 2);
    assert_eq!(report.matches[1].hypothesis_id, "hyp_002");
    assert_eq!(report.matches[1].lever_type, "classification");
    assert_eq!(report.unmatched_expert_ids, vec!["kgmk_h3".to_string()]);
    let (_, empty) = match_experts(&hyps, &nodes, &experts, "nof_med");
    assert_eq!(empty.expert_total, 0);
    assert_eq!(empty.coverage_tenths, 0);
}

#[test]
fn roadmap_groups_by_diagnosis_within_budget() {
    let nodes = graph_nodes();
    let hyps = vec![
        hyp("hyp_001", &["lev_c", "dg_fine"]),
        hyp("hyp_002", &["lev_a", "dg_fine"]),
        hyp("hyp_003", &["lev_b", "dg_slime"]),
        hyp("hyp_004", &["lev_c", "dg_slime"]),
        hyp("hyp_005", &["lev_a"]),
    ];
    let positive = vec![true, true, true, false, true];
    let (groups, uncovered) = roadmap_groups(&hyps, &nodes, &positive, 1);
    assert_eq!(groups.len(), 2);
    assert_eq!(groups[0].diagnosis, "fine_losses");
    assert_eq!(groups[0].members, vec![0, 1]);
    assert_eq!(groups[0].affordable, vec![1]);
    assert_eq!(groups[1].diagnosis, "slimes");
    assert_eq!(groups[1].members, vec![2]);
    assert!(groups[1].affordable.is_empty());
    assert_eq!(uncovered, vec!["slimes".to_string()]);
    let (_, none_uncovered) = roadmap_groups(&hyps, &nodes, &positive, 3);
    assert!(none_uncovered.is_empty());
}

#[test]
fn roadmap_budget_defaults_to_three() {
    assert_eq!(RoadmapQuery { run_id: None, max_capex: None }.budget(), 3);
    assert_eq!(RoadmapQuery { run_id: None, max_capex: Some(1) }.budget(), 1);
    assert_eq!(RoadmapQuery { run_id: None, max_capex: Some(0) }.budget(), 1);
}

#[test]
fn levers_are_available_by_equipment() {
    let mut x = ExtractResponse { pack_id: "p".into(), documents: vec![], claims: vec![], entities: graph_nodes(), edges: vec![] };
    let with_pump = FactoryConfig {
        factory_id: "kgmk".into(),
        tails_sections: vec![],
        equipment: vec![Equipment { id: "pump".into(), present: false }, Equipment { id: "cyclone".into(), present: true }],
    };
    assert!(!lever_available(&x.entities[1], &with_pump));
    annotate_availability(&mut x, &with_pump);
    assert_eq!(x.entities[0].available, Some(true));
    assert_eq!(x.entities[1].available, Some(false));
    assert_eq!(x.entities[3].available, None);
    let no_list = FactoryConfig { factory_id: "tof".into(), tails_sections: vec![], equipment: vec![] };
    annotate_availability(&mut x, &no_list);
    assert_eq!(x.entities[1].available, Some(true));
}

fn issue(kind: &str) -> DataQualityIssue<f64> {
    DataQualityIssue { issue: kind.into(), location: "Лист1!A1".into(), handling: "skipped".into(), delta_pct: None }
}

fn cell(tons: f64) -> LossCell<f64> {
    LossCell {
        cell_ref: "Лист1!B2".into(),
        section: "s".into(),
        size_class: "-71".into(),
        mineral_form: "free".into(),
        element: "element_28".into(),
        diagnosis: "fine_losses".into(),
        recoverable: true,
        tons,
    }
}

#[test]
fn readiness_counts_issues_by_type() {
    let d = DiagnosticsReport {
        factory_id: "kgmk".into(),
        pack_id: "flotation-v1".into(),
        source_file: "k.xlsx".into(),
        sections: vec![],
        data_quality: vec![issue("ref_error"), issue("merged_cell"), issue("ref_error")],
        loss_cells: vec![cell(1.0), cell(2.0), cell(3.0), cell(4.0), cell(5.0)],
        diagnosis_summary: vec![],
    };
    let r = readiness(&d);
    assert_eq!(r.factory_id, "kgmk");
    assert_eq!(r.loss_cells, 5);
    assert_eq!(r.issues_total, 3);
    assert_eq!(r.issues_by_type, vec![("merged_cell".to_string(), 1), ("ref_error".to_string(), 2)]);
    assert_eq!(r.readiness_tenths, 625);
    assert_eq!(r.note, "5 loss cells parsed; 3 data-quality issues handled deterministically");
    let empty: DiagnosticsReport<f64> = claims_only_diagnostics("tof", "flotation-v1", "missing".into());
    let e = readiness(&empty);
    assert_eq!(e.readiness_tenths, 0);
    assert_eq!(e.issues_by_type, vec![("parse_warning".to_string(), 1)]);
}

#[test]
fn run_decisions() {
    assert_eq!(CONTRACT_VERSION, "1");
    assert_eq!(FACTORY_IDS, ["kgmk", "nof_vkr", "nof_med", "tof"]);
    let x = ExtractResponse { pack_id: "flotation-v1".into(), documents: vec![], claims: vec![], entities: vec![], edges: vec![] };
    assert_eq!(run_pack_id(&None, &x), "flotation-v1");
    assert_eq!(run_pack_id(&Some("other".into()), &x), "other");

    let d: DiagnosticsReport<f64> = claims_only_diagnostics("kgmk", "flotation-v1", "no file".into());
    assert_eq!(
        d.data_quality[0].handling,
        "no quantitative diagnostics — hypotheses from literature graph only (no file)"
    );
    let fallback = resolve_diagnostics::<f64>(Err("gone".into()), "kgmk", &None, "flotation-v1").ok().unwrap();
    assert_eq!(fallback.data_quality[0].issue, "parse_warning");
    assert_eq!(fallback.data_quality[0].location, "diagnostics");
    assert_eq!(fallback.data_quality[0].delta_pct, None);
    assert_eq!(fallback.data_quality[0].handling, "no quantitative diagnostics — hypotheses from literature graph only (gone)");
    assert_eq!((fallback.factory_id.as_str(), fallback.pack_id.as_str()), ("kgmk", "flotation-v1"));
    assert!(fallback.source_file.is_empty() && fallback.sections.is_empty());
    assert!(fallback.loss_cells.is_empty() && fallback.diagnosis_summary.is_empty());
    let failed = resolve_diagnostics::<f64>(Err("gone".into()), "kgmk", &Some("x.xlsx".into()), "flotation-v1");
    assert!(matches!(failed, Err(UseCaseError::Internal(ref m)) if m == "gone"));

    let mut d2: DiagnosticsReport<f64> = claims_only_diagnostics("kgmk", "p", "r".into());
    let empty = FactoryConfig { factory_id: "kgmk".into(), tails_sections: vec![], equipment: vec![] };
    note_missing_equipment(&mut d2, "kgmk", &empty);
    assert_eq!(d2.data_quality.len(), 2);
    assert_eq!(d2.data_quality[1].location, "factories/kgmk.yaml");
    assert_eq!(d2.data_quality[1].handling, "equipment list not provided — hard-filter disabled");

    let mut c: KpiContract<f64> = KpiContract {
        factory_id: String::new(),
        target: Target { metric: "m".into(), direction: "decrease".into(), minimum_delta_percent: None },
        constraints: vec![],
        prices_usd_per_t: vec![],
        weights_override: vec![],
        excluded_factors: vec![],
    };
    fill_factory_id(&mut c, "kgmk");
    assert_eq!(c.factory_id, "kgmk");
    fill_factory_id(&mut c, "tof");
    assert_eq!(c.factory_id, "kgmk");
}

#[test]
fn snapshot_lines_are_sorted_per_group_and_hash_is_hex() {
    assert_eq!(sort_strings(vec!["b".into(), "a".into(), "b".into(), "A".into()]), vec!["A", "a", "b", "b"]);
    let x = ExtractResponse {
        pack_id: "p".into(),
        documents: vec![],
        claims: vec![],
        entities: vec![diagnosis("z", "d"), lever("a", "t", 1, None)],
        edges: vec![],
    };
    let lines = snapshot_lines(&x, vec!["c2|0.5|Literature".into(), "c1|0.9|Experiment".into()]);
    assert_eq!(
        lines,
        vec!["a|Factor|controllable", "z|Property|diagnosis", "c1|0.9|Experiment", "c2|0.5|Literature"]
    );
    assert_eq!(hex16(255), "00000000000000ff");
    assert_eq!(hex16(u64::MAX), "ffffffffffffffff");
    let s = snapshot_from_hash(0x1234, "flotation-v1");
    assert_eq!(s.hash, "0000000000001234");
    assert_eq!(s.id, "snapshot_0000000000001234");
    assert_eq!(s.pack_id, "flotation-v1");
}

#[test]
fn trace_names_the_last_claim_of_each_id() {
    let claim = |id: &str, text: &str| Claim { id: id.into(), text: text.into(), source_ref: "doc".into(), evidence_type: EvidenceType::Literature };
    let claims = vec![claim("c1", "first"), claim("c2", "second"), claim("c1", "again")];
    let trace: Vec<String> = vec!["c9".into(), "c1".into(), "c2".into()];
    assert_eq!(trace_claims(&trace, &claims), vec![2, 1]);
}

#[test]
fn snapshot_hash_ignores_input_order_and_matches_str_hashing() {
    let claim = |id: &str, e: EvidenceType| Claim { id: id.into(), text: "t".into(), source_ref: "doc".into(), evidence_type: e };
    let x = ExtractResponse {
        pack_id: "flotation-v1".into(),
        documents: vec![],
        claims: vec![claim("c2", EvidenceType::Literature), claim("c1", EvidenceType::Experiment)],
        entities: vec![diagnosis("z", "d"), lever("a", "t", 1, None)],
        edges: vec![],
    };
    let mut y = ExtractResponse {
        pack_id: "flotation-v1".into(),
        documents: vec![],
        claims: vec![claim("c1", EvidenceType::Experiment), claim("c2", EvidenceType::Literature)],
        entities: vec![lever("a", "t", 1, None), diagnosis("z", "d")],
        edges: vec![],
    };
    let confidences = vec!["0.5".to_string(), "0.9".to_string()];
    let reordered = vec!["0.9".to_string(), "0.5".to_string()];
    assert_eq!(claim_texts(&x, &confidences), vec!["c2|0.5|Literature", "c1|0.9|Experiment"]);
    let s1 = engine::platform::snapshot::snapshot_of(&x, "kgmk", &confidences);
    let s2 = engine::platform::snapshot::snapshot_of(&y, "kgmk", &reordered);
    assert_eq!(s1.hash, s2.hash);
    assert_eq!(s1.id, format!("snapshot_{}", s1.hash));
    assert_eq!(s1.hash.len(), 16);
    assert!(s1.hash.chars().all(|c| c.is_ascii_hexdigit() && !c.is_ascii_uppercase()));
    assert_eq!(s1.pack_id, "flotation-v1");

    let mut h = DefaultHasher::new();
    "kgmk".hash(&mut h);
    "flotation-v1".to_string().hash(&mut h);
    for line in ["a|Factor|controllable", "z|Property|diagnosis", "c1|0.9|Experiment", "c2|0.5|Literature"] {
        line.to_string().hash(&mut h);
    }
    assert_eq!(s1.hash, format!("{:016x}", h.finish()));

    let swapped = vec!["0.5".to_string(), "0.9".to_string()];
    assert_ne!(s1.hash, engine::platform::snapshot::snapshot_of(&y, "kgmk", &swapped).hash);
    y.entities[1].tags.push("kpi".into());
    let s3 = engine::platform::snapshot::snapshot_of(&y, "kgmk", &reordered);
    assert_ne!(s1.hash, s3.hash);
    assert_ne!(s1.hash, engine::platform::snapshot::snapshot_of(&x, "tof", &confidences).hash);
}

#[test]
fn roadmap_alternatives_follow_rank_without_the_chosen_action() {
    let ranks = vec![3, 1, 2, 1];
    assert_eq!(order_by_rank(&vec![0, 1, 2, 3], &ranks), vec![1, 3, 2, 0]);
    assert_eq!(order_by_rank(&vec![3, 1], &ranks), vec![3, 1]);
    assert!(order_by_rank(&vec![], &ranks).is_empty());
    let ids: Vec<String> = vec!["hyp_a".into(), "hyp_b".into(), "hyp_c".into(), "hyp_b".into()];
    assert_eq!(alternatives_by_rank(&vec![0, 1, 2, 3], &ranks, &ids, 2), vec!["hyp_b", "hyp_b", "hyp_a"]);
    assert_eq!(alternatives_by_rank(&vec![0, 1, 2, 3], &ranks, &ids, 1), vec!["hyp_c", "hyp_a"]);
    assert!(alternatives_by_rank(&vec![2], &ranks, &ids, 2).is_empty());
}

#[test]
fn roadmap_phases_by_capex_class_and_coverage() {
    let phases = phases_by_capex(&vec![2, 1, 2, 3, 1]);
    assert_eq!(phases, vec![(1, vec![1, 4]), (2, vec![0, 2]), (3, vec![3])]);
    assert!(phases_by_capex(&vec![]).is_empty());
    let g = |d: &str, a: Vec<usize>| RoadmapGroup { diagnosis: d.into(), members: vec![0, 1], affordable: a };
    assert_eq!(covered_count(&vec![g("fine", vec![1]), g("slimes", vec![]), g("coarse", vec![0, 1])]), 2);
    assert_eq!(covered_count(&vec![]), 0);
}
