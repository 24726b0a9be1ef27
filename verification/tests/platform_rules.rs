use engine::contracts::{
    Claim, Constraint, EdgeType, EvidenceType, ExtractResponse, GraphEdge, GraphNode, KpiContract,
    NodeKind, Op, RerunAction, RerunKind, RerunPayload, Status, Target,
};
use engine::platform::adapters::{
    endpoint_url, join_path, mime_of, or_fallback, FileBoardGateway, FileDiagnosticsSource,
    FileExpertHypothesesGateway, FileExtractSource, FileFactoryRepository, FilePackRepository,
    HttpDiagnosticsSource, HttpExtractSource,
};
use engine::platform::export::{board_csv, csv_field, BoardRow, BOARD_CSV_HEADER};
use engine::platform::rerun::apply;
use engine::platform::roadmap::{clamp_capex, phase_label};
use engine::platform::runs::{
    board_run, error_body, find_hypothesis, http_status, pick_run, MemoryRunRepository, UseCaseError,
};
use engine::platform::validation::validate_references;

fn node(id: &str, tags: &[&str]) -> GraphNode {
    GraphNode {
        id: id.into(),
        kind: NodeKind::Factor,
        label: "a".into(),
        tags: tags.iter().map(|s| s.to_string()).collect(),
        diagnosis: None,
        capex_class: None,
        equipment_required: None,
        lever_type: None,
        available: None,
    }
}

fn edge(id: &str, src: &str, dst: &str, claims: &[&str]) -> GraphEdge {
    GraphEdge {
        id: id.into(),
        src: src.into(),
        dst: dst.into(),
        edge_type: EdgeType::Mechanism,
        mechanism: None,
        source_claims: claims.iter().map(|s| s.to_string()).collect(),
        polarity: None,
    }
}

#[test]
fn validate_rejects_dangling_edge() {
    let extract = ExtractResponse {
        pack_id: "flotation-v1".into(),
        documents: vec![],
        claims: vec![],
        entities: vec![node("n1", &["controllable"])],
        edges: vec![edge("e1", "n1", "ghost", &[])],
    };
    let err = validate_references(&extract).unwrap_err();
    assert_eq!(err.error.code, "VALIDATION_ERROR");
    let missing: Vec<&(String, String)> = err.error.details.iter().filter(|(k, _)| k == "missing_node").collect();
    assert_eq!(missing.len(), 1);
    assert_eq!(missing[0].1, "ghost");
}

#[test]
fn validate_names_unknown_claim_and_accepts_sound_extraction() {
    let claim = Claim { id: "c1".into(), text: "t".into(), source_ref: "doc".into(), evidence_type: EvidenceType::Literature };
    let mut extract = ExtractResponse {
        pack_id: "p".into(),
        documents: vec![],
        claims: vec![claim],
        entities: vec![node("a", &[]), node("b", &[])],
        edges: vec![edge("e1", "a", "b", &["c1"])],
    };
    assert!(validate_references(&extract).is_ok());
    extract.edges.push(edge("e2", "b", "a", &["c1", "c9"]));
    let err = validate_references(&extract).unwrap_err();
    assert_eq!(err.error.message, "edge source_claims references unknown claim");
    assert_eq!(
        err.error.details,
        vec![("edge_id".to_string(), "e2".to_string()), ("missing_claim".to_string(), "c9".to_string())]
    );
    extract.edges.insert(0, edge("e0", "zz", "a", &[]));
    let err = validate_references(&extract).unwrap_err();
    assert_eq!(err.error.message, "edge src references unknown entity");
}

#[test]
fn csv_field_escapes_only_when_needed() {
    assert_eq!(csv_field("plain"), "plain");
    assert_eq!(csv_field("a,b"), "\"a,b\"");
    assert_eq!(csv_field("say \"hi\""), "\"say \"\"hi\"\"\"");
    assert_eq!(csv_field("two\nlines"), "\"two\nlines\"");
    assert_eq!(csv_field(""), "");
}

#[test]
fn board_csv_has_header_and_one_line_per_row() {
    let row = BoardRow {
        rank: 1,
        id: "hyp_001".into(),
        title: "Настроить, гидроциклон".into(),
        status: Status::Recommended,
        score_total: "0.812".into(),
        value_usd_lo: "3955050".into(),
        value_usd_hi: "11865150".into(),
        capex_class: "1".into(),
        addressable_tons_28: "12.5".into(),
        trace: vec!["c1".into(), "c2".into()],
    };
    let text = board_csv(&vec![row]);
    let mut lines = text.lines();
    assert_eq!(lines.next(), Some(BOARD_CSV_HEADER));
    assert_eq!(
        lines.next(),
        Some("1,hyp_001,\"Настроить, гидроциклон\",recommended,0.812,3955050,11865150,1,12.5,c1;c2")
    );
    assert_eq!(lines.next(), None);
    assert!(board_csv(&vec![]) == format!("{}\n", BOARD_CSV_HEADER));
}

#[test]
fn phase_labels_and_budget() {
    assert_eq!(phase_label(1), "Фаза 1 — быстрые настройки режима (capex 1)");
    assert_eq!(phase_label(2), "Фаза 2 — замена узлов/деталей (capex 2)");
    assert_eq!(phase_label(3), "Фаза 3 — новое оборудование (capex 3)");
    assert_eq!(phase_label(7), "Прочие действия");
    assert_eq!(clamp_capex(0), 1);
    assert_eq!(clamp_capex(2), 2);
    assert_eq!(clamp_capex(9), 3);
}

#[test]
fn mime_types_by_extension() {
    assert_eq!(mime_of("docs/a.pdf"), "application/pdf");
    assert_eq!(mime_of("t.csv"), "text/csv");
    assert_eq!(mime_of("r.docx"), "application/vnd.openxmlformats-officedocument.wordprocessingml.document");
    assert_eq!(mime_of("notes.md"), "text/plain");
}

#[test]
fn sidecar_urls_drop_trailing_slashes() {
    assert_eq!(endpoint_url("http://127.0.0.1:8765//", "/extract"), "http://127.0.0.1:8765/extract");
    assert_eq!(endpoint_url("http://h", "/diagnose"), "http://h/diagnose");
    let src = HttpDiagnosticsSource::new("http://h/".to_string(), FileDiagnosticsSource::new("docs"));
    assert_eq!(src.diagnose_url(), "http://h/diagnose");
    let ex = HttpExtractSource::new("http://h".to_string(), FileExtractSource::new("docs"));
    assert_eq!(ex.extract_url(), "http://h/extract");
}

#[test]
fn file_adapters_look_under_the_data_root() {
    assert_eq!(join_path("", "packs"), "packs");
    assert_eq!(join_path("docs/", "packs"), "docs/packs");
    assert_eq!(FileBoardGateway::new("docs").path, "docs/fixtures/board.json");
    assert_eq!(FileExtractSource::new("docs").path, "docs/fixtures/extract_response.json");
    assert_eq!(FileExpertHypothesesGateway::new("../docs").path, "../docs/golden/expert_hypotheses.json");
    assert_eq!(FileDiagnosticsSource::new("docs").path_for("kgmk"), "docs/fixtures/diagnostics_kgmk.json");
    assert_eq!(FileFactoryRepository::new("docs").path_for("tof"), "docs/factories/tof.yaml");
    assert_eq!(FilePackRepository::new("docs").path_for("flotation-v1"), "docs/packs/flotation-v1.yaml");
    let missing = FileFactoryRepository::new("docs").missing("nof_med");
    assert_eq!(missing.factory_id, "nof_med");
    assert!(missing.equipment.is_empty());
    assert_eq!(
        FileDiagnosticsSource::new("docs").refuse_source_file(&Some("x.xlsx".to_string())).unwrap(),
        "source_file diagnostics require a live sidecar (set SIDECAR_URL)"
    );
    assert_eq!(or_fallback(Err::<u8, String>("down".into()), 7), 7);
    assert_eq!(or_fallback(Ok::<u8, String>(3), 7), 3);
}

fn kgmk_contract() -> KpiContract<f64> {
    KpiContract {
        factory_id: "kgmk".into(),
        target: Target { metric: "recoverable_losses_element_28".into(), direction: "decrease".into(), minimum_delta_percent: Some(10.0) },
        constraints: vec![Constraint { metric: "capex_class".into(), op: Op::LessEqual, value: 3.0, unit: Some("class".into()) }],
        prices_usd_per_t: vec![("element_28".into(), 16500.0), ("element_29".into(), 9500.0)],
        weights_override: vec![],
        excluded_factors: vec![],
    }
}

fn action(kind: RerunKind) -> RerunAction<f64> {
    RerunAction {
        kind,
        payload: RerunPayload { factor_id: None, metric: None, op: None, dimension: None, value: None, element: None, usd_per_t: None },
    }
}

#[test]
fn rerun_exclude_factor_once() {
    let mut c = kgmk_contract();
    let mut a = action(RerunKind::ExcludeFactor);
    a.payload.factor_id = Some("node_hydrocyclone_nozzle".into());
    apply(&mut c, &a);
    apply(&mut c, &a);
    assert_eq!(c.excluded_factors, vec!["node_hydrocyclone_nozzle".to_string()]);
    // a payload without the factor changes nothing
    apply(&mut c, &action(RerunKind::ExcludeFactor));
    assert_eq!(c.excluded_factors.len(), 1);
}

#[test]
fn rerun_change_price_sets_and_inserts_in_key_order() {
    let mut c = kgmk_contract();
    let mut a = action(RerunKind::ChangePrice);
    a.payload.element = Some("element_28".into());
    a.payload.usd_per_t = Some(33000.0);
    apply(&mut c, &a);
    assert_eq!(c.prices_usd_per_t, vec![("element_28".to_string(), 33000.0), ("element_29".to_string(), 9500.0)]);
    a.payload.element = Some("element_10".into());
    a.payload.usd_per_t = Some(1.0);
    apply(&mut c, &a);
    let keys: Vec<&str> = c.prices_usd_per_t.iter().map(|(k, _)| k.as_str()).collect();
    assert_eq!(keys, vec!["element_10", "element_28", "element_29"]);
}

#[test]
fn rerun_change_weight_and_constraints() {
    let mut c = kgmk_contract();
    let mut w = action(RerunKind::ChangeWeight);
    w.payload.dimension = Some("risk".into());
    w.payload.value = Some(0.5);
    apply(&mut c, &w);
    w.payload.dimension = Some("cost".into());
    apply(&mut c, &w);
    assert_eq!(c.weights_override, vec![("cost".to_string(), 0.5), ("risk".to_string(), 0.5)]);

    let mut relax = action(RerunKind::RelaxConstraint);
    relax.payload.metric = Some("capex_class".into());
    relax.payload.value = Some(2.0);
    apply(&mut c, &relax);
    assert_eq!(c.constraints.len(), 1);
    assert_eq!(c.constraints[0].value, 2.0);
    assert_eq!(c.constraints[0].op, Op::LessEqual);
    assert_eq!(c.constraints[0].unit.as_deref(), Some("class"));

    let mut add = action(RerunKind::AddConstraint);
    add.payload.metric = Some("energy".into());
    add.payload.value = Some(5.0);
    add.payload.op = Some(Op::GreaterEqual);
    apply(&mut c, &add);
    assert_eq!(c.constraints.len(), 2);
    assert_eq!(c.constraints[1].metric, "energy");
    assert_eq!(c.constraints[1].op, Op::GreaterEqual);
    assert_eq!(c.constraints[1].unit, None);
    assert_eq!(c.factory_id, "kgmk");
}

#[test]
fn run_store_ids_reads_and_errors() {
    let mut runs: MemoryRunRepository<u32> = MemoryRunRepository::new();
    assert!(matches!(pick_run(&runs, &None), Err(UseCaseError::NotFound(ref m)) if m == "no run yet; call POST /run first"));
    assert!(matches!(board_run(&runs, &None), Ok(None)));
    assert!(matches!(board_run(&runs, &Some("run_0001".to_string())), Ok(None)));
    let a = runs.next_run_id();
    let b = runs.next_run_id();
    assert_eq!(a, "run_0001");
    assert_eq!(b, "run_0002");
    runs.store(a.clone(), 10);
    runs.store(b.clone(), 20);
    assert_eq!(runs.get("run_0001"), Some(&10));
    assert_eq!(runs.last(), Some(&20));
    runs.store(a.clone(), 11);
    assert_eq!(runs.get("run_0001"), Some(&11));
    assert_eq!(runs.last(), Some(&11));
    assert_eq!(pick_run(&runs, &Some("run_0002".to_string())).ok(), Some(&20));
    assert!(matches!(pick_run(&runs, &Some("run_9".to_string())), Err(UseCaseError::NotFound(ref m)) if m == "run 'run_9' not found"));
    assert!(matches!(board_run(&runs, &Some("run_9".to_string())), Err(UseCaseError::NotFound(ref m)) if m == "run 'run_9' not found"));
    assert!(matches!(board_run(&runs, &None), Ok(Some(&11))));
    assert!(matches!(board_run(&runs, &Some("run_0002".to_string())), Ok(Some(&20))));
}

#[test]
fn errors_map_to_http_answers() {
    let nf = UseCaseError::NotFound("no run yet; call POST /run first".into());
    assert_eq!(http_status(&nf), 404);
    let body = error_body(nf);
    assert_eq!(body.error.code, "NOT_FOUND");
    assert_eq!(body.error.message, "no run yet; call POST /run first");
    assert!(body.error.details.is_empty());
    let internal = UseCaseError::Internal("disk".into());
    assert_eq!(http_status(&internal), 500);
    assert_eq!(error_body(internal).error.code, "INTERNAL_ERROR");
    let v = UseCaseError::Validation(engine::contracts::ApiError::new("VALIDATION_ERROR", "bad".into(), vec![]));
    assert_eq!(http_status(&v), 422);
    assert_eq!(error_body(v).error.message, "bad");
}

#[test]
fn hypothesis_lookup() {
    let ids = vec!["hyp_001".to_string(), "hyp_002".to_string()];
    assert_eq!(find_hypothesis(&ids, "hyp_002").ok(), Some(1));
    assert!(matches!(find_hypothesis(&ids, "hyp_404"), Err(UseCaseError::NotFound(ref m)) if m == "hypothesis 'hyp_404' not found"));
}
