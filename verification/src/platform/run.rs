//! The decisions of a run before the engine: which pack, which diagnostics
//! (with the literature-only fallback), the warning for a factory without an
//! equipment list, and the factory of the contract.

use vstd::prelude::*;

use crate::contracts::{ExtractResponse, KpiContract};
use crate::platform::annotate::FactoryConfig;
use crate::platform::diagnostics::{DataQualityIssue, DiagnosticsReport};
use crate::platform::runs::UseCaseError;

verus! {

/// The version of the API contract, sent with every answer.
pub const CONTRACT_VERSION: &'static str = "1";

/// The factories of the case, in the order the money map lists them.
pub const FACTORY_IDS: [&'static str; 4] = ["kgmk", "nof_vkr", "nof_med", "tof"];

/// The pack of a run: the one asked for, else the extraction's.
pub fn run_pack_id(requested: &Option<String>, x: &ExtractResponse) -> (r: String)
    ensures
        r@ == match requested {
            Some(p) => p@,
            None => x.pack_id@,
        },
{
    match requested {
        Some(p) => p.clone(),
        None => x.pack_id.clone(),
    }
}

/// The handling note of literature-only diagnostics.
pub open spec fn literature_only_note(reason: Seq<char>) -> Seq<char> {
    "no quantitative diagnostics — hypotheses from literature graph only ("@ + reason + ")"@
}

/// A literature-only report for a factory and pack: no source file, no
/// sections, loss cells or diagnosis summary, and one parse warning on the
/// diagnostics whose handling says why.
pub open spec fn is_claims_only_report<V>(d: DiagnosticsReport<V>, factory_id: Seq<char>, pack_id: Seq<char>, reason: Seq<char>) -> bool {
    &&& d.factory_id@ == factory_id
    &&& d.pack_id@ == pack_id
    &&& d.source_file@.len() == 0
    &&& d.sections@.len() == 0
    &&& d.loss_cells@.len() == 0
    &&& d.diagnosis_summary@.len() == 0
    &&& d.data_quality@.len() == 1
    &&& d.data_quality@[0].issue@ == "parse_warning"@
    &&& d.data_quality@[0].location@ == "diagnostics"@
    &&& d.data_quality@[0].handling@ == literature_only_note(reason)
    &&& d.data_quality@[0].delta_pct is None
}

/// Diagnostics with no quantitative data: one parse warning that says the
/// hypotheses come from the literature graph only, and why.
pub fn claims_only_diagnostics<V>(factory_id: &str, pack_id: &str, reason: String) -> (r: DiagnosticsReport<V>)
    ensures
        is_claims_only_report(r, factory_id@, pack_id@, reason@),
{
    proof {
        reveal_strlit("no quantitative diagnostics — hypotheses from literature graph only (");
        reveal_strlit(")");
    }
    let handling = crate::strings::concat3(
        "no quantitative diagnostics — hypotheses from literature graph only (",
        reason.as_str(),
        ")",
    );
    let issue = DataQualityIssue {
        issue: crate::strings::owned("parse_warning"),
        location: crate::strings::owned("diagnostics"),
        handling,
        delta_pct: None,
    };
    DiagnosticsReport {
        factory_id: crate::strings::owned(factory_id),
        pack_id: crate::strings::owned(pack_id),
        source_file: String::new(),
        sections: Vec::new(),
        data_quality: vec![issue],
        loss_cells: Vec::new(),
        diagnosis_summary: Vec::new(),
    }
}

/// The diagnostics a run uses, given what the source answered: its report;
/// on a failure without a source file, literature-only diagnostics; on a
/// failure for a named source file, an internal error.
pub fn resolve_diagnostics<V>(
    loaded: Result<DiagnosticsReport<V>, String>,
    factory_id: &str,
    source_file: &Option<String>,
    pack_id: &str,
) -> (r: Result<DiagnosticsReport<V>, UseCaseError>)
    ensures
        match loaded {
            Ok(d) => r == Ok::<DiagnosticsReport<V>, UseCaseError>(d),
            Err(e) => match source_file {
                None => r matches Ok(d) && is_claims_only_report(d, factory_id@, pack_id@, e@),
                Some(_) => r matches Err(UseCaseError::Internal(m)) && m == e,
            },
        },
{
    match loaded {
        Ok(d) => Ok(d),
        Err(e) => match source_file {
            None => Ok(claims_only_diagnostics(factory_id, pack_id, e)),
            Some(_) => Err(UseCaseError::Internal(e)),
        },
    }
}

/// The location of the warning about a missing equipment list.
pub open spec fn factory_file(factory_id: Seq<char>) -> Seq<char> {
    "factories/"@ + factory_id + ".yaml"@
}

/// Adds a parse warning to the diagnostics when the factory lists no
/// equipment (the equipment filter is then off); else changes nothing.
pub fn note_missing_equipment<V>(d: &mut DiagnosticsReport<V>, factory_id: &str, factory: &FactoryConfig)
    ensures
        factory.equipment@.len() == 0 ==> {
            &&& final(d).data_quality@.len() == old(d).data_quality@.len() + 1
            &&& final(d).data_quality@.take(old(d).data_quality@.len() as int) == old(d).data_quality@
            &&& final(d).data_quality@.last().issue@ == "parse_warning"@
            &&& final(d).data_quality@.last().location@ == factory_file(factory_id@)
            &&& final(d).data_quality@.last().handling@ == "equipment list not provided — hard-filter disabled"@
            &&& final(d).data_quality@.last().delta_pct is None
        },
        factory.equipment@.len() != 0 ==> final(d).data_quality == old(d).data_quality,
        final(d).factory_id == old(d).factory_id,
        final(d).pack_id == old(d).pack_id,
        final(d).source_file == old(d).source_file,
        final(d).sections == old(d).sections,
        final(d).loss_cells == old(d).loss_cells,
        final(d).diagnosis_summary == old(d).diagnosis_summary,
{
    if factory.equipment.len() == 0 {
        proof {
            reveal_strlit("factories/");
            reveal_strlit(".yaml");
        }
        let issue = DataQualityIssue {
            issue: crate::strings::owned("parse_warning"),
            location: crate::strings::concat3("factories/", factory_id, ".yaml"),
            handling: crate::strings::owned("equipment list not provided — hard-filter disabled"),
            delta_pct: None,
        };
        let ghost before = d.data_quality@;
        d.data_quality.push(issue);
        assert(d.data_quality@.take(before.len() as int) =~= before);
    }
}

/// A contract without a factory takes the run's factory.
pub fn fill_factory_id<V>(c: &mut KpiContract<V>, factory_id: &str)
    ensures
        old(c).factory_id@.len() == 0 ==> final(c).factory_id@ == factory_id@,
        old(c).factory_id@.len() != 0 ==> final(c).factory_id == old(c).factory_id,
        final(c).target == old(c).target,
        final(c).constraints == old(c).constraints,
        final(c).prices_usd_per_t == old(c).prices_usd_per_t,
        final(c).weights_override == old(c).weights_override,
        final(c).excluded_factors == old(c).excluded_factors,
{
    if c.factory_id.unicode_len() == 0 {
        c.factory_id = crate::strings::owned(factory_id);
    }
}

} // verus!
