//! The adapters' own rules, apart from their I/O: where each file adapter
//! looks, what a missing factory file means, and how the sidecar adapters
//! shape their requests (URL, body, MIME type) and fall back to the files.

use vstd::prelude::*;

use crate::contracts::{Document, ExtractResponse};
use crate::platform::annotate::FactoryConfig;
use crate::platform::diagnostics::DiagnosticsReport;
use crate::strings::{decimal, seq_ends_with};

verus! {

/// `Path::join` with a relative part: the part alone after an empty base,
/// else the base and the part with one separator between them.
pub open spec fn path_join(base: Seq<char>, part: Seq<char>) -> Seq<char> {
    if base.len() == 0 {
        part
    } else if seq_ends_with(base, "/"@) {
        base + part
    } else {
        base + "/"@ + part
    }
}

/// Joins a relative path part to a base directory.
pub fn join_path(base: &str, part: &str) -> (r: String)
    ensures
        r@ == path_join(base@, part@),
{
    proof {
        reveal_strlit("/");
    }
    if base.unicode_len() == 0 {
        crate::strings::owned(part)
    } else if crate::strings::str_ends_with(base, "/") {
        crate::strings::concat2(base, part)
    } else {
        crate::strings::concat3(base, "/", part)
    }
}

/// The board shown before the first run, read from `fixtures/board.json`.
#[derive(Debug)]
pub struct FileBoardGateway {
    pub path: String,
}

impl FileBoardGateway {
    /// The gateway under a data root.
    pub fn new(base_dir: &str) -> (r: Self)
        ensures
            r.path@ == path_join(path_join(base_dir@, "fixtures"@), "board.json"@),
    {
        let d = join_path(base_dir, "fixtures");
        FileBoardGateway { path: join_path(d.as_str(), "board.json") }
    }
}

/// The extraction read from `fixtures/extract_response.json`.
#[derive(Debug)]
pub struct FileExtractSource {
    pub path: String,
}

impl FileExtractSource {
    /// The source under a data root.
    pub fn new(base_dir: &str) -> (r: Self)
        ensures
            r.path@ == path_join(path_join(base_dir@, "fixtures"@), "extract_response.json"@),
    {
        let d = join_path(base_dir, "fixtures");
        FileExtractSource { path: join_path(d.as_str(), "extract_response.json") }
    }
}

/// The experts' reference hypotheses read from `golden/expert_hypotheses.json`.
#[derive(Debug)]
pub struct FileExpertHypothesesGateway {
    pub path: String,
}

impl FileExpertHypothesesGateway {
    /// The gateway under a data root.
    pub fn new(base_dir: &str) -> (r: Self)
        ensures
            r.path@ == path_join(path_join(base_dir@, "golden"@), "expert_hypotheses.json"@),
    {
        let d = join_path(base_dir, "golden");
        FileExpertHypothesesGateway { path: join_path(d.as_str(), "expert_hypotheses.json") }
    }
}

/// Diagnostics read from `fixtures/diagnostics_<factory_id>.json`.
#[derive(Debug)]
pub struct FileDiagnosticsSource {
    pub fixtures_dir: String,
}

/// The message when diagnostics of a named workbook are asked of the files.
pub open spec fn needs_sidecar_message() -> Seq<char> {
    "source_file diagnostics require a live sidecar (set SIDECAR_URL)"@
}

impl FileDiagnosticsSource {
    /// The source under a data root.
    pub fn new(base_dir: &str) -> (r: Self)
        ensures
            r.fixtures_dir@ == path_join(base_dir@, "fixtures"@),
    {
        FileDiagnosticsSource { fixtures_dir: join_path(base_dir, "fixtures") }
    }

    /// The file holding a factory's diagnostics.
    pub fn path_for(&self, factory_id: &str) -> (r: String)
        ensures
            r@ == path_join(self.fixtures_dir@, "diagnostics_"@ + factory_id@ + ".json"@),
    {
        let name = crate::strings::concat3("diagnostics_", factory_id, ".json");
        proof {
            reveal_strlit("diagnostics_");
            reveal_strlit(".json");
        }
        join_path(self.fixtures_dir.as_str(), name.as_str())
    }

    /// The files hold no diagnostics of a named workbook: with one, the
    /// error to answer; without, `None`.
    pub fn refuse_source_file(&self, source_file: &Option<String>) -> (r: Option<String>)
        ensures
            source_file is Some ==> (r matches Some(m) && m@ == needs_sidecar_message()),
            source_file is None ==> r is None,
    {
        match source_file {
            Some(_) => Some(crate::strings::owned("source_file diagnostics require a live sidecar (set SIDECAR_URL)")),
            None => None,
        }
    }
}

/// Factory configurations read from `factories/<factory_id>.yaml`.
#[derive(Debug)]
pub struct FileFactoryRepository {
    pub factories_dir: String,
}

impl FileFactoryRepository {
    /// The repository under a data root.
    pub fn new(base_dir: &str) -> (r: Self)
        ensures
            r.factories_dir@ == path_join(base_dir@, "factories"@),
    {
        FileFactoryRepository { factories_dir: join_path(base_dir, "factories") }
    }

    /// The file holding a factory's configuration.
    pub fn path_for(&self, factory_id: &str) -> (r: String)
        ensures
            r@ == path_join(self.factories_dir@, factory_id@ + ".yaml"@),
    {
        let name = crate::strings::concat2(factory_id, ".yaml");
        join_path(self.factories_dir.as_str(), name.as_str())
    }

    /// The configuration of a factory without a file: no tails sections and
    /// no equipment list (so the equipment filter is off).
    pub fn missing(&self, factory_id: &str) -> (r: FactoryConfig)
        ensures
            r.factory_id@ == factory_id@,
            r.tails_sections@.len() == 0,
            r.equipment@.len() == 0,
    {
        FactoryConfig { factory_id: crate::strings::owned(factory_id), tails_sections: Vec::new(), equipment: Vec::new() }
    }
}

/// Domain packs read from `packs/<pack_id>.yaml`.
#[derive(Debug)]
pub struct FilePackRepository {
    pub packs_dir: String,
}

impl FilePackRepository {
    /// The repository under a data root.
    pub fn new(base_dir: &str) -> (r: Self)
        ensures
            r.packs_dir@ == path_join(base_dir@, "packs"@),
    {
        FilePackRepository { packs_dir: join_path(base_dir, "packs") }
    }

    /// The file holding a pack.
    pub fn path_for(&self, pack_id: &str) -> (r: String)
        ensures
            r@ == path_join(self.packs_dir@, pack_id@ + ".yaml"@),
    {
        let name = crate::strings::concat2(pack_id, ".yaml");
        join_path(self.packs_dir.as_str(), name.as_str())
    }
}

/// The MIME type the sidecar is told for a document path.
pub open spec fn spec_mime_of(path: Seq<char>) -> Seq<char> {
    if seq_ends_with(path, ".pdf"@) {
        "application/pdf"@
    } else if seq_ends_with(path, ".csv"@) {
        "text/csv"@
    } else if seq_ends_with(path, ".docx"@) {
        "application/vnd.openxmlformats-officedocument.wordprocessingml.document"@
    } else {
        "text/plain"@
    }
}

/// The MIME type of a document by its extension: PDF, CSV, DOCX, else plain text.
pub fn mime_of(path: &str) -> (r: &'static str)
    ensures
        r@ == spec_mime_of(path@),
{
    if crate::strings::str_ends_with(path, ".pdf") {
        "application/pdf"
    } else if crate::strings::str_ends_with(path, ".csv") {
        "text/csv"
    } else if crate::strings::str_ends_with(path, ".docx") {
        "application/vnd.openxmlformats-officedocument.wordprocessingml.document"
    } else {
        "text/plain"
    }
}

/// `s` without its trailing slashes.
pub open spec fn trim_slashes(s: Seq<char>) -> Seq<char>
    decreases s.len(),
{
    if s.len() > 0 && s.last() == '/' {
        trim_slashes(s.drop_last())
    } else {
        s
    }
}

/// The URL of a sidecar endpoint: the sidecar URL without trailing slashes,
/// then the endpoint path.
pub fn endpoint_url(sidecar_url: &str, endpoint: &str) -> (r: String)
    ensures
        r@ == trim_slashes(sidecar_url@) + endpoint@,
{
    let n = sidecar_url.unicode_len();
    let mut k: usize = n;
    assert(sidecar_url@.take(n as int) =~= sidecar_url@);
    while k > 0 && sidecar_url.get_char(k - 1) == '/'
        invariant
            n == sidecar_url@.len(),
            k <= n,
            trim_slashes(sidecar_url@) == trim_slashes(sidecar_url@.take(k as int)),
        decreases k,
    {
        assert(sidecar_url@.take(k - 1) =~= sidecar_url@.take(k as int).drop_last());
        k = k - 1;
    }
    assert(trim_slashes(sidecar_url@.take(k as int)) == sidecar_url@.take(k as int));
    let base = sidecar_url.substring_char(0, k);
    assert(base@ =~= sidecar_url@.take(k as int));
    crate::strings::concat2(base, endpoint)
}

/// The body of a `/diagnose` request.
#[derive(Debug)]
pub struct DiagnoseRequest {
    pub factory_id: String,
    pub file_path: String,
    pub pack_id: String,
}

/// Diagnostics from the sidecar's `/diagnose`, with the files as fallback.
#[derive(Debug)]
pub struct HttpDiagnosticsSource {
    pub sidecar_url: String,
    pub fallback: FileDiagnosticsSource,
}

impl HttpDiagnosticsSource {
    /// The source for a sidecar URL and a file fallback.
    pub fn new(sidecar_url: String, fallback: FileDiagnosticsSource) -> (r: Self)
        ensures
            r.sidecar_url == sidecar_url,
            r.fallback == fallback,
    {
        HttpDiagnosticsSource { sidecar_url, fallback }
    }

    /// The URL of the `/diagnose` endpoint.
    pub fn diagnose_url(&self) -> (r: String)
        ensures
            r@ == trim_slashes(self.sidecar_url@) + "/diagnose"@,
    {
        endpoint_url(self.sidecar_url.as_str(), "/diagnose")
    }

    /// The request for a named workbook.
    pub fn named_file_request(&self, factory_id: &str, file_path: &str, pack_id: &str) -> (r: DiagnoseRequest)
        ensures
            r.factory_id@ == factory_id@,
            r.file_path@ == file_path@,
            r.pack_id@ == pack_id@,
    {
        DiagnoseRequest {
            factory_id: crate::strings::owned(factory_id),
            file_path: crate::strings::owned(file_path),
            pack_id: crate::strings::owned(pack_id),
        }
    }

    /// The request for a known factory: the workbook its file diagnostics
    /// name, and their pack unless they have none.
    pub fn fixture_request<V>(&self, factory_id: &str, file: &DiagnosticsReport<V>, pack_id: &str) -> (r: DiagnoseRequest)
        ensures
            r.factory_id@ == factory_id@,
            r.file_path@ == file.source_file@,
            r.pack_id@ == if file.pack_id@.len() == 0 {
                pack_id@
            } else {
                file.pack_id@
            },
    {
        let p = if file.pack_id.unicode_len() == 0 {
            crate::strings::owned(pack_id)
        } else {
            file.pack_id.clone()
        };
        DiagnoseRequest { factory_id: crate::strings::owned(factory_id), file_path: file.source_file.clone(), pack_id: p }
    }
}

/// A document of an `/extract` request: its path and MIME type.
#[derive(Debug)]
pub struct ExtractDoc {
    pub path: String,
    pub mime: String,
}

/// The body of an `/extract` request.
#[derive(Debug)]
pub struct ExtractRequest {
    pub docs: Vec<ExtractDoc>,
    pub pack_id: String,
}

/// The extraction from the sidecar's `/extract`, with the file as fallback.
#[derive(Debug)]
pub struct HttpExtractSource {
    pub sidecar_url: String,
    pub fallback: FileExtractSource,
}

impl HttpExtractSource {
    /// The source for a sidecar URL and a file fallback.
    pub fn new(sidecar_url: String, fallback: FileExtractSource) -> (r: Self)
        ensures
            r.sidecar_url == sidecar_url,
            r.fallback == fallback,
    {
        HttpExtractSource { sidecar_url, fallback }
    }

    /// The URL of the `/extract` endpoint.
    pub fn extract_url(&self) -> (r: String)
        ensures
            r@ == trim_slashes(self.sidecar_url@) + "/extract"@,
    {
        endpoint_url(self.sidecar_url.as_str(), "/extract")
    }

    /// The request that re-extracts the documents of the file extraction,
    /// each with the MIME type of its path, under the same pack.
    pub fn extract_request(&self, file: &ExtractResponse) -> (r: ExtractRequest)
        ensures
            r.pack_id@ == file.pack_id@,
            r.docs@.len() == file.documents@.len(),
            forall|i: int| 0 <= i < r.docs@.len() ==> (#[trigger] r.docs@[i]).path@ == file.documents@[i].path@
                && r.docs@[i].mime@ == spec_mime_of(file.documents@[i].path@),
    {
        let mut docs: Vec<ExtractDoc> = Vec::new();
        let mut i: usize = 0;
        while i < file.documents.len()
            invariant
                i <= file.documents.len(),
                docs@.len() == i,
                forall|j: int| 0 <= j < i ==> (#[trigger] docs@[j]).path@ == file.documents@[j].path@
                    && docs@[j].mime@ == spec_mime_of(file.documents@[j].path@),
            decreases file.documents.len() - i,
        {
            let d: &Document = &file.documents[i];
            let m = mime_of(d.path.as_str());
            docs.push(ExtractDoc { path: d.path.clone(), mime: crate::strings::owned(m) });
            i = i + 1;
        }
        ExtractRequest { docs, pack_id: file.pack_id.clone() }
    }
}

/// What a sidecar adapter answers: the sidecar's result when it came, else
/// the file's.
pub fn or_fallback<T>(sidecar: Result<T, String>, file: T) -> (r: T)
    ensures
        r == match sidecar {
            Ok(x) => x,
            Err(_) => file,
        },
{
    match sidecar {
        Ok(x) => x,
        Err(_) => file,
    }
}

} // verus!
