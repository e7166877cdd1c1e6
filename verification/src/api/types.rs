//! Wire types of the HTTP and MCP surfaces. Scores, which are floating
//! point, are not part of these types: the surfaces attach them.

use vstd::prelude::*;

verus! {

#[derive(Debug, Clone, Default, PartialEq, Eq)]
pub struct FilesystemQueryJson {
    pub prefix: Option<String>,
    pub glob: Option<String>,
    pub max_depth: Option<usize>,
    pub limit: Option<usize>,
    pub vaults: Option<Vec<String>>,
}

#[derive(Debug, Clone, PartialEq, Eq)]
pub struct FilesystemSearchResponse {
    pub results: Vec<FilesystemResultJson>,
    pub truncated: bool,
    pub partial_results: Option<PartialResults>,
}

#[derive(Debug, Clone, PartialEq, Eq)]
pub struct FilesystemResultJson {
    pub path: String,
    pub size: i64,
    pub mtime: String,
    pub content_hash: String,
    pub vault: Option<String>,
    pub vault_name: Option<String>,
}

#[derive(Debug, Clone, PartialEq, Eq)]
pub struct ContentQueryJson {
    pub query: String,
    pub mode: Option<String>,
    pub regex: bool,
    pub case_sensitive: bool,
    pub prefix: Option<String>,
    pub include_matches: bool,
    pub max_matches_per_file: Option<usize>,
    pub limit: Option<usize>,
    pub vaults: Option<Vec<String>>,
}

#[derive(Debug, Clone, PartialEq, Eq)]
pub struct ContentMatchJson {
    pub line: usize,
    pub text: String,
}

#[derive(Debug, Clone, PartialEq, Eq)]
pub struct ContentGetRequest {
    pub paths: Vec<String>,
    pub vaults: Option<Vec<String>>,
}

#[derive(Debug, Clone, PartialEq, Eq)]
pub enum ContentGetResultItem {
    Success(ContentGetSuccess),
    Error(ContentGetError),
}

#[derive(Debug, Clone, PartialEq, Eq)]
pub struct ContentGetSuccess {
    pub path: String,
    pub content: String,
    pub content_hash: String,
    pub size: i64,
    pub mtime: String,
    pub vault: String,
    pub vault_name: String,
}

#[derive(Debug, Clone, PartialEq, Eq)]
pub struct ContentGetError {
    pub path: String,
    pub vault: String,
    pub vault_name: String,
    pub error: ContentGetErrorDetail,
}

#[derive(Debug, Clone, PartialEq, Eq)]
pub struct ContentGetErrorDetail {
    pub code: String,
    pub message: String,
}

#[derive(Debug, Clone, PartialEq, Eq)]
pub struct ContentGetResponse {
    pub results: Vec<ContentGetResultItem>,
    pub partial_results: Option<PartialResults>,
}

/// Per-vault diagnostics of a cross-vault request.
#[derive(Debug, Clone, PartialEq, Eq)]
pub struct PartialResults {
    pub skipped: Vec<SkippedVault>,
    pub failed: Vec<FailedVault>,
}

#[derive(Debug, Clone, PartialEq, Eq)]
pub struct SkippedVault {
    pub vault: String,
    pub vault_name: String,
    pub status: String,
    pub reason: String,
}

#[derive(Debug, Clone, PartialEq, Eq)]
pub struct FailedVault {
    pub vault: String,
    pub vault_name: String,
    pub code: String,
    pub message: String,
}

#[derive(Debug, Clone, PartialEq, Eq)]
pub struct StatusResponse {
    pub vault: String,
    pub indexed_file_count: u64,
    pub last_indexed_at: Option<String>,
    pub vaults: Vec<VaultStatusEntry>,
}

/// A vault's initial-scan state as `/status` reports it.
#[derive(Debug, Clone, PartialEq, Eq)]
pub struct BootstrapBlock {
    pub state: String,
    pub started_at: Option<String>,
    pub files_seen: u64,
    pub files_indexed: u64,
    pub message: Option<String>,
}

/// One active vault in the `/status` answer.
#[derive(Debug, Clone, PartialEq, Eq)]
pub struct VaultStatusEntry {
    pub id: String,
    pub name: String,
    pub path: String,
    pub indexed_file_count: u64,
    pub last_indexed_at: Option<String>,
    pub bootstrap: BootstrapBlock,
}

#[derive(Debug, Clone, PartialEq, Eq)]
pub struct HealthResponse {
    pub status: String,
    pub vaults_active: u64,
    pub vaults_errored: u64,
    pub uptime_seconds: u64,
    pub embedding: Option<EmbeddingHealth>,
}

#[derive(Debug, Clone, PartialEq, Eq)]
pub struct EmbeddingHealth {
    pub status: String,
    pub endpoint: String,
}

#[derive(Debug, Clone, PartialEq, Eq)]
pub struct CreateVaultRequest {
    pub name: Option<String>,
    pub path: String,
}

#[derive(Debug, Clone, PartialEq, Eq)]
pub struct VaultRowJson {
    pub id: String,
    pub name: String,
    pub path: String,
    pub status: String,
    pub created_at: String,
    pub last_error: Option<String>,
}

#[derive(Debug, Clone, PartialEq, Eq)]
pub struct VaultListResponse {
    pub vaults: Vec<VaultRowJson>,
}

#[derive(Debug, Clone, PartialEq, Eq)]
pub struct TerminateVaultResponse {
    pub terminated: bool,
    pub id: String,
}

#[derive(Debug, Clone, Default, PartialEq, Eq)]
pub struct ResetRequest {
    pub rebuild: bool,
}

#[derive(Debug, Clone, PartialEq, Eq)]
pub struct RenameRequest {
    pub new_name: String,
}

#[derive(Debug, Clone, PartialEq, Eq)]
pub struct RescanResponseJson {
    pub row: VaultRowJson,
    pub rescan_initiated_at: String,
}

#[derive(Debug, Clone, PartialEq, Eq)]
pub struct VaultStatusInput {
    pub target: Option<String>,
}

#[derive(Debug, Clone, PartialEq, Eq)]
pub struct VaultCreateInput {
    pub name: Option<String>,
    pub path: String,
}

#[derive(Debug, Clone, PartialEq, Eq)]
pub struct VaultTerminateInput {
    pub target: String,
}

#[derive(Debug, Clone, PartialEq, Eq)]
pub struct VaultPauseInput {
    pub target: String,
}

#[derive(Debug, Clone, PartialEq, Eq)]
pub struct VaultResumeInput {
    pub target: String,
}

#[derive(Debug, Clone, PartialEq, Eq)]
pub struct VaultResetInput {
    pub target: String,
    pub rebuild: bool,
}

#[derive(Debug, Clone, PartialEq, Eq)]
pub struct VaultRenameInput {
    pub target: String,
    pub new_name: String,
}

#[derive(Debug, Clone, PartialEq, Eq)]
pub struct VaultRescanInput {
    pub target: String,
}

/// The body of every error answer: `{"error": {"code", "message"}}`.
#[derive(Debug, Clone, PartialEq, Eq)]
pub struct ErrorEnvelope {
    pub error: ErrorBody,
}

#[derive(Debug, Clone, PartialEq, Eq)]
pub struct ErrorBody {
    pub code: String,
    pub message: String,
}

} // verus!
