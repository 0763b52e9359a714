//! The requests and the answers of the API, and how the answers follow from the state.

use vstd::prelude::*;
use vstd::string::StringExecFns;

use crate::list::Location;
use crate::server::actions::{
    entry_models, status_error, status_name, ActionEntry, EntryModel,
};
use crate::server::state::{
    name_fault, reject_reserved_backup_name, reserved_name, validate_backup_name, AppState,
    OpModel, StateModel, WatchStatus,
};
use crate::text::{
    decimal, decimal_text, decode_text, join, join_texts, opt_text, same, trim, trim_text,
};
use crate::time::{
    parse_rfc3339_local, rfc3339_local, rfc3339_text, strftime, strftime_text, Duration,
    Timestamp, NANOS_PER_SEC,
};

verus! {

// ---------------------------------------------------------------------------
// Requests and answers
// ---------------------------------------------------------------------------

/// Answer to the question for the versions.
#[derive(Debug)]
pub struct VersionResponse {
    pub version: String,
    pub clickhouse_version: String,
}

/// Answer to the question for the operation that runs.
#[derive(Debug)]
pub struct StatusResponse {
    pub status: String,
    pub command: Option<String>,
    pub start: Option<String>,
}

/// One action of the log.
#[derive(Debug)]
pub struct ActionResponse {
    pub id: u64,
    pub command: String,
    pub start: String,
    pub finish: String,
    pub status: String,
    pub error: String,
}

/// A command that is posted.
#[derive(Debug)]
pub struct ActionRequest {
    pub command: String,
}

/// What a list of backups is asked for.
#[derive(Debug)]
pub struct ListParams {
    pub location: Option<String>,
    /// Newest first.
    pub desc: Option<bool>,
    pub offset: Option<usize>,
    pub limit: Option<usize>,
    pub format: Option<String>,
}

/// One backup of a list.
#[derive(Debug)]
pub struct ListResponse {
    pub name: String,
    pub created: String,
    pub location: String,
    pub size: u64,
    pub data_size: u64,
    pub object_disk_size: u64,
    pub metadata_size: u64,
    pub rbac_size: u64,
    pub config_size: u64,
    pub compressed_size: u64,
    pub required: String,
    pub is_broken: bool,
    pub broken_reason: Option<String>,
}

/// What a list of tables is asked for.
#[derive(Debug)]
pub struct TablesParams {
    pub table: Option<String>,
    /// With the databases of the server itself.
    pub all: Option<bool>,
    pub backup: Option<String>,
    pub offset: Option<usize>,
    pub limit: Option<usize>,
}

/// One table of a list.
#[derive(Debug)]
pub struct TablesResponseEntry {
    pub database: String,
    pub name: String,
    pub engine: String,
    pub uuid: String,
    pub data_paths: Vec<String>,
    pub total_bytes: Option<u64>,
}

/// An error.
#[derive(Debug)]
pub struct ErrorResponse {
    pub error: String,
}

/// Answer to a request that started an operation.
#[derive(Debug)]
pub struct OperationStarted {
    pub id: u64,
    pub status: String,
}

/// Answer to the question whether the server is up.
#[derive(Debug)]
pub struct HealthResponse {
    pub status: String,
}

/// A request to make a local backup.
#[derive(Debug)]
pub struct CreateRequest {
    pub tables: Option<String>,
    pub diff_from: Option<String>,
    pub schema: Option<bool>,
    pub partitions: Option<String>,
    pub backup_name: Option<String>,
    pub skip_check_parts_columns: Option<bool>,
    pub rbac: Option<bool>,
    pub configs: Option<bool>,
    pub named_collections: Option<bool>,
    pub skip_projections: Option<Vec<String>>,
}

impl Default for CreateRequest {
    fn default() -> (r: Self)
        ensures
            r.tables is None && r.diff_from is None && r.schema is None && r.partitions is None,
            r.backup_name is None && r.skip_check_parts_columns is None && r.rbac is None,
            r.configs is None && r.named_collections is None && r.skip_projections is None,
    {
        CreateRequest {
            tables: None,
            diff_from: None,
            schema: None,
            partitions: None,
            backup_name: None,
            skip_check_parts_columns: None,
            rbac: None,
            configs: None,
            named_collections: None,
            skip_projections: None,
        }
    }
}

/// A request to upload a backup.
#[derive(Debug)]
pub struct UploadRequest {
    pub delete_local: Option<bool>,
    pub diff_from_remote: Option<String>,
    pub resume: Option<bool>,
}

impl Default for UploadRequest {
    fn default() -> (r: Self)
        ensures
            r.delete_local is None && r.diff_from_remote is None && r.resume is None,
    {
        UploadRequest { delete_local: None, diff_from_remote: None, resume: None }
    }
}

/// A request to download a backup.
#[derive(Debug)]
pub struct DownloadRequest {
    pub hardlink_exists_files: Option<bool>,
    pub resume: Option<bool>,
}

impl Default for DownloadRequest {
    fn default() -> (r: Self)
        ensures
            r.hardlink_exists_files is None && r.resume is None,
    {
        DownloadRequest { hardlink_exists_files: None, resume: None }
    }
}

/// A request to restore a backup.
#[derive(Debug)]
pub struct RestoreRequest {
    pub tables: Option<String>,
    pub schema: Option<bool>,
    pub data_only: Option<bool>,
    pub rename_as: Option<String>,
    pub database_mapping: Option<String>,
    pub rm: Option<bool>,
    pub rbac: Option<bool>,
    pub configs: Option<bool>,
    pub named_collections: Option<bool>,
    pub partitions: Option<String>,
    pub skip_empty_tables: Option<bool>,
    pub resume: Option<bool>,
}

impl Default for RestoreRequest {
    fn default() -> (r: Self)
        ensures
            r.tables is None && r.schema is None && r.data_only is None && r.rename_as is None,
            r.database_mapping is None && r.rm is None && r.rbac is None && r.configs is None,
            r.named_collections is None && r.partitions is None && r.skip_empty_tables is None,
            r.resume is None,
    {
        RestoreRequest {
            tables: None,
            schema: None,
            data_only: None,
            rename_as: None,
            database_mapping: None,
            rm: None,
            rbac: None,
            configs: None,
            named_collections: None,
            partitions: None,
            skip_empty_tables: None,
            resume: None,
        }
    }
}

/// A request to make a backup and upload it.
#[derive(Debug)]
pub struct CreateRemoteRequest {
    pub tables: Option<String>,
    pub diff_from_remote: Option<String>,
    pub backup_name: Option<String>,
    pub delete_source: Option<bool>,
    pub skip_check_parts_columns: Option<bool>,
    pub rbac: Option<bool>,
    pub configs: Option<bool>,
    pub named_collections: Option<bool>,
    pub skip_projections: Option<Vec<String>>,
    pub resume: Option<bool>,
}

impl Default for CreateRemoteRequest {
    fn default() -> (r: Self)
        ensures
            r.tables is None && r.diff_from_remote is None && r.backup_name is None,
            r.delete_source is None && r.skip_check_parts_columns is None && r.rbac is None,
            r.configs is None && r.named_collections is None && r.skip_projections is None,
            r.resume is None,
    {
        CreateRemoteRequest {
            tables: None,
            diff_from_remote: None,
            backup_name: None,
            delete_source: None,
            skip_check_parts_columns: None,
            rbac: None,
            configs: None,
            named_collections: None,
            skip_projections: None,
            resume: None,
        }
    }
}

/// A request to download a backup and restore it.
#[derive(Debug)]
pub struct RestoreRemoteRequest {
    pub tables: Option<String>,
    pub rename_as: Option<String>,
    pub database_mapping: Option<String>,
    pub rm: Option<bool>,
    pub rbac: Option<bool>,
    pub configs: Option<bool>,
    pub named_collections: Option<bool>,
    pub skip_empty_tables: Option<bool>,
    pub resume: Option<bool>,
}

impl Default for RestoreRemoteRequest {
    fn default() -> (r: Self)
        ensures
            r.tables is None && r.rename_as is None && r.database_mapping is None && r.rm is None,
            r.rbac is None && r.configs is None && r.named_collections is None,
            r.skip_empty_tables is None && r.resume is None,
    {
        RestoreRemoteRequest {
            tables: None,
            rename_as: None,
            database_mapping: None,
            rm: None,
            rbac: None,
            configs: None,
            named_collections: None,
            skip_empty_tables: None,
            resume: None,
        }
    }
}

/// Which operation is to be killed; all where none is named.
#[derive(Debug)]
pub struct KillParams {
    pub id: Option<u64>,
}

impl Default for KillParams {
    fn default() -> (r: Self)
        ensures
            r.id is None,
    {
        KillParams { id: None }
    }
}

/// Answer to a request to load the configuration anew.
#[derive(Debug)]
pub struct ReloadResponse {
    pub status: String,
}

/// Answer to a request to connect anew.
#[derive(Debug)]
pub struct RestartResponse {
    pub status: String,
}

/// A request to start the watch loop, with other intervals than the configured ones.
#[derive(Debug)]
pub struct WatchStartRequest {
    pub watch_interval: Option<String>,
    pub full_interval: Option<String>,
}

impl Default for WatchStartRequest {
    fn default() -> (r: Self)
        ensures
            r.watch_interval is None && r.full_interval is None,
    {
        WatchStartRequest { watch_interval: None, full_interval: None }
    }
}

/// Answer to a request to start or stop the watch loop.
#[derive(Debug)]
pub struct WatchActionResponse {
    pub status: String,
}

/// How the watch loop stands.
#[derive(Debug)]
pub struct WatchStatusResponse {
    pub state: String,
    pub active: bool,
    pub last_full: Option<String>,
    pub last_incr: Option<String>,
    pub consecutive_errors: u32,
    pub next_in: Option<String>,
}

/// Answer to a request that started an operation, in the other dialect of the API.
#[derive(Debug)]
pub struct GoOperationResponse {
    pub status: String,
    pub operation: String,
}

/// One backup of a list, in the other dialect of the API.
#[derive(Debug)]
pub struct GoListResponse {
    pub name: String,
    pub created: String,
    pub size: i64,
    pub location: String,
    pub required: String,
    pub desc: String,
    pub data_size: u64,
    pub object_disk_size: u64,
    pub metadata_size: u64,
    pub rbac_size: u64,
    pub config_size: u64,
    pub compressed_size: u64,
}

/// One action of the log, in the other dialect of the API.
#[derive(Debug)]
pub struct GoActionResponse {
    pub command: String,
    pub start: String,
    pub finish: String,
    pub status: String,
    pub error: String,
}

// ---------------------------------------------------------------------------
// Errors
// ---------------------------------------------------------------------------

/// An error answer: the status of HTTP, and the error in words.
pub type Refusal = (u16, ErrorResponse);

/// The refusal has the status and the error.
pub open spec fn refuses(r: Refusal, status: u16, error: Seq<char>) -> bool {
    r.0 == status && r.1.error@ == error
}

/// The error for a name that is none.
pub open spec fn bad_name(fault: Seq<char>) -> Seq<char> {
    "invalid backup name: "@ + fault
}

/// A refusal with the status and the error.
pub fn refusal(status: u16, error: String) -> (r: Refusal)
    ensures
        refuses(r, status, error@),
        r.0 == status,
        r.1.error@ == error@,
{
    (status, ErrorResponse { error })
}

/// The refusal of a name that is none. The name itself is for the log alone.
pub fn validation_error(name: &str, e: &str) -> (r: Refusal)
    ensures
        refuses(r, 400, bad_name(e@)),
        r.0 == 400,
        r.1.error@ == "invalid backup name: "@ + e@,
{
    refusal(400, "invalid backup name: ".to_string().concat(e))
}

/// Why a name cannot be that of a new backup, if it cannot.
pub open spec fn new_name_fault(name: Seq<char>) -> Option<Seq<char>> {
    match name_fault(name) {
        Some(fault) => Some(fault),
        None => if reserved_name(name) {
            Some("backup name must not be a reserved shortcut ('latest' or 'previous')"@)
        } else {
            None
        },
    }
}

/// Refuses a name that is none.
pub fn check_name(name: &str) -> (r: Result<(), Refusal>)
    ensures
        match name_fault(name@) {
            Some(fault) => r matches Err(e) && refuses(e, 400, bad_name(fault)),
            None => r is Ok,
        },
        r is Ok <==> name_fault(name@) is None,
        r matches Err(e) ==> e.0 == 400 && e.1.error@ == "invalid backup name: "@ + name_fault(
            name@,
        )->0,
{
    match validate_backup_name(name) {
        Ok(_) => Ok(()),
        Err(e) => Err(validation_error(name, e)),
    }
}

/// Refuses a name that cannot be that of a new backup.
pub fn check_new_name(name: &str) -> (r: Result<(), Refusal>)
    ensures
        match new_name_fault(name@) {
            Some(fault) => r matches Err(e) && refuses(e, 400, bad_name(fault)),
            None => r is Ok,
        },
        r is Ok <==> name_fault(name@) is None && name@ != "latest"@ && name@ != "previous"@,
        r matches Err(e) ==> e.0 == 400,
{
    match validate_backup_name(name) {
        Ok(_) => match reject_reserved_backup_name(name) {
            Ok(_) => Ok(()),
            Err(e) => Err(validation_error(name, e)),
        },
        Err(e) => Err(validation_error(name, e)),
    }
}

/// The step of loading the configuration that failed.
#[derive(Debug, Clone, Copy, PartialEq, Eq, Structural)]
pub enum ReloadStage {
    Load,
    Validate,
    ClickHouse,
    S3,
    /// Reaching ClickHouse, which only a restart asks for.
    Ping,
}

/// What the error of a step starts with.
pub open spec fn stage_text(stage: ReloadStage) -> Seq<char> {
    match stage {
        ReloadStage::Load => "config load error: "@,
        ReloadStage::Validate => "config validation error: "@,
        ReloadStage::ClickHouse => "ChClient creation error: "@,
        ReloadStage::S3 => "S3Client creation error: "@,
        ReloadStage::Ping => "ClickHouse ping failed: "@,
    }
}

/// The refusal where loading the configuration failed.
pub fn reload_refusal(stage: ReloadStage, e: &str) -> (r: Refusal)
    ensures
        refuses(r, 500, stage_text(stage) + e@),
        r.0 == 500,
        stage is Load ==> r.1.error@ == "config load error: "@ + e@,
        stage is Validate ==> r.1.error@ == "config validation error: "@ + e@,
        stage is ClickHouse ==> r.1.error@ == "ChClient creation error: "@ + e@,
        stage is S3 ==> r.1.error@ == "S3Client creation error: "@ + e@,
        stage is Ping ==> r.1.error@ == "ClickHouse ping failed: "@ + e@,
{
    let text = match stage {
        ReloadStage::Load => "config load error: ",
        ReloadStage::Validate => "config validation error: ",
        ReloadStage::ClickHouse => "ChClient creation error: ",
        ReloadStage::S3 => "S3Client creation error: ",
        ReloadStage::Ping => "ClickHouse ping failed: ",
    };
    refusal(500, text.to_string().concat(e))
}

/// What follows a step of loading the configuration that succeeded: the next step, or none
/// where that was the last one.
pub open spec fn stage_after(stage: ReloadStage, restart: bool) -> Option<ReloadStage> {
    match stage {
        ReloadStage::Load => Some(ReloadStage::Validate),
        ReloadStage::Validate => Some(ReloadStage::ClickHouse),
        ReloadStage::ClickHouse => Some(ReloadStage::S3),
        ReloadStage::S3 => if restart {
            Some(ReloadStage::Ping)
        } else {
            None
        },
        ReloadStage::Ping => None,
    }
}

/// What follows a step of loading the configuration that succeeded.
pub fn next_reload_stage(stage: ReloadStage, restart: bool) -> (r: Option<ReloadStage>)
    ensures
        r == stage_after(stage, restart),
        stage is Load ==> r == Some(ReloadStage::Validate),
        stage is Validate ==> r == Some(ReloadStage::ClickHouse),
        stage is ClickHouse ==> r == Some(ReloadStage::S3),
        stage is S3 && restart ==> r == Some(ReloadStage::Ping),
        stage is S3 && !restart ==> r is None,
        stage is Ping ==> r is None,
{
    match stage {
        ReloadStage::Load => Some(ReloadStage::Validate),
        ReloadStage::Validate => Some(ReloadStage::ClickHouse),
        ReloadStage::ClickHouse => Some(ReloadStage::S3),
        ReloadStage::S3 => if restart {
            Some(ReloadStage::Ping)
        } else {
            None
        },
        ReloadStage::Ping => None,
    }
}

/// All the steps, in order.
pub open spec fn all_stages(restart: bool) -> Seq<ReloadStage> {
    let loading = seq![
        ReloadStage::Load,
        ReloadStage::Validate,
        ReloadStage::ClickHouse,
        ReloadStage::S3,
    ];
    if restart {
        loading.push(ReloadStage::Ping)
    } else {
        loading
    }
}

/// The configuration being loaded anew, step by step.
pub struct Reloading {
    restart: bool,
    next: Option<ReloadStage>,
    failed: Option<Refusal>,
    /// The steps that succeeded.
    passed: Ghost<Seq<ReloadStage>>,
}

/// What a contract says of the configuration being loaded.
#[verifier::ext_equal]
pub struct ReloadingModel {
    pub restart: bool,
    /// The step that is to be taken, if one is left.
    pub next: Option<ReloadStage>,
    /// The step that failed, with its error.
    pub failed: Option<(ReloadStage, Seq<char>)>,
    /// The steps that succeeded, in order.
    pub passed: Seq<ReloadStage>,
}

impl Reloading {
    /// The steps that succeeded are the first ones, the next one follows them, and none is
    /// left after a failure.
    pub closed spec fn well_formed(self) -> bool {
        let all = all_stages(self.restart);
        let n = self.passed@.len() as int;
        &&& n <= all.len()
        &&& self.passed@ == all.take(n)
        &&& match (self.next, self.failed) {
            (Some(stage), None) => n < all.len() && stage == all[n],
            (None, None) => n == all.len(),
            (None, Some(refusal)) => n < all.len() && refusal.0 == 500 && stage_text(
                all[n],
            ).is_prefix_of(refusal.1.error@),
            (Some(_), Some(_)) => false,
        }
    }

    /// What is known of the loading.
    pub closed spec fn model(self) -> ReloadingModel {
        ReloadingModel {
            restart: self.restart,
            next: self.next,
            failed: match self.failed {
                Some(refusal) => {
                    let stage = all_stages(self.restart)[self.passed@.len() as int];
                    Some((stage, refusal.1.error@.skip(stage_text(stage).len() as int)))
                },
                None => None,
            },
            passed: self.passed@,
        }
    }

    /// Starts to load the configuration, with its first step.
    pub fn begin(restart: bool) -> (r: Reloading)
        ensures
            r.well_formed(),
            r.model() == (ReloadingModel {
                restart,
                next: Some(ReloadStage::Load),
                failed: None,
                passed: Seq::empty(),
            }),
    {
        let r = Reloading {
            restart,
            next: Some(ReloadStage::Load),
            failed: None,
            passed: Ghost(Seq::empty()),
        };
        assert(all_stages(restart).take(0) =~= Seq::empty());
        r
    }

    /// The step that is to be taken, if one is left.
    pub fn next(&self) -> (r: Option<ReloadStage>)
        ensures
            r == self.model().next,
    {
        self.next
    }

    /// A step ended. After a failure no other step is taken.
    pub fn stage_ended(&mut self, outcome: Result<(), String>)
        requires
            old(self).well_formed(),
            old(self).model().next is Some,
        ensures
            final(self).well_formed(),
            final(self).model() == match outcome {
                Ok(_) => ReloadingModel {
                    next: stage_after(old(self).model().next->0, old(self).model().restart),
                    passed: old(self).model().passed.push(old(self).model().next->0),
                    ..old(self).model()
                },
                Err(e) => ReloadingModel {
                    next: None,
                    failed: Some((old(self).model().next->0, e@)),
                    ..old(self).model()
                },
            },
    {
        let ghost n = self.passed@.len() as int;
        let ghost all = all_stages(self.restart);
        let ghost was = self.model();
        if let Some(stage) = self.next {
            match outcome {
                Ok(_) => {
                    self.next = next_reload_stage(stage, self.restart);
                    self.passed = Ghost(self.passed@.push(stage));
                    assert(all.take(n + 1) =~= all.take(n).push(all[n]));
                },
                Err(e) => {
                    let ghost text = e@;
                    self.next = None;
                    let refusal = reload_refusal(stage, e.as_str());
                    assert(refusal.1.error@.skip(stage_text(stage).len() as int) =~= text);
                    self.failed = Some(refusal);
                },
            }
        }
    }
}

impl Reloading {
    /// How the loading ended: with the refusal that names the step that failed, if one did.
    pub fn result(self) -> (r: Result<(), Refusal>)
        requires
            self.well_formed(),
            self.model().next is None,
        ensures
            match self.model().failed {
                Some((stage, e)) => r matches Err(refusal) && refuses(
                    refusal,
                    500,
                    stage_text(stage) + e,
                ),
                None => r is Ok,
            },
    {
        match self.failed {
            Some(refusal) => {
                proof {
                    let stage = all_stages(self.restart)[self.passed@.len() as int];
                    let text = stage_text(stage);
                    assert(refusal.1.error@ =~= text + refusal.1.error@.skip(text.len() as int));
                }
                Err(refusal)
            },
            None => Ok(()),
        }
    }
}

/// The configuration and the clients in use, each by the number of the load that it comes
/// from, and what the server takes from the configuration itself.
#[derive(Debug, Clone, Copy, PartialEq, Eq, Structural)]
pub struct LiveConfig {
    pub config: u64,
    pub clickhouse: u64,
    pub s3: u64,
    pub allow_parallel: bool,
    /// How long the list of remote backups is kept.
    pub remote_cache_ttl_secs: u64,
}

/// The loading ended in `r`: where a step failed, with the refusal that names it, and the
/// state and what is in use stay as they are; else with an exchange of everything at once,
/// the permits included, and with a signal to the watch loop, if there is one.
pub open spec fn exchanged(
    loading: ReloadingModel,
    m: StateModel,
    after: StateModel,
    live: LiveConfig,
    live_after: LiveConfig,
    loaded: LiveConfig,
    watch_active: bool,
    r: Result<bool, Refusal>,
) -> bool {
    match loading.failed {
        Some((stage, e)) => {
            &&& after == m
            &&& live_after == live
            &&& r matches Err(refusal) && refuses(refusal, 500, stage_text(stage) + e)
        },
        None => {
            &&& after == m.after_reload(live.allow_parallel, loaded.allow_parallel)
            &&& live_after == loaded
            &&& r == Ok::<bool, Refusal>(watch_active)
        },
    }
}

/// Ends the loading of a configuration: takes what was loaded into use, unless a step
/// failed. Says whether the watch loop is to be told.
fn exchange(
    loading: Reloading,
    state: &mut AppState,
    live: &mut LiveConfig,
    loaded: LiveConfig,
    watch_active: bool,
) -> (r: Result<bool, Refusal>)
    requires
        loading.well_formed(),
        loading.model().next is None,
        old(state)@.well_formed(),
        old(state)@.permit_set < u64::MAX,
    ensures
        final(state)@.well_formed(),
        exchanged(
            loading.model(),
            old(state)@,
            final(state)@,
            *old(live),
            *final(live),
            loaded,
            watch_active,
            r,
        ),
{
    match loading.result() {
        Err(refusal) => Err(refusal),
        Ok(_) => {
            state.maybe_rebuild_semaphore(live.allow_parallel, loaded.allow_parallel);
            *live = loaded;
            Ok(watch_active)
        },
    }
}

/// The result of a request without its answer.
pub open spec fn signal_of<T>(r: Result<(T, bool), Refusal>) -> Result<bool, Refusal> {
    match r {
        Ok(done) => Ok(done.1),
        Err(e) => Err(e),
    }
}

/// A request to load the configuration anew, once its steps were taken: the answer, and
/// whether the watch loop is to be told.
pub fn reload(
    loading: Reloading,
    state: &mut AppState,
    live: &mut LiveConfig,
    loaded: LiveConfig,
    watch_active: bool,
) -> (r: Result<(ReloadResponse, bool), Refusal>)
    requires
        loading.well_formed(),
        loading.model().next is None,
        !loading.model().restart,
        old(state)@.well_formed(),
        old(state)@.permit_set < u64::MAX,
    ensures
        final(state)@.well_formed(),
        exchanged(
            loading.model(),
            old(state)@,
            final(state)@,
            *old(live),
            *final(live),
            loaded,
            watch_active,
            signal_of(r),
        ),
        r matches Ok(done) ==> done.0.status@ == "reloaded"@,
        r is Ok <==> loading.model().failed is None,
        r matches Ok(done) ==> done.1 == watch_active && *final(live) == loaded,
        r is Err ==> *final(live) == *old(live) && final(state)@ == old(state)@,
        r matches Err(e) ==> e.0 == 500,
{
    match exchange(loading, state, live, loaded, watch_active) {
        Ok(signal) => Ok((ReloadResponse { status: "reloaded".to_string() }, signal)),
        Err(e) => Err(e),
    }
}

/// A request to load the configuration anew and to connect anew, once its steps were taken,
/// the last of which reaches ClickHouse: the answer, and whether the watch loop is to be
/// told.
pub fn restart(
    loading: Reloading,
    state: &mut AppState,
    live: &mut LiveConfig,
    loaded: LiveConfig,
    watch_active: bool,
) -> (r: Result<(RestartResponse, bool), Refusal>)
    requires
        loading.well_formed(),
        loading.model().next is None,
        loading.model().restart,
        old(state)@.well_formed(),
        old(state)@.permit_set < u64::MAX,
    ensures
        final(state)@.well_formed(),
        exchanged(
            loading.model(),
            old(state)@,
            final(state)@,
            *old(live),
            *final(live),
            loaded,
            watch_active,
            signal_of(r),
        ),
        r matches Ok(done) ==> done.0.status@ == "restarted"@,
        r is Ok <==> loading.model().failed is None,
        r matches Ok(done) ==> done.1 == watch_active && *final(live) == loaded,
        r is Err ==> *final(live) == *old(live) && final(state)@ == old(state)@,
        r matches Err(e) ==> e.0 == 500,
{
    match exchange(loading, state, live, loaded, watch_active) {
        Ok(signal) => Ok((RestartResponse { status: "restarted".to_string() }, signal)),
        Err(e) => Err(e),
    }
}

/// What was loaded is taken into use only once every step succeeded, in order, the attempt
/// to reach ClickHouse included where a restart asks for it. A step that failed leaves
/// everything as it was, is answered with 500, and tells the watch loop nothing.
pub proof fn law_reloading_is_all_or_nothing(
    loading: Reloading,
    m: StateModel,
    after: StateModel,
    live: LiveConfig,
    live_after: LiveConfig,
    loaded: LiveConfig,
    watch_active: bool,
    r: Result<bool, Refusal>,
)
    requires
        loading.well_formed(),
        loading.model().next is None,
        exchanged(loading.model(), m, after, live, live_after, loaded, watch_active, r),
    ensures
        r is Ok <==> loading.model().failed is None,
        r is Ok ==> loading.model().passed == all_stages(loading.model().restart) && live_after
            == loaded,
        r is Err ==> live_after == live && after == m,
        r matches Err(refusal) ==> refusal.0 == 500,
{
    assert(all_stages(loading.restart).take(all_stages(loading.restart).len() as int)
        =~= all_stages(loading.restart));
}

// ---------------------------------------------------------------------------
// Pages
// ---------------------------------------------------------------------------

/// The smaller of two numbers.
pub open spec fn min_int(a: int, b: int) -> int {
    if a <= b {
        a
    } else {
        b
    }
}

/// The page of a list: what follows the first `offset` items, up to `limit` of them.
pub open spec fn page<T>(items: Seq<T>, offset: Option<usize>, limit: Option<usize>) -> Seq<T> {
    let from = match offset {
        Some(o) => min_int(o as int, items.len() as int),
        None => 0,
    };
    let to = match limit {
        Some(l) => min_int(from + l, items.len() as int),
        None => items.len() as int,
    };
    items.subrange(from, to)
}

/// The page of a list, and a header with the length of the whole list. The label is for
/// the log alone.
pub fn paginate<T>(items: Vec<T>, offset: Option<usize>, limit: Option<usize>, label: &str) -> (r: (
    [(&'static str, String); 1],
    Vec<T>,
))
    ensures
        r.0@[0].0@ == "x-total-count"@,
        r.0@[0].1@ == decimal(items@.len()),
        r.1@ == page(items@, offset, limit),
{
    let mut items = items;
    let ghost all = items@;
    let total: usize = items.len();
    let start: usize = match offset {
        Some(o) => if o < total {
            o
        } else {
            total
        },
        None => 0,
    };
    let mut rest = items.split_off(start);
    assert(rest@ =~= all.subrange(start as int, all.len() as int));
    if let Some(l) = limit {
        rest.truncate(l);
    }
    assert(rest@ =~= page(all, offset, limit));
    ([("x-total-count", decimal_text(total as u64))], rest)
}

/// A page and all that follows it are all that follows the page's start: pages neither
/// leave out nor repeat an item.
pub proof fn law_pages_tile_the_list<T>(items: Seq<T>, offset: usize, limit: usize)
    requires
        offset + limit <= usize::MAX,
    ensures
        page(items, Some(offset), Some(limit)) + page(
            items,
            Some((offset + limit) as usize),
            None,
        ) == page(items, Some(offset), None),
{
    assert(page(items, Some(offset), Some(limit)) + page(
        items,
        Some((offset + limit) as usize),
        None,
    ) =~= page(items, Some(offset), None));
}

// ---------------------------------------------------------------------------
// Times
// ---------------------------------------------------------------------------

/// A span in words: hours and minutes, or the largest unit that it reaches.
pub open spec fn span_text(total_secs: nat) -> Seq<char> {
    let hours = total_secs / 3600;
    let minutes = (total_secs % 3600) / 60;
    let seconds = total_secs % 60;
    if hours > 0 && minutes > 0 {
        decimal(hours) + "h"@ + decimal(minutes) + "m"@
    } else if hours > 0 {
        decimal(hours) + "h"@
    } else if minutes > 0 {
        decimal(minutes) + "m"@
    } else {
        decimal(seconds) + "s"@
    }
}

/// A span in words, such as "47m", "2h30m" or "5s".
pub fn format_duration(d: Duration) -> (r: String)
    ensures
        r@ == span_text(d.total_nanos() / NANOS_PER_SEC as nat),
{
    let total_secs: u64 = d.as_secs();
    let hours: u64 = total_secs / 3600;
    let minutes: u64 = (total_secs % 3600) / 60;
    let seconds: u64 = total_secs % 60;
    if hours > 0 && minutes > 0 {
        decimal_text(hours).concat("h").concat(decimal_text(minutes).as_str()).concat("m")
    } else if hours > 0 {
        decimal_text(hours).concat("h")
    } else if minutes > 0 {
        decimal_text(minutes).concat("m")
    } else {
        decimal_text(seconds).concat("s")
    }
}

/// A time in the form of the other dialect: the date and the time of day that the text
/// shows, or the text itself where it shows none.
pub open spec fn go_timestamp(text: Seq<char>) -> Seq<char> {
    match rfc3339_local(text) {
        Some(at) => match strftime_text(at.0 as int, at.1 as int, "%Y-%m-%d %H:%M:%S"@) {
            Some(t) => t,
            None => text,
        },
        None => text,
    }
}

/// The time that was read from a text, in the form of the other dialect.
pub fn written_go_timestamp(rfc3339: &str, written: Option<String>) -> (r: String)
    ensures
        r@ == match written {
            Some(t) => t@,
            None => rfc3339@,
        },
{
    match written {
        Some(t) => t,
        None => rfc3339.to_string(),
    }
}

/// A time in RFC 3339 as `YYYY-MM-DD HH:MM:SS`; any other text stays as it is.
pub fn format_go_timestamp(rfc3339: &str) -> (r: String)
    ensures
        rfc3339@.len() == 0 ==> r@.len() == 0,
        rfc3339@.len() > 0 ==> r@ == go_timestamp(rfc3339@),
        rfc3339@.len() > 0 && rfc3339_local(rfc3339@) is None ==> r@ == rfc3339@,
        rfc3339@.len() > 0 ==> (rfc3339_local(rfc3339@) matches Some(at) ==> (strftime_text(
            at.0 as int,
            at.1 as int,
            "%Y-%m-%d %H:%M:%S"@,
        ) matches Some(t) ==> r@ == t)),
{
    if rfc3339.is_empty() {
        return String::new();
    }
    let written = match parse_rfc3339_local(rfc3339) {
        Some((secs, nanos)) => strftime(secs, nanos, "%Y-%m-%d %H:%M:%S"),
        None => None,
    };
    written_go_timestamp(rfc3339, written)
}

/// An optional instant in RFC 3339; empty where there is none.
pub open spec fn opt_rfc3339(t: Option<Timestamp>) -> Seq<char> {
    match t {
        Some(t) => rfc3339_text(t.unix_secs(), t.unix_nanos()),
        None => Seq::empty(),
    }
}

/// An optional instant in RFC 3339; empty where there is none.
fn rfc3339_or_empty(t: &Option<Timestamp>) -> (r: String)
    ensures
        r@ == opt_rfc3339(*t),
        t is Some ==> r@ == rfc3339_text(t->0.unix_secs(), t->0.unix_nanos()),
        t is None ==> r@.len() == 0,
{
    match t {
        Some(t) => t.to_rfc3339(),
        None => String::new(),
    }
}

/// An optional instant in RFC 3339.
fn rfc3339_of(t: &Option<Timestamp>) -> (r: Option<String>)
    ensures
        r is Some <==> t is Some,
        r matches Some(s) ==> s@ == opt_rfc3339(*t),
        r matches Some(s) ==> s@ == rfc3339_text(t->0.unix_secs(), t->0.unix_nanos()),
{
    match t {
        Some(t) => Some(t.to_rfc3339()),
        None => None,
    }
}

// ---------------------------------------------------------------------------
// Answers about the state
// ---------------------------------------------------------------------------

/// Answer to the question whether the server is up.
pub fn health() -> (r: HealthResponse)
    ensures
        r.status@ == "ok"@,
{
    HealthResponse { status: "ok".to_string() }
}

/// Answer to the question for the versions; that of ClickHouse may be unknown.
pub fn version(own: &str, clickhouse: Option<String>) -> (r: VersionResponse)
    ensures
        r.version@ == own@,
        r.clickhouse_version@ == match clickhouse {
            Some(v) => v@,
            None => "unknown"@,
        },
{
    let clickhouse_version = match clickhouse {
        Some(v) => v,
        None => "unknown".to_string(),
    };
    VersionResponse { version: own.to_string(), clickhouse_version }
}

/// The answer shows the operation that runs for the longest, with the time of its start
/// as far as the log still holds it; nothing runs where there is none.
pub open spec fn shows_status(r: StatusResponse, ops: Seq<OpModel>, entries: Seq<EntryModel>) -> bool {
    if ops.len() == 0 {
        r.status@ == "idle"@ && r.command is None && r.start is None
    } else {
        &&& r.status@ == "running"@
        &&& opt_text(r.command) == Some(ops[0].command)
        &&& opt_text(r.start) == start_of(entries, ops[0].id)
    }
}

/// When the action started, in RFC 3339, as far as the log holds it.
pub open spec fn start_of(entries: Seq<EntryModel>, id: u64) -> Option<Seq<char>>
    decreases entries.len(),
{
    if entries.len() == 0 {
        None
    } else if entries[0].id == id {
        Some(opt_rfc3339(Some(entries[0].start)))
    } else {
        start_of(entries.skip(1), id)
    }
}

/// When the action started, as far as the log holds it.
fn find_start(entries: &Vec<ActionEntry>, id: u64) -> (r: Option<String>)
    ensures
        opt_text(r) == start_of(entry_models(entries@), id),
{
    let ghost all = entry_models(entries@);
    let mut i: usize = 0;
    assert(all.skip(0) =~= all);
    while i < entries.len()
        invariant
            i <= entries@.len(),
            all == entry_models(entries@),
            start_of(all, id) == start_of(all.skip(i as int), id),
        decreases entries@.len() - i,
    {
        assert(all.skip(i as int)[0] == entries@[i as int]@);
        assert(all.skip(i as int).skip(1) =~= all.skip(i + 1));
        if entries[i].id == id {
            return Some(entries[i].start.to_rfc3339());
        }
        i += 1;
    }
    None
}

/// The answer to the question for the operation that runs.
pub fn status(state: &AppState) -> (r: StatusResponse)
    ensures
        shows_status(r, state@.running, state@.log.entries),
        state@.running.len() == 0 ==> r.status@ == "idle"@ && r.command is None && r.start is None,
        state@.running.len() > 0 ==> r.status@ == "running"@ && opt_text(r.command) == Some(
            state@.running[0].command,
        ) && opt_text(r.start) == start_of(state@.log.entries, state@.running[0].id),
{
    let ops = state.running_ops();
    if ops.len() == 0 {
        return StatusResponse { status: "idle".to_string(), command: None, start: None };
    }
    assert(state@.running[0] == ops@[0]@);
    let start = find_start(state.action_log().entries(), ops[0].id);
    StatusResponse {
        status: "running".to_string(),
        command: Some(ops[0].command.clone()),
        start,
    }
}

/// The answer shows the action.
pub open spec fn shows_action(a: ActionResponse, e: EntryModel) -> bool {
    &&& a.id == e.id
    &&& a.command@ == e.command
    &&& a.start@ == opt_rfc3339(Some(e.start))
    &&& a.finish@ == opt_rfc3339(e.finish)
    &&& a.status@ == status_name(e.status)
    &&& a.error@ == status_error(e.status)
}

/// One action of the log, as the API shows it.
pub fn action_response(e: &ActionEntry) -> (r: ActionResponse)
    ensures
        shows_action(r, e@),
        r.id == e.id,
        r.command@ == e.command@,
        r.start@ == rfc3339_text(e.start.unix_secs(), e.start.unix_nanos()),
        e.finish matches Some(t) ==> r.finish@ == rfc3339_text(t.unix_secs(), t.unix_nanos()),
        e.finish is None ==> r.finish@.len() == 0,
        e.status is Running ==> r.status@ == "running"@,
        e.status is Completed ==> r.status@ == "completed"@,
        e.status is Failed ==> r.status@ == "failed"@,
        e.status is Killed ==> r.status@ == "killed"@,
        e.status is Failed ==> r.error@ == e.status->Failed_0@,
        !(e.status is Failed) ==> r.error@.len() == 0,
{
    ActionResponse {
        id: e.id,
        command: e.command.clone(),
        start: e.start.to_rfc3339(),
        finish: rfc3339_or_empty(&e.finish),
        status: e.status.name().to_string(),
        error: e.status.error(),
    }
}

/// The actions of the log, as the API shows them.
pub fn get_actions(entries: &Vec<ActionEntry>) -> (r: Vec<ActionResponse>)
    ensures
        r@.len() == entries@.len(),
        forall|i: int| 0 <= i < r@.len() ==> shows_action(#[trigger] r@[i], entries@[i]@),
{
    let mut out: Vec<ActionResponse> = Vec::new();
    let mut i: usize = 0;
    while i < entries.len()
        invariant
            i <= entries@.len(),
            out@.len() == i,
            forall|j: int| 0 <= j < i ==> shows_action(#[trigger] out@[j], entries@[j]@),
        decreases entries@.len() - i,
    {
        out.push(action_response(&entries[i]));
        i += 1;
    }
    out
}

/// The status of an action in the other dialect.
pub open spec fn go_status(status: Seq<char>) -> Seq<char> {
    if status == "running"@ {
        "in progress"@
    } else if status == "completed"@ {
        "success"@
    } else if status == "failed"@ {
        "error"@
    } else if status == "killed"@ {
        "cancel"@
    } else {
        "error"@
    }
}

/// The status of an action in the other dialect.
pub fn map_go_status(status: &str) -> (r: &'static str)
    ensures
        r@ == go_status(status@),
        status@ == "running"@ ==> r@ == "in progress"@,
        status@ == "completed"@ ==> r@ == "success"@,
        status@ == "killed"@ ==> r@ == "cancel"@,
        status@ != "running"@ && status@ != "completed"@ && status@ != "killed"@ ==> r@
            == "error"@,
{
    proof {
        reveal_strlit("running");
        reveal_strlit("completed");
        reveal_strlit("failed");
        reveal_strlit("killed");
        assert("running"@.len() == 7 && "completed"@.len() == 9 && "failed"@.len() == 6
            && "killed"@.len() == 6);
        assert("failed"@[0] != "killed"@[0]);
    }
    if same(status, "running") {
        "in progress"
    } else if same(status, "completed") {
        "success"
    } else if same(status, "failed") {
        "error"
    } else if same(status, "killed") {
        "cancel"
    } else {
        "error"
    }
}

/// A time that is shown in the other dialect.
pub open spec fn shown_go_time(shown: Seq<char>, text: Seq<char>) -> bool {
    if text.len() == 0 {
        shown.len() == 0
    } else {
        shown == go_timestamp(text)
    }
}

/// The answer shows the action in the other dialect.
pub open spec fn shows_go_action(a: GoActionResponse, e: EntryModel) -> bool {
    &&& a.command@ == e.command
    &&& shown_go_time(a.start@, opt_rfc3339(Some(e.start)))
    &&& shown_go_time(a.finish@, opt_rfc3339(e.finish))
    &&& a.status@ == go_status(status_name(e.status))
    &&& a.error@ == status_error(e.status)
}

/// One action of the log in the other dialect.
pub fn go_action_response(e: &ActionEntry) -> (r: GoActionResponse)
    ensures
        shows_go_action(r, e@),
        r.command@ == e.command@,
        e.status is Running ==> r.status@ == "in progress"@,
        e.status is Completed ==> r.status@ == "success"@,
        e.status is Failed ==> r.status@ == "error"@,
        e.status is Killed ==> r.status@ == "cancel"@,
        e.status is Failed ==> r.error@ == e.status->Failed_0@,
        !(e.status is Failed) ==> r.error@.len() == 0,
        e.finish is None ==> r.finish@.len() == 0,
{
    proof {
        reveal_strlit("running");
        reveal_strlit("completed");
        reveal_strlit("failed");
        reveal_strlit("killed");
        assert("running"@.len() == 7 && "completed"@.len() == 9 && "failed"@.len() == 6
            && "killed"@.len() == 6);
        assert("failed"@[0] != "killed"@[0]);
    }
    let start = e.start.to_rfc3339();
    let finish = rfc3339_or_empty(&e.finish);
    GoActionResponse {
        command: e.command.clone(),
        start: format_go_timestamp(start.as_str()),
        finish: format_go_timestamp(finish.as_str()),
        status: map_go_status(e.status.name()).to_string(),
        error: e.status.error(),
    }
}

/// The actions of the log in the other dialect.
pub fn go_get_actions(entries: &Vec<ActionEntry>) -> (r: Vec<GoActionResponse>)
    ensures
        r@.len() == entries@.len(),
        forall|i: int| 0 <= i < r@.len() ==> shows_go_action(#[trigger] r@[i], entries@[i]@),
{
    let mut out: Vec<GoActionResponse> = Vec::new();
    let mut i: usize = 0;
    while i < entries.len()
        invariant
            i <= entries@.len(),
            out@.len() == i,
            forall|j: int| 0 <= j < i ==> shows_go_action(#[trigger] out@[j], entries@[j]@),
        decreases entries@.len() - i,
    {
        out.push(go_action_response(&entries[i]));
        i += 1;
    }
    out
}

/// Rows as one text, each on a line of its own; empty where there are none, or where they
/// are all one empty row.
pub open spec fn rows_text(rows: Seq<Seq<char>>) -> Seq<char> {
    let body = join(rows, "\n"@);
    if body.len() == 0 {
        body
    } else {
        body + "\n"@
    }
}

/// Rows as one text, each on a line of its own.
pub fn json_each_row(rows: &Vec<String>) -> (r: String)
    ensures
        r@ == rows_text(rows.deep_view()),
{
    let body = join_texts(rows, "\n");
    if body.as_str().is_empty() {
        body
    } else {
        body.concat("\n")
    }
}

/// Answer to a request that started an operation, in the other dialect.
pub fn go_operation_response(operation: &str) -> (r: GoOperationResponse)
    ensures
        r.status@ == "acknowledged"@,
        r.operation@ == operation@,
{
    GoOperationResponse { status: "acknowledged".to_string(), operation: operation.to_string() }
}

/// How the watch loop stands, as the API shows it.
pub fn watch_status(ws: &WatchStatus) -> (r: WatchStatusResponse)
    ensures
        r.state@ == ws.state@,
        r.active == ws.active,
        r.last_full is Some <==> ws.last_full is Some,
        r.last_full matches Some(s) ==> s@ == opt_rfc3339(ws.last_full),
        r.last_incr is Some <==> ws.last_incr is Some,
        r.last_incr matches Some(s) ==> s@ == opt_rfc3339(ws.last_incr),
        r.last_full matches Some(s) ==> s@ == rfc3339_text(
            ws.last_full->0.unix_secs(),
            ws.last_full->0.unix_nanos(),
        ),
        r.last_incr matches Some(s) ==> s@ == rfc3339_text(
            ws.last_incr->0.unix_secs(),
            ws.last_incr->0.unix_nanos(),
        ),
        r.consecutive_errors == ws.consecutive_errors,
        r.next_in is Some <==> ws.next_backup_in is Some,
        r.next_in matches Some(s) ==> s@ == span_text(
            ws.next_backup_in->0.total_nanos() / NANOS_PER_SEC as nat,
        ),
{
    let next_in = match &ws.next_backup_in {
        Some(d) => Some(format_duration(*d)),
        None => None,
    };
    WatchStatusResponse {
        state: ws.state.clone(),
        active: ws.active,
        last_full: rfc3339_of(&ws.last_full),
        last_incr: rfc3339_of(&ws.last_incr),
        consecutive_errors: ws.consecutive_errors,
        next_in,
    }
}

/// Takes the place of the watch loop for a request to start it. Refused as a conflict
/// while the loop is active.
pub fn watch_start(status: &mut WatchStatus) -> (r: Result<(), Refusal>)
    ensures
        old(status).active ==> *final(status) == *old(status) && (r matches Err(e) && refuses(
            e,
            409,
            "watch loop already active"@,
        )),
        !old(status).active ==> r is Ok && *final(status) == (WatchStatus {
            active: true,
            ..*old(status)
        }),
{
    if status.active {
        return Err(refusal(409, "watch loop already active".to_string()));
    }
    status.active = true;
    Ok(())
}

/// Gives the place of the watch loop back, where the intervals that were asked for are
/// refused.
pub fn watch_start_refused(status: &mut WatchStatus, e: &str) -> (r: Refusal)
    ensures
        *final(status) == (WatchStatus { active: false, ..*old(status) }),
        refuses(r, 400, "invalid config: "@ + e@),
{
    status.active = false;
    refusal(400, "invalid config: ".to_string().concat(e))
}

/// The intervals of the watch loop: those that were asked for, else the configured ones.
pub fn watch_intervals(req: WatchStartRequest, watch_interval: &str, full_interval: &str) -> (r: (
    String,
    String,
))
    ensures
        r.0@ == match req.watch_interval {
            Some(v) => v@,
            None => watch_interval@,
        },
        r.1@ == match req.full_interval {
            Some(v) => v@,
            None => full_interval@,
        },
{
    let watch = match req.watch_interval {
        Some(v) => v,
        None => watch_interval.to_string(),
    };
    let full = match req.full_interval {
        Some(v) => v,
        None => full_interval.to_string(),
    };
    (watch, full)
}

/// The answer to a request to stop the watch loop; there is nothing to stop while it is
/// not active.
pub fn watch_stop(active: bool) -> (r: Result<WatchActionResponse, Refusal>)
    ensures
        active ==> (r matches Ok(a) && a.status@ == "stopping"@),
        !active ==> (r matches Err(e) && refuses(e, 404, "watch loop not active"@)),
{
    if active {
        Ok(WatchActionResponse { status: "stopping".to_string() })
    } else {
        Err(refusal(404, "watch loop not active".to_string()))
    }
}

/// The answer to a request to kill, given whether anything was killed: the status 404
/// where nothing was.
pub fn kill_op(killed: bool) -> (r: Result<&'static str, u16>)
    ensures
        killed ==> (r matches Ok(s) && s@ == "killed"@),
        !killed ==> r == Err::<&'static str, u16>(404),
{
    if killed {
        Ok("killed")
    } else {
        Err(404)
    }
}

/// The answer to a request for the metrics, given what encoding them gave; nothing where
/// they are switched off.
pub fn metrics(encoded: Option<Result<String, String>>) -> (r: (u16, String))
    ensures
        match encoded {
            None => r.0 == 501 && r.1@ == "metrics disabled"@,
            Some(Ok(text)) => r.0 == 200 && r.1@ == text@,
            Some(Err(e)) => r.0 == 500 && r.1@ == "metrics encoding error: "@ + e@,
        },
{
    match encoded {
        None => (501, "metrics disabled".to_string()),
        Some(Ok(text)) => (200, text),
        Some(Err(e)) => (500, "metrics encoding error: ".to_string().concat(e.as_str())),
    }
}

// ---------------------------------------------------------------------------
// Bodies
// ---------------------------------------------------------------------------

/// Where the line that starts at `from` ends: at the next line feed, or at the end.
pub open spec fn line_end(body: Seq<u8>, from: nat) -> nat
    decreases body.len() - from,
{
    if from >= body.len() {
        body.len()
    } else if body[from as int] == 10 {
        from
    } else {
        line_end(body, from + 1)
    }
}

/// The text of a line without the blanks around it; empty where the line is no text.
pub open spec fn line_text(line: Seq<u8>) -> Seq<char> {
    if vstd::utf8::valid_utf8(line) {
        trim(vstd::utf8::decode_utf8(line))
    } else {
        Seq::empty()
    }
}

/// The lines of a body from `from` on that are texts and not blank, without the blanks
/// around them.
pub open spec fn lines_from(body: Seq<u8>, from: nat) -> Seq<Seq<char>>
    decreases body.len() + 1 - from,
    via lines_decrease
{
    if from > body.len() {
        Seq::empty()
    } else {
        let to = line_end(body, from);
        let text = line_text(body.subrange(from as int, to as int));
        let rest = lines_from(body, to + 1);
        if text.len() > 0 {
            seq![text] + rest
        } else {
            rest
        }
    }
}

#[via_fn]
proof fn lines_decrease(body: Seq<u8>, from: nat) {
    if from <= body.len() {
        lemma_line_end(body, from);
    }
}

/// A line ends where it starts or later, at the first line feed.
proof fn lemma_line_end(body: Seq<u8>, from: nat)
    requires
        from <= body.len(),
    ensures
        from <= line_end(body, from) <= body.len(),
    decreases body.len() - from,
{
    if from < body.len() && body[from as int] != 10 {
        lemma_line_end(body, from + 1);
    }
}

/// The lines of a body that are texts and not blank: each of them may hold a request.
pub fn request_lines(body: &[u8]) -> (r: Vec<String>)
    ensures
        r.deep_view() == lines_from(body@, 0),
{
    let mut out: Vec<String> = Vec::new();
    let len: usize = body.len();
    let mut from: usize = 0;
    assert(out.deep_view() + lines_from(body@, 0) =~= lines_from(body@, 0));
    loop
        invariant
            len == body@.len(),
            from <= len,
            out.deep_view() + lines_from(body@, from as nat) == lines_from(body@, 0),
        decreases len - from,
    {
        let mut to: usize = from;
        while to < len && body[to] != 10
            invariant
                len == body@.len(),
                from <= to <= len,
                line_end(body@, from as nat) == line_end(body@, to as nat),
            decreases len - to,
        {
            to += 1;
        }
        let ghost was = out.deep_view();
        let ghost line = body@.subrange(from as int, to as int);
        let ghost text = line_text(line);
        let ghost rest = lines_from(body@, to as nat + 1);
        match decode_text(vstd::slice::slice_subrange(body, from, to)) {
            Some(s) => {
                let t = trim_text(s.as_str());
                if !t.as_str().is_empty() {
                    out.push(t);
                    assert(out.deep_view() =~= was.push(text));
                    assert(was + (seq![text] + rest) =~= out.deep_view() + rest);
                }
            },
            None => {},
        }
        if to == len {
            assert(rest =~= Seq::<Seq<char>>::empty());
            assert(out.deep_view() + rest =~= out.deep_view());
            return out;
        }
        from = to + 1;
    }
}

/// The request of a body: the first one of those that it holds.
pub fn first_request(requests: Vec<ActionRequest>) -> (r: Result<ActionRequest, Refusal>)
    ensures
        requests@.len() == 0 ==> (r matches Err(e) && refuses(
            e,
            400,
            "empty or unparseable request body"@,
        )),
        requests@.len() > 0 ==> r == Ok::<ActionRequest, Refusal>(requests@[0]),
{
    let mut requests = requests;
    if requests.len() == 0 {
        Err(refusal(400, "empty or unparseable request body".to_string()))
    } else {
        Ok(requests.remove(0))
    }
}

/// What a list of the backups of one place is asked for in the other dialect; the body of
/// the error where the place is none.
pub fn go_list_by_location(location: String) -> (r: Result<ListParams, (u16, String)>)
    ensures
        if location@ == "local"@ || location@ == "remote"@ {
            r == Ok::<ListParams, (u16, String)>(
                ListParams {
                    location: Some(location),
                    desc: None,
                    offset: None,
                    limit: None,
                    format: None,
                },
            )
        } else {
            r matches Err(e) && e.0 == 400 && e.1@
                == "{\"error\":\"Invalid location: must be 'local' or 'remote'\"}\n"@
        },
{
    if same(location.as_str(), "local") || same(location.as_str(), "remote") {
        Ok(
            ListParams {
                location: Some(location),
                desc: None,
                offset: None,
                limit: None,
                format: None,
            },
        )
    } else {
        Err(
            (
                400,
                "{\"error\":\"Invalid location: must be 'local' or 'remote'\"}\n".to_string(),
            ),
        )
    }
}

/// What a list of all tables is asked for in the other dialect.
pub fn go_tables_all(params: TablesParams) -> (r: TablesParams)
    ensures
        r == (TablesParams { all: Some(true), ..params }),
{
    TablesParams { all: Some(true), ..params }
}

/// The place of a backup by its name in the path of a request.
pub fn parse_location(location: &str) -> (r: Result<Location, Refusal>)
    ensures
        if location@ == "local"@ {
            r == Ok::<Location, Refusal>(Location::Local)
        } else if location@ == "remote"@ {
            r == Ok::<Location, Refusal>(Location::Remote)
        } else {
            r matches Err(e) && refuses(
                e,
                400,
                "invalid location '"@ + location@ + "': expected 'local' or 'remote'"@,
            )
        },
{
    if same(location, "local") {
        Ok(Location::Local)
    } else if same(location, "remote") {
        Ok(Location::Remote)
    } else {
        Err(
            refusal(
                400,
                "invalid location '".to_string().concat(location).concat(
                    "': expected 'local' or 'remote'",
                ),
            ),
        )
    }
}

} // verus!
