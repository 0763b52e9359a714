//! The requests that start an operation: what is refused, what is started, and what the
//! operation does.

use vstd::prelude::*;
use vstd::string::StringExecFns;

use crate::list::Location;
use crate::manifest::NamedValue;
use crate::server::actions::StatusModel;
use crate::server::calls::{
    opt_pairs, CreateCall, CreateModel, DownloadCall, DownloadModel, RestoreCall, RestoreModel,
    UploadCall, UploadModel, Work, WorkModel,
};
use crate::server::flags::{
    arg_texts, empty_flags, no_flags, parse_action_flags, parsed_flags, ActionFlags, FlagsModel,
};
use crate::server::routes::{
    bad_name, check_name, check_new_name, new_name_fault, parse_location, refusal, refuses,
    CreateRemoteRequest, CreateRequest, DownloadRequest, OperationStarted, Refusal,
    RestoreRemoteRequest, RestoreRequest, UploadRequest,
};
use crate::server::state::{name_fault, reserved_name, AppState, StateModel};
use crate::text::{opt_text, same, words, words_of};
use crate::time::Timestamp;

verus! {

/// The part of the configuration that operations use where a request leaves it open.
#[derive(Debug)]
pub struct OperationConfig {
    pub use_resumable_state: bool,
    pub skip_projections: Vec<String>,
}

/// An operation that was started.
#[derive(Debug)]
pub struct Started {
    pub response: OperationStarted,
    /// The name of the operation for metrics.
    pub label: &'static str,
    pub work: Work,
    /// The backup that no other process may work on meanwhile, if it works on one.
    pub lock_name: Option<String>,
    /// The list of remote backups is to be read anew once the operation succeeded.
    pub invalidate_cache: bool,
}

/// The request is refused, and the state stays as it is.
pub open spec fn refused(
    m: StateModel,
    after: StateModel,
    status: u16,
    error: Seq<char>,
    r: Result<Started, Refusal>,
) -> bool {
    after == m && (r matches Err(e) && refuses(e, status, error))
}

/// The operation is started, if the state lets it: with the name and the work, and an
/// identifier for the answer. Otherwise the answer says why not.
pub open spec fn answered(
    m: StateModel,
    after: StateModel,
    label: Seq<char>,
    backup_name: Option<Seq<char>>,
    work: WorkModel,
    invalidate_cache: bool,
    now: Timestamp,
    r: Result<Started, Refusal>,
) -> bool {
    &&& after == m.after_start(label, backup_name, now)
    &&& match m.start_answer(backup_name) {
        Ok(id) => r matches Ok(s) && {
            &&& s.response.id == id
            &&& s.response.status@ == "started"@
            &&& s.label@ == label
            &&& s.work@ == work
            &&& opt_text(s.lock_name) == backup_name
            &&& s.invalidate_cache == invalidate_cache
        },
        Err(error) => r matches Err(e) && refuses(e, 423, error),
    }
}

/// Starts an operation, if the state lets it.
fn run_operation(
    state: &mut AppState,
    label: &'static str,
    backup_name: Option<String>,
    work: Work,
    invalidate_cache: bool,
    now: Timestamp,
) -> (r: Result<Started, Refusal>)
    requires
        old(state)@.well_formed(),
        old(state)@.log.next_id < u64::MAX,
    ensures
        final(state)@.well_formed(),
        answered(
            old(state)@,
            final(state)@,
            label@,
            opt_text(backup_name),
            work@,
            invalidate_cache,
            now,
            r,
        ),
{
    let lock_name = backup_name.clone();
    match state.try_start_op_at(label, backup_name, now) {
        Ok(id) => Ok(
            Started {
                response: OperationStarted { id, status: "started".to_string() },
                label,
                work,
                lock_name,
                invalidate_cache,
            },
        ),
        Err(e) => Err(refusal(423, e.to_string())),
    }
}

/// Notes how an operation ended. Says whether the list of remote backups is to be read
/// anew: only after a success.
pub fn complete_operation(
    state: &mut AppState,
    id: u64,
    outcome: Result<(), String>,
    invalidate_cache: bool,
    now: Timestamp,
) -> (r: bool)
    requires
        old(state)@.well_formed(),
    ensures
        final(state)@.well_formed(),
        final(state)@ == old(state)@.after_end(
            id,
            match outcome {
                Ok(_) => StatusModel::Completed,
                Err(e) => StatusModel::Failed(e@),
            },
            now,
        ),
        r == (outcome is Ok && invalidate_cache),
{
    match outcome {
        Ok(_) => {
            state.finish_op_at(id, now);
            invalidate_cache
        },
        Err(e) => {
            state.fail_op_at(id, e, now);
            false
        },
    }
}

/// The backup after whose upload old backups are deleted, by what an operation did: an upload
/// or a backup that was made and uploaded.
pub open spec fn retained_for(work: WorkModel) -> Option<Seq<char>> {
    match work {
        WorkModel::Upload(u) => Some(u.backup_name),
        WorkModel::CreateRemote(_, u) => Some(u.backup_name),
        _ => None,
    }
}

/// The backup after whose upload old backups are to be deleted, if the operation uploaded
/// one and succeeded. What is resumed after a restart deletes nothing.
pub fn retention_after(work: &Work, succeeded: bool, resumed: bool) -> (r: Option<String>)
    ensures
        opt_text(r) == if succeeded && !resumed {
            retained_for(work@)
        } else {
            None
        },
        work is Upload && succeeded && !resumed ==> opt_text(r) == Some(
            work->Upload_0.backup_name@,
        ),
        work is CreateRemote && succeeded && !resumed ==> opt_text(r) == Some(
            work->CreateRemote_1.backup_name@,
        ),
        r is Some ==> (work is Upload || work is CreateRemote) && succeeded && !resumed,
{
    if !succeeded || resumed {
        return None;
    }
    match work {
        Work::Upload(u) => Some(u.backup_name.clone()),
        Work::CreateRemote(_, u) => Some(u.backup_name.clone()),
        _ => None,
    }
}

/// Old backups are deleted only after an operation that uploaded a backup.
pub proof fn law_retention_follows_an_upload(work: WorkModel)
    ensures
        retained_for(work) is Some <==> work is Upload || work is CreateRemote,
{
}

/// An optional switch that is off where it is left open.
pub open spec fn on(o: Option<bool>) -> bool {
    o == Some(true)
}

/// An optional switch that is off where it is left open.
fn is_on(o: Option<bool>) -> (r: bool)
    ensures
        r == on(o),
{
    match o {
        Some(b) => b,
        None => false,
    }
}

/// A switch, or the configured one where it is left open.
pub open spec fn or_config(o: Option<bool>, config: bool) -> bool {
    match o {
        Some(b) => b,
        None => config,
    }
}

fn switch_or(o: Option<bool>, config: bool) -> (r: bool)
    ensures
        r == or_config(o, config),
{
    match o {
        Some(b) => b,
        None => config,
    }
}

/// The projections to leave out: those of the request, else the configured ones.
pub open spec fn projections(o: Option<Vec<String>>, config: Seq<Seq<char>>) -> Seq<Seq<char>> {
    match o {
        Some(v) => v.deep_view(),
        None => config,
    }
}

fn projections_or(o: Option<Vec<String>>, config: &OperationConfig) -> (r: Vec<String>)
    ensures
        r.deep_view() == projections(o, config.skip_projections.deep_view()),
{
    match o {
        Some(v) => v,
        None => {
            let v = config.skip_projections.clone();
            assert(v.deep_view() =~= config.skip_projections.deep_view());
            v
        },
    }
}

/// A name, or the one that was made up where none is given.
pub open spec fn name_or(o: Option<String>, generated: Seq<char>) -> Seq<char> {
    match o {
        Some(n) => n@,
        None => generated,
    }
}

fn name_or_generated(o: &Option<String>, generated: &str) -> (r: String)
    ensures
        r@ == name_or(*o, generated@),
{
    match o {
        Some(n) => n.clone(),
        None => generated.to_string(),
    }
}

/// What a request to make a local backup does.
pub open spec fn create_work(req: CreateRequest, name: Seq<char>, config: OperationConfig) -> CreateModel {
    CreateModel {
        backup_name: name,
        tables: opt_text(req.tables),
        schema_only: on(req.schema),
        diff_from: opt_text(req.diff_from),
        partitions: opt_text(req.partitions),
        skip_check_parts_columns: on(req.skip_check_parts_columns),
        rbac: on(req.rbac),
        configs: on(req.configs),
        named_collections: on(req.named_collections),
        skip_projections: projections(req.skip_projections, config.skip_projections.deep_view()),
    }
}

/// Why an optional name cannot be that of a new backup, if it cannot.
pub open spec fn new_name_refusal(o: Option<String>) -> Option<Seq<char>> {
    match o {
        Some(n) => new_name_fault(n@),
        None => None,
    }
}

fn check_optional_new_name(o: &Option<String>) -> (r: Result<(), Refusal>)
    ensures
        match new_name_refusal(*o) {
            Some(fault) => r matches Err(e) && refuses(e, 400, bad_name(fault)),
            None => r is Ok,
        },
{
    match o {
        Some(n) => check_new_name(n.as_str()),
        None => Ok(()),
    }
}

/// A request to make a local backup. `generated` is the name of a backup without one.
pub fn create_backup(
    state: &mut AppState,
    req: CreateRequest,
    generated: &str,
    config: &OperationConfig,
    now: Timestamp,
) -> (r: Result<Started, Refusal>)
    requires
        old(state)@.well_formed(),
        old(state)@.log.next_id < u64::MAX,
    ensures
        final(state)@.well_formed(),
        match new_name_refusal(req.backup_name) {
            Some(fault) => refused(old(state)@, final(state)@, 400, bad_name(fault), r),
            None => answered(
                old(state)@,
                final(state)@,
                "create"@,
                Some(name_or(req.backup_name, generated@)),
                WorkModel::Create(
                    create_work(req, name_or(req.backup_name, generated@), *config),
                ),
                false,
                now,
                r,
            ),
        },
        r matches Ok(s) ==> (s.work matches Work::Create(c) && {
            &&& match req.backup_name {
                Some(n) => c.backup_name@ == n@,
                None => c.backup_name@ == generated@,
            }
            &&& opt_text(c.tables) == opt_text(req.tables)
            &&& c.schema_only == (req.schema == Some(true))
            &&& opt_text(c.diff_from) == opt_text(req.diff_from)
            &&& opt_text(c.partitions) == opt_text(req.partitions)
            &&& c.skip_check_parts_columns == (req.skip_check_parts_columns == Some(true))
            &&& c.rbac == (req.rbac == Some(true))
            &&& c.configs == (req.configs == Some(true))
            &&& c.named_collections == (req.named_collections == Some(true))
            &&& match req.skip_projections {
                Some(v) => c.skip_projections.deep_view() == v.deep_view(),
                None => c.skip_projections.deep_view() == config.skip_projections.deep_view(),
            }
            &&& opt_text(s.lock_name) == Some(c.backup_name@)
        }),
        r matches Ok(s) ==> s.response.id == old(state)@.log.next_id && s.response.status@
            == "started"@,
        r matches Ok(s) ==> final(state)@.running.len() == old(state)@.running.len() + 1,
        r matches Ok(s) ==> final(state)@.running.last().id == s.response.id,
        r matches Ok(s) ==> final(state)@.running.last().backup_name == opt_text(s.lock_name),
        r is Err ==> final(state)@.running == old(state)@.running,
        r matches Err(e) ==> e.0 == 400 || e.0 == 423,
{
    match check_optional_new_name(&req.backup_name) {
        Err(e) => {
            return Err(e);
        },
        Ok(_) => {},
    }
    let backup_name = name_or_generated(&req.backup_name, generated);
    let work = Work::Create(
        CreateCall {
            backup_name: backup_name.clone(),
            tables: req.tables,
            schema_only: is_on(req.schema),
            diff_from: req.diff_from,
            partitions: req.partitions,
            skip_check_parts_columns: is_on(req.skip_check_parts_columns),
            rbac: is_on(req.rbac),
            configs: is_on(req.configs),
            named_collections: is_on(req.named_collections),
            skip_projections: projections_or(req.skip_projections, config),
        },
    );
    run_operation(state, "create", Some(backup_name), work, false, now)
}

/// A request to upload a backup.
pub fn upload_backup(
    state: &mut AppState,
    name: &str,
    req: UploadRequest,
    config: &OperationConfig,
    now: Timestamp,
) -> (r: Result<Started, Refusal>)
    requires
        old(state)@.well_formed(),
        old(state)@.log.next_id < u64::MAX,
    ensures
        final(state)@.well_formed(),
        match name_fault(name@) {
            Some(fault) => refused(old(state)@, final(state)@, 400, bad_name(fault), r),
            None => answered(
                old(state)@,
                final(state)@,
                "upload"@,
                Some(name@),
                WorkModel::Upload(
                    UploadModel {
                        backup_name: name@,
                        delete_local: on(req.delete_local),
                        diff_from_remote: opt_text(req.diff_from_remote),
                        resume: or_config(req.resume, config.use_resumable_state),
                    },
                ),
                true,
                now,
                r,
            ),
        },
        r matches Ok(s) ==> (s.work matches Work::Upload(u) && {
            &&& u.backup_name@ == name@
            &&& u.delete_local == (req.delete_local == Some(true))
            &&& opt_text(u.diff_from_remote) == opt_text(req.diff_from_remote)
            &&& u.resume == match req.resume {
                Some(b) => b,
                None => config.use_resumable_state,
            }
            &&& opt_text(s.lock_name) == Some(name@)
            &&& s.invalidate_cache
        }),
        r matches Ok(s) ==> s.response.id == old(state)@.log.next_id && s.response.status@
            == "started"@,
        r matches Ok(s) ==> final(state)@.running.len() == old(state)@.running.len() + 1,
        r matches Ok(s) ==> final(state)@.running.last().id == s.response.id,
        r matches Ok(s) ==> final(state)@.running.last().backup_name == opt_text(s.lock_name),
        r is Err ==> final(state)@.running == old(state)@.running,
        r matches Err(e) ==> e.0 == 400 || e.0 == 423,
{
    match check_name(name) {
        Err(e) => {
            return Err(e);
        },
        Ok(_) => {},
    }
    let work = Work::Upload(
        UploadCall {
            backup_name: name.to_string(),
            delete_local: is_on(req.delete_local),
            diff_from_remote: req.diff_from_remote,
            resume: switch_or(req.resume, config.use_resumable_state),
        },
    );
    run_operation(state, "upload", Some(name.to_string()), work, true, now)
}

/// A request to download a backup.
pub fn download_backup(
    state: &mut AppState,
    name: &str,
    req: DownloadRequest,
    config: &OperationConfig,
    now: Timestamp,
) -> (r: Result<Started, Refusal>)
    requires
        old(state)@.well_formed(),
        old(state)@.log.next_id < u64::MAX,
    ensures
        final(state)@.well_formed(),
        match name_fault(name@) {
            Some(fault) => refused(old(state)@, final(state)@, 400, bad_name(fault), r),
            None => answered(
                old(state)@,
                final(state)@,
                "download"@,
                Some(name@),
                WorkModel::Download(
                    DownloadModel {
                        backup_name: name@,
                        resume: or_config(req.resume, config.use_resumable_state),
                        hardlink_exists_files: on(req.hardlink_exists_files),
                    },
                ),
                false,
                now,
                r,
            ),
        },
        r matches Ok(s) ==> (s.work matches Work::Download(d) && {
            &&& d.backup_name@ == name@
            &&& d.hardlink_exists_files == (req.hardlink_exists_files == Some(true))
            &&& d.resume == match req.resume {
                Some(b) => b,
                None => config.use_resumable_state,
            }
            &&& opt_text(s.lock_name) == Some(name@)
        }),
        r matches Ok(s) ==> s.response.id == old(state)@.log.next_id && s.response.status@
            == "started"@,
        r matches Ok(s) ==> final(state)@.running.len() == old(state)@.running.len() + 1,
        r matches Ok(s) ==> final(state)@.running.last().id == s.response.id,
        r matches Ok(s) ==> final(state)@.running.last().backup_name == opt_text(s.lock_name),
        r is Err ==> final(state)@.running == old(state)@.running,
        r matches Err(e) ==> e.0 == 400 || e.0 == 423,
{
    match check_name(name) {
        Err(e) => {
            return Err(e);
        },
        Ok(_) => {},
    }
    let work = Work::Download(
        DownloadCall {
            backup_name: name.to_string(),
            resume: switch_or(req.resume, config.use_resumable_state),
            hardlink_exists_files: is_on(req.hardlink_exists_files),
        },
    );
    run_operation(state, "download", Some(name.to_string()), work, false, now)
}

/// A mapping of databases was given and is to be read.
pub open spec fn mapping_given(o: Option<String>) -> bool {
    o matches Some(s) && s@.len() > 0
}

/// Whether a mapping of databases was given and is to be read.
pub fn wants_mapping(o: &Option<String>) -> (r: bool)
    ensures
        r == mapping_given(*o),
        r <==> o is Some && o->0@.len() > 0,
{
    match o {
        Some(s) => !s.as_str().is_empty(),
        None => false,
    }
}

/// The mapping of databases, as far as it was given and read: `mapping` is what reading it
/// gave.
pub open spec fn mapping_or_fault(
    o: Option<String>,
    mapping: Result<Vec<NamedValue>, String>,
) -> Result<Option<Seq<(Seq<char>, Seq<char>)>>, Seq<char>> {
    if !mapping_given(o) {
        Ok(None)
    } else {
        match mapping {
            Ok(v) => Ok(opt_pairs(Some(v))),
            Err(e) => Err("invalid database_mapping: "@ + e@),
        }
    }
}

fn read_mapping(o: &Option<String>, mapping: Result<Vec<NamedValue>, String>) -> (r: Result<
    Option<Vec<NamedValue>>,
    Refusal,
>)
    ensures
        match mapping_or_fault(*o, mapping) {
            Ok(pairs) => r matches Ok(m) && opt_pairs(m) == pairs,
            Err(error) => r matches Err(e) && refuses(e, 400, error),
        },
        r matches Ok(Some(m)) ==> mapping matches Ok(v) && m == v,
        r matches Err(e) ==> mapping is Err && e.0 == 400 && e.1.error@
            == "invalid database_mapping: "@ + mapping->Err_0@,
        o is None ==> r == Ok::<Option<Vec<NamedValue>>, Refusal>(None),
{
    if !wants_mapping(o) {
        return Ok(None);
    }
    match mapping {
        Ok(v) => Ok(Some(v)),
        Err(e) => Err(
            refusal(400, "invalid database_mapping: ".to_string().concat(e.as_str())),
        ),
    }
}

/// A request to restore a backup. `mapping` is what reading the mapping of databases gave,
/// if one was given.
pub fn restore_backup(
    state: &mut AppState,
    name: &str,
    req: RestoreRequest,
    mapping: Result<Vec<NamedValue>, String>,
    config: &OperationConfig,
    now: Timestamp,
) -> (r: Result<Started, Refusal>)
    requires
        old(state)@.well_formed(),
        old(state)@.log.next_id < u64::MAX,
    ensures
        final(state)@.well_formed(),
        match name_fault(name@) {
            Some(fault) => refused(old(state)@, final(state)@, 400, bad_name(fault), r),
            None => if on(req.schema) && on(req.data_only) {
                refused(
                    old(state)@,
                    final(state)@,
                    400,
                    "schema and data_only are mutually exclusive"@,
                    r,
                )
            } else {
                match mapping_or_fault(req.database_mapping, mapping) {
                    Err(error) => refused(old(state)@, final(state)@, 400, error, r),
                    Ok(pairs) => answered(
                        old(state)@,
                        final(state)@,
                        "restore"@,
                        Some(name@),
                        WorkModel::Restore(
                            RestoreModel {
                                backup_name: name@,
                                tables: opt_text(req.tables),
                                schema_only: on(req.schema),
                                data_only: on(req.data_only),
                                rm: on(req.rm),
                                resume: or_config(req.resume, config.use_resumable_state),
                                rename_as: opt_text(req.rename_as),
                                database_mapping: pairs,
                                rbac: on(req.rbac),
                                configs: on(req.configs),
                                named_collections: on(req.named_collections),
                                partitions: opt_text(req.partitions),
                                skip_empty_tables: on(req.skip_empty_tables),
                            },
                        ),
                        false,
                        now,
                        r,
                    ),
                }
            },
        },
        r matches Ok(s) ==> (s.work matches Work::Restore(x) && {
            &&& x.backup_name@ == name@
            &&& x.schema_only == (req.schema == Some(true))
            &&& x.data_only == (req.data_only == Some(true))
            &&& !(x.schema_only && x.data_only)
            &&& opt_text(x.partitions) == opt_text(req.partitions)
            &&& opt_text(x.tables) == opt_text(req.tables)
            &&& x.rm == (req.rm == Some(true))
            &&& opt_text(x.rename_as) == opt_text(req.rename_as)
            &&& x.rbac == (req.rbac == Some(true))
            &&& x.configs == (req.configs == Some(true))
            &&& x.named_collections == (req.named_collections == Some(true))
            &&& x.skip_empty_tables == (req.skip_empty_tables == Some(true))
            &&& if req.database_mapping is Some && req.database_mapping->0@.len() > 0 {
                mapping is Ok && opt_pairs(x.database_mapping) == opt_pairs(Some(mapping->Ok_0))
            } else {
                x.database_mapping is None
            }
            &&& x.resume == match req.resume {
                Some(b) => b,
                None => config.use_resumable_state,
            }
            &&& opt_text(s.lock_name) == Some(name@)
        }),
        r matches Ok(s) ==> s.response.id == old(state)@.log.next_id && s.response.status@
            == "started"@,
        r matches Ok(s) ==> final(state)@.running.len() == old(state)@.running.len() + 1,
        r matches Ok(s) ==> final(state)@.running.last().id == s.response.id,
        r matches Ok(s) ==> final(state)@.running.last().backup_name == opt_text(s.lock_name),
        r is Err ==> final(state)@.running == old(state)@.running,
        r matches Err(e) ==> e.0 == 400 || e.0 == 423,
{
    match check_name(name) {
        Err(e) => {
            return Err(e);
        },
        Ok(_) => {},
    }
    if is_on(req.schema) && is_on(req.data_only) {
        return Err(refusal(400, "schema and data_only are mutually exclusive".to_string()));
    }
    let database_mapping = match read_mapping(&req.database_mapping, mapping) {
        Err(e) => {
            return Err(e);
        },
        Ok(m) => m,
    };
    let work = Work::Restore(
        RestoreCall {
            backup_name: name.to_string(),
            tables: req.tables,
            schema_only: is_on(req.schema),
            data_only: is_on(req.data_only),
            rm: is_on(req.rm),
            resume: switch_or(req.resume, config.use_resumable_state),
            rename_as: req.rename_as,
            database_mapping,
            rbac: is_on(req.rbac),
            configs: is_on(req.configs),
            named_collections: is_on(req.named_collections),
            partitions: req.partitions,
            skip_empty_tables: is_on(req.skip_empty_tables),
        },
    );
    run_operation(state, "restore", Some(name.to_string()), work, false, now)
}

/// What a request to make a backup and upload it does.
pub open spec fn create_remote_work(
    req: CreateRemoteRequest,
    name: Seq<char>,
    config: OperationConfig,
) -> WorkModel {
    WorkModel::CreateRemote(
        CreateModel {
            backup_name: name,
            tables: opt_text(req.tables),
            schema_only: false,
            diff_from: None,
            partitions: None,
            skip_check_parts_columns: on(req.skip_check_parts_columns),
            rbac: on(req.rbac),
            configs: on(req.configs),
            named_collections: on(req.named_collections),
            skip_projections: projections(
                req.skip_projections,
                config.skip_projections.deep_view(),
            ),
        },
        UploadModel {
            backup_name: name,
            delete_local: on(req.delete_source),
            diff_from_remote: opt_text(req.diff_from_remote),
            resume: or_config(req.resume, config.use_resumable_state),
        },
    )
}

/// A request to make a backup and upload it.
pub fn create_remote(
    state: &mut AppState,
    req: CreateRemoteRequest,
    generated: &str,
    config: &OperationConfig,
    now: Timestamp,
) -> (r: Result<Started, Refusal>)
    requires
        old(state)@.well_formed(),
        old(state)@.log.next_id < u64::MAX,
    ensures
        final(state)@.well_formed(),
        match new_name_refusal(req.backup_name) {
            Some(fault) => refused(old(state)@, final(state)@, 400, bad_name(fault), r),
            None => answered(
                old(state)@,
                final(state)@,
                "create_remote"@,
                Some(name_or(req.backup_name, generated@)),
                create_remote_work(req, name_or(req.backup_name, generated@), *config),
                true,
                now,
                r,
            ),
        },
        r matches Ok(s) ==> (s.work matches Work::CreateRemote(c, u) && {
            &&& match req.backup_name {
                Some(n) => c.backup_name@ == n@,
                None => c.backup_name@ == generated@,
            }
            &&& u.backup_name@ == c.backup_name@
            &&& opt_text(c.tables) == opt_text(req.tables)
            &&& !c.schema_only
            &&& c.diff_from is None
            &&& c.partitions is None
            &&& c.skip_check_parts_columns == (req.skip_check_parts_columns == Some(true))
            &&& c.rbac == (req.rbac == Some(true))
            &&& c.configs == (req.configs == Some(true))
            &&& c.named_collections == (req.named_collections == Some(true))
            &&& match req.skip_projections {
                Some(v) => c.skip_projections.deep_view() == v.deep_view(),
                None => c.skip_projections.deep_view() == config.skip_projections.deep_view(),
            }
            &&& u.delete_local == (req.delete_source == Some(true))
            &&& opt_text(u.diff_from_remote) == opt_text(req.diff_from_remote)
            &&& u.resume == match req.resume {
                Some(b) => b,
                None => config.use_resumable_state,
            }
            &&& opt_text(s.lock_name) == Some(c.backup_name@)
            &&& s.invalidate_cache
        }),
        r matches Ok(s) ==> s.response.id == old(state)@.log.next_id && s.response.status@
            == "started"@,
        r matches Ok(s) ==> final(state)@.running.len() == old(state)@.running.len() + 1,
        r matches Ok(s) ==> final(state)@.running.last().id == s.response.id,
        r matches Ok(s) ==> final(state)@.running.last().backup_name == opt_text(s.lock_name),
        r is Err ==> final(state)@.running == old(state)@.running,
        r matches Err(e) ==> e.0 == 400 || e.0 == 423,
{
    match check_optional_new_name(&req.backup_name) {
        Err(e) => {
            return Err(e);
        },
        Ok(_) => {},
    }
    let backup_name = name_or_generated(&req.backup_name, generated);
    let work = Work::CreateRemote(
        CreateCall {
            backup_name: backup_name.clone(),
            tables: req.tables,
            schema_only: false,
            diff_from: None,
            partitions: None,
            skip_check_parts_columns: is_on(req.skip_check_parts_columns),
            rbac: is_on(req.rbac),
            configs: is_on(req.configs),
            named_collections: is_on(req.named_collections),
            skip_projections: projections_or(req.skip_projections, config),
        },
        UploadCall {
            backup_name: backup_name.clone(),
            delete_local: is_on(req.delete_source),
            diff_from_remote: req.diff_from_remote,
            resume: switch_or(req.resume, config.use_resumable_state),
        },
    );
    run_operation(state, "create_remote", Some(backup_name), work, true, now)
}

/// What a request to download a backup and restore it does.
pub open spec fn restore_remote_work(
    req: RestoreRemoteRequest,
    name: Seq<char>,
    pairs: Option<Seq<(Seq<char>, Seq<char>)>>,
    config: OperationConfig,
) -> WorkModel {
    let resume = or_config(req.resume, config.use_resumable_state);
    WorkModel::RestoreRemote(
        DownloadModel { backup_name: name, resume, hardlink_exists_files: false },
        RestoreModel {
            backup_name: name,
            tables: opt_text(req.tables),
            schema_only: false,
            data_only: false,
            rm: on(req.rm),
            resume,
            rename_as: opt_text(req.rename_as),
            database_mapping: pairs,
            rbac: on(req.rbac),
            configs: on(req.configs),
            named_collections: on(req.named_collections),
            partitions: None,
            skip_empty_tables: on(req.skip_empty_tables),
        },
    )
}

/// A request to download a backup and restore it.
pub fn restore_remote(
    state: &mut AppState,
    name: &str,
    req: RestoreRemoteRequest,
    mapping: Result<Vec<NamedValue>, String>,
    config: &OperationConfig,
    now: Timestamp,
) -> (r: Result<Started, Refusal>)
    requires
        old(state)@.well_formed(),
        old(state)@.log.next_id < u64::MAX,
    ensures
        final(state)@.well_formed(),
        match name_fault(name@) {
            Some(fault) => refused(old(state)@, final(state)@, 400, bad_name(fault), r),
            None => match mapping_or_fault(req.database_mapping, mapping) {
                Err(error) => refused(old(state)@, final(state)@, 400, error, r),
                Ok(pairs) => answered(
                    old(state)@,
                    final(state)@,
                    "restore_remote"@,
                    Some(name@),
                    restore_remote_work(req, name@, pairs, *config),
                    false,
                    now,
                    r,
                ),
            },
        },
        r matches Ok(s) ==> (s.work matches Work::RestoreRemote(d, x) && {
            &&& d.backup_name@ == name@
            &&& x.backup_name@ == name@
            &&& !d.hardlink_exists_files
            &&& d.resume == x.resume
            &&& !x.schema_only
            &&& !x.data_only
            &&& x.partitions is None
            &&& opt_text(x.tables) == opt_text(req.tables)
            &&& x.rm == (req.rm == Some(true))
            &&& opt_text(x.rename_as) == opt_text(req.rename_as)
            &&& x.rbac == (req.rbac == Some(true))
            &&& x.configs == (req.configs == Some(true))
            &&& x.named_collections == (req.named_collections == Some(true))
            &&& x.skip_empty_tables == (req.skip_empty_tables == Some(true))
            &&& if req.database_mapping is Some && req.database_mapping->0@.len() > 0 {
                mapping is Ok && opt_pairs(x.database_mapping) == opt_pairs(Some(mapping->Ok_0))
            } else {
                x.database_mapping is None
            }
            &&& x.resume == match req.resume {
                Some(b) => b,
                None => config.use_resumable_state,
            }
            &&& opt_text(s.lock_name) == Some(name@)
        }),
        r matches Ok(s) ==> s.response.id == old(state)@.log.next_id && s.response.status@
            == "started"@,
        r matches Ok(s) ==> final(state)@.running.len() == old(state)@.running.len() + 1,
        r matches Ok(s) ==> final(state)@.running.last().id == s.response.id,
        r matches Ok(s) ==> final(state)@.running.last().backup_name == opt_text(s.lock_name),
        r is Err ==> final(state)@.running == old(state)@.running,
        r matches Err(e) ==> e.0 == 400 || e.0 == 423,
{
    match check_name(name) {
        Err(e) => {
            return Err(e);
        },
        Ok(_) => {},
    }
    let database_mapping = match read_mapping(&req.database_mapping, mapping) {
        Err(e) => {
            return Err(e);
        },
        Ok(m) => m,
    };
    let resume = switch_or(req.resume, config.use_resumable_state);
    let work = Work::RestoreRemote(
        DownloadCall { backup_name: name.to_string(), resume, hardlink_exists_files: false },
        RestoreCall {
            backup_name: name.to_string(),
            tables: req.tables,
            schema_only: false,
            data_only: false,
            rm: is_on(req.rm),
            resume,
            rename_as: req.rename_as,
            database_mapping,
            rbac: is_on(req.rbac),
            configs: is_on(req.configs),
            named_collections: is_on(req.named_collections),
            partitions: None,
            skip_empty_tables: is_on(req.skip_empty_tables),
        },
    );
    run_operation(state, "restore_remote", Some(name.to_string()), work, false, now)
}

/// A request to delete a backup.
pub fn delete_backup(state: &mut AppState, location: &str, name: &str, now: Timestamp) -> (r: Result<
    Started,
    Refusal,
>)
    requires
        old(state)@.well_formed(),
        old(state)@.log.next_id < u64::MAX,
    ensures
        final(state)@.well_formed(),
        match name_fault(name@) {
            Some(fault) => refused(old(state)@, final(state)@, 400, bad_name(fault), r),
            None => if location@ == "local"@ {
                answered(
                    old(state)@,
                    final(state)@,
                    "delete"@,
                    Some(name@),
                    WorkModel::DeleteLocal(name@),
                    false,
                    now,
                    r,
                )
            } else if location@ == "remote"@ {
                answered(
                    old(state)@,
                    final(state)@,
                    "delete"@,
                    Some(name@),
                    WorkModel::DeleteRemote(name@),
                    true,
                    now,
                    r,
                )
            } else {
                refused(
                    old(state)@,
                    final(state)@,
                    400,
                    "invalid location '"@ + location@ + "': expected 'local' or 'remote'"@,
                    r,
                )
            },
        },
        r matches Ok(s) ==> match s.work {
            Work::DeleteLocal(n) => location@ == "local"@ && n@ == name@ && !s.invalidate_cache,
            Work::DeleteRemote(n) => location@ == "remote"@ && n@ == name@ && s.invalidate_cache,
            _ => false,
        },
        r matches Ok(s) ==> opt_text(s.lock_name) == Some(name@),
        r matches Ok(s) ==> s.response.id == old(state)@.log.next_id && s.response.status@
            == "started"@,
        r matches Ok(s) ==> final(state)@.running.len() == old(state)@.running.len() + 1,
        r matches Ok(s) ==> final(state)@.running.last().id == s.response.id,
        r matches Ok(s) ==> final(state)@.running.last().backup_name == opt_text(s.lock_name),
        r is Err ==> final(state)@.running == old(state)@.running,
        r matches Err(e) ==> e.0 == 400 || e.0 == 423,
{
    match check_name(name) {
        Err(e) => {
            return Err(e);
        },
        Ok(_) => {},
    }
    let (work, invalidate): (Work, bool) = match parse_location(location) {
        Err(e) => {
            return Err(e);
        },
        Ok(Location::Local) => (Work::DeleteLocal(name.to_string()), false),
        Ok(Location::Remote) => (Work::DeleteRemote(name.to_string()), true),
    };
    run_operation(state, "delete", Some(name.to_string()), work, invalidate, now)
}

/// A request to delete the broken remote backups.
pub fn clean_remote_broken(state: &mut AppState, now: Timestamp) -> (r: Result<Started, Refusal>)
    requires
        old(state)@.well_formed(),
        old(state)@.log.next_id < u64::MAX,
    ensures
        final(state)@.well_formed(),
        answered(
            old(state)@,
            final(state)@,
            "clean_broken_remote"@,
            None,
            WorkModel::CleanBrokenRemote,
            true,
            now,
            r,
        ),
        r matches Ok(s) ==> s.work is CleanBrokenRemote && s.lock_name is None && s.invalidate_cache,
        r matches Ok(s) ==> s.response.id == old(state)@.log.next_id && s.response.status@
            == "started"@,
        r matches Ok(s) ==> final(state)@.running.len() == old(state)@.running.len() + 1,
        r matches Ok(s) ==> final(state)@.running.last().id == s.response.id,
        r matches Ok(s) ==> final(state)@.running.last().backup_name == opt_text(s.lock_name),
        r is Err ==> final(state)@.running == old(state)@.running,
        r matches Err(e) ==> e.0 == 400 || e.0 == 423,
{
    run_operation(state, "clean_broken_remote", None, Work::CleanBrokenRemote, true, now)
}

/// A request to delete the broken local backups.
pub fn clean_local_broken(state: &mut AppState, now: Timestamp) -> (r: Result<Started, Refusal>)
    requires
        old(state)@.well_formed(),
        old(state)@.log.next_id < u64::MAX,
    ensures
        final(state)@.well_formed(),
        answered(
            old(state)@,
            final(state)@,
            "clean_broken_local"@,
            None,
            WorkModel::CleanBrokenLocal,
            false,
            now,
            r,
        ),
        r matches Ok(s) ==> s.work is CleanBrokenLocal && s.lock_name is None && !s.invalidate_cache,
        r matches Ok(s) ==> s.response.id == old(state)@.log.next_id && s.response.status@
            == "started"@,
        r matches Ok(s) ==> final(state)@.running.len() == old(state)@.running.len() + 1,
        r matches Ok(s) ==> final(state)@.running.last().id == s.response.id,
        r matches Ok(s) ==> final(state)@.running.last().backup_name == opt_text(s.lock_name),
        r is Err ==> final(state)@.running == old(state)@.running,
        r matches Err(e) ==> e.0 == 400 || e.0 == 423,
{
    run_operation(state, "clean_broken_local", None, Work::CleanBrokenLocal, false, now)
}

/// A request to delete what interrupted backups left behind.
pub fn clean(state: &mut AppState, now: Timestamp) -> (r: Result<Started, Refusal>)
    requires
        old(state)@.well_formed(),
        old(state)@.log.next_id < u64::MAX,
    ensures
        final(state)@.well_formed(),
        answered(
            old(state)@,
            final(state)@,
            "clean"@,
            None,
            WorkModel::CleanShadow,
            false,
            now,
            r,
        ),
        r matches Ok(s) ==> s.work is CleanShadow && s.lock_name is None && !s.invalidate_cache,
        r matches Ok(s) ==> s.response.id == old(state)@.log.next_id && s.response.status@
            == "started"@,
        r matches Ok(s) ==> final(state)@.running.len() == old(state)@.running.len() + 1,
        r matches Ok(s) ==> final(state)@.running.last().id == s.response.id,
        r matches Ok(s) ==> final(state)@.running.last().backup_name == opt_text(s.lock_name),
        r is Err ==> final(state)@.running == old(state)@.running,
        r matches Err(e) ==> e.0 == 400 || e.0 == 423,
{
    run_operation(state, "clean", None, Work::CleanShadow, false, now)
}

// ---------------------------------------------------------------------------
// Commands
// ---------------------------------------------------------------------------

/// The operations that can be posted as a command.
pub open spec fn known_operation(op: Seq<char>) -> bool {
    op == "create"@ || op == "upload"@ || op == "download"@ || op == "restore"@ || op
        == "create_remote"@ || op == "restore_remote"@ || op == "delete"@ || op
        == "clean_broken"@
}

/// The commands whose arguments are told by their places.
pub open spec fn positional(op: Seq<char>) -> bool {
    op == "delete"@ || op == "clean_broken"@
}

/// The operation that a command asks for: its first word.
pub open spec fn operation_of(w: Seq<Seq<char>>) -> Seq<char> {
    if w.len() > 0 {
        w[0]
    } else {
        Seq::empty()
    }
}

/// The word at a place, if there is one.
pub open spec fn word_at(w: Seq<Seq<char>>, i: int) -> Option<Seq<char>> {
    if 0 <= i < w.len() {
        Some(w[i])
    } else {
        None
    }
}

/// The flags of a command.
pub open spec fn command_flags(w: Seq<Seq<char>>) -> FlagsModel {
    if positional(operation_of(w)) {
        FlagsModel { backup_name: word_at(w, 1), ..no_flags() }
    } else {
        parsed_flags(w)
    }
}

/// Why an optional name is none, if it is none.
pub open spec fn opt_name_fault(o: Option<Seq<char>>) -> Option<Seq<char>> {
    match o {
        Some(n) => name_fault(n),
        None => None,
    }
}

/// A command to delete that names a place and no backup.
pub open spec fn delete_without_name(w: Seq<Seq<char>>) -> bool {
    operation_of(w) == "delete"@ && w.len() == 2 && (w[1] == "local"@ || w[1] == "remote"@)
}

/// Why a command is refused, if it is.
pub open spec fn command_fault(w: Seq<Seq<char>>) -> Option<Seq<char>> {
    let op = operation_of(w);
    let name = command_flags(w).backup_name;
    if !known_operation(op) {
        Some("unknown command: '"@ + op + "'"@)
    } else if opt_name_fault(name) is Some {
        Some(bad_name(opt_name_fault(name)->0))
    } else if delete_without_name(w) {
        Some("delete: missing backup name (usage: delete [local|remote] <name>)"@)
    } else if op == "delete"@ && opt_name_fault(word_at(w, 2)) is Some {
        Some(bad_name(opt_name_fault(word_at(w, 2))->0))
    } else if (op == "create"@ || op == "create_remote"@) && (name matches Some(n)
        && reserved_name(n)) {
        Some(
            bad_name(
                "backup name must not be a reserved shortcut ('latest' or 'previous')"@,
            ),
        )
    } else {
        None
    }
}

/// The backup that no other operation may work on while the command runs.
pub open spec fn locked_name(w: Seq<Seq<char>>) -> Option<Seq<char>> {
    if operation_of(w) == "delete"@ {
        match word_at(w, 2) {
            Some(n) => Some(n),
            None => word_at(w, 1),
        }
    } else {
        command_flags(w).backup_name
    }
}

/// A command that was read and not refused.
#[derive(Debug)]
pub struct ActionPlan {
    pub words: Vec<String>,
    pub flags: ActionFlags,
    pub locked_name: Option<String>,
}

/// The word at a place, if there is one.
fn word(w: &Vec<String>, i: usize) -> (r: Option<String>)
    ensures
        opt_text(r) == word_at(w.deep_view(), i as int),
{
    if i < w.len() {
        Some(w[i].clone())
    } else {
        None
    }
}

/// The operation that a command asks for.
fn operation(w: &Vec<String>) -> (r: String)
    ensures
        r@ == operation_of(w.deep_view()),
{
    if w.len() > 0 {
        w[0].clone()
    } else {
        String::new()
    }
}

/// Whether an operation can be posted as a command.
fn is_known(op: &str) -> (r: bool)
    ensures
        r == known_operation(op@),
{
    same(op, "create") || same(op, "upload") || same(op, "download") || same(op, "restore")
        || same(op, "create_remote") || same(op, "restore_remote") || same(op, "delete") || same(
        op,
        "clean_broken",
    )
}

/// The words of a command, as the parser of flags takes them.
fn word_refs<'a>(w: &'a Vec<String>) -> (r: Vec<&'a str>)
    ensures
        arg_texts(r@) == w.deep_view(),
{
    let mut out: Vec<&'a str> = Vec::new();
    let mut i: usize = 0;
    while i < w.len()
        invariant
            i <= w@.len(),
            out@.len() == i,
            forall|j: int| 0 <= j < i ==> (#[trigger] out@[j])@ == w@[j]@,
        decreases w@.len() - i,
    {
        out.push(w[i].as_str());
        i += 1;
    }
    assert(arg_texts(out@) =~= w.deep_view());
    out
}

/// Refuses an optional name that is none.
fn check_optional_name(o: &Option<String>) -> (r: Result<(), Refusal>)
    ensures
        match opt_name_fault(opt_text(*o)) {
            Some(fault) => r matches Err(e) && refuses(e, 400, bad_name(fault)),
            None => r is Ok,
        },
{
    match o {
        Some(n) => check_name(n.as_str()),
        None => Ok(()),
    }
}

/// Reads a command, and refuses it where it is none.
pub fn plan_action(command: &str) -> (r: Result<ActionPlan, Refusal>)
    ensures
        match command_fault(words(command@)) {
            Some(error) => r matches Err(e) && refuses(e, 400, error),
            None => r matches Ok(p) && {
                &&& p.words.deep_view() == words(command@)
                &&& p.flags@ == command_flags(words(command@))
                &&& opt_text(p.locked_name) == locked_name(words(command@))
            },
        },
        r matches Ok(p) ==> p.words.deep_view() == words(command@) && p.words@.len() > 0,
        r matches Ok(p) ==> (p.words@[0]@ != "delete"@ ==> opt_text(p.locked_name) == opt_text(
            p.flags.backup_name,
        )),
        r matches Ok(p) ==> (p.words@[0]@ == "delete"@ && p.words@.len() >= 3 ==> opt_text(
            p.locked_name,
        ) == Some(p.words@[2]@)),
        r matches Ok(p) ==> (p.words@[0]@ == "delete"@ && p.words@.len() == 2 ==> opt_text(
            p.locked_name,
        ) == Some(p.words@[1]@)),
        r matches Err(e) ==> e.0 == 400,
{
    proof {
        reveal_strlit("create");
        reveal_strlit("upload");
        reveal_strlit("download");
        reveal_strlit("restore");
        reveal_strlit("create_remote");
        reveal_strlit("restore_remote");
        reveal_strlit("delete");
        reveal_strlit("clean_broken");
        assert("create"@.len() == 6 && "upload"@.len() == 6 && "download"@.len() == 8
            && "restore"@.len() == 7 && "create_remote"@.len() == 13 && "restore_remote"@.len()
            == 14 && "delete"@.len() == 6 && "clean_broken"@.len() == 12);
    }
    let w = words_of(command);
    let op = operation(&w);
    if !is_known(op.as_str()) {
        return Err(
            refusal(400, "unknown command: '".to_string().concat(op.as_str()).concat("'")),
        );
    }
    let is_delete = same(op.as_str(), "delete");
    let flags = if is_delete || same(op.as_str(), "clean_broken") {
        let mut f = empty_flags();
        f.backup_name = word(&w, 1);
        f
    } else {
        let refs = word_refs(&w);
        parse_action_flags(refs.as_slice())
    };
    match check_optional_name(&flags.backup_name) {
        Err(e) => {
            return Err(e);
        },
        Ok(_) => {},
    }
    if is_delete {
        if w.len() == 2 && (same(w[1].as_str(), "local") || same(w[1].as_str(), "remote")) {
            return Err(
                refusal(
                    400,
                    "delete: missing backup name (usage: delete [local|remote] <name>)".to_string(),
                ),
            );
        }
        match check_optional_name(&word(&w, 2)) {
            Err(e) => {
                return Err(e);
            },
            Ok(_) => {},
        }
    }
    if same(op.as_str(), "create") || same(op.as_str(), "create_remote") {
        if let Some(name) = &flags.backup_name {
            match check_new_name(name.as_str()) {
                Err(e) => {
                    return Err(e);
                },
                Ok(_) => {},
            }
        }
    }
    let locked_name: Option<String> = if is_delete {
        match word(&w, 2) {
            Some(n) => Some(n),
            None => word(&w, 1),
        }
    } else {
        flags.backup_name.clone()
    };
    Ok(ActionPlan { words: w, flags, locked_name })
}

/// A command that is posted: it is refused, or its operation is started if the state lets
/// it.
pub fn post_actions(state: &mut AppState, command: &str, now: Timestamp) -> (r: Result<
    (OperationStarted, ActionPlan),
    Refusal,
>)
    requires
        old(state)@.well_formed(),
        old(state)@.log.next_id < u64::MAX,
    ensures
        final(state)@.well_formed(),
        ({
            let w = words(command@);
            match command_fault(w) {
                Some(error) => final(state)@ == old(state)@ && (r matches Err(e) && refuses(
                    e,
                    400,
                    error,
                )),
                None => {
                    &&& final(state)@ == old(state)@.after_start(
                        operation_of(w),
                        locked_name(w),
                        now,
                    )
                    &&& match old(state)@.start_answer(locked_name(w)) {
                        Ok(id) => r matches Ok(s) && {
                            &&& s.0.id == id
                            &&& s.0.status@ == "started"@
                            &&& s.1.words.deep_view() == w
                            &&& s.1.flags@ == command_flags(w)
                            &&& opt_text(s.1.locked_name) == locked_name(w)
                        },
                        Err(error) => r matches Err(e) && refuses(e, 423, error),
                    }
                },
            }
        }),
        r matches Ok(s) ==> {
            &&& s.0.id == old(state)@.log.next_id
            &&& final(state)@.running.len() == old(state)@.running.len() + 1
            &&& final(state)@.running.last().id == s.0.id
            &&& final(state)@.running.last().command == words(command@)[0]
            &&& final(state)@.running.last().backup_name == opt_text(s.1.locked_name)
        },
        r is Err ==> final(state)@.running == old(state)@.running,
        r matches Err(e) ==> e.0 == 400 || e.0 == 423,
{
    let plan = match plan_action(command) {
        Ok(p) => p,
        Err(e) => {
            return Err(e);
        },
    };
    let op = operation(&plan.words);
    match state.try_start_op_at(op.as_str(), plan.locked_name.clone(), now) {
        Ok(id) => Ok((OperationStarted { id, status: "started".to_string() }, plan)),
        Err(e) => Err(refusal(423, e.to_string())),
    }
}

/// What a local backup that a command makes looks like.
pub open spec fn command_create(
    f: FlagsModel,
    name: Seq<char>,
    skip_projections: Seq<Seq<char>>,
) -> CreateModel {
    CreateModel {
        backup_name: name,
        tables: f.table_pattern,
        schema_only: false,
        diff_from: None,
        partitions: None,
        skip_check_parts_columns: false,
        rbac: f.rbac,
        configs: f.configs,
        named_collections: false,
        skip_projections,
    }
}

/// What an upload that a command makes looks like.
pub open spec fn command_upload(f: FlagsModel, name: Seq<char>, resume: bool) -> UploadModel {
    UploadModel {
        backup_name: name,
        delete_local: false,
        diff_from_remote: f.diff_from_remote,
        resume,
    }
}

/// What a restore that a command makes looks like.
pub open spec fn command_restore(f: FlagsModel, name: Seq<char>, resume: bool) -> RestoreModel {
    RestoreModel {
        backup_name: name,
        tables: f.table_pattern,
        schema_only: false,
        data_only: false,
        rm: f.rm,
        resume,
        rename_as: f.rename_as,
        database_mapping: None,
        rbac: f.rbac,
        configs: f.configs,
        named_collections: false,
        partitions: None,
        skip_empty_tables: false,
    }
}

/// What a command to delete does: it deletes the backup that its third word names, in the
/// place that its second word names, or else the given backup in the remote place.
pub open spec fn deletion(w: Seq<Seq<char>>, name: Seq<char>) -> WorkModel {
    let location = if w.len() >= 3 {
        w[1]
    } else {
        "remote"@
    };
    let target = if w.len() >= 3 {
        w[2]
    } else {
        name
    };
    if location == "local"@ {
        WorkModel::DeleteLocal(target)
    } else if location == "remote"@ {
        WorkModel::DeleteRemote(target)
    } else {
        WorkModel::Refuse(
            "delete: invalid location '"@ + location + "' (must be 'local' or 'remote')"@,
        )
    }
}

/// What a command does, given its words and flags and the name of a backup for a command
/// without one.
pub open spec fn command_work(
    w: Seq<Seq<char>>,
    f: FlagsModel,
    generated: Seq<char>,
    skip_projections: Seq<Seq<char>>,
    resume: bool,
) -> WorkModel {
    let op = operation_of(w);
    let name = match f.backup_name {
        Some(n) => n,
        None => generated,
    };
    if op == "create"@ {
        WorkModel::Create(command_create(f, name, skip_projections))
    } else if op == "upload"@ {
        WorkModel::Upload(command_upload(f, name, resume))
    } else if op == "download"@ {
        WorkModel::Download(
            DownloadModel { backup_name: name, resume, hardlink_exists_files: false },
        )
    } else if op == "restore"@ {
        WorkModel::Restore(command_restore(f, name, resume))
    } else if op == "create_remote"@ {
        WorkModel::CreateRemote(
            command_create(f, name, skip_projections),
            command_upload(f, name, resume),
        )
    } else if op == "restore_remote"@ {
        WorkModel::RestoreRemote(
            DownloadModel { backup_name: name, resume, hardlink_exists_files: false },
            command_restore(f, name, resume),
        )
    } else if op == "delete"@ {
        deletion(w, name)
    } else if op == "clean_broken"@ {
        if word_at(w, 1) == Some("local"@) {
            WorkModel::CleanBrokenLocal
        } else if word_at(w, 1) == Some("remote"@) {
            WorkModel::CleanBrokenRemote
        } else {
            WorkModel::CleanBrokenBoth
        }
    } else {
        WorkModel::Refuse("unknown command: "@ + op)
    }
}

/// A local backup that a command makes.
fn create_call(flags: &ActionFlags, name: &str, config: &OperationConfig) -> (r: CreateCall)
    ensures
        r@ == command_create(flags@, name@, config.skip_projections.deep_view()),
        r.backup_name@ == name@,
        opt_text(r.tables) == opt_text(flags.table_pattern),
        r.rbac == flags.rbac,
        r.configs == flags.configs,
        r.skip_projections.deep_view() == config.skip_projections.deep_view(),
        !r.schema_only,
        !r.skip_check_parts_columns,
        !r.named_collections,
        r.diff_from is None,
        r.partitions is None,
{
    let skip_projections = config.skip_projections.clone();
    assert(skip_projections.deep_view() =~= config.skip_projections.deep_view());
    CreateCall {
        backup_name: name.to_string(),
        tables: flags.table_pattern.clone(),
        schema_only: false,
        diff_from: None,
        partitions: None,
        skip_check_parts_columns: false,
        rbac: flags.rbac,
        configs: flags.configs,
        named_collections: false,
        skip_projections,
    }
}

/// An upload that a command makes.
fn upload_call(flags: &ActionFlags, name: &str, config: &OperationConfig) -> (r: UploadCall)
    ensures
        r@ == command_upload(flags@, name@, config.use_resumable_state),
        r.backup_name@ == name@,
        opt_text(r.diff_from_remote) == opt_text(flags.diff_from_remote),
        r.resume == config.use_resumable_state,
        !r.delete_local,
{
    UploadCall {
        backup_name: name.to_string(),
        delete_local: false,
        diff_from_remote: flags.diff_from_remote.clone(),
        resume: config.use_resumable_state,
    }
}

/// A restore that a command makes.
fn restore_call(flags: &ActionFlags, name: &str, config: &OperationConfig) -> (r: RestoreCall)
    ensures
        r@ == command_restore(flags@, name@, config.use_resumable_state),
        r.backup_name@ == name@,
        opt_text(r.tables) == opt_text(flags.table_pattern),
        opt_text(r.rename_as) == opt_text(flags.rename_as),
        r.rm == flags.rm,
        r.rbac == flags.rbac,
        r.configs == flags.configs,
        r.resume == config.use_resumable_state,
        !r.schema_only,
        !r.data_only,
        !r.named_collections,
        !r.skip_empty_tables,
        r.database_mapping is None,
        r.partitions is None,
{
    RestoreCall {
        backup_name: name.to_string(),
        tables: flags.table_pattern.clone(),
        schema_only: false,
        data_only: false,
        rm: flags.rm,
        resume: config.use_resumable_state,
        rename_as: flags.rename_as.clone(),
        database_mapping: None,
        rbac: flags.rbac,
        configs: flags.configs,
        named_collections: false,
        partitions: None,
        skip_empty_tables: false,
    }
}

/// What a command to delete does.
fn delete_work(w: &Vec<String>, name: &str) -> (r: Work)
    ensures
        r@ == deletion(w.deep_view(), name@),
{
    let (location, target): (String, String) = if w.len() >= 3 {
        (w[1].clone(), w[2].clone())
    } else {
        ("remote".to_string(), name.to_string())
    };
    if same(location.as_str(), "local") {
        Work::DeleteLocal(target)
    } else if same(location.as_str(), "remote") {
        Work::DeleteRemote(target)
    } else {
        Work::Refuse(
            "delete: invalid location '".to_string().concat(location.as_str()).concat(
                "' (must be 'local' or 'remote')",
            ),
        )
    }
}

/// What a command does. `generated` is the name of a backup for a command without one.
pub fn action_work(plan: &ActionPlan, generated: &str, config: &OperationConfig) -> (r: Work)
    ensures
        r@ == command_work(
            plan.words.deep_view(),
            plan.flags@,
            generated@,
            config.skip_projections.deep_view(),
            config.use_resumable_state,
        ),
        plan.words@.len() > 0 ==> {
            let op = plan.words@[0]@;
            let name = match plan.flags.backup_name {
                Some(n) => n@,
                None => generated@,
            };
            let tables = opt_text(plan.flags.table_pattern);
            &&& op == "create"@ ==> (r matches Work::Create(c) && c.backup_name@ == name
                && opt_text(c.tables) == tables && c.rbac == plan.flags.rbac && c.configs
                == plan.flags.configs)
            &&& op == "upload"@ ==> (r matches Work::Upload(u) && u.backup_name@ == name
                && opt_text(u.diff_from_remote) == opt_text(plan.flags.diff_from_remote)
                && u.resume == config.use_resumable_state)
            &&& op == "download"@ ==> (r matches Work::Download(d) && d.backup_name@ == name
                && d.resume == config.use_resumable_state)
            &&& op == "restore"@ ==> (r matches Work::Restore(x) && x.backup_name@ == name
                && opt_text(x.tables) == tables && opt_text(x.rename_as) == opt_text(
                plan.flags.rename_as,
            ) && x.rm == plan.flags.rm && x.rbac == plan.flags.rbac && x.configs
                == plan.flags.configs && x.resume == config.use_resumable_state)
            &&& op == "create_remote"@ ==> (r matches Work::CreateRemote(c, u) && c.backup_name@
                == name && u.backup_name@ == name && opt_text(c.tables) == tables && c.rbac
                == plan.flags.rbac && c.configs == plan.flags.configs && opt_text(
                u.diff_from_remote,
            ) == opt_text(plan.flags.diff_from_remote))
            &&& op == "restore_remote"@ ==> (r matches Work::RestoreRemote(d, x) && d.backup_name@
                == name && x.backup_name@ == name && opt_text(x.tables) == tables && opt_text(
                x.rename_as,
            ) == opt_text(plan.flags.rename_as) && x.rm == plan.flags.rm && x.rbac
                == plan.flags.rbac && x.configs == plan.flags.configs)
        },
{
    proof {
        crate::server::commands::lemma_operations_differ();
    }
    let op = operation(&plan.words);
    let name = name_or_generated(&plan.flags.backup_name, generated);
    let flags = &plan.flags;
    let resume = config.use_resumable_state;
    if same(op.as_str(), "create") {
        Work::Create(create_call(flags, name.as_str(), config))
    } else if same(op.as_str(), "upload") {
        Work::Upload(upload_call(flags, name.as_str(), config))
    } else if same(op.as_str(), "download") {
        Work::Download(DownloadCall { backup_name: name, resume, hardlink_exists_files: false })
    } else if same(op.as_str(), "restore") {
        Work::Restore(restore_call(flags, name.as_str(), config))
    } else if same(op.as_str(), "create_remote") {
        Work::CreateRemote(
            create_call(flags, name.as_str(), config),
            upload_call(flags, name.as_str(), config),
        )
    } else if same(op.as_str(), "restore_remote") {
        let restore = restore_call(flags, name.as_str(), config);
        Work::RestoreRemote(
            DownloadCall { backup_name: name, resume, hardlink_exists_files: false },
            restore,
        )
    } else if same(op.as_str(), "delete") {
        delete_work(&plan.words, name.as_str())
    } else if same(op.as_str(), "clean_broken") {
        match word(&plan.words, 1) {
            Some(location) => if same(location.as_str(), "local") {
                Work::CleanBrokenLocal
            } else if same(location.as_str(), "remote") {
                Work::CleanBrokenRemote
            } else {
                Work::CleanBrokenBoth
            },
            None => Work::CleanBrokenBoth,
        }
    } else {
        Work::Refuse("unknown command: ".to_string().concat(op.as_str()))
    }
}

/// The backup that no other process may work on while a command runs: the one that no other
/// operation may work on, or else the one with the name that was made up.
pub fn action_lock_name(plan: &ActionPlan, generated: &str) -> (r: String)
    ensures
        r@ == match opt_text(plan.locked_name) {
            Some(n) => n,
            None => generated@,
        },
{
    name_or_generated(&plan.locked_name, generated)
}

/// The commands after which the list of remote backups is to be read anew.
pub fn action_invalidates_cache(op: &str) -> (r: bool)
    ensures
        r == (op@ == "upload"@ || op@ == "create_remote"@ || op@ == "delete"@ || op@
            == "clean_broken"@),
{
    same(op, "upload") || same(op, "create_remote") || same(op, "delete") || same(
        op,
        "clean_broken",
    )
}

/// The outcome of deleting the broken backups of both places: an error where either of
/// them failed, that of the remote one first, and one that tells of both where both did.
pub fn clean_both_outcome(remote: Result<(), String>, local: Result<(), String>) -> (r: Result<
    (),
    String,
>)
    ensures
        match (remote, local) {
            (Ok(_), Ok(_)) => r is Ok,
            (Err(a), Err(b)) => r matches Err(e) && e@
                == "Both remote and local clean_broken failed: remote: "@ + a@ + "; local: "@
                + b@,
            (Err(a), Ok(_)) => r matches Err(e) && e@ == a@,
            (Ok(_), Err(b)) => r matches Err(e) && e@ == b@,
        },
{
    match (remote, local) {
        (Ok(_), Ok(_)) => Ok(()),
        (Err(a), Err(b)) => Err(
            "Both remote and local clean_broken failed: remote: ".to_string().concat(
                a.as_str(),
            ).concat("; local: ").concat(b.as_str()),
        ),
        (Err(a), Ok(_)) => Err(a),
        (Ok(_), Err(b)) => Err(b),
    }
}

/// A command never starts a new backup under a name that stands for another, nor any
/// operation on a name that is none.
pub proof fn law_commands_respect_names(w: Seq<Seq<char>>)
    requires
        command_fault(w) is None,
    ensures
        opt_name_fault(locked_name(w)) is None,
        operation_of(w) == "create"@ || operation_of(w) == "create_remote"@ ==> (
        command_flags(w).backup_name matches Some(n) ==> !reserved_name(n)),
{
}

} // verus!
