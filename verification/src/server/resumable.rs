//! What is resumed after a restart of the server.

use vstd::prelude::*;

use crate::manifest::{entry_models, NamedValue};
use crate::server::calls::{
    DownloadCall, DownloadModel, RestoreCall, RestoreModel, UploadCall, UploadModel, Work,
    WorkModel,
};
use crate::server::state::{name_fault, validate_backup_name, AppState, StateModel};
use crate::text::{opt_text, same};
use crate::time::Timestamp;

verus! {

/// An operation that was interrupted.
#[derive(Debug, Clone)]
pub struct ResumableOp {
    pub backup_name: String,
    /// "upload", "download" or "restore".
    pub op_type: String,
}

/// What a contract says of an operation that was interrupted.
#[verifier::ext_equal]
pub struct ResumableModel {
    pub backup_name: Seq<char>,
    pub op_type: Seq<char>,
}

impl View for ResumableOp {
    type V = ResumableModel;

    open spec fn view(&self) -> ResumableModel {
        ResumableModel { backup_name: self.backup_name@, op_type: self.op_type@ }
    }
}

/// The models of a list of interrupted operations.
pub open spec fn resumable_models(v: Seq<ResumableOp>) -> Seq<ResumableModel> {
    Seq::new(v.len(), |i: int| v[i]@)
}

/// An entry of the directory of the local backups, and which state files it holds.
#[derive(Debug)]
pub struct BackupDirEntry {
    /// The name of the entry, if it is text.
    pub name: Option<String>,
    pub is_dir: bool,
    /// It holds `upload.state.json`.
    pub has_upload_state: bool,
    /// It holds `download.state.json`.
    pub has_download_state: bool,
    /// It holds `restore.state.json`.
    pub has_restore_state: bool,
}

/// The entry is the directory of a backup.
pub open spec fn backup_dir(e: BackupDirEntry) -> bool {
    e.is_dir && (e.name matches Some(n) && name_fault(n@) is None)
}

/// The operation is in the list where the condition holds.
pub open spec fn op_if(condition: bool, name: Seq<char>, op_type: Seq<char>) -> Seq<
    ResumableModel,
> {
    if condition {
        seq![ResumableModel { backup_name: name, op_type }]
    } else {
        Seq::empty()
    }
}

/// The interrupted operations of one entry.
pub open spec fn ops_of_entry(e: BackupDirEntry) -> Seq<ResumableModel> {
    if backup_dir(e) {
        let name = e.name->0@;
        op_if(e.has_upload_state, name, "upload"@) + op_if(
            e.has_download_state,
            name,
            "download"@,
        ) + op_if(e.has_restore_state, name, "restore"@)
    } else {
        Seq::empty()
    }
}

/// The interrupted operations of the first `n` entries.
pub open spec fn ops_of_entries(entries: Seq<BackupDirEntry>, n: nat) -> Seq<ResumableModel>
    decreases n,
{
    if n == 0 {
        Seq::empty()
    } else {
        ops_of_entries(entries, (n - 1) as nat) + ops_of_entry(entries[n - 1])
    }
}

/// Adds an operation to the list.
fn push_op(ops: &mut Vec<ResumableOp>, name: &String, op_type: &str)
    ensures
        resumable_models(final(ops)@) == resumable_models(old(ops)@) + op_if(
            true,
            name@,
            op_type@,
        ),
{
    let ghost was = resumable_models(ops@);
    ops.push(ResumableOp { backup_name: name.clone(), op_type: op_type.to_string() });
    assert(resumable_models(ops@) =~= was + op_if(true, name@, op_type@));
}

/// The operations that were interrupted: for each directory whose name is that of a
/// backup, the operations whose state files it holds.
pub fn scan_resumable_state_files(entries: &Vec<BackupDirEntry>) -> (r: Vec<ResumableOp>)
    ensures
        resumable_models(r@) == ops_of_entries(entries@, entries@.len()),
{
    let mut ops: Vec<ResumableOp> = Vec::new();
    let mut i: usize = 0;
    assert(resumable_models(ops@) =~= Seq::empty());
    while i < entries.len()
        invariant
            i <= entries@.len(),
            resumable_models(ops@) == ops_of_entries(entries@, i as nat),
        decreases entries@.len() - i,
    {
        let e = &entries[i];
        let ghost was = resumable_models(ops@);
        let ghost none = Seq::<ResumableModel>::empty();
        assert(was + none =~= was);
        if e.is_dir {
            if let Some(name) = &e.name {
                if validate_backup_name(name.as_str()).is_ok() {
                    if e.has_upload_state {
                        push_op(&mut ops, name, "upload");
                    }
                    let ghost a = op_if(e.has_upload_state, name@, "upload"@);
                    assert(resumable_models(ops@) =~= was + a);
                    if e.has_download_state {
                        push_op(&mut ops, name, "download");
                    }
                    let ghost b = op_if(e.has_download_state, name@, "download"@);
                    assert(resumable_models(ops@) =~= was + a + b);
                    if e.has_restore_state {
                        push_op(&mut ops, name, "restore");
                    }
                    let ghost c = op_if(e.has_restore_state, name@, "restore"@);
                    assert(resumable_models(ops@) =~= was + (a + b + c));
                }
            }
        }
        assert(resumable_models(ops@) =~= was + ops_of_entry(entries@[i as int]));
        i += 1;
    }
    ops
}

/// Every operation that is found is on a backup with a valid name.
pub proof fn law_found_operations_have_valid_names(
    entries: Seq<BackupDirEntry>,
    n: nat,
    i: int,
)
    requires
        n <= entries.len(),
        0 <= i < ops_of_entries(entries, n).len(),
    ensures
        name_fault(ops_of_entries(entries, n)[i].backup_name) is None,
    decreases n,
{
    let before = ops_of_entries(entries, (n - 1) as nat);
    if i < before.len() {
        law_found_operations_have_valid_names(entries, (n - 1) as nat, i);
    } else {
        assert(ops_of_entries(entries, n)[i] == ops_of_entry(entries[n - 1])[i - before.len()]);
    }
}

/// The parameters that an interrupted restore left behind.
#[derive(Debug)]
pub struct RestoreParams {
    pub tables: Option<String>,
    pub schema_only: bool,
    pub data_only: bool,
    pub rename_as: Option<String>,
    pub database_mapping: Vec<NamedValue>,
    pub rbac: bool,
    pub configs: bool,
    pub named_collections: bool,
    pub partitions: Option<String>,
    pub skip_empty_tables: bool,
}

/// The restore that resumes an interrupted one: with the same parameters, but tables are
/// never dropped again.
pub open spec fn resumed_restore(backup_name: Seq<char>, p: RestoreParams) -> RestoreModel {
    RestoreModel {
        backup_name,
        tables: opt_text(p.tables),
        schema_only: p.schema_only,
        data_only: p.data_only,
        rm: false,
        resume: true,
        rename_as: opt_text(p.rename_as),
        database_mapping: if p.database_mapping@.len() == 0 {
            None
        } else {
            Some(entry_models(p.database_mapping@))
        },
        rbac: p.rbac,
        configs: p.configs,
        named_collections: p.named_collections,
        partitions: opt_text(p.partitions),
        skip_empty_tables: p.skip_empty_tables,
    }
}

/// What resumes an interrupted operation. A restore without its parameters, and an
/// operation that is not known, are not resumed.
pub open spec fn resumed_work(op: ResumableModel, params: Option<RestoreParams>) -> Option<
    WorkModel,
> {
    if op.op_type == "upload"@ {
        Some(
            WorkModel::Upload(
                UploadModel {
                    backup_name: op.backup_name,
                    delete_local: false,
                    diff_from_remote: None,
                    resume: true,
                },
            ),
        )
    } else if op.op_type == "download"@ {
        Some(
            WorkModel::Download(
                DownloadModel {
                    backup_name: op.backup_name,
                    resume: true,
                    hardlink_exists_files: false,
                },
            ),
        )
    } else if op.op_type == "restore"@ {
        match params {
            Some(p) => Some(WorkModel::Restore(resumed_restore(op.backup_name, p))),
            None => None,
        }
    } else {
        None
    }
}

/// What resumes an interrupted operation, if anything does. `enabled` is the setting that
/// operations are resumed at all; `params` are those that a restore left behind.
pub fn auto_resume(enabled: bool, op: &ResumableOp, params: Option<RestoreParams>) -> (r: Option<
    Work,
>)
    ensures
        match (if enabled {
            resumed_work(op@, params)
        } else {
            None
        }) {
            Some(work) => r matches Some(w) && w@ == work,
            None => r is None,
        },
        !enabled ==> r is None,
        enabled && op.op_type@ == "upload"@ ==> (r matches Some(Work::Upload(u))
            && u.backup_name@ == op.backup_name@ && u.resume && !u.delete_local
            && u.diff_from_remote is None),
        enabled && op.op_type@ == "download"@ ==> (r matches Some(Work::Download(d))
            && d.backup_name@ == op.backup_name@ && d.resume),
        enabled && op.op_type@ == "restore"@ && params is Some ==> (r matches Some(
            Work::Restore(x),
        ) && x.backup_name@ == op.backup_name@ && x.resume && !x.rm && opt_text(x.tables)
            == opt_text(params->0.tables) && opt_text(x.rename_as) == opt_text(
            params->0.rename_as,
        ) && opt_text(x.partitions) == opt_text(params->0.partitions) && x.schema_only
            == params->0.schema_only && x.data_only == params->0.data_only),
        op.op_type@ == "restore"@ && params is None ==> r is None,
{
    proof {
        reveal_strlit("upload");
        reveal_strlit("download");
        reveal_strlit("restore");
        assert("upload"@.len() == 6 && "download"@.len() == 8 && "restore"@.len() == 7);
    }
    if !enabled {
        return None;
    }
    let backup_name = op.backup_name.clone();
    if same(op.op_type.as_str(), "upload") {
        Some(
            Work::Upload(
                UploadCall {
                    backup_name,
                    delete_local: false,
                    diff_from_remote: None,
                    resume: true,
                },
            ),
        )
    } else if same(op.op_type.as_str(), "download") {
        Some(
            Work::Download(
                DownloadCall { backup_name, resume: true, hardlink_exists_files: false },
            ),
        )
    } else if same(op.op_type.as_str(), "restore") {
        match params {
            Some(p) => {
                let database_mapping = if p.database_mapping.len() == 0 {
                    None
                } else {
                    Some(p.database_mapping)
                };
                Some(
                    Work::Restore(
                        RestoreCall {
                            backup_name,
                            tables: p.tables,
                            schema_only: p.schema_only,
                            data_only: p.data_only,
                            rm: false,
                            resume: true,
                            rename_as: p.rename_as,
                            database_mapping,
                            rbac: p.rbac,
                            configs: p.configs,
                            named_collections: p.named_collections,
                            partitions: p.partitions,
                            skip_empty_tables: p.skip_empty_tables,
                        },
                    ),
                )
            },
            None => None,
        }
    } else {
        None
    }
}

/// The state and the operations that were started once the first `n` interrupted operations
/// were tried, in order: each that can be resumed is asked for once, under its type and its
/// backup's name, and a refusal starts nothing.
pub open spec fn after_resuming(
    m: StateModel,
    ops: Seq<ResumableModel>,
    params: Seq<Option<RestoreParams>>,
    now: Timestamp,
    n: nat,
) -> (StateModel, Seq<(u64, WorkModel)>)
    decreases n,
{
    if n == 0 {
        (m, Seq::empty())
    } else {
        let (state, started) = after_resuming(m, ops, params, now, (n - 1) as nat);
        let op = ops[n - 1];
        match resumed_work(op, params[n - 1]) {
            None => (state, started),
            Some(work) => (
                state.after_start(op.op_type, Some(op.backup_name), now),
                match state.start_answer(Some(op.backup_name)) {
                    Ok(id) => started.push((id, work)),
                    Err(_) => started,
                },
            ),
        }
    }
}

/// The identifiers and the work of a list of operations.
pub open spec fn started_models(v: Seq<(u64, Work)>) -> Seq<(u64, WorkModel)> {
    Seq::new(v.len(), |i: int| (v[i].0, v[i].1@))
}

/// Resumes the interrupted operations that were found: starts each that can be resumed and
/// that the state lets start, and returns those with their identifiers. `enabled` is the
/// setting that operations are resumed at all; `params` are those that restores left behind,
/// one for each operation.
pub fn resume_all(
    state: &mut AppState,
    enabled: bool,
    ops: &Vec<ResumableOp>,
    params: Vec<Option<RestoreParams>>,
    now: Timestamp,
) -> (r: Vec<(u64, Work)>)
    requires
        old(state)@.well_formed(),
        params@.len() == ops@.len(),
        old(state)@.log.next_id + ops@.len() <= u64::MAX,
    ensures
        final(state)@.well_formed(),
        !enabled ==> final(state)@ == old(state)@ && r@.len() == 0,
        enabled ==> (final(state)@, started_models(r@)) == after_resuming(
            old(state)@,
            resumable_models(ops@),
            params@,
            now,
            ops@.len(),
        ),
{
    let mut out: Vec<(u64, Work)> = Vec::new();
    if !enabled {
        return out;
    }
    let ghost all = params@;
    let ghost models = resumable_models(ops@);
    let ghost first = state@;
    let mut left = params;
    let mut i: usize = 0;
    assert(started_models(out@) =~= Seq::empty());
    while i < ops.len()
        invariant
            i <= ops@.len(),
            all.len() == ops@.len(),
            left@.len() == ops@.len(),
            models == resumable_models(ops@),
            forall|j: int| i <= j < ops@.len() ==> left@[j] == all[j],
            first.log.next_id + ops@.len() <= u64::MAX,
            state@.well_formed(),
            state@.log.next_id <= first.log.next_id + i,
            (state@, started_models(out@)) == after_resuming(first, models, all, now, i as nat),
        decreases ops@.len() - i,
    {
        let op = &ops[i];
        let mut p: Option<RestoreParams> = None;
        std::mem::swap(&mut left[i], &mut p);
        assert(p == all[i as int]);
        assert(models[i as int] == op@);
        let ghost was = started_models(out@);
        match auto_resume(true, op, p) {
            Some(work) => {
                let ghost model = work@;
                match state.try_start_op_at(op.op_type.as_str(), Some(op.backup_name.clone()), now) {
                    Ok(id) => {
                        out.push((id, work));
                        assert(started_models(out@) =~= was.push((id, model)));
                    },
                    Err(_) => {},
                }
            },
            None => {},
        }
        i += 1;
    }
    out
}

/// No interrupted operation is resumed twice: no more operations are started than were
/// found, and each of them has a new identifier, larger than those before it.
pub proof fn law_each_operation_is_resumed_at_most_once(
    m: StateModel,
    ops: Seq<ResumableModel>,
    params: Seq<Option<RestoreParams>>,
    now: Timestamp,
    n: nat,
)
    requires
        n <= ops.len(),
        ops.len() == params.len(),
        1 <= m.log.next_id,
        m.log.next_id + n <= u64::MAX,
    ensures
        ({
            let (after, started) = after_resuming(m, ops, params, now, n);
            &&& started.len() <= n
            &&& m.log.next_id <= after.log.next_id <= m.log.next_id + n
            &&& forall|i: int|
                0 <= i < started.len() ==> m.log.next_id <= (#[trigger] started[i]).0
                    < after.log.next_id
            &&& forall|i: int, j: int|
                #![trigger started[i], started[j]]
                0 <= i < j < started.len() ==> started[i].0 < started[j].0
        }),
    decreases n,
{
    if n > 0 {
        law_each_operation_is_resumed_at_most_once(m, ops, params, now, (n - 1) as nat);
    }
}

/// Nothing that is resumed drops tables or deletes a local backup, and all of it goes on
/// from where it was interrupted.
pub proof fn law_resuming_deletes_nothing(op: ResumableModel, params: Option<RestoreParams>)
    ensures
        resumed_work(op, params) matches Some(WorkModel::Restore(r)) ==> !r.rm && r.resume,
        resumed_work(op, params) matches Some(WorkModel::Upload(u)) ==> !u.delete_local
            && u.resume,
        resumed_work(op, params) matches Some(WorkModel::Download(d)) ==> d.resume,
        resumed_work(op, params) matches Some(w) ==> w is Restore || w is Upload || w is Download,
{
}

/// What contracts say of an interrupted operation are its own fields.
pub proof fn law_interrupted_operations_are_told_with_all_fields(op: ResumableOp)
    ensures
        op@.backup_name == op.backup_name@,
        op@.op_type == op.op_type@,
{
}

} // verus!
