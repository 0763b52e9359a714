//! What the answers of the server have to do with the requests and with one another.

use vstd::prelude::*;
use vstd::utf8::{decode_utf8, valid_utf8};

use crate::manifest::NamedValue;
use crate::server::actions::StatusModel;
use crate::server::auth::{base64_decoded, law_credentials_are_user_colon_password, let_through};
use crate::server::calls::WorkModel;
use crate::server::operations::{
    answered, create_remote_work, create_work, mapping_or_fault, new_name_refusal,
    restore_remote_work, OperationConfig, Started,
};
use crate::server::resumable::{
    after_resuming, backup_dir, op_if, ops_of_entries, ops_of_entry, resumed_work, BackupDirEntry,
    ResumableModel, RestoreParams,
};
use crate::server::routes::{
    new_name_fault, CreateRemoteRequest, CreateRequest, Refusal, RestoreRemoteRequest,
};
use crate::server::state::{
    busy, held, lemma_op_index, name_fault, op_index, permits_for, without, OpModel, StateModel,
};
use crate::server::{after_last, start_plan, StartStep};
use crate::text::{has_text, opt_text};
use crate::time::Timestamp;

verus! {

// ---------------------------------------------------------------------------
// Names
// ---------------------------------------------------------------------------

/// A text is a name of a backup just where it is not empty, is not `.`, and has no `..`, no
/// slash, no backslash and no NUL in it.
pub proof fn law_names_are_refused_for_their_faults(name: Seq<char>)
    ensures
        name_fault(name) is None <==> name.len() > 0 && name != "."@ && !has_text(name, ".."@)
            && (forall|i: int|
            0 <= i < name.len() ==> #[trigger] name[i] != '/' && name[i] != '\\' && name[i] != '\0'),
{
    if name_fault(name) is None {
        assert forall|i: int| 0 <= i < name.len() implies #[trigger] name[i] != '/' && name[i]
            != '\\' && name[i] != '\0' by {
            assert(name.contains(name[i]));
        }
    }
}

/// A new backup may have any name of a backup but `latest` and `previous`, and may leave the
/// name to be made up.
pub proof fn law_new_backups_may_have_any_other_name(name: Option<String>)
    ensures
        new_name_refusal(name) is None <==> name is None || (name_fault(name->0@) is None
            && name->0@ != "latest"@ && name->0@ != "previous"@),
        name is Some && name_fault(name->0@) is Some ==> new_name_refusal(name) == name_fault(
            name->0@,
        ),
        name is Some ==> new_name_fault(name->0@) == new_name_refusal(name),
{
}

/// A mapping of databases is used as it was read, just where one was given; one that could
/// not be read is refused with the reason.
pub proof fn law_mappings_are_used_as_they_were_read(
    given: Option<String>,
    mapping: Result<Vec<NamedValue>, String>,
)
    ensures
        ({
            let r = mapping_or_fault(given, mapping);
            let wanted = given is Some && given->0@.len() > 0;
            &&& !wanted ==> r is Ok && r->Ok_0 is None
            &&& wanted && mapping is Err ==> r is Err && r->Err_0 == "invalid database_mapping: "@
                + mapping->Err_0@
            &&& wanted && mapping is Ok ==> r is Ok && r->Ok_0 is Some && r->Ok_0->0.len()
                == mapping->Ok_0@.len() && forall|i: int|
                0 <= i < mapping->Ok_0@.len() ==> #[trigger] r->Ok_0->0[i] == (
                    mapping->Ok_0@[i].name@,
                    mapping->Ok_0@[i].value@,
                )
        }),
{
}

// ---------------------------------------------------------------------------
// Operations
// ---------------------------------------------------------------------------

/// As many permits of a set are taken as there are operations that hold one.
pub proof fn law_permits_are_counted(ops: Seq<OpModel>, permit_set: u64)
    ensures
        held(ops, permit_set) == ops.filter(|op: OpModel| op.permit_set == permit_set).len(),
    decreases ops.len(),
{
    reveal(Seq::filter);
    if ops.len() > 0 {
        law_permits_are_counted(ops.drop_last(), permit_set);
    }
}

/// Either one operation may run at a time, or as many as a semaphore can count.
pub proof fn law_one_permit_unless_in_parallel()
    ensures
        permits_for(false) == 1,
        permits_for(true) == usize::MAX / 8,
{
}

/// A request is let start just where a permit is free and no operation that runs works on the
/// same backup. It then gets the next identifier, runs behind all others under its command
/// and its backup, and is logged as running since now; the others run on.
pub proof fn law_operations_start_where_they_may(
    m: StateModel,
    command: Seq<char>,
    backup_name: Option<Seq<char>>,
    now: Timestamp,
)
    requires
        m.well_formed(),
        m.log.next_id < u64::MAX,
    ensures
        ({
            let answer = m.start_answer(backup_name);
            let after = m.after_start(command, backup_name, now);
            let mine = m.running.filter(|op: OpModel| op.permit_set == m.permit_set);
            &&& answer is Ok <==> mine.len() < m.permits && (backup_name is None || forall|i: int|
                0 <= i < m.running.len() ==> (#[trigger] m.running[i]).backup_name != backup_name)
            &&& mine.len() >= m.permits ==> answer == Err::<u64, Seq<char>>(
                "operation already in progress"@,
            ) && after == m
            &&& mine.len() < m.permits && answer is Err ==> answer == Err::<u64, Seq<char>>(
                "operation already in progress for this backup"@,
            ) && after.running == m.running
            &&& mine.len() < m.permits && answer is Err ==> after.log.entries.last().id
                == m.log.next_id && after.log.entries.last().status == StatusModel::Failed(
                "operation already in progress for this backup"@,
            ) && after.log.entries.last().command == command && after.log.entries.last().finish
                == Some(now)
            &&& answer is Ok ==> answer->Ok_0 == m.log.next_id
            &&& answer is Ok ==> after.running.len() == m.running.len() + 1
            &&& answer is Ok ==> after.running.drop_last() == m.running
            &&& answer is Ok ==> after.running.last().id == m.log.next_id
                && after.running.last().command == command && after.running.last().backup_name
                == backup_name
            &&& answer is Ok ==> after.log.entries.last().id == m.log.next_id
                && after.log.entries.last().command == command && after.log.entries.last().start
                == now && after.log.entries.last().status is Running
            &&& answer is Ok ==> after.log.next_id == m.log.next_id + 1
            &&& after.permits == m.permits
            &&& after.permit_set == m.permit_set
        }),
{
    law_permits_are_counted(m.running, m.permit_set);
    let after = m.after_start(command, backup_name, now);
    if m.start_answer(backup_name) is Ok {
        assert(after.running.drop_last() =~= m.running);
    }
    if let Some(name) = backup_name {
        if exists|i: int|
            0 <= i < m.running.len() && (#[trigger] m.running[i]).backup_name == backup_name {
            assert(busy(m.running, name));
        }
    }
}

/// While one operation may run at a time and one does, every request is refused; so is, at
/// any time, a request for a backup that an operation was just started on.
pub proof fn law_second_request_waits(
    m: StateModel,
    command: Seq<char>,
    backup_name: Option<Seq<char>>,
    other: Option<Seq<char>>,
    now: Timestamp,
)
    requires
        m.well_formed(),
        m.log.next_id < u64::MAX,
        m.start_answer(backup_name) is Ok,
    ensures
        ({
            let after = m.after_start(command, backup_name, now);
            &&& m.permits == 1 ==> after.start_answer(other) is Err
            &&& backup_name is Some ==> after.start_answer(backup_name) is Err
        }),
{
    let after = m.after_start(command, backup_name, now);
    assert(after.running.drop_last() =~= m.running);
    assert(held(after.running, m.permit_set) == held(m.running, m.permit_set) + 1);
    if let Some(name) = backup_name {
        assert(after.running[m.running.len() as int].backup_name == Some(name));
        assert(busy(after.running, name));
    }
}

/// An operation that ended runs no more, and is logged with how it ended and when; all other
/// operations run on, in the same order, and their actions stay as they were.
pub proof fn law_ended_operations_are_gone(
    m: StateModel,
    id: u64,
    status: StatusModel,
    now: Timestamp,
)
    requires
        m.well_formed(),
    ensures
        ({
            let after = m.after_end(id, status, now);
            &&& after.running == m.running.filter(|op: OpModel| op.id != id)
            &&& after.log.entries.len() == m.log.entries.len()
            &&& forall|i: int|
                0 <= i < m.log.entries.len() ==> (if m.log.entries[i].id == id {
                    (#[trigger] after.log.entries[i]).status == status
                        && after.log.entries[i].finish == Some(now) && after.log.entries[i].id == id
                        && after.log.entries[i].command == m.log.entries[i].command
                        && after.log.entries[i].start == m.log.entries[i].start
                } else {
                    after.log.entries[i] == m.log.entries[i]
                })
            &&& after.log.next_id == m.log.next_id
            &&& after.permits == m.permits
            &&& after.permit_set == m.permit_set
        }),
{
    lemma_without_filters(m.running, id);
}

proof fn lemma_without_filters(ops: Seq<OpModel>, id: u64)
    requires
        forall|i: int, j: int|
            #![trigger ops[i], ops[j]]
            0 <= i < j < ops.len() ==> ops[i].id != ops[j].id,
    ensures
        without(ops, id) == ops.filter(|op: OpModel| op.id != id),
    decreases ops.len(),
{
    reveal(Seq::filter);
    let f = |op: OpModel| op.id != id;
    lemma_op_index(ops, id);
    if ops.len() > 0 {
        let init = ops.drop_last();
        assert forall|i: int, j: int|
            #![trigger init[i], init[j]]
            0 <= i < j < init.len() implies init[i].id != init[j].id by {
            assert(init[i] == ops[i] && init[j] == ops[j]);
        }
        lemma_without_filters(init, id);
        lemma_op_index(init, id);
        let k = op_index(ops, id) as int;
        let j = op_index(init, id) as int;
        let n = init.len() as int;
        if ops.last().id == id {
            assert(ops[n].id == id);
            if j < n {
                assert(ops[j].id == init[j].id);
            }
            assert(j == n);
            if k < n {
                assert(ops[k].id != ops[n].id);
            }
            assert(k == n);
            assert(ops.remove(k) =~= init);
        } else {
            if j < n {
                assert(ops[j].id == init[j].id);
                if k < j {
                    assert(init[k].id == ops[k].id);
                }
                if j < k {
                    assert(ops[j].id != id);
                }
                assert(k == j);
                assert(ops.remove(k) =~= init.remove(j).push(ops.last()));
            } else {
                if k < ops.len() {
                    if k < n {
                        assert(init[k].id == ops[k].id);
                    }
                }
                assert(k == ops.len());
                assert(ops =~= init.push(ops.last()));
            }
        }
    } else {
        assert(without(ops, id) =~= ops.filter(f));
    }
}

/// A request to kill is about the operation with the identifier, if it runs, or about all of
/// them; none of those runs afterwards.
pub proof fn law_killed_operations_are_gone(m: StateModel, id: u64, now: Timestamp)
    requires
        m.well_formed(),
    ensures
        m.after_kill(Some(id), now).running == m.running.filter(|op: OpModel| op.id != id),
        m.kill_targets(Some(id)) == m.running.filter(|op: OpModel| op.id == id),
        m.kill_targets(None) == m.running,
        m.after_kill(None, now).running == Seq::<OpModel>::empty(),
        m.after_kill(Some(id), now).permits == m.permits,
        m.after_kill(Some(id), now).permit_set == m.permit_set,
        m.after_kill(None, now).permits == m.permits,
        m.after_kill(None, now).permit_set == m.permit_set,
{
    lemma_without_filters(m.running, id);
    lemma_target_filters(m.running, id);
}

proof fn lemma_target_filters(ops: Seq<OpModel>, id: u64)
    requires
        forall|i: int, j: int|
            #![trigger ops[i], ops[j]]
            0 <= i < j < ops.len() ==> ops[i].id != ops[j].id,
    ensures
        ops.filter(|op: OpModel| op.id == id) == if op_index(ops, id) < ops.len() {
            seq![ops[op_index(ops, id) as int]]
        } else {
            Seq::<OpModel>::empty()
        },
    decreases ops.len(),
{
    reveal(Seq::filter);
    lemma_op_index(ops, id);
    if ops.len() > 0 {
        let init = ops.drop_last();
        assert forall|i: int, j: int|
            #![trigger init[i], init[j]]
            0 <= i < j < init.len() implies init[i].id != init[j].id by {
            assert(init[i] == ops[i] && init[j] == ops[j]);
        }
        lemma_target_filters(init, id);
        lemma_op_index(init, id);
        let k = op_index(ops, id) as int;
        let j = op_index(init, id) as int;
        let n = init.len() as int;
        if j < n {
            assert(ops[j].id == init[j].id);
            if k < j {
                assert(init[k].id == ops[k].id);
            }
            assert(k == j);
            assert(ops[n].id != ops[j].id);
        } else {
            if k < n {
                assert(init[k].id == ops[k].id);
            }
            if ops.last().id == id {
                assert(ops[n].id == id);
                assert(k == n);
                assert(Seq::<OpModel>::empty().push(ops.last()) =~= seq![ops[k]]);
            } else if k == n {
                assert(ops[n].id == id);
            }
        }
    }
}

/// What a request is answered when its operation may start: the identifier that the operation
/// runs and is logged under, and the work that was asked for. When it may not, nothing runs
/// that did not run before, and the answer has the status 423.
pub proof fn law_answers_tell_what_was_started(
    m: StateModel,
    after: StateModel,
    label: Seq<char>,
    backup_name: Option<Seq<char>>,
    work: WorkModel,
    invalidate_cache: bool,
    now: Timestamp,
    r: Result<Started, Refusal>,
)
    requires
        m.well_formed(),
        m.log.next_id < u64::MAX,
        answered(m, after, label, backup_name, work, invalidate_cache, now, r),
    ensures
        r matches Ok(s) ==> {
            &&& s.response.id == m.log.next_id
            &&& s.response.status@ == "started"@
            &&& s.work@ == work
            &&& s.label@ == label
            &&& opt_text(s.lock_name) == backup_name
            &&& s.invalidate_cache == invalidate_cache
            &&& after.running.last().id == s.response.id
            &&& after.running.last().command == label
            &&& after.running.last().backup_name == backup_name
            &&& after.running.drop_last() == m.running
        },
        r matches Err(e) ==> e.0 == 423 && after.running == m.running,
        r is Ok <==> m.start_answer(backup_name) is Ok,
{
    law_operations_start_where_they_may(m, label, backup_name, now);
}

/// A request to make a local backup asks for just what its fields say.
pub proof fn law_requests_to_create_are_followed(
    req: CreateRequest,
    name: Seq<char>,
    config: OperationConfig,
)
    ensures
        ({
            let c = create_work(req, name, config);
            &&& c.backup_name == name
            &&& req.tables matches Some(t) ==> c.tables == Some(t@)
            &&& req.tables is None ==> c.tables is None
            &&& c.schema_only <==> req.schema == Some(true)
            &&& req.diff_from matches Some(d) ==> c.diff_from == Some(d@)
            &&& req.diff_from is None ==> c.diff_from is None
            &&& req.partitions matches Some(p) ==> c.partitions == Some(p@)
            &&& req.partitions is None ==> c.partitions is None
            &&& c.skip_check_parts_columns <==> req.skip_check_parts_columns == Some(true)
            &&& c.rbac <==> req.rbac == Some(true)
            &&& c.configs <==> req.configs == Some(true)
            &&& c.named_collections <==> req.named_collections == Some(true)
            &&& req.skip_projections matches Some(v) ==> c.skip_projections == v.deep_view()
            &&& req.skip_projections is None ==> c.skip_projections
                == config.skip_projections.deep_view()
        }),
{
}

/// A request to make a backup and upload it uploads what it makes, on the base that the
/// request names and no other, and asks for nothing that its fields do not say.
pub proof fn law_requests_to_create_and_upload_are_followed(
    req: CreateRemoteRequest,
    name: Seq<char>,
    config: OperationConfig,
)
    ensures
        create_remote_work(req, name, config) matches WorkModel::CreateRemote(c, u) && {
            &&& c.backup_name == name && u.backup_name == name
            &&& req.tables matches Some(t) ==> c.tables == Some(t@)
            &&& req.tables is None ==> c.tables is None
            &&& req.diff_from_remote matches Some(d) ==> u.diff_from_remote == Some(d@)
            &&& req.diff_from_remote is None ==> u.diff_from_remote is None
            &&& u.delete_local <==> req.delete_source == Some(true)
            &&& req.resume matches Some(b) ==> u.resume == b
            &&& req.resume is None ==> u.resume == config.use_resumable_state
            &&& !c.schema_only && c.diff_from is None && c.partitions is None
            &&& c.skip_check_parts_columns <==> req.skip_check_parts_columns == Some(true)
            &&& c.rbac <==> req.rbac == Some(true)
            &&& c.configs <==> req.configs == Some(true)
            &&& c.named_collections <==> req.named_collections == Some(true)
            &&& req.skip_projections matches Some(v) ==> c.skip_projections == v.deep_view()
            &&& req.skip_projections is None ==> c.skip_projections
                == config.skip_projections.deep_view()
        },
{
}

/// A request to download a backup and restore it restores what it downloads, as its fields
/// say.
pub proof fn law_requests_to_download_and_restore_are_followed(
    req: RestoreRemoteRequest,
    name: Seq<char>,
    pairs: Option<Seq<(Seq<char>, Seq<char>)>>,
    config: OperationConfig,
)
    ensures
        restore_remote_work(req, name, pairs, config) matches WorkModel::RestoreRemote(d, x) && {
            &&& d.backup_name == name && x.backup_name == name
            &&& req.tables matches Some(t) ==> x.tables == Some(t@)
            &&& req.tables is None ==> x.tables is None
            &&& !x.schema_only && !x.data_only && x.partitions is None
            &&& x.rm <==> req.rm == Some(true)
            &&& req.rename_as matches Some(t) ==> x.rename_as == Some(t@)
            &&& req.rename_as is None ==> x.rename_as is None
            &&& x.database_mapping == pairs
            &&& x.rbac <==> req.rbac == Some(true)
            &&& x.configs <==> req.configs == Some(true)
            &&& x.named_collections <==> req.named_collections == Some(true)
            &&& x.skip_empty_tables <==> req.skip_empty_tables == Some(true)
            &&& req.resume matches Some(b) ==> d.resume == b && x.resume == b
            &&& req.resume is None ==> d.resume == config.use_resumable_state && x.resume
                == config.use_resumable_state
        },
{
}

// ---------------------------------------------------------------------------
// Authentication
// ---------------------------------------------------------------------------

/// Once a user or a password is configured, a request gets through just where its header is
/// `Basic ` and an encoding of the user, a colon and the password; without either, every
/// request does.
pub proof fn law_requests_get_through_by_their_credentials(
    username: Seq<char>,
    password: Seq<char>,
    header: Option<Seq<char>>,
)
    requires
        !username.contains(':'),
    ensures
        username.len() == 0 && password.len() == 0 ==> let_through(username, password, header),
        username.len() > 0 || password.len() > 0 ==> (let_through(username, password, header)
            <==> exists|encoded: Seq<char>|
            header == Some("Basic "@ + encoded) && {
                let decoded = #[trigger] base64_decoded(encoded);
                decoded is Some && valid_utf8(decoded->0) && decode_utf8(decoded->0)
                    == username.push(':') + password
            }),
{
    reveal_strlit("Basic ");
    if let Some(h) = header {
        if "Basic "@.is_prefix_of(h) {
            let encoded = h.skip(6);
            assert(h =~= "Basic "@ + encoded);
            if let Some(bytes) = base64_decoded(encoded) {
                if valid_utf8(bytes) {
                    law_credentials_are_user_colon_password(username, password, bytes);
                }
            }
        }
        assert forall|encoded: Seq<char>|
            h == "Basic "@ + encoded implies "Basic "@.is_prefix_of(h) && #[trigger] base64_decoded(
            encoded,
        ) == base64_decoded(h.skip(6)) by {
            assert(h.subrange(0, 6) =~= "Basic "@);
            assert(h.skip(6) =~= encoded);
        }
    }
}

// ---------------------------------------------------------------------------
// What is resumed
// ---------------------------------------------------------------------------

/// The operation is found in the entry: the entry is the directory of its backup, and holds
/// the state file of its type.
pub open spec fn left_in(e: BackupDirEntry, op: ResumableModel) -> bool {
    &&& e.is_dir
    &&& e.name is Some && e.name->0@ == op.backup_name
    &&& name_fault(op.backup_name) is None
    &&& {
        ||| op.op_type == "upload"@ && e.has_upload_state
        ||| op.op_type == "download"@ && e.has_download_state
        ||| op.op_type == "restore"@ && e.has_restore_state
    }
}

proof fn lemma_ops_of_entry(e: BackupDirEntry, op: ResumableModel)
    ensures
        ops_of_entry(e).contains(op) <==> left_in(e, op),
{
    let ops = ops_of_entry(e);
    if backup_dir(e) {
        let name = e.name->0@;
        let a = op_if(e.has_upload_state, name, "upload"@);
        let b = op_if(e.has_download_state, name, "download"@);
        let c = op_if(e.has_restore_state, name, "restore"@);
        assert(ops == a + b + c);
        if ops.contains(op) {
            let i = choose|i: int| 0 <= i < ops.len() && ops[i] == op;
            if i < a.len() {
                assert(ops[i] == a[i]);
            } else if i < a.len() + b.len() {
                assert(ops[i] == b[i - a.len()]);
            } else {
                assert(ops[i] == c[i - a.len() - b.len()]);
            }
        }
        if left_in(e, op) {
            if op.op_type == "upload"@ && e.has_upload_state {
                assert(ops[0] == a[0]);
                assert(a[0] =~= op);
            } else if op.op_type == "download"@ && e.has_download_state {
                assert(ops[a.len() as int] == b[0]);
                assert(b[0] =~= op);
            } else {
                assert(ops[(a.len() + b.len()) as int] == c[0]);
                assert(c[0] =~= op);
            }
        }
    }
}

/// An operation is found just where one of the directories is that of its backup and holds
/// the state file of its type.
pub proof fn law_interrupted_operations_are_found(
    entries: Seq<BackupDirEntry>,
    n: nat,
    op: ResumableModel,
)
    requires
        n <= entries.len(),
    ensures
        ops_of_entries(entries, n).contains(op) <==> exists|i: int|
            0 <= i < n && left_in(#[trigger] entries[i], op),
    decreases n,
{
    if n > 0 {
        law_interrupted_operations_are_found(entries, (n - 1) as nat, op);
        let before = ops_of_entries(entries, (n - 1) as nat);
        let here = ops_of_entry(entries[n - 1]);
        let all = ops_of_entries(entries, n);
        lemma_ops_of_entry(entries[n - 1], op);
        if before.contains(op) {
            let i = choose|i: int| 0 <= i < before.len() && before[i] == op;
            assert(all[i] == op);
        }
        if here.contains(op) {
            let i = choose|i: int| 0 <= i < here.len() && here[i] == op;
            assert(all[before.len() + i] == op);
            assert(left_in(entries[n - 1], op));
        }
        if all.contains(op) {
            let i = choose|i: int| 0 <= i < all.len() && all[i] == op;
            if i < before.len() {
                assert(before[i] == op);
            } else {
                assert(here[i - before.len()] == op);
            }
        }
    }
}

/// What is resumed is what was interrupted: an upload or a download of the same backup, or a
/// restore of it with the parameters that it left behind. A restore that left none is not
/// resumed.
pub proof fn law_resumed_work_is_the_interrupted_one(
    op: ResumableModel,
    params: Option<RestoreParams>,
)
    ensures
        op.op_type == "upload"@ ==> (resumed_work(op, params) matches Some(WorkModel::Upload(u))
            && u.backup_name == op.backup_name && u.diff_from_remote is None && !u.delete_local
            && u.resume),
        op.op_type == "download"@ ==> (resumed_work(op, params) matches Some(
            WorkModel::Download(d),
        ) && d.backup_name == op.backup_name && d.resume && !d.hardlink_exists_files),
        op.op_type == "restore"@ && params is None ==> resumed_work(op, params) is None,
        op.op_type == "restore"@ && params is Some ==> (resumed_work(op, params) matches Some(
            WorkModel::Restore(x),
        ) && {
            let p = params->0;
            &&& x.backup_name == op.backup_name
            &&& x.tables == opt_text(p.tables)
            &&& x.rename_as == opt_text(p.rename_as)
            &&& x.partitions == opt_text(p.partitions)
            &&& x.schema_only == p.schema_only
            &&& x.data_only == p.data_only
            &&& x.rbac == p.rbac
            &&& x.configs == p.configs
            &&& x.named_collections == p.named_collections
            &&& x.skip_empty_tables == p.skip_empty_tables
            &&& x.database_mapping is None <==> p.database_mapping@.len() == 0
            &&& x.database_mapping is Some ==> x.database_mapping->0.len()
                == p.database_mapping@.len() && forall|i: int|
                0 <= i < p.database_mapping@.len() ==> #[trigger] x.database_mapping->0[i] == (
                    p.database_mapping@[i].name@,
                    p.database_mapping@[i].value@,
                )
            &&& !x.rm
            &&& x.resume
        }),
        op.op_type != "upload"@ && op.op_type != "download"@ && op.op_type != "restore"@
            ==> resumed_work(op, params) is None,
{
    reveal_strlit("upload");
    reveal_strlit("download");
    reveal_strlit("restore");
    assert("upload"@.len() == 6 && "download"@.len() == 8 && "restore"@.len() == 7);
}

// ---------------------------------------------------------------------------
// The start of the server
// ---------------------------------------------------------------------------

/// The server starts the watch loop just where it is asked for, tells ClickHouse of the API
/// just where that is configured, resumes what was interrupted once, and serves last: with
/// encryption just where that is configured, and without it on the address that it bound.
pub proof fn law_server_takes_the_steps_that_it_is_asked_for(
    watch: bool,
    secure: bool,
    create_integration_tables: bool,
)
    ensures
        ({
            let steps = start_plan(watch, secure, create_integration_tables);
            &&& steps.contains(StartStep::SpawnWatch) <==> watch
            &&& steps.contains(StartStep::Bind) <==> !secure
            &&& steps.contains(StartStep::CreateIntegrationTables) <==> create_integration_tables
            &&& steps.contains(StartStep::AutoResume)
            &&& steps.contains(StartStep::ServeTls) <==> secure
            &&& steps.contains(StartStep::ServePlain) <==> !secure
            &&& steps.last() == if secure {
                StartStep::ServeTls
            } else {
                StartStep::ServePlain
            }
            &&& forall|i: int, j: int|
                #![trigger steps[i], steps[j]]
                0 <= i < j < steps.len() ==> steps[i] != steps[j]
            &&& watch ==> steps[0] == StartStep::SpawnWatch
            &&& steps[steps.len() - 2] == StartStep::AutoResume
        }),
{
    let steps = start_plan(watch, secure, create_integration_tables);
    let n = steps.len() as int;
    assert(steps[n - 2] == StartStep::AutoResume);
    assert(steps[n - 1] == if secure {
        StartStep::ServeTls
    } else {
        StartStep::ServePlain
    });
    if create_integration_tables {
        assert(steps[n - 3] == StartStep::CreateIntegrationTables);
    }
    if watch {
        assert(steps[0] == StartStep::SpawnWatch);
    }
    if !secure {
        assert(steps[if watch {
            1int
        } else {
            0
        }] == StartStep::Bind);
    }
}

/// The port is what follows the last colon, and a text without one is all of it.
pub proof fn law_port_follows_the_last_colon(before: Seq<char>, port: Seq<char>)
    requires
        !port.contains(':'),
    ensures
        after_last(before + ":"@ + port, ':') == port,
        after_last(port, ':') == port,
    decreases port.len(),
{
    reveal_strlit(":");
    let whole = before + ":"@ + port;
    if port.len() == 0 {
        assert(whole.last() == ':');
        assert(after_last(whole, ':') =~= port);
        assert(after_last(port, ':') =~= port);
    } else {
        let init = port.drop_last();
        assert(port.contains(port.last()));
        assert forall|i: int| 0 <= i < init.len() implies init[i] != ':' by {
            assert(init[i] == port[i]);
        }
        law_port_follows_the_last_colon(before, init);
        assert(whole.drop_last() =~= before + ":"@ + init);
        assert(whole.last() == port.last());
        assert(init.push(port.last()) =~= port);
    }
}

/// An interrupted operation that can be resumed, and that the state lets start when its turn
/// comes, is among those that were started, with its own work; and every operation that was
/// started is such a one.
pub proof fn law_interrupted_operations_are_resumed(
    m: StateModel,
    ops: Seq<ResumableModel>,
    params: Seq<Option<RestoreParams>>,
    now: Timestamp,
    n: nat,
    k: int,
)
    requires
        n <= ops.len(),
        ops.len() == params.len(),
        0 <= k < n,
    ensures
        ({
            let before = after_resuming(m, ops, params, now, k as nat).0;
            let (after, started) = after_resuming(m, ops, params, now, n);
            let work = resumed_work(ops[k], params[k]);
            let answer = before.start_answer(Some(ops[k].backup_name));
            work is Some && answer is Ok ==> started.contains((answer->Ok_0, work->0))
        }),
        ({
            let started = after_resuming(m, ops, params, now, n).1;
            forall|i: int| 0 <= i < started.len() ==> resumes_one(
                m,
                ops,
                params,
                now,
                n,
                #[trigger] started[i],
            )
        }),
    decreases n,
{
    let (before, earlier) = after_resuming(m, ops, params, now, (n - 1) as nat);
    let (after, started) = after_resuming(m, ops, params, now, n);
    if n >= 2 {
        law_interrupted_operations_are_resumed(
            m,
            ops,
            params,
            now,
            (n - 1) as nat,
            if k < n - 1 {
                k
            } else {
                0
            },
        );
    }
    assert forall|x: (u64, WorkModel)| earlier.contains(x) implies started.contains(x) by {
        let i = choose|i: int| 0 <= i < earlier.len() && earlier[i] == x;
        assert(started[i] == x);
    }
    if k == n - 1 {
        let work = resumed_work(ops[k], params[k]);
        let answer = before.start_answer(Some(ops[k].backup_name));
        if work is Some && answer is Ok {
            assert(started[started.len() - 1] == (answer->Ok_0, work->0));
        }
    }
    assert forall|i: int| 0 <= i < started.len() implies resumes_one(
        m,
        ops,
        params,
        now,
        n,
        #[trigger] started[i],
    ) by {
        if i < earlier.len() {
            assert(started[i] == earlier[i]);
            if n >= 2 {
                let j = choose|j: int| #[trigger]
                    resumes_at(m, ops, params, now, j, started[i]) && j < n - 1;
                assert(resumes_at(m, ops, params, now, j, started[i]));
            } else {
                assert(earlier.len() == 0);
            }
        } else {
            assert(resumes_at(m, ops, params, now, n - 1, started[i]));
        }
    }
}

/// What was started resumes operation `j`, under the identifier that its request got.
pub open spec fn resumes_at(
    m: StateModel,
    ops: Seq<ResumableModel>,
    params: Seq<Option<RestoreParams>>,
    now: Timestamp,
    j: int,
    started: (u64, WorkModel),
) -> bool {
    &&& 0 <= j < ops.len()
    &&& resumed_work(ops[j], params[j]) == Some(started.1)
    &&& after_resuming(m, ops, params, now, j as nat).0.start_answer(Some(ops[j].backup_name))
        == Ok::<u64, Seq<char>>(started.0)
}

/// What was started resumes one of the first `n` operations.
pub open spec fn resumes_one(
    m: StateModel,
    ops: Seq<ResumableModel>,
    params: Seq<Option<RestoreParams>>,
    now: Timestamp,
    n: nat,
    started: (u64, WorkModel),
) -> bool {
    exists|j: int| #[trigger] resumes_at(m, ops, params, now, j, started) && j < n
}

} // verus!
