//! The state of the server: which operations run, what their names may be, and what is
//! resumed after a restart.

use vstd::prelude::*;

use crate::server::actions::{ActionLog, LogModel, StatusModel};
use crate::text::{contains_char, contains_text, has_text, opt_text, same};
use crate::time::{Duration, Timestamp};

verus! {

// ---------------------------------------------------------------------------
// Names of backups
// ---------------------------------------------------------------------------

/// Why a text is no name of a backup, if it is none.
pub open spec fn name_fault(name: Seq<char>) -> Option<Seq<char>> {
    if name.len() == 0 {
        Some("backup name must not be empty"@)
    } else if has_text(name, ".."@) {
        Some("backup name must not contain '..'"@)
    } else if name.contains('/') {
        Some("backup name must not contain '/'"@)
    } else if name.contains('\\') {
        Some("backup name must not contain '\\'"@)
    } else if name.contains('\0') {
        Some("backup name must not contain NUL byte"@)
    } else if name == "."@ {
        Some("backup name must not be '.'"@)
    } else {
        None
    }
}

/// Whether a text is a name of a backup, and if not, why.
pub fn validate_backup_name(name: &str) -> (r: Result<(), &'static str>)
    ensures
        match name_fault(name@) {
            None => r is Ok,
            Some(fault) => r matches Err(e) && e@ == fault,
        },
        r is Ok <==> name@.len() > 0 && !has_text(name@, ".."@) && !name@.contains('/')
            && !name@.contains('\\') && !name@.contains('\0') && name@ != "."@,
        name@.len() == 0 ==> (r matches Err(e) && e@ == "backup name must not be empty"@),
        has_text(name@, ".."@) && name@.len() > 0 ==> (r matches Err(e) && e@
            == "backup name must not contain '..'"@),
{
    if name.is_empty() {
        return Err("backup name must not be empty");
    }
    if contains_text(name, "..") {
        return Err("backup name must not contain '..'");
    }
    if contains_char(name, '/') {
        return Err("backup name must not contain '/'");
    }
    if contains_char(name, '\\') {
        return Err("backup name must not contain '\\'");
    }
    if contains_char(name, '\0') {
        return Err("backup name must not contain NUL byte");
    }
    if same(name, ".") {
        return Err("backup name must not be '.'");
    }
    Ok(())
}

/// A valid name is one component of a path, and leads to no other directory.
pub proof fn law_valid_name_is_one_component(name: Seq<char>)
    requires
        name_fault(name) is None,
    ensures
        name.len() > 0,
        !name.contains('/'),
        !name.contains('\\'),
        !name.contains('\0'),
        name != "."@,
        name != ".."@,
{
    if name == ".."@ {
        assert(name.subrange(0, name.len() as int) =~= ".."@);
        assert(crate::text::text_at(name, ".."@, 0));
    }
}

/// The names that stand for a backup that is looked up.
pub open spec fn reserved_name(name: Seq<char>) -> bool {
    name == "latest"@ || name == "previous"@
}

/// An error for a name that stands for a backup that is looked up, which a new backup
/// cannot have.
pub fn reject_reserved_backup_name(name: &str) -> (r: Result<(), &'static str>)
    ensures
        r is Ok <==> !reserved_name(name@),
        r is Ok <==> name@ != "latest"@ && name@ != "previous"@,
        r matches Err(e) ==> e@
            == "backup name must not be a reserved shortcut ('latest' or 'previous')"@,
{
    if same(name, "latest") || same(name, "previous") {
        return Err("backup name must not be a reserved shortcut ('latest' or 'previous')");
    }
    Ok(())
}

// ---------------------------------------------------------------------------
// The watch loop as the API shows it
// ---------------------------------------------------------------------------

/// How the watch loop stands.
#[derive(Debug, Clone)]
pub struct WatchStatus {
    pub active: bool,
    /// The state in words, such as "idle" or "sleeping".
    pub state: String,
    /// When the last full backup was finished.
    pub last_full: Option<Timestamp>,
    /// When the last incremental backup was finished.
    pub last_incr: Option<Timestamp>,
    pub consecutive_errors: u32,
    /// How long the loop sleeps before the next backup.
    pub next_backup_in: Option<Duration>,
}

impl Default for WatchStatus {
    fn default() -> (r: Self)
        ensures
            !r.active,
            r.state@ == "inactive"@,
            r.last_full is None,
            r.last_incr is None,
            r.consecutive_errors == 0,
            r.next_backup_in is None,
    {
        WatchStatus {
            active: false,
            state: "inactive".to_string(),
            last_full: None,
            last_incr: None,
            consecutive_errors: 0,
            next_backup_in: None,
        }
    }
}

// ---------------------------------------------------------------------------
// Operations
// ---------------------------------------------------------------------------

/// `tokio::sync::Semaphore::MAX_PERMITS`, the most permits that a semaphore can hold: by
/// its documentation `usize::MAX >> 3`.
#[verifier::external_body]
fn max_permits() -> (r: usize)
    ensures
        r == usize::MAX / 8,
{
    tokio::sync::Semaphore::MAX_PERMITS
}

/// How many operations may run at a time.
pub open spec fn permits_for(allow_parallel: bool) -> nat {
    if allow_parallel {
        (usize::MAX / 8) as nat
    } else {
        1
    }
}

/// How many operations may run at a time: one, or as many as can be counted.
pub fn semaphore_permits(allow_parallel: bool) -> (r: usize)
    ensures
        r == permits_for(allow_parallel),
        !allow_parallel ==> r == 1,
        allow_parallel ==> r == usize::MAX / 8,
{
    if allow_parallel {
        max_permits()
    } else {
        1
    }
}

/// An operation that runs.
#[derive(Debug, Clone)]
pub struct RunningOp {
    pub id: u64,
    pub command: String,
    /// The backup that the operation works on, if it works on one.
    pub backup_name: Option<String>,
    /// Which set of permits the operation holds one of.
    pub permit_set: u64,
}

/// What a contract says of an operation that runs.
#[verifier::ext_equal]
pub struct OpModel {
    pub id: u64,
    pub command: Seq<char>,
    pub backup_name: Option<Seq<char>>,
    pub permit_set: u64,
}

impl View for RunningOp {
    type V = OpModel;

    open spec fn view(&self) -> OpModel {
        OpModel {
            id: self.id,
            command: self.command@,
            backup_name: opt_text(self.backup_name),
            permit_set: self.permit_set,
        }
    }
}

/// The models of a list of operations.
pub open spec fn op_models(v: Seq<RunningOp>) -> Seq<OpModel> {
    Seq::new(v.len(), |i: int| v[i]@)
}

/// How many of the operations hold a permit of the set.
pub open spec fn held(ops: Seq<OpModel>, permit_set: u64) -> nat
    decreases ops.len(),
{
    if ops.len() == 0 {
        0
    } else {
        held(ops.drop_last(), permit_set) + if ops.last().permit_set == permit_set {
            1nat
        } else {
            0
        }
    }
}

/// Where the operation is in the list; its length where it is not.
pub open spec fn op_index(ops: Seq<OpModel>, id: u64) -> nat
    decreases ops.len(),
{
    if ops.len() == 0 {
        0
    } else if ops[0].id == id {
        0
    } else {
        1 + op_index(ops.skip(1), id)
    }
}

/// The operations without the one with the identifier.
pub open spec fn without(ops: Seq<OpModel>, id: u64) -> Seq<OpModel> {
    if op_index(ops, id) < ops.len() {
        ops.remove(op_index(ops, id) as int)
    } else {
        ops
    }
}

/// One of the operations works on the backup.
pub open spec fn busy(ops: Seq<OpModel>, name: Seq<char>) -> bool {
    exists|i: int| 0 <= i < ops.len() && (#[trigger] ops[i]).backup_name == Some(name)
}

/// What a contract says of the state.
#[verifier::ext_equal]
pub struct StateModel {
    pub log: LogModel,
    pub running: Seq<OpModel>,
    /// How many operations may hold a permit of the present set.
    pub permits: nat,
    pub permit_set: u64,
}

/// The log after each of the operations was killed.
pub open spec fn killed_log(log: LogModel, ops: Seq<OpModel>, now: Timestamp) -> LogModel
    decreases ops.len(),
{
    if ops.len() == 0 {
        log
    } else {
        killed_log(log, ops.drop_last(), now).ended(ops.last().id, StatusModel::Killed, now)
    }
}

impl StateModel {
    /// The log is well formed; each running operation has an identifier of its own that
    /// was given out; no two of them work on the same backup; and no more of them hold a
    /// permit of the present set than it has.
    pub open spec fn well_formed(self) -> bool {
        &&& self.log.well_formed()
        &&& forall|i: int|
            0 <= i < self.running.len() ==> (#[trigger] self.running[i]).id < self.log.next_id
        &&& forall|i: int, j: int|
            #![trigger self.running[i], self.running[j]]
            0 <= i < j < self.running.len() ==> self.running[i].id != self.running[j].id
        &&& forall|i: int, j: int|
            #![trigger self.running[i], self.running[j]]
            0 <= i < j < self.running.len() && self.running[i].backup_name is Some
                ==> self.running[i].backup_name != self.running[j].backup_name
        &&& forall|i: int|
            0 <= i < self.running.len() ==> (#[trigger] self.running[i]).permit_set
                <= self.permit_set
        &&& held(self.running, self.permit_set) <= self.permits
    }

    /// The backup's name is that of an operation that runs.
    pub open spec fn conflicts(self, backup_name: Option<Seq<char>>) -> bool {
        backup_name matches Some(name) && busy(self.running, name)
    }

    /// Another operation may start.
    pub open spec fn has_permit(self) -> bool {
        held(self.running, self.permit_set) < self.permits
    }

    /// The state after the request to start an operation. Without a permit nothing
    /// happens; where the backup is busy the log tells of the refusal.
    pub open spec fn after_start(
        self,
        command: Seq<char>,
        backup_name: Option<Seq<char>>,
        now: Timestamp,
    ) -> StateModel {
        let log = self.log.started(command, now);
        let id = self.log.next_id as u64;
        if !self.has_permit() {
            self
        } else if self.conflicts(backup_name) {
            StateModel {
                log: log.ended(
                    id,
                    StatusModel::Failed("operation already in progress for this backup"@),
                    now,
                ),
                ..self
            }
        } else {
            StateModel {
                log,
                running: self.running.push(
                    OpModel { id, command, backup_name, permit_set: self.permit_set },
                ),
                ..self
            }
        }
    }

    /// The answer to the request to start an operation.
    pub open spec fn start_answer(self, backup_name: Option<Seq<char>>) -> Result<u64, Seq<char>> {
        if !self.has_permit() {
            Err("operation already in progress"@)
        } else if self.conflicts(backup_name) {
            Err("operation already in progress for this backup"@)
        } else {
            Ok(self.log.next_id as u64)
        }
    }

    /// The state after an operation ended.
    pub open spec fn after_end(self, id: u64, status: StatusModel, now: Timestamp) -> StateModel {
        StateModel {
            log: self.log.ended(id, status, now),
            running: without(self.running, id),
            ..self
        }
    }

    /// The operations that a request to kill is about: the one with the identifier, or all.
    pub open spec fn kill_targets(self, id: Option<u64>) -> Seq<OpModel> {
        match id {
            Some(target) => if op_index(self.running, target) < self.running.len() {
                seq![self.running[op_index(self.running, target) as int]]
            } else {
                Seq::empty()
            },
            None => self.running,
        }
    }

    /// The state after a request to kill.
    pub open spec fn after_kill(self, id: Option<u64>, now: Timestamp) -> StateModel {
        StateModel {
            log: killed_log(self.log, self.kill_targets(id), now),
            running: match id {
                Some(target) => without(self.running, target),
                None => Seq::empty(),
            },
            ..self
        }
    }

    /// The state after the configuration changed: a new set of permits where it says so.
    /// Operations that run keep their permits of the old set.
    pub open spec fn after_reload(self, old_parallel: bool, new_parallel: bool) -> StateModel {
        if old_parallel != new_parallel {
            StateModel {
                permits: permits_for(new_parallel),
                permit_set: (self.permit_set + 1) as u64,
                ..self
            }
        } else {
            self
        }
    }
}

/// The state of the server as far as its operations go.
#[derive(Debug)]
pub struct AppState {
    action_log: ActionLog,
    running_ops: Vec<RunningOp>,
    permits: usize,
    permit_set: u64,
}

impl View for AppState {
    type V = StateModel;

    closed spec fn view(&self) -> StateModel {
        StateModel {
            log: self.action_log@,
            running: op_models(self.running_ops@),
            permits: self.permits as nat,
            permit_set: self.permit_set,
        }
    }
}

/// The index is that of the operation.
pub proof fn lemma_op_index(ops: Seq<OpModel>, id: u64)
    ensures
        op_index(ops, id) <= ops.len(),
        op_index(ops, id) < ops.len() ==> ops[op_index(ops, id) as int].id == id,
        forall|j: int| 0 <= j < op_index(ops, id) ==> (#[trigger] ops[j]).id != id,
    decreases ops.len(),
{
    if ops.len() > 0 && ops[0].id != id {
        let t = ops.skip(1);
        lemma_op_index(t, id);
        assert forall|j: int| 0 <= j < op_index(ops, id) implies (#[trigger] ops[j]).id != id by {
            if j > 0 {
                assert(ops[j] == t[j - 1]);
            }
        }
    }
}

/// An operation that is gone holds no permit any more.
proof fn lemma_held_remove(ops: Seq<OpModel>, k: int, permit_set: u64)
    requires
        0 <= k < ops.len(),
    ensures
        held(ops, permit_set) == held(ops.remove(k), permit_set) + if ops[k].permit_set
            == permit_set {
            1nat
        } else {
            0
        },
    decreases ops.len(),
{
    if k == ops.len() - 1 {
        assert(ops.remove(k) =~= ops.drop_last());
    } else {
        lemma_held_remove(ops.drop_last(), k, permit_set);
        assert(ops.remove(k).drop_last() =~= ops.drop_last().remove(k));
        assert(ops.remove(k).last() == ops.last());
    }
}

/// A permit set that no operation holds a permit of is free.
pub proof fn lemma_held_none(ops: Seq<OpModel>, permit_set: u64)
    requires
        forall|i: int| 0 <= i < ops.len() ==> (#[trigger] ops[i]).permit_set != permit_set,
    ensures
        held(ops, permit_set) == 0,
    decreases ops.len(),
{
    if ops.len() > 0 {
        assert forall|i: int| 0 <= i < ops.drop_last().len() implies (#[trigger] ops.drop_last()[i]).permit_set
            != permit_set by {
            assert(ops.drop_last()[i] == ops[i]);
        }
        lemma_held_none(ops.drop_last(), permit_set);
        assert(ops[ops.len() - 1].permit_set != permit_set);
    }
}

/// Taking an operation away keeps the state well formed.
pub proof fn lemma_without_well_formed(m: StateModel, id: u64, log: LogModel)
    requires
        m.well_formed(),
        log.well_formed(),
        log.next_id == m.log.next_id,
    ensures
        (StateModel { log, running: without(m.running, id), ..m }).well_formed(),
{
    let n = StateModel { log, running: without(m.running, id), ..m };
    let k = op_index(m.running, id) as int;
    if k < m.running.len() {
        lemma_held_remove(m.running, k, m.permit_set);
        assert forall|i: int| 0 <= i < n.running.len() implies #[trigger] n.running[i]
            == m.running[if i < k {
            i
        } else {
            i + 1
        }] by {}
    }
}

impl AppState {
    /// The state of a server on which nothing runs.
    pub fn new(allow_parallel: bool) -> (r: AppState)
        ensures
            r@.well_formed(),
            r@.log == (LogModel { entries: Seq::empty(), capacity: 100, next_id: 1 }),
            r@.running.len() == 0,
            r@.permits == permits_for(allow_parallel),
            r@.permit_set == 0,
            !allow_parallel ==> r@.permits == 1,
    {
        AppState {
            action_log: ActionLog::new(100),
            running_ops: Vec::new(),
            permits: semaphore_permits(allow_parallel),
            permit_set: 0,
        }
    }

    /// Whether so many more operations can get an identifier.
    pub fn ids_left(&self, n: usize) -> (r: bool)
        ensures
            r == (self@.log.next_id + n <= u64::MAX),
    {
        self.action_log.ids_left(n)
    }

    /// The log of the actions.
    pub fn action_log(&self) -> (r: &ActionLog)
        ensures
            r@ == self@.log,
    {
        &self.action_log
    }

    /// The operations that run.
    pub fn running_ops(&self) -> (r: &Vec<RunningOp>)
        ensures
            op_models(r@) == self@.running,
    {
        &self.running_ops
    }

    /// How many of the running operations hold a permit of the present set.
    fn held_permits(&self) -> (r: usize)
        ensures
            r == held(self@.running, self@.permit_set),
    {
        let ghost ops = self@.running;
        let mut n: usize = 0;
        let mut i: usize = 0;
        while i < self.running_ops.len()
            invariant
                i <= self.running_ops@.len(),
                n <= i,
                ops == op_models(self.running_ops@),
                n == held(ops.take(i as int), self.permit_set),
            decreases self.running_ops@.len() - i,
        {
            assert(ops.take(i + 1).drop_last() =~= ops.take(i as int));
            assert(ops.take(i + 1).last() == self.running_ops@[i as int]@);
            if self.running_ops[i].permit_set == self.permit_set {
                n += 1;
            }
            i += 1;
        }
        assert(ops.take(i as int) =~= ops);
        n
    }

    /// Whether an operation on the backup runs.
    fn conflicts_with(&self, backup_name: &Option<String>) -> (r: bool)
        ensures
            r == self@.conflicts(opt_text(*backup_name)),
    {
        match backup_name {
            None => false,
            Some(name) => {
                let ghost ops = self@.running;
                let mut i: usize = 0;
                while i < self.running_ops.len()
                    invariant
                        i <= self.running_ops@.len(),
                        ops == op_models(self.running_ops@),
                        ops == self@.running,
                        *backup_name == Some(*name),
                        forall|j: int|
                            0 <= j < i ==> (#[trigger] ops[j]).backup_name != Some(name@),
                    decreases self.running_ops@.len() - i,
                {
                    assert(ops[i as int] == self.running_ops@[i as int]@);
                    if let Some(other) = &self.running_ops[i].backup_name {
                        if same(other.as_str(), name.as_str()) {
                            assert(ops[i as int].backup_name == Some(name@));
                            assert(busy(ops, name@));
                            return true;
                        }
                    }
                    i += 1;
                }
                false
            },
        }
    }

    /// Asks to start an operation at `now`. It is refused while no permit is free, and
    /// while an operation on the same backup runs.
    pub fn try_start_op_at(
        &mut self,
        command: &str,
        backup_name: Option<String>,
        now: Timestamp,
    ) -> (r: Result<u64, &'static str>)
        requires
            old(self)@.well_formed(),
            old(self)@.log.next_id < u64::MAX,
        ensures
            final(self)@.well_formed(),
            final(self)@ == old(self)@.after_start(command@, opt_text(backup_name), now),
            match old(self)@.start_answer(opt_text(backup_name)) {
                Ok(id) => r == Ok::<u64, &'static str>(id),
                Err(error) => r matches Err(e) && e@ == error,
            },
            r matches Ok(id) ==> id == old(self)@.log.next_id && final(self)@.running.len()
                == old(self)@.running.len() + 1 && final(self)@.running.last().id == id
                && final(self)@.running.last().command == command@
                && final(self)@.running.last().backup_name == opt_text(backup_name),
            r is Err ==> final(self)@.running == old(self)@.running,
            backup_name matches Some(n) && (exists|i: int|
                0 <= i < old(self)@.running.len() && (#[trigger] old(
                    self,
                )@.running[i]).backup_name == Some(n@)) ==> r is Err,
    {
        let ghost before = self@;
        let ghost name = opt_text(backup_name);
        if self.held_permits() >= self.permits {
            return Err("operation already in progress");
        }
        let id: u64 = self.action_log.start_at(command.to_string(), now);
        let conflict = self.conflicts_with(&backup_name);
        if conflict {
            self.action_log.fail_at(
                id,
                "operation already in progress for this backup".to_string(),
                now,
            );
            assert(self@ =~= before.after_start(command@, name, now));
            return Err("operation already in progress for this backup");
        }
        self.running_ops.push(
            RunningOp {
                id,
                command: command.to_string(),
                backup_name,
                permit_set: self.permit_set,
            },
        );
        proof {
            let after = before.after_start(command@, name, now);
            assert(self@.running =~= after.running);
            assert(self@ =~= after);
            assert(after.running.drop_last() =~= before.running);
            assert forall|i: int, j: int|
                #![trigger after.running[i], after.running[j]]
                0 <= i < j < after.running.len() && after.running[i].backup_name is Some implies after.running[i].backup_name
                != after.running[j].backup_name by {
                assert(after.running[i] == before.running[i]);
            }
        }
        Ok(id)
    }

    /// Asks to start an operation.
    pub fn try_start_op(&mut self, command: &str, backup_name: Option<String>) -> (r: Result<
        u64,
        &'static str,
    >)
        requires
            old(self)@.well_formed(),
            old(self)@.log.next_id < u64::MAX,
        ensures
            final(self)@.well_formed(),
            exists|now: Timestamp|
                final(self)@ == old(self)@.after_start(command@, opt_text(backup_name), now),
            match old(self)@.start_answer(opt_text(backup_name)) {
                Ok(id) => r == Ok::<u64, &'static str>(id),
                Err(error) => r matches Err(e) && e@ == error,
            },
    {
        let now = Timestamp::now();
        self.try_start_op_at(command, backup_name, now)
    }

    /// Takes an operation off the list of those that run.
    fn remove_op(&mut self, id: u64)
        requires
            old(self)@.well_formed(),
        ensures
            final(self)@.well_formed(),
            final(self)@ == (StateModel {
                running: without(old(self)@.running, id),
                ..old(self)@
            }),
    {
        let ghost before = self@;
        let ghost ops = self@.running;
        let i: usize = self.index_of_op(id);
        if i < self.running_ops.len() {
            self.running_ops.remove(i);
            assert(self@.running =~= ops.remove(i as int));
        }
        proof {
            lemma_without_well_formed(before, id, before.log);
            assert(self@ =~= (StateModel { running: without(ops, id), ..before }));
        }
    }

    /// Where the operation is in the list of those that run.
    fn index_of_op(&self, id: u64) -> (r: usize)
        ensures
            r == op_index(self@.running, id),
    {
        let ghost ops = self@.running;
        let mut i: usize = 0;
        assert(ops.skip(0) =~= ops);
        while i < self.running_ops.len() && self.running_ops[i].id != id
            invariant
                i <= self.running_ops@.len(),
                ops == op_models(self.running_ops@),
                op_index(ops, id) == i + op_index(ops.skip(i as int), id),
            decreases self.running_ops@.len() - i,
        {
            assert(ops.skip(i as int)[0] == self.running_ops@[i as int]@);
            assert(ops.skip(i as int).skip(1) =~= ops.skip(i + 1));
            i += 1;
        }
        if i < self.running_ops.len() {
            assert(ops.skip(i as int)[0] == self.running_ops@[i as int]@);
        }
        i
    }

    /// Notes that an operation completed at `now`.
    pub fn finish_op_at(&mut self, id: u64, now: Timestamp)
        requires
            old(self)@.well_formed(),
        ensures
            final(self)@.well_formed(),
            final(self)@ == old(self)@.after_end(id, StatusModel::Completed, now),
    {
        self.action_log.finish_at(id, now);
        self.remove_op(id);
    }

    /// Notes that an operation completed.
    pub fn finish_op(&mut self, id: u64)
        requires
            old(self)@.well_formed(),
        ensures
            final(self)@.well_formed(),
            exists|now: Timestamp|
                final(self)@ == old(self)@.after_end(id, StatusModel::Completed, now),
    {
        let now = Timestamp::now();
        self.finish_op_at(id, now);
    }

    /// Notes that an operation failed at `now`.
    pub fn fail_op_at(&mut self, id: u64, error: String, now: Timestamp)
        requires
            old(self)@.well_formed(),
        ensures
            final(self)@.well_formed(),
            final(self)@ == old(self)@.after_end(id, StatusModel::Failed(error@), now),
    {
        self.action_log.fail_at(id, error, now);
        self.remove_op(id);
    }

    /// Notes that an operation failed.
    pub fn fail_op(&mut self, id: u64, error: String)
        requires
            old(self)@.well_formed(),
        ensures
            final(self)@.well_formed(),
            exists|now: Timestamp|
                final(self)@ == old(self)@.after_end(id, StatusModel::Failed(error@), now),
    {
        let now = Timestamp::now();
        self.fail_op_at(id, error, now);
    }

    /// The identifiers of the operations that a request to kill is about.
    pub fn kill_targets(&self, id: Option<u64>) -> (r: Vec<u64>)
        ensures
            r@ == Seq::new(
                self@.kill_targets(id).len(),
                |i: int| self@.kill_targets(id)[i].id,
            ),
    {
        let ghost targets = self@.kill_targets(id);
        let mut out: Vec<u64> = Vec::new();
        match id {
            Some(target) => {
                let i: usize = self.index_of_op(target);
                if i < self.running_ops.len() {
                    out.push(self.running_ops[i].id);
                }
            },
            None => {
                let mut i: usize = 0;
                while i < self.running_ops.len()
                    invariant
                        i <= self.running_ops@.len(),
                        out@.len() == i,
                        forall|j: int| 0 <= j < i ==> out@[j] == self.running_ops@[j].id,
                    decreases self.running_ops@.len() - i,
                {
                    out.push(self.running_ops[i].id);
                    i += 1;
                }
            },
        }
        assert(out@ =~= Seq::new(targets.len(), |i: int| targets[i].id));
        out
    }

    /// Kills one operation at `now`, or all where no identifier is given. Says whether
    /// there was any to kill.
    pub fn kill_op_at(&mut self, id: Option<u64>, now: Timestamp) -> (r: bool)
        requires
            old(self)@.well_formed(),
        ensures
            final(self)@.well_formed(),
            final(self)@ == old(self)@.after_kill(id, now),
            r == (old(self)@.kill_targets(id).len() > 0),
    {
        let ghost before = self@;
        let ghost targets = self@.kill_targets(id);
        let ids = self.kill_targets(id);
        match id {
            Some(target) => {
                self.remove_op(target);
            },
            None => {
                self.running_ops.truncate(0);
                assert(self@.running =~= Seq::empty());
            },
        }
        let ghost removed = self@;
        let mut i: usize = 0;
        assert(targets.take(0) =~= Seq::<OpModel>::empty());
        while i < ids.len()
            invariant
                i <= ids@.len(),
                ids@.len() == targets.len(),
                forall|j: int| 0 <= j < ids@.len() ==> ids@[j] == (#[trigger] targets[j]).id,
                self@.well_formed(),
                self@ == (StateModel {
                    log: killed_log(before.log, targets.take(i as int), now),
                    ..removed
                }),
            decreases ids@.len() - i,
        {
            proof {
                assert(targets.take(i + 1).drop_last() =~= targets.take(i as int));
                assert(targets.take(i + 1).last() == targets[i as int]);
            }
            self.action_log.kill_at(ids[i], now);
            assert(self@ =~= (StateModel {
                log: killed_log(before.log, targets.take(i + 1), now),
                ..removed
            }));
            i += 1;
        }
        assert(targets.take(i as int) =~= targets);
        assert(self@ =~= before.after_kill(id, now));
        ids.len() > 0
    }

    /// Kills one operation, or all where no identifier is given.
    pub fn kill_op(&mut self, id: Option<u64>) -> (r: bool)
        requires
            old(self)@.well_formed(),
        ensures
            final(self)@.well_formed(),
            exists|now: Timestamp| final(self)@ == old(self)@.after_kill(id, now),
            r == (old(self)@.kill_targets(id).len() > 0),
    {
        let now = Timestamp::now();
        self.kill_op_at(id, now)
    }

    /// Whether another set of permits can be counted.
    pub fn can_rebuild(&self) -> (r: bool)
        ensures
            r == (self@.permit_set < u64::MAX),
    {
        self.permit_set < u64::MAX
    }

    /// Makes a new set of permits where the configuration changed what may run at a time.
    pub fn maybe_rebuild_semaphore(&mut self, old_allow_parallel: bool, new_allow_parallel: bool)
        requires
            old(self)@.well_formed(),
            old(self)@.permit_set < u64::MAX,
        ensures
            final(self)@.well_formed(),
            final(self)@ == old(self)@.after_reload(old_allow_parallel, new_allow_parallel),
    {
        let ghost before = self@;
        if old_allow_parallel != new_allow_parallel {
            self.permits = semaphore_permits(new_allow_parallel);
            self.permit_set = self.permit_set + 1;
            proof {
                lemma_held_none(before.running, self.permit_set);
                assert(self@ =~= before.after_reload(old_allow_parallel, new_allow_parallel));
            }
        }
    }
}

/// No two operations that run work on the same backup.
pub proof fn law_one_operation_per_backup(m: StateModel, i: int, j: int)
    requires
        m.well_formed(),
        0 <= i < m.running.len(),
        0 <= j < m.running.len(),
        m.running[i].backup_name is Some,
        m.running[i].backup_name == m.running[j].backup_name,
    ensures
        i == j,
{
}

/// While only one operation may run at a time, only one does, as far as all of them hold
/// their permits of the present set.
pub proof fn law_operations_are_serialized(m: StateModel)
    requires
        m.well_formed(),
        m.permits == 1,
        forall|i: int|
            0 <= i < m.running.len() ==> (#[trigger] m.running[i]).permit_set == m.permit_set,
    ensures
        m.running.len() <= 1,
{
    lemma_held_all(m.running, m.permit_set);
}

proof fn lemma_held_all(ops: Seq<OpModel>, permit_set: u64)
    requires
        forall|i: int| 0 <= i < ops.len() ==> (#[trigger] ops[i]).permit_set == permit_set,
    ensures
        held(ops, permit_set) == ops.len(),
    decreases ops.len(),
{
    if ops.len() > 0 {
        let init = ops.drop_last();
        assert forall|i: int| 0 <= i < init.len() implies (#[trigger] init[i]).permit_set
            == permit_set by {
            assert(init[i] == ops[i]);
        }
        lemma_held_all(init, permit_set);
        assert(ops[ops.len() - 1].permit_set == permit_set);
    }
}

/// An operation that was started and then ended leaves the list of those that run as it
/// was, so that its backup and its permit are free again.
pub proof fn law_ended_operation_frees_its_backup(
    m: StateModel,
    command: Seq<char>,
    backup_name: Option<Seq<char>>,
    status: StatusModel,
    start: Timestamp,
    end: Timestamp,
)
    requires
        m.well_formed(),
        m.log.next_id < u64::MAX,
        m.start_answer(backup_name) is Ok,
    ensures
        m.after_start(command, backup_name, start).after_end(
            m.log.next_id as u64,
            status,
            end,
        ).running == m.running,
{
    let started = m.after_start(command, backup_name, start);
    let id = m.log.next_id as u64;
    lemma_op_index(started.running, id);
    let k = op_index(started.running, id) as int;
    assert(started.running[m.running.len() as int].id == id);
    assert forall|i: int| 0 <= i < m.running.len() implies (#[trigger] started.running[i]).id != id by {
        assert(started.running[i] == m.running[i]);
    }
    assert(k == m.running.len());
    assert(started.running.remove(k) =~= m.running);
}

/// A refused request starts nothing: the operations that run are the same as before.
pub proof fn law_refused_request_starts_nothing(
    m: StateModel,
    command: Seq<char>,
    backup_name: Option<Seq<char>>,
    now: Timestamp,
)
    requires
        m.start_answer(backup_name) is Err,
    ensures
        m.after_start(command, backup_name, now).running == m.running,
        !m.has_permit() ==> m.after_start(command, backup_name, now) == m,
{
}

/// Killing without an identifier leaves nothing running.
pub proof fn law_kill_all_stops_everything(m: StateModel, now: Timestamp)
    ensures
        m.after_kill(None, now).running.len() == 0,
{
}

/// Operations that run keep running when the configuration changes, and what was running
/// then takes no permit of the new set.
pub proof fn law_reload_disturbs_no_operation(m: StateModel, old_parallel: bool, new_parallel: bool)
    requires
        m.well_formed(),
        m.permit_set < u64::MAX,
        old_parallel != new_parallel,
    ensures
        m.after_reload(old_parallel, new_parallel).running == m.running,
        held(m.running, m.after_reload(old_parallel, new_parallel).permit_set) == 0,
        m.after_reload(old_parallel, new_parallel).has_permit(),
{
    lemma_held_none(m.running, (m.permit_set + 1) as u64);
}

/// The operation is among those that were killed.
pub open spec fn is_target(ops: Seq<OpModel>, id: u64) -> bool {
    exists|i: int| 0 <= i < ops.len() && (#[trigger] ops[i]).id == id
}

/// The log tells of each operation that was killed that it was, and of the others what it
/// told before.
pub proof fn law_killed_operations_are_logged(
    log: LogModel,
    ops: Seq<OpModel>,
    now: Timestamp,
    i: int,
)
    requires
        0 <= i < log.entries.len(),
    ensures
        ({
            let after = killed_log(log, ops, now);
            &&& after.entries.len() == log.entries.len()
            &&& after.entries[i].id == log.entries[i].id
            &&& is_target(ops, log.entries[i].id) ==> after.entries[i].status is Killed
                && after.entries[i].finish == Some(now)
            &&& !is_target(ops, log.entries[i].id) ==> after.entries[i] == log.entries[i]
        }),
    decreases ops.len(),
{
    if ops.len() > 0 {
        let init = ops.drop_last();
        law_killed_operations_are_logged(log, init, now, i);
        let id = log.entries[i].id;
        if is_target(init, id) {
            let k = choose|k: int| 0 <= k < init.len() && (#[trigger] init[k]).id == id;
            assert(ops[k].id == id);
        }
        if is_target(ops, id) && ops.last().id != id {
            let k = choose|k: int| 0 <= k < ops.len() && (#[trigger] ops[k]).id == id;
            assert(init[k].id == id);
        }
        if ops.last().id == id {
            assert(ops[ops.len() - 1].id == id);
        }
    }
}

/// Killing one operation leaves the others running.
pub proof fn law_killing_one_spares_the_others(m: StateModel, id: u64, now: Timestamp, i: int)
    requires
        m.well_formed(),
        0 <= i < m.running.len(),
        m.running[i].id != id,
    ensures
        m.after_kill(Some(id), now).running.contains(m.running[i]),
{
    lemma_op_index(m.running, id);
    let k = op_index(m.running, id) as int;
    let after = without(m.running, id);
    if k >= m.running.len() {
        assert(after[i] == m.running[i]);
    } else if i < k {
        assert(after[i] == m.running[i]);
    } else {
        assert(after[i - 1] == m.running[i]);
    }
}

/// What contracts say of an operation that runs are its own fields, all of them.
pub proof fn law_operations_are_told_with_all_fields(op: RunningOp)
    ensures
        op@.id == op.id,
        op@.command == op.command@,
        op@.backup_name is Some <==> op.backup_name is Some,
        op@.backup_name is Some ==> op@.backup_name->0 == op.backup_name->0@,
        op@.permit_set == op.permit_set,
{
}

} // verus!
