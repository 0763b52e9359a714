//! The log of the server's operations: a bounded list of the latest ones, each with its
//! life from running to completed, failed or killed.

use vstd::prelude::*;
use vstd::string::StringExecFns;

use crate::time::Timestamp;

verus! {

/// How an action stands.
#[derive(Debug, Clone)]
pub enum ActionStatus {
    Running,
    Completed,
    Failed(String),
    Killed,
}

/// What a contract says of how an action stands.
pub enum StatusModel {
    Running,
    Completed,
    Failed(Seq<char>),
    Killed,
}

impl View for ActionStatus {
    type V = StatusModel;

    open spec fn view(&self) -> StatusModel {
        match self {
            ActionStatus::Running => StatusModel::Running,
            ActionStatus::Completed => StatusModel::Completed,
            ActionStatus::Failed(e) => StatusModel::Failed(e@),
            ActionStatus::Killed => StatusModel::Killed,
        }
    }
}

impl ActionStatus {
    /// The status in words, with the error of a failure.
    pub fn text(&self) -> (r: String)
        ensures
            r@ == match self@ {
                StatusModel::Running => "running"@,
                StatusModel::Completed => "completed"@,
                StatusModel::Failed(e) => "failed: "@ + e,
                StatusModel::Killed => "killed"@,
            },
    {
        match self {
            ActionStatus::Running => "running".to_string(),
            ActionStatus::Completed => "completed".to_string(),
            ActionStatus::Failed(e) => "failed: ".to_string().concat(e.as_str()),
            ActionStatus::Killed => "killed".to_string(),
        }
    }

    /// The name of the status, without the error of a failure.
    pub fn name(&self) -> (r: &'static str)
        ensures
            r@ == status_name(self@),
            self is Running ==> r@ == "running"@,
            self is Completed ==> r@ == "completed"@,
            self is Failed ==> r@ == "failed"@,
            self is Killed ==> r@ == "killed"@,
    {
        match self {
            ActionStatus::Running => "running",
            ActionStatus::Completed => "completed",
            ActionStatus::Failed(_) => "failed",
            ActionStatus::Killed => "killed",
        }
    }

    /// The error of a failure; empty for any other status.
    pub fn error(&self) -> (r: String)
        ensures
            r@ == status_error(self@),
            self is Failed ==> r@ == self->Failed_0@,
            !(self is Failed) ==> r@.len() == 0,
    {
        match self {
            ActionStatus::Failed(e) => e.clone(),
            _ => String::new(),
        }
    }
}

/// The name of a status.
pub open spec fn status_name(s: StatusModel) -> Seq<char> {
    match s {
        StatusModel::Running => "running"@,
        StatusModel::Completed => "completed"@,
        StatusModel::Failed(_) => "failed"@,
        StatusModel::Killed => "killed"@,
    }
}

/// The error of a failure; empty for any other status.
pub open spec fn status_error(s: StatusModel) -> Seq<char> {
    match s {
        StatusModel::Failed(e) => e,
        _ => Seq::empty(),
    }
}

/// One action of the log.
#[derive(Debug, Clone)]
pub struct ActionEntry {
    pub id: u64,
    /// The command, such as "create" or "upload".
    pub command: String,
    pub start: Timestamp,
    /// When the action ended; nothing while it runs.
    pub finish: Option<Timestamp>,
    pub status: ActionStatus,
}

/// What a contract says of an action.
#[verifier::ext_equal]
pub struct EntryModel {
    pub id: u64,
    pub command: Seq<char>,
    pub start: Timestamp,
    pub finish: Option<Timestamp>,
    pub status: StatusModel,
}

impl View for ActionEntry {
    type V = EntryModel;

    open spec fn view(&self) -> EntryModel {
        EntryModel {
            id: self.id,
            command: self.command@,
            start: self.start,
            finish: self.finish,
            status: self.status@,
        }
    }
}

/// The models of a list of actions.
pub open spec fn entry_models(v: Seq<ActionEntry>) -> Seq<EntryModel> {
    Seq::new(v.len(), |i: int| v[i]@)
}

/// What a contract says of the log.
#[verifier::ext_equal]
pub struct LogModel {
    /// The actions, oldest first.
    pub entries: Seq<EntryModel>,
    pub capacity: nat,
    /// The identifier of the next action.
    pub next_id: int,
}

impl LogModel {
    /// Identifiers are given out in order, each larger by one than the one before, the log
    /// holds the latest actions without a gap, an action has no end just while it runs, and
    /// the log holds no more actions than its capacity, but always room for one.
    pub open spec fn well_formed(self) -> bool {
        &&& self.next_id >= 1
        &&& forall|i: int| 0 <= i < self.entries.len() ==> 1 <= (#[trigger] self.entries[i]).id
        &&& forall|i: int|
            0 <= i < self.entries.len() ==> (#[trigger] self.entries[i]).id < self.next_id
        &&& forall|i: int, j: int|
            #![trigger self.entries[i], self.entries[j]]
            0 <= i < j < self.entries.len() ==> self.entries[i].id < self.entries[j].id
        &&& forall|i: int|
            0 <= i < self.entries.len() ==> (#[trigger] self.entries[i]).id == self.next_id
                - self.entries.len() + i
        &&& forall|i: int|
            0 <= i < self.entries.len() ==> ((#[trigger] self.entries[i]).finish is None
                <==> self.entries[i].status is Running)
        &&& self.entries.len() <= self.capacity || self.entries.len() <= 1
    }

    /// The log after an action started: the oldest one makes room where the log is full.
    pub open spec fn started(self, command: Seq<char>, now: Timestamp) -> LogModel {
        let kept = if self.entries.len() >= self.capacity && self.entries.len() > 0 {
            self.entries.skip(1)
        } else {
            self.entries
        };
        LogModel {
            entries: kept.push(
                EntryModel {
                    id: self.next_id as u64,
                    command,
                    start: now,
                    finish: None,
                    status: StatusModel::Running,
                },
            ),
            capacity: self.capacity,
            next_id: self.next_id + 1,
        }
    }

    /// The log after an action ended; unchanged where the log does not hold it any more.
    pub open spec fn ended(self, id: u64, status: StatusModel, now: Timestamp) -> LogModel {
        LogModel {
            entries: Seq::new(
                self.entries.len(),
                |i: int|
                    if self.entries[i].id == id {
                        EntryModel { finish: Some(now), status, ..self.entries[i] }
                    } else {
                        self.entries[i]
                    },
            ),
            ..self
        }
    }
}

/// The log of the latest actions.
#[derive(Debug)]
pub struct ActionLog {
    entries: Vec<ActionEntry>,
    capacity: usize,
    next_id: u64,
}

impl View for ActionLog {
    type V = LogModel;

    closed spec fn view(&self) -> LogModel {
        LogModel {
            entries: entry_models(self.entries@),
            capacity: self.capacity as nat,
            next_id: self.next_id as int,
        }
    }
}

impl ActionLog {
    /// A log that holds up to `capacity` actions.
    pub fn new(capacity: usize) -> (r: ActionLog)
        ensures
            r@.well_formed(),
            r@ == (LogModel { entries: Seq::empty(), capacity: capacity as nat, next_id: 1 }),
    {
        let log = ActionLog { entries: Vec::new(), capacity, next_id: 1 };
        assert(log@.entries =~= Seq::empty());
        log
    }

    /// Notes that an action started at `now`, and returns its identifier.
    pub fn start_at(&mut self, command: String, now: Timestamp) -> (r: u64)
        requires
            old(self)@.well_formed(),
            old(self)@.next_id < u64::MAX,
        ensures
            final(self)@.well_formed(),
            final(self)@ == old(self)@.started(command@, now),
            r == old(self)@.next_id,
    {
        let ghost before = self@;
        let ghost text = command@;
        let id: u64 = self.next_id;
        self.next_id = self.next_id + 1;
        if self.entries.len() >= self.capacity && self.entries.len() > 0 {
            self.entries.remove(0);
        }
        self.entries.push(
            ActionEntry { id, command, start: now, finish: None, status: ActionStatus::Running },
        );
        proof {
            let after = before.started(text, now);
            assert(self@.entries =~= after.entries);
            lemma_started_well_formed(before, text, now);
        }
        id
    }

    /// Notes that an action started, and returns its identifier.
    pub fn start(&mut self, command: String) -> (r: u64)
        requires
            old(self)@.well_formed(),
            old(self)@.next_id < u64::MAX,
        ensures
            final(self)@.well_formed(),
            exists|now: Timestamp| final(self)@ == old(self)@.started(command@, now),
            r == old(self)@.next_id,
    {
        let now = Timestamp::now();
        self.start_at(command, now)
    }

    /// Notes how an action ended.
    fn end_at(&mut self, id: u64, status: ActionStatus, now: Timestamp)
        requires
            old(self)@.well_formed(),
            !(status@ is Running),
        ensures
            final(self)@.well_formed(),
            final(self)@ == old(self)@.ended(id, status@, now),
    {
        let ghost before = self@;
        let ghost entries = self.entries@;
        let ghost end = status@;
        let mut i: usize = 0;
        while i < self.entries.len() && self.entries[i].id != id
            invariant
                i <= self.entries@.len(),
                self.entries@ == entries,
                self@ == before,
                forall|j: int| 0 <= j < i ==> (#[trigger] entries[j]).id != id,
            decreases self.entries@.len() - i,
        {
            i += 1;
        }
        if i < self.entries.len() {
            self.entries[i].finish = Some(now);
            self.entries[i].status = status;
        }
        proof {
            let after = before.ended(id, end, now);
            assert(forall|j: int| 0 <= j < entries.len() ==> #[trigger] before.entries[j] == entries[j]@);
            assert forall|j: int| 0 <= j < entries.len() implies #[trigger] self@.entries[j]
                == after.entries[j] by {
                if j < i {
                    assert(entries[j].id != id);
                } else if j > i {
                    assert(before.entries[i as int].id < before.entries[j].id);
                }
            }
            assert(self@.entries =~= after.entries);
            lemma_ended_well_formed(before, id, end, now);
        }
    }

    /// Notes that an action completed at `now`.
    pub fn finish_at(&mut self, id: u64, now: Timestamp)
        requires
            old(self)@.well_formed(),
        ensures
            final(self)@.well_formed(),
            final(self)@ == old(self)@.ended(id, StatusModel::Completed, now),
    {
        self.end_at(id, ActionStatus::Completed, now);
    }

    /// Notes that an action completed.
    pub fn finish(&mut self, id: u64)
        requires
            old(self)@.well_formed(),
        ensures
            final(self)@.well_formed(),
            exists|now: Timestamp|
                final(self)@ == old(self)@.ended(id, StatusModel::Completed, now),
    {
        let now = Timestamp::now();
        self.finish_at(id, now);
    }

    /// Notes that an action failed at `now`.
    pub fn fail_at(&mut self, id: u64, error: String, now: Timestamp)
        requires
            old(self)@.well_formed(),
        ensures
            final(self)@.well_formed(),
            final(self)@ == old(self)@.ended(id, StatusModel::Failed(error@), now),
    {
        self.end_at(id, ActionStatus::Failed(error), now);
    }

    /// Notes that an action failed.
    pub fn fail(&mut self, id: u64, error: String)
        requires
            old(self)@.well_formed(),
        ensures
            final(self)@.well_formed(),
            exists|now: Timestamp|
                final(self)@ == old(self)@.ended(id, StatusModel::Failed(error@), now),
    {
        let now = Timestamp::now();
        self.fail_at(id, error, now);
    }

    /// Notes that an action was killed at `now`.
    pub fn kill_at(&mut self, id: u64, now: Timestamp)
        requires
            old(self)@.well_formed(),
        ensures
            final(self)@.well_formed(),
            final(self)@ == old(self)@.ended(id, StatusModel::Killed, now),
    {
        self.end_at(id, ActionStatus::Killed, now);
    }

    /// Notes that an action was killed.
    pub fn kill(&mut self, id: u64)
        requires
            old(self)@.well_formed(),
        ensures
            final(self)@.well_formed(),
            exists|now: Timestamp| final(self)@ == old(self)@.ended(id, StatusModel::Killed, now),
    {
        let now = Timestamp::now();
        self.kill_at(id, now);
    }

    /// Whether so many more actions can get an identifier.
    pub fn ids_left(&self, n: usize) -> (r: bool)
        ensures
            r == (self@.next_id + n <= u64::MAX),
    {
        n as u64 <= u64::MAX - self.next_id
    }

    /// The actions, oldest first.
    pub fn entries(&self) -> (r: &Vec<ActionEntry>)
        ensures
            entry_models(r@) == self@.entries,
    {
        &self.entries
    }

    /// The oldest action that runs.
    pub fn running(&self) -> (r: Option<&ActionEntry>)
        ensures
            match r {
                Some(e) => exists|i: int|
                    0 <= i < self@.entries.len() && #[trigger] self@.entries[i] == e@
                        && e@.status is Running && forall|j: int|
                        0 <= j < i ==> !((#[trigger] self@.entries[j]).status is Running),
                None => forall|i: int|
                    0 <= i < self@.entries.len() ==> !((#[trigger] self@.entries[i]).status is Running),
            },
    {
        let mut i: usize = 0;
        while i < self.entries.len()
            invariant
                i <= self.entries@.len(),
                self@.entries == entry_models(self.entries@),
                forall|j: int|
                    0 <= j < i ==> !((#[trigger] self@.entries[j]).status is Running),
            decreases self.entries@.len() - i,
        {
            assert(self@.entries[i as int] == self.entries@[i as int]@);
            match &self.entries[i].status {
                ActionStatus::Running => {
                    return Some(&self.entries[i]);
                },
                _ => {},
            }
            i += 1;
        }
        None
    }
}

pub proof fn lemma_started_well_formed(log: LogModel, command: Seq<char>, now: Timestamp)
    requires
        log.well_formed(),
        log.next_id < u64::MAX,
    ensures
        log.started(command, now).well_formed(),
{
    let after = log.started(command, now);
    let n = after.entries.len() - 1;
    let shift = if log.entries.len() >= log.capacity && log.entries.len() > 0 {
        1int
    } else {
        0
    };
    assert forall|i: int| 0 <= i < n implies #[trigger] after.entries[i] == log.entries[i + shift] by {}
}

pub proof fn lemma_ended_well_formed(log: LogModel, id: u64, status: StatusModel, now: Timestamp)
    requires
        log.well_formed(),
        !(status is Running),
    ensures
        log.ended(id, status, now).well_formed(),
{
    let after = log.ended(id, status, now);
    assert forall|i: int| 0 <= i < after.entries.len() implies (#[trigger] after.entries[i]).id
        == log.entries[i].id by {}
}

/// An action that starts gets an identifier that no action had before, and is the last one
/// of the log, running.
pub proof fn law_started_action_is_new(log: LogModel, command: Seq<char>, now: Timestamp)
    requires
        log.well_formed(),
        log.next_id < u64::MAX,
    ensures
        ({
            let after = log.started(command, now);
            &&& after.entries.last().id == log.next_id
            &&& after.entries.last().status is Running
            &&& after.entries.last().finish is None
            &&& forall|i: int|
                0 <= i < log.entries.len() ==> (#[trigger] log.entries[i]).id < log.next_id
        }),
{
}

/// The log holds the latest actions without a gap, each with an identifier larger by one
/// than that of the action before, and an action has no end just while it runs.
pub proof fn law_identifiers_rise_by_one(log: LogModel, i: int)
    requires
        log.well_formed(),
        0 <= i < log.entries.len(),
    ensures
        i + 1 < log.entries.len() ==> log.entries[i + 1].id == log.entries[i].id + 1,
        i + 1 == log.entries.len() ==> log.next_id == log.entries[i].id + 1,
        log.entries[i].finish is None <==> log.entries[i].status is Running,
{
}

/// The log never outgrows its capacity, but always holds the latest action.
pub proof fn law_log_is_bounded(log: LogModel, command: Seq<char>, now: Timestamp)
    requires
        log.well_formed(),
        log.next_id < u64::MAX,
    ensures
        log.started(command, now).entries.len() <= if log.capacity == 0 {
            1
        } else {
            log.capacity
        },
{
}

/// To end an action changes that action alone, and neither its command nor its start.
pub proof fn law_ending_touches_one_action(
    log: LogModel,
    id: u64,
    status: StatusModel,
    now: Timestamp,
    i: int,
)
    requires
        log.well_formed(),
        0 <= i < log.entries.len(),
    ensures
        ({
            let before = log.entries[i];
            let after = log.ended(id, status, now).entries[i];
            &&& log.ended(id, status, now).entries.len() == log.entries.len()
            &&& after.id == before.id && after.command == before.command && after.start
                == before.start
            &&& before.id != id ==> after == before
            &&& before.id == id ==> after.status == status && after.finish == Some(now)
        }),
{
}

/// An action that starts is logged behind all others, under the next identifier, with its
/// command and its start. While there is room all others stay; else just the oldest one goes.
pub proof fn law_log_forgets_only_the_oldest(log: LogModel, command: Seq<char>, now: Timestamp)
    requires
        log.well_formed(),
        log.next_id < u64::MAX,
    ensures
        ({
            let after = log.started(command, now);
            &&& log.entries.len() < log.capacity ==> after.entries.drop_last() == log.entries
            &&& log.entries.len() >= log.capacity && log.entries.len() > 0
                ==> after.entries.drop_last() == log.entries.drop_first()
            &&& after.entries.last().id == log.next_id
            &&& after.entries.last().command == command
            &&& after.entries.last().start == now
            &&& after.entries.last().finish is None
            &&& after.next_id == log.next_id + 1
            &&& after.capacity == log.capacity
        }),
{
    let after = log.started(command, now);
    if log.entries.len() < log.capacity {
        assert(after.entries.drop_last() =~= log.entries);
    } else if log.entries.len() > 0 {
        assert(after.entries.drop_last() =~= log.entries.drop_first());
    }
}

/// What contracts say of an action are its own fields, all of them.
pub proof fn law_actions_are_told_with_all_fields(e: ActionEntry)
    ensures
        e@.id == e.id,
        e@.command == e.command@,
        e@.start == e.start,
        e@.finish == e.finish,
        e.status is Running <==> e@.status is Running,
        e.status is Completed <==> e@.status is Completed,
        e.status is Failed <==> e@.status is Failed,
        e.status is Killed <==> e@.status is Killed,
        e.status is Failed ==> e@.status->Failed_0 == e.status->Failed_0@,
{
}

} // verus!
