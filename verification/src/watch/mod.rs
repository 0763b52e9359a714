//! The watch loop, which keeps a chain of full and incremental backups: a state machine
//! that decides on the next step from what has happened. Each method takes an event and
//! returns the step to take.

pub mod laws;
pub mod resume;
pub mod template;

use vstd::prelude::*;

use crate::list::BackupSummary;
use crate::server::state::{name_fault, validate_backup_name, WatchStatus};
use crate::text::opt_text;
use crate::time::{Duration, Timestamp, NANOS_PER_SEC};
use crate::watch::resume::{
    belongs, decided, decided_by, names_told_alike, possible_kinds, resume_state, ResumeDecision,
};

verus! {

/// What the watch loop is doing.
#[derive(Debug, Clone, Copy, PartialEq, Eq, Structural)]
pub enum WatchState {
    /// Between two cycles.
    Idle,
    /// Making a full backup.
    CreatingFull,
    /// Making an incremental backup.
    CreatingIncr,
    /// Uploading the backup.
    Uploading,
    /// Deleting backups that are not kept.
    Cleaning,
    /// Sleeping between two cycles.
    Sleeping,
    /// Waiting after an error.
    Error,
}

impl WatchState {
    /// The number by which the metrics show the state.
    pub open spec fn number(self) -> int {
        match self {
            WatchState::Idle => 1,
            WatchState::CreatingFull => 2,
            WatchState::CreatingIncr => 3,
            WatchState::Uploading => 4,
            WatchState::Cleaning => 5,
            WatchState::Sleeping => 6,
            WatchState::Error => 7,
        }
    }

    /// The number by which the metrics show the state.
    pub fn metric(self) -> (r: i64)
        ensures
            r == self.number(),
            self is Idle ==> r == 1,
            self is CreatingFull ==> r == 2,
            self is CreatingIncr ==> r == 3,
            self is Uploading ==> r == 4,
            self is Cleaning ==> r == 5,
            self is Sleeping ==> r == 6,
            self is Error ==> r == 7,
    {
        match self {
            WatchState::Idle => 1,
            WatchState::CreatingFull => 2,
            WatchState::CreatingIncr => 3,
            WatchState::Uploading => 4,
            WatchState::Cleaning => 5,
            WatchState::Sleeping => 6,
            WatchState::Error => 7,
        }
    }
}

/// The state in the words of the API.
pub open spec fn state_text(s: WatchState) -> Seq<char> {
    match s {
        WatchState::Idle => "idle"@,
        WatchState::CreatingFull => "creating_full"@,
        WatchState::CreatingIncr => "creating_incr"@,
        WatchState::Uploading => "uploading"@,
        WatchState::Cleaning => "cleaning"@,
        WatchState::Sleeping => "sleeping"@,
        WatchState::Error => "error"@,
    }
}

/// The state in the words of the API.
pub fn watch_state_name(s: WatchState) -> (r: &'static str)
    ensures
        r@ == state_text(s),
        s is Idle ==> r@ == "idle"@,
        s is CreatingFull ==> r@ == "creating_full"@,
        s is CreatingIncr ==> r@ == "creating_incr"@,
        s is Uploading ==> r@ == "uploading"@,
        s is Cleaning ==> r@ == "cleaning"@,
        s is Sleeping ==> r@ == "sleeping"@,
        s is Error ==> r@ == "error"@,
{
    match s {
        WatchState::Idle => "idle",
        WatchState::CreatingFull => "creating_full",
        WatchState::CreatingIncr => "creating_incr",
        WatchState::Uploading => "uploading",
        WatchState::Cleaning => "cleaning",
        WatchState::Sleeping => "sleeping",
        WatchState::Error => "error",
    }
}

/// Why the watch loop ended.
#[derive(Debug, Clone, Copy, PartialEq, Eq, Structural)]
pub enum WatchLoopExit {
    /// The process is to end.
    Shutdown,
    /// Too many errors in a row.
    MaxErrors,
    /// The API asked for it.
    Stopped,
}

/// The configuration of the loop.
#[derive(Debug)]
pub struct WatchSettings {
    /// Errors in a row that end the loop; 0 for no limit.
    pub max_consecutive_errors: u32,
    /// Seconds between two backups, if the configured text is a duration.
    pub watch_interval_secs: Option<u64>,
    /// Seconds between two full backups, if the configured text is a duration.
    pub full_interval_secs: Option<u64>,
    /// Seconds to wait after an error, if the configured text is a duration.
    pub retry_interval_secs: Option<u64>,
    pub name_template: String,
    /// The tables to back up, as configured for the loop.
    pub tables: Option<String>,
    /// The tables to back up, as configured for every backup; empty for all.
    pub backup_tables: String,
    pub delete_local_after_upload: bool,
    /// Local backups to keep; none are deleted where this is not positive.
    pub keep_local: i64,
    /// Remote backups to keep; none are deleted where this is not positive.
    pub keep_remote: i64,
}

/// Nanoseconds of a configured interval, or of the default.
pub open spec fn interval_nanos(secs: Option<u64>, default_secs: nat) -> nat {
    match secs {
        Some(s) => s as nat * NANOS_PER_SEC as nat,
        None => default_secs * NANOS_PER_SEC as nat,
    }
}

/// A configured interval, or the default.
fn interval(secs: Option<u64>, default_secs: u64) -> (r: Duration)
    ensures
        r.total_nanos() == interval_nanos(secs, default_secs as nat),
{
    match secs {
        Some(s) => Duration::from_secs(s),
        None => Duration::from_secs(default_secs),
    }
}

impl WatchSettings {
    /// Nanoseconds between two backups: an hour where nothing valid is configured.
    pub open spec fn watch_nanos(self) -> nat {
        interval_nanos(self.watch_interval_secs, 3600)
    }

    /// Nanoseconds between two full backups: a day where nothing valid is configured.
    pub open spec fn full_nanos(self) -> nat {
        interval_nanos(self.full_interval_secs, 86400)
    }

    /// Nanoseconds to wait after an error: five minutes where nothing valid is configured.
    pub open spec fn retry_nanos(self) -> nat {
        interval_nanos(self.retry_interval_secs, 300)
    }

    /// The tables to back up: those of the loop, else those of every backup, else all.
    pub open spec fn table_filter(self) -> Option<Seq<char>> {
        match self.tables {
            Some(t) => Some(t@),
            None => if self.backup_tables@.len() > 0 {
                Some(self.backup_tables@)
            } else {
                None
            },
        }
    }

    /// The tables to back up.
    fn filter(&self) -> (r: Option<String>)
        ensures
            opt_text(r) == self.table_filter(),
    {
        match &self.tables {
            Some(t) => Some(t.clone()),
            None => if !self.backup_tables.as_str().is_empty() {
                Some(self.backup_tables.clone())
            } else {
                None
            },
        }
    }
}

/// The step to take.
#[derive(Debug)]
pub enum WatchStep {
    /// List the remote backups.
    ListRemote,
    /// Make a name for a backup: a full one, or an incremental one.
    ResolveName { full: bool },
    /// Take the lock of the backup.
    Lock { backup_name: String },
    /// Make the local backup of the tables.
    Create { backup_name: String, tables: Option<String> },
    /// Upload the backup, as the difference to another one if there is one.
    Upload { backup_name: String, diff_from: Option<String> },
    /// Delete the local backup; a failure is no error.
    DeleteLocal { backup_name: String },
    /// Delete local backups beyond those to keep; a failure is no error.
    RetainLocal { keep: i64 },
    /// Delete remote backups beyond those to keep; a failure is no error.
    RetainRemote { keep: i64 },
    /// Sleep, unless a signal ends the loop.
    Sleep { duration: Duration },
    /// End the loop.
    Exit { reason: WatchLoopExit },
}

/// The backup that a cycle makes.
#[derive(Debug)]
pub struct CyclePlan {
    pub full: bool,
    pub diff_from: Option<String>,
    pub backup_name: String,
}

/// What a contract says of the backup that a cycle makes.
#[verifier::ext_equal]
pub struct PlanView {
    pub full: bool,
    pub diff_from: Option<Seq<char>>,
    pub backup_name: Seq<char>,
}

impl View for CyclePlan {
    type V = PlanView;

    open spec fn view(&self) -> PlanView {
        PlanView {
            full: self.full,
            diff_from: opt_text(self.diff_from),
            backup_name: self.backup_name@,
        }
    }
}

/// What a contract says of the loop.
#[verifier::ext_equal]
pub struct WatchModel {
    pub state: WatchState,
    pub consecutive_errors: u32,
    /// The next backup is full, whatever the existing ones say.
    pub force_next_full: bool,
    pub last_backup_name: Option<Seq<char>>,
    pub plan: PlanView,
    pub last_full: Option<Timestamp>,
    pub last_incr: Option<Timestamp>,
    /// What the API shows as the number of errors in a row.
    pub shown_errors: u32,
    /// What the API shows as the time to the next backup, in nanoseconds.
    pub next_backup_in: Option<nat>,
}

/// The watch loop.
#[derive(Debug)]
pub struct WatchContext {
    state: WatchState,
    consecutive_errors: u32,
    force_next_full: bool,
    last_backup_name: Option<String>,
    plan: CyclePlan,
    status: WatchStatus,
}

impl View for WatchContext {
    type V = WatchModel;

    closed spec fn view(&self) -> WatchModel {
        WatchModel {
            state: self.state,
            consecutive_errors: self.consecutive_errors,
            force_next_full: self.force_next_full,
            last_backup_name: opt_text(self.last_backup_name),
            plan: self.plan@,
            last_full: self.status.last_full,
            last_incr: self.status.last_incr,
            shown_errors: self.status.consecutive_errors,
            next_backup_in: crate::storage::s3::opt_nanos(self.status.next_backup_in),
        }
    }
}

/// The loop after an error: one more in a row, and the next backup is full.
pub open spec fn after_error(m: WatchModel) -> WatchModel {
    WatchModel {
        consecutive_errors: (m.consecutive_errors + 1) as u32,
        shown_errors: (m.consecutive_errors + 1) as u32,
        force_next_full: true,
        state: WatchState::Error,
        ..m
    }
}

/// The loop after a whole cycle: no error in a row any more, and a full backup need not be
/// followed by another.
pub open spec fn after_success(m: WatchModel, settings: WatchSettings) -> WatchModel {
    WatchModel {
        consecutive_errors: 0,
        shown_errors: 0,
        force_next_full: m.force_next_full && !m.plan.full,
        last_backup_name: Some(m.plan.backup_name),
        state: WatchState::Sleeping,
        next_backup_in: Some(settings.watch_nanos()),
        ..m
    }
}

/// The loop sleeps for the time.
pub open spec fn sleeps(step: WatchStep, nanos: nat) -> bool {
    step matches WatchStep::Sleep { duration } && duration.total_nanos() == nanos
}

/// Too many errors in a row.
pub open spec fn too_many_errors(m: WatchModel, settings: WatchSettings) -> bool {
    settings.max_consecutive_errors > 0 && m.consecutive_errors >= settings.max_consecutive_errors
}

/// The decision is one that the loop makes on the backups with its settings: the one that
/// the names of its own backups give, where none of them has a backslash, and in any case one
/// that follows from what they can be taken for.
pub open spec fn decides(
    settings: WatchSettings,
    backups: Seq<BackupSummary>,
    now: int,
    d: ResumeDecision,
) -> bool {
    let template = settings.name_template@;
    &&& exists|kinds: Seq<Option<Seq<char>>>| #[trigger]
        possible_kinds(backups, template, kinds) && decided_by(
            backups,
            kinds,
            template,
            settings.watch_nanos(),
            settings.full_nanos(),
            now,
            d,
        )
    &&& names_told_alike(backups, template) ==> decided(
        backups,
        template,
        settings.watch_nanos(),
        settings.full_nanos(),
        now,
        d,
    )
    &&& (forall|i: int| 0 <= i < backups.len() ==> !belongs(#[trigger] backups[i], template))
        ==> d is FullNow
}

impl WatchContext {
    /// What the API shows agrees with the loop.
    pub closed spec fn well_formed(self) -> bool {
        &&& self.status.active
        &&& self.status.state@ == state_text(self.state)
    }

    /// The loop before its first cycle.
    pub fn new() -> (r: WatchContext)
        ensures
            r.well_formed(),
            r@ == (WatchModel {
                state: WatchState::Idle,
                consecutive_errors: 0,
                force_next_full: false,
                last_backup_name: None,
                plan: PlanView { full: true, diff_from: None, backup_name: Seq::empty() },
                last_full: None,
                last_incr: None,
                shown_errors: 0,
                next_backup_in: None,
            }),
    {
        WatchContext {
            state: WatchState::Idle,
            consecutive_errors: 0,
            force_next_full: false,
            last_backup_name: None,
            plan: CyclePlan { full: true, diff_from: None, backup_name: String::new() },
            status: WatchStatus {
                active: true,
                state: "idle".to_string(),
                last_full: None,
                last_incr: None,
                consecutive_errors: 0,
                next_backup_in: None,
            },
        }
    }

    /// The loop before its first cycle, on a server that has shown the status of an earlier
    /// one: what was shown of its backups and errors is shown until it changes, but the
    /// errors themselves are forgotten.
    pub fn after(shown: &WatchStatus) -> (r: WatchContext)
        ensures
            r.well_formed(),
            r@ == (WatchModel {
                state: WatchState::Idle,
                consecutive_errors: 0,
                force_next_full: false,
                last_backup_name: None,
                plan: PlanView { full: true, diff_from: None, backup_name: Seq::empty() },
                last_full: shown.last_full,
                last_incr: shown.last_incr,
                shown_errors: shown.consecutive_errors,
                next_backup_in: crate::storage::s3::opt_nanos(shown.next_backup_in),
            }),
    {
        WatchContext {
            state: WatchState::Idle,
            consecutive_errors: 0,
            force_next_full: false,
            last_backup_name: None,
            plan: CyclePlan { full: true, diff_from: None, backup_name: String::new() },
            status: WatchStatus {
                active: true,
                state: "idle".to_string(),
                last_full: shown.last_full,
                last_incr: shown.last_incr,
                consecutive_errors: shown.consecutive_errors,
                next_backup_in: shown.next_backup_in,
            },
        }
    }

    /// How the loop stands, as the API shows it.
    pub fn status(&self) -> (r: &WatchStatus)
        requires
            self.well_formed(),
        ensures
            r.active,
            r.state@ == state_text(self@.state),
            r.last_full == self@.last_full,
            r.last_incr == self@.last_incr,
            r.consecutive_errors == self@.shown_errors,
            crate::storage::s3::opt_nanos(r.next_backup_in) == self@.next_backup_in,
    {
        &self.status
    }

    /// Whether another error can be counted.
    pub fn can_fail(&self) -> (r: bool)
        ensures
            r == (self@.consecutive_errors < u32::MAX),
    {
        self.consecutive_errors < u32::MAX
    }

    /// What the loop is doing.
    pub fn state(&self) -> (r: WatchState)
        ensures
            r == self@.state,
    {
        self.state
    }

    fn set_state(&mut self, state: WatchState)
        requires
            old(self).well_formed(),
        ensures
            final(self).well_formed(),
            final(self)@ == (WatchModel { state, ..old(self)@ }),
    {
        self.state = state;
        self.status.state = watch_state_name(state).to_string();
    }

    fn set_consecutive_errors(&mut self, count: u32)
        requires
            old(self).well_formed(),
        ensures
            final(self).well_formed(),
            final(self)@ == (WatchModel {
                consecutive_errors: count,
                shown_errors: count,
                ..old(self)@
            }),
    {
        self.consecutive_errors = count;
        self.status.consecutive_errors = count;
    }

    fn sleep_until_next(&mut self, duration: Duration) -> (r: WatchStep)
        requires
            old(self).well_formed(),
        ensures
            final(self).well_formed(),
            final(self)@ == (WatchModel {
                state: WatchState::Sleeping,
                next_backup_in: Some(duration.total_nanos()),
                ..old(self)@
            }),
            sleeps(r, duration.total_nanos()),
    {
        self.set_state(WatchState::Sleeping);
        self.status.next_backup_in = Some(duration);
        WatchStep::Sleep { duration }
    }

    /// A cycle begins: the loop ends after too many errors in a row, and where the process
    /// is to end.
    pub fn begin_cycle(&mut self, settings: &WatchSettings, shutdown: bool) -> (r: WatchStep)
        requires
            old(self).well_formed(),
        ensures
            final(self).well_formed(),
            if too_many_errors(old(self)@, *settings) {
                final(self)@ == old(self)@ && r == (WatchStep::Exit {
                    reason: WatchLoopExit::MaxErrors,
                })
            } else if shutdown {
                final(self)@ == (WatchModel { state: WatchState::Idle, ..old(self)@ }) && r == (
                WatchStep::Exit { reason: WatchLoopExit::Shutdown })
            } else {
                final(self)@ == (WatchModel { state: WatchState::Idle, ..old(self)@ }) && r
                    == WatchStep::ListRemote
            },
    {
        if self.consecutive_errors >= settings.max_consecutive_errors
            && settings.max_consecutive_errors > 0 {
            return WatchStep::Exit { reason: WatchLoopExit::MaxErrors };
        }
        self.set_state(WatchState::Idle);
        if shutdown {
            WatchStep::Exit { reason: WatchLoopExit::Shutdown }
        } else {
            WatchStep::ListRemote
        }
    }

    /// Something failed: the loop waits, and the next backup is full.
    pub fn failed(&mut self, settings: &WatchSettings) -> (r: WatchStep)
        requires
            old(self).well_formed(),
            old(self)@.consecutive_errors < u32::MAX,
        ensures
            final(self).well_formed(),
            final(self)@ == after_error(old(self)@),
            sleeps(r, settings.retry_nanos()),
            final(self)@.state is Error,
            final(self)@.force_next_full,
            final(self)@.consecutive_errors == old(self)@.consecutive_errors + 1,
            final(self)@.shown_errors == old(self)@.consecutive_errors + 1,
            final(self)@.last_backup_name == old(self)@.last_backup_name,
            final(self)@.last_full == old(self)@.last_full,
            final(self)@.last_incr == old(self)@.last_incr,
            r is Sleep,
            settings.retry_interval_secs matches Some(n) ==> r->duration.total_nanos() == n
                * 1_000_000_000,
            settings.retry_interval_secs is None ==> r->duration.total_nanos() == 300
                * 1_000_000_000,
    {
        let count: u32 = self.consecutive_errors + 1;
        self.set_consecutive_errors(count);
        self.force_next_full = true;
        self.set_state(WatchState::Error);
        WatchStep::Sleep { duration: interval(settings.retry_interval_secs, 300) }
    }

    /// The remote backups are known: the loop sleeps, or plans the next backup.
    pub fn listed(
        &mut self,
        settings: &WatchSettings,
        backups: &Vec<BackupSummary>,
        now: Timestamp,
    ) -> (r: WatchStep)
        requires
            old(self).well_formed(),
        ensures
            final(self).well_formed(),
            exists|d: ResumeDecision|
                decides(*settings, backups@, now.instant(), d) && #[trigger] old(
                    self,
                )@.follows_decision(d, final(self)@, r),
    {
        let decision = resume_state(
            backups,
            settings.name_template.as_str(),
            interval(settings.watch_interval_secs, 3600),
            interval(settings.full_interval_secs, 86400),
            now,
        );
        assert(decides(*settings, backups@, now.instant(), decision));
        self.follow(decision)
    }

    /// The decision is made: the loop sleeps, or plans the next backup. After an error the
    /// backup is full.
    pub fn follow(&mut self, decision: ResumeDecision) -> (r: WatchStep)
        requires
            old(self).well_formed(),
        ensures
            final(self).well_formed(),
            old(self)@.follows_decision(decision, final(self)@, r),
            r is Sleep <==> decision is SleepThen,
            decision is SleepThen ==> r->duration.total_nanos()
                == decision->remaining.total_nanos() && final(self)@.next_backup_in == Some(
                decision->remaining.total_nanos(),
            ),
            !(decision is SleepThen) ==> final(self)@.plan.full == (decision is FullNow || old(
                self,
            )@.force_next_full) && r == (WatchStep::ResolveName { full: final(self)@.plan.full }),
            decision is IncrNow && !old(self)@.force_next_full ==> final(self)@.plan.diff_from
                == Some(decision->diff_from@),
            !(decision is SleepThen) && final(self)@.plan.full ==> final(self)@.plan.diff_from
                is None,
    {
        let diff_from: Option<String> = match decision {
            ResumeDecision::SleepThen { remaining, backup_type } => {
                return self.sleep_until_next(remaining);
            },
            ResumeDecision::FullNow => None,
            ResumeDecision::IncrNow { diff_from } => if self.force_next_full {
                None
            } else {
                Some(diff_from)
            },
        };
        let full = diff_from.is_none();
        self.plan = CyclePlan { full, diff_from, backup_name: String::new() };
        WatchStep::ResolveName { full }
    }

    /// The backup has a name: the loop takes its lock, or treats a name that is none as an
    /// error.
    pub fn named(&mut self, settings: &WatchSettings, backup_name: String) -> (r: WatchStep)
        requires
            old(self).well_formed(),
            old(self)@.consecutive_errors < u32::MAX,
        ensures
            final(self).well_formed(),
            match name_fault(backup_name@) {
                Some(_) => final(self)@ == after_error(old(self)@) && sleeps(
                    r,
                    settings.retry_nanos(),
                ),
                None => final(self)@ == (WatchModel {
                    plan: PlanView { backup_name: backup_name@, ..old(self)@.plan },
                    ..old(self)@
                }) && (r matches WatchStep::Lock { backup_name: n } && n@ == backup_name@),
            },
    {
        match validate_backup_name(backup_name.as_str()) {
            Err(_) => self.failed(settings),
            Ok(_) => {
                self.plan.backup_name = backup_name.clone();
                WatchStep::Lock { backup_name }
            },
        }
    }

    /// The lock is taken: the loop makes the backup.
    pub fn locked(&mut self, settings: &WatchSettings) -> (r: WatchStep)
        requires
            old(self).well_formed(),
        ensures
            final(self).well_formed(),
            final(self)@ == (WatchModel {
                state: if old(self)@.plan.full {
                    WatchState::CreatingFull
                } else {
                    WatchState::CreatingIncr
                },
                ..old(self)@
            }),
            r matches WatchStep::Create { backup_name, tables } && backup_name@ == old(
                self,
            )@.plan.backup_name && opt_text(tables) == settings.table_filter(),
            r is Create,
            settings.tables matches Some(t) ==> opt_text(r->tables) == Some(t@),
            settings.tables is None && settings.backup_tables@.len() > 0 ==> opt_text(r->tables)
                == Some(settings.backup_tables@),
            settings.tables is None && settings.backup_tables@.len() == 0 ==> r->tables is None,
    {
        if self.plan.full {
            self.set_state(WatchState::CreatingFull);
        } else {
            self.set_state(WatchState::CreatingIncr);
        }
        WatchStep::Create {
            backup_name: self.plan.backup_name.clone(),
            tables: settings.filter(),
        }
    }

    /// The backup is made: the loop uploads it.
    pub fn created(&mut self) -> (r: WatchStep)
        requires
            old(self).well_formed(),
        ensures
            final(self).well_formed(),
            final(self)@ == (WatchModel { state: WatchState::Uploading, ..old(self)@ }),
            r matches WatchStep::Upload { backup_name, diff_from } && backup_name@ == old(
                self,
            )@.plan.backup_name && opt_text(diff_from) == old(self)@.plan.diff_from,
    {
        self.set_state(WatchState::Uploading);
        WatchStep::Upload {
            backup_name: self.plan.backup_name.clone(),
            diff_from: self.plan.diff_from.clone(),
        }
    }

    /// The backup is uploaded: the loop notes when, and deletes the local backup if it is
    /// to, or goes on to what is kept.
    pub fn uploaded(&mut self, settings: &WatchSettings, now: Timestamp) -> (r: WatchStep)
        requires
            old(self).well_formed(),
        ensures
            final(self).well_formed(),
            ({
                let noted = if old(self)@.plan.full {
                    WatchModel { last_full: Some(now), ..old(self)@ }
                } else {
                    WatchModel { last_incr: Some(now), ..old(self)@ }
                };
                if settings.delete_local_after_upload {
                    final(self)@ == noted && (r matches WatchStep::DeleteLocal { backup_name }
                        && backup_name@ == old(self)@.plan.backup_name)
                } else {
                    noted.follows_deletion(*settings, final(self)@, r)
                }
            }),
    {
        if self.plan.full {
            self.status.last_full = Some(now);
        } else {
            self.status.last_incr = Some(now);
        }
        if settings.delete_local_after_upload {
            return WatchStep::DeleteLocal { backup_name: self.plan.backup_name.clone() };
        }
        self.local_deleted(settings)
    }

    /// The local backup is deleted, or could not be: the loop goes on to what is kept.
    pub fn local_deleted(&mut self, settings: &WatchSettings) -> (r: WatchStep)
        requires
            old(self).well_formed(),
        ensures
            final(self).well_formed(),
            old(self)@.follows_deletion(*settings, final(self)@, r),
            settings.keep_local > 0 ==> r == (WatchStep::RetainLocal { keep: settings.keep_local }),
            settings.keep_local <= 0 && settings.keep_remote > 0 ==> r == (
            WatchStep::RetainRemote { keep: settings.keep_remote }),
            settings.keep_local <= 0 && settings.keep_remote <= 0 ==> r is Sleep,
    {
        self.set_state(WatchState::Cleaning);
        if settings.keep_local > 0 {
            return WatchStep::RetainLocal { keep: settings.keep_local };
        }
        self.local_retained(settings)
    }

    /// Local backups beyond those to keep are deleted, or could not be.
    pub fn local_retained(&mut self, settings: &WatchSettings) -> (r: WatchStep)
        requires
            old(self).well_formed(),
        ensures
            final(self).well_formed(),
            old(self)@.follows_local_retention(*settings, final(self)@, r),
            settings.keep_remote > 0 ==> r == (WatchStep::RetainRemote {
                keep: settings.keep_remote,
            }),
            settings.keep_remote <= 0 ==> r is Sleep,
    {
        if settings.keep_remote > 0 {
            return WatchStep::RetainRemote { keep: settings.keep_remote };
        }
        self.remote_retained(settings)
    }

    /// Remote backups beyond those to keep are deleted, or could not be: the cycle is
    /// complete, and the loop sleeps.
    pub fn remote_retained(&mut self, settings: &WatchSettings) -> (r: WatchStep)
        requires
            old(self).well_formed(),
        ensures
            final(self).well_formed(),
            final(self)@ == after_success(old(self)@, *settings),
            sleeps(r, settings.watch_nanos()),
            final(self)@.state is Sleeping,
            final(self)@.consecutive_errors == 0,
            final(self)@.shown_errors == 0,
            final(self)@.last_backup_name == Some(old(self)@.plan.backup_name),
            final(self)@.force_next_full == (old(self)@.force_next_full && !old(self)@.plan.full),
            r is Sleep,
            final(self)@.next_backup_in == Some(r->duration.total_nanos()),
            settings.watch_interval_secs matches Some(n) ==> r->duration.total_nanos() == n
                * 1_000_000_000,
            settings.watch_interval_secs is None ==> r->duration.total_nanos() == 3600
                * 1_000_000_000,
    {
        self.set_consecutive_errors(0);
        if self.plan.full {
            self.force_next_full = false;
        }
        self.last_backup_name = Some(self.plan.backup_name.clone());
        self.sleep_until_next(interval(settings.watch_interval_secs, 3600))
    }

    /// The loop woke up, by itself or by a signal.
    pub fn woke(&mut self)
        requires
            old(self).well_formed(),
        ensures
            final(self).well_formed(),
            final(self)@ == (WatchModel { next_backup_in: None, ..old(self)@ }),
    {
        self.status.next_backup_in = None;
    }
}

impl WatchModel {
    /// What follows a decision: a sleep for the time that it gives, or a plan. After an
    /// error the plan is for a full backup, whatever the decision.
    pub open spec fn follows_decision(
        self,
        d: ResumeDecision,
        after: WatchModel,
        step: WatchStep,
    ) -> bool {
        match d {
            ResumeDecision::SleepThen { remaining, .. } => {
                &&& after == (WatchModel {
                    state: WatchState::Sleeping,
                    next_backup_in: Some(remaining.total_nanos()),
                    ..self
                })
                &&& sleeps(step, remaining.total_nanos())
            },
            ResumeDecision::FullNow => {
                &&& after == (WatchModel {
                    plan: PlanView { full: true, diff_from: None, backup_name: Seq::empty() },
                    ..self
                })
                &&& step == (WatchStep::ResolveName { full: true })
            },
            ResumeDecision::IncrNow { diff_from } => {
                &&& after == (WatchModel {
                    plan: PlanView {
                        full: self.force_next_full,
                        diff_from: if self.force_next_full {
                            None
                        } else {
                            Some(diff_from@)
                        },
                        backup_name: Seq::empty(),
                    },
                    ..self
                })
                &&& step == (WatchStep::ResolveName { full: self.force_next_full })
            },
        }
    }

    /// What follows the deletion of the local backup.
    pub open spec fn follows_deletion(
        self,
        settings: WatchSettings,
        after: WatchModel,
        step: WatchStep,
    ) -> bool {
        let cleaning = WatchModel { state: WatchState::Cleaning, ..self };
        if settings.keep_local > 0 {
            after == cleaning && step == (WatchStep::RetainLocal { keep: settings.keep_local })
        } else {
            cleaning.follows_local_retention(settings, after, step)
        }
    }

    /// What follows the deletion of local backups beyond those to keep.
    pub open spec fn follows_local_retention(
        self,
        settings: WatchSettings,
        after: WatchModel,
        step: WatchStep,
    ) -> bool {
        if settings.keep_remote > 0 {
            after == self && step == (WatchStep::RetainRemote { keep: settings.keep_remote })
        } else {
            after == after_success(self, settings) && sleeps(step, settings.watch_nanos())
        }
    }
}

/// What happened while the loop slept.
#[derive(Debug, Clone, Copy, PartialEq, Eq, Structural)]
pub enum SleepEvent {
    /// The time is over.
    Elapsed,
    /// The signal to end the process has this value now.
    Shutdown { requested: bool },
    /// The signal to load the configuration anew has this value now.
    Reload { requested: bool },
}

/// What follows an event during the sleep.
#[derive(Debug, Clone, Copy, PartialEq, Eq, Structural)]
pub enum SleepStep {
    /// Go on with the next cycle.
    Wake,
    /// End the loop.
    Exit { reason: WatchLoopExit },
    /// Load the configuration anew and sleep on.
    ReloadConfig,
    /// Sleep on.
    SleepOn,
}

/// What follows an event during the sleep.
pub fn sleep_step(event: SleepEvent) -> (r: SleepStep)
    ensures
        r == match event {
            SleepEvent::Elapsed => SleepStep::Wake,
            SleepEvent::Shutdown { requested } => if requested {
                SleepStep::Exit { reason: WatchLoopExit::Shutdown }
            } else {
                SleepStep::SleepOn
            },
            SleepEvent::Reload { requested } => if requested {
                SleepStep::ReloadConfig
            } else {
                SleepStep::SleepOn
            },
        },
{
    match event {
        SleepEvent::Elapsed => SleepStep::Wake,
        SleepEvent::Shutdown { requested } => if requested {
            SleepStep::Exit { reason: WatchLoopExit::Shutdown }
        } else {
            SleepStep::SleepOn
        },
        SleepEvent::Reload { requested } => if requested {
            SleepStep::ReloadConfig
        } else {
            SleepStep::SleepOn
        },
    }
}

/// After an error the next backup that is planned is a full one on no base, whatever the
/// existing backups say.
pub proof fn law_error_forces_a_full_backup(
    m: WatchModel,
    d: ResumeDecision,
    after: WatchModel,
    step: WatchStep,
)
    requires
        after_error(m).follows_decision(d, after, step),
        step is ResolveName,
    ensures
        after.plan.full,
        after.plan.diff_from is None,
        step == (WatchStep::ResolveName { full: true }),
{
}

/// A cycle that succeeds forgets the errors, and a full one also what they forced.
pub proof fn law_success_resets_errors(m: WatchModel, settings: WatchSettings)
    ensures
        after_success(m, settings).consecutive_errors == 0,
        !too_many_errors(after_success(m, settings), settings),
        m.plan.full ==> !after_success(m, settings).force_next_full,
        !m.plan.full ==> after_success(m, settings).force_next_full == m.force_next_full,
{
}

/// Without a limit the loop never ends for its errors; with one it does after exactly so
/// many in a row.
pub proof fn law_errors_end_the_loop(m: WatchModel, settings: WatchSettings)
    requires
        m.consecutive_errors < u32::MAX,
    ensures
        settings.max_consecutive_errors == 0 ==> !too_many_errors(m, settings),
        settings.max_consecutive_errors > 0 && m.consecutive_errors + 1
            == settings.max_consecutive_errors ==> !too_many_errors(m, settings)
            && too_many_errors(after_error(m), settings),
{
}

// ---------------------------------------------------------------------------
// Many steps
// ---------------------------------------------------------------------------

/// Something that moves the loop on.
pub enum WatchEvent {
    Begin { shutdown: bool },
    Failed,
    Decided { decision: ResumeDecision },
    Named { backup_name: Seq<char> },
    Locked,
    Created,
    Uploaded { now: Timestamp },
    LocalDeleted,
    LocalRetained,
    RemoteRetained,
    Woke,
}

/// The loop with the time of its upload noted.
pub open spec fn noted(m: WatchModel, now: Timestamp) -> WatchModel {
    if m.plan.full {
        WatchModel { last_full: Some(now), ..m }
    } else {
        WatchModel { last_incr: Some(now), ..m }
    }
}

/// The loop moves from `m` to `n` by the event.
pub open spec fn moves(m: WatchModel, e: WatchEvent, settings: WatchSettings, n: WatchModel) -> bool {
    match e {
        WatchEvent::Begin { .. } => n == m || n == (WatchModel { state: WatchState::Idle, ..m }),
        WatchEvent::Failed => n == after_error(m),
        WatchEvent::Decided { decision } => exists|step: WatchStep| m.follows_decision(decision, n, step),
        WatchEvent::Named { backup_name } => if name_fault(backup_name) is Some {
            n == after_error(m)
        } else {
            n == (WatchModel { plan: PlanView { backup_name, ..m.plan }, ..m })
        },
        WatchEvent::Locked => n == (WatchModel { state: n.state, ..m }),
        WatchEvent::Created => n == (WatchModel { state: WatchState::Uploading, ..m }),
        WatchEvent::Uploaded { now } => if settings.delete_local_after_upload {
            n == noted(m, now)
        } else {
            exists|step: WatchStep| noted(m, now).follows_deletion(settings, n, step)
        },
        WatchEvent::LocalDeleted => exists|step: WatchStep| m.follows_deletion(settings, n, step),
        WatchEvent::LocalRetained => exists|step: WatchStep|
            m.follows_local_retention(settings, n, step),
        WatchEvent::RemoteRetained => n == after_success(m, settings),
        WatchEvent::Woke => n == (WatchModel { next_backup_in: None, ..m }),
    }
}

/// The event completes a cycle.
pub open spec fn completes(e: WatchEvent, settings: WatchSettings) -> bool {
    let keeps_all_remote = settings.keep_remote <= 0;
    let keeps_all = keeps_all_remote && settings.keep_local <= 0;
    match e {
        WatchEvent::RemoteRetained => true,
        WatchEvent::LocalRetained => keeps_all_remote,
        WatchEvent::LocalDeleted => keeps_all,
        WatchEvent::Uploaded { .. } => keeps_all && !settings.delete_local_after_upload,
        _ => false,
    }
}

/// The loop goes through the states by the events, and completes no cycle.
pub open spec fn no_cycle_completed(
    states: Seq<WatchModel>,
    events: Seq<(WatchEvent, WatchSettings)>,
) -> bool {
    &&& states.len() == events.len() + 1
    &&& forall|i: int|
        0 <= i < events.len() ==> moves(
            states[i],
            (#[trigger] events[i]).0,
            events[i].1,
            states[i + 1],
        ) && !completes(events[i].0, events[i].1)
}

/// After an error every backup that is planned is a full one on no base, until a cycle is
/// completed, whatever happens in between and however the settings change.
pub proof fn law_backups_are_full_until_a_success(
    m: WatchModel,
    states: Seq<WatchModel>,
    events: Seq<(WatchEvent, WatchSettings)>,
    d: ResumeDecision,
    after: WatchModel,
    step: WatchStep,
)
    requires
        no_cycle_completed(states, events),
        states[0] == after_error(m),
        states.last().follows_decision(d, after, step),
        step is ResolveName,
    ensures
        states.last().force_next_full,
        after.plan.full,
        after.plan.diff_from is None,
        step == (WatchStep::ResolveName { full: true }),
{
    lemma_still_forced(m, states, events, events.len() as int);
}

proof fn lemma_still_forced(
    m: WatchModel,
    states: Seq<WatchModel>,
    events: Seq<(WatchEvent, WatchSettings)>,
    k: int,
)
    requires
        no_cycle_completed(states, events),
        states[0] == after_error(m),
        0 <= k <= events.len(),
    ensures
        states[k].force_next_full,
    decreases k,
{
    if k > 0 {
        lemma_still_forced(m, states, events, k - 1);
        let e = events[k - 1];
        assert(moves(states[k - 1], e.0, e.1, states[k - 1 + 1]));
    }
}

/// What contracts say of the backup that a cycle makes are its own fields, all of them.
pub proof fn law_cycles_are_told_with_all_fields(p: CyclePlan)
    ensures
        p@.full == p.full,
        p@.diff_from is Some <==> p.diff_from is Some,
        p@.diff_from is Some ==> p@.diff_from->0 == p.diff_from->0@,
        p@.backup_name == p.backup_name@,
{
}

} // verus!
