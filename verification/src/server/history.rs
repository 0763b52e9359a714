//! What holds of the operations of a server after any sequence of events.

use vstd::prelude::*;

use crate::server::actions::{
    lemma_ended_well_formed, lemma_started_well_formed, LogModel, StatusModel,
};
use crate::server::state::{
    killed_log, law_operations_are_serialized, lemma_held_none, lemma_op_index,
    lemma_without_well_formed, op_index, permits_for, without, OpModel, StateModel,
};
use crate::time::Timestamp;

verus! {

/// Something that changes which operations run.
pub enum Event {
    /// A request to start an operation.
    Start { command: Seq<char>, backup_name: Option<Seq<char>>, now: Timestamp },
    /// An operation completed, or failed with an error.
    End { id: u64, error: Option<Seq<char>>, now: Timestamp },
    /// A request to kill the operation with the identifier, or all of them.
    Kill { id: Option<u64>, now: Timestamp },
    /// The configuration changed.
    Reload { old_parallel: bool, new_parallel: bool },
}

/// The state of a server on which nothing ran yet.
pub open spec fn fresh(allow_parallel: bool) -> StateModel {
    StateModel {
        log: LogModel { entries: Seq::empty(), capacity: 100, next_id: 1 },
        running: Seq::empty(),
        permits: permits_for(allow_parallel),
        permit_set: 0,
    }
}

/// The status of an operation that ended by itself.
pub open spec fn end_status(error: Option<Seq<char>>) -> StatusModel {
    match error {
        Some(e) => StatusModel::Failed(e),
        None => StatusModel::Completed,
    }
}

/// The state after an event.
pub open spec fn after(m: StateModel, e: Event) -> StateModel {
    match e {
        Event::Start { command, backup_name, now } => m.after_start(command, backup_name, now),
        Event::End { id, error, now } => m.after_end(id, end_status(error), now),
        Event::Kill { id, now } => m.after_kill(id, now),
        Event::Reload { old_parallel, new_parallel } => m.after_reload(old_parallel, new_parallel),
    }
}

/// The state after a sequence of events.
pub open spec fn after_all(m: StateModel, events: Seq<Event>) -> StateModel
    decreases events.len(),
{
    if events.len() == 0 {
        m
    } else {
        after(after_all(m, events.drop_last()), events.last())
    }
}

/// The event ends the operation with the identifier, if it runs.
pub open spec fn ends(e: Event, id: u64) -> bool {
    match e {
        Event::End { id: x, .. } => x == id,
        Event::Kill { id: Some(x), .. } => x == id,
        Event::Kill { id: None, .. } => true,
        _ => false,
    }
}

/// Event `k` is a request that was answered with the identifier.
pub open spec fn started_by(m: StateModel, events: Seq<Event>, k: int, id: u64) -> bool {
    &&& 0 <= k < events.len()
    &&& events[k] matches Event::Start { backup_name, .. } && after_all(
        m,
        events.take(k),
    ).start_answer(backup_name) == Ok::<u64, Seq<char>>(id)
}

/// The operation was started by one of the events, and none since has ended it.
pub open spec fn started_and_not_ended(m: StateModel, events: Seq<Event>, id: u64) -> bool {
    exists|k: int|
        #[trigger] started_by(m, events, k, id) && forall|j: int|
            k < j < events.len() ==> !ends(#[trigger] events[j], id)
}

/// Killing operations keeps the log well formed.
proof fn lemma_killed_log_well_formed(log: LogModel, ops: Seq<OpModel>, now: Timestamp)
    requires
        log.well_formed(),
    ensures
        killed_log(log, ops, now).well_formed(),
        killed_log(log, ops, now).next_id == log.next_id,
    decreases ops.len(),
{
    if ops.len() > 0 {
        lemma_killed_log_well_formed(log, ops.drop_last(), now);
        lemma_ended_well_formed(
            killed_log(log, ops.drop_last(), now),
            ops.last().id,
            StatusModel::Killed,
            now,
        );
    }
}

/// A request keeps the state well formed.
proof fn lemma_start_keeps(
    m: StateModel,
    command: Seq<char>,
    backup_name: Option<Seq<char>>,
    now: Timestamp,
)
    requires
        m.well_formed(),
        m.log.next_id < u64::MAX,
    ensures
        m.after_start(command, backup_name, now).well_formed(),
{
    let n = m.after_start(command, backup_name, now);
    lemma_started_well_formed(m.log, command, now);
    let log = m.log.started(command, now);
    if !m.has_permit() {
    } else if m.conflicts(backup_name) {
        lemma_ended_well_formed(
            log,
            m.log.next_id as u64,
            StatusModel::Failed("operation already in progress for this backup"@),
            now,
        );
    } else {
        assert(n.running.drop_last() =~= m.running);
        assert forall|i: int, j: int|
            #![trigger n.running[i], n.running[j]]
            0 <= i < j < n.running.len() && n.running[i].backup_name is Some implies n.running[i].backup_name
            != n.running[j].backup_name by {
            assert(n.running[i] == m.running[i]);
        }
    }
}

/// An event keeps the state well formed, and uses up no more than one identifier and one set
/// of permits.
proof fn lemma_event_keeps(m: StateModel, e: Event)
    requires
        m.well_formed(),
        m.log.next_id < u64::MAX,
        m.permit_set < u64::MAX,
    ensures
        after(m, e).well_formed(),
        m.log.next_id <= after(m, e).log.next_id <= m.log.next_id + 1,
        m.permit_set <= after(m, e).permit_set <= m.permit_set + 1,
{
    match e {
        Event::Start { command, backup_name, now } => {
            lemma_start_keeps(m, command, backup_name, now);
        },
        Event::End { id, error, now } => {
            lemma_ended_well_formed(m.log, id, end_status(error), now);
            lemma_without_well_formed(m, id, m.log.ended(id, end_status(error), now));
        },
        Event::Kill { id, now } => {
            lemma_killed_log_well_formed(m.log, m.kill_targets(id), now);
            let log = killed_log(m.log, m.kill_targets(id), now);
            match id {
                Some(target) => {
                    lemma_without_well_formed(m, target, log);
                },
                None => {
                    lemma_held_none(Seq::<OpModel>::empty(), m.permit_set);
                },
            }
        },
        Event::Reload { old_parallel, new_parallel } => {
            if old_parallel != new_parallel {
                lemma_held_none(m.running, (m.permit_set + 1) as u64);
            }
        },
    }
}

/// A sequence of events keeps the state well formed.
proof fn lemma_events_keep(allow_parallel: bool, events: Seq<Event>)
    requires
        events.len() < u64::MAX - 1,
    ensures
        ({
            let m = after_all(fresh(allow_parallel), events);
            &&& m.well_formed()
            &&& m.log.next_id <= events.len() + 1
            &&& m.permit_set <= events.len()
        }),
    decreases events.len(),
{
    if events.len() > 0 {
        lemma_events_keep(allow_parallel, events.drop_last());
        lemma_event_keeps(after_all(fresh(allow_parallel), events.drop_last()), events.last());
    } else {
        lemma_held_none(Seq::<OpModel>::empty(), 0);
    }
}

/// Where an operation that still runs was before another one was taken off the list.
proof fn lemma_without_from(ops: Seq<OpModel>, id: u64, i: int) -> (j: int)
    requires
        0 <= i < without(ops, id).len(),
        forall|a: int, b: int|
            #![trigger ops[a], ops[b]]
            0 <= a < b < ops.len() ==> ops[a].id != ops[b].id,
    ensures
        0 <= j < ops.len(),
        ops[j] == without(ops, id)[i],
        ops[j].id != id,
{
    lemma_op_index(ops, id);
    let k = op_index(ops, id) as int;
    if k >= ops.len() {
        i
    } else if i < k {
        i
    } else {
        assert(without(ops, id)[i] == ops[i + 1]);
        i + 1
    }
}

/// An operation that was started and not ended before an event that does not end it was
/// started and not ended after it.
proof fn lemma_not_ended_yet(m: StateModel, events: Seq<Event>, id: u64)
    requires
        events.len() > 0,
        started_and_not_ended(m, events.drop_last(), id),
        !ends(events.last(), id),
    ensures
        started_and_not_ended(m, events, id),
{
    let init = events.drop_last();
    let k = choose|k: int|
        #[trigger] started_by(m, init, k, id) && forall|j: int|
            k < j < init.len() ==> !ends(#[trigger] init[j], id);
    assert(init.take(k) =~= events.take(k));
    assert(events[k] == init[k]);
    assert(started_by(m, events, k, id));
    assert forall|j: int| k < j < events.len() implies !ends(#[trigger] events[j], id) by {
        if j < init.len() {
            assert(events[j] == init[j]);
        }
    }
}

/// Whatever has happened, every operation that runs was started by a request that was
/// answered with its identifier, and has since neither ended nor been killed.
pub proof fn law_running_operations_were_started(
    allow_parallel: bool,
    events: Seq<Event>,
    i: int,
)
    requires
        events.len() < u64::MAX - 1,
        0 <= i < after_all(fresh(allow_parallel), events).running.len(),
    ensures
        started_and_not_ended(
            fresh(allow_parallel),
            events,
            after_all(fresh(allow_parallel), events).running[i].id,
        ),
    decreases events.len(),
{
    let m0 = fresh(allow_parallel);
    let init = events.drop_last();
    let m = after_all(m0, init);
    let n = after_all(m0, events);
    let id = n.running[i].id;
    lemma_events_keep(allow_parallel, init);
    match events.last() {
        Event::Start { command, backup_name, now } => {
            if m.start_answer(backup_name) is Ok && i == m.running.len() {
                let k = events.len() - 1;
                assert(events.take(k) =~= init);
                assert(started_by(m0, events, k, id));
            } else {
                assert(n.running[i] == m.running[i]);
                law_running_operations_were_started(allow_parallel, init, i);
                lemma_not_ended_yet(m0, events, id);
            }
        },
        Event::End { id: x, .. } => {
            let j = lemma_without_from(m.running, x, i);
            law_running_operations_were_started(allow_parallel, init, j);
            lemma_not_ended_yet(m0, events, id);
        },
        Event::Kill { id: target, .. } => {
            if let Some(x) = target {
                let j = lemma_without_from(m.running, x, i);
                law_running_operations_were_started(allow_parallel, init, j);
                lemma_not_ended_yet(m0, events, id);
            }
        },
        Event::Reload { .. } => {
            law_running_operations_were_started(allow_parallel, init, i);
            lemma_not_ended_yet(m0, events, id);
        },
    }
}

/// Whatever has happened, no two operations that run have the same identifier or work on the
/// same backup.
pub proof fn law_running_operations_differ(
    allow_parallel: bool,
    events: Seq<Event>,
    i: int,
    j: int,
)
    requires
        events.len() < u64::MAX - 1,
        0 <= i < j < after_all(fresh(allow_parallel), events).running.len(),
    ensures
        ({
            let running = after_all(fresh(allow_parallel), events).running;
            &&& running[i].id != running[j].id
            &&& running[i].backup_name is Some ==> running[i].backup_name != running[j].backup_name
        }),
{
    lemma_events_keep(allow_parallel, events);
}

/// No event changes the configuration.
pub open spec fn never_reloaded(events: Seq<Event>) -> bool {
    forall|i: int| 0 <= i < events.len() ==> !((#[trigger] events[i]) is Reload)
}

/// Without a change of the configuration all operations hold permits of the first set.
proof fn lemma_first_permits(allow_parallel: bool, events: Seq<Event>)
    requires
        events.len() < u64::MAX - 1,
        never_reloaded(events),
    ensures
        ({
            let m = after_all(fresh(allow_parallel), events);
            &&& m.permit_set == 0
            &&& m.permits == permits_for(allow_parallel)
            &&& forall|i: int|
                0 <= i < m.running.len() ==> (#[trigger] m.running[i]).permit_set == 0
        }),
    decreases events.len(),
{
    if events.len() > 0 {
        let init = events.drop_last();
        assert forall|i: int| 0 <= i < init.len() implies !((#[trigger] init[i]) is Reload) by {
            assert(init[i] == events[i]);
        }
        lemma_first_permits(allow_parallel, init);
        lemma_events_keep(allow_parallel, init);
        assert(!(events[events.len() - 1] is Reload));
        let m = after_all(fresh(allow_parallel), init);
        let n = after_all(fresh(allow_parallel), events);
        assert forall|i: int| 0 <= i < n.running.len() implies (#[trigger] n.running[i]).permit_set
            == 0 by {
            match events.last() {
                Event::End { id, .. } => {
                    let j = lemma_without_from(m.running, id, i);
                    assert(m.running[j].permit_set == 0);
                },
                Event::Kill { id: Some(id), .. } => {
                    let j = lemma_without_from(m.running, id, i);
                    assert(m.running[j].permit_set == 0);
                },
                Event::Start { .. } => {
                    if i < m.running.len() {
                        assert(n.running[i] == m.running[i]);
                    }
                },
                _ => {},
            }
        }
    }
}

/// On a server that was started without operations in parallel, and whose configuration did
/// not change, no more than one operation runs at any time.
pub proof fn law_one_operation_at_a_time(events: Seq<Event>)
    requires
        events.len() < u64::MAX - 1,
        never_reloaded(events),
    ensures
        after_all(fresh(false), events).running.len() <= 1,
{
    lemma_first_permits(false, events);
    lemma_events_keep(false, events);
    law_operations_are_serialized(after_all(fresh(false), events));
}

/// Where one operation may run at a time, any request is answered with a new and larger
/// identifier once the operation that ran has ended.
pub proof fn law_next_request_succeeds(
    m: StateModel,
    error: Option<Seq<char>>,
    backup_name: Option<Seq<char>>,
    now: Timestamp,
)
    requires
        m.well_formed(),
        m.permits == 1,
        m.running.len() == 1,
        m.log.next_id < u64::MAX,
    ensures
        m.after_end(m.running[0].id, end_status(error), now).start_answer(backup_name) matches Ok(
            id,
        ) && id > m.running[0].id,
{
    let n = m.after_end(m.running[0].id, end_status(error), now);
    assert(op_index(m.running, m.running[0].id) == 0);
    assert(n.running =~= Seq::empty());
    lemma_held_none(n.running, n.permit_set);
}

} // verus!
