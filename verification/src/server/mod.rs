//! The HTTP API server: which steps start it, and what follows the end of the watch loop.

pub mod actions;
pub mod answers;
pub mod auth;
pub mod calls;
pub mod commands;
pub mod flags;
pub mod history;
pub mod laws;
pub mod listing;
pub mod metrics;
pub mod operations;
pub mod resumable;
pub mod routes;
pub mod state;

use vstd::prelude::*;

use crate::server::state::WatchStatus;
use crate::text::{chars_of, slice_text};
use crate::watch::WatchLoopExit;

verus! {

/// The part of the configuration that says how the API is reached.
#[derive(Debug)]
pub struct ApiConfig {
    /// `host:port` to listen on.
    pub listen: String,
    /// The host by which ClickHouse reaches the API; empty for this one.
    pub integration_tables_host: String,
}

impl Default for ApiConfig {
    fn default() -> (r: Self)
        ensures
            r.listen@ == "localhost:7171"@,
            r.integration_tables_host@.len() == 0,
    {
        ApiConfig {
            listen: "localhost:7171".to_string(),
            integration_tables_host: String::new(),
        }
    }
}

/// What follows the last `c` of a text, or the whole text where there is none.
pub open spec fn after_last(s: Seq<char>, c: char) -> Seq<char>
    decreases s.len(),
{
    if s.len() == 0 || s.last() == c {
        Seq::empty()
    } else {
        after_last(s.drop_last(), c).push(s.last())
    }
}

/// Host and port of the tables by which ClickHouse reaches the API: the configured host or
/// "localhost", and what follows the last colon of the address to listen on.
pub fn parse_integration_host_port(config: &ApiConfig) -> (r: (String, String))
    ensures
        r.0@ == if config.integration_tables_host@.len() == 0 {
            "localhost"@
        } else {
            config.integration_tables_host@
        },
        r.1@ == after_last(config.listen@, ':'),
{
    let host = if config.integration_tables_host.as_str().is_empty() {
        "localhost".to_string()
    } else {
        config.integration_tables_host.clone()
    };
    let v = chars_of(config.listen.as_str());
    let mut start: usize = v.len();
    assert(v@.take(start as int) =~= v@);
    assert(v@.skip(start as int) =~= Seq::empty());
    while start > 0 && v[start - 1] != ':'
        invariant
            start <= v@.len(),
            v@ == config.listen@,
            after_last(v@, ':') == after_last(v@.take(start as int), ':') + v@.skip(start as int),
        decreases start,
    {
        proof {
            let here = v@.take(start as int);
            assert(here.drop_last() =~= v@.take(start - 1));
            assert(here.last() == v@[start - 1]);
            assert(after_last(here.drop_last(), ':').push(here.last()) + v@.skip(start as int)
                =~= after_last(here.drop_last(), ':') + v@.skip(start - 1));
        }
        start -= 1;
    }
    assert(after_last(v@.take(start as int), ':') =~= Seq::<char>::empty());
    assert(v@.subrange(start as int, v@.len() as int) =~= v@.skip(start as int));
    assert(Seq::<char>::empty() + v@.skip(start as int) =~= v@.skip(start as int));
    (host, slice_text(&v, start, v.len()))
}

/// Seconds to wait for ClickHouse after the given number of attempts: two more each time,
/// up to half a minute.
pub fn clickhouse_retry_secs(attempt: u64) -> (r: u64)
    ensures
        r == if attempt * 2 < 30 {
            attempt * 2
        } else {
            30
        },
{
    if attempt < 15 {
        attempt * 2
    } else {
        30
    }
}

/// A step that starts the server.
#[derive(Debug, Clone, Copy, PartialEq, Eq, Structural)]
pub enum StartStep {
    /// Start the watch loop.
    SpawnWatch,
    /// Bind the address, so that connections wait until they are served.
    Bind,
    /// Wait for ClickHouse, and make the tables by which it reaches the API.
    CreateIntegrationTables,
    /// Resume what was interrupted.
    AutoResume,
    /// Serve, without encryption, on the address that was bound.
    ServePlain,
    /// Bind the address and serve with encryption.
    ServeTls,
}

/// One step, if it is to be taken.
pub open spec fn start_if(condition: bool, step: StartStep) -> Seq<StartStep> {
    if condition {
        seq![step]
    } else {
        Seq::empty()
    }
}

/// The steps that start the server.
pub open spec fn start_plan(
    watch: bool,
    secure: bool,
    create_integration_tables: bool,
) -> Seq<StartStep> {
    start_if(watch, StartStep::SpawnWatch) + start_if(!secure, StartStep::Bind) + start_if(
        create_integration_tables,
        StartStep::CreateIntegrationTables,
    ) + seq![StartStep::AutoResume] + seq![
        if secure {
            StartStep::ServeTls
        } else {
            StartStep::ServePlain
        },
    ]
}

/// The steps that start the server. The watch loop runs where the command line or the
/// configuration asks for it.
pub fn start_server(
    watch: bool,
    watch_enabled: bool,
    secure: bool,
    create_integration_tables: bool,
) -> (r: Vec<StartStep>)
    ensures
        r@ == start_plan(watch || watch_enabled, secure, create_integration_tables),
        r@.len() >= 2,
        r@[r@.len() - 2] == StartStep::AutoResume,
        r@.last() == (if secure {
            StartStep::ServeTls
        } else {
            StartStep::ServePlain
        }),
        watch || watch_enabled ==> r@[0] == StartStep::SpawnWatch,
{
    let mut steps: Vec<StartStep> = Vec::new();
    if watch || watch_enabled {
        steps.push(StartStep::SpawnWatch);
    }
    if !secure {
        steps.push(StartStep::Bind);
    }
    if create_integration_tables {
        steps.push(StartStep::CreateIntegrationTables);
    }
    steps.push(StartStep::AutoResume);
    if secure {
        steps.push(StartStep::ServeTls);
    } else {
        steps.push(StartStep::ServePlain);
    }
    assert(steps@ =~= start_plan(watch || watch_enabled, secure, create_integration_tables));
    steps
}

/// Without encryption the address is bound before ClickHouse is told of it.
pub proof fn law_address_is_bound_before_it_is_announced(
    watch: bool,
    create_integration_tables: bool,
    i: int,
    j: int,
)
    requires
        ({
            let steps = start_plan(watch, false, create_integration_tables);
            &&& 0 <= i < steps.len() && 0 <= j < steps.len()
            &&& steps[i] == StartStep::Bind
            &&& steps[j] == StartStep::CreateIntegrationTables || steps[j] == StartStep::ServePlain
        }),
    ensures
        i < j,
{
}

/// Shows the watch loop as started.
pub fn mark_watch_started(status: &mut WatchStatus)
    ensures
        final(status).active,
        final(status).state@ == "idle"@,
        final(status).last_full == old(status).last_full,
        final(status).last_incr == old(status).last_incr,
        final(status).consecutive_errors == old(status).consecutive_errors,
        final(status).next_backup_in == old(status).next_backup_in,
{
    status.active = true;
    status.state = "idle".to_string();
}

/// Shows the watch loop as ended. Says whether the process is to end with it: where the
/// loop is what the process is for, and nobody asked for its end.
pub fn handle_watch_exit(exit: WatchLoopExit, status: &mut WatchStatus, watch_is_main: bool) -> (r:
    bool)
    ensures
        !final(status).active,
        final(status).state@ == "inactive"@,
        final(status).last_full == old(status).last_full,
        final(status).last_incr == old(status).last_incr,
        final(status).consecutive_errors == old(status).consecutive_errors,
        final(status).next_backup_in == old(status).next_backup_in,
        r == (watch_is_main && exit == WatchLoopExit::MaxErrors),
{
    status.active = false;
    status.state = "inactive".to_string();
    let asked_for = match exit {
        WatchLoopExit::Shutdown => true,
        WatchLoopExit::Stopped => true,
        WatchLoopExit::MaxErrors => false,
    };
    watch_is_main && !asked_for
}

} // verus!
