//! Lists of backups, local and remote, and of tables.

use vstd::prelude::*;
use vstd::string::StringExecFns;

use crate::list::BackupSummary;
use crate::manifest::{DiskParts, PartModel, TableManifest, TableModel};
use crate::server::routes::{
    format_go_timestamp, opt_rfc3339, page, paginate, refusal, refuses, shown_go_time,
    GoListResponse, ListParams, ListResponse, Refusal, TablesParams, TablesResponseEntry,
};
use crate::sort::{sorted_by, stable_sort, stably_sorted, Ranked};
use crate::table_filter::{
    all_portable, any_accepts, chosen, full_table_name, law_answers_are_the_same_everywhere,
    law_patterns_are_read_alike, portable, possible_answer, possible_patterns, system_database,
    usable, TableFilter,
};
use crate::text::{
    before, decimal, lemma_before_total, lemma_before_transitive, opt_str, opt_text, same, split,
    split_once, split_once_text, text_before,
};
use crate::time::rfc3339_text;

verus! {

// ---------------------------------------------------------------------------
// Backups
// ---------------------------------------------------------------------------

/// The answer shows the backup.
pub open spec fn shows_backup(r: ListResponse, s: BackupSummary, location: Seq<char>) -> bool {
    &&& r.name@ == s.name@
    &&& r.created@ == opt_rfc3339(s.timestamp)
    &&& r.location@ == location
    &&& r.size == s.size
    &&& r.data_size == s.size
    &&& r.object_disk_size == s.object_disk_size
    &&& r.metadata_size == s.metadata_size
    &&& r.rbac_size == s.rbac_size
    &&& r.config_size == s.config_size
    &&& r.compressed_size == s.compressed_size
    &&& r.required@ == s.required@
    &&& r.is_broken == s.is_broken
    &&& opt_text(r.broken_reason) == opt_text(s.broken_reason)
}

/// A backup as a list shows it.
pub fn summary_to_list_response(s: BackupSummary, location: &str) -> (r: ListResponse)
    ensures
        shows_backup(r, s, location@),
        r.name@ == s.name@,
        s.timestamp matches Some(t) ==> r.created@ == rfc3339_text(t.unix_secs(), t.unix_nanos()),
        s.timestamp is None ==> r.created@.len() == 0,
        r.location@ == location@,
        r.size == s.size,
        r.data_size == s.size,
        r.object_disk_size == s.object_disk_size,
        r.metadata_size == s.metadata_size,
        r.rbac_size == s.rbac_size,
        r.config_size == s.config_size,
        r.compressed_size == s.compressed_size,
        r.required@ == s.required@,
        r.is_broken == s.is_broken,
        opt_text(r.broken_reason) == opt_text(s.broken_reason),
{
    let created = match &s.timestamp {
        Some(t) => t.to_rfc3339(),
        None => String::new(),
    };
    ListResponse {
        name: s.name,
        created,
        location: location.to_string(),
        size: s.size,
        data_size: s.size,
        object_disk_size: s.object_disk_size,
        metadata_size: s.metadata_size,
        rbac_size: s.rbac_size,
        config_size: s.config_size,
        compressed_size: s.compressed_size,
        required: s.required,
        is_broken: s.is_broken,
        broken_reason: s.broken_reason,
    }
}

impl Ranked for ListResponse {
    /// By the time when the backup was made, and then by its name.
    open spec fn precedes(self, other: Self) -> bool {
        before(self.created@, other.created@) || (self.created@ == other.created@ && before(
            self.name@,
            other.name@,
        ))
    }

    fn comes_before(&self, other: &Self) -> (r: bool) {
        text_before(self.created.as_str(), other.created.as_str()) || (same(
            self.created.as_str(),
            other.created.as_str(),
        ) && text_before(self.name.as_str(), other.name.as_str()))
    }

    proof fn order_is_weak(a: Self, b: Self, c: Self) {
        lemma_before_total(a.created@, a.created@);
        lemma_before_total(a.name@, a.name@);
        lemma_pair_order(a.created@, a.name@, b.created@, b.name@, c.created@, c.name@);
    }
}

/// A pair of texts comes before another: by the first text, and then by the second.
spec fn pair_before(a1: Seq<char>, a2: Seq<char>, b1: Seq<char>, b2: Seq<char>) -> bool {
    before(a1, b1) || (a1 == b1 && before(a2, b2))
}

proof fn lemma_pair_transitive(
    a1: Seq<char>,
    a2: Seq<char>,
    b1: Seq<char>,
    b2: Seq<char>,
    c1: Seq<char>,
    c2: Seq<char>,
)
    requires
        pair_before(a1, a2, b1, b2),
        pair_before(b1, b2, c1, c2),
    ensures
        pair_before(a1, a2, c1, c2),
{
    if before(a1, b1) && before(b1, c1) {
        lemma_before_transitive(a1, b1, c1);
    }
    if before(a2, b2) && before(b2, c2) {
        lemma_before_transitive(a2, b2, c2);
    }
}

proof fn lemma_pair_order(
    a1: Seq<char>,
    a2: Seq<char>,
    b1: Seq<char>,
    b2: Seq<char>,
    c1: Seq<char>,
    c2: Seq<char>,
)
    ensures
        pair_before(a1, a2, b1, b2) && pair_before(b1, b2, c1, c2) ==> pair_before(a1, a2, c1, c2),
        pair_before(a1, a2, b1, b2) && !pair_before(c1, c2, b1, b2) ==> pair_before(
            a1,
            a2,
            c1,
            c2,
        ),
{
    if pair_before(a1, a2, b1, b2) && pair_before(b1, b2, c1, c2) {
        lemma_pair_transitive(a1, a2, b1, b2, c1, c2);
    }
    if pair_before(a1, a2, b1, b2) && !pair_before(c1, c2, b1, b2) {
        lemma_before_total(b1, c1);
        lemma_before_total(b2, c2);
        if pair_before(b1, b2, c1, c2) {
            lemma_pair_transitive(a1, a2, b1, b2, c1, c2);
        } else {
            assert(b1 == c1 && b2 == c2);
        }
    }
}

/// The place is asked for: it is named, or none is.
pub open spec fn asked_for(location: Option<Seq<char>>, place: Seq<char>) -> bool {
    location is None || location == Some(place)
}

/// The backups of one place that are shown: those that could be listed, if the place is
/// asked for.
pub open spec fn shown_summaries(
    location: Option<Seq<char>>,
    place: Seq<char>,
    listed: Option<Vec<BackupSummary>>,
) -> Seq<BackupSummary> {
    match listed {
        Some(v) => if asked_for(location, place) {
            v@
        } else {
            Seq::empty()
        },
        None => Seq::empty(),
    }
}

/// The rows show the local backups and then the remote ones.
pub open spec fn shows_all(
    rows: Seq<ListResponse>,
    local: Seq<BackupSummary>,
    remote: Seq<BackupSummary>,
) -> bool {
    &&& rows.len() == local.len() + remote.len()
    &&& forall|i: int|
        0 <= i < local.len() ==> shows_backup(#[trigger] rows[i], local[i], "local"@)
    &&& forall|i: int|
        local.len() <= i < rows.len() ==> shows_backup(
            #[trigger] rows[i],
            remote[i - local.len()],
            "remote"@,
        )
}

/// Adds the backups of one place.
fn push_summaries(rows: &mut Vec<ListResponse>, summaries: Vec<BackupSummary>, location: &str)
    ensures
        final(rows)@.len() == old(rows)@.len() + summaries@.len(),
        forall|i: int| 0 <= i < old(rows)@.len() ==> #[trigger] final(rows)@[i] == old(rows)@[i],
        forall|i: int|
            old(rows)@.len() <= i < final(rows)@.len() ==> shows_backup(
                #[trigger] final(rows)@[i],
                summaries@[i - old(rows)@.len()],
                location@,
            ),
{
    let ghost start = rows@;
    let ghost all = summaries@;
    let mut rest = summaries;
    let ghost mut n: int = 0;
    while rest.len() > 0
        invariant
            start == old(rows)@,
            0 <= n <= all.len(),
            rest@ == all.skip(n),
            rows@.len() == start.len() + n,
            forall|i: int| 0 <= i < start.len() ==> #[trigger] rows@[i] == start[i],
            forall|i: int|
                start.len() <= i < rows@.len() ==> shows_backup(
                    #[trigger] rows@[i],
                    all[i - start.len()],
                    location@,
                ),
        decreases rest@.len(),
    {
        let s = rest.remove(0);
        assert(s == all[n]);
        rows.push(summary_to_list_response(s, location));
        proof {
            assert(rest@ =~= all.skip(n + 1));
            n = n + 1;
        }
    }
}

/// The rows of a list of backups: those of the places that are asked for and could be
/// listed, oldest first or newest first.
pub fn build_list_data(
    location: Option<&str>,
    desc: bool,
    local: Option<Vec<BackupSummary>>,
    remote: Option<Vec<BackupSummary>>,
) -> (r: Vec<ListResponse>)
    ensures
        exists|rows: Seq<ListResponse>|
            #[trigger] shows_all(
                rows,
                shown_summaries(opt_str(location), "local"@, local),
                shown_summaries(opt_str(location), "remote"@, remote),
            ) && stably_sorted(rows, r@, desc),
{
    let mut rows: Vec<ListResponse> = Vec::new();
    let (show_local, show_remote): (bool, bool) = match location {
        None => (true, true),
        Some(l) => (same(l, "local"), same(l, "remote")),
    };
    let ghost l = shown_summaries(opt_str(location), "local"@, local);
    let ghost m = shown_summaries(opt_str(location), "remote"@, remote);
    if show_local {
        if let Some(v) = local {
            push_summaries(&mut rows, v, "local");
        }
    }
    assert(rows@.len() == l.len());
    if show_remote {
        if let Some(v) = remote {
            push_summaries(&mut rows, v, "remote");
        }
    }
    assert(shows_all(rows@, l, m));
    stable_sort(&mut rows, desc);
    rows
}

/// A list is asked for with the newest backup first.
pub open spec fn newest_first(params: ListParams) -> bool {
    params.desc == Some(true)
}

/// The answer to a request for a list of backups: the page that is asked for, and a header
/// with the length of the whole list. A place that is none is refused.
pub fn list_backups(
    params: &ListParams,
    local: Option<Vec<BackupSummary>>,
    remote: Option<Vec<BackupSummary>>,
) -> (r: Result<([(&'static str, String); 1], Vec<ListResponse>), Refusal>)
    ensures
        match opt_text(params.location) {
            Some(l) => l != "local"@ && l != "remote"@ ==> (r matches Err(e) && refuses(
                e,
                400,
                "Invalid location: must be 'local' or 'remote'"@,
            )),
            None => true,
        },
        (opt_text(params.location) matches Some(l) ==> l == "local"@ || l == "remote"@) ==> (
        r matches Ok(answer) && exists|rows: Seq<ListResponse>, sorted: Seq<ListResponse>|
            {
                &&& #[trigger] shows_all(
                    rows,
                    shown_summaries(opt_text(params.location), "local"@, local),
                    shown_summaries(opt_text(params.location), "remote"@, remote),
                )
                &&& #[trigger] stably_sorted(rows, sorted, newest_first(*params))
                &&& answer.0@[0].0@ == "x-total-count"@
                &&& answer.0@[0].1@ == decimal(sorted.len())
                &&& answer.1@ == page(sorted, params.offset, params.limit)
            }),
{
    let location: Option<&str> = match &params.location {
        Some(l) => Some(l.as_str()),
        None => None,
    };
    match check_location(location) {
        Err(e) => {
            return Err(e);
        },
        Ok(_) => {},
    }
    let desc = match params.desc {
        Some(d) => d,
        None => false,
    };
    let ghost l = shown_summaries(opt_text(params.location), "local"@, local);
    let ghost m = shown_summaries(opt_text(params.location), "remote"@, remote);
    assert(opt_str(location) == opt_text(params.location));
    let rows = build_list_data(location, desc, local, remote);
    proof {
        let unsorted = choose|u: Seq<ListResponse>|
            #[trigger] shows_all(u, l, m) && stably_sorted(u, rows@, desc);
        assert(shows_all(unsorted, l, m));
        assert(stably_sorted(unsorted, rows@, newest_first(*params)));
        assert(rows@.len() == unsorted.len());
    }
    Ok(paginate(rows, params.offset, params.limit, "list"))
}

/// Whether the place that a list is asked for is one.
pub fn check_location(location: Option<&str>) -> (r: Result<(), Refusal>)
    ensures
        match location {
            Some(l) => if l@ == "local"@ || l@ == "remote"@ {
                r is Ok
            } else {
                r matches Err(e) && refuses(
                    e,
                    400,
                    "Invalid location: must be 'local' or 'remote'"@,
                )
            },
            None => r is Ok,
        },
{
    match location {
        Some(l) => if same(l, "local") || same(l, "remote") {
            Ok(())
        } else {
            Err(refusal(400, "Invalid location: must be 'local' or 'remote'".to_string()))
        },
        None => Ok(()),
    }
}

/// What the other dialect says of a backup.
pub open spec fn go_description(r: ListResponse) -> Seq<char> {
    if r.is_broken {
        "broken: "@ + match r.broken_reason {
            Some(reason) => reason@,
            None => "unknown"@,
        }
    } else if r.required@.len() == 0 {
        "tar, regular"@
    } else {
        "tar, incremental"@
    }
}

/// The answer in the other dialect shows the row.
pub open spec fn shows_go_row(g: GoListResponse, r: ListResponse) -> bool {
    &&& g.name@ == r.name@
    &&& shown_go_time(g.created@, r.created@)
    &&& g.size == if r.size <= i64::MAX {
        r.size as int
    } else {
        i64::MAX as int
    }
    &&& g.location@ == r.location@
    &&& g.required@ == r.required@
    &&& g.desc@ == go_description(r)
    &&& g.data_size == r.data_size
    &&& g.object_disk_size == r.object_disk_size
    &&& g.metadata_size == r.metadata_size
    &&& g.rbac_size == r.rbac_size
    &&& g.config_size == r.config_size
    &&& g.compressed_size == r.compressed_size
}

/// A row in the other dialect.
pub fn go_list_response(r: &ListResponse) -> (g: GoListResponse)
    ensures
        shows_go_row(g, *r),
        g.name@ == r.name@,
        g.location@ == r.location@,
        g.required@ == r.required@,
        r.size <= i64::MAX ==> g.size == r.size,
        r.size > i64::MAX ==> g.size == i64::MAX,
        r.is_broken && r.broken_reason is Some ==> g.desc@ == "broken: "@ + r.broken_reason->0@,
        r.is_broken && r.broken_reason is None ==> g.desc@ == "broken: "@ + "unknown"@,
        !r.is_broken && r.required@.len() == 0 ==> g.desc@ == "tar, regular"@,
        !r.is_broken && r.required@.len() > 0 ==> g.desc@ == "tar, incremental"@,
        g.data_size == r.data_size,
        g.object_disk_size == r.object_disk_size,
        g.metadata_size == r.metadata_size,
        g.rbac_size == r.rbac_size,
        g.config_size == r.config_size,
        g.compressed_size == r.compressed_size,
{
    let desc = if r.is_broken {
        match &r.broken_reason {
            Some(reason) => "broken: ".to_string().concat(reason.as_str()),
            None => "broken: ".to_string().concat("unknown"),
        }
    } else if r.required.as_str().is_empty() {
        "tar, regular".to_string()
    } else {
        "tar, incremental".to_string()
    };
    let size: i64 = if r.size <= 0x7fff_ffff_ffff_ffff {
        r.size as i64
    } else {
        i64::MAX
    };
    GoListResponse {
        name: r.name.clone(),
        created: format_go_timestamp(r.created.as_str()),
        size,
        location: r.location.clone(),
        required: r.required.clone(),
        desc,
        data_size: r.data_size,
        object_disk_size: r.object_disk_size,
        metadata_size: r.metadata_size,
        rbac_size: r.rbac_size,
        config_size: r.config_size,
        compressed_size: r.compressed_size,
    }
}

/// The rows of a list in the other dialect.
pub fn go_list_backups(rows: &Vec<ListResponse>) -> (r: Vec<GoListResponse>)
    ensures
        r@.len() == rows@.len(),
        forall|i: int| 0 <= i < r@.len() ==> shows_go_row(#[trigger] r@[i], rows@[i]),
{
    let mut out: Vec<GoListResponse> = Vec::new();
    let mut i: usize = 0;
    while i < rows.len()
        invariant
            i <= rows@.len(),
            out@.len() == i,
            forall|j: int| 0 <= j < i ==> shows_go_row(#[trigger] out@[j], rows@[j]),
        decreases rows@.len() - i,
    {
        out.push(go_list_response(&rows[i]));
        i += 1;
    }
    out
}

// ---------------------------------------------------------------------------
// Tables
// ---------------------------------------------------------------------------

/// A table that the server has.
#[derive(Debug)]
pub struct TableRow {
    pub database: String,
    pub name: String,
    pub engine: String,
    pub uuid: String,
    pub data_paths: Vec<String>,
    pub total_bytes: Option<u64>,
}

/// The patterns of an optional filter.
pub open spec fn opt_patterns(filter: Option<TableFilter>) -> Option<Seq<Seq<char>>> {
    match filter {
        Some(f) => Some(f@),
        None => None,
    }
}

/// The table is shown: no filter is given, or the filter chooses it. With `all`, tables of
/// the server itself are chosen like any others.
pub open spec fn table_shown(
    patterns: Option<Seq<Seq<char>>>,
    db: Seq<char>,
    table: Seq<char>,
    all: bool,
) -> bool {
    match patterns {
        Some(p) => if all {
            any_accepts(p, full_table_name(db, table))
        } else {
            chosen(p, db, table)
        },
        None => true,
    }
}

/// A table can be shown, or left out, as `shown` says. Only where a pattern or the name of the
/// table has a backslash can it be either.
pub open spec fn possibly_shown(
    patterns: Option<Seq<Seq<char>>>,
    db: Seq<char>,
    table: Seq<char>,
    all: bool,
    shown: bool,
) -> bool {
    match patterns {
        Some(p) => if !all && system_database(db) {
            !shown
        } else {
            possible_answer(p, full_table_name(db, table), shown)
        },
        None => shown,
    }
}

/// A table whose name has no backslash is shown by patterns without one just where they
/// choose it.
pub proof fn law_tables_are_shown_where_chosen(
    patterns: Option<Seq<Seq<char>>>,
    db: Seq<char>,
    table: Seq<char>,
    all: bool,
    shown: bool,
)
    requires
        patterns matches Some(p) ==> all_portable(p) && portable(full_table_name(db, table)),
        possibly_shown(patterns, db, table, all, shown),
    ensures
        shown == table_shown(patterns, db, table, all),
{
    if let Some(p) = patterns {
        if all || !system_database(db) {
            law_answers_are_the_same_everywhere(p, full_table_name(db, table), shown);
        }
    }
}

/// Whether a table is shown.
fn is_shown(filter: &Option<TableFilter>, db: &str, table: &str, all: bool) -> (r: bool)
    ensures
        possibly_shown(opt_patterns(*filter), db@, table@, all, r),
{
    match filter {
        Some(f) => if all {
            f.matches_including_system(db, table)
        } else {
            f.matches(db, table)
        },
        None => true,
    }
}

/// The positions at which a list says yes, in order.
pub open spec fn positions(shown: Seq<bool>) -> Seq<int>
    decreases shown.len(),
{
    if shown.len() == 0 {
        Seq::empty()
    } else {
        let init = positions(shown.drop_last());
        if shown.last() {
            init.push(shown.len() - 1)
        } else {
            init
        }
    }
}

/// The positions are those at which the list says yes, each once and in order.
pub proof fn lemma_positions(shown: Seq<bool>)
    ensures
        forall|i: int|
            0 <= i < positions(shown).len() ==> 0 <= #[trigger] positions(shown)[i] < shown.len()
                && shown[positions(shown)[i]],
        forall|i: int, j: int|
            0 <= i < j < positions(shown).len() ==> #[trigger] positions(shown)[i]
                < #[trigger] positions(shown)[j],
        forall|k: int| 0 <= k < shown.len() && shown[k] ==> positions(shown).contains(k),
    decreases shown.len(),
{
    if shown.len() > 0 {
        let init = shown.drop_last();
        lemma_positions(init);
        let all = positions(shown);
        let before = positions(init);
        assert forall|k: int| 0 <= k < shown.len() && shown[k] implies all.contains(k) by {
            if k < init.len() {
                assert(init[k] == shown[k]);
                let i = choose|i: int| 0 <= i < before.len() && before[i] == k;
                assert(all[i] == k);
            } else {
                assert(all[all.len() - 1] == k);
            }
        }
        assert forall|i: int| 0 <= i < all.len() implies 0 <= #[trigger] all[i] < shown.len()
            && shown[all[i]] by {
            if i < before.len() {
                assert(all[i] == before[i]);
                assert(init[before[i]] == shown[before[i]]);
            }
        }
        assert forall|i: int, j: int| 0 <= i < j < all.len() implies #[trigger] all[i]
            < #[trigger] all[j] by {
            assert(all[i] == before[i]);
            if j < before.len() {
                assert(all[j] == before[j]);
            }
        }
    }
}

/// The rows that are shown are these, as far as patterns tell.
pub open spec fn rows_shown(
    rows: Seq<TableRow>,
    patterns: Option<Seq<Seq<char>>>,
    all: bool,
    shown: Seq<bool>,
) -> bool {
    &&& shown.len() == rows.len()
    &&& forall|i: int|
        0 <= i < rows.len() ==> possibly_shown(
            patterns,
            (#[trigger] rows[i]).database@,
            rows[i].name@,
            all,
            shown[i],
        )
}

/// The entry shows the table.
pub open spec fn shows_row(e: TablesResponseEntry, t: TableRow) -> bool {
    &&& e.database@ == t.database@
    &&& e.name@ == t.name@
    &&& e.engine@ == t.engine@
    &&& e.uuid@ == t.uuid@
    &&& e.data_paths.deep_view() == t.data_paths.deep_view()
    &&& e.total_bytes == t.total_bytes
}

/// The entries show the rows that are shown, in order.
pub open spec fn lists_rows(
    entries: Seq<TablesResponseEntry>,
    rows: Seq<TableRow>,
    shown: Seq<bool>,
) -> bool {
    &&& entries.len() == positions(shown).len()
    &&& forall|i: int|
        0 <= i < entries.len() ==> shows_row(#[trigger] entries[i], rows[positions(shown)[i]])
}

/// The tables of the server that a filter chooses, in order.
pub fn live_tables(rows: &Vec<TableRow>, filter: &Option<TableFilter>, all: bool) -> (r: Vec<
    TablesResponseEntry,
>)
    ensures
        exists|shown: Seq<bool>|
            rows_shown(rows@, opt_patterns(*filter), all, shown) && #[trigger] lists_rows(
                r@,
                rows@,
                shown,
            ),
{
    let ghost patterns = opt_patterns(*filter);
    let ghost mut shown: Seq<bool> = Seq::empty();
    let mut out: Vec<TablesResponseEntry> = Vec::new();
    let mut i: usize = 0;
    while i < rows.len()
        invariant
            i <= rows@.len(),
            patterns == opt_patterns(*filter),
            rows_shown(rows@.take(i as int), patterns, all, shown),
            lists_rows(out@, rows@, shown),
        decreases rows@.len() - i,
    {
        let t = &rows[i];
        let show = is_shown(filter, t.database.as_str(), t.name.as_str(), all);
        proof {
            lemma_positions(shown);
            let next = shown.push(show);
            assert(next.drop_last() =~= shown);
            assert forall|j: int| 0 <= j < i + 1 implies possibly_shown(
                patterns,
                (#[trigger] rows@.take(i + 1)[j]).database@,
                rows@.take(i + 1)[j].name@,
                all,
                next[j],
            ) by {
                if j < i {
                    assert(rows@.take(i + 1)[j] == rows@.take(i as int)[j]);
                }
            }
            shown = next;
        }
        if show {
            let data_paths = t.data_paths.clone();
            assert(data_paths.deep_view() =~= t.data_paths.deep_view());
            out.push(
                TablesResponseEntry {
                    database: t.database.clone(),
                    name: t.name.clone(),
                    engine: t.engine.clone(),
                    uuid: t.uuid.clone(),
                    data_paths,
                    total_bytes: t.total_bytes,
                },
            );
        }
        i += 1;
    }
    assert(rows@.take(i as int) =~= rows@);
    out
}

/// Database and table of a key; a key without a dot is a database.
pub open spec fn key_names(key: Seq<char>) -> (Seq<char>, Seq<char>) {
    match split_once(key, '.') {
        Some(pair) => pair,
        None => (key, Seq::empty()),
    }
}

/// The bytes of the parts.
pub open spec fn parts_size(parts: Seq<PartModel>) -> nat
    decreases parts.len(),
{
    if parts.len() == 0 {
        0
    } else {
        parts_size(parts.drop_last()) + parts.last().size as nat
    }
}

/// The bytes of the parts on the first `n` disks of a table.
pub open spec fn disks_size(table: TableModel, n: nat) -> nat
    decreases n,
{
    if n == 0 {
        0
    } else {
        disks_size(table, (n - 1) as nat) + parts_size(table.disks[n - 1].parts)
    }
}

/// The bytes of a table.
pub open spec fn table_size(table: TableModel) -> nat {
    disks_size(table, table.disks.len())
}

proof fn lemma_parts_prefix(parts: Seq<PartModel>, n: int)
    requires
        0 <= n <= parts.len(),
    ensures
        parts_size(parts.take(n)) <= parts_size(parts),
    decreases parts.len() - n,
{
    if n < parts.len() {
        lemma_parts_prefix(parts, n + 1);
        assert(parts.take(n + 1).drop_last() =~= parts.take(n));
    } else {
        assert(parts.take(n) =~= parts);
    }
}

proof fn lemma_disks_prefix(table: TableModel, n: nat)
    requires
        n <= table.disks.len(),
    ensures
        disks_size(table, n) <= table_size(table),
    decreases table.disks.len() - n,
{
    if n < table.disks.len() {
        lemma_disks_prefix(table, n + 1);
    }
}

/// The bytes of a table.
fn size_of_table(table: &TableManifest) -> (r: u64)
    requires
        table_size(table@) <= u64::MAX,
    ensures
        r == table_size(table@),
{
    let mut total: u64 = 0;
    let mut d: usize = 0;
    while d < table.disks.len()
        invariant
            d <= table.disks@.len(),
            table_size(table@) <= u64::MAX,
            total == disks_size(table@, d as nat),
        decreases table.disks@.len() - d,
    {
        let disk: &DiskParts = &table.disks[d];
        let ghost parts = disk@.parts;
        let ghost start = total;
        proof {
            lemma_disks_prefix(table@, d as nat + 1);
            assert(table@.disks[d as int] == disk@);
        }
        let mut p: usize = 0;
        while p < disk.parts.len()
            invariant
                p <= disk.parts@.len(),
                parts == disk@.parts,
                start + parts_size(parts) <= u64::MAX,
                total == start + parts_size(parts.take(p as int)),
            decreases disk.parts@.len() - p,
        {
            proof {
                assert(parts.take(p + 1).drop_last() =~= parts.take(p as int));
                assert(parts.take(p + 1).last() == disk.parts@[p as int]@);
                lemma_parts_prefix(parts, p + 1);
            }
            total = total + disk.parts[p].size;
            p += 1;
        }
        assert(parts.take(p as int) =~= parts);
        d += 1;
    }
    total
}

/// Whether the bytes of a table can be counted in 64 bits.
pub fn table_size_fits(table: &TableManifest) -> (r: bool)
    ensures
        r == (table_size(table@) <= u64::MAX),
{
    let mut total: u64 = 0;
    let mut d: usize = 0;
    while d < table.disks.len()
        invariant
            d <= table.disks@.len(),
            total == disks_size(table@, d as nat),
        decreases table.disks@.len() - d,
    {
        let disk: &DiskParts = &table.disks[d];
        let ghost parts = disk@.parts;
        let ghost start = total;
        proof {
            lemma_disks_prefix(table@, d as nat + 1);
            assert(table@.disks[d as int] == disk@);
        }
        let mut p: usize = 0;
        while p < disk.parts.len()
            invariant
                p <= disk.parts@.len(),
                parts == disk@.parts,
                start + parts_size(parts) <= table_size(table@),
                total == start + parts_size(parts.take(p as int)),
            decreases disk.parts@.len() - p,
        {
            proof {
                assert(parts.take(p + 1).drop_last() =~= parts.take(p as int));
                assert(parts.take(p + 1).last() == disk.parts@[p as int]@);
                lemma_parts_prefix(parts, p + 1);
            }
            if total > u64::MAX - disk.parts[p].size {
                return false;
            }
            total = total + disk.parts[p].size;
            p += 1;
        }
        assert(parts.take(p as int) =~= parts);
        d += 1;
    }
    true
}

/// The tables of a manifest that are shown are these, as far as patterns tell.
pub open spec fn tables_shown(
    tables: Seq<TableModel>,
    patterns: Option<Seq<Seq<char>>>,
    shown: Seq<bool>,
) -> bool {
    &&& shown.len() == tables.len()
    &&& forall|i: int|
        0 <= i < tables.len() ==> possibly_shown(
            patterns,
            key_names((#[trigger] tables[i]).key).0,
            key_names(tables[i].key).1,
            false,
            shown[i],
        )
}

/// The entry shows the table of a manifest.
pub open spec fn shows_table(e: TablesResponseEntry, t: TableModel) -> bool {
    &&& (e.database@, e.name@) == key_names(t.key)
    &&& e.engine@ == t.engine
    &&& e.uuid@ == match t.uuid {
        Some(u) => u,
        None => Seq::empty(),
    }
    &&& e.data_paths@.len() == 0
    &&& e.total_bytes matches Some(n) && n == table_size(t)
}

/// The entries show the tables of a manifest that are shown, in order.
pub open spec fn lists_manifest(
    entries: Seq<TablesResponseEntry>,
    tables: Seq<TableModel>,
    shown: Seq<bool>,
) -> bool {
    &&& entries.len() == positions(shown).len()
    &&& forall|i: int|
        0 <= i < entries.len() ==> shows_table(#[trigger] entries[i], tables[positions(shown)[i]])
}

/// The tables of a backup that a filter chooses, in the order of the manifest.
pub fn backup_tables(tables: &Vec<TableManifest>, filter: &Option<TableFilter>) -> (r: Vec<
    TablesResponseEntry,
>)
    requires
        forall|i: int| 0 <= i < tables@.len() ==> table_size((#[trigger] tables@[i])@) <= u64::MAX,
    ensures
        exists|shown: Seq<bool>|
            tables_shown(
                crate::manifest::table_models(tables@),
                opt_patterns(*filter),
                shown,
            ) && #[trigger] lists_manifest(r@, crate::manifest::table_models(tables@), shown),
{
    let ghost patterns = opt_patterns(*filter);
    let ghost all = crate::manifest::table_models(tables@);
    let ghost mut shown: Seq<bool> = Seq::empty();
    let mut out: Vec<TablesResponseEntry> = Vec::new();
    let mut i: usize = 0;
    while i < tables.len()
        invariant
            i <= tables@.len(),
            patterns == opt_patterns(*filter),
            all == crate::manifest::table_models(tables@),
            forall|k: int|
                0 <= k < tables@.len() ==> table_size((#[trigger] tables@[k])@) <= u64::MAX,
            tables_shown(all.take(i as int), patterns, shown),
            lists_manifest(out@, all, shown),
        decreases tables@.len() - i,
    {
        let t = &tables[i];
        assert(all[i as int] == t@);
        let (database, name): (String, String) = match split_once_text(t.key.as_str(), '.') {
            Some(pair) => pair,
            None => (t.key.clone(), String::new()),
        };
        let show = is_shown(filter, database.as_str(), name.as_str(), false);
        proof {
            lemma_positions(shown);
            let next = shown.push(show);
            assert(next.drop_last() =~= shown);
            assert forall|j: int| 0 <= j < i + 1 implies possibly_shown(
                patterns,
                key_names((#[trigger] all.take(i + 1)[j]).key).0,
                key_names(all.take(i + 1)[j].key).1,
                false,
                next[j],
            ) by {
                if j < i {
                    assert(all.take(i + 1)[j] == all.take(i as int)[j]);
                }
            }
            shown = next;
        }
        if show {
            let uuid = match &t.uuid {
                Some(u) => u.clone(),
                None => String::new(),
            };
            out.push(
                TablesResponseEntry {
                    database,
                    name,
                    engine: t.engine.clone(),
                    uuid,
                    data_paths: Vec::new(),
                    total_bytes: Some(size_of_table(t)),
                },
            );
        }
        i += 1;
    }
    assert(all.take(i as int) =~= all);
    out
}

/// Where the tables of a list come from.
#[derive(Debug)]
pub enum TablesSource {
    /// The manifest of a backup.
    Backup(Vec<TableManifest>),
    /// The server.
    Live(Vec<TableRow>),
}

/// These can be the patterns that a list of tables is asked for with.
pub open spec fn asked_with(params: TablesParams, patterns: Option<Seq<Seq<char>>>) -> bool {
    match params.table {
        Some(t) => patterns matches Some(p) && possible_patterns(t@, p),
        None => patterns is None,
    }
}

/// The entries are all the tables of the source that are shown, in order: of each table
/// without a backslash in its name, and asked for with patterns without one, just where the
/// patterns choose it.
pub open spec fn lists_tables(
    entries: Seq<TablesResponseEntry>,
    params: TablesParams,
    source: TablesSource,
    patterns: Option<Seq<Seq<char>>>,
    shown: Seq<bool>,
) -> bool {
    &&& asked_with(params, patterns)
    &&& match source {
        TablesSource::Backup(tables) => {
            let all = crate::manifest::table_models(tables@);
            tables_shown(all, patterns, shown) && lists_manifest(entries, all, shown)
        },
        TablesSource::Live(rows) => {
            rows_shown(rows@, patterns, params.all == Some(true), shown) && lists_rows(
                entries,
                rows@,
                shown,
            )
        },
    }
}

/// The answer to a request for a list of tables: the page that is asked for, and a header
/// with the length of the whole list.
pub fn tables(params: &TablesParams, source: TablesSource) -> (r: (
    [(&'static str, String); 1],
    Vec<TablesResponseEntry>,
))
    requires
        source matches TablesSource::Backup(tables) ==> forall|i: int|
            0 <= i < tables@.len() ==> table_size((#[trigger] tables@[i])@) <= u64::MAX,
    ensures
        r.0@[0].0@ == "x-total-count"@,
        exists|
            entries: Seq<TablesResponseEntry>,
            patterns: Option<Seq<Seq<char>>>,
            shown: Seq<bool>,
        |
            {
                &&& #[trigger] lists_tables(entries, *params, source, patterns, shown)
                &&& r.0@[0].1@ == decimal(entries.len())
                &&& r.1@ == page(entries, params.offset, params.limit)
            },
{
    let filter = match &params.table {
        Some(t) => Some(TableFilter::new(t.as_str())),
        None => None,
    };
    let ghost patterns = opt_patterns(filter);
    assert(asked_with(*params, patterns));
    let ghost asked = source;
    let ghost mut flags: Seq<bool> = Seq::empty();
    let entries = match source {
        TablesSource::Backup(tables) => {
            let e = backup_tables(&tables, &filter);
            proof {
                let all = crate::manifest::table_models(tables@);
                flags = choose|shown: Seq<bool>|
                    tables_shown(all, patterns, shown) && #[trigger] lists_manifest(e@, all, shown);
            }
            e
        },
        TablesSource::Live(rows) => {
            let all = match params.all {
                Some(a) => a,
                None => false,
            };
            let e = live_tables(&rows, &filter, all);
            proof {
                flags = choose|shown: Seq<bool>|
                    rows_shown(rows@, patterns, all, shown) && #[trigger] lists_rows(
                        e@,
                        rows@,
                        shown,
                    );
            }
            e
        },
    };
    assert(lists_tables(entries@, *params, asked, patterns, flags));
    paginate(entries, params.offset, params.limit, "tables")
}

/// The refusal where the manifest of a backup could not be had.
pub fn manifest_refusal(backup_name: &str, e: &str) -> (r: Refusal)
    ensures
        refuses(
            r,
            404,
            "failed to download manifest for backup '"@ + backup_name@ + "': "@ + e@,
        ),
{
    refusal(
        404,
        "failed to download manifest for backup '".to_string().concat(backup_name).concat(
            "': ",
        ).concat(e),
    )
}

/// A list in reverse shows a backup before those that were made earlier.
pub proof fn law_newest_first(
    rows: Seq<ListResponse>,
    sorted: Seq<ListResponse>,
    i: int,
    j: int,
)
    requires
        stably_sorted(rows, sorted, true),
        0 <= i < j < sorted.len(),
    ensures
        !before(sorted[i].created@, sorted[j].created@),
{
    let perm = choose|perm: Seq<int>| sorted_by(rows, sorted, perm, rows.len(), true);
    assert(!crate::sort::ahead(sorted[j], sorted[i], true));
}

/// A list in order shows a backup before those that were made later, and of two that were
/// made at the same time the one whose name comes first; a list in reverse the other way
/// round.
pub proof fn law_backups_are_listed_by_time_and_name(
    rows: Seq<ListResponse>,
    sorted: Seq<ListResponse>,
    reverse: bool,
    i: int,
    j: int,
)
    requires
        stably_sorted(rows, sorted, reverse),
        0 <= i < j < sorted.len(),
    ensures
        !reverse ==> !before(sorted[j].created@, sorted[i].created@),
        !reverse && sorted[i].created@ == sorted[j].created@ ==> !before(
            sorted[j].name@,
            sorted[i].name@,
        ),
        reverse ==> !before(sorted[i].created@, sorted[j].created@),
        reverse && sorted[i].created@ == sorted[j].created@ ==> !before(
            sorted[i].name@,
            sorted[j].name@,
        ),
{
    let perm = choose|perm: Seq<int>| sorted_by(rows, sorted, perm, rows.len(), reverse);
    assert(!crate::sort::ahead(sorted[j], sorted[i], reverse));
}

/// The row tells of the backup: its name, where it is, how large it is, what it needs, and
/// whether it is broken.
pub open spec fn tells_of(r: ListResponse, s: BackupSummary, location: Seq<char>) -> bool {
    &&& r.name@ == s.name@
    &&& r.location@ == location
    &&& s.timestamp is Some ==> r.created@ == rfc3339_text(
        s.timestamp->0.unix_secs(),
        s.timestamp->0.unix_nanos(),
    )
    &&& s.timestamp is None ==> r.created@.len() == 0
    &&& r.size == s.size && r.data_size == s.size
    &&& r.object_disk_size == s.object_disk_size
    &&& r.metadata_size == s.metadata_size
    &&& r.rbac_size == s.rbac_size
    &&& r.config_size == s.config_size
    &&& r.compressed_size == s.compressed_size
    &&& r.required@ == s.required@
    &&& r.is_broken == s.is_broken
    &&& r.broken_reason is Some <==> s.broken_reason is Some
    &&& r.broken_reason is Some ==> r.broken_reason->0@ == s.broken_reason->0@
}

/// A list has a row for every backup of the places that are asked for and could be listed,
/// which tells of it, and no other rows.
pub proof fn law_every_backup_is_listed(
    location: Option<Seq<char>>,
    local: Option<Vec<BackupSummary>>,
    remote: Option<Vec<BackupSummary>>,
    rows: Seq<ListResponse>,
    sorted: Seq<ListResponse>,
    reverse: bool,
)
    requires
        shows_all(
            rows,
            shown_summaries(location, "local"@, local),
            shown_summaries(location, "remote"@, remote),
        ),
        stably_sorted(rows, sorted, reverse),
    ensures
        ({
            let with_local = local is Some && (location is None || location == Some("local"@));
            let with_remote = remote is Some && (location is None || location == Some("remote"@));
            &&& sorted.len() == (if with_local {
                local->0@.len()
            } else {
                0
            }) + (if with_remote {
                remote->0@.len()
            } else {
                0
            })
            &&& with_local ==> forall|k: int|
                0 <= k < local->0@.len() ==> is_told_of(sorted, #[trigger] local->0@[k], "local"@)
            &&& with_remote ==> forall|k: int|
                0 <= k < remote->0@.len() ==> is_told_of(
                    sorted,
                    #[trigger] remote->0@[k],
                    "remote"@,
                )
        }),
{
    let l = shown_summaries(location, "local"@, local);
    let m = shown_summaries(location, "remote"@, remote);
    let with_local = local is Some && (location is None || location == Some("local"@));
    let with_remote = remote is Some && (location is None || location == Some("remote"@));
    if with_local {
        assert forall|k: int| 0 <= k < local->0@.len() implies is_told_of(
            sorted,
            #[trigger] local->0@[k],
            "local"@,
        ) by {
            assert(shows_backup(rows[k], l[k], "local"@));
            lemma_row_is_kept(rows, sorted, reverse, k);
            let i = choose|i: int| 0 <= i < sorted.len() && #[trigger] sorted[i] == rows[k];
            assert(tells_of(sorted[i], local->0@[k], "local"@));
        }
    }
    if with_remote {
        assert forall|k: int| 0 <= k < remote->0@.len() implies is_told_of(
            sorted,
            #[trigger] remote->0@[k],
            "remote"@,
        ) by {
            assert(shows_backup(rows[l.len() + k], m[k], "remote"@));
            lemma_row_is_kept(rows, sorted, reverse, l.len() + k);
            let i = choose|i: int|
                0 <= i < sorted.len() && #[trigger] sorted[i] == rows[l.len() + k];
            assert(tells_of(sorted[i], remote->0@[k], "remote"@));
        }
    }
}

/// One of the rows tells of the backup.
pub open spec fn is_told_of(
    rows: Seq<ListResponse>,
    s: BackupSummary,
    location: Seq<char>,
) -> bool {
    exists|i: int| 0 <= i < rows.len() && tells_of(#[trigger] rows[i], s, location)
}

/// A row is still there once the rows are sorted.
proof fn lemma_row_is_kept(
    rows: Seq<ListResponse>,
    sorted: Seq<ListResponse>,
    reverse: bool,
    k: int,
)
    requires
        stably_sorted(rows, sorted, reverse),
        0 <= k < rows.len(),
    ensures
        exists|i: int| 0 <= i < sorted.len() && #[trigger] sorted[i] == rows[k],
{
    let perm = choose|perm: Seq<int>| sorted_by(rows, sorted, perm, rows.len(), reverse);
    crate::sort::lemma_permutation_reaches(perm, rows.len(), k);
    let i = choose|i: int| 0 <= i < perm.len() && #[trigger] perm[i] == k;
    assert(sorted[i] == rows[k]);
}

/// A list of tables of the server has an entry for every table that is shown, with its
/// database, name, engine, identifier, paths and size, in order, and no other entries.
pub proof fn law_every_shown_table_is_listed(
    entries: Seq<TablesResponseEntry>,
    rows: Seq<TableRow>,
    shown: Seq<bool>,
    k: int,
)
    requires
        lists_rows(entries, rows, shown),
        shown.len() == rows.len(),
        0 <= k < rows.len(),
    ensures
        shown[k] ==> exists|i: int|
            0 <= i < entries.len() && (#[trigger] entries[i]).database@ == rows[k].database@
                && entries[i].name@ == rows[k].name@ && entries[i].engine@ == rows[k].engine@
                && entries[i].uuid@ == rows[k].uuid@ && entries[i].data_paths.deep_view()
                == rows[k].data_paths.deep_view() && entries[i].total_bytes == rows[k].total_bytes,
        entries.len() <= rows.len(),
        forall|i: int| 0 <= i < entries.len() ==> exists|j: int|
            0 <= j < rows.len() && #[trigger] shown[j] && rows[j].database@ == (
            #[trigger] entries[i]).database@ && rows[j].name@ == entries[i].name@,
{
    lemma_positions(shown);
    lemma_positions_are_few(shown);
    if shown[k] {
        let i = choose|i: int| 0 <= i < positions(shown).len() && positions(shown)[i] == k;
        assert(shows_row(entries[i], rows[k]));
    }
    assert forall|i: int| 0 <= i < entries.len() implies exists|j: int|
        0 <= j < rows.len() && #[trigger] shown[j] && rows[j].database@ == (
        #[trigger] entries[i]).database@ && rows[j].name@ == entries[i].name@ by {
        let j = positions(shown)[i];
        assert(shows_row(entries[i], rows[j]));
        assert(shown[j]);
    }
}

/// A list of the tables of a backup has an entry for every table that is shown: with what
/// stands before and after the first dot of its key, its engine, its identifier if it has
/// one, and the bytes of its parts.
pub proof fn law_every_shown_table_of_a_backup_is_listed(
    entries: Seq<TablesResponseEntry>,
    tables: Seq<TableModel>,
    shown: Seq<bool>,
    k: int,
)
    requires
        lists_manifest(entries, tables, shown),
        shown.len() == tables.len(),
        0 <= k < tables.len(),
    ensures
        shown[k] ==> exists|i: int|
            0 <= i < entries.len() && ((#[trigger] entries[i]).database@, entries[i].name@)
                == key_names(tables[k].key) && entries[i].engine@ == tables[k].engine && (
            tables[k].uuid is Some ==> entries[i].uuid@ == tables[k].uuid->0) && (
            tables[k].uuid is None ==> entries[i].uuid@.len() == 0) && entries[i].data_paths@.len()
                == 0 && entries[i].total_bytes is Some && entries[i].total_bytes->0 == table_size(
                tables[k],
            ),
        entries.len() <= tables.len(),
{
    lemma_positions(shown);
    lemma_positions_are_few(shown);
    if shown[k] {
        let i = choose|i: int| 0 <= i < positions(shown).len() && positions(shown)[i] == k;
        assert(shows_table(entries[i], tables[k]));
    }
}

proof fn lemma_positions_are_few(shown: Seq<bool>)
    ensures
        positions(shown).len() <= shown.len(),
    decreases shown.len(),
{
    if shown.len() > 0 {
        lemma_positions_are_few(shown.drop_last());
    }
}

/// The database of a key is what stands before its first dot, and the table what follows;
/// a key without a dot is a database.
pub proof fn law_keys_are_cut_at_the_first_dot(db: Seq<char>, table: Seq<char>)
    requires
        !db.contains('.'),
    ensures
        key_names(db + seq!['.'] + table) == (db, table),
        key_names(db) == (db, Seq::<char>::empty()),
{
    crate::text::law_cut_at_the_first_separator(db, table, '.');
    crate::text::lemma_position(db, '.');
}

/// The bytes of a table are those of its parts: a part more, or a disk more, adds its bytes,
/// and without parts there are none.
pub proof fn law_bytes_of_parts_add_up(table: TableModel, parts: Seq<PartModel>, part: PartModel)
    ensures
        parts_size(parts.push(part)) == parts_size(parts) + part.size,
        parts_size(Seq::empty()) == 0,
        table.disks.len() == 0 ==> table_size(table) == 0,
        table.disks.len() == 1 ==> table_size(table) == parts_size(table.disks[0].parts),
        table.disks.len() > 0 ==> table_size(table) == disks_size(
            table,
            (table.disks.len() - 1) as nat,
        ) + parts_size(table.disks.last().parts),
{
    assert(parts.push(part).drop_last() =~= parts);
    if table.disks.len() == 1 {
        assert(disks_size(table, 0) == 0);
    }
}

/// Without a pattern all tables are listed. With one, a table is listed just where one of the
/// patterns in it matches its name, and its database is not one of the server itself or all
/// tables of the server are asked for.
pub proof fn law_tables_are_listed_by_the_pattern(
    entries: Seq<TablesResponseEntry>,
    params: TablesParams,
    source: TablesSource,
    patterns: Option<Seq<Seq<char>>>,
    shown: Seq<bool>,
)
    requires
        lists_tables(entries, params, source, patterns, shown),
    ensures
        source matches TablesSource::Live(rows) ==> {
            &&& shown.len() == rows@.len()
            &&& lists_rows(entries, rows@, shown)
            &&& params.table is None ==> forall|i: int| 0 <= i < shown.len() ==> #[trigger] shown[i]
            &&& params.table is Some && portable(params.table->0@) ==> forall|i: int|
                0 <= i < rows@.len() && portable(
                    rows@[i].database@ + "."@ + rows@[i].name@,
                ) ==> #[trigger] shown[i] == (any_accepts(
                    usable(split(params.table->0@, ',')),
                    rows@[i].database@ + "."@ + rows@[i].name@,
                ) && (params.all == Some(true) || !(rows@[i].database@ == "system"@
                    || rows@[i].database@ == "INFORMATION_SCHEMA"@ || rows@[i].database@
                    == "information_schema"@)))
        },
        source matches TablesSource::Backup(tables) ==> {
            let all = crate::manifest::table_models(tables@);
            &&& shown.len() == all.len()
            &&& lists_manifest(entries, all, shown)
            &&& params.table is None ==> forall|i: int| 0 <= i < shown.len() ==> #[trigger] shown[i]
            &&& params.table is Some && portable(params.table->0@) ==> forall|i: int|
                0 <= i < all.len() && portable(
                    key_names(all[i].key).0 + "."@ + key_names(all[i].key).1,
                ) ==> #[trigger] shown[i] == (any_accepts(
                    usable(split(params.table->0@, ',')),
                    key_names(all[i].key).0 + "."@ + key_names(all[i].key).1,
                ) && !(key_names(all[i].key).0 == "system"@ || key_names(all[i].key).0
                    == "INFORMATION_SCHEMA"@ || key_names(all[i].key).0 == "information_schema"@))
        },
{
    if let Some(t) = params.table {
        if portable(t@) {
            law_patterns_are_read_alike(t@, patterns->0);
        }
    }
    match source {
        TablesSource::Live(rows) => {
            assert forall|i: int| 0 <= i < rows@.len() implies possibly_shown(
                patterns,
                rows@[i].database@,
                rows@[i].name@,
                params.all == Some(true),
                #[trigger] shown[i],
            ) by {
                let row = rows@[i];
            }
            if params.table is Some && portable(params.table->0@) {
                assert forall|i: int|
                    0 <= i < rows@.len() && portable(
                        rows@[i].database@ + "."@ + rows@[i].name@,
                    ) implies #[trigger] shown[i] == table_shown(
                    patterns,
                    rows@[i].database@,
                    rows@[i].name@,
                    params.all == Some(true),
                ) by {
                    law_tables_are_shown_where_chosen(
                        patterns,
                        rows@[i].database@,
                        rows@[i].name@,
                        params.all == Some(true),
                        shown[i],
                    );
                }
            }
        },
        TablesSource::Backup(tables) => {
            let all = crate::manifest::table_models(tables@);
            assert forall|i: int| 0 <= i < all.len() implies possibly_shown(
                patterns,
                key_names(all[i].key).0,
                key_names(all[i].key).1,
                false,
                #[trigger] shown[i],
            ) by {
                let table = all[i];
            }
            if params.table is Some && portable(params.table->0@) {
                assert forall|i: int|
                    0 <= i < all.len() && portable(
                        key_names(all[i].key).0 + "."@ + key_names(all[i].key).1,
                    ) implies #[trigger] shown[i] == table_shown(
                    patterns,
                    key_names(all[i].key).0,
                    key_names(all[i].key).1,
                    false,
                ) by {
                    law_tables_are_shown_where_chosen(
                        patterns,
                        key_names(all[i].key).0,
                        key_names(all[i].key).1,
                        false,
                        shown[i],
                    );
                }
            }
        },
    }
}

/// A list shows the oldest backup first, unless the newest one is asked for first.
pub proof fn law_oldest_first_unless_asked(params: ListParams)
    ensures
        params.desc is None ==> !newest_first(params),
        params.desc matches Some(d) ==> newest_first(params) == d,
{
}

} // verus!
