//! That an upload plan leaves nothing out and makes nothing up: what follows for each part
//! of a manifest from its own description.

use vstd::prelude::*;
use vstd::utf8::encode_utf8;

use crate::manifest::{lookup, ManifestModel, PartModel, TableModel};
use crate::path_encoding::encoded;
use crate::text::{lemma_position, lemma_position_is};
use crate::upload::encode::{MAX_GZIP_LEVEL, MAX_ZSTD_LEVEL};
use crate::upload::stream::{extension, MIN_MULTIPART_CHUNK};
use crate::upload::{
    after_disks, after_parts, after_tables, plan_context, route, table_names, CopyWork, LocalWork,
    LocationModel, PlanContext, Queued, Route, MULTIPART_THRESHOLD,
};

verus! {

/// There is such a part of a table with data in the manifest.
pub open spec fn is_part(tables: Seq<TableModel>, t: int, d: int, p: int) -> bool {
    &&& 0 <= t < tables.len()
    &&& !tables[t].metadata_only
    &&& 0 <= d < tables[t].disks.len()
    &&& 0 <= p < tables[t].disks[d].parts.len()
}

/// The data of the part is that of a base backup, as its source says.
pub open spec fn from_base(part: PartModel) -> bool {
    exists|base: Seq<char>| part.source == #[trigger] ("carried:"@ + base)
}

/// The part is a list of objects on a disk that keeps its data as objects.
pub open spec fn made_of_objects(
    disk_types: Seq<(Seq<char>, Seq<char>)>,
    disk_name: Seq<char>,
    part: PartModel,
) -> bool {
    part.s3_objects is Some && (lookup(disk_types, disk_name) == Some("s3"@) || lookup(
        disk_types,
        disk_name,
    ) == Some("object_storage"@))
}

/// A source is that of a base backup where it starts so.
proof fn lemma_from_base(part: PartModel)
    ensures
        from_base(part) <==> "carried:"@.is_prefix_of(part.source),
{
    let head = "carried:"@;
    if head.is_prefix_of(part.source) {
        let base = part.source.skip(head.len() as int);
        assert(part.source =~= head + base);
    }
    if from_base(part) {
        let base = choose|base: Seq<char>| part.source == #[trigger] (head + base);
        assert(part.source.subrange(0, head.len() as int) =~= head);
    }
}

/// A table's key is cut at its first dot.
proof fn lemma_names(key: Seq<char>, db: Seq<char>, table: Seq<char>)
    requires
        key == db + "."@ + table,
        !db.contains('.'),
    ensures
        table_names(key) == (db, table),
{
    reveal_strlit(".");
    assert forall|j: int| 0 <= j < db.len() implies key[j] != '.' by {
        assert(key[j] == db[j]);
    }
    assert(key[db.len() as int] == '.');
    lemma_position_is(key, '.', db.len() as int);
    assert(key.take(db.len() as int) =~= db);
    assert(key.skip(db.len() as int + 1) =~= table);
}

/// What a part's route asks for is in the queues.
pub open spec fn served(local: Seq<LocalWork>, copies: Seq<CopyWork>, r: Route) -> bool {
    match r {
        Route::Upload(w) => local.contains(w),
        Route::Copy(w) => copies.contains(w),
        Route::Fail(_) => false,
        _ => true,
    }
}

proof fn lemma_served_longer(
    local: Seq<LocalWork>,
    copies: Seq<CopyWork>,
    local2: Seq<LocalWork>,
    copies2: Seq<CopyWork>,
    r: Route,
)
    requires
        served(local, copies, r),
        local.is_prefix_of(local2),
        copies.is_prefix_of(copies2),
    ensures
        served(local2, copies2, r),
{
    match r {
        Route::Upload(w) => {
            let i = choose|i: int| 0 <= i < local.len() && local[i] == w;
            assert(local2[i] == w);
        },
        Route::Copy(w) => {
            let i = choose|i: int| 0 <= i < copies.len() && copies[i] == w;
            assert(copies2[i] == w);
        },
        _ => {},
    }
}

proof fn lemma_disk_served(
    c: PlanContext,
    tables: Seq<TableModel>,
    locations: Seq<Seq<Seq<LocationModel>>>,
    t: int,
    d: int,
    q: Queued,
    n: nat,
)
    requires
        0 <= t < tables.len(),
        0 <= d < tables[t].disks.len(),
        n <= tables[t].disks[d].parts.len(),
        after_parts(c, tables[t].key, tables[t].disks[d], locations[t][d], q, n) is Ok,
    ensures
        ({
            let r = after_parts(c, tables[t].key, tables[t].disks[d], locations[t][d], q, n)->Ok_0;
            &&& q.local.is_prefix_of(r.local)
            &&& q.copies.is_prefix_of(r.copies)
            &&& forall|p: int|
                0 <= p < n ==> served(
                    r.local,
                    r.copies,
                    #[trigger] route_of(c, tables, locations, t, d, p),
                )
        }),
    decreases n,
{
    if n > 0 {
        let prev = after_parts(
            c,
            tables[t].key,
            tables[t].disks[d],
            locations[t][d],
            q,
            (n - 1) as nat,
        )->Ok_0;
        let r = after_parts(c, tables[t].key, tables[t].disks[d], locations[t][d], q, n)->Ok_0;
        lemma_disk_served(c, tables, locations, t, d, q, (n - 1) as nat);
        assert forall|p: int| 0 <= p < n implies served(
            r.local,
            r.copies,
            #[trigger] route_of(c, tables, locations, t, d, p),
        ) by {
            if p < n - 1 {
                lemma_served_longer(
                    prev.local,
                    prev.copies,
                    r.local,
                    r.copies,
                    route_of(c, tables, locations, t, d, p),
                );
            } else {
                match route_of(c, tables, locations, t, d, p) {
                    Route::Upload(w) => {
                        assert(r.local[r.local.len() - 1] == w);
                    },
                    Route::Copy(w) => {
                        assert(r.copies[r.copies.len() - 1] == w);
                    },
                    _ => {},
                }
            }
        }
    }
}

/// Where the part goes.
pub open spec fn route_of(
    c: PlanContext,
    tables: Seq<TableModel>,
    locations: Seq<Seq<Seq<LocationModel>>>,
    t: int,
    d: int,
    p: int,
) -> Route {
    route(
        c,
        tables[t].key,
        tables[t].disks[d].disk_name,
        tables[t].disks[d].parts[p],
        locations[t][d][p],
    )
}

proof fn lemma_table_served(
    c: PlanContext,
    tables: Seq<TableModel>,
    locations: Seq<Seq<Seq<LocationModel>>>,
    t: int,
    q: Queued,
    n: nat,
)
    requires
        0 <= t < tables.len(),
        n <= tables[t].disks.len(),
        after_disks(c, tables[t], locations[t], q, n) is Ok,
    ensures
        ({
            let r = after_disks(c, tables[t], locations[t], q, n)->Ok_0;
            &&& q.local.is_prefix_of(r.local)
            &&& q.copies.is_prefix_of(r.copies)
            &&& forall|d: int, p: int|
                0 <= d < n && 0 <= p < tables[t].disks[d].parts.len() ==> served(
                    r.local,
                    r.copies,
                    #[trigger] route_of(c, tables, locations, t, d, p),
                )
        }),
    decreases n,
{
    if n > 0 {
        let prev = after_disks(c, tables[t], locations[t], q, (n - 1) as nat)->Ok_0;
        let r = after_disks(c, tables[t], locations[t], q, n)->Ok_0;
        lemma_table_served(c, tables, locations, t, q, (n - 1) as nat);
        lemma_disk_served(
            c,
            tables,
            locations,
            t,
            n - 1,
            prev,
            tables[t].disks[n - 1].parts.len(),
        );
        assert forall|d: int, p: int|
            0 <= d < n && 0 <= p < tables[t].disks[d].parts.len() implies served(
            r.local,
            r.copies,
            #[trigger] route_of(c, tables, locations, t, d, p),
        ) by {
            if d < n - 1 {
                lemma_served_longer(
                    prev.local,
                    prev.copies,
                    r.local,
                    r.copies,
                    route_of(c, tables, locations, t, d, p),
                );
            }
        }
    }
}

proof fn lemma_all_served(
    c: PlanContext,
    tables: Seq<TableModel>,
    locations: Seq<Seq<Seq<LocationModel>>>,
    n: nat,
)
    requires
        n <= tables.len(),
        after_tables(c, tables, locations, n) is Ok,
    ensures
        ({
            let plan = after_tables(c, tables, locations, n)->Ok_0;
            forall|t: int, d: int, p: int|
                t < n && is_part(tables, t, d, p) ==> served(
                    plan.local,
                    plan.copies,
                    #[trigger] route_of(c, tables, locations, t, d, p),
                )
        }),
    decreases n,
{
    if n > 0 {
        let prev = after_tables(c, tables, locations, (n - 1) as nat)->Ok_0;
        let plan = after_tables(c, tables, locations, n)->Ok_0;
        lemma_all_served(c, tables, locations, (n - 1) as nat);
        if !tables[n - 1].metadata_only {
            lemma_table_served(
                c,
                tables,
                locations,
                n - 1,
                Queued { local: prev.local, copies: prev.copies, has_parts: false },
                tables[n - 1].disks.len(),
            );
        }
        assert forall|t: int, d: int, p: int|
            t < n && is_part(tables, t, d, p) implies served(
            plan.local,
            plan.copies,
            #[trigger] route_of(c, tables, locations, t, d, p),
        ) by {
            if t < n - 1 {
                lemma_served_longer(
                    prev.local,
                    prev.copies,
                    plan.local,
                    plan.copies,
                    route_of(c, tables, locations, t, d, p),
                );
            }
        }
    }
}

/// No part is left out: in a plan that succeeds, every part of a table with data whose
/// source does not start with "carried:" is compressed and uploaded under its own key from
/// its own directory, or, where it is made of objects, has all of its objects copied, unless
/// just that key is among the completed ones. Nothing else about the part matters. A table
/// whose key has no dot is one of the database "default".
pub proof fn law_only_carried_and_completed_parts_are_left_out(
    c: PlanContext,
    tables: Seq<TableModel>,
    locations: Seq<Seq<Seq<LocationModel>>>,
    t: int,
    d: int,
    p: int,
    db: Seq<char>,
    table: Seq<char>,
)
    requires
        after_tables(c, tables, locations, tables.len()) is Ok,
        is_part(tables, t, d, p),
        !from_base(tables[t].disks[d].parts[p]),
        (tables[t].key == db + "."@ + table && !db.contains('.')) || (!tables[t].key.contains('.')
            && db == "default"@ && table == tables[t].key),
    ensures
        ({
            let plan = after_tables(c, tables, locations, tables.len())->Ok_0;
            let disk_name = tables[t].disks[d].disk_name;
            let part = tables[t].disks[d].parts[p];
            let directory = c.backup_name + "/data/"@ + encoded(encode_utf8(db), false) + "/"@
                + encoded(encode_utf8(table), false) + "/"@;
            let archive = directory + part.name + extension(c.data_format);
            let metadata = directory + disk_name + "/"@ + part.name + "/"@;
            if made_of_objects(c.disk_types, disk_name, part) {
                !c.completed.contains(metadata) ==> exists|i: int|
                    0 <= i < plan.copies.len() && ({
                        let w = #[trigger] plan.copies[i];
                        &&& w.table_key == tables[t].key
                        &&& w.disk_name == disk_name
                        &&& w.part == part
                        &&& Some(w.s3_objects) == part.s3_objects
                        &&& w.backup_name == c.backup_name
                        &&& w.db == db
                        &&& w.table == table
                        &&& match locations[t][d][p] {
                            LocationModel::Present { dir } => w.part_dir == dir,
                            LocationModel::Missing { dir } => w.part_dir == dir,
                            LocationModel::Unknown => false,
                        }
                    })
            } else {
                !c.completed.contains(archive) ==> exists|i: int|
                    0 <= i < plan.local.len() && ({
                        let w = #[trigger] plan.local[i];
                        &&& w.table_key == tables[t].key
                        &&& w.disk_name == disk_name
                        &&& w.part == part
                        &&& w.s3_key == archive
                        &&& locations[t][d][p] == (LocationModel::Present { dir: w.part_dir })
                    })
            }
        }),
{
    let plan = after_tables(c, tables, locations, tables.len())->Ok_0;
    let part = tables[t].disks[d].parts[p];
    lemma_from_base(part);
    if tables[t].key.contains('.') {
        lemma_names(tables[t].key, db, table);
    } else {
        law_default_database(tables[t].key);
        reveal_strlit(".");
        if tables[t].key == db + "."@ + table {
            assert(tables[t].key[db.len() as int] == '.');
        }
    }
    lemma_all_served(c, tables, locations, tables.len());
    let r = route_of(c, tables, locations, t, d, p);
    assert(served(plan.local, plan.copies, r));
    match r {
        Route::Upload(w) => {
            let i = choose|i: int| 0 <= i < plan.local.len() && plan.local[i] == w;
            assert(plan.local[i] == w);
        },
        Route::Copy(w) => {
            let i = choose|i: int| 0 <= i < plan.copies.len() && plan.copies[i] == w;
            assert(plan.copies[i] == w);
        },
        _ => {},
    }
}

/// A table whose key has no dot is one of the database "default", whose parts are planned
/// like those of the key "default." followed by it.
pub proof fn law_default_database(key: Seq<char>)
    requires
        !key.contains('.'),
    ensures
        table_names(key) == ("default"@, key),
{
    lemma_position(key, '.');
}

// ---------------------------------------------------------------------------
// Nothing is made up
// ---------------------------------------------------------------------------

/// The work is of a part of the manifest that is not carried over.
pub open spec fn of_manifest(
    tables: Seq<TableModel>,
    n: nat,
    table_key: Seq<char>,
    disk_name: Seq<char>,
    part: PartModel,
) -> bool {
    exists|t: int, d: int, p: int|
        t < n && #[trigger] is_part(tables, t, d, p) && tables[t].key == table_key
            && tables[t].disks[d].disk_name == disk_name && tables[t].disks[d].parts[p] == part
            && !from_base(part)
}

/// All the work is of parts of the manifest that are not carried over.
pub open spec fn all_of_manifest(
    tables: Seq<TableModel>,
    n: nat,
    local: Seq<LocalWork>,
    copies: Seq<CopyWork>,
) -> bool {
    &&& forall|i: int|
        0 <= i < local.len() ==> of_manifest(
            tables,
            n,
            (#[trigger] local[i]).table_key,
            local[i].disk_name,
            local[i].part,
        )
    &&& forall|i: int|
        0 <= i < copies.len() ==> of_manifest(
            tables,
            n,
            (#[trigger] copies[i]).table_key,
            copies[i].disk_name,
            copies[i].part,
        )
}

proof fn lemma_disk_of_manifest(
    c: PlanContext,
    tables: Seq<TableModel>,
    locations: Seq<Seq<Seq<LocationModel>>>,
    t: int,
    d: int,
    q: Queued,
    n: nat,
    m: nat,
)
    requires
        0 <= t < m <= tables.len(),
        !tables[t].metadata_only,
        0 <= d < tables[t].disks.len(),
        n <= tables[t].disks[d].parts.len(),
        all_of_manifest(tables, m, q.local, q.copies),
        after_parts(c, tables[t].key, tables[t].disks[d], locations[t][d], q, n) is Ok,
    ensures
        ({
            let r = after_parts(c, tables[t].key, tables[t].disks[d], locations[t][d], q, n)->Ok_0;
            all_of_manifest(tables, m, r.local, r.copies)
        }),
    decreases n,
{
    if n > 0 {
        lemma_disk_of_manifest(c, tables, locations, t, d, q, (n - 1) as nat, m);
        lemma_from_base(tables[t].disks[d].parts[n - 1]);
        assert(is_part(tables, t, d, n - 1));
    }
}

proof fn lemma_table_of_manifest(
    c: PlanContext,
    tables: Seq<TableModel>,
    locations: Seq<Seq<Seq<LocationModel>>>,
    t: int,
    q: Queued,
    n: nat,
    m: nat,
)
    requires
        0 <= t < m <= tables.len(),
        !tables[t].metadata_only,
        n <= tables[t].disks.len(),
        all_of_manifest(tables, m, q.local, q.copies),
        after_disks(c, tables[t], locations[t], q, n) is Ok,
    ensures
        ({
            let r = after_disks(c, tables[t], locations[t], q, n)->Ok_0;
            all_of_manifest(tables, m, r.local, r.copies)
        }),
    decreases n,
{
    if n > 0 {
        lemma_table_of_manifest(c, tables, locations, t, q, (n - 1) as nat, m);
        let prev = after_disks(c, tables[t], locations[t], q, (n - 1) as nat)->Ok_0;
        lemma_disk_of_manifest(
            c,
            tables,
            locations,
            t,
            n - 1,
            prev,
            tables[t].disks[n - 1].parts.len(),
            m,
        );
    }
}

proof fn lemma_all_of_manifest(
    c: PlanContext,
    tables: Seq<TableModel>,
    locations: Seq<Seq<Seq<LocationModel>>>,
    n: nat,
    m: nat,
)
    requires
        n <= m <= tables.len(),
        after_tables(c, tables, locations, n) is Ok,
    ensures
        ({
            let plan = after_tables(c, tables, locations, n)->Ok_0;
            all_of_manifest(tables, m, plan.local, plan.copies)
        }),
    decreases n,
{
    if n > 0 {
        lemma_all_of_manifest(c, tables, locations, (n - 1) as nat, m);
        let prev = after_tables(c, tables, locations, (n - 1) as nat)->Ok_0;
        if !tables[n - 1].metadata_only {
            lemma_table_of_manifest(
                c,
                tables,
                locations,
                n - 1,
                Queued { local: prev.local, copies: prev.copies, has_parts: false },
                tables[n - 1].disks.len(),
                m,
            );
        }
    }
}

/// Nothing is made up: everything that is planned is a part of a table with data in the
/// manifest, as the manifest describes it, and its source does not start with "carried:".
pub proof fn law_only_parts_of_the_manifest_are_planned(
    c: PlanContext,
    tables: Seq<TableModel>,
    locations: Seq<Seq<Seq<LocationModel>>>,
)
    requires
        after_tables(c, tables, locations, tables.len()) is Ok,
    ensures
        ({
            let plan = after_tables(c, tables, locations, tables.len())->Ok_0;
            all_of_manifest(tables, tables.len(), plan.local, plan.copies)
        }),
{
    lemma_all_of_manifest(c, tables, locations, tables.len(), tables.len());
}

// ---------------------------------------------------------------------------
// How many
// ---------------------------------------------------------------------------

/// How many of the first `n` parts of a disk have a source that does not start with
/// "carried:" and a key that is not completed.
pub open spec fn open_parts(
    c: PlanContext,
    tables: Seq<TableModel>,
    t: int,
    d: int,
    n: nat,
) -> nat
    decreases n,
{
    if n == 0 {
        0
    } else {
        let disk = tables[t].disks[d];
        let part = disk.parts[n - 1];
        open_parts(c, tables, t, d, (n - 1) as nat) + if from_base(part) || c.completed.contains(
            c.completion_key(tables[t].key, disk.disk_name, part),
        ) {
            0nat
        } else {
            1nat
        }
    }
}

/// How many parts of the first `n` disks of a table are to be uploaded or copied.
pub open spec fn open_in_table(c: PlanContext, tables: Seq<TableModel>, t: int, n: nat) -> nat
    decreases n,
{
    if n == 0 {
        0
    } else {
        open_in_table(c, tables, t, (n - 1) as nat) + open_parts(
            c,
            tables,
            t,
            n - 1,
            tables[t].disks[n - 1].parts.len(),
        )
    }
}

/// How many parts of the first `n` tables are to be uploaded or copied.
pub open spec fn open_in_all(c: PlanContext, tables: Seq<TableModel>, n: nat) -> nat
    decreases n,
{
    if n == 0 {
        0
    } else {
        open_in_all(c, tables, (n - 1) as nat) + if tables[n - 1].metadata_only {
            0
        } else {
            open_in_table(c, tables, n - 1, tables[n - 1].disks.len())
        }
    }
}

proof fn lemma_disk_count(
    c: PlanContext,
    tables: Seq<TableModel>,
    locations: Seq<Seq<Seq<LocationModel>>>,
    t: int,
    d: int,
    q: Queued,
    n: nat,
)
    requires
        0 <= t < tables.len(),
        0 <= d < tables[t].disks.len(),
        n <= tables[t].disks[d].parts.len(),
        after_parts(c, tables[t].key, tables[t].disks[d], locations[t][d], q, n) is Ok,
    ensures
        ({
            let r = after_parts(c, tables[t].key, tables[t].disks[d], locations[t][d], q, n)->Ok_0;
            &&& r.local.len() + r.copies.len() == q.local.len() + q.copies.len() + open_parts(
                c,
                tables,
                t,
                d,
                n,
            )
            &&& r.has_parts <==> q.has_parts || exists|p: int|
                0 <= p < n && !from_base(#[trigger] tables[t].disks[d].parts[p])
        }),
    decreases n,
{
    if n > 0 {
        lemma_disk_count(c, tables, locations, t, d, q, (n - 1) as nat);
        let prev = after_parts(
            c,
            tables[t].key,
            tables[t].disks[d],
            locations[t][d],
            q,
            (n - 1) as nat,
        )->Ok_0;
        let r = after_parts(c, tables[t].key, tables[t].disks[d], locations[t][d], q, n)->Ok_0;
        let part = tables[t].disks[d].parts[n - 1];
        lemma_from_base(part);
        if !from_base(part) {
            assert(r.has_parts);
            assert(!from_base(tables[t].disks[d].parts[n - 1]));
        } else if r.has_parts && !q.has_parts {
            assert(prev.has_parts);
        }
        if exists|p: int| 0 <= p < n && !from_base(#[trigger] tables[t].disks[d].parts[p]) {
            let p = choose|p: int|
                0 <= p < n && !from_base(#[trigger] tables[t].disks[d].parts[p]);
            if p < n - 1 {
                assert(prev.has_parts);
            }
        }
    }
}

/// The table has a part of its own: one whose source does not start with "carried:".
pub open spec fn has_own_part(table: TableModel, n: nat) -> bool {
    exists|d: int, p: int|
        0 <= d < n && 0 <= p < table.disks[d].parts.len() && !from_base(
            #[trigger] table.disks[d].parts[p],
        )
}

proof fn lemma_table_count(
    c: PlanContext,
    tables: Seq<TableModel>,
    locations: Seq<Seq<Seq<LocationModel>>>,
    t: int,
    q: Queued,
    n: nat,
)
    requires
        0 <= t < tables.len(),
        n <= tables[t].disks.len(),
        after_disks(c, tables[t], locations[t], q, n) is Ok,
    ensures
        ({
            let r = after_disks(c, tables[t], locations[t], q, n)->Ok_0;
            &&& r.local.len() + r.copies.len() == q.local.len() + q.copies.len() + open_in_table(
                c,
                tables,
                t,
                n,
            )
            &&& r.has_parts <==> q.has_parts || has_own_part(tables[t], n)
        }),
    decreases n,
{
    if n > 0 {
        lemma_table_count(c, tables, locations, t, q, (n - 1) as nat);
        let prev = after_disks(c, tables[t], locations[t], q, (n - 1) as nat)->Ok_0;
        let r = after_disks(c, tables[t], locations[t], q, n)->Ok_0;
        let table = tables[t];
        let parts = table.disks[n - 1].parts;
        lemma_disk_count(c, tables, locations, t, n - 1, prev, parts.len());
        if has_own_part(table, (n - 1) as nat) {
            let (d, p) = choose|d: int, p: int|
                0 <= d < n - 1 && 0 <= p < table.disks[d].parts.len() && !from_base(
                    #[trigger] table.disks[d].parts[p],
                );
            assert(!from_base(table.disks[d].parts[p]));
            assert(has_own_part(table, n));
        }
        if exists|p: int| 0 <= p < parts.len() && !from_base(#[trigger] table.disks[n - 1].parts[p]) {
            let p = choose|p: int|
                0 <= p < parts.len() && !from_base(#[trigger] table.disks[n - 1].parts[p]);
            assert(!from_base(table.disks[n - 1].parts[p]));
            assert(has_own_part(table, n));
        }
        if has_own_part(table, n) {
            let (d, p) = choose|d: int, p: int|
                0 <= d < n && 0 <= p < table.disks[d].parts.len() && !from_base(
                    #[trigger] table.disks[d].parts[p],
                );
            if d < n - 1 {
                assert(has_own_part(table, (n - 1) as nat));
            } else {
                assert(!from_base(table.disks[n - 1].parts[p]));
            }
        }
    }
}

/// How many of the first `n` tables with data have a part of their own.
pub open spec fn tables_with_own_parts(tables: Seq<TableModel>, n: nat) -> nat
    decreases n,
{
    if n == 0 {
        0
    } else {
        tables_with_own_parts(tables, (n - 1) as nat) + if !tables[n - 1].metadata_only
            && has_own_part(tables[n - 1], tables[n - 1].disks.len()) {
            1nat
        } else {
            0nat
        }
    }
}

/// Each part is planned once: a plan has as many pieces of work as the manifest has parts
/// that are neither carried over nor completed, and counts just the tables with data that
/// have a part that is not carried over.
pub proof fn law_each_part_is_planned_once(
    c: PlanContext,
    tables: Seq<TableModel>,
    locations: Seq<Seq<Seq<LocationModel>>>,
    n: nat,
)
    requires
        n <= tables.len(),
        after_tables(c, tables, locations, n) is Ok,
    ensures
        ({
            let plan = after_tables(c, tables, locations, n)->Ok_0;
            &&& plan.local.len() + plan.copies.len() == open_in_all(c, tables, n)
            &&& plan.table_count == tables_with_own_parts(tables, n)
        }),
    decreases n,
{
    if n > 0 {
        law_each_part_is_planned_once(c, tables, locations, (n - 1) as nat);
        let prev = after_tables(c, tables, locations, (n - 1) as nat)->Ok_0;
        if !tables[n - 1].metadata_only {
            lemma_table_count(
                c,
                tables,
                locations,
                n - 1,
                Queued { local: prev.local, copies: prev.copies, has_parts: false },
                tables[n - 1].disks.len(),
            );
        }
    }
}

// ---------------------------------------------------------------------------
// Failures
// ---------------------------------------------------------------------------

/// The data of the part is needed and was not found.
pub open spec fn data_is_missing(
    c: PlanContext,
    tables: Seq<TableModel>,
    locations: Seq<Seq<Seq<LocationModel>>>,
    t: int,
    d: int,
    p: int,
) -> bool {
    let disk = tables[t].disks[d];
    let part = disk.parts[p];
    !from_base(part) && if made_of_objects(c.disk_types, disk.disk_name, part) {
        locations[t][d][p] is Unknown && !c.completed.contains(
            c.completion_key(tables[t].key, disk.disk_name, part),
        )
    } else {
        !(locations[t][d][p] is Present)
    }
}

proof fn lemma_disk_fails(
    c: PlanContext,
    tables: Seq<TableModel>,
    locations: Seq<Seq<Seq<LocationModel>>>,
    t: int,
    d: int,
    q: Queued,
    n: nat,
)
    requires
        0 <= t < tables.len(),
        0 <= d < tables[t].disks.len(),
        n <= tables[t].disks[d].parts.len(),
    ensures
        after_parts(c, tables[t].key, tables[t].disks[d], locations[t][d], q, n) is Err
            <==> exists|p: int| 0 <= p < n && #[trigger] data_is_missing(c, tables, locations, t, d, p),
    decreases n,
{
    if n > 0 {
        lemma_disk_fails(c, tables, locations, t, d, q, (n - 1) as nat);
        lemma_from_base(tables[t].disks[d].parts[n - 1]);
        let now = after_parts(c, tables[t].key, tables[t].disks[d], locations[t][d], q, n);
        let prev = after_parts(
            c,
            tables[t].key,
            tables[t].disks[d],
            locations[t][d],
            q,
            (n - 1) as nat,
        );
        if prev is Err {
            let p = choose|p: int|
                0 <= p < n - 1 && #[trigger] data_is_missing(c, tables, locations, t, d, p);
            assert(data_is_missing(c, tables, locations, t, d, p));
        } else if now is Err {
            assert(data_is_missing(c, tables, locations, t, d, n - 1));
        } else if exists|p: int| 0 <= p < n && #[trigger] data_is_missing(c, tables, locations, t, d, p) {
            let p = choose|p: int|
                0 <= p < n && #[trigger] data_is_missing(c, tables, locations, t, d, p);
            assert(p == n - 1);
        }
    }
}

proof fn lemma_table_fails(
    c: PlanContext,
    tables: Seq<TableModel>,
    locations: Seq<Seq<Seq<LocationModel>>>,
    t: int,
    q: Queued,
    n: nat,
)
    requires
        0 <= t < tables.len(),
        n <= tables[t].disks.len(),
    ensures
        after_disks(c, tables[t], locations[t], q, n) is Err <==> exists|d: int, p: int|
            0 <= d < n && 0 <= p < tables[t].disks[d].parts.len() && #[trigger] data_is_missing(
                c,
                tables,
                locations,
                t,
                d,
                p,
            ),
    decreases n,
{
    if n > 0 {
        lemma_table_fails(c, tables, locations, t, q, (n - 1) as nat);
        let prev = after_disks(c, tables[t], locations[t], q, (n - 1) as nat);
        let parts = tables[t].disks[n - 1].parts;
        if prev is Err {
            let (d, p) = choose|d: int, p: int|
                0 <= d < n - 1 && 0 <= p < tables[t].disks[d].parts.len()
                    && #[trigger] data_is_missing(c, tables, locations, t, d, p);
            assert(data_is_missing(c, tables, locations, t, d, p));
        } else {
            lemma_disk_fails(c, tables, locations, t, n - 1, prev->Ok_0, parts.len());
            if after_disks(c, tables[t], locations[t], q, n) is Err {
                let p = choose|p: int|
                    0 <= p < parts.len() && #[trigger] data_is_missing(
                        c,
                        tables,
                        locations,
                        t,
                        n - 1,
                        p,
                    );
                assert(data_is_missing(c, tables, locations, t, n - 1, p));
            } else if exists|d: int, p: int|
                0 <= d < n && 0 <= p < tables[t].disks[d].parts.len() && #[trigger] data_is_missing(
                    c,
                    tables,
                    locations,
                    t,
                    d,
                    p,
                ) {
                let (d, p) = choose|d: int, p: int|
                    0 <= d < n && 0 <= p < tables[t].disks[d].parts.len()
                        && #[trigger] data_is_missing(c, tables, locations, t, d, p);
                assert(d == n - 1);
            }
        }
    }
}

/// Planning fails just where the data of a part is needed and was not found: a part that is
/// not carried over has no directory, or, where it is made of objects and not completed, not
/// even a place for one.
pub proof fn law_planning_fails_for_missing_data_alone(
    c: PlanContext,
    tables: Seq<TableModel>,
    locations: Seq<Seq<Seq<LocationModel>>>,
    n: nat,
)
    requires
        n <= tables.len(),
    ensures
        after_tables(c, tables, locations, n) is Err <==> exists|t: int, d: int, p: int|
            t < n && is_part(tables, t, d, p) && #[trigger] data_is_missing(
                c,
                tables,
                locations,
                t,
                d,
                p,
            ),
    decreases n,
{
    if n > 0 {
        law_planning_fails_for_missing_data_alone(c, tables, locations, (n - 1) as nat);
        let prev = after_tables(c, tables, locations, (n - 1) as nat);
        let t = n - 1;
        if prev is Err {
            let (t0, d, p) = choose|t0: int, d: int, p: int|
                t0 < n - 1 && is_part(tables, t0, d, p) && #[trigger] data_is_missing(
                    c,
                    tables,
                    locations,
                    t0,
                    d,
                    p,
                );
            assert(data_is_missing(c, tables, locations, t0, d, p));
        } else {
            let plan = prev->Ok_0;
            let q = Queued { local: plan.local, copies: plan.copies, has_parts: false };
            if !tables[t].metadata_only {
                lemma_table_fails(c, tables, locations, t, q, tables[t].disks.len());
            }
            if after_tables(c, tables, locations, n) is Err {
                let (d, p) = choose|d: int, p: int|
                    0 <= d < tables[t].disks.len() && 0 <= p < tables[t].disks[d].parts.len()
                        && #[trigger] data_is_missing(c, tables, locations, t, d, p);
                assert(is_part(tables, t, d, p) && data_is_missing(c, tables, locations, t, d, p));
            } else if exists|t0: int, d: int, p: int|
                t0 < n && is_part(tables, t0, d, p) && #[trigger] data_is_missing(
                    c,
                    tables,
                    locations,
                    t0,
                    d,
                    p,
                ) {
                let (t0, d, p) = choose|t0: int, d: int, p: int|
                    t0 < n && is_part(tables, t0, d, p) && #[trigger] data_is_missing(
                        c,
                        tables,
                        locations,
                        t0,
                        d,
                        p,
                    );
                assert(t0 == t);
                assert(data_is_missing(c, tables, locations, t, d, p));
            }
        }
    }
}

/// What is planned depends on the backup's name, the bucket, the format and the keys that
/// were completed, as they are given, and on the disks as the manifest tells of them.
pub proof fn law_plans_follow_what_is_given(
    manifest: ManifestModel,
    backup_name: Seq<char>,
    bucket: Seq<char>,
    data_format: Seq<char>,
    completed: Seq<Seq<char>>,
)
    ensures
        ({
            let c = plan_context(manifest, backup_name, bucket, data_format, completed);
            &&& c.backup_name == backup_name
            &&& c.bucket == bucket
            &&& c.data_format == data_format
            &&& c.completed == completed
            &&& c.disk_types == manifest.disk_types
            &&& c.disk_remote_paths == manifest.disk_remote_paths
        }),
{
}

/// An archive of more than thirty-two mebibytes is uploaded in parts, and the chunks of a
/// stream hold at least five.
pub proof fn law_sizes_that_decide_on_the_upload()
    ensures
        MULTIPART_THRESHOLD == 32 * 1024 * 1024,
        MIN_MULTIPART_CHUNK == 5 * 1024 * 1024,
        MAX_ZSTD_LEVEL == 22,
        MAX_GZIP_LEVEL == 10,
{
}

} // verus!
