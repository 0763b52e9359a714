//! What holds of every upload plan.

use vstd::prelude::*;
use vstd::utf8::encode_utf8;

use crate::manifest::{DiskModel, TableModel};
use crate::path_encoding::{law_encoding_alphabet, law_encoding_is_injective};
use crate::text::lemma_cut_at_separator;
use crate::upload::stream::extension;
use crate::upload::{
    after_disks, after_parts, after_tables, carried, component, part_key, route, CopyWork,
    LocalWork, LocationModel, PlanContext, Queued, Route,
};

verus! {

/// The upload is one that is due: it is of a part that is neither carried over nor copied
/// nor uploaded before, under the key of that part.
pub open spec fn due_upload(c: PlanContext, w: LocalWork) -> bool {
    &&& !carried(w.part)
    &&& !c.is_copied(w.disk_name, w.part)
    &&& w.s3_key == c.completion_key(w.table_key, w.disk_name, w.part)
    &&& !c.completed.contains(w.s3_key)
}

/// The copy is one that is due: it is of a part of an object disk that is neither carried
/// over nor copied before.
pub open spec fn due_copy(c: PlanContext, w: CopyWork) -> bool {
    &&& !carried(w.part)
    &&& c.is_copied(w.disk_name, w.part)
    &&& !c.completed.contains(c.completion_key(w.table_key, w.disk_name, w.part))
    &&& w.part.s3_objects == Some(w.s3_objects)
    &&& (w.source_bucket, w.source_prefix) == c.object_source(w.disk_name)
}

/// Everything in the queues is due.
pub open spec fn all_due(c: PlanContext, local: Seq<LocalWork>, copies: Seq<CopyWork>) -> bool {
    &&& forall|i: int| 0 <= i < local.len() ==> due_upload(c, #[trigger] local[i])
    &&& forall|i: int| 0 <= i < copies.len() ==> due_copy(c, #[trigger] copies[i])
}

proof fn lemma_parts_due(
    c: PlanContext,
    table_key: Seq<char>,
    disk: DiskModel,
    locations: Seq<LocationModel>,
    q: Queued,
    n: nat,
)
    requires
        all_due(c, q.local, q.copies),
        after_parts(c, table_key, disk, locations, q, n) is Ok,
    ensures
        ({
            let r = after_parts(c, table_key, disk, locations, q, n)->Ok_0;
            all_due(c, r.local, r.copies)
        }),
    decreases n,
{
    if n > 0 {
        lemma_parts_due(c, table_key, disk, locations, q, (n - 1) as nat);
    }
}

proof fn lemma_disks_due(
    c: PlanContext,
    table: TableModel,
    locations: Seq<Seq<LocationModel>>,
    q: Queued,
    n: nat,
)
    requires
        all_due(c, q.local, q.copies),
        after_disks(c, table, locations, q, n) is Ok,
    ensures
        ({
            let r = after_disks(c, table, locations, q, n)->Ok_0;
            all_due(c, r.local, r.copies)
        }),
    decreases n,
{
    if n > 0 {
        lemma_disks_due(c, table, locations, q, (n - 1) as nat);
        let p = after_disks(c, table, locations, q, (n - 1) as nat)->Ok_0;
        lemma_parts_due(
            c,
            table.key,
            table.disks[n - 1],
            locations[n - 1],
            p,
            table.disks[n - 1].parts.len(),
        );
    }
}

/// Nothing is uploaded or copied that is carried over from a base backup or that was
/// finished before, each part goes to the queue of its kind of disk, and under its own key.
pub proof fn law_only_due_work_is_planned(
    c: PlanContext,
    tables: Seq<TableModel>,
    locations: Seq<Seq<Seq<LocationModel>>>,
    n: nat,
)
    requires
        after_tables(c, tables, locations, n) is Ok,
    ensures
        ({
            let plan = after_tables(c, tables, locations, n)->Ok_0;
            all_due(c, plan.local, plan.copies)
        }),
    decreases n,
{
    if n > 0 {
        law_only_due_work_is_planned(c, tables, locations, (n - 1) as nat);
        let p = after_tables(c, tables, locations, (n - 1) as nat)->Ok_0;
        if !tables[n - 1].metadata_only {
            lemma_disks_due(
                c,
                tables[n - 1],
                locations[n - 1],
                Queued { local: p.local, copies: p.copies, has_parts: false },
                tables[n - 1].disks.len(),
            );
        }
    }
}

/// The part is in one of the queues.
pub open spec fn planned(
    local: Seq<LocalWork>,
    copies: Seq<CopyWork>,
    table_key: Seq<char>,
    disk: DiskModel,
    p: int,
) -> bool {
    ||| exists|i: int|
        0 <= i < local.len() && (#[trigger] local[i]).table_key == table_key && local[i].disk_name
            == disk.disk_name && local[i].part == disk.parts[p]
    ||| exists|i: int|
        0 <= i < copies.len() && (#[trigger] copies[i]).table_key == table_key
            && copies[i].disk_name == disk.disk_name && copies[i].part == disk.parts[p]
}

/// The part needs no work: it is carried over, or was finished before.
pub open spec fn settled(c: PlanContext, table_key: Seq<char>, disk: DiskModel, p: int) -> bool {
    carried(disk.parts[p]) || c.completed.contains(
        c.completion_key(table_key, disk.disk_name, disk.parts[p]),
    )
}

/// What is queued stays queued while more is added.
proof fn lemma_parts_extend(
    c: PlanContext,
    table_key: Seq<char>,
    disk: DiskModel,
    locations: Seq<LocationModel>,
    q: Queued,
    n: nat,
)
    requires
        after_parts(c, table_key, disk, locations, q, n) is Ok,
    ensures
        ({
            let r = after_parts(c, table_key, disk, locations, q, n)->Ok_0;
            q.local.is_prefix_of(r.local) && q.copies.is_prefix_of(r.copies)
        }),
    decreases n,
{
    if n > 0 {
        lemma_parts_extend(c, table_key, disk, locations, q, (n - 1) as nat);
    }
}

proof fn lemma_disks_extend(
    c: PlanContext,
    table: TableModel,
    locations: Seq<Seq<LocationModel>>,
    q: Queued,
    n: nat,
)
    requires
        after_disks(c, table, locations, q, n) is Ok,
    ensures
        ({
            let r = after_disks(c, table, locations, q, n)->Ok_0;
            q.local.is_prefix_of(r.local) && q.copies.is_prefix_of(r.copies)
        }),
    decreases n,
{
    if n > 0 {
        lemma_disks_extend(c, table, locations, q, (n - 1) as nat);
        let p = after_disks(c, table, locations, q, (n - 1) as nat)->Ok_0;
        lemma_parts_extend(
            c,
            table.key,
            table.disks[n - 1],
            locations[n - 1],
            p,
            table.disks[n - 1].parts.len(),
        );
    }
}

/// A part that is in a queue is in each longer one.
proof fn lemma_planned_extends(
    local: Seq<LocalWork>,
    copies: Seq<CopyWork>,
    local2: Seq<LocalWork>,
    copies2: Seq<CopyWork>,
    table_key: Seq<char>,
    disk: DiskModel,
    p: int,
)
    requires
        planned(local, copies, table_key, disk, p),
        local.is_prefix_of(local2),
        copies.is_prefix_of(copies2),
    ensures
        planned(local2, copies2, table_key, disk, p),
{
    if exists|i: int|
        0 <= i < local.len() && (#[trigger] local[i]).table_key == table_key && local[i].disk_name
            == disk.disk_name && local[i].part == disk.parts[p] {
        let i = choose|i: int|
            0 <= i < local.len() && (#[trigger] local[i]).table_key == table_key
                && local[i].disk_name == disk.disk_name && local[i].part == disk.parts[p];
        assert(local2[i] == local[i]);
    } else {
        let i = choose|i: int|
            0 <= i < copies.len() && (#[trigger] copies[i]).table_key == table_key
                && copies[i].disk_name == disk.disk_name && copies[i].part == disk.parts[p];
        assert(copies2[i] == copies[i]);
    }
}

proof fn lemma_parts_complete(
    c: PlanContext,
    table_key: Seq<char>,
    disk: DiskModel,
    locations: Seq<LocationModel>,
    q: Queued,
    n: nat,
    p: int,
)
    requires
        0 <= p < n,
        after_parts(c, table_key, disk, locations, q, n) is Ok,
    ensures
        ({
            let r = after_parts(c, table_key, disk, locations, q, n)->Ok_0;
            settled(c, table_key, disk, p) || planned(r.local, r.copies, table_key, disk, p)
        }),
    decreases n,
{
    let prev = after_parts(c, table_key, disk, locations, q, (n - 1) as nat)->Ok_0;
    let r = after_parts(c, table_key, disk, locations, q, n)->Ok_0;
    let step = route(c, table_key, disk.disk_name, disk.parts[n - 1], locations[n - 1]);
    if p < n - 1 {
        lemma_parts_complete(c, table_key, disk, locations, q, (n - 1) as nat, p);
        if planned(prev.local, prev.copies, table_key, disk, p) {
            assert(prev.local.is_prefix_of(r.local));
            assert(prev.copies.is_prefix_of(r.copies));
            lemma_planned_extends(
                prev.local,
                prev.copies,
                r.local,
                r.copies,
                table_key,
                disk,
                p,
            );
        }
    } else {
        match step {
            Route::Upload(w) => {
                assert(r.local[r.local.len() - 1] == w);
            },
            Route::Copy(w) => {
                assert(r.copies[r.copies.len() - 1] == w);
            },
            _ => {},
        }
    }
}

proof fn lemma_disks_complete(
    c: PlanContext,
    table: TableModel,
    locations: Seq<Seq<LocationModel>>,
    q: Queued,
    n: nat,
    d: int,
    p: int,
)
    requires
        0 <= d < n,
        0 <= p < table.disks[d].parts.len(),
        after_disks(c, table, locations, q, n) is Ok,
    ensures
        ({
            let r = after_disks(c, table, locations, q, n)->Ok_0;
            settled(c, table.key, table.disks[d], p) || planned(
                r.local,
                r.copies,
                table.key,
                table.disks[d],
                p,
            )
        }),
    decreases n,
{
    let prev = after_disks(c, table, locations, q, (n - 1) as nat)->Ok_0;
    let r = after_disks(c, table, locations, q, n)->Ok_0;
    let disk = table.disks[n - 1];
    if d < n - 1 {
        lemma_disks_complete(c, table, locations, q, (n - 1) as nat, d, p);
        if planned(prev.local, prev.copies, table.key, table.disks[d], p) {
            lemma_parts_extend(c, table.key, disk, locations[n - 1], prev, disk.parts.len());
            lemma_planned_extends(
                prev.local,
                prev.copies,
                r.local,
                r.copies,
                table.key,
                table.disks[d],
                p,
            );
        }
    } else {
        lemma_parts_complete(c, table.key, disk, locations[n - 1], prev, disk.parts.len(), p);
    }
}

/// No part is forgotten: each part of a table with data is carried over, was finished
/// before, or is in one of the queues.
pub proof fn law_every_part_is_planned(
    c: PlanContext,
    tables: Seq<TableModel>,
    locations: Seq<Seq<Seq<LocationModel>>>,
    n: nat,
    t: int,
    d: int,
    p: int,
)
    requires
        0 <= t < n <= tables.len(),
        !tables[t].metadata_only,
        0 <= d < tables[t].disks.len(),
        0 <= p < tables[t].disks[d].parts.len(),
        after_tables(c, tables, locations, n) is Ok,
    ensures
        ({
            let plan = after_tables(c, tables, locations, n)->Ok_0;
            settled(c, tables[t].key, tables[t].disks[d], p) || planned(
                plan.local,
                plan.copies,
                tables[t].key,
                tables[t].disks[d],
                p,
            )
        }),
    decreases n,
{
    let prev = after_tables(c, tables, locations, (n - 1) as nat)->Ok_0;
    let plan = after_tables(c, tables, locations, n)->Ok_0;
    let table = tables[n - 1];
    let start = Queued { local: prev.local, copies: prev.copies, has_parts: false };
    if t < n - 1 {
        law_every_part_is_planned(c, tables, locations, (n - 1) as nat, t, d, p);
        if !table.metadata_only {
            lemma_disks_extend(c, table, locations[n - 1], start, table.disks.len());
            if planned(prev.local, prev.copies, tables[t].key, tables[t].disks[d], p) {
                lemma_planned_extends(
                    prev.local,
                    prev.copies,
                    plan.local,
                    plan.copies,
                    tables[t].key,
                    tables[t].disks[d],
                    p,
                );
            }
        }
    } else {
        lemma_disks_complete(c, table, locations[n - 1], start, table.disks.len(), d, p);
    }
}

/// A name that is encoded as a component of a path holds no slash.
proof fn lemma_component_has_no_slash(name: Seq<char>)
    ensures
        !component(name).contains('/'),
{
    let bytes = encode_utf8(name);
    assert forall|i: int| 0 <= i < component(name).len() implies component(name)[i] != '/' by {
        law_encoding_alphabet(bytes, false, i);
    }
}

/// Names that are encoded alike are the same.
proof fn lemma_component_is_injective(a: Seq<char>, b: Seq<char>)
    requires
        component(a) == component(b),
    ensures
        a == b,
{
    law_encoding_is_injective(encode_utf8(a), encode_utf8(b), false);
    vstd::utf8::encode_utf8_decode_utf8(a);
    vstd::utf8::encode_utf8_decode_utf8(b);
}

/// Two parts of a backup never share a key unless they have the same name in the same
/// table: no archive overwrites that of another part.
pub proof fn law_part_keys_are_unique(
    backup_name: Seq<char>,
    data_format: Seq<char>,
    db1: Seq<char>,
    table1: Seq<char>,
    part1: Seq<char>,
    db2: Seq<char>,
    table2: Seq<char>,
    part2: Seq<char>,
)
    requires
        part_key(backup_name, db1, table1, part1, data_format) == part_key(
            backup_name,
            db2,
            table2,
            part2,
            data_format,
        ),
    ensures
        db1 == db2,
        table1 == table2,
        part1 == part2,
{
    reveal_strlit("/");
    assert("/"@ =~= seq!['/']);
    let ext = extension(data_format);
    let head = backup_name + "/data/"@;
    let n = head.len() as int;
    let k1 = part_key(backup_name, db1, table1, part1, data_format);
    let k2 = part_key(backup_name, db2, table2, part2, data_format);
    let rest1 = component(table1).push('/') + (part1 + ext);
    let rest2 = component(table2).push('/') + (part2 + ext);
    assert(k1.skip(n) =~= component(db1).push('/') + rest1);
    assert(k2.skip(n) =~= component(db2).push('/') + rest2);
    lemma_component_has_no_slash(db1);
    lemma_component_has_no_slash(db2);
    lemma_component_has_no_slash(table1);
    lemma_component_has_no_slash(table2);
    lemma_cut_at_separator(component(db1), rest1, component(db2), rest2, '/');
    lemma_cut_at_separator(component(table1), part1 + ext, component(table2), part2 + ext, '/');
    lemma_component_is_injective(db1, db2);
    lemma_component_is_injective(table1, table2);
    let e1 = part1 + ext;
    let e2 = part2 + ext;
    assert(part1 =~= e1.take(e1.len() - ext.len()));
    assert(part2 =~= e2.take(e2.len() - ext.len()));
}

} // verus!
