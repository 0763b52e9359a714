//! What an upload leaves behind: the descriptions of the uploaded parts, the manifest that
//! they are merged into, and the steps that end the upload.

use vstd::prelude::*;
use vstd::string::StringExecFns;

use crate::manifest::{
    object_models, part_models, table_models, BackupManifest, DiskModel, DiskParts, ManifestModel,
    ObjectModel, PartInfo, PartModel, S3ObjectInfo, TableManifest, TableModel,
};
use crate::storage::s3::{
    calculate_chunk_size, ceil_div, chunk_size_for, part_count_of, part_range, range_at,
    range_values, PartRange, COPY_OBJECT_MAX_SIZE,
};
use crate::text::{same, trim_end, trim_end_text};
use crate::upload::stream::MIN_MULTIPART_CHUNK;
use crate::upload::{PlanModel, UploadPlan};

verus! {

// ---------------------------------------------------------------------------
// Parts of one upload
// ---------------------------------------------------------------------------

/// The chunks in which a compressed archive is uploaded.
pub fn archive_chunks(compressed_size: u64, config_chunk_size: u64, max_parts_count: u32) -> (r: Vec<
    PartRange,
>)
    requires
        compressed_size <= u64::MAX - COPY_OBJECT_MAX_SIZE,
        ceil_div(
            compressed_size as nat,
            chunk_size_for(compressed_size, config_chunk_size, max_parts_count),
        ) < i32::MAX,
    ensures
        ({
            let chunk = chunk_size_for(compressed_size, config_chunk_size, max_parts_count);
            &&& r@.len() == ceil_div(compressed_size as nat, chunk)
            &&& forall|i: int|
                0 <= i < r@.len() ==> range_values(#[trigger] r@[i]) == range_at(
                    i,
                    compressed_size as int,
                    chunk as int,
                )
        }),
{
    let chunk_size: u64 = calculate_chunk_size(compressed_size, config_chunk_size, max_parts_count);
    let count: u64 = part_count_of(compressed_size, chunk_size);
    let mut out: Vec<PartRange> = Vec::new();
    let mut i: u64 = 0;
    while i < count
        invariant
            i <= count < i32::MAX,
            chunk_size > 0,
            compressed_size <= u64::MAX - chunk_size,
            count == ceil_div(compressed_size as nat, chunk_size as nat),
            out@.len() == i,
            forall|j: int|
                0 <= j < i ==> range_values(#[trigger] out@[j]) == range_at(
                    j,
                    compressed_size as int,
                    chunk_size as int,
                ),
        decreases count - i,
    {
        out.push(part_range(i, compressed_size, chunk_size));
        i += 1;
    }
    out
}

/// The size of the chunks in which a part is streamed.
pub fn streaming_chunk_size(part_size: u64, config_chunk_size: u64, max_parts_count: u32) -> (r: u64)
    ensures
        r == chunk_size_for(part_size, config_chunk_size, max_parts_count),
        r >= MIN_MULTIPART_CHUNK,
{
    calculate_chunk_size(part_size, config_chunk_size, max_parts_count)
}

/// The part after its archive was uploaded.
pub open spec fn uploaded(part: PartModel, s3_key: Seq<char>, compressed_size: u64) -> PartModel {
    PartModel {
        backup_key: s3_key,
        source: "uploaded"@,
        backup_size: compressed_size,
        ..part
    }
}

/// The part after its archive was uploaded.
pub fn uploaded_part(part: &PartInfo, s3_key: &str, compressed_size: u64) -> (r: PartInfo)
    ensures
        r@ == uploaded(part@, s3_key@, compressed_size),
        r.backup_key@ == s3_key@,
        r.source@ == "uploaded"@,
        r.backup_size == compressed_size,
        r.name@ == part.name@,
        r.size == part.size,
        r.checksum_crc64 == part.checksum_crc64,
        r@.s3_objects == part@.s3_objects,
{
    let mut p = part.copy();
    p.backup_key = s3_key.to_string();
    p.source = "uploaded".to_string();
    p.backup_size = compressed_size;
    p
}

/// The object in the source bucket: its path, below the disk's prefix if there is one, which
/// may end in slashes.
pub open spec fn source_key(source_prefix: Seq<char>, path: Seq<char>) -> Seq<char> {
    let prefix = trim_end(source_prefix, '/');
    if prefix.len() == 0 {
        path
    } else {
        prefix + "/"@ + path
    }
}

/// The object in the backup.
pub open spec fn object_key(backup_name: Seq<char>, path: Seq<char>) -> Seq<char> {
    backup_name + "/objects/"@ + path
}

/// One server-side copy: from where, and to where.
#[derive(Debug)]
pub struct ObjectCopy {
    pub source_key: String,
    pub dest_key: String,
}

/// The copy that an object needs; none for an object without data of its own.
pub fn object_copy(object: &S3ObjectInfo, source_prefix: &str, backup_name: &str) -> (r: Option<
    ObjectCopy,
>)
    ensures
        r is None <==> object.size == 0,
        r matches Some(c) ==> c.source_key@ == source_key(source_prefix@, object.path@)
            && c.dest_key@ == object_key(backup_name@, object.path@),
        r matches Some(c) ==> c.dest_key@ == backup_name@ + "/objects/"@ + object.path@,
        r matches Some(c) ==> source_prefix@.len() == 0 ==> c.source_key@ == object.path@,
        r matches Some(c) ==> source_prefix@.len() > 0 && source_prefix@.last() != '/'
            ==> c.source_key@ == source_prefix@ + "/"@ + object.path@,
{
    if object.size == 0 {
        return None;
    }
    let prefix = trim_end_text(source_prefix, '/');
    let source = if prefix.as_str().is_empty() {
        object.path.clone()
    } else {
        prefix.concat("/").concat(object.path.as_str())
    };
    let dest_key = backup_name.to_string().concat("/objects/").concat(object.path.as_str());
    Some(ObjectCopy { source_key: source, dest_key })
}

/// The object after its copy.
pub open spec fn copied(object: ObjectModel, backup_name: Seq<char>) -> ObjectModel {
    ObjectModel {
        backup_key: if object.size == 0 {
            Seq::empty()
        } else {
            object_key(backup_name, object.path)
        },
        ..object
    }
}

/// The first `n` objects after their copies.
pub fn copied_objects(objects: &Vec<S3ObjectInfo>, backup_name: &str, n: usize) -> (r: Vec<
    S3ObjectInfo,
>)
    requires
        n <= objects@.len(),
    ensures
        r@.len() == n,
        forall|i: int| 0 <= i < n ==> (#[trigger] r@[i])@ == copied(objects@[i]@, backup_name@),
        forall|i: int|
            0 <= i < n ==> (#[trigger] r@[i]).path@ == objects@[i].path@ && r@[i].size
                == objects@[i].size && (objects@[i].size > 0 ==> r@[i].backup_key@ == backup_name@
                + "/objects/"@ + objects@[i].path@) && (objects@[i].size == 0
                ==> r@[i].backup_key@.len() == 0),
{
    let mut out: Vec<S3ObjectInfo> = Vec::new();
    let mut i: usize = 0;
    while i < n
        invariant
            i <= n <= objects@.len(),
            out@.len() == i,
            forall|j: int|
                0 <= j < i ==> (#[trigger] out@[j])@ == copied(objects@[j]@, backup_name@)
                    && out@[j].path@ == objects@[j].path@ && out@[j].size == objects@[j].size && (
                objects@[j].size > 0 ==> out@[j].backup_key@ == backup_name@ + "/objects/"@
                    + objects@[j].path@) && (objects@[j].size == 0
                    ==> out@[j].backup_key@.len() == 0),
        decreases n - i,
    {
        let o = &objects[i];
        let backup_key = match object_copy(o, "", backup_name) {
            Some(c) => c.dest_key,
            None => String::new(),
        };
        out.push(S3ObjectInfo { path: o.path.clone(), size: o.size, backup_key });
        i += 1;
    }
    out
}

/// The part after all of its objects were copied: its data keeps its size.
pub fn copied_part(part: &PartInfo, objects: Vec<S3ObjectInfo>, metadata_key: &str) -> (r: PartInfo)
    ensures
        r@ == (PartModel {
            s3_objects: Some(object_models(objects@)),
            ..uploaded(part@, metadata_key@, part.size)
        }),
        r.backup_key@ == metadata_key@,
        r.source@ == "uploaded"@,
        r.backup_size == part.size,
        r.name@ == part.name@,
        r.size == part.size,
        r.checksum_crc64 == part.checksum_crc64,
        r@.s3_objects == Some(object_models(objects@)),
{
    let p = uploaded_part(part, metadata_key, part.size);
    p.with_s3_objects(objects)
}

/// The part after its copies were cancelled: it knows the objects that were copied, and
/// is not marked as uploaded.
pub fn interrupted_part(part: &PartInfo, objects: Vec<S3ObjectInfo>) -> (r: PartInfo)
    ensures
        r@ == (PartModel { s3_objects: Some(object_models(objects@)), ..part@ }),
{
    part.copy().with_s3_objects(objects)
}

// ---------------------------------------------------------------------------
// The manifest after the upload
// ---------------------------------------------------------------------------

/// The outcome of one part of the work.
#[derive(Debug)]
pub struct UploadResult {
    pub table_key: String,
    pub disk_name: String,
    pub part: PartInfo,
    /// Size of the archive; 0 for a part that was copied.
    pub compressed_size: u64,
}

/// What a contract says of the outcome of one part of the work.
#[verifier::ext_equal]
pub struct ResultModel {
    pub table_key: Seq<char>,
    pub disk_name: Seq<char>,
    pub part: PartModel,
    pub compressed_size: u64,
}

impl View for UploadResult {
    type V = ResultModel;

    open spec fn view(&self) -> ResultModel {
        ResultModel {
            table_key: self.table_key@,
            disk_name: self.disk_name@,
            part: self.part@,
            compressed_size: self.compressed_size,
        }
    }
}

/// The models of a list of outcomes.
pub open spec fn result_models(v: Seq<UploadResult>) -> Seq<ResultModel> {
    Seq::new(v.len(), |i: int| v[i]@)
}

/// The parts that were uploaded for one disk of one table, in order.
pub open spec fn parts_of(
    results: Seq<ResultModel>,
    table_key: Seq<char>,
    disk_name: Seq<char>,
) -> Seq<PartModel>
    decreases results.len(),
{
    if results.len() == 0 {
        Seq::empty()
    } else {
        let before = parts_of(results.drop_last(), table_key, disk_name);
        let r = results.last();
        if r.table_key == table_key && r.disk_name == disk_name {
            before.push(r.part)
        } else {
            before
        }
    }
}

/// One of the parts has the name.
pub open spec fn has_name(parts: Seq<PartModel>, name: Seq<char>) -> bool {
    exists|i: int| 0 <= i < parts.len() && (#[trigger] parts[i]).name == name
}

/// The parts whose names are not among those of the new parts, in order.
pub open spec fn others(parts: Seq<PartModel>, new_parts: Seq<PartModel>) -> Seq<PartModel>
    decreases parts.len(),
{
    if parts.len() == 0 {
        Seq::empty()
    } else {
        let before = others(parts.drop_last(), new_parts);
        if has_name(new_parts, parts.last().name) {
            before
        } else {
            before.push(parts.last())
        }
    }
}

/// The parts of a disk after the upload: those that were not uploaded this time, which
/// were carried over or uploaded before, and then the new ones.
pub open spec fn merged(parts: Seq<PartModel>, new_parts: Seq<PartModel>) -> Seq<PartModel> {
    others(parts, new_parts) + new_parts
}

/// A disk of a table after the upload.
pub open spec fn merged_disk(
    disk: DiskModel,
    table_key: Seq<char>,
    results: Seq<ResultModel>,
) -> DiskModel {
    DiskModel {
        parts: merged(disk.parts, parts_of(results, table_key, disk.disk_name)),
        ..disk
    }
}

/// A table after the upload.
pub open spec fn merged_table(table: TableModel, results: Seq<ResultModel>) -> TableModel {
    TableModel {
        disks: Seq::new(
            table.disks.len(),
            |i: int| merged_disk(table.disks[i], table.key, results),
        ),
        ..table
    }
}

/// The bytes of all archives.
pub open spec fn total_compressed(results: Seq<ResultModel>) -> nat
    decreases results.len(),
{
    if results.len() == 0 {
        0
    } else {
        total_compressed(results.drop_last()) + results.last().compressed_size as nat
    }
}

/// The manifest after the upload.
pub open spec fn merged_manifest(
    manifest: ManifestModel,
    results: Seq<ResultModel>,
    data_format: Seq<char>,
) -> ManifestModel {
    ManifestModel {
        tables: Seq::new(
            manifest.tables.len(),
            |i: int| merged_table(manifest.tables[i], results),
        ),
        compressed_size: total_compressed(results) as u64,
        data_format,
        ..manifest
    }
}

/// The disk is one of the table.
pub open spec fn has_disk(table: TableModel, disk_name: Seq<char>) -> bool {
    exists|d: int| 0 <= d < table.disks.len() && (#[trigger] table.disks[d]).disk_name == disk_name
}

/// Every outcome for a table of the manifest is for one of the table's disks.
pub open spec fn results_fit(manifest: ManifestModel, results: Seq<ResultModel>) -> bool {
    forall|i: int, t: int|
        #![trigger results[i], manifest.tables[t]]
        0 <= i < results.len() && 0 <= t < manifest.tables.len() && manifest.tables[t].key
            == results[i].table_key ==> has_disk(manifest.tables[t], results[i].disk_name)
}

/// The sum over a prefix is no larger than that over the whole.
proof fn lemma_total_prefix(results: Seq<ResultModel>, n: int)
    requires
        0 <= n <= results.len(),
    ensures
        total_compressed(results.take(n)) <= total_compressed(results),
    decreases results.len() - n,
{
    if n < results.len() {
        lemma_total_prefix(results, n + 1);
        assert(results.take(n + 1).drop_last() =~= results.take(n));
    } else {
        assert(results.take(n) =~= results);
    }
}

/// Copies of the parts that were uploaded for one disk of one table, in order.
fn collect_parts(results: &Vec<UploadResult>, table_key: &str, disk_name: &str) -> (r: Vec<
    PartInfo,
>)
    ensures
        part_models(r@) == parts_of(result_models(results@), table_key@, disk_name@),
{
    let ghost all = result_models(results@);
    let mut out: Vec<PartInfo> = Vec::new();
    let mut i: usize = 0;
    assert(part_models(out@) =~= parts_of(all.take(0), table_key@, disk_name@));
    while i < results.len()
        invariant
            i <= results@.len(),
            all == result_models(results@),
            part_models(out@) == parts_of(all.take(i as int), table_key@, disk_name@),
        decreases results@.len() - i,
    {
        let r = &results[i];
        assert(all.take(i + 1).drop_last() =~= all.take(i as int));
        assert(all.take(i + 1).last() == r@);
        if same(r.table_key.as_str(), table_key) && same(r.disk_name.as_str(), disk_name) {
            let ghost was = part_models(out@);
            out.push(r.part.copy());
            assert(part_models(out@) =~= was.push(r.part@));
        }
        i += 1;
    }
    assert(all.take(i as int) =~= all);
    out
}

/// One of the parts has the name.
fn any_named(parts: &Vec<PartInfo>, name: &str) -> (r: bool)
    ensures
        r == has_name(part_models(parts@), name@),
{
    let ghost all = part_models(parts@);
    let mut i: usize = 0;
    while i < parts.len()
        invariant
            i <= parts@.len(),
            all == part_models(parts@),
            forall|j: int| 0 <= j < i ==> (#[trigger] all[j]).name != name@,
        decreases parts@.len() - i,
    {
        if same(parts[i].name.as_str(), name) {
            assert(all[i as int].name == name@);
            return true;
        }
        assert(all[i as int].name != name@);
        i += 1;
    }
    false
}

/// The parts of a disk after the upload.
fn merge_parts(parts: &Vec<PartInfo>, new_parts: Vec<PartInfo>) -> (r: Vec<PartInfo>)
    ensures
        part_models(r@) == merged(part_models(parts@), part_models(new_parts@)),
{
    let ghost all = part_models(parts@);
    let ghost new_models = part_models(new_parts@);
    let mut out: Vec<PartInfo> = Vec::new();
    let mut i: usize = 0;
    assert(part_models(out@) =~= others(all.take(0), new_models));
    while i < parts.len()
        invariant
            i <= parts@.len(),
            all == part_models(parts@),
            new_models == part_models(new_parts@),
            part_models(out@) == others(all.take(i as int), new_models),
        decreases parts@.len() - i,
    {
        assert(all.take(i + 1).drop_last() =~= all.take(i as int));
        assert(all.take(i + 1).last() == parts@[i as int]@);
        if !any_named(&new_parts, parts[i].name.as_str()) {
            let ghost was = part_models(out@);
            out.push(parts[i].copy());
            assert(part_models(out@) =~= was.push(parts@[i as int]@));
        }
        i += 1;
    }
    assert(all.take(i as int) =~= all);
    let ghost kept = part_models(out@);
    let mut j: usize = 0;
    assert(kept + new_models.take(0) =~= kept);
    while j < new_parts.len()
        invariant
            j <= new_parts@.len(),
            new_models == part_models(new_parts@),
            part_models(out@) == kept + new_models.take(j as int),
        decreases new_parts@.len() - j,
    {
        let ghost was = part_models(out@);
        out.push(new_parts[j].copy());
        assert(part_models(out@) =~= was.push(new_parts@[j as int]@));
        assert(part_models(out@) =~= kept + new_models.take(j + 1));
        j += 1;
    }
    assert(new_models.take(j as int) =~= new_models);
    out
}

/// A table after the upload.
fn merge_table(table: &TableManifest, results: &Vec<UploadResult>) -> (r: TableManifest)
    ensures
        r@ == merged_table(table@, result_models(results@)),
{
    let ghost all = result_models(results@);
    let mut disks: Vec<DiskParts> = Vec::new();
    let mut i: usize = 0;
    while i < table.disks.len()
        invariant
            i <= table.disks@.len(),
            all == result_models(results@),
            disks@.len() == i,
            forall|j: int|
                0 <= j < i ==> (#[trigger] disks@[j])@ == merged_disk(
                    table.disks@[j]@,
                    table.key@,
                    all,
                ),
        decreases table.disks@.len() - i,
    {
        let disk = &table.disks[i];
        let new_parts = collect_parts(results, table.key.as_str(), disk.disk_name.as_str());
        let parts = merge_parts(&disk.parts, new_parts);
        disks.push(DiskParts { disk_name: disk.disk_name.clone(), parts });
        i += 1;
    }
    let merged = TableManifest {
        key: table.key.clone(),
        engine: table.engine.clone(),
        uuid: table.uuid.clone(),
        metadata_only: table.metadata_only,
        disks,
    };
    assert(merged@ =~= merged_table(table@, all)) by {
        assert(merged@.disks =~= merged_table(table@, all).disks);
        assert(merged@.uuid == table@.uuid);
    }
    merged
}

/// Merges the outcomes of an upload into the manifest, and notes the size and the format
/// of the archives.
pub fn apply_results(
    manifest: &mut BackupManifest,
    results: &Vec<UploadResult>,
    data_format: &str,
)
    requires
        total_compressed(result_models(results@)) <= u64::MAX,
        results_fit(old(manifest)@, result_models(results@)),
    ensures
        final(manifest)@ == merged_manifest(old(manifest)@, result_models(results@), data_format@),
{
    let ghost all = result_models(results@);
    let ghost before = manifest@;
    let mut total: u64 = 0;
    let mut i: usize = 0;
    while i < results.len()
        invariant
            i <= results@.len(),
            all == result_models(results@),
            total_compressed(all) <= u64::MAX,
            total == total_compressed(all.take(i as int)),
        decreases results@.len() - i,
    {
        proof {
            assert(all.take(i + 1).drop_last() =~= all.take(i as int));
            assert(all.take(i + 1).last() == results@[i as int]@);
            lemma_total_prefix(all, i + 1);
        }
        total = total + results[i].compressed_size;
        i += 1;
    }
    assert(all.take(i as int) =~= all);
    let mut tables: Vec<TableManifest> = Vec::new();
    let mut t: usize = 0;
    while t < manifest.tables.len()
        invariant
            t <= manifest.tables@.len(),
            all == result_models(results@),
            manifest@ == before,
            before.tables == table_models(manifest.tables@),
            tables@.len() == t,
            forall|j: int|
                0 <= j < t ==> (#[trigger] tables@[j])@ == merged_table(before.tables[j], all),
        decreases manifest.tables@.len() - t,
    {
        tables.push(merge_table(&manifest.tables[t], results));
        t += 1;
    }
    manifest.tables = tables;
    manifest.compressed_size = total;
    manifest.data_format = data_format.to_string();
    assert(manifest@.tables =~= merged_manifest(before, all, data_format@).tables);
    assert(manifest@ =~= merged_manifest(before, all, data_format@));
}

/// The parts that stay are among those that were there, and none of them is a new one.
proof fn lemma_others(parts: Seq<PartModel>, new_parts: Seq<PartModel>)
    ensures
        forall|i: int|
            0 <= i < parts.len() && !has_name(new_parts, (#[trigger] parts[i]).name) ==> others(
                parts,
                new_parts,
            ).contains(parts[i]),
        forall|i: int|
            0 <= i < others(parts, new_parts).len() ==> !has_name(
                new_parts,
                (#[trigger] others(parts, new_parts)[i]).name,
            ) && parts.contains(others(parts, new_parts)[i]),
    decreases parts.len(),
{
    if parts.len() > 0 {
        let init = parts.drop_last();
        lemma_others(init, new_parts);
        let kept = others(parts, new_parts);
        let before = others(init, new_parts);
        assert forall|i: int| 0 <= i < parts.len() && !has_name(new_parts, (#[trigger] parts[i]).name)
            implies kept.contains(parts[i]) by {
            if i < init.len() {
                assert(init[i] == parts[i]);
                let k = choose|k: int| 0 <= k < before.len() && before[k] == parts[i];
                assert(kept[k] == parts[i]);
            } else {
                assert(kept[kept.len() - 1] == parts[i]);
            }
        }
        assert forall|i: int| 0 <= i < kept.len() implies !has_name(
            new_parts,
            (#[trigger] kept[i]).name,
        ) && parts.contains(kept[i]) by {
            if i < before.len() {
                assert(kept[i] == before[i]);
                let k = choose|k: int| 0 <= k < init.len() && init[k] == before[i];
                assert(parts[k] == kept[i]);
            } else {
                assert(parts[parts.len() - 1] == kept[i]);
            }
        }
    }
}

/// Merging loses no part: one that was not uploaded this time stays as it is, each new one
/// is there, and nothing else is.
pub proof fn law_merge_keeps_every_part(parts: Seq<PartModel>, new_parts: Seq<PartModel>)
    ensures
        forall|i: int|
            0 <= i < parts.len() && !has_name(new_parts, (#[trigger] parts[i]).name) ==> merged(
                parts,
                new_parts,
            ).contains(parts[i]),
        forall|i: int|
            0 <= i < new_parts.len() ==> merged(parts, new_parts).contains(
                #[trigger] new_parts[i],
            ),
        forall|i: int|
            0 <= i < merged(parts, new_parts).len() ==> parts.contains(
                #[trigger] merged(parts, new_parts)[i],
            ) || new_parts.contains(merged(parts, new_parts)[i]),
{
    lemma_others(parts, new_parts);
    let kept = others(parts, new_parts);
    let m = merged(parts, new_parts);
    assert forall|i: int| 0 <= i < parts.len() && !has_name(new_parts, (#[trigger] parts[i]).name)
        implies m.contains(parts[i]) by {
        let k = choose|k: int| 0 <= k < kept.len() && kept[k] == parts[i];
        assert(m[k] == parts[i]);
    }
    assert forall|i: int| 0 <= i < new_parts.len() implies m.contains(#[trigger] new_parts[i]) by {
        assert(m[kept.len() + i] == new_parts[i]);
    }
    assert forall|i: int| 0 <= i < m.len() implies parts.contains(#[trigger] m[i])
        || new_parts.contains(m[i]) by {
        if i < kept.len() {
            assert(m[i] == kept[i]);
        } else {
            assert(new_parts[i - kept.len()] == m[i]);
        }
    }
}

/// An outcome for a disk is among the parts that were uploaded for it.
proof fn lemma_parts_of(results: Seq<ResultModel>, i: int)
    requires
        0 <= i < results.len(),
    ensures
        parts_of(results, results[i].table_key, results[i].disk_name).contains(results[i].part),
    decreases results.len(),
{
    let r = results[i];
    let all = parts_of(results, r.table_key, r.disk_name);
    if i == results.len() - 1 {
        assert(all[all.len() - 1] == r.part);
    } else {
        let init = results.drop_last();
        lemma_parts_of(init, i);
        let before = parts_of(init, r.table_key, r.disk_name);
        let k = choose|k: int| 0 <= k < before.len() && before[k] == r.part;
        assert(all[k] == r.part);
    }
}

/// Every part that was uploaded is in the manifest after the upload, as the upload left
/// it, on its disk and in its table.
pub proof fn law_every_outcome_is_in_the_manifest(
    manifest: ManifestModel,
    results: Seq<ResultModel>,
    data_format: Seq<char>,
    i: int,
    t: int,
    d: int,
)
    requires
        0 <= i < results.len(),
        0 <= t < manifest.tables.len(),
        0 <= d < manifest.tables[t].disks.len(),
        manifest.tables[t].key == results[i].table_key,
        manifest.tables[t].disks[d].disk_name == results[i].disk_name,
    ensures
        merged_manifest(manifest, results, data_format).tables[t].disks[d].parts.contains(
            results[i].part,
        ),
{
    let disk = manifest.tables[t].disks[d];
    let new_parts = parts_of(results, results[i].table_key, results[i].disk_name);
    lemma_parts_of(results, i);
    law_merge_keeps_every_part(disk.parts, new_parts);
    let k = choose|k: int| 0 <= k < new_parts.len() && new_parts[k] == results[i].part;
    assert(merged(disk.parts, new_parts).contains(new_parts[k]));
}

/// A disk for which nothing was uploaded keeps its parts as they are.
pub proof fn law_untouched_disk_is_unchanged(parts: Seq<PartModel>)
    ensures
        merged(parts, Seq::empty()) == parts,
    decreases parts.len(),
{
    if parts.len() > 0 {
        law_untouched_disk_is_unchanged(parts.drop_last());
        assert(others(parts.drop_last(), Seq::empty()) =~= parts.drop_last());
        assert(!has_name(Seq::<PartModel>::empty(), parts.last().name));
    }
    assert(merged(parts, Seq::empty()) =~= parts);
}

// ---------------------------------------------------------------------------
// The end of an upload
// ---------------------------------------------------------------------------

/// A step after the parts were uploaded.
#[derive(Debug, Clone, Copy, PartialEq, Eq, Structural)]
pub enum FinishStep {
    /// Upload the files of the directory "access".
    UploadAccess,
    /// Upload the files of the directory "configs".
    UploadConfigs,
    /// Upload the manifest under its temporary key.
    PutTemporaryManifest,
    /// Copy the manifest to its own key, which makes the backup visible.
    PublishManifest,
    /// Delete the temporary manifest; a failure is no error.
    DeleteTemporaryManifest,
    /// Write the manifest to the local backup.
    SaveLocalManifest,
    /// Delete what was kept for resuming.
    DeleteResumeState,
    /// Delete the local backup.
    DeleteLocalBackup,
}

/// One step, if it is to be taken.
pub open spec fn step_if(condition: bool, step: FinishStep) -> Seq<FinishStep> {
    if condition {
        seq![step]
    } else {
        Seq::empty()
    }
}

/// The steps that end an upload.
pub open spec fn finish_plan(
    has_access: bool,
    has_configs: bool,
    use_resume: bool,
    delete_local: bool,
) -> Seq<FinishStep> {
    step_if(has_access, FinishStep::UploadAccess) + step_if(has_configs, FinishStep::UploadConfigs)
        + seq![
        FinishStep::PutTemporaryManifest,
        FinishStep::PublishManifest,
        FinishStep::DeleteTemporaryManifest,
        FinishStep::SaveLocalManifest,
    ] + step_if(use_resume, FinishStep::DeleteResumeState) + step_if(
        delete_local,
        FinishStep::DeleteLocalBackup,
    )
}

/// A piece of the work of an upload: its table, its disk and its part.
pub open spec fn planned_items(plan: PlanModel) -> Seq<(Seq<char>, Seq<char>, Seq<char>)> {
    Seq::new(
        plan.local.len() + plan.copies.len(),
        |i: int|
            if i < plan.local.len() {
                (plan.local[i].table_key, plan.local[i].disk_name, plan.local[i].part.name)
            } else {
                let c = plan.copies[i - plan.local.len()];
                (c.table_key, c.disk_name, c.part.name)
            },
    )
}

/// The piece of work that an outcome is of.
pub open spec fn item_of(r: ResultModel) -> (Seq<char>, Seq<char>, Seq<char>) {
    (r.table_key, r.disk_name, r.part.name)
}

/// The first error among the outcomes.
pub open spec fn first_error(outcomes: Seq<Result<UploadResult, String>>) -> Option<Seq<char>>
    decreases outcomes.len(),
{
    if outcomes.len() == 0 {
        None
    } else {
        match outcomes[0] {
            Ok(_) => first_error(outcomes.skip(1)),
            Err(e) => Some(e@),
        }
    }
}

/// Every piece of the work was done: the outcomes are results, one for each piece and in
/// the order of the plan, the uploads before the copies.
pub open spec fn all_done(
    plan: PlanModel,
    outcomes: Seq<Result<UploadResult, String>>,
) -> bool {
    &&& outcomes.len() == planned_items(plan).len()
    &&& forall|i: int|
        0 <= i < outcomes.len() ==> ((#[trigger] outcomes[i]) matches Ok(r) && item_of(r@)
            == planned_items(plan)[i])
}

/// The results among the outcomes are these.
pub open spec fn results_are(
    outcomes: Seq<Result<UploadResult, String>>,
    results: Seq<UploadResult>,
) -> bool {
    &&& results.len() == outcomes.len()
    &&& forall|i: int|
        0 <= i < outcomes.len() ==> (#[trigger] outcomes[i]) == Ok::<UploadResult, String>(
            results[i],
        )
}

/// The error of an upload that lacks the outcome of a piece of its work.
pub open spec fn incomplete_error() -> Seq<char> {
    "upload incomplete: a planned part has no result"@
}

/// The error that the outcomes hold first, if they hold one.
fn find_error(outcomes: &Vec<Result<UploadResult, String>>) -> (r: Option<String>)
    ensures
        crate::text::opt_text(r) == first_error(outcomes@),
        r is None ==> forall|i: int| 0 <= i < outcomes@.len() ==> (#[trigger] outcomes@[i]) is Ok,
{
    let mut i: usize = 0;
    assert(outcomes@.skip(0) =~= outcomes@);
    while i < outcomes.len()
        invariant
            i <= outcomes@.len(),
            first_error(outcomes@) == first_error(outcomes@.skip(i as int)),
            forall|j: int| 0 <= j < i ==> (#[trigger] outcomes@[j]) is Ok,
        decreases outcomes@.len() - i,
    {
        assert(outcomes@.skip(i as int)[0] == outcomes@[i as int]);
        assert(outcomes@.skip(i as int).skip(1) =~= outcomes@.skip(i + 1));
        match &outcomes[i] {
            Ok(_) => {},
            Err(e) => {
                return Some(e.clone());
            },
        }
        i += 1;
    }
    None
}

/// Whether an outcome is of the given piece of work.
fn is_result_of(
    outcome: &Result<UploadResult, String>,
    table_key: &str,
    disk_name: &str,
    part_name: &str,
) -> (r: bool)
    ensures
        r == (*outcome matches Ok(x) && item_of(x@) == (table_key@, disk_name@, part_name@)),
{
    match outcome {
        Ok(x) => same(x.table_key.as_str(), table_key) && same(x.disk_name.as_str(), disk_name)
            && same(x.part.name.as_str(), part_name),
        Err(_) => false,
    }
}

/// Whether every piece of the work was done.
fn is_all_done(plan: &UploadPlan, outcomes: &Vec<Result<UploadResult, String>>) -> (r: bool)
    ensures
        r == all_done(plan@, outcomes@),
{
    let ghost items = planned_items(plan@);
    let uploads: usize = plan.local_items.len();
    let copies: usize = plan.s3_disk_items.len();
    if outcomes.len() < uploads || outcomes.len() - uploads != copies {
        return false;
    }
    let mut i: usize = 0;
    while i < outcomes.len()
        invariant
            i <= outcomes@.len(),
            items == planned_items(plan@),
            uploads == plan.local_items@.len(),
            copies == plan.s3_disk_items@.len(),
            outcomes@.len() == uploads + copies,
            outcomes@.len() == items.len(),
            forall|j: int|
                0 <= j < i ==> ((#[trigger] outcomes@[j]) matches Ok(r) && item_of(r@)
                    == items[j]),
        decreases outcomes@.len() - i,
    {
        let matches = if i < uploads {
            let w = &plan.local_items[i];
            assert(plan@.local[i as int] == w@);
            is_result_of(
                &outcomes[i],
                w.table_key.as_str(),
                w.disk_name.as_str(),
                w.part.name.as_str(),
            )
        } else {
            let w = &plan.s3_disk_items[i - uploads];
            assert(plan@.copies[i - uploads] == w@);
            is_result_of(
                &outcomes[i],
                w.table_key.as_str(),
                w.disk_name.as_str(),
                w.part.name.as_str(),
            )
        };
        if !matches {
            return false;
        }
        i += 1;
    }
    true
}

/// The results among outcomes that hold no error.
fn take_results(outcomes: Vec<Result<UploadResult, String>>) -> (r: Vec<UploadResult>)
    requires
        forall|i: int| 0 <= i < outcomes@.len() ==> (#[trigger] outcomes@[i]) is Ok,
    ensures
        results_are(outcomes@, r@),
{
    let ghost all = outcomes@;
    let mut left = outcomes;
    let mut reversed: Vec<UploadResult> = Vec::new();
    while left.len() > 0
        invariant
            left@.len() + reversed@.len() == all.len(),
            left@ == all.take(left@.len() as int),
            forall|i: int| 0 <= i < all.len() ==> (#[trigger] all[i]) is Ok,
            forall|k: int|
                0 <= k < reversed@.len() ==> all[all.len() - 1 - k] == Ok::<UploadResult, String>(
                    #[trigger] reversed@[k],
                ),
        decreases left@.len(),
    {
        assert(left@.last() == all[left@.len() - 1]);
        if let Some(Ok(x)) = left.pop() {
            reversed.push(x);
        }
    }
    let mut results: Vec<UploadResult> = Vec::new();
    while reversed.len() > 0
        invariant
            results@.len() + reversed@.len() == all.len(),
            forall|k: int|
                0 <= k < reversed@.len() ==> all[all.len() - 1 - k] == Ok::<UploadResult, String>(
                    #[trigger] reversed@[k],
                ),
            forall|i: int|
                0 <= i < results@.len() ==> all[i] == Ok::<UploadResult, String>(
                    #[trigger] results@[i],
                ),
        decreases reversed@.len(),
    {
        assert(all[all.len() - 1 - (reversed@.len() - 1)] == Ok::<UploadResult, String>(
            reversed@[reversed@.len() - 1],
        ));
        if let Some(x) = reversed.pop() {
            results.push(x);
        }
    }
    assert forall|i: int| 0 <= i < all.len() implies (#[trigger] all[i]) == Ok::<
        UploadResult,
        String,
    >(results@[i]) by {
        assert(all[i] == Ok::<UploadResult, String>(results@[i]));
    }
    results
}

/// `r` is how an upload ends.
pub open spec fn ends_with(
    plan: PlanModel,
    outcomes: Seq<Result<UploadResult, String>>,
    cancelled: bool,
    has_access: bool,
    has_configs: bool,
    use_resume: bool,
    delete_local: bool,
    r: Result<(Vec<UploadResult>, Vec<FinishStep>), String>,
) -> bool {
    if first_error(outcomes) is Some {
        r matches Err(e) && Some(e@) == first_error(outcomes)
    } else if cancelled {
        r matches Err(e) && e@ == "upload cancelled"@
    } else if !all_done(plan, outcomes) {
        r matches Err(e) && e@ == incomplete_error()
    } else {
        r matches Ok(done) && results_are(outcomes, done.0@) && done.1@ == finish_plan(
            has_access,
            has_configs,
            use_resume,
            delete_local,
        )
    }
}

/// Ends an upload whose work is over: the results of the whole plan, and the steps that
/// publish them. An error where a piece of the work failed, with the first such error, where
/// the upload was cancelled, and where a piece has no outcome; nothing is published then.
pub fn finish_steps(
    plan: &UploadPlan,
    outcomes: Vec<Result<UploadResult, String>>,
    cancelled: bool,
    has_access: bool,
    has_configs: bool,
    use_resume: bool,
    delete_local: bool,
) -> (r: Result<(Vec<UploadResult>, Vec<FinishStep>), String>)
    ensures
        ends_with(
            plan@,
            outcomes@,
            cancelled,
            has_access,
            has_configs,
            use_resume,
            delete_local,
            r,
        ),
{
    match find_error(&outcomes) {
        Some(e) => {
            return Err(e);
        },
        None => {},
    }
    if cancelled {
        return Err("upload cancelled".to_string());
    }
    if !is_all_done(plan, &outcomes) {
        return Err("upload incomplete: a planned part has no result".to_string());
    }
    let results = take_results(outcomes);
    let mut steps: Vec<FinishStep> = Vec::new();
    if has_access {
        steps.push(FinishStep::UploadAccess);
    }
    if has_configs {
        steps.push(FinishStep::UploadConfigs);
    }
    steps.push(FinishStep::PutTemporaryManifest);
    steps.push(FinishStep::PublishManifest);
    steps.push(FinishStep::DeleteTemporaryManifest);
    steps.push(FinishStep::SaveLocalManifest);
    if use_resume {
        steps.push(FinishStep::DeleteResumeState);
    }
    if delete_local {
        steps.push(FinishStep::DeleteLocalBackup);
    }
    assert(steps@ =~= finish_plan(has_access, has_configs, use_resume, delete_local));
    Ok((results, steps))
}

/// A backup becomes visible, and the local backup is deleted, only where every planned part
/// was uploaded or copied without an error and the upload was not cancelled. It becomes
/// visible after its other files were uploaded, and the local backup is deleted after that.
pub proof fn law_manifest_is_published_last(
    plan: PlanModel,
    outcomes: Seq<Result<UploadResult, String>>,
    cancelled: bool,
    has_access: bool,
    has_configs: bool,
    use_resume: bool,
    delete_local: bool,
    r: Result<(Vec<UploadResult>, Vec<FinishStep>), String>,
)
    requires
        ends_with(
            plan,
            outcomes,
            cancelled,
            has_access,
            has_configs,
            use_resume,
            delete_local,
            r,
        ),
    ensures
        r matches Ok(done) ==> {
            let steps = done.1@;
            &&& !cancelled
            &&& done.0@.len() == planned_items(plan).len()
            &&& forall|i: int|
                0 <= i < done.0@.len() ==> item_of((#[trigger] done.0@[i])@) == planned_items(
                    plan,
                )[i]
            &&& forall|i: int, j: int|
                0 <= i < steps.len() && 0 <= j < steps.len() && (#[trigger] steps[j])
                    == FinishStep::PublishManifest ==> {
                    &&& (#[trigger] steps[i]) == FinishStep::UploadAccess || steps[i]
                        == FinishStep::UploadConfigs || steps[i]
                        == FinishStep::PutTemporaryManifest ==> i < j
                    &&& steps[i] == FinishStep::DeleteLocalBackup || steps[i]
                        == FinishStep::DeleteResumeState || steps[i]
                        == FinishStep::DeleteTemporaryManifest ==> j < i
                }
        },
        cancelled || first_error(outcomes) is Some || outcomes.len() != planned_items(plan).len()
            ==> r is Err,
{
    if let Ok(done) = r {
        assert forall|i: int| 0 <= i < done.0@.len() implies item_of((#[trigger] done.0@[i])@)
            == planned_items(plan)[i] by {
            assert(outcomes[i] == Ok::<UploadResult, String>(done.0@[i]));
        }
    }
}

// ---------------------------------------------------------------------------
// What the outcomes make of a manifest
// ---------------------------------------------------------------------------

/// One of the outcomes is of the part with the name on the disk of the table.
pub open spec fn has_outcome(
    results: Seq<ResultModel>,
    table_key: Seq<char>,
    disk_name: Seq<char>,
    name: Seq<char>,
) -> bool {
    exists|i: int|
        0 <= i < results.len() && (#[trigger] results[i]).table_key == table_key
            && results[i].disk_name == disk_name && results[i].part.name == name
}

/// One of the outcomes for the disk of the table is the part, as it is described.
pub open spec fn is_outcome(
    results: Seq<ResultModel>,
    table_key: Seq<char>,
    disk_name: Seq<char>,
    part: PartModel,
) -> bool {
    exists|i: int|
        0 <= i < results.len() && (#[trigger] results[i]).table_key == table_key
            && results[i].disk_name == disk_name && results[i].part == part
}

/// What was uploaded for a disk is what the outcomes for it say.
proof fn lemma_parts_of_from(results: Seq<ResultModel>, table_key: Seq<char>, disk_name: Seq<char>)
    ensures
        forall|k: int|
            0 <= k < parts_of(results, table_key, disk_name).len() ==> is_outcome(
                results,
                table_key,
                disk_name,
                #[trigger] parts_of(results, table_key, disk_name)[k],
            ),
    decreases results.len(),
{
    if results.len() > 0 {
        let init = results.drop_last();
        lemma_parts_of_from(init, table_key, disk_name);
        let all = parts_of(results, table_key, disk_name);
        let before = parts_of(init, table_key, disk_name);
        assert forall|k: int| 0 <= k < all.len() implies is_outcome(
            results,
            table_key,
            disk_name,
            #[trigger] all[k],
        ) by {
            if k < before.len() {
                assert(all[k] == before[k]);
                let i = choose|i: int|
                    0 <= i < init.len() && (#[trigger] init[i]).table_key == table_key
                        && init[i].disk_name == disk_name && init[i].part == before[k];
                assert(results[i] == init[i]);
            } else {
                assert(results[results.len() - 1].part == all[k]);
            }
        }
    }
}

/// After an upload, a disk lists each part that had an outcome as the outcome describes it,
/// each other part as it was described before, and no other part. Table and disk keep their
/// places, and nothing else of a table changes.
pub proof fn law_manifest_tells_what_was_uploaded(
    manifest: ManifestModel,
    results: Seq<ResultModel>,
    data_format: Seq<char>,
    t: int,
    d: int,
)
    requires
        0 <= t < manifest.tables.len(),
        0 <= d < manifest.tables[t].disks.len(),
    ensures
        ({
            let after = merged_manifest(manifest, results, data_format);
            let table = manifest.tables[t];
            let old_disk = table.disks[d];
            let disk = after.tables[t].disks[d];
            &&& after.tables.len() == manifest.tables.len()
            &&& after.data_format == data_format
            &&& after.disk_types == manifest.disk_types
            &&& after.disk_remote_paths == manifest.disk_remote_paths
            &&& after.tables[t].key == table.key
            &&& after.tables[t].engine == table.engine
            &&& after.tables[t].uuid == table.uuid
            &&& after.tables[t].metadata_only == table.metadata_only
            &&& after.tables[t].disks.len() == table.disks.len()
            &&& disk.disk_name == old_disk.disk_name
            &&& forall|p: int|
                0 <= p < old_disk.parts.len() && !has_outcome(
                    results,
                    table.key,
                    old_disk.disk_name,
                    (#[trigger] old_disk.parts[p]).name,
                ) ==> disk.parts.contains(old_disk.parts[p])
            &&& forall|k: int|
                0 <= k < disk.parts.len() ==> {
                    let part = #[trigger] disk.parts[k];
                    ||| old_disk.parts.contains(part) && !has_outcome(
                        results,
                        table.key,
                        old_disk.disk_name,
                        part.name,
                    )
                    ||| is_outcome(results, table.key, old_disk.disk_name, part)
                }
            &&& forall|i: int|
                0 <= i < results.len() && (#[trigger] results[i]).table_key == table.key
                    && results[i].disk_name == old_disk.disk_name ==> disk.parts.contains(
                    results[i].part,
                )
        }),
{
    let table = manifest.tables[t];
    let old_disk = table.disks[d];
    let new_parts = parts_of(results, table.key, old_disk.disk_name);
    let disk = merged_manifest(manifest, results, data_format).tables[t].disks[d];
    assert(disk.parts == merged(old_disk.parts, new_parts));
    lemma_parts_of_from(results, table.key, old_disk.disk_name);
    lemma_others(old_disk.parts, new_parts);
    law_merge_keeps_every_part(old_disk.parts, new_parts);
    assert forall|name: Seq<char>|
        has_name(new_parts, name) <==> #[trigger] has_outcome(
            results,
            table.key,
            old_disk.disk_name,
            name,
        ) by {
        if has_name(new_parts, name) {
            let k = choose|k: int| 0 <= k < new_parts.len() && (#[trigger] new_parts[k]).name == name;
            let i = choose|i: int|
                0 <= i < results.len() && (#[trigger] results[i]).table_key == table.key
                    && results[i].disk_name == old_disk.disk_name && results[i].part
                    == new_parts[k];
            assert(results[i].part.name == name);
        }
        if has_outcome(results, table.key, old_disk.disk_name, name) {
            let i = choose|i: int|
                0 <= i < results.len() && (#[trigger] results[i]).table_key == table.key
                    && results[i].disk_name == old_disk.disk_name && results[i].part.name == name;
            lemma_parts_of(results, i);
            let k = choose|k: int| 0 <= k < new_parts.len() && new_parts[k] == results[i].part;
            assert(new_parts[k].name == name);
        }
    }
    assert forall|p: int|
        0 <= p < old_disk.parts.len() && !has_outcome(
            results,
            table.key,
            old_disk.disk_name,
            (#[trigger] old_disk.parts[p]).name,
        ) implies disk.parts.contains(old_disk.parts[p]) by {
        assert(!has_name(new_parts, old_disk.parts[p].name));
    }
    let kept = others(old_disk.parts, new_parts);
    assert forall|k: int| 0 <= k < disk.parts.len() implies {
        let part = #[trigger] disk.parts[k];
        ||| old_disk.parts.contains(part) && !has_outcome(
            results,
            table.key,
            old_disk.disk_name,
            part.name,
        )
        ||| is_outcome(results, table.key, old_disk.disk_name, part)
    } by {
        if k < kept.len() {
            assert(disk.parts[k] == kept[k]);
        } else {
            assert(disk.parts[k] == new_parts[k - kept.len()]);
        }
    }
    assert forall|i: int|
        0 <= i < results.len() && (#[trigger] results[i]).table_key == table.key
            && results[i].disk_name == old_disk.disk_name implies disk.parts.contains(
        results[i].part,
    ) by {
        lemma_parts_of(results, i);
        let k = choose|k: int| 0 <= k < new_parts.len() && new_parts[k] == results[i].part;
        assert(disk.parts[kept.len() + k] == new_parts[k]);
    }
}

/// How often a part with the name is listed.
pub open spec fn times_listed(parts: Seq<PartModel>, name: Seq<char>) -> nat
    decreases parts.len(),
{
    if parts.len() == 0 {
        0
    } else {
        times_listed(parts.drop_last(), name) + if parts.last().name == name {
            1nat
        } else {
            0nat
        }
    }
}

proof fn lemma_times_listed_concat(a: Seq<PartModel>, b: Seq<PartModel>, name: Seq<char>)
    ensures
        times_listed(a + b, name) == times_listed(a, name) + times_listed(b, name),
    decreases b.len(),
{
    if b.len() == 0 {
        assert(a + b =~= a);
    } else {
        lemma_times_listed_concat(a, b.drop_last(), name);
        assert((a + b).drop_last() =~= a + b.drop_last());
    }
}

proof fn lemma_others_times(parts: Seq<PartModel>, new_parts: Seq<PartModel>, name: Seq<char>)
    ensures
        times_listed(others(parts, new_parts), name) == if has_name(new_parts, name) {
            0
        } else {
            times_listed(parts, name)
        },
    decreases parts.len(),
{
    if parts.len() > 0 {
        lemma_others_times(parts.drop_last(), new_parts, name);
        let kept = others(parts, new_parts);
        let before = others(parts.drop_last(), new_parts);
        if kept.len() > before.len() {
            assert(kept.drop_last() =~= before);
        }
    }
}

/// How many outcomes there are for the part with the name.
pub open spec fn outcomes_for(
    results: Seq<ResultModel>,
    table_key: Seq<char>,
    disk_name: Seq<char>,
    name: Seq<char>,
) -> nat
    decreases results.len(),
{
    if results.len() == 0 {
        0
    } else {
        let r = results.last();
        outcomes_for(results.drop_last(), table_key, disk_name, name) + if r.table_key == table_key
            && r.disk_name == disk_name && r.part.name == name {
            1nat
        } else {
            0nat
        }
    }
}

proof fn lemma_parts_of_times(
    results: Seq<ResultModel>,
    table_key: Seq<char>,
    disk_name: Seq<char>,
    name: Seq<char>,
)
    ensures
        times_listed(parts_of(results, table_key, disk_name), name) == outcomes_for(
            results,
            table_key,
            disk_name,
            name,
        ),
        has_name(parts_of(results, table_key, disk_name), name) <==> outcomes_for(
            results,
            table_key,
            disk_name,
            name,
        ) > 0,
    decreases results.len(),
{
    let all = parts_of(results, table_key, disk_name);
    if results.len() > 0 {
        let init = results.drop_last();
        lemma_parts_of_times(init, table_key, disk_name, name);
        let before = parts_of(init, table_key, disk_name);
        let r = results.last();
        if all.len() > before.len() {
            assert(all.drop_last() =~= before);
            assert(all[all.len() - 1] == r.part);
        }
        if has_name(before, name) {
            let k = choose|k: int| 0 <= k < before.len() && (#[trigger] before[k]).name == name;
            assert(all[k].name == name);
        }
        if has_name(all, name) {
            let k = choose|k: int| 0 <= k < all.len() && (#[trigger] all[k]).name == name;
            if k < before.len() {
                assert(before[k].name == name);
            }
        }
    }
}

/// A part is listed after an upload as often as it has an outcome, or, without one, as often
/// as it was listed before: an upload neither loses nor doubles a part.
pub proof fn law_no_part_is_lost_or_doubled(
    manifest: ManifestModel,
    results: Seq<ResultModel>,
    data_format: Seq<char>,
    t: int,
    d: int,
    name: Seq<char>,
)
    requires
        0 <= t < manifest.tables.len(),
        0 <= d < manifest.tables[t].disks.len(),
    ensures
        ({
            let old_disk = manifest.tables[t].disks[d];
            let disk = merged_manifest(manifest, results, data_format).tables[t].disks[d];
            let n = outcomes_for(results, manifest.tables[t].key, old_disk.disk_name, name);
            times_listed(disk.parts, name) == if n > 0 {
                n
            } else {
                times_listed(old_disk.parts, name)
            }
        }),
{
    let table = manifest.tables[t];
    let old_disk = table.disks[d];
    let new_parts = parts_of(results, table.key, old_disk.disk_name);
    lemma_parts_of_times(results, table.key, old_disk.disk_name, name);
    lemma_others_times(old_disk.parts, new_parts, name);
    lemma_times_listed_concat(others(old_disk.parts, new_parts), new_parts, name);
}

/// The size of a backup is the sum of the sizes of its archives: each outcome adds its own,
/// and their order does not matter.
pub proof fn law_sizes_add_up(a: Seq<ResultModel>, b: Seq<ResultModel>, r: ResultModel)
    ensures
        total_compressed(Seq::empty()) == 0,
        total_compressed(seq![r]) == r.compressed_size,
        total_compressed(a + b) == total_compressed(a) + total_compressed(b),
    decreases b.len(),
{
    assert(seq![r].drop_last() =~= Seq::<ResultModel>::empty());
    assert(total_compressed(seq![r].drop_last()) == 0);
    if b.len() == 0 {
        assert(a + b =~= a);
    } else {
        law_sizes_add_up(a, b.drop_last(), r);
        assert((a + b).drop_last() =~= a + b.drop_last());
    }
}

/// The manifest tells the sum of the sizes of the archives.
pub proof fn law_manifest_tells_the_size(
    manifest: ManifestModel,
    results: Seq<ResultModel>,
    data_format: Seq<char>,
)
    requires
        total_compressed(results) <= u64::MAX,
    ensures
        merged_manifest(manifest, results, data_format).compressed_size == total_compressed(
            results,
        ),
{
}

/// The first error is one of the outcomes, and there is none before it.
proof fn lemma_first_error(outcomes: Seq<Result<UploadResult, String>>)
    ensures
        first_error(outcomes) is None <==> forall|i: int|
            0 <= i < outcomes.len() ==> (#[trigger] outcomes[i]) is Ok,
        first_error(outcomes) matches Some(e) ==> exists|i: int|
            0 <= i < outcomes.len() && ((#[trigger] outcomes[i]) matches Err(x) && x@ == e)
                && forall|j: int| 0 <= j < i ==> (#[trigger] outcomes[j]) is Ok,
    decreases outcomes.len(),
{
    if outcomes.len() > 0 {
        let rest = outcomes.skip(1);
        lemma_first_error(rest);
        assert forall|i: int| 0 <= i < rest.len() implies #[trigger] rest[i] == outcomes[i + 1] by {}
        if outcomes[0] is Ok {
            if let Some(e) = first_error(rest) {
                let i = choose|i: int|
                    0 <= i < rest.len() && ((#[trigger] rest[i]) matches Err(x) && x@ == e)
                        && forall|j: int| 0 <= j < i ==> (#[trigger] rest[j]) is Ok;
                assert(outcomes[i + 1] == rest[i]);
                assert forall|j: int| 0 <= j < i + 1 implies (#[trigger] outcomes[j]) is Ok by {
                    if j > 0 {
                        assert(rest[j - 1] == outcomes[j]);
                    }
                }
            } else {
                assert forall|i: int| 0 <= i < outcomes.len() implies (
                #[trigger] outcomes[i]) is Ok by {
                    if i > 0 {
                        assert(rest[i - 1] == outcomes[i]);
                    }
                }
            }
        }
    }
}

/// The outcome is the result of item `i` of the plan, the uploads first and then the copies.
pub open spec fn fits_item(
    plan: PlanModel,
    i: int,
    outcome: Result<UploadResult, String>,
) -> bool {
    let n = plan.local.len() as int;
    &&& outcome is Ok
    &&& i < n ==> outcome->Ok_0.table_key@ == plan.local[i].table_key && outcome->Ok_0.disk_name@
        == plan.local[i].disk_name && outcome->Ok_0.part.name@ == plan.local[i].part.name
    &&& i >= n ==> outcome->Ok_0.table_key@ == plan.copies[i - n].table_key
        && outcome->Ok_0.disk_name@ == plan.copies[i - n].disk_name && outcome->Ok_0.part.name@
        == plan.copies[i - n].part.name
}

/// An upload ends well just where no outcome is an error, it was not cancelled, and every
/// item of the plan, the uploads first and then the copies, has its result; these results
/// are then handed on, all of them and in order. Otherwise the first error is reported.
pub proof fn law_upload_ends_well_only_with_every_result(
    plan: PlanModel,
    outcomes: Seq<Result<UploadResult, String>>,
    cancelled: bool,
    has_access: bool,
    has_configs: bool,
    use_resume: bool,
    delete_local: bool,
    r: Result<(Vec<UploadResult>, Vec<FinishStep>), String>,
)
    requires
        ends_with(
            plan,
            outcomes,
            cancelled,
            has_access,
            has_configs,
            use_resume,
            delete_local,
            r,
        ),
    ensures
        r matches Ok(done) ==> {
            let n = plan.local.len() as int;
            &&& !cancelled
            &&& outcomes.len() == plan.local.len() + plan.copies.len()
            &&& done.0@.len() == outcomes.len()
            &&& forall|i: int|
                0 <= i < outcomes.len() ==> (#[trigger] outcomes[i] matches Ok(x) && x
                    == done.0@[i])
            &&& forall|i: int|
                0 <= i < n ==> (#[trigger] done.0@[i]).table_key@ == plan.local[i].table_key
                    && done.0@[i].disk_name@ == plan.local[i].disk_name && done.0@[i].part.name@
                    == plan.local[i].part.name
            &&& forall|i: int|
                n <= i < outcomes.len() ==> (#[trigger] done.0@[i]).table_key@
                    == plan.copies[i - n].table_key && done.0@[i].disk_name@ == plan.copies[i
                    - n].disk_name && done.0@[i].part.name@ == plan.copies[i - n].part.name
        },
        r matches Err(e) ==> {
            ||| exists|i: int|
                0 <= i < outcomes.len() && ((#[trigger] outcomes[i]) matches Err(x) && x@ == e@)
                    && forall|j: int| 0 <= j < i ==> (#[trigger] outcomes[j]) is Ok
            ||| (forall|i: int| 0 <= i < outcomes.len() ==> (#[trigger] outcomes[i]) is Ok)
                && cancelled && e@ == "upload cancelled"@
            ||| (forall|i: int| 0 <= i < outcomes.len() ==> (#[trigger] outcomes[i]) is Ok)
                && !cancelled && e@ == "upload incomplete: a planned part has no result"@
        },
        !cancelled && outcomes.len() == plan.local.len() + plan.copies.len() && (forall|i: int|
            0 <= i < outcomes.len() ==> fits_item(plan, i, #[trigger] outcomes[i])) ==> r is Ok,
{
    lemma_first_error(outcomes);
    if !cancelled && outcomes.len() == plan.local.len() + plan.copies.len() && (forall|i: int|
        0 <= i < outcomes.len() ==> fits_item(plan, i, #[trigger] outcomes[i])) {
        assert forall|i: int| 0 <= i < outcomes.len() implies ((#[trigger] outcomes[i]) matches Ok(
            x,
        ) && item_of(x@) == planned_items(plan)[i]) by {
            assert(fits_item(plan, i, outcomes[i]));
        }
        assert(all_done(plan, outcomes));
    }
    if let Ok(done) = r {
        let n = plan.local.len() as int;
        assert forall|i: int| 0 <= i < outcomes.len() implies (#[trigger] outcomes[i] matches Ok(x)
            && x == done.0@[i]) by {
            assert(outcomes[i] == Ok::<UploadResult, String>(done.0@[i]));
        }
        assert forall|i: int| 0 <= i < n implies (#[trigger] done.0@[i]).table_key@
            == plan.local[i].table_key && done.0@[i].disk_name@ == plan.local[i].disk_name
            && done.0@[i].part.name@ == plan.local[i].part.name by {
            assert(outcomes[i] == Ok::<UploadResult, String>(done.0@[i]));
            assert(item_of(done.0@[i]@) == planned_items(plan)[i]);
        }
        assert forall|i: int| n <= i < outcomes.len() implies (#[trigger] done.0@[i]).table_key@
            == plan.copies[i - n].table_key && done.0@[i].disk_name@ == plan.copies[i
            - n].disk_name && done.0@[i].part.name@ == plan.copies[i - n].part.name by {
            assert(outcomes[i] == Ok::<UploadResult, String>(done.0@[i]));
            assert(item_of(done.0@[i]@) == planned_items(plan)[i]);
        }
    }
}

/// The files of access rights and of configuration are uploaded just where there are some,
/// what was kept for resuming is deleted just where uploads are resumed, and the local backup
/// just where that is asked for. The manifest is always published, from its temporary key,
/// and written to the local backup. No step is taken twice.
pub proof fn law_steps_are_those_asked_for(
    has_access: bool,
    has_configs: bool,
    use_resume: bool,
    delete_local: bool,
)
    ensures
        ({
            let steps = finish_plan(has_access, has_configs, use_resume, delete_local);
            &&& steps.contains(FinishStep::UploadAccess) <==> has_access
            &&& steps.contains(FinishStep::UploadConfigs) <==> has_configs
            &&& steps.contains(FinishStep::PutTemporaryManifest)
            &&& steps.contains(FinishStep::PublishManifest)
            &&& steps.contains(FinishStep::DeleteTemporaryManifest)
            &&& steps.contains(FinishStep::SaveLocalManifest)
            &&& steps.contains(FinishStep::DeleteResumeState) <==> use_resume
            &&& steps.contains(FinishStep::DeleteLocalBackup) <==> delete_local
            &&& steps.no_duplicates()
        }),
{
    let none = Seq::<FinishStep>::empty();
    let s1 = none + step_if(has_access, FinishStep::UploadAccess);
    let s2 = s1 + step_if(has_configs, FinishStep::UploadConfigs);
    let s3 = s2 + step_if(true, FinishStep::PutTemporaryManifest);
    let s4 = s3 + step_if(true, FinishStep::PublishManifest);
    let s5 = s4 + step_if(true, FinishStep::DeleteTemporaryManifest);
    let s6 = s5 + step_if(true, FinishStep::SaveLocalManifest);
    let s7 = s6 + step_if(use_resume, FinishStep::DeleteResumeState);
    let s8 = s7 + step_if(delete_local, FinishStep::DeleteLocalBackup);
    lemma_one_step_more(none, has_access, FinishStep::UploadAccess);
    lemma_one_step_more(s1, has_configs, FinishStep::UploadConfigs);
    lemma_one_step_more(s2, true, FinishStep::PutTemporaryManifest);
    lemma_one_step_more(s3, true, FinishStep::PublishManifest);
    lemma_one_step_more(s4, true, FinishStep::DeleteTemporaryManifest);
    lemma_one_step_more(s5, true, FinishStep::SaveLocalManifest);
    lemma_one_step_more(s6, use_resume, FinishStep::DeleteResumeState);
    lemma_one_step_more(s7, delete_local, FinishStep::DeleteLocalBackup);
    assert(finish_plan(has_access, has_configs, use_resume, delete_local) =~= s8);
}

/// One step more is among the steps where it is to be taken.
proof fn lemma_one_step_more(steps: Seq<FinishStep>, condition: bool, step: FinishStep)
    ensures
        forall|x: FinishStep| #[trigger]
            (steps + step_if(condition, step)).contains(x) <==> steps.contains(x) || (condition
                && x == step),
        steps.no_duplicates() && !steps.contains(step) ==> (steps + step_if(
            condition,
            step,
        )).no_duplicates(),
{
    let more = steps + step_if(condition, step);
    assert forall|x: FinishStep| #[trigger]
        more.contains(x) <==> steps.contains(x) || (condition && x == step) by {
        if steps.contains(x) {
            let i = choose|i: int| 0 <= i < steps.len() && steps[i] == x;
            assert(more[i] == x);
        }
        if condition {
            assert(more[steps.len() as int] == step);
        }
        if more.contains(x) {
            let i = choose|i: int| 0 <= i < more.len() && more[i] == x;
            if i < steps.len() {
                assert(steps[i] == x);
            }
        }
    }
    if steps.no_duplicates() && !steps.contains(step) {
        assert forall|i: int, j: int|
            0 <= i < more.len() && 0 <= j < more.len() && i != j implies more[i] != more[j] by {
            if i < steps.len() {
                assert(more[i] == steps[i]);
                assert(steps.contains(steps[i]));
            }
            if j < steps.len() {
                assert(more[j] == steps[j]);
                assert(steps.contains(steps[j]));
            }
        }
    }
}

/// After an upload, a disk first lists the parts without an outcome, in the order in which it
/// listed them before, and then the parts with one, in the order of the outcomes.
pub proof fn law_parts_are_listed_in_order(
    manifest: ManifestModel,
    results: Seq<ResultModel>,
    data_format: Seq<char>,
    t: int,
    d: int,
)
    requires
        0 <= t < manifest.tables.len(),
        0 <= d < manifest.tables[t].disks.len(),
    ensures
        ({
            let key = manifest.tables[t].key;
            let disk = manifest.tables[t].disks[d];
            let after = merged_manifest(manifest, results, data_format).tables[t].disks[d];
            after.parts == disk.parts.filter(
                |p: PartModel| !has_outcome(results, key, disk.disk_name, p.name),
            ) + results.filter(
                |r: ResultModel| r.table_key == key && r.disk_name == disk.disk_name,
            ).map_values(|r: ResultModel| r.part)
        }),
{
    let key = manifest.tables[t].key;
    let disk = manifest.tables[t].disks[d];
    lemma_parts_of_filters(results, key, disk.disk_name);
    lemma_others_filters(disk.parts, results, key, disk.disk_name);
}

proof fn lemma_parts_of_filters(
    results: Seq<ResultModel>,
    table_key: Seq<char>,
    disk_name: Seq<char>,
)
    ensures
        parts_of(results, table_key, disk_name) == results.filter(
            |r: ResultModel| r.table_key == table_key && r.disk_name == disk_name,
        ).map_values(|r: ResultModel| r.part),
    decreases results.len(),
{
    reveal(Seq::filter);
    let f = |r: ResultModel| r.table_key == table_key && r.disk_name == disk_name;
    let g = |r: ResultModel| r.part;
    if results.len() > 0 {
        let init = results.drop_last();
        lemma_parts_of_filters(init, table_key, disk_name);
        if f(results.last()) {
            assert(results.filter(f) =~= init.filter(f).push(results.last()));
            assert(results.filter(f).map_values(g) =~= init.filter(f).map_values(g).push(
                results.last().part,
            ));
        }
    } else {
        assert(results.filter(f).map_values(g) =~= Seq::<PartModel>::empty());
    }
}

proof fn lemma_others_filters(
    parts: Seq<PartModel>,
    results: Seq<ResultModel>,
    table_key: Seq<char>,
    disk_name: Seq<char>,
)
    ensures
        others(parts, parts_of(results, table_key, disk_name)) == parts.filter(
            |p: PartModel| !has_outcome(results, table_key, disk_name, p.name),
        ),
    decreases parts.len(),
{
    reveal(Seq::filter);
    if parts.len() > 0 {
        lemma_others_filters(parts.drop_last(), results, table_key, disk_name);
        lemma_named_outcomes(results, table_key, disk_name, parts.last().name);
    }
}

proof fn lemma_named_outcomes(
    results: Seq<ResultModel>,
    table_key: Seq<char>,
    disk_name: Seq<char>,
    name: Seq<char>,
)
    ensures
        has_name(parts_of(results, table_key, disk_name), name) <==> has_outcome(
            results,
            table_key,
            disk_name,
            name,
        ),
    decreases results.len(),
{
    if results.len() > 0 {
        let init = results.drop_last();
        let last = results.last();
        let before = parts_of(init, table_key, disk_name);
        let all = parts_of(results, table_key, disk_name);
        lemma_named_outcomes(init, table_key, disk_name, name);
        if has_name(all, name) {
            let k = choose|k: int| 0 <= k < all.len() && (#[trigger] all[k]).name == name;
            if k < before.len() {
                assert(before[k].name == name);
                let i = choose|i: int|
                    0 <= i < init.len() && (#[trigger] init[i]).table_key == table_key
                        && init[i].disk_name == disk_name && init[i].part.name == name;
                assert(results[i] == init[i]);
            } else {
                assert(results[results.len() - 1] == last);
            }
        }
        if has_outcome(results, table_key, disk_name, name) {
            let i = choose|i: int|
                0 <= i < results.len() && (#[trigger] results[i]).table_key == table_key
                    && results[i].disk_name == disk_name && results[i].part.name == name;
            if i < init.len() {
                assert(init[i] == results[i]);
                let k = choose|k: int| 0 <= k < before.len() && (#[trigger] before[k]).name == name;
                assert(all[k] == before[k]);
            } else {
                assert(all[all.len() - 1].name == name);
            }
        }
    }
}

/// What contracts say of an outcome are its own fields, all of them.
pub proof fn law_results_are_told_with_all_fields(r: UploadResult)
    ensures
        r@.table_key == r.table_key@,
        r@.disk_name == r.disk_name@,
        r@.part == r.part@,
        r@.compressed_size == r.compressed_size,
{
}

} // verus!
