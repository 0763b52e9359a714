//! Upload of a local backup to S3.
//!
//! The parts of the manifest are routed into two queues: parts of local disks are
//! compressed and uploaded, parts of object disks are copied on the server. The manifest
//! itself goes last, so that a backup is visible only once it is complete.

pub mod completeness;
pub mod encode;
pub mod laws;
pub mod locate;
pub mod outcome;
pub mod stream;
pub mod transfer;

use vstd::prelude::*;
use vstd::string::StringExecFns;
use vstd::utf8::encode_utf8;

use crate::manifest::{
    copy_objects, find_entry, is_s3_disk, lookup, object_disk_type, object_models, BackupManifest,
    DiskModel, DiskParts, ManifestModel, ObjectModel, PartInfo, PartModel, S3ObjectInfo,
    TableManifest, TableModel,
};
use crate::path_encoding::{encode_path_component, encoded};
use crate::storage::s3::{parse_s3_uri, uri_parts};
use crate::text::{same, split_once, split_once_text, starts_with, trim_end, trim_end_text};
use crate::upload::stream::{archive_extension, extension};

verus! {

/// Archives larger than this are uploaded in parts: 32 MiB.
pub const MULTIPART_THRESHOLD: u64 = 33_554_432;

/// Whether an archive of the given size is uploaded in parts.
pub fn should_use_multipart(compressed_size: u64) -> (r: bool)
    ensures
        r == (compressed_size > MULTIPART_THRESHOLD),
{
    compressed_size > MULTIPART_THRESHOLD
}

/// Whether a part is compressed and uploaded as a stream; a threshold of 0 switches
/// streams off.
pub fn should_use_streaming(part_size: u64, threshold: u64) -> (r: bool)
    ensures
        r == (threshold > 0 && part_size > threshold),
{
    threshold > 0 && part_size > threshold
}

// ---------------------------------------------------------------------------
// Keys
// ---------------------------------------------------------------------------

/// The name as a component of a path.
pub open spec fn component(name: Seq<char>) -> Seq<char> {
    encoded(encode_utf8(name), false)
}

/// The key of the archive of a part.
pub open spec fn part_key(
    backup_name: Seq<char>,
    db: Seq<char>,
    table: Seq<char>,
    part_name: Seq<char>,
    data_format: Seq<char>,
) -> Seq<char> {
    backup_name + "/data/"@ + component(db) + "/"@ + component(table) + "/"@ + part_name
        + extension(data_format)
}

/// The key of the archive of a part:
/// `{backup}/data/{database}/{table}/{part}{extension}`.
pub fn s3_key_for_part(
    backup_name: &str,
    db: &str,
    table: &str,
    part_name: &str,
    data_format: &str,
) -> (r: String)
    ensures
        r@ == part_key(backup_name@, db@, table@, part_name@, data_format@),
        r@ == backup_name@ + "/data/"@ + encoded(encode_utf8(db@), false) + "/"@ + encoded(
            encode_utf8(table@),
            false,
        ) + "/"@ + part_name@ + extension(data_format@),
{
    let db = encode_path_component(db);
    let table = encode_path_component(table);
    backup_name.to_string().concat("/data/").concat(db.as_str()).concat("/").concat(
        table.as_str(),
    ).concat("/").concat(part_name).concat(archive_extension(data_format))
}

/// The key below which the metadata files of a part on an object disk go.
pub open spec fn disk_part_key(
    backup_name: Seq<char>,
    db: Seq<char>,
    table: Seq<char>,
    disk_name: Seq<char>,
    part_name: Seq<char>,
) -> Seq<char> {
    backup_name + "/data/"@ + component(db) + "/"@ + component(table) + "/"@ + disk_name + "/"@
        + part_name + "/"@
}

/// The key below which the metadata files of a part on an object disk go:
/// `{backup}/data/{database}/{table}/{disk}/{part}/`.
pub fn metadata_key_for_part(
    backup_name: &str,
    db: &str,
    table: &str,
    disk_name: &str,
    part_name: &str,
) -> (r: String)
    ensures
        r@ == disk_part_key(backup_name@, db@, table@, disk_name@, part_name@),
        r@ == backup_name@ + "/data/"@ + encoded(encode_utf8(db@), false) + "/"@ + encoded(
            encode_utf8(table@),
            false,
        ) + "/"@ + disk_name@ + "/"@ + part_name@ + "/"@,
{
    let db = encode_path_component(db);
    let table = encode_path_component(table);
    backup_name.to_string().concat("/data/").concat(db.as_str()).concat("/").concat(
        table.as_str(),
    ).concat("/").concat(disk_name).concat("/").concat(part_name).concat("/")
}

/// The key of a metadata file, given the key of its part and its path below the part's
/// directory, which starts with a slash.
pub fn metadata_file_key(key_prefix: &str, relative_name: &str) -> (r: String)
    ensures
        r@ == trim_end(key_prefix@, '/') + relative_name@,
{
    trim_end_text(key_prefix, '/').concat(relative_name)
}

/// A path with each backslash turned into a slash.
pub open spec fn with_slashes(path: Seq<char>) -> Seq<char> {
    Seq::new(
        path.len(),
        |i: int|
            if path[i] == '\\' {
                '/'
            } else {
                path[i]
            },
    )
}

/// The path of a file below its part's directory, as it is appended to the part's key.
pub fn relative_key(relative: &str) -> (r: String)
    ensures
        r@ == "/"@ + with_slashes(relative@),
        r@.len() == relative@.len() + 1,
        r@[0] == '/',
        forall|i: int|
            0 <= i < relative@.len() ==> #[trigger] r@[i + 1] == if relative@[i] == '\\' {
                '/'
            } else {
                relative@[i]
            },
{
    proof {
        reveal_strlit("/");
    }
    let v = crate::text::chars_of(relative);
    let mut out = "/".to_string();
    let mut i: usize = 0;
    assert(with_slashes(v@).take(0) =~= Seq::empty());
    assert(out@ =~= "/"@ + with_slashes(v@).take(0));
    while i < v.len()
        invariant
            i <= v@.len(),
            out@ == "/"@ + with_slashes(v@).take(i as int),
        decreases v@.len() - i,
    {
        if v[i] == '\\' {
            out.push('/');
        } else {
            out.push(v[i]);
        }
        i += 1;
        assert(out@ =~= "/"@ + with_slashes(v@).take(i as int));
    }
    assert(with_slashes(v@).take(i as int) =~= with_slashes(v@));
    out
}

/// The key of a file of one of the backup's own directories: `{backup}/{directory}/{file}`.
pub fn directory_file_key(backup_name: &str, prefix: &str, rel_path: &str) -> (r: String)
    ensures
        r@ == backup_name@ + "/"@ + prefix@ + "/"@ + rel_path@,
{
    backup_name.to_string().concat("/").concat(prefix).concat("/").concat(rel_path)
}

/// The key of the manifest of a backup.
pub fn manifest_key(backup_name: &str) -> (r: String)
    ensures
        r@ == backup_name@ + "/metadata.json"@,
{
    backup_name.to_string().concat("/metadata.json")
}

/// The key under which the manifest is first uploaded.
pub fn manifest_tmp_key(backup_name: &str) -> (r: String)
    ensures
        r@ == backup_name@ + "/metadata.json.tmp"@,
{
    backup_name.to_string().concat("/metadata.json.tmp")
}

// ---------------------------------------------------------------------------
// Resuming
// ---------------------------------------------------------------------------

/// What an earlier, interrupted upload left behind.
#[derive(Debug)]
pub struct UploadState {
    /// Keys of the parts that are uploaded already.
    pub completed_keys: Vec<String>,
    pub backup_name: String,
    /// Digest of the parameters of that upload.
    pub params_hash: String,
}

/// The keys that need not be uploaded again: those of an earlier upload of the same backup
/// with the same parameters, if uploads are resumed at all.
pub fn accepted_keys(
    resume: bool,
    use_resumable_state: bool,
    state: Option<UploadState>,
    backup_name: &str,
    params_hash: &str,
) -> (r: Vec<String>)
    ensures
        r.deep_view() == match state {
            Some(s) => if resume && use_resumable_state && s.params_hash@ == params_hash@
                && s.backup_name@ == backup_name@ {
                s.completed_keys.deep_view()
            } else {
                Seq::empty()
            },
            None => Seq::empty(),
        },
        forall|i: int|
            0 <= i < r@.len() ==> state is Some && (#[trigger] r@[i])@
                == state->0.completed_keys@[i]@,
{
    let empty: Vec<String> = Vec::new();
    assert(empty.deep_view() =~= Seq::empty());
    if !(resume && use_resumable_state) {
        return empty;
    }
    match state {
        Some(s) => {
            if !same(s.params_hash.as_str(), params_hash) {
                empty
            } else if !same(s.backup_name.as_str(), backup_name) {
                empty
            } else {
                s.completed_keys
            }
        },
        None => empty,
    }
}

// ---------------------------------------------------------------------------
// Routing of the parts
// ---------------------------------------------------------------------------

/// Where the directory of a part was looked for, and what was found.
#[derive(Debug)]
pub enum PartLocation {
    /// No directory is known for the part.
    Unknown,
    /// The directory where the part should be does not exist.
    Missing { dir: String },
    /// The part's directory.
    Present { dir: String },
}

/// What a contract says of a part's location.
pub enum LocationModel {
    Unknown,
    Missing { dir: Seq<char> },
    Present { dir: Seq<char> },
}

impl View for PartLocation {
    type V = LocationModel;

    open spec fn view(&self) -> LocationModel {
        match self {
            PartLocation::Unknown => LocationModel::Unknown,
            PartLocation::Missing { dir } => LocationModel::Missing { dir: dir@ },
            PartLocation::Present { dir } => LocationModel::Present { dir: dir@ },
        }
    }
}

/// The models of the locations of the parts on one disk.
pub open spec fn location_models(v: Seq<PartLocation>) -> Seq<LocationModel> {
    Seq::new(v.len(), |i: int| v[i]@)
}

/// The models of the locations of the parts of one table.
pub open spec fn disk_location_models(v: Seq<Vec<PartLocation>>) -> Seq<Seq<LocationModel>> {
    Seq::new(v.len(), |i: int| location_models(v[i]@))
}

/// The models of the locations of all parts.
pub open spec fn table_location_models(v: Seq<Vec<Vec<PartLocation>>>) -> Seq<
    Seq<Seq<LocationModel>>,
> {
    Seq::new(v.len(), |i: int| disk_location_models(v[i]@))
}

/// The directory of a part, whether or not it exists, or why there is none.
pub open spec fn found_dir(
    location: LocationModel,
    db: Seq<char>,
    table: Seq<char>,
    part_name: Seq<char>,
) -> Result<Seq<char>, Seq<char>> {
    match location {
        LocationModel::Unknown => Err(
            "Part directory not found for "@ + db + "."@ + table + "/"@ + part_name
                + " (checked per-disk, legacy encoded, and legacy plain paths)"@,
        ),
        LocationModel::Missing { dir } => Ok(dir),
        LocationModel::Present { dir } => Ok(dir),
    }
}

/// The directory of a part, whether or not it exists, or why there is none.
pub fn find_part_dir(location: &PartLocation, db: &str, table: &str, part_name: &str) -> (r: Result<
    String,
    String,
>)
    ensures
        match found_dir(location@, db@, table@, part_name@) {
            Ok(dir) => r matches Ok(d) && d@ == dir,
            Err(error) => r matches Err(e) && e@ == error,
        },
        location matches PartLocation::Present { dir } ==> (r matches Ok(d) && d@ == dir@),
        location matches PartLocation::Missing { dir } ==> (r matches Ok(d) && d@ == dir@),
        location is Unknown ==> (r matches Err(e) && e@ == "Part directory not found for "@ + db@
            + "."@ + table@ + "/"@ + part_name@
            + " (checked per-disk, legacy encoded, and legacy plain paths)"@),
{
    match location {
        PartLocation::Unknown => Err(
            "Part directory not found for ".to_string().concat(db).concat(".").concat(table).concat(
                "/",
            ).concat(part_name).concat(
                " (checked per-disk, legacy encoded, and legacy plain paths)",
            ),
        ),
        PartLocation::Missing { dir } => Ok(dir.clone()),
        PartLocation::Present { dir } => Ok(dir.clone()),
    }
}

/// A part of a local disk that is to be compressed and uploaded.
#[derive(Debug, Clone)]
pub struct UploadWorkItem {
    /// "db.table".
    pub table_key: String,
    pub disk_name: String,
    pub part: PartInfo,
    /// The part's directory.
    pub part_dir: String,
    /// Key of the archive.
    pub s3_key: String,
}

/// What a contract says of a part that is to be uploaded.
#[verifier::ext_equal]
pub struct LocalWork {
    pub table_key: Seq<char>,
    pub disk_name: Seq<char>,
    pub part: PartModel,
    pub part_dir: Seq<char>,
    pub s3_key: Seq<char>,
}

impl View for UploadWorkItem {
    type V = LocalWork;

    open spec fn view(&self) -> LocalWork {
        LocalWork {
            table_key: self.table_key@,
            disk_name: self.disk_name@,
            part: self.part@,
            part_dir: self.part_dir@,
            s3_key: self.s3_key@,
        }
    }
}

/// A part of an object disk that is to be copied on the server.
#[derive(Debug, Clone)]
pub struct S3DiskUploadWorkItem {
    /// "db.table".
    pub table_key: String,
    pub disk_name: String,
    pub part: PartInfo,
    /// The objects to copy.
    pub s3_objects: Vec<S3ObjectInfo>,
    /// Bucket and prefix that the objects are in.
    pub source_bucket: String,
    pub source_prefix: String,
    pub backup_name: String,
    /// The directory with the part's metadata files.
    pub part_dir: String,
    pub db: String,
    pub table: String,
}

/// What a contract says of a part that is to be copied.
#[verifier::ext_equal]
pub struct CopyWork {
    pub table_key: Seq<char>,
    pub disk_name: Seq<char>,
    pub part: PartModel,
    pub s3_objects: Seq<ObjectModel>,
    pub source_bucket: Seq<char>,
    pub source_prefix: Seq<char>,
    pub backup_name: Seq<char>,
    pub part_dir: Seq<char>,
    pub db: Seq<char>,
    pub table: Seq<char>,
}

impl View for S3DiskUploadWorkItem {
    type V = CopyWork;

    open spec fn view(&self) -> CopyWork {
        CopyWork {
            table_key: self.table_key@,
            disk_name: self.disk_name@,
            part: self.part@,
            s3_objects: object_models(self.s3_objects@),
            source_bucket: self.source_bucket@,
            source_prefix: self.source_prefix@,
            backup_name: self.backup_name@,
            part_dir: self.part_dir@,
            db: self.db@,
            table: self.table@,
        }
    }
}

/// What routing the parts depends on, apart from the parts.
#[verifier::ext_equal]
pub struct PlanContext {
    pub backup_name: Seq<char>,
    /// The bucket of the backup.
    pub bucket: Seq<char>,
    pub data_format: Seq<char>,
    /// Keys that are uploaded already.
    pub completed: Seq<Seq<char>>,
    pub disk_types: Seq<(Seq<char>, Seq<char>)>,
    pub disk_remote_paths: Seq<(Seq<char>, Seq<char>)>,
}

/// Database and table of a key "db.table"; a key without a dot is a table of "default".
pub open spec fn table_names(key: Seq<char>) -> (Seq<char>, Seq<char>) {
    match split_once(key, '.') {
        Some(pair) => pair,
        None => ("default"@, key),
    }
}

/// The part's data is already in S3, as part of a base backup.
pub open spec fn carried(part: PartModel) -> bool {
    "carried:"@.is_prefix_of(part.source)
}

impl PlanContext {
    /// The disk keeps its data as objects in S3.
    pub open spec fn is_object_disk(self, disk_name: Seq<char>) -> bool {
        lookup(self.disk_types, disk_name) matches Some(t) && object_disk_type(t)
    }

    /// Bucket and prefix of the objects of a disk; the backup's bucket where the manifest
    /// names none.
    pub open spec fn object_source(self, disk_name: Seq<char>) -> (Seq<char>, Seq<char>) {
        let path = match lookup(self.disk_remote_paths, disk_name) {
            Some(p) => p,
            None => Seq::empty(),
        };
        if path.len() == 0 {
            (self.bucket, Seq::empty())
        } else {
            let (bucket, prefix) = uri_parts(path);
            if bucket.len() == 0 {
                (self.bucket, prefix)
            } else {
                (bucket, prefix)
            }
        }
    }

    /// The part is copied on the server, and not compressed and uploaded.
    pub open spec fn is_copied(self, disk_name: Seq<char>, part: PartModel) -> bool {
        self.is_object_disk(disk_name) && part.s3_objects is Some
    }

    /// The key by which a finished part is remembered.
    pub open spec fn completion_key(
        self,
        table_key: Seq<char>,
        disk_name: Seq<char>,
        part: PartModel,
    ) -> Seq<char> {
        let (db, table) = table_names(table_key);
        if self.is_copied(disk_name, part) {
            disk_part_key(self.backup_name, db, table, disk_name, part.name)
        } else {
            part_key(self.backup_name, db, table, part.name, self.data_format)
        }
    }
}

/// Where a part goes.
pub enum Route {
    /// Nowhere: its data is carried over from a base backup.
    Carried,
    /// Nowhere: it was uploaded before.
    Done,
    /// It is compressed and uploaded.
    Upload(LocalWork),
    /// Its objects are copied.
    Copy(CopyWork),
    /// Its data is missing.
    Fail(Seq<char>),
}

/// Where a part goes.
pub open spec fn route(
    c: PlanContext,
    table_key: Seq<char>,
    disk_name: Seq<char>,
    part: PartModel,
    location: LocationModel,
) -> Route {
    let (db, table) = table_names(table_key);
    let key = c.completion_key(table_key, disk_name, part);
    let dir = found_dir(location, db, table, part.name);
    if carried(part) {
        Route::Carried
    } else if c.is_copied(disk_name, part) {
        if c.completed.contains(key) {
            Route::Done
        } else if dir is Err {
            Route::Fail(dir->Err_0)
        } else {
            Route::Copy(
                CopyWork {
                    table_key,
                    disk_name,
                    part,
                    s3_objects: part.s3_objects->0,
                    source_bucket: c.object_source(disk_name).0,
                    source_prefix: c.object_source(disk_name).1,
                    backup_name: c.backup_name,
                    part_dir: dir->Ok_0,
                    db,
                    table,
                },
            )
        }
    } else if dir is Err {
        Route::Fail(dir->Err_0)
    } else if location is Missing {
        Route::Fail(
            "Part directory not found: "@ + part.name + " (expected at "@ + dir->Ok_0 + ")"@,
        )
    } else if c.completed.contains(key) {
        Route::Done
    } else {
        Route::Upload(
            LocalWork { table_key, disk_name, part, part_dir: dir->Ok_0, s3_key: key },
        )
    }
}

/// What is queued so far, and whether the present table has a part that counts.
#[verifier::ext_equal]
pub struct Queued {
    pub local: Seq<LocalWork>,
    pub copies: Seq<CopyWork>,
    pub has_parts: bool,
}

/// The queues after one more part.
pub open spec fn enqueue(q: Queued, r: Route) -> Result<Queued, Seq<char>> {
    match r {
        Route::Carried => Ok(q),
        Route::Done => Ok(Queued { has_parts: true, ..q }),
        Route::Upload(w) => Ok(Queued { local: q.local.push(w), has_parts: true, ..q }),
        Route::Copy(w) => Ok(Queued { copies: q.copies.push(w), has_parts: true, ..q }),
        Route::Fail(e) => Err(e),
    }
}

/// The queues after the first `n` parts of a disk.
pub open spec fn after_parts(
    c: PlanContext,
    table_key: Seq<char>,
    disk: DiskModel,
    locations: Seq<LocationModel>,
    q: Queued,
    n: nat,
) -> Result<Queued, Seq<char>>
    decreases n,
{
    if n == 0 {
        Ok(q)
    } else {
        match after_parts(c, table_key, disk, locations, q, (n - 1) as nat) {
            Ok(p) => enqueue(
                p,
                route(c, table_key, disk.disk_name, disk.parts[n - 1], locations[n - 1]),
            ),
            Err(e) => Err(e),
        }
    }
}

/// The queues after the first `n` disks of a table.
pub open spec fn after_disks(
    c: PlanContext,
    table: TableModel,
    locations: Seq<Seq<LocationModel>>,
    q: Queued,
    n: nat,
) -> Result<Queued, Seq<char>>
    decreases n,
{
    if n == 0 {
        Ok(q)
    } else {
        match after_disks(c, table, locations, q, (n - 1) as nat) {
            Ok(p) => after_parts(
                c,
                table.key,
                table.disks[n - 1],
                locations[n - 1],
                p,
                table.disks[n - 1].parts.len(),
            ),
            Err(e) => Err(e),
        }
    }
}

/// The work of an upload.
#[verifier::ext_equal]
pub struct PlanModel {
    pub local: Seq<LocalWork>,
    pub copies: Seq<CopyWork>,
    /// Tables with at least one part that is, or was, uploaded by itself.
    pub table_count: nat,
}

/// The work for the first `n` tables: nothing for tables without data.
pub open spec fn after_tables(
    c: PlanContext,
    tables: Seq<TableModel>,
    locations: Seq<Seq<Seq<LocationModel>>>,
    n: nat,
) -> Result<PlanModel, Seq<char>>
    decreases n,
{
    if n == 0 {
        Ok(PlanModel { local: Seq::empty(), copies: Seq::empty(), table_count: 0 })
    } else {
        match after_tables(c, tables, locations, (n - 1) as nat) {
            Err(e) => Err(e),
            Ok(p) => if tables[n - 1].metadata_only {
                Ok(p)
            } else {
                match after_disks(
                    c,
                    tables[n - 1],
                    locations[n - 1],
                    Queued { local: p.local, copies: p.copies, has_parts: false },
                    tables[n - 1].disks.len(),
                ) {
                    Err(e) => Err(e),
                    Ok(q) => Ok(
                        PlanModel {
                            local: q.local,
                            copies: q.copies,
                            table_count: if q.has_parts {
                                p.table_count + 1
                            } else {
                                p.table_count
                            },
                        },
                    ),
                }
            },
        }
    }
}

/// The work of an upload.
#[derive(Debug)]
pub struct UploadPlan {
    pub local_items: Vec<UploadWorkItem>,
    pub s3_disk_items: Vec<S3DiskUploadWorkItem>,
    pub table_count: u64,
}

/// The models of a queue of uploads.
pub open spec fn local_models(v: Seq<UploadWorkItem>) -> Seq<LocalWork> {
    Seq::new(v.len(), |i: int| v[i]@)
}

/// The models of a queue of copies.
pub open spec fn copy_models(v: Seq<S3DiskUploadWorkItem>) -> Seq<CopyWork> {
    Seq::new(v.len(), |i: int| v[i]@)
}

impl View for UploadPlan {
    type V = PlanModel;

    open spec fn view(&self) -> PlanModel {
        PlanModel {
            local: local_models(self.local_items@),
            copies: copy_models(self.s3_disk_items@),
            table_count: self.table_count as nat,
        }
    }
}

/// The locations that were looked up match the parts of the manifest, one for each.
pub open spec fn locations_match(
    tables: Seq<TableModel>,
    locations: Seq<Seq<Seq<LocationModel>>>,
) -> bool {
    &&& locations.len() == tables.len()
    &&& forall|t: int|
        #![trigger locations[t]]
        0 <= t < tables.len() ==> locations[t].len() == tables[t].disks.len()
    &&& forall|t: int, d: int|
        #![trigger locations[t][d]]
        0 <= t < tables.len() && 0 <= d < tables[t].disks.len() ==> locations[t][d].len()
            == tables[t].disks[d].parts.len()
}

/// What routing depends on, as the code holds it.
struct PlanInputs<'a> {
    manifest: &'a BackupManifest,
    backup_name: &'a str,
    bucket: &'a str,
    data_format: &'a str,
    completed: &'a Vec<String>,
}

impl<'a> PlanInputs<'a> {
    spec fn context(self) -> PlanContext {
        plan_context(
            self.manifest@,
            self.backup_name@,
            self.bucket@,
            self.data_format@,
            self.completed.deep_view(),
        )
    }
}

/// What routing the parts of a manifest depends on.
pub open spec fn plan_context(
    manifest: ManifestModel,
    backup_name: Seq<char>,
    bucket: Seq<char>,
    data_format: Seq<char>,
    completed: Seq<Seq<char>>,
) -> PlanContext {
    PlanContext {
        backup_name,
        bucket,
        data_format,
        completed,
        disk_types: manifest.disk_types,
        disk_remote_paths: manifest.disk_remote_paths,
    }
}

/// The key is one of the list.
fn listed(keys: &Vec<String>, key: &str) -> (r: bool)
    ensures
        r == keys.deep_view().contains(key@),
{
    let mut i: usize = 0;
    while i < keys.len()
        invariant
            i <= keys@.len(),
            forall|j: int| 0 <= j < i ==> keys.deep_view()[j] != key@,
        decreases keys@.len() - i,
    {
        if same(keys[i].as_str(), key) {
            assert(keys.deep_view()[i as int] == key@);
            return true;
        }
        i += 1;
    }
    false
}

/// Bucket and prefix of the objects of a disk.
fn object_source(inputs: &PlanInputs, disk_name: &str) -> (r: (String, String))
    ensures
        (r.0@, r.1@) == inputs.context().object_source(disk_name@),
{
    match find_entry(&inputs.manifest.disk_remote_paths, disk_name) {
        Some(path) => {
            if path.as_str().is_empty() {
                (inputs.bucket.to_string(), String::new())
            } else {
                let (bucket, prefix) = parse_s3_uri(path.as_str());
                if bucket.as_str().is_empty() {
                    (inputs.bucket.to_string(), prefix)
                } else {
                    (bucket, prefix)
                }
            }
        },
        None => (inputs.bucket.to_string(), String::new()),
    }
}

/// Database and table of a key "db.table".
pub fn table_names_of(key: &str) -> (r: (String, String))
    ensures
        (r.0@, r.1@) == table_names(key@),
{
    match split_once_text(key, '.') {
        Some(pair) => pair,
        None => ("default".to_string(), key.to_string()),
    }
}

/// Whether the disk keeps its data as objects in S3.
fn on_object_disk(inputs: &PlanInputs, disk_name: &str) -> (r: bool)
    ensures
        r == inputs.context().is_object_disk(disk_name@),
{
    match find_entry(&inputs.manifest.disk_types, disk_name) {
        Some(t) => is_s3_disk(t.as_str()),
        None => false,
    }
}

/// Puts one part where it goes. An error leaves the queues as they were.
fn enqueue_part(
    inputs: &PlanInputs,
    table_key: &str,
    disk_name: &str,
    part: &PartInfo,
    location: &PartLocation,
    plan: &mut UploadPlan,
    has_parts: bool,
) -> (r: Result<bool, String>)
    ensures
        final(plan).table_count == old(plan).table_count,
        match enqueue(
            Queued { local: old(plan)@.local, copies: old(plan)@.copies, has_parts },
            route(inputs.context(), table_key@, disk_name@, part@, location@),
        ) {
            Ok(q) => r matches Ok(has) && q == (Queued {
                local: final(plan)@.local,
                copies: final(plan)@.copies,
                has_parts: has,
            }),
            Err(error) => r matches Err(e) && e@ == error,
        },
{
    if starts_with(part.source.as_str(), "carried:") {
        return Ok(has_parts);
    }
    let (db, table) = table_names_of(table_key);
    let on_objects = on_object_disk(inputs, disk_name);
    match (&part.s3_objects, on_objects) {
        (Some(objects), true) => {
            let key = metadata_key_for_part(
                inputs.backup_name,
                db.as_str(),
                table.as_str(),
                disk_name,
                part.name.as_str(),
            );
            if listed(inputs.completed, key.as_str()) {
                return Ok(true);
            }
            match find_part_dir(location, db.as_str(), table.as_str(), part.name.as_str()) {
                Err(e) => Err(e),
                Ok(part_dir) => {
                    let (source_bucket, source_prefix) = object_source(inputs, disk_name);
                    let ghost was = plan@.copies;
                    let item = S3DiskUploadWorkItem {
                        table_key: table_key.to_string(),
                        disk_name: disk_name.to_string(),
                        part: part.copy(),
                        s3_objects: copy_objects(objects),
                        source_bucket,
                        source_prefix,
                        backup_name: inputs.backup_name.to_string(),
                        part_dir,
                        db,
                        table,
                    };
                    let ghost work = item@;
                    plan.s3_disk_items.push(item);
                    assert(plan@.copies =~= was.push(work));
                    Ok(true)
                },
            }
        },
        _ => {
            match find_part_dir(location, db.as_str(), table.as_str(), part.name.as_str()) {
                Err(e) => Err(e),
                Ok(part_dir) => {
                    if let PartLocation::Missing { dir } = location {
                        return Err(
                            "Part directory not found: ".to_string().concat(
                                part.name.as_str(),
                            ).concat(" (expected at ").concat(part_dir.as_str()).concat(")"),
                        );
                    }
                    let s3_key = s3_key_for_part(
                        inputs.backup_name,
                        db.as_str(),
                        table.as_str(),
                        part.name.as_str(),
                        inputs.data_format,
                    );
                    if listed(inputs.completed, s3_key.as_str()) {
                        return Ok(true);
                    }
                    let ghost was = plan@.local;
                    let item = UploadWorkItem {
                        table_key: table_key.to_string(),
                        disk_name: disk_name.to_string(),
                        part: part.copy(),
                        part_dir,
                        s3_key,
                    };
                    let ghost work = item@;
                    plan.local_items.push(item);
                    assert(plan@.local =~= was.push(work));
                    Ok(true)
                },
            }
        },
    }
}

/// Puts the parts of one disk where they go.
fn enqueue_disk(
    inputs: &PlanInputs,
    table_key: &str,
    disk: &DiskParts,
    locations: &Vec<PartLocation>,
    plan: &mut UploadPlan,
    has_parts: bool,
) -> (r: Result<bool, String>)
    requires
        locations@.len() == disk.parts@.len(),
    ensures
        final(plan).table_count == old(plan).table_count,
        match after_parts(
            inputs.context(),
            table_key@,
            disk@,
            location_models(locations@),
            Queued { local: old(plan)@.local, copies: old(plan)@.copies, has_parts },
            disk@.parts.len(),
        ) {
            Ok(q) => r matches Ok(has) && q == (Queued {
                local: final(plan)@.local,
                copies: final(plan)@.copies,
                has_parts: has,
            }),
            Err(error) => r matches Err(e) && e@ == error,
        },
{
    let ghost start = Queued { local: plan@.local, copies: plan@.copies, has_parts };
    let ghost c = inputs.context();
    let ghost locs = location_models(locations@);
    let mut has = has_parts;
    let mut i: usize = 0;
    while i < disk.parts.len()
        invariant
            i <= disk.parts@.len(),
            locations@.len() == disk.parts@.len(),
            c == inputs.context(),
            locs == location_models(locations@),
            plan.table_count == old(plan).table_count,
            start == (Queued { local: old(plan)@.local, copies: old(plan)@.copies, has_parts }),
            after_parts(c, table_key@, disk@, locs, start, i as nat) == Ok::<Queued, Seq<char>>(
                Queued { local: plan@.local, copies: plan@.copies, has_parts: has },
            ),
        decreases disk.parts@.len() - i,
    {
        let step = enqueue_part(
            inputs,
            table_key,
            disk.disk_name.as_str(),
            &disk.parts[i],
            &locations[i],
            plan,
            has,
        );
        assert(disk@.parts[i as int] == disk.parts@[i as int]@);
        assert(locs[i as int] == locations@[i as int]@);
        match step {
            Ok(h) => {
                has = h;
            },
            Err(e) => {
                proof {
                    lemma_parts_fail_early(
                        c,
                        table_key@,
                        disk@,
                        locs,
                        start,
                        i as nat + 1,
                        disk@.parts.len(),
                    );
                }
                return Err(e);
            },
        }
        i += 1;
    }
    Ok(has)
}

/// Once a part of a disk fails, the whole disk does, with the same error.
proof fn lemma_parts_fail_early(
    c: PlanContext,
    table_key: Seq<char>,
    disk: DiskModel,
    locations: Seq<LocationModel>,
    q: Queued,
    n: nat,
    m: nat,
)
    requires
        n <= m,
        after_parts(c, table_key, disk, locations, q, n) is Err,
    ensures
        after_parts(c, table_key, disk, locations, q, m) == after_parts(
            c,
            table_key,
            disk,
            locations,
            q,
            n,
        ),
    decreases m,
{
    if n < m {
        lemma_parts_fail_early(c, table_key, disk, locations, q, n, (m - 1) as nat);
    }
}

/// Once a disk of a table fails, the whole table does, with the same error.
proof fn lemma_disks_fail_early(
    c: PlanContext,
    table: TableModel,
    locations: Seq<Seq<LocationModel>>,
    q: Queued,
    n: nat,
    m: nat,
)
    requires
        n <= m,
        after_disks(c, table, locations, q, n) is Err,
    ensures
        after_disks(c, table, locations, q, m) == after_disks(c, table, locations, q, n),
    decreases m,
{
    if n < m {
        lemma_disks_fail_early(c, table, locations, q, n, (m - 1) as nat);
    }
}

/// Once a table fails, the whole plan does, with the same error.
proof fn lemma_tables_fail_early(
    c: PlanContext,
    tables: Seq<TableModel>,
    locations: Seq<Seq<Seq<LocationModel>>>,
    n: nat,
    m: nat,
)
    requires
        n <= m,
        after_tables(c, tables, locations, n) is Err,
    ensures
        after_tables(c, tables, locations, m) == after_tables(c, tables, locations, n),
    decreases m,
{
    if n < m {
        lemma_tables_fail_early(c, tables, locations, n, (m - 1) as nat);
    }
}

/// Puts the parts of one table where they go.
fn enqueue_table(
    inputs: &PlanInputs,
    table: &TableManifest,
    locations: &Vec<Vec<PartLocation>>,
    plan: &mut UploadPlan,
) -> (r: Result<bool, String>)
    requires
        locations@.len() == table.disks@.len(),
        forall|d: int|
            0 <= d < locations@.len() ==> (#[trigger] locations@[d])@.len()
                == table.disks@[d].parts@.len(),
    ensures
        final(plan).table_count == old(plan).table_count,
        match after_disks(
            inputs.context(),
            table@,
            disk_location_models(locations@),
            Queued { local: old(plan)@.local, copies: old(plan)@.copies, has_parts: false },
            table@.disks.len(),
        ) {
            Ok(q) => r matches Ok(has) && q == (Queued {
                local: final(plan)@.local,
                copies: final(plan)@.copies,
                has_parts: has,
            }),
            Err(error) => r matches Err(e) && e@ == error,
        },
{
    let ghost start = Queued { local: plan@.local, copies: plan@.copies, has_parts: false };
    let ghost c = inputs.context();
    let ghost locs = disk_location_models(locations@);
    let mut has = false;
    let mut i: usize = 0;
    while i < table.disks.len()
        invariant
            i <= table.disks@.len(),
            locations@.len() == table.disks@.len(),
            forall|d: int|
                0 <= d < locations@.len() ==> (#[trigger] locations@[d])@.len()
                    == table.disks@[d].parts@.len(),
            c == inputs.context(),
            locs == disk_location_models(locations@),
            plan.table_count == old(plan).table_count,
            start == (Queued {
                local: old(plan)@.local,
                copies: old(plan)@.copies,
                has_parts: false,
            }),
            after_disks(c, table@, locs, start, i as nat) == Ok::<Queued, Seq<char>>(
                Queued { local: plan@.local, copies: plan@.copies, has_parts: has },
            ),
        decreases table.disks@.len() - i,
    {
        let step = enqueue_disk(
            inputs,
            table.key.as_str(),
            &table.disks[i],
            &locations[i],
            plan,
            has,
        );
        assert(table@.disks[i as int] == table.disks@[i as int]@);
        assert(locs[i as int] == location_models(locations@[i as int]@));
        match step {
            Ok(h) => {
                has = h;
            },
            Err(e) => {
                proof {
                    lemma_disks_fail_early(
                        c,
                        table@,
                        locs,
                        start,
                        i as nat + 1,
                        table@.disks.len(),
                    );
                }
                return Err(e);
            },
        }
        i += 1;
    }
    Ok(has)
}

/// Plans an upload: every part that is neither carried over from a base backup nor
/// uploaded before goes into one of the two queues, in the order of the manifest. The
/// first part whose data is missing ends the planning with an error.
pub fn plan_upload(
    manifest: &BackupManifest,
    locations: &Vec<Vec<Vec<PartLocation>>>,
    backup_name: &str,
    bucket: &str,
    data_format: &str,
    completed: &Vec<String>,
) -> (r: Result<UploadPlan, String>)
    requires
        locations_match(manifest@.tables, table_location_models(locations@)),
    ensures
        match after_tables(
            plan_context(manifest@, backup_name@, bucket@, data_format@, completed.deep_view()),
            manifest@.tables,
            table_location_models(locations@),
            manifest@.tables.len(),
        ) {
            Ok(plan) => r matches Ok(p) && p@ == plan,
            Err(error) => r matches Err(e) && e@ == error,
        },
{
    let inputs = PlanInputs { manifest, backup_name, bucket, data_format, completed };
    let ghost c = inputs.context();
    let ghost tables = manifest@.tables;
    let ghost locs = table_location_models(locations@);
    let mut plan = UploadPlan { local_items: Vec::new(), s3_disk_items: Vec::new(), table_count: 0 };
    assert(plan@ =~= (PlanModel { local: Seq::empty(), copies: Seq::empty(), table_count: 0 }));
    let mut i: usize = 0;
    while i < manifest.tables.len()
        invariant
            i <= manifest.tables@.len(),
            plan.table_count <= i,
            c == inputs.context(),
            c == plan_context(
                manifest@,
                backup_name@,
                bucket@,
                data_format@,
                completed.deep_view(),
            ),
            tables == manifest@.tables,
            locs == table_location_models(locations@),
            locations_match(tables, locs),
            after_tables(c, tables, locs, i as nat) == Ok::<PlanModel, Seq<char>>(plan@),
        decreases manifest.tables@.len() - i,
    {
        let table = &manifest.tables[i];
        assert(tables[i as int] == table@);
        if !table.metadata_only {
            proof {
                let l = locations@[i as int]@;
                assert(locs[i as int] == disk_location_models(l));
                assert(table@.disks.len() == table.disks@.len());
                assert forall|d: int| 0 <= d < l.len() implies (#[trigger] l[d])@.len()
                    == table.disks@[d].parts@.len() by {
                    assert(locs[i as int][d] == location_models(l[d]@));
                    assert(tables[i as int].disks[d] == table.disks@[d]@);
                }
            }
            let ghost before = plan@;
            let step = enqueue_table(&inputs, table, &locations[i], &mut plan);
            assert(after_tables(c, tables, locs, i as nat) == Ok::<PlanModel, Seq<char>>(before));
            match step {
                Ok(has) => {
                    if has {
                        plan.table_count = plan.table_count + 1;
                    }
                },
                Err(e) => {
                    proof {
                        lemma_tables_fail_early(c, tables, locs, i as nat + 1, tables.len());
                    }
                    return Err(e);
                },
            }
        }
        i += 1;
    }
    Ok(plan)
}

/// What contracts say of an item of a plan are its own fields, all of them.
pub proof fn law_items_are_told_with_all_fields(w: UploadWorkItem, x: S3DiskUploadWorkItem)
    ensures
        w@.table_key == w.table_key@,
        w@.disk_name == w.disk_name@,
        w@.part == w.part@,
        w@.part_dir == w.part_dir@,
        w@.s3_key == w.s3_key@,
        x@.table_key == x.table_key@,
        x@.disk_name == x.disk_name@,
        x@.part == x.part@,
        x@.source_bucket == x.source_bucket@,
        x@.source_prefix == x.source_prefix@,
        x@.backup_name == x.backup_name@,
        x@.part_dir == x.part_dir@,
        x@.db == x.db@,
        x@.table == x.table@,
        x@.s3_objects.len() == x.s3_objects@.len(),
        forall|i: int|
            0 <= i < x.s3_objects@.len() ==> #[trigger] x@.s3_objects[i] == x.s3_objects@[i]@,
{
}

/// What contracts say of a plan are its own fields, all of them.
pub proof fn law_plans_are_told_with_all_fields(p: UploadPlan)
    ensures
        p@.local.len() == p.local_items@.len(),
        forall|i: int|
            0 <= i < p.local_items@.len() ==> #[trigger] p@.local[i] == p.local_items@[i]@,
        p@.copies.len() == p.s3_disk_items@.len(),
        forall|i: int|
            0 <= i < p.s3_disk_items@.len() ==> #[trigger] p@.copies[i] == p.s3_disk_items@[i]@,
        p@.table_count == p.table_count,
{
}

} // verus!
