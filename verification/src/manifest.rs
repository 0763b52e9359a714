//! The manifest of a backup: its tables, their parts on each disk, and the
//! S3 objects behind the parts of object disks.

use vstd::prelude::*;

verus! {

/// What a contract says of an S3 object of a part.
#[verifier::ext_equal]
pub struct ObjectModel {
    pub path: Seq<char>,
    pub size: u64,
    pub backup_key: Seq<char>,
}

/// An S3 object that holds data of a part on an object disk.
#[derive(Debug, Clone, PartialEq, Eq)]
pub struct S3ObjectInfo {
    /// Path of the object below the disk's remote path.
    pub path: String,
    /// Size in bytes; zero for data that is inline in the metadata.
    pub size: u64,
    /// Key of the copy in the backup bucket; empty where there is none.
    pub backup_key: String,
}

impl View for S3ObjectInfo {
    type V = ObjectModel;

    open spec fn view(&self) -> ObjectModel {
        ObjectModel { path: self.path@, size: self.size, backup_key: self.backup_key@ }
    }
}

impl S3ObjectInfo {
    /// A copy of the object's description.
    pub fn copy(&self) -> (r: S3ObjectInfo)
        ensures
            r@ == self@,
    {
        S3ObjectInfo {
            path: self.path.clone(),
            size: self.size,
            backup_key: self.backup_key.clone(),
        }
    }
}

/// The models of a list of objects.
pub open spec fn object_models(v: Seq<S3ObjectInfo>) -> Seq<ObjectModel> {
    Seq::new(v.len(), |i: int| v[i]@)
}

/// A copy of a list of objects.
pub fn copy_objects(v: &Vec<S3ObjectInfo>) -> (r: Vec<S3ObjectInfo>)
    ensures
        object_models(r@) == object_models(v@),
{
    let mut out: Vec<S3ObjectInfo> = Vec::new();
    for i in 0..v.len()
        invariant
            out@.len() == i,
            forall|j: int| 0 <= j < i ==> (#[trigger] out@[j])@ == v@[j]@,
    {
        out.push(v[i].copy());
    }
    assert(object_models(out@) =~= object_models(v@));
    out
}

/// What a contract says of a part.
#[verifier::ext_equal]
pub struct PartModel {
    pub name: Seq<char>,
    pub size: u64,
    pub backup_key: Seq<char>,
    pub source: Seq<char>,
    pub backup_size: u64,
    pub checksum_crc64: u64,
    pub s3_objects: Option<Seq<ObjectModel>>,
}

/// A data part of a table.
#[derive(Debug, Clone, PartialEq, Eq)]
pub struct PartInfo {
    pub name: String,
    /// Uncompressed size in bytes.
    pub size: u64,
    /// Key of the part's data in the backup bucket.
    pub backup_key: String,
    /// "uploaded", or "carried:{base}" where the data is that of a base backup.
    pub source: String,
    /// Size of the data in the backup bucket.
    pub backup_size: u64,
    pub checksum_crc64: u64,
    /// The S3 objects behind the part, on an object disk.
    pub s3_objects: Option<Vec<S3ObjectInfo>>,
}

/// The models of an optional list of objects.
pub open spec fn opt_object_models(o: Option<Vec<S3ObjectInfo>>) -> Option<Seq<ObjectModel>> {
    match o {
        Some(v) => Some(object_models(v@)),
        None => None,
    }
}

impl View for PartInfo {
    type V = PartModel;

    open spec fn view(&self) -> PartModel {
        PartModel {
            name: self.name@,
            size: self.size,
            backup_key: self.backup_key@,
            source: self.source@,
            backup_size: self.backup_size,
            checksum_crc64: self.checksum_crc64,
            s3_objects: opt_object_models(self.s3_objects),
        }
    }
}

impl PartInfo {
    /// A part of a local disk that has not been uploaded yet.
    pub fn new(name: &str, size: u64, checksum_crc64: u64) -> (r: PartInfo)
        ensures
            r@ == (PartModel {
                name: name@,
                size,
                backup_key: Seq::empty(),
                source: "uploaded"@,
                backup_size: 0,
                checksum_crc64,
                s3_objects: None,
            }),
    {
        PartInfo {
            name: name.to_string(),
            size,
            backup_key: String::new(),
            source: "uploaded".to_string(),
            backup_size: 0,
            checksum_crc64,
            s3_objects: None,
        }
    }

    /// The part with the given S3 objects behind it.
    pub fn with_s3_objects(self, objects: Vec<S3ObjectInfo>) -> (r: PartInfo)
        ensures
            r@ == (PartModel { s3_objects: Some(object_models(objects@)), ..self@ }),
    {
        PartInfo { s3_objects: Some(objects), ..self }
    }

    /// A copy of the part's description.
    pub fn copy(&self) -> (r: PartInfo)
        ensures
            r@ == self@,
    {
        let s3_objects = match &self.s3_objects {
            Some(v) => Some(copy_objects(v)),
            None => None,
        };
        PartInfo {
            name: self.name.clone(),
            size: self.size,
            backup_key: self.backup_key.clone(),
            source: self.source.clone(),
            backup_size: self.backup_size,
            checksum_crc64: self.checksum_crc64,
            s3_objects,
        }
    }
}

/// The models of a list of parts.
pub open spec fn part_models(v: Seq<PartInfo>) -> Seq<PartModel> {
    Seq::new(v.len(), |i: int| v[i]@)
}

/// What a contract says of the parts on one disk.
#[verifier::ext_equal]
pub struct DiskModel {
    pub disk_name: Seq<char>,
    pub parts: Seq<PartModel>,
}

/// The parts of a table on one disk.
#[derive(Debug, Clone, PartialEq, Eq)]
pub struct DiskParts {
    pub disk_name: String,
    pub parts: Vec<PartInfo>,
}

impl View for DiskParts {
    type V = DiskModel;

    open spec fn view(&self) -> DiskModel {
        DiskModel { disk_name: self.disk_name@, parts: part_models(self.parts@) }
    }
}

/// The models of a list of disks.
pub open spec fn disk_models(v: Seq<DiskParts>) -> Seq<DiskModel> {
    Seq::new(v.len(), |i: int| v[i]@)
}

/// What a contract says of a table.
#[verifier::ext_equal]
pub struct TableModel {
    pub key: Seq<char>,
    pub engine: Seq<char>,
    pub uuid: Option<Seq<char>>,
    pub metadata_only: bool,
    pub disks: Seq<DiskModel>,
}

/// A table of a backup.
#[derive(Debug, Clone, PartialEq, Eq)]
pub struct TableManifest {
    /// "db.table".
    pub key: String,
    pub engine: String,
    pub uuid: Option<String>,
    /// The backup holds the table's schema and no data.
    pub metadata_only: bool,
    /// The table's parts, disk by disk; each disk occurs once.
    pub disks: Vec<DiskParts>,
}

impl View for TableManifest {
    type V = TableModel;

    open spec fn view(&self) -> TableModel {
        TableModel {
            key: self.key@,
            engine: self.engine@,
            uuid: crate::text::opt_text(self.uuid),
            metadata_only: self.metadata_only,
            disks: disk_models(self.disks@),
        }
    }
}

/// The models of a list of tables.
pub open spec fn table_models(v: Seq<TableManifest>) -> Seq<TableModel> {
    Seq::new(v.len(), |i: int| v[i]@)
}

/// A value with the name that it is found by: the type or the remote path of a disk, or a
/// macro of the server.
#[derive(Debug, Clone, PartialEq, Eq)]
pub struct NamedValue {
    pub name: String,
    pub value: String,
}

/// The pairs of a list of named values.
pub open spec fn entry_models(v: Seq<NamedValue>) -> Seq<(Seq<char>, Seq<char>)> {
    Seq::new(v.len(), |i: int| (v[i].name@, v[i].value@))
}

/// The value listed first for `name`.
pub open spec fn lookup(
    entries: Seq<(Seq<char>, Seq<char>)>,
    name: Seq<char>,
) -> Option<Seq<char>>
    decreases entries.len(),
{
    if entries.len() == 0 {
        None
    } else if entries[0].0 == name {
        Some(entries[0].1)
    } else {
        lookup(entries.skip(1), name)
    }
}

/// The value listed first for `name`.
pub fn find_entry<'a>(entries: &'a Vec<NamedValue>, name: &str) -> (r: Option<&'a String>)
    ensures
        r is Some == lookup(entry_models(entries@), name@) is Some,
        r matches Some(s) ==> s@ == lookup(entry_models(entries@), name@)->0,
        r is None <==> forall|k: int|
            0 <= k < entries@.len() ==> (#[trigger] entries@[k]).name@ != name@,
        r matches Some(s) ==> exists|k: int|
            0 <= k < entries@.len() && (#[trigger] entries@[k]).name@ == name@ && entries@[k].value@
                == s@ && forall|j: int| 0 <= j < k ==> (#[trigger] entries@[j]).name@ != name@,
{
    let ghost all = entry_models(entries@);
    let mut i: usize = 0;
    assert(all.skip(0) =~= all);
    while i < entries.len()
        invariant
            all == entry_models(entries@),
            i <= entries@.len(),
            forall|j: int| 0 <= j < i ==> (#[trigger] entries@[j]).name@ != name@,
            lookup(all, name@) == lookup(all.skip(i as int), name@),
        decreases entries@.len() - i,
    {
        assert(all.skip(i as int).skip(1) =~= all.skip(i + 1));
        assert(all.skip(i as int)[0] == all[i as int]);
        if crate::text::same(entries[i].name.as_str(), name) {
            return Some(&entries[i].value);
        }
        i += 1;
    }
    None
}

/// The type of an object disk.
pub open spec fn object_disk_type(disk_type: Seq<char>) -> bool {
    disk_type == "s3"@ || disk_type == "object_storage"@
}

/// Whether a disk of the given type keeps its data as objects in S3.
pub fn is_s3_disk(disk_type: &str) -> (r: bool)
    ensures
        r == object_disk_type(disk_type@),
        r == (disk_type@ == "s3"@ || disk_type@ == "object_storage"@),
{
    crate::text::same(disk_type, "s3") || crate::text::same(disk_type, "object_storage")
}

/// What a contract says of a manifest.
#[verifier::ext_equal]
pub struct ManifestModel {
    pub tables: Seq<TableModel>,
    pub disk_types: Seq<(Seq<char>, Seq<char>)>,
    pub disk_remote_paths: Seq<(Seq<char>, Seq<char>)>,
    pub compressed_size: u64,
    pub data_format: Seq<char>,
}

/// The manifest of a backup.
#[derive(Debug, Clone, PartialEq, Eq)]
pub struct BackupManifest {
    /// The tables; each key occurs once.
    pub tables: Vec<TableManifest>,
    pub disk_types: Vec<NamedValue>,
    pub disk_remote_paths: Vec<NamedValue>,
    /// Bytes of the compressed archives that were uploaded.
    pub compressed_size: u64,
    /// Compression format of the archives.
    pub data_format: String,
}

impl View for BackupManifest {
    type V = ManifestModel;

    open spec fn view(&self) -> ManifestModel {
        ManifestModel {
            tables: table_models(self.tables@),
            disk_types: entry_models(self.disk_types@),
            disk_remote_paths: entry_models(self.disk_remote_paths@),
            compressed_size: self.compressed_size,
            data_format: self.data_format@,
        }
    }
}

/// What contracts say of a part and of an object are their own fields, all of them.
pub proof fn law_parts_are_told_with_all_fields(part: PartInfo, object: S3ObjectInfo)
    ensures
        object@.path == object.path@,
        object@.size == object.size,
        object@.backup_key == object.backup_key@,
        part@.name == part.name@,
        part@.size == part.size,
        part@.backup_key == part.backup_key@,
        part@.source == part.source@,
        part@.backup_size == part.backup_size,
        part@.checksum_crc64 == part.checksum_crc64,
        part@.s3_objects is Some <==> part.s3_objects is Some,
        part@.s3_objects is Some ==> part@.s3_objects->0.len() == part.s3_objects->0@.len(),
        part@.s3_objects is Some ==> forall|i: int|
            0 <= i < part.s3_objects->0@.len() ==> #[trigger] part@.s3_objects->0[i]
                == part.s3_objects->0@[i]@,
{
}

/// What contracts say of a table and of a disk are their own fields, all of them.
pub proof fn law_tables_are_told_with_all_fields(table: TableManifest, disk: DiskParts)
    ensures
        disk@.disk_name == disk.disk_name@,
        disk@.parts.len() == disk.parts@.len(),
        forall|i: int|
            0 <= i < disk.parts@.len() ==> #[trigger] disk@.parts[i] == disk.parts@[i]@,
        table@.key == table.key@,
        table@.engine == table.engine@,
        table@.uuid is Some <==> table.uuid is Some,
        table@.uuid is Some ==> table@.uuid->0 == table.uuid->0@,
        table@.metadata_only == table.metadata_only,
        table@.disks.len() == table.disks@.len(),
        forall|i: int|
            0 <= i < table.disks@.len() ==> #[trigger] table@.disks[i] == table.disks@[i]@,
{
}

/// What contracts say of a manifest are its own fields, all of them.
pub proof fn law_manifests_are_told_with_all_fields(m: BackupManifest)
    ensures
        m@.tables.len() == m.tables@.len(),
        forall|i: int| 0 <= i < m.tables@.len() ==> #[trigger] m@.tables[i] == m.tables@[i]@,
        m@.disk_types.len() == m.disk_types@.len(),
        forall|i: int|
            0 <= i < m.disk_types@.len() ==> #[trigger] m@.disk_types[i] == (
                m.disk_types@[i].name@,
                m.disk_types@[i].value@,
            ),
        m@.disk_remote_paths.len() == m.disk_remote_paths@.len(),
        forall|i: int|
            0 <= i < m.disk_remote_paths@.len() ==> #[trigger] m@.disk_remote_paths[i] == (
                m.disk_remote_paths@[i].name@,
                m.disk_remote_paths@[i].value@,
            ),
        m@.compressed_size == m.compressed_size,
        m@.data_format == m.data_format@,
{
}

} // verus!
