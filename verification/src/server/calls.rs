//! What an operation does: the calls that it makes, with all of their arguments.

use vstd::prelude::*;

use crate::manifest::{entry_models, NamedValue};
use crate::text::opt_text;

verus! {

/// A local backup that is to be made.
#[derive(Debug)]
pub struct CreateCall {
    pub backup_name: String,
    pub tables: Option<String>,
    pub schema_only: bool,
    pub diff_from: Option<String>,
    pub partitions: Option<String>,
    pub skip_check_parts_columns: bool,
    pub rbac: bool,
    pub configs: bool,
    pub named_collections: bool,
    pub skip_projections: Vec<String>,
}

/// What a contract says of a local backup that is to be made.
#[verifier::ext_equal]
pub struct CreateModel {
    pub backup_name: Seq<char>,
    pub tables: Option<Seq<char>>,
    pub schema_only: bool,
    pub diff_from: Option<Seq<char>>,
    pub partitions: Option<Seq<char>>,
    pub skip_check_parts_columns: bool,
    pub rbac: bool,
    pub configs: bool,
    pub named_collections: bool,
    pub skip_projections: Seq<Seq<char>>,
}

impl View for CreateCall {
    type V = CreateModel;

    open spec fn view(&self) -> CreateModel {
        CreateModel {
            backup_name: self.backup_name@,
            tables: opt_text(self.tables),
            schema_only: self.schema_only,
            diff_from: opt_text(self.diff_from),
            partitions: opt_text(self.partitions),
            skip_check_parts_columns: self.skip_check_parts_columns,
            rbac: self.rbac,
            configs: self.configs,
            named_collections: self.named_collections,
            skip_projections: self.skip_projections.deep_view(),
        }
    }
}

/// A backup that is to be uploaded.
#[derive(Debug)]
pub struct UploadCall {
    pub backup_name: String,
    pub delete_local: bool,
    pub diff_from_remote: Option<String>,
    pub resume: bool,
}

/// What a contract says of a backup that is to be uploaded.
#[verifier::ext_equal]
pub struct UploadModel {
    pub backup_name: Seq<char>,
    pub delete_local: bool,
    pub diff_from_remote: Option<Seq<char>>,
    pub resume: bool,
}

impl View for UploadCall {
    type V = UploadModel;

    open spec fn view(&self) -> UploadModel {
        UploadModel {
            backup_name: self.backup_name@,
            delete_local: self.delete_local,
            diff_from_remote: opt_text(self.diff_from_remote),
            resume: self.resume,
        }
    }
}

/// A backup that is to be downloaded.
#[derive(Debug)]
pub struct DownloadCall {
    pub backup_name: String,
    pub resume: bool,
    pub hardlink_exists_files: bool,
}

/// What a contract says of a backup that is to be downloaded.
#[verifier::ext_equal]
pub struct DownloadModel {
    pub backup_name: Seq<char>,
    pub resume: bool,
    pub hardlink_exists_files: bool,
}

impl View for DownloadCall {
    type V = DownloadModel;

    open spec fn view(&self) -> DownloadModel {
        DownloadModel {
            backup_name: self.backup_name@,
            resume: self.resume,
            hardlink_exists_files: self.hardlink_exists_files,
        }
    }
}

/// A backup that is to be restored.
#[derive(Debug)]
pub struct RestoreCall {
    pub backup_name: String,
    pub tables: Option<String>,
    pub schema_only: bool,
    pub data_only: bool,
    /// Drop the tables first.
    pub rm: bool,
    pub resume: bool,
    pub rename_as: Option<String>,
    /// New names of databases by their old names.
    pub database_mapping: Option<Vec<NamedValue>>,
    pub rbac: bool,
    pub configs: bool,
    pub named_collections: bool,
    pub partitions: Option<String>,
    pub skip_empty_tables: bool,
}

/// What a contract says of a backup that is to be restored.
#[verifier::ext_equal]
pub struct RestoreModel {
    pub backup_name: Seq<char>,
    pub tables: Option<Seq<char>>,
    pub schema_only: bool,
    pub data_only: bool,
    pub rm: bool,
    pub resume: bool,
    pub rename_as: Option<Seq<char>>,
    pub database_mapping: Option<Seq<(Seq<char>, Seq<char>)>>,
    pub rbac: bool,
    pub configs: bool,
    pub named_collections: bool,
    pub partitions: Option<Seq<char>>,
    pub skip_empty_tables: bool,
}

/// The pairs of an optional mapping.
pub open spec fn opt_pairs(o: Option<Vec<NamedValue>>) -> Option<Seq<(Seq<char>, Seq<char>)>> {
    match o {
        Some(v) => Some(entry_models(v@)),
        None => None,
    }
}

impl View for RestoreCall {
    type V = RestoreModel;

    open spec fn view(&self) -> RestoreModel {
        RestoreModel {
            backup_name: self.backup_name@,
            tables: opt_text(self.tables),
            schema_only: self.schema_only,
            data_only: self.data_only,
            rm: self.rm,
            resume: self.resume,
            rename_as: opt_text(self.rename_as),
            database_mapping: opt_pairs(self.database_mapping),
            rbac: self.rbac,
            configs: self.configs,
            named_collections: self.named_collections,
            partitions: opt_text(self.partitions),
            skip_empty_tables: self.skip_empty_tables,
        }
    }
}

/// What an operation does.
#[derive(Debug)]
pub enum Work {
    Create(CreateCall),
    Upload(UploadCall),
    Download(DownloadCall),
    Restore(RestoreCall),
    /// Make a local backup and then upload it.
    CreateRemote(CreateCall, UploadCall),
    /// Download a backup and then restore it.
    RestoreRemote(DownloadCall, RestoreCall),
    DeleteLocal(String),
    DeleteRemote(String),
    CleanBrokenLocal,
    CleanBrokenRemote,
    /// Delete the broken remote backups, and then the local ones in any case.
    CleanBrokenBoth,
    /// Delete what interrupted backups left behind.
    CleanShadow,
    /// Fail with the error.
    Refuse(String),
}

/// What a contract says of what an operation does.
pub enum WorkModel {
    Create(CreateModel),
    Upload(UploadModel),
    Download(DownloadModel),
    Restore(RestoreModel),
    CreateRemote(CreateModel, UploadModel),
    RestoreRemote(DownloadModel, RestoreModel),
    DeleteLocal(Seq<char>),
    DeleteRemote(Seq<char>),
    CleanBrokenLocal,
    CleanBrokenRemote,
    CleanBrokenBoth,
    CleanShadow,
    Refuse(Seq<char>),
}

impl View for Work {
    type V = WorkModel;

    open spec fn view(&self) -> WorkModel {
        match self {
            Work::Create(c) => WorkModel::Create(c@),
            Work::Upload(u) => WorkModel::Upload(u@),
            Work::Download(d) => WorkModel::Download(d@),
            Work::Restore(r) => WorkModel::Restore(r@),
            Work::CreateRemote(c, u) => WorkModel::CreateRemote(c@, u@),
            Work::RestoreRemote(d, r) => WorkModel::RestoreRemote(d@, r@),
            Work::DeleteLocal(n) => WorkModel::DeleteLocal(n@),
            Work::DeleteRemote(n) => WorkModel::DeleteRemote(n@),
            Work::CleanBrokenLocal => WorkModel::CleanBrokenLocal,
            Work::CleanBrokenRemote => WorkModel::CleanBrokenRemote,
            Work::CleanBrokenBoth => WorkModel::CleanBrokenBoth,
            Work::CleanShadow => WorkModel::CleanShadow,
            Work::Refuse(e) => WorkModel::Refuse(e@),
        }
    }
}

/// What contracts say of a backup and of an upload are their own fields, all of them.
pub proof fn law_backups_and_uploads_are_told_with_all_fields(c: CreateCall, u: UploadCall)
    ensures
        c@.backup_name == c.backup_name@,
        c@.tables is Some <==> c.tables is Some,
        c@.tables is Some ==> c@.tables->0 == c.tables->0@,
        c@.schema_only == c.schema_only,
        c@.diff_from is Some <==> c.diff_from is Some,
        c@.diff_from is Some ==> c@.diff_from->0 == c.diff_from->0@,
        c@.partitions is Some <==> c.partitions is Some,
        c@.partitions is Some ==> c@.partitions->0 == c.partitions->0@,
        c@.skip_check_parts_columns == c.skip_check_parts_columns,
        c@.rbac == c.rbac,
        c@.configs == c.configs,
        c@.named_collections == c.named_collections,
        c@.skip_projections == c.skip_projections.deep_view(),
        u@.backup_name == u.backup_name@,
        u@.delete_local == u.delete_local,
        u@.diff_from_remote is Some <==> u.diff_from_remote is Some,
        u@.diff_from_remote is Some ==> u@.diff_from_remote->0 == u.diff_from_remote->0@,
        u@.resume == u.resume,
{
}

/// What contracts say of a download and of a restore are their own fields, all of them.
pub proof fn law_downloads_and_restores_are_told_with_all_fields(d: DownloadCall, x: RestoreCall)
    ensures
        d@.backup_name == d.backup_name@,
        d@.resume == d.resume,
        d@.hardlink_exists_files == d.hardlink_exists_files,
        x@.backup_name == x.backup_name@,
        x@.tables is Some <==> x.tables is Some,
        x@.tables is Some ==> x@.tables->0 == x.tables->0@,
        x@.schema_only == x.schema_only,
        x@.data_only == x.data_only,
        x@.rm == x.rm,
        x@.resume == x.resume,
        x@.rename_as is Some <==> x.rename_as is Some,
        x@.rename_as is Some ==> x@.rename_as->0 == x.rename_as->0@,
        x@.database_mapping is Some <==> x.database_mapping is Some,
        x@.database_mapping is Some ==> x@.database_mapping->0.len() == x.database_mapping->0@.len(),
        x@.database_mapping is Some ==> forall|i: int|
            0 <= i < x.database_mapping->0@.len() ==> #[trigger] x@.database_mapping->0[i] == (
                x.database_mapping->0@[i].name@,
                x.database_mapping->0@[i].value@,
            ),
        x@.rbac == x.rbac,
        x@.configs == x.configs,
        x@.named_collections == x.named_collections,
        x@.skip_empty_tables == x.skip_empty_tables,
        x@.partitions is Some <==> x.partitions is Some,
        x@.partitions is Some ==> x@.partitions->0 == x.partitions->0@,
{
}

/// What contracts say of the work of an operation is which work it is, and on what.
pub proof fn law_work_is_told_as_it_is(w: Work)
    ensures
        w is Create <==> w@ is Create,
        w is Create ==> w@->Create_0 == w->Create_0@,
        w is Upload <==> w@ is Upload,
        w is Upload ==> w@->Upload_0 == w->Upload_0@,
        w is Download <==> w@ is Download,
        w is Download ==> w@->Download_0 == w->Download_0@,
        w is Restore <==> w@ is Restore,
        w is Restore ==> w@->Restore_0 == w->Restore_0@,
        w is DeleteLocal <==> w@ is DeleteLocal,
        w is DeleteLocal ==> w@->DeleteLocal_0 == w->DeleteLocal_0@,
        w is DeleteRemote <==> w@ is DeleteRemote,
        w is DeleteRemote ==> w@->DeleteRemote_0 == w->DeleteRemote_0@,
        w is Refuse <==> w@ is Refuse,
        w is Refuse ==> w@->Refuse_0 == w->Refuse_0@,
        w is CreateRemote <==> w@ is CreateRemote,
        w is CreateRemote ==> w@->CreateRemote_0 == w->CreateRemote_0@ && w@->CreateRemote_1 == w->CreateRemote_1@,
        w is RestoreRemote <==> w@ is RestoreRemote,
        w is RestoreRemote ==> w@->RestoreRemote_0 == w->RestoreRemote_0@ && w@->RestoreRemote_1 == w->RestoreRemote_1@,
        w is CleanBrokenLocal <==> w@ is CleanBrokenLocal,
        w is CleanBrokenRemote <==> w@ is CleanBrokenRemote,
        w is CleanBrokenBoth <==> w@ is CleanBrokenBoth,
        w is CleanShadow <==> w@ is CleanShadow,
{
}

} // verus!
