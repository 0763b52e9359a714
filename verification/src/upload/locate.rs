//! Where the directory of a part is looked for in a local backup.

use vstd::prelude::*;
use vstd::string::StringExecFns;
use vstd::utf8::encode_utf8;

use crate::manifest::{entry_models, find_entry, lookup, NamedValue};
use crate::path_encoding::{encode_path_component, encoded};
use crate::upload::{LocationModel, PartLocation};

verus! {

/// The directory of a part under the directory of a backup.
pub open spec fn shadow_dir(
    backup_dir: Seq<char>,
    db: Seq<char>,
    table: Seq<char>,
    part_name: Seq<char>,
) -> Seq<char> {
    backup_dir + "/shadow/"@ + db + "/"@ + table + "/"@ + part_name
}

/// The directory of a part under the directory of a backup.
fn shadow_path(backup_dir: &str, db: &str, table: &str, part_name: &str) -> (r: String)
    ensures
        r@ == shadow_dir(backup_dir@, db@, table@, part_name@),
{
    backup_dir.to_string().concat("/shadow/").concat(db).concat("/").concat(table).concat(
        "/",
    ).concat(part_name)
}

/// The directories where a part may be, the best one first: on its own disk, where the path
/// of that disk is known, and in the directory of the backup, with the names of database
/// and table encoded or as they are.
pub open spec fn part_dirs(
    backup_dir: Seq<char>,
    db: Seq<char>,
    table: Seq<char>,
    part_name: Seq<char>,
    disks: Seq<(Seq<char>, Seq<char>)>,
    backup_name: Seq<char>,
    disk_name: Seq<char>,
) -> Seq<Seq<char>> {
    let url_db = encoded(encode_utf8(db), false);
    let url_table = encoded(encode_utf8(table), false);
    let own_disk = match lookup(disks, disk_name) {
        Some(path) => seq![
            shadow_dir(path + "/backup/"@ + backup_name, url_db, url_table, part_name),
        ],
        None => Seq::empty(),
    };
    own_disk + seq![
        shadow_dir(backup_dir, url_db, url_table, part_name),
        shadow_dir(backup_dir, db, table, part_name),
    ]
}

/// The directories where a part may be, the best one first.
pub fn part_dir_candidates(
    backup_dir: &str,
    db: &str,
    table: &str,
    part_name: &str,
    disks: &Vec<NamedValue>,
    backup_name: &str,
    disk_name: &str,
) -> (r: Vec<String>)
    ensures
        r.deep_view() == part_dirs(
            backup_dir@,
            db@,
            table@,
            part_name@,
            entry_models(disks@),
            backup_name@,
            disk_name@,
        ),
        r@.len() >= 2,
        r@[r@.len() - 2]@ == backup_dir@ + "/shadow/"@ + encoded(encode_utf8(db@), false) + "/"@
            + encoded(encode_utf8(table@), false) + "/"@ + part_name@,
        r@[r@.len() - 1]@ == backup_dir@ + "/shadow/"@ + db@ + "/"@ + table@ + "/"@ + part_name@,
        lookup(entry_models(disks@), disk_name@) is None ==> r@.len() == 2,
        lookup(entry_models(disks@), disk_name@) matches Some(path) ==> r@.len() == 3 && r@[0]@
            == path + "/backup/"@ + backup_name@ + "/shadow/"@ + encoded(encode_utf8(db@), false)
            + "/"@ + encoded(encode_utf8(table@), false) + "/"@ + part_name@,
{
    let url_db = encode_path_component(db);
    let url_table = encode_path_component(table);
    let mut dirs: Vec<String> = Vec::new();
    match find_entry(disks, disk_name) {
        Some(path) => {
            let own_dir = path.as_str().to_string().concat("/backup/").concat(backup_name);
            dirs.push(
                shadow_path(own_dir.as_str(), url_db.as_str(), url_table.as_str(), part_name),
            );
        },
        None => {},
    }
    dirs.push(shadow_path(backup_dir, url_db.as_str(), url_table.as_str(), part_name));
    dirs.push(shadow_path(backup_dir, db, table, part_name));
    assert(dirs.deep_view() =~= part_dirs(
        backup_dir@,
        db@,
        table@,
        part_name@,
        entry_models(disks@),
        backup_name@,
        disk_name@,
    ));
    dirs
}

/// The first of the directories that exists.
pub open spec fn first_existing(dirs: Seq<Seq<char>>, found: Seq<bool>) -> LocationModel
    decreases dirs.len(),
{
    if dirs.len() == 0 || found.len() == 0 {
        LocationModel::Unknown
    } else if found[0] {
        LocationModel::Present { dir: dirs[0] }
    } else {
        first_existing(dirs.skip(1), found.skip(1))
    }
}

/// The first of the directories that exists. `found` tells of each whether it does.
pub fn locate_part(dirs: &Vec<String>, found: &Vec<bool>) -> (r: PartLocation)
    requires
        found@.len() == dirs@.len(),
    ensures
        r@ == first_existing(dirs.deep_view(), found@),
{
    let ghost all = dirs.deep_view();
    let mut i: usize = 0;
    assert(all.skip(0) =~= all && found@.skip(0) =~= found@);
    while i < dirs.len()
        invariant
            i <= dirs@.len(),
            found@.len() == dirs@.len(),
            all == dirs.deep_view(),
            first_existing(all, found@) == first_existing(
                all.skip(i as int),
                found@.skip(i as int),
            ),
        decreases dirs@.len() - i,
    {
        if found[i] {
            return PartLocation::Present { dir: dirs[i].clone() };
        }
        assert(all.skip(i as int).skip(1) =~= all.skip(i + 1));
        assert(found@.skip(i as int).skip(1) =~= found@.skip(i + 1));
        i += 1;
    }
    PartLocation::Unknown
}

/// A part that is on its own disk is taken from there, whatever else exists.
pub proof fn law_own_disk_comes_first(
    backup_dir: Seq<char>,
    db: Seq<char>,
    table: Seq<char>,
    part_name: Seq<char>,
    disks: Seq<(Seq<char>, Seq<char>)>,
    backup_name: Seq<char>,
    disk_name: Seq<char>,
    found: Seq<bool>,
)
    requires
        lookup(disks, disk_name) is Some,
        found.len() == 3,
        found[0],
    ensures
        first_existing(
            part_dirs(backup_dir, db, table, part_name, disks, backup_name, disk_name),
            found,
        ) == (LocationModel::Present {
            dir: shadow_dir(
                lookup(disks, disk_name)->0 + "/backup/"@ + backup_name,
                encoded(encode_utf8(db), false),
                encoded(encode_utf8(table), false),
                part_name,
            ),
        }),
{
}

/// The directory that is taken exists, and none before it does; none is taken just where none
/// exists.
pub proof fn law_first_existing_directory_is_taken(dirs: Seq<Seq<char>>, found: Seq<bool>)
    requires
        found.len() == dirs.len(),
    ensures
        match first_existing(dirs, found) {
            LocationModel::Present { dir } => exists|i: int|
                0 <= i < dirs.len() && #[trigger] dirs[i] == dir && found[i] && forall|j: int|
                    0 <= j < i ==> !#[trigger] found[j],
            LocationModel::Unknown => forall|j: int| 0 <= j < found.len() ==> !#[trigger] found[j],
            LocationModel::Missing { .. } => false,
        },
    decreases dirs.len(),
{
    if dirs.len() > 0 {
        let ds = dirs.skip(1);
        let fs = found.skip(1);
        law_first_existing_directory_is_taken(ds, fs);
        if found[0] {
            assert(dirs[0] == dirs[0] && found[0]);
        } else {
            match first_existing(ds, fs) {
                LocationModel::Present { dir } => {
                    let i = choose|i: int|
                        0 <= i < ds.len() && #[trigger] ds[i] == dir && fs[i] && forall|j: int|
                            0 <= j < i ==> !#[trigger] fs[j];
                    assert(dirs[i + 1] == dir && found[i + 1]);
                    assert forall|j: int| 0 <= j < i + 1 implies !#[trigger] found[j] by {
                        if j > 0 {
                            assert(fs[j - 1] == found[j]);
                        }
                    }
                },
                _ => {
                    assert forall|j: int| 0 <= j < found.len() implies !#[trigger] found[j] by {
                        if j > 0 {
                            assert(fs[j - 1] == found[j]);
                        }
                    }
                },
            }
        }
    }
}

} // verus!
