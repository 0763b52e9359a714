//! The flags of a command that is posted to the API.

use vstd::prelude::*;
use vstd::string::{StrSliceExecFns, StringExecFns};

use crate::text::{
    blank, contains_char, join, join_texts, law_splitting_undoes_joining, lemma_pieces,
    lemma_position, lemma_position_is, lemma_unspaced_pieces, lemma_unspaced_trim, opt_text,
    position, same, split, split_once, split_once_text, split_text, strip_prefix, trim, trim_text,
    unspaced,
};

verus! {

/// The flags of a command.
#[derive(Debug)]
pub struct ActionFlags {
    /// The first argument that is no flag.
    pub backup_name: Option<String>,
    /// `--table` or `-t`.
    pub table_pattern: Option<String>,
    /// `--restore-table-mapping`, with the database where it was left out.
    pub rename_as: Option<String>,
    /// `--diff-from-remote`.
    pub diff_from_remote: Option<String>,
    /// `--rbac`.
    pub rbac: bool,
    /// `--configs`.
    pub configs: bool,
    /// `--rm` or `--drop`.
    pub rm: bool,
}

/// What a contract says of the flags of a command.
#[verifier::ext_equal]
pub struct FlagsModel {
    pub backup_name: Option<Seq<char>>,
    pub table_pattern: Option<Seq<char>>,
    pub rename_as: Option<Seq<char>>,
    pub diff_from_remote: Option<Seq<char>>,
    pub rbac: bool,
    pub configs: bool,
    pub rm: bool,
}

impl View for ActionFlags {
    type V = FlagsModel;

    open spec fn view(&self) -> FlagsModel {
        FlagsModel {
            backup_name: opt_text(self.backup_name),
            table_pattern: opt_text(self.table_pattern),
            rename_as: opt_text(self.rename_as),
            diff_from_remote: opt_text(self.diff_from_remote),
            rbac: self.rbac,
            configs: self.configs,
            rm: self.rm,
        }
    }
}

/// No flags.
pub open spec fn no_flags() -> FlagsModel {
    FlagsModel {
        backup_name: None,
        table_pattern: None,
        rename_as: None,
        diff_from_remote: None,
        rbac: false,
        configs: false,
        rm: false,
    }
}

/// No flags.
pub fn empty_flags() -> (r: ActionFlags)
    ensures
        r@ == no_flags(),
{
    ActionFlags {
        backup_name: None,
        table_pattern: None,
        rename_as: None,
        diff_from_remote: None,
        rbac: false,
        configs: false,
        rm: false,
    }
}

/// A flag that takes a value.
#[derive(Debug, Clone, Copy, PartialEq, Eq, Structural)]
pub enum ValueFlag {
    Table,
    Mapping,
    DiffFrom,
}

/// The flags with one of them set to a value.
pub open spec fn with_value(f: FlagsModel, flag: ValueFlag, value: Seq<char>) -> FlagsModel {
    match flag {
        ValueFlag::Table => FlagsModel { table_pattern: Some(value), ..f },
        ValueFlag::Mapping => FlagsModel { rename_as: Some(value), ..f },
        ValueFlag::DiffFrom => FlagsModel { diff_from_remote: Some(value), ..f },
    }
}

/// A flag that has its value in the same argument, and the value.
pub open spec fn joined_flag(arg: Seq<char>) -> Option<(ValueFlag, Seq<char>)> {
    if "--table="@.is_prefix_of(arg) {
        Some((ValueFlag::Table, arg.skip(8)))
    } else if "-t="@.is_prefix_of(arg) {
        Some((ValueFlag::Table, arg.skip(3)))
    } else if "--restore-table-mapping="@.is_prefix_of(arg) {
        Some((ValueFlag::Mapping, arg.skip(24)))
    } else if "--diff-from-remote="@.is_prefix_of(arg) {
        Some((ValueFlag::DiffFrom, arg.skip(19)))
    } else {
        None
    }
}

/// A flag that has its value in the next argument.
pub open spec fn split_flag(arg: Seq<char>) -> Option<ValueFlag> {
    if arg == "--table"@ || arg == "-t"@ {
        Some(ValueFlag::Table)
    } else if arg == "--restore-table-mapping"@ {
        Some(ValueFlag::Mapping)
    } else if arg == "--diff-from-remote"@ {
        Some(ValueFlag::DiffFrom)
    } else {
        None
    }
}

/// The flags after an argument that stands alone: a switch, or the name of the backup if
/// none was given yet. Other arguments that start with a dash are ignored.
pub open spec fn with_plain(f: FlagsModel, arg: Seq<char>) -> FlagsModel {
    if arg == "--rbac"@ {
        FlagsModel { rbac: true, ..f }
    } else if arg == "--configs"@ {
        FlagsModel { configs: true, ..f }
    } else if arg == "--rm"@ || arg == "--drop"@ {
        FlagsModel { rm: true, ..f }
    } else if !(arg.len() > 0 && arg[0] == '-') && f.backup_name is None {
        FlagsModel { backup_name: Some(arg), ..f }
    } else {
        f
    }
}

/// The flags after the arguments from `i` on.
pub open spec fn flags_from(args: Seq<Seq<char>>, i: nat, f: FlagsModel) -> FlagsModel
    decreases
            if i < args.len() {
                args.len() - i
            } else {
                0
            },
{
    if i >= args.len() {
        f
    } else {
        let arg = args[i as int];
        match joined_flag(arg) {
            Some(p) => flags_from(args, i + 1, with_value(f, p.0, p.1)),
            None => match split_flag(arg) {
                Some(flag) => flags_from(
                    args,
                    i + 2,
                    if i + 1 < args.len() {
                        with_value(f, flag, args[i as int + 1])
                    } else {
                        f
                    },
                ),
                None => flags_from(args, i + 1, with_plain(f, arg)),
            },
        }
    }
}

/// A table with its database; `db` where the name has none.
pub open spec fn qualified(name: Seq<char>, db: Seq<char>) -> Seq<char> {
    if name.contains('.') {
        name
    } else {
        db + "."@ + name
    }
}

/// A pair `from:to` of tables, both with their databases. What is no pair stays as it is.
pub open spec fn qualified_pair(pair: Seq<char>, db: Seq<char>) -> Seq<char> {
    match split_once(pair, ':') {
        Some(p) => qualified(trim(p.0), db) + ":"@ + qualified(trim(p.1), db),
        None => pair,
    }
}

/// The pairs, each of them qualified.
pub open spec fn qualified_pairs(pairs: Seq<Seq<char>>, db: Seq<char>) -> Seq<Seq<char>> {
    Seq::new(pairs.len(), |i: int| qualified_pair(pairs[i], db))
}

/// The database that a pattern names where it stands for one table, and nothing where it
/// stands for several or names none.
pub open spec fn concrete_database(pattern: Seq<char>) -> Option<Seq<char>> {
    let at = position(pattern, '.');
    if pattern.contains('*') || pattern.contains('?') || pattern.contains(',') || at == 0 || at
        >= pattern.len() {
        None
    } else {
        Some(pattern.take(at as int))
    }
}

/// The flags with the database of the table filled in in the mapping, where the mapping
/// leaves it out and the table is a single one.
pub open spec fn with_database(f: FlagsModel) -> FlagsModel {
    match (f.rename_as, f.table_pattern) {
        (Some(mapping), Some(pattern)) => match concrete_database(pattern) {
            Some(db) => FlagsModel {
                rename_as: Some(join(qualified_pairs(split(mapping, ','), db), ","@)),
                ..f
            },
            None => f,
        },
        _ => f,
    }
}

/// The texts of a list of arguments.
pub open spec fn arg_texts(parts: Seq<&str>) -> Seq<Seq<char>> {
    Seq::new(parts.len(), |i: int| parts[i]@)
}

/// The flags of a command, given its words. The first word is the command itself.
pub open spec fn parsed_flags(parts: Seq<Seq<char>>) -> FlagsModel {
    with_database(
        flags_from(
            if parts.len() > 1 {
                parts.skip(1)
            } else {
                Seq::empty()
            },
            0,
            no_flags(),
        ),
    )
}

/// A flag that has its value in the same argument: which one, and the value.
fn parse_joined(arg: &str) -> (r: Option<(ValueFlag, String)>)
    ensures
        match joined_flag(arg@) {
            Some(p) => r matches Some(v) && v.0 == p.0 && v.1@ == p.1,
            None => r is None,
        },
{
    proof {
        reveal_strlit("--table=");
        reveal_strlit("-t=");
        reveal_strlit("--restore-table-mapping=");
        reveal_strlit("--diff-from-remote=");
    }
    match strip_prefix(arg, "--table=") {
        Some(v) => {
            return Some((ValueFlag::Table, v));
        },
        None => {},
    }
    match strip_prefix(arg, "-t=") {
        Some(v) => {
            return Some((ValueFlag::Table, v));
        },
        None => {},
    }
    match strip_prefix(arg, "--restore-table-mapping=") {
        Some(v) => {
            return Some((ValueFlag::Mapping, v));
        },
        None => {},
    }
    match strip_prefix(arg, "--diff-from-remote=") {
        Some(v) => Some((ValueFlag::DiffFrom, v)),
        None => None,
    }
}

/// A flag that has its value in the next argument: which one.
fn parse_split(arg: &str) -> (r: Option<ValueFlag>)
    ensures
        r == split_flag(arg@),
{
    if same(arg, "--table") || same(arg, "-t") {
        Some(ValueFlag::Table)
    } else if same(arg, "--restore-table-mapping") {
        Some(ValueFlag::Mapping)
    } else if same(arg, "--diff-from-remote") {
        Some(ValueFlag::DiffFrom)
    } else {
        None
    }
}

impl ActionFlags {
    /// Sets a flag to a value.
    fn set_value(&mut self, flag: ValueFlag, value: String)
        ensures
            final(self)@ == with_value(old(self)@, flag, value@),
    {
        match flag {
            ValueFlag::Table => {
                self.table_pattern = Some(value);
            },
            ValueFlag::Mapping => {
                self.rename_as = Some(value);
            },
            ValueFlag::DiffFrom => {
                self.diff_from_remote = Some(value);
            },
        }
    }

    /// Takes an argument that stands alone.
    fn set_plain(&mut self, arg: &str)
        ensures
            final(self)@ == with_plain(old(self)@, arg@),
    {
        if same(arg, "--rbac") {
            self.rbac = true;
        } else if same(arg, "--configs") {
            self.configs = true;
        } else if same(arg, "--rm") || same(arg, "--drop") {
            self.rm = true;
        } else {
            let dashed = !arg.is_empty() && arg.get_char(0) == '-';
            if !dashed && self.backup_name.is_none() {
                self.backup_name = Some(arg.to_string());
            }
        }
    }
}

/// A table with its database.
fn qualify(name: &str, db: &str) -> (r: String)
    ensures
        r@ == qualified(name@, db@),
{
    if contains_char(name, '.') {
        name.to_string()
    } else {
        db.to_string().concat(".").concat(name)
    }
}

/// A pair of tables, both with their databases.
fn qualify_pair(pair: &str, db: &str) -> (r: String)
    ensures
        r@ == qualified_pair(pair@, db@),
{
    match split_once_text(pair, ':') {
        Some((from, to)) => {
            let from = qualify(trim_text(from.as_str()).as_str(), db);
            let to = qualify(trim_text(to.as_str()).as_str(), db);
            from.concat(":").concat(to.as_str())
        },
        None => pair.to_string(),
    }
}

/// A mapping of tables, all with their databases.
fn qualify_mapping(mapping: &str, db: &str) -> (r: String)
    ensures
        r@ == join(qualified_pairs(split(mapping@, ','), db@), ","@),
{
    let pairs = split_text(mapping, ',');
    let ghost all = pairs.deep_view();
    let mut out: Vec<String> = Vec::new();
    let mut i: usize = 0;
    while i < pairs.len()
        invariant
            i <= pairs@.len(),
            all == pairs.deep_view(),
            out@.len() == i,
            forall|j: int| 0 <= j < i ==> (#[trigger] out@[j])@ == qualified_pair(all[j], db@),
        decreases pairs@.len() - i,
    {
        out.push(qualify_pair(pairs[i].as_str(), db));
        i += 1;
    }
    assert(out.deep_view() =~= qualified_pairs(all, db@));
    join_texts(&out, ",")
}

/// The database that a pattern for a single table names.
fn database_of(pattern: &str) -> (r: Option<String>)
    ensures
        opt_text(r) == concrete_database(pattern@),
{
    if contains_char(pattern, '*') || contains_char(pattern, '?') || contains_char(pattern, ',') {
        return None;
    }
    match split_once_text(pattern, '.') {
        Some((db, table)) => {
            proof {
                crate::text::lemma_position(pattern@, '.');
            }
            if db.as_str().is_empty() {
                None
            } else {
                Some(db)
            }
        },
        None => None,
    }
}

/// The flags of a command, given its words: `--flag=value`, `--flag value` and switches,
/// and the first argument that is no flag as the name of the backup.
pub fn parse_action_flags(parts: &[&str]) -> (r: ActionFlags)
    ensures
        r@ == parsed_flags(arg_texts(parts@)),
{
    let ghost texts = arg_texts(parts@);
    let ghost args = if texts.len() > 1 {
        texts.skip(1)
    } else {
        Seq::empty()
    };
    let mut flags = empty_flags();
    let mut i: usize = 1;
    while i < parts.len()
        invariant
            i >= 1,
            texts == arg_texts(parts@),
            args == if texts.len() > 1 {
                texts.skip(1)
            } else {
                Seq::empty()
            },
            flags_from(args, 0, no_flags()) == flags_from(args, (i - 1) as nat, flags@),
            i <= parts@.len() + 1,
        decreases parts@.len() + 1 - i,
    {
        let len: usize = parts.len();
        let arg: &str = parts[i];
        assert(args[i - 1] == arg@);
        match parse_joined(arg) {
            Some((flag, value)) => {
                flags.set_value(flag, value);
                i = i + 1;
            },
            None => match parse_split(arg) {
                Some(flag) => {
                    if len - i > 1 {
                        assert(args[i as int] == parts@[i + 1]@);
                        flags.set_value(flag, parts[i + 1].to_string());
                        i = i + 2;
                    } else {
                        assert(flags_from(args, (i + 1) as nat, flags@) == flags@);
                        assert(flags_from(args, i as nat, flags@) == flags@);
                        i = i + 1;
                    }
                },
                None => {
                    flags.set_plain(arg);
                    i = i + 1;
                },
            },
        }
    }
    assert(flags@ == flags_from(args, 0, no_flags()));
    let expanded: Option<String> = match (&flags.rename_as, &flags.table_pattern) {
        (Some(mapping), Some(pattern)) => match database_of(pattern.as_str()) {
            Some(db) => Some(qualify_mapping(mapping.as_str(), db.as_str())),
            None => None,
        },
        _ => None,
    };
    if let Some(mapping) = expanded {
        flags.rename_as = Some(mapping);
    }
    flags
}

/// Every name in a mapping that is filled in has a database.
pub proof fn law_filled_in_names_are_qualified(name: Seq<char>, db: Seq<char>)
    ensures
        qualified(name, db).contains('.'),
        name.contains('.') ==> qualified(name, db) == name,
{
    if !name.contains('.') {
        reveal_strlit(".");
        assert(qualified(name, db)[db.len() as int] == '.');
    }
}

/// A pair of tables that both have their databases, without blanks around them, or a text
/// that is no pair.
pub open spec fn complete_pair(pair: Seq<char>) -> bool {
    match split_once(pair, ':') {
        Some(p) => p.0.contains('.') && p.1.contains('.') && trim(p.0) == p.0 && trim(p.1) == p.1,
        None => true,
    }
}

/// A mapping in which all tables have their databases passes through unchanged.
pub proof fn law_complete_mapping_is_unchanged(mapping: Seq<char>, db: Seq<char>)
    requires
        forall|i: int|
            0 <= i < split(mapping, ',').len() ==> complete_pair(#[trigger] split(mapping, ',')[i]),
    ensures
        join(qualified_pairs(split(mapping, ','), db), ","@) == mapping,
{
    let pairs = split(mapping, ',');
    reveal_strlit(",");
    reveal_strlit(":");
    assert(","@ =~= seq![',']);
    assert(":"@ =~= seq![':']);
    assert forall|i: int| 0 <= i < pairs.len() implies qualified_pair(#[trigger] pairs[i], db)
        == pairs[i] by {
        let pair = pairs[i];
        assert(complete_pair(pair));
        crate::text::lemma_position(pair, ':');
        if let Some(p) = split_once(pair, ':') {
            assert(pair =~= p.0 + seq![':'] + p.1);
        }
    }
    assert(qualified_pairs(pairs, db) =~= pairs);
    crate::text::law_joining_undoes_splitting(mapping, ',');
}

/// A pair that was filled in is complete, and has no comma.
proof fn lemma_filled_in_pair(pair: Seq<char>, db: Seq<char>)
    requires
        unspaced(pair),
        !pair.contains(','),
        unspaced(db),
        !db.contains(','),
        !db.contains(':'),
    ensures
        complete_pair(qualified_pair(pair, db)),
        !qualified_pair(pair, db).contains(','),
{
    reveal_strlit(":");
    reveal_strlit(".");
    lemma_position(pair, ':');
    match split_once(pair, ':') {
        Some(p) => {
            let at = position(pair, ':') as int;
            assert forall|i: int| 0 <= i < p.0.len() implies !blank(#[trigger] p.0[i]) && p.0[i]
                != ':' && p.0[i] != ',' by {
                assert(p.0[i] == pair[i]);
            }
            assert forall|i: int| 0 <= i < p.1.len() implies !blank(#[trigger] p.1[i]) && p.1[i]
                != ',' by {
                assert(p.1[i] == pair[at + 1 + i]);
            }
            lemma_unspaced_trim(p.0);
            lemma_unspaced_trim(p.1);
            let a = qualified(p.0, db);
            let b = qualified(p.1, db);
            law_filled_in_names_are_qualified(p.0, db);
            law_filled_in_names_are_qualified(p.1, db);
            lemma_qualified_chars(p.0, db);
            lemma_qualified_chars(p.1, db);
            lemma_unspaced_trim(a);
            lemma_unspaced_trim(b);
            let whole = a + ":"@ + b;
            assert forall|j: int| 0 <= j < a.len() implies whole[j] != ':' by {
                assert(whole[j] == a[j]);
            }
            lemma_position_is(whole, ':', a.len() as int);
            assert(whole.take(a.len() as int) =~= a);
            assert(whole.skip(a.len() as int + 1) =~= b);
            assert forall|j: int| 0 <= j < whole.len() implies whole[j] != ',' by {
                if j < a.len() {
                    assert(whole[j] == a[j]);
                } else if j > a.len() {
                    assert(whole[j] == b[j - a.len() - 1]);
                }
            }
        },
        None => {},
    }
}

/// A name with its database holds what the name and the database hold, and a dot.
proof fn lemma_qualified_chars(name: Seq<char>, db: Seq<char>)
    requires
        unspaced(name),
        !name.contains(','),
        unspaced(db),
        !db.contains(','),
        !db.contains(':'),
    ensures
        unspaced(qualified(name, db)),
        !qualified(name, db).contains(','),
        !name.contains(':') ==> !qualified(name, db).contains(':'),
{
    reveal_strlit(".");
    let q = qualified(name, db);
    if !name.contains('.') {
        assert(!blank('.')) by {
            assert('.' as u32 == 0x2e);
        }
        assert forall|j: int| 0 <= j < q.len() implies !blank(#[trigger] q[j]) && q[j] != ',' && (
        !name.contains(':') ==> q[j] != ':') by {
            if j < db.len() {
                assert(q[j] == db[j]);
            } else if j > db.len() {
                assert(q[j] == name[j - db.len() - 1]);
            } else {
                assert(q[j] == '.');
            }
        }
    }
}

/// A mapping that was filled in is left alone where it is filled in again.
pub proof fn law_filled_in_mapping_is_stable(mapping: Seq<char>, db: Seq<char>)
    requires
        unspaced(mapping),
        unspaced(db),
        !db.contains(','),
        !db.contains(':'),
    ensures
        ({
            let filled = join(qualified_pairs(split(mapping, ','), db), ","@);
            join(qualified_pairs(split(filled, ','), db), ","@) == filled
        }),
{
    reveal_strlit(",");
    assert(","@ =~= seq![',']);
    let pairs = split(mapping, ',');
    let filled_pairs = qualified_pairs(pairs, db);
    let filled = join(filled_pairs, ","@);
    lemma_pieces(mapping, ',', ',');
    lemma_unspaced_pieces(mapping, ',');
    assert forall|i: int| 0 <= i < filled_pairs.len() implies !(
    #[trigger] filled_pairs[i]).contains(',') && complete_pair(filled_pairs[i]) by {
        assert(unspaced(pairs[i]) && !pairs[i].contains(','));
        lemma_filled_in_pair(pairs[i], db);
    }
    law_splitting_undoes_joining(filled_pairs, ',');
    assert forall|i: int| 0 <= i < split(filled, ',').len() implies complete_pair(
        #[trigger] split(filled, ',')[i],
    ) by {
        assert(split(filled, ',')[i] == filled_pairs[i]);
    }
    law_complete_mapping_is_unchanged(filled, db);
}

/// The words of a command to restore one table under other names.
pub open spec fn restore_words(table: Seq<char>, mapping: Seq<char>) -> Seq<Seq<char>> {
    seq!["restore"@, "--table="@ + table, "--restore-table-mapping="@ + mapping]
}

/// What the words of such a command are read as, before the database is filled in.
proof fn lemma_restore_words(table: Seq<char>, mapping: Seq<char>)
    ensures
        parsed_flags(restore_words(table, mapping)) == with_database(
            FlagsModel { table_pattern: Some(table), rename_as: Some(mapping), ..no_flags() },
        ),
{
    reveal_strlit("--table=");
    reveal_strlit("-t=");
    reveal_strlit("--restore-table-mapping=");
    let words = restore_words(table, mapping);
    let args = words.skip(1);
    let a = "--table="@ + table;
    let b = "--restore-table-mapping="@ + mapping;
    assert(args[0] == a && args[1] == b && args.len() == 2);
    assert(a.skip(8) =~= table);
    assert("--table="@.is_prefix_of(a)) by {
        assert(a.subrange(0, 8) =~= "--table="@);
    }
    assert(b.skip(24) =~= mapping);
    assert("--restore-table-mapping="@.is_prefix_of(b)) by {
        assert(b.subrange(0, 24) =~= "--restore-table-mapping="@);
    }
    assert(b[2] == 'r' && b[1] == '-');
    assert(!"--table="@.is_prefix_of(b)) by {
        assert("--table="@[2] == 't');
    }
    assert(!"-t="@.is_prefix_of(b)) by {
        assert("-t="@[1] == 't');
    }
    let f0 = no_flags();
    let f1 = FlagsModel { table_pattern: Some(table), ..f0 };
    let f2 = FlagsModel { rename_as: Some(mapping), ..f1 };
    assert(flags_from(args, 2, f2) == f2);
    assert(flags_from(args, 1, f1) == flags_from(args, 2, f2));
    assert(flags_from(args, 0, f0) == flags_from(args, 1, f1));
}

/// A mapping that a command to restore was read with can be given in its place: the command
/// is read the same.
pub proof fn law_filled_in_command_is_stable(table: Seq<char>, mapping: Seq<char>)
    requires
        unspaced(table),
        unspaced(mapping),
        !table.contains(':'),
    ensures
        parsed_flags(restore_words(table, mapping)).rename_as matches Some(filled) && parsed_flags(
            restore_words(table, filled),
        ).rename_as == Some(filled),
{
    lemma_restore_words(table, mapping);
    let filled = parsed_flags(restore_words(table, mapping)).rename_as->0;
    lemma_restore_words(table, filled);
    if let Some(db) = concrete_database(table) {
        lemma_position(table, '.');
        assert forall|i: int| 0 <= i < db.len() implies !blank(#[trigger] db[i]) && db[i] != ','
            && db[i] != ':' by {
            assert(db[i] == table[i]);
            assert(table.contains(table[i]));
        }
        law_filled_in_mapping_is_stable(mapping, db);
    }
}

/// What contracts say of the flags of a command are its own fields, all of them.
pub proof fn law_flags_are_told_with_all_fields(f: ActionFlags)
    ensures
        f@.backup_name is Some <==> f.backup_name is Some,
        f@.backup_name is Some ==> f@.backup_name->0 == f.backup_name->0@,
        f@.table_pattern is Some <==> f.table_pattern is Some,
        f@.table_pattern is Some ==> f@.table_pattern->0 == f.table_pattern->0@,
        f@.rename_as is Some <==> f.rename_as is Some,
        f@.rename_as is Some ==> f@.rename_as->0 == f.rename_as->0@,
        f@.diff_from_remote is Some <==> f.diff_from_remote is Some,
        f@.diff_from_remote is Some ==> f@.diff_from_remote->0 == f.diff_from_remote->0@,
        f@.rbac == f.rbac,
        f@.configs == f.configs,
        f@.rm == f.rm,
{
}

} // verus!
