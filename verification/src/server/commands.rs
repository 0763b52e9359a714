//! What posted commands ask for, from their words to the work that they start.

use vstd::prelude::*;

use crate::server::calls::{CreateModel, DownloadModel, RestoreModel, UploadModel, WorkModel};
use crate::server::flags::{
    concrete_database, flags_from, joined_flag, no_flags, parsed_flags, qualified, qualified_pair,
    qualified_pairs, split_flag, with_database, with_plain, with_value, FlagsModel, ValueFlag,
};
use crate::server::operations::{
    command_fault, command_flags, command_work, locked_name, operation_of, word_at,
};
use crate::server::state::name_fault;
use crate::text::{
    join, law_cut_at_the_first_separator, lemma_position, lemma_position_is, lemma_split_concat,
    lemma_unspaced_trim, split, trim, unspaced,
};

verus! {

// ---------------------------------------------------------------------------
// Words
// ---------------------------------------------------------------------------

/// The word is a flag whose value is the next word.
pub open spec fn takes_next_word(word: Seq<char>) -> bool {
    word == "--table"@ || word == "-t"@ || word == "--restore-table-mapping"@ || word
        == "--diff-from-remote"@
}

/// No word takes the next one as its value.
pub open spec fn self_contained(words: Seq<Seq<char>>) -> bool {
    forall|i: int| 0 <= i < words.len() ==> !takes_next_word(#[trigger] words[i])
}

/// The word chooses tables.
pub open spec fn is_table_word(word: Seq<char>) -> bool {
    "--table="@.is_prefix_of(word) || "-t="@.is_prefix_of(word)
}

/// The word maps tables to others.
pub open spec fn is_mapping_word(word: Seq<char>) -> bool {
    "--restore-table-mapping="@.is_prefix_of(word)
}

/// The word names the base of an incremental backup.
pub open spec fn is_base_word(word: Seq<char>) -> bool {
    "--diff-from-remote="@.is_prefix_of(word)
}

/// The word is no flag.
pub open spec fn is_plain_word(word: Seq<char>) -> bool {
    !(word.len() > 0 && word[0] == '-')
}

/// One of the words is the given one.
pub open spec fn has_word(words: Seq<Seq<char>>, word: Seq<char>) -> bool {
    exists|i: int| 0 <= i < words.len() && #[trigger] words[i] == word
}

/// How each kind of word is read.
proof fn lemma_word(word: Seq<char>)
    requires
        !takes_next_word(word),
    ensures
        split_flag(word) is None,
        is_table_word(word) <==> joined_flag(word) is Some && (joined_flag(word)->0).0
            == ValueFlag::Table,
        is_mapping_word(word) <==> joined_flag(word) is Some && (joined_flag(word)->0).0
            == ValueFlag::Mapping,
        is_base_word(word) <==> joined_flag(word) is Some && (joined_flag(word)->0).0
            == ValueFlag::DiffFrom,
        joined_flag(word) is Some ==> !is_plain_word(word),
        word == "--rm"@ || word == "--drop"@ || word == "--rbac"@ || word == "--configs"@
            ==> joined_flag(word) is None && !is_plain_word(word),
        "--rm"@ != "--rbac"@ && "--rm"@ != "--configs"@ && "--drop"@ != "--rbac"@ && "--drop"@
            != "--configs"@ && "--rbac"@ != "--configs"@,
        forall|v: Seq<char>|
            word == #[trigger] ("--table="@ + v) ==> joined_flag(word) == Some(
                (ValueFlag::Table, v),
            ),
        forall|v: Seq<char>|
            word == #[trigger] ("-t="@ + v) ==> joined_flag(word) == Some((ValueFlag::Table, v)),
        forall|v: Seq<char>|
            word == #[trigger] ("--restore-table-mapping="@ + v) ==> joined_flag(word) == Some(
                (ValueFlag::Mapping, v),
            ),
        forall|v: Seq<char>|
            word == #[trigger] ("--diff-from-remote="@ + v) ==> joined_flag(word) == Some(
                (ValueFlag::DiffFrom, v),
            ),
{
    lemma_prefixes(word);
    reveal_strlit("--rm");
    reveal_strlit("--drop");
    reveal_strlit("--rbac");
    reveal_strlit("--configs");
    assert("--rm"@.len() == 4 && "--drop"@.len() == 6 && "--rbac"@.len() == 6 && "--configs"@.len()
        == 9);
    assert("--drop"@[2] != "--rbac"@[2]);
    assert forall|v: Seq<char>| word == #[trigger] ("--table="@ + v) implies joined_flag(word)
        == Some((ValueFlag::Table, v)) by {
        reveal_strlit("--table=");
        assert(word.subrange(0, 8) =~= "--table="@);
        assert(word.skip(8) =~= v);
    }
    assert forall|v: Seq<char>| word == #[trigger] ("-t="@ + v) implies joined_flag(word) == Some(
        (ValueFlag::Table, v),
    ) by {
        reveal_strlit("-t=");
        assert(word.subrange(0, 3) =~= "-t="@);
        assert(word.skip(3) =~= v);
    }
    assert forall|v: Seq<char>| word == #[trigger] ("--restore-table-mapping="@ + v) implies joined_flag(
        word,
    ) == Some((ValueFlag::Mapping, v)) by {
        reveal_strlit("--restore-table-mapping=");
        assert(word.subrange(0, 24) =~= "--restore-table-mapping="@);
        assert(word.skip(24) =~= v);
    }
    assert forall|v: Seq<char>| word == #[trigger] ("--diff-from-remote="@ + v) implies joined_flag(
        word,
    ) == Some((ValueFlag::DiffFrom, v)) by {
        reveal_strlit("--diff-from-remote=");
        assert(word.subrange(0, 19) =~= "--diff-from-remote="@);
        assert(word.skip(19) =~= v);
    }
}

/// No word starts like two of the flags with values.
proof fn lemma_prefixes(word: Seq<char>)
    ensures
        is_table_word(word) ==> !is_mapping_word(word) && !is_base_word(word) && !is_plain_word(
            word,
        ),
        is_mapping_word(word) ==> !is_base_word(word) && !is_plain_word(word),
        is_base_word(word) ==> !is_plain_word(word),
        word.len() <= 9 && word.len() > 3 && word[2] != 't' && word[1] == '-' ==> !is_table_word(
            word,
        ) && !is_mapping_word(word) && !is_base_word(word),
        "--table="@.is_prefix_of(word) ==> !"-t="@.is_prefix_of(word),
{
    reveal_strlit("--table=");
    reveal_strlit("-t=");
    reveal_strlit("--restore-table-mapping=");
    reveal_strlit("--diff-from-remote=");
    if "--table="@.is_prefix_of(word) {
        assert(word.subrange(0, 8) =~= "--table="@);
        assert(word[0] == '-' && word[1] == '-' && word[2] == 't') by {
            assert(word.subrange(0, 8)[0] == word[0]);
            assert(word.subrange(0, 8)[1] == word[1]);
            assert(word.subrange(0, 8)[2] == word[2]);
        }
    }
    if "-t="@.is_prefix_of(word) {
        assert(word.subrange(0, 3) =~= "-t="@);
        assert(word[0] == '-' && word[1] == 't') by {
            assert(word.subrange(0, 3)[0] == word[0]);
            assert(word.subrange(0, 3)[1] == word[1]);
        }
    }
    if "--restore-table-mapping="@.is_prefix_of(word) {
        assert(word.subrange(0, 24) =~= "--restore-table-mapping="@);
        assert(word[0] == '-' && word[1] == '-' && word[2] == 'r') by {
            assert(word.subrange(0, 24)[0] == word[0]);
            assert(word.subrange(0, 24)[1] == word[1]);
            assert(word.subrange(0, 24)[2] == word[2]);
        }
    }
    if "--diff-from-remote="@.is_prefix_of(word) {
        assert(word.subrange(0, 19) =~= "--diff-from-remote="@);
        assert(word[0] == '-' && word[1] == '-' && word[2] == 'd') by {
            assert(word.subrange(0, 19)[0] == word[0]);
            assert(word.subrange(0, 19)[1] == word[1]);
            assert(word.subrange(0, 19)[2] == word[2]);
        }
    }
}

/// The flags say what the words from `i` on say, and for the rest what `f` said.
pub open spec fn says(words: Seq<Seq<char>>, i: int, f: FlagsModel, r: FlagsModel) -> bool {
    &&& r.rm <==> f.rm || exists|k: int|
        i <= k < words.len() && (#[trigger] words[k] == "--rm"@ || words[k] == "--drop"@)
    &&& r.rbac <==> f.rbac || exists|k: int|
        i <= k < words.len() && #[trigger] words[k] == "--rbac"@
    &&& r.configs <==> f.configs || exists|k: int|
        i <= k < words.len() && #[trigger] words[k] == "--configs"@
    &&& f.backup_name is Some ==> r.backup_name == f.backup_name
    &&& f.backup_name is None ==> match r.backup_name {
        Some(n) => exists|k: int|
            i <= k < words.len() && #[trigger] words[k] == n && is_plain_word(words[k])
                && forall|j: int| i <= j < k ==> !is_plain_word(#[trigger] words[j]),
        None => forall|k: int| i <= k < words.len() ==> !is_plain_word(#[trigger] words[k]),
    }
    &&& last_value(words, i, f.table_pattern, r.table_pattern, ValueFlag::Table)
    &&& last_value(words, i, f.rename_as, r.rename_as, ValueFlag::Mapping)
    &&& last_value(words, i, f.diff_from_remote, r.diff_from_remote, ValueFlag::DiffFrom)
}

/// The word gives the flag the value.
pub open spec fn gives(word: Seq<char>, flag: ValueFlag, value: Seq<char>) -> bool {
    match flag {
        ValueFlag::Table => word == "--table="@ + value || word == "-t="@ + value,
        ValueFlag::Mapping => word == "--restore-table-mapping="@ + value,
        ValueFlag::DiffFrom => word == "--diff-from-remote="@ + value,
    }
}

/// The word is one of the flag.
pub open spec fn is_word_of(word: Seq<char>, flag: ValueFlag) -> bool {
    match flag {
        ValueFlag::Table => is_table_word(word),
        ValueFlag::Mapping => is_mapping_word(word),
        ValueFlag::DiffFrom => is_base_word(word),
    }
}

/// `now` is the value that the last word of the flag gives it, and `was` where there is none.
pub open spec fn last_value(
    words: Seq<Seq<char>>,
    i: int,
    was: Option<Seq<char>>,
    now: Option<Seq<char>>,
    flag: ValueFlag,
) -> bool {
    ||| (forall|k: int| i <= k < words.len() ==> !is_word_of(#[trigger] words[k], flag)) && now
        == was
    ||| exists|k: int|
        i <= k < words.len() && now is Some && gives(#[trigger] words[k], flag, now->0)
            && forall|j: int| k < j < words.len() ==> !is_word_of(#[trigger] words[j], flag)
}

/// A word of a flag gives it the rest of the word.
proof fn lemma_gives(word: Seq<char>)
    requires
        !takes_next_word(word),
    ensures
        joined_flag(word) matches Some(p) ==> gives(word, p.0, p.1) && is_word_of(word, p.0),
        forall|flag: ValueFlag| #[trigger]
            is_word_of(word, flag) ==> joined_flag(word) is Some && (joined_flag(word)->0).0 == flag,
{
    lemma_word(word);
    lemma_prefixes(word);
    reveal_strlit("--table=");
    reveal_strlit("-t=");
    reveal_strlit("--restore-table-mapping=");
    reveal_strlit("--diff-from-remote=");
    if "--table="@.is_prefix_of(word) {
        assert(word =~= "--table="@ + word.skip(8));
    } else if "-t="@.is_prefix_of(word) {
        assert(word =~= "-t="@ + word.skip(3));
    } else if "--restore-table-mapping="@.is_prefix_of(word) {
        assert(word =~= "--restore-table-mapping="@ + word.skip(24));
    } else if "--diff-from-remote="@.is_prefix_of(word) {
        assert(word =~= "--diff-from-remote="@ + word.skip(19));
    }
}

proof fn lemma_last_value_step(
    words: Seq<Seq<char>>,
    i: int,
    was: Option<Seq<char>>,
    mid: Option<Seq<char>>,
    now: Option<Seq<char>>,
    flag: ValueFlag,
)
    requires
        0 <= i < words.len(),
        last_value(words, i + 1, mid, now, flag),
        if is_word_of(words[i], flag) {
            mid is Some && gives(words[i], flag, mid->0)
        } else {
            mid == was
        },
    ensures
        last_value(words, i, was, now, flag),
{
    if forall|k: int| i + 1 <= k < words.len() ==> !is_word_of(#[trigger] words[k], flag) {
        if now == mid {
            if is_word_of(words[i], flag) {
                assert(gives(words[i], flag, now->0));
            } else {
                assert forall|k: int| i <= k < words.len() implies !is_word_of(
                    #[trigger] words[k],
                    flag,
                ) by {}
            }
        }
    }
}

proof fn lemma_flags_say(words: Seq<Seq<char>>, i: nat, f: FlagsModel)
    requires
        self_contained(words),
        i <= words.len(),
    ensures
        says(words, i as int, f, flags_from(words, i, f)),
    decreases words.len() - i,
{
    let r = flags_from(words, i, f);
    if i < words.len() {
        let word = words[i as int];
        assert(!takes_next_word(word));
        lemma_word(word);
        lemma_gives(word);
        let g = match joined_flag(word) {
            Some(p) => with_value(f, p.0, p.1),
            None => with_plain(f, word),
        };
        assert(r == flags_from(words, i + 1, g));
        lemma_flags_say(words, i + 1, g);
        lemma_last_value_step(
            words,
            i as int,
            f.table_pattern,
            g.table_pattern,
            r.table_pattern,
            ValueFlag::Table,
        );
        lemma_last_value_step(
            words,
            i as int,
            f.rename_as,
            g.rename_as,
            r.rename_as,
            ValueFlag::Mapping,
        );
        lemma_last_value_step(
            words,
            i as int,
            f.diff_from_remote,
            g.diff_from_remote,
            r.diff_from_remote,
            ValueFlag::DiffFrom,
        );
        lemma_switches(words, i as int, f, g, r);
        lemma_name_step(words, i as int, f, g, r);
    }
}

proof fn lemma_switches(
    words: Seq<Seq<char>>,
    i: int,
    f: FlagsModel,
    g: FlagsModel,
    r: FlagsModel,
)
    requires
        0 <= i < words.len(),
        says(words, i + 1, g, r),
        g.rm <==> f.rm || words[i] == "--rm"@ || words[i] == "--drop"@,
        g.rbac <==> f.rbac || words[i] == "--rbac"@,
        g.configs <==> f.configs || words[i] == "--configs"@,
    ensures
        r.rm <==> f.rm || exists|k: int|
            i <= k < words.len() && (#[trigger] words[k] == "--rm"@ || words[k] == "--drop"@),
        r.rbac <==> f.rbac || exists|k: int|
            i <= k < words.len() && #[trigger] words[k] == "--rbac"@,
        r.configs <==> f.configs || exists|k: int|
            i <= k < words.len() && #[trigger] words[k] == "--configs"@,
{
    if exists|k: int|
        i <= k < words.len() && (#[trigger] words[k] == "--rm"@ || words[k] == "--drop"@) {
        let k = choose|k: int|
            i <= k < words.len() && (#[trigger] words[k] == "--rm"@ || words[k] == "--drop"@);
        assert(k == i || i + 1 <= k);
    }
    if exists|k: int| i <= k < words.len() && #[trigger] words[k] == "--rbac"@ {
        let k = choose|k: int| i <= k < words.len() && #[trigger] words[k] == "--rbac"@;
        assert(k == i || i + 1 <= k);
    }
    if exists|k: int| i <= k < words.len() && #[trigger] words[k] == "--configs"@ {
        let k = choose|k: int| i <= k < words.len() && #[trigger] words[k] == "--configs"@;
        assert(k == i || i + 1 <= k);
    }
}

proof fn lemma_name_step(
    words: Seq<Seq<char>>,
    i: int,
    f: FlagsModel,
    g: FlagsModel,
    r: FlagsModel,
)
    requires
        0 <= i < words.len(),
        says(words, i + 1, g, r),
        g.backup_name == if is_plain_word(words[i]) && f.backup_name is None {
            Some(words[i])
        } else {
            f.backup_name
        },
    ensures
        f.backup_name is Some ==> r.backup_name == f.backup_name,
        f.backup_name is None ==> match r.backup_name {
            Some(n) => exists|k: int|
                i <= k < words.len() && #[trigger] words[k] == n && is_plain_word(words[k])
                    && forall|j: int| i <= j < k ==> !is_plain_word(#[trigger] words[j]),
            None => forall|k: int| i <= k < words.len() ==> !is_plain_word(#[trigger] words[k]),
        },
{
    if f.backup_name is None {
        if is_plain_word(words[i]) {
            assert(r.backup_name == Some(words[i]));
        } else if let Some(n) = r.backup_name {
            let k = choose|k: int|
                i + 1 <= k < words.len() && #[trigger] words[k] == n && is_plain_word(words[k])
                    && forall|j: int| i + 1 <= j < k ==> !is_plain_word(#[trigger] words[j]);
            assert(words[k] == n);
            assert forall|j: int| i <= j < k implies !is_plain_word(#[trigger] words[j]) by {}
        } else {
            assert forall|k: int| i <= k < words.len() implies !is_plain_word(
                #[trigger] words[k],
            ) by {}
        }
    }
}

/// Words without a value of their own are read in any order: a switch is set just where one
/// of the words is it, the backup is the first word that is no flag, and a flag with a value
/// has that of the last word that gives it one, or none.
pub proof fn law_flags_say_what_the_words_say(words: Seq<Seq<char>>)
    requires
        self_contained(words),
    ensures
        says(words, 0, no_flags(), flags_from(words, 0, no_flags())),
{
    lemma_flags_say(words, 0, no_flags());
}

proof fn lemma_flags_shift(a: Seq<Seq<char>>, b: Seq<Seq<char>>, i: nat, f: FlagsModel)
    ensures
        flags_from(a + b, a.len() + i, f) == flags_from(b, i, f),
    decreases
            if i < b.len() {
                b.len() - i
            } else {
                0
            },
{
    let s = a + b;
    if i < b.len() {
        assert(s[a.len() + i as int] == b[i as int]);
        match joined_flag(b[i as int]) {
            Some(p) => {
                lemma_flags_shift(a, b, i + 1, with_value(f, p.0, p.1));
            },
            None => match split_flag(b[i as int]) {
                Some(flag) => {
                    if i + 1 < b.len() {
                        assert(s[a.len() + i as int + 1] == b[i as int + 1]);
                        lemma_flags_shift(
                            a,
                            b,
                            i + 2,
                            with_value(f, flag, b[i as int + 1]),
                        );
                    } else {
                        lemma_flags_shift(a, b, i + 2, f);
                    }
                },
                None => {
                    lemma_flags_shift(
                        a,
                        b,
                        i + 1,
                        with_plain(f, b[i as int]),
                    );
                },
            },
        }
    }
}

proof fn lemma_flags_front(a: Seq<Seq<char>>, b: Seq<Seq<char>>, i: nat, f: FlagsModel)
    requires
        self_contained(a),
        i <= a.len(),
    ensures
        flags_from(a + b, i, f) == flags_from(b, 0, flags_from(a, i, f)),
    decreases a.len() - i,
{
    let s = a + b;
    if i < a.len() {
        let word = a[i as int];
        assert(s[i as int] == word);
        assert(!takes_next_word(word));
        lemma_word(word);
        match joined_flag(word) {
            Some(p) => {
                lemma_flags_front(a, b, i + 1, with_value(f, p.0, p.1));
            },
            None => {
                lemma_flags_front(a, b, i + 1, with_plain(f, word));
            },
        }
    } else {
        lemma_flags_shift(a, b, 0, f);
    }
}

/// A flag may have its value as the next word instead of behind an equals sign, whatever the
/// value is and whatever follows; `-t` is short for `--table`. A flag that is the last word
/// has no value and says nothing.
pub proof fn law_values_may_follow_as_words(
    before: Seq<Seq<char>>,
    value: Seq<char>,
    after: Seq<Seq<char>>,
)
    requires
        self_contained(before),
    ensures
        ({
            let f = no_flags();
            &&& flags_from(before + seq!["--table"@, value] + after, 0, f) == flags_from(
                before + seq!["--table="@ + value] + after,
                0,
                f,
            )
            &&& flags_from(before + seq!["-t"@, value] + after, 0, f) == flags_from(
                before + seq!["--table="@ + value] + after,
                0,
                f,
            )
            &&& flags_from(before + seq!["-t="@ + value] + after, 0, f) == flags_from(
                before + seq!["--table="@ + value] + after,
                0,
                f,
            )
            &&& flags_from(before + seq!["--restore-table-mapping"@, value] + after, 0, f)
                == flags_from(before + seq!["--restore-table-mapping="@ + value] + after, 0, f)
            &&& flags_from(before + seq!["--diff-from-remote"@, value] + after, 0, f)
                == flags_from(before + seq!["--diff-from-remote="@ + value] + after, 0, f)
            &&& flags_from(before + seq!["--table"@], 0, f) == flags_from(before, 0, f)
            &&& flags_from(before + seq!["-t"@], 0, f) == flags_from(before, 0, f)
            &&& flags_from(before + seq!["--restore-table-mapping"@], 0, f) == flags_from(
                before,
                0,
                f,
            )
            &&& flags_from(before + seq!["--diff-from-remote"@], 0, f) == flags_from(before, 0, f)
        }),
{
    lemma_split_forms();
    lemma_two_words(before, "--table"@, value, after, ValueFlag::Table, "--table="@ + value);
    lemma_two_words(before, "-t"@, value, after, ValueFlag::Table, "--table="@ + value);
    lemma_two_words(before, "-t"@, value, after, ValueFlag::Table, "-t="@ + value);
    lemma_two_words(
        before,
        "--restore-table-mapping"@,
        value,
        after,
        ValueFlag::Mapping,
        "--restore-table-mapping="@ + value,
    );
    lemma_two_words(
        before,
        "--diff-from-remote"@,
        value,
        after,
        ValueFlag::DiffFrom,
        "--diff-from-remote="@ + value,
    );
}

/// The words that take the next one as their value are told apart from all others.
proof fn lemma_split_forms()
    ensures
        joined_flag("--table"@) is None,
        joined_flag("-t"@) is None,
        joined_flag("--restore-table-mapping"@) is None,
        joined_flag("--diff-from-remote"@) is None,
        split_flag("--table"@) == Some(ValueFlag::Table),
        split_flag("-t"@) == Some(ValueFlag::Table),
        split_flag("--restore-table-mapping"@) == Some(ValueFlag::Mapping),
        split_flag("--diff-from-remote"@) == Some(ValueFlag::DiffFrom),
{
    reveal_strlit("--table");
    reveal_strlit("-t");
    reveal_strlit("--restore-table-mapping");
    reveal_strlit("--diff-from-remote");
    reveal_strlit("--table=");
    reveal_strlit("-t=");
    reveal_strlit("--restore-table-mapping=");
    reveal_strlit("--diff-from-remote=");
    lemma_prefixes("--restore-table-mapping"@);
    lemma_prefixes("--diff-from-remote"@);
    assert("--table"@.len() == 7 && "-t"@.len() == 2 && "--restore-table-mapping"@.len() == 23
        && "--diff-from-remote"@.len() == 18);
    assert("--table"@[1] == '-');
    assert("--restore-table-mapping"@[2] == 'r');
    assert("--diff-from-remote"@[2] == 'd');
    assert("--table"@[2] == 't');
    if "-t="@.is_prefix_of("--table"@) {
        assert("--table"@.subrange(0, 3)[1] == "--table"@[1]);
    }
    if "-t="@.is_prefix_of("--restore-table-mapping"@) {
        assert("--restore-table-mapping"@.subrange(0, 3)[1] == "--restore-table-mapping"@[1]);
    }
    if "-t="@.is_prefix_of("--diff-from-remote"@) {
        assert("--diff-from-remote"@.subrange(0, 3)[1] == "--diff-from-remote"@[1]);
    }
    if "--table="@.is_prefix_of("--restore-table-mapping"@) {
        assert("--restore-table-mapping"@.subrange(0, 8)[2] == "--restore-table-mapping"@[2]);
    }
    if "--table="@.is_prefix_of("--diff-from-remote"@) {
        assert("--diff-from-remote"@.subrange(0, 8)[2] == "--diff-from-remote"@[2]);
    }
    if "--diff-from-remote="@.is_prefix_of("--restore-table-mapping"@) {
        assert("--restore-table-mapping"@.subrange(0, 19)[2] == "--restore-table-mapping"@[2]);
    }
}

proof fn lemma_two_words(
    before: Seq<Seq<char>>,
    flag_word: Seq<char>,
    value: Seq<char>,
    after: Seq<Seq<char>>,
    flag: ValueFlag,
    joined: Seq<char>,
)
    requires
        self_contained(before),
        joined_flag(flag_word) is None,
        split_flag(flag_word) == Some(flag),
        gives(joined, flag, value),
    ensures
        flags_from(before + seq![flag_word, value] + after, 0, no_flags()) == flags_from(
            before + seq![joined] + after,
            0,
            no_flags(),
        ),
        flags_from(before + seq![flag_word], 0, no_flags()) == flags_from(before, 0, no_flags()),
{
    let f = no_flags();
    let g = flags_from(before, 0, f);
    let two = seq![flag_word, value];
    let one = seq![joined];
    let alone = seq![flag_word];
    assert(before + two + after =~= before + (two + after));
    assert(before + one + after =~= before + (one + after));
    lemma_flags_front(before, two + after, 0, f);
    lemma_flags_front(before, one + after, 0, f);
    lemma_flags_front(before, alone, 0, f);
    lemma_joined_is_read(joined, flag, value);
    let h = with_value(g, flag, value);
    assert((two + after)[0] == flag_word && (two + after)[1] == value);
    assert((one + after)[0] == joined);
    lemma_flags_shift(two, after, 0, h);
    lemma_flags_shift(one, after, 0, h);
    assert(flags_from(two + after, 0, g) == flags_from(two + after, 2, h));
    assert(flags_from(one + after, 0, g) == flags_from(one + after, 1, h));
    assert(flags_from(alone, 0, g) == flags_from(alone, 2, g));
}

proof fn lemma_joined_is_read(word: Seq<char>, flag: ValueFlag, value: Seq<char>)
    requires
        gives(word, flag, value),
    ensures
        joined_flag(word) == Some((flag, value)),
{
    reveal_strlit("--table=");
    reveal_strlit("-t=");
    reveal_strlit("--restore-table-mapping=");
    reveal_strlit("--diff-from-remote=");
    reveal_strlit("--table");
    reveal_strlit("-t");
    reveal_strlit("--restore-table-mapping");
    reveal_strlit("--diff-from-remote");
    lemma_prefixes(word);
    if word == "--table="@ + value {
        assert(word.subrange(0, 8) =~= "--table="@);
        assert(word.skip(8) =~= value);
    } else if flag == ValueFlag::Table {
        assert(word.subrange(0, 3) =~= "-t="@);
        assert(word.skip(3) =~= value);
    } else if flag == ValueFlag::Mapping {
        assert(word.subrange(0, 24) =~= "--restore-table-mapping="@);
        assert(word.skip(24) =~= value);
    } else {
        assert(word.subrange(0, 19) =~= "--diff-from-remote="@);
        assert(word.skip(19) =~= value);
    }
}

// ---------------------------------------------------------------------------
// Mappings
// ---------------------------------------------------------------------------

/// Where a single table is restored under another name, both names get the table's database
/// where they have none; without a single table, and in all other flags, what was said stays.
pub proof fn law_mapping_gets_the_database_of_the_table(
    f: FlagsModel,
    db: Seq<char>,
    table: Seq<char>,
    from: Seq<char>,
    to: Seq<char>,
)
    requires
        db.len() > 0,
        !db.contains('.'),
        forall|i: int|
            0 <= i < db.len() ==> #[trigger] db[i] != '*' && db[i] != '?' && db[i] != ',',
        forall|i: int|
            0 <= i < table.len() ==> #[trigger] table[i] != '*' && table[i] != '?' && table[i]
                != ',',
        unspaced(from),
        unspaced(to),
        !from.contains(','),
        !to.contains(','),
        !from.contains(':'),
    ensures
        ({
            let r = with_database(f);
            let full_from = if from.contains('.') {
                from
            } else {
                db + "."@ + from
            };
            let full_to = if to.contains('.') {
                to
            } else {
                db + "."@ + to
            };
            &&& f.table_pattern == Some(db + "."@ + table) && f.rename_as == Some(from + ":"@ + to)
                ==> r.rename_as == Some(full_from + ":"@ + full_to)
            &&& f.table_pattern is None || f.rename_as is None ==> r == f
            &&& f.table_pattern is Some && (f.table_pattern->0.contains('*')
                || f.table_pattern->0.contains('?') || f.table_pattern->0.contains(',')
                || !f.table_pattern->0.contains('.')) ==> r == f
            &&& f.table_pattern is Some && f.table_pattern->0.len() > 0 && f.table_pattern->0[0]
                == '.' ==> r == f
            &&& r.backup_name == f.backup_name
            &&& r.table_pattern == f.table_pattern
            &&& r.diff_from_remote == f.diff_from_remote
            &&& r.rbac == f.rbac && r.configs == f.configs && r.rm == f.rm
        }),
{
    reveal_strlit(".");
    reveal_strlit(":");
    reveal_strlit(",");
    let pattern = db + "."@ + table;
    let mapping = from + ":"@ + to;
    assert(pattern =~= db + seq!['.'] + table);
    assert(mapping =~= from + seq![':'] + to);
    assert forall|j: int| 0 <= j < pattern.len() implies pattern[j] != '*' && pattern[j] != '?'
        && pattern[j] != ',' by {
        if j < db.len() {
            assert(pattern[j] == db[j]);
        } else if j > db.len() {
            assert(pattern[j] == table[j - db.len() - 1]);
        }
    }
    assert forall|j: int| 0 <= j < db.len() implies pattern[j] != '.' by {
        assert(pattern[j] == db[j]);
    }
    lemma_position_is(pattern, '.', db.len() as int);
    assert(pattern.take(db.len() as int) =~= db);
    assert(concrete_database(pattern) == Some(db));
    if f.table_pattern is Some {
        lemma_position(f.table_pattern->0, '.');
        if f.table_pattern->0.len() > 0 && f.table_pattern->0[0] == '.' {
            lemma_position_is(f.table_pattern->0, '.', 0);
        }
    }
    assert forall|j: int| 0 <= j < mapping.len() implies mapping[j] != ',' by {
        if j < from.len() {
            assert(mapping[j] == from[j]);
            assert(from.contains(from[j]));
        } else if j > from.len() {
            assert(mapping[j] == to[j - from.len() - 1]);
            assert(to.contains(to[j - from.len() - 1]));
        }
    }
    assert(!mapping.contains(','));
    lemma_position(mapping, ',');
    assert(split(mapping, ',') == seq![mapping]);
    law_cut_at_the_first_separator(from, to, ':');
    lemma_unspaced_trim(from);
    lemma_unspaced_trim(to);
    let filled = qualified_pairs(seq![mapping], db);
    assert(filled =~= seq![qualified_pair(mapping, db)]);
    assert(join(filled, ","@) == qualified(from, db) + ":"@ + qualified(to, db));
}

// ---------------------------------------------------------------------------
// Commands
// ---------------------------------------------------------------------------

/// The backup that the words of a command name: the first word that is no flag, or the one
/// that was made up.
pub open spec fn named_in(words: Seq<Seq<char>>, generated: Seq<char>, name: Seq<char>) -> bool {
    ||| exists|k: int|
        0 <= k < words.len() && #[trigger] words[k] == name && is_plain_word(words[k])
            && forall|j: int| 0 <= j < k ==> !is_plain_word(#[trigger] words[j])
    ||| (forall|k: int| 0 <= k < words.len() ==> !is_plain_word(#[trigger] words[k])) && name
        == generated
}

/// A restore as the words of a command ask for it.
pub open spec fn restores_as_told(
    words: Seq<Seq<char>>,
    generated: Seq<char>,
    resume: bool,
    x: RestoreModel,
) -> bool {
    &&& named_in(words, generated, x.backup_name)
    &&& last_value(words, 0, None, x.tables, ValueFlag::Table)
    &&& x.rm <==> has_word(words, "--rm"@) || has_word(words, "--drop"@)
    &&& x.rbac <==> has_word(words, "--rbac"@)
    &&& x.configs <==> has_word(words, "--configs"@)
    &&& x.rename_as is None <==> forall|k: int|
        0 <= k < words.len() ==> !is_mapping_word(#[trigger] words[k])
    &&& (forall|k: int| 0 <= k < words.len() ==> !is_table_word(#[trigger] words[k]))
        ==> last_value(words, 0, None, x.rename_as, ValueFlag::Mapping)
    &&& x.resume == resume
    &&& !x.schema_only && !x.data_only && !x.named_collections && !x.skip_empty_tables
    &&& x.database_mapping is None && x.partitions is None
}

/// A local backup as the words of a command ask for it.
pub open spec fn creates_as_told(
    words: Seq<Seq<char>>,
    generated: Seq<char>,
    skip_projections: Seq<Seq<char>>,
    x: CreateModel,
) -> bool {
    &&& named_in(words, generated, x.backup_name)
    &&& last_value(words, 0, None, x.tables, ValueFlag::Table)
    &&& x.rbac <==> has_word(words, "--rbac"@)
    &&& x.configs <==> has_word(words, "--configs"@)
    &&& x.skip_projections == skip_projections
    &&& !x.schema_only && !x.skip_check_parts_columns && !x.named_collections
    &&& x.diff_from is None && x.partitions is None
}

/// An upload as the words of a command ask for it.
pub open spec fn uploads_as_told(
    words: Seq<Seq<char>>,
    generated: Seq<char>,
    resume: bool,
    x: UploadModel,
) -> bool {
    &&& named_in(words, generated, x.backup_name)
    &&& last_value(words, 0, None, x.diff_from_remote, ValueFlag::DiffFrom)
    &&& x.resume == resume
    &&& !x.delete_local
}

/// A download as the words of a command ask for it.
pub open spec fn downloads_as_told(
    words: Seq<Seq<char>>,
    generated: Seq<char>,
    resume: bool,
    x: DownloadModel,
) -> bool {
    named_in(words, generated, x.backup_name) && x.resume == resume && !x.hardlink_exists_files
}

proof fn lemma_command_flags(op: Seq<char>, words: Seq<Seq<char>>)
    requires
        self_contained(words),
        op != "delete"@,
        op != "clean_broken"@,
    ensures
        ({
            let w = seq![op] + words;
            let f = command_flags(w);
            &&& operation_of(w) == op
            &&& f == with_database(flags_from(words, 0, no_flags()))
            &&& says(words, 0, no_flags(), flags_from(words, 0, no_flags()))
        }),
{
    let w = seq![op] + words;
    lemma_flags_say(words, 0, no_flags());
    assert(w[0] == op);
    if words.len() > 0 {
        assert(w.skip(1) =~= words);
    } else {
        assert(words =~= Seq::<Seq<char>>::empty());
    }
    assert(command_flags(w) == parsed_flags(w));
}

/// What a command does is what its words say: `create`, `upload`, `download`, `restore`,
/// `create_remote` and `restore_remote` work on the backup that the words name, on the tables
/// that they choose, with the mapping, the base and the switches that they give, and with
/// nothing that they do not say.
pub proof fn law_commands_do_what_their_words_say(
    op: Seq<char>,
    words: Seq<Seq<char>>,
    generated: Seq<char>,
    skip_projections: Seq<Seq<char>>,
    resume: bool,
)
    requires
        self_contained(words),
    ensures
        ({
            let w = seq![op] + words;
            let work = command_work(w, command_flags(w), generated, skip_projections, resume);
            &&& op == "create"@ ==> (work matches WorkModel::Create(c) && creates_as_told(
                words,
                generated,
                skip_projections,
                c,
            ))
            &&& op == "upload"@ ==> (work matches WorkModel::Upload(u) && uploads_as_told(
                words,
                generated,
                resume,
                u,
            ))
            &&& op == "download"@ ==> (work matches WorkModel::Download(d) && downloads_as_told(
                words,
                generated,
                resume,
                d,
            ))
            &&& op == "restore"@ ==> (work matches WorkModel::Restore(x) && restores_as_told(
                words,
                generated,
                resume,
                x,
            ))
            &&& op == "create_remote"@ ==> (work matches WorkModel::CreateRemote(c, u)
                && creates_as_told(words, generated, skip_projections, c) && uploads_as_told(
                words,
                generated,
                resume,
                u,
            ) && c.backup_name == u.backup_name)
            &&& op == "restore_remote"@ ==> (work matches WorkModel::RestoreRemote(d, x)
                && downloads_as_told(words, generated, resume, d) && restores_as_told(
                words,
                generated,
                resume,
                x,
            ) && d.backup_name == x.backup_name)
        }),
{
    lemma_operations_differ();
    if op != "delete"@ && op != "clean_broken"@ {
        lemma_command_flags(op, words);
        let f = flags_from(words, 0, no_flags());
        let g = with_database(f);
        assert(g.rename_as is None <==> f.rename_as is None);
        if f.rename_as is Some {
            assert(exists|k: int|
                0 <= k < words.len() && gives(#[trigger] words[k], ValueFlag::Mapping, f.rename_as->0));
            let k = choose|k: int|
                0 <= k < words.len() && gives(#[trigger] words[k], ValueFlag::Mapping, f.rename_as->0);
            assert(!takes_next_word(words[k]));
            lemma_joined_is_read(words[k], ValueFlag::Mapping, f.rename_as->0);
            lemma_word(words[k]);
            assert(is_mapping_word(words[k]));
        } else {
            assert forall|k: int| 0 <= k < words.len() implies !is_mapping_word(
                #[trigger] words[k],
            ) by {
                assert(!is_word_of(words[k], ValueFlag::Mapping));
            }
        }
        if forall|k: int| 0 <= k < words.len() ==> !is_table_word(#[trigger] words[k]) {
            assert(f.table_pattern is None) by {
                if f.table_pattern is Some {
                    let k = choose|k: int|
                        0 <= k < words.len() && gives(
                            #[trigger] words[k],
                            ValueFlag::Table,
                            f.table_pattern->0,
                        );
                    assert(!takes_next_word(words[k]));
                    lemma_joined_is_read(words[k], ValueFlag::Table, f.table_pattern->0);
                    lemma_word(words[k]);
                    assert(is_table_word(words[k]));
                }
            }
            assert(g == f);
        }
        assert(has_word(words, "--rbac"@) <==> f.rbac);
        assert(has_word(words, "--configs"@) <==> f.configs);
        if f.rm {
            let k = choose|k: int|
                0 <= k < words.len() && (#[trigger] words[k] == "--rm"@ || words[k] == "--drop"@);
            assert(has_word(words, "--rm"@) || has_word(words, "--drop"@));
        }
        assert(has_word(words, "--rm"@) || has_word(words, "--drop"@) ==> f.rm);
        let name = match g.backup_name {
            Some(n) => n,
            None => generated,
        };
        assert(named_in(words, generated, name));
    }
}

/// The commands have different names.
pub proof fn lemma_operations_differ()
    ensures
        "create"@ != "upload"@ && "create"@ != "download"@ && "create"@ != "restore"@ && "create"@
            != "create_remote"@ && "create"@ != "restore_remote"@ && "create"@ != "delete"@
            && "create"@ != "clean_broken"@,
        "upload"@ != "download"@ && "upload"@ != "restore"@ && "upload"@ != "create_remote"@
            && "upload"@ != "restore_remote"@ && "upload"@ != "delete"@ && "upload"@
            != "clean_broken"@,
        "download"@ != "restore"@ && "download"@ != "create_remote"@ && "download"@
            != "restore_remote"@ && "download"@ != "delete"@ && "download"@ != "clean_broken"@,
        "restore"@ != "create_remote"@ && "restore"@ != "restore_remote"@ && "restore"@
            != "delete"@ && "restore"@ != "clean_broken"@,
        "create_remote"@ != "restore_remote"@ && "create_remote"@ != "delete"@ && "create_remote"@
            != "clean_broken"@,
        "restore_remote"@ != "delete"@ && "restore_remote"@ != "clean_broken"@,
        "delete"@ != "clean_broken"@,
        "local"@ != "remote"@,
{
    reveal_strlit("create");
    reveal_strlit("upload");
    reveal_strlit("download");
    reveal_strlit("restore");
    reveal_strlit("create_remote");
    reveal_strlit("restore_remote");
    reveal_strlit("delete");
    reveal_strlit("clean_broken");
    reveal_strlit("local");
    reveal_strlit("remote");
    assert("create"@.len() == 6 && "upload"@.len() == 6 && "download"@.len() == 8
        && "restore"@.len() == 7 && "create_remote"@.len() == 13 && "restore_remote"@.len() == 14
        && "delete"@.len() == 6 && "clean_broken"@.len() == 12 && "local"@.len() == 5
        && "remote"@.len() == 6);
    assert("create"@[0] == 'c' && "upload"@[0] == 'u' && "delete"@[0] == 'd');
}

/// A command to restore one table restores that table of the named backup, and drops nothing
/// unless it is told to; so does a command that downloads the backup first.
pub proof fn law_one_table_is_restored(
    table: Seq<char>,
    name: Seq<char>,
    drop_first: bool,
    generated: Seq<char>,
    skip_projections: Seq<Seq<char>>,
    resume: bool,
)
    requires
        is_plain_word(name),
    ensures
        ({
            let words = if drop_first {
                seq!["--table="@ + table, name, "--rm"@]
            } else {
                seq!["--table="@ + table, name]
            };
            let w = seq!["restore"@] + words;
            let v = seq!["restore_remote"@] + words;
            let work = command_work(w, command_flags(w), generated, skip_projections, resume);
            let both = command_work(v, command_flags(v), generated, skip_projections, resume);
            &&& work matches WorkModel::Restore(x) && x.backup_name == name && x.tables == Some(table)
                && x.rm == drop_first && x.rename_as is None
            &&& both matches WorkModel::RestoreRemote(d, x) && d.backup_name == name && x.backup_name
                == name && x.tables == Some(table) && x.rm == drop_first && x.rename_as is None
        }),
{
    let words = if drop_first {
        seq!["--table="@ + table, name, "--rm"@]
    } else {
        seq!["--table="@ + table, name]
    };
    lemma_operations_differ();
    reveal_strlit("--table=");
    reveal_strlit("--table");
    reveal_strlit("-t");
    reveal_strlit("--restore-table-mapping");
    reveal_strlit("--diff-from-remote");
    reveal_strlit("--rm");
    reveal_strlit("--drop");
    let t = "--table="@ + table;
    assert(t[0] == '-' && t[2] == 't' && t.len() >= 8);
    assert("--table"@.len() == 7 && "-t"@.len() == 2 && "--rm"@.len() == 4 && "--drop"@.len() == 6);
    assert("--restore-table-mapping"@[2] == 'r' && "--restore-table-mapping"@[0] == '-');
    assert("--diff-from-remote"@[2] == 'd' && "--diff-from-remote"@[0] == '-');
    assert("--table"@[0] == '-' && "-t"@[0] == '-' && "--rm"@[0] == '-');
    assert("--restore-table-mapping"@.len() == 23 && "--diff-from-remote"@.len() == 18);
    assert(self_contained(words));
    law_commands_do_what_their_words_say("restore"@, words, generated, skip_projections, resume);
    law_commands_do_what_their_words_say(
        "restore_remote"@,
        words,
        generated,
        skip_projections,
        resume,
    );
    lemma_word(t);
    lemma_word(name);
    lemma_prefixes(t);
    lemma_prefixes(name);
    lemma_prefixes("--rm"@);
    lemma_word("--rm"@);
    assert(words[0] == t && words[1] == name);
    assert(is_table_word(t) && !is_table_word(name) && !is_mapping_word(name));
    assert(!is_table_word("--rm"@) && !is_mapping_word("--rm"@));
    assert forall|x: RestoreModel| #[trigger]
        restores_as_told(words, generated, resume, x) implies x.backup_name == name && x.tables
        == Some(table) && x.rm == drop_first && x.rename_as is None by {
        assert(is_word_of(words[0], ValueFlag::Table));
        let k = choose|k: int|
            0 <= k < words.len() && x.tables is Some && gives(
                #[trigger] words[k],
                ValueFlag::Table,
                x.tables->0,
            ) && forall|j: int|
                k < j < words.len() ==> !is_word_of(#[trigger] words[j], ValueFlag::Table);
        lemma_joined_is_read(words[k], ValueFlag::Table, x.tables->0);
        assert(!takes_next_word(words[k]));
        lemma_word(words[k]);
        assert(k == 0);
        assert(joined_flag(t) == Some((ValueFlag::Table, table)));
        assert(!is_plain_word(words[0]));
        assert(is_plain_word(words[1]));
        if drop_first {
            assert(words[2] == "--rm"@);
            assert(has_word(words, "--rm"@));
        } else {
            assert(!has_word(words, "--rm"@) && !has_word(words, "--drop"@)) by {
                if has_word(words, "--rm"@) {
                    let k = choose|k: int| 0 <= k < words.len() && #[trigger] words[k] == "--rm"@;
                    assert(words[k] == t || words[k] == name);
                }
                if has_word(words, "--drop"@) {
                    let k = choose|k: int| 0 <= k < words.len() && #[trigger] words[k] == "--drop"@;
                    assert(words[k] == t || words[k] == name);
                    assert("--drop"@[0] == '-');
                }
            }
        }
        assert forall|k: int| 0 <= k < words.len() implies !is_mapping_word(#[trigger] words[k]) by {
            assert(words[k] == t || words[k] == name || words[k] == "--rm"@);
        }
    }
}

/// A command to delete deletes the backup that it names, in the place that it names or else
/// the remote one, and nothing where the place is none. A command to delete broken backups
/// does so in the place that it names, or in both.
pub proof fn law_commands_delete_what_they_name(
    location: Seq<char>,
    name: Seq<char>,
    more: Seq<Seq<char>>,
    generated: Seq<char>,
    skip_projections: Seq<Seq<char>>,
    resume: bool,
)
    ensures
        ({
            let w = seq!["delete"@, location, name] + more;
            let work = command_work(w, command_flags(w), generated, skip_projections, resume);
            &&& location == "local"@ ==> work == WorkModel::DeleteLocal(name)
            &&& location == "remote"@ ==> work == WorkModel::DeleteRemote(name)
            &&& location != "local"@ && location != "remote"@ ==> work is Refuse
            &&& locked_name(w) == Some(name)
        }),
        ({
            let w = seq!["delete"@, name];
            let work = command_work(w, command_flags(w), generated, skip_projections, resume);
            work == WorkModel::DeleteRemote(name) && locked_name(w) == Some(name)
        }),
        ({
            let w = seq!["clean_broken"@, location] + more;
            let work = command_work(w, command_flags(w), generated, skip_projections, resume);
            &&& location == "local"@ ==> work == WorkModel::CleanBrokenLocal
            &&& location == "remote"@ ==> work == WorkModel::CleanBrokenRemote
            &&& location != "local"@ && location != "remote"@ ==> work
                == WorkModel::CleanBrokenBoth
        }),
        ({
            let w = seq!["clean_broken"@];
            command_work(w, command_flags(w), generated, skip_projections, resume)
                == WorkModel::CleanBrokenBoth
        }),
{
    lemma_operations_differ();
    let w1 = seq!["delete"@, location, name] + more;
    assert(w1[0] == "delete"@ && w1[1] == location && w1[2] == name);
    assert(word_at(w1, 1) == Some(location) && word_at(w1, 2) == Some(name));
    let w2 = seq!["delete"@, name];
    assert(word_at(w2, 1) == Some(name) && word_at(w2, 2) is None);
    let w3 = seq!["clean_broken"@, location] + more;
    assert(w3[0] == "clean_broken"@ && w3[1] == location);
    assert(word_at(w3, 1) == Some(location));
    let w4 = seq!["clean_broken"@];
    assert(word_at(w4, 1) is None);
}

/// A command is accepted just where its first word is one of the eight commands and its names
/// are names of backups: a new backup may not have a name that stands for another, and a
/// command to delete names more than a place.
pub proof fn law_commands_are_accepted_by_their_names(op: Seq<char>, words: Seq<Seq<char>>)
    ensures
        ({
            let w = seq![op] + words;
            let name = command_flags(w).backup_name;
            let valid = name is None || name_fault(name->0) is None;
            &&& command_fault(w) is None ==> op == "create"@ || op == "upload"@ || op == "download"@
                || op == "restore"@ || op == "create_remote"@ || op == "restore_remote"@ || op
                == "delete"@ || op == "clean_broken"@
            &&& command_fault(w) is None ==> valid
            &&& op == "upload"@ || op == "download"@ || op == "restore"@ || op == "restore_remote"@
                || op == "clean_broken"@ ==> (command_fault(w) is None <==> valid)
            &&& op == "create"@ || op == "create_remote"@ ==> (command_fault(w) is None <==> valid
                && name != Some("latest"@) && name != Some("previous"@))
            &&& op == "delete"@ && words.len() == 2 ==> (command_fault(w) is None <==> name_fault(
                words[0],
            ) is None && name_fault(words[1]) is None)
            &&& op == "delete"@ && words.len() == 1 ==> (command_fault(w) is None <==> name_fault(
                words[0],
            ) is None && words[0] != "local"@ && words[0] != "remote"@)
        }),
{
    lemma_operations_differ();
    let w = seq![op] + words;
    assert(w[0] == op);
    if words.len() >= 1 {
        assert(w[1] == words[0]);
    }
    if words.len() >= 2 {
        assert(w[2] == words[1]);
    }
}

/// While a command runs, no other operation works on the backup that it names: the one that
/// its words name, for a command to delete the one that it deletes, and none where it names
/// none.
pub proof fn law_commands_keep_others_off_their_backup(op: Seq<char>, words: Seq<Seq<char>>)
    requires
        self_contained(words),
        op != "delete"@,
        op != "clean_broken"@,
    ensures
        ({
            let locked = locked_name(seq![op] + words);
            &&& locked is None <==> forall|k: int|
                0 <= k < words.len() ==> !is_plain_word(#[trigger] words[k])
            &&& locked is Some ==> exists|k: int|
                0 <= k < words.len() && #[trigger] words[k] == locked->0 && is_plain_word(words[k])
                    && forall|j: int| 0 <= j < k ==> !is_plain_word(#[trigger] words[j])
        }),
{
    lemma_command_flags(op, words);
}

/// A command is refused with the reason: that it is none, that a name in it is none or stands
/// for another backup, or that a command to delete names no backup.
pub proof fn law_refused_commands_are_told_why(op: Seq<char>, words: Seq<Seq<char>>)
    ensures
        ({
            let w = seq![op] + words;
            let name = command_flags(w).backup_name;
            let known = op == "create"@ || op == "upload"@ || op == "download"@ || op == "restore"@
                || op == "create_remote"@ || op == "restore_remote"@ || op == "delete"@ || op
                == "clean_broken"@;
            &&& !known ==> command_fault(w) == Some("unknown command: '"@ + op + "'"@)
            &&& known && name is Some && name_fault(name->0) is Some ==> command_fault(w) == Some(
                "invalid backup name: "@ + name_fault(name->0)->0,
            )
            &&& op == "delete"@ && words.len() == 1 && (words[0] == "local"@ || words[0]
                == "remote"@) && name_fault(words[0]) is None ==> command_fault(w) == Some(
                "delete: missing backup name (usage: delete [local|remote] <name>)"@,
            )
            &&& (op == "create"@ || op == "create_remote"@) && (name == Some("latest"@) || name
                == Some("previous"@)) && name_fault(name->0) is None ==> command_fault(w) == Some(
                "invalid backup name: "@
                    + "backup name must not be a reserved shortcut ('latest' or 'previous')"@,
            )
        }),
{
    lemma_operations_differ();
    let w = seq![op] + words;
    assert(w[0] == op);
    if words.len() >= 1 {
        assert(w[1] == words[0]);
    }
}

/// A command with the value of a flag as the next word does what it does with the value
/// behind an equals sign.
pub proof fn law_both_forms_of_a_flag_do_the_same(
    op: Seq<char>,
    before: Seq<Seq<char>>,
    value: Seq<char>,
    after: Seq<Seq<char>>,
    generated: Seq<char>,
    skip_projections: Seq<Seq<char>>,
    resume: bool,
)
    requires
        self_contained(before),
        op != "delete"@,
        op != "clean_broken"@,
    ensures
        ({
            let joined = seq![op] + (before + seq!["--table="@ + value] + after);
            let next_word = seq![op] + (before + seq!["--table"@, value] + after);
            let short = seq![op] + (before + seq!["-t"@, value] + after);
            let work = command_work(
                joined,
                command_flags(joined),
                generated,
                skip_projections,
                resume,
            );
            &&& command_work(
                next_word,
                command_flags(next_word),
                generated,
                skip_projections,
                resume,
            ) == work
            &&& command_work(short, command_flags(short), generated, skip_projections, resume)
                == work
        }),
        ({
            let joined = seq![op] + (before + seq!["--restore-table-mapping="@ + value] + after);
            let next_word = seq![op] + (before + seq!["--restore-table-mapping"@, value] + after);
            command_work(
                next_word,
                command_flags(next_word),
                generated,
                skip_projections,
                resume,
            ) == command_work(joined, command_flags(joined), generated, skip_projections, resume)
        }),
        ({
            let joined = seq![op] + (before + seq!["--diff-from-remote="@ + value] + after);
            let next_word = seq![op] + (before + seq!["--diff-from-remote"@, value] + after);
            command_work(
                next_word,
                command_flags(next_word),
                generated,
                skip_projections,
                resume,
            ) == command_work(joined, command_flags(joined), generated, skip_projections, resume)
        }),
{
    law_values_may_follow_as_words(before, value, after);
    lemma_flags_of_words(op, before + seq!["--table="@ + value] + after);
    lemma_flags_of_words(op, before + seq!["--table"@, value] + after);
    lemma_flags_of_words(op, before + seq!["-t"@, value] + after);
    lemma_flags_of_words(op, before + seq!["--restore-table-mapping="@ + value] + after);
    lemma_flags_of_words(op, before + seq!["--restore-table-mapping"@, value] + after);
    lemma_flags_of_words(op, before + seq!["--diff-from-remote="@ + value] + after);
    lemma_flags_of_words(op, before + seq!["--diff-from-remote"@, value] + after);
}

proof fn lemma_flags_of_words(op: Seq<char>, words: Seq<Seq<char>>)
    requires
        op != "delete"@,
        op != "clean_broken"@,
    ensures
        operation_of(seq![op] + words) == op,
        command_flags(seq![op] + words) == with_database(flags_from(words, 0, no_flags())),
{
    let w = seq![op] + words;
    assert(w[0] == op);
    if words.len() > 0 {
        assert(w.skip(1) =~= words);
    } else {
        assert(words =~= Seq::<Seq<char>>::empty());
    }
}

/// A command to restore one table under another name restores it so, within the database of
/// the table.
pub proof fn law_one_table_is_restored_under_another_name(
    db: Seq<char>,
    table: Seq<char>,
    from: Seq<char>,
    to: Seq<char>,
    name: Seq<char>,
    generated: Seq<char>,
    skip_projections: Seq<Seq<char>>,
    resume: bool,
)
    requires
        is_plain_word(name),
        db.len() > 0,
        !db.contains('.'),
        forall|i: int|
            0 <= i < db.len() ==> #[trigger] db[i] != '*' && db[i] != '?' && db[i] != ',',
        forall|i: int|
            0 <= i < table.len() ==> #[trigger] table[i] != '*' && table[i] != '?' && table[i]
                != ',',
        unspaced(from),
        unspaced(to),
        !from.contains(','),
        !to.contains(','),
        !from.contains(':'),
        !from.contains('.'),
        !to.contains('.'),
    ensures
        ({
            let words = seq![
                "--table="@ + (db + "."@ + table),
                "--restore-table-mapping="@ + (from + ":"@ + to),
                name,
            ];
            let w = seq!["restore"@] + words;
            let v = seq!["restore_remote"@] + words;
            let work = command_work(w, command_flags(w), generated, skip_projections, resume);
            let both = command_work(v, command_flags(v), generated, skip_projections, resume);
            let renamed = db + "."@ + from + ":"@ + (db + "."@ + to);
            &&& work matches WorkModel::Restore(x) && x.backup_name == name && x.tables == Some(
                db + "."@ + table,
            ) && x.rename_as == Some(renamed)
            &&& both matches WorkModel::RestoreRemote(d, x) && d.backup_name == name
                && x.backup_name == name && x.tables == Some(db + "."@ + table) && x.rename_as
                == Some(renamed)
        }),
{
    let pattern = db + "."@ + table;
    let mapping = from + ":"@ + to;
    let a = "--table="@ + pattern;
    let b = "--restore-table-mapping="@ + mapping;
    let words = seq![a, b, name];
    lemma_operations_differ();
    lemma_flags_of_words("restore"@, words);
    lemma_flags_of_words("restore_remote"@, words);
    lemma_joined_is_read(a, ValueFlag::Table, pattern);
    lemma_joined_is_read(b, ValueFlag::Mapping, mapping);
    reveal_strlit("--table");
    reveal_strlit("-t");
    reveal_strlit("--restore-table-mapping");
    reveal_strlit("--diff-from-remote");
    reveal_strlit("--rm");
    reveal_strlit("--drop");
    reveal_strlit("--rbac");
    reveal_strlit("--configs");
    assert("--table"@[0] == '-' && "-t"@[0] == '-' && "--restore-table-mapping"@[0] == '-'
        && "--diff-from-remote"@[0] == '-');
    assert("--rm"@[0] == '-' && "--drop"@[0] == '-' && "--rbac"@[0] == '-' && "--configs"@[0]
        == '-');
    assert("--table"@.len() > 0 && "-t"@.len() > 0 && "--restore-table-mapping"@.len() > 0
        && "--diff-from-remote"@.len() > 0 && "--rm"@.len() > 0 && "--drop"@.len() > 0
        && "--rbac"@.len() > 0 && "--configs"@.len() > 0);
    assert(!takes_next_word(name));
    lemma_word(name);
    let f0 = no_flags();
    let f1 = FlagsModel { table_pattern: Some(pattern), ..f0 };
    let f2 = FlagsModel { rename_as: Some(mapping), ..f1 };
    let f3 = FlagsModel { backup_name: Some(name), ..f2 };
    assert(words[0] == a && words[1] == b && words[2] == name);
    assert(flags_from(words, 3, f3) == f3);
    assert(flags_from(words, 2, f2) == flags_from(words, 3, f3));
    assert(flags_from(words, 1, f1) == flags_from(words, 2, f2));
    assert(flags_from(words, 0, f0) == flags_from(words, 1, f1));
    law_mapping_gets_the_database_of_the_table(f3, db, table, from, to);
}

/// A pair of tables in a mapping is read without the blanks around its names, each of which
/// gets the database where it has none; what is no pair stays as it is. The pairs of a
/// mapping are filled in one by one.
pub proof fn law_pairs_of_a_mapping_are_filled_in(
    from: Seq<char>,
    to: Seq<char>,
    a: Seq<char>,
    b: Seq<char>,
    db: Seq<char>,
)
    requires
        !from.contains(':'),
    ensures
        qualified_pair(from + seq![':'] + to, db) == (if trim(from).contains('.') {
            trim(from)
        } else {
            db + "."@ + trim(from)
        }) + ":"@ + (if trim(to).contains('.') {
            trim(to)
        } else {
            db + "."@ + trim(to)
        }),
        qualified_pair(from, db) == from,
        join(qualified_pairs(split(a + seq![','] + b, ','), db), ","@) == join(
            qualified_pairs(split(a, ','), db),
            ","@,
        ) + ","@ + join(qualified_pairs(split(b, ','), db), ","@),
{
    law_cut_at_the_first_separator(from, to, ':');
    lemma_position(from, ':');
    lemma_split_concat(a, b, ',');
    let x = split(a, ',');
    let y = split(b, ',');
    assert(qualified_pairs(x + y, db) =~= qualified_pairs(x, db) + qualified_pairs(y, db));
    lemma_split_has_pieces(a);
    lemma_split_has_pieces(b);
    lemma_join_concat(qualified_pairs(x, db), qualified_pairs(y, db));
}

proof fn lemma_split_has_pieces(s: Seq<char>)
    ensures
        split(s, ',').len() > 0,
{
    lemma_position(s, ',');
}

proof fn lemma_join_concat(x: Seq<Seq<char>>, y: Seq<Seq<char>>)
    requires
        x.len() > 0,
        y.len() > 0,
    ensures
        join(x + y, ","@) == join(x, ","@) + ","@ + join(y, ","@),
    decreases y.len(),
{
    let all = x + y;
    if y.len() == 1 {
        assert(all.drop_last() =~= x);
        assert(all.last() == y[0]);
    } else {
        let init = y.drop_last();
        lemma_join_concat(x, init);
        assert(all.drop_last() =~= x + init);
        assert(all.last() == y.last());
        assert(join(x, ","@) + ","@ + join(init, ","@) + ","@ + y.last() =~= join(x, ","@) + ","@
            + (join(init, ","@) + ","@ + y.last()));
    }
}

} // verus!
