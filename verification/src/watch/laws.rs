//! What the names, the kinds and the steps of the watch loop have to do with one another.

use vstd::prelude::*;

use crate::list::BackupSummary;
use crate::manifest::lookup;
use crate::table_filter::{double_star, simple_match, simple_valid, valid_rest};
use crate::text::{has_text, lemma_position, lemma_position_is, position, text_at};
use crate::time::{strftime_text, Timestamp};
use crate::watch::resume::{
    law_backups_are_due_by_their_ages, made_as, made_as_either, names_told_alike, told_kinds,
    ResumeDecision,
};
use crate::watch::template::{
    backup_kind, could_be, escaped, escaped_text, expanded, followed, resolved, static_prefix,
    type_glob,
};
use crate::watch::{
    after_error, after_success, decides, sleeps, too_many_errors, WatchModel, WatchSettings,
    WatchState, WatchStep,
};

verus! {

// ---------------------------------------------------------------------------
// Names
// ---------------------------------------------------------------------------

/// The value that the entries give first for the name.
pub open spec fn first_given(
    entries: Seq<(Seq<char>, Seq<char>)>,
    name: Seq<char>,
    value: Seq<char>,
) -> bool {
    exists|k: int|
        0 <= k < entries.len() && (#[trigger] entries[k]).0 == name && entries[k].1 == value
            && forall|j: int| 0 <= j < k ==> (#[trigger] entries[j]).0 != name
}

/// The entries give no value for the name.
pub open spec fn not_given(entries: Seq<(Seq<char>, Seq<char>)>, name: Seq<char>) -> bool {
    forall|k: int| 0 <= k < entries.len() ==> (#[trigger] entries[k]).0 != name
}

/// The first entry of a name gives its value, and only a name without an entry has none.
pub proof fn law_first_entry_gives_the_value(
    entries: Seq<(Seq<char>, Seq<char>)>,
    name: Seq<char>,
)
    ensures
        match lookup(entries, name) {
            Some(value) => first_given(entries, name, value),
            None => not_given(entries, name),
        },
    decreases entries.len(),
{
    if entries.len() > 0 && entries[0].0 != name {
        let rest = entries.skip(1);
        law_first_entry_gives_the_value(rest, name);
        match lookup(rest, name) {
            Some(value) => {
                let k = choose|k: int|
                    0 <= k < rest.len() && (#[trigger] rest[k]).0 == name && rest[k].1 == value
                        && forall|j: int| 0 <= j < k ==> (#[trigger] rest[j]).0 != name;
                assert(entries[k + 1] == rest[k]);
                assert forall|j: int| 0 <= j < k + 1 implies (#[trigger] entries[j]).0 != name by {
                    if j > 0 {
                        assert(entries[j] == rest[j - 1]);
                    }
                }
            },
            None => {
                assert forall|j: int| 0 <= j < entries.len() implies (#[trigger] entries[j]).0
                    != name by {
                    if j > 0 {
                        assert(entries[j] == rest[j - 1]);
                    }
                }
            },
        }
    } else if entries.len() > 0 {
        assert(entries[0].0 == name);
    }
}

proof fn lemma_resolved_after_text(
    before: Seq<char>,
    rest: Seq<char>,
    kind: Seq<char>,
    now: Timestamp,
    macros: Seq<(Seq<char>, Seq<char>)>,
)
    requires
        !before.contains('{'),
    ensures
        resolved(before + rest, kind, now, macros) == followed(
            before,
            resolved(rest, kind, now, macros),
        ),
    decreases before.len(),
{
    if before.len() == 0 {
        assert(before + rest =~= rest);
        if let Some(t) = resolved(rest, kind, now, macros) {
            assert(before + t =~= t);
        }
    } else {
        let whole = before + rest;
        let tail = before.skip(1);
        assert(before.contains(before[0]));
        assert forall|i: int| 0 <= i < tail.len() implies tail[i] != '{' by {
            assert(tail[i] == before[i + 1]);
        }
        lemma_resolved_after_text(tail, rest, kind, now, macros);
        assert(whole[0] == before[0]);
        assert(whole.skip(1) =~= tail + rest);
        if let Some(t) = resolved(rest, kind, now, macros) {
            assert(seq![before[0]] + (tail + t) =~= before + t);
        }
    }
}

/// In the name of a backup each placeholder of the template is filled in where it stands:
/// `{type}` with the kind of the backup, `{time:FORMAT}` with the time in the format, `{name}`
/// with the value that the macros give first for the name. A placeholder for which there is
/// none stays as it is, and so does all that is no placeholder.
pub proof fn law_placeholders_are_filled_in(
    before: Seq<char>,
    content: Seq<char>,
    after: Seq<char>,
    kind: Seq<char>,
    now: Timestamp,
    macros: Seq<(Seq<char>, Seq<char>)>,
)
    requires
        !before.contains('{'),
        !content.contains('}'),
    ensures
        ({
            let name = resolved(before + "{"@ + content + "}"@ + after, kind, now, macros);
            let rest = resolved(after, kind, now, macros);
            let time = strftime_text(now.unix_secs(), now.unix_nanos(), content.skip(5));
            &&& rest is None ==> name is None
            &&& rest is Some && content == "type"@ ==> name == Some(before + kind + rest->0)
            &&& rest is Some && "time:"@.is_prefix_of(content) && time is Some ==> name == Some(
                before + time->0 + rest->0,
            )
            &&& "time:"@.is_prefix_of(content) && time is None ==> name is None
            &&& rest is Some && content != "type"@ && !"time:"@.is_prefix_of(content) && not_given(
                macros,
                content,
            ) ==> name == Some(before + "{"@ + content + "}"@ + rest->0)
            &&& forall|value: Seq<char>|
                rest is Some && content != "type"@ && !"time:"@.is_prefix_of(content)
                    && #[trigger] first_given(macros, content, value) ==> name == Some(
                    before + value + rest->0,
                )
        }),
{
    reveal_strlit("{");
    reveal_strlit("}");
    reveal_strlit("type");
    reveal_strlit("time:");
    let whole = before + "{"@ + content + "}"@ + after;
    let tail = "{"@ + content + "}"@ + after;
    assert(whole =~= before + tail);
    lemma_resolved_after_text(before, tail, kind, now, macros);
    let inner = tail.skip(1);
    assert(tail[0] == '{');
    assert(inner =~= content + "}"@ + after);
    assert forall|j: int| 0 <= j < content.len() implies inner[j] != '}' by {
        assert(inner[j] == content[j]);
        assert(content.contains(content[j]));
    }
    assert(inner[content.len() as int] == '}');
    lemma_position_is(inner, '}', content.len() as int);
    assert(inner.take(content.len() as int) =~= content);
    assert(inner.skip(content.len() as int + 1) =~= after);
    law_first_entry_gives_the_value(macros, content);
    assert("type"@.len() == 4 && "time:"@.len() == 5);
    let rest = resolved(after, kind, now, macros);
    assert(resolved(tail, kind, now, macros) == match expanded(content, kind, now, macros) {
        Some(text) => followed(text, rest),
        None => None,
    });
    if let Some(t) = rest {
        if let Some(text) = expanded(content, kind, now, macros) {
            assert(before + (text + t) =~= before + text + t);
        }
        assert(before + ("{"@ + content + "}"@) + t =~= before + "{"@ + content + "}"@ + t);
        assert forall|value: Seq<char>| #[trigger] first_given(macros, content, value) implies lookup(
            macros,
            content,
        ) == Some(value) by {
            let k = choose|k: int|
                0 <= k < macros.len() && (#[trigger] macros[k]).0 == content && macros[k].1 == value
                    && forall|j: int| 0 <= j < k ==> (#[trigger] macros[j]).0 != content;
            match lookup(macros, content) {
                Some(v) => {
                    let i = choose|i: int|
                        0 <= i < macros.len() && (#[trigger] macros[i]).0 == content && macros[i].1
                            == v && forall|j: int| 0 <= j < i ==> (#[trigger] macros[j]).0
                            != content;
                    assert(i == k);
                },
                None => {
                    assert(macros[k].0 != content);
                },
            }
        }
    }
}

/// A brace that is not closed stays as it is, with all that follows.
pub proof fn law_open_brace_stays(
    before: Seq<char>,
    rest: Seq<char>,
    kind: Seq<char>,
    now: Timestamp,
    macros: Seq<(Seq<char>, Seq<char>)>,
)
    requires
        !before.contains('{'),
        !rest.contains('}'),
    ensures
        resolved(before + "{"@ + rest, kind, now, macros) == Some(before + "{"@ + rest),
{
    reveal_strlit("{");
    let tail = "{"@ + rest;
    assert(before + "{"@ + rest =~= before + tail);
    lemma_resolved_after_text(before, tail, kind, now, macros);
    assert(tail.skip(1) =~= rest);
    lemma_position(rest, '}');
}

/// The names of a loop are known by the part of the template before its first brace, or by
/// the whole template where it has none.
pub proof fn law_prefix_ends_at_the_first_brace(before: Seq<char>, rest: Seq<char>)
    requires
        !before.contains('{'),
    ensures
        static_prefix(before + "{"@ + rest) == before,
        static_prefix(before) == before,
{
    reveal_strlit("{");
    let whole = before + "{"@ + rest;
    assert forall|j: int| 0 <= j < before.len() implies whole[j] != '{' && before[j] != '{' by {
        assert(whole[j] == before[j]);
        assert(before.contains(before[j]));
    }
    lemma_position_is(whole, '{', before.len() as int);
    lemma_position_is(before, '{', before.len() as int);
    assert(whole.take(before.len() as int) =~= before);
    assert(before.take(before.len() as int) =~= before);
}

// ---------------------------------------------------------------------------
// Kinds
// ---------------------------------------------------------------------------

/// A literal character matches itself and nothing else.
proof fn lemma_literal_is_itself(c: char, g: Seq<char>, n: Seq<char>, starts: bool)
    ensures
        simple_match(escaped(c) + g, n) <==> n.len() > 0 && n[0] == c && simple_match(g, n.skip(1)),
        valid_rest(escaped(c) + g, starts) == valid_rest(g, c == '/'),
{
    let p = escaped(c) + g;
    assert(!double_star(p));
    if escaped(c).len() == 3 {
        assert(p.skip(3) =~= g);
        assert(p[0] == '[' && p[1] == c);
    } else {
        assert(p.skip(1) =~= g);
        assert(p[0] == c);
    }
}

/// A literal text matches itself and nothing else.
proof fn lemma_text_is_itself(s: Seq<char>, g: Seq<char>, n: Seq<char>, starts: bool)
    requires
        s.len() > 0,
    ensures
        simple_match(escaped_text(s) + g, n) <==> s.is_prefix_of(n) && simple_match(
            g,
            n.skip(s.len() as int),
        ),
        valid_rest(escaped_text(s) + g, starts) == valid_rest(g, s.last() == '/'),
    decreases s.len(),
{
    let init = s.drop_last();
    let c = s.last();
    let g1 = escaped(c) + g;
    assert(escaped_text(s) + g =~= escaped_text(init) + g1);
    if init.len() == 0 {
        assert(escaped_text(init) + g1 =~= g1);
        lemma_literal_is_itself(c, g, n, starts);
        assert(s =~= seq![c]);
        if n.len() > 0 && n[0] == c {
            assert(n.subrange(0, 1) =~= s);
        }
        if s.is_prefix_of(n) {
            assert(n[0] == s[0]);
        }
    } else {
        let k = init.len() as int;
        lemma_text_is_itself(init, g1, n, starts);
        lemma_literal_is_itself(c, g, n.skip(k), init.last() == '/');
        if init.is_prefix_of(n) && n.len() > k {
            assert(n.skip(k)[0] == n[k]);
            assert(n.skip(k).skip(1) =~= n.skip(k + 1));
            if n[k] == c {
                assert(n.subrange(0, k + 1) =~= s);
            }
        }
        if s.is_prefix_of(n) {
            assert(n.subrange(0, k) =~= init) by {
                assert(n.subrange(0, k + 1) =~= s);
            }
            assert(n[k] == c);
        }
    }
}

proof fn lemma_glob_after_text(before: Seq<char>, rest: Seq<char>, kind: Seq<char>)
    requires
        !before.contains('{'),
    ensures
        type_glob(before + rest, kind) == escaped_text(before) + type_glob(rest, kind),
    decreases before.len(),
{
    if before.len() == 0 {
        assert(before + rest =~= rest);
        assert(escaped_text(before) + type_glob(rest, kind) =~= type_glob(rest, kind));
    } else {
        let init = before.drop_last();
        let c = before.last();
        assert(before.contains(c));
        assert forall|i: int| 0 <= i < init.len() implies init[i] != '{' by {
            assert(init[i] == before[i]);
        }
        let one = seq![c] + rest;
        assert(before + rest =~= init + one);
        lemma_glob_after_text(init, one, kind);
        assert(one[0] == c);
        assert(one.skip(1) =~= rest);
        assert(escaped_text(init) + (escaped(c) + type_glob(rest, kind)) =~= escaped_text(init)
            + escaped(c) + type_glob(rest, kind));
    }
}

proof fn lemma_glob_of_placeholder(content: Seq<char>, after: Seq<char>, kind: Seq<char>)
    requires
        !content.contains('}'),
        !content.contains(':') || !"type"@.is_prefix_of(content),
    ensures
        type_glob("{"@ + content + "}"@ + after, kind) == (if content == "type"@ {
            escaped_text(kind)
        } else {
            seq!['*']
        }) + type_glob(after, kind),
{
    reveal_strlit("{");
    reveal_strlit("}");
    reveal_strlit("type");
    let tail = "{"@ + content + "}"@ + after;
    let inner = tail.skip(1);
    assert(tail[0] == '{');
    assert(inner =~= content + "}"@ + after);
    assert forall|j: int| 0 <= j < content.len() implies inner[j] != '}' by {
        assert(inner[j] == content[j]);
        assert(content.contains(content[j]));
    }
    assert(inner[content.len() as int] == '}');
    lemma_position_is(inner, '}', content.len() as int);
    assert(inner.take(content.len() as int) =~= content);
    assert(inner.skip(content.len() as int + 1) =~= after);
    lemma_position(content, ':');
    let key = content.take(position(content, ':') as int);
    if !content.contains(':') {
        assert(key =~= content);
    } else if key == "type"@ {
        assert(content.subrange(0, 4) =~= key);
        assert("type"@.is_prefix_of(content));
    }
    if content == "type"@ {
        if content.contains(':') {
            assert(content.subrange(0, 4) =~= content);
        }
    }
}

/// Where the template is a text with `{type}` in it, a backup is full just where its name is
/// the text with `full` in that place, and incremental just where it is the text with `incr`.
/// All other characters stand for themselves.
pub proof fn law_kind_is_read_from_its_place(before: Seq<char>, after: Seq<char>, name: Seq<char>)
    requires
        !before.contains('{'),
        !after.contains('{'),
    ensures
        ({
            let kind = backup_kind(before + "{type}"@ + after, name);
            &&& kind == Some("full"@) <==> name == before + "full"@ + after
            &&& kind == Some("incr"@) <==> name == before + "incr"@ + after
            &&& kind is None <==> name != before + "full"@ + after && name != before + "incr"@ + after
        }),
{
    lemma_kind_text();
    reveal_strlit("full");
    reveal_strlit("incr");
    assert("full"@[0] != "incr"@[0]);
    lemma_fits_text(before, after, name, "full"@);
    lemma_fits_text(before, after, name, "incr"@);
    lemma_has_type(before, after);
    let f = before + "full"@ + after;
    let i = before + "incr"@ + after;
    assert(f[before.len() as int] == 'f' && i[before.len() as int] == 'i');
}

/// Where a time or another placeholder ends the template, a backup is full just where its
/// name starts with what stands before that, with `full` for `{type}`; likewise `incr`.
pub proof fn law_kind_is_read_before_the_time(
    before: Seq<char>,
    between: Seq<char>,
    content: Seq<char>,
    name: Seq<char>,
)
    requires
        !before.contains('{'),
        !between.contains('{'),
        !content.contains('}'),
        !"type"@.is_prefix_of(content),
    ensures
        ({
            let kind = backup_kind(
                before + "{type}"@ + between + "{"@ + content + "}"@,
                name,
            );
            &&& kind == Some("full"@) <==> (before + "full"@ + between).is_prefix_of(name)
            &&& kind == Some("incr"@) <==> (before + "incr"@ + between).is_prefix_of(name)
            &&& kind is None <==> !(before + "full"@ + between).is_prefix_of(name) && !(before
                + "incr"@ + between).is_prefix_of(name)
        }),
{
    reveal_strlit("full");
    reveal_strlit("incr");
    reveal_strlit("{");
    reveal_strlit("}");
    reveal_strlit("type");
    let tail = between + "{"@ + content + "}"@;
    assert(before + "{type}"@ + between + "{"@ + content + "}"@ =~= before + "{type}"@ + tail);
    assert(tail =~= between + ("{"@ + content + "}"@ + Seq::<char>::empty()));
    lemma_fits_open(before, between, content, name, "full"@);
    lemma_fits_open(before, between, content, name, "incr"@);
    lemma_has_type(before, tail);
    let f = before + "full"@ + between;
    let i = before + "incr"@ + between;
    let k = before.len() as int;
    assert(f[k] == 'f' && i[k] == 'i');
    if f.is_prefix_of(name) && i.is_prefix_of(name) {
        assert(name[k] == f[k]);
        assert(name[k] == i[k]);
    }
}

proof fn lemma_kind_text()
    ensures
        "{type}"@ == "{"@ + "type"@ + "}"@,
{
    reveal_strlit("{");
    reveal_strlit("}");
    reveal_strlit("type");
    reveal_strlit("{type}");
    assert("{type}"@ =~= "{"@ + "type"@ + "}"@);
}

proof fn lemma_has_type(before: Seq<char>, after: Seq<char>)
    ensures
        has_text(before + "{type}"@ + after, "{type}"@),
{
    let whole = before + "{type}"@ + after;
    let k = before.len() as int;
    assert(whole.subrange(k, k + "{type}"@.len()) =~= "{type}"@);
    assert(text_at(whole, "{type}"@, k));
}

proof fn lemma_fits_text(before: Seq<char>, after: Seq<char>, name: Seq<char>, kind: Seq<char>)
    requires
        !before.contains('{'),
        !after.contains('{'),
        kind.len() > 0,
    ensures
        could_be(before + "{type}"@ + after, name, kind) <==> name == before + kind + after,
{
    reveal_strlit("type");
    let empty = Seq::<char>::empty();
    lemma_kind_text();
    let tail = "{"@ + "type"@ + "}"@ + after;
    assert(before + "{type}"@ + after =~= before + tail);
    lemma_glob_after_text(before, tail, kind);
    lemma_glob_of_placeholder("type"@, after, kind);
    assert(after =~= after + empty);
    lemma_glob_after_text(after, empty, kind);
    assert(type_glob(empty, kind) =~= empty);
    let g = escaped_text(after) + empty;
    let p = type_glob(before + "{type}"@ + after, kind);
    assert(p == escaped_text(before) + (escaped_text(kind) + g));
    let b = before.len() as int;
    let m = name.skip(b);
    let t = m.skip(kind.len() as int);
    assert(simple_match(empty, t.skip(after.len() as int)) <==> t.skip(after.len() as int).len()
        == 0);
    if after.len() > 0 {
        lemma_text_is_itself(after, empty, t, kind.last() == '/');
    } else {
        assert(g =~= empty);
        assert(t.skip(0) =~= t);
    }
    if before.len() > 0 {
        lemma_text_is_itself(before, escaped_text(kind) + g, name, true);
        lemma_text_is_itself(kind, g, m, before.last() == '/');
    } else {
        assert(p =~= escaped_text(kind) + g);
        assert(m =~= name);
        lemma_text_is_itself(kind, g, m, true);
    }
    assert(simple_valid(p));
    lemma_parts_of_name(before, kind, after, name);
}

/// A text that starts with three texts, one after the other, is all of them where nothing is
/// left.
proof fn lemma_parts_of_name(a: Seq<char>, b: Seq<char>, c: Seq<char>, name: Seq<char>)
    ensures
        ({
            let m = name.skip(a.len() as int);
            let t = m.skip(b.len() as int);
            &&& a.is_prefix_of(name) && b.is_prefix_of(m) && c.is_prefix_of(t) && t.len() == c.len()
                <==> name == a + b + c
            &&& a.is_prefix_of(name) && b.is_prefix_of(m) && c.is_prefix_of(t) <==> (a + b
                + c).is_prefix_of(name)
        }),
{
    let whole = a + b + c;
    let m = name.skip(a.len() as int);
    let t = m.skip(b.len() as int);
    let la = a.len() as int;
    let lb = b.len() as int;
    let lc = c.len() as int;
    if whole.is_prefix_of(name) {
        assert(name.subrange(0, la + lb + lc) =~= whole);
        assert(name.subrange(0, la) =~= a) by {
            assert forall|i: int| 0 <= i < la implies name[i] == a[i] by {
                assert(name.subrange(0, la + lb + lc)[i] == whole[i]);
            }
        }
        assert(m.subrange(0, lb) =~= b) by {
            assert forall|i: int| 0 <= i < lb implies m[i] == b[i] by {
                assert(name.subrange(0, la + lb + lc)[la + i] == whole[la + i]);
            }
        }
        assert(t.subrange(0, lc) =~= c) by {
            assert forall|i: int| 0 <= i < lc implies t[i] == c[i] by {
                assert(name.subrange(0, la + lb + lc)[la + lb + i] == whole[la + lb + i]);
            }
        }
    }
    if a.is_prefix_of(name) && b.is_prefix_of(m) && c.is_prefix_of(t) {
        assert(name.subrange(0, la + lb + lc) =~= whole) by {
            assert forall|i: int| 0 <= i < la + lb + lc implies name[i] == whole[i] by {
                if i < la {
                    assert(name.subrange(0, la)[i] == a[i]);
                } else if i < la + lb {
                    assert(m.subrange(0, lb)[i - la] == b[i - la]);
                } else {
                    assert(t.subrange(0, lc)[i - la - lb] == c[i - la - lb]);
                }
            }
        }
    }
    if name == whole {
        assert(name.subrange(0, name.len() as int) =~= name);
    }
    if whole.is_prefix_of(name) && t.len() == lc {
        assert(name =~= name.subrange(0, la + lb + lc));
    }
}

/// A single `*` that ends a pattern matches all that is left.
proof fn lemma_star_takes_all(n: Seq<char>)
    ensures
        simple_match(seq!['*'], n),
        valid_rest(seq!['*'], true),
        valid_rest(seq!['*'], false),
    decreases n.len(),
{
    let p = seq!['*'];
    assert(!double_star(p));
    let empty = Seq::<char>::empty();
    assert(p.skip(1) =~= empty);
    assert(valid_rest(empty, false));
    assert(simple_match(empty, empty));
    if n.len() == 0 {
        assert(n =~= empty);
    } else {
        lemma_star_takes_all(n.skip(1));
    }
}

proof fn lemma_fits_open(
    before: Seq<char>,
    between: Seq<char>,
    content: Seq<char>,
    name: Seq<char>,
    kind: Seq<char>,
)
    requires
        !before.contains('{'),
        !between.contains('{'),
        !content.contains('}'),
        !"type"@.is_prefix_of(content),
        kind.len() > 0,
    ensures
        could_be(
            before + "{type}"@ + (between + "{"@ + content + "}"@),
            name,
            kind,
        ) <==> (before + kind + between).is_prefix_of(name),
{
    reveal_strlit("type");
    let empty = Seq::<char>::empty();
    lemma_kind_text();
    let last = "{"@ + content + "}"@ + empty;
    let after = between + "{"@ + content + "}"@;
    let tail = "{"@ + "type"@ + "}"@ + after;
    assert(before + "{type}"@ + after =~= before + tail);
    lemma_glob_after_text(before, tail, kind);
    lemma_glob_of_placeholder("type"@, after, kind);
    assert(after =~= between + last);
    lemma_glob_after_text(between, last, kind);
    if content == "type"@ {
        assert(content.subrange(0, 4) =~= content);
    }
    lemma_glob_of_placeholder(content, empty, kind);
    assert(type_glob(empty, kind) =~= empty);
    let star = seq!['*'];
    assert(star + empty =~= star);
    let g = escaped_text(between) + star;
    let p = type_glob(before + "{type}"@ + after, kind);
    assert(p == escaped_text(before) + (escaped_text(kind) + g));
    let b = before.len() as int;
    let m = name.skip(b);
    let t = m.skip(kind.len() as int);
    lemma_star_takes_all(t.skip(between.len() as int));
    if between.len() > 0 {
        lemma_text_is_itself(between, star, t, kind.last() == '/');
    } else {
        assert(g =~= star);
        assert(t.skip(0) =~= t);
    }
    if before.len() > 0 {
        lemma_text_is_itself(before, escaped_text(kind) + g, name, true);
        lemma_text_is_itself(kind, g, m, before.last() == '/');
    } else {
        assert(p =~= escaped_text(kind) + g);
        assert(m =~= name);
        lemma_text_is_itself(kind, g, m, true);
    }
    assert(simple_valid(p));
    lemma_parts_of_name(before, kind, between, name);
}

// ---------------------------------------------------------------------------
// Steps
// ---------------------------------------------------------------------------

/// The intervals are those that are configured, in seconds; without one there is a backup
/// every hour, a full one every day, and a wait of five minutes after an error.
pub proof fn law_intervals_are_the_configured_ones(s: WatchSettings)
    ensures
        s.watch_interval_secs matches Some(n) ==> s.watch_nanos() == n * 1_000_000_000,
        s.watch_interval_secs is None ==> s.watch_nanos() == 3600 * 1_000_000_000,
        s.full_interval_secs matches Some(n) ==> s.full_nanos() == n * 1_000_000_000,
        s.full_interval_secs is None ==> s.full_nanos() == 24 * 3600 * 1_000_000_000,
        s.retry_interval_secs matches Some(n) ==> s.retry_nanos() == n * 1_000_000_000,
        s.retry_interval_secs is None ==> s.retry_nanos() == 5 * 60 * 1_000_000_000,
{
}

/// The loop backs up the tables that are configured for it; without these, those that are
/// configured for every backup; without these, all of them.
pub proof fn law_tables_of_the_loop_come_first(s: WatchSettings)
    ensures
        s.tables is Some ==> s.table_filter() == Some(s.tables->0@),
        s.tables is None && s.backup_tables@.len() > 0 ==> s.table_filter() == Some(
            s.backup_tables@,
        ),
        s.tables is None && s.backup_tables@.len() == 0 ==> s.table_filter() is None,
{
}

/// A decision to wait is followed by a sleep of that length, and a decision on a backup by
/// the plan for it: without a base where it is full or an error forces it to be, and else on
/// the base that was decided on. Nothing else of the loop changes.
pub proof fn law_plans_follow_the_decision(
    m: WatchModel,
    d: ResumeDecision,
    after: WatchModel,
    step: WatchStep,
)
    requires
        m.follows_decision(d, after, step),
    ensures
        step is Sleep <==> d is SleepThen,
        d is SleepThen ==> step->duration.total_nanos() == d->remaining.total_nanos()
            && after.next_backup_in == Some(d->remaining.total_nanos()) && after.state
            == WatchState::Sleeping && after.plan == m.plan,
        !(d is SleepThen) ==> step is ResolveName && step->ResolveName_full == after.plan.full
            && after.state == m.state && after.next_backup_in == m.next_backup_in,
        !(d is SleepThen) ==> (after.plan.full <==> d is FullNow || m.force_next_full),
        !(d is SleepThen) ==> (after.plan.diff_from is Some <==> !after.plan.full),
        d is IncrNow && !m.force_next_full ==> after.plan.diff_from == Some(d->diff_from@),
        after.consecutive_errors == m.consecutive_errors,
        after.shown_errors == m.shown_errors,
        after.force_next_full == m.force_next_full,
        after.last_backup_name == m.last_backup_name,
        after.last_full == m.last_full,
        after.last_incr == m.last_incr,
{
}

/// After the upload of a backup the loop deletes what is not kept, first the local backups
/// and then the remote ones, each only where there is a number to keep; then it sleeps for
/// the interval between two backups, and the cycle counts as a success.
pub proof fn law_cleaning_follows_the_settings(
    m: WatchModel,
    s: WatchSettings,
    after: WatchModel,
    step: WatchStep,
)
    requires
        m.follows_deletion(s, after, step),
    ensures
        s.keep_local > 0 ==> step == (WatchStep::RetainLocal { keep: s.keep_local }),
        s.keep_local <= 0 && s.keep_remote > 0 ==> step == (WatchStep::RetainRemote {
            keep: s.keep_remote,
        }),
        s.keep_local <= 0 && s.keep_remote <= 0 ==> step is Sleep
            && step->duration.total_nanos() == s.watch_nanos() && after.consecutive_errors == 0
            && after.last_backup_name == Some(m.plan.backup_name) && after.state
            == WatchState::Sleeping,
        s.keep_local > 0 || s.keep_remote > 0 ==> after.state == WatchState::Cleaning
            && after.consecutive_errors == m.consecutive_errors && after.last_backup_name
            == m.last_backup_name,
        after.plan == m.plan,
        after.last_full == m.last_full,
        after.last_incr == m.last_incr,
{
}

/// An error is counted and shown, and forces the next backup to be a full one; a success
/// forgets the errors, and names the backup as the last one. The loop ends for its errors
/// just where a limit is set and reached.
pub proof fn law_errors_are_counted(m: WatchModel, s: WatchSettings)
    requires
        m.consecutive_errors < u32::MAX,
    ensures
        after_error(m).consecutive_errors == m.consecutive_errors + 1,
        after_error(m).shown_errors == m.consecutive_errors + 1,
        after_error(m).force_next_full,
        after_error(m).state == WatchState::Error,
        after_error(m).plan == m.plan,
        after_error(m).last_backup_name == m.last_backup_name,
        after_error(m).last_full == m.last_full,
        after_error(m).last_incr == m.last_incr,
        after_error(m).next_backup_in == m.next_backup_in,
        after_success(m, s).consecutive_errors == 0,
        after_success(m, s).shown_errors == 0,
        after_success(m, s).last_backup_name == Some(m.plan.backup_name),
        after_success(m, s).next_backup_in == Some(s.watch_nanos()),
        after_success(m, s).force_next_full <==> m.force_next_full && !m.plan.full,
        after_success(m, s).last_full == m.last_full,
        after_success(m, s).last_incr == m.last_incr,
        too_many_errors(m, s) <==> s.max_consecutive_errors != 0 && s.max_consecutive_errors
            <= m.consecutive_errors,
{
}

/// The loop decides by its own settings: by the backups that its template names, a full one
/// by the interval for full backups, and any other by the interval between two backups. A
/// backup that is younger than the latter makes it wait, once there is a full one that is
/// younger than the former.
pub proof fn law_loop_decides_by_its_settings(
    s: WatchSettings,
    backups: Seq<BackupSummary>,
    now: int,
    d: ResumeDecision,
    watch_secs: nat,
    full_secs: nat,
)
    requires
        decides(s, backups, now, d),
        names_told_alike(backups, s.name_template@),
        watch_secs == match s.watch_interval_secs {
            Some(n) => n as nat,
            None => 3600,
        },
        full_secs == match s.full_interval_secs {
            Some(n) => n as nat,
            None => 86400,
        },
    ensures
        ({
            let t = s.name_template@;
            let watch = watch_secs * 1_000_000_000;
            let full = full_secs * 1_000_000_000;
            &&& d is FullNow <==> forall|i: int|
                0 <= i < backups.len() && made_as(
                    #[trigger] backups[i],
                    backup_kind(t, backups[i].name@),
                    t,
                    "full"@,
                ) ==> now - backups[i].timestamp->0.instant() >= full || full == 0
            &&& d is IncrNow ==> forall|i: int|
                0 <= i < backups.len() && made_as_either(
                    #[trigger] backups[i],
                    backup_kind(t, backups[i].name@),
                    t,
                ) ==> now - backups[i].timestamp->0.instant() >= watch || watch == 0
            &&& d is SleepThen ==> exists|i: int|
                0 <= i < backups.len() && made_as_either(
                    #[trigger] backups[i],
                    backup_kind(t, backups[i].name@),
                    t,
                ) && now - backups[i].timestamp->0.instant() < watch
                    && d->remaining.total_nanos() <= watch && (backups[i].timestamp->0.instant()
                    <= now ==> now + d->remaining.total_nanos()
                    == backups[i].timestamp->0.instant() + watch)
        }),
{
    let t = s.name_template@;
    let kinds = told_kinds(backups, t);
    law_intervals_are_the_configured_ones(s);
    law_backups_are_due_by_their_ages(
        backups,
        kinds,
        t,
        watch_secs * 1_000_000_000,
        full_secs * 1_000_000_000,
        now,
        d,
    );
    assert forall|i: int| 0 <= i < backups.len() implies kinds[i] == backup_kind(
        t,
        (#[trigger] backups[i]).name@,
    ) by {}
}

} // verus!
