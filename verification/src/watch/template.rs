//! Names of backups made from a template, and the kind of a backup read off its name.

use vstd::prelude::*;
use vstd::string::StringExecFns;

use crate::manifest::{entry_models, find_entry, lookup, NamedValue};
use crate::table_filter::{
    double_star, glob_matches, portable, simple_match, simple_pattern, simple_valid, simply_fits,
    valid_rest,
};
use crate::text::{
    chars_of, contains_text, has_text, lemma_position, position, position_from, same, slice_text,
    strip_prefix,
};
use crate::time::{strftime, strftime_text, Timestamp};

verus! {

// ---------------------------------------------------------------------------
// Names
// ---------------------------------------------------------------------------

/// What a placeholder without its braces stands for: the kind of the backup, a time in a
/// format, a macro of the server, or itself. Nothing where the format of a time is refused.
pub open spec fn expanded(
    content: Seq<char>,
    backup_type: Seq<char>,
    now: Timestamp,
    macros: Seq<(Seq<char>, Seq<char>)>,
) -> Option<Seq<char>> {
    if content == "type"@ {
        Some(backup_type)
    } else if "time:"@.is_prefix_of(content) {
        strftime_text(now.unix_secs(), now.unix_nanos(), content.skip(5))
    } else {
        match lookup(macros, content) {
            Some(value) => Some(value),
            None => Some("{"@ + content + "}"@),
        }
    }
}

/// `head`, and after it `tail` if there is one.
pub open spec fn followed(head: Seq<char>, tail: Option<Seq<char>>) -> Option<Seq<char>> {
    match tail {
        Some(t) => Some(head + t),
        None => None,
    }
}

/// The name that a template gives: each placeholder in braces is expanded, and a brace
/// that is not closed stands for itself, with all that follows. Nothing where the format
/// of a time is refused.
pub open spec fn resolved(
    template: Seq<char>,
    backup_type: Seq<char>,
    now: Timestamp,
    macros: Seq<(Seq<char>, Seq<char>)>,
) -> Option<Seq<char>>
    decreases template.len(),
{
    if template.len() == 0 {
        Some(Seq::empty())
    } else if template[0] == '{' {
        let rest = template.skip(1);
        let at = position(rest, '}');
        if at >= rest.len() {
            Some(template)
        } else {
            match expanded(rest.take(at as int), backup_type, now, macros) {
                Some(text) => followed(
                    text,
                    resolved(rest.skip(at as int + 1), backup_type, now, macros),
                ),
                None => None,
            }
        }
    } else {
        followed(seq![template[0]], resolved(template.skip(1), backup_type, now, macros))
    }
}

/// What a placeholder stands for.
fn expand(content: &str, backup_type: &str, now: &Timestamp, macros: &Vec<NamedValue>) -> (r: Option<
    String,
>)
    ensures
        crate::text::opt_text(r) == expanded(content@, backup_type@, *now, entry_models(macros@)),
{
    if same(content, "type") {
        return Some(backup_type.to_string());
    }
    proof {
        reveal_strlit("time:");
    }
    match strip_prefix(content, "time:") {
        Some(format) => strftime(now.secs(), now.nanos(), format.as_str()),
        None => match find_entry(macros, content) {
            Some(value) => Some(value.clone()),
            None => Some("{".to_string().concat(content).concat("}")),
        },
    }
}

/// The name that a template gives, or nothing where the format of a time is refused.
fn resolve(template: &str, backup_type: &str, now: &Timestamp, macros: &Vec<NamedValue>) -> (r: Option<
    String,
>)
    ensures
        crate::text::opt_text(r) == resolved(
            template@,
            backup_type@,
            *now,
            entry_models(macros@),
        ),
{
    let v = chars_of(template);
    let ghost pairs = entry_models(macros@);
    let mut out = String::new();
    let mut i: usize = 0;
    proof {
        assert(v@.skip(0) =~= v@);
        lemma_followed_by_nothing(resolved(v@, backup_type@, *now, pairs));
    }
    while i < v.len()
        invariant
            v@ == template@,
            pairs == entry_models(macros@),
            i <= v@.len(),
            followed(out@, resolved(v@.skip(i as int), backup_type@, *now, pairs)) == resolved(
                template@,
                backup_type@,
                *now,
                pairs,
            ),
        decreases v@.len() - i,
    {
        let ghost here = v@.skip(i as int);
        if v[i] == '{' {
            let close: usize = position_from(&v, i + 1, '}');
            assert(here.skip(1) =~= v@.skip(i + 1));
            if close == v.len() {
                let tail = slice_text(&v, i, v.len());
                assert(tail@ =~= here);
                out.append(tail.as_str());
                return Some(out);
            }
            let content = slice_text(&v, i + 1, close);
            assert(content@ =~= here.skip(1).take(close - i - 1));
            assert(here.skip(1).skip(close - i) =~= v@.skip(close + 1));
            match expand(content.as_str(), backup_type, now, macros) {
                Some(text) => {
                    proof {
                        lemma_followed_twice(
                            out@,
                            text@,
                            resolved(v@.skip(close + 1), backup_type@, *now, pairs),
                        );
                    }
                    out.append(text.as_str());
                },
                None => {
                    return None;
                },
            }
            i = close + 1;
        } else {
            proof {
                assert(here.skip(1) =~= v@.skip(i + 1));
                assert(out@.push(v@[i as int]) =~= out@ + seq![v@[i as int]]);
                lemma_followed_twice(
                    out@,
                    seq![v@[i as int]],
                    resolved(v@.skip(i + 1), backup_type@, *now, pairs),
                );
            }
            out.push(v[i]);
            i += 1;
        }
    }
    assert(out@ + Seq::<char>::empty() =~= out@);
    Some(out)
}

proof fn lemma_followed_by_nothing(tail: Option<Seq<char>>)
    ensures
        followed(Seq::empty(), tail) == tail,
{
    if let Some(t) = tail {
        assert(Seq::<char>::empty() + t =~= t);
    }
}

proof fn lemma_followed_twice(a: Seq<char>, b: Seq<char>, tail: Option<Seq<char>>)
    ensures
        followed(a, followed(b, tail)) == followed(a + b, tail),
{
    if let Some(t) = tail {
        assert(a + (b + t) =~= a + b + t);
    }
}

/// Whether every time in a template has a format that is accepted.
pub fn template_resolves(
    template: &str,
    backup_type: &str,
    now: &Timestamp,
    macros: &Vec<NamedValue>,
) -> (r: bool)
    ensures
        r == resolved(template@, backup_type@, *now, entry_models(macros@)) is Some,
{
    resolve(template, backup_type, now, macros).is_some()
}

/// The name that a template gives: `{type}` is the kind of the backup, `{time:FORMAT}` the
/// time, and `{name}` a macro of the server. Other placeholders are left as they are.
pub fn resolve_name_template(
    template: &str,
    backup_type: &str,
    now: &Timestamp,
    macros: &Vec<NamedValue>,
) -> (r: String)
    requires
        resolved(template@, backup_type@, *now, entry_models(macros@)) is Some,
    ensures
        Some(r@) == resolved(template@, backup_type@, *now, entry_models(macros@)),
{
    match resolve(template, backup_type, now, macros) {
        Some(name) => name,
        None => String::new(),
    }
}

/// The name that a template gives, or nothing where the format of a time in it is refused.
pub fn try_resolve_name_template(
    template: &str,
    backup_type: &str,
    now: &Timestamp,
    macros: &Vec<NamedValue>,
) -> (r: Option<String>)
    ensures
        crate::text::opt_text(r) == resolved(
            template@,
            backup_type@,
            *now,
            entry_models(macros@),
        ),
{
    if template_resolves(template, backup_type, now, macros) {
        Some(resolve_name_template(template, backup_type, now, macros))
    } else {
        None
    }
}

/// A template without a brace is the name itself.
pub proof fn law_static_template_is_the_name(
    template: Seq<char>,
    backup_type: Seq<char>,
    now: Timestamp,
    macros: Seq<(Seq<char>, Seq<char>)>,
)
    requires
        !template.contains('{'),
    ensures
        resolved(template, backup_type, now, macros) == Some(template),
    decreases template.len(),
{
    if template.len() > 0 {
        let rest = template.skip(1);
        assert(template[0] != '{');
        assert forall|i: int| 0 <= i < rest.len() implies rest[i] != '{' by {
            assert(rest[i] == template[i + 1]);
        }
        law_static_template_is_the_name(rest, backup_type, now, macros);
        assert(seq![template[0]] + rest =~= template);
    } else {
        assert(template =~= Seq::empty());
    }
}

/// The part of a template before its first placeholder.
pub open spec fn static_prefix(template: Seq<char>) -> Seq<char> {
    template.take(position(template, '{') as int)
}

/// The part of a template before its first placeholder: what every name made from it
/// starts with.
pub fn resolve_template_prefix(name_template: &str) -> (r: String)
    ensures
        r@ == static_prefix(name_template@),
{
    let v = chars_of(name_template);
    let at: usize = position_from(&v, 0, '{');
    assert(v@.skip(0) =~= v@);
    assert(v@.subrange(0, at as int) =~= v@.take(at as int));
    slice_text(&v, 0, at)
}

/// Every name made from a template starts with the template's prefix, so that the backups
/// of a watch loop are found by it.
pub proof fn law_names_start_with_the_prefix(
    template: Seq<char>,
    backup_type: Seq<char>,
    now: Timestamp,
    macros: Seq<(Seq<char>, Seq<char>)>,
)
    requires
        resolved(template, backup_type, now, macros) is Some,
    ensures
        static_prefix(template).is_prefix_of(resolved(template, backup_type, now, macros)->0),
    decreases template.len(),
{
    lemma_position(template, '{');
    if template.len() > 0 && template[0] != '{' {
        let rest = template.skip(1);
        law_names_start_with_the_prefix(rest, backup_type, now, macros);
        lemma_position(rest, '{');
        let name = resolved(template, backup_type, now, macros)->0;
        let tail = resolved(rest, backup_type, now, macros)->0;
        let p = static_prefix(template);
        let q = static_prefix(rest);
        assert(position(template, '{') == 1 + position(rest, '{'));
        assert(p =~= seq![template[0]] + q);
        assert(q =~= tail.subrange(0, q.len() as int));
        assert(name =~= seq![template[0]] + tail);
        assert(p =~= name.subrange(0, p.len() as int));
    }
}

// ---------------------------------------------------------------------------
// Kinds
// ---------------------------------------------------------------------------

/// A character of a pattern that matches `c` and nothing else.
pub open spec fn escaped(c: char) -> Seq<char> {
    if c == '*' || c == '?' || c == '[' || c == ']' {
        seq!['[', c, ']']
    } else {
        seq![c]
    }
}

/// A pattern that matches `s` and nothing else.
pub open spec fn escaped_text(s: Seq<char>) -> Seq<char>
    decreases s.len(),
{
    if s.len() == 0 {
        Seq::empty()
    } else {
        escaped_text(s.drop_last()) + escaped(s.last())
    }
}

/// Appends a character to a pattern so that it matches literally.
pub fn push_escaped_glob_char(pattern: &mut String, ch: char)
    ensures
        final(pattern)@ == old(pattern)@ + escaped(ch),
{
    let ghost was = pattern@;
    if ch == '*' || ch == '?' || ch == '[' || ch == ']' {
        pattern.push('[');
        pattern.push(ch);
        pattern.push(']');
    } else {
        pattern.push(ch);
    }
    assert(pattern@ =~= was + escaped(ch));
}

/// The pattern for the names that a template gives for one kind of backup: the kind
/// itself in place of `{type}`, anything in place of another placeholder, and the rest
/// literally. A placeholder that is not closed reaches to the end.
pub open spec fn type_glob(template: Seq<char>, candidate: Seq<char>) -> Seq<char>
    decreases template.len(),
{
    if template.len() == 0 {
        Seq::empty()
    } else if template[0] == '{' {
        let rest = template.skip(1);
        let at = position(rest, '}');
        let content = rest.take(at as int);
        let key = content.take(position(content, ':') as int);
        let text = if key == "type"@ {
            escaped_text(candidate)
        } else {
            seq!['*']
        };
        if at >= rest.len() {
            text
        } else {
            text + type_glob(rest.skip(at as int + 1), candidate)
        }
    } else {
        escaped(template[0]) + type_glob(template.skip(1), candidate)
    }
}

/// Appends a text to a pattern so that it matches literally.
fn push_escaped_text(pattern: &mut String, text: &str)
    ensures
        final(pattern)@ == old(pattern)@ + escaped_text(text@),
{
    let v = chars_of(text);
    let ghost was = pattern@;
    let mut i: usize = 0;
    assert(was + escaped_text(v@.take(0)) =~= was);
    while i < v.len()
        invariant
            i <= v@.len(),
            pattern@ == was + escaped_text(v@.take(i as int)),
        decreases v@.len() - i,
    {
        push_escaped_glob_char(pattern, v[i]);
        proof {
            assert(v@.take(i + 1).drop_last() =~= v@.take(i as int));
            assert(was + (escaped_text(v@.take(i as int)) + escaped(v@[i as int])) =~= was
                + escaped_text(v@.take(i as int)) + escaped(v@[i as int]));
        }
        i += 1;
    }
    assert(v@.take(i as int) =~= v@);
}

/// The pattern for the names that a template gives for one kind of backup.
pub fn build_type_glob(template: &str, candidate: &str) -> (r: String)
    ensures
        r@ == type_glob(template@, candidate@),
{
    let v = chars_of(template);
    let mut pattern = String::new();
    let mut i: usize = 0;
    assert(v@.skip(0) =~= v@);
    assert(pattern@ + type_glob(v@, candidate@) =~= type_glob(v@, candidate@));
    while i < v.len()
        invariant
            v@ == template@,
            i <= v@.len(),
            pattern@ + type_glob(v@.skip(i as int), candidate@) == type_glob(
                template@,
                candidate@,
            ),
        decreases v@.len() - i,
    {
        let ghost here = v@.skip(i as int);
        let ghost was = pattern@;
        if v[i] == '{' {
            let close: usize = position_from(&v, i + 1, '}');
            let content = slice_text(&v, i + 1, close);
            let name = chars_of(content.as_str());
            let colon: usize = position_from(&name, 0, ':');
            let key = slice_text(&name, 0, colon);
            proof {
                assert(here.skip(1) =~= v@.skip(i + 1));
                assert(content@ =~= here.skip(1).take(close - i - 1));
                assert(name@.skip(0) =~= name@);
                assert(key@ =~= content@.take(colon as int));
            }
            if same(key.as_str(), "type") {
                push_escaped_text(&mut pattern, candidate);
            } else {
                pattern.push('*');
                assert(pattern@ =~= was + seq!['*']);
            }
            let ghost text = if key@ == "type"@ {
                escaped_text(candidate@)
            } else {
                seq!['*']
            };
            assert(pattern@ == was + text);
            if close == v.len() {
                return pattern;
            }
            proof {
                assert(here.skip(1).skip(close - i) =~= v@.skip(close + 1));
                assert(was + (text + type_glob(v@.skip(close + 1), candidate@)) =~= pattern@
                    + type_glob(v@.skip(close + 1), candidate@));
            }
            i = close + 1;
        } else {
            push_escaped_glob_char(&mut pattern, v[i]);
            proof {
                let text = escaped(v@[i as int]);
                assert(here.skip(1) =~= v@.skip(i + 1));
                assert(was + (text + type_glob(v@.skip(i + 1), candidate@)) =~= pattern@
                    + type_glob(v@.skip(i + 1), candidate@));
            }
            i += 1;
        }
    }
    assert(type_glob(v@.skip(i as int), candidate@) =~= Seq::<char>::empty());
    assert(pattern@ =~= type_glob(template@, candidate@));
    pattern
}

/// The name is one that a template could give for the kind of backup.
pub open spec fn could_be(template: Seq<char>, name: Seq<char>, candidate: Seq<char>) -> bool {
    simply_fits(type_glob(template, candidate), name)
}

/// The kind of a backup, by its name: the one for which the template could give the name.
/// Nothing where the template does not tell, or where the name fits neither or both.
pub open spec fn backup_kind(template: Seq<char>, name: Seq<char>) -> Option<Seq<char>> {
    if !has_text(template, "{type}"@) {
        None
    } else {
        let full = could_be(template, name, "full"@);
        let incr = could_be(template, name, "incr"@);
        if full && !incr {
            Some("full"@)
        } else if incr && !full {
            Some("incr"@)
        } else {
            None
        }
    }
}

/// The kind that a backup can be taken for, by its name. Only where the template or the name
/// has a backslash can it be another than the name tells, and even then none but a kind that
/// the name does not rule out.
pub open spec fn possible_kind(
    template: Seq<char>,
    name: Seq<char>,
    kind: Option<Seq<char>>,
) -> bool {
    &&& kind is None || kind == Some("full"@) || kind == Some("incr"@)
    &&& !has_text(template, "{type}"@) ==> kind is None
    &&& could_be(template, name, "full"@) ==> kind != Some("incr"@)
    &&& could_be(template, name, "incr"@) ==> kind != Some("full"@)
    &&& portable(template) && portable(name) ==> kind == backup_kind(template, name)
}

/// What the name tells is possible on every machine.
pub proof fn lemma_kind_is_possible(template: Seq<char>, name: Seq<char>)
    ensures
        possible_kind(template, name, backup_kind(template, name)),
{
    reveal_strlit("full");
    reveal_strlit("incr");
    assert("full"@[0] != "incr"@[0]);
}

/// The text of an optional literal.
pub open spec fn opt_literal(o: Option<&'static str>) -> Option<Seq<char>> {
    match o {
        Some(s) => Some(s@),
        None => None,
    }
}

/// The kind that follows from the two matches: the only one that matches.
pub fn kind_of_matches(full: bool, incr: bool) -> (r: Option<&'static str>)
    ensures
        opt_literal(r) == if full && !incr {
            Some("full"@)
        } else if incr && !full {
            Some("incr"@)
        } else {
            None
        },
{
    if full && !incr {
        Some("full")
    } else if incr && !full {
        Some("incr")
    } else {
        None
    }
}

/// The pattern of a text that is taken literally has no backslash where the text has none.
proof fn lemma_escaped_portable(s: Seq<char>)
    requires
        portable(s),
    ensures
        portable(escaped_text(s)),
    decreases s.len(),
{
    if s.len() > 0 {
        let init = s.drop_last();
        assert forall|i: int| 0 <= i < init.len() implies init[i] != '\\' by {
            assert(init[i] == s[i]);
        }
        lemma_escaped_portable(init);
        lemma_portable_concat(escaped_text(init), escaped(s.last()));
    }
}

proof fn lemma_portable_concat(a: Seq<char>, b: Seq<char>)
    requires
        portable(a),
        portable(b),
    ensures
        portable(a + b),
{
    let r = a + b;
    assert forall|i: int| 0 <= i < r.len() implies r[i] != '\\' by {
        if i < a.len() {
            assert(r[i] == a[i]);
        } else {
            assert(r[i] == b[i - a.len()]);
        }
    }
}

proof fn lemma_portable_skip(s: Seq<char>, n: int)
    requires
        portable(s),
        0 <= n <= s.len(),
    ensures
        portable(s.skip(n)),
{
    let r = s.skip(n);
    assert forall|i: int| 0 <= i < r.len() implies r[i] != '\\' by {
        assert(r[i] == s[n + i]);
    }
}

/// The pattern of a template has no backslash where neither the template nor the kind has.
pub proof fn lemma_type_glob_portable(template: Seq<char>, candidate: Seq<char>)
    requires
        portable(template),
        portable(candidate),
    ensures
        portable(type_glob(template, candidate)),
    decreases template.len(),
{
    if template.len() > 0 {
        lemma_portable_skip(template, 1);
        let rest = template.skip(1);
        if template[0] == '{' {
            lemma_position(rest, '}');
            let at = position(rest, '}') as int;
            lemma_escaped_portable(candidate);
            assert(portable(seq!['*']));
            if at < rest.len() {
                lemma_portable_skip(rest, at + 1);
                let after = rest.skip(at + 1);
                lemma_type_glob_portable(after, candidate);
                lemma_portable_concat(escaped_text(candidate), type_glob(after, candidate));
                lemma_portable_concat(seq!['*'], type_glob(after, candidate));
            }
        } else {
            lemma_type_glob_portable(rest, candidate);
            assert(template[0] != '\\');
            assert(portable(escaped(template[0])));
            lemma_portable_concat(escaped(template[0]), type_glob(rest, candidate));
        }
    }
}

/// What is taken literally, followed by a simple pattern, is a simple pattern.
proof fn lemma_escaped_simple(s: Seq<char>, g: Seq<char>)
    requires
        simple_pattern(g),
    ensures
        simple_pattern(escaped_text(s) + g),
    decreases s.len(),
{
    if s.len() == 0 {
        assert(escaped_text(s) + g =~= g);
    } else {
        let init = s.drop_last();
        lemma_escaped_char_simple(s.last(), g);
        lemma_escaped_simple(init, escaped(s.last()) + g);
        assert(escaped_text(s) + g =~= escaped_text(init) + (escaped(s.last()) + g));
    }
}

proof fn lemma_escaped_char_simple(c: char, g: Seq<char>)
    requires
        simple_pattern(g),
    ensures
        simple_pattern(escaped(c) + g),
{
    let p = escaped(c) + g;
    if escaped(c).len() == 3 {
        assert(p.skip(3) =~= g);
    } else {
        assert(p.skip(1) =~= g);
    }
}

/// The pattern of a template is a simple one.
proof fn lemma_type_glob_simple(template: Seq<char>, candidate: Seq<char>)
    ensures
        simple_pattern(type_glob(template, candidate)),
    decreases template.len(),
{
    if template.len() > 0 {
        let rest = template.skip(1);
        if template[0] == '{' {
            lemma_position(rest, '}');
            let at = position(rest, '}') as int;
            let g = if at < rest.len() {
                type_glob(rest.skip(at + 1), candidate)
            } else {
                Seq::empty()
            };
            if at < rest.len() {
                lemma_type_glob_simple(rest.skip(at + 1), candidate);
            }
            lemma_escaped_simple(candidate, g);
            assert(escaped_text(candidate) + Seq::<char>::empty() =~= escaped_text(candidate));
            assert((seq!['*'] + g).skip(1) =~= g);
            assert(seq!['*'] + Seq::<char>::empty() =~= seq!['*']);
            assert(simple_pattern(seq!['*'] + g));
        } else {
            lemma_type_glob_simple(rest, candidate);
            lemma_escaped_char_simple(template[0], type_glob(rest, candidate));
        }
    }
}

/// Whether a template could give the name for the kind of backup.
fn fits(template: &str, name: &str, candidate: &str) -> (r: bool)
    ensures
        could_be(template@, name@, candidate@) ==> r,
        portable(template@) && portable(name@) && portable(candidate@) ==> r == could_be(
            template@,
            name@,
            candidate@,
        ),
{
    proof {
        lemma_type_glob_simple(template@, candidate@);
        if portable(template@) && portable(candidate@) {
            lemma_type_glob_portable(template@, candidate@);
        }
    }
    let pattern = build_type_glob(template, candidate);
    match glob_matches(pattern.as_str(), name) {
        Some(b) => b,
        None => false,
    }
}

/// The kind of a backup, "full" or "incr", by its name. Where the template or the name has a
/// backslash, what fits may differ between machines.
pub fn classify_backup_type(template: &str, name: &str) -> (r: Option<&'static str>)
    ensures
        possible_kind(template@, name@, opt_literal(r)),
{
    proof {
        reveal_strlit("full");
        reveal_strlit("incr");
        assert("full"@[0] != "incr"@[0]);
    }
    if !contains_text(template, "{type}") {
        return None;
    }
    kind_of_matches(fits(template, name, "full"), fits(template, name, "incr"))
}

/// The kind of a backup is told just where its template tells kinds apart and its name fits
/// one of them and not the other; it is never told otherwise.
pub proof fn law_kind_is_told_where_one_fits(template: Seq<char>, name: Seq<char>)
    ensures
        backup_kind(template, name) is None <==> !has_text(template, "{type}"@) || could_be(
            template,
            name,
            "full"@,
        ) == could_be(template, name, "incr"@),
        backup_kind(template, name) matches Some(kind) ==> (kind == "full"@ || kind == "incr"@)
            && could_be(template, name, kind),
{
}

/// Every placeholder is closed, and none starts with `type:`, which names would take
/// literally and patterns for the kind.
pub open spec fn well_closed(template: Seq<char>) -> bool
    decreases template.len(),
{
    if template.len() == 0 {
        true
    } else if template[0] == '{' {
        let rest = template.skip(1);
        let at = position(rest, '}');
        let content = rest.take(at as int);
        let key = content.take(position(content, ':') as int);
        &&& at < rest.len()
        &&& key == "type"@ ==> content == "type"@
        &&& well_closed(rest.skip(at as int + 1))
    } else {
        well_closed(template.skip(1))
    }
}

/// A literal character matches itself, and what follows it is valid as before.
proof fn lemma_literal(c: char, g: Seq<char>, starts: bool)
    ensures
        valid_rest(escaped(c) + g, starts) == valid_rest(g, c == '/'),
        forall|n: Seq<char>| #[trigger]
            simple_match(g, n) ==> simple_match(escaped(c) + g, seq![c] + n),
{
    let p = escaped(c) + g;
    assert(!double_star(p));
    if escaped(c).len() == 3 {
        assert(p.skip(3) =~= g);
        assert(p[0] == '[' && p[1] == c);
    } else {
        assert(p.skip(1) =~= g);
        assert(p[0] == c);
    }
    assert forall|n: Seq<char>| #[trigger] simple_match(g, n) implies simple_match(
        p,
        seq![c] + n,
    ) by {
        let t = seq![c] + n;
        assert(t.skip(1) =~= n);
        assert(t[0] == c);
    }
}

/// A literal text matches itself, and what follows it is valid as before.
proof fn lemma_text(s: Seq<char>, g: Seq<char>, starts: bool)
    requires
        s.len() > 0,
    ensures
        valid_rest(escaped_text(s) + g, starts) == valid_rest(g, s.last() == '/'),
        forall|n: Seq<char>| #[trigger]
            simple_match(g, n) ==> simple_match(escaped_text(s) + g, s + n),
    decreases s.len(),
{
    let init = s.drop_last();
    let c = s.last();
    let g1 = escaped(c) + g;
    assert(escaped_text(s) + g =~= escaped_text(init) + g1);
    if init.len() == 0 {
        assert(escaped_text(init) + g1 =~= g1);
        lemma_literal(c, g, starts);
        assert(s =~= seq![c]);
    } else {
        lemma_literal(c, g, init.last() == '/');
        lemma_text(init, g1, starts);
        assert forall|n: Seq<char>| #[trigger] simple_match(g, n) implies simple_match(
            escaped_text(s) + g,
            s + n,
        ) by {
            assert(simple_match(g1, seq![c] + n));
            assert(s + n =~= init + (seq![c] + n));
        }
    }
}

/// A single `*` matches any text.
proof fn lemma_star_absorbs(x: Seq<char>, g: Seq<char>, n: Seq<char>)
    requires
        simple_match(g, n),
        !(g.len() > 0 && g[0] == '*'),
    ensures
        simple_match(seq!['*'] + g, x + n),
    decreases x.len(),
{
    let p = seq!['*'] + g;
    assert(p.skip(1) =~= g);
    assert(!double_star(p));
    if x.len() == 0 {
        assert(x + n =~= n);
    } else {
        lemma_star_absorbs(x.skip(1), g, n);
        assert((x + n).skip(1) =~= x.skip(1) + n);
    }
}

/// The kind is one that backups have.
pub open spec fn known_kind(kind: Seq<char>) -> bool {
    kind == "full"@ || kind == "incr"@
}

/// The template starts with a placeholder that stands for anything.
pub open spec fn starts_open(template: Seq<char>) -> bool {
    template.len() > 0 && template[0] == '{' && {
        let rest = template.skip(1);
        let content = rest.take(position(rest, '}') as int);
        content.take(position(content, ':') as int) != "type"@
    }
}

/// What follows the placeholder that the template starts with.
pub open spec fn after_placeholder(template: Seq<char>) -> Seq<char> {
    let rest = template.skip(1);
    let at = position(rest, '}');
    if at < rest.len() {
        rest.skip(at as int + 1)
    } else {
        Seq::empty()
    }
}

proof fn lemma_known_kind(kind: Seq<char>)
    requires
        known_kind(kind),
    ensures
        kind.len() == 4,
        kind[0] != '/' && kind[0] != '*',
        kind.last() != '/',
        escaped_text(kind).len() > 0,
        escaped_text(kind)[0] == kind[0],
        portable(kind),
{
    reveal_strlit("full");
    reveal_strlit("incr");
    let a = kind.take(1);
    let b = kind.take(2);
    let c = kind.take(3);
    assert(kind.drop_last() =~= c);
    assert(c.drop_last() =~= b);
    assert(b.drop_last() =~= a);
    assert(a.drop_last() =~= Seq::<char>::empty());
    assert(escaped_text(a.drop_last()) =~= Seq::<char>::empty());
    assert(escaped_text(a) =~= seq![kind[0]]);
    assert(escaped_text(b)[0] == kind[0]);
    assert(escaped_text(c)[0] == kind[0]);
}

/// How the pattern of a template starts.
proof fn lemma_glob_front(template: Seq<char>, kind: Seq<char>)
    requires
        well_closed(template),
        known_kind(kind),
    ensures
        ({
            let g = type_glob(template, kind);
            &&& g.len() == 0 <==> template.len() == 0
            &&& g.len() > 0 ==> (g[0] == '*' <==> starts_open(template))
            &&& g.len() > 0 ==> (g[0] == '/' <==> template[0] == '/')
            &&& starts_open(template) ==> g == seq!['*'] + type_glob(
                after_placeholder(template),
                kind,
            )
            &&& template.len() > 0 && template[0] == '{' && !starts_open(template) ==> g
                == escaped_text(kind) + type_glob(after_placeholder(template), kind)
            &&& template.len() > 0 && template[0] == '{' ==> well_closed(
                after_placeholder(template),
            ) && after_placeholder(template).len() < template.len()
        }),
{
    if template.len() > 0 {
        lemma_known_kind(kind);
        if template[0] == '{' {
            lemma_position(template.skip(1), '}');
        }
    }
}

/// Two placeholders that stand for anything follow one another directly.
pub open spec fn adjacent_placeholders(template: Seq<char>) -> bool
    decreases template.len(),
    via adjacent_decreases
{
    if template.len() == 0 {
        false
    } else if template[0] == '{' {
        ||| starts_open(template) && starts_open(after_placeholder(template))
        ||| adjacent_placeholders(after_placeholder(template))
    } else {
        adjacent_placeholders(template.skip(1))
    }
}

#[via_fn]
proof fn adjacent_decreases(template: Seq<char>) {
    if template.len() > 0 && template[0] == '{' {
        lemma_position(template.skip(1), '}');
    }
}

/// The patterns of a template for the two kinds are both valid or both not.
proof fn lemma_kinds_are_alike(template: Seq<char>, starts: bool)
    requires
        well_closed(template),
    ensures
        valid_rest(type_glob(template, "full"@), starts) == valid_rest(
            type_glob(template, "incr"@),
            starts,
        ),
    decreases template.len(),
{
    let f = type_glob(template, "full"@);
    let i = type_glob(template, "incr"@);
    lemma_glob_front(template, "full"@);
    lemma_glob_front(template, "incr"@);
    lemma_known_kind("full"@);
    lemma_known_kind("incr"@);
    if template.len() == 0 {
    } else if template[0] != '{' {
        let rest = template.skip(1);
        lemma_kinds_are_alike(rest, template[0] == '/');
        lemma_literal(template[0], type_glob(rest, "full"@), starts);
        lemma_literal(template[0], type_glob(rest, "incr"@), starts);
    } else {
        let after = after_placeholder(template);
        let gf = type_glob(after, "full"@);
        let gi = type_glob(after, "incr"@);
        if !starts_open(template) {
            lemma_kinds_are_alike(after, false);
            lemma_text("full"@, gf, starts);
            lemma_text("incr"@, gi, starts);
        } else {
            lemma_glob_front(after, "full"@);
            lemma_glob_front(after, "incr"@);
            if !starts_open(after) {
                lemma_kinds_are_alike(after, false);
                assert(f.skip(1) =~= gf);
                assert(i.skip(1) =~= gi);
                assert(!double_star(f) && !double_star(i));
            } else {
                let last = after_placeholder(after);
                lemma_glob_front(last, "full"@);
                lemma_glob_front(last, "incr"@);
                lemma_double_star(last, "full"@, starts);
                lemma_double_star(last, "incr"@, starts);
                assert(f =~= seq!['*', '*'] + type_glob(last, "full"@));
                assert(i =~= seq!['*', '*'] + type_glob(last, "incr"@));
                if last.len() > 0 && last[0] == '/' {
                    lemma_kinds_are_alike(last.skip(1), true);
                }
            }
        }
    }
}

/// What two `*` are followed by where the pattern is valid.
proof fn lemma_double_star(last: Seq<char>, kind: Seq<char>, starts: bool)
    requires
        well_closed(last),
        known_kind(kind),
    ensures
        ({
            let p = seq!['*', '*'] + type_glob(last, kind);
            &&& double_star(p)
            &&& valid_rest(p, starts) == (starts && (last.len() == 0 || (last[0] == '/'
                && valid_rest(type_glob(last.skip(1), kind), true))))
            &&& last.len() > 0 && last[0] == '/' ==> crate::table_filter::after_stars(p)
                == type_glob(last.skip(1), kind)
            &&& last.len() == 0 ==> crate::table_filter::after_stars(p) == Seq::<char>::empty()
        }),
{
    lemma_glob_front(last, kind);
    let g = type_glob(last, kind);
    let p = seq!['*', '*'] + g;
    assert(p[0] == '*' && p[1] == '*');
    if last.len() > 0 {
        assert(p[2] == g[0]);
        if last[0] == '/' {
            assert(escaped('/') =~= seq!['/']);
            assert(p.skip(3) =~= type_glob(last.skip(1), kind));
        }
    } else {
        assert(p.len() == 2);
    }
}

/// A template without adjacent placeholders has a valid pattern.
proof fn lemma_apart_is_valid(template: Seq<char>, kind: Seq<char>, starts: bool)
    requires
        well_closed(template),
        known_kind(kind),
        !adjacent_placeholders(template),
    ensures
        valid_rest(type_glob(template, kind), starts),
    decreases template.len(),
{
    let g = type_glob(template, kind);
    lemma_glob_front(template, kind);
    lemma_known_kind(kind);
    if template.len() == 0 {
    } else if template[0] != '{' {
        lemma_apart_is_valid(template.skip(1), kind, template[0] == '/');
        lemma_literal(template[0], type_glob(template.skip(1), kind), starts);
    } else {
        let after = after_placeholder(template);
        let rest = type_glob(after, kind);
        lemma_apart_is_valid(after, kind, false);
        lemma_glob_front(after, kind);
        if starts_open(template) {
            assert(g.skip(1) =~= rest);
            assert(!double_star(g));
        } else {
            lemma_text(kind, rest, starts);
        }
    }
}

/// A name that a template gives for a kind of backup matches the template's pattern for
/// that kind, where the pattern is valid.
proof fn lemma_name_matches(
    template: Seq<char>,
    kind: Seq<char>,
    now: Timestamp,
    macros: Seq<(Seq<char>, Seq<char>)>,
    starts: bool,
)
    requires
        well_closed(template),
        known_kind(kind),
        resolved(template, kind, now, macros) is Some,
        valid_rest(type_glob(template, kind), starts),
    ensures
        simple_match(type_glob(template, kind), resolved(template, kind, now, macros)->0),
    decreases template.len(),
{
    lemma_glob_front(template, kind);
    lemma_known_kind(kind);
    lemma_type_has_no_colon();
    if template.len() == 0 {
    } else if template[0] != '{' {
        let rest = template.skip(1);
        let g = type_glob(rest, kind);
        lemma_literal(template[0], g, starts);
        lemma_name_matches(rest, kind, now, macros, template[0] == '/');
        assert(simple_match(g, resolved(rest, kind, now, macros)->0));
    } else {
        let rest = template.skip(1);
        lemma_position(rest, '}');
        let content = rest.take(position(rest, '}') as int);
        let after = after_placeholder(template);
        let g = type_glob(after, kind);
        let n = resolved(after, kind, now, macros)->0;
        let text = expanded(content, kind, now, macros)->0;
        if !starts_open(template) {
            assert(content == "type"@);
            lemma_text(kind, g, starts);
            lemma_name_matches(after, kind, now, macros, false);
            assert(simple_match(g, n));
        } else {
            if content == "type"@ {
                lemma_position_is_len(content);
                assert(content.take(position(content, ':') as int) =~= content);
            }
            let p = seq!['*'] + g;
            lemma_glob_front(after, kind);
            if !starts_open(after) {
                assert(p.skip(1) =~= g);
                assert(!double_star(p));
                lemma_name_matches(after, kind, now, macros, false);
                lemma_star_absorbs(text, g, n);
            } else {
                let rest2 = after.skip(1);
                lemma_position(rest2, '}');
                let content2 = rest2.take(position(rest2, '}') as int);
                if content2 == "type"@ {
                    lemma_position_is_len(content2);
                    assert(content2.take(position(content2, ':') as int) =~= content2);
                }
                let last = after_placeholder(after);
                let text2 = expanded(content2, kind, now, macros)->0;
                let m = resolved(last, kind, now, macros)->0;
                assert(p =~= seq!['*', '*'] + type_glob(last, kind));
                lemma_double_star(last, kind, starts);
                let stars = crate::table_filter::after_stars(p);
                let name = text + n;
                assert(n =~= text2 + m);
                assert(double_star(p));
                if last.len() == 0 {
                    assert(stars =~= Seq::<char>::empty());
                    assert(simple_match(Seq::<char>::empty(), Seq::<char>::empty()));
                    assert(simple_match(stars, Seq::<char>::empty()));
                    assert(simple_match(p, name));
                } else {
                    let tail = last.skip(1);
                    lemma_name_matches(tail, kind, now, macros, true);
                    let end = resolved(tail, kind, now, macros)->0;
                    assert(m =~= seq!['/'] + end);
                    let k = (text + text2).len() as int;
                    assert(name =~= text + text2 + seq!['/'] + end);
                    assert(0 <= k < name.len());
                    assert(name[k] == '/');
                    assert(name.skip(k + 1) =~= end);
                    assert(simple_match(stars, name.skip(k + 1)));
                    assert(simple_match(p, name));
                }
            }
        }
    }
}

/// A name that a template gives for a kind of backup matches the template's pattern for
/// that kind, whatever the macros and the time are, where the pattern is valid; and it is,
/// unless two placeholders for anything follow one another directly.
pub proof fn law_names_match_their_kind(
    template: Seq<char>,
    kind: Seq<char>,
    now: Timestamp,
    macros: Seq<(Seq<char>, Seq<char>)>,
)
    requires
        well_closed(template),
        known_kind(kind),
        resolved(template, kind, now, macros) is Some,
    ensures
        simple_valid(type_glob(template, kind)) ==> could_be(
            template,
            resolved(template, kind, now, macros)->0,
            kind,
        ),
        !adjacent_placeholders(template) ==> simple_valid(type_glob(template, kind)),
{
    if simple_valid(type_glob(template, kind)) {
        lemma_name_matches(template, kind, now, macros, true);
    }
    if !adjacent_placeholders(template) {
        lemma_apart_is_valid(template, kind, true);
    }
}

proof fn lemma_type_has_no_colon()
    ensures
        !"type"@.contains(':'),
{
    reveal_strlit("type");
}

proof fn lemma_position_is_len(s: Seq<char>)
    requires
        !s.contains(':'),
    ensures
        position(s, ':') == s.len(),
{
    lemma_position(s, ':');
}

/// The other of the two kinds.
pub open spec fn other_kind(kind: Seq<char>) -> Seq<char> {
    if kind == "full"@ {
        "incr"@
    } else {
        "full"@
    }
}

/// A backup that the watch loop makes is never taken for one of the other kind. Its kind is
/// told, unless its name could as well be one of the other kind, or two placeholders for
/// anything follow one another directly.
pub proof fn law_backups_are_not_mistaken(
    template: Seq<char>,
    kind: Seq<char>,
    now: Timestamp,
    macros: Seq<(Seq<char>, Seq<char>)>,
)
    requires
        well_closed(template),
        known_kind(kind),
        resolved(template, kind, now, macros) is Some,
    ensures
        ({
            let name = resolved(template, kind, now, macros)->0;
            &&& backup_kind(template, name) is None || backup_kind(template, name) == Some(kind)
            &&& !adjacent_placeholders(template) ==> !possible_kind(
                template,
                name,
                Some(other_kind(kind)),
            )
            &&& has_text(template, "{type}"@) && backup_kind(template, name) is None ==> could_be(
                template,
                name,
                other_kind(kind),
            ) || adjacent_placeholders(template)
        }),
{
    reveal_strlit("full");
    reveal_strlit("incr");
    assert("full"@[0] != "incr"@[0]);
    law_names_match_their_kind(template, kind, now, macros);
    lemma_kinds_are_alike(template, true);
}

} // verus!
