//! Selection of tables by glob patterns over `database.table`, and the lists of engines,
//! disks and tables that a backup leaves out.

use vstd::prelude::*;
use vstd::string::StringExecFns;

use crate::text::{
    blank, leading_blanks, lemma_leading_blanks, lemma_position, lemma_position_is,
    lemma_split_concat, lemma_trailing_blanks, position, same, split, split_text,
    trailing_blanks, trim, trim_text,
};

verus! {

// ---------------------------------------------------------------------------
// Glob patterns
// ---------------------------------------------------------------------------

/// The text has no backslash, which separates directories on some machines and on others is
/// a character like any other.
pub open spec fn portable(s: Seq<char>) -> bool {
    !s.contains('\\')
}

/// All of the texts are without a backslash.
pub open spec fn all_portable(v: Seq<Seq<char>>) -> bool {
    forall|i: int| 0 <= i < v.len() ==> portable(#[trigger] v[i])
}

/// The glob crate accepts the pattern.
pub uninterp spec fn glob_valid(pattern: Seq<char>) -> bool;

/// The text matches the pattern, which the glob crate accepts.
pub uninterp spec fn glob_accepts(pattern: Seq<char>, text: Seq<char>) -> bool;

/// The characters with a meaning of their own in a pattern, which brackets take away.
pub open spec fn special(c: char) -> bool {
    c == '*' || c == '?' || c == '[' || c == ']'
}

/// The pattern is made of literal characters, special ones in brackets of their own, `?`
/// and `*`, and of nothing else.
pub open spec fn simple_pattern(p: Seq<char>) -> bool
    decreases p.len(),
{
    if p.len() == 0 {
        true
    } else if p[0] == '[' {
        p.len() >= 3 && special(p[1]) && p[2] == ']' && simple_pattern(p.skip(3))
    } else {
        simple_pattern(p.skip(1))
    }
}

/// The pattern has two `*` in a row at its start.
pub open spec fn double_star(p: Seq<char>) -> bool {
    p.len() >= 2 && p[0] == '*' && p[1] == '*'
}

/// What follows two `*` at the start of a pattern, with the slash that ends the component.
pub open spec fn after_stars(p: Seq<char>) -> Seq<char> {
    if p.len() == 2 {
        Seq::empty()
    } else {
        p.skip(3)
    }
}

/// The rest of a simple pattern is valid: two `*` in a row are a whole component of a path,
/// and there are no three in a row. `starts` says that the rest starts a component.
pub open spec fn valid_rest(p: Seq<char>, starts: bool) -> bool
    decreases p.len(),
{
    if p.len() == 0 {
        true
    } else if double_star(p) {
        starts && (p.len() == 2 || (p[2] == '/' && valid_rest(after_stars(p), true)))
    } else if p[0] == '[' && p.len() >= 3 {
        valid_rest(p.skip(3), false)
    } else {
        valid_rest(p.skip(1), p[0] == '/')
    }
}

/// The simple pattern is valid.
pub open spec fn simple_valid(p: Seq<char>) -> bool {
    valid_rest(p, true)
}

/// The text matches a simple pattern that is valid: `*` stands for any text, `**` for any
/// number of components with the slashes that end them or for all that is left, `?` for any
/// character, and everything else for itself.
pub open spec fn simple_match(p: Seq<char>, t: Seq<char>) -> bool
    decreases p.len(), t.len(),
{
    if p.len() == 0 {
        t.len() == 0
    } else if double_star(p) {
        ||| simple_match(after_stars(p), t)
        ||| simple_match(after_stars(p), Seq::empty())
        ||| exists|k: int|
            0 <= k < t.len() && #[trigger] t[k] == '/' && simple_match(
                after_stars(p),
                t.skip(k + 1),
            )
    } else if p[0] == '*' {
        simple_match(p.skip(1), t) || (t.len() > 0 && simple_match(p, t.skip(1)))
    } else if p[0] == '[' && p.len() >= 3 {
        t.len() > 0 && t[0] == p[1] && simple_match(p.skip(3), t.skip(1))
    } else {
        t.len() > 0 && (p[0] == '?' || t[0] == p[0]) && simple_match(p.skip(1), t.skip(1))
    }
}

/// The text matches a simple pattern.
pub open spec fn simply_fits(p: Seq<char>, t: Seq<char>) -> bool {
    simple_valid(p) && simple_match(p, t)
}

/// `glob::Pattern::new` says whether a text is a pattern. Where the text has no backslash,
/// that depends on the text alone: a simple pattern is one, unless it has `**` that is no
/// whole component of a path, or more than two `*` in a row. A machine that takes a backslash
/// for a separator as well refuses no more of them.
#[verifier::external_body]
pub(crate) fn glob_compiles(pattern: &str) -> (r: bool)
    ensures
        portable(pattern@) ==> r == glob_valid(pattern@),
        portable(pattern@) && simple_pattern(pattern@) ==> r == simple_valid(pattern@),
        simple_pattern(pattern@) && simple_valid(pattern@) ==> r,
{
    glob::Pattern::new(pattern).is_ok()
}

/// `glob::Pattern::matches` on the compiled pattern; nothing where the text is no pattern.
/// Where neither text has a backslash, the answer depends on the two texts alone. In simple
/// patterns `*` matches any text, `**` any number of whole components or all that is left,
/// `?` any character and everything else itself, in the same case. A machine that takes a
/// backslash for a separator, which then matches a slash and ends a component, accepts all
/// of that as well; what more it accepts is left open.
#[verifier::external_body]
pub(crate) fn glob_matches(pattern: &str, text: &str) -> (r: Option<bool>)
    ensures
        portable(pattern@) ==> (r is Some <==> glob_valid(pattern@)),
        portable(pattern@) && portable(text@) ==> (r matches Some(b) ==> b == glob_accepts(
            pattern@,
            text@,
        )),
        portable(pattern@) && simple_pattern(pattern@) ==> (r is Some <==> simple_valid(
            pattern@,
        )),
        portable(pattern@) && portable(text@) && simple_pattern(pattern@) ==> (r matches Some(b)
            ==> b == simple_match(pattern@, text@)),
        simple_pattern(pattern@) && simply_fits(pattern@, text@) ==> r == Some(true),
{
    glob::Pattern::new(pattern).ok().map(|p| p.matches(text))
}

/// All of the patterns are simple.
pub open spec fn all_simple(patterns: Seq<Seq<char>>) -> bool {
    forall|i: int| 0 <= i < patterns.len() ==> simple_pattern(#[trigger] patterns[i])
}

/// The text matches one of the simple patterns.
pub open spec fn any_simple(patterns: Seq<Seq<char>>, text: Seq<char>) -> bool {
    exists|i: int| 0 <= i < patterns.len() && simply_fits(#[trigger] patterns[i], text)
}

/// The text matches a simple one among the patterns, as it does on every machine.
pub open spec fn surely_matched(patterns: Seq<Seq<char>>, text: Seq<char>) -> bool {
    exists|i: int|
        0 <= i < patterns.len() && simple_pattern(#[trigger] patterns[i]) && simply_fits(
            patterns[i],
            text,
        )
}

/// The pattern is valid and matches the text.
pub open spec fn accepts(pattern: Seq<char>, text: Seq<char>) -> bool {
    glob_valid(pattern) && glob_accepts(pattern, text)
}

/// One of the patterns is valid and matches the text.
pub open spec fn any_accepts(patterns: Seq<Seq<char>>, text: Seq<char>) -> bool {
    exists|i: int| 0 <= i < patterns.len() && accepts(#[trigger] patterns[i], text)
}

/// The texts have no backslash, and so the pattern matches the text on every machine or on
/// none.
pub open spec fn told_alike(pattern: Seq<char>, text: Seq<char>) -> bool {
    portable(pattern) && portable(text)
}

/// `r` can be the answer whether one of the patterns matches the text: it is yes where one
/// does on every machine, and no where none does on any.
pub open spec fn possible_answer(patterns: Seq<Seq<char>>, text: Seq<char>, r: bool) -> bool {
    &&& surely_matched(patterns, text) ==> r
    &&& (exists|i: int|
        0 <= i < patterns.len() && told_alike(#[trigger] patterns[i], text) && accepts(
            patterns[i],
            text,
        )) ==> r
    &&& r ==> exists|i: int|
        0 <= i < patterns.len() && (told_alike(#[trigger] patterns[i], text) ==> accepts(
            patterns[i],
            text,
        ))
}

/// Where no text has a backslash, the only possible answer is the one that the patterns give.
pub proof fn law_answers_are_the_same_everywhere(
    patterns: Seq<Seq<char>>,
    text: Seq<char>,
    r: bool,
)
    requires
        all_portable(patterns),
        portable(text),
        possible_answer(patterns, text, r),
    ensures
        r == any_accepts(patterns, text),
{
    if any_accepts(patterns, text) {
        let i = choose|i: int| 0 <= i < patterns.len() && accepts(#[trigger] patterns[i], text);
        assert(told_alike(patterns[i], text));
    }
    if r {
        let i = choose|i: int|
            0 <= i < patterns.len() && (told_alike(#[trigger] patterns[i], text) ==> accepts(
                patterns[i],
                text,
            ));
        assert(portable(patterns[i]));
        assert(accepts(patterns[i], text));
    }
}

/// The texts of a list of strings.
pub open spec fn texts(v: Seq<String>) -> Seq<Seq<char>> {
    Seq::new(v.len(), |i: int| v[i]@)
}

/// Whether one of the patterns is valid and matches the text.
fn any_match(patterns: &[String], text: &str) -> (r: bool)
    ensures
        possible_answer(texts(patterns@), text@, r),
        all_portable(texts(patterns@)) && portable(text@) ==> {
            &&& r == any_accepts(texts(patterns@), text@)
            &&& all_simple(texts(patterns@)) ==> r == any_simple(texts(patterns@), text@)
        },
{
    let ghost all = texts(patterns@);
    let mut i: usize = 0;
    while i < patterns.len()
        invariant
            i <= patterns@.len(),
            all == texts(patterns@),
            forall|j: int|
                0 <= j < i ==> !(told_alike(#[trigger] all[j], text@) && accepts(all[j], text@)),
            forall|j: int|
                0 <= j < i ==> !(simple_pattern(#[trigger] all[j]) && simply_fits(all[j], text@)),
        decreases patterns@.len() - i,
    {
        assert(all[i as int] == patterns@[i as int]@);
        match glob_matches(patterns[i].as_str(), text) {
            Some(true) => {
                proof {
                    if all_portable(all) && portable(text@) {
                        assert(portable(all[i as int]));
                        assert(accepts(all[i as int], text@));
                    }
                }
                return true;
            },
            _ => {},
        }
        i += 1;
    }
    proof {
        assert(possible_answer(all, text@, false));
        if all_portable(all) && portable(text@) {
            law_answers_are_the_same_everywhere(all, text@, false);
        }
    }
    false
}

/// Whether the text is one of the list.
fn listed(list: &[String], text: &str) -> (r: bool)
    ensures
        r == texts(list@).contains(text@),
{
    let ghost all = texts(list@);
    let mut i: usize = 0;
    while i < list.len()
        invariant
            i <= list@.len(),
            all == texts(list@),
            forall|j: int| 0 <= j < i ==> all[j] != text@,
        decreases list@.len() - i,
    {
        if same(list[i].as_str(), text) {
            assert(all[i as int] == text@);
            return true;
        }
        i += 1;
    }
    false
}

// ---------------------------------------------------------------------------
// Tables
// ---------------------------------------------------------------------------

/// The databases of the server itself.
pub open spec fn system_database(db: Seq<char>) -> bool {
    db == "system"@ || db == "INFORMATION_SCHEMA"@ || db == "information_schema"@
}

/// Whether the database is one of the server itself.
pub fn is_system_database(db: &str) -> (r: bool)
    ensures
        r == system_database(db@),
        r == (db@ == "system"@ || db@ == "INFORMATION_SCHEMA"@ || db@ == "information_schema"@),
{
    same(db, "system") || same(db, "INFORMATION_SCHEMA") || same(db, "information_schema")
}

/// `database.table`.
pub open spec fn full_table_name(db: Seq<char>, table: Seq<char>) -> Seq<char> {
    db + "."@ + table
}

/// `database.table`.
fn full_name(db: &str, table: &str) -> (r: String)
    ensures
        r@ == full_table_name(db@, table@),
        r@ == db@ + "."@ + table@,
{
    db.to_string().concat(".").concat(table)
}

/// The pieces that are patterns, without the blanks around them, in order.
pub open spec fn usable(pieces: Seq<Seq<char>>) -> Seq<Seq<char>>
    decreases pieces.len(),
{
    if pieces.len() == 0 {
        Seq::empty()
    } else {
        let before = usable(pieces.drop_last());
        let p = trim(pieces.last());
        if p.len() > 0 && glob_valid(p) {
            before.push(p)
        } else {
            before
        }
    }
}

/// The pieces that are kept, without the blanks around them, in order.
pub open spec fn kept_pieces(pieces: Seq<Seq<char>>, keep: Seq<bool>) -> Seq<Seq<char>>
    decreases pieces.len(),
{
    if pieces.len() == 0 {
        Seq::empty()
    } else {
        let before = kept_pieces(pieces.drop_last(), keep);
        if keep[pieces.len() - 1] {
            before.push(trim(pieces.last()))
        } else {
            before
        }
    }
}

/// These can be the pieces that are kept: none that is blank, and of those without a
/// backslash just the patterns.
pub open spec fn possibly_kept(pieces: Seq<Seq<char>>, keep: Seq<bool>) -> bool {
    &&& keep.len() == pieces.len()
    &&& forall|i: int|
        0 <= i < pieces.len() ==> {
            &&& trim(#[trigger] pieces[i]).len() == 0 ==> !keep[i]
            &&& trim(pieces[i]).len() > 0 && portable(trim(pieces[i])) ==> keep[i] == glob_valid(
                trim(pieces[i]),
            )
        }
}

/// These can be the patterns that a list of patterns is read as.
pub open spec fn possible_patterns(pattern: Seq<char>, patterns: Seq<Seq<char>>) -> bool {
    exists|keep: Seq<bool>| #[trigger]
        possibly_kept(split(pattern, ','), keep) && patterns == kept_pieces(
            split(pattern, ','),
            keep,
        )
}

/// The pieces that are not blank, without the blanks around them, in order.
pub open spec fn trimmed_pieces(pieces: Seq<Seq<char>>) -> Seq<Seq<char>>
    decreases pieces.len(),
{
    if pieces.len() == 0 {
        Seq::empty()
    } else {
        let before = trimmed_pieces(pieces.drop_last());
        let p = trim(pieces.last());
        if p.len() > 0 {
            before.push(p)
        } else {
            before
        }
    }
}

/// All of the pieces are simple patterns, and valid, once the blanks around them are gone.
pub open spec fn simple_pieces(pieces: Seq<Seq<char>>) -> bool {
    forall|i: int|
        0 <= i < pieces.len() ==> simple_pattern(trim(#[trigger] pieces[i])) && simple_valid(
            trim(pieces[i]),
        )
}

/// Whether a later piece is kept changes nothing of those before.
proof fn lemma_kept_prefix(pieces: Seq<Seq<char>>, keep: Seq<bool>, next: bool)
    requires
        keep.len() >= pieces.len(),
    ensures
        kept_pieces(pieces, keep.push(next)) == kept_pieces(pieces, keep),
    decreases pieces.len(),
{
    if pieces.len() > 0 {
        lemma_kept_prefix(pieces.drop_last(), keep, next);
    }
}

/// The pieces of a text have no backslash where the text has none.
proof fn lemma_pieces_portable(s: Seq<char>)
    requires
        portable(s),
    ensures
        all_portable(split(s, ',')),
    decreases s.len(),
{
    lemma_position(s, ',');
    let at = position(s, ',') as int;
    if at < s.len() {
        let rest = s.skip(at + 1);
        assert forall|i: int| 0 <= i < rest.len() implies rest[i] != '\\' by {
            assert(rest[i] == s[at + 1 + i]);
        }
        lemma_pieces_portable(rest);
        let first = s.take(at);
        assert forall|i: int| 0 <= i < first.len() implies first[i] != '\\' by {
            assert(first[i] == s[i]);
        }
        let all = split(s, ',');
        assert forall|i: int| 0 <= i < all.len() implies portable(#[trigger] all[i]) by {
            if i == 0 {
                assert(all[i] == first);
            } else {
                assert(all[i] == split(rest, ',')[i - 1]);
            }
        }
    } else {
        let all = split(s, ',');
        assert forall|i: int| 0 <= i < all.len() implies portable(#[trigger] all[i]) by {
            assert(all[i] == s);
        }
    }
}

/// A text without the blanks around it has no backslash where the text has none.
proof fn lemma_trim_portable(s: Seq<char>)
    requires
        portable(s),
    ensures
        portable(trim(s)),
{
    lemma_leading_blanks(s);
    let t = s.skip(leading_blanks(s) as int);
    lemma_trailing_blanks(t);
    let r = trim(s);
    assert forall|i: int| 0 <= i < r.len() implies r[i] != '\\' by {
        assert(r[i] == t[i]);
        assert(t[i] == s[leading_blanks(s) + i]);
    }
}

/// The pieces that are kept of a text without a backslash are its patterns.
proof fn lemma_kept_are_usable(pieces: Seq<Seq<char>>, keep: Seq<bool>)
    requires
        keep.len() >= pieces.len(),
        all_portable(pieces),
        forall|i: int|
            0 <= i < pieces.len() ==> keep[i] == (trim(#[trigger] pieces[i]).len() > 0
                && glob_valid(trim(pieces[i]))),
    ensures
        kept_pieces(pieces, keep) == usable(pieces),
        all_portable(usable(pieces)),
    decreases pieces.len(),
{
    if pieces.len() > 0 {
        let init = pieces.drop_last();
        assert forall|i: int| 0 <= i < init.len() implies keep[i] == (trim(
            #[trigger] init[i],
        ).len() > 0 && glob_valid(trim(init[i]))) && portable(init[i]) by {
            assert(init[i] == pieces[i]);
        }
        lemma_kept_are_usable(init, keep);
        let last = pieces[pieces.len() - 1];
        lemma_trim_portable(last);
        assert(keep[pieces.len() - 1] == (trim(last).len() > 0 && glob_valid(trim(last))));
    }
}

/// A list of patterns without a backslash is read the same on every machine: as its pieces
/// that are patterns.
pub proof fn law_patterns_are_read_alike(pattern: Seq<char>, patterns: Seq<Seq<char>>)
    requires
        portable(pattern),
        possible_patterns(pattern, patterns),
    ensures
        patterns == usable(split(pattern, ',')),
        all_portable(patterns),
{
    let pieces = split(pattern, ',');
    lemma_pieces_portable(pattern);
    let keep = choose|keep: Seq<bool>| #[trigger]
        possibly_kept(pieces, keep) && patterns == kept_pieces(pieces, keep);
    assert forall|i: int| 0 <= i < pieces.len() implies keep[i] == (trim(
        #[trigger] pieces[i],
    ).len() > 0 && glob_valid(trim(pieces[i]))) by {
        lemma_trim_portable(pieces[i]);
    }
    lemma_kept_are_usable(pieces, keep);
}

/// The table is chosen: one of the patterns matches its name, and its database is not one
/// of the server itself.
pub open spec fn chosen(patterns: Seq<Seq<char>>, db: Seq<char>, table: Seq<char>) -> bool {
    !system_database(db) && any_accepts(patterns, full_table_name(db, table))
}

/// A choice of tables by patterns over `database.table`.
#[derive(Debug)]
pub struct TableFilter {
    patterns: Vec<String>,
}

impl View for TableFilter {
    type V = Seq<Seq<char>>;

    closed spec fn view(&self) -> Seq<Seq<char>> {
        texts(self.patterns@)
    }
}

impl TableFilter {
    /// The filter for a list of patterns with commas between them. Blanks around a pattern
    /// do not count; empty and invalid patterns are left out.
    pub fn new(pattern: &str) -> (r: TableFilter)
        ensures
            possible_patterns(pattern@, r@),
            portable(pattern@) ==> r@ == usable(split(pattern@, ',')) && all_portable(r@),
            simple_pieces(split(pattern@, ',')) ==> r@ == trimmed_pieces(split(pattern@, ',')),
    {
        let pieces = split_text(pattern, ',');
        let ghost all = pieces.deep_view();
        let mut patterns: Vec<String> = Vec::new();
        let ghost mut keep: Seq<bool> = Seq::empty();
        let mut i: usize = 0;
        assert(texts(patterns@) =~= kept_pieces(all.take(0), keep));
        assert(texts(patterns@) =~= usable(all.take(0)));
        assert(texts(patterns@) =~= trimmed_pieces(all.take(0)));
        proof {
            if portable(pattern@) {
                lemma_pieces_portable(pattern@);
            }
        }
        while i < pieces.len()
            invariant
                i <= pieces@.len(),
                all == pieces.deep_view(),
                portable(pattern@) ==> all_portable(all),
                portable(pattern@) ==> texts(patterns@) == usable(all.take(i as int))
                    && all_portable(texts(patterns@)),
                simple_pieces(all) ==> texts(patterns@) == trimmed_pieces(all.take(i as int)),
                possibly_kept(all.take(i as int), keep),
                texts(patterns@) == kept_pieces(all.take(i as int), keep),
            decreases pieces@.len() - i,
        {
            proof {
                assert(all.take(i + 1).drop_last() =~= all.take(i as int));
                assert(all.take(i + 1).last() == pieces@[i as int]@);
                assert(all[i as int] == pieces@[i as int]@);
                if portable(pattern@) {
                    lemma_trim_portable(all[i as int]);
                }
            }
            let p = trim_text(pieces[i].as_str());
            let used = !p.as_str().is_empty() && glob_compiles(p.as_str());
            proof {
                let now = all.take(i + 1);
                let kept = keep.push(used);
                lemma_kept_prefix(all.take(i as int), keep, used);
                assert forall|j: int| 0 <= j < now.len() implies {
                    &&& trim(#[trigger] now[j]).len() == 0 ==> !kept[j]
                    &&& trim(now[j]).len() > 0 && portable(trim(now[j])) ==> kept[j] == glob_valid(
                        trim(now[j]),
                    )
                } by {
                    if j < i {
                        assert(now[j] == all.take(i as int)[j]);
                    }
                }
                keep = kept;
            }
            if used {
                let ghost was = texts(patterns@);
                let ghost text = p@;
                patterns.push(p);
                assert(texts(patterns@) =~= was.push(text));
            }
            i += 1;
        }
        assert(all.take(i as int) =~= all);
        TableFilter { patterns }
    }

    /// Whether a table is chosen: one of the patterns matches its name, and its database
    /// is not one of the server itself.
    pub fn matches(&self, db: &str, table: &str) -> (r: bool)
        ensures
            system_database(db@) ==> !r,
            db@ == "system"@ || db@ == "INFORMATION_SCHEMA"@ || db@ == "information_schema"@
                ==> !r,
            !system_database(db@) ==> possible_answer(self@, full_table_name(db@, table@), r),
            all_portable(self@) && portable(full_table_name(db@, table@)) ==> {
                &&& r == chosen(self@, db@, table@)
                &&& all_simple(self@) ==> r == (!system_database(db@) && any_simple(
                    self@,
                    full_table_name(db@, table@),
                ))
            },
    {
        if is_system_database(db) {
            return false;
        }
        let name = full_name(db, table);
        any_match(self.patterns.as_slice(), name.as_str())
    }

    /// Whether one of the patterns matches a table's name, in any database.
    pub fn matches_including_system(&self, db: &str, table: &str) -> (r: bool)
        ensures
            possible_answer(self@, full_table_name(db@, table@), r),
            all_portable(self@) && portable(full_table_name(db@, table@)) ==> {
                &&& r == any_accepts(self@, full_table_name(db@, table@))
                &&& all_simple(self@) ==> r == any_simple(self@, full_table_name(db@, table@))
            },
    {
        let name = full_name(db, table);
        any_match(self.patterns.as_slice(), name.as_str())
    }
}

/// Whether a table is left out: one of the patterns matches its name. Invalid patterns
/// match nothing.
pub fn is_excluded(db: &str, table: &str, skip_patterns: &[String]) -> (r: bool)
    ensures
        possible_answer(texts(skip_patterns@), full_table_name(db@, table@), r),
        all_portable(texts(skip_patterns@)) && portable(full_table_name(db@, table@)) ==> {
            &&& r == any_accepts(texts(skip_patterns@), full_table_name(db@, table@))
            &&& all_simple(texts(skip_patterns@)) ==> r == any_simple(
                texts(skip_patterns@),
                full_table_name(db@, table@),
            )
        },
{
    let name = full_name(db, table);
    any_match(skip_patterns, name.as_str())
}

/// Whether tables with the engine are left out.
pub fn is_engine_excluded(engine: &str, skip_engines: &[String]) -> (r: bool)
    ensures
        r == texts(skip_engines@).contains(engine@),
{
    listed(skip_engines, engine)
}

/// Whether a disk is left out, by its name or by its type.
pub fn is_disk_excluded(
    disk_name: &str,
    disk_type: &str,
    skip_disks: &[String],
    skip_disk_types: &[String],
) -> (r: bool)
    ensures
        r == (texts(skip_disks@).contains(disk_name@) || texts(skip_disk_types@).contains(
            disk_type@,
        )),
{
    listed(skip_disks, disk_name) || listed(skip_disk_types, disk_type)
}

/// No table of a database of the server itself is ever chosen, whatever the patterns.
pub proof fn law_system_tables_are_never_chosen(
    patterns: Seq<Seq<char>>,
    db: Seq<char>,
    table: Seq<char>,
)
    requires
        system_database(db),
    ensures
        !chosen(patterns, db, table),
{
}

/// A choice by two lists of patterns together is the choice by either.
pub proof fn law_patterns_add_up(
    a: Seq<Seq<char>>,
    b: Seq<Seq<char>>,
    db: Seq<char>,
    table: Seq<char>,
)
    ensures
        chosen(a + b, db, table) <==> chosen(a, db, table) || chosen(b, db, table),
{
    let name = full_table_name(db, table);
    let all = a + b;
    if any_accepts(a, name) {
        let i = choose|i: int| 0 <= i < a.len() && accepts(#[trigger] a[i], name);
        assert(all[i] == a[i]);
    }
    if any_accepts(b, name) {
        let i = choose|i: int| 0 <= i < b.len() && accepts(#[trigger] b[i], name);
        assert(all[a.len() + i] == b[i]);
    }
    if any_accepts(all, name) {
        let i = choose|i: int| 0 <= i < all.len() && accepts(#[trigger] all[i], name);
        if i < a.len() {
            assert(all[i] == a[i]);
        } else {
            assert(all[i] == b[i - a.len()]);
        }
    }
}

/// The patterns of two lists of pieces together are those of the one and then those of the
/// other.
proof fn lemma_usable_concat(a: Seq<Seq<char>>, b: Seq<Seq<char>>)
    ensures
        usable(a + b) == usable(a) + usable(b),
    decreases b.len(),
{
    if b.len() == 0 {
        assert(a + b =~= a);
        assert(usable(a) + usable(b) =~= usable(a));
    } else {
        lemma_usable_concat(a, b.drop_last());
        assert((a + b).drop_last() =~= a + b.drop_last());
        assert((a + b).last() == b.last());
        assert(usable(a + b) =~= usable(a) + usable(b));
    }
}

/// A comma between two lists of patterns makes a list of the patterns of both, which chooses
/// just the tables that one of them chooses. The empty list chooses none.
pub proof fn law_lists_of_patterns_add_up(
    a: Seq<char>,
    b: Seq<char>,
    db: Seq<char>,
    table: Seq<char>,
)
    ensures
        ({
            let both = usable(split(a + seq![','] + b, ','));
            &&& both == usable(split(a, ',')) + usable(split(b, ','))
            &&& chosen(both, db, table) <==> chosen(usable(split(a, ',')), db, table) || chosen(
                usable(split(b, ',')),
                db,
                table,
            )
        }),
        !chosen(usable(split(Seq::empty(), ',')), db, table),
{
    lemma_split_concat(a, b, ',');
    lemma_usable_concat(split(a, ','), split(b, ','));
    law_patterns_add_up(usable(split(a, ',')), usable(split(b, ',')), db, table);
    let none = Seq::<char>::empty();
    lemma_position(none, ',');
    assert(split(none, ',') == seq![none]);
    lemma_leading_blanks(none);
    lemma_trailing_blanks(none.skip(0));
    assert(trim(none).len() == 0);
    assert(seq![none].drop_last() =~= Seq::<Seq<char>>::empty());
    assert(usable(seq![none].drop_last()) =~= Seq::<Seq<char>>::empty());
    assert(usable(split(none, ',')) =~= Seq::<Seq<char>>::empty());
}

/// The pattern has no character with a meaning of its own.
pub open spec fn plain_pattern(pattern: Seq<char>) -> bool {
    !pattern.contains('*') && !pattern.contains('?') && !pattern.contains('[')
}

/// A pattern without special characters matches itself and nothing else.
pub proof fn law_plain_pattern_matches_itself(p: Seq<char>, t: Seq<char>)
    requires
        plain_pattern(p),
    ensures
        simple_pattern(p),
        simple_valid(p),
        simply_fits(p, t) <==> p == t,
{
    lemma_plain(p, t, true);
}

proof fn lemma_plain(p: Seq<char>, t: Seq<char>, starts: bool)
    requires
        plain_pattern(p),
    ensures
        simple_pattern(p),
        valid_rest(p, starts),
        simple_match(p, t) <==> p == t,
    decreases p.len(),
{
    if p.len() > 0 {
        let rest = p.skip(1);
        assert forall|i: int| 0 <= i < rest.len() implies rest[i] != '*' && rest[i] != '?' && rest[i]
            != '[' by {
            assert(rest[i] == p[i + 1]);
        }
        assert(p[0] != '*' && p[0] != '?' && p[0] != '[');
        if t.len() > 0 {
            lemma_plain(rest, t.skip(1), p[0] == '/');
            assert(p =~= seq![p[0]] + rest);
            assert(t =~= seq![t[0]] + t.skip(1));
            if p == t {
                assert(rest =~= t.skip(1));
            }
        } else {
            lemma_plain(rest, t, p[0] == '/');
        }
    } else if t.len() == 0 {
        assert(p =~= t);
    }
}

/// A single `*` matches every text.
proof fn lemma_star_matches_all(t: Seq<char>)
    ensures
        simple_match(seq!['*'], t),
    decreases t.len(),
{
    let star = seq!['*'];
    assert(star.skip(1) =~= Seq::empty());
    if t.len() > 0 {
        lemma_star_matches_all(t.skip(1));
    } else {
        assert(simple_match(star.skip(1), t));
    }
}

/// `*.*` matches the texts that hold a dot.
proof fn lemma_default_pattern(t: Seq<char>)
    ensures
        simple_match(seq!['*', '.', '*'], t) <==> t.contains('.'),
    decreases t.len(),
{
    let p = seq!['*', '.', '*'];
    assert(p.skip(1) =~= seq!['.', '*']);
    assert(seq!['.', '*'].skip(1) =~= seq!['*']);
    assert(simple_match(p.skip(1), t) == (t.len() > 0 && t[0] == '.' && simple_match(
        seq!['*'],
        t.skip(1),
    )));
    if t.len() > 0 {
        let rest = t.skip(1);
        lemma_default_pattern(rest);
        lemma_star_matches_all(rest);
        if rest.contains('.') {
            let k = choose|k: int| 0 <= k < rest.len() && rest[k] == '.';
            assert(t[k + 1] == '.');
        }
        if t.contains('.') && t[0] != '.' {
            let k = choose|k: int| 0 <= k < t.len() && t[k] == '.';
            assert(rest[k - 1] == '.');
        }
        if t[0] == '.' {
            assert(t.contains('.'));
        }
    }
}

/// The default pattern `*.*` is read as it is, and chooses every table that is not one of
/// the server itself.
pub proof fn law_default_pattern_chooses_every_table(db: Seq<char>, table: Seq<char>)
    ensures
        simple_pieces(split("*.*"@, ',')),
        trimmed_pieces(split("*.*"@, ',')) == seq!["*.*"@],
        all_simple(seq!["*.*"@]),
        any_simple(seq!["*.*"@], full_table_name(db, table)),
{
    reveal_strlit("*.*");
    reveal_strlit(".");
    let s = "*.*"@;
    assert(s =~= seq!['*', '.', '*']);
    lemma_position_is(s, ',', 3);
    assert(split(s, ',') == seq![s]);
    assert(!blank(s[0]) && !blank(s[2]));
    assert(leading_blanks(s) == 0);
    assert(s.skip(0) =~= s);
    assert(trailing_blanks(s) == 0);
    assert(trim(s) =~= s);
    assert(s.skip(1) =~= seq!['.', '*']);
    assert(s.skip(1).skip(1) =~= seq!['*']);
    assert(seq!['*'].skip(1) =~= Seq::<char>::empty());
    assert(simple_pattern(Seq::<char>::empty()));
    assert(simple_pattern(seq!['*']));
    assert(simple_pattern(s.skip(1)));
    assert(simple_pattern(s));
    assert(valid_rest(Seq::<char>::empty(), false));
    assert(valid_rest(seq!['*'], false));
    assert(valid_rest(s.skip(1), false));
    assert(simple_valid(s));
    let pieces = seq![s];
    assert(pieces.drop_last() =~= Seq::<Seq<char>>::empty());
    assert(trimmed_pieces(pieces.drop_last()) =~= Seq::<Seq<char>>::empty());
    assert(trimmed_pieces(pieces) =~= pieces);
    let name = full_table_name(db, table);
    assert(name[db.len() as int] == '.');
    lemma_default_pattern(name);
    assert(simply_fits(pieces[0], name));
}

/// A pattern `db.*` for a plain name chooses just the tables of that database, and a plain
/// pattern `db.table` just that table, if the database is not one of the server itself.
pub proof fn law_patterns_choose_what_they_name(
    db: Seq<char>,
    other_db: Seq<char>,
    table: Seq<char>,
    other_table: Seq<char>,
)
    requires
        plain_pattern(db),
        !db.contains('.'),
        !other_db.contains('.'),
        plain_pattern(table),
    ensures
        simply_fits(db + ".*"@, full_table_name(other_db, other_table)) <==> other_db == db,
        simply_fits(full_table_name(db, table), full_table_name(other_db, other_table)) <==> other_db
            == db && other_table == table,
{
    reveal_strlit(".");
    reveal_strlit(".*");
    let name = full_table_name(other_db, other_table);
    let own = full_table_name(db, table);
    let front = db + "."@;
    let star = seq!['*'];
    assert(db + ".*"@ =~= front + star);
    assert forall|i: int| 0 <= i < front.len() implies front[i] != '*' && front[i] != '?'
        && front[i] != '[' by {
        if i < db.len() {
            assert(front[i] == db[i]);
            assert(db.contains(db[i]));
        }
    }
    assert(plain_pattern(front));
    lemma_plain_front(front, name, true);
    assert forall|i: int| 0 <= i < own.len() implies own[i] != '*' && own[i] != '?' && own[i]
        != '[' by {
        if i < db.len() {
            assert(own[i] == db[i]);
            assert(db.contains(db[i]));
        } else if i > db.len() {
            assert(own[i] == table[i - db.len() - 1]);
            assert(table.contains(table[i - db.len() - 1]));
        }
    }
    assert(plain_pattern(own));
    law_plain_pattern_matches_itself(own, name);
    lemma_names_start_alike(db, other_db, other_table);
    if own == name {
        assert(name.subrange(0, front.len() as int) =~= front);
        assert(front.is_prefix_of(name));
        assert(db == other_db);
        assert(own.skip(db.len() as int + 1) =~= table);
        assert(name.skip(db.len() as int + 1) =~= other_table);
    }
    if front.is_prefix_of(name) {
        lemma_star_matches_all(name.skip(front.len() as int));
    }
}

/// The names of the tables of a database, and of no other, start with its name and a dot.
proof fn lemma_names_start_alike(db: Seq<char>, other_db: Seq<char>, table: Seq<char>)
    requires
        !db.contains('.'),
        !other_db.contains('.'),
    ensures
        (db + "."@).is_prefix_of(full_table_name(other_db, table)) <==> other_db == db,
{
    reveal_strlit(".");
    let front = db + "."@;
    let name = full_table_name(other_db, table);
    let n = db.len() as int;
    if front.is_prefix_of(name) {
        assert(name.subrange(0, n + 1) =~= front);
        assert(name[n] == front[n] && front[n] == '.');
        if n < other_db.len() {
            assert(name[n] == other_db[n]);
            assert(other_db.contains(other_db[n]));
        }
        if other_db.len() < n {
            assert(name[other_db.len() as int] == '.');
            assert(front[other_db.len() as int] == db[other_db.len() as int]);
            assert(name.subrange(0, n + 1)[other_db.len() as int] == '.');
            assert(db.contains(db[other_db.len() as int]));
        }
        assert forall|i: int| 0 <= i < n implies other_db[i] == db[i] by {
            assert(name.subrange(0, n + 1)[i] == front[i]);
        }
        assert(other_db =~= db);
    }
    if other_db == db {
        assert(name.subrange(0, n + 1) =~= front);
    }
}

/// A plain text before `*` matches the texts that start with it.
proof fn lemma_plain_front(front: Seq<char>, t: Seq<char>, starts: bool)
    requires
        plain_pattern(front),
    ensures
        valid_rest(front + seq!['*'], starts),
        simple_match(front + seq!['*'], t) <==> front.is_prefix_of(t),
    decreases front.len(),
{
    let star = seq!['*'];
    let p = front + star;
    if front.len() == 0 {
        assert(p =~= star);
        lemma_star_matches_all(t);
        assert(star.skip(1) =~= Seq::<char>::empty());
        assert(valid_rest(Seq::<char>::empty(), false));
        assert(t.subrange(0, 0) =~= front);
    } else {
        let rest = front.skip(1);
        assert(front[0] != '*' && front[0] != '?' && front[0] != '[') by {
            assert(front.contains(front[0]));
        }
        assert forall|i: int| 0 <= i < rest.len() implies rest[i] != '*' && rest[i] != '?' && rest[i]
            != '[' by {
            assert(rest[i] == front[i + 1]);
            assert(front.contains(front[i + 1]));
        }
        assert(p.skip(1) =~= rest + star);
        assert(p[0] == front[0]);
        if t.len() > 0 {
            lemma_plain_front(rest, t.skip(1), p[0] == '/');
            if t[0] == front[0] && rest.is_prefix_of(t.skip(1)) {
                assert(t.subrange(0, front.len() as int) =~= front) by {
                    assert forall|i: int| 0 <= i < front.len() implies t[i] == front[i] by {
                        if i > 0 {
                            assert(t.skip(1).subrange(0, rest.len() as int)[i - 1] == rest[i - 1]);
                        }
                    }
                }
            }
            if front.is_prefix_of(t) {
                assert(t.subrange(0, front.len() as int)[0] == front[0]);
                assert(t.skip(1).subrange(0, rest.len() as int) =~= rest) by {
                    assert forall|i: int| 0 <= i < rest.len() implies t.skip(1)[i] == rest[i] by {
                        assert(t.subrange(0, front.len() as int)[i + 1] == front[i + 1]);
                    }
                }
            }
        } else {
            lemma_plain_front(rest, t, p[0] == '/');
        }
    }
}

/// A text without a comma is one pattern, without the blanks around it, where the text is
/// not blank and is a pattern; and else none.
pub proof fn law_text_without_a_comma_is_one_pattern(text: Seq<char>)
    requires
        !text.contains(','),
    ensures
        trim(text).len() > 0 && glob_valid(trim(text)) ==> usable(split(text, ',')) == seq![trim(
            text,
        )],
        trim(text).len() == 0 || !glob_valid(trim(text)) ==> usable(split(text, ',')).len() == 0,
{
    lemma_position(text, ',');
    assert(split(text, ',') == seq![text]);
    let one = seq![text];
    assert(one.drop_last() =~= Seq::<Seq<char>>::empty());
    assert(usable(one.drop_last()) =~= Seq::<Seq<char>>::empty());
    assert(one.last() == text);
    assert(Seq::<Seq<char>>::empty().push(trim(text)) =~= seq![trim(text)]);
}

} // verus!
