//! Text as sequences of characters: searching, splitting, trimming, joining,
//! decimal numbers and the order of strings.

use vstd::prelude::*;
use vstd::string::{StrSliceExecFns, StringExecFns};
use vstd::utf8::{decode_utf8, valid_utf8};

verus! {

/// `String::push` appends one character and leaves the rest of the string as it was.
pub assume_specification[ String::push ](s: &mut String, c: char)
    ensures
        final(s)@ == old(s)@.push(c),
;

// ---------------------------------------------------------------------------
// Model
// ---------------------------------------------------------------------------

/// Index of the first `c` in `s`, or `s.len()` where there is none.
pub open spec fn position(s: Seq<char>, c: char) -> nat
    decreases s.len(),
{
    if s.len() == 0 {
        0
    } else if s[0] == c {
        0
    } else {
        1 + position(s.skip(1), c)
    }
}

/// `needle` occurs in `s` at index `i`.
pub open spec fn text_at(s: Seq<char>, needle: Seq<char>, i: int) -> bool {
    0 <= i && i + needle.len() <= s.len() && s.subrange(i, i + needle.len()) == needle
}

/// `needle` occurs somewhere in `s`.
pub open spec fn has_text(s: Seq<char>, needle: Seq<char>) -> bool {
    exists|i: int| text_at(s, needle, i)
}

/// Where `needle` occurs in `s` for the first time.
pub open spec fn first_text(s: Seq<char>, needle: Seq<char>) -> Option<nat>
    decreases s.len(),
{
    if text_at(s, needle, 0) {
        Some(0)
    } else if s.len() == 0 {
        None
    } else {
        match first_text(s.skip(1), needle) {
            Some(n) => Some(n + 1),
            None => None,
        }
    }
}

/// `s` with the first occurrence of `from` replaced by `to`.
pub open spec fn replace_first(s: Seq<char>, from: Seq<char>, to: Seq<char>) -> Seq<char> {
    match first_text(s, from) {
        Some(n) => s.take(n as int) + to + s.skip(n as int + from.len()),
        None => s,
    }
}

/// `s` without the occurrences of `c` at its end.
pub open spec fn trim_end(s: Seq<char>, c: char) -> Seq<char>
    decreases s.len(),
{
    if s.len() > 0 && s.last() == c {
        trim_end(s.drop_last(), c)
    } else {
        s
    }
}

/// `s` without the occurrences of `c` at its start.
pub open spec fn trim_start(s: Seq<char>, c: char) -> Seq<char>
    decreases s.len(),
{
    if s.len() > 0 && s[0] == c {
        trim_start(s.skip(1), c)
    } else {
        s
    }
}

/// The pieces of `s` between occurrences of `sep`; always at least one piece.
pub open spec fn split(s: Seq<char>, sep: char) -> Seq<Seq<char>>
    decreases s.len(),
{
    let at = position(s, sep);
    if at >= s.len() {
        seq![s]
    } else {
        seq![s.take(at as int)] + split(s.skip(at as int + 1), sep)
    }
}

/// The pieces, with `sep` between each two neighbours.
pub open spec fn join(parts: Seq<Seq<char>>, sep: Seq<char>) -> Seq<char>
    decreases parts.len(),
{
    if parts.len() == 0 {
        Seq::empty()
    } else if parts.len() == 1 {
        parts[0]
    } else {
        join(parts.drop_last(), sep) + sep + parts.last()
    }
}

/// `s` cut at the first `sep`: the text before it and the text after it.
pub open spec fn split_once(s: Seq<char>, sep: char) -> Option<(Seq<char>, Seq<char>)> {
    let at = position(s, sep);
    if at < s.len() {
        Some((s.take(at as int), s.skip(at as int + 1)))
    } else {
        None
    }
}

/// The characters with Unicode's White_Space property.
pub open spec fn blank(c: char) -> bool {
    let u = c as u32;
    ||| 0x9 <= u <= 0xd
    ||| u == 0x20
    ||| u == 0x85
    ||| u == 0xa0
    ||| u == 0x1680
    ||| 0x2000 <= u <= 0x200a
    ||| u == 0x2028
    ||| u == 0x2029
    ||| u == 0x202f
    ||| u == 0x205f
    ||| u == 0x3000
}

/// How many blanks `s` starts with.
pub open spec fn leading_blanks(s: Seq<char>) -> nat
    decreases s.len(),
{
    if s.len() > 0 && blank(s[0]) {
        1 + leading_blanks(s.skip(1))
    } else {
        0
    }
}

/// How many blanks `s` ends with.
pub open spec fn trailing_blanks(s: Seq<char>) -> nat
    decreases s.len(),
{
    if s.len() > 0 && blank(s.last()) {
        1 + trailing_blanks(s.drop_last())
    } else {
        0
    }
}

/// How many characters `s` has before its first blank.
pub open spec fn leading_word(s: Seq<char>) -> nat
    decreases s.len(),
{
    if s.len() > 0 && !blank(s[0]) {
        1 + leading_word(s.skip(1))
    } else {
        0
    }
}

/// `s` without the blanks at both ends.
pub open spec fn trim(s: Seq<char>) -> Seq<char> {
    let t = s.skip(leading_blanks(s) as int);
    t.take(t.len() - trailing_blanks(t))
}

/// The words of `s`: its longest runs without a blank, in order.
pub open spec fn words(s: Seq<char>) -> Seq<Seq<char>>
    decreases s.len(),
    via words_decreases
{
    let t = s.skip(leading_blanks(s) as int);
    if t.len() == 0 {
        Seq::empty()
    } else {
        let n = leading_word(t);
        seq![t.take(n as int)] + words(t.skip(n as int))
    }
}

#[via_fn]
proof fn words_decreases(s: Seq<char>) {
    lemma_leading_blanks(s);
    let t = s.skip(leading_blanks(s) as int);
    lemma_leading_word(t);
}

/// The decimal digit for `d`.
pub open spec fn digit(d: nat) -> char {
    if d == 0 {
        '0'
    } else if d == 1 {
        '1'
    } else if d == 2 {
        '2'
    } else if d == 3 {
        '3'
    } else if d == 4 {
        '4'
    } else if d == 5 {
        '5'
    } else if d == 6 {
        '6'
    } else if d == 7 {
        '7'
    } else if d == 8 {
        '8'
    } else {
        '9'
    }
}

/// `n` in decimal, without leading zeros.
pub open spec fn decimal(n: nat) -> Seq<char>
    decreases n,
{
    if n < 10 {
        seq![digit(n)]
    } else {
        decimal(n / 10).push(digit(n % 10))
    }
}

/// `a` comes strictly before `b` in the order of strings: by the first
/// character that differs, a proper prefix first.
pub open spec fn before(a: Seq<char>, b: Seq<char>) -> bool
    decreases a.len(),
{
    if b.len() == 0 {
        false
    } else if a.len() == 0 {
        true
    } else if a[0] != b[0] {
        (a[0] as int) < (b[0] as int)
    } else {
        before(a.skip(1), b.skip(1))
    }
}

// ---------------------------------------------------------------------------
// Facts about the model
// ---------------------------------------------------------------------------

/// `position` is the least index that holds `c`.
pub proof fn lemma_position(s: Seq<char>, c: char)
    ensures
        position(s, c) <= s.len(),
        position(s, c) < s.len() ==> s[position(s, c) as int] == c,
        forall|j: int| 0 <= j < position(s, c) ==> s[j] != c,
        position(s, c) < s.len() <==> s.contains(c),
    decreases s.len(),
{
    if s.len() > 0 && s[0] != c {
        let t = s.skip(1);
        lemma_position(t, c);
        assert forall|j: int| 0 <= j < position(s, c) implies s[j] != c by {
            if j > 0 {
                assert(s[j] == t[j - 1]);
            }
        }
        if t.contains(c) {
            let k = choose|k: int| 0 <= k < t.len() && t[k] == c;
            assert(s[k + 1] == c);
        }
        if s.contains(c) {
            let k = choose|k: int| 0 <= k < s.len() && s[k] == c;
            assert(t[k - 1] == c);
        }
    }
}

/// An index that holds `c` and has no `c` before it is the position of `c`.
pub proof fn lemma_position_is(s: Seq<char>, c: char, k: int)
    requires
        0 <= k <= s.len(),
        forall|j: int| 0 <= j < k ==> s[j] != c,
        k < s.len() ==> s[k] == c,
    ensures
        position(s, c) == k,
{
    lemma_position(s, c);
}

/// `first_text` is the least index at which the text occurs.
pub proof fn lemma_first_text(s: Seq<char>, needle: Seq<char>)
    ensures
        first_text(s, needle) matches Some(n) ==> text_at(s, needle, n as int),
        first_text(s, needle) matches Some(n) ==> forall|j: int|
            0 <= j < n ==> !text_at(s, needle, j),
        first_text(s, needle) is None ==> !has_text(s, needle),
    decreases s.len(),
{
    if !text_at(s, needle, 0) && s.len() > 0 {
        let t = s.skip(1);
        lemma_first_text(t, needle);
        assert forall|j: int| 0 < j implies text_at(s, needle, j) == text_at(t, needle, j - 1) by {
            if j + needle.len() <= s.len() {
                assert(s.subrange(j, j + needle.len()) =~= t.subrange(j - 1, j - 1 + needle.len()));
            }
        }
        if has_text(s, needle) {
            let k = choose|k: int| text_at(s, needle, k);
            assert(text_at(t, needle, k - 1));
        }
        if let Some(n) = first_text(t, needle) {
            assert(text_at(s, needle, n as int + 1));
        }
    } else if s.len() == 0 {
        if has_text(s, needle) {
            let k = choose|k: int| text_at(s, needle, k);
            assert(k == 0);
        }
    }
}

/// The leading blanks are blanks, and what follows them is none.
pub proof fn lemma_leading_blanks(s: Seq<char>)
    ensures
        leading_blanks(s) <= s.len(),
        forall|j: int| 0 <= j < leading_blanks(s) ==> blank(s[j]),
        leading_blanks(s) < s.len() ==> !blank(s[leading_blanks(s) as int]),
    decreases s.len(),
{
    if s.len() > 0 && blank(s[0]) {
        let t = s.skip(1);
        lemma_leading_blanks(t);
        assert forall|j: int| 0 <= j < leading_blanks(s) implies blank(s[j]) by {
            if j > 0 {
                assert(s[j] == t[j - 1]);
            }
        }
    }
}

/// The leading word holds no blank, and what follows it is one.
pub proof fn lemma_leading_word(s: Seq<char>)
    ensures
        leading_word(s) <= s.len(),
        forall|j: int| 0 <= j < leading_word(s) ==> !blank(s[j]),
        leading_word(s) < s.len() ==> blank(s[leading_word(s) as int]),
        s.len() > 0 && !blank(s[0]) ==> leading_word(s) > 0,
    decreases s.len(),
{
    if s.len() > 0 && !blank(s[0]) {
        let t = s.skip(1);
        lemma_leading_word(t);
        assert forall|j: int| 0 <= j < leading_word(s) implies !blank(s[j]) by {
            if j > 0 {
                assert(s[j] == t[j - 1]);
            }
        }
    }
}

/// The trailing blanks are blanks, and what precedes them is none.
pub proof fn lemma_trailing_blanks(s: Seq<char>)
    ensures
        trailing_blanks(s) <= s.len(),
        forall|j: int| s.len() - trailing_blanks(s) <= j < s.len() ==> blank(s[j]),
        trailing_blanks(s) < s.len() ==> !blank(s[s.len() - trailing_blanks(s) - 1]),
    decreases s.len(),
{
    if s.len() > 0 && blank(s.last()) {
        let t = s.drop_last();
        lemma_trailing_blanks(t);
        assert forall|j: int| s.len() - trailing_blanks(s) <= j < s.len() implies blank(s[j]) by {
            if j < t.len() {
                assert(s[j] == t[j]);
            }
        }
    }
}

/// The order of strings is strict and total.
pub proof fn lemma_before_total(a: Seq<char>, b: Seq<char>)
    ensures
        !(before(a, b) && before(b, a)),
        before(a, b) || before(b, a) || a == b,
        a == b ==> !before(a, b),
    decreases a.len(),
{
    if a.len() > 0 && b.len() > 0 {
        lemma_before_total(a.skip(1), b.skip(1));
        if a[0] == b[0] && a.skip(1) == b.skip(1) {
            assert(a =~= seq![a[0]] + a.skip(1));
            assert(b =~= seq![b[0]] + b.skip(1));
        }
    } else if a.len() == 0 && b.len() == 0 {
        assert(a =~= b);
    }
}

/// The order of strings is transitive.
pub proof fn lemma_before_transitive(a: Seq<char>, b: Seq<char>, c: Seq<char>)
    requires
        before(a, b),
        before(b, c),
    ensures
        before(a, c),
    decreases a.len(),
{
    if a.len() > 0 && b.len() > 0 && c.len() > 0 && a[0] == b[0] && b[0] == c[0] {
        lemma_before_transitive(a.skip(1), b.skip(1), c.skip(1));
    }
}

/// Two texts that are cut at the first separator alike are alike.
pub proof fn lemma_cut_at_separator(
    a: Seq<char>,
    x: Seq<char>,
    b: Seq<char>,
    y: Seq<char>,
    sep: char,
)
    requires
        !a.contains(sep),
        !b.contains(sep),
        a.push(sep) + x == b.push(sep) + y,
    ensures
        a == b,
        x == y,
{
    let s = a.push(sep) + x;
    assert forall|j: int| 0 <= j < a.len() implies s[j] != sep by {
        assert(s[j] == a[j]);
    }
    assert forall|j: int| 0 <= j < b.len() implies s[j] != sep by {
        assert(s[j] == (b.push(sep) + y)[j]);
        assert(s[j] == b[j]);
    }
    lemma_position_is(s, sep, a.len() as int);
    assert(s[b.len() as int] == sep) by {
        assert((b.push(sep) + y)[b.len() as int] == sep);
    }
    lemma_position_is(s, sep, b.len() as int);
    assert(a =~= s.take(a.len() as int));
    assert(b =~= s.take(b.len() as int)) by {
        assert((b.push(sep) + y).take(b.len() as int) =~= b);
    }
    assert(x =~= s.skip(a.len() as int + 1));
    assert((b.push(sep) + y).skip(b.len() as int + 1) =~= y);
}

/// A piece in front of others is joined to them by one separator.
proof fn lemma_join_front(first: Seq<char>, rest: Seq<Seq<char>>, sep: Seq<char>)
    requires
        rest.len() > 0,
    ensures
        join(seq![first] + rest, sep) == first + sep + join(rest, sep),
    decreases rest.len(),
{
    let all = seq![first] + rest;
    if rest.len() == 1 {
        assert(all.drop_last() =~= seq![first]);
        assert(join(all.drop_last(), sep) == first);
        assert(all.last() == rest[0]);
    } else {
        lemma_join_front(first, rest.drop_last(), sep);
        assert(all.drop_last() =~= seq![first] + rest.drop_last());
        assert(all.last() == rest.last());
        assert(join(all, sep) =~= first + sep + (join(rest.drop_last(), sep) + sep + rest.last()));
    }
}

/// The pieces of a text, joined by the separator that it was cut at, are the text.
pub proof fn law_joining_undoes_splitting(s: Seq<char>, sep: char)
    ensures
        join(split(s, sep), seq![sep]) == s,
    decreases s.len(),
{
    lemma_position(s, sep);
    let at = position(s, sep) as int;
    if at < s.len() {
        let rest = s.skip(at + 1);
        law_joining_undoes_splitting(rest, sep);
        lemma_split_not_empty(rest, sep);
        lemma_join_front(s.take(at), split(rest, sep), seq![sep]);
        assert(s =~= s.take(at) + seq![sep] + rest);
    } else {
        assert(join(seq![s], seq![sep]) == s);
    }
}

proof fn lemma_split_not_empty(s: Seq<char>, sep: char)
    ensures
        split(s, sep).len() > 0,
    decreases s.len(),
{
    if position(s, sep) < s.len() {
        lemma_split_not_empty(s.skip(position(s, sep) as int + 1), sep);
    }
}

/// Pieces without the separator, at least one of them, are what their join is split into.
pub proof fn law_splitting_undoes_joining(parts: Seq<Seq<char>>, sep: char)
    requires
        parts.len() > 0,
        forall|i: int| 0 <= i < parts.len() ==> !(#[trigger] parts[i]).contains(sep),
    ensures
        split(join(parts, seq![sep]), sep) == parts,
    decreases parts.len(),
{
    let first = parts[0];
    assert(!first.contains(sep));
    if parts.len() == 1 {
        lemma_position(first, sep);
        assert(seq![first] =~= parts);
    } else {
        let rest = parts.skip(1);
        assert forall|i: int| 0 <= i < rest.len() implies !(#[trigger] rest[i]).contains(sep) by {
            assert(rest[i] == parts[i + 1]);
        }
        law_splitting_undoes_joining(rest, sep);
        lemma_join_front(first, rest, seq![sep]);
        assert(seq![first] + rest =~= parts);
        let s = first + seq![sep] + join(rest, seq![sep]);
        assert forall|j: int| 0 <= j < first.len() implies s[j] != sep by {
            assert(s[j] == first[j]);
        }
        lemma_position_is(s, sep, first.len() as int);
        assert(s.take(first.len() as int) =~= first);
        assert(s.skip(first.len() as int + 1) =~= join(rest, seq![sep]));
    }
}

/// The pieces of a text do not hold the separator, and hold nothing that the text does not.
pub proof fn lemma_pieces(s: Seq<char>, sep: char, c: char)
    ensures
        split(s, sep).len() > 0,
        forall|i: int| 0 <= i < split(s, sep).len() ==> !(#[trigger] split(s, sep)[i]).contains(sep),
        !s.contains(c) ==> forall|i: int|
            0 <= i < split(s, sep).len() ==> !(#[trigger] split(s, sep)[i]).contains(c),
    decreases s.len(),
{
    lemma_position(s, sep);
    let at = position(s, sep) as int;
    let all = split(s, sep);
    if at < s.len() {
        let rest = s.skip(at + 1);
        lemma_pieces(rest, sep, c);
        let first = s.take(at);
        assert forall|i: int| 0 <= i < first.len() implies first[i] == s[i] by {}
        assert forall|i: int| 0 <= i < rest.len() implies rest[i] == s[at + 1 + i] by {}
        assert(!first.contains(sep));
        if !s.contains(c) {
            assert(!first.contains(c));
            assert(!rest.contains(c));
        }
        assert forall|i: int| 0 <= i < all.len() implies !(#[trigger] all[i]).contains(sep) && (
        !s.contains(c) ==> !all[i].contains(c)) by {
            if i == 0 {
                assert(all[i] == first);
            } else {
                assert(all[i] == split(rest, sep)[i - 1]);
            }
        }
    } else {
        assert forall|i: int| 0 <= i < all.len() implies !(#[trigger] all[i]).contains(sep) && (
        !s.contains(c) ==> !all[i].contains(c)) by {
            assert(all[i] == s);
        }
    }
}

/// The pieces of two texts with the separator between them are those of the one and then
/// those of the other.
pub proof fn lemma_split_concat(a: Seq<char>, b: Seq<char>, sep: char)
    ensures
        split(a + seq![sep] + b, sep) == split(a, sep) + split(b, sep),
    decreases a.len(),
{
    let s = a + seq![sep] + b;
    lemma_position(a, sep);
    let at = position(a, sep) as int;
    assert forall|j: int| 0 <= j < at implies s[j] != sep by {
        assert(s[j] == a[j]);
    }
    lemma_position_is(s, sep, at);
    assert(s.take(at) =~= a.take(at));
    if at < a.len() {
        let rest = a.skip(at + 1);
        assert(s.skip(at + 1) =~= rest + seq![sep] + b);
        lemma_split_concat(rest, b, sep);
        assert(split(s, sep) =~= split(a, sep) + split(b, sep));
    } else {
        assert(a.take(at) =~= a);
        assert(s.skip(at + 1) =~= b);
        assert(split(s, sep) =~= split(a, sep) + split(b, sep));
    }
}

/// The text has no blanks.
pub open spec fn unspaced(s: Seq<char>) -> bool {
    forall|i: int| 0 <= i < s.len() ==> !blank(#[trigger] s[i])
}

/// A text without blanks is not changed by trimming.
pub proof fn lemma_unspaced_trim(s: Seq<char>)
    requires
        unspaced(s),
    ensures
        trim(s) == s,
{
    if s.len() > 0 {
        assert(!blank(s[0]));
        assert(!blank(s[s.len() - 1]));
    }
    assert(s.skip(0) =~= s);
    assert(trim(s) =~= s);
}

/// The pieces of a text without blanks have none.
pub proof fn lemma_unspaced_pieces(s: Seq<char>, sep: char)
    requires
        unspaced(s),
    ensures
        forall|i: int| 0 <= i < split(s, sep).len() ==> unspaced(#[trigger] split(s, sep)[i]),
    decreases s.len(),
{
    lemma_position(s, sep);
    let at = position(s, sep) as int;
    let all = split(s, sep);
    if at < s.len() {
        let rest = s.skip(at + 1);
        assert forall|i: int| 0 <= i < rest.len() implies !blank(#[trigger] rest[i]) by {
            assert(rest[i] == s[at + 1 + i]);
        }
        lemma_unspaced_pieces(rest, sep);
        assert forall|i: int| 0 <= i < all.len() implies unspaced(#[trigger] all[i]) by {
            if i == 0 {
                assert(all[i] == s.take(at));
                assert forall|j: int| 0 <= j < all[i].len() implies !blank(#[trigger] all[i][j]) by {
                    assert(all[i][j] == s[j]);
                }
            } else {
                assert(all[i] == split(rest, sep)[i - 1]);
            }
        }
    }
}

/// The first occurrence of a text is replaced, and nothing else changes; a text that does not
/// occur leaves everything as it is.
pub proof fn law_first_occurrence_is_replaced(
    a: Seq<char>,
    from: Seq<char>,
    b: Seq<char>,
    to: Seq<char>,
)
    requires
        forall|i: int| 0 <= i < a.len() ==> !#[trigger] text_at(a + from + b, from, i),
    ensures
        replace_first(a + from + b, from, to) == a + to + b,
        forall|s: Seq<char>| !has_text(s, from) ==> #[trigger] replace_first(s, from, to) == s,
{
    let s = a + from + b;
    let n = a.len() as int;
    lemma_first_text(s, from);
    assert(s.subrange(n, n + from.len()) =~= from);
    assert(text_at(s, from, n));
    assert(s.take(n) =~= a);
    assert(s.skip(n + from.len()) =~= b);
    assert forall|x: Seq<char>| !has_text(x, from) implies #[trigger] replace_first(x, from, to)
        == x by {
        lemma_first_text(x, from);
    }
}

/// The number that decimal digits stand for.
pub open spec fn number_of(digits: Seq<char>) -> int
    decreases digits.len(),
{
    if digits.len() == 0 {
        0
    } else {
        10 * number_of(digits.drop_last()) + (digits.last() as int - '0' as int)
    }
}

/// The decimal text of a number is made of digits, stands for the number, and has no zero in
/// front of others.
pub proof fn law_decimal_text_stands_for_the_number(n: nat)
    ensures
        decimal(n).len() > 0,
        forall|i: int| 0 <= i < decimal(n).len() ==> '0' <= #[trigger] decimal(n)[i] <= '9',
        number_of(decimal(n)) == n,
        n > 0 ==> decimal(n)[0] != '0',
    decreases n,
{
    if n < 10 {
        let s = decimal(n);
        assert(s.drop_last() =~= Seq::<char>::empty());
        assert(number_of(s.drop_last()) == 0);
    } else {
        law_decimal_text_stands_for_the_number(n / 10);
        let s = decimal(n);
        assert(s.drop_last() =~= decimal(n / 10));
        assert(s.last() == digit(n % 10));
    }
}

/// Strings are ordered by the first character that differs, and a string comes before those
/// that go on after it.
pub proof fn law_first_difference_decides(a: Seq<char>, b: Seq<char>, k: int)
    requires
        0 <= k <= a.len(),
        k < b.len(),
        forall|j: int| 0 <= j < k ==> a[j] == b[j],
        k == a.len() || (a[k] as int) < (b[k] as int),
    ensures
        before(a, b),
    decreases k,
{
    if k > 0 {
        let x = a.skip(1);
        let y = b.skip(1);
        assert forall|j: int| 0 <= j < k - 1 implies x[j] == y[j] by {
            assert(x[j] == a[j + 1] && y[j] == b[j + 1]);
        }
        law_first_difference_decides(x, y, k - 1);
    }
}

/// A text is cut at the first separator, wherever that is, and not at all without one.
pub proof fn law_cut_at_the_first_separator(a: Seq<char>, b: Seq<char>, sep: char)
    requires
        !a.contains(sep),
    ensures
        split_once(a + seq![sep] + b, sep) == Some((a, b)),
        split_once(a, sep) is None,
{
    let s = a + seq![sep] + b;
    assert forall|j: int| 0 <= j < a.len() implies s[j] != sep by {
        assert(s[j] == a[j]);
    }
    lemma_position_is(s, sep, a.len() as int);
    lemma_position(a, sep);
    assert(s.take(a.len() as int) =~= a);
    assert(s.skip(a.len() as int + 1) =~= b);
}

/// Trimming at an end takes away just the occurrences of the character there.
pub proof fn law_trimming_takes_the_ends(s: Seq<char>, c: char)
    ensures
        trim_end(s, c).is_prefix_of(s),
        forall|j: int| trim_end(s, c).len() <= j < s.len() ==> s[j] == c,
        trim_end(s, c).len() > 0 ==> trim_end(s, c).last() != c,
        trim_start(s, c).len() <= s.len(),
        trim_start(s, c) == s.skip(s.len() - trim_start(s, c).len()),
        forall|j: int| 0 <= j < s.len() - trim_start(s, c).len() ==> s[j] == c,
        trim_start(s, c).len() > 0 ==> trim_start(s, c)[0] != c,
    decreases s.len(),
{
    if s.len() > 0 {
        let init = s.drop_last();
        if s.last() == c {
            law_trimming_takes_the_ends(init, c);
        }
        assert forall|j: int| trim_end(s, c).len() <= j < s.len() implies s[j] == c by {
            if j < init.len() {
                assert(s[j] == init[j]);
            }
        }
        if s[0] == c {
            let t = s.skip(1);
            law_trimming_takes_the_ends(t, c);
            assert(trim_start(s, c) =~= s.skip(s.len() - trim_start(s, c).len()));
            assert forall|j: int| 0 <= j < s.len() - trim_start(s, c).len() implies s[j] == c by {
                if j > 0 {
                    assert(s[j] == t[j - 1]);
                }
            }
        } else {
            assert(s.skip(0) =~= s);
        }
    } else {
        assert(s.skip(0) =~= s);
    }
}

/// Trimming takes away just the blanks at both ends.
pub proof fn law_trimming_takes_the_blanks(s: Seq<char>)
    ensures
        exists|i: int, j: int|
            0 <= i <= j <= s.len() && trim(s) == #[trigger] s.subrange(i, j) && (forall|k: int|
                0 <= k < i || j <= k < s.len() ==> blank(#[trigger] s[k])) && (i < j ==> !blank(
                s[i],
            ) && !blank(s[j - 1])),
{
    lemma_leading_blanks(s);
    let i = leading_blanks(s) as int;
    let t = s.skip(i);
    lemma_trailing_blanks(t);
    let j = s.len() - trailing_blanks(t);
    assert(trim(s) =~= s.subrange(i, j));
    assert forall|k: int| 0 <= k < i || j <= k < s.len() implies blank(#[trigger] s[k]) by {
        if k >= j {
            assert(s[k] == t[k - i]);
        }
    }
    if i < j {
        assert(s[j - 1] == t[j - 1 - i]);
    }
}

/// The blanks of ASCII are the space and the characters from the tab to the carriage return.
pub proof fn law_blanks_of_ascii(c: char)
    requires
        (c as u32) < 128,
    ensures
        blank(c) <==> c == ' ' || c == '\t' || c == '\n' || c == '\r' || (c as u32) == 0xb || (
        c as u32) == 0xc,
{
}

/// Blanks in front do not matter for the words of a text.
proof fn lemma_words_after_blanks(s: Seq<char>, k: int)
    requires
        0 <= k <= s.len(),
        forall|j: int| 0 <= j < k ==> blank(#[trigger] s[j]),
    ensures
        words(s) == words(s.skip(k)),
{
    lemma_leading_blanks(s);
    let u = s.skip(k);
    lemma_leading_blanks(u);
    if leading_blanks(s) < k {
        assert(blank(s[leading_blanks(s) as int]));
    }
    let m = leading_blanks(s) - k;
    assert forall|j: int| 0 <= j < m implies blank(u[j]) by {
        assert(u[j] == s[k + j]);
    }
    if leading_blanks(u) < m {
        assert(!blank(u[leading_blanks(u) as int]));
    }
    if leading_blanks(u) > m {
        assert(blank(u[m]));
        assert(u[m] == s[leading_blanks(s) as int]);
    }
    assert(u.skip(leading_blanks(u) as int) =~= s.skip(leading_blanks(s) as int));
}

/// Where a word ends is told by the first blank after it.
proof fn lemma_leading_word_is(s: Seq<char>, k: int)
    requires
        0 <= k <= s.len(),
        forall|j: int| 0 <= j < k ==> !blank(#[trigger] s[j]),
        k < s.len() ==> blank(s[k]),
    ensures
        leading_word(s) == k,
{
    lemma_leading_word(s);
    let w = leading_word(s) as int;
    if w < k {
        assert(blank(s[w]));
    } else if k < w {
        assert(!blank(s[k]));
    }
}

/// The words of a text are its pieces between blanks: a blank parts the words before it from
/// those after it, and a text without blanks is one word.
pub proof fn law_blanks_part_the_words(a: Seq<char>, b: char, c: Seq<char>)
    requires
        blank(b),
    ensures
        words(a + seq![b] + c) == words(a) + words(c),
        unspaced(a) && a.len() > 0 ==> words(a) == seq![a],
        words(Seq::empty()) == Seq::<Seq<char>>::empty(),
    decreases a.len(),
{
    let s = a + seq![b] + c;
    let none = Seq::<char>::empty();
    lemma_leading_blanks(none);
    lemma_leading_blanks(a);
    let i = leading_blanks(a) as int;
    let t = a.skip(i);
    if unspaced(a) && a.len() > 0 {
        assert(!blank(a[0]));
        assert(a.skip(0) =~= a);
        lemma_leading_word_is(a, a.len() as int);
        assert(a.take(a.len() as int) =~= a);
        assert(a.skip(a.len() as int) =~= none);
        assert(none.skip(leading_blanks(none) as int).len() == 0);
        assert(words(none) =~= Seq::<Seq<char>>::empty());
        assert(leading_blanks(a) == 0);
        assert(words(a) == seq![a.take(a.len() as int)] + words(a.skip(a.len() as int)));
        assert(words(a) =~= seq![a]);
    }
    if i == a.len() {
        assert forall|j: int| 0 <= j < a.len() + 1 implies blank(#[trigger] s[j]) by {
            if j < a.len() {
                assert(s[j] == a[j]);
            }
        }
        lemma_words_after_blanks(s, a.len() as int + 1);
        assert(s.skip(a.len() as int + 1) =~= c);
        assert(words(a) =~= Seq::<Seq<char>>::empty());
        assert(words(a) + words(c) =~= words(c));
    } else {
        assert forall|j: int| 0 <= j < i implies blank(#[trigger] s[j]) by {
            assert(s[j] == a[j]);
        }
        lemma_words_after_blanks(s, i);
        lemma_words_after_blanks(a, i);
        let u = s.skip(i);
        assert(u =~= t + seq![b] + c);
        assert(!blank(t[0]));
        assert(u[0] == t[0]);
        lemma_leading_word(t);
        let w = leading_word(t) as int;
        assert(w > 0) by {
            if w == 0 {
                assert(blank(t[0]));
            }
        }
        assert forall|j: int| 0 <= j < w implies !blank(#[trigger] u[j]) by {
            assert(u[j] == t[j]);
        }
        if w < t.len() {
            assert(u[w] == t[w]);
        }
        lemma_leading_word_is(u, w);
        let rest = t.skip(w);
        assert(u.skip(w) =~= rest + seq![b] + c);
        law_blanks_part_the_words(rest, b, c);
        assert(u.take(w) =~= t.take(w));
        lemma_leading_blanks(u);
        lemma_leading_blanks(t);
        assert(leading_blanks(u) == 0);
        assert(leading_blanks(t) == 0);
        assert(u.skip(0) =~= u);
        assert(t.skip(0) =~= t);
        assert(words(u) =~= seq![u.take(w)] + words(u.skip(w)));
        assert(words(t) =~= seq![t.take(w)] + words(rest));
        assert(words(s) =~= words(a) + words(c));
    }
}

// ---------------------------------------------------------------------------
// Operations
// ---------------------------------------------------------------------------

/// The characters of `s`.
pub fn chars_of(s: &str) -> (r: Vec<char>)
    ensures
        r@ == s@,
{
    let mut v: Vec<char> = Vec::new();
    for c in it: s.chars()
        invariant
            it.seq() == s@,
            v@ == s@.take(it.index() as int),
    {
        v.push(c);
    }
    assert(s@.take(s@.len() as int) =~= s@);
    v
}

/// The string made of `v[from..to]`.
pub fn slice_text(v: &Vec<char>, from: usize, to: usize) -> (r: String)
    requires
        from <= to <= v@.len(),
    ensures
        r@ == v@.subrange(from as int, to as int),
{
    let mut s = String::new();
    let mut i: usize = from;
    while i < to
        invariant
            from <= i <= to <= v@.len(),
            s@ == v@.subrange(from as int, i as int),
        decreases to - i,
    {
        s.push(v[i]);
        i += 1;
        assert(s@ =~= v@.subrange(from as int, i as int));
    }
    s
}

/// `std::str::from_utf8`: the text that bytes encode in UTF-8; nothing where they encode
/// none.
#[verifier::external_body]
pub(crate) fn decode_text(bytes: &[u8]) -> (r: Option<String>)
    ensures
        r is Some <==> valid_utf8(bytes@),
        r matches Some(s) ==> s@ == decode_utf8(bytes@),
{
    std::str::from_utf8(bytes).ok().map(|s| s.to_string())
}

/// The two texts are the same.
pub fn same(a: &str, b: &str) -> (r: bool)
    ensures
        r == (a@ == b@),
{
    a.to_string() == b.to_string()
}

/// `s` starts with `prefix`.
pub fn starts_with(s: &str, prefix: &str) -> (r: bool)
    ensures
        r == prefix@.is_prefix_of(s@),
{
    let n: usize = prefix.unicode_len();
    if s.unicode_len() < n {
        return false;
    }
    same(s.substring_char(0, n), prefix)
}

/// What follows `prefix` in `s`, where `s` starts with it.
pub fn strip_prefix(s: &str, prefix: &str) -> (r: Option<String>)
    ensures
        r is Some <==> prefix@.is_prefix_of(s@),
        r is Some ==> r->0@ == s@.skip(prefix@.len() as int),
{
    if starts_with(s, prefix) {
        let n: usize = prefix.unicode_len();
        let len: usize = s.unicode_len();
        Some(s.substring_char(n, len).to_string())
    } else {
        None
    }
}

/// `s` holds the character `c`.
pub fn contains_char(s: &str, c: char) -> (r: bool)
    ensures
        r == s@.contains(c),
{
    let v = chars_of(s);
    let at = position_from(&v, 0, c);
    proof {
        assert(v@.skip(0) =~= v@);
        lemma_position(s@, c);
    }
    at < v.len()
}

/// Index of the first `c` at or after `from`, or the length.
pub fn position_from(v: &Vec<char>, from: usize, c: char) -> (r: usize)
    requires
        from <= v@.len(),
    ensures
        from <= r <= v@.len(),
        r == from + position(v@.skip(from as int), c),
{
    let mut i: usize = from;
    while i < v.len() && v[i] != c
        invariant
            from <= i <= v@.len(),
            forall|j: int| from <= j < i ==> v@[j] != c,
        decreases v@.len() - i,
    {
        i += 1;
    }
    proof {
        let t = v@.skip(from as int);
        lemma_position_is(t, c, i - from);
    }
    i
}

/// Where `needle` occurs in `s` for the first time.
pub fn find_text(s: &str, needle: &str) -> (r: Option<usize>)
    ensures
        r is Some <==> first_text(s@, needle@) is Some,
        r matches Some(i) ==> first_text(s@, needle@) == Some(i as nat),
        r is Some <==> has_text(s@, needle@),
{
    let n: usize = needle.unicode_len();
    let len: usize = s.unicode_len();
    proof {
        lemma_first_text(s@, needle@);
    }
    if len < n {
        return None;
    }
    let mut i: usize = 0;
    while i <= len - n
        invariant
            n == needle@.len(),
            len == s@.len(),
            n <= len,
            i <= len - n,
            forall|j: int| 0 <= j < i ==> !text_at(s@, needle@, j),
        decreases len - i,
    {
        if same(s.substring_char(i, i + n), needle) {
            proof {
                assert(text_at(s@, needle@, i as int));
                lemma_first_text(s@, needle@);
            }
            return Some(i);
        }
        if i == len - n {
            proof {
                assert forall|j: int| !text_at(s@, needle@, j) by {}
                lemma_first_text(s@, needle@);
            }
            return None;
        }
        i += 1;
    }
    None
}

/// `s` holds `needle` somewhere.
pub fn contains_text(s: &str, needle: &str) -> (r: bool)
    ensures
        r == has_text(s@, needle@),
{
    find_text(s, needle).is_some()
}

/// `s` with the first occurrence of `from` replaced by `to`.
pub fn replace_first_text(s: &str, from: &str, to: &str) -> (r: String)
    ensures
        r@ == replace_first(s@, from@, to@),
{
    match find_text(s, from) {
        Some(i) => {
            let n: usize = from.unicode_len();
            let len: usize = s.unicode_len();
            proof {
                lemma_first_text(s@, from@);
                assert(s@.subrange(0, i as int) =~= s@.take(i as int));
                assert(s@.subrange(i + n, len as int) =~= s@.skip(i + n));
            }
            s.substring_char(0, i).to_string().concat(to).concat(s.substring_char(i + n, len))
        },
        None => s.to_string(),
    }
}

/// `s` without the occurrences of `c` at its end.
pub fn trim_end_text(s: &str, c: char) -> (r: String)
    ensures
        r@ == trim_end(s@, c),
{
    let v = chars_of(s);
    let mut end: usize = v.len();
    assert(v@.take(end as int) =~= s@);
    while end > 0 && v[end - 1] == c
        invariant
            end <= v@.len(),
            trim_end(v@.take(end as int), c) == trim_end(s@, c),
        decreases end,
    {
        assert(v@.take(end as int).drop_last() =~= v@.take(end - 1));
        end -= 1;
    }
    assert(v@.subrange(0, end as int) =~= v@.take(end as int));
    slice_text(&v, 0, end)
}

/// `s` without the occurrences of `c` at its start.
pub fn trim_start_text(s: &str, c: char) -> (r: String)
    ensures
        r@ == trim_start(s@, c),
{
    let v = chars_of(s);
    let mut start: usize = 0;
    assert(v@.skip(0) =~= s@);
    while start < v.len() && v[start] == c
        invariant
            start <= v@.len(),
            trim_start(v@.skip(start as int), c) == trim_start(s@, c),
        decreases v@.len() - start,
    {
        assert(v@.skip(start as int).skip(1) =~= v@.skip(start + 1));
        start += 1;
    }
    assert(v@.subrange(start as int, v@.len() as int) =~= v@.skip(start as int));
    slice_text(&v, start, v.len())
}

/// The pieces of `s` between occurrences of `sep`.
pub fn split_text(s: &str, sep: char) -> (r: Vec<String>)
    ensures
        r.deep_view() == split(s@, sep),
        r@.len() >= 1,
{
    let v = chars_of(s);
    let mut out: Vec<String> = Vec::new();
    let mut start: usize = 0;
    assert(v@.skip(0) =~= s@);
    assert(out.deep_view() + split(s@, sep) =~= split(s@, sep));
    loop
        invariant
            v@ == s@,
            start <= v@.len(),
            out.deep_view() + split(v@.skip(start as int), sep) == split(s@, sep),
        decreases v@.len() - start,
    {
        let at: usize = position_from(&v, start, sep);
        let piece = slice_text(&v, start, at);
        let ghost rest = v@.skip(start as int);
        let ghost before_push = out.deep_view();
        out.push(piece);
        assert(out.deep_view() =~= before_push.push(piece@));
        if at == v.len() {
            assert(piece@ =~= rest);
            assert(out.deep_view() =~= before_push + seq![rest]);
            return out;
        }
        assert(piece@ =~= rest.take(at - start));
        assert(rest.skip(at - start + 1) =~= v@.skip(at + 1));
        assert(before_push + (seq![piece@] + split(v@.skip(at + 1), sep)) =~= out.deep_view()
            + split(v@.skip(at + 1), sep));
        start = at + 1;
    }
}

/// `s` cut at the first `sep`.
pub fn split_once_text(s: &str, sep: char) -> (r: Option<(String, String)>)
    ensures
        r is Some <==> split_once(s@, sep) is Some,
        r matches Some(p) ==> (p.0@, p.1@) == split_once(s@, sep)->0,
{
    let v = chars_of(s);
    let at: usize = position_from(&v, 0, sep);
    assert(v@.skip(0) =~= s@);
    if at < v.len() {
        let a = slice_text(&v, 0, at);
        let b = slice_text(&v, at + 1, v.len());
        assert(a@ =~= s@.take(at as int));
        assert(b@ =~= s@.skip(at + 1));
        Some((a, b))
    } else {
        None
    }
}

/// `c` is a blank.
pub fn is_blank(c: char) -> (r: bool)
    ensures
        r == blank(c),
{
    let u: u32 = c as u32;
    (0x9 <= u && u <= 0xd) || u == 0x20 || u == 0x85 || u == 0xa0 || u == 0x1680 || (0x2000 <= u
        && u <= 0x200a) || u == 0x2028 || u == 0x2029 || u == 0x202f || u == 0x205f || u == 0x3000
}

/// Index of the first character at or after `from` that is no blank, or the length.
fn skip_blanks(v: &Vec<char>, from: usize) -> (r: usize)
    requires
        from <= v@.len(),
    ensures
        from <= r <= v@.len(),
        r == from + leading_blanks(v@.skip(from as int)),
{
    let mut i: usize = from;
    while i < v.len() && is_blank(v[i])
        invariant
            from <= i <= v@.len(),
            forall|j: int| from <= j < i ==> blank(v@[j]),
        decreases v@.len() - i,
    {
        i += 1;
    }
    proof {
        let t = v@.skip(from as int);
        lemma_leading_blanks(t);
        let n = leading_blanks(t);
        if n < i - from {
            assert(t[n as int] == v@[from + n]);
        }
        if n > i - from {
            assert(t[i - from] == v@[i as int]);
        }
    }
    i
}

/// Index of the first blank at or after `from`, or the length.
fn skip_word(v: &Vec<char>, from: usize) -> (r: usize)
    requires
        from <= v@.len(),
    ensures
        from <= r <= v@.len(),
        r == from + leading_word(v@.skip(from as int)),
{
    let mut i: usize = from;
    while i < v.len() && !is_blank(v[i])
        invariant
            from <= i <= v@.len(),
            forall|j: int| from <= j < i ==> !blank(v@[j]),
        decreases v@.len() - i,
    {
        i += 1;
    }
    proof {
        let t = v@.skip(from as int);
        lemma_leading_word(t);
        let n = leading_word(t);
        if n < i - from {
            assert(t[n as int] == v@[from + n]);
        }
        if n > i - from {
            assert(t[i - from] == v@[i as int]);
        }
    }
    i
}

/// `s` without the blanks at both ends.
pub fn trim_text(s: &str) -> (r: String)
    ensures
        r@ == trim(s@),
{
    let v = chars_of(s);
    let start: usize = skip_blanks(&v, 0);
    let ghost t = s@.skip(start as int);
    assert(v@.skip(0) =~= s@);
    let mut end: usize = v.len();
    while end > start && is_blank(v[end - 1])
        invariant
            v@ == s@,
            start <= end <= v@.len(),
            forall|j: int| end <= j < v@.len() ==> blank(v@[j]),
        decreases end - start,
    {
        end -= 1;
    }
    proof {
        lemma_trailing_blanks(t);
        let n = trailing_blanks(t);
        if n < v@.len() - end {
            assert(t[t.len() - n - 1] == v@[v@.len() - n - 1]);
        }
        if n > v@.len() - end {
            assert(t[end - start - 1] == v@[end - 1]);
        }
        assert(s@.subrange(start as int, end as int) =~= t.take(t.len() - n));
    }
    slice_text(&v, start, end)
}

/// The words of `s`.
pub fn words_of(s: &str) -> (r: Vec<String>)
    ensures
        r.deep_view() == words(s@),
{
    let v = chars_of(s);
    let mut out: Vec<String> = Vec::new();
    let mut start: usize = 0;
    assert(v@.skip(0) =~= s@);
    assert(out.deep_view() + words(s@) =~= words(s@));
    loop
        invariant
            v@ == s@,
            start <= v@.len(),
            out.deep_view() + words(v@.skip(start as int)) == words(s@),
        decreases v@.len() - start,
    {
        let from: usize = skip_blanks(&v, start);
        let ghost rest = v@.skip(start as int);
        let ghost t = v@.skip(from as int);
        assert(rest.skip(from - start) =~= t);
        if from == v.len() {
            assert(words(rest) =~= Seq::<Seq<char>>::empty());
            assert(out.deep_view() =~= words(s@));
            return out;
        }
        let to: usize = skip_word(&v, from);
        proof {
            lemma_leading_blanks(rest);
            assert(rest[from - start] == t[0]);
            lemma_leading_word(t);
        }
        let word = slice_text(&v, from, to);
        let ghost before_push = out.deep_view();
        out.push(word);
        assert(out.deep_view() =~= before_push.push(word@));
        assert(word@ =~= t.take(to - from));
        assert(t.skip(to - from) =~= v@.skip(to as int));
        assert(before_push + (seq![word@] + words(v@.skip(to as int))) =~= out.deep_view() + words(
            v@.skip(to as int),
        ));
        start = to;
    }
}

/// The pieces, with `sep` between each two neighbours.
pub fn join_texts(parts: &Vec<String>, sep: &str) -> (r: String)
    ensures
        r@ == join(parts.deep_view(), sep@),
{
    let mut out = String::new();
    let mut i: usize = 0;
    let ghost all = parts.deep_view();
    while i < parts.len()
        invariant
            i <= parts@.len(),
            all == parts.deep_view(),
            all.len() == parts@.len(),
            out@ == join(all.take(i as int), sep@),
        decreases parts@.len() - i,
    {
        proof {
            let next = all.take(i + 1);
            assert(next.drop_last() =~= all.take(i as int));
            assert(next.last() == parts@[i as int]@);
            assert(Seq::<char>::empty() + next.last() =~= next.last());
        }
        if i > 0 {
            out.append(sep);
        }
        out.append(parts[i].as_str());
        i += 1;
    }
    assert(all.take(i as int) =~= all);
    out
}

/// The decimal digit for `d`.
fn digit_char(d: u64) -> (r: char)
    requires
        d < 10,
    ensures
        r == digit(d as nat),
{
    match d {
        0 => '0',
        1 => '1',
        2 => '2',
        3 => '3',
        4 => '4',
        5 => '5',
        6 => '6',
        7 => '7',
        8 => '8',
        _ => '9',
    }
}

/// `n` in decimal.
pub fn decimal_text(n: u64) -> (r: String)
    ensures
        r@ == decimal(n as nat),
    decreases n,
{
    if n < 10 {
        let mut s = String::new();
        s.push(digit_char(n));
        assert(s@ =~= decimal(n as nat));
        s
    } else {
        let mut s = decimal_text(n / 10);
        s.push(digit_char(n % 10));
        s
    }
}

/// The number of the character in Unicode.
pub fn code_point(c: char) -> (r: u32)
    ensures
        r == c as int,
{
    c as u32
}

/// `a` comes strictly before `b` in the order of strings.
pub fn text_before(a: &str, b: &str) -> (r: bool)
    ensures
        r == before(a@, b@),
{
    let x = chars_of(a);
    let y = chars_of(b);
    let mut i: usize = 0;
    assert(x@.skip(0) =~= a@);
    assert(y@.skip(0) =~= b@);
    loop
        invariant
            x@ == a@,
            y@ == b@,
            i <= x@.len(),
            i <= y@.len(),
            before(a@, b@) == before(x@.skip(i as int), y@.skip(i as int)),
        decreases x@.len() - i,
    {
        if i == y.len() {
            return false;
        }
        if i == x.len() {
            return true;
        }
        if x[i] != y[i] {
            return code_point(x[i]) < code_point(y[i]);
        }
        assert(x@.skip(i as int).skip(1) =~= x@.skip(i + 1));
        assert(y@.skip(i as int).skip(1) =~= y@.skip(i + 1));
        i += 1;
    }
}

/// The text of an optional string slice, if there is one.
pub open spec fn opt_str(o: Option<&str>) -> Option<Seq<char>> {
    match o {
        Some(s) => Some(s@),
        None => None,
    }
}

/// The text of an optional string, if there is one.
pub open spec fn opt_text(o: Option<String>) -> Option<Seq<char>> {
    match o {
        Some(s) => Some(s@),
        None => None,
    }
}

} // verus!
