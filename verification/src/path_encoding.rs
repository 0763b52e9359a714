//! Percent-encoding of S3 keys and of path components.

use vstd::prelude::*;
use vstd::string::StrSliceExecFns;
use vstd::utf8::{encode_utf8, is_ascii_chars};

verus! {

/// The bytes that RFC 3986 leaves unreserved: letters, digits and `-`, `_`, `.`, `~`.
pub open spec fn unreserved(b: u8) -> bool {
    ||| 0x41 <= b <= 0x5a
    ||| 0x61 <= b <= 0x7a
    ||| 0x30 <= b <= 0x39
    ||| b == 0x2d
    ||| b == 0x5f
    ||| b == 0x2e
    ||| b == 0x7e
}

/// The byte stands for itself; `/` does so only where `keep_slash` says it.
pub open spec fn kept(b: u8, keep_slash: bool) -> bool {
    unreserved(b) || (keep_slash && b == 0x2f)
}

/// The upper-case hexadecimal digit for `n`.
pub open spec fn hex_digit(n: int) -> char {
    "0123456789ABCDEF"@[n]
}

/// A byte, written as itself or as `%XX`.
pub open spec fn encoded_byte(b: u8, keep_slash: bool) -> Seq<char> {
    if kept(b, keep_slash) {
        seq![b as char]
    } else {
        seq!['%', hex_digit(b as int / 16), hex_digit(b as int % 16)]
    }
}

/// The bytes, each written as itself or as `%XX`.
pub open spec fn encoded(bytes: Seq<u8>, keep_slash: bool) -> Seq<char>
    decreases bytes.len(),
{
    if bytes.len() == 0 {
        Seq::empty()
    } else {
        encoded_byte(bytes[0], keep_slash) + encoded(bytes.skip(1), keep_slash)
    }
}

/// The upper-case hexadecimal digit for `n`.
fn hex_char(n: u8) -> (r: char)
    requires
        n < 16,
    ensures
        r == hex_digit(n as int),
{
    proof {
        reveal_strlit("0123456789ABCDEF");
    }
    "0123456789ABCDEF".get_char(n as usize)
}

/// Percent-encodes the UTF-8 bytes of `s`.
fn percent_encode(s: &str, keep_slash: bool) -> (r: String)
    ensures
        r@ == encoded(encode_utf8(s@), keep_slash),
{
    let bytes = s.as_bytes();
    let mut out = String::new();
    let mut i: usize = 0;
    assert(bytes@.skip(0) =~= bytes@);
    assert(out@ + encoded(bytes@, keep_slash) =~= encoded(bytes@, keep_slash));
    while i < bytes.len()
        invariant
            bytes@ == encode_utf8(s@),
            i <= bytes@.len(),
            out@ + encoded(bytes@.skip(i as int), keep_slash) == encoded(bytes@, keep_slash),
        decreases bytes@.len() - i,
    {
        let b: u8 = bytes[i];
        let ghost was = out@;
        let ghost rest = bytes@.skip(i as int);
        if is_kept(b, keep_slash) {
            out.push(b as char);
        } else {
            out.push('%');
            out.push(hex_char(b / 16));
            out.push(hex_char(b % 16));
        }
        proof {
            assert(out@ =~= was + encoded_byte(b, keep_slash));
            assert(rest.skip(1) =~= bytes@.skip(i + 1));
            assert(was + (encoded_byte(b, keep_slash) + encoded(rest.skip(1), keep_slash)) =~= out@
                + encoded(rest.skip(1), keep_slash));
        }
        i += 1;
    }
    assert(encoded(bytes@.skip(i as int), keep_slash) =~= Seq::<char>::empty());
    assert(out@ =~= encoded(bytes@, keep_slash));
    out
}

/// The byte stands for itself.
fn is_kept(b: u8, keep_slash: bool) -> (r: bool)
    ensures
        r == kept(b, keep_slash),
        r == (('A' as u8 <= b <= 'Z' as u8) || ('a' as u8 <= b <= 'z' as u8) || ('0' as u8 <= b
            <= '9' as u8) || b == '-' as u8 || b == '_' as u8 || b == '.' as u8 || b == '~' as u8
            || (keep_slash && b == '/' as u8)),
{
    (0x41 <= b && b <= 0x5a) || (0x61 <= b && b <= 0x7a) || (0x30 <= b && b <= 0x39) || b == 0x2d
        || b == 0x5f || b == 0x2e || b == 0x7e || (keep_slash && b == 0x2f)
}

/// Percent-encodes an S3 key for the source of a server-side copy: every byte but the
/// unreserved ones and `/`.
pub fn percent_encode_s3_key(key: &str) -> (r: String)
    ensures
        r@ == encoded(encode_utf8(key@), true),
{
    percent_encode(key, true)
}

/// Percent-encodes a database or table name as one component of a path: every byte but
/// the unreserved ones.
pub fn encode_path_component(component: &str) -> (r: String)
    ensures
        r@ == encoded(encode_utf8(component@), false),
{
    percent_encode(component, false)
}

/// What is written for one byte tells which byte it was, and where its text ends.
proof fn lemma_encoded_byte(a: u8, b: u8, x: Seq<char>, y: Seq<char>, keep_slash: bool)
    requires
        encoded_byte(a, keep_slash) + x == encoded_byte(b, keep_slash) + y,
    ensures
        a == b,
        x == y,
{
    reveal_strlit("0123456789ABCDEF");
    let s = encoded_byte(a, keep_slash) + x;
    let t = encoded_byte(b, keep_slash) + y;
    assert(s[0] == t[0]);
    assert(s[0] == encoded_byte(a, keep_slash)[0]);
    assert(t[0] == encoded_byte(b, keep_slash)[0]);
    if !kept(a, keep_slash) {
        assert(s[1] == t[1] && s[2] == t[2]);
        assert(s[1] == encoded_byte(a, keep_slash)[1] && s[2] == encoded_byte(a, keep_slash)[2]);
        assert(t[1] == encoded_byte(b, keep_slash)[1] && t[2] == encoded_byte(b, keep_slash)[2]);
        assert(a as int / 16 == b as int / 16);
        assert(a as int % 16 == b as int % 16);
    }
    assert(x =~= s.skip(encoded_byte(a, keep_slash).len() as int));
    assert(y =~= t.skip(encoded_byte(b, keep_slash).len() as int));
}

/// Two texts that are encoded alike hold the same bytes: the encoding loses nothing.
pub proof fn law_encoding_is_injective(a: Seq<u8>, b: Seq<u8>, keep_slash: bool)
    requires
        encoded(a, keep_slash) == encoded(b, keep_slash),
    ensures
        a == b,
    decreases a.len(),
{
    if a.len() == 0 || b.len() == 0 {
        if a.len() > 0 {
            assert(encoded(a, keep_slash).len() > 0);
        }
        if b.len() > 0 {
            assert(encoded(b, keep_slash).len() > 0);
        }
        assert(a =~= b);
    } else {
        lemma_encoded_byte(
            a[0],
            b[0],
            encoded(a.skip(1), keep_slash),
            encoded(b.skip(1), keep_slash),
            keep_slash,
        );
        law_encoding_is_injective(a.skip(1), b.skip(1), keep_slash);
        assert(a =~= seq![a[0]] + a.skip(1));
        assert(b =~= seq![b[0]] + b.skip(1));
    }
}

/// Bytes that stand for themselves are written as they are.
proof fn lemma_encoded_kept(bytes: Seq<u8>, keep_slash: bool)
    requires
        forall|i: int| 0 <= i < bytes.len() ==> kept(#[trigger] bytes[i], keep_slash),
    ensures
        encoded(bytes, keep_slash) == Seq::new(bytes.len(), |i: int| bytes[i] as char),
    decreases bytes.len(),
{
    if bytes.len() > 0 {
        lemma_encoded_kept(bytes.skip(1), keep_slash);
        assert(encoded(bytes, keep_slash) =~= Seq::new(bytes.len(), |i: int| bytes[i] as char));
    } else {
        assert(encoded(bytes, keep_slash) =~= Seq::new(bytes.len(), |i: int| bytes[i] as char));
    }
}

/// A text of characters that need no encoding is its own encoding.
pub proof fn law_safe_text_is_unchanged(s: Seq<char>, keep_slash: bool)
    requires
        forall|i: int|
            0 <= i < s.len() ==> 0 <= (#[trigger] s[i]) as int <= 0x7f && kept(
                s[i] as u8,
                keep_slash,
            ),
    ensures
        encoded(encode_utf8(s), keep_slash) == s,
{
    assert(is_ascii_chars(s));
    vstd::utf8::is_ascii_chars_encode_utf8(s);
    let bytes = encode_utf8(s);
    lemma_encoded_kept(bytes, keep_slash);
    assert(encoded(bytes, keep_slash) =~= s);
}

/// The encoding is written in unreserved characters, `%` and, where kept, `/`.
pub proof fn law_encoding_alphabet(bytes: Seq<u8>, keep_slash: bool, i: int)
    requires
        0 <= i < encoded(bytes, keep_slash).len(),
    ensures
        ({
            let c = encoded(bytes, keep_slash)[i];
            c == '%' || (c as int <= 0x7f && kept(c as u8, keep_slash))
        }),
    decreases bytes.len(),
{
    reveal_strlit("0123456789ABCDEF");
    let head = encoded_byte(bytes[0], keep_slash);
    if i >= head.len() {
        law_encoding_alphabet(bytes.skip(1), keep_slash, i - head.len());
    } else {
        assert(encoded(bytes, keep_slash)[i] == head[i]);
    }
}

/// The number that an upper-case hexadecimal digit stands for, and nothing for any other
/// character.
pub open spec fn digit_value(c: char) -> Option<int> {
    if '0' <= c <= '9' {
        Some(c as int - '0' as int)
    } else if 'A' <= c <= 'F' {
        Some(c as int - 'A' as int + 10)
    } else {
        None
    }
}

/// The character is a letter or a digit of ASCII, or one of `-`, `_`, `.` and `~`.
pub open spec fn plain_char(c: char) -> bool {
    ('A' <= c <= 'Z') || ('a' <= c <= 'z') || ('0' <= c <= '9') || c == '-' || c == '_' || c == '.'
        || c == '~'
}

/// The bytes are encoded one after the other. A byte of a plain character is written as that
/// character, and so is a slash where slashes are kept; every other byte is written as `%`
/// and the two hexadecimal digits of its number.
pub proof fn law_bytes_are_plain_or_in_hexadecimal(
    front: Seq<u8>,
    byte: u8,
    rest: Seq<u8>,
    keep_slash: bool,
)
    ensures
        ({
            let text = encoded(seq![byte], keep_slash);
            let c = byte as char;
            &&& encoded(front + seq![byte] + rest, keep_slash) == encoded(front, keep_slash) + text
                + encoded(rest, keep_slash)
            &&& byte <= 0x7f && (plain_char(c) || (c == '/' && keep_slash)) ==> text == seq![c]
            &&& byte > 0x7f || !(plain_char(c) || (c == '/' && keep_slash)) ==> {
                &&& text.len() == 3 && text[0] == '%'
                &&& digit_value(text[1]) is Some && digit_value(text[2]) is Some
                &&& digit_value(text[1])->0 * 16 + digit_value(text[2])->0 == byte
            }
            &&& encoded(Seq::empty(), keep_slash).len() == 0
        }),
{
    reveal_strlit("0123456789ABCDEF");
    let one = seq![byte];
    assert(one.skip(1) =~= Seq::<u8>::empty());
    assert(encoded(one.skip(1), keep_slash) =~= Seq::<char>::empty());
    assert(encoded(one, keep_slash) =~= encoded_byte(byte, keep_slash));
    lemma_encoded_concat(front + one, rest, keep_slash);
    lemma_encoded_concat(front, one, keep_slash);
    let hi = byte as int / 16;
    let lo = byte as int % 16;
    assert(0 <= hi < 16 && 0 <= lo < 16 && hi * 16 + lo == byte);
    assert(digit_value(hex_digit(hi)) == Some(hi));
    assert(digit_value(hex_digit(lo)) == Some(lo));
}

proof fn lemma_encoded_concat(a: Seq<u8>, b: Seq<u8>, keep_slash: bool)
    ensures
        encoded(a + b, keep_slash) == encoded(a, keep_slash) + encoded(b, keep_slash),
    decreases a.len(),
{
    if a.len() == 0 {
        assert(a + b =~= b);
        assert(encoded(a, keep_slash) + encoded(b, keep_slash) =~= encoded(b, keep_slash));
    } else {
        lemma_encoded_concat(a.skip(1), b, keep_slash);
        assert((a + b).skip(1) =~= a.skip(1) + b);
        assert((a + b)[0] == a[0]);
        assert(encoded_byte(a[0], keep_slash) + (encoded(a.skip(1), keep_slash) + encoded(
            b,
            keep_slash,
        )) =~= encoded_byte(a[0], keep_slash) + encoded(a.skip(1), keep_slash) + encoded(
            b,
            keep_slash,
        ));
    }
}

} // verus!
