//! The parts of database setup that compute: the read-only `file:` URI the
//! dictionary is attached under, whether the user-writable copy of the
//! dictionary is current, and timestamps.

use vstd::prelude::*;
use vstd::utf8::encode_utf8;

use crate::text::{chars_of, push_char, push_chars, same_text, to_string};

verus! {

broadcast use vstd::seq_lib::group_seq_properties;

/// Whether `c` is an ASCII decimal digit.
pub open spec fn is_digit(c: char) -> bool {
    '0' <= c <= '9'
}

/// A UTC timestamp as chrono's `to_rfc3339` writes it, whose seconds carry
/// a fraction of `f` characters (none, or a dot and 3, 6 or 9 digits): a
/// date of at least four year characters ending `-MM-DD`, then `T`,
/// `HH:MM:SS`, the fraction, and `+00:00`. `t` below is where the `T` is.
pub open spec fn rfc3339_utc_with_fraction(s: Seq<char>, f: int) -> bool {
    let t = s.len() - 15 - f;
    &&& t >= 10
    &&& s.subrange(s.len() - 6, s.len() as int) == seq!['+', '0', '0', ':', '0', '0']
    &&& s[t - 6] == '-' && s[t - 3] == '-' && s[t] == 'T' && s[t + 3] == ':' && s[t + 6] == ':'
    &&& is_digit(s[t - 5]) && is_digit(s[t - 4]) && is_digit(s[t - 2]) && is_digit(s[t - 1])
    &&& is_digit(s[t + 1]) && is_digit(s[t + 2]) && is_digit(s[t + 4]) && is_digit(s[t + 5])
    &&& is_digit(s[t + 7]) && is_digit(s[t + 8])
    &&& f > 0 ==> s[t + 9] == '.' && forall|i: int|
        t + 10 <= i < t + 9 + f ==> is_digit(#[trigger] s[i])
}

/// An RFC 3339 UTC timestamp such as `2024-05-01T08:30:00.123+00:00`, as
/// chrono writes one: the fraction of a second is left out when it is
/// zero, and otherwise has 3, 6 or 9 digits.
pub open spec fn is_rfc3339_utc(s: Seq<char>) -> bool {
    ||| rfc3339_utc_with_fraction(s, 0)
    ||| rfc3339_utc_with_fraction(s, 4)
    ||| rfc3339_utc_with_fraction(s, 7)
    ||| rfc3339_utc_with_fraction(s, 10)
}

/// The current time as an RFC 3339 timestamp (chrono's
/// `Utc::now().to_rfc3339()`). The contract states the text's shape, which
/// chrono's RFC 3339 writer gives every UTC time (offset written `+00:00`);
/// which time comes out depends on the clock.
#[verifier::external_body]
pub fn now() -> (r: String)
    ensures
        is_rfc3339_utc(r@),
{
    chrono::Utc::now().to_rfc3339()
}

/// Whether `c` is a lowercase hexadecimal digit.
pub open spec fn is_lower_hex(c: char) -> bool {
    '0' <= c <= '9' || 'a' <= c <= 'f'
}

/// The hyphenated text of a random (version 4) UUID, such as
/// `67e55044-10b1-426f-9247-bb680e5fe0c8`.
pub open spec fn is_uuid_v4_text(s: Seq<char>) -> bool {
    &&& s.len() == 36
    &&& forall|i: int|
        0 <= i < 36 ==> if i == 8 || i == 13 || i == 18 || i == 23 {
            #[trigger] s[i] == '-'
        } else {
            is_lower_hex(s[i])
        }
    &&& s[14] == '4'
    &&& (s[19] == '8' || s[19] == '9' || s[19] == 'a' || s[19] == 'b')
}

/// A fresh random identifier: the hyphenated lowercase text of uuid's
/// `Uuid::new_v4()`. The contract states the text's shape, which uuid's
/// formatting gives every version 4 UUID; which UUID comes out is chance.
#[verifier::external_body]
pub(crate) fn new_id() -> (r: String)
    ensures
        is_uuid_v4_text(r@),
{
    uuid::Uuid::new_v4().to_string()
}

/// Bump when shipping a rebuilt dictionary so existing installs re-copy.
pub const DICT_COPY_VERSION: &'static str = "1";

/// Whether the user-writable copy of the dictionary can be used as it is:
/// it exists and was recorded as a complete copy of the current dictionary
/// version. Otherwise it must be copied again, and the version recorded
/// only once the copy is complete.
pub fn dict_copy_up_to_date(target_exists: bool, have_version: &Option<String>) -> (r: bool)
    ensures
        r == (target_exists && (have_version matches Some(v) && v@ == DICT_COPY_VERSION@)),
{
    match have_version {
        Some(v) => target_exists && same_text(v.as_str(), DICT_COPY_VERSION),
        None => false,
    }
}

/// `path` with every backslash turned into a forward slash.
pub open spec fn forward_slashes(path: Seq<char>) -> Seq<char> {
    path.map_values(|c: char| if c == '\\' { '/' } else { c })
}

/// `path` without a Windows verbatim prefix: `//?/UNC/server/...` becomes
/// `//server/...` and `//?/C:/...` becomes `C:/...`.
pub open spec fn strip_verbatim(s: Seq<char>) -> Seq<char> {
    if s.len() >= 8 && s.take(8) == seq!['/', '/', '?', '/', 'U', 'N', 'C', '/'] {
        seq!['/', '/'] + s.skip(8)
    } else if s.len() >= 4 && s.take(4) == seq!['/', '/', '?', '/'] {
        s.skip(4)
    } else {
        s
    }
}

/// `s` starting with a slash (a Windows drive path `C:/...` becomes
/// `/C:/...`).
pub open spec fn rooted(s: Seq<char>) -> Seq<char> {
    if s.len() > 0 && s[0] == '/' {
        s
    } else {
        seq!['/'] + s
    }
}

/// The path part of the URI, before percent-encoding.
pub open spec fn uri_path(path: Seq<char>) -> Seq<char> {
    rooted(strip_verbatim(forward_slashes(path)))
}

/// Bytes written as themselves in the URI.
pub open spec fn uri_safe(b: u8) -> bool {
    ||| 65 <= b <= 90
    ||| 97 <= b <= 122
    ||| 48 <= b <= 57
    ||| b == 47
    ||| b == 46
    ||| b == 45
    ||| b == 95
    ||| b == 58
}

/// The upper-case hexadecimal digit for `d < 16`.
pub open spec fn hex_upper(d: int) -> char {
    if d < 10 {
        (48 + d) as char
    } else {
        (55 + d) as char
    }
}

/// One byte of the path in the URI: itself when safe, `%XX` otherwise.
pub open spec fn percent_byte(b: u8) -> Seq<char> {
    if uri_safe(b) {
        seq![b as char]
    } else {
        seq!['%', hex_upper((b / 16) as int), hex_upper((b % 16) as int)]
    }
}

/// The bytes of a path, percent-encoded.
pub open spec fn percent_encode(bytes: Seq<u8>) -> Seq<char> {
    bytes.flat_map(|b: u8| percent_byte(b))
}

/// The read-only SQLite URI for a dictionary file at `path`.
pub open spec fn spec_dict_file_uri(path: Seq<char>) -> Seq<char> {
    "file:"@ + percent_encode(encode_utf8(uri_path(path))) + "?mode=ro"@
}

fn hex_digit(d: u8) -> (c: char)
    requires
        d < 16,
    ensures
        c == hex_upper(d as int),
{
    if d < 10 {
        (d + 48) as char
    } else {
        (d + 55) as char
    }
}

fn starts_with_at(s: &Vec<char>, prefix: &Vec<char>) -> (r: bool)
    ensures
        r == (s@.len() >= prefix@.len() && s@.take(prefix@.len() as int) == prefix@),
{
    if s.len() < prefix.len() {
        return false;
    }
    let mut i: usize = 0;
    while i < prefix.len()
        invariant
            i <= prefix@.len() <= s@.len(),
            forall|j: int| 0 <= j < i ==> s@[j] == prefix@[j],
        decreases prefix@.len() - i,
    {
        if s[i] != prefix[i] {
            assert(s@.take(prefix@.len() as int)[i as int] != prefix@[i as int]);
            return false;
        }
        i += 1;
    }
    assert(s@.take(prefix@.len() as int) == prefix@);
    true
}

/// The path part of the URI, before percent-encoding.
fn uri_path_of(path: &str) -> (r: String)
    ensures
        r@ == uri_path(path@),
{
    let raw = chars_of(path);
    let mut s: Vec<char> = Vec::new();
    let mut i: usize = 0;
    while i < raw.len()
        invariant
            i <= raw@.len(),
            s@ == raw@.take(i as int).map_values(|c: char| if c == '\\' { '/' } else { c }),
        decreases raw@.len() - i,
    {
        let c = raw[i];
        s.push(if c == '\\' { '/' } else { c });
        i += 1;
        assert(raw@.take(i as int) == raw@.take(i - 1).push(c));
    }
    assert(raw@.take(raw@.len() as int) == raw@);
    let unc = vec!['/', '/', '?', '/', 'U', 'N', 'C', '/'];
    let verbatim = vec!['/', '/', '?', '/'];
    assert(unc@ == seq!['/', '/', '?', '/', 'U', 'N', 'C', '/']);
    assert(verbatim@ == seq!['/', '/', '?', '/']);
    let (from, lead_slashes) = if starts_with_at(&s, &unc) {
        (8, 2)
    } else if starts_with_at(&s, &verbatim) {
        (4, 0)
    } else {
        (0, 0)
    };
    let ghost stripped = strip_verbatim(s@);
    assert(stripped == seq!['/', '/'].take(lead_slashes as int) + s@.subrange(
        from as int,
        s@.len() as int,
    ));
    let mut out = String::new();
    let first = if lead_slashes > 0 {
        '/'
    } else if from < s.len() {
        s[from]
    } else {
        ' '
    };
    let has_root = lead_slashes > 0 || (from < s.len() && first == '/');
    assert(has_root == (stripped.len() > 0 && stripped[0] == '/'));
    if !has_root {
        push_char(&mut out, '/');
    }
    if lead_slashes > 0 {
        push_char(&mut out, '/');
        push_char(&mut out, '/');
    }
    let ghost before = out@;
    push_chars(&mut out, &s, from, s.len());
    assert(out@ == before + s@.subrange(from as int, s@.len() as int));
    out
}

/// Build a SQLite `file:` URI that opens the dictionary read-only
/// (`mode=ro`). Percent-encodes everything outside a small safe set so
/// Windows backslashes, spaces and non-ASCII profile names survive; Windows
/// verbatim-path prefixes are stripped first.
pub fn dict_file_uri(path: &str) -> (r: String)
    ensures
        r@ == spec_dict_file_uri(path@),
{
    let p = uri_path_of(path);
    let bytes = p.as_str().as_bytes();
    let mut out = to_string("file:");
    let ghost f = |b: u8| percent_byte(b);
    let mut i: usize = 0;
    while i < bytes.len()
        invariant
            i <= bytes@.len(),
            bytes@ == encode_utf8(p@),
            f == (|b: u8| percent_byte(b)),
            out@ == "file:"@ + bytes@.take(i as int).flat_map(f),
        decreases bytes@.len() - i,
    {
        proof {
            bytes@.lemma_flat_map_take_append(f, i as int);
        }
        let b = bytes[i];
        if (65 <= b && b <= 90) || (97 <= b && b <= 122) || (48 <= b && b <= 57) || b == 47 || b
            == 46 || b == 45 || b == 95 || b == 58 {
            push_char(&mut out, b as char);
        } else {
            push_char(&mut out, '%');
            push_char(&mut out, hex_digit(b / 16));
            push_char(&mut out, hex_digit(b % 16));
        }
        i += 1;
    }
    assert(bytes@.take(bytes@.len() as int) == bytes@);
    out.append("?mode=ro");
    out
}

/// The value of an upper-case hexadecimal digit.
pub open spec fn hex_value(c: char) -> int {
    if '0' <= c <= '9' {
        c as int - 48
    } else {
        c as int - 55
    }
}

/// Percent-decoding: `%XX` stands for the byte `0xXX`, any other
/// character for itself.
pub open spec fn percent_decode(s: Seq<char>) -> Seq<u8>
    decreases s.len(),
{
    if s.len() == 0 {
        Seq::empty()
    } else if s[0] == '%' && s.len() >= 3 {
        seq![(hex_value(s[1]) * 16 + hex_value(s[2])) as u8] + percent_decode(s.skip(3))
    } else {
        seq![s[0] as u8] + percent_decode(s.drop_first())
    }
}

/// Percent-decoding the encoded path gives back exactly its bytes, so the
/// URI names the same file as the path.
pub proof fn lemma_percent_roundtrip(bytes: Seq<u8>)
    ensures
        percent_decode(percent_encode(bytes)) == bytes,
    decreases bytes.len(),
{
    if bytes.len() > 0 {
        let f = |b: u8| percent_byte(b);
        let rest = bytes.drop_first();
        lemma_percent_roundtrip(rest);
        assert(bytes.map_values(f).drop_first() == rest.map_values(f));
        assert(percent_encode(bytes) == percent_byte(bytes[0]) + percent_encode(rest));
        let e = percent_encode(bytes);
        let b = bytes[0];
        if uri_safe(b) {
            assert(e.drop_first() == percent_encode(rest));
            assert((b as char) as u8 == b);
            assert(e[0] != '%');
        } else {
            assert(e.skip(3) == percent_encode(rest));
            assert(hex_value(hex_upper((b / 16) as int)) * 16 + hex_value(hex_upper((b % 16) as int))
                == b);
        }
        assert(percent_decode(e) == seq![b] + rest);
    }
}

/// Whether every character of `s` is ASCII.
pub open spec fn all_ascii(s: Seq<char>) -> bool {
    forall|i: int| 0 <= i < s.len() ==> (#[trigger] s[i]) as u32 <= 127
}

/// The URI is plain ASCII whatever the path, and its only `?` is the one
/// that starts the `mode=ro` query.
pub proof fn lemma_dict_file_uri_ascii(path: Seq<char>)
    ensures
        all_ascii(spec_dict_file_uri(path)),
        forall|i: int|
            0 <= i < percent_encode(encode_utf8(uri_path(path))).len() ==> #[trigger] percent_encode(
                encode_utf8(uri_path(path)),
            )[i] != '?',
{
    reveal_strlit("file:");
    reveal_strlit("?mode=ro");
    let bytes = encode_utf8(uri_path(path));
    lemma_percent_encode_ascii(bytes);
    let a = "file:"@;
    let m = percent_encode(bytes);
    let z = "?mode=ro"@;
    assert(all_ascii(a));
    assert(all_ascii(z));
    assert forall|i: int| 0 <= i < (a + m + z).len() implies (#[trigger] (a + m + z)[i]) as u32
        <= 127 by {
        if i < a.len() {
        } else if i < a.len() + m.len() {
            assert((a + m + z)[i] == m[i - a.len()]);
        } else {
            assert((a + m + z)[i] == z[i - a.len() - m.len()]);
        }
    }
}

/// Percent-encoding yields ASCII characters and never `?`.
pub proof fn lemma_percent_encode_ascii(bytes: Seq<u8>)
    ensures
        all_ascii(percent_encode(bytes)),
        forall|i: int| 0 <= i < percent_encode(bytes).len() ==> #[trigger] percent_encode(bytes)[i] != '?',
    decreases bytes.len(),
{
    if bytes.len() > 0 {
        let f = |b: u8| percent_byte(b);
        let rest = bytes.drop_first();
        lemma_percent_encode_ascii(rest);
        assert(bytes.map_values(f).drop_first() == rest.map_values(f));
        let head = percent_byte(bytes[0]);
        let tail = percent_encode(rest);
        assert(percent_encode(bytes) == head + tail);
        assert forall|i: int| 0 <= i < (head + tail).len() implies (#[trigger] (head + tail)[i]) as u32
            <= 127 && (head + tail)[i] != '?' by {
            if i >= head.len() {
                assert((head + tail)[i] == tail[i - head.len()]);
            }
        }
    }
}

} // verus!
