//! `file://` URIs and the paths that they stand for.

use crate::text;
use vstd::prelude::*;
use vstd::slice::*;
use vstd::string::*;
use vstd::utf8::*;

verus! {

/// The upper-case hexadecimal digit that stands for `n`.
pub open spec fn upper_hex_digit(n: int) -> char {
    if n < 10 {
        (48 + n) as char
    } else {
        (55 + n) as char
    }
}

/// The three characters that stand for the byte `byte`: a percent sign and two hexadecimal digits.
pub open spec fn percent_byte(byte: u8) -> Seq<char> {
    seq!['%', upper_hex_digit(byte as int / 16), upper_hex_digit(byte as int % 16)]
}

/// `percent_encoding::percent_encode_byte`: the percent-encoding of one byte, with upper-case
/// digits.
pub assume_specification[ percent_encoding::percent_encode_byte ](byte: u8) -> (r: &'static str)
    ensures
        r@ == percent_byte(byte),
;

/// The number that the hexadecimal digit `byte` stands for.
pub open spec fn hex_value(byte: u8) -> Option<int> {
    if 48 <= byte <= 57 {
        Some(byte - 48)
    } else if 65 <= byte <= 70 {
        Some(byte - 55)
    } else if 97 <= byte <= 102 {
        Some(byte - 87)
    } else {
        None
    }
}

/// `bytes` with each percent sign that two hexadecimal digits follow replaced, together with them,
/// by the byte that they stand for.
pub open spec fn percent_decoded(bytes: Seq<u8>) -> Seq<u8>
    decreases bytes.len(),
{
    if bytes.len() == 0 {
        bytes
    } else if bytes[0] == 37 && bytes.len() >= 3 && hex_value(bytes[1]) is Some && hex_value(
        bytes[2],
    ) is Some {
        seq![(hex_value(bytes[1])->Some_0 * 16 + hex_value(bytes[2])->Some_0) as u8]
            + percent_decoded(bytes.skip(3))
    } else {
        seq![bytes[0]] + percent_decoded(bytes.drop_first())
    }
}

/// `percent_encoding::percent_decode_str`, read as UTF-8 with `decode_utf8`: each percent sign that
/// two hexadecimal digits follow becomes the byte that they stand for, and the result is the text
/// that the bytes then hold, where they hold one.
#[verifier::external_body]
fn percent_decode_text(encoded: &str) -> (r: Option<String>)
    ensures
        (match r {
            Some(decoded) => valid_utf8(percent_decoded(encode_utf8(encoded@))) && decoded@
                == decode_utf8(percent_decoded(encode_utf8(encoded@))),
            None => !valid_utf8(percent_decoded(encode_utf8(encoded@))),
        }),
{
    percent_encoding::percent_decode_str(encoded).decode_utf8().ok().map(|text| text.into_owned())
}

/// The byte stands in the path of a URI as it is.
pub open spec fn kept_in_path(byte: u8) -> bool {
    ||| 48 <= byte <= 57
    ||| 65 <= byte <= 90
    ||| 97 <= byte <= 122
    ||| byte == 47
    ||| byte == 58
    ||| byte == 45
    ||| byte == 46
    ||| byte == 95
    ||| byte == 126
    ||| byte == 64
}

/// `bytes` with those that cannot stand in the path of a URI percent-encoded.
pub open spec fn percent_encoded(bytes: Seq<u8>) -> Seq<char>
    decreases bytes.len(),
{
    if bytes.len() == 0 {
        Seq::empty()
    } else {
        (if kept_in_path(bytes[0]) {
            seq![bytes[0] as char]
        } else {
            percent_byte(bytes[0])
        }) + percent_encoded(bytes.drop_first())
    }
}

/// `path` with what cannot stand in the path of a URI percent-encoded.
pub open spec fn encoded_path(path: Seq<char>) -> Seq<char> {
    percent_encoded(encode_utf8(path))
}

/// Decoding undoes encoding.
pub proof fn lemma_decode_encoded(bytes: Seq<u8>)
    ensures
        percent_decoded(encode_utf8(percent_encoded(bytes))) == bytes,
    decreases bytes.len(),
{
    if bytes.len() == 0 {
        assert(encode_utf8(percent_encoded(bytes)) =~= Seq::<u8>::empty());
    } else {
        let byte = bytes[0];
        let rest = percent_encoded(bytes.drop_first());
        lemma_decode_encoded(bytes.drop_first());
        if kept_in_path(byte) {
            let piece = seq![byte as char];
            text::lemma_encode_concat(piece, rest);
            assert(is_ascii_chars(piece));
            is_ascii_chars_encode_utf8(piece);
            assert(piece[0] as u8 == byte);
            let encoded = encode_utf8(piece) + encode_utf8(rest);
            assert(encoded[0] == byte);
            assert(encoded.drop_first() =~= encode_utf8(rest));
        } else {
            let piece = percent_byte(byte);
            text::lemma_encode_concat(piece, rest);
            assert(is_ascii_chars(piece));
            is_ascii_chars_encode_utf8(piece);
            let encoded = encode_utf8(piece) + encode_utf8(rest);
            assert(piece[0] as u8 == encoded[0]);
            assert(piece[1] as u8 == encoded[1]);
            assert(piece[2] as u8 == encoded[2]);
            assert(hex_value(encoded[1]) == Some(byte as int / 16));
            assert(hex_value(encoded[2]) == Some(byte as int % 16));
            assert(encoded.skip(3) =~= encode_utf8(rest));
        }
        assert(bytes =~= seq![byte] + bytes.drop_first());
    }
}

/// What encoding makes has two hexadecimal digits after each percent sign.
proof fn lemma_well_encoded(bytes: Seq<u8>)
    ensures
        well_encoded(encode_utf8(percent_encoded(bytes))),
    decreases bytes.len(),
{
    if bytes.len() == 0 {
        assert(encode_utf8(percent_encoded(bytes)) =~= Seq::<u8>::empty());
    } else {
        let byte = bytes[0];
        let rest = percent_encoded(bytes.drop_first());
        lemma_well_encoded(bytes.drop_first());
        let piece = if kept_in_path(byte) {
            seq![byte as char]
        } else {
            percent_byte(byte)
        };
        text::lemma_encode_concat(piece, rest);
        assert(is_ascii_chars(piece));
        is_ascii_chars_encode_utf8(piece);
        let head = encode_utf8(piece);
        let tail = encode_utf8(rest);
        let encoded = head + tail;
        assert(piece[0] as u8 == head[0]);
        if !kept_in_path(byte) {
            assert(piece[1] as u8 == head[1]);
            assert(piece[2] as u8 == head[2]);
        }
        assert forall|i: int| 0 <= i < encoded.len() implies #[trigger] escape_at(encoded, i) by {
            if i >= head.len() {
                assert(escape_at(tail, i - head.len()));
            }
        }
    }
}

/// `path` with what cannot stand in the path of a URI percent-encoded.
pub fn encode_path(path: &[char]) -> (r: String)
    ensures
        r@ == encoded_path(path@),
{
    let whole = text::string_of(path);
    let bytes = whole.as_str().as_bytes();
    let mut r = String::new();
    let mut i: usize = 0;
    assert(bytes@.skip(0) == bytes@);
    while i < bytes.len()
        invariant
            i <= bytes@.len(),
            r@ + percent_encoded(bytes@.skip(i as int)) == percent_encoded(bytes@),
        decreases bytes@.len() - i,
    {
        let byte = bytes[i];
        let ghost rest = bytes@.skip(i as int);
        let ghost before = r@;
        if (48 <= byte && byte <= 57) || (65 <= byte && byte <= 90) || (97 <= byte && byte <= 122)
            || byte == 47 || byte == 58 || byte == 45 || byte == 46 || byte == 95 || byte == 126
            || byte == 64 {
            r.push(byte as char);
            assert(r@ =~= before + seq![byte as char]);
        } else {
            r.append(percent_encoding::percent_encode_byte(byte));
        }
        i += 1;
        assert(rest.drop_first() == bytes@.skip(i as int));
        assert(r@ + percent_encoded(bytes@.skip(i as int)) =~= before + percent_encoded(rest));
    }
    assert(r@ =~= r@ + percent_encoded(bytes@.skip(i as int)));
    r
}

/// `s` with `to` in place of each `from`.
pub open spec fn swapped(s: Seq<char>, from: char, to: char) -> Seq<char> {
    s.map_values(
        |c: char|
            if c == from {
                to
            } else {
                c
            },
    )
}

/// `s` with `to` in place of each `from`.
pub fn swap_chars(s: &[char], from: char, to: char) -> (r: Vec<char>)
    ensures
        r@ == swapped(s@, from, to),
{
    let mut r: Vec<char> = Vec::new();
    let mut i: usize = 0;
    while i < s.len()
        invariant
            i <= s@.len(),
            r@.len() == i,
            forall|j: int| 0 <= j < i ==> r@[j] == swapped(s@, from, to)[j],
        decreases s@.len() - i,
    {
        r.push(
            if s[i] == from {
                to
            } else {
                s[i]
            },
        );
        i += 1;
    }
    assert(r@ =~= swapped(s@, from, to));
    r
}

/// `path` with slashes as separators and, on Windows, without the prefix that marks it as
/// verbatim.
pub open spec fn slashed(path: Seq<char>, windows: bool) -> Seq<char> {
    if windows {
        let unified = swapped(path, '\\', '/');
        if text::starts_with(unified, "//?/UNC/"@) {
            "//"@ + unified.skip(8)
        } else if text::starts_with(unified, "//?/"@) {
            unified.skip(4)
        } else {
            unified
        }
    } else {
        path
    }
}

/// The URI that stands for `path`.
pub open spec fn file_uri(path: Seq<char>, windows: bool) -> Seq<char> {
    let path = slashed(path, windows);
    if windows && text::starts_with(path, "//"@) {
        "file://"@ + encoded_path(path.skip(2))
    } else if text::starts_with(path, "/"@) {
        "file://"@ + encoded_path(path)
    } else {
        "file:///"@ + encoded_path(path)
    }
}

/// Where a percent sign stands at `i`, two hexadecimal digits follow it.
pub open spec fn escape_at(bytes: Seq<u8>, i: int) -> bool {
    bytes[i] == 37 ==> i + 2 < bytes.len() && hex_value(bytes[i + 1]) is Some && hex_value(
        bytes[i + 2],
    ) is Some
}

/// Two hexadecimal digits follow each percent sign of `bytes`.
pub open spec fn well_encoded(bytes: Seq<u8>) -> bool {
    forall|i: int| 0 <= i < bytes.len() ==> #[trigger] escape_at(bytes, i)
}

/// The text that `encoded` percent-encodes. There is none where a percent sign stands for no byte,
/// or where the bytes are no text.
pub open spec fn decoded_text(encoded: Seq<char>) -> Option<Seq<char>> {
    let bytes = percent_decoded(encode_utf8(encoded));
    if well_encoded(encode_utf8(encoded)) && valid_utf8(bytes) {
        Some(decode_utf8(bytes))
    } else {
        None
    }
}

/// The path that `uri` stands for.
pub open spec fn file_path(uri: Seq<char>, windows: bool) -> Option<Seq<char>> {
    if !text::starts_with(uri, "file://"@) {
        None
    } else if !windows {
        decoded_text(uri.skip(7))
    } else if text::starts_with(uri.skip(7), "/"@) {
        match decoded_text(uri.skip(8)) {
            Some(path) => Some(swapped(path, '/', '\\')),
            None => None,
        }
    } else {
        match decoded_text(uri.skip(7)) {
            Some(path) => Some("\\\\"@ + swapped(path, '/', '\\')),
            None => None,
        }
    }
}

fn is_hex_digit(byte: u8) -> (r: bool)
    ensures
        r == hex_value(byte) is Some,
{
    (48 <= byte && byte <= 57) || (65 <= byte && byte <= 70) || (97 <= byte && byte <= 102)
}

fn is_well_encoded(encoded: &str) -> (r: bool)
    ensures
        r == well_encoded(encode_utf8(encoded@)),
{
    let bytes = encoded.as_bytes();
    let mut i: usize = 0;
    while i < bytes.len()
        invariant
            i <= bytes@.len(),
            bytes@ == encode_utf8(encoded@),
            forall|j: int| 0 <= j < i ==> #[trigger] escape_at(bytes@, j),
        decreases bytes@.len() - i,
    {
        if bytes[i] == 37 && !(bytes.len() - i > 2 && is_hex_digit(bytes[i + 1]) && is_hex_digit(
            bytes[i + 2],
        )) {
            assert(!escape_at(bytes@, i as int));
            return false;
        }
        i += 1;
    }
    true
}

/// The text that `encoded` percent-encodes.
fn decode_text(encoded: &str) -> (r: Option<String>)
    ensures
        text::optional(r) == decoded_text(encoded@),
{
    if is_well_encoded(encoded) {
        percent_decode_text(encoded)
    } else {
        None
    }
}

/// The URI that stands for `path`, which is a Windows path or not.
pub fn file_uri_from_path_string(path: &str, windows: bool) -> (r: String)
    ensures
        r@ == file_uri(path@, windows),
{
    proof {
        reveal_strlit("//?/UNC/");
        reveal_strlit("//?/");
        reveal_strlit("//");
        reveal_strlit("/");
    }
    let chars = text::chars_of(path);
    let mut normalized = if windows {
        swap_chars(&chars, '\\', '/')
    } else {
        chars
    };
    if windows {
        let unc = text::chars_of("//?/UNC/");
        let verbatim = text::chars_of("//?/");
        if text::has_prefix(&normalized, &unc) {
            let mut shorter = text::chars_of("//");
            text::push_all(&mut shorter, slice_subrange(&normalized, 8, normalized.len()));
            normalized = shorter;
        } else if text::has_prefix(&normalized, &verbatim) {
            let mut shorter: Vec<char> = Vec::new();
            text::push_all(&mut shorter, slice_subrange(&normalized, 4, normalized.len()));
            normalized = shorter;
        }
        assert(normalized@ =~= slashed(path@, windows));
        let authority = text::chars_of("//");
        if text::has_prefix(&normalized, &authority) {
            let mut r = String::new();
            r.append("file://");
            r.append(encode_path(slice_subrange(&normalized, 2, normalized.len())).as_str());
            return r;
        }
    }
    assert(normalized@ =~= slashed(path@, windows));
    let root = text::chars_of("/");
    let mut r = String::new();
    if text::has_prefix(&normalized, &root) {
        r.append("file://");
    } else {
        r.append("file:///");
    }
    r.append(encode_path(&normalized).as_str());
    r
}

/// The URI that stands for the file system path `path`, which is a Windows path or not.
pub fn path_to_file_uri(path: &str, windows: bool) -> (r: String)
    ensures
        r@ == file_uri(path@, windows),
{
    file_uri_from_path_string(path, windows)
}

/// The file system path that `uri` stands for, which is a Windows path or not. There is none where
/// `uri` is no `file://` URI or its percent-encoding is invalid: a percent sign without two
/// hexadecimal digits, or bytes that are no text.
pub fn file_uri_to_path(uri: &str, windows: bool) -> (r: Option<String>)
    ensures
        (match r {
            Some(path) => file_path(uri@, windows) == Some(path@),
            None => file_path(uri@, windows) is None,
        }),
{
    proof {
        reveal_strlit("file://");
        reveal_strlit("/");
    }
    let chars = text::chars_of(uri);
    let scheme = text::chars_of("file://");
    if !text::has_prefix(&chars, &scheme) {
        return None;
    }
    let rest = slice_subrange(&chars, 7, chars.len());
    assert(rest@ == uri@.skip(7));
    if !windows {
        return decode_text(text::string_of(rest).as_str());
    }
    let root = text::chars_of("/");
    if text::has_prefix(rest, &root) {
        let path = slice_subrange(rest, 1, rest.len());
        assert(path@ == uri@.skip(8));
        return match decode_text(text::string_of(path).as_str()) {
            Some(decoded) => Some(
                text::string_of(&swap_chars(&text::chars_of(decoded.as_str()), '/', '\\')),
            ),
            None => None,
        };
    }
    match decode_text(text::string_of(rest).as_str()) {
        Some(decoded) => {
            let mut r = String::new();
            r.append("\\\\");
            r.append(
                text::string_of(&swap_chars(&text::chars_of(decoded.as_str()), '/', '\\')).as_str(),
            );
            Some(r)
        },
        None => None,
    }
}

proof fn lemma_decoded_text(path: Seq<char>)
    ensures
        decoded_text(encoded_path(path)) == Some(path),
{
    lemma_decode_encoded(encode_utf8(path));
    lemma_well_encoded(encode_utf8(path));
    encode_utf8_valid_utf8(path);
    encode_utf8_decode_utf8(path);
}

/// A Unix path comes back from its URI as it was.
pub proof fn lemma_unix_round_trip(path: Seq<char>)
    requires
        text::starts_with(path, "/"@),
    ensures
        file_path(file_uri(path, false), false) == Some(path),
{
    reveal_strlit("file://");
    let uri = file_uri(path, false);
    assert(uri.subrange(0, 7) =~= "file://"@);
    assert(uri.skip(7) =~= encoded_path(path));
    lemma_decoded_text(path);
}

/// `path` with backslashes as separators and without the prefix that marks it as verbatim.
pub open spec fn windows_form(path: Seq<char>) -> Seq<char> {
    swapped(slashed(path, true), '/', '\\')
}

/// A Windows path comes back from its URI with backslashes as separators and without the prefix
/// that marks it as verbatim, where it begins with a drive (with no separator) or with the name of
/// a server (after two separators).
pub proof fn lemma_windows_round_trip(path: Seq<char>)
    requires
        text::starts_with(windows_form(path), "\\"@) ==> text::starts_with(
            windows_form(path),
            "\\\\"@,
        ) && !text::starts_with(windows_form(path), "\\\\\\"@),
    ensures
        file_path(file_uri(path, true), true) == Some(windows_form(path)),
{
    reveal_strlit("file://");
    reveal_strlit("file:///");
    reveal_strlit("/");
    reveal_strlit("//");
    reveal_strlit("\\");
    reveal_strlit("\\\\");
    reveal_strlit("\\\\\\");
    let uri = file_uri(path, true);
    let plain = slashed(path, true);
    let form = windows_form(path);
    lemma_no_backslash(path);
    if text::starts_with(plain, "//"@) {
        let share = plain.skip(2);
        assert(plain.subrange(0, 2) =~= "//"@);
        assert(plain[0] == plain.subrange(0, 2)[0] && plain[1] == plain.subrange(0, 2)[1]);
        assert(form.subrange(0, 1) =~= "\\"@);
        assert(uri.subrange(0, 7) =~= "file://"@);
        assert(uri.skip(7) =~= encoded_path(share));
        lemma_decoded_text(share);
        if text::starts_with(encoded_path(share), "/"@) {
            assert(encoded_path(share).subrange(0, 1)[0] == '/');
            lemma_first_char(share);
            assert(share[0] == '/');
            assert(plain[2] == '/');
            assert(form.subrange(0, 3) =~= "\\\\\\"@);
        }
        assert("\\\\"@ + swapped(share, '/', '\\') =~= form);
    } else {
        if text::starts_with(plain, "/"@) {
            assert(plain.subrange(0, 1)[0] == '/');
            assert(form.subrange(0, 1) =~= "\\"@);
            assert(form.subrange(0, 2)[1] == '\\');
            assert(plain[1] == '/');
            assert(plain.subrange(0, 2) =~= "//"@);
        }
        assert(uri.subrange(0, 7) =~= "file://"@);
        assert(uri.skip(7).subrange(0, 1) =~= "/"@);
        assert(uri.skip(8) =~= encoded_path(plain));
        lemma_decoded_text(plain);
    }
}

proof fn lemma_no_backslash(path: Seq<char>)
    ensures
        forall|i: int|
            0 <= i < slashed(path, true).len() ==> #[trigger] slashed(path, true)[i] != '\\',
{
    reveal_strlit("//?/UNC/");
    reveal_strlit("//?/");
    reveal_strlit("//");
}

/// An encoded path begins with a slash where the path does.
proof fn lemma_first_char(path: Seq<char>)
    requires
        encoded_path(path).len() > 0,
        encoded_path(path)[0] == '/',
    ensures
        path.len() > 0,
        path[0] == '/',
{
    let bytes = encode_utf8(path);
    assert(bytes.len() > 0);
    assert(path.len() > 0);
    assert(bytes[0] == 47) by {
        if kept_in_path(bytes[0]) {
            assert(encoded_path(path)[0] == bytes[0] as char);
        } else {
            assert(encoded_path(path)[0] == '%');
        }
    }
    encode_utf8_first_scalar(path);
    assert(leading_bits_width_1(47u8) == 47u32) by (bit_vector);
    char_u32_cast(path[0], 47u32);
}

/// `c` stands in the path of a URI as it is: a letter, a digit, or one of `/:-._~@`.
pub open spec fn stands_in_uri(c: char) -> bool {
    ||| 'a' <= c <= 'z'
    ||| 'A' <= c <= 'Z'
    ||| '0' <= c <= '9'
    ||| seq!['/', ':', '-', '.', '_', '~', '@'].contains(c)
}

proof fn lemma_kept_bytes(byte: u8)
    ensures
        kept_in_path(byte) <==> byte < 128 && stands_in_uri(byte as char),
{
    let marks = seq!['/', ':', '-', '.', '_', '~', '@'];
    assert(marks[0] == '/' && marks[1] == ':' && marks[2] == '-' && marks[3] == '.' && marks[4]
        == '_' && marks[5] == '~' && marks[6] == '@');
    let c = byte as char;
    if marks.contains(c) {
        let i = choose|i: int| 0 <= i < marks.len() && marks[i] == c;
    }
}

/// What is put into a URI is encoded piece by piece.
pub proof fn lemma_encoded_pieces(a: Seq<char>, b: Seq<char>)
    ensures
        encoded_path(a + b) == encoded_path(a) + encoded_path(b),
{
    text::lemma_encode_concat(a, b);
    lemma_encoded_bytes(encode_utf8(a), encode_utf8(b));
}

proof fn lemma_encoded_bytes(a: Seq<u8>, b: Seq<u8>)
    ensures
        percent_encoded(a + b) == percent_encoded(a) + percent_encoded(b),
    decreases a.len(),
{
    if a.len() == 0 {
        assert(a + b =~= b);
        assert(percent_encoded(a) + percent_encoded(b) =~= percent_encoded(b));
    } else {
        assert((a + b).drop_first() =~= a.drop_first() + b);
        lemma_encoded_bytes(a.drop_first(), b);
        assert(percent_encoded(a + b) =~= percent_encoded(a) + percent_encoded(b));
    }
}

/// A letter, a digit and each of `/:-._~@` stand in a URI as they are; any other ASCII character is
/// encoded as a percent sign and its code in two hexadecimal digits.
pub proof fn lemma_encoded_characters(c: char)
    requires
        (c as u32) < 128,
    ensures
        stands_in_uri(c) ==> encoded_path(seq![c]) == seq![c],
        !stands_in_uri(c) ==> encoded_path(seq![c]) == seq![
            '%',
            upper_hex_digit(c as u32 as int / 16),
            upper_hex_digit(c as u32 as int % 16),
        ],
{
    let one = seq![c];
    assert(is_ascii_chars(one));
    is_ascii_chars_encode_utf8(one);
    let bytes = encode_utf8(one);
    assert(one[0] as u8 == bytes[0]);
    let byte = bytes[0];
    assert(byte as char == c);
    lemma_kept_bytes(byte);
    assert(bytes.drop_first() =~= Seq::empty());
    assert(percent_encoded(bytes.drop_first()) =~= Seq::empty());
    assert(percent_encoded(bytes) =~= if kept_in_path(byte) {
        seq![byte as char]
    } else {
        percent_byte(byte)
    });
}

/// The URI of a Unix path is `file://` and the encoded path; that of a Windows path on a drive is
/// `file:///` and the encoded path with slashes.
pub proof fn lemma_file_uris(path: Seq<char>)
    ensures
        path.len() > 0 && path[0] == '/' ==> file_uri(path, false) == "file://"@ + encoded_path(
            path,
        ),
        path.len() >= 2 && path[0] != '/' && path[0] != '\\' ==> file_uri(path, true)
            == "file:///"@ + encoded_path(swapped(path, '\\', '/')),
        swapped(path, '\\', '/').len() == path.len(),
        forall|i: int|
            0 <= i < path.len() ==> #[trigger] swapped(path, '\\', '/')[i] == if path[i] == '\\' {
                '/'
            } else {
                path[i]
            },
{
    reveal_strlit("/");
    reveal_strlit("//");
    reveal_strlit("//?/");
    reveal_strlit("//?/UNC/");
    if path.len() > 0 {
        let first = path.subrange(0, 1);
        assert(first[0] == path[0]);
        assert(path[0] == '/' ==> first =~= "/"@);
    }
    let unified = swapped(path, '\\', '/');
    if path.len() >= 2 && path[0] != '/' && path[0] != '\\' {
        assert(unified[0] != '/');
        assert(!text::starts_with(unified, "//?/UNC/"@)) by {
            if text::starts_with(unified, "//?/UNC/"@) {
                assert(unified.subrange(0, 8)[0] == '/');
            }
        }
        assert(!text::starts_with(unified, "//?/"@)) by {
            if text::starts_with(unified, "//?/"@) {
                assert(unified.subrange(0, 4)[0] == '/');
            }
        }
        assert(!text::starts_with(unified, "//"@)) by {
            if text::starts_with(unified, "//"@) {
                assert(unified.subrange(0, 2)[0] == '/');
            }
        }
        assert(!text::starts_with(unified, "/"@)) by {
            if text::starts_with(unified, "/"@) {
                assert(unified.subrange(0, 1)[0] == '/');
            }
        }
    }
}

/// A verbatim Windows path has the URI of the path without what marks it as verbatim, and the URI of a path
/// on a server names the server first.
pub proof fn lemma_verbatim_uris(rest: Seq<char>)
    requires
        rest.len() >= 2,
        rest[0] != '/' && rest[0] != '\\' && rest[0] != '?',
    ensures
        rest[0] != 'U' ==> file_uri(seq!['\\', '\\', '?', '\\'] + rest, true) == file_uri(rest, true),
        file_uri(seq!['\\', '\\'] + rest, true) == "file://"@ + encoded_path(
            swapped(rest, '\\', '/'),
        ),
        file_uri(seq!['\\', '\\', '?', '\\', 'U', 'N', 'C', '\\'] + rest, true) == file_uri(
            seq!['\\', '\\'] + rest,
            true,
        ),
{
    reveal_strlit("//");
    reveal_strlit("//?/");
    reveal_strlit("//?/UNC/");
    lemma_file_uris(rest);
    let plain = swapped(rest, '\\', '/');
    let verbatim = seq!['\\', '\\', '?', '\\'] + rest;
    let all = swapped(verbatim, '\\', '/');
    assert(all[0] == '/' && all[1] == '/' && all[2] == '?' && all[3] == '/');
    assert(all.subrange(0, 4) =~= "//?/"@);
    assert(all.skip(4) =~= plain);
    if rest[0] != 'U' {
        assert(!text::starts_with(all, "//?/UNC/"@)) by {
            if text::starts_with(all, "//?/UNC/"@) {
                assert(all.subrange(0, 8)[4] == 'U');
                assert(all[4] == plain[0]);
            }
        }
        assert(slashed(verbatim, true) == plain);
        lemma_not_slashed(plain);
        assert(slashed(rest, true) == plain);
    }
    let server = seq!['\\', '\\'] + rest;
    let named = swapped(server, '\\', '/');
    assert(named[0] == '/' && named[1] == '/' && named[2] == plain[0]);
    assert(!text::starts_with(named, "//?/UNC/"@)) by {
        if text::starts_with(named, "//?/UNC/"@) {
            assert(named.subrange(0, 8)[2] == '?');
        }
    }
    assert(!text::starts_with(named, "//?/"@)) by {
        if text::starts_with(named, "//?/"@) {
            assert(named.subrange(0, 4)[2] == '?');
        }
    }
    assert(named.subrange(0, 2) =~= "//"@);
    assert(named.skip(2) =~= plain);
    let marked = seq!['\\', '\\', '?', '\\', 'U', 'N', 'C', '\\'] + rest;
    let whole = swapped(marked, '\\', '/');
    assert(whole[0] == '/' && whole[1] == '/' && whole[2] == '?' && whole[3] == '/' && whole[4]
        == 'U' && whole[5] == 'N' && whole[6] == 'C' && whole[7] == '/');
    assert(whole.subrange(0, 8) =~= "//?/UNC/"@);
    assert(whole.skip(8) =~= plain);
    assert("//"@ + plain =~= named);
}

/// A text that does not begin with a slash has none of the prefixes that do.
proof fn lemma_not_slashed(s: Seq<char>)
    requires
        s.len() > 0,
        s[0] != '/',
    ensures
        !text::starts_with(s, "/"@),
        !text::starts_with(s, "//"@),
        !text::starts_with(s, "//?/"@),
        !text::starts_with(s, "//?/UNC/"@),
{
    reveal_strlit("/");
    reveal_strlit("//");
    reveal_strlit("//?/");
    reveal_strlit("//?/UNC/");
    if text::starts_with(s, "/"@) {
        assert(s.subrange(0, 1)[0] == '/');
    }
    if text::starts_with(s, "//"@) {
        assert(s.subrange(0, 2)[0] == '/');
    }
    if text::starts_with(s, "//?/"@) {
        assert(s.subrange(0, 4)[0] == '/');
    }
    if text::starts_with(s, "//?/UNC/"@) {
        assert(s.subrange(0, 8)[0] == '/');
    }
}

/// Only a URI that begins with `file://` stands for a path.
pub proof fn lemma_only_file_uris(uri: Seq<char>, windows: bool)
    ensures
        file_path(uri, windows) is Some ==> "file://"@.is_prefix_of(uri),
{
    let start = "file://"@;
    if start.len() <= uri.len() {
        assert(uri.subrange(0, start.len() as int) == uri.take(start.len() as int));
    }
}

/// A URI in which a percent sign is not followed by two hexadecimal digits stands for no path.
pub proof fn lemma_broken_escape(encoded: Seq<char>, i: int)
    requires
        0 <= i < encode_utf8(encoded).len(),
        encode_utf8(encoded)[i] == 37,
        i + 2 < encode_utf8(encoded).len() ==> !(is_hexadecimal(encode_utf8(encoded)[i + 1])
            && is_hexadecimal(encode_utf8(encoded)[i + 2])),
    ensures
        file_path("file://"@ + encoded, false) is None,
{
    reveal_strlit("file://");
    let uri = "file://"@ + encoded;
    assert(uri.skip(7) =~= encoded);
    assert(!escape_at(encode_utf8(encoded), i));
}

/// `byte` is one of `0` to `9`, `A` to `F` and `a` to `f`.
pub open spec fn is_hexadecimal(byte: u8) -> bool {
    48 <= byte <= 57 || 65 <= byte <= 70 || 97 <= byte <= 102
}

} // verus!
