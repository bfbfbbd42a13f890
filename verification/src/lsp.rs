//! Messages of the language-server protocol: a header that gives the length of the content, an
//! empty line, and the content.

use crate::json::Json;
use crate::json::JsonView;
use crate::json;
use crate::text;
use vstd::prelude::*;
use vstd::slice::*;
use vstd::string::*;

verus! {

/// `needle` stands in `bytes` at position `i`.
pub open spec fn bytes_at(bytes: Seq<u8>, needle: Seq<u8>, i: int) -> bool {
    0 <= i && i + needle.len() <= bytes.len() && bytes.subrange(i, i + needle.len()) == needle
}

/// `needle` stands somewhere in `bytes`.
pub open spec fn has_bytes(bytes: Seq<u8>, needle: Seq<u8>) -> bool {
    exists|i: int| #[trigger] bytes_at(bytes, needle, i)
}

/// The empty line that ends a header.
pub open spec fn header_end() -> Seq<u8> {
    seq![13u8, 10u8, 13u8, 10u8]
}

/// The content of the message `raw`: what follows the first empty line.
pub open spec fn content_of(raw: Seq<u8>) -> Option<Seq<u8>>
    decreases raw.len(),
{
    if raw.len() < 4 {
        None
    } else if raw.subrange(0, 4) == header_end() {
        Some(raw.skip(4))
    } else {
        content_of(raw.drop_first())
    }
}

/// What the message `raw` holds.
pub open spec fn message_of(raw: Seq<u8>) -> Option<JsonView> {
    match content_of(raw) {
        Some(content) => json::parsed_json(content),
        None => None,
    }
}

/// The message with the content `content`.
pub open spec fn framed(content: Seq<char>) -> Seq<char> {
    "Content-Length: "@ + text::decimal(vstd::utf8::encode_utf8(content).len()) + "\r\n\r\n"@
        + content
}

/// The bytes that a member called `id` cannot do without.
pub open spec fn id_key() -> Seq<u8> {
    seq![34u8, 105u8, 100u8, 34u8]
}

/// Whether `needle` stands in `bytes` at position `i`.
fn bytes_stand_at(bytes: &[u8], needle: &[u8], i: usize) -> (r: bool)
    ensures
        r == bytes_at(bytes@, needle@, i as int),
{
    if i > bytes.len() || needle.len() > bytes.len() - i {
        return false;
    }
    let mut j: usize = 0;
    while j < needle.len()
        invariant
            j <= needle@.len(),
            i + needle@.len() <= bytes.len(),
            forall|k: int| 0 <= k < j ==> bytes@[i + k] == needle@[k],
        decreases needle@.len() - j,
    {
        if bytes[i + j] != needle[j] {
            assert(bytes@.subrange(i as int, i + needle@.len())[j as int] != needle@[j as int]);
            return false;
        }
        j += 1;
    }
    assert(bytes@.subrange(i as int, i + needle@.len()) =~= needle@);
    true
}

/// Whether `needle` stands somewhere in `bytes`.
pub fn contains_subslice(bytes: &[u8], needle: &[u8]) -> (r: bool)
    ensures
        r == has_bytes(bytes@, needle@),
{
    let mut i: usize = 0;
    while i < bytes.len()
        invariant
            i <= bytes@.len(),
            forall|k: int| 0 <= k < i ==> !#[trigger] bytes_at(bytes@, needle@, k),
        decreases bytes@.len() - i,
    {
        if bytes_stand_at(bytes, needle, i) {
            return true;
        }
        i += 1;
    }
    bytes_stand_at(bytes, needle, i)
}

/// Whether the message `raw` can have a member called `id`.
pub fn raw_has_id(raw: &[u8]) -> (r: bool)
    ensures
        r == has_bytes(raw@, id_key()),
{
    let key: [u8; 4] = [34u8, 105u8, 100u8, 34u8];
    assert(key@ =~= id_key());
    contains_subslice(raw, &key)
}

/// What the message `raw` holds.
pub fn parse_lsp_content(raw: &[u8]) -> (r: Option<Json>)
    ensures
        (match r {
            Some(message) => message_of(raw@) == Some(message@) && message@.well_formed(),
            None => message_of(raw@) is None,
        }),
{
    let end: [u8; 4] = [13u8, 10u8, 13u8, 10u8];
    assert(end@ =~= header_end());
    let mut i: usize = 0;
    assert(raw@.skip(0) == raw@);
    while i < raw.len()
        invariant
            i <= raw@.len(),
            end@ == header_end(),
            content_of(raw@) == content_of(raw@.skip(i as int)),
        decreases raw@.len() - i,
    {
        let ghost rest = raw@.skip(i as int);
        let ends = bytes_stand_at(raw, &end, i);
        assert(ends == (rest.len() >= 4 && rest.subrange(0, 4) == header_end())) by {
            if rest.len() >= 4 {
                assert(rest.subrange(0, 4) == raw@.subrange(i as int, i + 4));
            }
        }
        if ends {
            let content = slice_subrange(raw, i + 4, raw.len());
            assert(content@ == rest.skip(4));
            return Json::parse(content);
        }
        assert(rest.drop_first() == raw@.skip(i + 1));
        assert(rest.len() < 4 ==> content_of(rest.drop_first()) is None);
        i += 1;
    }
    None
}

proof fn lemma_content_after_header(header: Seq<u8>, content: Seq<u8>)
    requires
        forall|i: int| 0 <= i < header.len() ==> #[trigger] header[i] != 13,
    ensures
        content_of(header + header_end() + content) == Some(content),
    decreases header.len(),
{
    let raw = header + header_end() + content;
    if header.len() == 0 {
        assert(raw.subrange(0, 4) =~= header_end());
        assert(raw.skip(4) =~= content);
    } else {
        assert(raw.subrange(0, 4)[0] == header[0]);
        assert(raw.drop_first() =~= header.drop_first() + header_end() + content);
        lemma_content_after_header(header.drop_first(), content);
    }
}

/// What a message carries is the content it was made with, whatever that is.
pub proof fn lemma_content_of_frame(content: Seq<char>)
    ensures
        content_of(vstd::utf8::encode_utf8(framed(content))) == Some(
            vstd::utf8::encode_utf8(content),
        ),
{
    let length = text::decimal(vstd::utf8::encode_utf8(content).len());
    let header = "Content-Length: "@ + length;
    reveal_strlit("Content-Length: ");
    reveal_strlit("\r\n\r\n");
    text::lemma_decimal_digits(vstd::utf8::encode_utf8(content).len());
    assert(vstd::utf8::is_ascii_chars(header)) by {
        assert forall|i: int| 0 <= i < header.len() implies '\0' <= #[trigger] header[i]
            <= '\u{7f}' by {
            if i >= 16 {
                assert(header[i] == length[i - 16]);
            }
        }
    }
    vstd::utf8::is_ascii_chars_encode_utf8(header);
    vstd::utf8::is_ascii_chars_encode_utf8("\r\n\r\n"@);
    let header_bytes = vstd::utf8::encode_utf8(header);
    assert(vstd::utf8::encode_utf8("\r\n\r\n"@) =~= header_end());
    text::lemma_encode_concat(header + "\r\n\r\n"@, content);
    text::lemma_encode_concat(header, "\r\n\r\n"@);
    assert forall|i: int| 0 <= i < header_bytes.len() implies #[trigger] header_bytes[i] != 13 by {
        assert(header[i] as u8 == header_bytes[i]);
        if i >= 16 {
            assert(header[i] == length[i - 16]);
        }
    }
    lemma_content_after_header(header_bytes, vstd::utf8::encode_utf8(content));
}

/// The message with the content `message`. Read back, it gives the value it was made from, where
/// that is in order, nests at most 127 deep and holds no number but 64-bit integers.
pub fn encode_lsp(message: &Json) -> (r: String)
    ensures
        r@ == framed(json::json_text(message@)),
        message@.well_formed() && message@.plain(127) ==> message_of(
            vstd::utf8::encode_utf8(r@),
        ) == Some(message@),
{
    let content = message.to_text();
    let length = content.as_str().as_bytes().len();
    let digits = text::decimal_chars(length as u64);
    let mut r = String::new();
    r.append("Content-Length: ");
    r.append(text::string_of(&digits).as_str());
    r.append("\r\n\r\n");
    r.append(content.as_str());
    proof {
        lemma_content_of_frame(content@);
    }
    r
}

/// The length that the first of the first lines of a header gives that gives one.
pub open spec fn length_in(lines: Seq<Seq<char>>) -> Option<nat>
    decreases lines.len(),
{
    if lines.len() == 0 {
        None
    } else if text::starts_with(lines[0], "Content-Length:"@) {
        text::number_value(text::trim(lines[0].skip(15)))
    } else {
        length_in(lines.drop_first())
    }
}

/// The length of the content that the header `header` gives.
pub open spec fn declared_length(header: Seq<char>) -> Option<nat> {
    length_in(text::split(header, '\n'))
}

/// The length of the content that the header `header` gives, where it gives one that fits.
pub fn content_length(header: &str) -> (r: Option<u64>)
    ensures
        r == match declared_length(header@) {
            Some(n) => if n <= u64::MAX {
                Some(n as u64)
            } else {
                None
            },
            None => None,
        },
{
    let chars = text::chars_of(header);
    let lines = text::split_text(&chars, '\n');
    let name = text::chars_of("Content-Length:");
    proof {
        reveal_strlit("Content-Length:");
    }
    let ghost all = text::char_texts(lines@);
    let mut i: usize = 0;
    assert(all.skip(0) =~= all);
    while i < lines.len()
        invariant
            i <= lines@.len(),
            all == text::char_texts(lines@),
            name@ == "Content-Length:"@,
            name@.len() == 15,
            length_in(all) == length_in(all.skip(i as int)),
            declared_length(header@) == length_in(all),
        decreases lines@.len() - i,
    {
        let ghost rest = all.skip(i as int);
        assert(rest[0] == lines@[i as int]@);
        assert(rest.drop_first() =~= all.skip(i + 1));
        if text::has_prefix(&lines[i], &name) {
            let value = slice_subrange(&lines[i], 15, lines[i].len());
            assert(value@ =~= rest[0].skip(15));
            return text::parse_u64(text::trimmed(value));
        }
        i += 1;
    }
    None
}

/// The header of a message gives the length of its content in bytes.
pub proof fn lemma_header_gives_length(content: Seq<char>)
    ensures
        ({
            let length = vstd::utf8::encode_utf8(content).len();
            let header = "Content-Length: "@ + text::decimal(length);
            &&& framed(content) == header + "\r\n\r\n"@ + content
            &&& declared_length(header) == Some(length)
        }),
{
    let length = vstd::utf8::encode_utf8(content).len();
    let digits = text::decimal(length);
    let header = "Content-Length: "@ + digits;
    reveal_strlit("Content-Length: ");
    reveal_strlit("Content-Length:");
    text::lemma_decimal_digits(length);
    text::lemma_decimal_value(length);
    assert(!header.contains('\n')) by {
        if header.contains('\n') {
            let k = choose|k: int| 0 <= k < header.len() && header[k] == '\n';
            if k >= 16 {
                assert(header[k] == digits[k - 16]);
            }
        }
    }
    text::lemma_split_whole(header, '\n');
    assert(header.subrange(0, 15) =~= "Content-Length:"@);
    let rest = header.skip(15);
    assert(rest[0] == ' ');
    assert(rest.drop_first() =~= digits);
    assert('0' <= digits[0] <= '9');
    assert(text::trim_start(digits) == digits);
    assert(text::trim_start(rest) == digits);
    assert('0' <= digits[digits.len() - 1] <= '9');
    assert(text::trim_end(digits) == digits);
    assert(seq![header][0] == header);
}

/// The content of a message is what follows the first empty line, and there is none without one.
pub proof fn lemma_content_after_empty_line(start: Seq<u8>, line: Seq<u8>, content: Seq<u8>)
    requires
        line == seq![13u8, 10u8, 13u8, 10u8],
    ensures
        (forall|i: int|
            0 <= i < start.len() ==> !#[trigger] bytes_at(start + line + content, line, i))
            ==> content_of(start + line + content) == Some(content),
        !has_bytes(start, line) ==> content_of(start) is None,
    decreases start.len(),
{
    assert(header_end() =~= line);
    let whole = start + line + content;
    if !has_bytes(start, line) {
        lemma_no_empty_line(start);
    }
    if forall|i: int| 0 <= i < start.len() ==> !#[trigger] bytes_at(whole, line, i) {
        if start.len() == 0 {
            assert(whole.subrange(0, 4) =~= line);
            assert(whole.skip(4) =~= content);
        } else {
            assert(!bytes_at(whole, line, 0));
            assert(whole.subrange(0, 4) != line);
            let rest = start.drop_first() + line + content;
            assert(whole.drop_first() =~= rest);
            assert forall|i: int| 0 <= i < start.drop_first().len() implies !#[trigger] bytes_at(
                rest,
                line,
                i,
            ) by {
                assert(!bytes_at(whole, line, i + 1));
                assert(whole.subrange(i + 1, i + 5) =~= rest.subrange(i, i + 4));
            }
            lemma_content_after_empty_line(start.drop_first(), line, content);
        }
    }
}

proof fn lemma_no_empty_line(raw: Seq<u8>)
    requires
        !has_bytes(raw, header_end()),
    ensures
        content_of(raw) is None,
    decreases raw.len(),
{
    if raw.len() >= 4 {
        assert(!bytes_at(raw, header_end(), 0));
        let rest = raw.drop_first();
        assert(!has_bytes(rest, header_end())) by {
            if has_bytes(rest, header_end()) {
                let i = choose|i: int| #[trigger] bytes_at(rest, header_end(), i);
                assert(raw.subrange(i + 1, i + 5) =~= rest.subrange(i, i + 4));
                assert(bytes_at(raw, header_end(), i + 1));
            }
        }
        lemma_no_empty_line(rest);
    }
}

/// The length of the content is the number on the first line of the header that begins with its name,
/// whatever other lines there are.
pub proof fn lemma_length_line(lines: Seq<Seq<char>>, n: nat)
    requires
        forall|i: int|
            0 <= i < lines.len() ==> !("Content-Length:"@.is_prefix_of(#[trigger] lines[i])),
    ensures
        length_in(lines) is None,
        length_in(lines.push("Content-Length:"@ + seq![' '] + text::decimal(n) + seq!['\r'])) == Some(
            n,
        ),
    decreases lines.len(),
{
    reveal_strlit("Content-Length:");
    let name = "Content-Length:"@;
    let line = name + seq![' '] + text::decimal(n) + seq!['\r'];
    let all = lines.push(line);
    if lines.len() == 0 {
        assert(line.subrange(0, 15) =~= name);
        let digits = text::decimal(n);
        text::lemma_decimal_digits(n);
        text::lemma_decimal_value(n);
        assert('0' <= digits[0] <= '9');
        assert('0' <= digits[digits.len() - 1] <= '9');
        text::lemma_trim_inner(seq![' '], digits, seq!['\r']);
        assert(line.skip(15) =~= seq![' '] + digits + seq!['\r']);
        assert(all[0] == line);
    } else {
        assert(all[0] == lines[0]);
        assert(all.drop_first() =~= lines.drop_first().push(line));
        assert(!text::starts_with(lines[0], name)) by {
            if text::starts_with(lines[0], name) {
                assert(lines[0].take(15) =~= lines[0].subrange(0, 15));
                assert(name.is_prefix_of(lines[0]));
            }
        }
        assert forall|i: int| 0 <= i < lines.drop_first().len() implies !(name.is_prefix_of(
            #[trigger] lines.drop_first()[i],
        )) by {
            assert(!name.is_prefix_of(lines[i + 1]));
        }
        lemma_length_line(lines.drop_first(), n);
    }
}

} // verus!
