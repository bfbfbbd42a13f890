use zed_java::codec::hex_encode;
use zed_java::json::Json;
use zed_java::lsp::{content_length, contains_subslice, encode_lsp, parse_lsp_content, raw_has_id};
use zed_java::path::join_path;
use zed_java::table::Table;
use zed_java::text;
use zed_java::uri::{file_uri_from_path_string, file_uri_to_path, path_to_file_uri};

fn json(source: &str) -> Json {
    Json::parse(source.as_bytes()).unwrap()
}

#[test]
fn encodes_reserved_characters_in_unix_paths() {
    assert_eq!(
        file_uri_from_path_string("/tmp/Java Sources/#1%?.java", false),
        "file:///tmp/Java%20Sources/%231%25%3F.java"
    );
}

#[test]
fn normalizes_and_encodes_windows_paths() {
    assert_eq!(
        file_uri_from_path_string(r"C:\Users\Jane Doe\A#1.java", true),
        "file:///C:/Users/Jane%20Doe/A%231.java"
    );
}

#[test]
fn preserves_windows_unc_authority() {
    assert_eq!(
        file_uri_from_path_string(r"\\server\share\A File.java", true),
        "file://server/share/A%20File.java"
    );
}

#[test]
fn converts_unix_file_uri_back_to_path() {
    assert_eq!(
        file_uri_to_path("file:///tmp/Java%20Sources/String.java", false).as_deref(),
        Some("/tmp/Java Sources/String.java")
    );
}

#[test]
fn rejects_non_file_uris() {
    assert_eq!(file_uri_to_path("jdt://contents/java.base/String.class", false), None);
}

#[test]
fn normalizes_windows_verbatim_paths() {
    assert_eq!(
        file_uri_from_path_string(r"\\?\C:\Users\Jane Doe\A.java", true),
        "file:///C:/Users/Jane%20Doe/A.java"
    );
    assert_eq!(
        file_uri_from_path_string(r"\\?\UNC\server\share\A.java", true),
        "file://server/share/A.java"
    );
}

#[test]
fn relative_paths_get_a_root_in_their_uri() {
    assert_eq!(path_to_file_uri("a b", false), "file:///a%20b");
}

#[test]
fn paths_come_back_from_their_uris() {
    for path in ["/", "/tmp/ä ~@:%41/x", "/a\\b", "/\u{1f600}"] {
        let uri = path_to_file_uri(path, false);
        assert!(uri.is_ascii());
        assert_eq!(file_uri_to_path(&uri, false).as_deref(), Some(path));
    }
    for path in [r"C:\Users\Jane Doe\ü.java", r"\\server\share\A File.java"] {
        let uri = path_to_file_uri(path, true);
        assert_eq!(file_uri_to_path(&uri, true).as_deref(), Some(path));
    }
}

#[test]
fn uris_with_invalid_percent_encoding_are_rejected() {
    assert_eq!(file_uri_to_path("file:///tmp/%ZZ", false), None);
    assert_eq!(file_uri_to_path("file:///a%2gb", false), None);
    assert_eq!(file_uri_to_path("file:///a%", false), None);
    assert_eq!(file_uri_to_path("file:///a%4", false), None);
    assert_eq!(file_uri_to_path("file:///C:/%", true), None);
    assert_eq!(file_uri_to_path("file://server/%%41", true), None);
    assert_eq!(file_uri_to_path("file:///%2525", false).as_deref(), Some("/%25"));
    assert_eq!(file_uri_to_path("file:///%c3%A4", false).as_deref(), Some("/ä"));
}

#[test]
fn uris_that_encode_no_text_are_rejected() {
    assert_eq!(file_uri_to_path("file:///%ff", false), None);
    assert_eq!(file_uri_to_path("file://server/%c3", true), None);
}

#[test]
fn json_reads_what_it_writes() {
    let source = r#"{"a":[1,-2,18446744073709551615,null,true,"x\n\u00e4"],"b":{"c":{}}}"#;
    let value = json(source);
    let written = value.to_text();
    assert_eq!(json(&written), value);
    assert_eq!(
        value.get("a").map(|items| items.to_text()),
        Some("[1,-2,18446744073709551615,null,true,\"x\\nä\"]".to_string())
    );
}

#[test]
fn json_orders_its_members_and_keeps_floats() {
    assert_eq!(json(r#"{"b":1.50,"a":2}"#).to_text(), r#"{"a":2,"b":1.5}"#);
    assert_eq!(json("1e3").to_text(), "1000.0");
    assert_eq!(Json::Int(1i128 << 100).to_text(), "null");
}

#[test]
fn json_equality_ignores_the_sign_of_zero() {
    assert_eq!(json("-0.0"), json("0.0"));
    assert_ne!(json("0"), json("0.0"));
    assert_ne!(json(r#"{"a":1}"#), json(r#"{"a":2}"#));
}

#[test]
fn json_rejects_what_is_no_document() {
    assert!(Json::parse(b"{\"id\":").is_none());
    assert!(Json::parse(b"").is_none());
    let complaint = Json::parse_or_complain(b"[1,").unwrap_err();
    assert!(complaint.contains("EOF"));
}

#[test]
fn json_members_can_be_set() {
    let mut value = json(r#"{"b":1}"#);
    value.set("a", Json::string("x"));
    value.set("b", Json::Bool(false));
    assert_eq!(value, json(r#"{"a":"x","b":false}"#));
    if let Some(member) = value.get_mut("a") {
        *member = Json::Null;
    }
    assert_eq!(value.get("a"), Some(&Json::Null));
    assert_eq!(value.get("c"), None);
}

#[test]
fn json_numbers_have_ranges() {
    assert_eq!(json("18446744073709551615").as_u64(), Some(u64::MAX));
    assert_eq!(json("18446744073709551615").as_i64(), None);
    assert_eq!(json("-1").as_u64(), None);
    assert_eq!(json("-9223372036854775808").as_i64(), Some(i64::MIN));
    assert_eq!(json("1.0").as_u64(), None);
}

#[test]
fn messages_are_framed_by_their_length_in_bytes() {
    let message = json(r#"{"id":1,"text":"ä"}"#);
    let framed = encode_lsp(&message);
    assert_eq!(framed, "Content-Length: 20\r\n\r\n{\"id\":1,\"text\":\"ä\"}");
    assert_eq!(parse_lsp_content(framed.as_bytes()), Some(message));
    assert_eq!(content_length("Content-Length: 20"), Some(20));
}

#[test]
fn content_begins_after_the_first_empty_line() {
    let raw = b"Content-Length: 9\r\nX: y\r\n\r\n\"\\r\\n\\r\\n\"";
    assert_eq!(parse_lsp_content(raw), Some(Json::string("\r\n\r\n")));
    assert_eq!(parse_lsp_content(b"Content-Length: 2\r\n{}"), None);
    assert_eq!(content_length("X: y\r\nContent-Length:  12 \r"), Some(12));
    assert_eq!(content_length("X: y"), None);
    assert_eq!(content_length("Content-Length: ten"), None);
}

#[test]
fn subslices_are_found_anywhere() {
    assert!(contains_subslice(b"abc", b"bc"));
    assert!(contains_subslice(b"abc", b""));
    assert!(contains_subslice(b"", b""));
    assert!(!contains_subslice(b"abc", b"abcd"));
    assert!(raw_has_id(b"{\"id\":1}"));
    assert!(!raw_has_id(b"{\"ids\":1}"));
}

#[test]
fn bytes_are_shown_in_hexadecimal() {
    assert_eq!(hex_encode("/ä~"), "2fc3a47e");
    assert_eq!(hex_encode(""), "");
}

#[test]
fn hexadecimal_of_joined_texts_is_joined() {
    let whole = hex_encode("/ä~Z");
    assert_eq!(whole, hex_encode("/ä") + &hex_encode("~Z"));
    assert!(whole.chars().all(|c| matches!(c, '0'..='9' | 'a'..='f')));
}

#[test]
fn replaced_members_hold_what_was_put_there() {
    let before = json(r#"{"a": 1, "b": [2]}"#);
    let mut object = before.clone();
    let kept = object.get("b").cloned().unwrap();
    *object.get_mut("b").unwrap() = kept;
    assert_eq!(object, before);
    *object.get_mut("b").unwrap() = json("true");
    assert_eq!(object.get("b"), Some(&json("true")));
    assert_eq!(object.get("a"), Some(&json("1")));
    assert!(object.get_mut("c").is_none());
}

#[test]
fn tables_keep_one_entry_for_each_key() {
    let mut table: Table<Json, u64> = Table::new();
    assert_eq!(table.insert(json("0.0"), 1), None);
    assert_eq!(table.insert(json("-0.0"), 2), Some(1));
    assert_eq!(table.insert(json("0"), 3), None);
    assert_eq!(table.get(&json("0.0")), Some(&2));
    assert!(table.has(&json("0")));
    assert_eq!(table.remove(&json("0.0")), Some(2));
    assert_eq!(table.remove(&json("0.0")), None);
    assert_eq!(table.entries.len(), 1);
}

#[test]
fn paths_are_joined_with_one_separator() {
    assert_eq!(join_path("a", "b"), "a/b");
    assert_eq!(join_path("a/", "b"), "a/b");
    assert_eq!(join_path("", "b"), "b");
    assert_eq!(join_path("a", "/b"), "/b");
}

#[test]
fn texts_are_searched_and_replaced() {
    let chars = text::chars_of("aXbXXc");
    assert_eq!(
        text::string_of(&text::replace_text(&chars, &text::chars_of("X"), &text::chars_of("--"))),
        "a--b----c"
    );
    assert_eq!(
        text::string_of(&text::replace_text(
            &text::chars_of("ab"),
            &text::chars_of(""),
            &text::chars_of("-")
        )),
        "-a-b-"
    );
    assert_eq!(text::find_text(&chars, &text::chars_of("X"), 2), Some(3));
    assert_eq!(text::find_last_text(&chars, &text::chars_of("X")), Some(4));
    assert_eq!(text::find_last_text(&chars, &text::chars_of("Y")), None);
    assert_eq!(
        text::string_of(text::trimmed(&text::chars_of("\u{a0} \u{3000}a\u{85}b\t\u{2028}"))),
        "a\u{85}b"
    );
}

#[test]
fn white_space_is_that_of_unicode() {
    let white: Vec<u32> = (0..=0x10ffff)
        .filter_map(char::from_u32)
        .filter(|c| c.is_whitespace())
        .map(|c| c as u32)
        .collect();
    let mut expected: Vec<u32> = (0x9..=0xd).collect();
    expected.extend([0x20, 0x85, 0xa0, 0x1680]);
    expected.extend(0x2000..=0x200a);
    expected.extend([0x2028, 0x2029, 0x202f, 0x205f, 0x3000]);
    assert_eq!(white, expected);
}

#[test]
fn texts_are_split_and_joined() {
    let parts = text::split_text(&text::chars_of("/a//b"), '/');
    let texts: Vec<String> = parts.iter().map(|part| text::string_of(part)).collect();
    assert_eq!(texts, vec!["", "a", "", "b"]);
    assert_eq!(text::string_of(&text::join_text(&parts, '/')), "/a//b");
}

#[test]
fn numerals_are_read_as_unsigned_numbers() {
    let number = |source: &str| text::parse_u64(&text::chars_of(source));
    assert_eq!(number("18446744073709551615"), Some(u64::MAX));
    assert_eq!(number("18446744073709551616"), None);
    assert_eq!(number("+007"), Some(7));
    assert_eq!(number("+"), None);
    assert_eq!(number(""), None);
    assert_eq!(number("1a"), None);
    assert_eq!(number("-1"), None);
    assert_eq!(text::string_of(&text::decimal_chars(1024)), "1024");
}
