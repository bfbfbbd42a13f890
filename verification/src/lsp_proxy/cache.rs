//! The files in which fetched class sources are kept.

use crate::codec;
use crate::path;
use crate::table::Table;
use crate::text;
use crate::uri;
use crate::windows_path;
use vstd::prelude::*;
use vstd::slice::*;
use vstd::string::*;
use vstd::utf8::*;

verus! {

broadcast use text::lemma_texts_push;

/// The part of `s` before its first `c`.
pub open spec fn before_char(s: Seq<char>, c: char) -> Seq<char>
    decreases s.len(),
{
    if s.len() == 0 || s[0] == c {
        Seq::empty()
    } else {
        seq![s[0]] + before_char(s.drop_first(), c)
    }
}

/// The part of `s` after its last `c`.
pub open spec fn after_last_char(s: Seq<char>, c: char) -> Seq<char>
    decreases s.len(),
{
    if s.len() == 0 || s.last() == c {
        Seq::empty()
    } else {
        after_last_char(s.drop_last(), c).push(s.last())
    }
}

/// `s` without the ending `suffix`.
pub open spec fn without_suffix(s: Seq<char>, suffix: Seq<char>) -> Option<Seq<char>> {
    if text::ends_with(s, suffix) {
        Some(s.take(s.len() - suffix.len()))
    } else {
        None
    }
}

/// The last part of the path of `uri`.
pub open spec fn last_segment(uri: Seq<char>) -> Seq<char> {
    after_last_char(before_char(uri, '?'), '/')
}

/// The name of the class that `uri` stands for: what follows its last encoded parenthesis, where
/// that ends as a class file does, or else the last part of its path, where that ends as a source
/// or class file does.
pub open spec fn class_name(uri: Seq<char>) -> Seq<char> {
    let inner = match text::find_last(uri, "%28"@) {
        Some(at) => without_suffix(uri.skip(at + 3), ".class"@),
        None => None,
    };
    match inner {
        Some(name) => name,
        None => match without_suffix(last_segment(uri), ".java"@) {
            Some(name) => name,
            None => match without_suffix(last_segment(uri), ".class"@) {
                Some(name) => name,
                None => "Decompiled"@,
            },
        },
    }
}

/// `c` can stand in the name of a file.
pub open spec fn plain_char(c: char) -> bool {
    ||| '0' <= c <= '9'
    ||| 'A' <= c <= 'Z'
    ||| 'a' <= c <= 'z'
    ||| c == '-'
    ||| c == '_'
    ||| c == '.'
}

/// `name` with an underscore in place of each character that cannot stand in the name of a file.
pub open spec fn plain_name(name: Seq<char>) -> Seq<char> {
    name.map_values(
        |c: char|
            if plain_char(c) {
                c
            } else {
                '_'
            },
    )
}

/// The name of the file for `uri`, without its extension.
pub open spec fn file_stem(uri: Seq<char>) -> Seq<char> {
    plain_name(class_name(uri)) + "-"@ + codec::lower_hex(codec::sha1_digest(encode_utf8(uri)))
}

/// The path of the file `name` in `directory`, which is a Windows path or not.
pub open spec fn placed(directory: Seq<char>, name: Seq<char>, windows: bool) -> Seq<char> {
    if windows {
        windows_path::opened(directory) + name
    } else {
        path::joined(directory, name)
    }
}

/// The file in `directory` for `uri`, which is a Windows path or not.
pub open spec fn cache_file(directory: Seq<char>, uri: Seq<char>, windows: bool) -> Seq<char> {
    placed(directory, file_stem(uri) + ".java"@, windows)
}

/// The URI of the file in `directory` for `uri`, which is a Windows path or not.
pub open spec fn kept_uri(directory: Seq<char>, uri: Seq<char>, windows: bool) -> Seq<char> {
    uri::file_uri(cache_file(directory, uri, windows), windows)
}

fn chars_before(s: &[char], c: char) -> (r: Vec<char>)
    ensures
        r@ == before_char(s@, c),
{
    let mut r: Vec<char> = Vec::new();
    let mut i: usize = 0;
    assert(s@.skip(0) =~= s@);
    while i < s.len()
        invariant
            i <= s@.len(),
            r@ + before_char(s@.skip(i as int), c) == before_char(s@, c),
        decreases s@.len() - i,
    {
        let ghost rest = s@.skip(i as int);
        if s[i] == c {
            assert(r@ =~= r@ + before_char(rest, c));
            return r;
        }
        let ghost before = r@;
        r.push(s[i]);
        i += 1;
        assert(rest.drop_first() =~= s@.skip(i as int));
        assert(r@ + before_char(s@.skip(i as int), c) =~= before + before_char(rest, c));
    }
    assert(r@ =~= r@ + before_char(s@.skip(i as int), c));
    r
}

fn chars_after_last(s: &[char], c: char) -> (r: Vec<char>)
    ensures
        r@ == after_last_char(s@, c),
{
    let mut r: Vec<char> = Vec::new();
    let mut i: usize = 0;
    assert(s@.take(0) =~= Seq::empty());
    while i < s.len()
        invariant
            i <= s@.len(),
            r@ == after_last_char(s@.take(i as int), c),
        decreases s@.len() - i,
    {
        assert(s@.take(i + 1).drop_last() =~= s@.take(i as int));
        if s[i] == c {
            r.clear();
        } else {
            r.push(s[i]);
        }
        i += 1;
        assert(r@ =~= after_last_char(s@.take(i as int), c));
    }
    assert(s@.take(i as int) =~= s@);
    r
}

fn strip_suffix<'a>(s: &'a [char], suffix: &str) -> (r: Option<&'a [char]>)
    ensures
        (match r {
            Some(rest) => without_suffix(s@, suffix@) == Some(rest@),
            None => without_suffix(s@, suffix@) is None,
        }),
{
    let ending = text::chars_of(suffix);
    if text::has_suffix(s, &ending) {
        Some(slice_subrange(s, 0, s.len() - ending.len()))
    } else {
        None
    }
}

fn plain_chars(name: &[char]) -> (r: Vec<char>)
    ensures
        r@ == plain_name(name@),
{
    let mut r: Vec<char> = Vec::new();
    let mut i: usize = 0;
    while i < name.len()
        invariant
            i <= name@.len(),
            r@.len() == i,
            forall|j: int| 0 <= j < i ==> r@[j] == plain_name(name@)[j],
        decreases name@.len() - i,
    {
        let c = name[i];
        let plain = ('0' <= c && c <= '9') || ('A' <= c && c <= 'Z') || ('a' <= c && c <= 'z') || c
            == '-' || c == '_' || c == '.';
        r.push(
            if plain {
                c
            } else {
                '_'
            },
        );
        i += 1;
    }
    assert(r@ =~= plain_name(name@));
    r
}

fn stem_of(uri: &str) -> (r: String)
    ensures
        r@ == file_stem(uri@),
{
    let chars = text::chars_of(uri);
    let parenthesis = text::chars_of("%28");
    let path = chars_before(&chars, '?');
    let segment = chars_after_last(&path, '/');
    proof {
        reveal_strlit("%28");
    }
    let length: usize = chars.len();
    let inner = match text::find_last_text(&chars, &parenthesis) {
        Some(at) => {
            let rest = slice_subrange(&chars, at + 3, length);
            assert(rest@ =~= uri@.skip(at + 3));
            strip_suffix(rest, ".class")
        },
        None => None,
    };
    let default = text::chars_of("Decompiled");
    let name = match inner {
        Some(name) => plain_chars(name),
        None => match strip_suffix(&segment, ".java") {
            Some(name) => plain_chars(name),
            None => match strip_suffix(&segment, ".class") {
                Some(name) => plain_chars(name),
                None => plain_chars(&default),
            },
        },
    };
    let digest = codec::sha1_of(uri.as_bytes());
    let mut r = text::string_of(&name);
    r.append("-");
    r.append(codec::hex_of(&digest).as_str());
    r
}

fn place(directory: &str, name: &str, windows: bool) -> (r: String)
    ensures
        r@ == placed(directory@, name@, windows),
{
    if windows {
        windows_path::join_name(directory, name)
    } else {
        path::join_path(directory, name)
    }
}

/// The file in `directory` that keeps the class source `uri`. It is a Windows path or not.
pub fn cache_path_in(directory: &str, uri: &str, windows: bool) -> (r: String)
    ensures
        r@ == cache_file(directory@, uri@, windows),
{
    let mut name = stem_of(uri);
    name.append(".java");
    place(directory, name.as_str(), windows)
}

/// `directory` with what stands between it and the name of a file in it.
pub open spec fn base_of(directory: Seq<char>, windows: bool) -> Seq<char> {
    if windows {
        windows_path::opened(directory)
    } else if directory.len() == 0 || directory.last() == '/' {
        directory
    } else {
        directory + "/"@
    }
}

/// The name of a kept file holds no separator, so that the file stands in the directory itself.
pub proof fn lemma_cache_file_in_directory(directory: Seq<char>, uri: Seq<char>, windows: bool)
    ensures
        forall|i: int| 0 <= i < file_stem(uri).len() ==> plain_char(#[trigger] file_stem(uri)[i]),
        cache_file(directory, uri, windows) == base_of(directory, windows) + (file_stem(uri)
            + ".java"@),
{
    lemma_stem_plain(uri);
    lemma_placed(directory, uri, ".java"@, windows);
}

proof fn lemma_stem_plain(uri: Seq<char>)
    ensures
        file_stem(uri).len() > 0,
        forall|i: int| 0 <= i < file_stem(uri).len() ==> plain_char(#[trigger] file_stem(uri)[i]),
{
    let name = plain_name(class_name(uri));
    let digest = codec::lower_hex(codec::sha1_digest(encode_utf8(uri)));
    let stem = file_stem(uri);
    reveal_strlit("-");
    lemma_hex_plain(codec::sha1_digest(encode_utf8(uri)));
    assert forall|i: int| 0 <= i < stem.len() implies plain_char(#[trigger] stem[i]) by {
        if i < name.len() {
            assert(stem[i] == name[i]);
        } else if i > name.len() {
            assert(stem[i] == digest[i - name.len() - 1]);
        }
    }
}

proof fn lemma_placed(directory: Seq<char>, uri: Seq<char>, rest: Seq<char>, windows: bool)
    ensures
        placed(directory, file_stem(uri) + rest, windows) == base_of(directory, windows) + (
        file_stem(uri) + rest),
{
    reveal_strlit("/");
    lemma_stem_plain(uri);
    let name = file_stem(uri) + rest;
    assert(plain_char(file_stem(uri)[0]));
    if text::starts_with(name, "/"@) {
        assert(name.subrange(0, 1)[0] == '/');
    }
}

proof fn lemma_hex_plain(bytes: Seq<u8>)
    ensures
        forall|i: int|
            0 <= i < codec::lower_hex(bytes).len() ==> plain_char(
                #[trigger] codec::lower_hex(bytes)[i],
            ),
    decreases bytes.len(),
{
    if bytes.len() > 0 {
        lemma_hex_plain(bytes.drop_last());
        let earlier = codec::lower_hex(bytes.drop_last());
        assert forall|i: int| 0 <= i < codec::lower_hex(bytes).len() implies plain_char(
            #[trigger] codec::lower_hex(bytes)[i],
        ) by {
            if i < earlier.len() {
                assert(codec::lower_hex(bytes)[i] == earlier[i]);
            }
        }
    }
}

/// The file through which the file for `uri` is written, so that it never stands there in part.
pub open spec fn temporary_file(
    directory: Seq<char>,
    uri: Seq<char>,
    process: u32,
    sequence: u64,
    windows: bool,
) -> Seq<char> {
    placed(
        directory,
        file_stem(uri) + ".tmp-"@ + text::decimal(process as nat) + "-"@ + text::decimal(
            sequence as nat,
        ),
        windows,
    )
}

/// What to do with a class source that was fetched.
pub enum CacheStep {
    /// It cannot be kept.
    Skip,
    /// It is there already, under this file URI.
    Keep(String),
    /// Write it to `temporary`, then give that the name `target`.
    Write { temporary: String, target: String },
}

/// What to do with the class source `uri`, which holds `content`, given whether `directory` is
/// there and whether the file for `uri` is there already.
pub fn cache_step(
    directory: &str,
    uri: &str,
    content: &[u8],
    directory_ready: bool,
    target_exists: bool,
    process: u32,
    sequence: u64,
    windows: bool,
) -> (r: CacheStep)
    ensures
        (match r {
            CacheStep::Skip => content@.len() == 0 || !directory_ready,
            CacheStep::Keep(file_uri) => content@.len() > 0 && directory_ready && target_exists
                && file_uri@ == kept_uri(directory@, uri@, windows),
            CacheStep::Write { temporary, target } => content@.len() > 0 && directory_ready
                && !target_exists && temporary@ == temporary_file(
                directory@,
                uri@,
                process,
                sequence,
                windows,
            ) && target@ == cache_file(directory@, uri@, windows),
        }),
{
    if content.len() == 0 || !directory_ready {
        return CacheStep::Skip;
    }
    let target = cache_path_in(directory, uri, windows);
    if target_exists {
        return CacheStep::Keep(uri::path_to_file_uri(target.as_str(), windows));
    }
    let mut name = stem_of(uri);
    name.append(".tmp-");
    name.append(text::string_of(&text::decimal_chars(process as u64)).as_str());
    name.append("-");
    name.append(text::string_of(&text::decimal_chars(sequence)).as_str());
    CacheStep::Write { temporary: place(directory, name.as_str(), windows), target }
}

/// The file URI of the source that was to be written to `target`, given whether that succeeded
/// and whether `target` is there, and whether the temporary file is to be removed.
pub fn cache_outcome(target: &str, written: bool, target_exists: bool, windows: bool) -> (r: (
    Option<String>,
    bool,
))
    ensures
        text::optional(r.0) == if written || target_exists {
            Some(uri::file_uri(target@, windows))
        } else {
            None
        },
        r.1 == !written,
{
    if written || target_exists {
        (Some(uri::path_to_file_uri(target, windows)), !written)
    } else {
        (None, true)
    }
}

/// Those of the first `n` of `uris` that are not kept.
pub open spec fn missing(uris: Seq<Seq<char>>, kept: Seq<bool>, n: int) -> Seq<Seq<char>>
    decreases n,
{
    if n <= 0 || n > uris.len() {
        Seq::empty()
    } else if kept[n - 1] {
        missing(uris, kept, n - 1)
    } else {
        missing(uris, kept, n - 1).push(uris[n - 1])
    }
}

/// The file URIs of those of the first `n` of `uris` that are kept.
pub open spec fn present(
    directory: Seq<char>,
    uris: Seq<Seq<char>>,
    kept: Seq<bool>,
    n: int,
    windows: bool,
) -> Map<Seq<char>, Seq<char>>
    decreases n,
{
    if n <= 0 || n > uris.len() {
        Map::empty()
    } else if kept[n - 1] {
        present(directory, uris, kept, n - 1, windows).insert(
            uris[n - 1],
            kept_uri(directory, uris[n - 1], windows),
        )
    } else {
        present(directory, uris, kept, n - 1, windows)
    }
}

/// The file URIs of those of `uris` whose files in `directory` are there, which `kept` says, and
/// the others.
pub fn partition_cached(
    directory: &str,
    uris: &Vec<String>,
    kept: &Vec<bool>,
    windows: bool,
) -> (r: (Table<String, String>, Vec<String>))
    requires
        kept@.len() == uris@.len(),
    ensures
        r.0.well_formed(),
        r.0@ == present(directory@, text::texts(uris@), kept@, uris@.len() as int, windows),
        text::texts(r.1@) == missing(text::texts(uris@), kept@, uris@.len() as int),
{
    let mut replacements: Table<String, String> = Table::new();
    let mut unresolved: Vec<String> = Vec::new();
    let mut i: usize = 0;
    assert(text::texts(unresolved@) =~= Seq::empty());
    while i < uris.len()
        invariant
            i <= uris@.len() == kept@.len(),
            replacements.well_formed(),
            replacements@ == present(directory@, text::texts(uris@), kept@, i as int, windows),
            text::texts(unresolved@) == missing(text::texts(uris@), kept@, i as int),
        decreases uris@.len() - i,
    {
        assert(text::texts(uris@)[i as int] == uris@[i as int]@);
        if kept[i] {
            let path = cache_path_in(directory, uris[i].as_str(), windows);
            replacements.insert(uris[i].clone(), uri::path_to_file_uri(path.as_str(), windows));
        } else {
            unresolved.push(uris[i].clone());
        }
        i += 1;
    }
    (replacements, unresolved)
}

/// Two writers never write to the same temporary file, be they in one process or in two, and none
/// writes to the file that is read: a kept file only ever appears whole, by being given its name.
pub proof fn lemma_temporary_files_differ(
    directory: Seq<char>,
    uri: Seq<char>,
    process: u32,
    sequence: u64,
    other_process: u32,
    other_sequence: u64,
    windows: bool,
)
    ensures
        process != other_process || sequence != other_sequence ==> temporary_file(
            directory,
            uri,
            process,
            sequence,
            windows,
        ) != temporary_file(directory, uri, other_process, other_sequence, windows),
        temporary_file(directory, uri, process, sequence, windows) != cache_file(
            directory,
            uri,
            windows,
        ),
{
    let a = text::decimal(process as nat);
    let b = text::decimal(other_process as nat);
    let c = text::decimal(sequence as nat);
    let d = text::decimal(other_sequence as nat);
    let start = base_of(directory, windows) + (file_stem(uri) + ".tmp-"@);
    lemma_temporary_name(directory, uri, a, c, windows);
    lemma_temporary_name(directory, uri, b, d, windows);
    if start + a + "-"@ + c == start + b + "-"@ + d {
        lemma_numbers_same(
            start,
            process as nat,
            other_process as nat,
            sequence as nat,
            other_sequence as nat,
        );
    }
    lemma_placed(directory, uri, ".java"@, windows);
    text::lemma_decimal_digits(sequence as nat);
    assert((start + a + "-"@ + c).last() == c.last());
    assert(cache_file(directory, uri, windows).last() == 'a') by {
        reveal_strlit(".java");
    }
}

proof fn lemma_temporary_name(
    directory: Seq<char>,
    uri: Seq<char>,
    number: Seq<char>,
    other: Seq<char>,
    windows: bool,
)
    ensures
        placed(directory, file_stem(uri) + ".tmp-"@ + number + "-"@ + other, windows) == base_of(
            directory,
            windows,
        ) + (file_stem(uri) + ".tmp-"@) + number + "-"@ + other,
{
    let rest = ".tmp-"@ + number + "-"@ + other;
    lemma_placed(directory, uri, rest, windows);
    assert(file_stem(uri) + ".tmp-"@ + number + "-"@ + other =~= file_stem(uri) + rest);
    let base = base_of(directory, windows);
    assert(base + (file_stem(uri) + rest) =~= base + (file_stem(uri) + ".tmp-"@) + number + "-"@
        + other);
}

/// Two numbers with a hyphen between them come back from the text.
proof fn lemma_numbers_same(start: Seq<char>, p: nat, q: nat, s: nat, t: nat)
    requires
        start + text::decimal(p) + "-"@ + text::decimal(s) == start + text::decimal(q) + "-"@
            + text::decimal(t),
    ensures
        p == q,
        s == t,
{
    let a = text::decimal(p);
    let b = text::decimal(q);
    let c = text::decimal(s);
    let d = text::decimal(t);
    let left = start + a + "-"@ + c;
    let right = start + b + "-"@ + d;
    let n = start.len() as int;
    text::lemma_decimal_digits(p);
    text::lemma_decimal_digits(q);
    reveal_strlit("-");
    assert(left[n + a.len()] == '-' && right[n + b.len()] == '-');
    if a.len() < b.len() {
        assert(right[n + a.len()] == b[a.len() as int]);
    }
    if b.len() < a.len() {
        assert(left[n + b.len()] == a[b.len() as int]);
    }
    assert(left.subrange(n, n + a.len()) =~= a);
    assert(right.subrange(n, n + b.len()) =~= b);
    text::lemma_decimal_injective(p, q);
    assert(left.skip(n + a.len() + 1) =~= c);
    assert(right.skip(n + b.len() + 1) =~= d);
    text::lemma_decimal_injective(s, t);
}

proof fn lemma_before_char(s: Seq<char>, c: char, end: Seq<char>)
    requires
        !s.contains(c),
        end.len() > 0 ==> end[0] == c,
    ensures
        before_char(s + end, c) == s,
    decreases s.len(),
{
    if s.len() > 0 {
        assert((s + end).drop_first() =~= s.drop_first() + end);
        assert(s[0] != c);
        assert(!s.drop_first().contains(c)) by {
            if s.drop_first().contains(c) {
                let i = choose|i: int| 0 <= i < s.drop_first().len() && s.drop_first()[i] == c;
                assert(s[i + 1] == c);
            }
        }
        lemma_before_char(s.drop_first(), c, end);
        assert(seq![s[0]] + s.drop_first() =~= s);
    } else {
        assert(s + end =~= end);
    }
}

proof fn lemma_after_last_char(start: Seq<char>, c: char, s: Seq<char>)
    requires
        !s.contains(c),
        start.len() > 0 ==> start.last() == c,
    ensures
        after_last_char(start + s, c) == s,
    decreases s.len(),
{
    if s.len() > 0 {
        assert((start + s).drop_last() =~= start + s.drop_last());
        assert(s[s.len() - 1] != c);
        assert(!s.drop_last().contains(c)) by {
            if s.drop_last().contains(c) {
                let i = choose|i: int| 0 <= i < s.drop_last().len() && s.drop_last()[i] == c;
                assert(s[i] == c);
            }
        }
        lemma_after_last_char(start, c, s.drop_last());
        assert(s.drop_last().push(s.last()) =~= s);
    } else {
        assert(start + s =~= start);
    }
}

proof fn lemma_without_suffix(s: Seq<char>, suffix: Seq<char>)
    ensures
        without_suffix(s + suffix, suffix) == Some(s),
{
    let whole = s + suffix;
    assert(whole.subrange(whole.len() - suffix.len(), whole.len() as int) =~= suffix);
    assert(whole.take(whole.len() - suffix.len()) =~= s);
}

proof fn lemma_no_later_parenthesis(start: Seq<char>, rest: Seq<char>, j: int)
    requires
        !text::contains_text(rest, "%28"@),
        j > start.len(),
    ensures
        !text::occurs_at(start + "%28"@ + rest, "%28"@, j),
{
    reveal_strlit("%28");
    let mark = "%28"@;
    let whole = start + mark + rest;
    let at = start.len() as int;
    if text::occurs_at(whole, mark, j) {
        let found = whole.subrange(j, j + 3);
        assert(found[0] == '%');
        assert(found[0] == whole[j]);
        if j >= at + 3 {
            assert(rest.subrange(j - at - 3, j - at) =~= found);
            assert(text::occurs_at(rest, mark, j - at - 3));
        } else if j == at + 1 {
            assert(whole[j] == '2');
        } else {
            assert(whole[j] == '8');
        }
    }
}

/// What follows the last encoded parenthesis of a text is what holds none.
proof fn lemma_last_parenthesis(start: Seq<char>, rest: Seq<char>)
    requires
        !text::contains_text(rest, "%28"@),
    ensures
        text::find_last(start + "%28"@ + rest, "%28"@) == Some(start.len() as int),
{
    let mark = "%28"@;
    let whole = start + mark + rest;
    let at = start.len() as int;
    assert(whole.subrange(at, at + mark.len()) =~= mark);
    assert(text::occurs_at(whole, mark, at));
    text::lemma_find_last(whole, mark);
    assert(text::contains_text(whole, mark));
    let j = text::find_last(whole, mark)->Some_0;
    if j > at {
        lemma_no_later_parenthesis(start, rest, j);
    }
}

proof fn lemma_no_parenthesis(name: Seq<char>)
    requires
        !text::contains_text(name, "%28"@),
    ensures
        !text::contains_text(name + ".class"@, "%28"@),
{
    reveal_strlit("%28");
    reveal_strlit(".class");
    let mark = "%28"@;
    let end = ".class"@;
    let rest = name + end;
    let n = name.len() as int;
    assert(mark.len() == 3 && mark[0] == '%' && mark[1] == '2' && mark[2] == '8');
    assert forall|j: int| !#[trigger] text::occurs_at(rest, mark, j) by {
        if text::occurs_at(rest, mark, j) {
            let found = rest.subrange(j, j + 3);
            if j + 3 <= n {
                assert(name.subrange(j, j + 3) =~= found);
                assert(text::occurs_at(name, mark, j));
            } else if j < n {
                assert(found[n - j] == rest[n]);
                assert(rest[n] == end[0]);
            } else {
                assert(found[0] == rest[j]);
                assert(rest[j] == end[j - n]);
            }
        }
    }
}

/// Where a URI ends in an encoded parenthesis, the name of a class and `.class`, the file for it is
/// named after the class.
pub proof fn lemma_named_after_inner_class(start: Seq<char>, name: Seq<char>)
    requires
        !text::contains_text(name, "%28"@),
    ensures
        class_name(start + "%28"@ + (name + ".class"@)) == name,
{
    reveal_strlit("%28");
    let rest = name + ".class"@;
    let uri = start + "%28"@ + rest;
    lemma_no_parenthesis(name);
    lemma_last_parenthesis(start, rest);
    assert(uri.skip(start.len() as int + 3) =~= rest);
    lemma_without_suffix(name, ".class"@);
}

/// Where a URI holds no encoded parenthesis, the file for it is named after the last part of its path,
/// where that is a name with `.java` or `.class` after it, whatever query follows; where it is not, the
/// file is called `Decompiled`.
pub proof fn lemma_named_after_last_segment(start: Seq<char>, segment: Seq<char>, query: Seq<char>)
    requires
        !start.contains('?'),
        start.len() > 0 ==> start.last() == '/',
        !segment.contains('?') && !segment.contains('/'),
        query.len() > 0 ==> query[0] == '?',
        !text::contains_text(start + segment + query, "%28"@),
    ensures
        ({
            let uri = start + segment + query;
            &&& forall|name: Seq<char>|
                segment == #[trigger] (name + ".java"@) ==> class_name(uri) == name
            &&& forall|name: Seq<char>|
                segment == #[trigger] (name + ".class"@) ==> class_name(uri) == name
            &&& !text::ends_with(segment, ".java"@) && !text::ends_with(segment, ".class"@)
                ==> class_name(uri) == "Decompiled"@
        }),
{
    let uri = start + segment + query;
    let path = start + segment;
    text::lemma_find_last(uri, "%28"@);
    assert(text::find_last(uri, "%28"@) is None);
    assert(!path.contains('?')) by {
        if path.contains('?') {
            let i = choose|i: int| 0 <= i < path.len() && path[i] == '?';
            if i < start.len() {
                assert(start[i] == '?');
            } else {
                assert(segment[i - start.len()] == '?');
            }
        }
    }
    lemma_before_char(path, '?', query);
    lemma_after_last_char(start, '/', segment);
    assert(last_segment(uri) == segment);
    reveal_strlit(".java");
    reveal_strlit(".class");
    assert forall|name: Seq<char>| segment == #[trigger] (name + ".java"@) implies class_name(uri)
        == name by {
        lemma_without_suffix(name, ".java"@);
    }
    assert forall|name: Seq<char>| segment == #[trigger] (name + ".class"@) implies class_name(uri)
        == name by {
        lemma_without_suffix(name, ".class"@);
        if text::ends_with(segment, ".java"@) {
            let n = segment.len() as int;
            assert(segment.subrange(n - 5, n)[4] == 'a');
            assert(segment[n - 1] == 'a');
            assert(segment[n - 1] == ".class"@[5]);
        }
    }
}

/// The file for a class is named after it, with an underscore for each character that is no letter,
/// digit, hyphen, underscore or dot, and after the digest of its URI, and is a Java source.
pub proof fn lemma_cache_file_name(directory: Seq<char>, uri: Seq<char>, windows: bool, i: int)
    ensures
        ({
            let name = class_name(uri);
            let shown = plain_name(name);
            &&& cache_file(directory, uri, windows) == base_of(directory, windows) + (shown + "-"@
                + codec::lower_hex(codec::sha1_digest(encode_utf8(uri))) + ".java"@)
            &&& shown.len() == name.len()
            &&& 0 <= i < name.len() ==> {
                let kept = 'a' <= name[i] <= 'z' || 'A' <= name[i] <= 'Z' || '0' <= name[i] <= '9'
                    || name[i] == '-' || name[i] == '_' || name[i] == '.';
                &&& kept ==> shown[i] == name[i]
                &&& !kept ==> shown[i] == '_'
            }
        }),
{
    lemma_cache_file_in_directory(directory, uri, windows);
}

/// Each class source is either replaced by its file, where that is there, or is missing, and the
/// missing ones come in their order.
pub proof fn lemma_partitioned(
    directory: Seq<char>,
    uris: Seq<Seq<char>>,
    kept: Seq<bool>,
    windows: bool,
    uri: Seq<char>,
)
    requires
        kept.len() == uris.len(),
    ensures
        ({
            let n = uris.len() as int;
            let found = present(directory, uris, kept, n, windows);
            &&& found.contains_key(uri) <==> exists|i: int|
                0 <= i < n && #[trigger] uris[i] == uri && kept[i]
            &&& found.contains_key(uri) ==> found[uri] == uri::file_uri(
                cache_file(directory, uri, windows),
                windows,
            )
            &&& missing(uris, kept, n).contains(uri) <==> exists|i: int|
                0 <= i < n && #[trigger] uris[i] == uri && !kept[i]
            &&& (forall|i: int| 0 <= i < n ==> !#[trigger] kept[i]) ==> missing(uris, kept, n)
                == uris
        }),
{
    lemma_partitioned_first(directory, uris, kept, windows, uri, uris.len() as int);
    assert(uris.take(uris.len() as int) =~= uris);
}

proof fn lemma_partitioned_first(
    directory: Seq<char>,
    uris: Seq<Seq<char>>,
    kept: Seq<bool>,
    windows: bool,
    uri: Seq<char>,
    n: int,
)
    requires
        kept.len() == uris.len(),
        0 <= n <= uris.len(),
    ensures
        ({
            let found = present(directory, uris, kept, n, windows);
            &&& found.contains_key(uri) <==> exists|i: int|
                0 <= i < n && #[trigger] uris[i] == uri && kept[i]
            &&& found.contains_key(uri) ==> found[uri] == uri::file_uri(
                cache_file(directory, uri, windows),
                windows,
            )
            &&& missing(uris, kept, n).contains(uri) <==> exists|i: int|
                0 <= i < n && #[trigger] uris[i] == uri && !kept[i]
            &&& (forall|i: int| 0 <= i < n ==> !#[trigger] kept[i]) ==> missing(uris, kept, n)
                == uris.take(n)
        }),
    decreases n,
{
    if n > 0 {
        lemma_partitioned_first(directory, uris, kept, windows, uri, n - 1);
        let earlier = missing(uris, kept, n - 1);
        let last = uris[n - 1];
        assert(earlier.push(last).contains(uri) == (earlier.contains(uri) || uri == last)) by {
            assert(earlier.push(last)[earlier.len() as int] == last);
            if earlier.contains(uri) {
                let i = choose|i: int| 0 <= i < earlier.len() && earlier[i] == uri;
                assert(earlier.push(last)[i] == uri);
            }
            if earlier.push(last).contains(uri) && uri != last {
                let i = choose|i: int|
                    0 <= i < earlier.push(last).len() && earlier.push(last)[i] == uri;
                assert(earlier[i] == uri);
            }
        }
        assert(uris.take(n) =~= uris.take(n - 1).push(last));
        assert(!kept[n - 1] || kept[n - 1]);
    } else {
        assert(uris.take(0) =~= Seq::empty());
    }
}

} // verus!
