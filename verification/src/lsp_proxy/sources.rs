//! The `jdt://` URIs by which the language server names classes without a source file: where they
//! stand in its answers, and how file URIs take their place.

use crate::json::{Json, JsonView};
use crate::json;
use crate::table::Table;
use crate::text;
use vstd::prelude::*;
use vstd::slice::*;

verus! {

broadcast use text::lemma_texts_push;

/// How an answer is rewritten: in its location members alone, or in all its texts.
#[derive(Clone, Copy, Debug, PartialEq, Eq, Structural)]
pub enum RewriteMode {
    Locations,
    Strings,
}

/// `known`, followed by those of `found` that are not there yet, each once.
pub open spec fn with_new(known: Seq<Seq<char>>, found: Seq<Seq<char>>) -> Seq<Seq<char>>
    decreases found.len(),
{
    if found.len() == 0 {
        known
    } else {
        let earlier = with_new(known, found.drop_last());
        if earlier.contains(found.last()) {
            earlier
        } else {
            earlier.push(found.last())
        }
    }
}

proof fn lemma_with_new_concat(known: Seq<Seq<char>>, a: Seq<Seq<char>>, b: Seq<Seq<char>>)
    ensures
        with_new(known, a + b) == with_new(with_new(known, a), b),
    decreases b.len(),
{
    if b.len() == 0 {
        assert(a + b =~= a);
    } else {
        assert((a + b).drop_last() =~= a + b.drop_last());
        lemma_with_new_concat(known, a, b.drop_last());
    }
}

/// No URI is collected twice, and each that was found is collected.
pub proof fn lemma_with_new(known: Seq<Seq<char>>, found: Seq<Seq<char>>)
    requires
        known.no_duplicates(),
    ensures
        with_new(known, found).no_duplicates(),
        forall|uri: Seq<char>| #[trigger]
            with_new(known, found).contains(uri) <==> known.contains(uri) || found.contains(uri),
    decreases found.len(),
{
    if found.len() > 0 {
        let earlier = with_new(known, found.drop_last());
        lemma_with_new(known, found.drop_last());
        assert forall|uri: Seq<char>| #[trigger]
            with_new(known, found).contains(uri) <==> known.contains(uri) || found.contains(
                uri,
            ) by {
            assert(found =~= found.drop_last().push(found.last()));
            if uri == found.last() {
                assert(found[found.len() - 1] == uri);
                if !earlier.contains(uri) {
                    assert(earlier.push(uri)[earlier.len() as int] == uri);
                }
            } else {
                if earlier.contains(uri) {
                    let i = choose|i: int| 0 <= i < earlier.len() && earlier[i] == uri;
                    assert(earlier.push(found.last())[i] == uri);
                    if found.drop_last().contains(uri) {
                        let j = choose|j: int|
                            0 <= j < found.drop_last().len() && found.drop_last()[j] == uri;
                        assert(found[j] == uri);
                    }
                }
                if found.contains(uri) {
                    let j = choose|j: int| 0 <= j < found.len() && found[j] == uri;
                    assert(found.drop_last()[j] == uri);
                    assert(found.drop_last().contains(uri));
                }
                if with_new(known, found).contains(uri) {
                    let i = choose|i: int|
                        0 <= i < with_new(known, found).len() && with_new(known, found)[i] == uri;
                    assert(i < earlier.len());
                    assert(earlier[i] == uri);
                }
            }
        }
    }
}

/// A member with this key holds the URI of a location.
pub open spec fn is_location_key(key: Seq<char>) -> bool {
    key == "uri"@ || key == "targetUri"@
}

fn names_location(key: &str) -> (r: bool)
    ensures
        r == is_location_key(key@),
{
    text::same_text(key, "uri") || text::same_text(key, "targetUri")
}

/// The URI names a class without a source file.
pub open spec fn is_jdt_uri(uri: Seq<char>) -> bool {
    text::starts_with(uri, "jdt://"@)
}

/// The `jdt://` URIs in the location members of `value`, in their order.
pub open spec fn location_uris(value: JsonView) -> Seq<Seq<char>>
    decreases value, 0int,
{
    match value {
        JsonView::Array(items) => location_uris_of_items(items, items.len() as int),
        JsonView::Object(members) => location_uris_of_members(members, members.len() as int),
        _ => Seq::empty(),
    }
}

/// The location URIs in the first `n` of `items`.
pub open spec fn location_uris_of_items(items: Seq<JsonView>, n: int) -> Seq<Seq<char>>
    decreases items, n,
{
    if n <= 0 || n > items.len() {
        Seq::empty()
    } else {
        location_uris_of_items(items, n - 1) + location_uris(items[n - 1])
    }
}

/// The location URIs in the first `n` of `members`.
pub open spec fn location_uris_of_members(
    members: Seq<(Seq<char>, JsonView)>,
    n: int,
) -> Seq<Seq<char>>
    decreases members, n,
{
    if n <= 0 || n > members.len() {
        Seq::empty()
    } else {
        let earlier = location_uris_of_members(members, n - 1);
        if is_location_key(members[n - 1].0) {
            match members[n - 1].1 {
                JsonView::Str(uri) => if is_jdt_uri(uri) {
                    earlier.push(uri)
                } else {
                    earlier
                },
                _ => earlier,
            }
        } else {
            earlier + location_uris(members[n - 1].1)
        }
    }
}

/// Adds `uri` where it is not there yet.
fn add_uri(uris: &mut Vec<String>, uri: String)
    ensures
        text::texts(final(uris)@) == with_new(text::texts(old(uris)@), seq![uri@]),
{
    proof {
        assert(seq![uri@].drop_last() =~= Seq::<Seq<char>>::empty());
        assert(with_new(text::texts(uris@), seq![uri@].drop_last()) == text::texts(uris@));
    }
    if !text::among(uris, uri.as_str()) {
        uris.push(uri);
    }
}

/// Adds to `uris` the `jdt://` URIs in the location members of `value` that are not there yet.
pub fn collect_jdt_location_uris(value: &Json, uris: &mut Vec<String>)
    ensures
        text::texts(final(uris)@) == with_new(text::texts(old(uris)@), location_uris(value@)),
    decreases value,
{
    broadcast use json::group_json_views;

    let ghost known = text::texts(uris@);
    match value {
        Json::Array(items) => {
            let mut i: usize = 0;
            while i < items.len()
                invariant
                    i <= items@.len(),
                    decreases_to!(value => items),
                    text::texts(uris@) == with_new(
                        known,
                        location_uris_of_items(json::items_view(items@), i as int),
                    ),
                decreases items@.len() - i,
            {
                proof {
                    lemma_with_new_concat(
                        known,
                        location_uris_of_items(json::items_view(items@), i as int),
                        location_uris(items@[i as int]@),
                    );
                }
                collect_jdt_location_uris(&items[i], uris);
                i += 1;
            }
        },
        Json::Object(members) => {
            let mut i: usize = 0;
            while i < members.len()
                invariant
                    i <= members@.len(),
                    decreases_to!(value => members),
                    text::texts(uris@) == with_new(
                        known,
                        location_uris_of_members(json::members_view(members@), i as int),
                    ),
                decreases members@.len() - i,
            {
                let ghost earlier = location_uris_of_members(
                    json::members_view(members@),
                    i as int,
                );
                if names_location(members[i].key.as_str()) {
                    if let Json::Str(uri) = &members[i].value {
                        let prefix = text::chars_of("jdt://");
                        let chars = text::chars_of(uri.as_str());
                        if text::has_prefix(&chars, &prefix) {
                            proof {
                                lemma_with_new_concat(known, earlier, seq![uri@]);
                                assert(earlier + seq![uri@] =~= earlier.push(uri@));
                            }
                            add_uri(uris, uri.clone());
                        }
                    }
                } else {
                    proof {
                        lemma_with_new_concat(
                            known,
                            earlier,
                            location_uris(members@[i as int].value@),
                        );
                    }
                    collect_jdt_location_uris(&members[i].value, uris);
                }
                i += 1;
            }
        },
        _ => {},
    }
}

/// `uri`'s replacement, where there is one.
pub open spec fn moved_uri(uri: Seq<char>, replacements: Map<Seq<char>, Seq<char>>) -> Seq<char> {
    if replacements.contains_key(uri) {
        replacements[uri]
    } else {
        uri
    }
}

/// `value` with the replacements in place of the URIs in its location members.
pub open spec fn relocated(
    value: JsonView,
    replacements: Map<Seq<char>, Seq<char>>,
) -> JsonView
    decreases value,
{
    match value {
        JsonView::Array(items) => JsonView::Array(
            Seq::new(
                items.len(),
                |i: int|
                    if 0 <= i < items.len() {
                        relocated(items[i], replacements)
                    } else {
                        JsonView::Null
                    },
            ),
        ),
        JsonView::Object(members) => JsonView::Object(
            Seq::new(
                members.len(),
                |i: int|
                    if 0 <= i < members.len() {
                        (
                            members[i].0,
                            if !is_location_key(members[i].0) {
                                relocated(members[i].1, replacements)
                            } else {
                                match members[i].1 {
                                    JsonView::Str(uri) => JsonView::Str(
                                        moved_uri(uri, replacements),
                                    ),
                                    other => other,
                                }
                            },
                        )
                    } else {
                        (Seq::empty(), JsonView::Null)
                    },
            ),
        ),
        _ => value,
    }
}

/// One of the location members of `value` holds a URI that has a replacement.
pub open spec fn has_replaceable(
    value: JsonView,
    replacements: Map<Seq<char>, Seq<char>>,
) -> bool
    decreases value,
{
    match value {
        JsonView::Array(items) => exists|i: int|
            0 <= i < items.len() && has_replaceable(#[trigger] items[i], replacements),
        JsonView::Object(members) => exists|i: int|
            0 <= i < members.len() && (if is_location_key((#[trigger] members[i]).0) {
                match members[i].1 {
                    JsonView::Str(uri) => replacements.contains_key(uri),
                    _ => false,
                }
            } else {
                has_replaceable(members[i].1, replacements)
            }),
        _ => false,
    }
}

/// Puts the replacements in place of the URIs in the location members of `value`, and says whether
/// there were any.
pub fn replace_jdt_location_uris(value: &mut Json, replacements: &Table<String, String>) -> (r:
    bool)
    requires
        replacements.well_formed(),
    ensures
        final(value)@ == relocated(old(value)@, replacements@),
        r == has_replaceable(old(value)@, replacements@),
    decreases *old(value),
{
    broadcast use json::group_json_views;

    let ghost original = value@;
    match value {
        Json::Array(items) => {
            let ghost before = items@;
            let mut rewritten = false;
            let mut i: usize = 0;
            let n: usize = items.len();
            while i < n
                invariant
                    i <= n == items@.len() == before.len(),
                    replacements.well_formed(),
                    forall|j: int|
                        0 <= j < i ==> (#[trigger] items@[j])@ == relocated(
                            before[j]@,
                            replacements@,
                        ),
                    forall|j: int| i <= j < n ==> items@[j] == before[j],
                    forall|j: int|
                        0 <= j < n ==> decreases_to!(*old(value) => #[trigger] before[j]),
                    rewritten == exists|j: int|
                        0 <= j < i && has_replaceable(
                            #[trigger] json::items_view(before)[j],
                            replacements@,
                        ),
                decreases n - i,
            {
                assert(json::items_view(before)[i as int] == before[i as int]@);
                if replace_jdt_location_uris(&mut items[i], replacements) {
                    rewritten = true;
                }
                i += 1;
            }
            assert(json::items_view(items@) =~= relocated(original, replacements@)->Array_0);
            rewritten
        },
        Json::Object(members) => {
            let ghost before = members@;
            let mut rewritten = false;
            let mut i: usize = 0;
            let n: usize = members.len();
            while i < n
                invariant
                    i <= n == members@.len() == before.len(),
                    replacements.well_formed(),
                    original == JsonView::Object(json::members_view(before)),
                    forall|j: int|
                        0 <= j < i ==> (#[trigger] members@[j])@ == relocated(
                            original,
                            replacements@,
                        )->Object_0[j],
                    forall|j: int| i <= j < n ==> members@[j] == before[j],
                    forall|j: int|
                        0 <= j < n ==> decreases_to!(*old(value) => #[trigger] before[j].value),
                    rewritten == exists|j: int|
                        0 <= j < i && (if is_location_key(
                            (#[trigger] json::members_view(before)[j]).0,
                        ) {
                            match json::members_view(before)[j].1 {
                                JsonView::Str(uri) => replacements@.contains_key(uri),
                                _ => false,
                            }
                        } else {
                            has_replaceable(json::members_view(before)[j].1, replacements@)
                        }),
                decreases n - i,
            {
                assert(json::members_view(before)[i as int] == before[i as int]@);
                if names_location(members[i].key.as_str()) {
                    if let Json::Str(uri) = &members[i].value {
                        let replacement = match replacements.get(uri) {
                            Some(replacement) => Some(replacement.clone()),
                            None => None,
                        };
                        if let Some(replacement) = replacement {
                            members[i].value = Json::Str(replacement);
                            rewritten = true;
                        }
                    }
                } else if replace_jdt_location_uris(&mut members[i].value, replacements) {
                    rewritten = true;
                }
                i += 1;
            }
            assert(json::members_view(members@) =~= relocated(original, replacements@)->Object_0);
            rewritten
        },
        _ => false,
    }
}

/// `c` ends a URI that stands in a text.
pub open spec fn ends_uri(c: char) -> bool {
    text::is_whitespace(c) || c == ')' || c == ']' || c == '"' || c == '>' || c == '`' || c == '\''
}

/// The length of the URI with which `s` begins.
pub open spec fn uri_end(s: Seq<char>) -> int
    decreases s.len(),
{
    if s.len() == 0 || ends_uri(s[0]) {
        0
    } else {
        1 + uri_end(s.drop_first())
    }
}

/// The length of the URI with which `value` begins.
pub fn jdt_uri_end(value: &[char]) -> (r: usize)
    ensures
        r == uri_end(value@),
        r <= value@.len(),
{
    let mut i: usize = 0;
    assert(value@.skip(0) == value@);
    while i < value.len()
        invariant
            i <= value.len(),
            uri_end(value@) == i + uri_end(value@.skip(i as int)),
        decreases value.len() - i,
    {
        let c = value[i];
        if c.is_whitespace() || c == ')' || c == ']' || c == '"' || c == '>' || c == '`' || c
            == '\'' {
            return i;
        }
        assert(value@.skip(i as int).drop_first() == value@.skip(i + 1));
        i += 1;
    }
    i
}

/// The `jdt://` URIs in the text `s`, in their order.
pub open spec fn uris_in_text(s: Seq<char>) -> Seq<Seq<char>>
    decreases s.len(),
    via uris_in_text_shrinks
{
    match text::find_from(s, "jdt://"@, 0) {
        Some(at) => {
            let tail = s.skip(at);
            seq![tail.take(uri_end(tail))] + uris_in_text(tail.skip(uri_end(tail)))
        },
        None => Seq::empty(),
    }
}

#[via_fn]
proof fn uris_in_text_shrinks(s: Seq<char>) {
    text::lemma_find_from(s, "jdt://"@, 0);
    if let Some(at) = text::find_from(s, "jdt://"@, 0) {
        reveal_strlit("jdt://");
        let tail = s.skip(at);
        assert(s.subrange(at, at + 6)[0] == 'j');
        assert(tail[0] == 'j');
        lemma_uri_end(tail.drop_first());
    }
}

proof fn lemma_uri_end(s: Seq<char>)
    ensures
        0 <= uri_end(s) <= s.len(),
    decreases s.len(),
{
    if s.len() > 0 && !ends_uri(s[0]) {
        lemma_uri_end(s.drop_first());
    }
}

/// The `jdt://` URIs in the texts of `value`, in their order.
pub open spec fn text_uris(value: JsonView) -> Seq<Seq<char>>
    decreases value, 0int,
{
    match value {
        JsonView::Str(s) => uris_in_text(s),
        JsonView::Array(items) => text_uris_of_items(items, items.len() as int),
        JsonView::Object(members) => text_uris_of_members(members, members.len() as int),
        _ => Seq::empty(),
    }
}

/// The `jdt://` URIs in the texts of the first `n` of `items`.
pub open spec fn text_uris_of_items(items: Seq<JsonView>, n: int) -> Seq<Seq<char>>
    decreases items, n,
{
    if n <= 0 || n > items.len() {
        Seq::empty()
    } else {
        text_uris_of_items(items, n - 1) + text_uris(items[n - 1])
    }
}

/// The `jdt://` URIs in the texts of the first `n` of `members`.
pub open spec fn text_uris_of_members(members: Seq<(Seq<char>, JsonView)>, n: int) -> Seq<Seq<char>>
    decreases members, n,
{
    if n <= 0 || n > members.len() {
        Seq::empty()
    } else {
        text_uris_of_members(members, n - 1) + text_uris(members[n - 1].1)
    }
}

/// Adds to `uris` the `jdt://` URIs in the text `s` that are not there yet.
fn collect_from_text(s: &[char], uris: &mut Vec<String>)
    ensures
        text::texts(final(uris)@) == with_new(text::texts(old(uris)@), uris_in_text(s@)),
{
    let prefix = text::chars_of("jdt://");
    let ghost known = text::texts(uris@);
    let mut from: usize = 0;
    let ghost mut found: Seq<Seq<char>> = Seq::empty();
    assert(s@.skip(0) == s@);
    assert(Seq::empty() + uris_in_text(s@) =~= uris_in_text(s@));
    loop
        invariant
            from <= s.len(),
            prefix@ == "jdt://"@,
            text::texts(uris@) == with_new(known, found),
            found + uris_in_text(s@.skip(from as int)) == uris_in_text(s@),
        ensures
            text::texts(uris@) == with_new(known, uris_in_text(s@)),
        decreases s.len() - from,
    {
        let ghost rest = s@.skip(from as int);
        let remaining = slice_subrange(s, from, s.len());
        assert(remaining@ == rest);
        match text::find_text(remaining, &prefix, 0) {
            Some(at) => {
                proof {
                    text::lemma_find_from(rest, "jdt://"@, 0);
                    reveal_strlit("jdt://");
                }
                let tail = slice_subrange(remaining, at, remaining.len());
                assert(tail@ == rest.skip(at as int));
                let end = jdt_uri_end(tail);
                assert(end > 0) by {
                    assert(rest.subrange(at as int, at + 6)[0] == 'j');
                    assert(tail@[0] == 'j');
                    lemma_uri_end(tail@.drop_first());
                }
                let uri = text::string_of(slice_subrange(tail, 0, end));
                assert(uri@ == tail@.take(uri_end(tail@)));
                proof {
                    lemma_with_new_concat(known, found, seq![uri@]);
                    let ghost next = s@.skip(from + at + end);
                    assert(tail@.skip(uri_end(tail@)) == next);
                    assert(found + (seq![uri@] + uris_in_text(next)) =~= (found + seq![uri@])
                        + uris_in_text(next));
                    found = found + seq![uri@];
                }
                add_uri(uris, uri);
                from = from + at + end;
            },
            None => {
                assert(found + Seq::empty() =~= found);
                break ;
            },
        }
    }
}

/// Adds to `uris` the `jdt://` URIs in the texts of `value` that are not there yet.
pub fn collect_jdt_uris(value: &Json, uris: &mut Vec<String>)
    ensures
        text::texts(final(uris)@) == with_new(text::texts(old(uris)@), text_uris(value@)),
    decreases value,
{
    broadcast use json::group_json_views;

    let ghost known = text::texts(uris@);
    match value {
        Json::Str(s) => {
            let chars = text::chars_of(s.as_str());
            collect_from_text(&chars, uris);
        },
        Json::Array(items) => {
            let mut i: usize = 0;
            while i < items.len()
                invariant
                    i <= items@.len(),
                    decreases_to!(value => items),
                    text::texts(uris@) == with_new(
                        known,
                        text_uris_of_items(json::items_view(items@), i as int),
                    ),
                decreases items@.len() - i,
            {
                proof {
                    lemma_with_new_concat(
                        known,
                        text_uris_of_items(json::items_view(items@), i as int),
                        text_uris(items@[i as int]@),
                    );
                }
                collect_jdt_uris(&items[i], uris);
                i += 1;
            }
        },
        Json::Object(members) => {
            let mut i: usize = 0;
            while i < members.len()
                invariant
                    i <= members@.len(),
                    decreases_to!(value => members),
                    text::texts(uris@) == with_new(
                        known,
                        text_uris_of_members(json::members_view(members@), i as int),
                    ),
                decreases members@.len() - i,
            {
                proof {
                    lemma_with_new_concat(
                        known,
                        text_uris_of_members(json::members_view(members@), i as int),
                        text_uris(members@[i as int].value@),
                    );
                }
                collect_jdt_uris(&members[i].value, uris);
                i += 1;
            }
        },
        _ => {},
    }
}

/// The URIs and their replacements, in the order in which they came.
pub open spec fn pairs(entries: Seq<(String, String)>) -> Seq<(Seq<char>, Seq<char>)> {
    Seq::new(entries.len(), |i: int| (entries[i].0@, entries[i].1@))
}

/// `s` with each of the first `n` of `pairs` applied in turn.
pub open spec fn text_replaced(s: Seq<char>, pairs: Seq<(Seq<char>, Seq<char>)>, n: int) -> Seq<
    char,
>
    decreases n,
{
    if n <= 0 || n > pairs.len() {
        s
    } else {
        text::replace_all(text_replaced(s, pairs, n - 1), pairs[n - 1].0, pairs[n - 1].1)
    }
}

/// `value` with `pairs` applied to all its texts.
pub open spec fn strings_replaced(
    value: JsonView,
    pairs: Seq<(Seq<char>, Seq<char>)>,
) -> JsonView
    decreases value,
{
    match value {
        JsonView::Str(s) => JsonView::Str(text_replaced(s, pairs, pairs.len() as int)),
        JsonView::Array(items) => JsonView::Array(
            Seq::new(
                items.len(),
                |i: int|
                    if 0 <= i < items.len() {
                        strings_replaced(items[i], pairs)
                    } else {
                        JsonView::Null
                    },
            ),
        ),
        JsonView::Object(members) => JsonView::Object(
            Seq::new(
                members.len(),
                |i: int|
                    if 0 <= i < members.len() {
                        (members[i].0, strings_replaced(members[i].1, pairs))
                    } else {
                        (Seq::empty(), JsonView::Null)
                    },
            ),
        ),
        _ => value,
    }
}

/// Puts the replacements in place of their URIs wherever these stand in the texts of `value`, one
/// after the other.
pub fn replace_in_strings(value: &mut Json, replacements: &Table<String, String>)
    ensures
        final(value)@ == strings_replaced(old(value)@, pairs(replacements.entries@)),
    decreases *old(value),
{
    broadcast use json::group_json_views;

    let ghost original = value@;
    let ghost all = pairs(replacements.entries@);
    match value {
        Json::Str(s) => {
            let mut chars = text::chars_of(s.as_str());
            let ghost start = chars@;
            let mut i: usize = 0;
            while i < replacements.entries.len()
                invariant
                    i <= replacements.entries@.len(),
                    all == pairs(replacements.entries@),
                    chars@ == text_replaced(start, all, i as int),
                decreases replacements.entries@.len() - i,
            {
                let from = text::chars_of(replacements.entries[i].0.as_str());
                let to = text::chars_of(replacements.entries[i].1.as_str());
                chars = text::replace_text(&chars, &from, &to);
                i += 1;
            }
            *s = text::string_of(&chars);
        },
        Json::Array(items) => {
            let ghost before = items@;
            let mut i: usize = 0;
            let n: usize = items.len();
            while i < n
                invariant
                    i <= n == items@.len() == before.len(),
                    all == pairs(replacements.entries@),
                    forall|j: int|
                        0 <= j < i ==> (#[trigger] items@[j])@ == strings_replaced(before[j]@, all),
                    forall|j: int| i <= j < n ==> items@[j] == before[j],
                    forall|j: int|
                        0 <= j < n ==> decreases_to!(*old(value) => #[trigger] before[j]),
                decreases n - i,
            {
                replace_in_strings(&mut items[i], replacements);
                i += 1;
            }
            assert(json::items_view(items@) =~= strings_replaced(original, all)->Array_0);
        },
        Json::Object(members) => {
            let ghost before = members@;
            let mut i: usize = 0;
            let n: usize = members.len();
            while i < n
                invariant
                    i <= n == members@.len() == before.len(),
                    all == pairs(replacements.entries@),
                    forall|j: int|
                        0 <= j < i ==> (#[trigger] members@[j])@ == (
                            before[j].key@,
                            strings_replaced(before[j].value@, all),
                        ),
                    forall|j: int| i <= j < n ==> members@[j] == before[j],
                    forall|j: int|
                        0 <= j < n ==> decreases_to!(*old(value) => #[trigger] before[j].value),
                decreases n - i,
            {
                replace_in_strings(&mut members[i].value, replacements);
                i += 1;
            }
            assert(json::members_view(members@) =~= strings_replaced(original, all)->Object_0);
        },
        _ => {},
    }
}

/// The class sources that are needed to rewrite the answer `message`, each once.
pub open spec fn needed_uris(message: JsonView, mode: RewriteMode) -> Seq<Seq<char>> {
    match message.get("result"@) {
        Some(result) => with_new(
            Seq::empty(),
            match mode {
                RewriteMode::Locations => location_uris(result),
                RewriteMode::Strings => text_uris(result),
            },
        ),
        None => Seq::empty(),
    }
}

/// The class sources that are needed to rewrite the answer `message`, each once.
pub fn uris_to_resolve(message: &Json, mode: RewriteMode) -> (r: Vec<String>)
    ensures
        text::texts(r@) == needed_uris(message@, mode),
{
    let mut uris: Vec<String> = Vec::new();
    assert(text::texts(uris@) =~= Seq::empty());
    if let Some(result) = message.get("result") {
        match mode {
            RewriteMode::Locations => collect_jdt_location_uris(result, &mut uris),
            RewriteMode::Strings => collect_jdt_uris(result, &mut uris),
        }
    }
    uris
}

/// The answer `message` with the replacements in its result.
pub open spec fn rewritten_message(
    message: JsonView,
    mode: RewriteMode,
    replacements: Table<String, String>,
) -> JsonView {
    match message.get("result"@) {
        Some(result) => message.with(
            "result"@,
            match mode {
                RewriteMode::Locations => relocated(result, replacements@),
                RewriteMode::Strings => strings_replaced(result, pairs(replacements.entries@)),
            },
        ),
        None => message,
    }
}

/// Puts the replacements in place of their URIs in the result of the answer `message`.
pub fn rewrite_message(message: &mut Json, mode: RewriteMode, replacements: &Table<String, String>)
    requires
        replacements.well_formed(),
    ensures
        final(message)@ == rewritten_message(old(message)@, mode, *replacements),
{
    if let Some(result) = message.get_mut("result") {
        match mode {
            RewriteMode::Locations => {
                replace_jdt_location_uris(result, replacements);
            },
            RewriteMode::Strings => replace_in_strings(result, replacements),
        }
    }
}

/// Where no location has a replacement, nothing changes.
pub proof fn lemma_nothing_to_replace(value: JsonView, replacements: Map<Seq<char>, Seq<char>>)
    requires
        !has_replaceable(value, replacements),
    ensures
        relocated(value, replacements) == value,
    decreases value,
{
    match value {
        JsonView::Array(items) => {
            let after = relocated(value, replacements)->Array_0;
            assert forall|i: int| 0 <= i < items.len() implies after[i] == items[i] by {
                assert(!has_replaceable(items[i], replacements));
                lemma_nothing_to_replace(items[i], replacements);
            }
            assert(after =~= items);
        },
        JsonView::Object(members) => {
            let after = relocated(value, replacements)->Object_0;
            assert forall|i: int| 0 <= i < members.len() implies after[i] == members[i] by {
                let member = members[i];
                if !is_location_key(member.0) {
                    lemma_nothing_to_replace(members[i].1, replacements);
                }
            }
            assert(after =~= members);
        },
        _ => {},
    }
}

/// Once each class source that is named in a location has a replacement, no location names one
/// any more.
pub proof fn lemma_all_relocated(value: JsonView, replacements: Map<Seq<char>, Seq<char>>)
    requires
        forall|uri: Seq<char>| #[trigger]
            location_uris(value).contains(uri) ==> replacements.contains_key(uri),
        forall|uri: Seq<char>| #[trigger]
            replacements.contains_key(uri) ==> !is_jdt_uri(replacements[uri]),
    ensures
        location_uris(relocated(value, replacements)) == Seq::<Seq<char>>::empty(),
    decreases value, 1int,
{
    match value {
        JsonView::Array(items) => {
            assert(location_uris(value) == location_uris_of_items(items, items.len() as int));
            lemma_items_relocated(value, items, items.len() as int, replacements);
        },
        JsonView::Object(members) => {
            assert(location_uris(value) == location_uris_of_members(members, members.len() as int));
            lemma_members_relocated(value, members, members.len() as int, replacements);
        },
        _ => {},
    }
}

proof fn lemma_contains_left(a: Seq<Seq<char>>, b: Seq<Seq<char>>)
    ensures
        forall|uri: Seq<char>| a.contains(uri) ==> #[trigger] (a + b).contains(uri),
        forall|uri: Seq<char>| b.contains(uri) ==> #[trigger] (a + b).contains(uri),
{
    assert forall|uri: Seq<char>| a.contains(uri) implies #[trigger] (a + b).contains(uri) by {
        let i = choose|i: int| 0 <= i < a.len() && a[i] == uri;
        assert((a + b)[i] == uri);
    }
    assert forall|uri: Seq<char>| b.contains(uri) implies #[trigger] (a + b).contains(uri) by {
        let i = choose|i: int| 0 <= i < b.len() && b[i] == uri;
        assert((a + b)[a.len() + i] == uri);
    }
}

proof fn lemma_items_relocated(
    value: JsonView,
    items: Seq<JsonView>,
    n: int,
    replacements: Map<Seq<char>, Seq<char>>,
)
    requires
        value == JsonView::Array(items),
        0 <= n <= items.len(),
        forall|uri: Seq<char>| #[trigger]
            location_uris_of_items(items, n).contains(uri) ==> replacements.contains_key(uri),
        forall|uri: Seq<char>| #[trigger]
            replacements.contains_key(uri) ==> !is_jdt_uri(replacements[uri]),
    ensures
        location_uris_of_items(relocated(value, replacements)->Array_0, n) == Seq::<
            Seq<char>,
        >::empty(),
    decreases items, n,
{
    if n > 0 {
        let earlier = location_uris_of_items(items, n - 1);
        let found = location_uris(items[n - 1]);
        assert(location_uris_of_items(items, n) == earlier + found);
        lemma_contains_left(earlier, found);
        assert forall|uri: Seq<char>| #[trigger] earlier.contains(
            uri,
        ) implies replacements.contains_key(uri) by {
            assert((earlier + found).contains(uri));
        }
        assert forall|uri: Seq<char>| #[trigger] found.contains(
            uri,
        ) implies replacements.contains_key(uri) by {
            assert((earlier + found).contains(uri));
        }
        lemma_items_relocated(value, items, n - 1, replacements);
        lemma_all_relocated(items[n - 1], replacements);
        assert(location_uris_of_items(relocated(value, replacements)->Array_0, n)
            =~= Seq::<Seq<char>>::empty());
    }
}

proof fn lemma_members_relocated(
    value: JsonView,
    members: Seq<(Seq<char>, JsonView)>,
    n: int,
    replacements: Map<Seq<char>, Seq<char>>,
)
    requires
        value == JsonView::Object(members),
        0 <= n <= members.len(),
        forall|uri: Seq<char>| #[trigger]
            location_uris_of_members(members, n).contains(uri) ==> replacements.contains_key(uri),
        forall|uri: Seq<char>| #[trigger]
            replacements.contains_key(uri) ==> !is_jdt_uri(replacements[uri]),
    ensures
        location_uris_of_members(relocated(value, replacements)->Object_0, n) == Seq::<
            Seq<char>,
        >::empty(),
    decreases members, n,
{
    if n > 0 {
        let earlier = location_uris_of_members(members, n - 1);
        let member = members[n - 1];
        let found = if is_location_key(member.0) {
            match member.1 {
                JsonView::Str(uri) => if is_jdt_uri(uri) {
                    seq![uri]
                } else {
                    Seq::empty()
                },
                _ => Seq::empty(),
            }
        } else {
            location_uris(member.1)
        };
        assert(location_uris_of_members(members, n) =~= earlier + found);
        lemma_contains_left(earlier, found);
        assert forall|uri: Seq<char>| #[trigger] earlier.contains(
            uri,
        ) implies replacements.contains_key(uri) by {
            assert((earlier + found).contains(uri));
        }
        assert forall|uri: Seq<char>| #[trigger] found.contains(
            uri,
        ) implies replacements.contains_key(uri) by {
            assert((earlier + found).contains(uri));
        }
        lemma_members_relocated(value, members, n - 1, replacements);
        if is_location_key(member.0) {
            if let JsonView::Str(uri) = member.1 {
                if is_jdt_uri(uri) {
                    assert(found[0] == uri);
                    assert(found.contains(uri));
                }
            }
        } else {
            lemma_all_relocated(members[n - 1].1, replacements);
        }
        assert(location_uris_of_members(relocated(value, replacements)->Object_0, n)
            =~= Seq::<Seq<char>>::empty());
    }
}

/// What `path` leads to from `value`: each step is the place of an item or of a member, and none
/// goes into a member called `uri` or `targetUri`.
pub open spec fn found_at(value: JsonView, path: Seq<int>) -> Option<JsonView>
    decreases path.len(),
{
    if path.len() == 0 {
        Some(value)
    } else {
        match value {
            JsonView::Array(items) => if 0 <= path[0] < items.len() {
                found_at(items[path[0]], path.drop_first())
            } else {
                None
            },
            JsonView::Object(members) => if 0 <= path[0] < members.len() && members[path[0]].0
                != "uri"@ && members[path[0]].0 != "targetUri"@ {
                found_at(members[path[0]].1, path.drop_first())
            } else {
                None
            },
            _ => None,
        }
    }
}

/// The object to which `path` leads from `value` has `uri` as its member at the place `at`, which is
/// called `uri` or `targetUri`.
pub open spec fn location_at(value: JsonView, path: Seq<int>, at: int, uri: Seq<char>) -> bool {
    &&& found_at(value, path) matches Some(JsonView::Object(members))
    &&& 0 <= at < members.len()
    &&& members[at].0 == "uri"@ || members[at].0 == "targetUri"@
    &&& members[at].1 == JsonView::Str(uri)
}

/// A text `jdt://...` under `uri` or `targetUri`, wherever it stands in the result of an answer, is
/// among the class sources that are needed to rewrite it.
pub proof fn lemma_locations_needed(
    message: JsonView,
    path: Seq<int>,
    at: int,
    rest: Seq<char>,
)
    requires
        message.get("result"@) matches Some(result) && location_at(
            result,
            path,
            at,
            "jdt://"@ + rest,
        ),
    ensures
        needed_uris(message, RewriteMode::Locations).contains("jdt://"@ + rest),
{
    let result = message.get("result"@)->Some_0;
    lemma_location_found(result, path, at, rest);
    lemma_with_new(Seq::empty(), location_uris(result));
}

/// No class source is needed to rewrite the locations of an answer but for those that stand in its
/// result as `jdt://...` under `uri` or `targetUri`, and none is needed twice.
pub proof fn lemma_only_locations_needed(message: JsonView, uri: Seq<char>)
    ensures
        needed_uris(message, RewriteMode::Locations).no_duplicates(),
        needed_uris(message, RewriteMode::Locations).contains(uri) ==> {
            &&& "jdt://"@.is_prefix_of(uri)
            &&& message.get("result"@) matches Some(result)
            &&& exists|path: Seq<int>, at: int| #[trigger] location_at(result, path, at, uri)
        },
{
    if let Some(result) = message.get("result"@) {
        lemma_with_new(Seq::empty(), location_uris(result));
        if location_uris(result).contains(uri) {
            lemma_found_location(result, uri);
        }
    }
}

proof fn lemma_location_found(value: JsonView, path: Seq<int>, at: int, rest: Seq<char>)
    requires
        location_at(value, path, at, "jdt://"@ + rest),
    ensures
        location_uris(value).contains("jdt://"@ + rest),
    decreases path.len(),
{
    let uri = "jdt://"@ + rest;
    if path.len() == 0 {
        let members = value->Object_0;
        text::lemma_starts_with(uri, "jdt://"@);
        let here = location_uris_of_members(members, at + 1);
        assert(here == location_uris_of_members(members, at).push(uri));
        assert(here[here.len() - 1] == uri);
        lemma_members_grow(members, at + 1, members.len() as int, uri);
    } else {
        let i = path[0];
        match value {
            JsonView::Array(items) => {
                lemma_location_found(items[i], path.drop_first(), at, rest);
                lemma_contains_left(
                    location_uris_of_items(items, i),
                    location_uris(items[i]),
                );
                lemma_items_grow(items, i + 1, items.len() as int, uri);
            },
            JsonView::Object(members) => {
                lemma_location_found(members[i].1, path.drop_first(), at, rest);
                lemma_contains_left(
                    location_uris_of_members(members, i),
                    location_uris(members[i].1),
                );
                lemma_members_grow(members, i + 1, members.len() as int, uri);
            },
            _ => {},
        }
    }
}

proof fn lemma_items_grow(items: Seq<JsonView>, n: int, m: int, uri: Seq<char>)
    requires
        0 <= n <= m <= items.len(),
        location_uris_of_items(items, n).contains(uri),
    ensures
        location_uris_of_items(items, m).contains(uri),
    decreases m - n,
{
    if n < m {
        lemma_items_grow(items, n, m - 1, uri);
        lemma_contains_left(location_uris_of_items(items, m - 1), location_uris(items[m - 1]));
    }
}

proof fn lemma_members_grow(members: Seq<(Seq<char>, JsonView)>, n: int, m: int, uri: Seq<char>)
    requires
        0 <= n <= m <= members.len(),
        location_uris_of_members(members, n).contains(uri),
    ensures
        location_uris_of_members(members, m).contains(uri),
    decreases m - n,
{
    if n < m {
        lemma_members_grow(members, n, m - 1, uri);
        let earlier = location_uris_of_members(members, m - 1);
        let last = members[m - 1];
        lemma_contains_left(earlier, location_uris(last.1));
        if let JsonView::Str(found) = last.1 {
            lemma_contains_left(earlier, seq![found]);
            assert(earlier + seq![found] =~= earlier.push(found));
        }
    }
}

proof fn lemma_found_location(value: JsonView, uri: Seq<char>)
    requires
        location_uris(value).contains(uri),
    ensures
        "jdt://"@.is_prefix_of(uri),
        exists|path: Seq<int>, at: int| #[trigger] location_at(value, path, at, uri),
    decreases value, 1int,
{
    match value {
        JsonView::Array(items) => {
            lemma_found_in_items(value, items, items.len() as int, uri);
        },
        JsonView::Object(members) => {
            lemma_found_in_members(value, members, members.len() as int, uri);
        },
        _ => {},
    }
}

proof fn lemma_found_in_items(value: JsonView, items: Seq<JsonView>, n: int, uri: Seq<char>)
    requires
        value == JsonView::Array(items),
        0 <= n <= items.len(),
        location_uris_of_items(items, n).contains(uri),
    ensures
        "jdt://"@.is_prefix_of(uri),
        exists|path: Seq<int>, at: int| #[trigger] location_at(value, path, at, uri),
    decreases items, n,
{
    if n > 0 {
        let earlier = location_uris_of_items(items, n - 1);
        let all = location_uris_of_items(items, n);
        let k = choose|k: int| 0 <= k < all.len() && all[k] == uri;
        if k < earlier.len() {
            assert(earlier[k] == uri);
            lemma_found_in_items(value, items, n - 1, uri);
        } else {
            assert(location_uris(items[n - 1])[k - earlier.len()] == uri);
            lemma_found_location(items[n - 1], uri);
            let (path, at) = choose|path: Seq<int>, at: int| #[trigger]
                location_at(items[n - 1], path, at, uri);
            let longer = seq![n - 1] + path;
            assert(longer.drop_first() =~= path);
            assert(location_at(value, longer, at, uri));
        }
    }
}

proof fn lemma_found_in_members(
    value: JsonView,
    members: Seq<(Seq<char>, JsonView)>,
    n: int,
    uri: Seq<char>,
)
    requires
        value == JsonView::Object(members),
        0 <= n <= members.len(),
        location_uris_of_members(members, n).contains(uri),
    ensures
        "jdt://"@.is_prefix_of(uri),
        exists|path: Seq<int>, at: int| #[trigger] location_at(value, path, at, uri),
    decreases members, n,
{
    if n > 0 {
        let earlier = location_uris_of_members(members, n - 1);
        let all = location_uris_of_members(members, n);
        let last = members[n - 1];
        let k = choose|k: int| 0 <= k < all.len() && all[k] == uri;
        if k < earlier.len() {
            assert(earlier[k] == uri);
            lemma_found_in_members(value, members, n - 1, uri);
        } else if is_location_key(last.0) {
            assert(last.1 == JsonView::Str(uri));
            assert(uri.subrange(0, "jdt://"@.len() as int) == "jdt://"@);
            assert(location_at(value, Seq::empty(), n - 1, uri));
        } else {
            assert(location_uris(last.1)[k - earlier.len()] == uri);
            lemma_found_location(members[n - 1].1, uri);
            let (path, at) = choose|path: Seq<int>, at: int| #[trigger]
                location_at(last.1, path, at, uri);
            let longer = seq![n - 1] + path;
            assert(longer.drop_first() =~= path);
            assert(location_at(value, longer, at, uri));
        }
    }
}

/// A text under `uri` or `targetUri`, wherever it stands in the result of an answer, gives way to its
/// replacement where it has one, and stays otherwise.
pub proof fn lemma_locations_replaced(
    message: JsonView,
    path: Seq<int>,
    at: int,
    uri: Seq<char>,
    replacements: Table<String, String>,
)
    requires
        message.get("result"@) matches Some(result) && location_at(result, path, at, uri),
    ensures
        ({
            let after = rewritten_message(message, RewriteMode::Locations, replacements);
            &&& after.get("result"@) matches Some(result)
            &&& replacements@.contains_key(uri) ==> location_at(
                result,
                path,
                at,
                replacements@[uri],
            )
            &&& !replacements@.contains_key(uri) ==> location_at(result, path, at, uri)
        }),
{
    let result = message.get("result"@)->Some_0;
    json::lemma_get_replaced(message, "result"@, relocated(result, replacements@));
    lemma_relocated_at(result, path, replacements@);
}

/// Rewriting the locations of an answer changes nothing but texts under `uri` and `targetUri` in its
/// result: whatever a path leads to stays what it is, arrays and objects keep their size, and members
/// their keys. The other members of the answer stay.
pub proof fn lemma_only_locations_replaced(
    message: JsonView,
    path: Seq<int>,
    key: Seq<char>,
    replacements: Table<String, String>,
)
    ensures
        ({
            let after = rewritten_message(message, RewriteMode::Locations, replacements);
            &&& key != "result"@ ==> after.get(key) == message.get(key)
            &&& message.get("result"@) is None ==> after == message
            &&& message.get("result"@) matches Some(result) ==> {
                &&& after.get("result"@) matches Some(rewritten)
                &&& match (found_at(result, path), found_at(rewritten, path)) {
                    (Some(JsonView::Array(items)), Some(JsonView::Array(others))) => items.len()
                        == others.len(),
                    (Some(JsonView::Object(members)), Some(JsonView::Object(others))) => {
                        &&& members.len() == others.len()
                        &&& forall|i: int|
                            0 <= i < members.len() ==> (#[trigger] members[i]).0 == others[i].0
                        &&& forall|i: int|
                            0 <= i < members.len() && ((#[trigger] members[i]).0 == "uri"@
                                || members[i].0 == "targetUri"@) && !(members[i].1 is Str)
                                ==> others[i] == members[i]
                    },
                    (before, afterwards) => before == afterwards,
                }
            }
        }),
{
    json::lemma_get_kept(message, "result"@, key);
    if let Some(result) = message.get("result"@) {
        json::lemma_get_replaced(message, "result"@, relocated(result, replacements@));
        lemma_relocated_at(result, path, replacements@);
    }
}

proof fn lemma_relocated_at(
    value: JsonView,
    path: Seq<int>,
    replacements: Map<Seq<char>, Seq<char>>,
)
    ensures
        found_at(relocated(value, replacements), path) == match found_at(value, path) {
            Some(inner) => Some(relocated(inner, replacements)),
            None => None,
        },
    decreases path.len(),
{
    if path.len() > 0 {
        match value {
            JsonView::Array(items) => if 0 <= path[0] < items.len() {
                lemma_relocated_at(items[path[0]], path.drop_first(), replacements);
            },
            JsonView::Object(members) => if 0 <= path[0] < members.len() {
                let member = members[path[0]];
                assert(relocated(value, replacements)->Object_0[path[0]].0 == member.0);
                if !is_location_key(member.0) {
                    lemma_relocated_at(member.1, path.drop_first(), replacements);
                }
            },
            _ => {},
        }
    }
}

/// The text to which `path` leads from `value`, whatever it goes through.
pub open spec fn string_at(value: JsonView, path: Seq<int>) -> Option<Seq<char>>
    decreases path.len(),
{
    if path.len() == 0 {
        value.as_str()
    } else {
        match value {
            JsonView::Array(items) => if 0 <= path[0] < items.len() {
                string_at(items[path[0]], path.drop_first())
            } else {
                None
            },
            JsonView::Object(members) => if 0 <= path[0] < members.len() {
                string_at(members[path[0]].1, path.drop_first())
            } else {
                None
            },
            _ => None,
        }
    }
}

/// `c` is white space, or closes what a URI can stand in.
pub open spec fn closes(c: char) -> bool {
    text::is_whitespace(c) || seq![')', ']', '"', '>', '`', '\''].contains(c)
}

/// A `jdt://...` in a text goes as far as the next white space, closing bracket or quotation mark, or
/// the end; what comes after it is searched alike.
pub proof fn lemma_first_uri_in_text(start: Seq<char>, rest: Seq<char>, end: Seq<char>)
    requires
        forall|i: int|
            0 <= i < start.len() ==> !#[trigger] text::occurs_at(
                start + ("jdt://"@ + rest) + end,
                "jdt://"@,
                i,
            ),
        forall|i: int| 0 <= i < rest.len() ==> !closes(#[trigger] rest[i]),
        end.len() > 0 ==> closes(end[0]),
    ensures
        uris_in_text(start + ("jdt://"@ + rest) + end) == seq!["jdt://"@ + rest] + uris_in_text(
            end,
        ),
{
    let uri = "jdt://"@ + rest;
    let whole = start + uri + end;
    reveal_strlit("jdt://");
    assert(whole.subrange(start.len() as int, (start.len() + 6) as int) =~= "jdt://"@);
    assert(text::occurs_at(whole, "jdt://"@, start.len() as int));
    text::lemma_find_from(whole, "jdt://"@, 0);
    assert(text::find_from(whole, "jdt://"@, 0) == Some(start.len() as int));
    let tail = whole.skip(start.len() as int);
    assert(tail =~= uri + end);
    assert forall|c: char| #[trigger] closes(c) == ends_uri(c) by {
        let all = seq![')', ']', '"', '>', '`', '\''];
        assert(all[0] == ')' && all[1] == ']' && all[2] == '"' && all[3] == '>' && all[4] == '`'
            && all[5] == '\'');
        if all.contains(c) {
            let i = choose|i: int| 0 <= i < all.len() && all[i] == c;
        }
    }
    assert forall|i: int| 0 <= i < uri.len() implies !ends_uri(#[trigger] uri[i]) by {
        if i >= 6 {
            assert(!closes(rest[i - 6]));
        }
    }
    assert(end.len() > 0 ==> ends_uri(end[0]));
    lemma_uri_end_is(uri, end);
    assert(tail.take(uri.len() as int) =~= uri);
    assert(tail.skip(uri.len() as int) =~= end);
}

proof fn lemma_uri_end_is(uri: Seq<char>, end: Seq<char>)
    requires
        forall|i: int| 0 <= i < uri.len() ==> !ends_uri(#[trigger] uri[i]),
        end.len() > 0 ==> ends_uri(end[0]),
    ensures
        uri_end(uri + end) == uri.len(),
    decreases uri.len(),
{
    if uri.len() > 0 {
        assert((uri + end).drop_first() =~= uri.drop_first() + end);
        assert forall|i: int| 0 <= i < uri.drop_first().len() implies !ends_uri(
            #[trigger] uri.drop_first()[i],
        ) by {
            assert(!ends_uri(uri[i + 1]));
        }
        assert((uri + end)[0] == uri[0]);
        lemma_uri_end_is(uri.drop_first(), end);
    } else {
        assert(uri + end =~= end);
    }
}

/// A text in which `jdt://` does not stand has no URI.
pub proof fn lemma_no_uri_in_text(s: Seq<char>)
    requires
        !text::contains_text(s, "jdt://"@),
    ensures
        uris_in_text(s) == Seq::<Seq<char>>::empty(),
{
    text::lemma_find_from(s, "jdt://"@, 0);
}

/// The class sources that are needed to rewrite the texts of an answer are those that are named in
/// some text of its result, each once.
pub proof fn lemma_texts_needed(message: JsonView, uri: Seq<char>)
    ensures
        needed_uris(message, RewriteMode::Strings).no_duplicates(),
        needed_uris(message, RewriteMode::Strings).contains(uri) <==> (message.get(
            "result"@,
        ) matches Some(result) && exists|path: Seq<int>| #[trigger]
            string_at(result, path) matches Some(s) && uris_in_text(s).contains(uri)),
{
    if let Some(result) = message.get("result"@) {
        lemma_with_new(Seq::empty(), text_uris(result));
        if text_uris(result).contains(uri) {
            lemma_uri_in_some_text(result, uri);
        }
        if exists|path: Seq<int>| #[trigger]
            string_at(result, path) matches Some(s) && uris_in_text(s).contains(uri) {
            let path = choose|path: Seq<int>| #[trigger]
                string_at(result, path) matches Some(s) && uris_in_text(s).contains(uri);
            lemma_text_searched(result, path, uri);
        }
    }
}

proof fn lemma_text_searched(value: JsonView, path: Seq<int>, uri: Seq<char>)
    requires
        string_at(value, path) matches Some(s) && uris_in_text(s).contains(uri),
    ensures
        text_uris(value).contains(uri),
    decreases path.len(),
{
    if path.len() > 0 {
        let i = path[0];
        match value {
            JsonView::Array(items) => {
                lemma_text_searched(items[i], path.drop_first(), uri);
                lemma_contains_left(text_uris_of_items(items, i), text_uris(items[i]));
                lemma_text_items_grow(items, i + 1, items.len() as int, uri);
            },
            JsonView::Object(members) => {
                lemma_text_searched(members[i].1, path.drop_first(), uri);
                lemma_contains_left(text_uris_of_members(members, i), text_uris(members[i].1));
                lemma_text_members_grow(members, i + 1, members.len() as int, uri);
            },
            _ => {},
        }
    }
}

proof fn lemma_text_items_grow(items: Seq<JsonView>, n: int, m: int, uri: Seq<char>)
    requires
        0 <= n <= m <= items.len(),
        text_uris_of_items(items, n).contains(uri),
    ensures
        text_uris_of_items(items, m).contains(uri),
    decreases m - n,
{
    if n < m {
        lemma_text_items_grow(items, n, m - 1, uri);
        lemma_contains_left(text_uris_of_items(items, m - 1), text_uris(items[m - 1]));
    }
}

proof fn lemma_text_members_grow(
    members: Seq<(Seq<char>, JsonView)>,
    n: int,
    m: int,
    uri: Seq<char>,
)
    requires
        0 <= n <= m <= members.len(),
        text_uris_of_members(members, n).contains(uri),
    ensures
        text_uris_of_members(members, m).contains(uri),
    decreases m - n,
{
    if n < m {
        lemma_text_members_grow(members, n, m - 1, uri);
        lemma_contains_left(text_uris_of_members(members, m - 1), text_uris(members[m - 1].1));
    }
}

proof fn lemma_uri_in_some_text(value: JsonView, uri: Seq<char>)
    requires
        text_uris(value).contains(uri),
    ensures
        exists|path: Seq<int>| #[trigger]
            string_at(value, path) matches Some(s) && uris_in_text(s).contains(uri),
    decreases value, 1int,
{
    match value {
        JsonView::Str(s) => {
            assert(string_at(value, Seq::empty()) == Some(s));
        },
        JsonView::Array(items) => {
            lemma_uri_in_some_item(value, items, items.len() as int, uri);
        },
        JsonView::Object(members) => {
            lemma_uri_in_some_member(value, members, members.len() as int, uri);
        },
        _ => {},
    }
}

proof fn lemma_uri_in_some_item(value: JsonView, items: Seq<JsonView>, n: int, uri: Seq<char>)
    requires
        value == JsonView::Array(items),
        0 <= n <= items.len(),
        text_uris_of_items(items, n).contains(uri),
    ensures
        exists|path: Seq<int>| #[trigger]
            string_at(value, path) matches Some(s) && uris_in_text(s).contains(uri),
    decreases items, n,
{
    if n > 0 {
        let earlier = text_uris_of_items(items, n - 1);
        let all = text_uris_of_items(items, n);
        let k = choose|k: int| 0 <= k < all.len() && all[k] == uri;
        if k < earlier.len() {
            assert(earlier[k] == uri);
            lemma_uri_in_some_item(value, items, n - 1, uri);
        } else {
            assert(text_uris(items[n - 1])[k - earlier.len()] == uri);
            lemma_uri_in_some_text(items[n - 1], uri);
            let path = choose|path: Seq<int>| #[trigger]
                string_at(items[n - 1], path) matches Some(s) && uris_in_text(s).contains(uri);
            let longer = seq![n - 1] + path;
            assert(longer.drop_first() =~= path);
            assert(string_at(value, longer) == string_at(items[n - 1], path));
        }
    }
}

proof fn lemma_uri_in_some_member(
    value: JsonView,
    members: Seq<(Seq<char>, JsonView)>,
    n: int,
    uri: Seq<char>,
)
    requires
        value == JsonView::Object(members),
        0 <= n <= members.len(),
        text_uris_of_members(members, n).contains(uri),
    ensures
        exists|path: Seq<int>| #[trigger]
            string_at(value, path) matches Some(s) && uris_in_text(s).contains(uri),
    decreases members, n,
{
    if n > 0 {
        let earlier = text_uris_of_members(members, n - 1);
        let all = text_uris_of_members(members, n);
        let k = choose|k: int| 0 <= k < all.len() && all[k] == uri;
        if k < earlier.len() {
            assert(earlier[k] == uri);
            lemma_uri_in_some_member(value, members, n - 1, uri);
        } else {
            assert(text_uris(members[n - 1].1)[k - earlier.len()] == uri);
            lemma_uri_in_some_text(members[n - 1].1, uri);
            let path = choose|path: Seq<int>| #[trigger]
                string_at(members[n - 1].1, path) matches Some(s) && uris_in_text(s).contains(uri);
            let longer = seq![n - 1] + path;
            assert(longer.drop_first() =~= path);
            assert(string_at(value, longer) == string_at(members[n - 1].1, path));
        }
    }
}

/// `after` comes from `before` by putting each replacement in place of its URI in turn.
pub open spec fn replaced_in_turn(
    before: Seq<char>,
    after: Seq<char>,
    replacements: Table<String, String>,
) -> bool {
    exists|stages: Seq<Seq<char>>|
        {
            &&& #[trigger] stages.len() == replacements.entries@.len() + 1
            &&& stages[0] == before
            &&& stages.last() == after
            &&& forall|i: int|
                0 <= i < replacements.entries@.len() ==> stages[i + 1] == text::replace_all(
                    stages[i],
                    (#[trigger] replacements.entries@[i]).0@,
                    replacements.entries@[i].1@,
                )
        }
}

/// Rewriting the texts of an answer puts each replacement in place of its URI in every text of the
/// result, wherever it stands. The other members of the answer stay.
pub proof fn lemma_texts_replaced(
    message: JsonView,
    path: Seq<int>,
    key: Seq<char>,
    replacements: Table<String, String>,
)
    ensures
        ({
            let after = rewritten_message(message, RewriteMode::Strings, replacements);
            &&& key != "result"@ ==> after.get(key) == message.get(key)
            &&& message.get("result"@) is None ==> after == message
            &&& message.get("result"@) matches Some(result) ==> {
                &&& after.get("result"@) matches Some(rewritten)
                &&& match (string_at(result, path), string_at(rewritten, path)) {
                    (Some(before), Some(afterwards)) => replaced_in_turn(
                        before,
                        afterwards,
                        replacements,
                    ),
                    (None, None) => true,
                    _ => false,
                }
            }
        }),
{
    json::lemma_get_kept(message, "result"@, key);
    let all = pairs(replacements.entries@);
    if let Some(result) = message.get("result"@) {
        json::lemma_get_replaced(message, "result"@, strings_replaced(result, all));
        lemma_strings_replaced_at(result, path, all);
        if let Some(before) = string_at(result, path) {
            let stages = Seq::new(all.len() + 1, |i: int| text_replaced(before, all, i));
            assert forall|i: int| 0 <= i < replacements.entries@.len() implies stages[i + 1]
                == text::replace_all(
                stages[i],
                (#[trigger] replacements.entries@[i]).0@,
                replacements.entries@[i].1@,
            ) by {
                assert(all[i] == (replacements.entries@[i].0@, replacements.entries@[i].1@));
            }
            assert(stages.len() == replacements.entries@.len() + 1);
        }
    }
}

proof fn lemma_strings_replaced_at(
    value: JsonView,
    path: Seq<int>,
    all: Seq<(Seq<char>, Seq<char>)>,
)
    ensures
        string_at(strings_replaced(value, all), path) == match string_at(value, path) {
            Some(s) => Some(text_replaced(s, all, all.len() as int)),
            None => None,
        },
    decreases path.len(),
{
    if path.len() > 0 {
        match value {
            JsonView::Array(items) => if 0 <= path[0] < items.len() {
                lemma_strings_replaced_at(items[path[0]], path.drop_first(), all);
            },
            JsonView::Object(members) => if 0 <= path[0] < members.len() {
                lemma_strings_replaced_at(members[path[0]].1, path.drop_first(), all);
            },
            _ => {},
        }
    }
}

} // verus!
