//! Completion items as the editor can use them.

use crate::json::{Json, JsonView};
use crate::json;
use crate::text;
use vstd::prelude::*;
use vstd::slice::*;
use vstd::string::*;

verus! {

/// How many angle brackets are open at the end of `s`.
pub open spec fn angle_depth(s: Seq<char>) -> int
    decreases s.len(),
{
    if s.len() == 0 {
        0
    } else if s.last() == '<' {
        angle_depth(s.drop_last()) + 1
    } else if s.last() == '>' {
        angle_depth(s.drop_last()) - 1
    } else {
        angle_depth(s.drop_last())
    }
}

/// How many commas of `s` stand outside angle brackets.
pub open spec fn outer_commas(s: Seq<char>) -> int
    decreases s.len(),
{
    if s.len() == 0 {
        0
    } else if s.last() == ',' && angle_depth(s.drop_last()) == 0 {
        outer_commas(s.drop_last()) + 1
    } else {
        outer_commas(s.drop_last())
    }
}

/// How many parameters the list `detail` has; none where it is no list in parentheses.
pub open spec fn param_count(detail: Seq<char>) -> int {
    if detail.len() >= 2 && detail[0] == '(' && detail.last() == ')' {
        let inner = text::trim(detail.subrange(1, detail.len() - 1));
        if inner.len() == 0 {
            0
        } else {
            1 + outer_commas(inner)
        }
    } else {
        0
    }
}

/// How many parameters the list `detail` has; none where it is no list in parentheses.
pub fn count_params(detail: &str) -> (r: usize)
    ensures
        r == param_count(detail@),
{
    let chars = text::chars_of(detail);
    let length: usize = chars.len();
    if length < 2 || chars[0] != '(' || chars[length - 1] != ')' {
        return 0;
    }
    let inner = text::trimmed(slice_subrange(&chars, 1, length - 1));
    proof {
        text::lemma_trim_len(detail@.subrange(1, detail@.len() - 1));
    }
    if inner.len() == 0 {
        return 0;
    }
    let mut count: usize = 1;
    let mut depth: i128 = 0;
    let mut i: usize = 0;
    assert(inner@.take(0) =~= Seq::empty());
    while i < inner.len()
        invariant
            i <= inner@.len() < usize::MAX,
            -i <= depth <= i,
            1 <= count <= i + 1,
            depth == angle_depth(inner@.take(i as int)),
            count == 1 + outer_commas(inner@.take(i as int)),
        decreases inner@.len() - i,
    {
        assert(inner@.take(i + 1).drop_last() =~= inner@.take(i as int));
        let c = inner[i];
        if c == '<' {
            depth += 1;
        } else if c == '>' {
            depth -= 1;
        } else if c == ',' && depth == 0 {
            count += 1;
        }
        i += 1;
    }
    assert(inner@.take(i as int) =~= inner@);
    count
}

/// `n` in decimal, with at least two digits.
pub open spec fn two_digits(n: nat) -> Seq<char> {
    if n < 10 {
        seq!['0'] + text::decimal(n)
    } else {
        text::decimal(n)
    }
}

/// The placeholder for the selected text, which the editor does not know.
pub open spec fn selection() -> Seq<char> {
    "$TM_SELECTED_TEXT"@
}

/// `item` without the placeholder in its member `key`.
pub open spec fn stripped(item: JsonView, key: Seq<char>) -> JsonView {
    match item.get(key) {
        Some(JsonView::Str(s)) => item.with(
            key,
            JsonView::Str(text::replace_all(s, selection(), ""@)),
        ),
        _ => item,
    }
}

/// `item` without the placeholder in its edit.
pub open spec fn edit_stripped(item: JsonView) -> JsonView {
    match item.get("textEdit"@) {
        Some(edit) => item.with("textEdit"@, stripped(edit, "newText"@)),
        None => item,
    }
}

/// `item` without the placeholder wherever it would be inserted.
pub open spec fn cleaned_item(item: JsonView) -> JsonView {
    edit_stripped(stripped(stripped(item, "textEditText"@), "insertText"@))
}

/// What the member `key` of `item` holds, where it is a number.
pub open spec fn number_at(item: JsonView, key: Seq<char>) -> Option<u64> {
    match item.get(key) {
        Some(value) => value.as_u64(),
        None => None,
    }
}

/// What the member `key` of `item` holds, where it is a text.
pub open spec fn text_at(item: JsonView, key: Seq<char>) -> Option<Seq<char>> {
    match item.get(key) {
        Some(value) => value.as_str(),
        None => None,
    }
}

/// The parameter list of the item.
pub open spec fn item_detail(item: JsonView) -> Seq<char> {
    match item.get2("labelDetails"@, "detail"@) {
        Some(JsonView::Str(detail)) => detail,
        _ => ""@,
    }
}

/// The text by which the item is sorted already.
pub open spec fn existing_sort_text(item: JsonView) -> Seq<char> {
    match text_at(item, "sortText"@) {
        Some(s) => s,
        None => ""@,
    }
}

/// `item`, sorted after those with fewer parameters.
pub open spec fn sorted_item(item: JsonView) -> JsonView {
    item.set(
        "sortText"@,
        JsonView::Str(
            two_digits(param_count(item_detail(item)) as nat) + existing_sort_text(item),
        ),
    )
}

/// The item is a method (2) or a function (3).
pub open spec fn is_callable(kind: Option<u64>) -> bool {
    kind == Some(2u64) || kind == Some(3u64)
}

/// The item with the changes that the editor needs: a method or function sorts by its number of
/// parameters, and a snippet holds no placeholder that the editor does not know. An item is a
/// snippet where its kind says so (15) or its format does (2), which is `default_format` where
/// the item does not give one.
pub open spec fn processed_item(item: JsonView, default_format: Option<u64>) -> JsonView {
    let kind = number_at(item, "kind"@);
    let placed = if is_callable(kind) {
        sorted_item(item)
    } else {
        item
    };
    let format = match number_at(placed, "insertTextFormat"@) {
        Some(format) => Some(format),
        None => default_format,
    };
    if kind == Some(15u64) || format == Some(2u64) {
        cleaned_item(placed)
    } else {
        placed
    }
}

/// Each item of `items`, processed.
pub open spec fn processed_items(items: Seq<JsonView>, default_format: Option<u64>) -> Seq<
    JsonView,
> {
    items.map_values(|item: JsonView| processed_item(item, default_format))
}

/// The format of the items of the answer that do not give one.
pub open spec fn default_format(message: JsonView) -> Option<u64> {
    match message.get2("result"@, "itemDefaults"@) {
        Some(defaults) => number_at(defaults, "insertTextFormat"@),
        None => None,
    }
}

/// The answer with its items processed, which are its result or the member `items` of that.
pub open spec fn processed_message(message: JsonView) -> JsonView {
    match message.get("result"@) {
        Some(JsonView::Array(items)) => message.with(
            "result"@,
            JsonView::Array(processed_items(items, default_format(message))),
        ),
        Some(result) => match result.get("items"@) {
            Some(JsonView::Array(items)) => message.with(
                "result"@,
                result.with(
                    "items"@,
                    JsonView::Array(processed_items(items, default_format(message))),
                ),
            ),
            _ => message,
        },
        None => message,
    }
}

/// The answer with its one item cleaned.
pub open spec fn sanitized_message(message: JsonView) -> JsonView {
    match message.get("result"@) {
        Some(item) => message.with("result"@, cleaned_item(item)),
        None => message,
    }
}

fn strip_tm_selected_text(item: &mut Json, key: &str)
    ensures
        final(item)@ == stripped(old(item)@, key@),
{
    let stripped = match item.get(key) {
        Some(Json::Str(s)) => {
            let chars = text::chars_of(s.as_str());
            let placeholder = text::chars_of("$TM_SELECTED_TEXT");
            let nothing = text::chars_of("");
            Some(text::string_of(&text::replace_text(&chars, &placeholder, &nothing)))
        },
        _ => None,
    };
    if let Some(stripped) = stripped {
        if let Some(value) = item.get_mut(key) {
            *value = Json::Str(stripped);
        }
    }
}

fn sanitize_completion_item(item: &mut Json)
    ensures
        final(item)@ == cleaned_item(old(item)@),
{
    strip_tm_selected_text(item, "textEditText");
    strip_tm_selected_text(item, "insertText");
    if let Some(edit) = item.get_mut("textEdit") {
        strip_tm_selected_text(edit, "newText");
    }
}

fn number_of(item: &Json, key: &str) -> (r: Option<u64>)
    ensures
        r == number_at(item@, key@),
{
    match item.get(key) {
        Some(value) => value.as_u64(),
        None => None,
    }
}

fn sort_by_parameters(item: &mut Json)
    requires
        old(item)@ is Object,
    ensures
        final(item)@ == sorted_item(old(item)@),
{
    let count = match item.get2("labelDetails", "detail") {
        Some(Json::Str(detail)) => count_params(detail.as_str()),
        _ => count_params(""),
    };
    let mut sort_text = String::new();
    if count < 10 {
        sort_text.append("0");
    }
    proof {
        reveal_strlit("0");
        reveal_strlit("");
    }
    sort_text.append(text::string_of(&text::decimal_chars(count as u64)).as_str());
    assert(sort_text@ =~= two_digits(count as nat));
    if let Some(Json::Str(existing)) = item.get("sortText") {
        sort_text.append(existing.as_str());
    } else {
        assert(sort_text@ + ""@ =~= sort_text@);
    }
    item.set("sortText", Json::Str(sort_text));
}

fn process_item(item: &mut Json, default_format: Option<u64>)
    ensures
        final(item)@ == processed_item(old(item)@, default_format),
{
    let kind = match number_of(item, "kind") {
        Some(kind) => kind,
        None => 0,
    };
    if kind == 2 || kind == 3 {
        sort_by_parameters(item);
    }
    let format = match number_of(item, "insertTextFormat") {
        Some(format) => Some(format),
        None => default_format,
    };
    let snippet = match format {
        Some(format) => format == 2,
        None => false,
    };
    if kind == 15 || snippet {
        sanitize_completion_item(item);
    }
}

fn process_items(items: &mut Vec<Json>, default_format: Option<u64>)
    ensures
        json::items_view(final(items)@) == processed_items(
            json::items_view(old(items)@),
            default_format,
        ),
{
    let ghost before = items@;
    let n: usize = items.len();
    let mut i: usize = 0;
    while i < n
        invariant
            i <= n == items@.len() == before.len(),
            forall|j: int|
                0 <= j < i ==> (#[trigger] items@[j])@ == processed_item(
                    before[j]@,
                    default_format,
                ),
            forall|j: int| i <= j < n ==> items@[j] == before[j],
        decreases n - i,
    {
        process_item(&mut items[i], default_format);
        i += 1;
    }
    assert(json::items_view(items@) =~= processed_items(json::items_view(before), default_format));
}

/// Makes the completion items of the answer `message` what the editor can use: methods and
/// functions sort by their number of parameters, and snippets hold no placeholder for the
/// selected text.
pub fn process_completions(message: &mut Json)
    ensures
        final(message)@ == processed_message(old(message)@),
{
    broadcast use json::group_json_views;

    let default_format = match message.get2("result", "itemDefaults") {
        Some(defaults) => number_of(defaults, "insertTextFormat"),
        None => None,
    };
    let ghost before = message@;
    proof {
        json::lemma_replaced_by_itself(before, "result"@);
        if let Some(result) = before.get("result"@) {
            json::lemma_replaced_by_itself(result, "items"@);
        }
    }
    match message.get_mut("result") {
        Some(Json::Array(items)) => {
            process_items(items, default_format);
        },
        Some(result) => match result.get_mut("items") {
            Some(Json::Array(items)) => {
                process_items(items, default_format);
            },
            _ => {},
        },
        None => {},
    }
}

/// Takes the placeholder for the selected text out of the one completion item that the answer
/// `message` holds.
pub fn sanitize_resolved_completion(message: &mut Json)
    ensures
        final(message)@ == sanitized_message(old(message)@),
{
    if let Some(result) = message.get_mut("result") {
        sanitize_completion_item(result);
    }
}

/// Numbers of two digits are ordered as their texts are, whatever follows.
proof fn lemma_two_digits_ordered(a: nat, b: nat, rest_a: Seq<char>, rest_b: Seq<char>)
    requires
        a < b < 100,
    ensures
        text::text_before(two_digits(a) + rest_a, two_digits(b) + rest_b),
{
    let left = two_digits(a) + rest_a;
    let right = two_digits(b) + rest_b;
    reveal_with_fuel(text::decimal, 3);
    reveal_with_fuel(text::text_before, 3);
    assert(left[0] == text::digit((a / 10) as int) && left[1] == text::digit((a % 10) as int));
    assert(right[0] == text::digit((b / 10) as int) && right[1] == text::digit((b % 10) as int));
    assert(left.drop_first()[0] == left[1]);
    assert(right.drop_first()[0] == right[1]);
}

/// A member that takes the place of another with the same key leaves the others as they were.
proof fn lemma_get_after_with(item: JsonView, key: Seq<char>, value: JsonView, other: Seq<char>)
    requires
        key != other,
        item.get(key) is Some,
    ensures
        item.with(key, value).get(other) == item.get(other),
{
    if let JsonView::Object(members) = item {
        let at = json::key_index(members, key);
        json::lemma_key_index(members, key);
        json::lemma_key_index(members, other);
        let after = members.update(at, (key, value));
        json::lemma_key_index_is(after, other, json::key_index(members, other));
        json::lemma_key_index(after, other);
    }
}

/// Removing placeholders does not touch how the item is sorted.
proof fn lemma_cleaned_keeps_sort_text(item: JsonView)
    ensures
        cleaned_item(item).get("sortText"@) == item.get("sortText"@),
{
    reveal_strlit("sortText");
    reveal_strlit("textEditText");
    reveal_strlit("insertText");
    reveal_strlit("textEdit");
    let sort = "sortText"@;
    let once = stripped(item, "textEditText"@);
    let twice = stripped(once, "insertText"@);
    assert("insertText"@.len() != sort.len());
    assert("textEdit"@[0] != sort[0]);
    if let Some(JsonView::Str(s)) = item.get("textEditText"@) {
        lemma_get_after_with(
            item,
            "textEditText"@,
            JsonView::Str(text::replace_all(s, selection(), ""@)),
            sort,
        );
    }
    if let Some(JsonView::Str(s)) = once.get("insertText"@) {
        lemma_get_after_with(
            once,
            "insertText"@,
            JsonView::Str(text::replace_all(s, selection(), ""@)),
            sort,
        );
    }
    if let Some(edit) = twice.get("textEdit"@) {
        lemma_get_after_with(twice, "textEdit"@, stripped(edit, "newText"@), sort);
    }
}

/// Of two callable items with less than a hundred parameters, the editor puts the one with fewer
/// first, whatever else they hold.
pub proof fn lemma_fewer_parameters_first(a: JsonView, b: JsonView, default_format: Option<u64>)
    requires
        is_callable(number_at(a, "kind"@)),
        is_callable(number_at(b, "kind"@)),
        param_count(item_detail(a)) < param_count(item_detail(b)) < 100,
    ensures
        ({
            let first = text_at(processed_item(a, default_format), "sortText"@);
            let second = text_at(processed_item(b, default_format), "sortText"@);
            first is Some && second is Some && text::text_before(first->Some_0, second->Some_0)
        }),
{
    lemma_sort_text(a, default_format);
    lemma_sort_text(b, default_format);
    lemma_param_count(item_detail(a));
    lemma_two_digits_ordered(
        param_count(item_detail(a)) as nat,
        param_count(item_detail(b)) as nat,
        existing_sort_text(a),
        existing_sort_text(b),
    );
}

/// A callable item is sorted by its number of parameters, then as before.
proof fn lemma_sort_text(item: JsonView, default_format: Option<u64>)
    requires
        is_callable(number_at(item, "kind"@)),
    ensures
        text_at(processed_item(item, default_format), "sortText"@) == Some(
            two_digits(param_count(item_detail(item)) as nat) + existing_sort_text(item),
        ),
{
    let value = JsonView::Str(
        two_digits(param_count(item_detail(item)) as nat) + existing_sort_text(item),
    );
    json::lemma_get_after_set(item, "sortText"@, value, "sortText"@);
    lemma_cleaned_keeps_sort_text(sorted_item(item));
}

proof fn lemma_outer_commas(s: Seq<char>)
    ensures
        0 <= outer_commas(s),
    decreases s.len(),
{
    if s.len() > 0 {
        lemma_outer_commas(s.drop_last());
    }
}

proof fn lemma_param_count(detail: Seq<char>)
    ensures
        0 <= param_count(detail),
{
    if detail.len() >= 2 {
        lemma_outer_commas(text::trim(detail.subrange(1, detail.len() - 1)));
    }
}

/// A text from which a placeholder is taken out: what is before its first occurrence stays, and what
/// is after it is treated alike.
pub proof fn lemma_placeholder_taken_out(start: Seq<char>, end: Seq<char>)
    requires
        !text::contains_text(start, "$TM_SELECTED_TEXT"@),
    ensures
        text::replace_all(start + "$TM_SELECTED_TEXT"@ + end, "$TM_SELECTED_TEXT"@, ""@) == start
            + text::replace_all(end, "$TM_SELECTED_TEXT"@, ""@),
{
    let placeholder = "$TM_SELECTED_TEXT"@;
    reveal_strlit("$TM_SELECTED_TEXT");
    reveal_strlit("");
    let whole = start + placeholder + end;
    assert forall|i: int| 0 <= i < start.len() implies !#[trigger] text::occurs_at(
        whole,
        placeholder,
        i,
    ) by {
        if text::occurs_at(whole, placeholder, i) {
            let found = whole.subrange(i, i + placeholder.len());
            if i + placeholder.len() <= start.len() {
                assert(start.subrange(i, i + placeholder.len()) =~= found);
                assert(text::occurs_at(start, placeholder, i));
            } else {
                assert(found[start.len() - i] == '$');
                assert(placeholder[start.len() - i] != '$');
            }
        }
    }
    text::lemma_replace_first(start, placeholder, end, ""@);
    assert(start + ""@ =~= start);
}

/// Where a dollar sign stands in a text only as part of the placeholder, none is left of it.
pub proof fn lemma_no_placeholder_left(s: Seq<char>)
    requires
        forall|i: int|
            0 <= i < s.len() && #[trigger] s[i] == '$' ==> text::occurs_at(
                s,
                "$TM_SELECTED_TEXT"@,
                i,
            ),
    ensures
        !text::replace_all(s, "$TM_SELECTED_TEXT"@, ""@).contains('$'),
        !text::contains_text(
            text::replace_all(s, "$TM_SELECTED_TEXT"@, ""@),
            "$TM_SELECTED_TEXT"@,
        ),
    decreases s.len(),
{
    let placeholder = "$TM_SELECTED_TEXT"@;
    let after = text::replace_all(s, placeholder, ""@);
    reveal_strlit("$TM_SELECTED_TEXT");
    reveal_strlit("");
    if s.len() > 0 {
        let n: int = if text::starts_with(s, placeholder) {
            placeholder.len() as int
        } else {
            1
        };
        let rest = s.skip(n);
        assert(s.drop_first() =~= s.skip(1));
        assert forall|i: int| 0 <= i < rest.len() && #[trigger] rest[i]
            == '$' implies text::occurs_at(rest, placeholder, i) by {
            assert(s[n + i] == '$');
            assert(rest.subrange(i, i + placeholder.len()) =~= s.subrange(
                n + i,
                n + i + placeholder.len(),
            ));
        }
        lemma_no_placeholder_left(rest);
        let others = text::replace_all(rest, placeholder, ""@);
        assert forall|i: int| 0 <= i < after.len() implies after[i] != '$' by {
            if text::starts_with(s, placeholder) {
                assert(after =~= others);
                assert(!(others[i] == '$'));
            } else if i > 0 {
                assert(after[i] == others[i - 1]);
            } else {
                assert(after[0] == s[0]);
            }
        }
    }
    if text::contains_text(after, placeholder) {
        let i = choose|i: int| #[trigger] text::occurs_at(after, placeholder, i);
        assert(after.subrange(i, i + placeholder.len())[0] == '$');
        assert(after[i] == '$');
    }
}

/// The completion items of the answer `message`: its result, or the member `items` of that.
pub open spec fn items_of(message: JsonView) -> Option<Seq<JsonView>> {
    match message.get("result"@) {
        Some(JsonView::Array(items)) => Some(items),
        Some(result) => match result.get("items"@) {
            Some(JsonView::Array(items)) => Some(items),
            _ => None,
        },
        None => None,
    }
}

/// The item is a snippet: its kind is 15, or its own format is 2, or it has no number as its format
/// and the answer `message` says that it is 2.
pub open spec fn is_snippet(message: JsonView, item: JsonView) -> bool {
    ||| item.get("kind"@) == Some(JsonView::Int(15))
    ||| item.get("insertTextFormat"@) == Some(JsonView::Int(2))
    ||| !(item.get("insertTextFormat"@) matches Some(JsonView::Int(n)) && 0 <= n <= u64::MAX) && (
    message.get2("result"@, "itemDefaults"@) matches Some(defaults) && defaults.get(
        "insertTextFormat"@,
    ) == Some(JsonView::Int(2)))
}

/// `after` is what `before` holds without the placeholder.
pub open spec fn taken_out(before: Option<JsonView>, after: Option<JsonView>) -> bool {
    match before {
        Some(JsonView::Str(s)) => after == Some(
            JsonView::Str(text::replace_all(s, "$TM_SELECTED_TEXT"@, ""@)),
        ),
        _ => after == before,
    }
}

/// `after` is `before` without the placeholder in the texts that it inserts, and with the same
/// members otherwise, but for the text by which it is sorted.
pub open spec fn cleaned(before: JsonView, after: JsonView) -> bool {
    &&& taken_out(before.get("insertText"@), after.get("insertText"@))
    &&& taken_out(before.get("textEditText"@), after.get("textEditText"@))
    &&& taken_out(before.get2("textEdit"@, "newText"@), after.get2("textEdit"@, "newText"@))
    &&& forall|key: Seq<char>|
        key != "newText"@ ==> before.get2("textEdit"@, key) == #[trigger] after.get2(
            "textEdit"@,
            key,
        )
    &&& before.get("textEdit"@) is Some <==> after.get("textEdit"@) is Some
    &&& forall|key: Seq<char>|
        key != "insertText"@ && key != "textEditText"@ && key != "textEdit"@ && key != "sortText"@
            ==> before.get(key) == #[trigger] after.get(key)
}

/// `after` has the same members as `before`, but for the text by which it is sorted.
pub open spec fn same_but_order(before: JsonView, after: JsonView) -> bool {
    forall|key: Seq<char>| key != "sortText"@ ==> before.get(key) == #[trigger] after.get(key)
}

/// The parameter list that the item shows.
pub open spec fn shown_parameters(item: JsonView) -> Seq<char> {
    match item.get2("labelDetails"@, "detail"@) {
        Some(JsonView::Str(detail)) => detail,
        _ => Seq::empty(),
    }
}

/// The text by which `after` is sorted is that of `before`, with the number of its parameters before
/// it, in at least two digits.
pub open spec fn sorted_by_parameters(before: JsonView, after: JsonView) -> bool {
    let count = param_count(shown_parameters(before)) as nat;
    let digits = if count < 10 {
        seq!['0'] + text::decimal(count)
    } else {
        text::decimal(count)
    };
    after.get("sortText"@) == Some(
        JsonView::Str(
            match before.get("sortText"@) {
                Some(JsonView::Str(existing)) => digits + existing,
                _ => digits,
            },
        ),
    )
}

/// Each completion item of an answer comes out in its place: a snippet without the placeholder in the
/// texts that it inserts, any other with these as they were; a method (2) or function (3) sorted by
/// its number of parameters first, any other sorted as it was; and with all its other members.
pub proof fn lemma_items_made_usable(message: JsonView, i: int)
    requires
        items_of(message) matches Some(items) && 0 <= i < items.len(),
    ensures
        ({
            let before = items_of(message)->Some_0;
            &&& items_of(processed_message(message)) matches Some(after)
            &&& after.len() == before.len()
            &&& is_snippet(message, before[i]) ==> cleaned(before[i], after[i])
            &&& !is_snippet(message, before[i]) ==> same_but_order(before[i], after[i])
            &&& before[i].get("kind"@) == Some(JsonView::Int(2)) || before[i].get("kind"@) == Some(
                JsonView::Int(3),
            ) ==> sorted_by_parameters(before[i], after[i])
            &&& before[i].get("kind"@) != Some(JsonView::Int(2)) && before[i].get("kind"@) != Some(
                JsonView::Int(3),
            ) ==> after[i].get("sortText"@) == before[i].get("sortText"@)
        }),
{
    let items = items_of(message)->Some_0;
    let format = default_format(message);
    let result = message.get("result"@)->Some_0;
    let done = JsonView::Array(processed_items(items, format));
    if result is Array {
        json::lemma_get_replaced(message, "result"@, done);
    } else {
        json::lemma_get_replaced(result, "items"@, done);
        json::lemma_get_replaced(message, "result"@, result.with("items"@, done));
    }
    lemma_item_made_usable(message, items[i]);
}

proof fn lemma_item_made_usable(message: JsonView, item: JsonView)
    ensures
        ({
            let after = processed_item(item, default_format(message));
            &&& is_snippet(message, item) ==> cleaned(item, after)
            &&& !is_snippet(message, item) ==> same_but_order(item, after)
            &&& item.get("kind"@) == Some(JsonView::Int(2)) || item.get("kind"@) == Some(
                JsonView::Int(3),
            ) ==> sorted_by_parameters(item, after)
            &&& item.get("kind"@) != Some(JsonView::Int(2)) && item.get("kind"@) != Some(
                JsonView::Int(3),
            ) ==> after.get("sortText"@) == item.get("sortText"@)
        }),
{
    reveal_strlit("sortText");
    reveal_strlit("insertTextFormat");
    reveal_strlit("insertText");
    reveal_strlit("textEditText");
    reveal_strlit("textEdit");
    reveal_strlit("");
    let kind = number_at(item, "kind"@);
    assert("insertText"@.len() == 10 && "textEditText"@.len() == 12 && "textEdit"@.len() == 8);
    assert("textEdit"@[0] == 't' && "sortText"@[0] == 's');
    let placed = if is_callable(kind) {
        sorted_item(item)
    } else {
        item
    };
    if is_callable(kind) {
        let value = JsonView::Str(
            two_digits(param_count(item_detail(item)) as nat) + existing_sort_text(item),
        );
        assert forall|key: Seq<char>| key != "sortText"@ implies item.get(key)
            == #[trigger] placed.get(key) by {
            json::lemma_get_after_set(item, "sortText"@, value, key);
        }
        json::lemma_get_after_set(item, "sortText"@, value, "sortText"@);
        let digits = two_digits(param_count(item_detail(item)) as nat);
        assert(item_detail(item) =~= shown_parameters(item));
        assert(digits + ""@ =~= digits);
    }
    assert(same_but_order(item, placed));
    assert(number_at(placed, "insertTextFormat"@) == number_at(item, "insertTextFormat"@));
    lemma_cleaned_item(placed);
    lemma_cleaned_keeps_sort_text(placed);
    let after = cleaned_item(placed);
    if is_snippet(message, item) {
        assert(processed_item(item, default_format(message)) == after);
        assert forall|key: Seq<char>|
            key != "newText"@ implies item.get2("textEdit"@, key) == #[trigger] after.get2(
            "textEdit"@,
            key,
        ) by {
            assert(item.get("textEdit"@) == placed.get("textEdit"@));
            assert(placed.get2("textEdit"@, key) == after.get2("textEdit"@, key));
        }
        assert(item.get("textEdit"@) == placed.get("textEdit"@));
        assert(item.get("insertText"@) == placed.get("insertText"@));
        assert(item.get("textEditText"@) == placed.get("textEditText"@));
    }
}

/// What `stripped` does to a member, and to the others.
proof fn lemma_stripped(item: JsonView, key: Seq<char>)
    ensures
        taken_out(item.get(key), stripped(item, key).get(key)),
        forall|other: Seq<char>|
            other != key ==> item.get(other) == #[trigger] stripped(item, key).get(other),
{
    if let Some(JsonView::Str(s)) = item.get(key) {
        let value = JsonView::Str(text::replace_all(s, selection(), ""@));
        json::lemma_get_replaced(item, key, value);
        assert forall|other: Seq<char>| other != key implies item.get(other)
            == #[trigger] stripped(item, key).get(other) by {
            lemma_get_after_with(item, key, value, other);
        }
    }
}

proof fn lemma_cleaned_item(item: JsonView)
    ensures
        cleaned(item, cleaned_item(item)),
{
    reveal_strlit("insertText");
    reveal_strlit("textEditText");
    reveal_strlit("textEdit");
    assert("insertText"@.len() == 10 && "textEditText"@.len() == 12 && "textEdit"@.len() == 8);
    let once = stripped(item, "textEditText"@);
    let twice = stripped(once, "insertText"@);
    let after = cleaned_item(item);
    lemma_stripped(item, "textEditText"@);
    lemma_stripped(once, "insertText"@);
    assert(twice.get("textEdit"@) == once.get("textEdit"@));
    assert(once.get("insertText"@) == item.get("insertText"@));
    assert(twice.get("textEditText"@) == once.get("textEditText"@));
    if let Some(edit) = twice.get("textEdit"@) {
        let value = stripped(edit, "newText"@);
        lemma_stripped(edit, "newText"@);
        json::lemma_get_replaced(twice, "textEdit"@, value);
        json::lemma_get_kept(twice, "textEdit"@, "insertText"@);
        json::lemma_get_kept(twice, "textEdit"@, "textEditText"@);
        assert forall|key: Seq<char>|
            key != "newText"@ implies item.get2("textEdit"@, key) == #[trigger] after.get2(
            "textEdit"@,
            key,
        ) by {
            assert(edit.get(key) == value.get(key));
        }
    }
    assert forall|key: Seq<char>|
        key != "insertText"@ && key != "textEditText"@ && key != "textEdit"@ && key
            != "sortText"@ implies item.get(key) == #[trigger] after.get(key) by {
        assert(item.get(key) == once.get(key));
        assert(once.get(key) == twice.get(key));
        if let Some(edit) = twice.get("textEdit"@) {
            lemma_get_after_with(twice, "textEdit"@, stripped(edit, "newText"@), key);
        }
    }
}

/// An answer without completion items stays as it is, and one with them keeps what else it holds: the
/// other members of the answer, and of its result where the items are a member of that.
pub proof fn lemma_rest_of_answer_kept(message: JsonView, key: Seq<char>)
    ensures
        items_of(message) is None ==> processed_message(message) == message,
        key != "result"@ ==> processed_message(message).get(key) == message.get(key),
        (message.get("result"@) matches Some(result) && !(result is Array)) && key != "items"@
            ==> processed_message(message).get2("result"@, key) == message.get2("result"@, key),
{
    json::lemma_get_kept(message, "result"@, key);
    if let Some(result) = message.get("result"@) {
        json::lemma_get_kept(result, "items"@, key);
        if items_of(message) is Some && !(result is Array) {
            let done = JsonView::Array(
                processed_items(items_of(message)->Some_0, default_format(message)),
            );
            json::lemma_get_replaced(message, "result"@, result.with("items"@, done));
        }
    }
}

/// The completion item that an answer holds comes out without the placeholder in the texts that it
/// inserts, and is sorted as before. The other members of the answer stay.
pub proof fn lemma_resolved_item_cleaned(message: JsonView, key: Seq<char>)
    ensures
        key != "result"@ ==> sanitized_message(message).get(key) == message.get(key),
        match (message.get("result"@), sanitized_message(message).get("result"@)) {
            (Some(before), Some(after)) => cleaned(before, after) && after.get("sortText"@)
                == before.get("sortText"@),
            (None, None) => true,
            _ => false,
        },
{
    json::lemma_get_kept(message, "result"@, key);
    if let Some(item) = message.get("result"@) {
        json::lemma_get_replaced(message, "result"@, cleaned_item(item));
        lemma_cleaned_item(item);
        lemma_cleaned_keeps_sort_text(item);
    }
}

/// How often `c` stands in `s`.
pub open spec fn occurrences(s: Seq<char>, c: char) -> nat
    decreases s.len(),
{
    if s.len() == 0 {
        0
    } else {
        occurrences(s.drop_last(), c) + if s.last() == c {
            1nat
        } else {
            0nat
        }
    }
}

proof fn lemma_depth(s: Seq<char>)
    ensures
        angle_depth(s) == occurrences(s, '<') - occurrences(s, '>'),
    decreases s.len(),
{
    if s.len() > 0 {
        lemma_depth(s.drop_last());
    }
}

proof fn lemma_occurrences_concat(a: Seq<char>, b: Seq<char>, c: char)
    ensures
        occurrences(a + b, c) == occurrences(a, c) + occurrences(b, c),
    decreases b.len(),
{
    if b.len() > 0 {
        assert((a + b).drop_last() =~= a + b.drop_last());
        lemma_occurrences_concat(a, b.drop_last(), c);
    } else {
        assert(a + b =~= a);
    }
}

proof fn lemma_outer_commas_concat(a: Seq<char>, b: Seq<char>)
    requires
        occurrences(a, '<') == occurrences(a, '>'),
    ensures
        outer_commas(a + b) == outer_commas(a) + outer_commas(b),
    decreases b.len(),
{
    if b.len() > 0 {
        assert((a + b).drop_last() =~= a + b.drop_last());
        lemma_outer_commas_concat(a, b.drop_last());
        lemma_depth(b.drop_last());
        lemma_depth(a + b.drop_last());
        lemma_occurrences_concat(a, b.drop_last(), '<');
        lemma_occurrences_concat(a, b.drop_last(), '>');
    } else {
        assert(a + b =~= a);
    }
}

proof fn lemma_blank_has_no_commas(s: Seq<char>)
    requires
        text::is_blank(s),
    ensures
        outer_commas(s) == 0,
        occurrences(s, '<') == 0,
        occurrences(s, '>') == 0,
    decreases s.len(),
{
    if s.len() > 0 {
        assert(text::is_whitespace(s[s.len() - 1]));
        assert forall|i: int| 0 <= i < s.drop_last().len() implies text::is_whitespace(
            #[trigger] s.drop_last()[i],
        ) by {
            assert(text::is_whitespace(s[i]));
        }
        lemma_blank_has_no_commas(s.drop_last());
    }
}

proof fn lemma_trimmed_commas(s: Seq<char>)
    ensures
        outer_commas(text::trim(s)) == outer_commas(s),
        text::trim(s).len() == 0 <==> text::is_blank(s),
{
    text::lemma_trim(s);
    let inner = text::trim(s);
    let (start, end) = choose|start: Seq<char>, end: Seq<char>|
        text::is_blank(start) && text::is_blank(end) && s == #[trigger] (start + inner + end);
    lemma_blank_has_no_commas(start);
    lemma_blank_has_no_commas(end);
    assert(start + inner + end =~= start + (inner + end));
    lemma_outer_commas_concat(start, inner + end);
    lemma_commas_before_blank(inner, end);
    if inner.len() > 0 {
        assert(s[start.len() as int] == inner[0]);
    } else {
        assert forall|i: int| 0 <= i < s.len() implies text::is_whitespace(#[trigger] s[i]) by {
            if i < start.len() {
                assert(s[i] == start[i]);
            } else {
                assert(s[i] == end[i - start.len()]);
            }
        }
    }
}

proof fn lemma_commas_before_blank(s: Seq<char>, end: Seq<char>)
    requires
        text::is_blank(end),
    ensures
        outer_commas(s + end) == outer_commas(s),
    decreases end.len(),
{
    if end.len() > 0 {
        assert((s + end).drop_last() =~= s + end.drop_last());
        assert(text::is_whitespace(end[end.len() - 1]));
        assert forall|i: int| 0 <= i < end.drop_last().len() implies text::is_whitespace(
            #[trigger] end.drop_last()[i],
        ) by {
            assert(text::is_whitespace(end[i]));
        }
        lemma_commas_before_blank(s, end.drop_last());
    } else {
        assert(s + end =~= s);
    }
}

/// `inner` in parentheses.
pub open spec fn in_parentheses(inner: Seq<char>) -> Seq<char> {
    seq!['('] + inner + seq![')']
}

/// What is not in parentheses has no parameters, and neither has a blank list; a list that is not
/// blank has one where no comma stands in it.
pub proof fn lemma_few_parameters(detail: Seq<char>, inner: Seq<char>)
    ensures
        !(exists|list: Seq<char>| detail == #[trigger] in_parentheses(list)) ==> param_count(detail)
            == 0,
        text::is_blank(inner) ==> param_count(in_parentheses(inner)) == 0,
        !text::is_blank(inner) && !inner.contains(',') ==> param_count(in_parentheses(inner)) == 1,
{
    if param_count(detail) != 0 {
        assert(detail =~= in_parentheses(detail.subrange(1, detail.len() - 1)));
    }
    assert(in_parentheses(inner).subrange(1, in_parentheses(inner).len() - 1) =~= inner);
    lemma_trimmed_commas(inner);
    if !inner.contains(',') {
        lemma_no_commas(inner);
    }
}

proof fn lemma_no_commas(s: Seq<char>)
    requires
        !s.contains(','),
    ensures
        outer_commas(s) == 0,
    decreases s.len(),
{
    if s.len() > 0 {
        assert(s[s.len() - 1] != ',');
        assert(!s.drop_last().contains(',')) by {
            if s.drop_last().contains(',') {
                let i = choose|i: int| 0 <= i < s.drop_last().len() && s.drop_last()[i] == ',';
                assert(s[i] == ',');
            }
        }
        lemma_no_commas(s.drop_last());
    }
}

/// A list has as many parameters as two lists of which it is made, with a comma between them that
/// stands outside angle brackets.
pub proof fn lemma_parameters_add_up(first: Seq<char>, rest: Seq<char>)
    requires
        !text::is_blank(first),
        !text::is_blank(rest),
        occurrences(first, '<') == occurrences(first, '>'),
    ensures
        param_count(in_parentheses(first + seq![','] + rest)) == param_count(in_parentheses(first))
            + param_count(in_parentheses(rest)),
{
    let whole = first + seq![','] + rest;
    assert(in_parentheses(whole).subrange(1, in_parentheses(whole).len() - 1) =~= whole);
    assert(in_parentheses(first).subrange(1, in_parentheses(first).len() - 1) =~= first);
    assert(in_parentheses(rest).subrange(1, in_parentheses(rest).len() - 1) =~= rest);
    lemma_trimmed_commas(whole);
    lemma_trimmed_commas(first);
    lemma_trimmed_commas(rest);
    assert(!text::is_blank(whole)) by {
        let i = choose|i: int| 0 <= i < first.len() && !text::is_whitespace(#[trigger] first[i]);
        assert(whole[i] == first[i]);
    }
    let head = first + seq![','];
    assert(head.drop_last() =~= first);
    lemma_depth(first);
    lemma_occurrences_concat(first, seq![','], '<');
    lemma_occurrences_concat(first, seq![','], '>');
    reveal_with_fuel(occurrences, 2);
    lemma_outer_commas_concat(head, rest);
}

/// Commas between a pair of angle brackets separate no parameters.
pub proof fn lemma_type_arguments_are_one_parameter(
    name: Seq<char>,
    arguments: Seq<char>,
    end: Seq<char>,
)
    requires
        !name.contains(',') && !name.contains('<') && !name.contains('>'),
        !arguments.contains('<') && !arguments.contains('>'),
        !end.contains(',') && !end.contains('<') && !end.contains('>'),
    ensures
        param_count(in_parentheses(name + seq!['<'] + arguments + seq!['>'] + end)) == 1,
{
    let open = name + seq!['<'];
    let inside = open + arguments;
    let closed = inside + seq!['>'];
    let whole = closed + end;
    assert(in_parentheses(whole).subrange(1, in_parentheses(whole).len() - 1) =~= whole);
    assert(whole[name.len() as int] == '<');
    assert(!text::is_whitespace('<'));
    lemma_trimmed_commas(whole);
    lemma_no_commas(name);
    lemma_none(name, '<');
    lemma_none(name, '>');
    lemma_depth(name);
    assert(open.drop_last() =~= name);
    lemma_inside(open, arguments);
    assert(closed.drop_last() =~= inside);
    lemma_none(arguments, '<');
    lemma_none(arguments, '>');
    lemma_occurrences_concat(open, arguments, '<');
    lemma_occurrences_concat(open, arguments, '>');
    lemma_no_commas(end);
    lemma_outer_commas_concat(closed, end);
}

proof fn lemma_none(s: Seq<char>, c: char)
    requires
        !s.contains(c),
    ensures
        occurrences(s, c) == 0,
    decreases s.len(),
{
    if s.len() > 0 {
        assert(s[s.len() - 1] != c);
        assert(!s.drop_last().contains(c)) by {
            if s.drop_last().contains(c) {
                let i = choose|i: int| 0 <= i < s.drop_last().len() && s.drop_last()[i] == c;
                assert(s[i] == c);
            }
        }
        lemma_none(s.drop_last(), c);
    }
}

proof fn lemma_inside(open: Seq<char>, arguments: Seq<char>)
    requires
        angle_depth(open) == 1,
        !arguments.contains('<') && !arguments.contains('>'),
    ensures
        angle_depth(open + arguments) == 1,
        outer_commas(open + arguments) == outer_commas(open),
    decreases arguments.len(),
{
    if arguments.len() > 0 {
        assert((open + arguments).drop_last() =~= open + arguments.drop_last());
        assert(arguments[arguments.len() - 1] != '<' && arguments[arguments.len() - 1] != '>');
        assert(!arguments.drop_last().contains('<') && !arguments.drop_last().contains('>')) by {
            assert forall|c: char| #[trigger]
                arguments.drop_last().contains(c) implies arguments.contains(c) by {
                let i = choose|i: int|
                    0 <= i < arguments.drop_last().len() && arguments.drop_last()[i] == c;
                assert(arguments[i] == c);
            }
        }
        lemma_inside(open, arguments.drop_last());
    } else {
        assert(open + arguments =~= open);
    }
}

/// A comma before which angle brackets do not match separates no parameters.
pub proof fn lemma_comma_in_brackets(first: Seq<char>, rest: Seq<char>)
    requires
        !text::is_blank(first),
        !rest.contains(','),
        occurrences(first, '<') != occurrences(first, '>'),
    ensures
        param_count(in_parentheses(first + seq![','] + rest)) == param_count(in_parentheses(first)),
{
    let whole = first + seq![','] + rest;
    assert(in_parentheses(whole).subrange(1, in_parentheses(whole).len() - 1) =~= whole);
    assert(in_parentheses(first).subrange(1, in_parentheses(first).len() - 1) =~= first);
    lemma_trimmed_commas(whole);
    lemma_trimmed_commas(first);
    assert(!text::is_blank(whole)) by {
        let i = choose|i: int| 0 <= i < first.len() && !text::is_whitespace(#[trigger] first[i]);
        assert(whole[i] == first[i]);
    }
    let head = first + seq![','];
    assert(head.drop_last() =~= first);
    lemma_depth(first);
    lemma_commas_before_none(head, rest);
}

proof fn lemma_commas_before_none(s: Seq<char>, end: Seq<char>)
    requires
        !end.contains(','),
    ensures
        outer_commas(s + end) == outer_commas(s),
    decreases end.len(),
{
    if end.len() > 0 {
        assert((s + end).drop_last() =~= s + end.drop_last());
        assert(end[end.len() - 1] != ',');
        assert(!end.drop_last().contains(',')) by {
            if end.drop_last().contains(',') {
                let i = choose|i: int|
                    0 <= i < end.drop_last().len() && end.drop_last()[i] == ',';
                assert(end[i] == ',');
            }
        }
        lemma_commas_before_none(s, end.drop_last());
    } else {
        assert(s + end =~= s);
    }
}

} // verus!
