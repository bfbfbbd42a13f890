//! JSON values.

use crate::text;
use serde_json::Value;
use vstd::prelude::*;

verus! {

/// A JSON value. The members of an object stand in the order of their keys.
#[derive(Debug)]
pub enum Json {
    Null,
    Bool(bool),
    /// An integer.
    Int(i128),
    /// A number that is no integer, in the shortest decimal form that reads back as it.
    Float(String),
    Str(String),
    Array(Vec<Json>),
    Object(Vec<Member>),
}

/// One member of a JSON object.
#[derive(Debug)]
pub struct Member {
    pub key: String,
    pub value: Json,
}

/// What a JSON value holds.
pub enum JsonView {
    Null,
    Bool(bool),
    Int(int),
    Float(Seq<char>),
    Str(Seq<char>),
    Array(Seq<JsonView>),
    Object(Seq<(Seq<char>, JsonView)>),
}

/// What `j` holds.
pub open spec fn json_view(j: Json) -> JsonView
    decreases j,
{
    match j {
        Json::Null => JsonView::Null,
        Json::Bool(b) => JsonView::Bool(b),
        Json::Int(n) => JsonView::Int(n as int),
        Json::Float(s) => JsonView::Float(s@),
        Json::Str(s) => JsonView::Str(s@),
        Json::Array(items) => JsonView::Array(
            Seq::new(
                items@.len(),
                |i: int|
                    if 0 <= i < items@.len() {
                        json_view(items@[i])
                    } else {
                        JsonView::Null
                    },
            ),
        ),
        Json::Object(members) => JsonView::Object(
            Seq::new(
                members@.len(),
                |i: int|
                    if 0 <= i < members@.len() {
                        (members@[i].key@, json_view(members@[i].value))
                    } else {
                        (Seq::empty(), JsonView::Null)
                    },
            ),
        ),
    }
}

impl View for Json {
    type V = JsonView;

    open spec fn view(&self) -> JsonView {
        json_view(*self)
    }
}

impl View for Member {
    type V = (Seq<char>, JsonView);

    open spec fn view(&self) -> (Seq<char>, JsonView) {
        (self.key@, self.value@)
    }
}

/// The values of an array.
pub open spec fn items_view(items: Seq<Json>) -> Seq<JsonView> {
    Seq::new(items.len(), |i: int| items[i]@)
}

/// The members of an object.
pub open spec fn members_view(members: Seq<Member>) -> Seq<(Seq<char>, JsonView)> {
    Seq::new(members.len(), |i: int| members[i]@)
}

pub broadcast proof fn lemma_view_array(items: Vec<Json>)
    ensures
        #[trigger] Json::Array(items)@ == JsonView::Array(items_view(items@)),
{
    assert(Json::Array(items)@->Array_0 =~= items_view(items@));
}

pub broadcast proof fn lemma_view_object(members: Vec<Member>)
    ensures
        #[trigger] Json::Object(members)@ == JsonView::Object(members_view(members@)),
{
    assert(Json::Object(members)@->Object_0 =~= members_view(members@));
}

pub broadcast proof fn lemma_items_view_push(items: Seq<Json>, item: Json)
    ensures
        #[trigger] items_view(items.push(item)) == items_view(items).push(item@),
{
    assert(items_view(items.push(item)) =~= items_view(items).push(item@));
}

pub broadcast proof fn lemma_members_view_push(members: Seq<Member>, member: Member)
    ensures
        #[trigger] members_view(members.push(member)) == members_view(members).push(member@),
{
    assert(members_view(members.push(member)) =~= members_view(members).push(member@));
}

pub broadcast proof fn lemma_items_view_update(items: Seq<Json>, at: int, item: Json)
    requires
        0 <= at < items.len(),
    ensures
        #[trigger] items_view(items.update(at, item)) == items_view(items).update(at, item@),
{
    assert(items_view(items.update(at, item)) =~= items_view(items).update(at, item@));
}

pub broadcast proof fn lemma_members_view_update(members: Seq<Member>, at: int, member: Member)
    requires
        0 <= at < members.len(),
    ensures
        #[trigger] members_view(members.update(at, member)) == members_view(members).update(
            at,
            member@,
        ),
{
    assert(members_view(members.update(at, member)) =~= members_view(members).update(at, member@));
}

pub broadcast group group_json_views {
    lemma_items_view_update,
    lemma_members_view_update,
    lemma_view_array,
    lemma_view_object,
    lemma_items_view_push,
    lemma_members_view_push,
}

impl Clone for Json {
    fn clone(&self) -> (r: Self)
        ensures
            r@ == self@,
        decreases self,
    {
        broadcast use group_json_views;

        match self {
            Json::Null => Json::Null,
            Json::Bool(b) => Json::Bool(*b),
            Json::Int(n) => Json::Int(*n),
            Json::Float(s) => Json::Float(s.clone()),
            Json::Str(s) => Json::Str(s.clone()),
            Json::Array(items) => {
                let mut copy: Vec<Json> = Vec::new();
                let mut i: usize = 0;
                while i < items.len()
                    invariant
                        i <= items@.len(),
                        items_view(copy@) == items_view(items@).take(i as int),
                        decreases_to!(self => items),
                    decreases items@.len() - i,
                {
                    let item = items[i].clone();
                    let ghost before = copy@;
                    copy.push(item);
                    assert(items_view(copy@) == items_view(before).push(item@));
                    i += 1;
                    assert(items_view(copy@) =~= items_view(items@).take(i as int));
                }
                assert(items_view(copy@) =~= items_view(items@));
                Json::Array(copy)
            },
            Json::Object(members) => {
                let mut copy: Vec<Member> = Vec::new();
                let mut i: usize = 0;
                while i < members.len()
                    invariant
                        i <= members@.len(),
                        members_view(copy@) == members_view(members@).take(i as int),
                        decreases_to!(self => members),
                    decreases members@.len() - i,
                {
                    let member = Member {
                        key: members[i].key.clone(),
                        value: members[i].value.clone(),
                    };
                    let ghost before = copy@;
                    copy.push(member);
                    assert(members_view(copy@) == members_view(before).push(member@));
                    i += 1;
                    assert(members_view(copy@) =~= members_view(members@).take(i as int));
                }
                assert(members_view(copy@) =~= members_view(members@));
                Json::Object(copy)
            },
        }
    }
}

/// The value of the first of `members` whose key is `key`.
pub open spec fn lookup(members: Seq<(Seq<char>, JsonView)>, key: Seq<char>) -> Option<JsonView>
    decreases members.len(),
{
    if members.len() == 0 {
        None
    } else if members[0].0 == key {
        Some(members[0].1)
    } else {
        lookup(members.drop_first(), key)
    }
}

/// The first of `members` whose key is `key`, or their number.
pub open spec fn key_index(members: Seq<(Seq<char>, JsonView)>, key: Seq<char>) -> int
    decreases members.len(),
{
    if members.len() == 0 || members[0].0 == key {
        0
    } else {
        1 + key_index(members.drop_first(), key)
    }
}

pub proof fn lemma_key_index(members: Seq<(Seq<char>, JsonView)>, key: Seq<char>)
    ensures
        0 <= key_index(members, key) <= members.len(),
        key_index(members, key) < members.len() ==> members[key_index(members, key)].0 == key
            && lookup(members, key) == Some(members[key_index(members, key)].1),
        key_index(members, key) == members.len() <==> lookup(members, key) is None,
        forall|i: int| 0 <= i < key_index(members, key) ==> (#[trigger] members[i]).0 != key,
    decreases members.len(),
{
    if members.len() > 0 && members[0].0 != key {
        lemma_key_index(members.drop_first(), key);
        assert forall|i: int| 0 <= i < key_index(members, key) implies (#[trigger] members[i]).0
            != key by {
            if i > 0 {
                assert(members[i] == members.drop_first()[i - 1]);
            }
        }
    }
}

pub proof fn lemma_key_index_is(members: Seq<(Seq<char>, JsonView)>, key: Seq<char>, at: int)
    requires
        0 <= at <= members.len(),
        at < members.len() ==> members[at].0 == key,
        forall|i: int| 0 <= i < at ==> (#[trigger] members[i]).0 != key,
    ensures
        key_index(members, key) == at,
    decreases members.len(),
{
    if at > 0 {
        assert forall|i: int| 0 <= i < at - 1 implies (#[trigger] members.drop_first()[i]).0
            != key by {
            assert(members.drop_first()[i] == members[i + 1]);
        }
        lemma_key_index_is(members.drop_first(), key, at - 1);
    }
}

impl JsonView {
    /// The member `key` of an object.
    pub open spec fn get(self, key: Seq<char>) -> Option<JsonView> {
        match self {
            JsonView::Object(members) => lookup(members, key),
            _ => None,
        }
    }

    /// The object with `value` in place of what its member `key` held.
    pub open spec fn with(self, key: Seq<char>, value: JsonView) -> JsonView {
        match self {
            JsonView::Object(members) => JsonView::Object(
                members.update(key_index(members, key), (key, value)),
            ),
            _ => self,
        }
    }
}

/// Where a member with the key `key` goes among `members`: before the first that comes after it.
pub open spec fn slot(members: Seq<(Seq<char>, JsonView)>, key: Seq<char>) -> int
    decreases members.len(),
{
    if members.len() == 0 || text::text_before(key, members[0].0) {
        0
    } else {
        1 + slot(members.drop_first(), key)
    }
}

/// The members stand in the order of their keys, and no key occurs twice.
pub open spec fn in_order(members: Seq<(Seq<char>, JsonView)>) -> bool {
    forall|i: int, j: int|
        0 <= i < j < members.len() ==> text::text_before(
            (#[trigger] members[i]).0,
            (#[trigger] members[j]).0,
        )
}

/// `members` with the member `key` holding `value`.
pub open spec fn set_member(
    members: Seq<(Seq<char>, JsonView)>,
    key: Seq<char>,
    value: JsonView,
) -> Seq<(Seq<char>, JsonView)> {
    if key_index(members, key) < members.len() {
        members.update(key_index(members, key), (key, value))
    } else {
        members.insert(slot(members, key), (key, value))
    }
}

impl JsonView {
    /// The object without members.
    pub open spec fn empty_object() -> JsonView {
        JsonView::Object(Seq::empty())
    }

    /// The object with its member `key` holding `value`. What is no object and not null has no
    /// members to set.
    pub open spec fn set(self, key: Seq<char>, value: JsonView) -> JsonView {
        match self {
            JsonView::Object(members) => JsonView::Object(set_member(members, key, value)),
            JsonView::Null => JsonView::Object(seq![(key, value)]),
            _ => self,
        }
    }

    /// The member `inner` of the member `outer` of an object.
    pub open spec fn get2(self, outer: Seq<char>, inner: Seq<char>) -> Option<JsonView> {
        match self.get(outer) {
            Some(value) => value.get(inner),
            None => None,
        }
    }

    pub open spec fn as_str(self) -> Option<Seq<char>> {
        match self {
            JsonView::Str(s) => Some(s),
            _ => None,
        }
    }

    pub open spec fn as_bool(self) -> Option<bool> {
        match self {
            JsonView::Bool(b) => Some(b),
            _ => None,
        }
    }

    pub open spec fn as_u64(self) -> Option<u64> {
        match self {
            JsonView::Int(n) if 0 <= n <= u64::MAX => Some(n as u64),
            _ => None,
        }
    }

    pub open spec fn as_i64(self) -> Option<i64> {
        match self {
            JsonView::Int(n) if i64::MIN <= n <= i64::MAX => Some(n as i64),
            _ => None,
        }
    }

    /// Every object in the value has its members in order.
    pub open spec fn well_formed(self) -> bool
        decreases self,
    {
        match self {
            JsonView::Array(items) => forall|i: int|
                0 <= i < items.len() ==> (#[trigger] items[i]).well_formed(),
            JsonView::Object(members) => in_order(members) && forall|i: int|
                0 <= i < members.len() ==> (#[trigger] members[i]).1.well_formed(),
            _ => true,
        }
    }

    /// The value with every negative zero made a positive one: two values are equal as JSON when
    /// these are the same.
    pub open spec fn unsigned_zeros(self) -> JsonView
        decreases self,
    {
        match self {
            JsonView::Float(s) => if s == "-0.0"@ {
                JsonView::Float("0.0"@)
            } else {
                self
            },
            JsonView::Array(items) => JsonView::Array(
                Seq::new(
                    items.len(),
                    |i: int|
                        if 0 <= i < items.len() {
                            items[i].unsigned_zeros()
                        } else {
                            JsonView::Null
                        },
                ),
            ),
            JsonView::Object(members) => JsonView::Object(
                Seq::new(
                    members.len(),
                    |i: int|
                        if 0 <= i < members.len() {
                            (members[i].0, members[i].1.unsigned_zeros())
                        } else {
                            (Seq::empty(), JsonView::Null)
                        },
                ),
            ),
            _ => self,
        }
    }

    /// The two values are equal as JSON.
    pub open spec fn same(self, other: JsonView) -> bool {
        self.unsigned_zeros() == other.unsigned_zeros()
    }
}

proof fn lemma_slot(members: Seq<(Seq<char>, JsonView)>, key: Seq<char>)
    ensures
        0 <= slot(members, key) <= members.len(),
        forall|i: int|
            0 <= i < slot(members, key) ==> !text::text_before(key, (#[trigger] members[i]).0),
        slot(members, key) < members.len() ==> text::text_before(
            key,
            members[slot(members, key)].0,
        ),
    decreases members.len(),
{
    if members.len() > 0 && !text::text_before(key, members[0].0) {
        lemma_slot(members.drop_first(), key);
        assert forall|i: int| 0 <= i < slot(members, key) implies !text::text_before(
            key,
            (#[trigger] members[i]).0,
        ) by {
            if i > 0 {
                assert(members[i] == members.drop_first()[i - 1]);
            }
        }
    }
}

proof fn lemma_slot_is(members: Seq<(Seq<char>, JsonView)>, key: Seq<char>, at: int)
    requires
        0 <= at <= members.len(),
        forall|i: int| 0 <= i < at ==> !text::text_before(key, (#[trigger] members[i]).0),
        at < members.len() ==> text::text_before(key, members[at].0),
    ensures
        slot(members, key) == at,
    decreases members.len(),
{
    if at > 0 {
        assert forall|i: int| 0 <= i < at - 1 implies !text::text_before(
            key,
            (#[trigger] members.drop_first()[i]).0,
        ) by {
            assert(members.drop_first()[i] == members[i + 1]);
        }
        lemma_slot_is(members.drop_first(), key, at - 1);
    }
}

/// Setting a member gives it the value and leaves every other member as it was.
pub proof fn lemma_get_after_set(
    object: JsonView,
    key: Seq<char>,
    value: JsonView,
    other: Seq<char>,
)
    requires
        object is Object || object is Null,
    ensures
        object.set(key, value).get(key) == Some(value),
        other != key ==> object.set(key, value).get(other) == object.get(other),
{
    let members = match object {
        JsonView::Object(members) => members,
        _ => Seq::empty(),
    };
    let result = object.set(key, value)->Object_0;
    lemma_key_index(members, key);
    lemma_key_index(members, other);
    lemma_slot(members, key);
    lemma_key_index(result, key);
    lemma_key_index(result, other);
    let at = if key_index(members, key) < members.len() {
        key_index(members, key)
    } else {
        slot(members, key)
    };
    if object is Null {
        assert(result =~= members.insert(0, (key, value)));
    }
    assert forall|i: int| 0 <= i < at implies (#[trigger] result[i]).0 != key by {
        assert(result[i] == members[i]);
    }
    lemma_key_index_is(result, key, at);
    if other != key {
        let old_at = key_index(members, other);
        let new_at = if key_index(members, key) < members.len() || old_at < at {
            old_at
        } else {
            old_at + 1
        };
        assert forall|i: int| 0 <= i < new_at implies (#[trigger] result[i]).0 != other by {
            if key_index(members, key) < members.len() {
                if i != at {
                    assert(result[i] == members[i]);
                }
            } else if i < at {
                assert(result[i] == members[i]);
            } else if i > at {
                assert(result[i] == members[i - 1]);
            }
        }
        lemma_key_index_is(result, other, new_at);
    }
}

/// A member that takes the place of one with its key holds the new value.
pub proof fn lemma_get_replaced(object: JsonView, key: Seq<char>, value: JsonView)
    requires
        object.get(key) is Some,
    ensures
        object.with(key, value).get(key) == Some(value),
{
    if let JsonView::Object(members) = object {
        lemma_key_index(members, key);
        let after = members.update(key_index(members, key), (key, value));
        lemma_key_index_is(after, key, key_index(members, key));
        lemma_key_index(after, key);
    }
}

/// A member that takes the place of another with the same key leaves the others as they were.
pub proof fn lemma_get_kept(object: JsonView, key: Seq<char>, other: Seq<char>)
    ensures
        key != other && object.get(key) is Some ==> forall|value: JsonView|
            (#[trigger] object.with(key, value)).get(other) == object.get(other),
{
    if key != other && object.get(key) is Some {
        let members = object->Object_0;
        lemma_key_index(members, key);
        lemma_key_index(members, other);
        assert forall|value: JsonView| (#[trigger] object.with(key, value)).get(other)
            == object.get(other) by {
            let after = members.update(key_index(members, key), (key, value));
            lemma_key_index_is(after, other, key_index(members, other));
            lemma_key_index(after, other);
        }
    }
}

/// A member that takes its own place changes nothing.
pub proof fn lemma_replaced_by_itself(object: JsonView, key: Seq<char>)
    ensures
        object.get(key) matches Some(value) ==> object.with(key, value) == object,
{
    if let JsonView::Object(members) = object {
        lemma_key_index(members, key);
        if object.get(key) is Some {
            assert(members.update(
                key_index(members, key),
                (key, object.get(key)->Some_0),
            ) =~= members);
        }
    }
}

/// Setting a member keeps a well-formed object well formed.
pub proof fn lemma_set_well_formed(object: JsonView, key: Seq<char>, value: JsonView)
    requires
        object.well_formed(),
        value.well_formed(),
    ensures
        object.set(key, value).well_formed(),
{
    if let JsonView::Object(members) = object {
        let result = set_member(members, key, value);
        lemma_key_index(members, key);
        lemma_slot(members, key);
        let at = slot(members, key);
        if key_index(members, key) < members.len() {
            assert forall|i: int, j: int| 0 <= i < j < result.len() implies text::text_before(
                (#[trigger] result[i]).0,
                (#[trigger] result[j]).0,
            ) by {
                assert(text::text_before(members[i].0, members[j].0));
            }
            assert forall|i: int| 0 <= i < result.len() implies (
            #[trigger] result[i]).1.well_formed() by {
                assert(members[i].1.well_formed());
            }
        } else {
            assert forall|i: int| 0 <= i < members.len() implies (#[trigger] members[i]).0
                != key by {}
            assert forall|i: int| 0 <= i < at implies text::text_before(
                (#[trigger] members[i]).0,
                key,
            ) by {
                text::lemma_text_before_total(members[i].0, key);
            }
            assert forall|i: int| at <= i < members.len() implies text::text_before(
                key,
                (#[trigger] members[i]).0,
            ) by {
                if i > at {
                    text::lemma_text_before_transitive(key, members[at].0, members[i].0);
                }
            }
            assert forall|i: int, j: int| 0 <= i < j < result.len() implies text::text_before(
                (#[trigger] result[i]).0,
                (#[trigger] result[j]).0,
            ) by {
                if i < at {
                    assert(result[i] == members[i]);
                } else if i > at {
                    assert(result[i] == members[i - 1]);
                }
                if j < at {
                    assert(result[j] == members[j]);
                } else if j > at {
                    assert(result[j] == members[j - 1]);
                }
            }
            assert forall|i: int| 0 <= i < result.len() implies (
            #[trigger] result[i]).1.well_formed() by {
                if i < at {
                    assert(result[i] == members[i]);
                } else if i > at {
                    assert(result[i] == members[i - 1]);
                }
            }
        }
    } else if object is Null {
        let result = object.set(key, value)->Object_0;
        assert(result.len() == 1 && result[0] == (key, value));
    }
}

/// The position of the first member whose key is `key`, or the number of members.
fn position_of_key(members: &Vec<Member>, key: &str) -> (r: usize)
    ensures
        r == key_index(members_view(members@), key@),
        r <= members@.len(),
{
    let mut i: usize = 0;
    while i < members.len()
        invariant
            i <= members@.len(),
            forall|k: int| 0 <= k < i ==> (#[trigger] members_view(members@)[k]).0 != key@,
        decreases members@.len() - i,
    {
        if text::same_text(members[i].key.as_str(), key) {
            proof {
                lemma_key_index_is(members_view(members@), key@, i as int);
            }
            return i;
        }
        i += 1;
    }
    proof {
        lemma_key_index_is(members_view(members@), key@, i as int);
    }
    i
}

impl Json {
    /// The member `key` of an object.
    pub fn get(&self, key: &str) -> (r: Option<&Json>)
        ensures
            (match r {
                Some(value) => self@.get(key@) == Some(value@),
                None => self@.get(key@) is None,
            }),
    {
        broadcast use group_json_views;

        match self {
            Json::Object(members) => {
                let i = position_of_key(members, key);
                proof {
                    lemma_key_index(members_view(members@), key@);
                }
                if i < members.len() {
                    Some(&members[i].value)
                } else {
                    None
                }
            },
            _ => None,
        }
    }

    /// The member `key` of an object, to be changed in place.
    pub fn get_mut(&mut self, key: &str) -> (r: Option<&mut Json>)
        ensures
            (match r {
                Some(value) => {
                    &&& old(self)@.get(key@) == Some(value@)
                    &&& final(self)@ == old(self)@.with(key@, final(value)@)
                },
                None => old(self)@.get(key@) is None && *final(self) == *old(self),
            }),
    {
        broadcast use group_json_views;

        match self {
            Json::Object(members) => {
                let i = position_of_key(members, key);
                proof {
                    lemma_key_index(members_view(members@), key@);
                }
                if i < members.len() {
                    Some(&mut members[i].value)
                } else {
                    None
                }
            },
            _ => None,
        }
    }
}

impl Json {
    /// The member `inner` of the member `outer` of an object.
    pub fn get2(&self, outer: &str, inner: &str) -> (r: Option<&Json>)
        ensures
            (match r {
                Some(value) => self@.get2(outer@, inner@) == Some(value@),
                None => self@.get2(outer@, inner@) is None,
            }),
    {
        match self.get(outer) {
            Some(value) => value.get(inner),
            None => None,
        }
    }

    /// The text of a string.
    pub fn as_str(&self) -> (r: Option<&str>)
        ensures
            (match r {
                Some(s) => self@.as_str() == Some(s@),
                None => self@.as_str() is None,
            }),
    {
        match self {
            Json::Str(s) => Some(s.as_str()),
            _ => None,
        }
    }

    pub fn as_bool(&self) -> (r: Option<bool>)
        ensures
            r == self@.as_bool(),
    {
        match self {
            Json::Bool(b) => Some(*b),
            _ => None,
        }
    }

    pub fn as_u64(&self) -> (r: Option<u64>)
        ensures
            r == self@.as_u64(),
    {
        match self {
            Json::Int(n) if 0 <= *n && *n <= u64::MAX as i128 => Some(*n as u64),
            _ => None,
        }
    }

    pub fn as_i64(&self) -> (r: Option<i64>)
        ensures
            r == self@.as_i64(),
    {
        match self {
            Json::Int(n) if i64::MIN as i128 <= *n && *n <= i64::MAX as i128 => Some(*n as i64),
            _ => None,
        }
    }

    /// The string `s`.
    pub fn string(s: &str) -> (r: Json)
        ensures
            r@ == JsonView::Str(s@),
    {
        Json::Str(s.to_string())
    }

    /// The object without members.
    pub fn empty_object() -> (r: Json)
        ensures
            r@ == JsonView::empty_object(),
    {
        broadcast use group_json_views;

        let r = Json::Object(Vec::new());
        assert(r@->Object_0 =~= Seq::empty());
        r
    }

    /// Sets the member `key` of an object, or of an object made in place of null.
    pub fn set(&mut self, key: &str, value: Json)
        requires
            old(self)@ is Object || old(self)@ is Null,
        ensures
            final(self)@ == old(self)@.set(key@, value@),
    {
        broadcast use group_json_views;

        match self {
            Json::Object(members) => {
                let i = position_of_key(members, key);
                let ghost before = members@;
                if i < members.len() {
                    let member = Member { key: key.to_string(), value };
                    members[i] = member;
                } else {
                    let at = slot_for_key(members, key);
                    members.insert(at, Member { key: key.to_string(), value });
                    assert(members_view(members@) =~= members_view(before).insert(
                        at as int,
                        (key@, value@),
                    ));
                }
            },
            _ => {
                let mut members: Vec<Member> = Vec::new();
                members.push(Member { key: key.to_string(), value });
                assert(members_view(members@) =~= seq![(key@, value@)]);
                *self = Json::Object(members);
            },
        }
    }

    /// `self` with its member `key` set.
    pub fn setting(self, key: &str, value: Json) -> (r: Json)
        requires
            self@ is Object || self@ is Null,
        ensures
            r@ == self@.set(key@, value@),
            r@ is Object,
    {
        let mut r = self;
        r.set(key, value);
        r
    }

    /// Whether the two values are equal as JSON.
    pub fn same(&self, other: &Json) -> (r: bool)
        ensures
            r == self@.same(other@),
        decreases self,
    {
        broadcast use group_json_views;

        match (self, other) {
            (Json::Null, Json::Null) => true,
            (Json::Bool(a), Json::Bool(b)) => *a == *b,
            (Json::Int(a), Json::Int(b)) => *a == *b,
            (Json::Float(a), Json::Float(b)) => same_number(a.as_str(), b.as_str()),
            (Json::Str(a), Json::Str(b)) => text::same_text(a.as_str(), b.as_str()),
            (Json::Array(a), Json::Array(b)) => {
                let ghost left = self@.unsigned_zeros()->Array_0;
                let ghost right = other@.unsigned_zeros()->Array_0;
                if a.len() != b.len() {
                    assert(left.len() != right.len());
                    return false;
                }
                let mut i: usize = 0;
                while i < a.len()
                    invariant
                        i <= a@.len(),
                        a@.len() == b@.len(),
                        left.len() == a@.len(),
                        right.len() == a@.len(),
                        forall|k: int|
                            0 <= k < a@.len() ==> #[trigger] left[k] == a@[k]@.unsigned_zeros(),
                        forall|k: int|
                            0 <= k < a@.len() ==> #[trigger] right[k] == b@[k]@.unsigned_zeros(),
                        forall|k: int| 0 <= k < i ==> left[k] == right[k],
                        self@.unsigned_zeros() == JsonView::Array(left),
                        other@.unsigned_zeros() == JsonView::Array(right),
                        decreases_to!(self => a),
                    decreases a@.len() - i,
                {
                    if !a[i].same(&b[i]) {
                        assert(left[i as int] != right[i as int]);
                        return false;
                    }
                    i += 1;
                }
                assert(left =~= right);
                true
            },
            (Json::Object(a), Json::Object(b)) => {
                let ghost left = self@.unsigned_zeros()->Object_0;
                let ghost right = other@.unsigned_zeros()->Object_0;
                if a.len() != b.len() {
                    assert(left.len() != right.len());
                    return false;
                }
                let mut i: usize = 0;
                while i < a.len()
                    invariant
                        i <= a@.len(),
                        a@.len() == b@.len(),
                        left.len() == a@.len(),
                        right.len() == a@.len(),
                        forall|k: int|
                            0 <= k < a@.len() ==> #[trigger] left[k] == (
                                a@[k].key@,
                                a@[k].value@.unsigned_zeros(),
                            ),
                        forall|k: int|
                            0 <= k < a@.len() ==> #[trigger] right[k] == (
                                b@[k].key@,
                                b@[k].value@.unsigned_zeros(),
                            ),
                        forall|k: int| 0 <= k < i ==> left[k] == right[k],
                        self@.unsigned_zeros() == JsonView::Object(left),
                        other@.unsigned_zeros() == JsonView::Object(right),
                        decreases_to!(self => a),
                    decreases a@.len() - i,
                {
                    if !text::same_text(a[i].key.as_str(), b[i].key.as_str()) || !a[i].value.same(
                        &b[i].value,
                    ) {
                        assert(left[i as int] != right[i as int]);
                        return false;
                    }
                    i += 1;
                }
                assert(left =~= right);
                true
            },
            _ => false,
        }
    }
}

/// Whether two decimal forms stand for the same number: they are the same, but for the sign of
/// a zero.
fn same_number(a: &str, b: &str) -> (r: bool)
    ensures
        r == JsonView::Float(a@).same(JsonView::Float(b@)),
{
    let a_negative = text::same_text(a, "-0.0");
    let b_negative = text::same_text(b, "-0.0");
    let a_zero = a_negative || text::same_text(a, "0.0");
    let b_zero = b_negative || text::same_text(b, "0.0");
    if a_zero || b_zero {
        a_zero && b_zero
    } else {
        text::same_text(a, b)
    }
}

/// Where a member with the key `key` goes among `members`.
fn slot_for_key(members: &Vec<Member>, key: &str) -> (r: usize)
    ensures
        r == slot(members_view(members@), key@),
        r <= members@.len(),
{
    let mut i: usize = 0;
    while i < members.len()
        invariant
            i <= members@.len(),
            forall|k: int|
                0 <= k < i ==> !text::text_before(key@, (#[trigger] members_view(members@)[k]).0),
        decreases members@.len() - i,
    {
        if text::comes_before(key, members[i].key.as_str()) {
            proof {
                lemma_slot_is(members_view(members@), key@, i as int);
            }
            return i;
        }
        i += 1;
    }
    proof {
        lemma_slot_is(members_view(members@), key@, i as int);
    }
    i
}

impl PartialEq for Json {
    fn eq(&self, other: &Json) -> (r: bool) {
        self.same(other)
    }
}

impl vstd::std_specs::cmp::PartialEqSpecImpl for Json {
    open spec fn obeys_eq_spec() -> bool {
        true
    }

    open spec fn eq_spec(&self, other: &Json) -> bool {
        self@.same(other@)
    }
}

impl JsonView {
    /// The value nests arrays and objects at most `depth` deep, holds integers of 64 bits alone
    /// and no other number.
    pub open spec fn plain(self, depth: nat) -> bool
        decreases self,
    {
        match self {
            JsonView::Int(n) => i64::MIN <= n <= u64::MAX,
            JsonView::Float(_) => false,
            JsonView::Array(items) => depth > 0 && forall|i: int|
                0 <= i < items.len() ==> (#[trigger] items[i]).plain((depth - 1) as nat),
            JsonView::Object(members) => depth > 0 && forall|i: int|
                0 <= i < members.len() ==> (#[trigger] members[i]).1.plain((depth - 1) as nat),
            _ => true,
        }
    }
}

/// The outside crate's JSON values.
#[verifier::external_type_specification]
#[verifier::external_body]
pub struct ExValue(serde_json::Value);

/// What the JSON document `content` holds, where it is one: `serde_json::from_slice` read into a
/// `serde_json::Value`.
pub uninterp spec fn parsed_json(content: Seq<u8>) -> Option<JsonView>;

/// What is wrong with `content`, where it is no JSON document: the text of the error that
/// `serde_json::from_slice` gives.
pub uninterp spec fn json_complaint(content: Seq<u8>) -> Seq<char>;

/// The JSON document that stands for `value`: `serde_json::to_string` of the
/// `serde_json::Value` with the same contents.
pub uninterp spec fn json_text(value: JsonView) -> Seq<char>;

/// Moves the contents of a `serde_json::Value` into a `Json`, variant by variant.
#[verifier::external_body]
fn json_of_value(value: Value) -> Json {
    match value {
        Value::Null => Json::Null,
        Value::Bool(b) => Json::Bool(b),
        Value::Number(n) => n.as_i128().map_or_else(|| Json::Float(n.to_string()), Json::Int),
        Value::String(s) => Json::Str(s),
        Value::Array(items) => Json::Array(items.into_iter().map(json_of_value).collect()),
        Value::Object(members) => Json::Object(
            members.into_iter().map(
                |(key, value)| Member { key, value: json_of_value(value) },
            ).collect(),
        ),
    }
}

/// Copies the contents of a `Json` into a `serde_json::Value`, variant by variant. A number that
/// JSON cannot hold becomes null.
#[verifier::external_body]
fn value_of_json(json: &Json) -> Value {
    match json {
        Json::Null => Value::Null,
        Json::Bool(b) => Value::Bool(*b),
        Json::Int(n) => serde_json::Number::from_i128(*n).map_or(Value::Null, Value::Number),
        Json::Float(s) => s.parse().ok().and_then(serde_json::Number::from_f64).map_or(
            Value::Null,
            Value::Number,
        ),
        Json::Str(s) => Value::String(s.clone()),
        Json::Array(items) => items.iter().map(value_of_json).collect(),
        Json::Object(members) => members.iter().map(
            |member| (member.key.clone(), value_of_json(&member.value)),
        ).collect(),
    }
}

/// `serde_json::from_slice` into a `serde_json::Value`: what the document holds, under the name
/// `parsed_json`, or, where `content` is no JSON document, the text of the error, under the name
/// `json_complaint`. The members of each object come in the order of their keys, each key once.
#[verifier::external_body]
fn read_document(content: &[u8]) -> (r: Result<Json, String>)
    ensures
        (match r {
            Ok(json) => parsed_json(content@) == Some(json@) && json@.well_formed(),
            Err(complaint) => parsed_json(content@) is None && complaint@ == json_complaint(
                content@,
            ),
        }),
{
    serde_json::from_slice::<Value>(content).map(json_of_value).map_err(|error| error.to_string())
}

/// `serde_json::Value`'s `to_string`: the compact JSON document, under the name `json_text`. It
/// reads back as the value it was written from, where that is in order, nests at most 127 deep
/// and holds no number but 64-bit integers.
#[verifier::external_body]
fn write_document(json: &Json) -> (r: String)
    ensures
        r@ == json_text(json@),
        json@.well_formed() && json@.plain(127) ==> parsed_json(
            vstd::utf8::encode_utf8(r@),
        ) == Some(json@),
{
    value_of_json(json).to_string()
}

impl Json {
    /// The value that the JSON document `content` holds.
    pub fn parse(content: &[u8]) -> (r: Option<Json>)
        ensures
            (match r {
                Some(json) => parsed_json(content@) == Some(json@) && json@.well_formed(),
                None => parsed_json(content@) is None,
            }),
    {
        match read_document(content) {
            Ok(json) => Some(json),
            Err(_) => None,
        }
    }

    /// The value that the JSON document `content` holds, or what is wrong with it.
    pub fn parse_or_complain(content: &[u8]) -> (r: Result<Json, String>)
        ensures
            (match r {
                Ok(json) => parsed_json(content@) == Some(json@) && json@.well_formed(),
                Err(complaint) => parsed_json(content@) is None && complaint@ == json_complaint(
                    content@,
                ),
            }),
    {
        read_document(content)
    }

    /// The compact JSON document that stands for the value.
    pub fn to_text(&self) -> (r: String)
        ensures
            r@ == json_text(self@),
            self@.well_formed() && self@.plain(127) ==> parsed_json(
                vstd::utf8::encode_utf8(r@),
            ) == Some(self@),
    {
        write_document(self)
    }
}

/// A value that holds no number but integers equals itself alone as JSON.
pub proof fn lemma_same_is_equal(value: JsonView, depth: nat)
    requires
        value.plain(depth),
    ensures
        value.unsigned_zeros() == value,
    decreases value,
{
    match value {
        JsonView::Array(items) => {
            let after = value.unsigned_zeros()->Array_0;
            assert forall|i: int| 0 <= i < items.len() implies after[i] == items[i] by {
                assert(items[i].plain((depth - 1) as nat));
                lemma_same_is_equal(items[i], (depth - 1) as nat);
            }
            assert(after =~= items);
        },
        JsonView::Object(members) => {
            let after = value.unsigned_zeros()->Object_0;
            assert forall|i: int| 0 <= i < members.len() implies after[i] == members[i] by {
                assert(members[i].1.plain((depth - 1) as nat));
                lemma_same_is_equal(members[i].1, (depth - 1) as nat);
            }
            assert(after =~= members);
        },
        _ => {},
    }
}

/// What a member of an object holds: the value of the first member with its key, and nothing where no
/// member has it.
pub proof fn lemma_get(members: Seq<(Seq<char>, JsonView)>, key: Seq<char>)
    ensures
        (match JsonView::Object(members).get(key) {
            Some(value) => exists|i: int|
                0 <= i < members.len() && #[trigger] members[i] == (key, value) && forall|j: int|
                    0 <= j < i ==> (#[trigger] members[j]).0 != key,
            None => forall|i: int| 0 <= i < members.len() ==> (#[trigger] members[i]).0 != key,
        }),
{
    lemma_key_index(members, key);
    if let Some(value) = lookup(members, key) {
        let i = key_index(members, key);
        assert(members[i] == (key, value));
    }
}

/// A value of each kind is read back as that kind and as no other; a number is read where it is in the
/// range of the type.
pub proof fn lemma_kinds(n: int, flag: bool, s: Seq<char>)
    ensures
        JsonView::Str(s).as_str() == Some(s),
        JsonView::Str(s).as_bool() is None && JsonView::Str(s).as_u64() is None && JsonView::Str(
            s,
        ).as_i64() is None,
        JsonView::Bool(flag).as_bool() == Some(flag),
        JsonView::Bool(flag).as_str() is None && JsonView::Bool(flag).as_u64() is None
            && JsonView::Bool(flag).as_i64() is None,
        JsonView::Int(n).as_str() is None && JsonView::Int(n).as_bool() is None,
        0 <= n <= 0xffff_ffff_ffff_ffff ==> (JsonView::Int(n).as_u64() matches Some(m) && m == n),
        !(0 <= n <= 0xffff_ffff_ffff_ffff) ==> JsonView::Int(n).as_u64() is None,
        -0x8000_0000_0000_0000 <= n <= 0x7fff_ffff_ffff_ffff ==> (
        JsonView::Int(n).as_i64() matches Some(m) && m == n),
        !(-0x8000_0000_0000_0000 <= n <= 0x7fff_ffff_ffff_ffff) ==> JsonView::Int(n).as_i64() is None,
        JsonView::Float(s).as_u64() is None && JsonView::Float(s).as_i64() is None
            && JsonView::Float(s).as_str() is None,
        JsonView::Null.as_str() is None && JsonView::Null.as_bool() is None
            && JsonView::Null.as_u64() is None,
{
}

} // verus!
