use crate::model::{
    has_key, key_index, lemma_key_index, lemma_key_index_is, lemma_with_member_well_formed,
    member_or, padded, with_member, Json, Members,
};
use crate::text::same_text;
use vstd::prelude::*;

verus! {

/// `serde_json::Number`, declared so that documents can carry the numbers of that
/// crate.  Nothing here looks inside one.
#[verifier::external_type_specification]
#[verifier::external_body]
pub struct ExNumber(serde_json::Number);

/// `Clone::clone` of `serde_json::Number`, which that crate derives: believed, not
/// proved here, to give a number equal to the one that it copies.
pub assume_specification[ <serde_json::Number as Clone>::clone ](n: &serde_json::Number) -> (r:
    serde_json::Number)
    ensures
        r == *n,
;

/// A JSON document.
#[derive(Debug, PartialEq, Eq)]
pub enum JsonValue {
    Null,
    Bool(bool),
    Number(serde_json::Number),
    String(String),
    Array(JsonArray),
    Object(JsonObject),
}

/// A JSON array.
pub type JsonArray = Vec<JsonValue>;

/// A JSON object: its members in insertion order.
#[derive(Debug, PartialEq, Eq)]
pub struct JsonObject {
    members: Vec<(String, JsonValue)>,
}

/// The model of an array's items.
pub open spec fn items_view(items: Seq<JsonValue>) -> Seq<Json>
    decreases items,
{
    Seq::new(
        items.len(),
        |i: int|
            if 0 <= i < items.len() {
                items[i].view()
            } else {
                Json::Null
            },
    )
}

impl View for JsonValue {
    type V = Json;

    open spec fn view(&self) -> Json
        decreases self,
    {
        match self {
            JsonValue::Null => Json::Null,
            JsonValue::Bool(b) => Json::Bool(*b),
            JsonValue::Number(n) => Json::Number(*n),
            JsonValue::String(s) => Json::String(s@),
            JsonValue::Array(items) => Json::Array(items_view(items@)),
            JsonValue::Object(object) => Json::Object(object.view()),
        }
    }
}

impl View for JsonObject {
    type V = Members;

    closed spec fn view(&self) -> Members
        decreases self,
    {
        Seq::new(
            self.members@.len(),
            |i: int|
                if 0 <= i < self.members@.len() {
                    (self.members@[i].0@, self.members@[i].1.view())
                } else {
                    (Seq::empty(), Json::Null)
                },
        )
    }
}

/// The model of an array has one item for each item of the array: its model.
pub proof fn lemma_items_view(items: Seq<JsonValue>)
    ensures
        items_view(items).len() == items.len(),
        forall|i: int| 0 <= i < items.len() ==> (#[trigger] items_view(items)[i]) == items[i]@,
{
}

impl Clone for JsonValue {
    /// A deep copy: a document of its own with the same model.
    fn clone(&self) -> (copy: Self)
        ensures
            copy@ == self@,
        decreases self,
    {
        match self {
            JsonValue::Null => JsonValue::Null,
            JsonValue::Bool(b) => JsonValue::Bool(*b),
            JsonValue::Number(n) => JsonValue::Number(n.clone()),
            JsonValue::String(s) => JsonValue::String(s.clone()),
            JsonValue::Array(items) => {
                let mut copies: Vec<JsonValue> = Vec::new();
                let mut at: usize = 0;
                while at < items.len()
                    invariant
                        *self == JsonValue::Array(*items),
                        at <= items.len(),
                        copies.len() == at,
                        forall|j: int| 0 <= j < at ==> copies@[j]@ == items@[j]@,
                    decreases items.len() - at,
                {
                    proof {
                        assert(items@[at as int] == (self->Array_0)@[at as int]);
                        assert(decreases_to!(self => (self->Array_0)@[at as int]));
                    }
                    copies.push(items[at].clone());
                    at = at + 1;
                }
                proof {
                    lemma_items_view(copies@);
                    lemma_items_view(items@);
                    assert(items_view(copies@) =~= items_view(items@));
                }
                JsonValue::Array(copies)
            },
            JsonValue::Object(object) => JsonValue::Object(object.clone()),
        }
    }
}

impl Clone for JsonObject {
    /// A deep copy: an object of its own with the same model.
    fn clone(&self) -> (copy: Self)
        ensures
            copy@ == self@,
        decreases self,
    {
        let mut copies: Vec<(String, JsonValue)> = Vec::new();
        let mut at: usize = 0;
        while at < self.members.len()
            invariant
                at <= self.members.len(),
                copies.len() == at,
                forall|j: int|
                    0 <= j < at ==> copies@[j].0@ == self.members@[j].0@ && copies@[j].1@
                        == self.members@[j].1@,
            decreases self.members.len() - at,
        {
            let key = self.members[at].0.clone();
            let value = self.members[at].1.clone();
            copies.push((key, value));
            at = at + 1;
        }
        let copy = JsonObject { members: copies };
        proof {
            copy.lemma_view();
            self.lemma_view();
            assert(copy@ =~= self@);
        }
        copy
    }
}

/// What a missing location is filled with when a path is materialized.
#[derive(Clone, Copy, Debug, PartialEq, Eq)]
pub enum OrInsertJsonValue {
    Object,
    Array,
    Null,
}

impl OrInsertJsonValue {
    /// The model of the value that `concrete` makes.
    pub open spec fn spec_concrete(self) -> Json {
        match self {
            OrInsertJsonValue::Object => Json::Object(Seq::empty()),
            OrInsertJsonValue::Array => Json::Array(Seq::empty()),
            OrInsertJsonValue::Null => Json::Null,
        }
    }

    /// A fresh value of this kind: an empty object, an empty array or `null`.
    pub fn concrete(self) -> (value: JsonValue)
        ensures
            value@ == self.spec_concrete(),
    {
        match self {
            OrInsertJsonValue::Object => JsonValue::Object(JsonObject::new()),
            OrInsertJsonValue::Array => {
                let value = JsonValue::Array(Vec::new());
                assert(value@->Array_0 =~= Seq::empty());
                value
            },
            OrInsertJsonValue::Null => JsonValue::Null,
        }
    }
}

impl JsonObject {
    /// The model of an object has one member for each member of the object: its key's
    /// characters and its value's model.
    proof fn lemma_view(&self)
        ensures
            self@.len() == self.members@.len(),
            forall|i: int|
                0 <= i < self.members@.len() ==> (#[trigger] self@[i]) == (
                    self.members@[i].0@,
                    self.members@[i].1@,
                ),
    {
    }

    /// An object without members.
    pub fn new() -> (object: Self)
        ensures
            object@ == Seq::<(Seq<char>, Json)>::empty(),
    {
        let object = JsonObject { members: Vec::new() };
        assert(object@ =~= Seq::empty());
        object
    }

    /// The position of the member with the key `key`, or the number of members if
    /// there is none.
    fn position(&self, key: &str) -> (at: usize)
        ensures
            at == key_index(self@, key@),
            at <= self.members.len(),
            self@.len() == self.members.len(),
    {
        let mut at: usize = 0;
        while at < self.members.len()
            invariant
                at <= self.members.len(),
                forall|j: int| 0 <= j < at ==> (#[trigger] self@[j]).0 != key@,
            decreases self.members.len() - at,
        {
            if same_text(self.members[at].0.as_str(), key) {
                proof {
                    lemma_key_index_is(self@, key@, at as int);
                }
                return at;
            }
            at = at + 1;
        }
        proof {
            lemma_key_index_is(self@, key@, at as int);
        }
        at
    }

    /// The number of members.
    pub fn len(&self) -> (count: usize)
        ensures
            count == self@.len(),
    {
        proof {
            self.lemma_view();
        }
        self.members.len()
    }

    /// Whether a member has the key `key`.
    pub fn contains_key(&self, key: &str) -> (found: bool)
        ensures
            found == has_key(self@, key@),
    {
        self.position(key) < self.members.len()
    }

    /// The member at position `at` in insertion order, if there are that many: its
    /// key and its value.
    pub fn member(&self, at: usize) -> (found: Option<(&str, &JsonValue)>)
        ensures
            match found {
                Some((key, value)) => at < self@.len() && key@ == self@[at as int].0 && value@
                    == self@[at as int].1,
                None => at >= self@.len(),
            },
    {
        proof {
            self.lemma_view();
        }
        if at < self.members.len() {
            Some((self.members[at].0.as_str(), &self.members[at].1))
        } else {
            None
        }
    }

    /// Stores `value` under `key`: in place of the value that the key had, or as a
    /// new last member.  Keys stay distinct.
    pub fn insert(&mut self, key: &str, value: JsonValue)
        ensures
            final(self)@ == with_member(old(self)@, key@, value@),
            Json::Object(old(self)@).well_formed() && value@.well_formed() ==> Json::Object(
                final(self)@,
            ).well_formed(),
    {
        proof {
            if Json::Object(self@).well_formed() && value@.well_formed() {
                lemma_with_member_well_formed(self@, key@, value@);
            }
        }
        let slot = self.get_or_insert_mut(key, OrInsertJsonValue::Null);
        *slot = value;
    }

    /// The value stored under `key`, if the key occurs.
    pub fn get(&self, key: &str) -> (found: Option<&JsonValue>)
        ensures
            match found {
                Some(value) => has_key(self@, key@) && value@ == self@[key_index(self@, key@)].1,
                None => !has_key(self@, key@),
            },
    {
        let at = self.position(key);
        if at < self.members.len() {
            proof {
                self.lemma_view();
            }
            Some(&self.members[at].1)
        } else {
            None
        }
    }

    /// The slot stored under `key`, created first as a fresh value of the kind
    /// `insert` where the key is missing.  What the caller leaves in the slot is
    /// what the object then holds under `key`.
    pub fn get_or_insert_mut(&mut self, key: &str, insert: OrInsertJsonValue) -> (slot:
        &mut JsonValue)
        ensures
            slot@ == member_or(old(self)@, key@, insert.spec_concrete()),
            final(self)@ == with_member(old(self)@, key@, final(slot)@),
    {
        let at = self.position(key);
        proof {
            lemma_key_index(self@, key@);
            self.lemma_view();
        }
        if at == self.members.len() {
            self.members.push((key.to_owned(), insert.concrete()));
        }
        &mut self.members[at].1
    }
}

/// The slot at position `index` of the array, which is first extended where it is
/// too short: by `null` up to `index`, and at `index` by a fresh value of the kind
/// `insert`.  What the caller leaves in the slot is what the array then holds there.
pub fn array_get_or_insert_mut(
    items: &mut JsonArray,
    index: usize,
    insert: OrInsertJsonValue,
) -> (slot: &mut JsonValue)
    ensures
        slot@ == padded(
            items_view(old(items)@),
            index as nat,
            insert.spec_concrete(),
        )[index as int],
        items_view(final(items)@) == padded(
            items_view(old(items)@),
            index as nat,
            insert.spec_concrete(),
        ).update(index as int, final(slot)@),
{
    let ghost before = items@;
    if items.len() <= index {
        while items.len() < index
            invariant
                before.len() <= items@.len() <= index,
                forall|j: int| 0 <= j < before.len() ==> items@[j] == before[j],
                forall|j: int| before.len() <= j < items@.len() ==> items@[j]@ == Json::Null,
            decreases index - items.len(),
        {
            items.push(JsonValue::Null);
        }
        items.push(insert.concrete());
    }
    proof {
        lemma_items_view(items@);
        lemma_items_view(before);
        assert(items_view(items@) =~= padded(
            items_view(before),
            index as nat,
            insert.spec_concrete(),
        ));
    }
    &mut items[index]
}

} // verus!
