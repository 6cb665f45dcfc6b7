//! The value tree, and the mathematical model that the contracts speak of.
use vstd::prelude::*;

verus! {

/// The model of a value tree. Text is a sequence of characters, an array a
/// sequence of values, an object its members in the order in which they
/// were first inserted.
pub enum ValueModel {
    Text(Seq<char>),
    Int(i64),
    /// A number with a fraction or an exponent, held as its decimal literal.
    Float(Seq<char>),
    Bool(bool),
    Null,
    Array(Seq<ValueModel>),
    Object(Seq<MemberModel>),
}

/// The model of one member of an object.
pub struct MemberModel {
    pub key: Seq<char>,
    pub value: ValueModel,
}

/// The index of the first member at or after `from` that has the key, or
/// the number of members where there is none.
pub open spec fn key_index_from(members: Seq<MemberModel>, key: Seq<char>, from: int) -> int
    decreases members.len() - from,
{
    if from < 0 || from >= members.len() {
        members.len() as int
    } else if members[from].key == key {
        from
    } else {
        key_index_from(members, key, from + 1)
    }
}

/// The index of the first member that has the key, or the number of members
/// where there is none.
pub open spec fn key_index(members: Seq<MemberModel>, key: Seq<char>) -> int {
    key_index_from(members, key, 0)
}

/// The value stored under a key.
pub open spec fn member_value(members: Seq<MemberModel>, key: Seq<char>) -> Option<ValueModel> {
    let i = key_index(members, key);
    if i < members.len() {
        Some(members[i].value)
    } else {
        None
    }
}

/// The members after an insertion: the value of a key that is present is
/// replaced where it stands, a new key is added at the end.
pub open spec fn insert_member(members: Seq<MemberModel>, key: Seq<char>, value: ValueModel) -> Seq<
    MemberModel,
> {
    let i = key_index(members, key);
    if i < members.len() {
        members.update(i, MemberModel { key, value })
    } else {
        members.push(MemberModel { key, value })
    }
}

/// No key occurs twice.
pub open spec fn distinct_keys(members: Seq<MemberModel>) -> bool {
    forall|i: int, j: int|
        0 <= i < j < members.len() ==> (#[trigger] members[i]).key != (#[trigger] members[j]).key
}

/// `key_index_from` finds the first member with the key: no member before
/// the index has it, and the member at the index, if any, has it.
pub proof fn lemma_key_index_from(members: Seq<MemberModel>, key: Seq<char>, from: int)
    requires
        0 <= from <= members.len(),
    ensures
        from <= key_index_from(members, key, from) <= members.len(),
        forall|j: int|
            from <= j < key_index_from(members, key, from) ==> (#[trigger] members[j]).key != key,
        key_index_from(members, key, from) < members.len() ==> members[key_index_from(
            members,
            key,
            from,
        )].key == key,
    decreases members.len() - from,
{
    if from < members.len() && members[from].key != key {
        lemma_key_index_from(members, key, from + 1);
    }
}

/// Insertion keeps the keys distinct.
pub proof fn lemma_insert_keeps_distinct(members: Seq<MemberModel>, key: Seq<char>, value: ValueModel)
    requires
        distinct_keys(members),
    ensures
        distinct_keys(insert_member(members, key, value)),
        member_value(insert_member(members, key, value), key) == Some(value),
{
    lemma_key_index_from(members, key, 0);
    let after = insert_member(members, key, value);
    let i = key_index(members, key);
    lemma_key_index_from(after, key, 0);
    assert(after[i].key == key);
    let k = key_index(after, key);
    if k < i {
        assert(after[k].key == members[k].key);
    }
}

/// A key of an object.
#[derive(Debug, Clone, PartialEq, Eq, Hash)]
pub struct JsonKey(pub String);

impl View for JsonKey {
    type V = Seq<char>;

    open spec fn view(&self) -> Seq<char> {
        self.0@
    }
}

/// A number: an integer, or a number written with a fraction or an
/// exponent, which is held as its decimal literal.
#[derive(Debug, Clone, PartialEq)]
pub enum NumberType {
    Int(i64),
    Float(String),
}

/// A value of the tree.
#[derive(Debug, PartialEq)]
pub enum JsonValue {
    ValueString(String),
    ValueNumber(NumberType),
    ValueBool(bool),
    ValueNull,
    ValueArray(Vec<JsonValue>),
    ValueObject(JsonObject),
}

/// One member of an object.
#[derive(Debug, PartialEq)]
pub struct JsonMember {
    pub key: JsonKey,
    pub value: JsonValue,
}

/// The members of an object, in the order of their first insertion.
#[derive(Debug, PartialEq)]
pub struct JsonMembers {
    entries: Vec<JsonMember>,
}

/// An object: a mapping from keys to values that remembers the order in
/// which the keys were first inserted.
#[derive(Debug, PartialEq)]
pub struct JsonObject {
    pub members: JsonMembers,
}

impl View for NumberType {
    type V = ValueModel;

    open spec fn view(&self) -> ValueModel {
        match self {
            NumberType::Int(n) => ValueModel::Int(*n),
            NumberType::Float(literal) => ValueModel::Float(literal@),
        }
    }
}

/// The models of the values of an array.
pub open spec fn values_view(items: Seq<JsonValue>) -> Seq<ValueModel>
    decreases items,
{
    Seq::new(
        items.len(),
        |i: int|
            if 0 <= i < items.len() {
                items[i]@
            } else {
                ValueModel::Null
            },
    )
}

/// The models of an array with one more value at its end.
pub proof fn lemma_values_view_push(items: Seq<JsonValue>, item: JsonValue)
    ensures
        values_view(items.push(item)) == values_view(items).push(item@),
{
    assert(values_view(items.push(item)) =~= values_view(items).push(item@));
}

impl View for JsonValue {
    type V = ValueModel;

    open spec fn view(&self) -> ValueModel
        decreases self,
    {
        match self {
            JsonValue::ValueString(s) => ValueModel::Text(s@),
            JsonValue::ValueNumber(number) => number@,
            JsonValue::ValueBool(b) => ValueModel::Bool(*b),
            JsonValue::ValueNull => ValueModel::Null,
            JsonValue::ValueArray(items) => ValueModel::Array(values_view(items@)),
            JsonValue::ValueObject(object) => ValueModel::Object(object.members@),
        }
    }
}

impl View for JsonMember {
    type V = MemberModel;

    open spec fn view(&self) -> MemberModel
        decreases self,
    {
        MemberModel { key: self.key@, value: self.value@ }
    }
}

impl View for JsonMembers {
    type V = Seq<MemberModel>;

    closed spec fn view(&self) -> Seq<MemberModel>
        decreases self,
    {
        Seq::new(
            self.entries@.len(),
            |i: int|
                if 0 <= i < self.entries@.len() {
                    self.entries@[i]@
                } else {
                    MemberModel { key: Seq::empty(), value: ValueModel::Null }
                },
        )
    }
}

impl View for JsonObject {
    type V = Seq<MemberModel>;

    open spec fn view(&self) -> Seq<MemberModel> {
        self.members@
    }
}

impl JsonMembers {
    /// No members.
    pub fn new() -> (members: JsonMembers)
        ensures
            members@ == Seq::<MemberModel>::empty(),
    {
        JsonMembers { entries: Vec::new() }
    }

    /// The number of members.
    pub fn len(&self) -> (n: usize)
        ensures
            n == self@.len(),
    {
        self.entries.len()
    }

    /// The member at a position.
    pub fn entry(&self, i: usize) -> (member: &JsonMember)
        requires
            i < self@.len(),
        ensures
            member@ == self@[i as int],
    {
        &self.entries[i]
    }

    /// The position of the first member with the key, or the number of
    /// members.
    fn find(&self, key: &JsonKey) -> (i: usize)
        ensures
            i == key_index(self@, key@),
            i <= self.entries@.len(),
    {
        let mut i: usize = 0;
        while i < self.entries.len()
            invariant
                i <= self.entries@.len(),
                key_index(self@, key@) == key_index_from(self@, key@, i as int),
            decreases self.entries@.len() - i,
        {
            if self.entries[i].key.0 == key.0 {
                return i;
            }
            i += 1;
        }
        i
    }

    /// The value stored under a key.
    pub fn get(&self, key: &JsonKey) -> (value: Option<&JsonValue>)
        ensures
            match value {
                Some(v) => member_value(self@, key@) == Some(v@),
                None => member_value(self@, key@) is None,
            },
    {
        let i = self.find(key);
        if i < self.entries.len() {
            Some(&self.entries[i].value)
        } else {
            None
        }
    }

    /// Stores a value under a key and returns the value that the key had
    /// before. A key that is present keeps its place; a new key is added
    /// after the others.
    pub fn insert(&mut self, key: JsonKey, value: JsonValue) -> (before: Option<JsonValue>)
        ensures
            final(self)@ == insert_member(old(self)@, key@, value@),
            match before {
                Some(v) => member_value(old(self)@, key@) == Some(v@),
                None => member_value(old(self)@, key@) is None,
            },
            distinct_keys(old(self)@) ==> distinct_keys(final(self)@),
    {
        proof {
            if distinct_keys(self@) {
                lemma_insert_keeps_distinct(self@, key@, value@);
            }
        }
        let i = self.find(&key);
        if i < self.entries.len() {
            let replaced = self.entries.remove(i);
            self.entries.insert(i, JsonMember { key, value });
            assert(self@ =~= insert_member(old(self)@, key@, value@));
            Some(replaced.value)
        } else {
            self.entries.push(JsonMember { key, value });
            assert(self@ =~= insert_member(old(self)@, key@, value@));
            None
        }
    }
}

impl Clone for JsonValue {
    fn clone(&self) -> (copy: JsonValue)
        ensures
            copy@ == self@,
        decreases self@,
    {
        match self {
            JsonValue::ValueString(text) => JsonValue::ValueString(text.clone()),
            JsonValue::ValueNumber(NumberType::Int(n)) => JsonValue::ValueNumber(
                NumberType::Int(*n),
            ),
            JsonValue::ValueNumber(NumberType::Float(literal)) => JsonValue::ValueNumber(
                NumberType::Float(literal.clone()),
            ),
            JsonValue::ValueBool(b) => JsonValue::ValueBool(*b),
            JsonValue::ValueNull => JsonValue::ValueNull,
            JsonValue::ValueArray(items) => {
                let mut copies: Vec<JsonValue> = Vec::new();
                let mut i: usize = 0;
                while i < items.len()
                    invariant
                        i <= items@.len(),
                        self@ == ValueModel::Array(values_view(items@)),
                        copies@.len() == i,
                        forall|k: int| 0 <= k < i ==> (#[trigger] copies@[k])@ == items@[k]@,
                    decreases items@.len() - i,
                {
                    assert(items@[i as int]@ == values_view(items@)[i as int]);
                    assert(self@->Array_0 == values_view(items@));
                    assert(decreases_to!(self@ => self@->Array_0));
                    assert(decreases_to!(values_view(items@) => values_view(items@)[i as int]));
                    let copy = items[i].clone();
                    copies.push(copy);
                    i += 1;
                }
                assert(values_view(copies@) =~= values_view(items@));
                JsonValue::ValueArray(copies)
            },
            JsonValue::ValueObject(object) => {
                assert(self@ == ValueModel::Object(object@));
                assert(self@->Object_0 == object@);
                assert(decreases_to!(self@ => self@->Object_0));
                JsonValue::ValueObject(object.clone())
            },
        }
    }
}

impl Clone for JsonObject {
    fn clone(&self) -> (copy: JsonObject)
        ensures
            copy@ == self@,
        decreases self@,
    {
        let mut entries: Vec<JsonMember> = Vec::new();
        let mut i: usize = 0;
        while i < self.members.entries.len()
            invariant
                i <= self.members.entries@.len(),
                entries@.len() == i,
                forall|k: int| 0 <= k < i ==> (#[trigger] entries@[k])@ == self.members.entries@[k]@,
            decreases self.members.entries@.len() - i,
        {
            let member = &self.members.entries[i];
            assert(member@ == self@[i as int]);
            assert(decreases_to!(self@ => self@[i as int].value));
            let value = member.value.clone();
            entries.push(JsonMember { key: JsonKey(member.key.0.clone()), value });
            i += 1;
        }
        let copy = JsonObject { members: JsonMembers { entries } };
        assert(copy@ =~= self@);
        copy
    }
}

impl JsonObject {
    /// An object without members.
    pub fn new() -> (object: JsonObject)
        ensures
            object@ == Seq::<MemberModel>::empty(),
    {
        JsonObject { members: JsonMembers::new() }
    }
}

} // verus!
