//! JSON documents as the library sees them.
use vstd::prelude::*;
use vstd::string::*;

verus! {

/// A JSON number. A floating-point number is kept as its IEEE 754 bits.
#[derive(Clone, Copy, Debug, PartialEq, Eq, Structural)]
pub enum Number {
    PosInt(u64),
    NegInt(i64),
    Float(u64),
}

/// A JSON value.
#[derive(Debug)]
pub enum Value {
    Null,
    Bool(bool),
    Number(Number),
    String(String),
    Array(Vec<Value>),
    Object(Object),
}

/// A JSON object. Where a name occurs more than once the last entry counts.
#[derive(Debug)]
pub struct Object {
    pub entries: Vec<(String, Value)>,
}

/// The mathematical content of a [`Value`].
#[verifier::ext_equal]
pub enum Json {
    Null,
    Bool(bool),
    Number(Number),
    String(Seq<char>),
    Array(Seq<Json>),
    Object(Map<Seq<char>, Json>),
}

/// The content of a value.
pub open spec fn json_of(v: Value) -> Json
    decreases v,
{
    match v {
        Value::Null => Json::Null,
        Value::Bool(b) => Json::Bool(b),
        Value::Number(n) => Json::Number(n),
        Value::String(s) => Json::String(s@),
        Value::Array(items) => Json::Array(array_of(items@)),
        Value::Object(o) => Json::Object(fields_of(o.entries@)),
    }
}

/// The contents of a list of values, in order.
pub open spec fn array_of(items: Seq<Value>) -> Seq<Json>
    decreases items,
{
    Seq::new(
        items.len(),
        |i: int|
            if 0 <= i < items.len() {
                json_of(items[i])
            } else {
                Json::Null
            },
    )
}

/// The fields that a list of entries describes: a later entry replaces an
/// earlier one of the same name.
pub open spec fn fields_of(entries: Seq<(String, Value)>) -> Map<Seq<char>, Json>
    decreases entries,
{
    if entries.len() == 0 {
        Map::empty()
    } else {
        fields_of(entries.drop_last()).insert(entries.last().0@, json_of(entries.last().1))
    }
}

impl View for Value {
    type V = Json;

    open spec fn view(&self) -> Json {
        json_of(*self)
    }
}

impl View for Object {
    type V = Map<Seq<char>, Json>;

    open spec fn view(&self) -> Map<Seq<char>, Json> {
        fields_of(self.entries@)
    }
}

/// True where `name` occurs in `entries` at `i` and at no later place.
pub open spec fn last_occurrence(entries: Seq<(String, Value)>, name: Seq<char>, i: int) -> bool {
    &&& 0 <= i < entries.len()
    &&& entries[i].0@ == name
    &&& forall|j: int| i < j < entries.len() ==> (#[trigger] entries[j]).0@ != name
}

proof fn lemma_field_present(entries: Seq<(String, Value)>, name: Seq<char>, i: int)
    requires
        last_occurrence(entries, name, i),
    ensures
        fields_of(entries).dom().contains(name),
        fields_of(entries)[name] == json_of(entries[i].1),
    decreases entries.len(),
{
    if i < entries.len() - 1 {
        assert(entries[entries.len() - 1].0@ != name);
        lemma_field_present(entries.drop_last(), name, i);
    }
}

proof fn lemma_field_absent(entries: Seq<(String, Value)>, name: Seq<char>)
    requires
        forall|j: int| 0 <= j < entries.len() ==> (#[trigger] entries[j]).0@ != name,
    ensures
        !fields_of(entries).dom().contains(name),
    decreases entries.len(),
{
    if entries.len() > 0 {
        assert(entries[entries.len() - 1].0@ != name);
        lemma_field_absent(entries.drop_last(), name);
    }
}

proof fn lemma_field_replaced(entries: Seq<(String, Value)>, i: int, entry: (String, Value))
    requires
        last_occurrence(entries, entry.0@, i),
    ensures
        fields_of(entries.update(i, entry)) == fields_of(entries).insert(
            entry.0@,
            json_of(entry.1),
        ),
    decreases entries.len(),
{
    let updated = entries.update(i, entry);
    if i == entries.len() - 1 {
        assert(updated.drop_last() =~= entries.drop_last());
    } else {
        let last = entries[entries.len() - 1];
        assert(last.0@ != entry.0@);
        lemma_field_replaced(entries.drop_last(), i, entry);
        assert(updated.drop_last() =~= entries.drop_last().update(i, entry));
        assert(updated.last() == last);
    }
    assert(fields_of(updated) =~= fields_of(entries).insert(entry.0@, json_of(entry.1)));
}

proof fn lemma_fields_empty(entries: Seq<(String, Value)>)
    ensures
        (entries.len() == 0) == (fields_of(entries) == Map::<Seq<char>, Json>::empty()),
{
    if entries.len() > 0 {
        assert(fields_of(entries).dom().contains(entries.last().0@));
    }
}

impl Object {
    /// The object without fields.
    pub fn new() -> (o: Self)
        ensures
            o@ == Map::<Seq<char>, Json>::empty(),
    {
        Object { entries: Vec::new() }
    }

    /// True where the object has no field.
    pub fn is_empty(&self) -> (b: bool)
        ensures
            b == (self@ == Map::<Seq<char>, Json>::empty()),
    {
        proof {
            lemma_fields_empty(self.entries@);
        }
        self.entries.len() == 0
    }

    fn position(&self, name: &str) -> (r: Option<usize>)
        ensures
            match r {
                Some(i) => last_occurrence(self.entries@, name@, i as int),
                None => forall|j: int|
                    0 <= j < self.entries@.len() ==> (#[trigger] self.entries@[j]).0@ != name@,
            },
    {
        let mut i: usize = self.entries.len();
        while i > 0
            invariant
                i <= self.entries@.len(),
                forall|j: int|
                    i <= j < self.entries@.len() ==> (#[trigger] self.entries@[j]).0@ != name@,
            decreases i,
        {
            i = i - 1;
            if self.entries[i].0.as_str().eq(name) {
                return Some(i);
            }
        }
        None
    }

    /// The field of that name.
    pub fn get(&self, name: &str) -> (r: Option<&Value>)
        ensures
            match r {
                Some(v) => self@.dom().contains(name@) && v@ == self@[name@],
                None => !self@.dom().contains(name@),
            },
    {
        match self.position(name) {
            Some(i) => {
                proof {
                    lemma_field_present(self.entries@, name@, i as int);
                }
                Some(&self.entries[i].1)
            },
            None => {
                proof {
                    lemma_field_absent(self.entries@, name@);
                }
                None
            },
        }
    }

    /// Sets the field of that name.
    pub fn insert(&mut self, name: String, value: Value)
        ensures
            final(self)@ == old(self)@.insert(name@, value@),
    {
        match self.position(name.as_str()) {
            Some(i) => {
                proof {
                    lemma_field_replaced(self.entries@, i as int, (name, value));
                }
                self.entries.set(i, (name, value));
            },
            None => {
                let ghost before = self.entries@;
                self.entries.push((name, value));
                assert(self.entries@.drop_last() =~= before);
            },
        }
    }
}

impl Value {
    /// The field `name` of an object; `None` for a value of another kind.
    pub fn get(&self, name: &str) -> (r: Option<&Value>)
        ensures
            match r {
                Some(v) => field_of(self@, name@) == Some(v@),
                None => field_of(self@, name@) is None,
            },
    {
        match self {
            Value::Object(o) => o.get(name),
            _ => None,
        }
    }

    /// The text of a string value.
    pub fn as_str(&self) -> (r: Option<&str>)
        ensures
            match r {
                Some(s) => text_of(self@) == Some(s@),
                None => text_of(self@) is None,
            },
    {
        match self {
            Value::String(s) => Some(s.as_str()),
            _ => None,
        }
    }

    /// The number of a value that holds an unsigned integer.
    pub fn as_u64(&self) -> (r: Option<u64>)
        ensures
            r == unsigned_of(self@),
    {
        match self {
            Value::Number(Number::PosInt(n)) => Some(*n),
            _ => None,
        }
    }
}

/// The field `name` of `v`, where `v` is an object that has it.
pub open spec fn field_of(v: Json, name: Seq<char>) -> Option<Json> {
    match v {
        Json::Object(fields) => if fields.dom().contains(name) {
            Some(fields[name])
        } else {
            None
        },
        _ => None,
    }
}

/// The text of `v`, where `v` is a string.
pub open spec fn text_of(v: Json) -> Option<Seq<char>> {
    match v {
        Json::String(s) => Some(s),
        _ => None,
    }
}

/// The text of the field `name` of `v`, where it is a string.
pub open spec fn text_field_of(v: Json, name: Seq<char>) -> Option<Seq<char>> {
    match field_of(v, name) {
        Some(f) => text_of(f),
        None => None,
    }
}

/// The number `v` holds, where `v` is an unsigned integer.
pub open spec fn unsigned_of(v: Json) -> Option<u64> {
    match v {
        Json::Number(Number::PosInt(n)) => Some(n),
        _ => None,
    }
}

impl Clone for Object {
    fn clone(&self) -> (r: Self)
        ensures
            r@ == self@,
        decreases self,
    {
        let mut entries: Vec<(String, Value)> = Vec::new();
        let mut i: usize = 0;
        while i < self.entries.len()
            invariant
                i <= self.entries@.len(),
                entries@.len() == i,
                fields_of(entries@) == fields_of(self.entries@.take(i as int)),
            decreases self.entries@.len() - i,
        {
            let ghost before = entries@;
            assert(decreases_to!(self => self.entries@[i as int].1));
            entries.push((self.entries[i].0.clone(), self.entries[i].1.clone()));
            assert(entries@.drop_last() =~= before);
            assert(self.entries@.take(i + 1).drop_last() =~= self.entries@.take(i as int));
            i = i + 1;
        }
        assert(self.entries@.take(i as int) =~= self.entries@);
        Object { entries }
    }
}

impl Clone for Value {
    fn clone(&self) -> (r: Self)
        ensures
            r@ == self@,
        decreases self,
    {
        match self {
            Value::Null => Value::Null,
            Value::Bool(b) => Value::Bool(*b),
            Value::Number(n) => Value::Number(*n),
            Value::String(s) => Value::String(s.clone()),
            Value::Array(items) => {
                let mut copies: Vec<Value> = Vec::new();
                let mut i: usize = 0;
                while i < items.len()
                    invariant
                        *self == Value::Array(*items),
                        i <= items@.len(),
                        copies@.len() == i,
                        forall|j: int|
                            0 <= j < i ==> json_of(#[trigger] copies@[j]) == json_of(items@[j]),
                    decreases items@.len() - i,
                {
                    assert(decreases_to!(self => self->Array_0@[i as int]));
                    copies.push(items[i].clone());
                    i = i + 1;
                }
                assert(array_of(copies@) =~= array_of(items@));
                Value::Array(copies)
            },
            Value::Object(o) => Value::Object(o.clone()),
        }
    }
}

} // verus!
