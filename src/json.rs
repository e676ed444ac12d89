use vstd::prelude::*;

verus! {

/// A parsed JSON document, as the codec reads and writes it.
///
/// Objects keep their members in order; a number is kept as an `i64` when it is
/// an integer in that range.
#[derive(Debug, PartialEq, Eq)]
pub enum JsonValue {
    Null,
    Bool(bool),
    Int(i64),
    /// A number that is not an integer in the range of `i64`.
    OtherNumber,
    Str(String),
    Array(Vec<JsonValue>),
    Object(Vec<(String, JsonValue)>),
}

/// The mathematical value of a JSON document.
pub enum Json {
    Null,
    Bool(bool),
    Int(int),
    OtherNumber,
    Str(Seq<char>),
    Array(Seq<Json>),
    Object(Seq<(Seq<char>, Json)>),
}

pub open spec fn json_view(j: JsonValue) -> Json
    decreases j,
{
    match j {
        JsonValue::Null => Json::Null,
        JsonValue::Bool(b) => Json::Bool(b),
        JsonValue::Int(n) => Json::Int(n as int),
        JsonValue::OtherNumber => Json::OtherNumber,
        JsonValue::Str(s) => Json::Str(s@),
        JsonValue::Array(items) => Json::Array(
            Seq::new(
                items@.len(),
                |i: int|
                    if 0 <= i < items@.len() {
                        json_view(items@[i])
                    } else {
                        Json::Null
                    },
            ),
        ),
        JsonValue::Object(fields) => Json::Object(
            Seq::new(
                fields@.len(),
                |i: int|
                    if 0 <= i < fields@.len() {
                        (fields@[i].0@, json_view(fields@[i].1))
                    } else {
                        (Seq::empty(), Json::Null)
                    },
            ),
        ),
    }
}

impl View for JsonValue {
    type V = Json;

    open spec fn view(&self) -> Json {
        json_view(*self)
    }
}

/// The members of an object, as a sequence of names and values.
pub open spec fn members_view(fields: Vec<(String, JsonValue)>) -> Seq<(Seq<char>, Json)> {
    json_view(JsonValue::Object(fields))->Object_0
}

/// Index of the first member of `fields` named `key`, if any.
pub open spec fn find_key(fields: Seq<(Seq<char>, Json)>, key: Seq<char>) -> Option<int>
    decreases fields.len(),
{
    if fields.len() == 0 {
        None
    } else {
        match find_key(fields.drop_last(), key) {
            Some(i) => Some(i),
            None => if fields.last().0 == key {
                Some(fields.len() - 1)
            } else {
                None
            },
        }
    }
}

/// `find_key` gives the first member with the name, or `None` when no member has it.
pub proof fn lemma_find_key_range(fields: Seq<(Seq<char>, Json)>, key: Seq<char>)
    ensures
        match find_key(fields, key) {
            Some(i) => 0 <= i < fields.len() && fields[i].0 == key && forall|j: int|
                0 <= j < i ==> fields[j].0 != key,
            None => forall|j: int| 0 <= j < fields.len() ==> fields[j].0 != key,
        },
    decreases fields.len(),
{
    if fields.len() > 0 {
        let init = fields.drop_last();
        lemma_find_key_range(init, key);
        assert(forall|j: int| 0 <= j < init.len() ==> init[j] == fields[j]);
    }
}

/// The first member with the name is found at its index.
pub proof fn lemma_find_key_at(fields: Seq<(Seq<char>, Json)>, key: Seq<char>, i: int)
    requires
        0 <= i < fields.len(),
        fields[i].0 == key,
        forall|j: int| 0 <= j < i ==> fields[j].0 != key,
    ensures
        find_key(fields, key) == Some(i),
{
    lemma_find_key_range(fields, key);
}

/// A name that no member has is not found.
pub proof fn lemma_find_key_absent(fields: Seq<(Seq<char>, Json)>, key: Seq<char>)
    requires
        forall|j: int| 0 <= j < fields.len() ==> fields[j].0 != key,
    ensures
        find_key(fields, key) is None,
{
    lemma_find_key_range(fields, key);
}

/// The value of the first member named `key`, if any.
pub open spec fn member(fs: Seq<(Seq<char>, Json)>, key: Seq<char>) -> Option<Json> {
    match find_key(fs, key) {
        Some(i) => if 0 <= i < fs.len() {
            Some(fs[i].1)
        } else {
            None
        },
        None => None,
    }
}

/// The first member of `fields` with the given name.
pub fn find_field<'a>(fields: &'a Vec<(String, JsonValue)>, key: &str) -> (r: Option<&'a JsonValue>)
    ensures
        r is None <==> find_key(members_view(*fields), key@) is None,
        r matches Some(v) ==> v@ == members_view(*fields)[find_key(members_view(*fields), key@)->Some_0].1,
        match r {
            Some(v) => member(members_view(*fields), key@) == Some(v@),
            None => member(members_view(*fields), key@) is None,
        },
{
    let ghost fs = members_view(*fields);
    proof {
        lemma_find_key_range(fs, key@);
    }
    let k = key.to_owned();
    let mut i: usize = 0;
    while i < fields.len()
        invariant
            i <= fields@.len(),
            fs.len() == fields@.len(),
            k@ == key@,
            forall|j: int| 0 <= j < i ==> fs[j].0 != key@,
            forall|j: int| 0 <= j < fields@.len() ==> #[trigger] fs[j] == (fields@[j].0@, json_view(fields@[j].1)),
            match find_key(fs, key@) {
                Some(x) => 0 <= x < fs.len() && fs[x].0 == key@ && forall|j: int|
                    0 <= j < x ==> fs[j].0 != key@,
                None => forall|j: int| 0 <= j < fs.len() ==> fs[j].0 != key@,
            },
        decreases fields.len() - i,
    {
        if fields[i].0 == k {
            assert(fs[i as int].0 == key@);
            assert(find_key(fs, key@) == Some(i as int));
            let v = &fields[i].1;
            assert(fs[i as int].1 == v@);
            assert(fs == members_view(*fields));
            return Some(v);
        }
        i = i + 1;
    }
    None
}

} // verus!
