use vstd::prelude::*;

verus! {

/// A JSON document, held as plain values.
///
/// Numbers keep the text that serde_json prints for them. Object members are kept
/// in the order they are given; those of a document read by serde_json come sorted
/// by key, as its map (a `BTreeMap`) hands them out.
#[derive(Debug, PartialEq)]
pub enum JsonValue {
    Null,
    Bool(bool),
    Number(String),
    Str(String),
    Array(Vec<JsonValue>),
    Object(Vec<(String, JsonValue)>),
}

/// The mathematical model of a `JsonValue`.
pub enum JsonView {
    Null,
    Bool(bool),
    Number(Seq<char>),
    Str(Seq<char>),
    Array(Seq<JsonView>),
    Object(Seq<(Seq<char>, JsonView)>),
}

impl JsonValue {
    pub open spec fn model(self) -> JsonView
        decreases self,
    {
        match self {
            JsonValue::Null => JsonView::Null,
            JsonValue::Bool(b) => JsonView::Bool(b),
            JsonValue::Number(n) => JsonView::Number(n@),
            JsonValue::Str(s) => JsonView::Str(s@),
            JsonValue::Array(items) => JsonView::Array(Self::models(items@)),
            JsonValue::Object(members) => JsonView::Object(Self::member_models(members@)),
        }
    }

    pub open spec fn models(items: Seq<JsonValue>) -> Seq<JsonView>
        decreases items,
    {
        if items.len() == 0 {
            Seq::empty()
        } else {
            Self::models(items.drop_last()).push(items.last().model())
        }
    }

    pub open spec fn member_models(members: Seq<(String, JsonValue)>) -> Seq<(Seq<char>, JsonView)>
        decreases members,
    {
        if members.len() == 0 {
            Seq::empty()
        } else {
            Self::member_models(members.drop_last()).push(
                (members.last().0@, members.last().1.model()),
            )
        }
    }
}

impl View for JsonValue {
    type V = JsonView;

    open spec fn view(&self) -> JsonView {
        self.model()
    }
}

pub proof fn lemma_models(items: Seq<JsonValue>)
    ensures
        JsonValue::models(items).len() == items.len(),
        forall|i: int| 0 <= i < items.len() ==> #[trigger] JsonValue::models(items)[i] == items[i].model(),
    decreases items.len(),
{
    if items.len() > 0 {
        lemma_models(items.drop_last());
    }
}

/// Values whose models are `target`, item by item, have `target` as their models.
pub proof fn lemma_models_eq(items: Seq<JsonValue>, target: Seq<JsonView>)
    requires
        items.len() == target.len(),
        forall|j: int| 0 <= j < items.len() ==> #[trigger] items[j]@ == target[j],
    ensures
        JsonValue::models(items) == target,
{
    lemma_models(items);
    assert forall|j: int| 0 <= j < items.len() implies JsonValue::models(items)[j] == target[j] by {
        assert(items[j]@ == target[j]);
    }
    assert(JsonValue::models(items) =~= target);
}

pub proof fn lemma_member_models(members: Seq<(String, JsonValue)>)
    ensures
        JsonValue::member_models(members).len() == members.len(),
        forall|i: int| 0 <= i < members.len() ==> #[trigger] JsonValue::member_models(members)[i] == (members[i].0@, members[i].1.model()),
    decreases members.len(),
{
    if members.len() > 0 {
        lemma_member_models(members.drop_last());
    }
}

/// The value that `members` holds under `key`: the first member with that key.
pub open spec fn lookup(members: Seq<(Seq<char>, JsonView)>, key: Seq<char>) -> Option<JsonView>
    decreases members.len(),
{
    if members.len() == 0 {
        None
    } else if members[0].0 == key {
        Some(members[0].1)
    } else {
        lookup(members.drop_first(), key)
    }
}

impl JsonView {
    pub open spec fn get(self, key: Seq<char>) -> Option<JsonView> {
        match self {
            JsonView::Object(members) => lookup(members, key),
            _ => None,
        }
    }

    pub open spec fn as_str(self) -> Option<Seq<char>> {
        match self {
            JsonView::Str(s) => Some(s),
            _ => None,
        }
    }

    pub open spec fn as_bool(self) -> Option<bool> {
        match self {
            JsonView::Bool(b) => Some(b),
            _ => None,
        }
    }

    pub open spec fn as_array(self) -> Option<Seq<JsonView>> {
        match self {
            JsonView::Array(items) => Some(items),
            _ => None,
        }
    }

    pub open spec fn as_object(self) -> Option<Seq<(Seq<char>, JsonView)>> {
        match self {
            JsonView::Object(members) => Some(members),
            _ => None,
        }
    }

    /// `get(key)` followed by `as_str()`.
    pub open spec fn get_str(self, key: Seq<char>) -> Option<Seq<char>> {
        match self.get(key) {
            Some(v) => v.as_str(),
            None => None,
        }
    }
}

pub open spec fn opt_model(o: Option<&JsonValue>) -> Option<JsonView> {
    match o {
        Some(v) => Some(v@),
        None => None,
    }
}

impl Clone for JsonValue {
    fn clone(&self) -> (r: Self)
        ensures
            r@ == self@,
        decreases self,
    {
        match self {
            JsonValue::Null => JsonValue::Null,
            JsonValue::Bool(b) => JsonValue::Bool(*b),
            JsonValue::Number(n) => JsonValue::Number(n.clone()),
            JsonValue::Str(s) => JsonValue::Str(s.clone()),
            JsonValue::Array(items) => {
                let mut out: Vec<JsonValue> = Vec::new();
                let mut i: usize = 0;
                while i < items.len()
                    invariant
                        i <= items.len(),
                        out@.len() == i,
                        *self == JsonValue::Array(*items),
                        forall|j: int| 0 <= j < i ==> #[trigger] out@[j]@ == items@[j]@,
                    decreases items.len() - i,
                {
                    proof {
                        assert(decreases_to!(items@ => items@[i as int]));
                        assert(decreases_to!(*items => items@));
                        assert(decreases_to!(*self => (*self)->Array_0));
                    }
                    let c = items[i].clone();
                    out.push(c);
                    i = i + 1;
                }
                proof {
                    lemma_models(items@);
                    lemma_models(out@);
                    assert forall|j: int| 0 <= j < items@.len() implies JsonValue::models(out@)[j] == JsonValue::models(items@)[j] by {
                        assert(out@[j]@ == items@[j]@);
                    }
                    assert(JsonValue::models(out@) =~= JsonValue::models(items@));
                }
                JsonValue::Array(out)
            },
            JsonValue::Object(members) => {
                let mut out: Vec<(String, JsonValue)> = Vec::new();
                let mut i: usize = 0;
                while i < members.len()
                    invariant
                        i <= members.len(),
                        out@.len() == i,
                        *self == JsonValue::Object(*members),
                        forall|j: int| 0 <= j < i ==> (#[trigger] out@[j]).0@ == members@[j].0@,
                        forall|j: int| 0 <= j < i ==> (#[trigger] out@[j]).1@ == members@[j].1@,
                    decreases members.len() - i,
                {
                    proof {
                        assert(decreases_to!(members@[i as int] => members@[i as int].1));
                        assert(decreases_to!(members@ => members@[i as int]));
                        assert(decreases_to!(*members => members@));
                        assert(decreases_to!(*self => (*self)->Object_0));
                    }
                    let k = members[i].0.clone();
                    let c = members[i].1.clone();
                    out.push((k, c));
                    i = i + 1;
                }
                proof {
                    lemma_member_models(members@);
                    lemma_member_models(out@);
                    assert forall|j: int| 0 <= j < members@.len() implies JsonValue::member_models(out@)[j] == JsonValue::member_models(members@)[j] by {
                        assert(out@[j].0@ == members@[j].0@ && out@[j].1@ == members@[j].1@);
                    }
                    assert(JsonValue::member_models(out@) =~= JsonValue::member_models(members@));
                }
                JsonValue::Object(out)
            },
        }
    }
}

impl JsonValue {
    /// The member of an object under `key` (the first one, should there be several).
    pub fn get(&self, key: &str) -> (r: Option<&JsonValue>)
        ensures
            opt_model(r) == self@.get(key@),
    {
        match self {
            JsonValue::Object(members) => {
                let ghost m = JsonValue::member_models(members@);
                proof {
                    lemma_member_models(members@);
                    assert(m.skip(0) =~= m);
                }
                let mut i: usize = 0;
                while i < members.len()
                    invariant
                        i <= members.len(),
                        m == JsonValue::member_models(members@),
                        *self == JsonValue::Object(*members),
                        m.len() == members@.len(),
                        forall|j: int| 0 <= j < members.len() ==> #[trigger] m[j] == (members@[j].0@, members@[j].1.model()),
                        lookup(m, key@) == lookup(m.skip(i as int), key@),
                    decreases members.len() - i,
                {
                    if crate::text::str_eq(members[i].0.as_str(), key) {
                        assert(m.skip(i as int)[0] == m[i as int]);
                        assert(m[i as int].0 == key@);
                        assert(lookup(m.skip(i as int), key@) == Some(m[i as int].1));
                        assert(*self == JsonValue::Object(*members));
                        assert(self@ == JsonView::Object(m));
                        assert(self@.get(key@) == lookup(m, key@));
                        return Some(&members[i].1);
                    }
                    assert(m.skip(i as int).drop_first() =~= m.skip(i + 1));
                    i = i + 1;
                }
                None
            },
            _ => None,
        }
    }

    pub fn as_str(&self) -> (r: Option<&str>)
        ensures
            match r {
                Some(s) => self@.as_str() == Some(s@),
                None => self@.as_str() is None,
            },
    {
        match self {
            JsonValue::Str(s) => Some(s.as_str()),
            _ => None,
        }
    }

    pub fn as_bool(&self) -> (r: Option<bool>)
        ensures
            r == self@.as_bool(),
    {
        match self {
            JsonValue::Bool(b) => Some(*b),
            _ => None,
        }
    }

    pub fn as_array(&self) -> (r: Option<&Vec<JsonValue>>)
        ensures
            match r {
                Some(items) => self@.as_array() == Some(JsonValue::models(items@)),
                None => self@.as_array() is None,
            },
    {
        match self {
            JsonValue::Array(items) => Some(items),
            _ => None,
        }
    }

    pub fn as_object(&self) -> (r: Option<&Vec<(String, JsonValue)>>)
        ensures
            match r {
                Some(members) => self@.as_object() == Some(JsonValue::member_models(members@)),
                None => self@.as_object() is None,
            },
    {
        match self {
            JsonValue::Object(members) => Some(members),
            _ => None,
        }
    }

    /// `get(key)` followed by `as_str()`.
    pub fn get_str(&self, key: &str) -> (r: Option<&str>)
        ensures
            match r {
                Some(s) => self@.get_str(key@) == Some(s@),
                None => self@.get_str(key@) is None,
            },
    {
        match self.get(key) {
            Some(v) => v.as_str(),
            None => None,
        }
    }
}

/// The value under `key` among `members`: the first member with that key.
pub fn member_get<'a>(members: &'a Vec<(String, JsonValue)>, key: &str) -> (r: Option<&'a JsonValue>)
    ensures
        opt_model(r) == lookup(JsonValue::member_models(members@), key@),
{
    let ghost m = JsonValue::member_models(members@);
    proof {
        lemma_member_models(members@);
        assert(m.skip(0) =~= m);
    }
    let mut i: usize = 0;
    while i < members.len()
        invariant
            i <= members.len(),
            m == JsonValue::member_models(members@),
            m.len() == members@.len(),
            forall|j: int| 0 <= j < members.len() ==> #[trigger] m[j] == (members@[j].0@, members@[j].1.model()),
            lookup(m, key@) == lookup(m.skip(i as int), key@),
        decreases members.len() - i,
    {
        if crate::text::str_eq(members[i].0.as_str(), key) {
            assert(m.skip(i as int)[0] == m[i as int]);
            return Some(&members[i].1);
        }
        assert(m.skip(i as int).drop_first() =~= m.skip(i + 1));
        i = i + 1;
    }
    None
}

/// The position of the first member with key `key`.
pub fn member_position(members: &Vec<(String, JsonValue)>, key: &str) -> (r: Option<usize>)
    ensures
        match r {
            Some(i) => i < members@.len() && members@[i as int].0@ == key@
                && lookup(JsonValue::member_models(members@), key@) == Some(members@[i as int].1@),
            None => lookup(JsonValue::member_models(members@), key@) is None,
        },
{
    let ghost m = JsonValue::member_models(members@);
    proof {
        lemma_member_models(members@);
        assert(m.skip(0) =~= m);
    }
    let mut i: usize = 0;
    while i < members.len()
        invariant
            i <= members.len(),
            m == JsonValue::member_models(members@),
            m.len() == members@.len(),
            forall|j: int| 0 <= j < members.len() ==> #[trigger] m[j] == (members@[j].0@, members@[j].1.model()),
            lookup(m, key@) == lookup(m.skip(i as int), key@),
        decreases members.len() - i,
    {
        if crate::text::str_eq(members[i].0.as_str(), key) {
            assert(m.skip(i as int)[0] == m[i as int]);
            return Some(i);
        }
        assert(m.skip(i as int).drop_first() =~= m.skip(i + 1));
        i = i + 1;
    }
    None
}

/// A copy of each value, in order.
pub fn copy_values(v: &Vec<JsonValue>) -> (r: Vec<JsonValue>)
    ensures
        JsonValue::models(r@) == JsonValue::models(v@),
        r@.len() == v@.len(),
{
    let mut r: Vec<JsonValue> = Vec::new();
    let mut i: usize = 0;
    while i < v.len()
        invariant
            i <= v@.len(),
            r@.len() == i,
            forall|j: int| 0 <= j < i ==> #[trigger] r@[j]@ == v@[j]@,
        decreases v@.len() - i,
    {
        r.push(v[i].clone());
        i = i + 1;
    }
    proof {
        lemma_models(v@);
        assert forall|j: int| 0 <= j < r@.len() implies r@[j]@ == JsonValue::models(v@)[j] by {
            assert(r@[j]@ == v@[j]@);
        }
        lemma_models_eq(r@, JsonValue::models(v@));
    }
    r
}

/// The items of the array `v` holds, copied; none where `v` is absent or not an array.
pub fn array_or_empty(v: Option<&JsonValue>) -> (r: Vec<JsonValue>)
    ensures
        JsonValue::models(r@) == match opt_model(v) {
            Some(JsonView::Array(items)) => items,
            _ => Seq::<JsonView>::empty(),
        },
{
    match v {
        Some(JsonValue::Array(items)) => copy_values(items),
        _ => {
            let r: Vec<JsonValue> = Vec::new();
            assert(JsonValue::models(r@) =~= Seq::<JsonView>::empty());
            r
        },
    }
}

/// serde_json's own value type, carried through the two conversions below.
#[verifier::external_type_specification]
#[verifier::external_body]
pub struct ExSerdeJsonValue(serde_json::Value);

/// What `serde_json::from_str::<serde_json::Value>` makes of a text: the document,
/// or the text of its error.
pub uninterp spec fn json_parse(text: Seq<char>) -> Result<JsonView, Seq<char>>;

/// The compact text that serde_json prints for a document (`Value`'s `to_string`).
pub uninterp spec fn json_text(v: JsonView) -> Seq<char>;

/// Turns a serde_json value into the library's own, member for member.
#[verifier::external_body]
fn from_serde(v: serde_json::Value) -> JsonValue {
    match v {
        serde_json::Value::Null => JsonValue::Null,
        serde_json::Value::Bool(b) => JsonValue::Bool(b),
        serde_json::Value::Number(n) => JsonValue::Number(n.to_string()),
        serde_json::Value::String(s) => JsonValue::Str(s),
        serde_json::Value::Array(a) => JsonValue::Array(a.into_iter().map(from_serde).collect()),
        serde_json::Value::Object(m) => JsonValue::Object(
            m.into_iter().map(|(k, x)| (k, from_serde(x))).collect(),
        ),
    }
}

/// Turns the library's value into serde_json's, member for member; a number whose
/// text serde_json does not read becomes `null`.
#[verifier::external_body]
fn to_serde(v: &JsonValue) -> serde_json::Value {
    match v {
        JsonValue::Null => serde_json::Value::Null,
        JsonValue::Bool(b) => serde_json::Value::Bool(*b),
        JsonValue::Number(n) => n.parse().map(serde_json::Value::Number).unwrap_or(serde_json::Value::Null),
        JsonValue::Str(s) => serde_json::Value::String(s.clone()),
        JsonValue::Array(a) => serde_json::Value::Array(a.iter().map(to_serde).collect()),
        JsonValue::Object(m) => serde_json::Value::Object(
            m.iter().map(|(k, x)| (k.clone(), to_serde(x))).collect(),
        ),
    }
}

/// Calls `serde_json::from_str` for a `serde_json::Value`; the outcome is named by
/// `json_parse`.
#[verifier::external_body]
pub(crate) fn parse_json(text: &str) -> (r: Result<JsonValue, String>)
    ensures
        match r {
            Ok(v) => json_parse(text@) == Ok::<JsonView, Seq<char>>(v@),
            Err(e) => json_parse(text@) == Err::<JsonView, Seq<char>>(e@),
        },
{
    match serde_json::from_str::<serde_json::Value>(text) {
        Ok(v) => Ok(from_serde(v)),
        Err(e) => Err(e.to_string()),
    }
}

/// Calls `to_string` on the serde_json form of `v`, which prints compact JSON; the
/// text is named by `json_text`.
#[verifier::external_body]
pub(crate) fn to_json_text(v: &JsonValue) -> (r: String)
    ensures
        r@ == json_text(v@),
{
    to_serde(v).to_string()
}

} // verus!
