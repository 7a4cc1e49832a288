use vstd::prelude::*;
use crate::error::{AppError, ErrorView};
use crate::json::{JsonValue, JsonView, json_parse, parse_json, lookup, lemma_models, lemma_member_models};
use crate::store::{name_lt, str_less, lemma_name_lt_total, lemma_name_lt_transitive};
use crate::text::{int_text, ends_with, i64_text, concat, str_eq, ends_with_str};

verus! {

// ---------------------------------------------------------------------------
// YAML documents, as the specification loader reads them
// ---------------------------------------------------------------------------

/// A key of a YAML mapping.
#[derive(Debug)]
pub enum YamlKey {
    Str(String),
    Integer(i64),
    /// A real number, by its text.
    Real(String),
    Boolean(bool),
    Null,
    /// Any other node, by its debug text (such a key is not supported).
    Other(String),
}

/// A YAML node.
#[derive(Debug)]
pub enum YamlNode {
    Null,
    Boolean(bool),
    Integer(i64),
    /// A real number: its text, and the JSON number it reads as (`None` where it does
    /// not read as a finite number).
    Real { text: String, number: Option<JsonValue> },
    Str(String),
    Array(Vec<YamlNode>),
    Hash(Vec<(YamlKey, YamlNode)>),
    Alias,
    BadValue,
}

/// The text a mapping key becomes in JSON, or the error for a key that has none.
pub open spec fn key_text(k: YamlKey) -> Result<Seq<char>, Seq<char>> {
    match k {
        YamlKey::Str(s) => Ok(s@),
        YamlKey::Integer(i) => Ok(int_text(i as int)),
        YamlKey::Real(s) => Ok(s@),
        YamlKey::Boolean(b) => Ok(if b { "true"@ } else { "false"@ }),
        YamlKey::Null => Ok("null"@),
        YamlKey::Other(d) => Err("unsupported YAML key: "@ + d@),
    }
}

/// Setting `k` in a JSON object kept as serde_json's map keeps it: members in key
/// order, each key once; an existing key takes the new value.
pub open spec fn obj_insert(ms: Seq<(Seq<char>, JsonView)>, k: Seq<char>, v: JsonView) -> Seq<(Seq<char>, JsonView)>
    decreases ms.len(),
{
    if ms.len() == 0 {
        seq![(k, v)]
    } else if ms[0].0 == k {
        ms.update(0, (k, v))
    } else if name_lt(k, ms[0].0) {
        seq![(k, v)] + ms
    } else {
        seq![ms[0]] + obj_insert(ms.drop_first(), k, v)
    }
}

/// The members of an object are in strictly increasing key order (so each key occurs
/// once).
pub open spec fn keys_sorted(ms: Seq<(Seq<char>, JsonView)>) -> bool {
    forall|i: int, j: int| 0 <= i < j < ms.len() ==> name_lt(#[trigger] ms[i].0, #[trigger] ms[j].0)
}

/// Setting a key in an object kept in key order keeps it in key order; the key then
/// reads back the value just set, and every other key reads back what it did before.
pub proof fn lemma_obj_insert(ms: Seq<(Seq<char>, JsonView)>, k: Seq<char>, v: JsonView)
    requires
        keys_sorted(ms),
    ensures
        keys_sorted(obj_insert(ms, k, v)),
        lookup(obj_insert(ms, k, v), k) == Some(v),
        forall|o: Seq<char>| o != k ==> lookup(obj_insert(ms, k, v), o) == lookup(ms, o),
        forall|i: int| 0 <= i < obj_insert(ms, k, v).len() ==> (#[trigger] obj_insert(ms, k, v)[i]).0 == k
            || exists|j: int| 0 <= j < ms.len() && ms[j].0 == obj_insert(ms, k, v)[i].0,
    decreases ms.len(),
{
    let r = obj_insert(ms, k, v);
    if ms.len() == 0 {
        assert(r == seq![(k, v)]);
        assert forall|o: Seq<char>| o != k implies lookup(r, o) == lookup(ms, o) by {
            assert(r.drop_first() =~= Seq::<(Seq<char>, JsonView)>::empty());
            assert(lookup(r.drop_first(), o) is None);
            assert(r[0].0 != o);
            assert(lookup(r, o) == lookup(r.drop_first(), o));
        }
    } else if ms[0].0 == k {
        assert(r == ms.update(0, (k, v)));
        assert(r.drop_first() =~= ms.drop_first());
        assert forall|o: Seq<char>| o != k implies lookup(r, o) == lookup(ms, o) by {
            assert(r[0].0 != o && ms[0].0 != o);
        }
        assert forall|i: int| 0 <= i < r.len() implies (#[trigger] r[i]).0 == k
            || exists|j: int| 0 <= j < ms.len() && ms[j].0 == r[i].0 by {
            assert(ms[i].0 == r[i].0);
        }
    } else if name_lt(k, ms[0].0) {
        assert(r == seq![(k, v)] + ms);
        assert(r.drop_first() =~= ms);
        assert forall|o: Seq<char>| o != k implies lookup(r, o) == lookup(ms, o) by {
            assert(r[0].0 != o);
        }
        assert forall|i: int, j: int| 0 <= i < j < r.len() implies name_lt(#[trigger] r[i].0, #[trigger] r[j].0) by {
            if i == 0 {
                if j > 1 {
                    lemma_name_lt_transitive(k, ms[0].0, ms[j - 1].0);
                }
            } else {
                assert(r[i] == ms[i - 1] && r[j] == ms[j - 1]);
            }
        }
        assert forall|i: int| 0 <= i < r.len() implies (#[trigger] r[i]).0 == k
            || exists|j: int| 0 <= j < ms.len() && ms[j].0 == r[i].0 by {
            if i > 0 {
                assert(ms[i - 1].0 == r[i].0);
            }
        }
    } else {
        let rest = ms.drop_first();
        assert(keys_sorted(rest)) by {
            assert forall|i: int, j: int| 0 <= i < j < rest.len() implies name_lt(#[trigger] rest[i].0, #[trigger] rest[j].0) by {
                assert(rest[i] == ms[i + 1] && rest[j] == ms[j + 1]);
            }
        }
        lemma_obj_insert(rest, k, v);
        let t = obj_insert(rest, k, v);
        assert(r == seq![ms[0]] + t);
        assert(r.drop_first() =~= t);
        assert(lookup(r, k) == lookup(t, k)) by {
            assert(r[0].0 != k);
        }
        assert forall|o: Seq<char>| o != k implies lookup(r, o) == lookup(ms, o) by {
            if r[0].0 != o {
                assert(lookup(r, o) == lookup(t, o));
                assert(lookup(ms, o) == lookup(rest, o));
            }
        }
        lemma_name_lt_total(k, ms[0].0);
        assert(name_lt(ms[0].0, k));
        assert forall|i: int| 0 <= i < t.len() implies name_lt(ms[0].0, #[trigger] t[i].0) by {
            if t[i].0 != k {
                let j = choose|j: int| 0 <= j < rest.len() && rest[j].0 == t[i].0;
                assert(rest[j] == ms[j + 1]);
            }
        }
        assert forall|i: int, j: int| 0 <= i < j < r.len() implies name_lt(#[trigger] r[i].0, #[trigger] r[j].0) by {
            if i == 0 {
                assert(r[j] == t[j - 1]);
            } else {
                assert(r[i] == t[i - 1] && r[j] == t[j - 1]);
            }
        }
        assert forall|i: int| 0 <= i < r.len() implies (#[trigger] r[i]).0 == k
            || exists|j: int| 0 <= j < ms.len() && ms[j].0 == r[i].0 by {
            if i == 0 {
                assert(ms[0].0 == r[0].0);
            } else {
                assert(r[i] == t[i - 1]);
                if t[i - 1].0 != k {
                    let j = choose|j: int| 0 <= j < rest.len() && rest[j].0 == t[i - 1].0;
                    assert(ms[j + 1].0 == r[i].0);
                }
            }
        }
    }
}

/// The JSON value of a YAML node, or the error that stops the conversion.
pub open spec fn yaml_json(n: YamlNode) -> Result<JsonView, Seq<char>>
    decreases n,
{
    match n {
        YamlNode::Null => Ok(JsonView::Null),
        YamlNode::Boolean(b) => Ok(JsonView::Bool(b)),
        YamlNode::Integer(i) => Ok(JsonView::Number(int_text(i as int))),
        YamlNode::Real { text, number } => match number {
            Some(v) => Ok(v@),
            None => Err("invalid YAML real: "@ + text@),
        },
        YamlNode::Str(s) => Ok(JsonView::Str(s@)),
        YamlNode::Array(items) => match yaml_items(items@) {
            Ok(vs) => Ok(JsonView::Array(vs)),
            Err(e) => Err(e),
        },
        YamlNode::Hash(pairs) => match yaml_pairs(pairs@, Seq::empty()) {
            Ok(ms) => Ok(JsonView::Object(ms)),
            Err(e) => Err(e),
        },
        YamlNode::Alias => Err("YAML aliases are not supported"@),
        YamlNode::BadValue => Err("invalid YAML value"@),
    }
}

/// The items of a sequence, converted in order; the first error stops it.
pub open spec fn yaml_items(items: Seq<YamlNode>) -> Result<Seq<JsonView>, Seq<char>>
    decreases items,
{
    if items.len() == 0 {
        Ok(Seq::empty())
    } else {
        match yaml_json(items[0]) {
            Err(e) => Err(e),
            Ok(v) => match yaml_items(items.drop_first()) {
                Ok(vs) => Ok(seq![v] + vs),
                Err(e) => Err(e),
            },
        }
    }
}

/// The pairs of a mapping set in turn into `acc` (key, then value); the first error
/// stops it.
pub open spec fn yaml_pairs(pairs: Seq<(YamlKey, YamlNode)>, acc: Seq<(Seq<char>, JsonView)>) -> Result<Seq<(Seq<char>, JsonView)>, Seq<char>>
    decreases pairs,
{
    if pairs.len() == 0 {
        Ok(acc)
    } else {
        match key_text(pairs[0].0) {
            Err(e) => Err(e),
            Ok(k) => match yaml_json(pairs[0].1) {
                Err(e) => Err(e),
                Ok(v) => yaml_pairs(pairs.drop_first(), obj_insert(acc, k, v)),
            },
        }
    }
}

/// The object a YAML mapping becomes is kept in key order, each key once, as
/// serde_json's map keeps it.
pub proof fn lemma_yaml_pairs_sorted(pairs: Seq<(YamlKey, YamlNode)>, acc: Seq<(Seq<char>, JsonView)>)
    requires
        keys_sorted(acc),
    ensures
        yaml_pairs(pairs, acc) matches Ok(ms) ==> keys_sorted(ms),
    decreases pairs.len(),
{
    if pairs.len() > 0 {
        if let Ok(k) = key_text(pairs[0].0) {
            if let Ok(v) = yaml_json(pairs[0].1) {
                lemma_obj_insert(acc, k, v);
                lemma_yaml_pairs_sorted(pairs.drop_first(), obj_insert(acc, k, v));
            }
        }
    }
}

proof fn lemma_obj_insert_skip(m: Seq<(Seq<char>, JsonView)>, k: Seq<char>, v: JsonView, i: int)
    requires
        0 <= i <= m.len(),
        forall|j: int| 0 <= j < i ==> m[j].0 != k && !name_lt(k, #[trigger] m[j].0),
    ensures
        obj_insert(m, k, v) == m.take(i) + obj_insert(m.skip(i), k, v),
    decreases i,
{
    if i == 0 {
        assert(m.take(0) + obj_insert(m.skip(0), k, v) =~= obj_insert(m, k, v)) by {
            assert(m.skip(0) =~= m);
        }
    } else {
        let t = m.drop_first();
        assert forall|j: int| 0 <= j < i - 1 implies t[j].0 != k && !name_lt(k, #[trigger] t[j].0) by {
            assert(t[j] == m[j + 1]);
        }
        lemma_obj_insert_skip(t, k, v, i - 1);
        assert(m[0].0 != k && !name_lt(k, m[0].0));
        assert(t.skip(i - 1) =~= m.skip(i));
        assert(m.take(i) =~= seq![m[0]] + t.take(i - 1));
    }
}

/// Sets `key` to `value` among `members`, kept in key order.
pub fn obj_insert_member(members: &mut Vec<(String, JsonValue)>, key: String, value: JsonValue)
    ensures
        JsonValue::member_models(final(members)@) == obj_insert(JsonValue::member_models(old(members)@), key@, value@),
{
    let ghost m = JsonValue::member_models(members@);
    proof {
        lemma_member_models(members@);
    }
    let mut i: usize = 0;
    while i < members.len() && !str_eq(members[i].0.as_str(), key.as_str()) && !str_less(key.as_str(), members[i].0.as_str())
        invariant
            i <= members@.len(),
            members@ == old(members)@,
            m == JsonValue::member_models(members@),
            m.len() == members@.len(),
            forall|j: int| 0 <= j < members@.len() ==> #[trigger] m[j] == (members@[j].0@, members@[j].1@),
            forall|j: int| 0 <= j < i ==> m[j].0 != key@ && !name_lt(key@, #[trigger] m[j].0),
        decreases members@.len() - i,
    {
        i = i + 1;
    }
    proof {
        lemma_obj_insert_skip(m, key@, value@, i as int);
    }
    let ghost kv = value@;
    let ghost kk = key@;
    if i < members.len() && str_eq(members[i].0.as_str(), key.as_str()) {
        members.set(i, (key, value));
        proof {
            lemma_member_models(members@);
            assert(m.skip(i as int)[0].0 == kk);
            assert(JsonValue::member_models(members@) =~= m.take(i as int) + m.skip(i as int).update(0, (kk, kv)));
        }
    } else {
        members.insert(i, (key, value));
        proof {
            lemma_member_models(members@);
            if i < m.len() {
                assert(m.skip(i as int)[0] == m[i as int]);
                assert(name_lt(kk, m.skip(i as int)[0].0));
            } else {
                assert(m.skip(i as int) =~= Seq::<(Seq<char>, JsonView)>::empty());
            }
            assert(JsonValue::member_models(members@) =~= m.take(i as int) + (seq![(kk, kv)] + m.skip(i as int)));
        }
    }
}

/// The text a mapping key becomes.
pub fn yaml_key_text(k: &YamlKey) -> (r: Result<String, String>)
    ensures
        match r {
            Ok(s) => key_text(*k) == Ok::<Seq<char>, Seq<char>>(s@),
            Err(e) => key_text(*k) == Err::<Seq<char>, Seq<char>>(e@),
        },
{
    match k {
        YamlKey::Str(s) => Ok(s.clone()),
        YamlKey::Integer(i) => Ok(i64_text(*i)),
        YamlKey::Real(s) => Ok(s.clone()),
        YamlKey::Boolean(b) => Ok(if *b { "true".to_string() } else { "false".to_string() }),
        YamlKey::Null => Ok("null".to_string()),
        YamlKey::Other(d) => Err(concat("unsupported YAML key: ", d.as_str())),
    }
}

/// Convert a YAML node into JSON.
pub fn yaml_to_json(n: &YamlNode) -> (r: Result<JsonValue, String>)
    ensures
        match r {
            Ok(v) => yaml_json(*n) == Ok::<JsonView, Seq<char>>(v@),
            Err(e) => yaml_json(*n) == Err::<JsonView, Seq<char>>(e@),
        },
    decreases n,
{
    match n {
        YamlNode::Null => Ok(JsonValue::Null),
        YamlNode::Boolean(b) => Ok(JsonValue::Bool(*b)),
        YamlNode::Integer(i) => Ok(JsonValue::Number(i64_text(*i))),
        YamlNode::Real { text, number } => match number {
            Some(v) => Ok(v.clone()),
            None => Err(concat("invalid YAML real: ", text.as_str())),
        },
        YamlNode::Str(s) => Ok(JsonValue::Str(s.clone())),
        YamlNode::Array(items) => {
            let mut out: Vec<JsonValue> = Vec::new();
            let mut i: usize = 0;
            proof {
                lemma_models(out@);
                assert(items@.skip(0) =~= items@);
            }
            while i < items.len()
                invariant
                    i <= items@.len(),
                    *n == YamlNode::Array(*items),
                    yaml_items(items@) == match yaml_items(items@.skip(i as int)) {
                        Ok(vs) => Ok::<Seq<JsonView>, Seq<char>>(JsonValue::models(out@) + vs),
                        Err(e) => Err(e),
                    },
                decreases items@.len() - i,
            {
                proof {
                    assert(decreases_to!(items@ => items@[i as int]));
                    assert(decreases_to!(*items => items@));
                    assert(decreases_to!(*n => (*n)->Array_0));
                }
                let ghost rest = items@.skip(i as int);
                assert(rest[0] == items@[i as int]);
                assert(rest.drop_first() =~= items@.skip(i + 1));
                match yaml_to_json(&items[i]) {
                    Ok(v) => {
                        let ghost before = JsonValue::models(out@);
                        let ghost prev = out@;
                        out.push(v);
                        proof {
                            assert(out@.drop_last() =~= prev);
                            assert(JsonValue::models(out@) == before.push(v@));
                            match yaml_items(items@.skip(i + 1)) {
                                Ok(vs) => {
                                    assert(JsonValue::models(out@) + vs =~= before + (seq![v@] + vs));
                                },
                                Err(e) => {},
                            }
                        }
                    },
                    Err(e) => {
                        return Err(e);
                    },
                }
                i = i + 1;
            }
            proof {
                assert(items@.skip(i as int) =~= Seq::<YamlNode>::empty());
                assert(JsonValue::models(out@) + Seq::<JsonView>::empty() =~= JsonValue::models(out@));
            }
            Ok(JsonValue::Array(out))
        },
        YamlNode::Hash(pairs) => {
            let mut out: Vec<(String, JsonValue)> = Vec::new();
            let mut i: usize = 0;
            proof {
                lemma_member_models(out@);
                assert(pairs@.skip(0) =~= pairs@);
                assert(JsonValue::member_models(out@) =~= Seq::<(Seq<char>, JsonView)>::empty());
            }
            while i < pairs.len()
                invariant
                    i <= pairs@.len(),
                    *n == YamlNode::Hash(*pairs),
                    yaml_pairs(pairs@, Seq::empty()) == yaml_pairs(pairs@.skip(i as int), JsonValue::member_models(out@)),
                decreases pairs@.len() - i,
            {
                proof {
                    assert(decreases_to!(pairs@[i as int] => pairs@[i as int].1));
                    assert(decreases_to!(pairs@ => pairs@[i as int]));
                    assert(decreases_to!(*pairs => pairs@));
                    assert(decreases_to!(*n => (*n)->Hash_0));
                }
                let ghost rest = pairs@.skip(i as int);
                assert(rest[0] == pairs@[i as int]);
                assert(rest.drop_first() =~= pairs@.skip(i + 1));
                let key = match yaml_key_text(&pairs[i].0) {
                    Ok(k) => k,
                    Err(e) => return Err(e),
                };
                let value = match yaml_to_json(&pairs[i].1) {
                    Ok(v) => v,
                    Err(e) => return Err(e),
                };
                obj_insert_member(&mut out, key, value);
                i = i + 1;
            }
            proof {
                assert(pairs@.skip(i as int) =~= Seq::<(YamlKey, YamlNode)>::empty());
            }
            Ok(JsonValue::Object(out))
        },
        YamlNode::Alias => Err("YAML aliases are not supported".to_string()),
        YamlNode::BadValue => Err("invalid YAML value".to_string()),
    }
}

// ---------------------------------------------------------------------------
// Specification text
// ---------------------------------------------------------------------------

/// The first document of a YAML text, as the YAML parser reads it: `None` for a text
/// without documents, or the parser's error.
pub type YamlDoc = Result<Option<YamlNode>, String>;

/// What a YAML text yields: its first document converted (`null` without one), or
/// the text of the error.
pub open spec fn yaml_doc_json(doc: YamlDoc) -> Result<JsonView, Seq<char>> {
    match doc {
        Err(e) => Err(e@),
        Ok(None) => Ok(JsonView::Null),
        Ok(Some(n)) => yaml_json(n),
    }
}

fn yaml_doc_to_json(doc: &YamlDoc) -> (r: Result<JsonValue, String>)
    ensures
        match r {
            Ok(v) => yaml_doc_json(*doc) == Ok::<JsonView, Seq<char>>(v@),
            Err(e) => yaml_doc_json(*doc) == Err::<JsonView, Seq<char>>(e@),
        },
{
    match doc {
        Err(e) => Err(e.clone()),
        Ok(None) => Ok(JsonValue::Null),
        Ok(Some(n)) => yaml_to_json(n),
    }
}

/// The specification read from a local file at `path` with `content`: YAML for a
/// `.yaml` or `.yml` path (`yaml` is the content read as YAML), else JSON.
pub open spec fn local_spec(path: Seq<char>, content: Seq<char>, yaml: YamlDoc) -> Result<JsonView, ErrorView> {
    if ends_with(path, ".yaml"@) || ends_with(path, ".yml"@) {
        match yaml_doc_json(yaml) {
            Ok(v) => Ok(v),
            Err(e) => Err(ErrorView::Protocol("invalid YAML: "@ + e)),
        }
    } else {
        match json_parse(content) {
            Ok(v) => Ok(v),
            Err(e) => Err(ErrorView::Json(e)),
        }
    }
}

/// Read a local specification file's content.
pub fn spec_from_local_text(path: &str, content: &str, yaml: &YamlDoc) -> (r: Result<JsonValue, AppError>)
    ensures
        crate::error::result_view(r) == local_spec(path@, content@, *yaml),
{
    if ends_with_str(path, ".yaml") || ends_with_str(path, ".yml") {
        match yaml_doc_to_json(yaml) {
            Ok(v) => Ok(v),
            Err(e) => Err(AppError::Protocol(concat("invalid YAML: ", e.as_str()))),
        }
    } else {
        match parse_json(content) {
            Ok(v) => Ok(v),
            Err(e) => Err(AppError::Json(e)),
        }
    }
}

/// The specification fetched from a URL: JSON where the text reads as JSON, else YAML
/// (`yaml` is the text read as YAML).
pub open spec fn remote_spec(text: Seq<char>, yaml: YamlDoc) -> Result<JsonView, ErrorView> {
    match json_parse(text) {
        Ok(v) => Ok(v),
        Err(_) => match yaml_doc_json(yaml) {
            Ok(v) => Ok(v),
            Err(e) => Err(ErrorView::Protocol("invalid spec format: "@ + e)),
        },
    }
}

/// Read a fetched specification's text.
pub fn spec_from_remote_text(text: &str, yaml: &YamlDoc) -> (r: Result<JsonValue, AppError>)
    ensures
        crate::error::result_view(r) == remote_spec(text@, *yaml),
{
    match parse_json(text) {
        Ok(v) => Ok(v),
        Err(_) => match yaml_doc_to_json(yaml) {
            Ok(v) => Ok(v),
            Err(e) => Err(AppError::Protocol(concat("invalid spec format: ", e.as_str()))),
        },
    }
}

} // verus!
