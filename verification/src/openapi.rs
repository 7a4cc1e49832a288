use vstd::prelude::*;
use crate::coerce::{schema_type, schema_type_to_rust};
use crate::helpers::{kebab, to_kebab};
use crate::json::{JsonValue, JsonView, lookup, lemma_models, lemma_member_models, opt_model, array_or_empty};
use crate::names::{dedup_name, deduplicate_name, is_method_name, is_http_method};
use crate::text::{
    views, opt_view, contains, contains_str, replace_char, replace_char_str, trim_end_char,
    trim_start_char, trim_end_matches_char, trim_start_matches_char, upper_folded, to_uppercase,
    str_eq, concat3, chars_of, string_of,
};
use crate::types::{ParamDef, ParamView, CommandDef, CommandView, ParamType, ParamLocation, param_views, command_views};

verus! {

/// Sentinel `original_name` used by the synthetic `--body` parameter that
/// represents a non-object request body. The executor recognizes this key to
/// send the value as the entire JSON body rather than a single property.
pub const WHOLE_BODY_KEY: &'static str = "__mcp2cli_body__";

// ---------------------------------------------------------------------------
// What the extraction makes of a specification
// ---------------------------------------------------------------------------

/// The items of the array under a key, or none.
pub open spec fn array_items(v: Option<JsonView>) -> Seq<JsonView> {
    match v {
        Some(JsonView::Array(items)) => items,
        _ => Seq::empty(),
    }
}

pub open spec fn str_or(v: Option<Seq<char>>, default: Seq<char>) -> Seq<char> {
    match v {
        Some(s) => s,
        None => default,
    }
}

/// How an enum member is shown as a choice: strings as they are, numbers and booleans
/// as their text; other members are left out.
pub open spec fn choice_text(v: JsonView) -> Option<Seq<char>> {
    match v {
        JsonView::Str(s) => Some(s),
        JsonView::Number(n) => Some(n),
        JsonView::Bool(b) => Some(if b { "true"@ } else { "false"@ }),
        _ => None,
    }
}

pub open spec fn choice_texts(items: Seq<JsonView>) -> Seq<Seq<char>>
    decreases items.len(),
{
    if items.len() == 0 {
        Seq::empty()
    } else {
        choice_texts(items.drop_last()) + match choice_text(items.last()) {
            Some(t) => seq![t],
            None => Seq::empty(),
        }
    }
}

/// The choices a schema's `enum` offers, where it offers any.
pub open spec fn enum_choices(schema: JsonView) -> Option<Seq<Seq<char>>> {
    match schema.get("enum"@) {
        Some(JsonView::Array(items)) => if choice_texts(items).len() > 0 {
            Some(choice_texts(items))
        } else {
            None
        },
        _ => None,
    }
}

/// A parameter's name and location, which identify it.
pub open spec fn param_key(p: JsonView) -> (Seq<char>, Seq<char>) {
    (str_or(p.get_str("name"@), Seq::empty()), str_or(p.get_str("in"@), Seq::empty()))
}

pub open spec fn location_of(loc: Seq<char>) -> Option<ParamLocation> {
    if loc == "path"@ {
        Some(ParamLocation::Path)
    } else if loc == "query"@ {
        Some(ParamLocation::Query)
    } else if loc == "header"@ {
        Some(ParamLocation::Header)
    } else {
        None
    }
}

pub open spec fn empty_object() -> JsonView {
    JsonView::Object(Seq::empty())
}

pub open spec fn flag_of(v: Option<JsonView>) -> bool {
    match v {
        Some(JsonView::Bool(b)) => b,
        _ => false,
    }
}

/// The parameter that an OpenAPI parameter object describes: one with a string name
/// and a path, query or header location.
pub open spec fn param_def(p: JsonView) -> Option<ParamView> {
    match p.get_str("name"@) {
        None => None,
        Some(original) => match p.get_str("in"@) {
            None => None,
            Some(loc_text) => match location_of(loc_text) {
                None => None,
                Some(loc) => {
                    let schema = match p.get("schema"@) {
                        Some(s) => s,
                        None => empty_object(),
                    };
                    Some(
                        ParamView {
                            name: kebab(original),
                            original_name: original,
                            rust_type: schema_type(schema),
                            required: flag_of(p.get("required"@)) || loc == ParamLocation::Path,
                            description: str_or(p.get_str("description"@), Seq::empty()),
                            choices: enum_choices(schema),
                            location: loc,
                            schema,
                        },
                    )
                },
            },
        },
    }
}

/// The parameters the objects in `ps` describe, in order, skipping the others.
pub open spec fn param_defs(ps: Seq<JsonView>) -> Seq<ParamView>
    decreases ps.len(),
{
    if ps.len() == 0 {
        Seq::empty()
    } else {
        param_defs(ps.drop_last()) + match param_def(ps.last()) {
            Some(d) => seq![d],
            None => Seq::empty(),
        }
    }
}

/// The path-level parameters that no operation-level parameter overrides.
pub open spec fn unshadowed(path_params: Seq<JsonView>, op_keys: Seq<(Seq<char>, Seq<char>)>) -> Seq<JsonView>
    decreases path_params.len(),
{
    if path_params.len() == 0 {
        Seq::empty()
    } else {
        unshadowed(path_params.drop_last(), op_keys) + if op_keys.contains(param_key(path_params.last())) {
            Seq::empty()
        } else {
            seq![path_params.last()]
        }
    }
}

/// Operation-level parameters first, then the path-level ones they do not override.
pub open spec fn merged_params(path_params: Seq<JsonView>, op_params: Seq<JsonView>) -> Seq<JsonView> {
    op_params + unshadowed(path_params, op_params.map_values(|q: JsonView| param_key(q)))
}

/// The content type a request body is sent with: multipart form data where offered,
/// else JSON where offered, else the first one listed.
pub open spec fn content_type_of(op: JsonView) -> Option<Seq<char>> {
    match op.get("requestBody"@) {
        Some(rb) => match rb.get("content"@) {
            Some(JsonView::Object(ms)) => if lookup(ms, "multipart/form-data"@) is Some {
                Some("multipart/form-data"@)
            } else if lookup(ms, "application/json"@) is Some {
                Some("application/json"@)
            } else if ms.len() > 0 {
                Some(ms[0].0)
            } else {
                None
            },
            _ => None,
        },
        None => None,
    }
}

/// The schema of the request body: the one under the preferred content type, else
/// the one under the first content type listed.
pub open spec fn body_schema(op: JsonView, is_multipart: bool) -> Option<JsonView> {
    let key = if is_multipart { "multipart/form-data"@ } else { "application/json"@ };
    let content = match op.get("requestBody"@) {
        Some(rb) => rb.get("content"@),
        None => None,
    };
    let preferred = match content {
        Some(c) => match c.get(key) {
            Some(ct) => ct.get("schema"@),
            None => None,
        },
        None => None,
    };
    match preferred {
        Some(s) => Some(s),
        None => match content {
            Some(JsonView::Object(ms)) => if ms.len() > 0 {
                ms[0].1.get("schema"@)
            } else {
                None
            },
            _ => None,
        },
    }
}

/// The string items of an array, in order.
pub open spec fn str_items(items: Seq<JsonView>) -> Seq<Seq<char>>
    decreases items.len(),
{
    if items.len() == 0 {
        Seq::empty()
    } else {
        str_items(items.drop_last()) + match items.last().as_str() {
            Some(s) => seq![s],
            None => Seq::empty(),
        }
    }
}

pub open spec fn body_required(op: JsonView) -> bool {
    match op.get("requestBody"@) {
        Some(rb) => flag_of(rb.get("required"@)),
        None => false,
    }
}

/// The parameter for one property of an object request body.
pub open spec fn prop_param(
    name: Seq<char>,
    schema: JsonView,
    is_multipart: bool,
    body_req: bool,
    required: Seq<Seq<char>>,
) -> ParamView {
    ParamView {
        name: kebab(name),
        original_name: name,
        rust_type: schema_type(schema),
        required: body_req && required.contains(name),
        description: str_or(schema.get_str("description"@), Seq::empty()),
        choices: enum_choices(schema),
        location: if is_multipart && schema.get_str("format"@) == Some("binary"@) {
            ParamLocation::File
        } else {
            ParamLocation::Body
        },
        schema,
    }
}

/// The single `--body` parameter of a request body that is not an object.
pub open spec fn whole_body_param(schema: JsonView, body_req: bool) -> ParamView {
    ParamView {
        name: "body"@,
        original_name: WHOLE_BODY_KEY@,
        rust_type: schema_type(schema),
        required: body_req,
        description: str_or(schema.get_str("description"@), "Request body (JSON)"@),
        choices: enum_choices(schema),
        location: ParamLocation::WholeBody,
        schema,
    }
}

/// The parameters taken from a request body.
pub open spec fn body_params(op: JsonView, is_multipart: bool) -> Seq<ParamView> {
    match body_schema(op, is_multipart) {
        None => Seq::empty(),
        Some(schema) => {
            let required = str_items(array_items(schema.get("required"@)));
            let body_req = body_required(op);
            match schema.get("properties"@) {
                Some(JsonView::Object(props)) => props.map_values(
                    |m: (Seq<char>, JsonView)| prop_param(m.0, m.1, is_multipart, body_req, required),
                ),
                _ => seq![whole_body_param(schema, body_req)],
            }
        },
    }
}

/// `path` without leading and trailing `/`, inner `/` turned into `-`, braces dropped.
pub open spec fn path_slug(path: Seq<char>) -> Seq<char> {
    replace_char(trim_start_char(trim_end_char(path, '/'), '/'), '/', '-').filter(|c: char| c != '{' && c != '}')
}

/// One operation of a specification, with the parameters of its path item.
pub struct OpView {
    pub method: Seq<char>,
    pub path: Seq<char>,
    pub operation: JsonView,
    pub path_params: Seq<JsonView>,
}

/// The command name an operation asks for, before deduplication: its `operationId`
/// in kebab case, else the method and the path's slug.
pub open spec fn raw_name(o: OpView) -> Seq<char> {
    match o.operation.get_str("operationId"@) {
        Some(id) => kebab(id),
        None => o.method + "-"@ + path_slug(o.path),
    }
}

pub open spec fn op_description(op: JsonView) -> Seq<char> {
    match op.get("summary"@) {
        Some(v) => str_or(v.as_str(), Seq::empty()),
        None => str_or(op.get_str("description"@), Seq::empty()),
    }
}

pub open spec fn is_multipart_type(ct: Option<Seq<char>>) -> bool {
    match ct {
        Some(t) => contains(t, "multipart"@),
        None => false,
    }
}

/// The command for an operation, under the name it was given.
pub open spec fn command_of(o: OpView, name: Seq<char>) -> CommandView {
    let op = o.operation;
    let has_body = op.get("requestBody"@) is Some;
    let ct = content_type_of(op);
    CommandView {
        name,
        description: op_description(op),
        params: param_defs(merged_params(o.path_params, array_items(op.get("parameters"@)))) + if has_body {
            body_params(op, is_multipart_type(ct))
        } else {
            Seq::empty()
        },
        has_body,
        method: Some(upper_folded(o.method)),
        path: Some(o.path),
        content_type: ct,
        tool_name: None,
        graphql_operation_type: None,
        graphql_field_name: None,
        graphql_return_type: None,
    }
}

/// The operations of one path item, in the order of its members.
pub open spec fn method_ops(path: Seq<char>, members: Seq<(Seq<char>, JsonView)>, path_params: Seq<JsonView>) -> Seq<OpView>
    decreases members.len(),
{
    if members.len() == 0 {
        Seq::empty()
    } else {
        method_ops(path, members.drop_last(), path_params) + if is_method_name(members.last().0) {
            seq![OpView { method: members.last().0, path, operation: members.last().1, path_params }]
        } else {
            Seq::empty()
        }
    }
}

pub open spec fn path_ops(path: Seq<char>, item: JsonView) -> Seq<OpView> {
    match item {
        JsonView::Object(members) => method_ops(path, members, array_items(item.get("parameters"@))),
        _ => Seq::empty(),
    }
}

pub open spec fn all_ops(paths: Seq<(Seq<char>, JsonView)>) -> Seq<OpView>
    decreases paths.len(),
{
    if paths.len() == 0 {
        Seq::empty()
    } else {
        all_ops(paths.drop_last()) + path_ops(paths.last().0, paths.last().1)
    }
}

/// The operations of a specification: those of each path item, path by path.
pub open spec fn spec_ops(spec: JsonView) -> Seq<OpView> {
    match spec.get("paths"@) {
        Some(JsonView::Object(paths)) => all_ops(paths),
        _ => Seq::empty(),
    }
}

/// The commands for `ops`, named one after the other so that no two share a name, and
/// the names taken afterwards.
pub open spec fn name_commands(ops: Seq<OpView>, seen: Seq<Seq<char>>) -> (Seq<CommandView>, Seq<Seq<char>>)
    decreases ops.len(),
{
    if ops.len() == 0 {
        (Seq::empty(), seen)
    } else {
        let (cs, taken) = name_commands(ops.drop_last(), seen);
        let name = dedup_name(raw_name(ops.last()), taken);
        (cs.push(command_of(ops.last(), name)), taken.push(name))
    }
}

/// The commands of an OpenAPI specification.
pub open spec fn openapi_commands(spec: JsonView) -> Seq<CommandView> {
    name_commands(spec_ops(spec), Seq::empty()).0
}

// ---------------------------------------------------------------------------
// Parameters
// ---------------------------------------------------------------------------

/// Extract enum choices from a schema (supports top-level enum and allOf/oneOf with enum).
pub fn extract_enum_choices(schema: &JsonValue) -> (r: Option<Vec<String>>)
    ensures
        crate::types::opt_views(r) == enum_choices(schema@),
{
    match schema.get("enum") {
        Some(JsonValue::Array(items)) => {
            let ghost m = JsonValue::models(items@);
            proof {
                lemma_models(items@);
                assert(m.take(0) =~= Seq::<JsonView>::empty());
            }
            let mut out: Vec<String> = Vec::new();
            let mut i: usize = 0;
            while i < items.len()
                invariant
                    i <= items@.len(),
                    m == JsonValue::models(items@),
                    m.len() == items@.len(),
                    forall|j: int| 0 <= j < items@.len() ==> #[trigger] m[j] == items@[j]@,
                    views(out@) == choice_texts(m.take(i as int)),
                decreases items@.len() - i,
            {
                let ghost before = views(out@);
                match &items[i] {
                    JsonValue::Str(s) => out.push(s.clone()),
                    JsonValue::Number(n) => out.push(n.clone()),
                    JsonValue::Bool(b) => out.push(if *b { "true".to_string() } else { "false".to_string() }),
                    _ => {},
                }
                proof {
                    assert(m.take(i + 1).drop_last() =~= m.take(i as int));
                    assert(m.take(i + 1).last() == items@[i as int]@);
                    match choice_text(items@[i as int]@) {
                        Some(t) => assert(views(out@) =~= before + seq![t]),
                        None => assert(views(out@) =~= before + Seq::<Seq<char>>::empty()),
                    }
                }
                i = i + 1;
            }
            assert(m.take(items@.len() as int) =~= m);
            if out.len() > 0 {
                Some(out)
            } else {
                None
            }
        },
        _ => None,
    }
}

pub fn str_or_empty(v: Option<&str>) -> (r: String)
    ensures
        r@ == str_or(match v {
            Some(s) => Some(s@),
            None => None,
        }, Seq::empty()),
{
    match v {
        Some(s) => s.to_string(),
        None => String::new(),
    }
}

/// The name and location that identify a parameter.
pub fn param_key_of(p: &JsonValue) -> (r: (String, String))
    ensures
        (r.0@, r.1@) == param_key(p@),
{
    (str_or_empty(p.get_str("name")), str_or_empty(p.get_str("in")))
}

fn flag_value(v: Option<&JsonValue>) -> (r: bool)
    ensures
        r == flag_of(opt_model(v)),
{
    match v {
        Some(JsonValue::Bool(b)) => *b,
        _ => false,
    }
}

/// Convert a single OpenAPI parameter JSON value to a ParamDef.
pub fn param_value_to_def(p: &JsonValue) -> (r: Option<ParamDef>)
    ensures
        match r {
            Some(d) => param_def(p@) == Some(d@),
            None => param_def(p@) is None,
        },
{
    let original_name = match p.get_str("name") {
        Some(n) => n.to_string(),
        None => return None,
    };
    let loc_text = match p.get_str("in") {
        Some(l) => l,
        None => return None,
    };
    let location = if str_eq(loc_text, "path") {
        ParamLocation::Path
    } else if str_eq(loc_text, "query") {
        ParamLocation::Query
    } else if str_eq(loc_text, "header") {
        ParamLocation::Header
    } else {
        return None;
    };
    let name = to_kebab(original_name.as_str());
    let required = flag_value(p.get("required")) || location == ParamLocation::Path;
    let description = str_or_empty(p.get_str("description"));
    let schema = match p.get("schema") {
        Some(s) => s.clone(),
        None => {
            let e: Vec<(String, JsonValue)> = Vec::new();
            assert(JsonValue::member_models(e@) =~= Seq::<(Seq<char>, JsonView)>::empty());
            JsonValue::Object(e)
        },
    };
    let rust_type = schema_type_to_rust(&schema);
    let choices = extract_enum_choices(&schema);
    Some(ParamDef { name, original_name, rust_type, required, description, choices, location, schema })
}

/// The parameters the objects in `ps` describe, in order.
fn defs_of(ps: &Vec<JsonValue>) -> (r: Vec<ParamDef>)
    ensures
        param_views(r@) == param_defs(JsonValue::models(ps@)),
{
    let ghost m = JsonValue::models(ps@);
    proof {
        lemma_models(ps@);
        assert(m.take(0) =~= Seq::<JsonView>::empty());
    }
    let mut out: Vec<ParamDef> = Vec::new();
    let mut i: usize = 0;
    while i < ps.len()
        invariant
            i <= ps@.len(),
            m == JsonValue::models(ps@),
            m.len() == ps@.len(),
            forall|j: int| 0 <= j < ps@.len() ==> #[trigger] m[j] == ps@[j]@,
            param_views(out@) == param_defs(m.take(i as int)),
        decreases ps@.len() - i,
    {
        let ghost before = param_views(out@);
        let d = param_value_to_def(&ps[i]);
        match d {
            Some(d) => {
                out.push(d);
            },
            None => {},
        }
        proof {
            assert(m.take(i + 1).drop_last() =~= m.take(i as int));
            assert(m.take(i + 1).last() == ps@[i as int]@);
            match param_def(ps@[i as int]@) {
                Some(v) => assert(param_views(out@) =~= before + seq![v]),
                None => assert(param_views(out@) =~= before + Seq::<ParamView>::empty()),
            }
        }
        i = i + 1;
    }
    assert(m.take(ps@.len() as int) =~= m);
    out
}

pub open spec fn key_views(v: Seq<(String, String)>) -> Seq<(Seq<char>, Seq<char>)> {
    v.map_values(|p: (String, String)| (p.0@, p.1@))
}

fn contains_key(keys: &Vec<(String, String)>, k: &(String, String)) -> (r: bool)
    ensures
        r == key_views(keys@).contains((k.0@, k.1@)),
{
    let mut i: usize = 0;
    while i < keys.len()
        invariant
            i <= keys@.len(),
            forall|j: int| 0 <= j < i ==> (keys@[j].0@, keys@[j].1@) != (k.0@, k.1@),
        decreases keys@.len() - i,
    {
        if str_eq(keys[i].0.as_str(), k.0.as_str()) && str_eq(keys[i].1.as_str(), k.1.as_str()) {
            assert(key_views(keys@)[i as int] == (k.0@, k.1@));
            return true;
        }
        i = i + 1;
    }
    proof {
        if key_views(keys@).contains((k.0@, k.1@)) {
            let j = choose|j: int| 0 <= j < key_views(keys@).len() && key_views(keys@)[j] == (k.0@, k.1@);
            assert((keys@[j].0@, keys@[j].1@) == (k.0@, k.1@));
        }
    }
    false
}

/// Merge path-level and operation-level parameters.
/// Operation params override path-level params with the same name+location.
pub fn extract_parameters(path_params: &Vec<JsonValue>, op_params: &Vec<JsonValue>) -> (r: Vec<ParamDef>)
    ensures
        param_views(r@) == param_defs(merged_params(JsonValue::models(path_params@), JsonValue::models(op_params@))),
{
    let ghost pm = JsonValue::models(path_params@);
    let ghost om = JsonValue::models(op_params@);
    let ghost okeys = om.map_values(|q: JsonView| param_key(q));
    proof {
        lemma_models(path_params@);
        lemma_models(op_params@);
    }
    // Add operation params first (they take priority)
    let mut keys: Vec<(String, String)> = Vec::new();
    let mut merged: Vec<JsonValue> = Vec::new();
    let mut i: usize = 0;
    while i < op_params.len()
        invariant
            i <= op_params@.len(),
            om == JsonValue::models(op_params@),
            om.len() == op_params@.len(),
            forall|j: int| 0 <= j < op_params@.len() ==> #[trigger] om[j] == op_params@[j]@,
            okeys == om.map_values(|q: JsonView| param_key(q)),
            key_views(keys@) == okeys.take(i as int),
            merged@.len() == i,
            forall|j: int| 0 <= j < i ==> #[trigger] merged@[j]@ == om[j],
        decreases op_params@.len() - i,
    {
        let k = param_key_of(&op_params[i]);
        let ghost kb = keys@;
        keys.push(k);
        merged.push(op_params[i].clone());
        assert(okeys[i as int] == param_key(om[i as int]));
        assert(key_views(keys@) == key_views(kb).push((k.0@, k.1@))) by {
            assert(key_views(keys@) =~= key_views(kb).push((k.0@, k.1@)));
        }
        assert(key_views(keys@) =~= okeys.take(i + 1));
        i = i + 1;
    }
    assert(okeys.take(op_params@.len() as int) =~= okeys);
    // Add path-level params that aren't overridden
    let ghost base = merged@;
    proof {
        lemma_models(merged@);
        assert forall|j: int| 0 <= j < om.len() implies JsonValue::models(merged@)[j] == om[j] by {
            assert(merged@[j]@ == om[j]);
        }
        assert(JsonValue::models(merged@) =~= om);
        assert(pm.take(0) =~= Seq::<JsonView>::empty());
        assert(om + unshadowed(pm.take(0), okeys) =~= om);
    }
    let mut k: usize = 0;
    while k < path_params.len()
        invariant
            k <= path_params@.len(),
            pm == JsonValue::models(path_params@),
            pm.len() == path_params@.len(),
            forall|j: int| 0 <= j < path_params@.len() ==> #[trigger] pm[j] == path_params@[j]@,
            key_views(keys@) == okeys,
            JsonValue::models(merged@) == om + unshadowed(pm.take(k as int), okeys),
        decreases path_params@.len() - k,
    {
        let key = param_key_of(&path_params[k]);
        let ghost before = merged@;
        let shadowed = contains_key(&keys, &key);
        if !shadowed {
            merged.push(path_params[k].clone());
        }
        proof {
            assert(pm.take(k + 1).drop_last() =~= pm.take(k as int));
            assert(pm.take(k + 1).last() == path_params@[k as int]@);
            if shadowed {
                assert(unshadowed(pm.take(k + 1), okeys) =~= unshadowed(pm.take(k as int), okeys));
            } else {
                assert(merged@.drop_last() == before);
                assert(JsonValue::models(merged@) == JsonValue::models(before).push(path_params@[k as int]@));
                assert(JsonValue::models(merged@) =~= om + unshadowed(pm.take(k + 1), okeys));
            }
        }
        k = k + 1;
    }
    assert(pm.take(path_params@.len() as int) =~= pm);
    defs_of(&merged)
}

// ---------------------------------------------------------------------------
// Request bodies
// ---------------------------------------------------------------------------

/// Extract the preferred content type from a requestBody.
pub fn extract_content_type(operation: &JsonValue) -> (r: Option<String>)
    ensures
        opt_view(r) == content_type_of(operation@),
{
    let rb = match operation.get("requestBody") {
        Some(rb) => rb,
        None => return None,
    };
    let content = match rb.get("content") {
        Some(c) => c,
        None => return None,
    };
    match content {
        JsonValue::Object(ms) => {
            proof {
                lemma_member_models(ms@);
            }
            // Prefer multipart, then application/json, then first available
            if content.get("multipart/form-data").is_some() {
                Some("multipart/form-data".to_string())
            } else if content.get("application/json").is_some() {
                Some("application/json".to_string())
            } else if ms.len() > 0 {
                Some(ms[0].0.clone())
            } else {
                None
            }
        },
        _ => None,
    }
}

/// The string items of an array, in order.
pub fn strings_of(items: &Vec<JsonValue>) -> (r: Vec<String>)
    ensures
        views(r@) == str_items(JsonValue::models(items@)),
{
    let ghost m = JsonValue::models(items@);
    proof {
        lemma_models(items@);
        assert(m.take(0) =~= Seq::<JsonView>::empty());
    }
    let mut out: Vec<String> = Vec::new();
    let mut i: usize = 0;
    while i < items.len()
        invariant
            i <= items@.len(),
            m == JsonValue::models(items@),
            m.len() == items@.len(),
            forall|j: int| 0 <= j < items@.len() ==> #[trigger] m[j] == items@[j]@,
            views(out@) == str_items(m.take(i as int)),
        decreases items@.len() - i,
    {
        let ghost before = views(out@);
        match items[i].as_str() {
            Some(t) => out.push(t.to_string()),
            None => {},
        }
        proof {
            assert(m.take(i + 1).drop_last() =~= m.take(i as int));
            assert(m.take(i + 1).last() == items@[i as int]@);
            match items@[i as int]@.as_str() {
                Some(t) => assert(views(out@) =~= before + seq![t]),
                None => assert(views(out@) =~= before + Seq::<Seq<char>>::empty()),
            }
        }
        i = i + 1;
    }
    assert(m.take(items@.len() as int) =~= m);
    out
}

fn is_binary_format(schema: &JsonValue) -> (r: bool)
    ensures
        r == (schema@.get_str("format"@) == Some("binary"@)),
{
    match schema.get_str("format") {
        Some(f) => str_eq(f, "binary"),
        None => false,
    }
}

/// Extract parameters from a request body schema.
pub fn extract_body_params(operation: &JsonValue, is_multipart: bool) -> (r: Vec<ParamDef>)
    ensures
        param_views(r@) == body_params(operation@, is_multipart),
{
    let content_type_key = if is_multipart { "multipart/form-data" } else { "application/json" };
    let content = match operation.get("requestBody") {
        Some(rb) => rb.get("content"),
        None => None,
    };
    let preferred = match content {
        Some(c) => match c.get(content_type_key) {
            Some(ct) => ct.get("schema"),
            None => None,
        },
        None => None,
    };
    let schema = match preferred {
        Some(s) => s,
        None => {
            // Try first available content type
            match content {
                Some(JsonValue::Object(ms)) => {
                    proof {
                        lemma_member_models(ms@);
                    }
                    if ms.len() > 0 {
                        match ms[0].1.get("schema") {
                            Some(s) => s,
                            None => return Vec::new(),
                        }
                    } else {
                        return Vec::new();
                    }
                },
                _ => return Vec::new(),
            }
        },
    };
    let required_items = array_or_empty(schema.get("required"));
    let required = strings_of(&required_items);
    let body_req = match operation.get("requestBody") {
        Some(rb) => flag_value(rb.get("required")),
        None => false,
    };
    assert(body_req == body_required(operation@));
    let ghost req = str_items(array_items(schema@.get("required"@)));
    assert(views(required@) == req);
    match schema.get("properties") {
        Some(JsonValue::Object(props)) => {
            let ghost pm = JsonValue::member_models(props@);
            proof {
                lemma_member_models(props@);
            }
            let mut out: Vec<ParamDef> = Vec::new();
            let mut i: usize = 0;
            while i < props.len()
                invariant
                    i <= props@.len(),
                    pm == JsonValue::member_models(props@),
                    pm.len() == props@.len(),
                    forall|j: int| 0 <= j < props@.len() ==> #[trigger] pm[j] == (props@[j].0@, props@[j].1@),
                    views(required@) == req,
                    out@.len() == i,
                    forall|j: int| 0 <= j < i ==> #[trigger] out@[j]@ == prop_param(pm[j].0, pm[j].1, is_multipart, body_req, req),
                decreases props@.len() - i,
            {
                let prop_name = &props[i].0;
                let prop_schema = &props[i].1;
                let name = to_kebab(prop_name.as_str());
                let rust_type = schema_type_to_rust(prop_schema);
                let description = str_or_empty(prop_schema.get_str("description"));
                let choices = extract_enum_choices(prop_schema);
                // Detect file upload fields
                let is_file = is_multipart && is_binary_format(prop_schema);
                let location = if is_file { ParamLocation::File } else { ParamLocation::Body };
                let is_required = body_req && contains_string_in(&required, prop_name.as_str());
                out.push(ParamDef {
                    name,
                    original_name: prop_name.clone(),
                    rust_type,
                    required: is_required,
                    description,
                    choices,
                    location,
                    schema: prop_schema.clone(),
                });
                i = i + 1;
            }
            assert(param_views(out@) =~= pm.map_values(
                |m: (Seq<char>, JsonView)| prop_param(m.0, m.1, is_multipart, body_req, req),
            ));
            out
        },
        _ => {
            // Non-object body schema (array or primitive). Expose the request
            // body as a single `--body` argument; the executor sends its value
            // verbatim as JSON.
            let description = match schema.get_str("description") {
                Some(d) => d.to_string(),
                None => "Request body (JSON)".to_string(),
            };
            let mut out: Vec<ParamDef> = Vec::new();
            out.push(ParamDef {
                name: "body".to_string(),
                original_name: WHOLE_BODY_KEY.to_string(),
                rust_type: schema_type_to_rust(schema),
                required: body_req,
                description,
                choices: extract_enum_choices(schema),
                location: ParamLocation::WholeBody,
                schema: schema.clone(),
            });
            assert(param_views(out@) =~= seq![whole_body_param(schema@, body_req)]);
            out
        },
    }
}

fn contains_string_in(v: &Vec<String>, s: &str) -> (r: bool)
    ensures
        r == views(v@).contains(s@),
{
    crate::names::contains_string(v, s)
}

// ---------------------------------------------------------------------------
// Commands
// ---------------------------------------------------------------------------

/// `s` without its `{` and `}` characters.
fn remove_braces(s: &str) -> (r: String)
    ensures
        r@ == s@.filter(|c: char| c != '{' && c != '}'),
{
    let cs = chars_of(s);
    let ghost keep = |c: char| c != '{' && c != '}';
    let mut out: Vec<char> = Vec::new();
    let mut i: usize = 0;
    assert(out@ =~= cs@.take(0).filter(keep)) by {
        reveal(Seq::filter);
    }
    while i < cs.len()
        invariant
            i <= cs@.len(),
            keep == (|c: char| c != '{' && c != '}'),
            out@ == cs@.take(i as int).filter(keep),
        decreases cs@.len() - i,
    {
        let c = cs[i];
        let ghost before = out@;
        if c != '{' && c != '}' {
            out.push(c);
        }
        proof {
            reveal(Seq::filter);
            assert(cs@.take(i + 1).drop_last() =~= cs@.take(i as int));
            if keep(c) {
                assert(out@ =~= before.push(c));
            }
        }
        i = i + 1;
    }
    assert(cs@.take(cs@.len() as int) =~= cs@);
    string_of(&out)
}

/// The command name an operation asks for, before deduplication.
fn raw_command_name(method: &str, path: &str, operation: &JsonValue) -> (r: String)
    ensures
        r@ == raw_name(OpView { method: method@, path: path@, operation: operation@, path_params: Seq::empty() }),
{
    match operation.get_str("operationId") {
        Some(id) => to_kebab(id),
        None => {
            let trimmed_end = trim_end_matches_char(path, '/');
            let trimmed = trim_start_matches_char(trimmed_end.as_str(), '/');
            let dashed = replace_char_str(trimmed.as_str(), '/', '-');
            let slug = remove_braces(dashed.as_str());
            concat3(method, "-", slug.as_str())
        },
    }
}

/// The command for the `method` operation of the path item at `path`, named so that it
/// does not clash with the names in `seen_names`, which then takes the name.
pub fn build_command(
    method: &str,
    path: &str,
    operation: &JsonValue,
    path_level_params: &Vec<JsonValue>,
    seen_names: &mut Vec<String>,
) -> (r: Option<CommandDef>)
    ensures
        ({
            let o = OpView {
                method: method@,
                path: path@,
                operation: operation@,
                path_params: JsonValue::models(path_level_params@),
            };
            let name = dedup_name(raw_name(o), views(old(seen_names)@));
            &&& r is Some
            &&& r->Some_0@ == command_of(o, name)
            &&& views(final(seen_names)@) == views(old(seen_names)@).push(name)
        }),
{
    let raw_name = raw_command_name(method, path, operation);
    let name = deduplicate_name(raw_name, seen_names);
    let description = match operation.get("summary") {
        Some(v) => str_or_empty(v.as_str()),
        None => str_or_empty(operation.get_str("description")),
    };
    // Collect operation-level parameters
    let op_params = array_or_empty(operation.get("parameters"));
    // Merge path-level and operation-level params (operation overrides path-level by name+in)
    let mut params = extract_parameters(path_level_params, &op_params);
    // Extract request body parameters
    let has_body = operation.get("requestBody").is_some();
    let content_type = extract_content_type(operation);
    let is_multipart = match &content_type {
        Some(ct) => contains_str(ct.as_str(), "multipart"),
        None => false,
    };
    let ghost p0 = param_views(params@);
    if has_body {
        let mut body_params = extract_body_params(operation, is_multipart);
        let ghost bp = param_views(body_params@);
        let ghost pp = params@;
        let ghost bb = body_params@;
        params.append(&mut body_params);
        assert(param_views(params@) =~= p0 + bp) by {
            assert(params@ == pp + bb);
        }
    } else {
        assert(param_views(params@) =~= p0 + Seq::<ParamView>::empty());
    }
    let cmd = CommandDef {
        name,
        description,
        params,
        has_body,
        method: Some(to_uppercase(method)),
        path: Some(path.to_string()),
        content_type,
        tool_name: None,
        graphql_operation_type: None,
        graphql_field_name: None,
        graphql_return_type: None,
    };
    Some(cmd)
}

proof fn lemma_take_push<A>(s: Seq<A>, i: int)
    requires
        0 <= i < s.len(),
    ensures
        s.take(i + 1) == s.take(i).push(s[i]),
{
    assert(s.take(i + 1) =~= s.take(i).push(s[i]));
}

/// Extract CommandDefs from an OpenAPI spec.
/// The spec should already have $refs resolved before calling this.
pub fn extract_openapi_commands(spec: &JsonValue) -> (r: Vec<CommandDef>)
    ensures
        command_views(r@) == openapi_commands(spec@),
{
    let mut commands: Vec<CommandDef> = Vec::new();
    let paths = match spec.get("paths") {
        Some(JsonValue::Object(p)) => p,
        _ => {
            assert(command_views(commands@) =~= Seq::<CommandView>::empty());
            return commands;
        },
    };
    let ghost pm = JsonValue::member_models(paths@);
    proof {
        lemma_member_models(paths@);
        assert(pm.take(0) =~= Seq::<(Seq<char>, JsonView)>::empty());
        assert(command_views(commands@) =~= Seq::<CommandView>::empty());
    }
    let mut seen_names: Vec<String> = Vec::new();
    let mut i: usize = 0;
    while i < paths.len()
        invariant
            i <= paths@.len(),
            pm == JsonValue::member_models(paths@),
            pm.len() == paths@.len(),
            forall|j: int| 0 <= j < paths@.len() ==> #[trigger] pm[j] == (paths@[j].0@, paths@[j].1@),
            name_commands(all_ops(pm.take(i as int)), Seq::empty()) == (command_views(commands@), views(seen_names@)),
            spec@.get("paths"@) == Some(JsonView::Object(pm)),
        decreases paths@.len() - i,
    {
        let path = &paths[i].0;
        let path_item = &paths[i].1;
        let ghost before_ops = all_ops(pm.take(i as int));
        proof {
            lemma_take_push(pm, i as int);
            assert(pm.take(i + 1).drop_last() == pm.take(i as int));
            assert(all_ops(pm.take(i + 1)) == before_ops + path_ops(path@, path_item@));
        }
        match path_item {
            JsonValue::Object(members) => {
                // Collect path-level parameters (shared by all operations on this path)
                let path_level_params = array_or_empty(path_item.get("parameters"));
                let ghost pp = JsonValue::models(path_level_params@);
                let ghost mm = JsonValue::member_models(members@);
                proof {
                    lemma_member_models(members@);
                    assert(mm.take(0) =~= Seq::<(Seq<char>, JsonView)>::empty());
                    assert(before_ops + method_ops(path@, mm.take(0), pp) =~= before_ops);
                }
                let mut j: usize = 0;
                while j < members.len()
                    invariant
                        j <= members@.len(),
                        mm == JsonValue::member_models(members@),
                        mm.len() == members@.len(),
                        forall|k: int| 0 <= k < members@.len() ==> #[trigger] mm[k] == (members@[k].0@, members@[k].1@),
                        pp == JsonValue::models(path_level_params@),
                        name_commands(before_ops + method_ops(path@, mm.take(j as int), pp), Seq::empty())
                            == (command_views(commands@), views(seen_names@)),
                    decreases members@.len() - j,
                {
                    let method = &members[j].0;
                    let operation = &members[j].1;
                    let ghost prev = before_ops + method_ops(path@, mm.take(j as int), pp);
                    proof {
                        lemma_take_push(mm, j as int);
                        assert(mm.take(j + 1).drop_last() == mm.take(j as int));
                    }
                    if is_http_method(method.as_str()) {
                        let ghost o = OpView { method: method@, path: path@, operation: operation@, path_params: pp };
                        let ghost cv = command_views(commands@);
                        match build_command(method.as_str(), path.as_str(), operation, &path_level_params, &mut seen_names) {
                            Some(cmd) => {
                                commands.push(cmd);
                            },
                            None => {},
                        }
                        proof {
                            assert(before_ops + method_ops(path@, mm.take(j + 1), pp) =~= prev.push(o));
                            assert(prev.push(o).drop_last() =~= prev);
                            assert(command_views(commands@) =~= cv.push(commands@.last()@));
                        }
                    } else {
                        proof {
                            assert(before_ops + method_ops(path@, mm.take(j + 1), pp) =~= prev);
                        }
                    }
                    j = j + 1;
                }
                proof {
                    assert(mm.take(members@.len() as int) =~= mm);
                    assert(path_item@ == JsonView::Object(mm));
                }
            },
            _ => {
                proof {
                    assert(before_ops + path_ops(path@, path_item@) =~= before_ops);
                }
            },
        }
        i = i + 1;
    }
    assert(pm.take(paths@.len() as int) =~= pm);
    commands
}

/// What naming leaves behind: the names taken afterwards are those taken before
/// followed by the commands' names, and none of these was taken before or is given twice.
pub proof fn lemma_name_commands(ops: Seq<OpView>, seen: Seq<Seq<char>>)
    ensures
        name_commands(ops, seen).0.len() == ops.len(),
        name_commands(ops, seen).1 == seen + name_commands(ops, seen).0.map_values(|c: CommandView| c.name),
        forall|i: int| 0 <= i < ops.len() ==> !seen.contains(#[trigger] name_commands(ops, seen).0[i].name),
        forall|i: int, j: int| 0 <= i < j < ops.len() ==> (#[trigger] name_commands(ops, seen).0[i]).name
            != (#[trigger] name_commands(ops, seen).0[j]).name,
    decreases ops.len(),
{
    if ops.len() > 0 {
        let front = ops.drop_last();
        lemma_name_commands(front, seen);
        let (cs, taken) = name_commands(front, seen);
        let name = dedup_name(raw_name(ops.last()), taken);
        crate::names::lemma_dedup_name(raw_name(ops.last()), taken);
        let cs2 = cs.push(command_of(ops.last(), name));
        assert(cs2.map_values(|c: CommandView| c.name) =~= cs.map_values(|c: CommandView| c.name).push(name));
        assert forall|i: int| 0 <= i < cs.len() implies cs2[i].name != name && !seen.contains(cs2[i].name) by {
            assert(cs2[i] == cs[i]);
            assert(taken[seen.len() + i] == cs[i].name);
        }
        assert forall|i: int| 0 <= i < seen.len() implies seen[i] != name by {
            assert(taken[i] == seen[i]);
        }
    }
}

/// Law: the commands extracted from a specification all have different names.
pub proof fn lemma_openapi_names_distinct(spec: JsonView)
    ensures
        forall|i: int, j: int| 0 <= i < j < openapi_commands(spec).len() ==> (#[trigger] openapi_commands(spec)[i]).name
            != (#[trigger] openapi_commands(spec)[j]).name,
{
    lemma_name_commands(spec_ops(spec), Seq::empty());
}

proof fn lemma_name_commands_shape(ops: Seq<OpView>, seen: Seq<Seq<char>>)
    ensures
        name_commands(ops, seen).0.len() == ops.len(),
        forall|i: int| 0 <= i < ops.len() ==> {
            let c = #[trigger] name_commands(ops, seen).0[i];
            c == command_of(ops[i], c.name)
        },
    decreases ops.len(),
{
    if ops.len() > 0 {
        lemma_name_commands_shape(ops.drop_last(), seen);
        let cs = name_commands(ops.drop_last(), seen).0;
        assert forall|i: int| 0 <= i < ops.len() implies {
            let c = #[trigger] name_commands(ops, seen).0[i];
            c == command_of(ops[i], c.name)
        } by {
            if i < ops.len() - 1 {
                assert(name_commands(ops, seen).0[i] == cs[i]);
                assert(ops.drop_last()[i] == ops[i]);
            }
        }
    }
}

proof fn lemma_method_ops_methods(path: Seq<char>, members: Seq<(Seq<char>, JsonView)>, path_params: Seq<JsonView>)
    ensures
        forall|i: int| 0 <= i < method_ops(path, members, path_params).len() ==>
            is_method_name((#[trigger] method_ops(path, members, path_params)[i]).method)
            && method_ops(path, members, path_params)[i].path == path,
    decreases members.len(),
{
    if members.len() > 0 {
        lemma_method_ops_methods(path, members.drop_last(), path_params);
        let front = method_ops(path, members.drop_last(), path_params);
        assert forall|i: int| 0 <= i < method_ops(path, members, path_params).len() implies
            is_method_name((#[trigger] method_ops(path, members, path_params)[i]).method)
            && method_ops(path, members, path_params)[i].path == path by {
            if i < front.len() {
                assert(method_ops(path, members, path_params)[i] == front[i]);
            }
        }
    }
}

proof fn lemma_all_ops_methods(paths: Seq<(Seq<char>, JsonView)>)
    ensures
        forall|i: int| 0 <= i < all_ops(paths).len() ==> is_method_name((#[trigger] all_ops(paths)[i]).method),
    decreases paths.len(),
{
    if paths.len() > 0 {
        lemma_all_ops_methods(paths.drop_last());
        let front = all_ops(paths.drop_last());
        let last = path_ops(paths.last().0, paths.last().1);
        match paths.last().1 {
            JsonView::Object(members) => {
                lemma_method_ops_methods(paths.last().0, members, array_items(paths.last().1.get("parameters"@)));
            },
            _ => {},
        }
        assert forall|i: int| 0 <= i < all_ops(paths).len() implies is_method_name((#[trigger] all_ops(paths)[i]).method) by {
            if i < front.len() {
                assert(all_ops(paths)[i] == front[i]);
            } else {
                assert(all_ops(paths)[i] == last[i - front.len()]);
            }
        }
    }
}

proof fn lemma_param_defs_path_required(ps: Seq<JsonView>)
    ensures
        forall|j: int| 0 <= j < param_defs(ps).len() && (#[trigger] param_defs(ps)[j]).location == ParamLocation::Path
            ==> param_defs(ps)[j].required,
    decreases ps.len(),
{
    if ps.len() > 0 {
        lemma_param_defs_path_required(ps.drop_last());
        let front = param_defs(ps.drop_last());
        assert forall|j: int| 0 <= j < param_defs(ps).len() && (#[trigger] param_defs(ps)[j]).location == ParamLocation::Path
            implies param_defs(ps)[j].required by {
            if j < front.len() {
                assert(param_defs(ps)[j] == front[j]);
            }
        }
    }
}

/// Law: the commands of a specification are one for each operation, that is for each
/// member of a path item named by an HTTP method, in order; each has that method in
/// upper case and that path; every path parameter of each is required; and a
/// specification whose `paths` is not an object has none.
pub proof fn lemma_openapi_commands_shape(spec: JsonView)
    ensures
        !(spec.get("paths"@) matches Some(JsonView::Object(_))) ==> openapi_commands(spec).len() == 0,
        openapi_commands(spec).len() == spec_ops(spec).len(),
        forall|i: int| 0 <= i < spec_ops(spec).len() ==> {
            &&& is_method_name(spec_ops(spec)[i].method)
            &&& (#[trigger] openapi_commands(spec)[i]).method == Some(upper_folded(spec_ops(spec)[i].method))
            &&& openapi_commands(spec)[i].path == Some(spec_ops(spec)[i].path)
            &&& forall|j: int| 0 <= j < openapi_commands(spec)[i].params.len()
                && (#[trigger] openapi_commands(spec)[i].params[j]).location == ParamLocation::Path
                ==> openapi_commands(spec)[i].params[j].required
        },
{
    let ops = spec_ops(spec);
    lemma_name_commands_shape(ops, Seq::empty());
    match spec.get("paths"@) {
        Some(JsonView::Object(paths)) => lemma_all_ops_methods(paths),
        _ => {},
    }
    assert forall|i: int| 0 <= i < ops.len() implies {
        &&& is_method_name(ops[i].method)
        &&& (#[trigger] openapi_commands(spec)[i]).method == Some(upper_folded(ops[i].method))
        &&& openapi_commands(spec)[i].path == Some(ops[i].path)
        &&& forall|j: int| 0 <= j < openapi_commands(spec)[i].params.len()
            && (#[trigger] openapi_commands(spec)[i].params[j]).location == ParamLocation::Path
            ==> openapi_commands(spec)[i].params[j].required
    } by {
        let c = openapi_commands(spec)[i];
        let o = ops[i];
        assert(c == command_of(o, c.name));
        let op = o.operation;
        let defs = param_defs(merged_params(o.path_params, array_items(op.get("parameters"@))));
        lemma_param_defs_path_required(merged_params(o.path_params, array_items(op.get("parameters"@))));
        let body = if op.get("requestBody"@) is Some { body_params(op, is_multipart_type(content_type_of(op))) } else { Seq::empty() };
        assert(c.params == defs + body);
        assert forall|j: int| 0 <= j < c.params.len() && (#[trigger] c.params[j]).location == ParamLocation::Path
            implies c.params[j].required by {
            if j < defs.len() {
                assert(c.params[j] == defs[j]);
            } else {
                assert(c.params[j] == body[j - defs.len()]);
                let is_mp = is_multipart_type(content_type_of(op));
                match body_schema(op, is_mp) {
                    None => {},
                    Some(schema) => {
                        match schema.get("properties"@) {
                            Some(JsonView::Object(props)) => {
                                let m = props[j - defs.len()];
                                assert(body[j - defs.len()] == prop_param(m.0, m.1, is_mp, body_required(op), str_items(array_items(schema.get("required"@)))));
                            },
                            _ => {},
                        }
                    },
                }
            }
        }
    }
}

/// Law: an OpenAPI parameter object with a string name is a parameter exactly when its
/// `in` is `path`, `query` or `header`, and then it is located there (a path parameter
/// always required), under its name in kebab case and keeping its original name.
pub proof fn lemma_param_locations(p: JsonView)
    requires
        p.get_str("name"@) is Some,
    ensures
        p.get_str("in"@) == Some("path"@) ==> (param_def(p) matches Some(d) && d.location == ParamLocation::Path && d.required),
        p.get_str("in"@) == Some("query"@) ==> (param_def(p) matches Some(d) && d.location == ParamLocation::Query),
        p.get_str("in"@) == Some("header"@) ==> (param_def(p) matches Some(d) && d.location == ParamLocation::Header),
        !(p.get_str("in"@) == Some("path"@) || p.get_str("in"@) == Some("query"@) || p.get_str("in"@) == Some("header"@))
            ==> param_def(p) is None,
        param_def(p) matches Some(d) ==> d.original_name == p.get_str("name"@)->Some_0
            && d.name == kebab(p.get_str("name"@)->Some_0),
{
    reveal_strlit("path");
    reveal_strlit("query");
    reveal_strlit("header");
    assert("query"@ != "path"@) by { assert("query"@[0] != "path"@[0]); }
    assert("header"@ != "path"@) by { assert("header"@[0] != "path"@[0]); }
    assert("header"@ != "query"@) by { assert("header"@[0] != "query"@[0]); }
}

} // verus!
