use vstd::prelude::*;
use crate::json::{JsonValue, JsonView, lookup, lemma_member_models, opt_model, member_get};
use crate::openapi::str_or;
use crate::text::{views, opt_view, str_eq, starts_with, starts_with_str, concat, concat3, trim, trim_str, chars_of, string_of_range, nat_text, u128_text};
use crate::json::{json_parse, parse_json, member_position};
use crate::request::header_views;
use crate::types::{ParamType, ParamDef, ParamView, ParamLocation, CommandDef, CommandView, param_views, command_views};
use crate::helpers::{kebab, to_kebab};
use crate::error::{AppError, ErrorView};

verus! {

// ---------------------------------------------------------------------------
// The introspection schema
// ---------------------------------------------------------------------------

#[derive(Debug)]
pub struct TypeName {
    pub name: String,
}

#[derive(Debug)]
pub struct IntrospectionEnumValue {
    pub name: String,
    pub description: Option<String>,
}

#[derive(Debug)]
pub struct IntrospectionInputValue {
    pub name: String,
    pub description: Option<String>,
    pub input_type: JsonValue,
    pub default_value: Option<String>,
}

#[derive(Debug)]
pub struct IntrospectionField {
    pub name: String,
    pub description: Option<String>,
    pub args: Vec<IntrospectionInputValue>,
    pub field_type: JsonValue,
    pub is_deprecated: Option<bool>,
}

#[derive(Debug)]
pub struct IntrospectionType {
    pub kind: String,
    pub name: Option<String>,
    pub description: Option<String>,
    pub fields: Option<Vec<IntrospectionField>>,
    pub input_fields: Option<Vec<IntrospectionInputValue>>,
    pub enum_values: Option<Vec<IntrospectionEnumValue>>,
}

#[derive(Debug)]
pub struct IntrospectionSchema {
    pub query_type: Option<TypeName>,
    pub mutation_type: Option<TypeName>,
    pub types: Vec<IntrospectionType>,
}

// ---------------------------------------------------------------------------
// Type references
// ---------------------------------------------------------------------------

/// A member looked up in an object is a part of it.
pub proof fn lemma_lookup_part(members: Seq<(Seq<char>, JsonView)>, key: Seq<char>)
    ensures
        lookup(members, key) matches Some(v) ==> exists|i: int| 0 <= i < members.len() && members[i].1 == v,
    decreases members.len(),
{
    if members.len() > 0 && members[0].0 != key {
        lemma_lookup_part(members.drop_first(), key);
        if lookup(members.drop_first(), key) is Some {
            let i = choose|i: int| 0 <= i < members.drop_first().len() && members.drop_first()[i].1 == lookup(members, key)->Some_0;
            assert(members[i + 1] == members.drop_first()[i]);
        }
    }
}

pub open spec fn kind_of(t: JsonView) -> Seq<char> {
    str_or(t.get_str("kind"@), Seq::empty())
}

/// The named type under a type reference, whether the outer reference is non-null,
/// and whether a list wraps it.
pub open spec fn unwrap_spec(t: JsonView) -> (Seq<char>, bool, bool)
    decreases t,
{
    let kind = kind_of(t);
    if kind == "NON_NULL"@ {
        match t.get("ofType"@) {
            Some(inner) => {
                proof {
                    lemma_of_type_smaller(t);
                }
                let u = unwrap_spec(inner);
                (u.0, true, u.2)
            },
            None => (Seq::empty(), true, false),
        }
    } else if kind == "LIST"@ {
        match t.get("ofType"@) {
            Some(inner) => {
                proof {
                    lemma_of_type_smaller(t);
                }
                (unwrap_spec(inner).0, false, true)
            },
            None => (Seq::empty(), false, true),
        }
    } else {
        (str_or(t.get_str("name"@), Seq::empty()), false, false)
    }
}

/// The type text of a reference, such as `[String!]!`.
pub open spec fn type_text(t: JsonView) -> Seq<char>
    decreases t,
{
    let kind = kind_of(t);
    if kind == "NON_NULL"@ {
        match t.get("ofType"@) {
            Some(inner) => {
                proof {
                    lemma_of_type_smaller(t);
                }
                type_text(inner) + "!"@
            },
            None => "!"@,
        }
    } else if kind == "LIST"@ {
        match t.get("ofType"@) {
            Some(inner) => {
                proof {
                    lemma_of_type_smaller(t);
                }
                "["@ + type_text(inner) + "]"@
            },
            None => "[]"@,
        }
    } else {
        str_or(t.get_str("name"@), "Unknown"@)
    }
}

pub proof fn lemma_of_type_smaller(t: JsonView)
    ensures
        t.get("ofType"@) matches Some(inner) ==> decreases_to!(t => inner),
{
    match t {
        JsonView::Object(members) => {
            lemma_lookup_part(members, "ofType"@);
            if lookup(members, "ofType"@) is Some {
                let i = choose|i: int| 0 <= i < members.len() && members[i].1 == lookup(members, "ofType"@)->Some_0;
                assert(decreases_to!(t => members));
                assert(decreases_to!(members => members[i]));
                assert(decreases_to!(members[i] => members[i].1));
            }
        },
        _ => {},
    }
}

fn kind_text(t: &JsonValue) -> (r: &str)
    ensures
        r@ == kind_of(t@),
{
    match t.get_str("kind") {
        Some(k) => k,
        None => {
            proof {
                reveal_strlit("");
            }
            ""
        },
    }
}

/// The position of the `ofType` member of a type reference.
fn of_type_position(t: &JsonValue) -> (r: Option<usize>)
    ensures
        match r {
            Some(i) => t is Object && i < t->Object_0@.len() && t@.get("ofType"@) == Some(t->Object_0@[i as int].1@),
            None => t@.get("ofType"@) is None,
        },
{
    match t {
        JsonValue::Object(members) => crate::json::member_position(members, "ofType"),
        _ => None,
    }
}

/// Unwrap a GraphQL type reference to its named type.
/// Returns (named_type, is_non_null, is_list).
pub fn unwrap_type(type_ref: &JsonValue) -> (r: (String, bool, bool))
    ensures
        (r.0@, r.1, r.2) == unwrap_spec(type_ref@),
    decreases type_ref,
{
    let kind = kind_text(type_ref);
    let is_non_null = str_eq(kind, "NON_NULL");
    if is_non_null || str_eq(kind, "LIST") {
        match of_type_position(type_ref) {
            Some(i) => {
                let members = match type_ref {
                    JsonValue::Object(m) => m,
                    _ => {
                        assert(false);
                        return (String::new(), false, false);
                    },
                };
                proof {
                    assert(decreases_to!(members@ => members@[i as int]));
                    assert(decreases_to!(members@[i as int] => members@[i as int].1));
                }
                let (named, _, is_list) = unwrap_type(&members[i].1);
                if is_non_null {
                    (named, true, is_list)
                } else {
                    (named, false, true)
                }
            },
            None => if is_non_null {
                (String::new(), true, false)
            } else {
                (String::new(), false, true)
            },
        }
    } else {
        match type_ref.get_str("name") {
            Some(n) => (n.to_string(), false, false),
            None => (String::new(), false, false),
        }
    }
}

/// Build a GraphQL type string like "[String!]!".
pub fn graphql_type_string(type_ref: &JsonValue) -> (r: String)
    ensures
        r@ == type_text(type_ref@),
    decreases type_ref,
{
    let kind = kind_text(type_ref);
    let is_non_null = str_eq(kind, "NON_NULL");
    if is_non_null || str_eq(kind, "LIST") {
        match of_type_position(type_ref) {
            Some(i) => {
                let members = match type_ref {
                    JsonValue::Object(m) => m,
                    _ => {
                        assert(false);
                        return String::new();
                    },
                };
                proof {
                    assert(decreases_to!(members@ => members@[i as int]));
                    assert(decreases_to!(members@[i as int] => members@[i as int].1));
                }
                let inner = graphql_type_string(&members[i].1);
                if is_non_null {
                    concat(inner.as_str(), "!")
                } else {
                    concat3("[", inner.as_str(), "]")
                }
            },
            None => if is_non_null {
                "!".to_string()
            } else {
                "[]".to_string()
            },
        }
    } else {
        match type_ref.get_str("name") {
            Some(n) => n.to_string(),
            None => "Unknown".to_string(),
        }
    }
}

/// The parameter type of a GraphQL type reference.
pub open spec fn gql_param_type(t: JsonView) -> ParamType {
    let (named, _, is_list) = unwrap_spec(t);
    if is_list {
        ParamType::Array
    } else if named == "Int"@ {
        ParamType::Int
    } else if named == "Float"@ {
        ParamType::Float
    } else if named == "Boolean"@ {
        ParamType::Bool
    } else if named == "String"@ || named == "ID"@ {
        ParamType::String
    } else {
        ParamType::Object
    }
}

/// Map a GraphQL type to our internal ParamType.
pub fn graphql_type_to_rust(type_ref: &JsonValue) -> (r: ParamType)
    ensures
        r == gql_param_type(type_ref@),
{
    let (named, _, is_list) = unwrap_type(type_ref);
    if is_list {
        return ParamType::Array;
    }
    let n = named.as_str();
    if str_eq(n, "Int") {
        ParamType::Int
    } else if str_eq(n, "Float") {
        ParamType::Float
    } else if str_eq(n, "Boolean") {
        ParamType::Bool
    } else if str_eq(n, "String") || str_eq(n, "ID") {
        ParamType::String
    } else {
        // input objects, enums handled separately
        ParamType::Object
    }
}

/// The built-in scalar types and the introspection types (`__...`).
pub open spec fn scalar_name(name: Seq<char>) -> bool {
    name == "String"@ || name == "Int"@ || name == "Float"@ || name == "Boolean"@ || name == "ID"@
        || starts_with(name, "__"@)
}

pub fn is_scalar(name: &str) -> (r: bool)
    ensures
        r == scalar_name(name@),
{
    str_eq(name, "String") || str_eq(name, "Int") || str_eq(name, "Float") || str_eq(name, "Boolean")
        || str_eq(name, "ID") || starts_with_str(name, "__")
}

// ---------------------------------------------------------------------------
// Selection sets
// ---------------------------------------------------------------------------

/// The last type in `types` named `name`: the one that a map from names to types,
/// filled in order, keeps.
pub open spec fn find_type(types: Seq<IntrospectionType>, name: Seq<char>) -> Option<IntrospectionType>
    decreases types.len(),
{
    if types.len() == 0 {
        None
    } else if opt_view(types.last().name) == Some(name) {
        Some(types.last())
    } else {
        find_type(types.drop_last(), name)
    }
}

/// The items joined with `sep` between them.
pub open spec fn join(items: Seq<Seq<char>>, sep: Seq<char>) -> Seq<char>
    decreases items.len(),
{
    if items.len() == 0 {
        Seq::empty()
    } else if items.len() == 1 {
        items[0]
    } else {
        join(items.drop_last(), sep) + sep + items.last()
    }
}

/// The selection set for the type `name`: its scalar fields by name and its other
/// fields with their own selection sets, down to `max` levels, skipping a type already
/// being expanded further up (`seen`) and fields whose selection would be empty.
pub open spec fn selection(name: Seq<char>, types: Seq<IntrospectionType>, depth: int, max: int, seen: Seq<Seq<char>>) -> Seq<char>
    decreases max - depth, 1int, 0int,
{
    if depth >= max || seen.contains(name) {
        Seq::empty()
    } else {
        match find_type(types, name) {
            None => Seq::empty(),
            Some(t) => match t.fields {
                None => Seq::empty(),
                Some(fs) => join(field_parts(fs@, types, depth, max, seen.push(name)), " "@),
            },
        }
    }
}

/// The selection parts for the fields `fs` of a type expanded at `depth`.
pub open spec fn field_parts(
    fs: Seq<IntrospectionField>,
    types: Seq<IntrospectionType>,
    depth: int,
    max: int,
    seen: Seq<Seq<char>>,
) -> Seq<Seq<char>>
    decreases max - depth, 0int, fs.len(),
{
    if fs.len() == 0 || depth >= max {
        Seq::empty()
    } else {
        let f = fs.last();
        let named = unwrap_spec(f.field_type@).0;
        field_parts(fs.drop_last(), types, depth, max, seen) + if scalar_name(named) {
            seq![f.name@]
        } else {
            let nested = selection(named, types, depth + 1, max, seen);
            if nested.len() == 0 {
                Seq::empty()
            } else {
                seq![f.name@ + " { "@ + nested + " }"@]
            }
        }
    }
}

/// The index of the last type named `name`.
fn find_type_index(types: &Vec<IntrospectionType>, name: &str) -> (r: Option<usize>)
    ensures
        match r {
            Some(i) => i < types@.len() && find_type(types@, name@) == Some(types@[i as int]),
            None => find_type(types@, name@) is None,
        },
{
    let mut k: usize = types.len();
    assert(types@.take(k as int) =~= types@);
    while k > 0
        invariant
            k <= types@.len(),
            find_type(types@, name@) == find_type(types@.take(k as int), name@),
        decreases k,
    {
        let t = &types[k - 1];
        assert(types@.take(k as int).last() == types@[k - 1]);
        assert(types@.take(k as int).drop_last() =~= types@.take(k - 1));
        match &t.name {
            Some(n) => {
                if str_eq(n.as_str(), name) {
                    return Some(k - 1);
                }
            },
            None => {},
        }
        k = k - 1;
    }
    None
}

/// `items` joined with `sep`.
pub fn join_strings(items: &Vec<String>, sep: &str) -> (r: String)
    ensures
        r@ == join(views(items@), sep@),
{
    let ghost v = views(items@);
    let mut out = String::new();
    let mut i: usize = 0;
    assert(v.take(0) =~= Seq::<Seq<char>>::empty());
    while i < items.len()
        invariant
            i <= items@.len(),
            v == views(items@),
            out@ == join(v.take(i as int), sep@),
        decreases items@.len() - i,
    {
        assert(v.take(i + 1).drop_last() =~= v.take(i as int));
        assert(v.take(i + 1).last() == items@[i as int]@);
        if i == 0 {
            out = items[i].clone();
        } else {
            out = concat3(out.as_str(), sep, items[i].as_str());
        }
        i = i + 1;
    }
    assert(v.take(items@.len() as int) =~= v);
    out
}

/// Build a selection set for a GraphQL type, recursing up to `max_depth`.
pub fn build_selection_set(
    named: &str,
    types_map: &Vec<IntrospectionType>,
    depth: usize,
    max_depth: usize,
    seen: &mut Vec<String>,
) -> (r: String)
    ensures
        r@ == selection(named@, types_map@, depth as int, max_depth as int, views(old(seen)@)),
        views(final(seen)@) == views(old(seen)@),
    decreases max_depth - depth,
{
    let ghost s0 = views(seen@);
    if depth >= max_depth || crate::names::contains_string(seen, named) {
        return String::new();
    }
    let type_def = match find_type_index(types_map, named) {
        Some(i) => &types_map[i],
        None => return String::new(),
    };
    let fields = match &type_def.fields {
        Some(f) => f,
        None => return String::new(),
    };
    seen.push(named.to_string());
    let ghost s1 = s0.push(named@);
    assert(views(seen@) =~= s1);
    let mut parts: Vec<String> = Vec::new();
    let mut j: usize = 0;
    assert(fields@.take(0) =~= Seq::<IntrospectionField>::empty());
    assert(views(parts@) =~= Seq::<Seq<char>>::empty());
    while j < fields.len()
        invariant
            j <= fields@.len(),
            depth < max_depth,
            views(seen@) == s1,
            views(parts@) == field_parts(fields@.take(j as int), types_map@, depth as int, max_depth as int, s1),
        decreases fields@.len() - j,
    {
        let field = &fields[j];
        assert(fields@.take(j + 1).drop_last() =~= fields@.take(j as int));
        assert(fields@.take(j + 1).last() == fields@[j as int]);
        let ghost before = views(parts@);
        let (named_type, _, _) = unwrap_type(&field.field_type);
        if is_scalar(named_type.as_str()) {
            parts.push(field.name.clone());
            assert(views(parts@) =~= before + seq![field.name@]);
        } else {
            let nested = build_selection_set(named_type.as_str(), types_map, depth + 1, max_depth, seen);
            if !nested.as_str().is_empty() {
                let head = concat(field.name.as_str(), " { ");
                parts.push(concat3(head.as_str(), nested.as_str(), " }"));
                assert(views(parts@) =~= before + seq![field.name@ + " { "@ + nested@ + " }"@]);
            } else {
                assert(views(parts@) =~= before + Seq::<Seq<char>>::empty());
            }
        }
        j = j + 1;
    }
    assert(fields@.take(fields@.len() as int) =~= fields@);
    let ghost sb = seen@;
    seen.pop();
    assert(seen@ == sb.subrange(0, sb.len() - 1));
    assert(views(sb).len() == s1.len());
    assert forall|k: int| 0 <= k < s0.len() implies views(seen@)[k] == s0[k] by {
        assert(views(seen@)[k] == sb[k]@);
        assert(views(sb)[k] == s1[k]);
    }
    assert(views(seen@) =~= s0);
    join_strings(&parts, " ")
}

// ---------------------------------------------------------------------------
// Commands
// ---------------------------------------------------------------------------

/// The operation a type's fields belong to: `query` for the query type, `mutation`
/// for the mutation type.
pub open spec fn op_type_of(schema: IntrospectionSchema, t: IntrospectionType) -> Option<Seq<char>> {
    match t.name {
        None => None,
        Some(n) => if schema.query_type is Some && schema.query_type->Some_0.name@ == n@ {
            Some("query"@)
        } else if schema.mutation_type is Some && schema.mutation_type->Some_0.name@ == n@ {
            Some("mutation"@)
        } else {
            None
        },
    }
}

/// The root fields of the schema with their operation, type by type.
pub open spec fn root_fields(schema: IntrospectionSchema, types: Seq<IntrospectionType>) -> Seq<(Seq<char>, IntrospectionField)>
    decreases types.len(),
{
    if types.len() == 0 {
        Seq::empty()
    } else {
        let t = types.last();
        root_fields(schema, types.drop_last()) + match op_type_of(schema, t) {
            Some(op) => match t.fields {
                Some(fs) => fs@.map_values(|f: IntrospectionField| (op, f)),
                None => Seq::empty(),
            },
            None => Seq::empty(),
        }
    }
}

/// The parameter for a field argument.
pub open spec fn arg_param(a: IntrospectionInputValue) -> ParamView {
    ParamView {
        name: kebab(a.name@),
        original_name: a.name@,
        rust_type: gql_param_type(a.input_type@),
        required: unwrap_spec(a.input_type@).1,
        description: str_or(opt_view(a.description), Seq::empty()),
        choices: None,
        location: ParamLocation::GraphqlArg,
        schema: a.input_type@,
    }
}

/// The command for a root field under `name`.
pub open spec fn field_command(op: Seq<char>, f: IntrospectionField, name: Seq<char>) -> CommandView {
    CommandView {
        name,
        description: str_or(opt_view(f.description), Seq::empty()),
        params: f.args@.map_values(|a: IntrospectionInputValue| arg_param(a)),
        has_body: false,
        method: None,
        path: None,
        content_type: None,
        tool_name: None,
        graphql_operation_type: Some(op),
        graphql_field_name: Some(f.name@),
        graphql_return_type: Some(f.field_type@),
    }
}

/// The commands for root fields, each named by its field in kebab case, with the
/// operation before it where an earlier field already had that name; and the names
/// seen afterwards.
pub open spec fn gql_commands(entries: Seq<(Seq<char>, IntrospectionField)>, seen: Seq<Seq<char>>) -> (Seq<CommandView>, Seq<Seq<char>>)
    decreases entries.len(),
{
    if entries.len() == 0 {
        (Seq::empty(), seen)
    } else {
        let (cs, s) = gql_commands(entries.drop_last(), seen);
        let (op, f) = entries.last();
        let base = kebab(f.name@);
        let name = if s.contains(base) { op + "-"@ + base } else { base };
        (cs.push(field_command(op, f, name)), s.push(base))
    }
}

/// The commands of a GraphQL schema.
pub open spec fn graphql_commands(schema: IntrospectionSchema) -> Seq<CommandView> {
    gql_commands(root_fields(schema, schema.types@), Seq::empty()).0
}

fn op_type_for(schema: &IntrospectionSchema, t: &IntrospectionType) -> (r: Option<&'static str>)
    ensures
        match r {
            Some(op) => op_type_of(*schema, *t) == Some(op@),
            None => op_type_of(*schema, *t) is None,
        },
{
    let n = match &t.name {
        Some(n) => n,
        None => return None,
    };
    let is_query = match &schema.query_type {
        Some(q) => str_eq(q.name.as_str(), n.as_str()),
        None => false,
    };
    if is_query {
        return Some("query");
    }
    let is_mutation = match &schema.mutation_type {
        Some(m) => str_eq(m.name.as_str(), n.as_str()),
        None => false,
    };
    if is_mutation {
        Some("mutation")
    } else {
        None
    }
}

fn arg_to_param(a: &IntrospectionInputValue) -> (r: ParamDef)
    ensures
        r@ == arg_param(*a),
{
    let rust_type = graphql_type_to_rust(&a.input_type);
    let (_, is_non_null, _) = unwrap_type(&a.input_type);
    ParamDef {
        name: to_kebab(a.name.as_str()),
        original_name: a.name.clone(),
        rust_type,
        required: is_non_null,
        description: match &a.description {
            Some(d) => d.clone(),
            None => String::new(),
        },
        choices: None,
        location: ParamLocation::GraphqlArg,
        schema: a.input_type.clone(),
    }
}

/// Extract CommandDefs from a GraphQL introspection schema.
pub fn extract_graphql_commands(schema: &IntrospectionSchema) -> (r: Vec<CommandDef>)
    ensures
        command_views(r@) == graphql_commands(*schema),
{
    let mut commands: Vec<CommandDef> = Vec::new();
    let mut names_seen: Vec<String> = Vec::new();
    let types = &schema.types;
    let mut i: usize = 0;
    assert(types@.take(0) =~= Seq::<IntrospectionType>::empty());
    assert(command_views(commands@) =~= Seq::<CommandView>::empty());
    while i < types.len()
        invariant
            i <= types@.len(),
            *types == schema.types,
            gql_commands(root_fields(*schema, types@.take(i as int)), Seq::empty()) == (command_views(commands@), views(names_seen@)),
        decreases types@.len() - i,
    {
        let type_def = &types[i];
        let ghost before = root_fields(*schema, types@.take(i as int));
        assert(types@.take(i + 1).drop_last() =~= types@.take(i as int));
        assert(types@.take(i + 1).last() == types@[i as int]);
        match op_type_for(schema, type_def) {
            Some(op_type) => {
                match &type_def.fields {
                    Some(fields) => {
                        let ghost es = fields@.map_values(|f: IntrospectionField| (op_type@, f));
                        assert(before + es.take(0) =~= before);
                        let mut j: usize = 0;
                        while j < fields.len()
                            invariant
                                j <= fields@.len(),
                                es == fields@.map_values(|f: IntrospectionField| (op_type@, f)),
                                gql_commands(before + es.take(j as int), Seq::empty()) == (command_views(commands@), views(names_seen@)),
                            decreases fields@.len() - j,
                        {
                            let field = &fields[j];
                            let ghost prev = before + es.take(j as int);
                            assert(before + es.take(j + 1) =~= prev.push((op_type@, fields@[j as int])));
                            assert(prev.push((op_type@, fields@[j as int])).drop_last() =~= prev);
                            let base_name = to_kebab(field.name.as_str());
                            let name = if crate::names::contains_string(&names_seen, base_name.as_str()) {
                                concat3(op_type, "-", base_name.as_str())
                            } else {
                                base_name.clone()
                            };
                            names_seen.push(base_name);
                            let ghost nv = views(names_seen@);
                            let mut params: Vec<ParamDef> = Vec::new();
                            let mut k: usize = 0;
                            while k < field.args.len()
                                invariant
                                    k <= field.args@.len(),
                                    params@.len() == k,
                                    forall|m: int| 0 <= m < k ==> #[trigger] params@[m]@ == arg_param(field.args@[m]),
                                decreases field.args@.len() - k,
                            {
                                params.push(arg_to_param(&field.args[k]));
                                k = k + 1;
                            }
                            assert(param_views(params@) =~= field.args@.map_values(|a: IntrospectionInputValue| arg_param(a)));
                            let ghost cv = command_views(commands@);
                            commands.push(CommandDef {
                                name,
                                description: match &field.description {
                                    Some(d) => d.clone(),
                                    None => String::new(),
                                },
                                params,
                                has_body: false,
                                method: None,
                                path: None,
                                content_type: None,
                                tool_name: None,
                                graphql_operation_type: Some(op_type.to_string()),
                                graphql_field_name: Some(field.name.clone()),
                                graphql_return_type: Some(field.field_type.clone()),
                            });
                            assert(command_views(commands@) =~= cv.push(commands@.last()@));
                            j = j + 1;
                        }
                        assert(es.take(fields@.len() as int) =~= es);
                    },
                    None => {
                        assert(before + Seq::<(Seq<char>, IntrospectionField)>::empty() =~= before);
                    },
                }
            },
            None => {
                assert(before + Seq::<(Seq<char>, IntrospectionField)>::empty() =~= before);
            },
        }
        i = i + 1;
    }
    assert(types@.take(types@.len() as int) =~= types@);
    commands
}

// ---------------------------------------------------------------------------
// Documents
// ---------------------------------------------------------------------------

/// `$name: Type` for each parameter that has an argument.
pub open spec fn var_decls(params: Seq<ParamView>, args: Seq<(Seq<char>, JsonView)>) -> Seq<Seq<char>>
    decreases params.len(),
{
    if params.len() == 0 {
        Seq::empty()
    } else {
        let p = params.last();
        var_decls(params.drop_last(), args) + if lookup(args, p.original_name) is Some {
            seq!["$"@ + p.original_name + ": "@ + type_text(p.schema)]
        } else {
            Seq::empty()
        }
    }
}

/// `name: $name` for each parameter that has an argument.
pub open spec fn field_args(params: Seq<ParamView>, args: Seq<(Seq<char>, JsonView)>) -> Seq<Seq<char>>
    decreases params.len(),
{
    if params.len() == 0 {
        Seq::empty()
    } else {
        let p = params.last();
        field_args(params.drop_last(), args) + if lookup(args, p.original_name) is Some {
            seq![p.original_name + ": $"@ + p.original_name]
        } else {
            Seq::empty()
        }
    }
}

/// The variables: each parameter that has an argument, with the argument.
pub open spec fn variables_of(params: Seq<ParamView>, args: Seq<(Seq<char>, JsonView)>) -> Seq<(Seq<char>, JsonView)>
    decreases params.len(),
{
    if params.len() == 0 {
        Seq::empty()
    } else {
        let p = params.last();
        variables_of(params.drop_last(), args) + match lookup(args, p.original_name) {
            Some(v) => seq![(p.original_name, v)],
            None => Seq::empty(),
        }
    }
}

pub open spec fn builtin_scalar(name: Seq<char>) -> bool {
    name == "String"@ || name == "Int"@ || name == "Float"@ || name == "Boolean"@ || name == "ID"@
}

/// The selection set for a command's return type: none for a scalar, else the type's
/// selection three levels deep.
pub open spec fn return_selection(cmd: CommandView, types: Seq<IntrospectionType>) -> Seq<char> {
    match cmd.graphql_return_type {
        None => Seq::empty(),
        Some(rt) => {
            let named = unwrap_spec(rt).0;
            if builtin_scalar(named) {
                Seq::empty()
            } else {
                selection(named, types, 0, 3, Seq::empty())
            }
        },
    }
}

pub open spec fn parenthesized(items: Seq<Seq<char>>) -> Seq<char> {
    if items.len() == 0 {
        Seq::empty()
    } else {
        "("@ + join(items, ", "@) + ")"@
    }
}

/// The document text a command sends with `args`.
pub open spec fn document_text(
    cmd: CommandView,
    args: Seq<(Seq<char>, JsonView)>,
    types: Seq<IntrospectionType>,
    fields_override: Option<Seq<char>>,
) -> Seq<char> {
    let op_type = str_or(cmd.graphql_operation_type, "query"@);
    let field_name = str_or(cmd.graphql_field_name, cmd.name);
    let sel = match fields_override {
        Some(f) => f,
        None => return_selection(cmd, types),
    };
    let fa = parenthesized(field_args(cmd.params, args));
    let body = if sel.len() == 0 {
        "  "@ + field_name + fa
    } else {
        "  "@ + field_name + fa + " { "@ + sel + " }"@
    };
    op_type + parenthesized(var_decls(cmd.params, args)) + " {\n"@ + body + "\n}"@
}

/// Build selection set from the command's return type using the schema's types.
fn build_selection_from_return_type(cmd: &CommandDef, schema: &IntrospectionSchema) -> (r: String)
    ensures
        r@ == return_selection(cmd@, schema.types@),
{
    let return_type = match &cmd.graphql_return_type {
        Some(rt) => rt,
        None => return String::new(),
    };
    let (named_type, _, _) = unwrap_type(return_type);
    let n = named_type.as_str();
    // Scalars don't need selection sets
    if str_eq(n, "String") || str_eq(n, "Int") || str_eq(n, "Float") || str_eq(n, "Boolean") || str_eq(n, "ID") {
        return String::new();
    }
    let mut seen: Vec<String> = Vec::new();
    assert(views(seen@) =~= Seq::<Seq<char>>::empty());
    build_selection_set(n, &schema.types, 0, 3, &mut seen)
}

fn parenthesize(items: &Vec<String>) -> (r: String)
    ensures
        r@ == parenthesized(views(items@)),
{
    if items.len() == 0 {
        String::new()
    } else {
        let inner = join_strings(items, ", ");
        concat3("(", inner.as_str(), ")")
    }
}

/// The field a command calls: its GraphQL field, else its own name.
pub fn field_name_of(cmd: &CommandDef) -> (r: String)
    ensures
        r@ == str_or(cmd@.graphql_field_name, cmd@.name),
{
    match &cmd.graphql_field_name {
        Some(f) => f.clone(),
        None => cmd.name.clone(),
    }
}

/// Build a GraphQL document string and variables map from a command and its arguments.
///
/// Returns (document_string, variables_map).
pub fn build_graphql_document(
    cmd: &CommandDef,
    args: &Vec<(String, JsonValue)>,
    schema: &IntrospectionSchema,
    fields_override: Option<&str>,
) -> (r: (String, JsonValue))
    ensures
        r.0@ == document_text(cmd@, JsonValue::member_models(args@), schema.types@, match fields_override {
            Some(f) => Some(f@),
            None => None,
        }),
        r.1@ == JsonView::Object(variables_of(cmd@.params, JsonValue::member_models(args@))),
{
    let op_type = match &cmd.graphql_operation_type {
        Some(o) => o.as_str(),
        None => "query",
    };
    let field_name = match &cmd.graphql_field_name {
        Some(f) => f.as_str(),
        None => cmd.name.as_str(),
    };
    let ghost pv = cmd@.params;
    let ghost am = JsonValue::member_models(args@);
    // Build variable declarations and argument references
    let mut decls: Vec<String> = Vec::new();
    let mut field_arg_list: Vec<String> = Vec::new();
    let mut variables: Vec<(String, JsonValue)> = Vec::new();
    let mut i: usize = 0;
    assert(pv.take(0) =~= Seq::<ParamView>::empty());
    assert(views(decls@) =~= Seq::<Seq<char>>::empty());
    assert(views(field_arg_list@) =~= Seq::<Seq<char>>::empty());
    assert(JsonValue::member_models(variables@) =~= Seq::<(Seq<char>, JsonView)>::empty());
    while i < cmd.params.len()
        invariant
            i <= cmd.params@.len(),
            pv == cmd@.params,
            pv == param_views(cmd.params@),
            am == JsonValue::member_models(args@),
            views(decls@) == var_decls(pv.take(i as int), am),
            views(field_arg_list@) == field_args(pv.take(i as int), am),
            JsonValue::member_models(variables@) == variables_of(pv.take(i as int), am),
        decreases cmd.params@.len() - i,
    {
        let param = &cmd.params[i];
        assert(pv.take(i + 1).drop_last() =~= pv.take(i as int));
        assert(pv.take(i + 1).last() == param@);
        let ghost vd = views(decls@);
        let ghost fa = views(field_arg_list@);
        let ghost vb = variables@;
        match member_get(args, param.original_name.as_str()) {
            Some(val) => {
                let type_str = graphql_type_string(&param.schema);
                let var_name = param.original_name.as_str();
                let d = concat3("$", var_name, ": ");
                decls.push(concat(d.as_str(), type_str.as_str()));
                field_arg_list.push(concat3(var_name, ": $", var_name));
                variables.push((param.original_name.clone(), val.clone()));
                assert(views(decls@) =~= vd + seq!["$"@ + param.original_name@ + ": "@ + type_text(param.schema@)]);
                assert(views(field_arg_list@) =~= fa + seq![param.original_name@ + ": $"@ + param.original_name@]);
                assert(variables@.drop_last() == vb);
                assert(JsonValue::member_models(variables@) =~= JsonValue::member_models(vb) + seq![(param.original_name@, val@)]);
            },
            None => {
                assert(views(decls@) =~= vd + Seq::<Seq<char>>::empty());
                assert(views(field_arg_list@) =~= fa + Seq::<Seq<char>>::empty());
                assert(JsonValue::member_models(variables@) =~= JsonValue::member_models(vb) + Seq::<(Seq<char>, JsonView)>::empty());
            },
        }
        i = i + 1;
    }
    assert(pv.take(cmd.params@.len() as int) =~= pv);
    // Build selection set
    let selection = match fields_override {
        Some(fields) => fields.to_string(),
        None => build_selection_from_return_type(cmd, schema),
    };
    // Assemble document
    let var_decl_str = parenthesize(&decls);
    let field_arg_str = parenthesize(&field_arg_list);
    let head = concat3("  ", field_name, field_arg_str.as_str());
    let body = if selection.as_str().is_empty() {
        head
    } else {
        let with_open = concat3(head.as_str(), " { ", selection.as_str());
        concat(with_open.as_str(), " }")
    };
    let top = concat3(op_type, var_decl_str.as_str(), " {\n");
    let document = concat3(top.as_str(), body.as_str(), "\n}");
    (document, JsonValue::Object(variables))
}

// ---------------------------------------------------------------------------
// Responses
// ---------------------------------------------------------------------------

/// A text shortened for an error message: trimmed, and cut to 300 characters with an
/// ellipsis where it is longer.
pub open spec fn truncated(s: Seq<char>) -> Seq<char> {
    let t = trim(s);
    if t.len() <= 300 {
        t
    } else {
        t.take(300) + "\u{2026}"@
    }
}

pub fn truncate_for_error(s: &str) -> (r: String)
    ensures
        r@ == truncated(s@),
{
    let trimmed = trim_str(s);
    let cs = chars_of(trimmed.as_str());
    if cs.len() <= 300 {
        trimmed
    } else {
        let head = string_of_range(&cs, 0, 300);
        concat(head.as_str(), "\u{2026}")
    }
}

/// The message of each error object, `(no message)` where it has none.
pub open spec fn error_messages(errors: Seq<JsonView>) -> Seq<Seq<char>> {
    errors.map_values(|e: JsonView| str_or(e.get_str("message"@), "(no message)"@))
}

/// What an introspection request yields for a response with `status` and `body_text`:
/// the `data.__schema` value, or the error that explains why there is none.
pub open spec fn introspection_outcome(status: u16, body_text: Seq<char>) -> Result<JsonView, ErrorView> {
    if !(200 <= status <= 299) {
        Err(ErrorView::Protocol("GraphQL introspection HTTP "@ + nat_text(status as nat) + ": "@ + truncated(body_text)))
    } else {
        match json_parse(body_text) {
            Err(e) => Err(ErrorView::Protocol(
                "GraphQL introspection returned non-JSON response: "@ + e + " (body: "@ + truncated(body_text) + ")"@,
            )),
            Ok(resp) => match resp.get("errors"@) {
                Some(JsonView::Array(errors)) if errors.len() > 0 => Err(ErrorView::Protocol(
                    "GraphQL introspection errors: "@ + join(error_messages(errors), "; "@),
                )),
                _ => match resp.get("data"@) {
                    Some(d) => match d.get("__schema"@) {
                        Some(schema) => Ok(schema),
                        None => Err(missing_schema()),
                    },
                    None => Err(missing_schema()),
                },
            },
        }
    }
}

pub open spec fn missing_schema() -> ErrorView {
    ErrorView::Protocol("introspection response missing data.__schema (server may have introspection disabled)"@)
}

fn messages_of(errors: &Vec<JsonValue>) -> (r: Vec<String>)
    ensures
        views(r@) == error_messages(JsonValue::models(errors@)),
{
    proof {
        crate::json::lemma_models(errors@);
    }
    let mut out: Vec<String> = Vec::new();
    let mut i: usize = 0;
    while i < errors.len()
        invariant
            i <= errors@.len(),
            out@.len() == i,
            JsonValue::models(errors@).len() == errors@.len(),
            forall|j: int| 0 <= j < errors@.len() ==> #[trigger] JsonValue::models(errors@)[j] == errors@[j]@,
            forall|j: int| 0 <= j < i ==> (#[trigger] out@[j])@ == str_or(errors@[j]@.get_str("message"@), "(no message)"@),
        decreases errors@.len() - i,
    {
        let m = match errors[i].get_str("message") {
            Some(m) => m.to_string(),
            None => "(no message)".to_string(),
        };
        out.push(m);
        i = i + 1;
    }
    assert(views(out@) =~= error_messages(JsonValue::models(errors@)));
    out
}

/// Read the response to an introspection request: the `data.__schema` value on
/// success, else the error that says what came back instead.
pub fn introspection_response(status: u16, body_text: &str) -> (r: Result<JsonValue, AppError>)
    ensures
        crate::error::result_view(r) == introspection_outcome(status, body_text@),
{
    if !(200 <= status && status <= 299) {
        let snippet = truncate_for_error(body_text);
        let code = u128_text(status as u128);
        let head = concat3("GraphQL introspection HTTP ", code.as_str(), ": ");
        return Err(AppError::Protocol(concat(head.as_str(), snippet.as_str())));
    }
    let resp = match parse_json(body_text) {
        Ok(v) => v,
        Err(e) => {
            let snippet = truncate_for_error(body_text);
            let head = concat3("GraphQL introspection returned non-JSON response: ", e.as_str(), " (body: ");
            return Err(AppError::Protocol(concat3(head.as_str(), snippet.as_str(), ")")));
        },
    };
    match resp.get("errors") {
        Some(JsonValue::Array(errors)) => {
            if errors.len() > 0 {
                proof {
                    crate::json::lemma_models(errors@);
                }
                let messages = messages_of(errors);
                let joined = join_strings(&messages, "; ");
                return Err(AppError::Protocol(concat("GraphQL introspection errors: ", joined.as_str())));
            }
        },
        _ => {},
    }
    let schema_val = match resp.get("data") {
        Some(d) => d.get("__schema"),
        None => None,
    };
    match schema_val {
        Some(s) => Ok(s.clone()),
        None => Err(AppError::Protocol(
            "introspection response missing data.__schema (server may have introspection disabled)".to_string(),
        )),
    }
}

/// The messages of the error objects that carry one, in order.
pub open spec fn present_messages(errors: Seq<JsonView>) -> Seq<Seq<char>>
    decreases errors.len(),
{
    if errors.len() == 0 {
        Seq::empty()
    } else {
        present_messages(errors.drop_last()) + match errors.last().get_str("message"@) {
            Some(m) => seq![m],
            None => Seq::empty(),
        }
    }
}

/// What a GraphQL call yields: warnings to show and the result.
#[derive(Debug)]
pub struct GraphqlOutcome {
    /// The messages of errors reported beside data.
    pub warnings: Vec<String>,
    pub result: JsonValue,
}

/// What a GraphQL call answers for a response: an error for a failed status, a body
/// that is not JSON, or errors without data; else the warnings (the messages of errors
/// reported beside data) and `data.<field>`, or the whole `data` where that field is
/// missing, or `null` without data.
pub open spec fn graphql_outcome(
    field_name: Seq<char>,
    status: u16,
    status_text: Seq<char>,
    body_text: Seq<char>,
) -> Result<(Seq<Seq<char>>, JsonView), ErrorView> {
    if !(200 <= status <= 299) {
        Err(ErrorView::Execution("GraphQL request failed with status "@ + status_text + ": "@ + body_text))
    } else {
        match json_parse(body_text) {
            Err(_) => Err(ErrorView::Network("error decoding response body"@)),
            Ok(resp) => {
                let errors = match resp.get("errors"@) {
                    Some(JsonView::Array(a)) => a,
                    _ => Seq::empty(),
                };
                let no_data = match resp.get("data"@) {
                    Some(d) => d is Null,
                    None => true,
                };
                if errors.len() > 0 && no_data {
                    Err(ErrorView::Execution("GraphQL errors: "@ + join(present_messages(errors), "; "@)))
                } else {
                    let result = match resp.get("data"@) {
                        Some(d) => match d.get(field_name) {
                            Some(v) => v,
                            None => d,
                        },
                        None => JsonView::Null,
                    };
                    Ok((present_messages(errors), result))
                }
            },
        }
    }
}

/// Law: a successful (2xx) JSON response that carries data other than `null` gives
/// that data's field (or the whole data where the field is missing) whatever errors it
/// reports, the messages of those errors coming back as warnings; and a 2xx JSON
/// response fails only where its data is missing or `null`.
pub proof fn lemma_graphql_partial_data(field_name: Seq<char>, status: u16, status_text: Seq<char>, body_text: Seq<char>)
    requires
        200 <= status <= 299,
        json_parse(body_text) is Ok,
    ensures
        ({
            let resp = json_parse(body_text)->Ok_0;
            let errors = match resp.get("errors"@) {
                Some(JsonView::Array(a)) => a,
                _ => Seq::empty(),
            };
            &&& resp.get("data"@) matches Some(d) ==> (d is Null || graphql_outcome(field_name, status, status_text, body_text)
                == Ok::<(Seq<Seq<char>>, JsonView), ErrorView>((present_messages(errors), match d.get(field_name) {
                    Some(v) => v,
                    None => d,
                })))
            &&& graphql_outcome(field_name, status, status_text, body_text) is Err ==> match resp.get("data"@) {
                Some(d) => d is Null,
                None => true,
            }
        }),
{
}

fn present_messages_of(errors: &Vec<JsonValue>) -> (r: Vec<String>)
    ensures
        views(r@) == present_messages(JsonValue::models(errors@)),
{
    let ghost m = JsonValue::models(errors@);
    proof {
        crate::json::lemma_models(errors@);
    }
    let mut out: Vec<String> = Vec::new();
    let mut i: usize = 0;
    assert(m.take(0) =~= Seq::<JsonView>::empty());
    while i < errors.len()
        invariant
            i <= errors@.len(),
            m == JsonValue::models(errors@),
            m.len() == errors@.len(),
            forall|j: int| 0 <= j < errors@.len() ==> #[trigger] m[j] == errors@[j]@,
            views(out@) == present_messages(m.take(i as int)),
        decreases errors@.len() - i,
    {
        assert(m.take(i + 1).drop_last() =~= m.take(i as int));
        assert(m.take(i + 1).last() == errors@[i as int]@);
        let ghost before = views(out@);
        match errors[i].get_str("message") {
            Some(msg) => {
                out.push(msg.to_string());
                assert(views(out@) =~= before + seq![msg@]);
            },
            None => {
                assert(views(out@) =~= before + Seq::<Seq<char>>::empty());
            },
        }
        i = i + 1;
    }
    assert(m.take(errors@.len() as int) =~= m);
    out
}

/// Read the response to a GraphQL call for the root field `field_name`; `status_text`
/// is the status as the HTTP client shows it.
pub fn graphql_response(field_name: &str, status: u16, status_text: &str, body_text: &str) -> (r: Result<GraphqlOutcome, AppError>)
    ensures
        match r {
            Ok(o) => graphql_outcome(field_name@, status, status_text@, body_text@) == Ok::<(Seq<Seq<char>>, JsonView), ErrorView>((views(o.warnings@), o.result@)),
            Err(e) => graphql_outcome(field_name@, status, status_text@, body_text@) == Err::<(Seq<Seq<char>>, JsonView), ErrorView>(e@),
        },
{
    if !(200 <= status && status <= 299) {
        let head = concat3("GraphQL request failed with status ", status_text, ": ");
        return Err(AppError::Execution(concat(head.as_str(), body_text)));
    }
    let resp = match parse_json(body_text) {
        Ok(v) => v,
        Err(_) => return Err(AppError::Network("error decoding response body".to_string())),
    };
    let warnings = match resp.get("errors") {
        Some(JsonValue::Array(arr)) => present_messages_of(arr),
        _ => {
            let w: Vec<String> = Vec::new();
            assert(views(w@) =~= Seq::<Seq<char>>::empty());
            w
        },
    };
    let has_errors = match resp.get("errors") {
        Some(JsonValue::Array(arr)) => arr.len() > 0,
        _ => false,
    };
    proof {
        match resp@.get("errors"@) {
            Some(JsonView::Array(a)) => {},
            _ => {
                assert(present_messages(Seq::<JsonView>::empty()) =~= Seq::<Seq<char>>::empty());
            },
        }
    }
    let data = resp.get("data");
    let no_data = match data {
        Some(d) => match d {
            JsonValue::Null => true,
            _ => false,
        },
        None => true,
    };
    if has_errors && no_data {
        // If there's no data, report errors as failure
        let joined = join_strings(&warnings, "; ");
        return Err(AppError::Execution(concat("GraphQL errors: ", joined.as_str())));
    }
    // Extract data.<fieldName>, falling back to the entire data object
    let result = match data {
        Some(d) => match d.get(field_name) {
            Some(v) => v.clone(),
            None => d.clone(),
        },
        None => JsonValue::Null,
    };
    Ok(GraphqlOutcome { warnings, result })
}

} // verus!
