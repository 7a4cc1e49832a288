use vstd::prelude::*;
use crate::error::{AppError, ErrorView};
use crate::json::{JsonValue, JsonView, json_parse, parse_json, lemma_models};
use crate::text::{trim, split, views, parse_i64_spec, int_text, lowercase, str_eq, parse_i64, i64_text, concat, concat3, to_lowercase, split_char, trim_str};
use crate::types::ParamType;

verus! {

/// The `ParamType` that a JSON schema's `type` names; `String` for anything else.
pub open spec fn schema_type(schema: JsonView) -> ParamType {
    match schema.get_str("type"@) {
        Some(t) => {
            if t == "integer"@ {
                ParamType::Int
            } else if t == "number"@ {
                ParamType::Float
            } else if t == "boolean"@ {
                ParamType::Bool
            } else if t == "array"@ {
                ParamType::Array
            } else if t == "object"@ {
                ParamType::Object
            } else {
                ParamType::String
            }
        },
        None => ParamType::String,
    }
}

/// Map a JSON schema type to our internal ParamType.
pub fn schema_type_to_rust(schema: &JsonValue) -> (r: ParamType)
    ensures
        r == schema_type(schema@),
{
    match schema.get_str("type") {
        Some(t) => {
            if str_eq(t, "integer") {
                ParamType::Int
            } else if str_eq(t, "number") {
                ParamType::Float
            } else if str_eq(t, "boolean") {
                ParamType::Bool
            } else if str_eq(t, "array") {
                ParamType::Array
            } else if str_eq(t, "object") {
                ParamType::Object
            } else {
                ParamType::String
            }
        },
        None => ParamType::String,
    }
}

/// The pieces of a comma-separated list, each trimmed, as JSON strings.
pub open spec fn csv_items(pieces: Seq<Seq<char>>) -> Seq<JsonView> {
    pieces.map_values(|p: Seq<char>| JsonView::Str(trim(p)))
}

/// What `coerce_value` makes of the command-line text `value` for a parameter with
/// `schema`. `as_float` is `value` read as a floating-point JSON number (`None` when it
/// is not one); it is consulted only when the schema asks for a number.
pub open spec fn coerce_spec(value: Seq<char>, schema: JsonView, as_float: Option<JsonView>) -> Result<JsonView, ErrorView> {
    match schema_type(schema) {
        ParamType::Int => match parse_i64_spec(value) {
            Some(n) => Ok(JsonView::Number(int_text(n as int))),
            None => Err(ErrorView::Cli("expected integer, got '"@ + value + "'"@)),
        },
        ParamType::Float => match as_float {
            Some(v) => Ok(v),
            None => Err(ErrorView::Cli("expected number, got '"@ + value + "'"@)),
        },
        ParamType::Bool => {
            let l = lowercase(value);
            if l == "true"@ || l == "1"@ || l == "yes"@ {
                Ok(JsonView::Bool(true))
            } else if l == "false"@ || l == "0"@ || l == "no"@ {
                Ok(JsonView::Bool(false))
            } else {
                Err(ErrorView::Cli("expected boolean, got '"@ + value + "'"@))
            }
        },
        ParamType::Array => match json_parse(value) {
            Ok(JsonView::Array(items)) => Ok(JsonView::Array(items)),
            _ => Ok(JsonView::Array(csv_items(split(value, ',')))),
        },
        ParamType::Object => match json_parse(value) {
            Ok(v) => Ok(v),
            Err(e) => Err(ErrorView::Cli("expected JSON object: "@ + e)),
        },
        ParamType::String => Ok(JsonView::Str(value)),
    }
}

/// Coerce a string CLI value into a typed JSON value based on the schema.
///
/// `as_float` is `value` read as a floating-point number and turned into a JSON value
/// (`None` when it does not read as one); the caller works it out, and it is used
/// only for `number` schemas.
pub fn coerce_value(value: &str, schema: &JsonValue, as_float: Option<JsonValue>) -> (r: Result<JsonValue, AppError>)
    ensures
        crate::error::result_view(r) == coerce_spec(value@, schema@, opt_json_view(as_float)),
{
    let param_type = schema_type_to_rust(schema);
    match param_type {
        ParamType::Int => match parse_i64(value) {
            Some(n) => Ok(JsonValue::Number(i64_text(n))),
            None => Err(AppError::Cli(concat3("expected integer, got '", value, "'"))),
        },
        ParamType::Float => match as_float {
            Some(v) => Ok(v),
            None => Err(AppError::Cli(concat3("expected number, got '", value, "'"))),
        },
        ParamType::Bool => {
            let l = to_lowercase(value);
            if str_eq(l.as_str(), "true") || str_eq(l.as_str(), "1") || str_eq(l.as_str(), "yes") {
                Ok(JsonValue::Bool(true))
            } else if str_eq(l.as_str(), "false") || str_eq(l.as_str(), "0") || str_eq(l.as_str(), "no") {
                Ok(JsonValue::Bool(false))
            } else {
                Err(AppError::Cli(concat3("expected boolean, got '", value, "'")))
            }
        },
        ParamType::Array => {
            // Try JSON parse first, then comma-delimited
            if let Ok(v) = parse_json(value) {
                if let JsonValue::Array(_) = v {
                    return Ok(v);
                }
            }
            let pieces = split_char(value, ',');
            let mut items: Vec<JsonValue> = Vec::new();
            let mut i: usize = 0;
            while i < pieces.len()
                invariant
                    i <= pieces@.len(),
                    items@.len() == i,
                    forall|j: int| 0 <= j < i ==> (#[trigger] items@[j])@ == JsonView::Str(trim(pieces@[j]@)),
                decreases pieces@.len() - i,
            {
                items.push(JsonValue::Str(trim_str(pieces[i].as_str())));
                i = i + 1;
            }
            proof {
                lemma_models(items@);
                assert(JsonValue::models(items@) =~= csv_items(views(pieces@)));
            }
            Ok(JsonValue::Array(items))
        },
        ParamType::Object => match parse_json(value) {
            Ok(v) => Ok(v),
            Err(e) => Err(AppError::Cli(concat("expected JSON object: ", e.as_str()))),
        },
        ParamType::String => Ok(JsonValue::Str(value.to_string())),
    }
}

pub open spec fn opt_json_view(v: Option<JsonValue>) -> Option<JsonView> {
    match v {
        Some(x) => Some(x@),
        None => None,
    }
}

} // verus!
