use vstd::prelude::*;
use crate::json::{JsonValue, JsonView};
use crate::text::{views, opt_view, copy_string, copy_strings, copy_opt_string};

verus! {

/// The type a parameter's value is coerced to.
#[derive(Debug, Clone, Copy, PartialEq, Eq, Structural)]
pub enum ParamType {
    String,
    Int,
    Float,
    Bool,
    Array,
    Object,
}

/// Where a parameter's value goes in a request.
#[derive(Debug, Clone, Copy, PartialEq, Eq, Structural)]
pub enum ParamLocation {
    Path,
    Query,
    Header,
    Body,
    /// The entire request body, used when the schema is non-object (array or
    /// primitive). Only one such param exists per command.
    WholeBody,
    ToolInput,
    GraphqlArg,
    File,
}

/// One parameter of a command.
#[derive(Debug)]
pub struct ParamDef {
    pub name: String,
    pub original_name: String,
    pub rust_type: ParamType,
    pub required: bool,
    pub description: String,
    pub choices: Option<Vec<String>>,
    pub location: ParamLocation,
    pub schema: JsonValue,
}

/// The model of a `ParamDef`.
pub struct ParamView {
    pub name: Seq<char>,
    pub original_name: Seq<char>,
    pub rust_type: ParamType,
    pub required: bool,
    pub description: Seq<char>,
    pub choices: Option<Seq<Seq<char>>>,
    pub location: ParamLocation,
    pub schema: JsonView,
}

pub open spec fn opt_views(v: Option<Vec<String>>) -> Option<Seq<Seq<char>>> {
    match v {
        Some(x) => Some(views(x@)),
        None => None,
    }
}

pub open spec fn opt_json(v: Option<JsonValue>) -> Option<JsonView> {
    match v {
        Some(x) => Some(x@),
        None => None,
    }
}

impl View for ParamDef {
    type V = ParamView;

    open spec fn view(&self) -> ParamView {
        ParamView {
            name: self.name@,
            original_name: self.original_name@,
            rust_type: self.rust_type,
            required: self.required,
            description: self.description@,
            choices: opt_views(self.choices),
            location: self.location,
            schema: self.schema@,
        }
    }
}

impl Clone for ParamDef {
    fn clone(&self) -> (r: Self)
        ensures
            r@ == self@,
    {
        ParamDef {
            name: copy_string(&self.name),
            original_name: copy_string(&self.original_name),
            rust_type: self.rust_type,
            required: self.required,
            description: copy_string(&self.description),
            choices: match &self.choices {
                Some(c) => Some(copy_strings(c)),
                None => None,
            },
            location: self.location,
            schema: self.schema.clone(),
        }
    }
}

/// One command of a source: an OpenAPI operation, an MCP tool or a GraphQL field.
#[derive(Debug)]
pub struct CommandDef {
    pub name: String,
    pub description: String,
    pub params: Vec<ParamDef>,
    pub has_body: bool,
    // OpenAPI-specific
    pub method: Option<String>,
    pub path: Option<String>,
    pub content_type: Option<String>,
    // MCP-specific
    pub tool_name: Option<String>,
    // GraphQL-specific
    pub graphql_operation_type: Option<String>,
    pub graphql_field_name: Option<String>,
    pub graphql_return_type: Option<JsonValue>,
}

/// The model of a `CommandDef`.
pub struct CommandView {
    pub name: Seq<char>,
    pub description: Seq<char>,
    pub params: Seq<ParamView>,
    pub has_body: bool,
    pub method: Option<Seq<char>>,
    pub path: Option<Seq<char>>,
    pub content_type: Option<Seq<char>>,
    pub tool_name: Option<Seq<char>>,
    pub graphql_operation_type: Option<Seq<char>>,
    pub graphql_field_name: Option<Seq<char>>,
    pub graphql_return_type: Option<JsonView>,
}

pub open spec fn param_views(v: Seq<ParamDef>) -> Seq<ParamView> {
    v.map_values(|p: ParamDef| p@)
}

pub open spec fn command_views(v: Seq<CommandDef>) -> Seq<CommandView> {
    v.map_values(|c: CommandDef| c@)
}

impl View for CommandDef {
    type V = CommandView;

    open spec fn view(&self) -> CommandView {
        CommandView {
            name: self.name@,
            description: self.description@,
            params: param_views(self.params@),
            has_body: self.has_body,
            method: opt_view(self.method),
            path: opt_view(self.path),
            content_type: opt_view(self.content_type),
            tool_name: opt_view(self.tool_name),
            graphql_operation_type: opt_view(self.graphql_operation_type),
            graphql_field_name: opt_view(self.graphql_field_name),
            graphql_return_type: opt_json(self.graphql_return_type),
        }
    }
}

pub fn copy_params(v: &Vec<ParamDef>) -> (r: Vec<ParamDef>)
    ensures
        param_views(r@) == param_views(v@),
{
    let mut r: Vec<ParamDef> = Vec::new();
    let mut i: usize = 0;
    while i < v.len()
        invariant
            i <= v@.len(),
            r@.len() == i,
            forall|j: int| 0 <= j < i ==> #[trigger] r@[j]@ == v@[j]@,
        decreases v@.len() - i,
    {
        r.push(v[i].clone());
        i = i + 1;
    }
    assert(param_views(r@) =~= param_views(v@));
    r
}

impl Clone for CommandDef {
    fn clone(&self) -> (r: Self)
        ensures
            r@ == self@,
    {
        CommandDef {
            name: copy_string(&self.name),
            description: copy_string(&self.description),
            params: copy_params(&self.params),
            has_body: self.has_body,
            method: copy_opt_string(&self.method),
            path: copy_opt_string(&self.path),
            content_type: copy_opt_string(&self.content_type),
            tool_name: copy_opt_string(&self.tool_name),
            graphql_operation_type: copy_opt_string(&self.graphql_operation_type),
            graphql_field_name: copy_opt_string(&self.graphql_field_name),
            graphql_return_type: match &self.graphql_return_type {
                Some(v) => Some(v.clone()),
                None => None,
            },
        }
    }
}

} // verus!
