use vstd::prelude::*;
use crate::error::{AppError, ErrorView};
use crate::json::{JsonValue, JsonView, lookup, lemma_member_models, opt_model, json_text, to_json_text, json_parse, parse_json, member_get};
use crate::openapi::str_or;
use crate::text::{
    contains, contains_str, replace_text, replace_str, trim_end_char, trim_end_matches_char, upper_folded,
    to_uppercase, str_eq, concat, concat3, opt_view, u128_text, nat_text,
};
use crate::types::{ParamDef, ParamView, CommandDef, CommandView, ParamLocation, param_views};

verus! {

// ---------------------------------------------------------------------------
// Percent-encoding
// ---------------------------------------------------------------------------

/// The bytes that percent-encoding leaves as they are.
pub open spec fn url_safe_byte(b: u8) -> bool {
    (48 <= b <= 57) || (65 <= b <= 90) || (97 <= b <= 122) || b == 45 || b == 46 || b == 95 || b == 126
}

pub open spec fn hex_digit(d: u8) -> char {
    if d < 10 {
        (d + 48) as char
    } else {
        (d + 55) as char
    }
}

/// Percent-encoding of bytes: every byte except ASCII letters, digits and `-._~`
/// becomes `%` and two upper-case hexadecimal digits.
pub open spec fn url_encode_bytes(bytes: Seq<u8>) -> Seq<char>
    decreases bytes.len(),
{
    if bytes.len() == 0 {
        Seq::empty()
    } else {
        let b = bytes.last();
        url_encode_bytes(bytes.drop_last()) + if url_safe_byte(b) {
            seq![b as char]
        } else {
            seq!['%', hex_digit(b / 16), hex_digit(b % 16)]
        }
    }
}

/// Percent-encoding of the UTF-8 form of `s`.
pub open spec fn url_encode(s: Seq<char>) -> Seq<char> {
    url_encode_bytes(vstd::utf8::encode_utf8(s))
}

/// Calls `urlencoding::encode`, which percent-encodes every byte of the UTF-8 form
/// except ASCII letters and digits and `-`, `_`, `.`, `~`, with upper-case hex digits.
#[verifier::external_body]
pub(crate) fn url_encoded(s: &str) -> (r: String)
    ensures
        r@ == url_encode(s@),
{
    urlencoding::encode(s).into_owned()
}

// ---------------------------------------------------------------------------
// Values as text
// ---------------------------------------------------------------------------

/// How an argument is written in a URL, a header or a form field: strings as they
/// are, numbers and booleans as their text, `null` as nothing, arrays and objects as
/// JSON.
pub open spec fn value_text(v: JsonView) -> Seq<char> {
    match v {
        JsonView::Str(s) => s,
        JsonView::Number(n) => n,
        JsonView::Bool(b) => if b { "true"@ } else { "false"@ },
        JsonView::Null => Seq::empty(),
        _ => json_text(v),
    }
}

/// Convert a JSON value to a plain string for use in URLs, headers, and form fields.
pub fn value_to_string(val: &JsonValue) -> (r: String)
    ensures
        r@ == value_text(val@),
{
    match val {
        JsonValue::Str(s) => s.clone(),
        JsonValue::Number(n) => n.clone(),
        JsonValue::Bool(b) => if *b { "true".to_string() } else { "false".to_string() },
        JsonValue::Null => String::new(),
        // Arrays and objects serialize as JSON
        _ => to_json_text(val),
    }
}

// ---------------------------------------------------------------------------
// The request an OpenAPI command sends
// ---------------------------------------------------------------------------

/// A field of a multipart form.
#[derive(Debug)]
pub enum FormField {
    /// The contents of the file at `path`.
    File { name: String, path: String },
    Text { name: String, value: String },
}

pub enum FormFieldView {
    File { name: Seq<char>, path: Seq<char> },
    Text { name: Seq<char>, value: Seq<char> },
}

impl View for FormField {
    type V = FormFieldView;

    open spec fn view(&self) -> FormFieldView {
        match self {
            FormField::File { name, path } => FormFieldView::File { name: name@, path: path@ },
            FormField::Text { name, value } => FormFieldView::Text { name: name@, value: value@ },
        }
    }
}

/// The body of a request.
#[derive(Debug)]
pub enum RequestBody {
    Empty,
    Json(JsonValue),
    Multipart(Vec<FormField>),
}

pub enum BodyView {
    Empty,
    Json(JsonView),
    Multipart(Seq<FormFieldView>),
}

impl View for RequestBody {
    type V = BodyView;

    open spec fn view(&self) -> BodyView {
        match self {
            RequestBody::Empty => BodyView::Empty,
            RequestBody::Json(v) => BodyView::Json(v@),
            RequestBody::Multipart(fields) => BodyView::Multipart(fields@.map_values(|f: FormField| f@)),
        }
    }
}

/// An HTTP request, ready to send.
#[derive(Debug)]
pub struct HttpRequest {
    pub method: String,
    pub url: String,
    pub headers: Vec<(String, String)>,
    pub body: RequestBody,
}

pub struct HttpRequestView {
    pub method: Seq<char>,
    pub url: Seq<char>,
    pub headers: Seq<(Seq<char>, Seq<char>)>,
    pub body: BodyView,
}

pub open spec fn header_views(v: Seq<(String, String)>) -> Seq<(Seq<char>, Seq<char>)> {
    v.map_values(|p: (String, String)| (p.0@, p.1@))
}

impl View for HttpRequest {
    type V = HttpRequestView;

    open spec fn view(&self) -> HttpRequestView {
        HttpRequestView {
            method: self.method@,
            url: self.url@,
            headers: header_views(self.headers@),
            body: self.body@,
        }
    }
}

/// The argument given for a parameter, looked up by its original name.
pub open spec fn arg_for(args: Seq<(Seq<char>, JsonView)>, p: ParamView) -> Option<JsonView> {
    lookup(args, p.original_name)
}

/// The path with each `{name}` of a path parameter that has an argument replaced by
/// the argument's percent-encoded text, parameter by parameter.
pub open spec fn path_subst(path: Seq<char>, params: Seq<ParamView>, args: Seq<(Seq<char>, JsonView)>) -> Seq<char>
    decreases params.len(),
{
    if params.len() == 0 {
        path
    } else {
        let p = params.last();
        let prev = path_subst(path, params.drop_last(), args);
        match arg_for(args, p) {
            Some(v) => if p.location == ParamLocation::Path {
                replace_text(prev, "{"@ + p.original_name + "}"@, url_encode(value_text(v)))
            } else {
                prev
            },
            None => prev,
        }
    }
}

/// `(name, text)` for each parameter at `loc` that has an argument, in order.
pub open spec fn located_pairs(params: Seq<ParamView>, args: Seq<(Seq<char>, JsonView)>, loc: ParamLocation) -> Seq<(Seq<char>, Seq<char>)>
    decreases params.len(),
{
    if params.len() == 0 {
        Seq::empty()
    } else {
        let p = params.last();
        located_pairs(params.drop_last(), args, loc) + match arg_for(args, p) {
            Some(v) => if p.location == loc {
                seq![(p.original_name, value_text(v))]
            } else {
                Seq::empty()
            },
            None => Seq::empty(),
        }
    }
}

/// `k=v&k=v...`, each side percent-encoded.
pub open spec fn query_text(pairs: Seq<(Seq<char>, Seq<char>)>) -> Seq<char>
    decreases pairs.len(),
{
    if pairs.len() == 0 {
        Seq::empty()
    } else {
        let item = url_encode(pairs.last().0) + "="@ + url_encode(pairs.last().1);
        if pairs.len() == 1 {
            item
        } else {
            query_text(pairs.drop_last()) + "&"@ + item
        }
    }
}

/// The URL a command's request goes to.
pub open spec fn request_url(cmd: CommandView, args: Seq<(Seq<char>, JsonView)>, base_url: Seq<char>) -> Seq<char> {
    let path = path_subst(str_or(cmd.path, "/"@), cmd.params, args);
    let pairs = located_pairs(cmd.params, args, ParamLocation::Query);
    let url = trim_end_char(base_url, '/') + path;
    if pairs.len() == 0 {
        url
    } else {
        url + "?"@ + query_text(pairs)
    }
}

/// The multipart fields: a file for each file parameter and a text field for each
/// body parameter that has an argument, in order.
pub open spec fn form_fields(params: Seq<ParamView>, args: Seq<(Seq<char>, JsonView)>) -> Seq<FormFieldView>
    decreases params.len(),
{
    if params.len() == 0 {
        Seq::empty()
    } else {
        let p = params.last();
        form_fields(params.drop_last(), args) + match arg_for(args, p) {
            Some(v) => if p.location == ParamLocation::File {
                seq![FormFieldView::File { name: p.original_name, path: value_text(v) }]
            } else if p.location == ParamLocation::Body {
                seq![FormFieldView::Text { name: p.original_name, value: value_text(v) }]
            } else {
                Seq::empty()
            },
            None => Seq::empty(),
        }
    }
}

/// The first parameter that carries the whole body.
pub open spec fn first_whole_body(params: Seq<ParamView>) -> Option<ParamView>
    decreases params.len(),
{
    if params.len() == 0 {
        None
    } else if params[0].location == ParamLocation::WholeBody {
        Some(params[0])
    } else {
        first_whole_body(params.drop_first())
    }
}

/// The members of an object body: each body parameter that has an argument.
pub open spec fn body_members(params: Seq<ParamView>, args: Seq<(Seq<char>, JsonView)>) -> Seq<(Seq<char>, JsonView)>
    decreases params.len(),
{
    if params.len() == 0 {
        Seq::empty()
    } else {
        let p = params.last();
        body_members(params.drop_last(), args) + match arg_for(args, p) {
            Some(v) => if p.location == ParamLocation::Body {
                seq![(p.original_name, v)]
            } else {
                Seq::empty()
            },
            None => Seq::empty(),
        }
    }
}

/// The JSON body: the whole-body argument where one is given, else the object of the
/// body arguments where there are any.
pub open spec fn json_body(params: Seq<ParamView>, args: Seq<(Seq<char>, JsonView)>) -> Option<JsonView> {
    let whole = match first_whole_body(params) {
        Some(p) => arg_for(args, p),
        None => None,
    };
    match whole {
        Some(v) => Some(v),
        None => {
            let members = body_members(params, args);
            if members.len() > 0 {
                Some(JsonView::Object(members))
            } else {
                None
            }
        },
    }
}

pub open spec fn supported_method(m: Seq<char>) -> bool {
    ||| m == "GET"@
    ||| m == "POST"@
    ||| m == "PUT"@
    ||| m == "PATCH"@
    ||| m == "DELETE"@
    ||| m == "HEAD"@
}

/// The request that an OpenAPI command sends with `args` (keyed by the parameters'
/// original names) against `base_url`, with `headers` sent first; an error for a
/// method the client does not send.
pub open spec fn openapi_request(
    cmd: CommandView,
    args: Seq<(Seq<char>, JsonView)>,
    base_url: Seq<char>,
    headers: Seq<(Seq<char>, Seq<char>)>,
) -> Result<HttpRequestView, ErrorView> {
    let method = upper_folded(str_or(cmd.method, "GET"@));
    if !supported_method(method) {
        Err(ErrorView::Execution("Unsupported HTTP method: "@ + method))
    } else {
        let hs = headers + located_pairs(cmd.params, args, ParamLocation::Header);
        let multipart = match cmd.content_type {
            Some(ct) => contains(ct, "multipart"@),
            None => false,
        };
        let (body, extra) = if !cmd.has_body {
            (BodyView::Empty, Seq::empty())
        } else if multipart {
            (BodyView::Multipart(form_fields(cmd.params, args)), Seq::empty())
        } else {
            match json_body(cmd.params, args) {
                Some(v) => (BodyView::Json(v), seq![("Content-Type"@, "application/json"@)]),
                None => (BodyView::Empty, Seq::empty()),
            }
        };
        Ok(HttpRequestView { method, url: request_url(cmd, args, base_url), headers: hs + extra, body })
    }
}

/// What an OpenAPI call answers for a response with `status` and `body_text`: the body
/// read as JSON (as a string where it is not JSON), or the error of a status outside
/// 200..=299.
pub open spec fn openapi_response_spec(status: u16, body_text: Seq<char>) -> Result<JsonView, ErrorView> {
    let body = match json_parse(body_text) {
        Ok(v) => v,
        Err(_) => JsonView::Str(body_text),
    };
    if 200 <= status <= 299 {
        Ok(body)
    } else {
        Err(ErrorView::Execution("HTTP "@ + nat_text(status as nat) + ": "@ + json_text(body)))
    }
}

// ---------------------------------------------------------------------------
// Building the request
// ---------------------------------------------------------------------------

proof fn lemma_take_last<A>(s: Seq<A>, i: int)
    requires
        0 <= i < s.len(),
    ensures
        s.take(i + 1).drop_last() == s.take(i),
        s.take(i + 1).last() == s[i],
{
    assert(s.take(i + 1).drop_last() =~= s.take(i));
}

fn substitute_path(path: &str, params: &Vec<ParamDef>, args: &Vec<(String, JsonValue)>) -> (r: String)
    ensures
        r@ == path_subst(path@, param_views(params@), JsonValue::member_models(args@)),
{
    let ghost pv = param_views(params@);
    let ghost am = JsonValue::member_models(args@);
    let mut out = path.to_string();
    let mut i: usize = 0;
    assert(pv.take(0) =~= Seq::<ParamView>::empty());
    while i < params.len()
        invariant
            i <= params@.len(),
            pv == param_views(params@),
            am == JsonValue::member_models(args@),
            out@ == path_subst(path@, pv.take(i as int), am),
        decreases params@.len() - i,
    {
        proof {
            lemma_take_last(pv, i as int);
        }
        let p = &params[i];
        if p.location == ParamLocation::Path {
            match member_get(args, p.original_name.as_str()) {
                Some(val) => {
                    let val_str = value_to_string(val);
                    let pattern = concat3("{", p.original_name.as_str(), "}");
                    proof {
                        reveal_strlit("{");
                    }
                    let enc = url_encoded(val_str.as_str());
                    out = replace_str(out.as_str(), pattern.as_str(), enc.as_str());
                },
                None => {},
            }
        }
        i = i + 1;
    }
    assert(pv.take(params@.len() as int) =~= pv);
    out
}

fn located_args(params: &Vec<ParamDef>, args: &Vec<(String, JsonValue)>, loc: ParamLocation) -> (r: Vec<(String, String)>)
    ensures
        header_views(r@) == located_pairs(param_views(params@), JsonValue::member_models(args@), loc),
{
    let ghost pv = param_views(params@);
    let ghost am = JsonValue::member_models(args@);
    let mut out: Vec<(String, String)> = Vec::new();
    let mut i: usize = 0;
    assert(pv.take(0) =~= Seq::<ParamView>::empty());
    assert(header_views(out@) =~= Seq::<(Seq<char>, Seq<char>)>::empty());
    while i < params.len()
        invariant
            i <= params@.len(),
            pv == param_views(params@),
            am == JsonValue::member_models(args@),
            header_views(out@) == located_pairs(pv.take(i as int), am, loc),
        decreases params@.len() - i,
    {
        proof {
            lemma_take_last(pv, i as int);
        }
        let p = &params[i];
        let ghost before = header_views(out@);
        if p.location == loc {
            match member_get(args, p.original_name.as_str()) {
                Some(val) => {
                    out.push((p.original_name.clone(), value_to_string(val)));
                    assert(header_views(out@) =~= before + seq![(p.original_name@, value_text(val@))]);
                },
                None => {
                    assert(header_views(out@) =~= before + Seq::<(Seq<char>, Seq<char>)>::empty());
                },
            }
        } else {
            assert(header_views(out@) =~= before + Seq::<(Seq<char>, Seq<char>)>::empty());
        }
        i = i + 1;
    }
    assert(pv.take(params@.len() as int) =~= pv);
    out
}

fn query_string(pairs: &Vec<(String, String)>) -> (r: String)
    ensures
        r@ == query_text(header_views(pairs@)),
{
    let ghost hv = header_views(pairs@);
    let mut out = String::new();
    let mut i: usize = 0;
    assert(hv.take(0) =~= Seq::<(Seq<char>, Seq<char>)>::empty());
    while i < pairs.len()
        invariant
            i <= pairs@.len(),
            hv == header_views(pairs@),
            out@ == query_text(hv.take(i as int)),
        decreases pairs@.len() - i,
    {
        proof {
            lemma_take_last(hv, i as int);
        }
        let k = url_encoded(pairs[i].0.as_str());
        let v = url_encoded(pairs[i].1.as_str());
        let item = concat3(k.as_str(), "=", v.as_str());
        if i == 0 {
            out = item;
        } else {
            out = concat3(out.as_str(), "&", item.as_str());
        }
        i = i + 1;
    }
    assert(hv.take(pairs@.len() as int) =~= hv);
    out
}

fn form_of(params: &Vec<ParamDef>, args: &Vec<(String, JsonValue)>) -> (r: Vec<FormField>)
    ensures
        r@.map_values(|f: FormField| f@) == form_fields(param_views(params@), JsonValue::member_models(args@)),
{
    let ghost pv = param_views(params@);
    let ghost am = JsonValue::member_models(args@);
    let mut out: Vec<FormField> = Vec::new();
    let mut i: usize = 0;
    assert(pv.take(0) =~= Seq::<ParamView>::empty());
    assert(out@.map_values(|f: FormField| f@) =~= Seq::<FormFieldView>::empty());
    while i < params.len()
        invariant
            i <= params@.len(),
            pv == param_views(params@),
            am == JsonValue::member_models(args@),
            out@.map_values(|f: FormField| f@) == form_fields(pv.take(i as int), am),
        decreases params@.len() - i,
    {
        proof {
            lemma_take_last(pv, i as int);
        }
        let p = &params[i];
        let ghost before = out@.map_values(|f: FormField| f@);
        match member_get(args, p.original_name.as_str()) {
            Some(val) => {
                if p.location == ParamLocation::File {
                    out.push(FormField::File { name: p.original_name.clone(), path: value_to_string(val) });
                    assert(out@.map_values(|f: FormField| f@) =~= before + seq![FormFieldView::File { name: p.original_name@, path: value_text(val@) }]);
                } else if p.location == ParamLocation::Body {
                    out.push(FormField::Text { name: p.original_name.clone(), value: value_to_string(val) });
                    assert(out@.map_values(|f: FormField| f@) =~= before + seq![FormFieldView::Text { name: p.original_name@, value: value_text(val@) }]);
                } else {
                    assert(out@.map_values(|f: FormField| f@) =~= before + Seq::<FormFieldView>::empty());
                }
            },
            None => {
                assert(out@.map_values(|f: FormField| f@) =~= before + Seq::<FormFieldView>::empty());
            },
        }
        i = i + 1;
    }
    assert(pv.take(params@.len() as int) =~= pv);
    out
}

fn find_whole_body(params: &Vec<ParamDef>) -> (r: Option<usize>)
    ensures
        match r {
            Some(i) => i < params@.len() && first_whole_body(param_views(params@)) == Some(params@[i as int]@),
            None => first_whole_body(param_views(params@)) is None,
        },
{
    let ghost pv = param_views(params@);
    let mut i: usize = 0;
    assert(pv.skip(0) =~= pv);
    while i < params.len()
        invariant
            i <= params@.len(),
            pv == param_views(params@),
            first_whole_body(pv) == first_whole_body(pv.skip(i as int)),
        decreases params@.len() - i,
    {
        assert(pv.skip(i as int)[0] == params@[i as int]@);
        if params[i].location == ParamLocation::WholeBody {
            return Some(i);
        }
        assert(pv.skip(i as int).drop_first() =~= pv.skip(i + 1));
        i = i + 1;
    }
    None
}

fn body_object(params: &Vec<ParamDef>, args: &Vec<(String, JsonValue)>) -> (r: Vec<(String, JsonValue)>)
    ensures
        JsonValue::member_models(r@) == body_members(param_views(params@), JsonValue::member_models(args@)),
{
    let ghost pv = param_views(params@);
    let ghost am = JsonValue::member_models(args@);
    let mut out: Vec<(String, JsonValue)> = Vec::new();
    let mut i: usize = 0;
    assert(pv.take(0) =~= Seq::<ParamView>::empty());
    assert(JsonValue::member_models(out@) =~= Seq::<(Seq<char>, JsonView)>::empty());
    while i < params.len()
        invariant
            i <= params@.len(),
            pv == param_views(params@),
            am == JsonValue::member_models(args@),
            JsonValue::member_models(out@) == body_members(pv.take(i as int), am),
        decreases params@.len() - i,
    {
        proof {
            lemma_take_last(pv, i as int);
        }
        let p = &params[i];
        let ghost before = out@;
        if p.location == ParamLocation::Body {
            match member_get(args, p.original_name.as_str()) {
                Some(val) => {
                    out.push((p.original_name.clone(), val.clone()));
                    assert(out@.drop_last() == before);
                    assert(JsonValue::member_models(out@) =~= JsonValue::member_models(before) + seq![(p.original_name@, val@)]);
                },
                None => {
                    assert(JsonValue::member_models(out@) =~= JsonValue::member_models(before) + Seq::<(Seq<char>, JsonView)>::empty());
                },
            }
        } else {
            assert(JsonValue::member_models(out@) =~= JsonValue::member_models(before) + Seq::<(Seq<char>, JsonView)>::empty());
        }
        i = i + 1;
    }
    assert(pv.take(params@.len() as int) =~= pv);
    out
}

fn copy_headers(v: &Vec<(String, String)>) -> (r: Vec<(String, String)>)
    ensures
        header_views(r@) == header_views(v@),
{
    let mut r: Vec<(String, String)> = Vec::new();
    let mut i: usize = 0;
    while i < v.len()
        invariant
            i <= v@.len(),
            header_views(r@) == header_views(v@.take(i as int)),
        decreases v@.len() - i,
    {
        let ghost before = r@;
        let k = v[i].0.clone();
        let x = v[i].1.clone();
        r.push((k, x));
        assert(v@.take(i + 1) =~= v@.take(i as int).push(v@[i as int]));
        assert(header_views(r@) =~= header_views(before).push((v@[i as int].0@, v@[i as int].1@)));
        assert(header_views(r@) =~= header_views(v@.take(i + 1)));
        i = i + 1;
    }
    assert(v@.take(v@.len() as int) =~= v@);
    r
}

/// Build the HTTP request for an OpenAPI operation from the command definition, the
/// arguments (keyed by original parameter name), the base URL and the headers to send.
pub fn plan_openapi_request(
    cmd: &CommandDef,
    args: &Vec<(String, JsonValue)>,
    base_url: &str,
    headers: &Vec<(String, String)>,
) -> (r: Result<HttpRequest, AppError>)
    ensures
        crate::error::result_view(r) == openapi_request(cmd@, JsonValue::member_models(args@), base_url@, header_views(headers@)),
{
    let method = match &cmd.method {
        Some(m) => to_uppercase(m.as_str()),
        None => to_uppercase("GET"),
    };
    let path_template = match &cmd.path {
        Some(p) => p.as_str(),
        None => "/",
    };
    // 1. Substitute path parameters
    let path = substitute_path(path_template, &cmd.params, args);
    // 2. Build query string
    let query_pairs = located_args(&cmd.params, args, ParamLocation::Query);
    // 3. Build full URL
    let base = trim_end_matches_char(base_url, '/');
    let mut url = concat(base.as_str(), path.as_str());
    if query_pairs.len() > 0 {
        let qs = query_string(&query_pairs);
        url = concat3(url.as_str(), "?", qs.as_str());
    }
    // 4. Check the method
    let m = method.as_str();
    if !(str_eq(m, "GET") || str_eq(m, "POST") || str_eq(m, "PUT") || str_eq(m, "PATCH") || str_eq(m, "DELETE")
        || str_eq(m, "HEAD")) {
        return Err(AppError::Execution(concat("Unsupported HTTP method: ", m)));
    }
    // 5. Apply auth/custom headers, then 6. header parameters from args
    let mut all_headers = copy_headers(headers);
    let mut header_params = located_args(&cmd.params, args, ParamLocation::Header);
    let ghost h0 = all_headers@;
    let ghost h1 = header_params@;
    all_headers.append(&mut header_params);
    assert(header_views(all_headers@) =~= header_views(h0) + header_views(h1)) by {
        assert(all_headers@ == h0 + h1);
    }
    // 7. Build body (JSON or multipart)
    let is_multipart = match &cmd.content_type {
        Some(ct) => contains_str(ct.as_str(), "multipart"),
        None => false,
    };
    let ghost hs = header_views(all_headers@);
    let body = if !cmd.has_body {
        assert(header_views(all_headers@) =~= hs + Seq::<(Seq<char>, Seq<char>)>::empty());
        RequestBody::Empty
    } else if is_multipart {
        assert(header_views(all_headers@) =~= hs + Seq::<(Seq<char>, Seq<char>)>::empty());
        RequestBody::Multipart(form_of(&cmd.params, args))
    } else {
        // Non-object schema: a single WholeBody param carries the entire body.
        let whole = match find_whole_body(&cmd.params) {
            Some(i) => member_get(args, cmd.params[i].original_name.as_str()),
            None => None,
        };
        let json = match whole {
            Some(v) => Some(v.clone()),
            None => {
                // Object schema: collect per-property Body params into a map.
                let members = body_object(&cmd.params, args);
                if members.len() > 0 {
                    Some(JsonValue::Object(members))
                } else {
                    None
                }
            },
        };
        match json {
            Some(v) => {
                let ghost before = all_headers@;
                all_headers.push(("Content-Type".to_string(), "application/json".to_string()));
                assert(header_views(all_headers@) =~= hs + seq![("Content-Type"@, "application/json"@)]);
                RequestBody::Json(v)
            },
            None => {
                assert(header_views(all_headers@) =~= hs + Seq::<(Seq<char>, Seq<char>)>::empty());
                RequestBody::Empty
            },
        }
    };
    Ok(HttpRequest { method, url, headers: all_headers, body })
}

/// Read the response of an OpenAPI call: its body as JSON, or as a string where it is
/// not JSON; a status outside 200..=299 is an error that shows the body.
pub fn openapi_response(status: u16, body_text: &str) -> (r: Result<JsonValue, AppError>)
    ensures
        crate::error::result_view(r) == openapi_response_spec(status, body_text@),
{
    let body_value = match parse_json(body_text) {
        Ok(v) => v,
        Err(_) => JsonValue::Str(body_text.to_string()),
    };
    if 200 <= status && status <= 299 {
        Ok(body_value)
    } else {
        let code = u128_text(status as u128);
        let shown = to_json_text(&body_value);
        let head = concat3("HTTP ", code.as_str(), ": ");
        Err(AppError::Execution(concat(head.as_str(), shown.as_str())))
    }
}

proof fn lemma_located_pairs(params: Seq<ParamView>, args: Seq<(Seq<char>, JsonView)>, loc: ParamLocation)
    ensures
        forall|i: int| 0 <= i < params.len() && (#[trigger] params[i]).location == loc && lookup(args, params[i].original_name) is Some
            ==> located_pairs(params, args, loc).contains((params[i].original_name, value_text(lookup(args, params[i].original_name)->Some_0))),
        forall|x: (Seq<char>, Seq<char>)| #[trigger] located_pairs(params, args, loc).contains(x) ==> exists|i: int|
            0 <= i < params.len() && (#[trigger] params[i]).location == loc && lookup(args, params[i].original_name) is Some
            && x == (params[i].original_name, value_text(lookup(args, params[i].original_name)->Some_0)),
    decreases params.len(),
{
    if params.len() > 0 {
        let front = params.drop_last();
        lemma_located_pairs(front, args, loc);
        let fl = located_pairs(front, args, loc);
        let all = located_pairs(params, args, loc);
        let p = params.last();
        let tail = match arg_for(args, p) {
            Some(v) => if p.location == loc { seq![(p.original_name, value_text(v))] } else { Seq::empty() },
            None => Seq::empty(),
        };
        assert(all == fl + tail);
        assert forall|i: int| 0 <= i < params.len() && (#[trigger] params[i]).location == loc && lookup(args, params[i].original_name) is Some
            implies all.contains((params[i].original_name, value_text(lookup(args, params[i].original_name)->Some_0))) by {
            let x = (params[i].original_name, value_text(lookup(args, params[i].original_name)->Some_0));
            if i < front.len() {
                assert(front[i] == params[i]);
                let k = choose|k: int| 0 <= k < fl.len() && fl[k] == x;
                assert(all[k] == x);
            } else {
                assert(all[fl.len() as int] == x);
            }
        }
        assert forall|x: (Seq<char>, Seq<char>)| #[trigger] all.contains(x) implies exists|i: int|
            0 <= i < params.len() && (#[trigger] params[i]).location == loc && lookup(args, params[i].original_name) is Some
            && x == (params[i].original_name, value_text(lookup(args, params[i].original_name)->Some_0)) by {
            let k = choose|k: int| 0 <= k < all.len() && all[k] == x;
            if k < fl.len() {
                assert(fl[k] == x);
                assert(fl.contains(x));
                let i = choose|i: int| 0 <= i < front.len() && (#[trigger] front[i]).location == loc && lookup(args, front[i].original_name) is Some
                    && x == (front[i].original_name, value_text(lookup(args, front[i].original_name)->Some_0));
                assert(params[i] == front[i]);
            } else {
                assert(params[params.len() - 1] == p);
            }
        }
    }
}

/// Law: a planned OpenAPI request sends the given headers first, then, for each
/// header parameter of the command that has an argument, a header named by the
/// parameter's original name with the argument's text; every header after the given
/// ones is such a parameter header or the JSON body's `Content-Type`.
pub proof fn lemma_request_headers(
    cmd: CommandView,
    args: Seq<(Seq<char>, JsonView)>,
    base_url: Seq<char>,
    headers: Seq<(Seq<char>, Seq<char>)>,
)
    requires
        openapi_request(cmd, args, base_url, headers) is Ok,
    ensures
        ({
            let hs = openapi_request(cmd, args, base_url, headers)->Ok_0.headers;
            &&& hs.len() >= headers.len()
            &&& hs.take(headers.len() as int) == headers
            &&& forall|i: int| 0 <= i < cmd.params.len() && (#[trigger] cmd.params[i]).location == ParamLocation::Header
                && lookup(args, cmd.params[i].original_name) is Some
                ==> hs.skip(headers.len() as int).contains(
                    (cmd.params[i].original_name, value_text(lookup(args, cmd.params[i].original_name)->Some_0)))
            &&& forall|j: int| headers.len() <= j < hs.len() ==> (#[trigger] hs[j] == ("Content-Type"@, "application/json"@)
                || exists|i: int| 0 <= i < cmd.params.len() && (#[trigger] cmd.params[i]).location == ParamLocation::Header
                    && lookup(args, cmd.params[i].original_name) is Some
                    && hs[j] == (cmd.params[i].original_name, value_text(lookup(args, cmd.params[i].original_name)->Some_0)))
        }),
{
    let req = openapi_request(cmd, args, base_url, headers)->Ok_0;
    let hs = req.headers;
    let lp = located_pairs(cmd.params, args, ParamLocation::Header);
    lemma_located_pairs(cmd.params, args, ParamLocation::Header);
    let multipart = match cmd.content_type {
        Some(ct) => contains(ct, "multipart"@),
        None => false,
    };
    let extra: Seq<(Seq<char>, Seq<char>)> = if !cmd.has_body {
        Seq::empty()
    } else if multipart {
        Seq::empty()
    } else {
        match json_body(cmd.params, args) {
            Some(v) => seq![("Content-Type"@, "application/json"@)],
            None => Seq::empty(),
        }
    };
    assert(hs == headers + lp + extra);
    assert(hs.take(headers.len() as int) =~= headers);
    assert(hs.skip(headers.len() as int) =~= lp + extra);
    assert forall|i: int| 0 <= i < cmd.params.len() && (#[trigger] cmd.params[i]).location == ParamLocation::Header
        && lookup(args, cmd.params[i].original_name) is Some
        implies hs.skip(headers.len() as int).contains(
            (cmd.params[i].original_name, value_text(lookup(args, cmd.params[i].original_name)->Some_0))) by {
        let x = (cmd.params[i].original_name, value_text(lookup(args, cmd.params[i].original_name)->Some_0));
        assert(lp.contains(x));
        let k = choose|k: int| 0 <= k < lp.len() && lp[k] == x;
        assert(hs.skip(headers.len() as int)[k] == x);
    }
    assert forall|j: int| headers.len() <= j < hs.len() implies (#[trigger] hs[j] == ("Content-Type"@, "application/json"@)
        || exists|i: int| 0 <= i < cmd.params.len() && (#[trigger] cmd.params[i]).location == ParamLocation::Header
            && lookup(args, cmd.params[i].original_name) is Some
            && hs[j] == (cmd.params[i].original_name, value_text(lookup(args, cmd.params[i].original_name)->Some_0))) by {
        if j < headers.len() + lp.len() {
            assert(hs[j] == lp[j - headers.len()]);
            assert(lp.contains(hs[j]));
        } else {
            assert(hs[j] == extra[j - headers.len() - lp.len()]);
        }
    }
}

} // verus!
