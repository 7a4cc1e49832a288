use vstd::prelude::*;
use crate::coerce::{coerce_spec, coerce_value, opt_json_view};
use crate::error::{AppError, ErrorView};
use crate::json::{JsonValue, JsonView, lemma_member_models, lemma_models, lemma_models_eq};
use crate::openapi::str_or;
use crate::text::{views, opt_view, str_eq, concat, contains, contains_str, folded, all_ascii, ascii_lowered, to_lowercase, trim_end_char, trim_end_matches_char};
use crate::types::{ParamDef, ParamView, CommandDef, CommandView, param_views, command_views};

verus! {

// ---------------------------------------------------------------------------
// Searching and finding commands
// ---------------------------------------------------------------------------

/// Whether a command's name or description holds the keyword, ignoring case.
pub open spec fn matches_keyword(c: CommandView, keyword: Seq<char>) -> bool {
    contains(folded(c.name), folded(keyword)) || contains(folded(c.description), folded(keyword))
}

/// The commands that match a keyword, in order.
pub open spec fn search_spec(cs: Seq<CommandView>, keyword: Seq<char>) -> Seq<CommandView>
    decreases cs.len(),
{
    if cs.len() == 0 {
        Seq::empty()
    } else {
        search_spec(cs.drop_last(), keyword) + if matches_keyword(cs.last(), keyword) {
            seq![cs.last()]
        } else {
            Seq::empty()
        }
    }
}

/// Law: the search keeps exactly the commands whose name or description contains the
/// keyword (both lower-cased), in their order: each such command is found, and each
/// command found is one of the commands and contains the keyword so.
pub proof fn lemma_search_finds(cs: Seq<CommandView>, keyword: Seq<char>)
    ensures
        forall|i: int| 0 <= i < cs.len() && (contains(folded((#[trigger] cs[i]).name), folded(keyword))
            || contains(folded(cs[i].description), folded(keyword))) ==> search_spec(cs, keyword).contains(cs[i]),
        forall|x: CommandView| #[trigger] search_spec(cs, keyword).contains(x) ==> cs.contains(x)
            && (contains(folded(x.name), folded(keyword)) || contains(folded(x.description), folded(keyword))),
        search_spec(cs, keyword).len() <= cs.len(),
    decreases cs.len(),
{
    if cs.len() > 0 {
        let front = cs.drop_last();
        lemma_search_finds(front, keyword);
        let f = search_spec(front, keyword);
        let all = search_spec(cs, keyword);
        let last = cs.last();
        assert forall|i: int| 0 <= i < cs.len() && (contains(folded((#[trigger] cs[i]).name), folded(keyword))
            || contains(folded(cs[i].description), folded(keyword))) implies all.contains(cs[i]) by {
            if i < front.len() {
                assert(front[i] == cs[i]);
                let k = choose|k: int| 0 <= k < f.len() && f[k] == cs[i];
                assert(all[k] == cs[i]);
            } else {
                assert(all[f.len() as int] == last);
            }
        }
        assert forall|x: CommandView| #[trigger] all.contains(x) implies cs.contains(x)
            && (contains(folded(x.name), folded(keyword)) || contains(folded(x.description), folded(keyword))) by {
            let k = choose|k: int| 0 <= k < all.len() && all[k] == x;
            if k < f.len() {
                assert(f[k] == x);
                assert(f.contains(x));
                let j = choose|j: int| 0 <= j < front.len() && front[j] == x;
                assert(cs[j] == x);
            } else {
                assert(cs[cs.len() - 1] == x);
            }
        }
    }
}

/// Law: the search ignores the case of ASCII letters: two ASCII keywords that differ
/// only in the case of their letters find the same commands.
pub proof fn lemma_search_ignores_case(cs: Seq<CommandView>, k1: Seq<char>, k2: Seq<char>)
    requires
        all_ascii(k1),
        all_ascii(k2),
        ascii_lowered(k1) == ascii_lowered(k2),
    ensures
        search_spec(cs, k1) == search_spec(cs, k2),
    decreases cs.len(),
{
    if cs.len() > 0 {
        lemma_search_ignores_case(cs.drop_last(), k1, k2);
    }
}

/// The commands whose name or description contains `keyword`, ignoring case.
pub fn search_commands(commands: &Vec<CommandDef>, keyword: &str) -> (r: Vec<CommandDef>)
    ensures
        command_views(r@) == search_spec(command_views(commands@), keyword@),
{
    let ghost cv = command_views(commands@);
    let keyword_lower = to_lowercase(keyword);
    let mut out: Vec<CommandDef> = Vec::new();
    let mut i: usize = 0;
    assert(cv.take(0) =~= Seq::<CommandView>::empty());
    assert(command_views(out@) =~= Seq::<CommandView>::empty());
    while i < commands.len()
        invariant
            i <= commands@.len(),
            cv == command_views(commands@),
            keyword_lower@ == folded(keyword@),
            command_views(out@) == search_spec(cv.take(i as int), keyword@),
        decreases commands@.len() - i,
    {
        let cmd = &commands[i];
        assert(cv.take(i + 1).drop_last() =~= cv.take(i as int));
        assert(cv.take(i + 1).last() == cmd@);
        let ghost before = command_views(out@);
        let name_lower = to_lowercase(cmd.name.as_str());
        let desc_lower = to_lowercase(cmd.description.as_str());
        if contains_str(name_lower.as_str(), keyword_lower.as_str()) || contains_str(desc_lower.as_str(), keyword_lower.as_str()) {
            out.push(cmd.clone());
            assert(command_views(out@) =~= before + seq![cmd@]);
        } else {
            assert(command_views(out@) =~= before + Seq::<CommandView>::empty());
        }
        i = i + 1;
    }
    assert(cv.take(commands@.len() as int) =~= cv);
    out
}

/// The first command named `name`, if any.
pub fn find_command(commands: &Vec<CommandDef>, name: &str) -> (r: Option<usize>)
    ensures
        match r {
            Some(i) => i < commands@.len() && commands@[i as int].name@ == name@
                && forall|j: int| 0 <= j < i ==> commands@[j].name@ != name@,
            None => forall|j: int| 0 <= j < commands@.len() ==> commands@[j].name@ != name@,
        },
{
    let mut i: usize = 0;
    while i < commands.len()
        invariant
            i <= commands@.len(),
            forall|j: int| 0 <= j < i ==> commands@[j].name@ != name@,
        decreases commands@.len() - i,
    {
        if str_eq(commands[i].name.as_str(), name) {
            return Some(i);
        }
        i = i + 1;
    }
    None
}

/// The rest of the command line must name a command; `what` says what kind
/// (`command` or `tool`).
pub fn require_command(rest: &Vec<String>, what: &str) -> (r: Result<(), AppError>)
    ensures
        r is Ok <==> rest@.len() > 0,
        r matches Err(e) ==> e@ == ErrorView::Cli(
            "No "@ + what@ + " specified. Use --list to see available "@ + what@ + "s."@,
        ),
{
    if rest.len() == 0 {
        let a = concat("No ", what);
        let b = concat(a.as_str(), " specified. Use --list to see available ");
        let c = concat(b.as_str(), what);
        return Err(AppError::Cli(concat(c.as_str(), "s.")));
    }
    Ok(())
}

// ---------------------------------------------------------------------------
// Arguments
// ---------------------------------------------------------------------------

/// The index of the first member with key `k`.
pub open spec fn member_index(m: Seq<(Seq<char>, JsonView)>, k: Seq<char>) -> Option<int>
    decreases m.len(),
{
    if m.len() == 0 {
        None
    } else if m.last().0 == k && member_index(m.drop_last(), k) is None {
        Some(m.len() - 1)
    } else {
        member_index(m.drop_last(), k)
    }
}

/// Setting a key in an object: the member with that key takes the new value; without
/// one, the member is appended.
pub open spec fn member_set(m: Seq<(Seq<char>, JsonView)>, k: Seq<char>, v: JsonView) -> Seq<(Seq<char>, JsonView)> {
    match member_index(m, k) {
        Some(i) => m.update(i, (k, v)),
        None => m.push((k, v)),
    }
}

proof fn lemma_member_index(m: Seq<(Seq<char>, JsonView)>, k: Seq<char>)
    ensures
        member_index(m, k) matches Some(i) ==> 0 <= i < m.len() && m[i].0 == k && forall|j: int| 0 <= j < i ==> m[j].0 != k,
        member_index(m, k) is None ==> forall|j: int| 0 <= j < m.len() ==> m[j].0 != k,
    decreases m.len(),
{
    if m.len() > 0 {
        lemma_member_index(m.drop_last(), k);
        assert forall|j: int| 0 <= j < m.len() - 1 implies m.drop_last()[j] == m[j] by {}
    }
}

/// Sets `key` to `value` among `members`.
pub fn member_put(members: &mut Vec<(String, JsonValue)>, key: String, value: JsonValue)
    ensures
        JsonValue::member_models(final(members)@) == member_set(JsonValue::member_models(old(members)@), key@, value@),
{
    let ghost m = JsonValue::member_models(members@);
    proof {
        lemma_member_models(members@);
        lemma_member_index(m, key@);
    }
    let mut i: usize = 0;
    while i < members.len()
        invariant
            i <= members@.len(),
            m == JsonValue::member_models(members@),
            m.len() == members@.len(),
            forall|j: int| 0 <= j < members@.len() ==> #[trigger] m[j] == (members@[j].0@, members@[j].1@),
            forall|j: int| 0 <= j < i ==> m[j].0 != key@,
            m == JsonValue::member_models(old(members)@),
            members@ == old(members)@,
            member_index(m, key@) matches Some(t) ==> 0 <= t < m.len() && m[t].0 == key@ && forall|j: int| 0 <= j < t ==> m[j].0 != key@,
            member_index(m, key@) is None ==> forall|j: int| 0 <= j < m.len() ==> m[j].0 != key@,
        decreases members@.len() - i,
    {
        if str_eq(members[i].0.as_str(), key.as_str()) {
            proof {
                match member_index(m, key@) {
                    Some(t) => {
                        assert(m[i as int].0 == key@);
                        if t < i {
                            assert(m[t].0 != key@);
                        } else if t > i {
                            assert(m[i as int].0 != key@);
                        }
                        assert(t == i);
                    },
                    None => {
                        assert(m[i as int].0 == key@);
                    },
                }
            }
            let ghost old_members = members@;
            members.set(i, (key, value));
            proof {
                lemma_member_models(members@);
                assert(JsonValue::member_models(members@) =~= m.update(i as int, (key@, value@))) by {
                    assert forall|j: int| 0 <= j < m.len() implies JsonValue::member_models(members@)[j]
                        == m.update(i as int, (key@, value@))[j] by {
                        if j != i {
                            assert(members@[j] == old_members[j]);
                        }
                    }
                }
            }
            return;
        }
        i = i + 1;
    }
    proof {
        assert(member_index(m, key@) is None) by {
            if member_index(m, key@) is Some {
                let t = member_index(m, key@)->Some_0;
                assert(m[t].0 == key@);
            }
        }
    }
    let ghost old_members = members@;
    members.push((key, value));
    assert(members@.drop_last() == old_members);
    assert(JsonValue::member_models(members@) =~= m.push((key@, value@)));
}

/// `m` with each member of `items` set in turn.
pub open spec fn set_all(m: Seq<(Seq<char>, JsonView)>, items: Seq<(Seq<char>, JsonView)>) -> Seq<(Seq<char>, JsonView)>
    decreases items.len(),
{
    if items.len() == 0 {
        m
    } else {
        member_set(set_all(m, items.drop_last()), items.last().0, items.last().1)
    }
}

/// The first parameter named `name` on the command line.
pub open spec fn param_named(params: Seq<ParamView>, name: Seq<char>) -> Option<ParamView>
    decreases params.len(),
{
    if params.len() == 0 {
        None
    } else if params[0].name == name {
        Some(params[0])
    } else {
        param_named(params.drop_first(), name)
    }
}

/// One command-line argument: its parameter name, its text, and its text read as a
/// floating-point JSON number (`None` where it does not read as one).
pub struct ArgText {
    pub key: String,
    pub value: String,
    pub as_float: Option<JsonValue>,
}

pub open spec fn arg_views(args: Seq<ArgText>) -> Seq<(Seq<char>, Seq<char>, Option<JsonView>)> {
    args.map_values(|a: ArgText| (a.key@, a.value@, opt_json_view(a.as_float)))
}

/// Adds the command-line arguments to `m` in turn: each known parameter under its
/// original name with its coerced value, each unknown one as a string; the first
/// value that does not coerce is the error.
pub open spec fn add_args(
    m: Seq<(Seq<char>, JsonView)>,
    params: Seq<ParamView>,
    args: Seq<(Seq<char>, Seq<char>, Option<JsonView>)>,
) -> Result<Seq<(Seq<char>, JsonView)>, ErrorView>
    decreases args.len(),
{
    if args.len() == 0 {
        Ok(m)
    } else {
        match add_args(m, params, args.drop_last()) {
            Err(e) => Err(e),
            Ok(m2) => {
                let (key, value, as_float) = args.last();
                match param_named(params, key) {
                    Some(p) => match coerce_spec(value, p.schema, as_float) {
                        Ok(v) => Ok(member_set(m2, p.original_name, v)),
                        Err(e) => Err(e),
                    },
                    None => Ok(member_set(m2, key, JsonView::Str(value))),
                }
            },
        }
    }
}

/// The arguments a command is called with: the members of the JSON object read from
/// standard input where `--stdin` was given, then the command-line arguments.
pub open spec fn arguments_spec(
    cmd: CommandView,
    stdin: Option<JsonView>,
    args: Seq<(Seq<char>, Seq<char>, Option<JsonView>)>,
) -> Result<Seq<(Seq<char>, JsonView)>, ErrorView> {
    match stdin {
        Some(JsonView::Object(ms)) => add_args(set_all(Seq::empty(), ms), cmd.params, args),
        Some(_) => Err(ErrorView::Cli("--stdin expects a JSON object from stdin"@)),
        None => add_args(Seq::empty(), cmd.params, args),
    }
}

fn find_param(params: &Vec<ParamDef>, name: &str) -> (r: Option<usize>)
    ensures
        match r {
            Some(i) => i < params@.len() && param_named(param_views(params@), name@) == Some(params@[i as int]@),
            None => param_named(param_views(params@), name@) is None,
        },
{
    let ghost pv = param_views(params@);
    let mut i: usize = 0;
    assert(pv.skip(0) =~= pv);
    while i < params.len()
        invariant
            i <= params@.len(),
            pv == param_views(params@),
            param_named(pv, name@) == param_named(pv.skip(i as int), name@),
        decreases params@.len() - i,
    {
        assert(pv.skip(i as int)[0] == params@[i as int]@);
        if str_eq(params[i].name.as_str(), name) {
            return Some(i);
        }
        assert(pv.skip(i as int).drop_first() =~= pv.skip(i + 1));
        i = i + 1;
    }
    None
}

/// Build the arguments a command is called with: the JSON object read from standard
/// input (where `--stdin` was given), then the command-line arguments coerced by their
/// parameters' schemas and keyed by the parameters' original names.
pub fn build_arguments(cmd: &CommandDef, stdin: Option<&JsonValue>, args: &Vec<ArgText>) -> (r: Result<Vec<(String, JsonValue)>, AppError>)
    ensures
        match r {
            Ok(m) => arguments_spec(cmd@, crate::json::opt_model(stdin), arg_views(args@)) == Ok::<Seq<(Seq<char>, JsonView)>, ErrorView>(JsonValue::member_models(m@)),
            Err(e) => arguments_spec(cmd@, crate::json::opt_model(stdin), arg_views(args@)) == Err::<Seq<(Seq<char>, JsonView)>, ErrorView>(e@),
        },
{
    let mut arguments: Vec<(String, JsonValue)> = Vec::new();
    let ghost start: Seq<(Seq<char>, JsonView)>;
    match stdin {
        Some(v) => match v {
            JsonValue::Object(ms) => {
                let ghost mm = JsonValue::member_models(ms@);
                proof {
                    lemma_member_models(ms@);
                    assert(JsonValue::member_models(arguments@) =~= Seq::<(Seq<char>, JsonView)>::empty());
                    assert(mm.take(0) =~= Seq::<(Seq<char>, JsonView)>::empty());
                }
                let mut k: usize = 0;
                while k < ms.len()
                    invariant
                        k <= ms@.len(),
                        mm == JsonValue::member_models(ms@),
                        mm.len() == ms@.len(),
                        forall|j: int| 0 <= j < ms@.len() ==> #[trigger] mm[j] == (ms@[j].0@, ms@[j].1@),
                        JsonValue::member_models(arguments@) == set_all(Seq::empty(), mm.take(k as int)),
                    decreases ms@.len() - k,
                {
                    assert(mm.take(k + 1).drop_last() =~= mm.take(k as int));
                    assert(mm.take(k + 1).last() == mm[k as int]);
                    member_put(&mut arguments, ms[k].0.clone(), ms[k].1.clone());
                    k = k + 1;
                }
                assert(mm.take(ms@.len() as int) =~= mm);
                proof {
                    start = set_all(Seq::empty(), mm);
                }
            },
            _ => {
                return Err(AppError::Cli("--stdin expects a JSON object from stdin".to_string()));
            },
        },
        None => {
            assert(JsonValue::member_models(arguments@) =~= Seq::<(Seq<char>, JsonView)>::empty());
            proof {
                start = Seq::empty();
            }
        },
    }
    let ghost av = arg_views(args@);
    let ghost pv = cmd@.params;
    assert(av.take(0) =~= Seq::<(Seq<char>, Seq<char>, Option<JsonView>)>::empty());
    assert(arguments_spec(cmd@, crate::json::opt_model(stdin), av) == add_args(start, pv, av));
    let mut i: usize = 0;
    while i < args.len()
        invariant
            i <= args@.len(),
            av == arg_views(args@),
            pv == cmd@.params,
            pv == param_views(cmd.params@),
            add_args(start, pv, av.take(i as int)) == Ok::<Seq<(Seq<char>, JsonView)>, ErrorView>(JsonValue::member_models(arguments@)),
            arguments_spec(cmd@, crate::json::opt_model(stdin), av) == add_args(start, pv, av),
        decreases args@.len() - i,
    {
        let a = &args[i];
        assert(av.take(i + 1).drop_last() =~= av.take(i as int));
        assert(av.take(i + 1).last() == (a.key@, a.value@, opt_json_view(a.as_float)));
        match find_param(&cmd.params, a.key.as_str()) {
            Some(k) => {
                let param = &cmd.params[k];
                let as_float = match &a.as_float {
                    Some(f) => Some(f.clone()),
                    None => None,
                };
                let coerced = match coerce_value(a.value.as_str(), &param.schema, as_float) {
                    Ok(v) => v,
                    Err(e) => {
                        proof {
                            assert(add_args(start, pv, av.take(i + 1)) == Err::<Seq<(Seq<char>, JsonView)>, ErrorView>(e@));
                            lemma_add_args_err(start, pv, av, (i + 1) as int);
                        }
                        assert(av.take(args@.len() as int) =~= av);
                        return Err(e);
                    },
                };
                member_put(&mut arguments, param.original_name.clone(), coerced);
            },
            None => {
                // Unknown param — pass as string
                member_put(&mut arguments, a.key.clone(), JsonValue::Str(a.value.clone()));
            },
        }
        i = i + 1;
    }
    assert(av.take(args@.len() as int) =~= av);
    proof {
        match crate::json::opt_model(stdin) {
            Some(JsonView::Object(ms)) => {},
            _ => {},
        }
    }
    Ok(arguments)
}

/// Once an error comes, it is what adding the rest of the arguments gives.
proof fn lemma_add_args_err(
    m: Seq<(Seq<char>, JsonView)>,
    params: Seq<ParamView>,
    args: Seq<(Seq<char>, Seq<char>, Option<JsonView>)>,
    n: int,
)
    requires
        0 <= n <= args.len(),
        add_args(m, params, args.take(n)) is Err,
    ensures
        add_args(m, params, args) == add_args(m, params, args.take(n)),
    decreases args.len() - n,
{
    if n < args.len() {
        assert(args.take(n + 1).drop_last() =~= args.take(n));
        lemma_add_args_err(m, params, args, n + 1);
    } else {
        assert(args.take(n) =~= args);
    }
}

// ---------------------------------------------------------------------------
// Base URLs
// ---------------------------------------------------------------------------

/// The spec's `servers[0].url` without trailing `/`.
pub open spec fn spec_base_url(spec: JsonView) -> Option<Seq<char>> {
    match spec.get("servers"@) {
        Some(JsonView::Array(servers)) => if servers.len() > 0 {
            match servers[0].get_str("url"@) {
                Some(u) => Some(trim_end_char(u, '/')),
                None => None,
            }
        } else {
            None
        },
        _ => None,
    }
}

/// Extract base URL from spec servers[0].url.
pub fn extract_base_url(spec: &JsonValue) -> (r: Option<String>)
    ensures
        opt_view(r) == spec_base_url(spec@),
{
    match spec.get("servers") {
        Some(JsonValue::Array(servers)) => {
            proof {
                lemma_models(servers@);
            }
            if servers.len() > 0 {
                match servers[0].get_str("url") {
                    Some(u) => Some(trim_end_matches_char(u, '/')),
                    None => None,
                }
            } else {
                None
            }
        },
        _ => None,
    }
}

/// The base URL to call: the one given, else the spec's own.
pub fn choose_base_url(given: &Option<String>, spec: &JsonValue) -> (r: Result<String, AppError>)
    ensures
        match r {
            Ok(u) => u@ == match opt_view(*given) {
                Some(g) => g,
                None => spec_base_url(spec@)->Some_0,
            } && (given is Some || spec_base_url(spec@) is Some),
            Err(e) => given is None && spec_base_url(spec@) is None && e@ == ErrorView::Cli(
                "No base URL found. Provide --base-url or ensure the spec has a servers[0].url"@,
            ),
        },
{
    match given {
        Some(u) => Ok(u.clone()),
        None => match extract_base_url(spec) {
            Some(u) => Ok(u),
            None => Err(AppError::Cli(
                "No base URL found. Provide --base-url or ensure the spec has a servers[0].url".to_string(),
            )),
        },
    }
}

// ---------------------------------------------------------------------------
// Command listings
// ---------------------------------------------------------------------------

/// A parameter as listed: its name, whether it is required, its description.
pub open spec fn listed_param(p: ParamView) -> JsonView {
    JsonView::Object(
        seq![
            ("description"@, JsonView::Str(p.description)),
            ("name"@, JsonView::Str(p.name)),
            ("required"@, JsonView::Bool(p.required)),
        ],
    )
}

/// A tool as listed: its name, its description and its parameters.
pub open spec fn listed_tool(c: CommandView) -> JsonView {
    JsonView::Object(
        seq![
            ("description"@, JsonView::Str(c.description)),
            ("name"@, JsonView::Str(c.name)),
            ("params"@, JsonView::Array(c.params.map_values(|p: ParamView| listed_param(p)))),
        ],
    )
}

fn str_value(s: &String) -> (r: JsonValue)
    ensures
        r@ == JsonView::Str(s@),
{
    JsonValue::Str(s.clone())
}

fn listed_param_value(p: &ParamDef) -> (r: JsonValue)
    ensures
        r@ == listed_param(p@),
{
    let mut members: Vec<(String, JsonValue)> = Vec::new();
    members.push(("description".to_string(), str_value(&p.description)));
    members.push(("name".to_string(), str_value(&p.name)));
    members.push(("required".to_string(), JsonValue::Bool(p.required)));
    proof {
        lemma_member_models(members@);
    }
    assert(JsonValue::member_models(members@) =~= listed_param(p@)->Object_0);
    JsonValue::Object(members)
}

/// The listed parameters of a command.
pub fn listed_params_value(params: &Vec<ParamDef>) -> (r: JsonValue)
    ensures
        r@ == JsonView::Array(param_views(params@).map_values(|p: ParamView| listed_param(p))),
{
    let mut items: Vec<JsonValue> = Vec::new();
    let mut i: usize = 0;
    while i < params.len()
        invariant
            i <= params@.len(),
            items@.len() == i,
            forall|j: int| 0 <= j < i ==> #[trigger] items@[j]@ == listed_param(params@[j]@),
        decreases params@.len() - i,
    {
        items.push(listed_param_value(&params[i]));
        i = i + 1;
    }
    proof {
        lemma_models_eq(items@, param_views(params@).map_values(|p: ParamView| listed_param(p)));
    }
    JsonValue::Array(items)
}

/// The list of tools as shown by `--list` and `--search`.
pub fn tool_list_value(commands: &Vec<CommandDef>) -> (r: JsonValue)
    ensures
        r@ == JsonView::Array(command_views(commands@).map_values(|c: CommandView| listed_tool(c))),
{
    let mut items: Vec<JsonValue> = Vec::new();
    let mut i: usize = 0;
    while i < commands.len()
        invariant
            i <= commands@.len(),
            items@.len() == i,
            forall|j: int| 0 <= j < i ==> #[trigger] items@[j]@ == listed_tool(commands@[j]@),
        decreases commands@.len() - i,
    {
        let cmd = &commands[i];
        let mut members: Vec<(String, JsonValue)> = Vec::new();
        members.push(("description".to_string(), str_value(&cmd.description)));
        members.push(("name".to_string(), str_value(&cmd.name)));
        members.push(("params".to_string(), listed_params_value(&cmd.params)));
        proof {
            lemma_member_models(members@);
        }
        assert(JsonValue::member_models(members@) =~= listed_tool(cmd@)->Object_0);
        items.push(JsonValue::Object(members));
        i = i + 1;
    }
    proof {
        lemma_models_eq(items@, command_views(commands@).map_values(|c: CommandView| listed_tool(c)));
    }
    JsonValue::Array(items)
}

} // verus!
