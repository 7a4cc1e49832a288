use vstd::prelude::*;
use crate::handler::{listed_param, listed_params_value};
use crate::json::{JsonValue, JsonView, lemma_member_models, lemma_models_eq};
use crate::mcp::opt_str_json;
use crate::store::{name_lt, str_less, lemma_name_lt_total, lemma_name_lt_irreflexive};
use crate::text::{opt_view, split, trim_start_char, split_char, trim_start_matches_char, str_eq};
use crate::types::{ParamDef, ParamView, ParamLocation, CommandDef, CommandView, param_views, command_views};

verus! {

// ---------------------------------------------------------------------------
// Grouping in key order
// ---------------------------------------------------------------------------

/// `gs` with index `i` added to the group of `key`: the groups stay in key order, and a
/// new key gets a group of its own in its place.
pub open spec fn group_insert(gs: Seq<(Seq<char>, Seq<int>)>, key: Seq<char>, i: int) -> Seq<(Seq<char>, Seq<int>)>
    decreases gs.len(),
{
    if gs.len() == 0 {
        seq![(key, seq![i])]
    } else if gs[0].0 == key {
        seq![(key, gs[0].1.push(i))] + gs.drop_first()
    } else if name_lt(key, gs[0].0) {
        seq![(key, seq![i])] + gs
    } else {
        seq![gs[0]] + group_insert(gs.drop_first(), key, i)
    }
}

/// The items' indices grouped by their keys, the groups in key order and the indices
/// of each group in item order.
pub open spec fn groups_of(keys: Seq<Seq<char>>) -> Seq<(Seq<char>, Seq<int>)>
    decreases keys.len(),
{
    if keys.len() == 0 {
        Seq::empty()
    } else {
        group_insert(groups_of(keys.drop_last()), keys.last(), keys.len() - 1)
    }
}

pub open spec fn group_views(gs: Seq<(String, Vec<usize>)>) -> Seq<(Seq<char>, Seq<int>)> {
    gs.map_values(|g: (String, Vec<usize>)| (g.0@, g.1@.map_values(|x: usize| x as int)))
}

fn add_to_group(groups: &mut Vec<(String, Vec<usize>)>, key: &str, i: usize)
    ensures
        group_views(final(groups)@) == group_insert(group_views(old(groups)@), key@, i as int),
{
    let ghost gs = group_views(groups@);
    let mut p: usize = 0;
    assert(gs.skip(0) =~= gs);
    assert(gs.take(0) + group_insert(gs.skip(0), key@, i as int) =~= group_insert(gs, key@, i as int));
    while p < groups.len() && str_less(groups[p].0.as_str(), key)
        invariant
            p <= groups@.len(),
            gs == group_views(groups@),
            groups@ == old(groups)@,
            group_insert(gs, key@, i as int) == gs.take(p as int) + group_insert(gs.skip(p as int), key@, i as int),
        decreases groups@.len() - p,
    {
        let ghost rest = gs.skip(p as int);
        assert(rest[0] == gs[p as int]);
        proof {
            lemma_name_lt_total(gs[p as int].0, key@);
            lemma_name_lt_irreflexive(key@);
        }
        assert(rest.drop_first() =~= gs.skip(p + 1));
        assert(gs.take(p + 1) =~= gs.take(p as int).push(gs[p as int]));
        assert(gs.take(p as int) + group_insert(rest, key@, i as int) =~= gs.take(p + 1) + group_insert(gs.skip(p + 1), key@, i as int));
        p = p + 1;
    }
    let ghost rest = gs.skip(p as int);
    if p < groups.len() && str_eq(groups[p].0.as_str(), key) {
        assert(rest[0] == gs[p as int]);
        let ghost old_group = groups@[p as int];
        let mut g = groups[p].1.clone();
        g.push(i);
        let name = groups[p].0.clone();
        groups.set(p, (name, g));
        assert(group_views(groups@) =~= gs.take(p as int) + (seq![(key@, gs[p as int].1.push(i as int))] + rest.drop_first())) by {
            assert forall|j: int| 0 <= j < gs.len() implies #[trigger] group_views(groups@)[j] == (gs.take(p as int) + (seq![(key@, gs[p as int].1.push(i as int))] + rest.drop_first()))[j] by {
                if j < p {
                    assert(groups@[j] == old(groups)@[j]);
                } else if j > p {
                    assert(groups@[j] == old(groups)@[j]);
                    assert(rest.drop_first()[j - p - 1] == gs[j]);
                } else {
                    assert(groups@[j].1@ == old_group.1@.push(i));
                    assert(groups@[j].1@.map_values(|x: usize| x as int) =~= old_group.1@.map_values(|x: usize| x as int).push(i as int));
                }
            }
        }
    } else {
        proof {
            if p < groups.len() {
                assert(rest[0] == gs[p as int]);
                lemma_name_lt_total(gs[p as int].0, key@);
            }
        }
        let mut g: Vec<usize> = Vec::new();
        g.push(i);
        groups.insert(p, (key.to_string(), g));
        assert(g@.map_values(|x: usize| x as int) =~= seq![i as int]);
        assert(group_views(groups@) =~= gs.take(p as int) + (seq![(key@, seq![i as int])] + rest)) by {
            assert forall|j: int| 0 <= j < gs.len() + 1 implies #[trigger] group_views(groups@)[j] == (gs.take(p as int) + (seq![(key@, seq![i as int])] + rest))[j] by {
                if j < p {
                    assert(groups@[j] == old(groups)@[j]);
                } else if j > p {
                    assert(groups@[j] == old(groups)@[j - 1]);
                    assert(rest[j - p - 1] == gs[j - 1]);
                }
            }
        }
    }
}

/// The indices of the keys grouped by key, in key order.
pub fn group_by_key(keys: &Vec<String>) -> (r: Vec<(String, Vec<usize>)>)
    ensures
        group_views(r@) == groups_of(crate::text::views(keys@)),
{
    let ghost kv = crate::text::views(keys@);
    let mut groups: Vec<(String, Vec<usize>)> = Vec::new();
    let mut i: usize = 0;
    assert(kv.take(0) =~= Seq::<Seq<char>>::empty());
    assert(group_views(groups@) =~= Seq::<(Seq<char>, Seq<int>)>::empty());
    while i < keys.len()
        invariant
            i <= keys@.len(),
            kv == crate::text::views(keys@),
            group_views(groups@) == groups_of(kv.take(i as int)),
        decreases keys@.len() - i,
    {
        assert(kv.take(i + 1).drop_last() =~= kv.take(i as int));
        assert(kv.take(i + 1).last() == keys@[i as int]@);
        add_to_group(&mut groups, keys[i].as_str(), i);
        i = i + 1;
    }
    assert(kv.take(keys@.len() as int) =~= kv);
    groups
}

// ---------------------------------------------------------------------------
// Command listings
// ---------------------------------------------------------------------------

/// The name `{:?}` gives a parameter location.
pub open spec fn location_name(l: ParamLocation) -> Seq<char> {
    match l {
        ParamLocation::Path => "Path"@,
        ParamLocation::Query => "Query"@,
        ParamLocation::Header => "Header"@,
        ParamLocation::Body => "Body"@,
        ParamLocation::WholeBody => "WholeBody"@,
        ParamLocation::ToolInput => "ToolInput"@,
        ParamLocation::GraphqlArg => "GraphqlArg"@,
        ParamLocation::File => "File"@,
    }
}

pub fn location_text(l: ParamLocation) -> (r: String)
    ensures
        r@ == location_name(l),
{
    match l {
        ParamLocation::Path => "Path".to_string(),
        ParamLocation::Query => "Query".to_string(),
        ParamLocation::Header => "Header".to_string(),
        ParamLocation::Body => "Body".to_string(),
        ParamLocation::WholeBody => "WholeBody".to_string(),
        ParamLocation::ToolInput => "ToolInput".to_string(),
        ParamLocation::GraphqlArg => "GraphqlArg".to_string(),
        ParamLocation::File => "File".to_string(),
    }
}

/// An OpenAPI parameter as listed.
pub open spec fn listed_api_param(p: ParamView) -> JsonView {
    JsonView::Object(
        seq![
            ("description"@, JsonView::Str(p.description)),
            ("location"@, JsonView::Str(location_name(p.location))),
            ("name"@, JsonView::Str(p.name)),
            ("required"@, JsonView::Bool(p.required)),
        ],
    )
}

pub open spec fn opt_seq_json(o: Option<Seq<char>>) -> JsonView {
    match o {
        Some(s) => JsonView::Str(s),
        None => JsonView::Null,
    }
}

/// An OpenAPI command as listed.
pub open spec fn listed_api_command(c: CommandView) -> JsonView {
    JsonView::Object(
        seq![
            ("description"@, JsonView::Str(c.description)),
            ("method"@, opt_seq_json(c.method)),
            ("name"@, JsonView::Str(c.name)),
            ("params"@, JsonView::Array(c.params.map_values(|p: ParamView| listed_api_param(p)))),
            ("path"@, opt_seq_json(c.path)),
        ],
    )
}

/// A GraphQL command as listed.
pub open spec fn listed_gql_command(c: CommandView) -> JsonView {
    JsonView::Object(
        seq![
            ("description"@, JsonView::Str(c.description)),
            ("field"@, opt_seq_json(c.graphql_field_name)),
            ("name"@, JsonView::Str(c.name)),
            ("operation"@, opt_seq_json(c.graphql_operation_type)),
            ("params"@, JsonView::Array(c.params.map_values(|p: ParamView| listed_param(p)))),
        ],
    )
}

/// The group of an OpenAPI command: the first segment of its path.
pub open spec fn api_group(c: CommandView) -> Seq<char> {
    match c.path {
        Some(p) => split(trim_start_char(p, '/'), '/')[0],
        None => "other"@,
    }
}

/// The group of a GraphQL command: its operation.
pub open spec fn gql_group(c: CommandView) -> Seq<char> {
    match c.graphql_operation_type {
        Some(o) => o,
        None => "other"@,
    }
}

/// How a command is shown in a listing.
pub open spec fn shown(c: CommandView, graphql: bool) -> JsonView {
    if graphql {
        listed_gql_command(c)
    } else {
        listed_api_command(c)
    }
}

/// The group of each command.
pub open spec fn group_keys(cs: Seq<CommandView>, graphql: bool) -> Seq<Seq<char>> {
    cs.map_values(|c: CommandView| if graphql { gql_group(c) } else { api_group(c) })
}

/// The listing of commands: their groups in key order, each with its commands.
pub open spec fn grouped_listing(cs: Seq<CommandView>, graphql: bool) -> JsonView {
    JsonView::Array(
        groups_of(group_keys(cs, graphql)).map_values(
            |g: (Seq<char>, Seq<int>)| JsonView::Object(
                seq![
                    ("commands"@, JsonView::Array(g.1.map_values(|i: int| shown(cs[i], graphql)))),
                    ("group"@, JsonView::Str(g.0)),
                ],
            ),
        ),
    )
}

fn opt_string_value(o: &Option<String>) -> (r: JsonValue)
    ensures
        r@ == opt_seq_json(opt_view(*o)),
{
    match o {
        Some(s) => JsonValue::Str(s.clone()),
        None => JsonValue::Null,
    }
}

fn listed_api_params(params: &Vec<ParamDef>) -> (r: JsonValue)
    ensures
        r@ == JsonView::Array(param_views(params@).map_values(|p: ParamView| listed_api_param(p))),
{
    let mut items: Vec<JsonValue> = Vec::new();
    let mut i: usize = 0;
    while i < params.len()
        invariant
            i <= params@.len(),
            items@.len() == i,
            forall|j: int| 0 <= j < i ==> #[trigger] items@[j]@ == listed_api_param(params@[j]@),
        decreases params@.len() - i,
    {
        let p = &params[i];
        let mut m: Vec<(String, JsonValue)> = Vec::new();
        m.push(("description".to_string(), JsonValue::Str(p.description.clone())));
        m.push(("location".to_string(), JsonValue::Str(location_text(p.location))));
        m.push(("name".to_string(), JsonValue::Str(p.name.clone())));
        m.push(("required".to_string(), JsonValue::Bool(p.required)));
        proof {
            lemma_member_models(m@);
        }
        assert(JsonValue::member_models(m@) =~= listed_api_param(p@)->Object_0);
        items.push(JsonValue::Object(m));
        i = i + 1;
    }
    proof {
        lemma_models_eq(items@, param_views(params@).map_values(|p: ParamView| listed_api_param(p)));
    }
    JsonValue::Array(items)
}

fn api_command_value(c: &CommandDef) -> (r: JsonValue)
    ensures
        r@ == listed_api_command(c@),
{
    let mut m: Vec<(String, JsonValue)> = Vec::new();
    m.push(("description".to_string(), JsonValue::Str(c.description.clone())));
    m.push(("method".to_string(), opt_string_value(&c.method)));
    m.push(("name".to_string(), JsonValue::Str(c.name.clone())));
    m.push(("params".to_string(), listed_api_params(&c.params)));
    m.push(("path".to_string(), opt_string_value(&c.path)));
    proof {
        lemma_member_models(m@);
    }
    assert(JsonValue::member_models(m@) =~= listed_api_command(c@)->Object_0);
    JsonValue::Object(m)
}

fn gql_command_value(c: &CommandDef) -> (r: JsonValue)
    ensures
        r@ == listed_gql_command(c@),
{
    let mut m: Vec<(String, JsonValue)> = Vec::new();
    m.push(("description".to_string(), JsonValue::Str(c.description.clone())));
    m.push(("field".to_string(), opt_string_value(&c.graphql_field_name)));
    m.push(("name".to_string(), JsonValue::Str(c.name.clone())));
    m.push(("operation".to_string(), opt_string_value(&c.graphql_operation_type)));
    m.push(("params".to_string(), listed_params_value(&c.params)));
    proof {
        lemma_member_models(m@);
    }
    assert(JsonValue::member_models(m@) =~= listed_gql_command(c@)->Object_0);
    JsonValue::Object(m)
}

fn group_key_api(c: &CommandDef) -> (r: String)
    ensures
        r@ == api_group(c@),
{
    match &c.path {
        Some(p) => {
            let trimmed = trim_start_matches_char(p.as_str(), '/');
            let parts = split_char(trimmed.as_str(), '/');
            proof {
                crate::text::lemma_split_nonempty(trimmed@, '/');
            }
            assert(crate::text::views(parts@)[0] == parts@[0]@);
            parts[0].clone()
        },
        None => "other".to_string(),
    }
}

fn group_key_gql(c: &CommandDef) -> (r: String)
    ensures
        r@ == gql_group(c@),
{
    match &c.graphql_operation_type {
        Some(o) => o.clone(),
        None => "other".to_string(),
    }
}

fn grouped_value(
    commands: &Vec<CommandDef>,
    groups: &Vec<(String, Vec<usize>)>,
    graphql: bool,
) -> (r: JsonValue)
    requires
        forall|g: int, k: int| 0 <= g < groups@.len() && 0 <= k < groups@[g].1@.len() ==> #[trigger] groups@[g].1@[k] < commands@.len(),
    ensures
        r@ == JsonView::Array(
            group_views(groups@).map_values(
                |g: (Seq<char>, Seq<int>)| JsonView::Object(
                    seq![
                        ("commands"@, JsonView::Array(g.1.map_values(|i: int| shown(command_views(commands@)[i], graphql)))),
                        ("group"@, JsonView::Str(g.0)),
                    ],
                ),
            ),
        ),
{
    let ghost cv = command_views(commands@);
    let ghost show = |i: int| shown(cv[i], graphql);
    let ghost target = group_views(groups@).map_values(
        |g: (Seq<char>, Seq<int>)| JsonView::Object(
            seq![("commands"@, JsonView::Array(g.1.map_values(show))), ("group"@, JsonView::Str(g.0))],
        ),
    );
    let mut out: Vec<JsonValue> = Vec::new();
    let mut g: usize = 0;
    while g < groups.len()
        invariant
            g <= groups@.len(),
            cv == command_views(commands@),
            show == (|i: int| shown(cv[i], graphql)),
            target == group_views(groups@).map_values(
                |g: (Seq<char>, Seq<int>)| JsonView::Object(
                    seq![("commands"@, JsonView::Array(g.1.map_values(show))), ("group"@, JsonView::Str(g.0))],
                ),
            ),
            forall|a: int, k: int| 0 <= a < groups@.len() && 0 <= k < groups@[a].1@.len() ==> #[trigger] groups@[a].1@[k] < commands@.len(),
            out@.len() == g,
            forall|a: int| 0 <= a < g ==> #[trigger] out@[a]@ == target[a],
        decreases groups@.len() - g,
    {
        let idxs = &groups[g].1;
        let mut items: Vec<JsonValue> = Vec::new();
        let mut k: usize = 0;
        while k < idxs.len()
            invariant
                k <= idxs@.len(),
                *idxs == groups@[g as int].1,
                cv == command_views(commands@),
                forall|a: int, b: int| 0 <= a < groups@.len() && 0 <= b < groups@[a].1@.len() ==> #[trigger] groups@[a].1@[b] < commands@.len(),
                g < groups@.len(),
                items@.len() == k,
                forall|b: int| 0 <= b < k ==> #[trigger] items@[b]@ == show(idxs@[b] as int),
                show == (|i: int| shown(cv[i], graphql)),
            decreases idxs@.len() - k,
        {
            let c = idxs[k];
            assert(groups@[g as int].1@[k as int] < commands@.len());
            assert(cv[c as int] == commands@[c as int]@);
            let v = if graphql { gql_command_value(&commands[c]) } else { api_command_value(&commands[c]) };
            items.push(v);
            k = k + 1;
        }
        let ghost gv = group_views(groups@)[g as int];
        assert(gv.1 =~= idxs@.map_values(|x: usize| x as int));
        proof {
            lemma_models_eq(items@, gv.1.map_values(show));
        }
        let mut m: Vec<(String, JsonValue)> = Vec::new();
        m.push(("commands".to_string(), JsonValue::Array(items)));
        m.push(("group".to_string(), JsonValue::Str(groups[g].0.clone())));
        proof {
            lemma_member_models(m@);
        }
        assert(JsonValue::member_models(m@) =~= target[g as int]->Object_0);
        out.push(JsonValue::Object(m));
        g = g + 1;
    }
    proof {
        lemma_models_eq(out@, target);
    }
    JsonValue::Array(out)
}

proof fn lemma_groups_indices(keys: Seq<Seq<char>>)
    ensures
        forall|g: int, k: int| 0 <= g < groups_of(keys).len() && 0 <= k < groups_of(keys)[g].1.len()
            ==> 0 <= #[trigger] groups_of(keys)[g].1[k] < keys.len(),
    decreases keys.len(),
{
    if keys.len() > 0 {
        lemma_groups_indices(keys.drop_last());
        lemma_insert_indices(groups_of(keys.drop_last()), keys.last(), keys.len() - 1);
    }
}

proof fn lemma_insert_indices(gs: Seq<(Seq<char>, Seq<int>)>, key: Seq<char>, i: int)
    requires
        0 <= i,
        forall|g: int, k: int| 0 <= g < gs.len() && 0 <= k < gs[g].1.len() ==> 0 <= #[trigger] gs[g].1[k] < i,
    ensures
        forall|g: int, k: int| 0 <= g < group_insert(gs, key, i).len() && 0 <= k < group_insert(gs, key, i)[g].1.len()
            ==> 0 <= #[trigger] group_insert(gs, key, i)[g].1[k] < i + 1,
    decreases gs.len(),
{
    let r = group_insert(gs, key, i);
    if gs.len() > 0 {
        if gs[0].0 == key {
            assert forall|g: int, k: int| 0 <= g < r.len() && 0 <= k < r[g].1.len() implies 0 <= #[trigger] r[g].1[k] < i + 1 by {
                if g == 0 {
                    if k < gs[0].1.len() {
                        assert(r[0].1[k] == gs[0].1[k]);
                    }
                } else {
                    assert(r[g] == gs[g]);
                }
            }
        } else if name_lt(key, gs[0].0) {
            assert forall|g: int, k: int| 0 <= g < r.len() && 0 <= k < r[g].1.len() implies 0 <= #[trigger] r[g].1[k] < i + 1 by {
                if g > 0 {
                    assert(r[g] == gs[g - 1]);
                }
            }
        } else {
            let t = gs.drop_first();
            assert forall|g: int, k: int| 0 <= g < t.len() && 0 <= k < t[g].1.len() implies 0 <= #[trigger] t[g].1[k] < i by {
                assert(t[g] == gs[g + 1]);
            }
            lemma_insert_indices(t, key, i);
            assert forall|g: int, k: int| 0 <= g < r.len() && 0 <= k < r[g].1.len() implies 0 <= #[trigger] r[g].1[k] < i + 1 by {
                if g > 0 {
                    assert(r[g] == group_insert(t, key, i)[g - 1]);
                }
            }
        }
    }
}

/// The OpenAPI commands as listed, grouped by the first segment of their paths.
pub fn openapi_listing(commands: &Vec<CommandDef>) -> (r: JsonValue)
    ensures
        r@ == grouped_listing(command_views(commands@), false),
{
    listing(commands, false)
}

/// The GraphQL commands as listed, grouped by their operation.
pub fn graphql_listing(commands: &Vec<CommandDef>) -> (r: JsonValue)
    ensures
        r@ == grouped_listing(command_views(commands@), true),
{
    listing(commands, true)
}

fn listing(commands: &Vec<CommandDef>, graphql: bool) -> (r: JsonValue)
    ensures
        r@ == grouped_listing(command_views(commands@), graphql),
{
    let ghost cv = command_views(commands@);
    let mut keys: Vec<String> = Vec::new();
    let mut i: usize = 0;
    while i < commands.len()
        invariant
            i <= commands@.len(),
            cv == command_views(commands@),
            keys@.len() == i,
            forall|j: int| 0 <= j < i ==> (#[trigger] keys@[j])@ == if graphql { gql_group(cv[j]) } else { api_group(cv[j]) },
        decreases commands@.len() - i,
    {
        let k = if graphql { group_key_gql(&commands[i]) } else { group_key_api(&commands[i]) };
        keys.push(k);
        i = i + 1;
    }
    let ghost kv = group_keys(cv, graphql);
    assert(crate::text::views(keys@) =~= kv);
    let groups = group_by_key(&keys);
    proof {
        lemma_groups_indices(kv);
        assert forall|g: int, k: int| 0 <= g < groups@.len() && 0 <= k < groups@[g].1@.len() implies #[trigger] groups@[g].1@[k] < commands@.len() by {
            assert(group_views(groups@)[g].1[k] == groups@[g].1@[k] as int);
        }
    }
    grouped_value(commands, &groups, graphql)
}

} // verus!
