use vstd::prelude::*;
use clap::{Arg, ArgAction, Command};
use crate::error::{AppError, ErrorView};
use crate::handler::find_command;
use crate::text::{views, concat, str_eq, starts_with, starts_with_str};
use crate::types::{ParamDef, ParamView, CommandDef, CommandView, param_views, command_views};

verus! {

// ---------------------------------------------------------------------------
// A command's own arguments
// ---------------------------------------------------------------------------

/// What clap is told of a parameter: its name (also its long flag), its help text,
/// whether it is required, and the values it accepts.
pub open spec fn clap_param(p: ParamView) -> (Seq<char>, Seq<char>, bool, Option<Seq<Seq<char>>>) {
    (p.name, p.description, p.required, p.choices)
}

/// What clap makes of a command line for a command built from a name, an about text,
/// parameters and (`with_stdin`) a `--stdin` switch: for each parameter, in the
/// parameters' order, the value given for it if any, and whether `--stdin` was given;
/// or the text of its error (usage errors, and the help or version text it was asked
/// for).
pub uninterp spec fn clap_outcome(
    name: Seq<char>,
    about: Seq<char>,
    params: Seq<(Seq<char>, Seq<char>, bool, Option<Seq<Seq<char>>>)>,
    with_stdin: bool,
    argv: Seq<Seq<char>>,
) -> Result<(Seq<Option<Seq<char>>>, bool), Seq<char>>;

/// The parameters that were given a value, each with that value, in the parameters'
/// order.
pub open spec fn given_args(names: Seq<Seq<char>>, vals: Seq<Option<Seq<char>>>) -> Seq<(Seq<char>, Seq<char>)>
    decreases vals.len(),
{
    if vals.len() == 0 {
        Seq::empty()
    } else {
        let k = vals.len() - 1;
        let front = given_args(names, vals.drop_last());
        match vals[k] {
            Some(v) => front.push((names[k], v)),
            None => front,
        }
    }
}

pub open spec fn param_names(ps: Seq<ParamView>) -> Seq<Seq<char>> {
    ps.map_values(|p: ParamView| p.name)
}

/// Parameter names that clap can build a command from: distinct, none `help` (clap's
/// own help flag) or, with a `--stdin` switch, `stdin`, and none starting with `-`.
/// clap's builder panics on any other list.
pub open spec fn names_ready(names: Seq<Seq<char>>, with_stdin: bool) -> bool {
    &&& forall|i: int, j: int| 0 <= i < j < names.len() ==> names[i] != names[j]
    &&& forall|i: int| 0 <= i < names.len() ==> {
        &&& #[trigger] names[i] != "help"@
        &&& !(with_stdin && names[i] == "stdin"@)
        &&& !starts_with(names[i], "-"@)
    }
}

/// Whether clap can build a command from these parameters (see `names_ready`).
fn params_ready(params: &Vec<ParamDef>, with_stdin: bool) -> (r: bool)
    ensures
        r == names_ready(param_names(param_views(params@)), with_stdin),
{
    let ghost names = param_names(param_views(params@));
    let mut i: usize = 0;
    while i < params.len()
        invariant
            i <= params@.len(),
            names == param_names(param_views(params@)),
            names.len() == params@.len(),
            forall|a: int, b: int| 0 <= a < b < names.len() && a < i ==> names[a] != names[b],
            forall|a: int| 0 <= a < i ==> {
                &&& #[trigger] names[a] != "help"@
                &&& !(with_stdin && names[a] == "stdin"@)
                &&& !starts_with(names[a], "-"@)
            },
        decreases params@.len() - i,
    {
        let n = params[i].name.as_str();
        assert(names[i as int] == n@);
        if str_eq(n, "help") || (with_stdin && str_eq(n, "stdin")) || starts_with_str(n, "-") {
            return false;
        }
        let mut j: usize = i + 1;
        while j < params.len()
            invariant
                i < j <= params@.len(),
                names == param_names(param_views(params@)),
                names.len() == params@.len(),
                names[i as int] == n@,
                forall|b: int| i < b < j ==> names[i as int] != #[trigger] names[b],
            decreases params@.len() - j,
        {
            if str_eq(n, params[j].name.as_str()) {
                assert(names[j as int] == params@[j as int].name@);
                return false;
            }
            assert(names[j as int] == params@[j as int].name@);
            j = j + 1;
        }
        i = i + 1;
    }
    true
}

/// The text of `s` in a string that lives as long as the program (`Box::leak`), as
/// clap's builder takes names that do.
#[verifier::external_body]
fn leaked(s: &String) -> (r: &'static str)
    ensures
        r@ == s@,
{
    Box::leak(s.clone().into_boxed_str())
}

/// A parameter as clap is told of it.
pub struct ClapParam {
    pub name: &'static str,
    pub help: String,
    pub required: bool,
    pub choices: Option<Vec<&'static str>>,
}

pub open spec fn clap_param_view(p: ClapParam) -> (Seq<char>, Seq<char>, bool, Option<Seq<Seq<char>>>) {
    (p.name@, p.help@, p.required, match p.choices {
        Some(c) => Some(c@.map_values(|x: &'static str| x@)),
        None => None,
    })
}

/// Builds a `clap::Command` with a long option for each parameter (required where the
/// parameter is, limited to its choices where it has some) and, where asked, a
/// `--stdin` switch; then runs `try_get_matches_from` on `argv`. The outcome is named
/// by `clap_outcome`; the values come back one for each parameter, in order. The
/// parameter names must be ones clap builds a command from (`names_ready`): on others
/// its builder panics.
#[verifier::external_body]
fn clap_matches(name: &'static str, about: &String, params: &Vec<ClapParam>, with_stdin: bool, argv: &Vec<String>)
    -> (r: Result<(Vec<Option<String>>, bool), String>)
    requires
        names_ready(params@.map_values(|p: ClapParam| p.name@), with_stdin),
    ensures
        match r {
            Ok((vals, stdin)) => vals@.len() == params@.len()
                && clap_outcome(name@, about@, params@.map_values(|p: ClapParam| clap_param_view(p)), with_stdin, views(argv@))
                == Ok::<(Seq<Option<Seq<char>>>, bool), Seq<char>>((vals@.map_values(|v: Option<String>| opt_view(v)), stdin)),
            Err(e) => clap_outcome(name@, about@, params@.map_values(|p: ClapParam| clap_param_view(p)), with_stdin, views(argv@))
                == Err::<(Seq<Option<Seq<char>>>, bool), Seq<char>>(e@),
        },
{
    let mut app = Command::new(name).about(about);
    for p in params {
        let a = Arg::new(p.name).long(p.name).help(&p.help).required(p.required);
        app = app.arg(match &p.choices { Some(c) => a.value_parser(c.clone()), None => a });
    }
    if with_stdin {
        app = app.arg(Arg::new("stdin").long("stdin").help("Read request body from stdin").action(ArgAction::SetTrue));
    }
    let m = app.try_get_matches_from(argv).map_err(|e| e.to_string())?;
    Ok((params.iter().map(|p| m.get_one::<String>(p.name).cloned()).collect(), with_stdin && m.get_flag("stdin")))
}

pub open spec fn opt_view(v: Option<String>) -> Option<Seq<char>> {
    match v {
        Some(s) => Some(s@),
        None => None,
    }
}

/// Pairs each parameter that was given a value with that value.
fn pair_given(params: &Vec<ParamDef>, vals: &Vec<Option<String>>) -> (r: Vec<(String, String)>)
    requires
        vals@.len() == params@.len(),
    ensures
        crate::request::header_views(r@) == given_args(param_names(param_views(params@)), vals@.map_values(|v: Option<String>| opt_view(v))),
{
    let ghost names = param_names(param_views(params@));
    let ghost vs = vals@.map_values(|v: Option<String>| opt_view(v));
    let mut out: Vec<(String, String)> = Vec::new();
    let mut i: usize = 0;
    while i < vals.len()
        invariant
            i <= vals@.len(),
            vals@.len() == params@.len(),
            names == param_names(param_views(params@)),
            vs == vals@.map_values(|v: Option<String>| opt_view(v)),
            crate::request::header_views(out@) == given_args(names, vs.take(i as int)),
        decreases vals@.len() - i,
    {
        assert(vs.take(i + 1).drop_last() =~= vs.take(i as int));
        match &vals[i] {
            Some(v) => {
                out.push((params[i].name.clone(), v.clone()));
                assert(crate::request::header_views(out@) =~= given_args(names, vs.take(i as int)).push((names[i as int], v@)));
            },
            None => {},
        }
        i = i + 1;
    }
    assert(vs.take(vals@.len() as int) =~= vs);
    out
}

/// The parameters of a command as clap is told of them.
fn clap_params(params: &Vec<ParamDef>) -> (r: Vec<ClapParam>)
    ensures
        r@.len() == params@.len(),
        r@.map_values(|p: ClapParam| clap_param_view(p)) == param_views(params@).map_values(|p: ParamView| clap_param(p)),
{
    let mut out: Vec<ClapParam> = Vec::new();
    let mut i: usize = 0;
    while i < params.len()
        invariant
            i <= params@.len(),
            out@.len() == i,
            forall|j: int| 0 <= j < i ==> clap_param_view(#[trigger] out@[j]) == clap_param(params@[j]@),
        decreases params@.len() - i,
    {
        let p = &params[i];
        let choices = match &p.choices {
            Some(c) => {
                let mut v: Vec<&'static str> = Vec::new();
                let mut k: usize = 0;
                while k < c.len()
                    invariant
                        k <= c@.len(),
                        v@.len() == k,
                        forall|j: int| 0 <= j < k ==> (#[trigger] v@[j])@ == c@[j]@,
                    decreases c@.len() - k,
                {
                    v.push(leaked(&c[k]));
                    k = k + 1;
                }
                assert(v@.map_values(|x: &'static str| x@) =~= views(c@));
                Some(v)
            },
            None => None,
        };
        out.push(ClapParam { name: leaked(&p.name), help: p.description.clone(), required: p.required, choices });
        i = i + 1;
    }
    assert(out@.map_values(|p: ClapParam| clap_param_view(p)) =~= param_views(params@).map_values(|p: ParamView| clap_param(p)));
    out
}

/// The command named on the command line, its arguments by parameter name, and
/// whether `--stdin` was given.
#[derive(Debug)]
pub struct ParsedArgs {
    pub command: String,
    /// The position of the command in the list it was looked up in.
    pub index: usize,
    pub args: Vec<(String, String)>,
    pub stdin: bool,
}

/// The first command named `name`.
pub open spec fn named_command(cs: Seq<CommandView>, name: Seq<char>) -> Option<CommandView> {
    if exists|i: int| 0 <= i < cs.len() && #[trigger] cs[i].name == name {
        let i = choose|i: int| 0 <= i < cs.len() && #[trigger] cs[i].name == name && forall|j: int| 0 <= j < i ==> cs[j].name != name;
        Some(cs[i])
    } else {
        None
    }
}

/// What reading a command line gives: the command it names (its first word) with the
/// arguments clap reads for it, or the error. A command whose parameter names clap
/// cannot build a command from (`names_ready`) is refused.
pub open spec fn dynamic_args(cs: Seq<CommandView>, argv: Seq<Seq<char>>) -> Result<(Seq<char>, Seq<(Seq<char>, Seq<char>)>, bool), ErrorView> {
    if argv.len() == 0 {
        Err(ErrorView::Cli("no subcommand provided"@))
    } else {
        match named_command(cs, argv[0]) {
            None => Err(ErrorView::Cli("unknown command: "@ + argv[0])),
            Some(c) => if !names_ready(param_names(c.params), c.has_body) {
                Err(ErrorView::Cli("conflicting parameter names in command "@ + argv[0]))
            } else {
                match clap_outcome(c.name, c.description, c.params.map_values(|p: ParamView| clap_param(p)), c.has_body, argv) {
                    Ok((vals, stdin)) => Ok((argv[0], given_args(param_names(c.params), vals), stdin)),
                    Err(e) => Err(ErrorView::Cli(e)),
                }
            },
        }
    }
}

/// Read a command's own arguments: the command named first on the command line, then
/// its options, as clap reads them for that command's parameters.
pub fn parse_dynamic_args(commands: &Vec<CommandDef>, argv: &Vec<String>) -> (r: Result<ParsedArgs, AppError>)
    ensures
        match r {
            Ok(p) => dynamic_args(command_views(commands@), views(argv@))
                == Ok::<(Seq<char>, Seq<(Seq<char>, Seq<char>)>, bool), ErrorView>((p.command@, crate::request::header_views(p.args@), p.stdin)),
            Err(e) => dynamic_args(command_views(commands@), views(argv@))
                == Err::<(Seq<char>, Seq<(Seq<char>, Seq<char>)>, bool), ErrorView>(e@),
        },
        r matches Ok(p) ==> p.index < commands@.len()
            && named_command(command_views(commands@), p.command@) == Some(commands@[p.index as int]@),
{
    let ghost cs = command_views(commands@);
    if argv.len() == 0 {
        return Err(AppError::Cli("no subcommand provided".to_string()));
    }
    let name = &argv[0];
    assert(views(argv@)[0] == name@);
    match find_command(commands, name.as_str()) {
        None => {
            assert(named_command(cs, name@) is None) by {
                if exists|i: int| 0 <= i < cs.len() && #[trigger] cs[i].name == name@ {
                    let i = choose|i: int| 0 <= i < cs.len() && #[trigger] cs[i].name == name@;
                    assert(commands@[i].name@ == name@);
                }
            }
            Err(AppError::Cli(concat("unknown command: ", name.as_str())))
        },
        Some(i) => {
            let cmd = &commands[i];
            assert(named_command(cs, name@) == Some(cmd@)) by {
                assert(cs[i as int].name == name@);
                let k = choose|k: int| 0 <= k < cs.len() && #[trigger] cs[k].name == name@ && forall|j: int| 0 <= j < k ==> cs[j].name != name@;
                if k < i {
                    assert(commands@[k].name@ == name@);
                } else if k > i {
                    assert(cs[i as int].name == name@);
                }
                assert(k == i);
            }
            if !params_ready(&cmd.params, cmd.has_body) {
                return Err(AppError::Cli(concat("conflicting parameter names in command ", name.as_str())));
            }
            let specs = clap_params(&cmd.params);
            assert(specs@.map_values(|p: ClapParam| p.name@) =~= param_names(param_views(cmd.params@))) by {
                assert forall|k: int| 0 <= k < specs@.len() implies specs@[k].name@ == param_views(cmd.params@)[k].name by {
                    assert(specs@.map_values(|p: ClapParam| clap_param_view(p))[k] == param_views(cmd.params@).map_values(|p: ParamView| clap_param(p))[k]);
                }
            }
            let cmd_name = leaked(&cmd.name);
            match clap_matches(cmd_name, &cmd.description, &specs, cmd.has_body, argv) {
                Ok((vals, stdin)) => {
                    let args = pair_given(&cmd.params, &vals);
                    Ok(ParsedArgs { command: name.clone(), index: i, args, stdin })
                },
                Err(e) => Err(AppError::Cli(e)),
            }
        },
    }
}

} // verus!
