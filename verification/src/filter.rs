use vstd::prelude::*;
use crate::text::{is_ascii_upper, views};
use crate::types::{CommandDef, CommandView, command_views};

verus! {

/// Whether `glob_match::glob_match` accepts `name` for `pattern`.
pub uninterp spec fn glob_matches(pattern: Seq<char>, name: Seq<char>) -> bool;

/// Calls `glob_match::glob_match(pattern, name)`; the answer is named by `glob_matches`.
#[verifier::external_body]
fn glob_match_str(pattern: &str, name: &str) -> (r: bool)
    ensures
        r == glob_matches(pattern@, name@),
{
    glob_match::glob_match(pattern, name)
}

pub open spec fn ascii_lower(c: char) -> char {
    if is_ascii_upper(c) {
        ((c as u32) + 32) as char
    } else {
        c
    }
}

/// `str::eq_ignore_ascii_case`.
pub open spec fn eq_ignore_ascii_case(a: Seq<char>, b: Seq<char>) -> bool {
    a.len() == b.len() && forall|i: int| 0 <= i < a.len() ==> ascii_lower(#[trigger] a[i]) == ascii_lower(b[i])
}

pub fn lower_ascii_char(c: char) -> (r: char)
    ensures
        r == ascii_lower(c),
{
    if 'A' <= c && c <= 'Z' {
        let b: u8 = (c as u8) + 32;
        b as char
    } else {
        c
    }
}

pub fn eq_ignore_ascii_case_str(a: &str, b: &str) -> (r: bool)
    ensures
        r == eq_ignore_ascii_case(a@, b@),
{
    let av = crate::text::chars_of(a);
    let bv = crate::text::chars_of(b);
    if av.len() != bv.len() {
        return false;
    }
    let mut i: usize = 0;
    while i < av.len()
        invariant
            i <= av@.len(),
            av@.len() == bv@.len(),
            av@ == a@,
            bv@ == b@,
            forall|j: int| 0 <= j < i ==> ascii_lower(#[trigger] av@[j]) == ascii_lower(bv@[j]),
        decreases av@.len() - i,
    {
        if lower_ascii_char(av[i]) != lower_ascii_char(bv[i]) {
            return false;
        }
        i = i + 1;
    }
    true
}

pub open spec fn any_glob(patterns: Seq<Seq<char>>, name: Seq<char>) -> bool {
    exists|i: int| 0 <= i < patterns.len() && glob_matches(#[trigger] patterns[i], name)
}

/// Whether a command passes the includes, excludes and method filters.
pub open spec fn passes_filters(
    cmd: CommandView,
    includes: Seq<Seq<char>>,
    excludes: Seq<Seq<char>>,
    methods: Seq<Seq<char>>,
) -> bool {
    &&& (includes.len() == 0 || any_glob(includes, cmd.name))
    &&& !any_glob(excludes, cmd.name)
    &&& (methods.len() == 0 || cmd.method is None || exists|i: int|
        0 <= i < methods.len() && eq_ignore_ascii_case(#[trigger] methods[i], cmd.method->0))
}

fn any_glob_exec(patterns: &Vec<String>, name: &str) -> (r: bool)
    ensures
        r == any_glob(views(patterns@), name@),
{
    let mut i: usize = 0;
    while i < patterns.len()
        invariant
            i <= patterns@.len(),
            forall|j: int| 0 <= j < i ==> !glob_matches(#[trigger] views(patterns@)[j], name@),
        decreases patterns@.len() - i,
    {
        if glob_match_str(patterns[i].as_str(), name) {
            assert(views(patterns@)[i as int] == patterns@[i as int]@);
            return true;
        }
        i = i + 1;
    }
    false
}

fn any_method(methods: &Vec<String>, method: &str) -> (r: bool)
    ensures
        r == exists|i: int| 0 <= i < methods@.len() && eq_ignore_ascii_case(#[trigger] views(methods@)[i], method@),
{
    let mut i: usize = 0;
    while i < methods.len()
        invariant
            i <= methods@.len(),
            forall|j: int| 0 <= j < i ==> !eq_ignore_ascii_case(#[trigger] views(methods@)[j], method@),
        decreases methods@.len() - i,
    {
        if eq_ignore_ascii_case_str(methods[i].as_str(), method) {
            assert(views(methods@)[i as int] == methods@[i as int]@);
            return true;
        }
        i = i + 1;
    }
    false
}

/// Whether one command passes the filters.
pub fn keep_command(cmd: &CommandDef, includes: &Vec<String>, excludes: &Vec<String>, methods: &Vec<String>) -> (r: bool)
    ensures
        r == passes_filters(cmd@, views(includes@), views(excludes@), views(methods@)),
{
    // Include filter
    if includes.len() != 0 && !any_glob_exec(includes, cmd.name.as_str()) {
        return false;
    }
    // Exclude filter
    if any_glob_exec(excludes, cmd.name.as_str()) {
        return false;
    }
    // Methods filter (OpenAPI only)
    if methods.len() != 0 {
        if let Some(method) = &cmd.method {
            if !any_method(methods, method.as_str()) {
                return false;
            }
        }
    }
    true
}

/// Filter commands by includes/excludes glob patterns and HTTP methods, keeping their order.
pub fn filter_commands(
    commands: Vec<CommandDef>,
    includes: &Vec<String>,
    excludes: &Vec<String>,
    methods: &Vec<String>,
) -> (r: Vec<CommandDef>)
    ensures
        command_views(r@) == command_views(commands@).filter(
            |c: CommandView| passes_filters(c, views(includes@), views(excludes@), views(methods@)),
        ),
{
    let ghost pred = |c: CommandView| passes_filters(c, views(includes@), views(excludes@), views(methods@));
    let ghost all = command_views(commands@);
    let mut out: Vec<CommandDef> = Vec::new();
    let mut rest = commands;
    assert(command_views(out@) =~= all.take(0).filter(pred)) by {
        reveal(Seq::filter);
    }
    let mut i: usize = 0;
    let n = rest.len();
    while rest.len() > 0
        invariant
            i + rest@.len() == n,
            n == all.len(),
            forall|j: int| 0 <= j < rest@.len() ==> (#[trigger] rest@[j])@ == all[i + j],
            command_views(out@) == all.take(i as int).filter(pred),
            pred == (|c: CommandView| passes_filters(c, views(includes@), views(excludes@), views(methods@))),
        decreases rest@.len(),
    {
        assert(rest@[0]@ == all[i as int]);
        let cmd = rest.remove(0);
        let keep = keep_command(&cmd, includes, excludes, methods);
        let ghost old_out = out@;
        if keep {
            out.push(cmd);
        }
        proof {
            reveal(Seq::filter);
            assert(all.take(i + 1).drop_last() =~= all.take(i as int));
            assert(all.take(i + 1).last() == all[i as int]);
            if keep {
                assert(command_views(out@) =~= command_views(old_out).push(cmd@));
            } else {
                assert(command_views(out@) =~= command_views(old_out));
            }
        }
        i = i + 1;
    }
    assert(all.take(n as int) =~= all);
    out
}

} // verus!
