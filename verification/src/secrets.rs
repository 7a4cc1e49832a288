use vstd::prelude::*;
use crate::text::{is_ascii_alnum, starts_with, contains, occurs_at, chars_of, string_of_range, starts_with_str, contains_str};

verus! {

// ---------------------------------------------------------------------------
// Secret values: `env:VAR`, `file:/path`, inline `env:VAR` references, literals
// ---------------------------------------------------------------------------

/// Where a secret value comes from.
#[derive(Debug)]
pub enum SecretSource {
    /// The whole value names an environment variable (`env:VAR`).
    Env(String),
    /// The whole value names a file (`file:/path`), read without its trailing newlines.
    File(String),
    /// The value holds `env:VAR` references somewhere inside it, each replaced in turn.
    Inline,
    /// The value is used as it is.
    Literal,
}

/// How a secret value is resolved, by its form.
pub fn secret_source(value: &str) -> (r: SecretSource)
    ensures
        match r {
            SecretSource::Env(var) => starts_with(value@, "env:"@) && var@ == value@.skip(4),
            SecretSource::File(path) => !starts_with(value@, "env:"@) && starts_with(value@, "file:"@)
                && path@ == value@.skip(5),
            SecretSource::Inline => !starts_with(value@, "env:"@) && !starts_with(value@, "file:"@)
                && contains(value@, "env:"@),
            SecretSource::Literal => !starts_with(value@, "env:"@) && !starts_with(value@, "file:"@)
                && !contains(value@, "env:"@),
        },
{
    proof {
        reveal_strlit("env:");
        reveal_strlit("file:");
    }
    if starts_with_str(value, "env:") {
        let cs = chars_of(value);
        SecretSource::Env(string_of_range(&cs, 4, cs.len()))
    } else if starts_with_str(value, "file:") {
        let cs = chars_of(value);
        SecretSource::File(string_of_range(&cs, 5, cs.len()))
    } else if contains_str(value, "env:") {
        SecretSource::Inline
    } else {
        SecretSource::Literal
    }
}

/// The first position at or after `from` where `needle` occurs in `s`.
pub open spec fn find_text_from(s: Seq<char>, needle: Seq<char>, from: int) -> Option<int>
    decreases s.len() + 1 - from,
{
    if from < 0 || from + needle.len() > s.len() {
        None
    } else if occurs_at(s, needle, from) {
        Some(from)
    } else {
        find_text_from(s, needle, from + 1)
    }
}

/// A character that may appear in an environment variable's name in a reference.
pub open spec fn is_name_char(c: char) -> bool {
    is_ascii_alnum(c) || c == '_'
}

/// The end of the run of name characters that starts at `from`.
pub open spec fn name_end_from(s: Seq<char>, from: int) -> int
    decreases s.len() - from,
{
    if from < 0 || from >= s.len() {
        s.len() as int
    } else if !is_name_char(s[from]) {
        from
    } else {
        name_end_from(s, from + 1)
    }
}

/// The first inline `env:VAR` reference in `s`: the text before it, the variable's
/// name (the longest run of ASCII letters, digits and `_` after `env:`), and the
/// text after the name.
pub open spec fn env_ref(s: Seq<char>) -> Option<(Seq<char>, Seq<char>, Seq<char>)> {
    match find_text_from(s, "env:"@, 0) {
        None => None,
        Some(i) => {
            let e = name_end_from(s, i + 4);
            Some((s.take(i), s.subrange(i + 4, e), s.skip(e)))
        },
    }
}

pub proof fn lemma_find_text_occurs(s: Seq<char>, needle: Seq<char>, from: int)
    ensures
        match find_text_from(s, needle, from) {
            Some(i) => from <= i && occurs_at(s, needle, i),
            None => true,
        },
    decreases s.len() + 1 - from,
{
    if !(from < 0 || from + needle.len() > s.len()) && !occurs_at(s, needle, from) {
        lemma_find_text_occurs(s, needle, from + 1);
    }
}

pub proof fn lemma_name_end_bounds(s: Seq<char>, from: int)
    requires
        0 <= from <= s.len(),
    ensures
        from <= name_end_from(s, from) <= s.len(),
    decreases s.len() - from,
{
    if from < s.len() && is_name_char(s[from]) {
        lemma_name_end_bounds(s, from + 1);
    }
}

/// An inline reference splits its text exactly: the text before it, `env:`, the
/// variable's name and the text after the name make up the whole text; the name is
/// made of name characters, and the text after it does not start with one.
pub proof fn lemma_env_ref_split(s: Seq<char>)
    ensures
        env_ref(s) matches Some((before, var, after)) ==> {
            &&& s == before + "env:"@ + var + after
            &&& forall|j: int| 0 <= j < var.len() ==> is_name_char(#[trigger] var[j])
            &&& after.len() == 0 || !is_name_char(after[0])
        },
{
    reveal_strlit("env:");
    lemma_find_text_occurs(s, "env:"@, 0);
    if let Some(i) = find_text_from(s, "env:"@, 0) {
        let e = name_end_from(s, i + 4);
        lemma_name_end_bounds(s, i + 4);
        lemma_name_run(s, i + 4);
        assert(s.subrange(i, i + 4) == "env:"@);
        assert(s =~= s.take(i) + s.subrange(i, i + 4) + s.subrange(i + 4, e) + s.skip(e));
        assert forall|j: int| 0 <= j < s.subrange(i + 4, e).len() implies is_name_char(#[trigger] s.subrange(i + 4, e)[j]) by {
            assert(s.subrange(i + 4, e)[j] == s[i + 4 + j]);
        }
        if e < s.len() {
            assert(s.skip(e)[0] == s[e]);
        }
    }
}

/// The run of name characters from `from` ends at a character that is not one (or at
/// the end), and holds only name characters.
pub proof fn lemma_name_run(s: Seq<char>, from: int)
    requires
        0 <= from <= s.len(),
    ensures
        forall|j: int| from <= j < name_end_from(s, from) ==> is_name_char(#[trigger] s[j]),
        name_end_from(s, from) < s.len() ==> !is_name_char(s[name_end_from(s, from)]),
    decreases s.len() - from,
{
    if from < s.len() && is_name_char(s[from]) {
        lemma_name_run(s, from + 1);
    }
}

/// The first inline `env:VAR` reference in `s`, split into the text before it, the
/// variable's name and the text after the name.
pub fn next_env_ref(s: &str) -> (r: Option<(String, String, String)>)
    ensures
        match r {
            Some((before, var, after)) => env_ref(s@) == Some((before@, var@, after@)),
            None => env_ref(s@) is None,
        },
{
    proof {
        reveal_strlit("env:");
    }
    let cs = chars_of(s);
    let n = cs.len();
    let ghost needle = "env:"@;
    assert(needle =~= seq!['e', 'n', 'v', ':']);
    let mut i: usize = 0;
    while n >= 4 && i <= n - 4
        invariant
            cs@ == s@,
            n == cs@.len(),
            needle == seq!['e', 'n', 'v', ':'],
            needle == "env:"@,
            find_text_from(s@, needle, 0) == find_text_from(s@, needle, i as int),
        decreases n - i,
    {
        if cs[i] == 'e' && cs[i + 1] == 'n' && cs[i + 2] == 'v' && cs[i + 3] == ':' {
            assert(s@.subrange(i as int, i + 4) =~= needle);
            assert(occurs_at(s@, needle, i as int));
            let start = i + 4;
            let mut e: usize = start;
            proof {
                lemma_name_end_bounds(s@, start as int);
            }
            while e < n && (crate::text::is_ascii_alnum_char(cs[e]) || cs[e] == '_')
                invariant
                    cs@ == s@,
                    n == cs@.len(),
                    start <= e <= n,
                    name_end_from(s@, start as int) == name_end_from(s@, e as int),
                decreases n - e,
            {
                e = e + 1;
            }
            let before = string_of_range(&cs, 0, i);
            let var = string_of_range(&cs, start, e);
            let after = string_of_range(&cs, e, n);
            assert(before@ =~= s@.take(i as int));
            assert(after@ =~= s@.skip(e as int));
            return Some((before, var, after));
        }
        assert(!occurs_at(s@, needle, i as int)) by {
            if occurs_at(s@, needle, i as int) {
                assert(s@.subrange(i as int, i + 4)[0] == needle[0]);
                assert(s@.subrange(i as int, i + 4)[1] == needle[1]);
                assert(s@.subrange(i as int, i + 4)[2] == needle[2]);
                assert(s@.subrange(i as int, i + 4)[3] == needle[3]);
            }
        }
        i = i + 1;
    }
    None
}

} // verus!
