use vstd::prelude::*;
use crate::text::{is_ascii_lower, is_ascii_digit, is_ascii_upper, lowercase, replace_char, replace_char_str, to_lowercase, all_ascii, ascii_lowered, ascii_lower_char};

verus! {

/// The text that the pattern `([a-z0-9])([A-Z])`, replaced everywhere by `${1}-${2}`,
/// makes of `s`: a hyphen between a lower-case letter or digit and the upper-case
/// letter after it, matches taken left to right without overlap.
pub open spec fn camel_split(s: Seq<char>) -> Seq<char>
    decreases s.len(),
{
    if s.len() >= 2 && (is_ascii_lower(s[0]) || is_ascii_digit(s[0])) && is_ascii_upper(s[1]) {
        seq![s[0], '-', s[1]] + camel_split(s.skip(2))
    } else if s.len() == 0 {
        s
    } else {
        seq![s[0]] + camel_split(s.drop_first())
    }
}

/// `to_kebab`: camelCase split, `_` turned into `-`, then lower-cased.
pub open spec fn kebab(s: Seq<char>) -> Seq<char> {
    lowercase(replace_char(camel_split(s), '_', '-'))
}

/// `kebab` on ASCII text, where lower-casing is ASCII lower-casing.
pub open spec fn ascii_kebab(s: Seq<char>) -> Seq<char> {
    ascii_lowered(replace_char(camel_split(s), '_', '-'))
}

proof fn lemma_camel_split_ascii(s: Seq<char>)
    requires
        all_ascii(s),
    ensures
        all_ascii(camel_split(s)),
    decreases s.len(),
{
    if s.len() >= 2 && (is_ascii_lower(s[0]) || is_ascii_digit(s[0])) && is_ascii_upper(s[1]) {
        lemma_camel_split_ascii(s.skip(2));
        let t = seq![s[0], '-', s[1]] + camel_split(s.skip(2));
        assert forall|i: int| 0 <= i < t.len() implies (#[trigger] t[i] as u32) < 128 by {
            if i >= 3 {
                assert(t[i] == camel_split(s.skip(2))[i - 3]);
            }
        }
    } else if s.len() > 0 {
        lemma_camel_split_ascii(s.drop_first());
        let t = seq![s[0]] + camel_split(s.drop_first());
        assert forall|i: int| 0 <= i < t.len() implies (#[trigger] t[i] as u32) < 128 by {
            if i >= 1 {
                assert(t[i] == camel_split(s.drop_first())[i - 1]);
            }
        }
    }
}

proof fn lemma_camel_split_plain(s: Seq<char>)
    requires
        forall|i: int| 0 <= i < s.len() ==> !is_ascii_upper(#[trigger] s[i]),
    ensures
        camel_split(s) == s,
    decreases s.len(),
{
    if s.len() > 0 {
        assert(!is_ascii_upper(s[1]) || s.len() < 2);
        lemma_camel_split_plain(s.drop_first());
        assert(seq![s[0]] + s.drop_first() =~= s);
    }
}

/// Law: on ASCII text, the kebab-case name has no upper-case letter and no `_`, and
/// making it kebab-case again leaves it as it is.
pub proof fn lemma_kebab_idempotent(s: Seq<char>)
    requires
        all_ascii(s),
    ensures
        forall|i: int| 0 <= i < ascii_kebab(s).len() ==>
            !is_ascii_upper(#[trigger] ascii_kebab(s)[i]) && ascii_kebab(s)[i] != '_',
        all_ascii(ascii_kebab(s)),
        ascii_kebab(ascii_kebab(s)) == ascii_kebab(s),
{
    lemma_camel_split_ascii(s);
    let k = ascii_kebab(s);
    let r = replace_char(camel_split(s), '_', '-');
    assert forall|i: int| 0 <= i < k.len() implies
        !is_ascii_upper(#[trigger] k[i]) && k[i] != '_' && (k[i] as u32) < 128 by {
        let c = r[i];
        assert((camel_split(s)[i] as u32) < 128);
        assert(k[i] == ascii_lower_char(c));
        if is_ascii_upper(c) {
            assert(((c as u32) + 32) as char == k[i]);
            assert(97 <= (k[i] as u32) <= 122);
        }
    }
    lemma_camel_split_plain(k);
    assert(replace_char(k, '_', '-') =~= k);
    assert(ascii_lowered(k) =~= k) by {
        assert forall|i: int| 0 <= i < k.len() implies ascii_lower_char(#[trigger] k[i]) == k[i] by {
            assert(!is_ascii_upper(k[i]));
        }
    }
}

/// `s` without the characters `a` and `b`.
pub open spec fn without_chars(s: Seq<char>, a: char, b: char) -> Seq<char>
    decreases s.len(),
{
    if s.len() == 0 {
        s
    } else if s[0] == a || s[0] == b {
        without_chars(s.drop_first(), a, b)
    } else {
        seq![s[0]] + without_chars(s.drop_first(), a, b)
    }
}

proof fn lemma_without_camel_split(s: Seq<char>)
    ensures
        without_chars(camel_split(s), '_', '-') == without_chars(s, '_', '-'),
    decreases s.len(),
{
    if s.len() >= 2 && (is_ascii_lower(s[0]) || is_ascii_digit(s[0])) && is_ascii_upper(s[1]) {
        lemma_without_camel_split(s.skip(2));
        let rest = camel_split(s.skip(2));
        let t = seq![s[0], '-', s[1]] + rest;
        let t1 = seq!['-', s[1]] + rest;
        let t2 = seq![s[1]] + rest;
        assert(t.drop_first() =~= t1);
        assert(t1.drop_first() =~= t2);
        assert(t2.drop_first() =~= rest);
        assert(t[0] == s[0] && t1[0] == '-' && t2[0] == s[1]);
        assert(s[0] != '_' && s[0] != '-' && s[1] != '_' && s[1] != '-');
        assert(without_chars(t2, '_', '-') == seq![s[1]] + without_chars(rest, '_', '-'));
        assert(without_chars(t1, '_', '-') == without_chars(t2, '_', '-'));
        assert(without_chars(t, '_', '-') == seq![s[0]] + without_chars(t1, '_', '-'));
        assert(s.drop_first().drop_first() =~= s.skip(2));
        assert(s.drop_first()[0] == s[1]);
        assert(without_chars(s.drop_first(), '_', '-') == seq![s[1]] + without_chars(s.skip(2), '_', '-'));
        assert(without_chars(s, '_', '-') == seq![s[0]] + without_chars(s.drop_first(), '_', '-'));
        assert(camel_split(s) == t);
        assert(without_chars(camel_split(s), '_', '-') =~= without_chars(s, '_', '-'));
    } else if s.len() > 0 {
        lemma_without_camel_split(s.drop_first());
        let t = seq![s[0]] + camel_split(s.drop_first());
        assert(t.drop_first() =~= camel_split(s.drop_first()));
    }
}

proof fn lemma_without_replace(t: Seq<char>)
    ensures
        without_chars(replace_char(t, '_', '-'), '-', '-') == without_chars(t, '_', '-'),
    decreases t.len(),
{
    if t.len() > 0 {
        lemma_without_replace(t.drop_first());
        assert(replace_char(t, '_', '-').drop_first() =~= replace_char(t.drop_first(), '_', '-'));
    }
}

proof fn lemma_without_lowered(t: Seq<char>)
    ensures
        without_chars(ascii_lowered(t), '-', '-') == ascii_lowered(without_chars(t, '-', '-')),
    decreases t.len(),
{
    if t.len() > 0 {
        lemma_without_lowered(t.drop_first());
        assert(ascii_lowered(t).drop_first() =~= ascii_lowered(t.drop_first()));
        if t[0] != '-' && is_ascii_upper(t[0]) {
            assert(97 <= (ascii_lower_char(t[0]) as u32) <= 122);
        }
        if t[0] != '-' {
            assert(ascii_lowered(seq![t[0]] + without_chars(t.drop_first(), '-', '-'))
                =~= seq![ascii_lower_char(t[0])] + ascii_lowered(without_chars(t.drop_first(), '-', '-')));
        }
    }
}

/// Law: kebab case only inserts hyphens: the kebab-case name without its hyphens is
/// the name without its `_` and `-`, lower-cased.
pub proof fn lemma_kebab_only_adds_hyphens(s: Seq<char>)
    ensures
        without_chars(ascii_kebab(s), '-', '-') == ascii_lowered(without_chars(s, '_', '-')),
{
    let r = replace_char(camel_split(s), '_', '-');
    lemma_without_lowered(r);
    lemma_without_replace(camel_split(s));
    lemma_without_camel_split(s);
}

/// Runs `regex::Regex::replace_all` with the pattern `([a-z0-9])([A-Z])` and the
/// replacement `${1}-${2}`; the contract states what that regular expression does.
#[verifier::external_body]
fn split_camel_case(name: &str) -> (r: String)
    ensures
        r@ == camel_split(name@),
{
    let re = regex::Regex::new(r"([a-z0-9])([A-Z])").unwrap();
    re.replace_all(name, "${1}-${2}").into_owned()
}

/// Convert camelCase or snake_case to kebab-case.
pub fn to_kebab(name: &str) -> (r: String)
    ensures
        r@ == kebab(name@),
        all_ascii(name@) ==> r@ == ascii_kebab(name@),
{
    // camelCase -> camel-Case
    let s = split_camel_case(name);
    // snake_case -> snake-case, then lowercase
    let t = replace_char_str(s.as_str(), '_', '-');
    proof {
        if all_ascii(name@) {
            lemma_camel_split_ascii(name@);
            assert(all_ascii(t@)) by {
                assert forall|i: int| 0 <= i < t@.len() implies (#[trigger] t@[i] as u32) < 128 by {
                    assert((s@[i] as u32) < 128);
                }
            }
        }
    }
    to_lowercase(t.as_str())
}

} // verus!
