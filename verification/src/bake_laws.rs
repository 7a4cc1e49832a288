use vstd::prelude::*;
use crate::bake::{
    BakeConfigView, update_allowed, flag_step, parse_from, parse_bake_spec, value_at, baked_argv, empty_config,
    flag_each, opt_flag, env_args, source_flag, clean_parts, cache_args, oauth_args,
};
use crate::strmap::{map_insert, keys_unique, index_of_key, lemma_index_of_key};
use crate::text::{
    split, split_once, find_char, find_char_from, lemma_find_char_from_bounds, trim, trim_start,
    trim_end, is_white, nat_text, parse_u64_spec, is_ascii_digit, lemma_nat_text,
};

verus! {

/// A step that succeeds on `x` does the same on `x + y`.
proof fn lemma_flag_step_prefix(x: Seq<Seq<char>>, y: Seq<Seq<char>>, k: int, c: BakeConfigView)
    requires
        0 <= k < x.len(),
        flag_step(x, k, c) is Ok,
    ensures
        flag_step(x + y, k, c) == flag_step(x, k, c),
        k < flag_step(x, k, c)->Ok_0.1 <= x.len(),
{
    assert((x + y)[k] == x[k]);
    if k + 1 < x.len() {
        assert((x + y)[k + 1] == x[k + 1]);
    }
}

/// Reading `x + y` reads `x` first, then `y` from where `x` left the configuration.
proof fn lemma_parse_concat(x: Seq<Seq<char>>, y: Seq<Seq<char>>, k: int, c: BakeConfigView)
    requires
        0 <= k <= x.len(),
        parse_from(x, k, c, false) is Ok,
    ensures
        parse_from(x + y, k, c, false) == parse_from(x + y, x.len() as int, parse_from(x, k, c, false)->Ok_0, false),
    decreases x.len() - k,
{
    if k < x.len() {
        lemma_flag_step_prefix(x, y, k, c);
        let (c2, j) = flag_step(x, k, c)->Ok_0;
        lemma_parse_concat(x, y, j, c2);
    }
}

/// Reading `x + y` from the end of `x` is reading `y` from its start.
proof fn lemma_parse_shift(x: Seq<Seq<char>>, y: Seq<Seq<char>>, k: int, c: BakeConfigView)
    requires
        0 <= k <= y.len(),
    ensures
        parse_from(x + y, x.len() + k, c, false) == parse_from(y, k, c, false),
    decreases y.len() - k,
{
    if k < y.len() {
        let a = x + y;
        assert(a[x.len() + k] == y[k]);
        if k + 1 < y.len() {
            assert(a[x.len() + k + 1] == y[k + 1]);
        }
        assert(value_at(a, x.len() + k + 1) == value_at(y, k + 1));
        assert(flag_step(a, x.len() + k, c) matches Ok((c2, j)) ==> flag_step(y, k, c) == Ok::<(BakeConfigView, int), crate::error::ErrorView>((c2, j - x.len())));
        match flag_step(y, k, c) {
            Ok((c2, j)) => {
                if j > k && j <= y.len() {
                    lemma_parse_shift(x, y, j, c2);
                }
            },
            Err(_) => {},
        }
    }
}

proof fn lemma_parse_seq_concat(x: Seq<Seq<char>>, y: Seq<Seq<char>>, c: BakeConfigView)
    requires
        parse_from(x, 0, c, false) is Ok,
    ensures
        parse_from(x + y, 0, c, false) == parse_from(y, 0, parse_from(x, 0, c, false)->Ok_0, false),
{
    lemma_parse_concat(x, y, 0, c);
    lemma_parse_shift(x, y, 0, parse_from(x, 0, c, false)->Ok_0);
}

proof fn lemma_no_char_find(s: Seq<char>, c: char)
    requires
        forall|i: int| 0 <= i < s.len() ==> s[i] != c,
    ensures
        find_char(s, c) is None,
{
    lemma_find_char_from_bounds(s, c, 0);
}

proof fn lemma_split_once_at(k: Seq<char>, v: Seq<char>, c: char)
    requires
        forall|i: int| 0 <= i < k.len() ==> k[i] != c,
    ensures
        split_once(k + seq![c] + v, c) == Some((k, v)),
{
    let s = k + seq![c] + v;
    lemma_find_char_from_bounds(s, c, 0);
    assert(s[k.len() as int] == c);
    match find_char(s, c) {
        Some(i) => {
            if i < k.len() {
                assert(s[i] == k[i]);
            }
            assert(i == k.len());
        },
        None => {},
    }
    assert(s.take(k.len() as int) =~= k);
    assert(s.skip(k.len() as int + 1) =~= v);
}

/// An item without commas and without surrounding white space passes through the
/// comma split unchanged.
proof fn lemma_clean_single(p: Seq<char>)
    requires
        p.len() > 0,
        trim(p) == p,
        forall|i: int| 0 <= i < p.len() ==> p[i] != ',',
    ensures
        clean_parts(p) == seq![p],
{
    lemma_no_char_find(p, ',');
    assert(split(p, ',') == seq![p]);
    let m = seq![p].map_values(|x: Seq<char>| trim(x));
    assert(m =~= seq![p]);
    reveal_with_fuel(Seq::filter, 2);
    assert(seq![p].drop_last() =~= Seq::<Seq<char>>::empty());
}

proof fn lemma_parse_nat_text(n: u64)
    ensures
        parse_u64_spec(nat_text(n as nat)) == Some(n),
{
    lemma_nat_text(n as nat);
    let t = nat_text(n as nat);
    assert(is_ascii_digit(t[0]));
}

/// A two-item command line read in one step.
proof fn lemma_parse_pair(a: Seq<char>, v: Seq<char>, c: BakeConfigView)
    requires
        flag_step(seq![a, v], 0, c) matches Ok((_, j)) && j == 2,
    ensures
        parse_from(seq![a, v], 0, c, false) == Ok::<BakeConfigView, crate::error::ErrorView>(flag_step(seq![a, v], 0, c)->Ok_0.0),
{
    reveal_with_fuel(parse_from, 2);
}

proof fn lemma_seg_auth(hs: Seq<Seq<char>>, c: BakeConfigView)
    requires
        forall|i: int| 0 <= i < hs.len() ==> (#[trigger] split_once(hs[i], ':')) is Some,
    ensures
        parse_from(flag_each("--auth-header"@, hs), 0, c, false) == Ok::<BakeConfigView, crate::error::ErrorView>(
            BakeConfigView { auth_headers: c.auth_headers + hs, ..c },
        ),
    decreases hs.len(),
{
    if hs.len() == 0 {
        assert(c.auth_headers + hs =~= c.auth_headers);
    } else {
        let front = hs.drop_last();
        assert forall|i: int| 0 <= i < front.len() implies (#[trigger] split_once(front[i], ':')) is Some by {
            assert(front[i] == hs[i]);
            assert(split_once(hs[i], ':') is Some);
        }
        lemma_seg_auth(front, c);
        let c1 = BakeConfigView { auth_headers: c.auth_headers + front, ..c };
        lemma_parse_seq_concat(flag_each("--auth-header"@, front), seq!["--auth-header"@, hs.last()], c);
        assert(split_once(hs[hs.len() - 1], ':') is Some);
        reveal_strlit("--oauth");
        reveal_strlit("--mcp");
        reveal_strlit("--mcp-stdio");
        reveal_strlit("--spec");
        reveal_strlit("--graphql");
        reveal_strlit("--auth-header");
        lemma_parse_pair("--auth-header"@, hs.last(), c1);
        assert(c1.auth_headers.push(hs.last()) =~= c.auth_headers + hs);
    }
}

proof fn lemma_seg_methods(ms: Seq<Seq<char>>, c: BakeConfigView)
    ensures
        parse_from(flag_each("--methods"@, ms), 0, c, false) == Ok::<BakeConfigView, crate::error::ErrorView>(
            BakeConfigView { methods: c.methods + ms, ..c },
        ),
    decreases ms.len(),
{
    if ms.len() == 0 {
        assert(c.methods + ms =~= c.methods);
    } else {
        let front = ms.drop_last();
        lemma_seg_methods(front, c);
        let c1 = BakeConfigView { methods: c.methods + front, ..c };
        lemma_parse_seq_concat(flag_each("--methods"@, front), seq!["--methods"@, ms.last()], c);
        reveal_flags();
        lemma_parse_pair("--methods"@, ms.last(), c1);
        assert(c1.methods.push(ms.last()) =~= c.methods + ms);
    }
}

pub open spec fn clean_item(p: Seq<char>) -> bool {
    &&& p.len() > 0
    &&& trim(p) == p
    &&& forall|i: int| 0 <= i < p.len() ==> p[i] != ','
}

proof fn lemma_seg_includes(ps: Seq<Seq<char>>, c: BakeConfigView)
    requires
        forall|i: int| 0 <= i < ps.len() ==> clean_item(#[trigger] ps[i]),
    ensures
        parse_from(flag_each("--include"@, ps), 0, c, false) == Ok::<BakeConfigView, crate::error::ErrorView>(
            BakeConfigView { includes: c.includes + ps, ..c },
        ),
    decreases ps.len(),
{
    if ps.len() == 0 {
        assert(c.includes + ps =~= c.includes);
    } else {
        let front = ps.drop_last();
        assert forall|i: int| 0 <= i < front.len() implies clean_item(#[trigger] front[i]) by {
            assert(front[i] == ps[i]);
        }
        lemma_seg_includes(front, c);
        let c1 = BakeConfigView { includes: c.includes + front, ..c };
        lemma_parse_seq_concat(flag_each("--include"@, front), seq!["--include"@, ps.last()], c);
        assert(clean_item(ps[ps.len() - 1]));
        lemma_clean_single(ps.last());
        reveal_flags();
        lemma_parse_pair("--include"@, ps.last(), c1);
        assert(c1.includes + seq![ps.last()] =~= c.includes + ps);
    }
}

proof fn lemma_seg_exclude(ps: Seq<Seq<char>>, c: BakeConfigView)
    requires
        forall|i: int| 0 <= i < ps.len() ==> clean_item(#[trigger] ps[i]),
    ensures
        parse_from(flag_each("--exclude"@, ps), 0, c, false) == Ok::<BakeConfigView, crate::error::ErrorView>(
            BakeConfigView { exclude: c.exclude + ps, ..c },
        ),
    decreases ps.len(),
{
    if ps.len() == 0 {
        assert(c.exclude + ps =~= c.exclude);
    } else {
        let front = ps.drop_last();
        assert forall|i: int| 0 <= i < front.len() implies clean_item(#[trigger] front[i]) by {
            assert(front[i] == ps[i]);
        }
        lemma_seg_exclude(front, c);
        let c1 = BakeConfigView { exclude: c.exclude + front, ..c };
        lemma_parse_seq_concat(flag_each("--exclude"@, front), seq!["--exclude"@, ps.last()], c);
        assert(clean_item(ps[ps.len() - 1]));
        lemma_clean_single(ps.last());
        reveal_flags();
        lemma_parse_pair("--exclude"@, ps.last(), c1);
        assert(c1.exclude + seq![ps.last()] =~= c.exclude + ps);
    }
}

pub open spec fn env_key_ok(k: Seq<char>) -> bool {
    forall|i: int| 0 <= i < k.len() ==> k[i] != '='
}

proof fn lemma_seg_env(env: Seq<(Seq<char>, Seq<char>)>, c: BakeConfigView)
    requires
        keys_unique(c.env_vars + env),
        forall|i: int| 0 <= i < env.len() ==> env_key_ok(#[trigger] env[i].0),
    ensures
        parse_from(env_args(env), 0, c, false) == Ok::<BakeConfigView, crate::error::ErrorView>(
            BakeConfigView { env_vars: c.env_vars + env, ..c },
        ),
    decreases env.len(),
{
    if env.len() == 0 {
        assert(c.env_vars + env =~= c.env_vars);
    } else {
        let front = env.drop_last();
        let last = env.last();
        assert(c.env_vars + env == (c.env_vars + front).push(last)) by {
            assert(c.env_vars + env =~= (c.env_vars + front).push(last));
        }
        assert forall|i: int, j: int| 0 <= i < j < (c.env_vars + front).len() implies (#[trigger] (c.env_vars + front)[i]).0 != (#[trigger] (c.env_vars + front)[j]).0 by {
            assert((c.env_vars + front)[i] == (c.env_vars + env)[i]);
            assert((c.env_vars + front)[j] == (c.env_vars + env)[j]);
        }
        assert forall|i: int| 0 <= i < front.len() implies env_key_ok(#[trigger] front[i].0) by {
            assert(front[i] == env[i]);
        }
        lemma_seg_env(front, c);
        let e1 = c.env_vars + front;
        let c1 = BakeConfigView { env_vars: e1, ..c };
        let kv = last.0 + "="@ + last.1;
        lemma_parse_seq_concat(env_args(front), seq!["--env"@, kv], c);
        reveal_strlit("=");
        assert(env_key_ok(env[env.len() - 1].0));
        lemma_split_once_at(last.0, last.1, '=');
        assert(kv == last.0 + seq!['='] + last.1);
        lemma_index_of_key(e1, last.0);
        assert(index_of_key(e1, last.0) is None) by {
            match index_of_key(e1, last.0) {
                Some(m) => {
                    let full = c.env_vars + env;
                    assert(full[m] == e1[m]);
                    assert(full[full.len() - 1] == last);
                },
                None => {},
            }
        }
        assert(map_insert(e1, last.0, last.1) == e1.push(last));
        reveal_flags();
        lemma_parse_pair("--env"@, kv, c1);
    }
}

proof fn lemma_parse_empty(c: BakeConfigView)
    ensures
        parse_from(Seq::<Seq<char>>::empty(), 0, c, false) == Ok::<BakeConfigView, crate::error::ErrorView>(c),
{
}

proof fn lemma_seg_opt(flag: Seq<char>, v: Option<Seq<char>>, c: BakeConfigView)
    requires
        v matches Some(x) ==> (flag_step(seq![flag, x], 0, c) matches Ok((_, j)) && j == 2),
    ensures
        parse_from(opt_flag(flag, v), 0, c, false) == match v {
            Some(x) => Ok::<BakeConfigView, crate::error::ErrorView>(flag_step(seq![flag, x], 0, c)->Ok_0.0),
            None => Ok::<BakeConfigView, crate::error::ErrorView>(c),
        },
{
    match v {
        Some(x) => {
            lemma_parse_pair(flag, x, c);
        },
        None => {
            lemma_parse_empty(c);
        },
    }
}

proof fn lemma_chain(a: Seq<Seq<char>>, seg: Seq<Seq<char>>, e: BakeConfigView, cp: BakeConfigView, cn: BakeConfigView)
    requires
        parse_from(a, 0, e, false) == Ok::<BakeConfigView, crate::error::ErrorView>(cp),
        parse_from(seg, 0, cp, false) == Ok::<BakeConfigView, crate::error::ErrorView>(cn),
    ensures
        parse_from(a + seg, 0, e, false) == Ok::<BakeConfigView, crate::error::ErrorView>(cn),
{
    lemma_parse_seq_concat(a, seg, e);
}

proof fn lemma_seg_source(c: BakeConfigView)
    requires
        c.source_type == "mcp"@ || c.source_type == "mcp_stdio"@ || c.source_type == "spec"@
            || c.source_type == "graphql"@,
    ensures
        parse_from(seq![source_flag(c.source_type), c.source], 0, empty_config(), false)
            == Ok::<BakeConfigView, crate::error::ErrorView>(
            BakeConfigView { source_type: c.source_type, source: c.source, ..empty_config() },
        ),
{
    reveal_flags();
    reveal_strlit("mcp");
    reveal_strlit("mcp_stdio");
    reveal_strlit("spec");
    reveal_strlit("graphql");
    lemma_parse_pair(source_flag(c.source_type), c.source, empty_config());
}

proof fn lemma_seg_transport(v: Option<Seq<char>>, c: BakeConfigView)
    ensures
        parse_from(opt_flag("--transport"@, v), 0, c, false) == Ok::<BakeConfigView, crate::error::ErrorView>(
            BakeConfigView { transport: or_keep(v, c.transport), ..c },
        ),
{
    reveal_flags();
    lemma_seg_opt("--transport"@, v, c);
}

proof fn lemma_seg_client_id(v: Option<Seq<char>>, c: BakeConfigView)
    ensures
        parse_from(opt_flag("--oauth-client-id"@, v), 0, c, false) == Ok::<BakeConfigView, crate::error::ErrorView>(
            BakeConfigView { oauth_client_id: or_keep(v, c.oauth_client_id), ..c },
        ),
{
    reveal_flags();
    lemma_seg_opt("--oauth-client-id"@, v, c);
}

proof fn lemma_seg_client_secret(v: Option<Seq<char>>, c: BakeConfigView)
    ensures
        parse_from(opt_flag("--oauth-client-secret"@, v), 0, c, false) == Ok::<BakeConfigView, crate::error::ErrorView>(
            BakeConfigView { oauth_client_secret: or_keep(v, c.oauth_client_secret), ..c },
        ),
{
    reveal_flags();
    lemma_seg_opt("--oauth-client-secret"@, v, c);
}

proof fn lemma_seg_scope(v: Option<Seq<char>>, c: BakeConfigView)
    ensures
        parse_from(opt_flag("--oauth-scope"@, v), 0, c, false) == Ok::<BakeConfigView, crate::error::ErrorView>(
            BakeConfigView { oauth_scope: or_keep(v, c.oauth_scope), ..c },
        ),
{
    reveal_flags();
    lemma_seg_opt("--oauth-scope"@, v, c);
}

proof fn lemma_seg_base_url(v: Option<Seq<char>>, c: BakeConfigView)
    ensures
        parse_from(opt_flag("--base-url"@, v), 0, c, false) == Ok::<BakeConfigView, crate::error::ErrorView>(
            BakeConfigView { base_url: or_keep(v, c.base_url), ..c },
        ),
{
    reveal_flags();
    lemma_seg_opt("--base-url"@, v, c);
}

pub open spec fn or_keep(v: Option<Seq<char>>, prev: Option<Seq<char>>) -> Option<Seq<char>> {
    match v {
        Some(x) => Some(x),
        None => prev,
    }
}

proof fn lemma_seg_cache(t: Option<u64>, c: BakeConfigView)
    ensures
        parse_from(cache_args(t), 0, c, false) == Ok::<BakeConfigView, crate::error::ErrorView>(
            match t {
                Some(n) => BakeConfigView { cache_ttl: Some(n), ..c },
                None => c,
            },
        ),
{
    reveal_flags();
    match t {
        Some(n) => {
            lemma_parse_nat_text(n);
            lemma_parse_pair("--cache-ttl"@, nat_text(n as nat), c);
        },
        None => {
            lemma_parse_empty(c);
        },
    }
}

proof fn lemma_seg_oauth(o: Option<bool>, c: BakeConfigView)
    ensures
        parse_from(oauth_args(o), 0, c, false) == Ok::<BakeConfigView, crate::error::ErrorView>(
            if o == Some(true) { BakeConfigView { oauth: Some(true), ..c } } else { c },
        ),
{
    reveal_flags();
    if o == Some(true) {
        reveal_with_fuel(parse_from, 2);
    } else {
        lemma_parse_empty(c);
    }
}

/// The source, the headers, the transport and the cache lifetime, read from nothing.
proof fn lemma_group_head(c: BakeConfigView)
    requires
        c.source_type == "mcp"@ || c.source_type == "mcp_stdio"@ || c.source_type == "spec"@
            || c.source_type == "graphql"@,
        forall|i: int| 0 <= i < c.auth_headers.len() ==> (#[trigger] split_once(c.auth_headers[i], ':')) is Some,
    ensures
        parse_from(
            seq![source_flag(c.source_type), c.source] + flag_each("--auth-header"@, c.auth_headers)
                + opt_flag("--transport"@, c.transport) + cache_args(c.cache_ttl),
            0,
            empty_config(),
            false,
        ) == Ok::<BakeConfigView, crate::error::ErrorView>(
            BakeConfigView {
                source_type: c.source_type,
                source: c.source,
                auth_headers: c.auth_headers,
                transport: c.transport,
                cache_ttl: c.cache_ttl,
                ..empty_config()
            },
        ),
{
    let e = empty_config();
    let s0 = seq![source_flag(c.source_type), c.source];
    let s1 = flag_each("--auth-header"@, c.auth_headers);
    let s2 = opt_flag("--transport"@, c.transport);
    let s3 = cache_args(c.cache_ttl);
    lemma_seg_source(c);
    let c0 = BakeConfigView { source_type: c.source_type, source: c.source, ..e };
    lemma_seg_auth(c.auth_headers, c0);
    assert(c0.auth_headers + c.auth_headers =~= c.auth_headers);
    let c1 = BakeConfigView { auth_headers: c.auth_headers, ..c0 };
    lemma_chain(s0, s1, e, c0, c1);
    lemma_seg_transport(c.transport, c1);
    let c2 = BakeConfigView { transport: c.transport, ..c1 };
    lemma_chain(s0 + s1, s2, e, c1, c2);
    lemma_seg_cache(c.cache_ttl, c2);
    let c3 = BakeConfigView { cache_ttl: c.cache_ttl, ..c2 };
    lemma_chain(s0 + s1 + s2, s3, e, c2, c3);
}

/// The OAuth flags, read after a prefix `a` that reads into `d`.
proof fn lemma_group_oauth(c: BakeConfigView, a: Seq<Seq<char>>, e: BakeConfigView, d: BakeConfigView)
    requires
        parse_from(a, 0, e, false) == Ok::<BakeConfigView, crate::error::ErrorView>(d),
    ensures
        parse_from(
            a + oauth_args(c.oauth) + opt_flag("--oauth-client-id"@, c.oauth_client_id)
                + opt_flag("--oauth-client-secret"@, c.oauth_client_secret)
                + opt_flag("--oauth-scope"@, c.oauth_scope),
            0,
            e,
            false,
        ) == Ok::<BakeConfigView, crate::error::ErrorView>(
            BakeConfigView {
                oauth: if c.oauth == Some(true) { Some(true) } else { d.oauth },
                oauth_client_id: or_keep(c.oauth_client_id, d.oauth_client_id),
                oauth_client_secret: or_keep(c.oauth_client_secret, d.oauth_client_secret),
                oauth_scope: or_keep(c.oauth_scope, d.oauth_scope),
                ..d
            },
        ),
{
    let s4 = oauth_args(c.oauth);
    let s5 = opt_flag("--oauth-client-id"@, c.oauth_client_id);
    let s6 = opt_flag("--oauth-client-secret"@, c.oauth_client_secret);
    let s7 = opt_flag("--oauth-scope"@, c.oauth_scope);
    lemma_seg_oauth(c.oauth, d);
    let d4 = BakeConfigView { oauth: if c.oauth == Some(true) { Some(true) } else { d.oauth }, ..d };
    assert(d4 == (if c.oauth == Some(true) { BakeConfigView { oauth: Some(true), ..d } } else { d }));
    lemma_chain(a, s4, e, d, d4);
    lemma_seg_client_id(c.oauth_client_id, d4);
    let d5 = BakeConfigView { oauth_client_id: or_keep(c.oauth_client_id, d.oauth_client_id), ..d4 };
    lemma_chain(a + s4, s5, e, d4, d5);
    lemma_seg_client_secret(c.oauth_client_secret, d5);
    let d6 = BakeConfigView { oauth_client_secret: or_keep(c.oauth_client_secret, d.oauth_client_secret), ..d5 };
    lemma_chain(a + s4 + s5, s6, e, d5, d6);
    lemma_seg_scope(c.oauth_scope, d6);
    let d7 = BakeConfigView { oauth_scope: or_keep(c.oauth_scope, d.oauth_scope), ..d6 };
    lemma_chain(a + s4 + s5 + s6, s7, e, d6, d7);
}

/// The filters, the base URL and the environment, read after a prefix `a` that reads
/// into `d`.
proof fn lemma_group_tail(c: BakeConfigView, a: Seq<Seq<char>>, e: BakeConfigView, d: BakeConfigView)
    requires
        parse_from(a, 0, e, false) == Ok::<BakeConfigView, crate::error::ErrorView>(d),
        forall|i: int| 0 <= i < c.includes.len() ==> clean_item(#[trigger] c.includes[i]),
        forall|i: int| 0 <= i < c.exclude.len() ==> clean_item(#[trigger] c.exclude[i]),
        keys_unique(d.env_vars + c.env_vars),
        forall|i: int| 0 <= i < c.env_vars.len() ==> env_key_ok(#[trigger] c.env_vars[i].0),
    ensures
        parse_from(
            a + flag_each("--include"@, c.includes) + flag_each("--exclude"@, c.exclude)
                + flag_each("--methods"@, c.methods) + opt_flag("--base-url"@, c.base_url)
                + env_args(c.env_vars),
            0,
            e,
            false,
        ) == Ok::<BakeConfigView, crate::error::ErrorView>(
            BakeConfigView {
                includes: d.includes + c.includes,
                exclude: d.exclude + c.exclude,
                methods: d.methods + c.methods,
                base_url: or_keep(c.base_url, d.base_url),
                env_vars: d.env_vars + c.env_vars,
                ..d
            },
        ),
{
    let s8 = flag_each("--include"@, c.includes);
    let s9 = flag_each("--exclude"@, c.exclude);
    let s10 = flag_each("--methods"@, c.methods);
    let s11 = opt_flag("--base-url"@, c.base_url);
    let s12 = env_args(c.env_vars);
    lemma_seg_includes(c.includes, d);
    let d8 = BakeConfigView { includes: d.includes + c.includes, ..d };
    lemma_chain(a, s8, e, d, d8);
    lemma_seg_exclude(c.exclude, d8);
    let d9 = BakeConfigView { exclude: d.exclude + c.exclude, ..d8 };
    lemma_chain(a + s8, s9, e, d8, d9);
    lemma_seg_methods(c.methods, d9);
    let d10 = BakeConfigView { methods: d.methods + c.methods, ..d9 };
    lemma_chain(a + s8 + s9, s10, e, d9, d10);
    lemma_seg_base_url(c.base_url, d10);
    let d11 = BakeConfigView { base_url: or_keep(c.base_url, d.base_url), ..d10 };
    lemma_chain(a + s8 + s9 + s10, s11, e, d10, d11);
    lemma_seg_env(c.env_vars, d11);
    let d12 = BakeConfigView { env_vars: d.env_vars + c.env_vars, ..d11 };
    lemma_chain(a + s8 + s9 + s10 + s11, s12, e, d11, d12);
}

/// Law: reading back the command line that `baked_to_argv` writes for a saved
/// configuration gives that configuration again. It holds for configurations that the
/// command line can express: a known source type and a non-empty source, header lines
/// with a `:`, distinct environment keys without `=`, filter patterns without commas
/// or surrounding white space, no description (which is not written out), and `oauth`
/// not explicitly false (which is written as the absence of `--oauth`).
pub proof fn lemma_baked_round_trip(c: BakeConfigView)
    requires
        c.source_type == "mcp"@ || c.source_type == "mcp_stdio"@ || c.source_type == "spec"@
            || c.source_type == "graphql"@,
        c.source.len() > 0,
        forall|i: int| 0 <= i < c.auth_headers.len() ==> (#[trigger] split_once(c.auth_headers[i], ':')) is Some,
        keys_unique(c.env_vars),
        forall|i: int| 0 <= i < c.env_vars.len() ==> env_key_ok(#[trigger] c.env_vars[i].0),
        c.oauth != Some(false),
        c.description is None,
        forall|i: int| 0 <= i < c.includes.len() ==> clean_item(#[trigger] c.includes[i]),
        forall|i: int| 0 <= i < c.exclude.len() ==> clean_item(#[trigger] c.exclude[i]),
    ensures
        parse_bake_spec(baked_argv(c), true, false) == Ok::<BakeConfigView, crate::error::ErrorView>(c),
{
    assert(parse_from(baked_argv(c), 0, empty_config(), false) == Ok::<BakeConfigView, crate::error::ErrorView>(c)) by {
        lemma_round_trip_parse(c);
    }
}

proof fn lemma_round_trip_parse(c: BakeConfigView)
    requires
        c.source_type == "mcp"@ || c.source_type == "mcp_stdio"@ || c.source_type == "spec"@
            || c.source_type == "graphql"@,
        forall|i: int| 0 <= i < c.auth_headers.len() ==> (#[trigger] split_once(c.auth_headers[i], ':')) is Some,
        keys_unique(c.env_vars),
        forall|i: int| 0 <= i < c.env_vars.len() ==> env_key_ok(#[trigger] c.env_vars[i].0),
        c.oauth != Some(false),
        c.description is None,
        forall|i: int| 0 <= i < c.includes.len() ==> clean_item(#[trigger] c.includes[i]),
        forall|i: int| 0 <= i < c.exclude.len() ==> clean_item(#[trigger] c.exclude[i]),
    ensures
        parse_from(baked_argv(c), 0, empty_config(), false) == Ok::<BakeConfigView, crate::error::ErrorView>(c),
{
    let e = empty_config();
    let g1 = seq![source_flag(c.source_type), c.source] + flag_each("--auth-header"@, c.auth_headers)
        + opt_flag("--transport"@, c.transport) + cache_args(c.cache_ttl);
    lemma_group_head(c);
    let c3 = BakeConfigView {
        source_type: c.source_type,
        source: c.source,
        auth_headers: c.auth_headers,
        transport: c.transport,
        cache_ttl: c.cache_ttl,
        ..e
    };
    lemma_group_oauth(c, g1, e, c3);
    let g2 = g1 + oauth_args(c.oauth) + opt_flag("--oauth-client-id"@, c.oauth_client_id)
        + opt_flag("--oauth-client-secret"@, c.oauth_client_secret)
        + opt_flag("--oauth-scope"@, c.oauth_scope);
    let c7 = BakeConfigView {
        oauth: if c.oauth == Some(true) { Some(true) } else { c3.oauth },
        oauth_client_id: or_keep(c.oauth_client_id, c3.oauth_client_id),
        oauth_client_secret: or_keep(c.oauth_client_secret, c3.oauth_client_secret),
        oauth_scope: or_keep(c.oauth_scope, c3.oauth_scope),
        ..c3
    };
    assert(c7.env_vars + c.env_vars =~= c.env_vars);
    lemma_group_tail(c, g2, e, c7);
    assert(c.oauth == Some(true) || c.oauth is None) by {
        match c.oauth {
            Some(b) => {
                assert(b);
            },
            None => {},
        }
    }
    assert(c7.includes + c.includes =~= c.includes);
    assert(c7.exclude + c.exclude =~= c.exclude);
    assert(c7.methods + c.methods =~= c.methods);
}

proof fn reveal_flags()
    ensures
        "--oauth"@ =~= seq!['-', '-', 'o', 'a', 'u', 't', 'h'],
        "--mcp"@ =~= seq!['-', '-', 'm', 'c', 'p'],
        "--mcp-stdio"@ =~= seq!['-', '-', 'm', 'c', 'p', '-', 's', 't', 'd', 'i', 'o'],
        "--spec"@ =~= seq!['-', '-', 's', 'p', 'e', 'c'],
        "--graphql"@ =~= seq!['-', '-', 'g', 'r', 'a', 'p', 'h', 'q', 'l'],
        "--auth-header"@ =~= seq!['-', '-', 'a', 'u', 't', 'h', '-', 'h', 'e', 'a', 'd', 'e', 'r'],
        "--env"@ =~= seq!['-', '-', 'e', 'n', 'v'],
        "--transport"@ =~= seq!['-', '-', 't', 'r', 'a', 'n', 's', 'p', 'o', 'r', 't'],
        "--cache-ttl"@ =~= seq!['-', '-', 'c', 'a', 'c', 'h', 'e', '-', 't', 't', 'l'],
        "--oauth-client-id"@ =~= seq!['-', '-', 'o', 'a', 'u', 't', 'h', '-', 'c', 'l', 'i', 'e', 'n', 't', '-', 'i', 'd'],
        "--oauth-client-secret"@ =~= seq!['-', '-', 'o', 'a', 'u', 't', 'h', '-', 'c', 'l', 'i', 'e', 'n', 't', '-', 's', 'e', 'c', 'r', 'e', 't'],
        "--oauth-scope"@ =~= seq!['-', '-', 'o', 'a', 'u', 't', 'h', '-', 's', 'c', 'o', 'p', 'e'],
        "--include"@ =~= seq!['-', '-', 'i', 'n', 'c', 'l', 'u', 'd', 'e'],
        "--exclude"@ =~= seq!['-', '-', 'e', 'x', 'c', 'l', 'u', 'd', 'e'],
        "--methods"@ =~= seq!['-', '-', 'm', 'e', 't', 'h', 'o', 'd', 's'],
        "--description"@ =~= seq!['-', '-', 'd', 'e', 's', 'c', 'r', 'i', 'p', 't', 'i', 'o', 'n'],
        "--base-url"@ =~= seq!['-', '-', 'b', 'a', 's', 'e', '-', 'u', 'r', 'l'],
{
    reveal_strlit("--oauth");
    reveal_strlit("--mcp");
    reveal_strlit("--mcp-stdio");
    reveal_strlit("--spec");
    reveal_strlit("--graphql");
    reveal_strlit("--auth-header");
    reveal_strlit("--env");
    reveal_strlit("--transport");
    reveal_strlit("--cache-ttl");
    reveal_strlit("--oauth-client-id");
    reveal_strlit("--oauth-client-secret");
    reveal_strlit("--oauth-scope");
    reveal_strlit("--include");
    reveal_strlit("--exclude");
    reveal_strlit("--methods");
    reveal_strlit("--description");
    reveal_strlit("--base-url");
}

/// The flags of `bake create` and `bake update` that take the next argument as their
/// value.
pub open spec fn value_flag(a: Seq<char>) -> bool {
    a == "--mcp"@ || a == "--mcp-stdio"@ || a == "--spec"@ || a == "--graphql"@
        || a == "--auth-header"@ || a == "--env"@ || a == "--transport"@ || a == "--cache-ttl"@
        || a == "--oauth-client-id"@ || a == "--oauth-client-secret"@ || a == "--oauth-scope"@
        || a == "--include"@ || a == "--exclude"@ || a == "--methods"@ || a == "--description"@
        || a == "--base-url"@
}

/// The flags that name the source.
pub open spec fn source_flag_name(a: Seq<char>) -> bool {
    a == "--mcp"@ || a == "--mcp-stdio"@ || a == "--spec"@ || a == "--graphql"@
}

/// A value that its flag refuses: a header line without `:`, an environment entry
/// without `=`, a cache lifetime that is not a `u64`.
pub open spec fn bad_value(flag: Seq<char>, v: Seq<char>) -> bool {
    ||| flag == "--auth-header"@ && split_once(v, ':') is None
    ||| flag == "--env"@ && split_once(v, '=') is None
    ||| flag == "--cache-ttl"@ && parse_u64_spec(v) is None
}

/// Whether the left-to-right scan of `args` from `i` meets a flag that is not taken
/// (any other than `--oauth` and the value flags, or with `update_only` one that
/// `bake update` does not take), a value flag without a value, or a refused value.
pub open spec fn scan_fails(args: Seq<Seq<char>>, i: int, update_only: bool) -> bool
    decreases args.len() - i,
{
    if i < 0 || i >= args.len() {
        false
    } else if update_only && !update_allowed(args[i]) {
        true
    } else if args[i] == "--oauth"@ {
        scan_fails(args, i + 1, update_only)
    } else if value_flag(args[i]) {
        if i + 1 >= args.len() || bad_value(args[i], args[i + 1]) {
            true
        } else {
            scan_fails(args, i + 2, update_only)
        }
    } else {
        true
    }
}

/// The source the scan of `args` from `i` ends with, starting from `cur`: the value of
/// the last source flag.
pub open spec fn source_after(args: Seq<Seq<char>>, i: int, cur: Seq<char>) -> Seq<char>
    decreases args.len() - i,
{
    if i < 0 || i >= args.len() {
        cur
    } else if args[i] == "--oauth"@ {
        source_after(args, i + 1, cur)
    } else if value_flag(args[i]) && i + 1 < args.len() {
        source_after(args, i + 2, if source_flag_name(args[i]) { args[i + 1] } else { cur })
    } else {
        cur
    }
}

proof fn lemma_parse_from_fails(args: Seq<Seq<char>>, i: int, c: BakeConfigView, update_only: bool)
    ensures
        parse_from(args, i, c, update_only) is Err <==> scan_fails(args, i, update_only),
        parse_from(args, i, c, update_only) matches Ok(c2) ==> c2.source == source_after(args, i, c.source),
    decreases args.len() - i,
{
    if 0 <= i < args.len() && !(update_only && !update_allowed(args[i])) {
        reveal_flags();
        let a = args[i];
        if a == "--oauth"@ {
            let c2 = flag_step(args, i, c)->Ok_0.0;
            lemma_parse_from_fails(args, i + 1, c2, update_only);
        } else if value_flag(a) && i + 1 < args.len() && !bad_value(a, args[i + 1]) {
            assert(flag_step(args, i, c) is Ok);
            let c2 = flag_step(args, i, c)->Ok_0.0;
            assert(flag_step(args, i, c)->Ok_0.1 == i + 2);
            assert(c2.source == if source_flag_name(a) { args[i + 1] } else { c.source });
            lemma_parse_from_fails(args, i + 2, c2, update_only);
        }
    }
}

/// Law: reading the arguments of `bake create` (`require_source`) or `bake update`
/// (`update_only`) fails exactly when the scan meets a flag that is not taken, a value
/// flag without its value or a refused value, or, where a source is required, when no
/// source flag gives a non-empty source.
pub proof fn lemma_bake_parse_fails(args: Seq<Seq<char>>, require_source: bool, update_only: bool)
    ensures
        parse_bake_spec(args, require_source, update_only) is Err <==> (scan_fails(args, 0, update_only)
            || (require_source && source_after(args, 0, Seq::empty()).len() == 0)),
{
    lemma_parse_from_fails(args, 0, empty_config(), update_only);
}

} // verus!
