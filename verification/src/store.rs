use vstd::prelude::*;
use crate::bake::{
    BakeConfig, BakeConfigView, validate_name, validate_name_spec, parse_bake_args, parse_bake_args_update,
    parse_bake_spec, merge_config, merged, mask_secrets, masked_config,
};
use crate::error::{AppError, ErrorView, result_view};
use crate::text::{views, concat, concat3, chars_of};

verus! {

// ---------------------------------------------------------------------------
// Names in order
// ---------------------------------------------------------------------------

/// `a` comes before `b`: the order of `String`'s `<`, character by character (which
/// is the order of their UTF-8 bytes).
pub open spec fn name_lt(a: Seq<char>, b: Seq<char>) -> bool
    decreases a.len(),
{
    if a.len() == 0 {
        b.len() > 0
    } else if b.len() == 0 {
        false
    } else if a[0] != b[0] {
        a[0] < b[0]
    } else {
        name_lt(a.drop_first(), b.drop_first())
    }
}

pub proof fn lemma_name_lt_irreflexive(a: Seq<char>)
    ensures
        !name_lt(a, a),
    decreases a.len(),
{
    if a.len() > 0 {
        lemma_name_lt_irreflexive(a.drop_first());
    }
}

pub proof fn lemma_name_lt_total(a: Seq<char>, b: Seq<char>)
    ensures
        a != b ==> name_lt(a, b) || name_lt(b, a),
        !(name_lt(a, b) && name_lt(b, a)),
    decreases a.len(),
{
    if a.len() > 0 && b.len() > 0 {
        lemma_name_lt_total(a.drop_first(), b.drop_first());
        if a[0] == b[0] && a != b {
            assert(a =~= seq![a[0]] + a.drop_first());
            assert(b =~= seq![b[0]] + b.drop_first());
        }
    } else if a.len() == 0 && b.len() == 0 {
        assert(a =~= b);
    }
}

pub proof fn lemma_name_lt_transitive(a: Seq<char>, b: Seq<char>, c: Seq<char>)
    requires
        name_lt(a, b),
        name_lt(b, c),
    ensures
        name_lt(a, c),
    decreases a.len(),
{
    if a.len() > 0 && b.len() > 0 && c.len() > 0 && a[0] == b[0] && b[0] == c[0] {
        lemma_name_lt_transitive(a.drop_first(), b.drop_first(), c.drop_first());
    }
}

/// Whether `a` comes before `b`.
pub fn str_less(a: &str, b: &str) -> (r: bool)
    ensures
        r == name_lt(a@, b@),
{
    let av = chars_of(a);
    let bv = chars_of(b);
    let mut i: usize = 0;
    assert(av@.skip(0) =~= av@);
    assert(bv@.skip(0) =~= bv@);
    while i < av.len() && i < bv.len()
        invariant
            i <= av@.len(),
            i <= bv@.len(),
            av@ == a@,
            bv@ == b@,
            name_lt(a@, b@) == name_lt(av@.skip(i as int), bv@.skip(i as int)),
        decreases av@.len() - i,
    {
        assert(av@.skip(i as int)[0] == av@[i as int]);
        assert(bv@.skip(i as int)[0] == bv@[i as int]);
        if av[i] != bv[i] {
            return av[i] < bv[i];
        }
        assert(av@.skip(i as int).drop_first() =~= av@.skip(i + 1));
        assert(bv@.skip(i as int).drop_first() =~= bv@.skip(i + 1));
        i = i + 1;
    }
    i < bv.len()
}

// ---------------------------------------------------------------------------
// The store of saved configurations
// ---------------------------------------------------------------------------

/// The saved configurations, by name.
#[derive(Debug)]
pub struct BakeStore {
    entries: Vec<(String, BakeConfig)>,
}

pub type StoreView = Seq<(Seq<char>, BakeConfigView)>;

/// The names are in strictly increasing order, so none occurs twice.
pub open spec fn store_wf(s: StoreView) -> bool {
    forall|i: int, j: int| 0 <= i < j < s.len() ==> name_lt(#[trigger] s[i].0, #[trigger] s[j].0)
}

/// The configuration saved under `name`.
pub open spec fn store_get(s: StoreView, name: Seq<char>) -> Option<BakeConfigView>
    decreases s.len(),
{
    if s.len() == 0 {
        None
    } else if s[0].0 == name {
        Some(s[0].1)
    } else {
        store_get(s.drop_first(), name)
    }
}

/// The store with `config` saved under `name`, replacing what was saved there.
pub open spec fn store_insert(s: StoreView, name: Seq<char>, config: BakeConfigView) -> StoreView
    decreases s.len(),
{
    if s.len() == 0 {
        seq![(name, config)]
    } else if s[0].0 == name {
        seq![(name, config)] + s.drop_first()
    } else if name_lt(name, s[0].0) {
        seq![(name, config)] + s
    } else {
        seq![s[0]] + store_insert(s.drop_first(), name, config)
    }
}

/// The store without the configuration saved under `name`.
pub open spec fn store_remove(s: StoreView, name: Seq<char>) -> StoreView
    decreases s.len(),
{
    if s.len() == 0 {
        s
    } else if s[0].0 == name {
        s.drop_first()
    } else {
        seq![s[0]] + store_remove(s.drop_first(), name)
    }
}

impl View for BakeStore {
    type V = StoreView;

    closed spec fn view(&self) -> StoreView {
        self.entries@.map_values(|e: (String, BakeConfig)| (e.0@, e.1@))
    }
}

proof fn lemma_wf_tail(s: StoreView)
    requires
        store_wf(s),
        s.len() > 0,
    ensures
        store_wf(s.drop_first()),
        forall|j: int| 0 < j < s.len() ==> name_lt(s[0].0, #[trigger] s[j].0),
{
    assert forall|i: int, j: int| 0 <= i < j < s.drop_first().len() implies name_lt(
        #[trigger] s.drop_first()[i].0,
        #[trigger] s.drop_first()[j].0,
    ) by {
        assert(s.drop_first()[i] == s[i + 1]);
        assert(s.drop_first()[j] == s[j + 1]);
    }
}

/// Everything in a well-formed store comes after a name before its first entry.
proof fn lemma_absent_before(s: StoreView, name: Seq<char>)
    requires
        store_wf(s),
        s.len() > 0,
        name_lt(name, s[0].0),
    ensures
        store_get(s, name) is None,
    decreases s.len(),
{
    lemma_name_lt_total(name, s[0].0);
    lemma_name_lt_irreflexive(name);
    assert(s[0].0 != name);
    if s.len() == 1 {
        assert(store_get(s.drop_first(), name) is None);
    } else {
        lemma_wf_tail(s);
        lemma_name_lt_transitive(name, s[0].0, s[1].0);
        assert(s.drop_first()[0] == s[1]);
        lemma_absent_before(s.drop_first(), name);
    }
}

/// Law: inserting keeps a store well formed, and reading a name gives what was last
/// saved under it, while the other names keep theirs.
pub proof fn lemma_store_insert(s: StoreView, name: Seq<char>, config: BakeConfigView, other: Seq<char>)
    requires
        store_wf(s),
    ensures
        store_wf(store_insert(s, name, config)),
        store_get(store_insert(s, name, config), name) == Some(config),
        other != name ==> store_get(store_insert(s, name, config), other) == store_get(s, other),
        forall|i: int| 0 <= i < store_insert(s, name, config).len() ==> (#[trigger] store_insert(s, name, config)[i].0 == name
            || exists|j: int| 0 <= j < s.len() && s[j].0 == store_insert(s, name, config)[i].0),
    decreases s.len(),
{
    let r = store_insert(s, name, config);
    if s.len() == 0 {
        assert(r.drop_first() =~= s);
        if other != name {
            assert(store_get(r, other) == store_get(r.drop_first(), other));
        }
    } else if s[0].0 == name {
        lemma_wf_tail(s);
        assert forall|i: int, j: int| 0 <= i < j < r.len() implies name_lt(#[trigger] r[i].0, #[trigger] r[j].0) by {
            if i == 0 {
                assert(r[j] == s[j]);
            } else {
                assert(r[i] == s[i] && r[j] == s[j]);
            }
        }
        assert forall|i: int| 0 <= i < r.len() implies (#[trigger] r[i].0 == name
            || exists|j: int| 0 <= j < s.len() && s[j].0 == r[i].0) by {
            if i > 0 {
                assert(r[i] == s[i]);
            }
        }
        if other != name {
            assert(r.drop_first() =~= s.drop_first());
        }
    } else if name_lt(name, s[0].0) {
        assert forall|i: int, j: int| 0 <= i < j < r.len() implies name_lt(#[trigger] r[i].0, #[trigger] r[j].0) by {
            if i == 0 {
                assert(r[j] == s[j - 1]);
                if j > 1 {
                    lemma_name_lt_transitive(name, s[0].0, s[j - 1].0);
                }
            } else {
                assert(r[i] == s[i - 1] && r[j] == s[j - 1]);
            }
        }
        assert forall|i: int| 0 <= i < r.len() implies (#[trigger] r[i].0 == name
            || exists|j: int| 0 <= j < s.len() && s[j].0 == r[i].0) by {
            if i > 0 {
                assert(r[i] == s[i - 1]);
            }
        }
        assert(r.drop_first() =~= s);
        if other != name {
            assert(store_get(r, other) == store_get(s, other));
        }
    } else {
        lemma_wf_tail(s);
        let t = s.drop_first();
        lemma_store_insert(t, name, config, other);
        let rt = store_insert(t, name, config);
        assert(r.drop_first() =~= rt);
        lemma_name_lt_total(name, s[0].0);
        if other != name && s[0].0 != other {
            assert(store_get(r, other) == store_get(rt, other));
            assert(store_get(s, other) == store_get(t, other));
        }
        assert forall|i: int, j: int| 0 <= i < j < r.len() implies name_lt(#[trigger] r[i].0, #[trigger] r[j].0) by {
            if i == 0 {
                assert(r[j] == rt[j - 1]);
                if rt[j - 1].0 != name {
                    let k = choose|k: int| 0 <= k < t.len() && t[k].0 == rt[j - 1].0;
                    assert(t[k] == s[k + 1]);
                }
            } else {
                assert(r[i] == rt[i - 1] && r[j] == rt[j - 1]);
            }
        }
        assert forall|i: int| 0 <= i < r.len() implies (#[trigger] r[i].0 == name
            || exists|j: int| 0 <= j < s.len() && s[j].0 == r[i].0) by {
            if i == 0 {
                assert(s[0].0 == r[0].0);
            } else {
                assert(r[i] == rt[i - 1]);
                if rt[i - 1].0 != name {
                    let k = choose|k: int| 0 <= k < t.len() && t[k].0 == rt[i - 1].0;
                    assert(t[k] == s[k + 1]);
                }
            }
        }
    }
}

/// Law: removing keeps a store well formed, leaves nothing under the name, and keeps
/// what the other names hold.
pub proof fn lemma_store_remove(s: StoreView, name: Seq<char>, other: Seq<char>)
    requires
        store_wf(s),
    ensures
        store_wf(store_remove(s, name)),
        store_get(store_remove(s, name), name) is None,
        other != name ==> store_get(store_remove(s, name), other) == store_get(s, other),
        forall|i: int| 0 <= i < store_remove(s, name).len() ==> exists|j: int| 0 <= j < s.len() && s[j]
            == #[trigger] store_remove(s, name)[i],
    decreases s.len(),
{
    let r = store_remove(s, name);
    if s.len() == 0 {
    } else if s[0].0 == name {
        lemma_wf_tail(s);
        if s.len() > 1 {
            assert(s.drop_first()[0] == s[1]);
            lemma_absent_before(s.drop_first(), name);
        }
        assert forall|i: int| 0 <= i < r.len() implies exists|j: int| 0 <= j < s.len() && s[j] == #[trigger] r[i] by {
            assert(s[i + 1] == r[i]);
        }
    } else {
        lemma_wf_tail(s);
        let t = s.drop_first();
        lemma_store_remove(t, name, other);
        let rt = store_remove(t, name);
        assert(r.drop_first() =~= rt);
        assert forall|i: int, j: int| 0 <= i < j < r.len() implies name_lt(#[trigger] r[i].0, #[trigger] r[j].0) by {
            if i == 0 {
                assert(r[j] == rt[j - 1]);
                let k = choose|k: int| 0 <= k < t.len() && t[k] == rt[j - 1];
                assert(t[k] == s[k + 1]);
            } else {
                assert(r[i] == rt[i - 1] && r[j] == rt[j - 1]);
            }
        }
        assert forall|i: int| 0 <= i < r.len() implies exists|j: int| 0 <= j < s.len() && s[j] == #[trigger] r[i] by {
            if i == 0 {
                assert(s[0] == r[0]);
            } else {
                assert(r[i] == rt[i - 1]);
                let k = choose|k: int| 0 <= k < t.len() && t[k] == rt[i - 1];
                assert(t[k] == s[k + 1]);
            }
        }
    }
}

impl BakeStore {
    /// The names are kept in order, each once.
    pub open spec fn wf(&self) -> bool {
        store_wf(self@)
    }

    /// Every store keeps its names in order, each once.
    #[verifier::type_invariant]
    spec fn inv(self) -> bool {
        store_wf(self@)
    }

    /// An empty store.
    pub fn new() -> (r: Self)
        ensures
            r.wf(),
            r@ == Seq::<(Seq<char>, BakeConfigView)>::empty(),
    {
        let r = BakeStore { entries: Vec::new() };
        assert(r@ =~= Seq::<(Seq<char>, BakeConfigView)>::empty());
        r
    }

    /// The number of saved configurations.
    pub fn len(&self) -> (r: usize)
        ensures
            r == self@.len(),
    {
        self.entries.len()
    }

    /// The name and configuration at position `i`, in name order.
    pub fn entry(&self, i: usize) -> (r: (&String, &BakeConfig))
        requires
            i < self@.len(),
        ensures
            (r.0@, r.1@) == self@[i as int],
    {
        (&self.entries[i].0, &self.entries[i].1)
    }

    /// The position of `name`, if a configuration is saved under it.
    fn position(&self, name: &str) -> (r: Result<usize, usize>)
        requires
            self.wf(),
        ensures
            match r {
                Ok(i) => i < self@.len() && self@[i as int].0 == name@ && store_get(self@, name@) == Some(self@[i as int].1),
                Err(i) => i <= self@.len() && store_get(self@, name@) is None
                    && (forall|j: int| 0 <= j < i ==> name_lt(#[trigger] self@[j].0, name@))
                    && (i < self@.len() ==> name_lt(name@, self@[i as int].0)),
            },
    {
        let ghost s = self@;
        let mut i: usize = 0;
        assert(s.skip(0) =~= s);
        while i < self.entries.len()
            invariant
                i <= self.entries@.len(),
                s == self@,
                s.len() == self.entries@.len(),
                store_wf(s),
                store_get(s, name@) == store_get(s.skip(i as int), name@),
                forall|j: int| 0 <= j < i ==> name_lt(#[trigger] s[j].0, name@),
            decreases self.entries@.len() - i,
        {
            let here = self.entries[i].0.as_str();
            assert(s[i as int].0 == here@);
            assert(s.skip(i as int)[0] == s[i as int]);
            if crate::text::str_eq(here, name) {
                return Ok(i);
            }
            if str_less(name, here) {
                proof {
                    lemma_wf_skip(s, i as int);
                    lemma_absent_before(s.skip(i as int), name@);
                }
                return Err(i);
            }
            proof {
                lemma_name_lt_total(here@, name@);
            }
            assert(s.skip(i as int).drop_first() =~= s.skip(i + 1));
            i = i + 1;
        }
        Err(i)
    }

    /// The configuration saved under `name`.
    pub fn get(&self, name: &str) -> (r: Option<&BakeConfig>)
        ensures
            match r {
                Some(c) => store_get(self@, name@) == Some(c@),
                None => store_get(self@, name@) is None,
            },
    {
        proof {
            use_type_invariant(self);
        }
        match self.position(name) {
            Ok(i) => Some(&self.entries[i].1),
            Err(_) => None,
        }
    }

    /// Whether a configuration is saved under `name`.
    pub fn contains_key(&self, name: &str) -> (r: bool)
        ensures
            r == store_get(self@, name@) is Some,
    {
        proof {
            use_type_invariant(self);
        }
        self.position(name).is_ok()
    }

    /// Save `config` under `name`.
    pub fn insert(&mut self, name: String, config: BakeConfig)
        ensures
            final(self).wf(),
            final(self)@ == store_insert(old(self)@, name@, config@),
    {
        proof {
            use_type_invariant(&*self);
        }
        let ghost s = self@;
        let ghost c = config@;
        let ghost n = name@;
        proof {
            lemma_store_insert(s, n, c, n);
        }
        let pos = self.position(name.as_str());
        let mut entries: Vec<(String, BakeConfig)> = Vec::new();
        std::mem::swap(&mut entries, &mut self.entries);
        assert(entries@.map_values(|e: (String, BakeConfig)| (e.0@, e.1@)) == s);
        match pos {
            Ok(i) => {
                entries.set(i, (name, config));
                proof {
                    lemma_insert_at_existing(s, n, c, i as int);
                }
                assert(entries@.map_values(|e: (String, BakeConfig)| (e.0@, e.1@)) =~= s.update(i as int, (n, c)));
            },
            Err(i) => {
                entries.insert(i, (name, config));
                proof {
                    lemma_insert_at_new(s, n, c, i as int);
                }
                assert(entries@.map_values(|e: (String, BakeConfig)| (e.0@, e.1@)) =~= s.insert(i as int, (n, c)));
            },
        }
        self.entries = entries;
    }

    /// Remove what is saved under `name`; whether there was anything.
    pub fn remove(&mut self, name: &str) -> (r: bool)
        ensures
            final(self).wf(),
            final(self)@ == store_remove(old(self)@, name@),
            r == store_get(old(self)@, name@) is Some,
    {
        proof {
            use_type_invariant(&*self);
        }
        let ghost s = self@;
        proof {
            lemma_store_remove(s, name@, name@);
        }
        match self.position(name) {
            Ok(i) => {
                let mut entries: Vec<(String, BakeConfig)> = Vec::new();
                std::mem::swap(&mut entries, &mut self.entries);
                assert(entries@.map_values(|e: (String, BakeConfig)| (e.0@, e.1@)) == s);
                entries.remove(i);
                proof {
                    lemma_remove_at(s, name@, i as int);
                }
                assert(entries@.map_values(|e: (String, BakeConfig)| (e.0@, e.1@)) =~= s.remove(i as int));
                self.entries = entries;
                true
            },
            Err(_) => {
                proof {
                    lemma_remove_absent(s, name@);
                }
                false
            },
        }
    }
}

proof fn lemma_wf_skip(s: StoreView, i: int)
    requires
        store_wf(s),
        0 <= i <= s.len(),
    ensures
        store_wf(s.skip(i)),
{
    assert forall|a: int, b: int| 0 <= a < b < s.skip(i).len() implies name_lt(#[trigger] s.skip(i)[a].0, #[trigger] s.skip(i)[b].0) by {
        assert(s.skip(i)[a] == s[a + i]);
        assert(s.skip(i)[b] == s[b + i]);
    }
}

proof fn lemma_insert_at_existing(s: StoreView, n: Seq<char>, c: BakeConfigView, i: int)
    requires
        store_wf(s),
        0 <= i < s.len(),
        s[i].0 == n,
    ensures
        store_insert(s, n, c) == s.update(i, (n, c)),
    decreases s.len(),
{
    if i == 0 {
        assert(store_insert(s, n, c) =~= s.update(i, (n, c)));
    } else {
        lemma_wf_tail(s);
        lemma_name_lt_total(n, s[0].0);
        lemma_insert_at_existing(s.drop_first(), n, c, i - 1);
        assert(store_insert(s, n, c) =~= s.update(i, (n, c)));
    }
}

proof fn lemma_insert_at_new(s: StoreView, n: Seq<char>, c: BakeConfigView, i: int)
    requires
        store_wf(s),
        0 <= i <= s.len(),
        forall|j: int| 0 <= j < i ==> name_lt(#[trigger] s[j].0, n),
        i < s.len() ==> name_lt(n, s[i].0),
    ensures
        store_insert(s, n, c) == s.insert(i, (n, c)),
    decreases s.len(),
{
    if i == 0 {
        if s.len() > 0 {
            lemma_name_lt_irreflexive(n);
        }
        assert(store_insert(s, n, c) =~= s.insert(i, (n, c)));
    } else {
        lemma_wf_tail(s);
        lemma_name_lt_total(n, s[0].0);
        lemma_name_lt_irreflexive(n);
        assert(name_lt(s[0].0, n));
        let t = s.drop_first();
        assert forall|j: int| 0 <= j < i - 1 implies name_lt(#[trigger] t[j].0, n) by {
            assert(t[j] == s[j + 1]);
        }
        lemma_insert_at_new(t, n, c, i - 1);
        assert(store_insert(s, n, c) =~= s.insert(i, (n, c)));
    }
}

proof fn lemma_remove_at(s: StoreView, n: Seq<char>, i: int)
    requires
        store_wf(s),
        0 <= i < s.len(),
        s[i].0 == n,
    ensures
        store_remove(s, n) == s.remove(i),
    decreases s.len(),
{
    if i == 0 {
        assert(store_remove(s, n) =~= s.remove(i));
    } else {
        lemma_wf_tail(s);
        lemma_name_lt_irreflexive(n);
        assert(s[0].0 != n);
        lemma_remove_at(s.drop_first(), n, i - 1);
        assert(store_remove(s, n) =~= s.remove(i));
    }
}

proof fn lemma_remove_absent(s: StoreView, n: Seq<char>)
    requires
        store_get(s, n) is None,
    ensures
        store_remove(s, n) == s,
    decreases s.len(),
{
    if s.len() > 0 {
        lemma_remove_absent(s.drop_first(), n);
        assert(store_remove(s, n) =~= s);
    }
}

// ---------------------------------------------------------------------------
// The bake subcommands
// ---------------------------------------------------------------------------

pub open spec fn not_found(name: Seq<char>) -> ErrorView {
    ErrorView::Cli("Baked config '"@ + name + "' not found"@)
}

/// What `bake create` does to the store: the error, or the store with the new
/// configuration.
pub open spec fn create_spec(s: StoreView, name: Seq<char>, force: bool, args: Seq<Seq<char>>) -> Result<StoreView, ErrorView> {
    match validate_name_spec(name) {
        Err(e) => Err(e),
        Ok(_) => if store_get(s, name) is Some && !force {
            Err(ErrorView::Cli(
                "Baked config '"@ + name + "' already exists. Use --force to overwrite or 'bake update' to modify."@,
            ))
        } else {
            match parse_bake_spec(args, true, false) {
                Err(e) => Err(e),
                Ok(c) => Ok(store_insert(s, name, c)),
            }
        },
    }
}

/// Save a new configuration from the arguments of `bake create NAME <args>`.
pub fn bake_create(store: &mut BakeStore, name: &str, force: bool, args: &Vec<String>) -> (r: Result<(), AppError>)
    ensures
        final(store).wf(),
        match create_spec(old(store)@, name@, force, views(args@)) {
            Ok(s) => r is Ok && final(store)@ == s,
            Err(e) => r is Err && r->Err_0@ == e && final(store)@ == old(store)@,
        },
{
    proof {
        use_type_invariant(&*store);
    }
    match validate_name(name) {
        Ok(_) => {},
        Err(e) => return Err(e),
    }
    if store.contains_key(name) && !force {
        let head = concat3("Baked config '", name, "' already exists. Use --force to overwrite or 'bake update' to modify.");
        return Err(AppError::Cli(head));
    }
    let config = match parse_bake_args(args) {
        Ok(c) => c,
        Err(e) => return Err(e),
    };
    store.insert(name.to_string(), config);
    Ok(())
}

/// What `bake update` does to the store.
pub open spec fn update_spec(s: StoreView, name: Seq<char>, args: Seq<Seq<char>>) -> Result<StoreView, ErrorView> {
    match store_get(s, name) {
        None => Err(not_found(name)),
        Some(existing) => match parse_bake_spec(args, false, true) {
            Err(e) => Err(e),
            Ok(u) => Ok(store_insert(s, name, merged(existing, u))),
        },
    }
}

/// Change the updatable fields of a saved configuration.
pub fn bake_update(store: &mut BakeStore, name: &str, args: &Vec<String>) -> (r: Result<(), AppError>)
    ensures
        final(store).wf(),
        match update_spec(old(store)@, name@, views(args@)) {
            Ok(s) => r is Ok && final(store)@ == s,
            Err(e) => r is Err && r->Err_0@ == e && final(store)@ == old(store)@,
        },
{
    proof {
        use_type_invariant(&*store);
    }
    let existing = match store.get(name) {
        Some(c) => c.clone(),
        None => return Err(AppError::Cli(concat3("Baked config '", name, "' not found"))),
    };
    let updates = match parse_bake_args_update(args) {
        Ok(u) => u,
        Err(e) => return Err(e),
    };
    let merged_config = merge_config(existing, updates);
    store.insert(name.to_string(), merged_config);
    Ok(())
}

/// Remove a saved configuration.
pub fn bake_remove(store: &mut BakeStore, name: &str) -> (r: Result<(), AppError>)
    ensures
        final(store).wf(),
        final(store)@ == store_remove(old(store)@, name@),
        r is Ok <==> store_get(old(store)@, name@) is Some,
        r matches Err(e) ==> e@ == not_found(name@),
{
    if store.remove(name) {
        Ok(())
    } else {
        Err(AppError::Cli(concat3("Baked config '", name, "' not found")))
    }
}

/// A saved configuration as `bake show` displays it, secrets masked.
pub fn bake_show(store: &BakeStore, name: &str) -> (r: Result<BakeConfig, AppError>)
    ensures
        match store_get(store@, name@) {
            Some(c) => r is Ok && r->Ok_0@ == masked_config(c),
            None => r is Err && r->Err_0@ == not_found(name@),
        },
{
    match store.get(name) {
        Some(c) => Ok(mask_secrets(c)),
        None => Err(AppError::Cli(concat3("Baked config '", name, "' not found"))),
    }
}

/// Check that a wrapper script can be installed for `name`: a valid name under which a
/// configuration is saved.
pub fn bake_install_check(store: &BakeStore, name: &str) -> (r: Result<(), AppError>)
    ensures
        match validate_name_spec(name@) {
            Err(e) => r is Err && r->Err_0@ == e,
            Ok(_) => if store_get(store@, name@) is Some {
                r is Ok
            } else {
                r is Err && r->Err_0@ == not_found(name@)
            },
        },
{
    match validate_name(name) {
        Ok(_) => {},
        Err(e) => return Err(e),
    }
    if store.contains_key(name) {
        Ok(())
    } else {
        Err(AppError::Cli(concat3("Baked config '", name, "' not found")))
    }
}

/// The file that holds the saved configurations in a configuration directory.
pub fn baked_json_path(dir: &str) -> (r: String)
    ensures
        r@ == crate::oauth::path_join(dir@, "baked.json"@),
{
    crate::oauth::join_path(dir, "baked.json")
}

/// The wrapper script that runs a saved configuration with the given binary.
pub fn install_script(binary: &str, name: &str) -> (r: String)
    ensures
        r@ == "#!/bin/sh\nexec "@ + binary@ + " @"@ + name@ + " \"$@\"\n"@,
{
    let a = concat3("#!/bin/sh\nexec ", binary, " @");
    concat3(a.as_str(), name, " \"$@\"\n")
}

} // verus!
