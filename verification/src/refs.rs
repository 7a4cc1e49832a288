use vstd::prelude::*;
use crate::json::{JsonValue, JsonView, lookup, lemma_member_models, lemma_models, lemma_models_eq, member_position};
use crate::text::{views, split, starts_with, starts_with_str, split_char, chars_of, string_of_range};

verus! {

// ---------------------------------------------------------------------------
// What a document holds
// ---------------------------------------------------------------------------

/// The `$ref` string a member carries itself.
pub open spec fn own_ref(m: (Seq<char>, JsonView)) -> Seq<Seq<char>> {
    if m.0 == "$ref"@ {
        match m.1 {
            JsonView::Str(s) => seq![s],
            _ => Seq::empty(),
        }
    } else {
        Seq::empty()
    }
}

/// Every `$ref` string in a document, anywhere in it.
pub open spec fn refs_of(v: JsonView) -> Seq<Seq<char>>
    decreases v,
{
    match v {
        JsonView::Object(ms) => refs_members(ms),
        JsonView::Array(items) => refs_items(items),
        _ => Seq::empty(),
    }
}

pub open spec fn refs_items(items: Seq<JsonView>) -> Seq<Seq<char>>
    decreases items,
{
    if items.len() == 0 {
        Seq::empty()
    } else {
        refs_items(items.drop_last()) + refs_of(items.last())
    }
}

pub open spec fn refs_members(ms: Seq<(Seq<char>, JsonView)>) -> Seq<Seq<char>>
    decreases ms,
{
    if ms.len() == 0 {
        Seq::empty()
    } else {
        proof {
            assert(decreases_to!(ms => ms[ms.len() - 1]));
            assert(decreases_to!(ms[ms.len() - 1] => ms[ms.len() - 1].1));
        }
        refs_members(ms.drop_last()) + own_ref(ms.last()) + refs_of(ms.last().1)
    }
}

/// The number of values in a document.
pub open spec fn size_of(v: JsonView) -> nat
    decreases v,
{
    1 + match v {
        JsonView::Object(ms) => sizes_members(ms),
        JsonView::Array(items) => sizes_items(items),
        _ => 0,
    }
}

pub open spec fn sizes_items(items: Seq<JsonView>) -> nat
    decreases items,
{
    if items.len() == 0 {
        0
    } else {
        sizes_items(items.drop_last()) + size_of(items.last())
    }
}

pub open spec fn sizes_members(ms: Seq<(Seq<char>, JsonView)>) -> nat
    decreases ms,
{
    if ms.len() == 0 {
        0
    } else {
        proof {
            assert(decreases_to!(ms => ms[ms.len() - 1]));
            assert(decreases_to!(ms[ms.len() - 1] => ms[ms.len() - 1].1));
        }
        sizes_members(ms.drop_last()) + size_of(ms.last().1)
    }
}

pub proof fn lemma_items_parts(items: Seq<JsonView>, i: int)
    requires
        0 <= i < items.len(),
    ensures
        size_of(items[i]) <= sizes_items(items),
        forall|s: Seq<char>| refs_of(items[i]).contains(s) ==> refs_items(items).contains(s),
    decreases items.len(),
{
    let front = items.drop_last();
    if i < items.len() - 1 {
        lemma_items_parts(front, i);
        assert(front[i] == items[i]);
        assert forall|s: Seq<char>| refs_items(front).contains(s) implies refs_items(items).contains(s) by {
            let k = choose|k: int| 0 <= k < refs_items(front).len() && refs_items(front)[k] == s;
            assert(refs_items(items)[k] == s);
        }
    } else {
        assert forall|s: Seq<char>| refs_of(items[i]).contains(s) implies refs_items(items).contains(s) by {
            let k = choose|k: int| 0 <= k < refs_of(items[i]).len() && refs_of(items[i])[k] == s;
            assert(refs_items(items)[refs_items(front).len() + k] == s);
        }
    }
}

pub proof fn lemma_items_front(items: Seq<JsonView>)
    requires
        items.len() > 0,
    ensures
        sizes_items(items.drop_last()) < sizes_items(items),
        forall|s: Seq<char>| refs_items(items.drop_last()).contains(s) ==> refs_items(items).contains(s),
{
    assert(size_of(items.last()) >= 1);
    assert forall|s: Seq<char>| refs_items(items.drop_last()).contains(s) implies refs_items(items).contains(s) by {
        let k = choose|k: int| 0 <= k < refs_items(items.drop_last()).len() && refs_items(items.drop_last())[k] == s;
        assert(refs_items(items)[k] == s);
    }
}

pub proof fn lemma_members_parts(ms: Seq<(Seq<char>, JsonView)>, i: int)
    requires
        0 <= i < ms.len(),
    ensures
        size_of(ms[i].1) <= sizes_members(ms),
        forall|s: Seq<char>| refs_of(ms[i].1).contains(s) ==> refs_members(ms).contains(s),
        forall|s: Seq<char>| own_ref(ms[i]).contains(s) ==> refs_members(ms).contains(s),
    decreases ms.len(),
{
    let front = ms.drop_last();
    let n = refs_members(front).len();
    if i < ms.len() - 1 {
        lemma_members_parts(front, i);
        assert(front[i] == ms[i]);
        assert forall|s: Seq<char>| refs_members(front).contains(s) implies refs_members(ms).contains(s) by {
            let k = choose|k: int| 0 <= k < refs_members(front).len() && refs_members(front)[k] == s;
            assert(refs_members(ms)[k] == s);
        }
    } else {
        let o = own_ref(ms.last());
        assert forall|s: Seq<char>| refs_of(ms[i].1).contains(s) implies refs_members(ms).contains(s) by {
            let k = choose|k: int| 0 <= k < refs_of(ms[i].1).len() && refs_of(ms[i].1)[k] == s;
            assert(refs_members(ms)[n + o.len() + k] == s);
        }
        assert forall|s: Seq<char>| own_ref(ms[i]).contains(s) implies refs_members(ms).contains(s) by {
            let k = choose|k: int| 0 <= k < o.len() && o[k] == s;
            assert(refs_members(ms)[n + k] == s);
        }
    }
}

pub proof fn lemma_members_front(ms: Seq<(Seq<char>, JsonView)>)
    requires
        ms.len() > 0,
    ensures
        sizes_members(ms.drop_last()) < sizes_members(ms),
        forall|s: Seq<char>| refs_members(ms.drop_last()).contains(s) ==> refs_members(ms).contains(s),
{
    assert(size_of(ms.last().1) >= 1);
    assert forall|s: Seq<char>| refs_members(ms.drop_last()).contains(s) implies refs_members(ms).contains(s) by {
        let k = choose|k: int| 0 <= k < refs_members(ms.drop_last()).len() && refs_members(ms.drop_last())[k] == s;
        assert(refs_members(ms)[k] == s);
    }
}

// ---------------------------------------------------------------------------
// JSON pointers
// ---------------------------------------------------------------------------

/// The value reached from `cur` by looking up `parts` in turn.
pub open spec fn walk(cur: JsonView, parts: Seq<Seq<char>>) -> Option<JsonView>
    decreases parts.len(),
{
    if parts.len() == 0 {
        Some(cur)
    } else {
        match cur.get(parts[0]) {
            Some(next) => walk(next, parts.drop_first()),
            None => None,
        }
    }
}

/// The value a pointer like `#/components/schemas/Pet` names in `root`.
pub open spec fn pointer(r: Seq<char>, root: JsonView) -> Option<JsonView> {
    if starts_with(r, "#/"@) {
        walk(root, split(r.skip(2), '/'))
    } else {
        None
    }
}

pub proof fn lemma_lookup_index(ms: Seq<(Seq<char>, JsonView)>, key: Seq<char>)
    ensures
        lookup(ms, key) matches Some(v) ==> exists|i: int| 0 <= i < ms.len() && ms[i].0 == key && ms[i].1 == v,
    decreases ms.len(),
{
    if ms.len() > 0 && ms[0].0 != key {
        lemma_lookup_index(ms.drop_first(), key);
        if lookup(ms.drop_first(), key) is Some {
            let i = choose|i: int| 0 <= i < ms.drop_first().len() && ms.drop_first()[i].0 == key
                && ms.drop_first()[i].1 == lookup(ms, key)->Some_0;
            assert(ms[i + 1] == ms.drop_first()[i]);
        }
    } else if ms.len() > 0 {
        assert(ms[0].0 == key);
    }
}

/// What a pointer reaches is a part of the document: its references are the
/// document's.
pub proof fn lemma_walk_part(cur: JsonView, parts: Seq<Seq<char>>)
    ensures
        walk(cur, parts) matches Some(t) ==> forall|s: Seq<char>| refs_of(t).contains(s) ==> refs_of(cur).contains(s),
    decreases parts.len(),
{
    if parts.len() > 0 {
        match cur {
            JsonView::Object(ms) => {
                lemma_lookup_index(ms, parts[0]);
                match lookup(ms, parts[0]) {
                    Some(next) => {
                        lemma_walk_part(next, parts.drop_first());
                        let i = choose|i: int| 0 <= i < ms.len() && ms[i].0 == parts[0] && ms[i].1 == next;
                        lemma_members_parts(ms, i);
                        assert(walk(cur, parts) == walk(next, parts.drop_first()));
                        if walk(cur, parts) is Some {
                            let t = walk(cur, parts)->Some_0;
                            assert forall|s: Seq<char>| refs_of(t).contains(s) implies refs_of(cur).contains(s) by {
                                assert(refs_of(next).contains(s));
                                assert(refs_members(ms).contains(s));
                            }
                        }
                    },
                    None => {},
                }
            },
            _ => {},
        }
    }
}

/// The `$ref` string of an object, where it has one.
pub open spec fn ref_of(ms: Seq<(Seq<char>, JsonView)>) -> Option<Seq<char>> {
    match lookup(ms, "$ref"@) {
        Some(JsonView::Str(r)) => Some(r),
        _ => None,
    }
}

pub proof fn lemma_ref_of_in_refs(ms: Seq<(Seq<char>, JsonView)>)
    ensures
        ref_of(ms) matches Some(r) ==> refs_members(ms).contains(r),
{
    lemma_lookup_index(ms, "$ref"@);
    if ref_of(ms) is Some {
        let r = ref_of(ms)->Some_0;
        let i = choose|i: int| 0 <= i < ms.len() && ms[i].0 == "$ref"@ && ms[i].1 == lookup(ms, "$ref"@)->Some_0;
        lemma_members_parts(ms, i);
        assert(own_ref(ms[i]) == seq![r]);
        assert(own_ref(ms[i]).contains(r)) by {
            assert(own_ref(ms[i])[0] == r);
        }
    }
}

// ---------------------------------------------------------------------------
// The measure of the resolution
// ---------------------------------------------------------------------------

/// 0 where every reference in `refs` is one of `root`'s, else 1.
pub open spec fn outside(refs: Seq<Seq<char>>, root: JsonView) -> int {
    if forall|s: Seq<char>| refs.contains(s) ==> refs_of(root).contains(s) {
        0
    } else {
        1
    }
}

/// The number of `root`'s references not yet being followed.
pub open spec fn pending(root: JsonView, seen: Seq<Seq<char>>) -> nat {
    Set::new(|s: Seq<char>| refs_of(root).contains(s) && !seen.contains(s)).len()
}

pub proof fn lemma_pending_decreases(root: JsonView, seen: Seq<Seq<char>>, r: Seq<char>)
    requires
        refs_of(root).contains(r),
        !seen.contains(r),
    ensures
        pending(root, seen.push(r)) < pending(root, seen),
{
    let p = Set::new(|s: Seq<char>| refs_of(root).contains(s) && !seen.contains(s));
    let q = Set::new(|s: Seq<char>| refs_of(root).contains(s) && !seen.push(r).contains(s));
    vstd::seq_lib::seq_to_set_is_finite(refs_of(root));
    assert(p.subset_of(refs_of(root).to_set()));
    vstd::set_lib::lemma_len_subset(p, refs_of(root).to_set());
    assert(q =~= p.remove(r)) by {
        assert forall|s: Seq<char>| q.contains(s) <==> p.remove(r).contains(s) by {
            if seen.push(r).contains(s) {
                let k = choose|k: int| 0 <= k < seen.push(r).len() && seen.push(r)[k] == s;
                if k < seen.len() {
                    assert(seen[k] == s);
                }
            }
            if seen.contains(s) {
                let k = choose|k: int| 0 <= k < seen.len() && seen[k] == s;
                assert(seen.push(r)[k] == s);
            }
            if s == r {
                assert(seen.push(r)[seen.len() as int] == r);
            }
        }
    }
    vstd::set::axiom_set_remove_len(p, r);
}

pub proof fn lemma_outside_mono(a: Seq<Seq<char>>, b: Seq<Seq<char>>, root: JsonView)
    requires
        forall|s: Seq<char>| a.contains(s) ==> b.contains(s),
    ensures
        outside(a, root) <= outside(b, root),
{
    if outside(b, root) == 0 {
        assert forall|s: Seq<char>| a.contains(s) implies refs_of(root).contains(s) by {
            assert(b.contains(s));
        }
    }
}

// ---------------------------------------------------------------------------
// Resolution
// ---------------------------------------------------------------------------

/// A document with each `$ref` object replaced by what its pointer names in `root`,
/// resolved in turn; a reference already being followed (`seen`) becomes `{}`, and one
/// whose pointer names nothing stays as it is.
pub open spec fn resolve_spec(v: JsonView, root: JsonView, seen: Seq<Seq<char>>) -> JsonView
    decreases outside(refs_of(v), root), pending(root, seen), size_of(v), 1int,
{
    match v {
        JsonView::Object(ms) => match ref_of(ms) {
            Some(r) => if seen.contains(r) {
                JsonView::Object(Seq::empty())
            } else {
                match pointer(r, root) {
                    Some(t) => {
                        proof {
                            lemma_walk_part(root, split(r.skip(2), '/'));
                            lemma_ref_of_in_refs(ms);
                            if outside(refs_of(v), root) == 0 {
                                lemma_pending_decreases(root, seen, r);
                            }
                        }
                        resolve_spec(t, root, seen.push(r))
                    },
                    None => v,
                }
            },
            None => JsonView::Object(resolve_members(ms, root, seen)),
        },
        JsonView::Array(items) => JsonView::Array(resolve_items(items, root, seen)),
        _ => v,
    }
}

pub open spec fn resolve_items(items: Seq<JsonView>, root: JsonView, seen: Seq<Seq<char>>) -> Seq<JsonView>
    decreases outside(refs_items(items), root), pending(root, seen), sizes_items(items), 2int,
{
    if items.len() == 0 {
        Seq::empty()
    } else {
        proof {
            lemma_items_front(items);
            lemma_items_parts(items, items.len() - 1);
            lemma_outside_mono(refs_items(items.drop_last()), refs_items(items), root);
            lemma_outside_mono(refs_of(items.last()), refs_items(items), root);
        }
        resolve_items(items.drop_last(), root, seen).push(resolve_spec(items.last(), root, seen))
    }
}

pub open spec fn resolve_members(ms: Seq<(Seq<char>, JsonView)>, root: JsonView, seen: Seq<Seq<char>>) -> Seq<(Seq<char>, JsonView)>
    decreases outside(refs_members(ms), root), pending(root, seen), sizes_members(ms), 2int,
{
    if ms.len() == 0 {
        Seq::empty()
    } else {
        proof {
            lemma_members_front(ms);
            lemma_members_parts(ms, ms.len() - 1);
            lemma_outside_mono(refs_members(ms.drop_last()), refs_members(ms), root);
            lemma_outside_mono(refs_of(ms.last().1), refs_members(ms), root);
        }
        resolve_members(ms.drop_last(), root, seen).push((ms.last().0, resolve_spec(ms.last().1, root, seen)))
    }
}

pub proof fn lemma_resolve_items(items: Seq<JsonView>, root: JsonView, seen: Seq<Seq<char>>)
    ensures
        resolve_items(items, root, seen).len() == items.len(),
        forall|i: int| 0 <= i < items.len() ==> #[trigger] resolve_items(items, root, seen)[i] == resolve_spec(items[i], root, seen),
    decreases items.len(),
{
    if items.len() > 0 {
        lemma_resolve_items(items.drop_last(), root, seen);
        assert forall|i: int| 0 <= i < items.len() implies #[trigger] resolve_items(items, root, seen)[i] == resolve_spec(items[i], root, seen) by {
            if i < items.len() - 1 {
                assert(items.drop_last()[i] == items[i]);
            }
        }
    }
}

pub proof fn lemma_resolve_members(ms: Seq<(Seq<char>, JsonView)>, root: JsonView, seen: Seq<Seq<char>>)
    ensures
        resolve_members(ms, root, seen).len() == ms.len(),
        forall|i: int| 0 <= i < ms.len() ==> #[trigger] resolve_members(ms, root, seen)[i] == (ms[i].0, resolve_spec(ms[i].1, root, seen)),
    decreases ms.len(),
{
    if ms.len() > 0 {
        lemma_resolve_members(ms.drop_last(), root, seen);
        assert forall|i: int| 0 <= i < ms.len() implies #[trigger] resolve_members(ms, root, seen)[i] == (ms[i].0, resolve_spec(ms[i].1, root, seen)) by {
            if i < ms.len() - 1 {
                assert(ms.drop_last()[i] == ms[i]);
            }
        }
    }
}

/// Resolve a JSON pointer like "#/components/schemas/Pet".
pub fn resolve_pointer(ref_str: &str, root: &JsonValue) -> (r: Option<JsonValue>)
    ensures
        crate::coerce::opt_json_view(r) == pointer(ref_str@, root@),
{
    if !starts_with_str(ref_str, "#/") {
        return None;
    }
    proof {
        reveal_strlit("#/");
    }
    let cs = chars_of(ref_str);
    let path = string_of_range(&cs, 2, cs.len());
    assert(path@ =~= ref_str@.skip(2));
    let parts = split_char(path.as_str(), '/');
    let ghost pv = views(parts@);
    let mut current: &JsonValue = root;
    let mut i: usize = 0;
    assert(pv.skip(0) =~= pv);
    while i < parts.len()
        invariant
            i <= parts@.len(),
            pv == views(parts@),
            pv == split(ref_str@.skip(2), '/'),
            walk(root@, pv) == walk(current@, pv.skip(i as int)),
        decreases parts@.len() - i,
    {
        assert(pv.skip(i as int)[0] == parts@[i as int]@);
        assert(pv.skip(i as int).drop_first() =~= pv.skip(i + 1));
        match current.get(parts[i].as_str()) {
            Some(next) => {
                current = next;
            },
            None => {
                return None;
            },
        }
        i = i + 1;
    }
    Some(current.clone())
}

/// Recursively resolve $ref pointers in a JSON value.
/// `seen` tracks the current resolution chain to detect circular references.
/// After resolving a ref, it is removed from `seen` so the same ref can be
/// used in multiple unrelated locations without being treated as circular.
pub fn resolve_refs(value: &JsonValue, root: &JsonValue, seen: &mut Vec<String>) -> (r: JsonValue)
    ensures
        r@ == resolve_spec(value@, root@, views(old(seen)@)),
        views(final(seen)@) == views(old(seen)@),
    decreases outside(refs_of(value@), root@), pending(root@, views(seen@)), size_of(value@), 1int,
{
    let ghost s0 = views(seen@);
    match value {
        JsonValue::Object(map) => {
            let ghost ms = JsonValue::member_models(map@);
            proof {
                lemma_member_models(map@);
            }
            let ref_val: Option<&str> = match member_position(map, "$ref") {
                Some(i) => match &map[i].1 {
                    JsonValue::Str(s) => Some(s.as_str()),
                    _ => None,
                },
                None => None,
            };
            assert(match ref_val {
                Some(r) => ref_of(ms) == Some(r@),
                None => ref_of(ms) is None,
            });
            if let Some(ref_str) = ref_val {
                if crate::names::contains_string(seen, ref_str) {
                    // Circular reference — return empty object
                    let e: Vec<(String, JsonValue)> = Vec::new();
                    assert(JsonValue::member_models(e@) =~= Seq::<(Seq<char>, JsonView)>::empty());
                    return JsonValue::Object(e);
                }
                let result = match resolve_pointer(ref_str, root) {
                    Some(resolved) => {
                        seen.push(ref_str.to_string());
                        assert(views(seen@) =~= s0.push(ref_str@));
                        proof {
                            lemma_walk_part(root@, split(ref_str@.skip(2), '/'));
                            lemma_ref_of_in_refs(ms);
                            if outside(refs_of(value@), root@) == 0 {
                                lemma_pending_decreases(root@, s0, ref_str@);
                            }
                        }
                        let out = resolve_refs(&resolved, root, seen);
                        // Backtrack so this ref can be used elsewhere
                        let ghost sb = seen@;
                        seen.pop();
                        assert(views(seen@) =~= s0) by {
                            assert forall|k: int| 0 <= k < s0.len() implies views(seen@)[k] == s0[k] by {
                                assert(seen@[k] == sb[k]);
                                assert(views(sb)[k] == s0.push(ref_str@)[k]);
                            }
                        }
                        out
                    },
                    None => value.clone(),
                };
                return result;
            }
            let mut new_map: Vec<(String, JsonValue)> = Vec::new();
            let mut j: usize = 0;
            while j < map.len()
                invariant
                    j <= map@.len(),
                    ms == JsonValue::member_models(map@),
                    ms.len() == map@.len(),
                    forall|k: int| 0 <= k < map@.len() ==> #[trigger] ms[k] == (map@[k].0@, map@[k].1@),
                    value@ == JsonView::Object(ms),
                    ref_of(ms) is None,
                    views(seen@) == s0,
                    views(old(seen)@) == s0,
                    new_map@.len() == j,
                    forall|k: int| 0 <= k < j ==> (#[trigger] new_map@[k]).0@ == ms[k].0
                        && new_map@[k].1@ == resolve_spec(ms[k].1, root@, s0),
                decreases map@.len() - j,
            {
                proof {
                    lemma_members_parts(ms, j as int);
                    lemma_outside_mono(refs_of(ms[j as int].1), refs_members(ms), root@);
                    assert(map@[j as int].1@ == ms[j as int].1);
                    assert(size_of(value@) == 1 + sizes_members(ms));
                    assert(refs_of(value@) == refs_members(ms));
                    assert(size_of(map@[j as int].1@) < size_of(value@));
                    assert(outside(refs_of(map@[j as int].1@), root@) <= outside(refs_of(value@), root@));
                }
                let k = map[j].0.clone();
                let v = resolve_refs(&map[j].1, root, seen);
                new_map.push((k, v));
                j = j + 1;
            }
            proof {
                lemma_member_models(new_map@);
                lemma_resolve_members(ms, root@, s0);
                assert(JsonValue::member_models(new_map@) =~= resolve_members(ms, root@, s0));
            }
            JsonValue::Object(new_map)
        },
        JsonValue::Array(arr) => {
            let ghost items = JsonValue::models(arr@);
            proof {
                lemma_models(arr@);
            }
            let mut out: Vec<JsonValue> = Vec::new();
            let mut j: usize = 0;
            while j < arr.len()
                invariant
                    j <= arr@.len(),
                    items == JsonValue::models(arr@),
                    items.len() == arr@.len(),
                    forall|k: int| 0 <= k < arr@.len() ==> #[trigger] items[k] == arr@[k]@,
                    value@ == JsonView::Array(items),
                    views(seen@) == s0,
                    views(old(seen)@) == s0,
                    out@.len() == j,
                    forall|k: int| 0 <= k < j ==> #[trigger] out@[k]@ == resolve_spec(items[k], root@, s0),
                decreases arr@.len() - j,
            {
                proof {
                    lemma_items_parts(items, j as int);
                    lemma_outside_mono(refs_of(items[j as int]), refs_items(items), root@);
                    assert(arr@[j as int]@ == items[j as int]);
                    assert(size_of(value@) == 1 + sizes_items(items));
                    assert(refs_of(value@) == refs_items(items));
                    assert(size_of(arr@[j as int]@) < size_of(value@));
                    assert(outside(refs_of(arr@[j as int]@), root@) <= outside(refs_of(value@), root@));
                }
                let v = resolve_refs(&arr[j], root, seen);
                out.push(v);
                j = j + 1;
            }
            proof {
                lemma_resolve_items(items, root@, s0);
                lemma_models_eq(out@, resolve_items(items, root@, s0));
            }
            JsonValue::Array(out)
        },
        _ => value.clone(),
    }
}

} // verus!
